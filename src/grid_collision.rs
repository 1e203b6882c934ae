use vstd::prelude::*;
use std::collections::HashMap;

use crate::geometry::{Point, colliders_intersect, supported_pair};
use crate::pair_set::{EntityPairSet, lemma_base_digits_unique};
use crate::volume::{AABB, BoundVolume, Entity, aabbs_overlap};

verus! {

broadcast use vstd::std_specs::hash::group_hash_axioms;

/// Integer coordinates of a cubic grid cell: the cell holding the points
/// `x * cell_size <= p.x < (x + 1) * cell_size`, and likewise for y and z.
#[derive(Debug, Clone, Copy, PartialEq, Eq, Structural, Hash)]
pub struct GridCell {
    pub x: i32,
    pub y: i32,
    pub z: i32,
}

impl GridCell {
    pub fn new(x: i32, y: i32, z: i32) -> (r: GridCell)
        ensures
            r == (GridCell { x, y, z }),
    {
        GridCell { x, y, z }
    }
}

/// Grid coordinate of world coordinate `p`: `floor(p / cell_size)`.
pub open spec fn grid_coord(p: i32, cell_size: u32) -> int {
    p as int / cell_size as int
}

/// Cell coordinate `c` is one of the two ends `lo`, `hi` of a span.
pub open spec fn spans(lo: int, hi: int, c: int) -> bool {
    c == lo || (lo < hi && c == hi)
}

/// Cell `c` is one of the cells spanned by the corners `min` and `max`.
pub open spec fn corner_cell(min: GridCell, max: GridCell, c: GridCell) -> bool {
    &&& spans(min.x as int, max.x as int, c.x as int)
    &&& spans(min.y as int, max.y as int, c.y as int)
    &&& spans(min.z as int, max.z as int, c.z as int)
}

/// The cell of a point.
pub open spec fn cell_of(p: Point, cell_size: u32) -> GridCell {
    GridCell {
        x: grid_coord(p.x, cell_size) as i32,
        y: grid_coord(p.y, cell_size) as i32,
        z: grid_coord(p.z, cell_size) as i32,
    }
}

/// The box is bucketed into cell `c`: `c` is one of the cells of its corners.
pub open spec fn touches(aabb: AABB, cell_size: u32, c: GridCell) -> bool {
    corner_cell(cell_of(aabb.min, cell_size), cell_of(aabb.max, cell_size), c)
}

/// Some cell holds both boxes.
pub open spec fn shares_cell(a: AABB, b: AABB, cell_size: u32) -> bool {
    exists|c: GridCell| #[trigger] touches(a, cell_size, c) && touches(b, cell_size, c)
}

/// Volume `i` of the snapshot takes part in the octant with these bounds.
pub open spec fn in_octant(volumes: Seq<BoundVolume>, bounds: AABB, i: int) -> bool {
    0 <= i < volumes.len() && aabbs_overlap(volumes[i].aabb, bounds)
}

/// The broadphase of an octant pairs volume `i` with every earlier volume `j`
/// of the same octant that shares a grid cell with it.
pub open spec fn is_candidate(volumes: Seq<BoundVolume>, bounds: AABB, cell_size: u32, i: int, j: int) -> bool {
    &&& 0 <= j < i < volumes.len()
    &&& in_octant(volumes, bounds, i)
    &&& in_octant(volumes, bounds, j)
    &&& shares_cell(volumes[i].aabb, volumes[j].aabb, cell_size)
}

/// Hash key of a grid cell: its coordinates shifted to be non-negative,
/// written as the three digits of a base 2^32 number.
pub open spec fn cell_key(c: GridCell) -> int {
    ((c.x + 0x8000_0000) * 0x1_0000_0000 + (c.y + 0x8000_0000)) * 0x1_0000_0000 + (c.z + 0x8000_0000)
}

proof fn lemma_cell_key_injective(c: GridCell, d: GridCell)
    requires
        cell_key(c) == cell_key(d),
    ensures
        c == d,
{
    lemma_base_digits_unique(
        (c.x + 0x8000_0000) * 0x1_0000_0000 + (c.y + 0x8000_0000),
        c.z + 0x8000_0000,
        (d.x + 0x8000_0000) * 0x1_0000_0000 + (d.y + 0x8000_0000),
        d.z + 0x8000_0000,
    );
    lemma_base_digits_unique(c.x + 0x8000_0000, c.y + 0x8000_0000, d.x + 0x8000_0000, d.y + 0x8000_0000);
}

/// `cell_key` as the hash map's key type.
pub open spec fn cell_key128(c: GridCell) -> u128 {
    cell_key(c) as u128
}

proof fn lemma_cell_key128_injective(c: GridCell, d: GridCell)
    requires
        cell_key128(c) == cell_key128(d),
    ensures
        c == d,
{
    lemma_cell_key_range(c);
    lemma_cell_key_range(d);
    lemma_cell_key_injective(c, d);
}

proof fn lemma_cell_key_range(c: GridCell)
    ensures
        0 <= cell_key(c) < 0x1_0000_0000_0000_0000_0000_0000,
        cell_key128(c) as int == cell_key(c),
{
    let x = c.x + 0x8000_0000;
    let y = c.y + 0x8000_0000;
    let z = c.z + 0x8000_0000;
    assert(0 <= x * 0x1_0000_0000 + y <= 0xffff_ffff * 0x1_0000_0000 + 0xffff_ffff) by (nonlinear_arith)
        requires
            0 <= x <= 0xffff_ffff,
            0 <= y <= 0xffff_ffff,
    ;
    assert(0 <= (x * 0x1_0000_0000 + y) * 0x1_0000_0000 <= (0xffff_ffff * 0x1_0000_0000 + 0xffff_ffff)
        * 0x1_0000_0000) by (nonlinear_arith)
        requires
            0 <= x * 0x1_0000_0000 + y <= 0xffff_ffff * 0x1_0000_0000 + 0xffff_ffff,
    ;
}

fn key_of_cell(c: GridCell) -> (r: u128)
    ensures
        r as int == cell_key(c),
        r == cell_key128(c),
{
    proof {
        lemma_cell_key_range(c);
    }
    let x = (c.x as i64 + 0x8000_0000) as u128;
    let y = (c.y as i64 + 0x8000_0000) as u128;
    let z = (c.z as i64 + 0x8000_0000) as u128;
    proof {
        assert(x * 0x1_0000_0000 + y <= 0xffff_ffff * 0x1_0000_0000 + 0xffff_ffff) by (nonlinear_arith)
            requires
                x <= 0xffff_ffff,
                y <= 0xffff_ffff,
        ;
        assert((x * 0x1_0000_0000 + y) * 0x1_0000_0000 <= (0xffff_ffff * 0x1_0000_0000 + 0xffff_ffff)
            * 0x1_0000_0000) by (nonlinear_arith)
            requires
                x * 0x1_0000_0000 + y <= 0xffff_ffff * 0x1_0000_0000 + 0xffff_ffff,
        ;
    }
    (x * 0x1_0000_0000 + y) * 0x1_0000_0000 + z
}

/// `floor(p / d)` for a positive divisor.
fn floor_div(p: i32, d: u32) -> (r: i32)
    requires
        d >= 1,
    ensures
        r as int == p as int / d as int,
{
    if p >= 0 {
        let q = p as u32 / d;
        proof {
            vstd::arithmetic::div_mod::lemma_div_is_ordered_by_denominator(p as int, 1, d as int);
        }
        q as i32
    } else {
        let n: u64 = (0 - p as i64) as u64;
        let q: u64 = (n + d as u64 - 1) / d as u64;
        proof {
            let c = d as int;
            let m = n + c - 1;
            vstd::arithmetic::div_mod::lemma_fundamental_div_mod(m, c);
            let r = m % c;
            assert(m == c * q + r);
            assert(-n == (-(q as int)) * c + (c - 1 - r)) by (nonlinear_arith)
                requires
                    m == c * q + r,
                    m == n + c - 1,
            ;
            vstd::arithmetic::div_mod::lemma_fundamental_div_mod_converse(-n, c, -(q as int), c - 1 - r);
            assert(q <= n) by (nonlinear_arith)
                requires
                    m == c * q + r,
                    m == n + c - 1,
                    0 <= r,
                    c >= 1,
                    n >= 1,
            ;
        }
        (0 - q as i64) as i32
    }
}

/// The distinct cells spanned by two corner cells, in the order the
/// broadphase visits them: the cell of `min`, and along each axis where the
/// corners lie in different cells, the cells that take `max`'s coordinate on
/// that axis (at most eight in all).
pub open spec fn corner_cells(min: GridCell, max: GridCell) -> Seq<GridCell> {
    let (x0, y0, z0, x1, y1, z1) = (min.x, min.y, min.z, max.x, max.y, max.z);
    let c = |x: i32, y: i32, z: i32| GridCell { x, y, z };
    if x0 < x1 {
        if y0 < y1 {
            if z0 < z1 {
                seq![min, c(x1, y0, z0), c(x0, y1, z0), c(x1, y1, z0), c(x0, y0, z1), c(x0, y1, z1), c(x1, y0, z1), c(x1, y1, z1)]
            } else {
                seq![min, c(x1, y0, z0), c(x0, y1, z0), c(x1, y1, z0)]
            }
        } else if z0 < z1 {
            seq![min, c(x1, y0, z0), c(x0, y0, z1), c(x1, y0, z1)]
        } else {
            seq![min, c(x1, y0, z0)]
        }
    } else if y0 < y1 {
        if z0 < z1 {
            seq![min, c(x0, y1, z0), c(x0, y0, z1), c(x0, y1, z1)]
        } else {
            seq![min, c(x0, y1, z0)]
        }
    } else if z0 < z1 {
        seq![min, c(x0, y0, z1)]
    } else {
        seq![min]
    }
}

/// `corner_cells` lists each of the spanned cells once.
pub proof fn lemma_corner_cells(min: GridCell, max: GridCell)
    ensures
        corner_cells(min, max).no_duplicates(),
        forall|c: GridCell| corner_cells(min, max).contains(c) <==> corner_cell(min, max, c),
{
    let cells = corner_cells(min, max);
    let overlap_x = min.x < max.x;
    let overlap_y = min.y < max.y;
    let overlap_z = min.z < max.z;
    assert forall|c: GridCell| cells.contains(c) <==> corner_cell(min, max, c) by {
        if corner_cell(min, max, c) {
            let xs = if c.x == min.x { min.x } else { max.x };
            let ys = if c.y == min.y { min.y } else { max.y };
            let zs = if c.z == min.z { min.z } else { max.z };
            assert(c == GridCell { x: xs, y: ys, z: zs });
            let bx: int = if c.x == min.x { 0 } else { 1 };
            let by: int = if c.y == min.y { 0 } else { 1 };
            let bz: int = if c.z == min.z { 0 } else { 1 };
            let k: int = if overlap_x && overlap_y && overlap_z {
                if bz == 0 { bx + 2 * by } else { 4 + 2 * bx + by }
            } else if overlap_x && overlap_y {
                bx + 2 * by
            } else if overlap_x && overlap_z {
                bx + 2 * bz
            } else if overlap_x {
                bx
            } else if overlap_y && overlap_z {
                by + 2 * bz
            } else if overlap_y {
                by
            } else {
                bz
            };
            assert(cells[k] == c);
        }
    }
}

/// The cells the broadphase puts a box into, in the order it visits them.
pub open spec fn box_cells(a: AABB, cs: u32) -> Seq<GridCell> {
    corner_cells(cell_of(a.min, cs), cell_of(a.max, cs))
}

/// `box_cells` lists exactly the cells the box touches, each once.
pub proof fn lemma_box_cells(a: AABB, cs: u32)
    ensures
        box_cells(a, cs).no_duplicates(),
        forall|c: GridCell| box_cells(a, cs).contains(c) <==> touches(a, cs, c),
{
    lemma_corner_cells(cell_of(a.min, cs), cell_of(a.max, cs));
}

/// How many times `x` occurs in `s`.
pub open spec fn count_of<T>(s: Seq<T>, x: T) -> nat
    decreases s.len(),
{
    if s.len() == 0 {
        0
    } else {
        count_of(s.drop_last(), x) + if s.last() == x {
            1nat
        } else {
            0nat
        }
    }
}

/// How many of `cells` hold box `b`.
pub open spec fn count_touching(cells: Seq<GridCell>, b: AABB, cs: u32) -> nat
    decreases cells.len(),
{
    if cells.len() == 0 {
        0
    } else {
        count_touching(cells.drop_last(), b, cs) + if touches(b, cs, cells.last()) {
            1nat
        } else {
            0nat
        }
    }
}

/// Number of grid cells that hold both boxes: the cells of `a`, each counted
/// once (see `lemma_box_cells`), that also hold `b`.
pub open spec fn shared_cells(a: AABB, b: AABB, cs: u32) -> nat {
    count_touching(box_cells(a, cs), b, cs)
}

/// How many times the broadphase of an octant lists the pair `(i, j)`: once
/// for each cell both volumes are bucketed into, when `j` comes before `i`
/// and both take part in the octant; never otherwise.
pub open spec fn candidate_count(vs: Seq<BoundVolume>, bounds: AABB, cs: u32, p: (usize, usize)) -> nat {
    if p.1 < p.0 < vs.len() && in_octant(vs, bounds, p.0 as int) && in_octant(vs, bounds, p.1 as int) {
        shared_cells(vs[p.0 as int].aabb, vs[p.1 as int].aabb, cs)
    } else {
        0
    }
}

fn cells_spanned(min: GridCell, max: GridCell) -> (r: Vec<GridCell>)
    ensures
        r@ == corner_cells(min, max),
        r@.no_duplicates(),
        forall|c: GridCell| r@.contains(c) <==> corner_cell(min, max, c),
{
    let mut cells: Vec<GridCell> = Vec::new();
    cells.push(min);
    let overlap_x = min.x < max.x;
    let overlap_y = min.y < max.y;
    let overlap_z = min.z < max.z;
    if overlap_x {
        cells.push(GridCell::new(max.x, min.y, min.z));
        if overlap_y {
            cells.push(GridCell::new(min.x, max.y, min.z));
            cells.push(GridCell::new(max.x, max.y, min.z));
            if overlap_z {
                cells.push(GridCell::new(min.x, min.y, max.z));
                cells.push(GridCell::new(min.x, max.y, max.z));
                cells.push(GridCell::new(max.x, min.y, max.z));
                cells.push(GridCell::new(max.x, max.y, max.z));
            }
        } else if overlap_z {
            cells.push(GridCell::new(min.x, min.y, max.z));
            cells.push(GridCell::new(max.x, min.y, max.z));
        }
    } else if overlap_y {
        cells.push(GridCell::new(min.x, max.y, min.z));
        if overlap_z {
            cells.push(GridCell::new(min.x, min.y, max.z));
            cells.push(GridCell::new(min.x, max.y, max.z));
        }
    } else if overlap_z {
        cells.push(GridCell::new(min.x, min.y, max.z));
    }
    proof {
        lemma_corner_cells(min, max);
        assert(cells@ =~= corner_cells(min, max));
    }
    cells
}


/// Contents of the bucket stored under `key`, empty when there is none.
pub open spec fn bucket_of(grid: Map<u128, Vec<usize>>, key: u128) -> Seq<usize> {
    if grid.contains_key(key) {
        grid[key]@
    } else {
        Seq::empty()
    }
}

/// The candidate pairs that putting volume `i` into a bucket holding `bucket` produces.
pub open spec fn pairs_with(i: usize, bucket: Seq<usize>) -> Seq<(usize, usize)> {
    bucket.map_values(|j: usize| (i, j))
}

/// One octant of space (the octant's number among the system's, and its
/// bounds) and the scratch state of its collision pass for one tick: the grid, the entity pairs found to collide, the cell size, and the
/// times (in a clock of the caller's choice) at which it was received,
/// finished each phase and was returned.
#[derive(Debug)]
pub struct WorkUnit {
    index: usize,
    bounds: AABB,
    grid: HashMap<u128, Vec<usize>>,
    hits: EntityPairSet,
    cell_size: u32,
    pub received_time: u64,
    pub broadphase_time: u64,
    pub narrowphase_time: u64,
    pub returned_time: u64,
}

impl WorkUnit {
    pub closed spec fn wf(&self) -> bool {
        &&& self.grid@ == Map::<u128, Vec<usize>>::empty()
        &&& self.hits.wf()
        &&& self.cell_size >= 1
    }

    pub closed spec fn spec_bounds(&self) -> AABB {
        self.bounds
    }

    pub closed spec fn spec_index(&self) -> usize {
        self.index
    }

    pub closed spec fn spec_cell_size(&self) -> u32 {
        self.cell_size
    }

    pub closed spec fn spec_hits(&self) -> Set<(Entity, Entity)> {
        self.hits@
    }

    /// A unit for the octant `bounds`, numbered 0, with no hits and a cell
    /// size of one.
    pub fn new(bounds: AABB) -> (r: WorkUnit)
        ensures
            r.wf(),
            r.spec_index() == 0,
            r.spec_bounds() == bounds,
            r.spec_cell_size() == 1,
            r.spec_hits() == Set::<(Entity, Entity)>::empty(),
    {
        Self::numbered(0, bounds)
    }

    fn numbered(index: usize, bounds: AABB) -> (r: WorkUnit)
        ensures
            r.wf(),
            r.spec_index() == index,
            r.spec_bounds() == bounds,
            r.spec_cell_size() == 1,
            r.spec_hits() == Set::<(Entity, Entity)>::empty(),
    {
        WorkUnit {
            index,
            bounds,
            grid: HashMap::new(),
            hits: EntityPairSet::new(),
            cell_size: 1,
            received_time: 0,
            broadphase_time: 0,
            narrowphase_time: 0,
            returned_time: 0,
        }
    }

    pub fn bounds(&self) -> (r: AABB)
        ensures
            r == self.spec_bounds(),
    {
        self.bounds
    }

    /// The octant's number among those of the system that made the unit.
    pub fn index(&self) -> (r: usize)
        ensures
            r == self.spec_index(),
    {
        self.index
    }

    pub fn cell_size(&self) -> (r: u32)
        ensures
            r == self.spec_cell_size(),
    {
        self.cell_size
    }

    /// The entity pairs found to collide in this octant.
    pub fn hits(&self) -> (r: &EntityPairSet)
        requires
            self.wf(),
        ensures
            r.wf(),
            r@ == self.spec_hits(),
    {
        &self.hits
    }

    /// Converts a point in world space to its grid cell.
    pub fn world_to_grid(&self, point: Point) -> (r: GridCell)
        requires
            self.spec_cell_size() >= 1,
        ensures
            r == cell_of(point, self.spec_cell_size()),
    {
        GridCell {
            x: floor_div(point.x, self.cell_size),
            y: floor_div(point.y, self.cell_size),
            z: floor_div(point.z, self.cell_size),
        }
    }
}

/// Scratch storage of one worker, kept from tick to tick so that its
/// allocations are reused: the candidate pairs, emptied grid buckets, and the
/// keys of the cells filled during the current broadphase.
#[derive(Debug)]
pub struct Worker {
    candidates: Vec<(usize, usize)>,
    cell_cache: Vec<Vec<usize>>,
    used_cells: Vec<u128>,
}

impl Worker {
    /// The candidates the worker holds all index a snapshot of `n` volumes.
    pub closed spec fn holds_candidates_for(&self, n: nat) -> bool {
        forall|k: int| 0 <= k < self.candidates@.len() ==> {
            &&& (#[trigger] self.candidates@[k]).0 < n
            &&& self.candidates@[k].1 < n
        }
    }

    /// The candidate pairs the worker holds, in order: `(i, j)` pairs volume
    /// `i` of the snapshot with an earlier volume `j`.
    pub closed spec fn candidate_list(&self) -> Seq<(usize, usize)> {
        self.candidates@
    }

    /// The entity pairs of the held candidates whose colliders intersect.
    pub closed spec fn candidate_hits(&self, vs: Seq<BoundVolume>) -> Set<(Entity, Entity)> {
        listed_hits(vs, self.candidates@, self.candidates@.len() as int)
    }

    /// The exact test handles every held candidate whose entity pair is not
    /// among `hits`.
    pub closed spec fn candidates_testable(&self, vs: Seq<BoundVolume>, hits: Set<(Entity, Entity)>) -> bool {
        forall|k: int| 0 <= k < self.candidates@.len() ==> !hits.contains(
            entity_pair(vs, (#[trigger] self.candidates@[k]).0 as int, self.candidates@[k].1 as int),
        ) ==> supported_pair(vs[self.candidates@[k].0 as int].collider, vs[self.candidates@[k].1 as int].collider)
    }

    /// Every bucket kept for reuse is empty.
    pub closed spec fn wf(&self) -> bool {
        forall|k: int| 0 <= k < self.cell_cache@.len() ==> (#[trigger] self.cell_cache@[k])@.len() == 0
    }

    pub fn new() -> (r: Worker)
        ensures
            r.wf(),
            r.holds_candidates_for(0),
    {
        Worker { candidates: Vec::new(), cell_cache: Vec::new(), used_cells: Vec::new() }
    }

    /// Pairs volume `i` with every volume already in the bucket under `key`,
    /// then adds `i` to that bucket (creating it from the cache if needed).
    fn bucket_volume(&mut self, grid: &mut HashMap<u128, Vec<usize>>, key: u128, i: usize)
        requires
            old(self).wf(),
        ensures
            final(self).wf(),
            final(grid)@.contains_key(key),
            final(grid)@[key]@ == bucket_of(old(grid)@, key).push(i),
            final(grid)@.remove(key) == old(grid)@.remove(key),
            final(self).candidates@ == old(self).candidates@ + pairs_with(i, bucket_of(old(grid)@, key)),
            final(self).used_cells@ == (if old(grid)@.contains_key(key) {
                old(self).used_cells@
            } else {
                old(self).used_cells@.push(key)
            }),
    {
        let mut bucket = match grid.remove(&key) {
            Some(b) => {
                assert(old(grid)@.contains_key(key));
                b
            },
            None => {
                assert(!old(grid)@.contains_key(key));
                self.used_cells.push(key);
                let ghost cache = self.cell_cache@;
                match self.cell_cache.pop() {
                    Some(b) => {
                        assert(b == cache[cache.len() - 1]);
                        b
                    },
                    None => Vec::new(),
                }
            },
        };
        assert(bucket@ == bucket_of(old(grid)@, key));
        let ghost used = self.used_cells@;
        proof {
            assert forall|m: int| 0 <= m < self.cell_cache@.len() implies (#[trigger] self.cell_cache@[m])@.len() == 0 by {
                if !old(grid)@.contains_key(key) {
                    assert(self.cell_cache@[m] == old(self).cell_cache@[m]);
                }
            }
        }
        let mut k: usize = 0;
        while k < bucket.len()
            invariant
                self.wf(),
                k <= bucket@.len(),
                self.used_cells@ == used,
                self.candidates@ == old(self).candidates@ + pairs_with(i, bucket@.subrange(0, k as int)),
            decreases bucket@.len() - k,
        {
            let j = bucket[k];
            self.candidates.push((i, j));
            proof {
                assert(pairs_with(i, bucket@.subrange(0, k + 1)) =~= pairs_with(
                    i,
                    bucket@.subrange(0, k as int),
                ).push((i, j)));
            }
            k = k + 1;
        }
        assert(bucket@.subrange(0, k as int) =~= bucket@);
        bucket.push(i);
        grid.insert(key, bucket);
        proof {
            assert(grid@.remove(key) =~= old(grid)@.remove(key));
        }
    }
}


/// Volume `j` lies in the bucket of cell `c` once the broadphase has placed the
/// volumes before `i`, and volume `i` into the cells listed in `done`.
pub open spec fn occupant(
    vs: Seq<BoundVolume>,
    bounds: AABB,
    cs: u32,
    i: int,
    done: Seq<GridCell>,
    c: GridCell,
    j: int,
) -> bool {
    ||| 0 <= j < i && in_octant(vs, bounds, j) && touches(vs[j].aabb, cs, c)
    ||| j == i && done.contains(c)
}

/// Every bucket of the grid holds exactly the occupants of its cell.
pub open spec fn grid_matches(
    grid: Map<u128, Vec<usize>>,
    vs: Seq<BoundVolume>,
    bounds: AABB,
    cs: u32,
    i: int,
    done: Seq<GridCell>,
) -> bool {
    forall|c: GridCell, j: usize| #[trigger]
        bucket_of(grid, cell_key128(c)).contains(j) <==> occupant(vs, bounds, cs, i, done, c, j as int)
}

/// Some cell of `done` holds the box.
pub open spec fn touches_some(aabb: AABB, cs: u32, done: Seq<GridCell>) -> bool {
    exists|c: GridCell| #[trigger] done.contains(c) && touches(aabb, cs, c)
}

/// The candidate pairs found once the volumes before `i` are placed, and
/// volume `i` into the cells of `done`.
pub open spec fn found_before(
    vs: Seq<BoundVolume>,
    bounds: AABB,
    cs: u32,
    i: int,
    done: Seq<GridCell>,
    p: (usize, usize),
) -> bool {
    ||| p.0 < i && is_candidate(vs, bounds, cs, p.0 as int, p.1 as int)
    ||| p.0 == i && in_octant(vs, bounds, i) && p.1 < i && in_octant(vs, bounds, p.1 as int)
        && touches_some(vs[p.1 as int].aabb, cs, done)
}

proof fn lemma_pairs_with_contains(i: usize, b: Seq<usize>)
    ensures
        forall|p: (usize, usize)| #[trigger]
            pairs_with(i, b).contains(p) <==> (p.0 == i && b.contains(p.1)),
{
    assert forall|p: (usize, usize)| #[trigger]
        pairs_with(i, b).contains(p) <==> (p.0 == i && b.contains(p.1)) by {
        if pairs_with(i, b).contains(p) {
            let k = choose|k: int| 0 <= k < pairs_with(i, b).len() && pairs_with(i, b)[k] == p;
            assert(b[k] == p.1);
        }
        if p.0 == i && b.contains(p.1) {
            let k = choose|k: int| 0 <= k < b.len() && b[k] == p.1;
            assert(pairs_with(i, b)[k] == p);
        }
    }
}

/// Placing volume `i` into cell `done[t]` keeps the grid and the candidates
/// in step with `done[0..t+1]`.
proof fn lemma_place_in_cell(
    grid: Map<u128, Vec<usize>>,
    grid2: Map<u128, Vec<usize>>,
    cands: Seq<(usize, usize)>,
    cands2: Seq<(usize, usize)>,
    vs: Seq<BoundVolume>,
    bounds: AABB,
    cs: u32,
    i: usize,
    cells: Seq<GridCell>,
    t: int,
)
    requires
        0 <= t < cells.len(),
        cells.no_duplicates(),
        i < vs.len(),
        in_octant(vs, bounds, i as int),
        grid_matches(grid, vs, bounds, cs, i as int, cells.subrange(0, t)),
        forall|p: (usize, usize)| #[trigger]
            cands.contains(p) <==> found_before(vs, bounds, cs, i as int, cells.subrange(0, t), p),
        grid2.contains_key(cell_key128(cells[t])),
        grid2[cell_key128(cells[t])]@ == bucket_of(grid, cell_key128(cells[t])).push(i),
        grid2.remove(cell_key128(cells[t])) == grid.remove(cell_key128(cells[t])),
        cands2 == cands + pairs_with(i, bucket_of(grid, cell_key128(cells[t]))),
    ensures
        grid_matches(grid2, vs, bounds, cs, i as int, cells.subrange(0, t + 1)),
        forall|p: (usize, usize)| #[trigger]
            cands2.contains(p) <==> found_before(vs, bounds, cs, i as int, cells.subrange(0, t + 1), p),
{
    let ct = cells[t];
    let key = cell_key128(ct);
    let done = cells.subrange(0, t);
    let done2 = cells.subrange(0, t + 1);
    assert(done2 =~= done.push(ct));
    assert(!done.contains(ct)) by {
        if done.contains(ct) {
            let k = choose|k: int| 0 <= k < done.len() && done[k] == ct;
            assert(cells[k] == cells[t]);
        }
    }
    assert forall|c: GridCell| #[trigger] done2.contains(c) <==> (done.contains(c) || c == ct) by {
        if done2.contains(c) && c != ct {
            let k = choose|k: int| 0 <= k < done2.len() && done2[k] == c;
            assert(done[k] == c);
        }
        if done.contains(c) {
            let k = choose|k: int| 0 <= k < done.len() && done[k] == c;
            assert(done2[k] == c);
        }
        if c == ct {
            assert(done2[t] == c);
        }
    }
    assert forall|c: GridCell, j: usize| #[trigger]
        bucket_of(grid2, cell_key128(c)).contains(j) <==> occupant(vs, bounds, cs, i as int, done2, c, j as int) by {
        if c == ct {
            let old_b = bucket_of(grid, key);
            assert(bucket_of(grid2, key) == old_b.push(i));
            assert(old_b.push(i).contains(j) <==> (old_b.contains(j) || j == i)) by {
                if old_b.push(i).contains(j) && j != i {
                    let k = choose|k: int| 0 <= k < old_b.push(i).len() && old_b.push(i)[k] == j;
                    assert(old_b[k] == j);
                }
                if old_b.contains(j) {
                    let k = choose|k: int| 0 <= k < old_b.len() && old_b[k] == j;
                    assert(old_b.push(i)[k] == j);
                }
                if j == i {
                    assert(old_b.push(i)[old_b.len() as int] == j);
                }
            }
            assert(bucket_of(grid, cell_key128(c)).contains(j) <==> occupant(vs, bounds, cs, i as int, done, c, j as int));
        } else {
            if cell_key128(c) == key {
                lemma_cell_key128_injective(c, ct);
            }
            assert(grid2.remove(key).contains_key(cell_key128(c)) == grid2.contains_key(cell_key128(c)));
            assert(grid.remove(key).contains_key(cell_key128(c)) == grid.contains_key(cell_key128(c)));
            if grid.contains_key(cell_key128(c)) {
                assert(grid2.remove(key)[cell_key128(c)] == grid2[cell_key128(c)]);
                assert(grid.remove(key)[cell_key128(c)] == grid[cell_key128(c)]);
            }
            assert(bucket_of(grid2, cell_key128(c)) == bucket_of(grid, cell_key128(c)));
            assert(bucket_of(grid, cell_key128(c)).contains(j) <==> occupant(vs, bounds, cs, i as int, done, c, j as int));
        }
    }
    lemma_pairs_with_contains(i, bucket_of(grid, key));
    assert forall|p: (usize, usize)| #[trigger]
        cands2.contains(p) <==> found_before(vs, bounds, cs, i as int, done2, p) by {
        let extra = pairs_with(i, bucket_of(grid, key));
        assert(cands2.contains(p) <==> (cands.contains(p) || extra.contains(p))) by {
            if cands2.contains(p) {
                let k = choose|k: int| 0 <= k < cands2.len() && cands2[k] == p;
                if k < cands.len() {
                    assert(cands[k] == p);
                } else {
                    assert(extra[k - cands.len()] == p);
                }
            }
            if cands.contains(p) {
                let k = choose|k: int| 0 <= k < cands.len() && cands[k] == p;
                assert(cands2[k] == p);
            }
            if extra.contains(p) {
                let k = choose|k: int| 0 <= k < extra.len() && extra[k] == p;
                assert(cands2[cands.len() + k] == p);
            }
        }
        if p.0 == i && p.1 < i && in_octant(vs, bounds, p.1 as int) {
            let a = vs[p.1 as int].aabb;
            if touches_some(a, cs, done2) && !touches_some(a, cs, done) {
                let c = choose|c: GridCell| #[trigger] done2.contains(c) && touches(a, cs, c);
                assert(c == ct);
                assert(bucket_of(grid, cell_key128(ct)).contains(p.1));
            }
            if touches_some(a, cs, done) {
                let c = choose|c: GridCell| #[trigger] done.contains(c) && touches(a, cs, c);
                assert(done2.contains(c));
            }
            if bucket_of(grid, key).contains(p.1) {
                assert(occupant(vs, bounds, cs, i as int, done, ct, p.1 as int));
                assert(done2.contains(ct));
            }
        }
    }
}

proof fn lemma_count_concat<T>(s: Seq<T>, t: Seq<T>, x: T)
    ensures
        count_of(s + t, x) == count_of(s, x) + count_of(t, x),
    decreases t.len(),
{
    if t.len() == 0 {
        assert(s + t =~= s);
    } else {
        lemma_count_concat(s, t.drop_last(), x);
        assert((s + t).drop_last() =~= s + t.drop_last());
        assert((s + t).last() == t.last());
    }
}

proof fn lemma_count_pairs_with(i: usize, b: Seq<usize>, p: (usize, usize))
    ensures
        count_of(pairs_with(i, b), p) == if p.0 == i {
            count_of(b, p.1)
        } else {
            0
        },
    decreases b.len(),
{
    if b.len() == 0 {
        assert(pairs_with(i, b) =~= Seq::<(usize, usize)>::empty());
    } else {
        lemma_count_pairs_with(i, b.drop_last(), p);
        assert(pairs_with(i, b).drop_last() =~= pairs_with(i, b.drop_last()));
        assert(pairs_with(i, b).last() == (i, b.last()));
    }
}

proof fn lemma_count_unique<T>(b: Seq<T>, x: T)
    requires
        b.no_duplicates(),
    ensures
        count_of(b, x) == if b.contains(x) {
            1nat
        } else {
            0nat
        },
    decreases b.len(),
{
    if b.len() > 0 {
        let d = b.drop_last();
        assert(d.no_duplicates()) by {
            assert forall|i: int, j: int| 0 <= i < d.len() && 0 <= j < d.len() && i != j implies d[i] != d[j] by {
                assert(d[i] == b[i] && d[j] == b[j]);
            }
        }
        lemma_count_unique(d, x);
        assert(b.contains(x) <==> (d.contains(x) || b.last() == x)) by {
            if b.contains(x) && b.last() != x {
                let k = choose|k: int| 0 <= k < b.len() && b[k] == x;
                assert(d[k] == x);
            }
            if d.contains(x) {
                let k = choose|k: int| 0 <= k < d.len() && d[k] == x;
                assert(b[k] == x);
            }
        }
        if b.last() == x && d.contains(x) {
            let k = choose|k: int| 0 <= k < d.len() && d[k] == x;
            assert(b[k] == b[b.len() - 1]);
        }
    }
}

/// Every bucket of the grid lists a volume at most once.
pub open spec fn grid_unique(grid: Map<u128, Vec<usize>>) -> bool {
    forall|c: GridCell| #[trigger] bucket_of(grid, cell_key128(c)).no_duplicates()
}

/// How many times the candidates list the pair `p` once the volumes before
/// `i` are placed, and volume `i` into the cells of `done`.
pub open spec fn count_before(
    vs: Seq<BoundVolume>,
    bounds: AABB,
    cs: u32,
    i: int,
    done: Seq<GridCell>,
    p: (usize, usize),
) -> nat {
    if p.0 < i {
        candidate_count(vs, bounds, cs, p)
    } else if p.0 == i && p.1 < p.0 < vs.len() && in_octant(vs, bounds, p.0 as int) && in_octant(
        vs,
        bounds,
        p.1 as int,
    ) {
        count_touching(done, vs[p.1 as int].aabb, cs)
    } else {
        0
    }
}

/// Placing volume `i` into cell `cells[t]` keeps the buckets free of repeats
/// and the candidate counts in step with `cells[0..t+1]`.
proof fn lemma_place_counts(
    grid: Map<u128, Vec<usize>>,
    grid2: Map<u128, Vec<usize>>,
    cands: Seq<(usize, usize)>,
    cands2: Seq<(usize, usize)>,
    vs: Seq<BoundVolume>,
    bounds: AABB,
    cs: u32,
    i: usize,
    cells: Seq<GridCell>,
    t: int,
)
    requires
        0 <= t < cells.len(),
        cells.no_duplicates(),
        i < vs.len(),
        in_octant(vs, bounds, i as int),
        grid_matches(grid, vs, bounds, cs, i as int, cells.subrange(0, t)),
        grid_unique(grid),
        forall|p: (usize, usize)| #[trigger]
            count_of(cands, p) == count_before(vs, bounds, cs, i as int, cells.subrange(0, t), p),
        grid2.contains_key(cell_key128(cells[t])),
        grid2[cell_key128(cells[t])]@ == bucket_of(grid, cell_key128(cells[t])).push(i),
        grid2.remove(cell_key128(cells[t])) == grid.remove(cell_key128(cells[t])),
        cands2 == cands + pairs_with(i, bucket_of(grid, cell_key128(cells[t]))),
    ensures
        grid_unique(grid2),
        forall|p: (usize, usize)| #[trigger]
            count_of(cands2, p) == count_before(vs, bounds, cs, i as int, cells.subrange(0, t + 1), p),
{
    let ct = cells[t];
    let key = cell_key128(ct);
    let done = cells.subrange(0, t);
    let done2 = cells.subrange(0, t + 1);
    let old_b = bucket_of(grid, key);
    assert(done2 =~= done.push(ct));
    assert(done2.drop_last() =~= done);
    assert(!done.contains(ct)) by {
        if done.contains(ct) {
            let k = choose|k: int| 0 <= k < done.len() && done[k] == ct;
            assert(cells[k] == cells[t]);
        }
    }
    assert(!old_b.contains(i)) by {
        assert(old_b.contains(i) <==> occupant(vs, bounds, cs, i as int, done, ct, i as int));
    }
    assert forall|c: GridCell| #[trigger] bucket_of(grid2, cell_key128(c)).no_duplicates() by {
        if c == ct {
            assert(bucket_of(grid2, key) == old_b.push(i));
            assert(old_b.no_duplicates());
            assert forall|x: int, y: int| 0 <= x < old_b.len() + 1 && 0 <= y < old_b.len() + 1 && x != y
                implies old_b.push(i)[x] != old_b.push(i)[y] by {
                if x < old_b.len() && y < old_b.len() {
                } else if x < old_b.len() {
                    assert(old_b.contains(old_b[x]));
                } else {
                    assert(old_b.contains(old_b[y]));
                }
            }
        } else {
            if cell_key128(c) == key {
                lemma_cell_key128_injective(c, ct);
            }
            assert(grid2.remove(key).contains_key(cell_key128(c)) == grid2.contains_key(cell_key128(c)));
            assert(grid.remove(key).contains_key(cell_key128(c)) == grid.contains_key(cell_key128(c)));
            if grid.contains_key(cell_key128(c)) {
                assert(grid2.remove(key)[cell_key128(c)] == grid2[cell_key128(c)]);
                assert(grid.remove(key)[cell_key128(c)] == grid[cell_key128(c)]);
            }
            assert(bucket_of(grid2, cell_key128(c)) == bucket_of(grid, cell_key128(c)));
        }
    }
    assert forall|p: (usize, usize)| #[trigger]
        count_of(cands2, p) == count_before(vs, bounds, cs, i as int, done2, p) by {
        lemma_count_concat(cands, pairs_with(i, old_b), p);
        lemma_count_pairs_with(i, old_b, p);
        lemma_count_unique(old_b, p.1);
        if p.0 == i {
            assert(old_b.contains(p.1) <==> occupant(vs, bounds, cs, i as int, done, ct, p.1 as int));
            assert(count_touching(done2, vs[p.1 as int].aabb, cs) == count_touching(done, vs[p.1 as int].aabb, cs) + if touches(
                vs[p.1 as int].aabb,
                cs,
                ct,
            ) {
                1nat
            } else {
                0nat
            });
        }
    }
}

impl Worker {
    /// Broadphase of one octant: every volume of the snapshot that overlaps
    /// the octant is paired with each earlier such volume already bucketed in
    /// one of its cells, then added to those cells. A pair may be listed once
    /// for each cell the two share. The grid is emptied again at the end and
    /// its buckets kept for reuse.
    fn do_broadphase(&mut self, work: &mut WorkUnit, volumes: &Vec<BoundVolume>)
        requires
            old(work).wf(),
            old(self).wf(),
        ensures
            final(work).wf(),
            final(self).wf(),
            final(work).spec_bounds() == old(work).spec_bounds(),
            final(work).spec_index() == old(work).spec_index(),
            final(work).spec_cell_size() == old(work).spec_cell_size(),
            final(work).spec_hits() == old(work).spec_hits(),
            final(work).hits == old(work).hits,
            volumes@.len() <= usize::MAX,
            forall|p: (usize, usize)| #[trigger]
                final(self).candidates@.contains(p) <==> is_candidate(
                    volumes@,
                    old(work).spec_bounds(),
                    old(work).spec_cell_size(),
                    p.0 as int,
                    p.1 as int,
                ),
            forall|p: (usize, usize)| #[trigger]
                count_of(final(self).candidates@, p) == candidate_count(
                    volumes@,
                    old(work).spec_bounds(),
                    old(work).spec_cell_size(),
                    p,
                ),
    {
        let ghost vs = volumes@;
        let ghost bounds = work.bounds;
        let ghost cs = work.cell_size;
        self.candidates.clear();
        self.used_cells.clear();
        proof {
            assert forall|c: GridCell, j: usize| #[trigger]
                bucket_of(work.grid@, cell_key128(c)).contains(j) <==> occupant(vs, bounds, cs, 0, Seq::empty(), c, j as int) by {
            }
            assert forall|c: GridCell| #[trigger] bucket_of(work.grid@, cell_key128(c)).no_duplicates() by {
                assert(bucket_of(work.grid@, cell_key128(c)) =~= Seq::<usize>::empty());
            }
            assert forall|p: (usize, usize)| #[trigger]
                count_of(self.candidates@, p) == count_before(vs, bounds, cs, 0, Seq::empty(), p) by {
                assert(count_touching(Seq::<GridCell>::empty(), vs[p.1 as int].aabb, cs) == 0);
            }
        }
        let mut i: usize = 0;
        while i < volumes.len()
            invariant
                self.wf(),
                i <= vs.len(),
                vs == volumes@,
                work.bounds == bounds,
                work.index == old(work).index,
                work.cell_size == cs,
                cs >= 1,
                work.hits == old(work).hits,
                grid_matches(work.grid@, vs, bounds, cs, i as int, Seq::empty()),
                grid_unique(work.grid@),
                forall|p: (usize, usize)| #[trigger]
                    self.candidates@.contains(p) <==> found_before(vs, bounds, cs, i as int, Seq::empty(), p),
                forall|p: (usize, usize)| #[trigger]
                    count_of(self.candidates@, p) == count_before(vs, bounds, cs, i as int, Seq::empty(), p),
                forall|k: u128| work.grid@.contains_key(k) ==> #[trigger] self.used_cells@.contains(k),
            decreases vs.len() - i,
        {
            let aabb = volumes[i].aabb;
            if aabb.test_aabb(&work.bounds) {
                let min = work.world_to_grid(aabb.min);
                let max = work.world_to_grid(aabb.max);
                let cells = cells_spanned(min, max);
                proof {
                    assert(cells@.subrange(0, 0) =~= Seq::<GridCell>::empty());
                }
                let mut t: usize = 0;
                while t < cells.len()
                    invariant
                        self.wf(),
                        t <= cells@.len(),
                        i < vs.len(),
                        vs == volumes@,
                        in_octant(vs, bounds, i as int),
                        cells@.no_duplicates(),
                        cells@ == box_cells(vs[i as int].aabb, cs),
                        grid_unique(work.grid@),
                        forall|p: (usize, usize)| #[trigger]
                            count_of(self.candidates@, p) == count_before(vs, bounds, cs, i as int, cells@.subrange(0, t as int), p),
                        work.bounds == bounds,
                        work.index == old(work).index,
                        work.cell_size == cs,
                        cs >= 1,
                        work.hits == old(work).hits,
                        grid_matches(work.grid@, vs, bounds, cs, i as int, cells@.subrange(0, t as int)),
                        forall|p: (usize, usize)| #[trigger]
                            self.candidates@.contains(p) <==> found_before(vs, bounds, cs, i as int, cells@.subrange(0, t as int), p),
                        forall|k: u128| work.grid@.contains_key(k) ==> #[trigger] self.used_cells@.contains(k),
                    decreases cells@.len() - t,
                {
                    let key = key_of_cell(cells[t]);
                    let ghost grid0 = work.grid@;
                    let ghost cands0 = self.candidates@;
                    let ghost used0 = self.used_cells@;
                    self.bucket_volume(&mut work.grid, key, i);
                    proof {
                        lemma_place_in_cell(grid0, work.grid@, cands0, self.candidates@, vs, bounds, cs, i, cells@, t as int);
                        lemma_place_counts(grid0, work.grid@, cands0, self.candidates@, vs, bounds, cs, i, cells@, t as int);
                        assert forall|k: u128| work.grid@.contains_key(k) implies #[trigger] self.used_cells@.contains(k) by {
                            if k != key {
                                assert(work.grid@.remove(key).contains_key(k));
                                assert(grid0.contains_key(k));
                                assert(used0.contains(k));
                                let w = choose|w: int| 0 <= w < used0.len() && used0[w] == k;
                                assert(self.used_cells@[w] == k);
                            } else if !grid0.contains_key(key) {
                                assert(self.used_cells@[used0.len() as int] == k);
                            }
                        }
                    }
                    t = t + 1;
                }
                proof {
                    assert(cells@.subrange(0, t as int) =~= cells@);
                    lemma_volume_placed(work.grid@, self.candidates@, vs, bounds, cs, i, cells@);
                    lemma_volume_counts(self.candidates@, vs, bounds, cs, i, cells@);
                }
            } else {
                proof {
                    lemma_volume_skipped(work.grid@, self.candidates@, vs, bounds, cs, i);
                    lemma_volume_counts(self.candidates@, vs, bounds, cs, i, Seq::empty());
                }
            }
            i = i + 1;
        }
        self.release_grid(work);
        proof {
            assert forall|p: (usize, usize)| #[trigger]
                self.candidates@.contains(p) <==> is_candidate(vs, bounds, cs, p.0 as int, p.1 as int) by {
                assert(found_before(vs, bounds, cs, i as int, Seq::empty(), p) <==> is_candidate(vs, bounds, cs, p.0 as int, p.1 as int));
            }
            assert forall|p: (usize, usize)| #[trigger]
                count_of(self.candidates@, p) == candidate_count(vs, bounds, cs, p) by {
                assert(count_before(vs, bounds, cs, i as int, Seq::empty(), p) == candidate_count(vs, bounds, cs, p));
            }
        }
    }

    /// Empties the grid, clearing each bucket and keeping it in the cache.
    fn release_grid(&mut self, work: &mut WorkUnit)
        requires
            old(self).wf(),
            forall|k: u128| old(work).grid@.contains_key(k) ==> #[trigger] old(self).used_cells@.contains(k),
        ensures
            final(self).wf(),
            final(work).grid@ == Map::<u128, Vec<usize>>::empty(),
            final(work).bounds == old(work).bounds,
            final(work).index == old(work).index,
            final(work).cell_size == old(work).cell_size,
            final(work).hits == old(work).hits,
            final(self).candidates == old(self).candidates,
    {
        proof {
            assert forall|k: u128| work.grid@.contains_key(k) implies exists|w: int|
                0 <= w < self.used_cells@.len() && #[trigger] self.used_cells@[w] == k by {
                assert(self.used_cells@.contains(k));
            }
        }
        let mut u: usize = 0;
        while u < self.used_cells.len()
            invariant
                self.wf(),
                u <= self.used_cells@.len(),
                self.used_cells@ == old(self).used_cells@,
                self.candidates == old(self).candidates,
                work.bounds == old(work).bounds,
                work.index == old(work).index,
                work.cell_size == old(work).cell_size,
                work.hits == old(work).hits,
                forall|k: u128| work.grid@.contains_key(k) ==> exists|w: int|
                    u <= w < self.used_cells@.len() && #[trigger] self.used_cells@[w] == k,
            decreases self.used_cells@.len() - u,
        {
            let key = self.used_cells[u];
            let ghost grid0 = work.grid@;
            match work.grid.remove(&key) {
                Some(b) => {
                    let mut b = b;
                    b.clear();
                    let ghost cache = self.cell_cache@;
                    self.cell_cache.push(b);
                    proof {
                        assert forall|m: int| 0 <= m < self.cell_cache@.len() implies (#[trigger] self.cell_cache@[m])@.len() == 0 by {
                            if m < cache.len() {
                                assert(self.cell_cache@[m] == cache[m]);
                            }
                        }
                    }
                },
                None => {},
            }
            proof {
                assert forall|k: u128| work.grid@.contains_key(k) implies exists|w: int|
                    u + 1 <= w < self.used_cells@.len() && #[trigger] self.used_cells@[w] == k by {
                    assert(grid0.contains_key(k) && k != key);
                    let w = choose|w: int| u <= w < self.used_cells@.len() && #[trigger] self.used_cells@[w] == k;
                    assert(w != u);
                }
            }
            u = u + 1;
        }
        self.used_cells.clear();
        proof {
            assert(work.grid@ =~= Map::<u128, Vec<usize>>::empty());
        }
    }
}

/// Once volume `i` (in the octant) sits in all of its cells, the state is the
/// one of volume `i + 1` with no cell done.
proof fn lemma_volume_placed(
    grid: Map<u128, Vec<usize>>,
    cands: Seq<(usize, usize)>,
    vs: Seq<BoundVolume>,
    bounds: AABB,
    cs: u32,
    i: usize,
    cells: Seq<GridCell>,
)
    requires
        i < vs.len(),
        in_octant(vs, bounds, i as int),
        forall|c: GridCell| cells.contains(c) <==> touches(vs[i as int].aabb, cs, c),
        grid_matches(grid, vs, bounds, cs, i as int, cells),
        forall|p: (usize, usize)| #[trigger]
            cands.contains(p) <==> found_before(vs, bounds, cs, i as int, cells, p),
    ensures
        grid_matches(grid, vs, bounds, cs, i + 1, Seq::empty()),
        forall|p: (usize, usize)| #[trigger]
            cands.contains(p) <==> found_before(vs, bounds, cs, i + 1, Seq::empty(), p),
{
    assert forall|c: GridCell, j: usize| #[trigger]
        bucket_of(grid, cell_key128(c)).contains(j) <==> occupant(vs, bounds, cs, i + 1, Seq::empty(), c, j as int) by {
        assert(occupant(vs, bounds, cs, i as int, cells, c, j as int) <==> occupant(vs, bounds, cs, i + 1, Seq::empty(), c, j as int));
    }
    assert forall|p: (usize, usize)| #[trigger]
        cands.contains(p) <==> found_before(vs, bounds, cs, i + 1, Seq::empty(), p) by {
        if p.0 == i && p.1 < i && in_octant(vs, bounds, p.1 as int) {
            let a = vs[i as int].aabb;
            let b = vs[p.1 as int].aabb;
            if touches_some(b, cs, cells) {
                let c = choose|c: GridCell| #[trigger] cells.contains(c) && touches(b, cs, c);
                assert(touches(a, cs, c) && touches(b, cs, c));
            }
            if shares_cell(a, b, cs) {
                let c = choose|c: GridCell| #[trigger] touches(a, cs, c) && touches(b, cs, c);
                assert(cells.contains(c));
            }
        }
    }
}

/// The candidate counts once volume `i` sits in all of its cells (or is
/// outside the octant) are those of volume `i + 1` with no cell done.
proof fn lemma_volume_counts(cands: Seq<(usize, usize)>, vs: Seq<BoundVolume>, bounds: AABB, cs: u32, i: usize, done: Seq<GridCell>)
    requires
        i < vs.len(),
        in_octant(vs, bounds, i as int) ==> done == box_cells(vs[i as int].aabb, cs),
        forall|p: (usize, usize)| #[trigger] count_of(cands, p) == count_before(vs, bounds, cs, i as int, done, p),
    ensures
        forall|p: (usize, usize)| #[trigger] count_of(cands, p) == count_before(vs, bounds, cs, i + 1, Seq::empty(), p),
{
    assert forall|p: (usize, usize)| #[trigger] count_of(cands, p) == count_before(vs, bounds, cs, i + 1, Seq::empty(), p) by {
        assert(count_touching(Seq::<GridCell>::empty(), vs[p.1 as int].aabb, cs) == 0);
    }
}

/// A volume outside the octant changes nothing.
proof fn lemma_volume_skipped(
    grid: Map<u128, Vec<usize>>,
    cands: Seq<(usize, usize)>,
    vs: Seq<BoundVolume>,
    bounds: AABB,
    cs: u32,
    i: usize,
)
    requires
        i < vs.len(),
        !in_octant(vs, bounds, i as int),
        grid_matches(grid, vs, bounds, cs, i as int, Seq::empty()),
        forall|p: (usize, usize)| #[trigger]
            cands.contains(p) <==> found_before(vs, bounds, cs, i as int, Seq::empty(), p),
    ensures
        grid_matches(grid, vs, bounds, cs, i + 1, Seq::empty()),
        forall|p: (usize, usize)| #[trigger]
            cands.contains(p) <==> found_before(vs, bounds, cs, i + 1, Seq::empty(), p),
{
    assert forall|c: GridCell, j: usize| #[trigger]
        bucket_of(grid, cell_key128(c)).contains(j) <==> occupant(vs, bounds, cs, i + 1, Seq::empty(), c, j as int) by {
        assert(occupant(vs, bounds, cs, i as int, Seq::empty(), c, j as int) <==> occupant(vs, bounds, cs, i + 1, Seq::empty(), c, j as int));
    }
}


/// Why a collision pass could not be completed.
#[derive(Debug, Clone, Copy, PartialEq, Eq, Structural)]
pub enum CollisionError {
    /// A tick was started while some work units of the previous one were
    /// still out.
    WorkUnitsOutstanding { expected: usize, found: usize },
}

/// The entity pair that candidate `(i, j)` stands for.
pub open spec fn entity_pair(vs: Seq<BoundVolume>, i: int, j: int) -> (Entity, Entity) {
    (vs[i].entity, vs[j].entity)
}

/// The exact test handles every candidate pair of the octant whose entity
/// pair is not among `hits` (those are skipped untested).
pub open spec fn octant_testable(vs: Seq<BoundVolume>, bounds: AABB, cs: u32, hits: Set<(Entity, Entity)>) -> bool {
    forall|i: int, j: int| #[trigger] is_candidate(vs, bounds, cs, i, j) && !hits.contains(entity_pair(vs, i, j))
        ==> supported_pair(vs[i].collider, vs[j].collider)
}

/// The entity pairs of the octant's candidates whose colliders intersect.
pub open spec fn octant_hits(vs: Seq<BoundVolume>, bounds: AABB, cs: u32) -> Set<(Entity, Entity)> {
    Set::new(|p: (Entity, Entity)| exists|i: int, j: int| #[trigger] is_candidate(vs, bounds, cs, i, j)
        && colliders_intersect(vs[i].collider, vs[j].collider) && p == entity_pair(vs, i, j))
}

/// The entity pairs of the first `k` candidates whose colliders intersect.
pub open spec fn listed_hits(vs: Seq<BoundVolume>, cands: Seq<(usize, usize)>, k: int) -> Set<(Entity, Entity)> {
    Set::new(|p: (Entity, Entity)| exists|m: int| 0 <= m < k
        && colliders_intersect(vs[#[trigger] cands[m].0 as int].collider, vs[cands[m].1 as int].collider)
        && p == entity_pair(vs, cands[m].0 as int, cands[m].1 as int))
}

impl Worker {
    /// Narrowphase of one octant: each candidate whose entity pair is not yet
    /// a hit gets the exact test, and is recorded when it passes; one whose
    /// pair is already a hit is skipped untested.
    fn do_narrowphase(&mut self, work: &mut WorkUnit, volumes: &Vec<BoundVolume>)
        requires
            old(work).wf(),
            old(self).wf(),
            old(self).holds_candidates_for(volumes@.len()),
            old(self).candidates_testable(volumes@, old(work).spec_hits()),
        ensures
            final(work).wf(),
            final(self).wf(),
            final(work).spec_bounds() == old(work).spec_bounds(),
            final(work).spec_index() == old(work).spec_index(),
            final(work).spec_cell_size() == old(work).spec_cell_size(),
            final(self).candidates@.len() == 0,
            final(work).spec_hits() == old(work).spec_hits().union(old(self).candidate_hits(volumes@)),
    {
        let ghost vs = volumes@;
        let ghost cands = self.candidates@;
        let ghost hits0 = work.hits@;
        proof {
            assert(listed_hits(vs, cands, 0) =~= Set::<(Entity, Entity)>::empty());
            assert(hits0 =~= hits0.union(listed_hits(vs, cands, 0)));
        }
        let mut k: usize = 0;
        while k < self.candidates.len()
            invariant
                k <= cands.len(),
                self.candidates@ == cands,
                self.cell_cache == old(self).cell_cache,
                vs == volumes@,
                work.wf(),
                work.bounds == old(work).bounds,
                work.index == old(work).index,
                work.cell_size == old(work).cell_size,
                hits0 == old(work).hits@,
                forall|m: int| 0 <= m < cands.len() ==> (#[trigger] cands[m]).0 < vs.len() && cands[m].1 < vs.len(),
                forall|m: int| 0 <= m < cands.len() ==> !hits0.contains(
                    entity_pair(vs, (#[trigger] cands[m]).0 as int, cands[m].1 as int),
                ) ==> supported_pair(vs[cands[m].0 as int].collider, vs[cands[m].1 as int].collider),
                work.hits@ == hits0.union(listed_hits(vs, cands, k as int)),
            decreases cands.len() - k,
        {
            let (i, j) = self.candidates[k];
            let a = volumes[i].entity;
            let b = volumes[j].entity;
            proof {
                assert(cands[k as int] == (i, j));
            }
            // Test only pairs not already known to collide: the exact test is
            // the expensive part.
            if !work.hits.contains(a, b) {
                if volumes[i].test(&volumes[j]) {
                    work.hits.insert(a, b);
                }
            }
            proof {
                let next = listed_hits(vs, cands, k + 1);
                let prev = listed_hits(vs, cands, k as int);
                let hit = colliders_intersect(vs[i as int].collider, vs[j as int].collider);
                assert forall|p: (Entity, Entity)| next.contains(p) <==> (prev.contains(p) || (hit && p == (a, b))) by {
                    if next.contains(p) && !prev.contains(p) {
                        let m = choose|m: int| 0 <= m < k + 1
                            && colliders_intersect(vs[#[trigger] cands[m].0 as int].collider, vs[cands[m].1 as int].collider)
                            && p == entity_pair(vs, cands[m].0 as int, cands[m].1 as int);
                        assert(m == k);
                    }
                    if prev.contains(p) {
                        let m = choose|m: int| 0 <= m < k
                            && colliders_intersect(vs[#[trigger] cands[m].0 as int].collider, vs[cands[m].1 as int].collider)
                            && p == entity_pair(vs, cands[m].0 as int, cands[m].1 as int);
                        assert(0 <= m < k + 1);
                    }
                    if hit && p == (a, b) {
                        assert(colliders_intersect(vs[cands[k as int].0 as int].collider, vs[cands[k as int].1 as int].collider));
                    }
                }
                assert(work.hits@ =~= hits0.union(next));
            }
            k = k + 1;
        }
        self.candidates.clear();
    }
}

/// The narrowphase over the broadphase's candidates finds exactly the
/// octant's hits.
proof fn lemma_listed_hits_are_octant_hits(
    vs: Seq<BoundVolume>,
    bounds: AABB,
    cs: u32,
    cands: Seq<(usize, usize)>,
)
    requires
        vs.len() <= usize::MAX,
        forall|p: (usize, usize)| #[trigger] cands.contains(p) <==> is_candidate(vs, bounds, cs, p.0 as int, p.1 as int),
    ensures
        listed_hits(vs, cands, cands.len() as int) == octant_hits(vs, bounds, cs),
        forall|hits: Set<(Entity, Entity)>|
            (forall|k: int| 0 <= k < cands.len() ==> !hits.contains(
                entity_pair(vs, (#[trigger] cands[k]).0 as int, cands[k].1 as int),
            ) ==> supported_pair(vs[cands[k].0 as int].collider, vs[cands[k].1 as int].collider))
                <==> #[trigger] octant_testable(vs, bounds, cs, hits),
{
    let l = listed_hits(vs, cands, cands.len() as int);
    let o = octant_hits(vs, bounds, cs);
    assert forall|p: (Entity, Entity)| l.contains(p) <==> o.contains(p) by {
        if l.contains(p) {
            let m = choose|m: int| 0 <= m < cands.len()
                && colliders_intersect(vs[#[trigger] cands[m].0 as int].collider, vs[cands[m].1 as int].collider)
                && p == entity_pair(vs, cands[m].0 as int, cands[m].1 as int);
            assert(cands.contains(cands[m]));
            assert(is_candidate(vs, bounds, cs, cands[m].0 as int, cands[m].1 as int));
        }
        if o.contains(p) {
            let (i, j) = choose|i: int, j: int| #[trigger] is_candidate(vs, bounds, cs, i, j)
                && colliders_intersect(vs[i].collider, vs[j].collider) && p == entity_pair(vs, i, j);
            assert(cands.contains((i as usize, j as usize)));
            let m = choose|m: int| 0 <= m < cands.len() && cands[m] == (i as usize, j as usize);
            assert(colliders_intersect(vs[cands[m].0 as int].collider, vs[cands[m].1 as int].collider));
        }
    }
    assert(l =~= o);
    assert forall|hits: Set<(Entity, Entity)>|
        (forall|k: int| 0 <= k < cands.len() ==> !hits.contains(
            entity_pair(vs, (#[trigger] cands[k]).0 as int, cands[k].1 as int),
        ) ==> supported_pair(vs[cands[k].0 as int].collider, vs[cands[k].1 as int].collider))
            <==> #[trigger] octant_testable(vs, bounds, cs, hits) by {
        if forall|k: int| 0 <= k < cands.len() ==> !hits.contains(
            entity_pair(vs, (#[trigger] cands[k]).0 as int, cands[k].1 as int),
        ) ==> supported_pair(vs[cands[k].0 as int].collider, vs[cands[k].1 as int].collider) {
            assert forall|i: int, j: int| #[trigger] is_candidate(vs, bounds, cs, i, j) && !hits.contains(
                entity_pair(vs, i, j),
            ) implies supported_pair(vs[i].collider, vs[j].collider) by {
                assert(cands.contains((i as usize, j as usize)));
                let m = choose|m: int| 0 <= m < cands.len() && cands[m] == (i as usize, j as usize);
                assert(cands[m].0 as int == i && cands[m].1 as int == j);
            }
        }
        if octant_testable(vs, bounds, cs, hits) {
            assert forall|k: int| 0 <= k < cands.len() && !hits.contains(
                entity_pair(vs, (#[trigger] cands[k]).0 as int, cands[k].1 as int),
            ) implies supported_pair(vs[cands[k].0 as int].collider, vs[cands[k].1 as int].collider) by {
                assert(cands.contains(cands[k]));
                assert(is_candidate(vs, bounds, cs, cands[k].0 as int, cands[k].1 as int));
            }
        }
    }
}

impl Worker {
    /// The broadphase step of `process`, for callers that time the two phases
    /// apart: lists each pair `(i, j)` of volumes of the octant, `j` earlier,
    /// once for every grid cell both are bucketed into.
    pub fn broadphase(&mut self, work: &mut WorkUnit, volumes: &Vec<BoundVolume>)
        requires
            old(work).wf(),
            old(self).wf(),
        ensures
            final(work).wf(),
            final(self).wf(),
            final(work).spec_bounds() == old(work).spec_bounds(),
            final(work).spec_index() == old(work).spec_index(),
            final(work).spec_cell_size() == old(work).spec_cell_size(),
            final(work).spec_hits() == old(work).spec_hits(),
            final(self).holds_candidates_for(volumes@.len()),
            forall|p: (usize, usize)| #[trigger]
                count_of(final(self).candidate_list(), p) == candidate_count(
                    volumes@,
                    old(work).spec_bounds(),
                    old(work).spec_cell_size(),
                    p,
                ),
            final(self).candidate_hits(volumes@) == octant_hits(volumes@, old(work).spec_bounds(), old(work).spec_cell_size()),
            forall|hits: Set<(Entity, Entity)>| #[trigger] final(self).candidates_testable(volumes@, hits)
                <==> octant_testable(volumes@, old(work).spec_bounds(), old(work).spec_cell_size(), hits),
    {
        self.do_broadphase(work, volumes);
        proof {
            lemma_listed_hits_are_octant_hits(volumes@, work.bounds, work.cell_size, self.candidates@);
            assert forall|k: int| 0 <= k < self.candidates@.len() implies {
                &&& (#[trigger] self.candidates@[k]).0 < volumes@.len()
                &&& self.candidates@[k].1 < volumes@.len()
            } by {
                assert(self.candidates@.contains(self.candidates@[k]));
            }
        }
    }

    /// The first held candidate that the narrowphase would have to test
    /// although the exact test does not handle its shapes (its entity pair is
    /// not among `work`'s hits), as that pair; `None` when there is none.
    pub fn untestable_candidate(&self, work: &WorkUnit, volumes: &Vec<BoundVolume>) -> (r: Option<(Entity, Entity)>)
        requires
            work.wf(),
            self.holds_candidates_for(volumes@.len()),
        ensures
            r is None <==> self.candidates_testable(volumes@, work.spec_hits()),
    {
        let mut k: usize = 0;
        while k < self.candidates.len()
            invariant
                k <= self.candidates@.len(),
                work.wf(),
                self.holds_candidates_for(volumes@.len()),
                forall|m: int| 0 <= m < k ==> !work.spec_hits().contains(
                    entity_pair(volumes@, (#[trigger] self.candidates@[m]).0 as int, self.candidates@[m].1 as int),
                ) ==> supported_pair(
                    volumes@[self.candidates@[m].0 as int].collider,
                    volumes@[self.candidates@[m].1 as int].collider,
                ),
            decreases self.candidates@.len() - k,
        {
            let (i, j) = self.candidates[k];
            let a = volumes[i].entity;
            let b = volumes[j].entity;
            if !work.hits.contains(a, b) && !volumes[i].collider.supports(&volumes[j].collider) {
                proof {
                    assert(self.candidates@[k as int] == (i, j));
                }
                return Some((a, b));
            }
            k = k + 1;
        }
        None
    }

    /// The narrowphase step of `process`, on the candidates the broadphase
    /// just left for the same snapshot: tests each candidate whose entity
    /// pair is not yet a hit, and records it when it passes.
    pub fn narrowphase(&mut self, work: &mut WorkUnit, volumes: &Vec<BoundVolume>)
        requires
            old(work).wf(),
            old(self).wf(),
            old(self).holds_candidates_for(volumes@.len()),
            old(self).candidates_testable(volumes@, old(work).spec_hits()),
        ensures
            final(work).wf(),
            final(self).wf(),
            final(work).spec_bounds() == old(work).spec_bounds(),
            final(work).spec_index() == old(work).spec_index(),
            final(work).spec_cell_size() == old(work).spec_cell_size(),
            final(self).holds_candidates_for(0),
            final(work).spec_hits() == old(work).spec_hits().union(old(self).candidate_hits(volumes@)),
    {
        self.do_narrowphase(work, volumes);
    }

    /// Runs the broadphase then the narrowphase of one octant. Every
    /// candidate whose entity pair is not already among the unit's hits must
    /// be a pair of shapes the exact test handles.
    pub fn process(&mut self, work: &mut WorkUnit, volumes: &Vec<BoundVolume>)
        requires
            old(work).wf(),
            old(self).wf(),
            octant_testable(volumes@, old(work).spec_bounds(), old(work).spec_cell_size(), old(work).spec_hits()),
        ensures
            final(work).wf(),
            final(self).wf(),
            final(work).spec_bounds() == old(work).spec_bounds(),
            final(work).spec_index() == old(work).spec_index(),
            final(work).spec_cell_size() == old(work).spec_cell_size(),
            final(work).spec_hits() == old(work).spec_hits().union(
                octant_hits(volumes@, old(work).spec_bounds(), old(work).spec_cell_size()),
            ),
    {
        self.broadphase(work, volumes);
        self.do_narrowphase(work, volumes);
    }
}

/// Number of octants, and of work units, a system made by `new` has.
pub const NUM_WORK_UNITS: usize = 8;

/// The numbers of octants space can be split into: halves along x, then y,
/// then z.
pub open spec fn valid_unit_count(n: usize) -> bool {
    n == 1 || n == 2 || n == 4 || n == 8
}

/// Lower end of an octant's interval along one axis.
pub open spec fn octant_low(split: bool, upper: bool) -> i32 {
    if split && upper {
        0
    } else {
        i32::MIN
    }
}

/// Upper end of an octant's interval along one axis.
pub open spec fn octant_high(split: bool, upper: bool) -> i32 {
    if split && !upper {
        0
    } else {
        i32::MAX
    }
}

/// Octant `k` of `n`: x is split from two octants on, y from four, z at
/// eight; the last split axis varies fastest with `k`, and its lower half
/// comes first. The halves meet at zero.
pub open spec fn octant_bounds(n: usize, k: int) -> AABB {
    let ux = if n == 8 {
        k >= 4
    } else if n == 4 {
        k >= 2
    } else {
        k == 1
    };
    let uy = if n == 8 {
        (k / 2) % 2 == 1
    } else {
        k % 2 == 1
    };
    let uz = k % 2 == 1;
    AABB {
        min: Point { x: octant_low(n >= 2, ux), y: octant_low(n >= 4, uy), z: octant_low(n >= 8, uz) },
        max: Point { x: octant_high(n >= 2, ux), y: octant_high(n >= 4, uy), z: octant_high(n >= 8, uz) },
    }
}

/// The octants of a split of space into `n`, in order.
pub open spec fn octant_seq(n: usize) -> Seq<AABB> {
    Seq::new(n as nat, |k: int| octant_bounds(n, k))
}

pub open spec fn contains_point(b: AABB, p: Point) -> bool {
    &&& b.min.x <= p.x <= b.max.x
    &&& b.min.y <= p.y <= b.max.y
    &&& b.min.z <= p.z <= b.max.z
}

/// The octants tile space: every point lies in one of them.
pub proof fn lemma_octants_cover_space(n: usize, p: Point)
    requires
        valid_unit_count(n),
    ensures
        exists|k: int| 0 <= k < n && #[trigger] contains_point(octant_bounds(n, k), p),
{
    let bx: int = if p.x >= 0 { 1 } else { 0 };
    let by: int = if p.y >= 0 { 1 } else { 0 };
    let bz: int = if p.z >= 0 { 1 } else { 0 };
    let k: int = if n == 8 {
        4 * bx + 2 * by + bz
    } else if n == 4 {
        2 * bx + by
    } else if n == 2 {
        bx
    } else {
        0
    };
    assert(contains_point(octant_bounds(n, k), p));
}

fn low(split: bool, upper: bool) -> (r: i32)
    ensures
        r == octant_low(split, upper),
{
    if split && upper {
        0
    } else {
        i32::MIN
    }
}

fn high(split: bool, upper: bool) -> (r: i32)
    ensures
        r == octant_high(split, upper),
{
    if split && !upper {
        0
    } else {
        i32::MAX
    }
}

/// Bounds of octant `k` of `n`.
pub fn octant(n: usize, k: usize) -> (r: AABB)
    ensures
        r == octant_bounds(n, k as int),
{
    let ux = if n == 8 {
        k >= 4
    } else if n == 4 {
        k >= 2
    } else {
        k == 1
    };
    let uy = if n == 8 {
        (k / 2) % 2 == 1
    } else {
        k % 2 == 1
    };
    let uz = k % 2 == 1;
    AABB {
        min: Point { x: low(n >= 2, ux), y: low(n >= 4, uy), z: low(n >= 8, uz) },
        max: Point { x: high(n >= 2, ux), y: high(n >= 4, uy), z: high(n >= 8, uz) },
    }
}

pub open spec fn max_int(a: int, b: int) -> int {
    if a >= b {
        a
    } else {
        b
    }
}

/// Largest side of a box (zero or less for a degenerate one).
pub open spec fn extent(b: AABB) -> int {
    max_int(max_int(b.max.x - b.min.x, b.max.y - b.min.y), b.max.z - b.min.z)
}

/// Largest side over all the boxes of a snapshot, and zero for none.
pub open spec fn longest_extent(vs: Seq<BoundVolume>) -> int
    decreases vs.len(),
{
    if vs.len() == 0 {
        0
    } else {
        max_int(longest_extent(vs.drop_last()), extent(vs.last().aabb))
    }
}

/// The grid cell size of a tick: the largest side over all the boxes, so
/// that a box spans at most two cells along each axis; at least one unit.
pub open spec fn cell_size_for(vs: Seq<BoundVolume>) -> int {
    max_int(longest_extent(vs), 1)
}

proof fn lemma_longest_extent_bounds(vs: Seq<BoundVolume>)
    ensures
        0 <= longest_extent(vs) <= u32::MAX,
    decreases vs.len(),
{
    if vs.len() > 0 {
        lemma_longest_extent_bounds(vs.drop_last());
    }
}

/// Computes `cell_size_for` of the snapshot.
pub fn compute_cell_size(volumes: &Vec<BoundVolume>) -> (r: u32)
    ensures
        r as int == cell_size_for(volumes@),
{
    let mut longest: i64 = 0;
    let mut i: usize = 0;
    while i < volumes.len()
        invariant
            i <= volumes@.len(),
            longest as int == longest_extent(volumes@.subrange(0, i as int)),
        decreases volumes@.len() - i,
    {
        let aabb = volumes[i].aabb;
        let diff_x = aabb.max.x as i64 - aabb.min.x as i64;
        let diff_y = aabb.max.y as i64 - aabb.min.y as i64;
        let diff_z = aabb.max.z as i64 - aabb.min.z as i64;
        if diff_x > longest {
            longest = diff_x;
        }
        if diff_y > longest {
            longest = diff_y;
        }
        if diff_z > longest {
            longest = diff_z;
        }
        proof {
            let next = volumes@.subrange(0, i + 1);
            assert(next.drop_last() =~= volumes@.subrange(0, i as int));
            assert(next.last() == volumes@[i as int]);
        }
        i = i + 1;
    }
    proof {
        assert(volumes@.subrange(0, i as int) =~= volumes@);
        lemma_longest_extent_bounds(volumes@);
    }
    if longest < 1 {
        1
    } else {
        longest as u32
    }
}

/// The entity pairs found over all the octants `bs`.
pub open spec fn tick_hits(vs: Seq<BoundVolume>, bs: Seq<AABB>, cs: u32) -> Set<(Entity, Entity)> {
    Set::new(|p: (Entity, Entity)| exists|u: int| 0 <= u < bs.len() && #[trigger] octant_hits(vs, bs[u], cs).contains(p))
}

/// The exact test handles every candidate pair of every octant of `bs`
/// (a tick starts with no hits, so all of them may be tested).
pub open spec fn tick_testable(vs: Seq<BoundVolume>, bs: Seq<AABB>, cs: u32) -> bool {
    forall|u: int| 0 <= u < bs.len() ==> #[trigger] octant_testable(vs, bs[u], cs, Set::empty())
}

/// Two lists of octants with the same members find the same pairs.
proof fn lemma_tick_hits_same_members(vs: Seq<BoundVolume>, bs1: Seq<AABB>, bs2: Seq<AABB>, cs: u32)
    requires
        forall|u: int| 0 <= u < bs1.len() ==> #[trigger] bs2.contains(bs1[u]),
        forall|u: int| 0 <= u < bs2.len() ==> #[trigger] bs1.contains(bs2[u]),
    ensures
        tick_hits(vs, bs1, cs) == tick_hits(vs, bs2, cs),
{
    assert forall|p: (Entity, Entity)| tick_hits(vs, bs1, cs).contains(p) implies tick_hits(vs, bs2, cs).contains(p) by {
        let u = choose|u: int| 0 <= u < bs1.len() && #[trigger] octant_hits(vs, bs1[u], cs).contains(p);
        assert(bs2.contains(bs1[u]));
        let w = choose|w: int| 0 <= w < bs2.len() && bs2[w] == bs1[u];
        assert(octant_hits(vs, bs2[w], cs).contains(p));
    }
    assert forall|p: (Entity, Entity)| tick_hits(vs, bs2, cs).contains(p) implies tick_hits(vs, bs1, cs).contains(p) by {
        let u = choose|u: int| 0 <= u < bs2.len() && #[trigger] octant_hits(vs, bs2[u], cs).contains(p);
        assert(bs1.contains(bs2[u]));
        let w = choose|w: int| 0 <= w < bs1.len() && bs1[w] == bs2[u];
        assert(octant_hits(vs, bs1[w], cs).contains(p));
    }
    assert(tick_hits(vs, bs1, cs) =~= tick_hits(vs, bs2, cs));
}


/// Some unit of `units` is the one of octant `o`.
pub open spec fn numbers_unit(units: Seq<WorkUnit>, o: int) -> bool {
    exists|k: int| 0 <= k < units.len() && units[k].spec_index() == o
}

/// Collision processing over a regular grid, split into octants of space
/// that are processed independently (by worker threads, or in turn by
/// `update`). Between ticks it holds every work unit; during a tick the units
/// are handed out by `begin_update` and come back one by one through
/// `receive`. It records which octants' units are out.
#[derive(Debug)]
pub struct GridCollisionSystem {
    num_units: usize,
    processed_work: Vec<WorkUnit>,
    out: Vec<bool>,
    collisions: EntityPairSet,
    worker: Worker,
}

impl GridCollisionSystem {
    /// Every octant's unit is either held or out, never both; held units are
    /// well formed, without hits, and have their octant's bounds.
    pub closed spec fn wf(&self) -> bool {
        &&& valid_unit_count(self.num_units)
        &&& self.out@.len() == self.num_units
        &&& self.collisions.wf()
        &&& self.worker.wf()
        &&& forall|m: int| 0 <= m < self.processed_work@.len() ==> {
            &&& (#[trigger] self.processed_work@[m]).wf()
            &&& self.processed_work@[m].spec_hits() == Set::<(Entity, Entity)>::empty()
            &&& self.processed_work@[m].index < self.num_units
            &&& !self.out@[self.processed_work@[m].index as int]
            &&& self.processed_work@[m].bounds == octant_bounds(self.num_units, self.processed_work@[m].index as int)
        }
        &&& forall|m1: int, m2: int|
            0 <= m1 < self.processed_work@.len() && 0 <= m2 < self.processed_work@.len() && m1 != m2
                ==> (#[trigger] self.processed_work@[m1]).index != (#[trigger] self.processed_work@[m2]).index
        &&& forall|k: int| 0 <= k < self.num_units && !(#[trigger] self.out@[k]) ==> exists|m: int|
            0 <= m < self.processed_work@.len() && self.processed_work@[m].index == k
    }

    /// Number of work units the system was made with.
    pub closed spec fn spec_num_units(&self) -> usize {
        self.num_units
    }

    /// The unit of octant `k` has been handed out and not yet received.
    pub closed spec fn is_out(&self, k: int) -> bool {
        self.out@[k]
    }

    /// No unit is out.
    pub open spec fn all_back(&self) -> bool {
        forall|k: int| 0 <= k < self.spec_num_units() ==> !#[trigger] self.is_out(k)
    }

    /// Number of work units the system holds now.
    pub closed spec fn spec_held(&self) -> nat {
        self.processed_work@.len()
    }

    /// The entity pairs found in the last tick.
    pub closed spec fn spec_collisions(&self) -> Set<(Entity, Entity)> {
        self.collisions@
    }

    /// A system with `NUM_WORK_UNITS` octants.
    pub fn new() -> (r: GridCollisionSystem)
        ensures
            r.wf(),
            r.spec_num_units() == NUM_WORK_UNITS,
            r.all_back(),
            r.spec_collisions() == Set::<(Entity, Entity)>::empty(),
    {
        Self::with_unit_count(NUM_WORK_UNITS)
    }

    /// A system splitting space into `n` octants, or `None` when `n` is not
    /// one of 1, 2, 4 and 8.
    pub fn with_work_units(n: usize) -> (r: Option<GridCollisionSystem>)
        ensures
            r is None <==> !valid_unit_count(n),
            r matches Some(sys) ==> {
                &&& sys.wf()
                &&& sys.spec_num_units() == n
                &&& sys.all_back()
                &&& sys.spec_collisions() == Set::<(Entity, Entity)>::empty()
            },
    {
        if n == 1 || n == 2 || n == 4 || n == 8 {
            Some(Self::with_unit_count(n))
        } else {
            None
        }
    }

    fn with_unit_count(n: usize) -> (r: GridCollisionSystem)
        requires
            valid_unit_count(n),
        ensures
            r.wf(),
            r.spec_num_units() == n,
            r.all_back(),
            r.spec_collisions() == Set::<(Entity, Entity)>::empty(),
    {
        let mut processed_work: Vec<WorkUnit> = Vec::new();
        let mut out: Vec<bool> = Vec::new();
        let mut k: usize = 0;
        while k < n
            invariant
                k <= n,
                processed_work@.len() == k,
                out@.len() == k,
                forall|m: int| 0 <= m < k ==> !(#[trigger] out@[m]),
                forall|m: int| 0 <= m < k ==> {
                    &&& (#[trigger] processed_work@[m]).wf()
                    &&& processed_work@[m].spec_hits() == Set::<(Entity, Entity)>::empty()
                    &&& processed_work@[m].index == m
                    &&& processed_work@[m].bounds == octant_bounds(n, m)
                },
            decreases n - k,
        {
            processed_work.push(WorkUnit::numbered(k, octant(n, k)));
            out.push(false);
            k = k + 1;
        }
        let r = GridCollisionSystem {
            num_units: n,
            processed_work,
            out,
            collisions: EntityPairSet::new(),
            worker: Worker::new(),
        };
        assert forall|kk: int| 0 <= kk < n && !(#[trigger] r.out@[kk]) implies exists|m: int|
            0 <= m < r.processed_work@.len() && r.processed_work@[m].index == kk by {
            assert(r.processed_work@[kk].index == kk);
        }
        r
    }

    /// Number of work units the system was made with.
    pub fn num_work_units(&self) -> (r: usize)
        ensures
            r == self.spec_num_units(),
    {
        self.num_units
    }

    /// Number of work units the system holds now.
    pub fn held_work_units(&self) -> (r: usize)
        ensures
            r == self.spec_held(),
    {
        self.processed_work.len()
    }

    /// Whether every work unit handed out has come back.
    pub fn all_units_returned(&self) -> (r: bool)
        requires
            self.wf(),
        ensures
            r == self.all_back(),
    {
        let mut k: usize = 0;
        while k < self.out.len()
            invariant
                self.wf(),
                k <= self.out@.len(),
                forall|m: int| 0 <= m < k ==> !self.out@[m],
            decreases self.out@.len() - k,
        {
            if self.out[k] {
                assert(self.is_out(k as int));
                return false;
            }
            k = k + 1;
        }
        true
    }

    /// The entity pairs found in the last tick, each pair once as `(a, b)`
    /// or `(b, a)`.
    pub fn collisions(&self) -> (r: &EntityPairSet)
        requires
            self.wf(),
        ensures
            r.wf(),
            r@ == self.spec_collisions(),
    {
        &self.collisions
    }

    /// Starts a tick on the snapshot `volumes`: checks that every work unit
    /// of the previous tick has come back, clears the collisions, sets the
    /// cell size of every unit, and hands all the units out.
    pub fn begin_update(&mut self, volumes: &Vec<BoundVolume>) -> (r: Result<Vec<WorkUnit>, CollisionError>)
        requires
            old(self).wf(),
        ensures
            final(self).wf(),
            final(self).spec_num_units() == old(self).spec_num_units(),
            !old(self).all_back() ==> {
                &&& r == Err::<Vec<WorkUnit>, CollisionError>(CollisionError::WorkUnitsOutstanding {
                    expected: old(self).spec_num_units(),
                    found: old(self).spec_held() as usize,
                })
                &&& final(self).spec_held() == old(self).spec_held()
                &&& forall|k: int| #[trigger] final(self).is_out(k) == old(self).is_out(k)
                &&& final(self).spec_collisions() == old(self).spec_collisions()
            },
            old(self).all_back() ==> {
                &&& r is Ok
                &&& final(self).spec_held() == 0
                &&& forall|k: int| 0 <= k < final(self).spec_num_units() ==> #[trigger] final(self).is_out(k)
                &&& final(self).spec_collisions() == Set::<(Entity, Entity)>::empty()
            },
            r matches Ok(units) ==> {
                &&& forall|k: int| 0 <= k < units@.len() ==> {
                    &&& (#[trigger] units@[k]).wf()
                    &&& units@[k].spec_index() < old(self).spec_num_units()
                    &&& units@[k].spec_bounds() == octant_bounds(old(self).spec_num_units(), units@[k].spec_index() as int)
                    &&& units@[k].spec_cell_size() as int == cell_size_for(volumes@)
                    &&& units@[k].spec_hits() == Set::<(Entity, Entity)>::empty()
                }
                &&& forall|k1: int, k2: int| 0 <= k1 < units@.len() && 0 <= k2 < units@.len() && k1 != k2
                    ==> (#[trigger] units@[k1]).spec_index() != (#[trigger] units@[k2]).spec_index()
                &&& forall|o: int| 0 <= o < old(self).spec_num_units() ==> #[trigger] numbers_unit(units@, o)
            },
    {
        if !self.all_units_returned() {
            return Err(CollisionError::WorkUnitsOutstanding {
                expected: self.num_units,
                found: self.processed_work.len(),
            });
        }
        let n = self.num_units;
        proof {
            // With every octant's unit held and their numbers distinct, the
            // units are exactly one per octant.
            assert forall|o: int| 0 <= o < n implies #[trigger] numbers_unit(self.processed_work@, o) by {
                assert(!self.is_out(o));
            }
        }
        self.collisions.clear();
        let cell_size = compute_cell_size(volumes);
        let mut returned: Vec<WorkUnit> = Vec::new();
        std::mem::swap(&mut returned, &mut self.processed_work);
        let ghost orig = returned@;
        let total = returned.len();
        let mut pending: Vec<WorkUnit> = Vec::new();
        let mut k: usize = 0;
        while returned.len() > 0
            invariant
                self.num_units == n,
                n == old(self).num_units,
                valid_unit_count(n),
                self.processed_work@.len() == 0,
                self.out@.len() == n,
                self.collisions.wf(),
                self.collisions@ == Set::<(Entity, Entity)>::empty(),
                self.worker.wf(),
                k <= orig.len(),
                orig.len() == total,
                cell_size as int == cell_size_for(volumes@),
                returned@ == orig.subrange(k as int, orig.len() as int),
                pending@.len() == k,
                forall|m: int| 0 <= m < k ==> {
                    &&& (#[trigger] pending@[m]).wf()
                    &&& pending@[m].index == orig[m].index
                    &&& pending@[m].bounds == orig[m].bounds
                    &&& pending@[m].cell_size as int == cell_size_for(volumes@)
                    &&& pending@[m].spec_hits() == orig[m].spec_hits()
                },
                forall|m: int| 0 <= m < orig.len() ==> {
                    &&& (#[trigger] orig[m]).wf()
                    &&& orig[m].spec_hits() == Set::<(Entity, Entity)>::empty()
                    &&& orig[m].index < n
                    &&& orig[m].bounds == octant_bounds(n, orig[m].index as int)
                },
                forall|m1: int, m2: int| 0 <= m1 < orig.len() && 0 <= m2 < orig.len() && m1 != m2
                    ==> (#[trigger] orig[m1]).index != (#[trigger] orig[m2]).index,
                forall|o: int| 0 <= o < n ==> #[trigger] numbers_unit(orig, o),
            decreases returned@.len(),
        {
            let mut unit = returned.remove(0);
            proof {
                assert(unit == orig[k as int]);
            }
            unit.cell_size = cell_size;
            pending.push(unit);
            proof {
                assert(returned@ =~= orig.subrange(k + 1, orig.len() as int));
            }
            k = k + 1;
        }
        let mut m: usize = 0;
        while m < self.out.len()
            invariant
                self.num_units == n,
                n == old(self).num_units,
                valid_unit_count(n),
                self.processed_work@.len() == 0,
                self.out@.len() == n,
                self.collisions.wf(),
                self.collisions@ == Set::<(Entity, Entity)>::empty(),
                self.worker.wf(),
                m <= n,
                forall|o: int| 0 <= o < m ==> self.out@[o],
            decreases n - m,
        {
            self.out.set(m, true);
            m = m + 1;
        }
        proof {
            assert forall|o: int| 0 <= o < n implies #[trigger] numbers_unit(pending@, o) by {
                assert(numbers_unit(orig, o));
                let mm = choose|mm: int| 0 <= mm < orig.len() && orig[mm].index == o;
                assert(pending@[mm].index == o);
            }
        }
        Ok(pending)
    }

    /// Whether `unit` is one this system handed out and has not received yet,
    /// with its octant's bounds.
    pub fn expects(&self, unit: &WorkUnit) -> (r: bool)
        requires
            self.wf(),
        ensures
            r == (unit.spec_index() < self.spec_num_units() && self.is_out(unit.spec_index() as int)
                && unit.spec_bounds() == octant_bounds(self.spec_num_units(), unit.spec_index() as int)),
    {
        unit.index < self.num_units && self.out[unit.index] && unit.bounds == octant(self.num_units, unit.index)
    }

    /// Takes back a work unit at the end of its pass: its hits join the
    /// tick's collisions and are cleared from the unit.
    pub fn receive(&mut self, unit: WorkUnit)
        requires
            old(self).wf(),
            unit.wf(),
            unit.spec_index() < old(self).spec_num_units(),
            old(self).is_out(unit.spec_index() as int),
            unit.spec_bounds() == octant_bounds(old(self).spec_num_units(), unit.spec_index() as int),
        ensures
            final(self).wf(),
            final(self).spec_num_units() == old(self).spec_num_units(),
            final(self).spec_held() == old(self).spec_held() + 1,
            forall|k: int| 0 <= k < old(self).spec_num_units() ==> #[trigger] final(self).is_out(k)
                == (old(self).is_out(k) && k != unit.spec_index()),
            final(self).spec_collisions() == old(self).spec_collisions().union(unit.spec_hits()),
    {
        let mut unit = unit;
        self.collisions.insert_all(&unit.hits);
        unit.hits.clear();
        let idx = unit.index;
        self.out.set(idx, false);
        let ghost before = self.processed_work@;
        self.processed_work.push(unit);
        proof {
            let held = self.processed_work@;
            assert(held == before.push(unit));
            assert forall|m1: int, m2: int|
                0 <= m1 < held.len() && 0 <= m2 < held.len() && m1 != m2
                    implies (#[trigger] held[m1]).index != (#[trigger] held[m2]).index by {
                if m1 < before.len() && m2 < before.len() {
                    assert(held[m1] == before[m1] && held[m2] == before[m2]);
                } else if m1 < before.len() {
                    assert(held[m1] == before[m1]);
                    assert(!old(self).out@[before[m1].index as int]);
                } else {
                    assert(held[m2] == before[m2]);
                    assert(!old(self).out@[before[m2].index as int]);
                }
            }
            assert forall|m: int| 0 <= m < held.len() implies {
                &&& (#[trigger] held[m]).wf()
                &&& held[m].spec_hits() == Set::<(Entity, Entity)>::empty()
                &&& held[m].index < self.num_units
                &&& !self.out@[held[m].index as int]
                &&& held[m].bounds == octant_bounds(self.num_units, held[m].index as int)
            } by {
                if m < before.len() {
                    assert(held[m] == before[m]);
                    assert(!old(self).out@[before[m].index as int]);
                }
            }
            assert forall|k: int| 0 <= k < self.num_units && !(#[trigger] self.out@[k]) implies exists|m: int|
                0 <= m < held.len() && held[m].index == k by {
                if k == idx {
                    assert(held[before.len() as int].index == k);
                } else {
                    assert(!old(self).out@[k]);
                    let m = choose|m: int| 0 <= m < before.len() && before[m].index == k;
                    assert(held[m] == before[m]);
                }
            }
        }
    }
}

/// The cell size of a tick, as stored in the work units.
pub open spec fn tick_cell_size(vs: Seq<BoundVolume>) -> u32 {
    cell_size_for(vs) as u32
}

proof fn lemma_tick_hits_extend(vs: Seq<BoundVolume>, bs: Seq<AABB>, cs: u32, k: int)
    requires
        0 <= k < bs.len(),
    ensures
        tick_hits(vs, bs.subrange(0, k + 1), cs) == tick_hits(vs, bs.subrange(0, k), cs).union(
            octant_hits(vs, bs[k], cs),
        ),
{
    let next = bs.subrange(0, k + 1);
    let prev = bs.subrange(0, k);
    assert forall|p: (Entity, Entity)| #[trigger] tick_hits(vs, next, cs).contains(p) <==> tick_hits(vs, prev, cs).union(
        octant_hits(vs, bs[k], cs),
    ).contains(p) by {
        if tick_hits(vs, next, cs).contains(p) {
            let u = choose|u: int| 0 <= u < next.len() && #[trigger] octant_hits(vs, next[u], cs).contains(p);
            if u < k {
                assert(prev[u] == next[u]);
            }
        }
        if tick_hits(vs, prev, cs).contains(p) {
            let u = choose|u: int| 0 <= u < prev.len() && #[trigger] octant_hits(vs, prev[u], cs).contains(p);
            assert(next[u] == prev[u]);
        }
        if octant_hits(vs, bs[k], cs).contains(p) {
            assert(next[k] == bs[k]);
        }
    }
    assert(tick_hits(vs, next, cs) =~= tick_hits(vs, prev, cs).union(octant_hits(vs, bs[k], cs)));
}

impl GridCollisionSystem {
    /// Whether the exact test handles every candidate pair of every octant of
    /// a tick on `volumes`, as `update` requires: runs each octant's
    /// broadphase on a scratch unit and inspects its candidates.
    pub fn supports_tick(&mut self, volumes: &Vec<BoundVolume>) -> (r: bool)
        requires
            old(self).wf(),
        ensures
            final(self).wf(),
            final(self).spec_num_units() == old(self).spec_num_units(),
            final(self).spec_held() == old(self).spec_held(),
            forall|k: int| #[trigger] final(self).is_out(k) == old(self).is_out(k),
            final(self).spec_collisions() == old(self).spec_collisions(),
            r == tick_testable(volumes@, octant_seq(old(self).spec_num_units()), tick_cell_size(volumes@)),
    {
        let n = self.num_units;
        let cell_size = compute_cell_size(volumes);
        let ghost cs = tick_cell_size(volumes@);
        proof {
            lemma_longest_extent_bounds(volumes@);
        }
        assert(cell_size == cs);
        let mut k: usize = 0;
        while k < n
            invariant
                self.wf(),
                n == self.num_units,
                n == old(self).num_units,
                self.processed_work == old(self).processed_work,
                self.out == old(self).out,
                self.collisions == old(self).collisions,
                cell_size == cs,
                cs == tick_cell_size(volumes@),
                cs >= 1,
                k <= n,
                forall|u: int| 0 <= u < k ==> #[trigger] octant_testable(volumes@, octant_seq(n)[u], cs, Set::empty()),
            decreases n - k,
        {
            let mut unit = WorkUnit::numbered(k, octant(n, k));
            unit.cell_size = cell_size;
            self.worker.broadphase(&mut unit, volumes);
            let bad = self.worker.untestable_candidate(&unit, volumes);
            proof {
                assert(unit.spec_hits() =~= Set::<(Entity, Entity)>::empty());
                assert(self.worker.candidates_testable(volumes@, unit.spec_hits()) == octant_testable(
                    volumes@,
                    octant_bounds(n, k as int),
                    cs,
                    Set::empty(),
                ));
            }
            self.worker.candidates.clear();
            if bad.is_some() {
                proof {
                    assert(octant_seq(n)[k as int] == octant_bounds(n, k as int));
                    assert(!octant_testable(volumes@, octant_seq(n)[k as int], cs, Set::empty()));
                    assert(octant_seq(n).len() == n);
                    assert(!tick_testable(volumes@, octant_seq(n), cs));
                    assert(self.wf());
                }
                return false;
            }
            proof {
                assert(octant_seq(n)[k as int] == octant_bounds(n, k as int));
            }
            k = k + 1;
        }
        true
    }

    /// Runs one whole tick on the snapshot `volumes` in the calling thread:
    /// `begin_update`, then each work unit in turn through the system's own
    /// worker and back through `receive`. Every unit must be back, and every
    /// candidate pair of the tick a pair of shapes the exact test handles
    /// (see `all_units_returned` and `supports_tick`).
    pub fn update(&mut self, volumes: &Vec<BoundVolume>)
        requires
            old(self).wf(),
            old(self).all_back(),
            tick_testable(volumes@, octant_seq(old(self).spec_num_units()), tick_cell_size(volumes@)),
        ensures
            final(self).wf(),
            final(self).spec_num_units() == old(self).spec_num_units(),
            final(self).all_back(),
            final(self).spec_collisions() == tick_hits(
                volumes@,
                octant_seq(old(self).spec_num_units()),
                tick_cell_size(volumes@),
            ),
    {
        let units = match self.begin_update(volumes) {
            Ok(units) => units,
            Err(_) => {
                return;
            },
        };
        let ghost n = self.num_units;
        let ghost vs = volumes@;
        let ghost cs = tick_cell_size(volumes@);
        let ghost orig = units@;
        let ghost ub = Seq::new(orig.len(), |m: int| orig[m].spec_bounds());
        let total = units.len();
        proof {
            lemma_longest_extent_bounds(volumes@);
            assert forall|o: int| 0 <= o < n implies (#[trigger] self.is_out(o) <==> exists|m: int|
                0 <= m < total && orig[m].spec_index() == o) by {
                assert(numbers_unit(orig, o));
            }
            assert(ub.subrange(0, 0) =~= Seq::<AABB>::empty());
            assert(tick_hits(vs, ub.subrange(0, 0), cs) =~= Set::<(Entity, Entity)>::empty());
        }
        let mut units = units;
        let mut k: usize = 0;
        while units.len() > 0
            invariant
                self.wf(),
                self.num_units == n,
                n == old(self).spec_num_units(),
                vs == volumes@,
                cs == tick_cell_size(volumes@),
                tick_testable(vs, octant_seq(n), cs),
                orig.len() == total,
                ub.len() == total,
                forall|m: int| 0 <= m < total ==> #[trigger] ub[m] == orig[m].spec_bounds(),
                k <= total,
                units@ == orig.subrange(k as int, total as int),
                forall|m: int| 0 <= m < total ==> {
                    &&& (#[trigger] orig[m]).wf()
                    &&& orig[m].spec_index() < n
                    &&& orig[m].spec_bounds() == octant_bounds(n, orig[m].spec_index() as int)
                    &&& orig[m].spec_cell_size() == cs
                    &&& orig[m].spec_hits() == Set::<(Entity, Entity)>::empty()
                },
                forall|m1: int, m2: int| 0 <= m1 < total && 0 <= m2 < total && m1 != m2
                    ==> (#[trigger] orig[m1]).spec_index() != (#[trigger] orig[m2]).spec_index(),
                forall|o: int| 0 <= o < n ==> #[trigger] numbers_unit(orig, o),
                forall|o: int| 0 <= o < n ==> (#[trigger] self.is_out(o) <==> exists|m: int|
                    k <= m < total && orig[m].spec_index() == o),
                self.spec_collisions() == tick_hits(vs, ub.subrange(0, k as int), cs),
            decreases units@.len(),
        {
            let ghost outs = Seq::new(n as nat, |o: int| self.is_out(o));
            let mut unit = units.remove(0);
            proof {
                assert(unit == orig[k as int]);
                assert(units@ =~= orig.subrange(k + 1, total as int));
                let idx = unit.spec_index() as int;
                assert(octant_seq(n)[idx] == unit.spec_bounds());
                assert(octant_testable(vs, octant_seq(n)[idx], cs, Set::empty()));
                assert(self.is_out(idx));
            }
            let ghost pre = self.processed_work@;
            assert(self.wf());
            self.worker.process(&mut unit, volumes);
            assert(self.processed_work@ == pre);
            assert(self.worker.wf());
            let ghost hits = unit.spec_hits();
            proof {
                assert(hits =~= octant_hits(vs, ub[k as int], cs));
                assert(self.wf());
            }
            let ghost idx = unit.spec_index() as int;
            let ghost outs2 = Seq::new(n as nat, |o: int| self.is_out(o));
            proof {
                assert(outs2 =~= outs);
            }
            self.receive(unit);
            proof {
                lemma_tick_hits_extend(vs, ub, cs, k as int);
                assert(self.spec_collisions() =~= tick_hits(vs, ub.subrange(0, k + 1), cs));
                assert forall|o: int| 0 <= o < n implies (#[trigger] self.is_out(o) <==> exists|m: int|
                    k + 1 <= m < total && orig[m].spec_index() == o) by {
                    assert(outs2[o] == outs[o]);
                    assert(self.is_out(o) == (outs2[o] && o != idx));
                    if exists|m: int| k + 1 <= m < total && orig[m].spec_index() == o {
                        let m = choose|m: int| k + 1 <= m < total && orig[m].spec_index() == o;
                        assert(orig[m].spec_index() != orig[k as int].spec_index());
                    }
                    if outs[o] && o != idx {
                        let m = choose|m: int| k <= m < total && orig[m].spec_index() == o;
                        assert(m != k);
                    }
                }
            }
            k = k + 1;
        }
        proof {
            assert(ub.subrange(0, k as int) =~= ub);
            assert forall|u: int| 0 <= u < ub.len() implies #[trigger] octant_seq(n).contains(ub[u]) by {
                assert(octant_seq(n)[orig[u].spec_index() as int] == ub[u]);
            }
            assert forall|o: int| 0 <= o < octant_seq(n).len() implies #[trigger] ub.contains(octant_seq(n)[o]) by {
                assert(numbers_unit(orig, o));
                let m = choose|m: int| 0 <= m < orig.len() && orig[m].spec_index() == o;
                assert(ub[m] == octant_seq(n)[o]);
            }
            lemma_tick_hits_same_members(vs, ub, octant_seq(n), cs);
            assert forall|o: int| 0 <= o < self.spec_num_units() implies !#[trigger] self.is_out(o) by {
                assert(self.is_out(o) <==> exists|m: int| k <= m < total && orig[m].spec_index() == o);
            }
        }
    }
}

/// A snapshot in which no two volumes' colliders intersect yields no
/// collision, whatever the octants and the cell size.
pub proof fn lemma_no_overlaps_no_hits(vs: Seq<BoundVolume>, bs: Seq<AABB>, cs: u32)
    requires
        forall|i: int, j: int| 0 <= j < i < vs.len() ==> !colliders_intersect(vs[i].collider, vs[j].collider),
    ensures
        tick_hits(vs, bs, cs) == Set::<(Entity, Entity)>::empty(),
{
    assert forall|p: (Entity, Entity)| !tick_hits(vs, bs, cs).contains(p) by {
        if tick_hits(vs, bs, cs).contains(p) {
            let u = choose|u: int| 0 <= u < bs.len() && #[trigger] octant_hits(vs, bs[u], cs).contains(p);
            let (i, j) = choose|i: int, j: int| #[trigger] is_candidate(vs, bs[u], cs, i, j)
                && colliders_intersect(vs[i].collider, vs[j].collider) && p == entity_pair(vs, i, j);
        }
    }
    assert(tick_hits(vs, bs, cs) =~= Set::<(Entity, Entity)>::empty());
}

/// When no entity has two volumes in the snapshot, a tick never reports a
/// pair in both orders: a colliding pair appears once, as `(a, b)` or as
/// `(b, a)`.
pub proof fn lemma_pair_reported_in_one_order(vs: Seq<BoundVolume>, bs: Seq<AABB>, cs: u32, a: Entity, b: Entity)
    requires
        forall|i: int, j: int| 0 <= i < j < vs.len() ==> vs[i].entity != vs[j].entity,
    ensures
        !(tick_hits(vs, bs, cs).contains((a, b)) && tick_hits(vs, bs, cs).contains((b, a))),
{
    if tick_hits(vs, bs, cs).contains((a, b)) && tick_hits(vs, bs, cs).contains((b, a)) {
        let u = choose|u: int| 0 <= u < bs.len() && #[trigger] octant_hits(vs, bs[u], cs).contains((a, b));
        let (i, j) = choose|i: int, j: int| #[trigger] is_candidate(vs, bs[u], cs, i, j)
            && colliders_intersect(vs[i].collider, vs[j].collider) && (a, b) == entity_pair(vs, i, j);
        let w = choose|w: int| 0 <= w < bs.len() && #[trigger] octant_hits(vs, bs[w], cs).contains((b, a));
        let (k, m) = choose|k: int, m: int| #[trigger] is_candidate(vs, bs[w], cs, k, m)
            && colliders_intersect(vs[k].collider, vs[m].collider) && (b, a) == entity_pair(vs, k, m);
        assert(vs[i].entity == vs[m].entity);
        assert(vs[j].entity == vs[k].entity);
        assert(i == m && j == k);
    }
}

/// The box's min corner is at most its max corner along every axis.
pub open spec fn aabb_well_formed(b: AABB) -> bool {
    b.min.x <= b.max.x && b.min.y <= b.max.y && b.min.z <= b.max.z
}

proof fn lemma_extent_within_longest(vs: Seq<BoundVolume>, k: int)
    requires
        0 <= k < vs.len(),
    ensures
        extent(vs[k].aabb) <= longest_extent(vs),
    decreases vs.len(),
{
    if k < vs.len() - 1 {
        lemma_extent_within_longest(vs.drop_last(), k);
        assert(vs.drop_last()[k] == vs[k]);
    }
}

proof fn lemma_grid_coord_fits(p: i32, cs: u32)
    requires
        cs >= 1,
    ensures
        i32::MIN <= grid_coord(p, cs) <= i32::MAX,
        grid_coord(p, cs) as i32 as int == grid_coord(p, cs),
{
    let c = cs as int;
    let q = p as int / c;
    let r = p as int % c;
    vstd::arithmetic::div_mod::lemma_fundamental_div_mod(p as int, c);
    assert(0 <= r < c) by {
        vstd::arithmetic::div_mod::lemma_mod_bound(p as int, c);
    }
    assert(i32::MIN <= q <= i32::MAX) by (nonlinear_arith)
        requires
            p as int == c * q + r,
            0 <= r < c,
            c >= 1,
            i32::MIN <= p <= i32::MAX,
    ;
}

/// A coordinate between two others, no further apart than one cell, lies in
/// the cell of one of them.
proof fn lemma_between_corners(lo: i32, p: i32, hi: i32, cs: u32)
    requires
        cs >= 1,
        lo <= p <= hi,
        hi - lo <= cs,
    ensures
        spans(grid_coord(lo, cs), grid_coord(hi, cs), grid_coord(p, cs)),
{
    let c = cs as int;
    vstd::arithmetic::div_mod::lemma_div_is_ordered(lo as int, p as int, c);
    vstd::arithmetic::div_mod::lemma_div_is_ordered(p as int, hi as int, c);
    vstd::arithmetic::div_mod::lemma_div_is_ordered(hi as int, lo + c, c);
    vstd::arithmetic::div_mod::lemma_hoist_over_denominator(lo as int, 1, c as nat);
}

/// Every point of a well-formed box no wider than the cell size lies in one
/// of the cells its corners are bucketed into.
proof fn lemma_point_cell_touched(b: AABB, p: Point, cs: u32)
    requires
        cs >= 1,
        aabb_well_formed(b),
        contains_point(b, p),
        extent(b) <= cs,
    ensures
        touches(b, cs, cell_of(p, cs)),
{
    lemma_between_corners(b.min.x, p.x, b.max.x, cs);
    lemma_between_corners(b.min.y, p.y, b.max.y, cs);
    lemma_between_corners(b.min.z, p.z, b.max.z, cs);
    lemma_grid_coord_fits(p.x, cs);
    lemma_grid_coord_fits(p.y, cs);
    lemma_grid_coord_fits(p.z, cs);
    lemma_grid_coord_fits(b.min.x, cs);
    lemma_grid_coord_fits(b.min.y, cs);
    lemma_grid_coord_fits(b.min.z, cs);
    lemma_grid_coord_fits(b.max.x, cs);
    lemma_grid_coord_fits(b.max.y, cs);
    lemma_grid_coord_fits(b.max.z, cs);
}

/// The grid finds every collision it is meant to: when two volumes have
/// well-formed, overlapping boxes and intersecting colliders, a tick over the
/// octants of any valid split reports their pair, at the cell size the tick
/// uses.
pub proof fn lemma_intersecting_volumes_are_found(vs: Seq<BoundVolume>, n: usize, i: int, j: int)
    requires
        valid_unit_count(n),
        0 <= j < i < vs.len(),
        aabb_well_formed(vs[i].aabb),
        aabb_well_formed(vs[j].aabb),
        aabbs_overlap(vs[i].aabb, vs[j].aabb),
        colliders_intersect(vs[i].collider, vs[j].collider),
    ensures
        tick_hits(vs, octant_seq(n), tick_cell_size(vs)).contains(entity_pair(vs, i, j)),
{
    let a = vs[i].aabb;
    let b = vs[j].aabb;
    let p = Point {
        x: if a.min.x >= b.min.x { a.min.x } else { b.min.x },
        y: if a.min.y >= b.min.y { a.min.y } else { b.min.y },
        z: if a.min.z >= b.min.z { a.min.z } else { b.min.z },
    };
    assert(contains_point(a, p) && contains_point(b, p));
    lemma_octants_cover_space(n, p);
    let k = choose|k: int| 0 <= k < n && #[trigger] contains_point(octant_bounds(n, k), p);
    let bounds = octant_bounds(n, k);
    lemma_longest_extent_bounds(vs);
    let cs = tick_cell_size(vs);
    assert(cs as int == cell_size_for(vs));
    lemma_extent_within_longest(vs, i);
    lemma_extent_within_longest(vs, j);
    lemma_point_cell_touched(a, p, cs);
    lemma_point_cell_touched(b, p, cs);
    let c = cell_of(p, cs);
    assert(touches(a, cs, c) && touches(b, cs, c));
    assert(is_candidate(vs, bounds, cs, i, j));
    assert(octant_hits(vs, bounds, cs).contains(entity_pair(vs, i, j)));
    assert(octant_seq(n)[k] == bounds);
}

} // verus!
