use vstd::prelude::*;

verus! {

/// Number of fixed-point steps in one unit of length along an orientation axis.
pub const AXIS_UNIT: i64 = 16384;

/// Slack added to every projected extent in the separating-axis test, so that
/// axes built from (nearly) parallel edges never separate two boxes by accident.
pub const PROJECTION_EPSILON: i64 = 1;

/// A point (or offset) in world space.
#[derive(Debug, Clone, Copy, PartialEq, Eq, Structural)]
pub struct Point {
    pub x: i32,
    pub y: i32,
    pub z: i32,
}

impl Point {
    pub open spec fn vec(self) -> (int, int, int) {
        (self.x as int, self.y as int, self.z as int)
    }

    pub fn new(x: i32, y: i32, z: i32) -> (r: Point)
        ensures
            r.x == x && r.y == y && r.z == z,
    {
        Point { x, y, z }
    }
}

pub open spec fn sq(x: int) -> int {
    x * x
}

pub open spec fn abs(x: int) -> int {
    if x < 0 {
        -x
    } else {
        x
    }
}

pub open spec fn vsub(u: (int, int, int), v: (int, int, int)) -> (int, int, int) {
    (u.0 - v.0, u.1 - v.1, u.2 - v.2)
}

pub open spec fn vneg(u: (int, int, int)) -> (int, int, int) {
    (-u.0, -u.1, -u.2)
}

pub open spec fn vdot(u: (int, int, int), v: (int, int, int)) -> int {
    u.0 * v.0 + u.1 * v.1 + u.2 * v.2
}

pub open spec fn vcross(u: (int, int, int), v: (int, int, int)) -> (int, int, int) {
    (u.1 * v.2 - u.2 * v.1, u.2 * v.0 - u.0 * v.2, u.0 * v.1 - u.1 * v.0)
}

/// Squared euclidean distance between two points.
pub open spec fn dist_sq(a: Point, b: Point) -> int {
    sq(a.x - b.x) + sq(a.y - b.y) + sq(a.z - b.z)
}

/// A sphere in world space.
#[derive(Debug, Clone, Copy, PartialEq, Eq, Structural)]
pub struct Sphere {
    pub center: Point,
    pub radius: u32,
}

/// Two spheres intersect when the distance of their centers is strictly less
/// than the sum of their radii; touching spheres do not intersect.
pub open spec fn spheres_intersect(a: Sphere, b: Sphere) -> bool {
    dist_sq(a.center, b.center) < sq(a.radius + b.radius)
}

proof fn lemma_sq_bound(d: int, b: int)
    requires
        0 <= b,
        -b <= d <= b,
    ensures
        0 <= d * d <= b * b,
{
    assert(0 <= d * d <= b * b) by (nonlinear_arith)
        requires
            0 <= b,
            -b <= d <= b,
    ;
}

impl Sphere {
    /// Exact sphere-sphere test.
    pub fn test_sphere(&self, other: &Sphere) -> (r: bool)
        ensures
            r == spheres_intersect(*self, *other),
    {
        let dx = self.center.x as i128 - other.center.x as i128;
        let dy = self.center.y as i128 - other.center.y as i128;
        let dz = self.center.z as i128 - other.center.z as i128;
        proof {
            lemma_sq_bound(dx as int, 0x1_0000_0000);
            lemma_sq_bound(dy as int, 0x1_0000_0000);
            lemma_sq_bound(dz as int, 0x1_0000_0000);
        }
        let dist_sqr = dx * dx + dy * dy + dz * dz;
        let reach = self.radius as i128 + other.radius as i128;
        proof {
            lemma_sq_bound(reach as int, 0x2_0000_0000);
        }
        let max_dist_sqr = reach * reach;
        dist_sqr < max_dist_sqr
    }
}


/// One axis of a box's orientation, fixed-point with `AXIS_UNIT` steps per unit.
#[derive(Debug, Clone, Copy, PartialEq, Eq, Structural)]
pub struct Axis {
    pub x: i16,
    pub y: i16,
    pub z: i16,
}

impl Axis {
    pub open spec fn vec(self) -> (int, int, int) {
        (self.x as int, self.y as int, self.z as int)
    }
}

/// The three local axes of a box expressed in world space (the columns of its
/// rotation matrix).
#[derive(Debug, Clone, Copy, PartialEq, Eq, Structural)]
pub struct Orientation {
    pub x_axis: Axis,
    pub y_axis: Axis,
    pub z_axis: Axis,
}

impl Orientation {
    /// The unrotated orientation.
    pub fn identity() -> (r: Orientation)
        ensures
            r == identity_orientation(),
    {
        Orientation {
            x_axis: Axis { x: 16384, y: 0, z: 0 },
            y_axis: Axis { x: 0, y: 16384, z: 0 },
            z_axis: Axis { x: 0, y: 0, z: 16384 },
        }
    }

    pub open spec fn axis(self, k: int) -> (int, int, int) {
        if k == 0 {
            self.x_axis.vec()
        } else if k == 1 {
            self.y_axis.vec()
        } else {
            self.z_axis.vec()
        }
    }
}

pub open spec fn identity_orientation() -> Orientation {
    Orientation {
        x_axis: Axis { x: 16384, y: 0, z: 0 },
        y_axis: Axis { x: 0, y: 16384, z: 0 },
        z_axis: Axis { x: 0, y: 0, z: 16384 },
    }
}

/// Sizes of a box along each of its three local axes.
#[derive(Debug, Clone, Copy, PartialEq, Eq, Structural)]
pub struct Extents {
    pub x: u32,
    pub y: u32,
    pub z: u32,
}

impl Extents {
    pub open spec fn at(self, k: int) -> int {
        if k == 0 {
            self.x as int
        } else if k == 1 {
            self.y as int
        } else {
            self.z as int
        }
    }
}

/// An oriented bounding box.
#[derive(Debug, Clone, Copy, PartialEq, Eq, Structural)]
pub struct OBB {
    pub center: Point,
    pub orientation: Orientation,
    pub half_widths: Extents,
}

/// Extent of box `o` projected onto the (unnormalised) direction `l`, with the
/// projection epsilon added to each axis' share.
pub open spec fn projected_radius(o: OBB, l: (int, int, int)) -> int {
    o.half_widths.at(0) * (abs(vdot(o.orientation.axis(0), l)) + PROJECTION_EPSILON)
        + o.half_widths.at(1) * (abs(vdot(o.orientation.axis(1), l)) + PROJECTION_EPSILON)
        + o.half_widths.at(2) * (abs(vdot(o.orientation.axis(2), l)) + PROJECTION_EPSILON)
}

/// Offset from the center of `a` to the center of `b`.
pub open spec fn center_offset(a: OBB, b: OBB) -> (int, int, int) {
    vsub(b.center.vec(), a.center.vec())
}

/// Direction `l` separates the two boxes: the projected distance of their
/// centers exceeds the sum of their projected extents. The center distance is
/// scaled by `AXIS_UNIT` because the extents carry one more axis factor.
pub open spec fn separates(a: OBB, b: OBB, l: (int, int, int)) -> bool {
    AXIS_UNIT * abs(vdot(center_offset(a, b), l)) > projected_radius(a, l) + projected_radius(b, l)
}

/// The fifteen candidate axes: the three face normals of `a`, the three of `b`,
/// then the nine cross products `a_i x b_j` with `k - 6 == 3 * i + j`.
pub open spec fn sat_axis(a: OBB, b: OBB, k: int) -> (int, int, int) {
    if k < 3 {
        a.orientation.axis(k)
    } else if k < 6 {
        b.orientation.axis(k - 3)
    } else {
        vcross(a.orientation.axis((k - 6) / 3), b.orientation.axis((k - 6) % 3))
    }
}

/// Two boxes intersect when none of the fifteen axes separates them.
pub open spec fn boxes_intersect(a: OBB, b: OBB) -> bool {
    forall|k: int| 0 <= k < 15 ==> !separates(a, b, #[trigger] sat_axis(a, b, k))
}

pub open spec fn bounded3(l: (int, int, int), b: int) -> bool {
    -b <= l.0 <= b && -b <= l.1 <= b && -b <= l.2 <= b
}

proof fn lemma_mul_bound(x: int, y: int, bx: int, by: int)
    requires
        0 <= bx,
        0 <= by,
        -bx <= x <= bx,
        -by <= y <= by,
    ensures
        -(bx * by) <= x * y <= bx * by,
{
    assert(-(bx * by) <= x * y <= bx * by) by (nonlinear_arith)
        requires
            0 <= bx,
            0 <= by,
            -bx <= x <= bx,
            -by <= y <= by,
    ;
}

proof fn lemma_dot_bound(u: (int, int, int), v: (int, int, int), bu: int, bv: int)
    requires
        0 <= bu,
        0 <= bv,
        bounded3(u, bu),
        bounded3(v, bv),
    ensures
        -3 * (bu * bv) <= vdot(u, v) <= 3 * (bu * bv),
{
    lemma_mul_bound(u.0, v.0, bu, bv);
    lemma_mul_bound(u.1, v.1, bu, bv);
    lemma_mul_bound(u.2, v.2, bu, bv);
}

fn abs_i128(x: i128) -> (r: i128)
    requires
        x > i128::MIN,
    ensures
        r == abs(x as int),
{
    if x < 0 {
        -x
    } else {
        x
    }
}

/// Dot product of two small integer vectors.
fn dot(u: (i64, i64, i64), v: (i64, i64, i64)) -> (r: i128)
    requires
        bounded3((u.0 as int, u.1 as int, u.2 as int), 0x1_0000_0000),
        bounded3((v.0 as int, v.1 as int, v.2 as int), 0x1_0000_0000),
    ensures
        r == vdot((u.0 as int, u.1 as int, u.2 as int), (v.0 as int, v.1 as int, v.2 as int)),
{
    proof {
        lemma_mul_bound(u.0 as int, v.0 as int, 0x1_0000_0000, 0x1_0000_0000);
        lemma_mul_bound(u.1 as int, v.1 as int, 0x1_0000_0000, 0x1_0000_0000);
        lemma_mul_bound(u.2 as int, v.2 as int, 0x1_0000_0000, 0x1_0000_0000);
    }
    u.0 as i128 * v.0 as i128 + u.1 as i128 * v.1 as i128 + u.2 as i128 * v.2 as i128
}

pub open spec fn v64(l: (i64, i64, i64)) -> (int, int, int) {
    (l.0 as int, l.1 as int, l.2 as int)
}

fn axis_vec(a: &Axis) -> (r: (i64, i64, i64))
    ensures
        v64(r) == a.vec(),
{
    (a.x as i64, a.y as i64, a.z as i64)
}

fn point_vec(p: &Point) -> (r: (i64, i64, i64))
    ensures
        v64(r) == p.vec(),
{
    (p.x as i64, p.y as i64, p.z as i64)
}

impl Orientation {
    fn axis_at(&self, k: usize) -> (r: (i64, i64, i64))
        requires
            k < 3,
        ensures
            v64(r) == self.axis(k as int),
            bounded3(v64(r), 0x8000),
    {
        if k == 0 {
            axis_vec(&self.x_axis)
        } else if k == 1 {
            axis_vec(&self.y_axis)
        } else {
            axis_vec(&self.z_axis)
        }
    }
}

impl Extents {
    fn at_exec(&self, k: usize) -> (r: u32)
        requires
            k < 3,
        ensures
            r as int == self.at(k as int),
    {
        if k == 0 {
            self.x
        } else if k == 1 {
            self.y
        } else {
            self.z
        }
    }
}

fn cross(u: (i64, i64, i64), v: (i64, i64, i64)) -> (r: (i64, i64, i64))
    requires
        bounded3(v64(u), 0x8000),
        bounded3(v64(v), 0x8000),
    ensures
        v64(r) == vcross(v64(u), v64(v)),
        bounded3(v64(r), 0x8000_0000),
{
    proof {
        lemma_mul_bound(u.0 as int, v.1 as int, 0x8000, 0x8000);
        lemma_mul_bound(u.0 as int, v.2 as int, 0x8000, 0x8000);
        lemma_mul_bound(u.1 as int, v.0 as int, 0x8000, 0x8000);
        lemma_mul_bound(u.1 as int, v.2 as int, 0x8000, 0x8000);
        lemma_mul_bound(u.2 as int, v.0 as int, 0x8000, 0x8000);
        lemma_mul_bound(u.2 as int, v.1 as int, 0x8000, 0x8000);
    }
    (u.1 * v.2 - u.2 * v.1, u.2 * v.0 - u.0 * v.2, u.0 * v.1 - u.1 * v.0)
}

impl OBB {
    /// Extent of this box projected onto `l` (see `projected_radius`).
    fn projected_radius_exec(&self, l: (i64, i64, i64)) -> (r: i128)
        requires
            bounded3(v64(l), 0x8000_0000),
        ensures
            r == projected_radius(*self, v64(l)),
            0 <= r <= 0x4_0000_0000_0000_0000_0000,
    {
        let mut total: i128 = 0;
        let mut k: usize = 0;
        while k < 3
            invariant
                k <= 3,
                bounded3(v64(l), 0x8000_0000),
                0 <= total <= k * 0x1_0000_0000_0000_0000_0000,
                total == partial_radius(*self, v64(l), k as int),
            decreases 3 - k,
        {
            let axis = self.orientation.axis_at(k);
            let d = dot(axis, l);
            proof {
                lemma_dot_bound(v64(axis), v64(l), 0x8000, 0x8000_0000);
            }
            let m = abs_i128(d) + PROJECTION_EPSILON as i128;
            let w = self.half_widths.at_exec(k);
            proof {
                lemma_mul_bound(w as int, m as int, 0x1_0000_0000, 0x1_0000_0000_0000);
            }
            total = total + w as i128 * m;
            k = k + 1;
        }
        proof {
            reveal_with_fuel(partial_radius, 4);
        }
        total
    }

    /// Whether direction `l` separates this box from `b`.
    fn separated_on(&self, b: &OBB, l: (i64, i64, i64)) -> (r: bool)
        requires
            bounded3(v64(l), 0x8000_0000),
        ensures
            r == separates(*self, *b, v64(l)),
    {
        let pa = point_vec(&self.center);
        let pb = point_vec(&b.center);
        let t = (pb.0 - pa.0, pb.1 - pa.1, pb.2 - pa.2);
        let d = dot(t, l);
        proof {
            lemma_dot_bound(v64(t), v64(l), 0x1_0000_0000, 0x8000_0000);
        }
        let lhs = AXIS_UNIT as i128 * abs_i128(d);
        let ra = self.projected_radius_exec(l);
        let rb = b.projected_radius_exec(l);
        lhs > ra + rb
    }

    fn sat_axis_exec(&self, b: &OBB, k: usize) -> (r: (i64, i64, i64))
        requires
            k < 15,
        ensures
            v64(r) == sat_axis(*self, *b, k as int),
            bounded3(v64(r), 0x8000_0000),
    {
        if k < 3 {
            self.orientation.axis_at(k)
        } else if k < 6 {
            b.orientation.axis_at(k - 3)
        } else {
            cross(self.orientation.axis_at((k - 6) / 3), b.orientation.axis_at((k - 6) % 3))
        }
    }

    /// Separating-axis test of two oriented boxes: false as soon as one of the
    /// fifteen axes separates them, true when none does.
    pub fn test_obb(&self, b: &OBB) -> (r: bool)
        ensures
            r == boxes_intersect(*self, *b),
    {
        let mut k: usize = 0;
        while k < 15
            invariant
                k <= 15,
                forall|j: int| 0 <= j < k ==> !separates(*self, *b, #[trigger] sat_axis(*self, *b, j)),
            decreases 15 - k,
        {
            let l = self.sat_axis_exec(b, k);
            if self.separated_on(b, l) {
                return false;
            }
            k = k + 1;
        }
        true
    }
}

/// Sum of the first `k` axis shares of `projected_radius`.
pub open spec fn partial_radius(o: OBB, l: (int, int, int), k: int) -> int
    decreases k,
{
    if k <= 0 {
        0
    } else {
        partial_radius(o, l, k - 1) + o.half_widths.at(k - 1) * (abs(vdot(o.orientation.axis(k - 1), l))
            + PROJECTION_EPSILON)
    }
}


/// A collider's world-space form, computed once per tick and reused by every
/// test of that tick.
#[derive(Debug, Clone, Copy, PartialEq, Eq, Structural)]
pub enum CachedCollider {
    Sphere(Sphere),
    Box(OBB),
    Mesh,
}

/// The shape pairs the exact test handles: two spheres or two boxes.
pub open spec fn supported_pair(a: CachedCollider, b: CachedCollider) -> bool {
    match (a, b) {
        (CachedCollider::Sphere(_), CachedCollider::Sphere(_)) => true,
        (CachedCollider::Box(_), CachedCollider::Box(_)) => true,
        _ => false,
    }
}

/// Exact intersection of two colliders of a supported pair.
pub open spec fn colliders_intersect(a: CachedCollider, b: CachedCollider) -> bool {
    match (a, b) {
        (CachedCollider::Sphere(s), CachedCollider::Sphere(t)) => spheres_intersect(s, t),
        (CachedCollider::Box(x), CachedCollider::Box(y)) => boxes_intersect(x, y),
        _ => false,
    }
}

impl CachedCollider {
    /// Whether the exact test handles this pair of shapes.
    pub fn supports(&self, other: &CachedCollider) -> (r: bool)
        ensures
            r == supported_pair(*self, *other),
    {
        match (self, other) {
            (CachedCollider::Sphere(_), CachedCollider::Sphere(_)) => true,
            (CachedCollider::Box(_), CachedCollider::Box(_)) => true,
            _ => false,
        }
    }

    /// Exact intersection test. Sphere against box, and any mesh, are not
    /// handled: callers must not ask for them.
    pub fn test(&self, other: &CachedCollider) -> (r: bool)
        requires
            supported_pair(*self, *other),
        ensures
            r == colliders_intersect(*self, *other),
    {
        match self {
            CachedCollider::Sphere(sphere) => sphere.test_collider(other),
            CachedCollider::Box(obb) => obb.test_collider(other),
            CachedCollider::Mesh => false,
        }
    }
}

impl Sphere {
    fn test_collider(&self, other: &CachedCollider) -> (r: bool)
        requires
            other is Sphere,
        ensures
            r == colliders_intersect(CachedCollider::Sphere(*self), *other),
    {
        match other {
            CachedCollider::Sphere(sphere) => self.test_sphere(sphere),
            _ => false,
        }
    }
}

impl OBB {
    fn test_collider(&self, other: &CachedCollider) -> (r: bool)
        requires
            other is Box,
        ensures
            r == colliders_intersect(CachedCollider::Box(*self), *other),
    {
        match other {
            CachedCollider::Box(obb) => self.test_obb(obb),
            _ => false,
        }
    }
}

/// Spheres whose centers lie exactly the sum of their radii apart only touch:
/// they do not intersect.
pub proof fn lemma_touching_spheres_do_not_intersect(a: Sphere, b: Sphere)
    requires
        dist_sq(a.center, b.center) == sq(a.radius + b.radius),
    ensures
        !spheres_intersect(a, b),
{
}

proof fn lemma_dot_neg(u: (int, int, int), l: (int, int, int))
    ensures
        vdot(u, vneg(l)) == -vdot(u, l),
        vdot(vneg(u), l) == -vdot(u, l),
{
    assert(vdot(u, vneg(l)) == -vdot(u, l)) by (nonlinear_arith);
    assert(vdot(vneg(u), l) == -vdot(u, l)) by (nonlinear_arith);
}

proof fn lemma_cross_anticommutes(u: (int, int, int), v: (int, int, int))
    ensures
        vcross(v, u) == vneg(vcross(u, v)),
{
    assert(u.1 * v.2 == v.2 * u.1 && u.2 * v.1 == v.1 * u.2) by (nonlinear_arith);
    assert(u.2 * v.0 == v.0 * u.2 && u.0 * v.2 == v.2 * u.0) by (nonlinear_arith);
    assert(u.0 * v.1 == v.1 * u.0 && u.1 * v.0 == v.0 * u.1) by (nonlinear_arith);
}

proof fn lemma_separates_symmetric(a: OBB, b: OBB, l: (int, int, int))
    ensures
        separates(b, a, l) == separates(a, b, l),
        separates(a, b, vneg(l)) == separates(a, b, l),
{
    assert(center_offset(b, a) == vneg(center_offset(a, b)));
    lemma_dot_neg(center_offset(a, b), l);
    lemma_dot_neg(center_offset(a, b), vneg(l));
    assert(vneg(vneg(l)) == l);
    lemma_dot_neg(a.orientation.axis(0), l);
    lemma_dot_neg(a.orientation.axis(1), l);
    lemma_dot_neg(a.orientation.axis(2), l);
    lemma_dot_neg(b.orientation.axis(0), l);
    lemma_dot_neg(b.orientation.axis(1), l);
    lemma_dot_neg(b.orientation.axis(2), l);
    assert(projected_radius(a, vneg(l)) == projected_radius(a, l));
    assert(projected_radius(b, vneg(l)) == projected_radius(b, l));
}

proof fn lemma_boxes_intersect_swap(a: OBB, b: OBB)
    requires
        boxes_intersect(a, b),
    ensures
        boxes_intersect(b, a),
{
    assert forall|k: int| 0 <= k < 15 implies !separates(b, a, #[trigger] sat_axis(b, a, k)) by {
        let l = sat_axis(b, a, k);
        lemma_separates_symmetric(a, b, l);
        if k < 3 {
            assert(l == sat_axis(a, b, k + 3));
        } else if k < 6 {
            assert(l == sat_axis(a, b, k - 3));
        } else {
            let i = (k - 6) / 3;
            let j = (k - 6) % 3;
            let k2 = 6 + 3 * j + i;
            assert((k2 - 6) / 3 == j && (k2 - 6) % 3 == i);
            lemma_cross_anticommutes(a.orientation.axis(j), b.orientation.axis(i));
            assert(l == vneg(sat_axis(a, b, k2)));
            lemma_separates_symmetric(a, b, sat_axis(a, b, k2));
            assert(!separates(a, b, sat_axis(a, b, k2)));
        }
    }
}

/// The box test does not depend on the order of its arguments.
pub proof fn lemma_box_test_symmetric(a: OBB, b: OBB)
    ensures
        boxes_intersect(a, b) == boxes_intersect(b, a),
{
    if boxes_intersect(a, b) {
        lemma_boxes_intersect_swap(a, b);
    }
    if boxes_intersect(b, a) {
        lemma_boxes_intersect_swap(b, a);
    }
}

/// The exact test does not depend on the order of its arguments.
pub proof fn lemma_collider_test_symmetric(a: CachedCollider, b: CachedCollider)
    requires
        supported_pair(a, b),
    ensures
        supported_pair(b, a),
        colliders_intersect(a, b) == colliders_intersect(b, a),
{
    match (a, b) {
        (CachedCollider::Box(x), CachedCollider::Box(y)) => lemma_box_test_symmetric(x, y),
        (CachedCollider::Sphere(s), CachedCollider::Sphere(t)) => {
            assert(sq(s.center.x - t.center.x) == sq(t.center.x - s.center.x)) by (nonlinear_arith);
            assert(sq(s.center.y - t.center.y) == sq(t.center.y - s.center.y)) by (nonlinear_arith);
            assert(sq(s.center.z - t.center.z) == sq(t.center.z - s.center.z)) by (nonlinear_arith);
        },
        _ => {},
    }
}

/// Two boxes with the same center always intersect, whatever their
/// orientations and sizes.
pub proof fn lemma_concentric_boxes_intersect(a: OBB, b: OBB)
    requires
        a.center == b.center,
    ensures
        boxes_intersect(a, b),
{
    assert forall|k: int| 0 <= k < 15 implies !separates(a, b, #[trigger] sat_axis(a, b, k)) by {
        let l = sat_axis(a, b, k);
        assert(center_offset(a, b) == (0int, 0int, 0int));
        assert(vdot(center_offset(a, b), l) == 0) by (nonlinear_arith)
            requires
                center_offset(a, b) == (0int, 0int, 0int),
        ;
        lemma_projected_radius_nonneg(a, l);
        lemma_projected_radius_nonneg(b, l);
    }
}

proof fn lemma_projected_radius_nonneg(o: OBB, l: (int, int, int))
    ensures
        projected_radius(o, l) >= 0,
{
    let m0 = abs(vdot(o.orientation.axis(0), l)) + PROJECTION_EPSILON;
    let m1 = abs(vdot(o.orientation.axis(1), l)) + PROJECTION_EPSILON;
    let m2 = abs(vdot(o.orientation.axis(2), l)) + PROJECTION_EPSILON;
    assert(o.half_widths.at(0) * m0 >= 0) by (nonlinear_arith)
        requires
            o.half_widths.at(0) >= 0,
            m0 >= 0,
    ;
    assert(o.half_widths.at(1) * m1 >= 0) by (nonlinear_arith)
        requires
            o.half_widths.at(1) >= 0,
            m1 >= 0,
    ;
    assert(o.half_widths.at(2) * m2 >= 0) by (nonlinear_arith)
        requires
            o.half_widths.at(2) >= 0,
            m2 >= 0,
    ;
}

/// Sum of the six half widths of two boxes.
pub open spec fn total_half_widths(a: OBB, b: OBB) -> int {
    a.half_widths.at(0) + a.half_widths.at(1) + a.half_widths.at(2) + b.half_widths.at(0)
        + b.half_widths.at(1) + b.half_widths.at(2)
}

pub open spec fn component(v: (int, int, int), d: int) -> int {
    if d == 0 {
        v.0
    } else if d == 1 {
        v.1
    } else {
        v.2
    }
}

/// The direction `m` times the unit vector of world axis `d`.
pub open spec fn along(d: int, m: int) -> (int, int, int) {
    (if d == 0 { m } else { 0 }, if d == 1 { m } else { 0 }, if d == 2 { m } else { 0 })
}

/// For unrotated boxes, a direction along world axis `d` separates them
/// exactly when the centers' distance along `d` exceeds the sum of the half
/// widths along `d`, up to the epsilon shares.
proof fn lemma_aligned_separation(a: OBB, b: OBB, d: int, m: int)
    requires
        a.orientation == identity_orientation(),
        b.orientation == identity_orientation(),
        0 <= d < 3,
    ensures
        separates(a, b, along(d, m)) == (AXIS_UNIT * (abs(m) * abs(component(center_offset(a, b), d))) > AXIS_UNIT
            * (abs(m) * (a.half_widths.at(d) + b.half_widths.at(d))) + total_half_widths(a, b)),
{
    let l = along(d, m);
    let t = center_offset(a, b);
    let ex: (int, int, int) = (16384, 0, 0);
    let ey: (int, int, int) = (0, 16384, 0);
    let ez: (int, int, int) = (0, 0, 16384);
    assert(a.orientation.axis(0) == ex && a.orientation.axis(1) == ey && a.orientation.axis(2) == ez);
    assert(b.orientation.axis(0) == ex && b.orientation.axis(1) == ey && b.orientation.axis(2) == ez);
    assert(vdot(t, l) == m * component(t, d)) by (nonlinear_arith)
        requires
            l == along(d, m),
            0 <= d < 3,
    ;
    assert(abs(m * component(t, d)) == abs(m) * abs(component(t, d))) by (nonlinear_arith);
    let sm = 16384 * m;
    assert(abs(vdot(ex, l)) == if d == 0 { abs(sm) } else { 0 }) by (nonlinear_arith)
        requires
            l == along(d, m),
            ex == (16384int, 0int, 0int),
            sm == 16384 * m,
    ;
    assert(abs(vdot(ey, l)) == if d == 1 { abs(sm) } else { 0 }) by (nonlinear_arith)
        requires
            l == along(d, m),
            ey == (0int, 16384int, 0int),
            sm == 16384 * m,
    ;
    assert(abs(vdot(ez, l)) == if d == 2 { abs(sm) } else { 0 }) by (nonlinear_arith)
        requires
            l == along(d, m),
            ez == (0int, 0int, 16384int),
            sm == 16384 * m,
    ;
    assert(abs(sm) == 16384 * abs(m));
    let am = abs(m);
    let (ha0, ha1, ha2) = (a.half_widths.at(0), a.half_widths.at(1), a.half_widths.at(2));
    let (hb0, hb1, hb2) = (b.half_widths.at(0), b.half_widths.at(1), b.half_widths.at(2));
    let ra = projected_radius(a, l);
    let rb = projected_radius(b, l);
    if d == 0 {
        assert(ra == ha0 * (16384 * am + 1) + ha1 + ha2);
        assert(rb == hb0 * (16384 * am + 1) + hb1 + hb2);
    } else if d == 1 {
        assert(ra == ha0 + ha1 * (16384 * am + 1) + ha2);
        assert(rb == hb0 + hb1 * (16384 * am + 1) + hb2);
    } else {
        assert(ra == ha0 + ha1 + ha2 * (16384 * am + 1));
        assert(rb == hb0 + hb1 + hb2 * (16384 * am + 1));
    }
    let hd = a.half_widths.at(d) + b.half_widths.at(d);
    assert(ra + rb == 16384 * (am * hd) + total_half_widths(a, b)) by (nonlinear_arith)
        requires
            d == 0 ==> ra == ha0 * (16384 * am + 1) + ha1 + ha2 && rb == hb0 * (16384 * am + 1) + hb1 + hb2
                && hd == ha0 + hb0,
            d == 1 ==> ra == ha0 + ha1 * (16384 * am + 1) + ha2 && rb == hb0 + hb1 * (16384 * am + 1) + hb2
                && hd == ha1 + hb1,
            d == 2 ==> ra == ha0 + ha1 + ha2 * (16384 * am + 1) && rb == hb0 + hb1 + hb2 * (16384 * am + 1)
                && hd == ha2 + hb2,
            0 <= d < 3,
            total_half_widths(a, b) == ha0 + ha1 + ha2 + hb0 + hb1 + hb2,
    ;
}

/// For unrotated boxes, each of the fifteen axes lies along a world axis.
proof fn lemma_aligned_axes(a: OBB, b: OBB, k: int) -> (dm: (int, int))
    requires
        a.orientation == identity_orientation(),
        b.orientation == identity_orientation(),
        0 <= k < 15,
    ensures
        0 <= dm.0 < 3,
        sat_axis(a, b, k) == along(dm.0, dm.1),
        k == 7 ==> dm == (2int, AXIS_UNIT * AXIS_UNIT),
        k == 11 ==> dm == (0int, AXIS_UNIT * AXIS_UNIT),
        k == 12 ==> dm == (1int, AXIS_UNIT * AXIS_UNIT),
{
    let u: int = 16384;
    let ex: (int, int, int) = (u, 0, 0);
    let ey: (int, int, int) = (0, u, 0);
    let ez: (int, int, int) = (0, 0, u);
    assert(a.orientation.axis(0) == ex && a.orientation.axis(1) == ey && a.orientation.axis(2) == ez);
    assert(b.orientation.axis(0) == ex && b.orientation.axis(1) == ey && b.orientation.axis(2) == ez);
    let uu: int = 268435456;
    assert(vcross(ex, ex) == along(0, 0) && vcross(ey, ey) == along(0, 0) && vcross(ez, ez) == along(0, 0));
    assert(vcross(ex, ey) == along(2, uu) && vcross(ey, ex) == along(2, -uu));
    assert(vcross(ey, ez) == along(0, uu) && vcross(ez, ey) == along(0, -uu));
    assert(vcross(ez, ex) == along(1, uu) && vcross(ex, ez) == along(1, -uu));
    if k < 3 {
        assert(sat_axis(a, b, k) == along(k, u));
        (k, u)
    } else if k < 6 {
        assert(sat_axis(a, b, k) == along(k - 3, u));
        (k - 3, u)
    } else if k == 6 || k == 10 || k == 14 {
        (0, 0)
    } else if k == 7 {
        (2, uu)
    } else if k == 8 {
        (1, -uu)
    } else if k == 9 {
        (2, -uu)
    } else if k == 11 {
        (0, uu)
    } else if k == 12 {
        (1, uu)
    } else {
        (0, -uu)
    }
}

/// Two unrotated boxes apart along world axis `d` (their centers further
/// apart along `d` than their half widths reach) do not intersect, whatever
/// their sizes.
pub proof fn lemma_apart_aligned_boxes_never_intersect(a: OBB, b: OBB, d: int)
    requires
        a.orientation == identity_orientation(),
        b.orientation == identity_orientation(),
        0 <= d < 3,
        abs(component(center_offset(a, b), d)) > a.half_widths.at(d) + b.half_widths.at(d),
    ensures
        !boxes_intersect(a, b),
{
    let k: int = if d == 0 { 11 } else if d == 1 { 12 } else { 7 };
    let dm = lemma_aligned_axes(a, b, k);
    let m = AXIS_UNIT * AXIS_UNIT;
    lemma_aligned_separation(a, b, d, m);
    let gap = abs(component(center_offset(a, b), d));
    let hd = a.half_widths.at(d) + b.half_widths.at(d);
    assert(total_half_widths(a, b) < 6 * 0x1_0000_0000);
    assert(AXIS_UNIT * (abs(m) * gap) > AXIS_UNIT * (abs(m) * hd) + total_half_widths(a, b)) by (nonlinear_arith)
        requires
            gap >= hd + 1,
            m == 268435456,
            total_half_widths(a, b) < 6 * 0x1_0000_0000,
    ;
    assert(separates(a, b, sat_axis(a, b, k)));
}

/// Two unrotated boxes that overlap or touch along every world axis
/// intersect; in particular two boxes with the same center and size do.
pub proof fn lemma_overlapping_aligned_boxes_intersect(a: OBB, b: OBB)
    requires
        a.orientation == identity_orientation(),
        b.orientation == identity_orientation(),
        forall|d: int| 0 <= d < 3 ==> abs(#[trigger] component(center_offset(a, b), d)) <= a.half_widths.at(d)
            + b.half_widths.at(d),
    ensures
        boxes_intersect(a, b),
{
    assert forall|k: int| 0 <= k < 15 implies !separates(a, b, #[trigger] sat_axis(a, b, k)) by {
        let dm = lemma_aligned_axes(a, b, k);
        let (d, m) = dm;
        lemma_aligned_separation(a, b, d, m);
        let gap = abs(component(center_offset(a, b), d));
        let hd = a.half_widths.at(d) + b.half_widths.at(d);
        assert(gap <= hd);
        assert(abs(m) * gap <= abs(m) * hd) by (nonlinear_arith)
            requires
                gap <= hd,
                abs(m) >= 0,
        ;
        assert(total_half_widths(a, b) >= 0);
    }
}

/// Asking the exact test the same question twice gives the same answer: the
/// result depends on the two colliders alone.
pub proof fn lemma_test_repeatable(a: CachedCollider, b: CachedCollider, first: bool, second: bool)
    requires
        supported_pair(a, b),
        first == colliders_intersect(a, b),
        second == colliders_intersect(a, b),
    ensures
        first == second,
{
}

} // verus!
