use vstd::prelude::*;
use std::collections::HashSet;

use crate::volume::Entity;

verus! {

broadcast use vstd::std_specs::hash::group_hash_axioms;

/// Hash key of an ordered pair of entities: the first id in the high half.
pub open spec fn pair_key(p: (Entity, Entity)) -> int {
    p.0.0 as int * 0x1_0000_0000 + p.1.0 as int
}

/// Writing a number in base 2^32 is unique: the high part and the low digit
/// are determined.
pub(crate) proof fn lemma_base_digits_unique(a1: int, b1: int, a2: int, b2: int)
    requires
        a1 * 0x1_0000_0000 + b1 == a2 * 0x1_0000_0000 + b2,
        0 <= b1 < 0x1_0000_0000,
        0 <= b2 < 0x1_0000_0000,
    ensures
        a1 == a2,
        b1 == b2,
{
    assert(a1 == a2) by (nonlinear_arith)
        requires
            a1 * 0x1_0000_0000 + b1 == a2 * 0x1_0000_0000 + b2,
            0 <= b1 < 0x1_0000_0000,
            0 <= b2 < 0x1_0000_0000,
    ;
}

proof fn lemma_pair_key_injective(p: (Entity, Entity), q: (Entity, Entity))
    requires
        pair_key(p) == pair_key(q),
    ensures
        p == q,
{
    lemma_base_digits_unique(p.0.0 as int, p.1.0 as int, q.0.0 as int, q.1.0 as int);
}

fn key_of(a: Entity, b: Entity) -> (r: u64)
    ensures
        r as int == pair_key((a, b)),
{
    proof {
        assert(a.0 as int * 0x1_0000_0000 <= 0xffff_ffff * 0x1_0000_0000) by (nonlinear_arith)
            requires
                a.0 <= 0xffff_ffff,
        ;
    }
    a.0 as u64 * 0x1_0000_0000 + b.0 as u64
}

/// A set of ordered entity pairs that remembers the order of insertion.
#[derive(Debug)]
pub struct EntityPairSet {
    keys: HashSet<u64>,
    pairs: Vec<(Entity, Entity)>,
}

impl View for EntityPairSet {
    type V = Set<(Entity, Entity)>;

    closed spec fn view(&self) -> Set<(Entity, Entity)> {
        self.pairs@.to_set()
    }
}

impl EntityPairSet {
    /// The pairs in the order they were first inserted.
    pub closed spec fn seq(&self) -> Seq<(Entity, Entity)> {
        self.pairs@
    }

    pub closed spec fn wf(&self) -> bool {
        &&& self.pairs@.no_duplicates()
        &&& forall|k: u64| #[trigger]
            self.keys@.contains(k) <==> exists|i: int|
                0 <= i < self.pairs@.len() && pair_key(#[trigger] self.pairs@[i]) == k
    }

    pub fn new() -> (r: EntityPairSet)
        ensures
            r.wf(),
            r@ == Set::<(Entity, Entity)>::empty(),
            r.seq() == Seq::<(Entity, Entity)>::empty(),
    {
        let r = EntityPairSet { keys: HashSet::new(), pairs: Vec::new() };
        assert(r@ =~= Set::<(Entity, Entity)>::empty());
        r
    }

    pub fn contains(&self, a: Entity, b: Entity) -> (r: bool)
        requires
            self.wf(),
        ensures
            r == self@.contains((a, b)),
    {
        let k = key_of(a, b);
        let r = self.keys.contains(&k);
        proof {
            if r {
                let i = choose|i: int|
                    0 <= i < self.pairs@.len() && pair_key(#[trigger] self.pairs@[i]) == k;
                lemma_pair_key_injective(self.pairs@[i], (a, b));
                assert(self.pairs@.contains((a, b)));
            } else {
                if self.pairs@.contains((a, b)) {
                    let i = choose|i: int| 0 <= i < self.pairs@.len() && self.pairs@[i] == (a, b);
                    assert(pair_key(self.pairs@[i]) == k);
                }
            }
        }
        r
    }

    /// Adds the pair; returns whether it was absent.
    pub fn insert(&mut self, a: Entity, b: Entity) -> (r: bool)
        requires
            old(self).wf(),
        ensures
            final(self).wf(),
            final(self)@ == old(self)@.insert((a, b)),
            r == !old(self)@.contains((a, b)),
            final(self).seq() == (if r {
                old(self).seq().push((a, b))
            } else {
                old(self).seq()
            }),
    {
        if self.contains(a, b) {
            proof {
                assert(self@.insert((a, b)) =~= self@);
            }
            return false;
        }
        let k = key_of(a, b);
        self.keys.insert(k);
        self.pairs.push((a, b));
        proof {
            let ps = self.pairs@;
            let olds = old(self).pairs@;
            assert(ps.last() == (a, b));
            assert forall|kk: u64| #[trigger]
                self.keys@.contains(kk) <==> exists|i: int|
                    0 <= i < ps.len() && pair_key(#[trigger] ps[i]) == kk by {
                if self.keys@.contains(kk) {
                    if kk == k {
                        assert(pair_key(ps[olds.len() as int]) == kk);
                    } else {
                        let i = choose|i: int|
                            0 <= i < olds.len() && pair_key(#[trigger] olds[i]) == kk;
                        assert(ps[i] == olds[i]);
                    }
                }
                if exists|i: int| 0 <= i < ps.len() && pair_key(#[trigger] ps[i]) == kk {
                    let i = choose|i: int| 0 <= i < ps.len() && pair_key(#[trigger] ps[i]) == kk;
                    if i < olds.len() {
                        assert(olds[i] == ps[i]);
                    }
                }
            }
            assert(!olds.contains((a, b)));
            assert forall|i: int, j: int|
                0 <= i < ps.len() && 0 <= j < ps.len() && i != j implies ps[i] != ps[j] by {
                if i < olds.len() && j < olds.len() {
                } else if i < olds.len() {
                    assert(olds.contains(ps[i]));
                } else if j < olds.len() {
                    assert(olds.contains(ps[j]));
                }
            }
            assert(ps =~= olds.push((a, b)));
            olds.lemma_push_to_set_commute((a, b));
        }
        true
    }

    /// Removes every pair.
    pub fn clear(&mut self)
        ensures
            final(self).wf(),
            final(self)@ == Set::<(Entity, Entity)>::empty(),
            final(self).seq() == Seq::<(Entity, Entity)>::empty(),
    {
        self.keys.clear();
        self.pairs.clear();
        proof {
            assert(self@ =~= Set::<(Entity, Entity)>::empty());
        }
    }

    pub fn is_empty(&self) -> (r: bool)
        requires
            self.wf(),
        ensures
            r == (self@ == Set::<(Entity, Entity)>::empty()),
    {
        let r = self.pairs.len() == 0;
        proof {
            if r {
                assert(self@ =~= Set::<(Entity, Entity)>::empty());
            } else {
                assert(self@.contains(self.pairs@[0]));
            }
        }
        r
    }

    /// The pairs in the order they were first inserted, each once.
    pub fn pairs(&self) -> (r: &Vec<(Entity, Entity)>)
        requires
            self.wf(),
        ensures
            r@ == self.seq(),
            r@.no_duplicates(),
            r@.to_set() == self@,
    {
        &self.pairs
    }

    /// Adds every pair of `other`.
    pub fn insert_all(&mut self, other: &EntityPairSet)
        requires
            old(self).wf(),
            other.wf(),
        ensures
            final(self).wf(),
            final(self)@ == old(self)@.union(other@),
    {
        let mut i: usize = 0;
        while i < other.pairs.len()
            invariant
                self.wf(),
                other.wf(),
                i <= other.pairs@.len(),
                self@ == old(self)@.union(other.pairs@.subrange(0, i as int).to_set()),
            decreases other.pairs@.len() - i,
        {
            let (a, b) = other.pairs[i];
            self.insert(a, b);
            proof {
                assert(other.pairs@.subrange(0, i + 1) =~= other.pairs@.subrange(
                    0,
                    i as int,
                ).push((a, b)));
                other.pairs@.subrange(0, i as int).lemma_push_to_set_commute((a, b));
                assert(self@ =~= old(self)@.union(other.pairs@.subrange(0, i + 1).to_set()));
            }
            i = i + 1;
        }
        proof {
            assert(other.pairs@.subrange(0, i as int) =~= other.pairs@);
        }
    }
}

} // verus!
