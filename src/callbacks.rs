use vstd::prelude::*;
use std::collections::{HashMap, HashSet};

use crate::pair_set::EntityPairSet;
use crate::volume::Entity;

verus! {

broadcast use vstd::std_specs::hash::group_hash_axioms;

/// Identity of a collision handler. Registering a handler whose identity is
/// already known reuses the one stored instance.
pub type CallbackId = u64;

/// One call of a handler: `callback` is invoked with `(first, second)`, where
/// `first` is the entity the handler was registered for.
#[derive(Debug, Clone, Copy, PartialEq, Eq, Structural)]
pub struct CallbackInvocation {
    pub callback: CallbackId,
    pub first: Entity,
    pub second: Entity,
}

/// The calls of the handlers `ids`, in order, with `(first, second)`.
pub open spec fn calls_for(ids: Seq<CallbackId>, first: Entity, second: Entity) -> Seq<CallbackInvocation> {
    ids.map_values(|id: CallbackId| CallbackInvocation { callback: id, first, second })
}

/// The calls dispatching `pairs` makes, given the handlers registered for
/// each entity: for each pair `(a, b)` in order, every handler of `a` with
/// `(a, b)`, then every handler of `b` with `(b, a)`.
pub open spec fn dispatch_plan(handlers: spec_fn(Entity) -> Seq<CallbackId>, pairs: Seq<(Entity, Entity)>) -> Seq<
    CallbackInvocation,
>
    decreases pairs.len(),
{
    if pairs.len() == 0 {
        Seq::empty()
    } else {
        let (a, b) = pairs.last();
        dispatch_plan(handlers, pairs.drop_last()) + calls_for(handlers(a), a, b) + calls_for(handlers(b), b, a)
    }
}

/// Which collision handlers each entity has, by identity. The handler
/// instances are kept by the caller, one per identity.
#[derive(Debug)]
pub struct CollisionCallbackManager {
    callbacks: HashSet<CallbackId>,
    entity_callbacks: HashMap<u32, Vec<CallbackId>>,
}

impl CollisionCallbackManager {
    /// The identities of all registered handlers.
    pub closed spec fn handler_ids(&self) -> Set<CallbackId> {
        self.callbacks@
    }

    /// The handlers registered for `e`, in order of registration, repeats kept.
    pub closed spec fn callbacks_of(&self, e: Entity) -> Seq<CallbackId> {
        if self.entity_callbacks@.contains_key(e.0) {
            self.entity_callbacks@[e.0]@
        } else {
            Seq::empty()
        }
    }

    pub fn new() -> (r: CollisionCallbackManager)
        ensures
            r.handler_ids() == Set::<CallbackId>::empty(),
            forall|e: Entity| r.callbacks_of(e) == Seq::<CallbackId>::empty(),
    {
        CollisionCallbackManager { callbacks: HashSet::new(), entity_callbacks: HashMap::new() }
    }

    /// Registers handler `callback` for `entity`. Returns whether the handler
    /// identity is new, in which case the caller keeps the instance. The
    /// entity's list always grows, even when it already holds the handler.
    pub fn register(&mut self, entity: Entity, callback: CallbackId) -> (r: bool)
        ensures
            r == !old(self).handler_ids().contains(callback),
            final(self).handler_ids() == old(self).handler_ids().insert(callback),
            final(self).callbacks_of(entity) == old(self).callbacks_of(entity).push(callback),
            forall|e: Entity| e != entity ==> #[trigger] final(self).callbacks_of(e) == old(self).callbacks_of(e),
    {
        let is_new = self.callbacks.insert(callback);
        let ids = match self.entity_callbacks.remove(&entity.0) {
            Some(ids) => {
                let mut ids = ids;
                ids.push(callback);
                ids
            },
            None => vec![callback],
        };
        self.entity_callbacks.insert(entity.0, ids);
        proof {
            assert forall|e: Entity| e != entity implies #[trigger] self.callbacks_of(e) == old(self).callbacks_of(e) by {
                assert(e.0 != entity.0);
            }
            assert(self.callbacks_of(entity) =~= old(self).callbacks_of(entity).push(callback));
        }
        is_new
    }

    /// Appends the calls of the handlers of `first` with `(first, second)`.
    fn append_calls(&self, out: &mut Vec<CallbackInvocation>, first: Entity, second: Entity)
        ensures
            final(out)@ == old(out)@ + calls_for(self.callbacks_of(first), first, second),
    {
        match self.entity_callbacks.get(&first.0) {
            Some(ids) => {
                let mut k: usize = 0;
                while k < ids.len()
                    invariant
                        k <= ids@.len(),
                        ids@ == self.callbacks_of(first),
                        out@ == old(out)@ + calls_for(ids@.subrange(0, k as int), first, second),
                    decreases ids@.len() - k,
                {
                    out.push(CallbackInvocation { callback: ids[k], first, second });
                    proof {
                        assert(calls_for(ids@.subrange(0, k + 1), first, second) =~= calls_for(
                            ids@.subrange(0, k as int),
                            first,
                            second,
                        ).push(CallbackInvocation { callback: ids@[k as int], first, second }));
                    }
                    k = k + 1;
                }
                proof {
                    assert(ids@.subrange(0, k as int) =~= ids@);
                }
            },
            None => {
                proof {
                    assert(calls_for(self.callbacks_of(first), first, second) =~= Seq::<CallbackInvocation>::empty());
                    assert(out@ =~= old(out)@ + Seq::<CallbackInvocation>::empty());
                }
            },
        }
    }

    /// The handler calls for one tick's collisions, in the order they are to
    /// be made. Each pair is expected once, as `(a, b)` or `(b, a)`: a pair
    /// listed both ways is dispatched twice.
    pub fn process_collisions(&self, collisions: &EntityPairSet) -> (r: Vec<CallbackInvocation>)
        requires
            collisions.wf(),
        ensures
            r@ == dispatch_plan(|e: Entity| self.callbacks_of(e), collisions.seq()),
    {
        let pairs = collisions.pairs();
        let ghost f = |e: Entity| self.callbacks_of(e);
        let mut out: Vec<CallbackInvocation> = Vec::new();
        let mut k: usize = 0;
        while k < pairs.len()
            invariant
                k <= pairs@.len(),
                pairs@ == collisions.seq(),
                f == (|e: Entity| self.callbacks_of(e)),
                out@ == dispatch_plan(f, pairs@.subrange(0, k as int)),
            decreases pairs@.len() - k,
        {
            let (a, b) = pairs[k];
            self.append_calls(&mut out, a, b);
            self.append_calls(&mut out, b, a);
            proof {
                let next = pairs@.subrange(0, k + 1);
                assert(next.drop_last() =~= pairs@.subrange(0, k as int));
                assert(next.last() == (a, b));
            }
            k = k + 1;
        }
        proof {
            assert(pairs@.subrange(0, k as int) =~= pairs@);
        }
        out
    }
}

} // verus!
