use vstd::prelude::*;
use std::collections::HashMap;

use crate::callbacks::{CallbackId, CollisionCallbackManager};
use crate::geometry::{Extents, Point};
use crate::volume::Entity;

verus! {

broadcast use vstd::std_specs::hash::group_hash_axioms;

/// The collision volume an entity is configured with, relative to the entity.
#[derive(Debug, Clone, Copy, PartialEq, Eq, Structural)]
pub enum Collider {
    /// A sphere centered at the entity's position moved by `offset`. It is
    /// not scaled with the entity, since a non-uniform scale cannot keep it a
    /// sphere; resize it directly instead.
    Sphere { offset: Point, radius: u32 },
    /// A box oriented along the entity's local axes, `widths` giving its full
    /// size along each of them.
    Box { offset: Point, widths: Extents },
    /// Collision geometry derived from mesh data.
    Mesh,
}

/// The colliders assigned to entities, in order of assignment, and the
/// collision handlers registered for them.
#[derive(Debug)]
pub struct ColliderManager {
    colliders: Vec<Collider>,
    entities: Vec<Entity>,
    indices: HashMap<u32, usize>,
    callback_manager: CollisionCallbackManager,
}

impl ColliderManager {
    pub closed spec fn wf(&self) -> bool {
        &&& self.colliders@.len() == self.entities@.len()
        &&& forall|id: u32| #[trigger]
            self.indices@.contains_key(id) ==> self.indices@[id] < self.entities@.len()
                && self.entities@[self.indices@[id] as int].0 == id
    }

    /// Every assignment made, in order.
    pub closed spec fn entries(&self) -> Seq<(Entity, Collider)> {
        Seq::new(self.entities@.len(), |k: int| (self.entities@[k], self.colliders@[k]))
    }

    /// The collider an entity was last assigned, if any.
    pub closed spec fn collider_of(&self, e: Entity) -> Option<Collider> {
        if self.indices@.contains_key(e.0) {
            Some(self.colliders@[self.indices@[e.0] as int])
        } else {
            None
        }
    }

    pub closed spec fn callbacks(&self) -> CollisionCallbackManager {
        self.callback_manager
    }

    pub fn new() -> (r: ColliderManager)
        ensures
            r.wf(),
            r.entries() == Seq::<(Entity, Collider)>::empty(),
            forall|e: Entity| r.collider_of(e) is None,
            r.callbacks().handler_ids() == Set::<CallbackId>::empty(),
            forall|e: Entity| r.callbacks().callbacks_of(e) == Seq::<CallbackId>::empty(),
    {
        let r = ColliderManager {
            colliders: Vec::new(),
            entities: Vec::new(),
            indices: HashMap::new(),
            callback_manager: CollisionCallbackManager::new(),
        };
        assert(r.entries() =~= Seq::<(Entity, Collider)>::empty());
        r
    }

    /// Gives `entity` the collider `collider`. An entity is meant to be
    /// assigned once; assigning again adds an entry and the latest one is
    /// the entity's collider.
    pub fn assign(&mut self, entity: Entity, collider: Collider)
        requires
            old(self).wf(),
            old(self).entries().len() < usize::MAX,
        ensures
            final(self).wf(),
            final(self).entries() == old(self).entries().push((entity, collider)),
            final(self).collider_of(entity) == Some(collider),
            forall|e: Entity| e != entity ==> #[trigger] final(self).collider_of(e) == old(self).collider_of(e),
            final(self).callbacks() == old(self).callbacks(),
    {
        let index = self.colliders.len();
        self.colliders.push(collider);
        self.entities.push(entity);
        self.indices.insert(entity.0, index);
        proof {
            assert(self.entries() =~= old(self).entries().push((entity, collider)));
            assert forall|e: Entity| e != entity implies #[trigger] self.collider_of(e) == old(self).collider_of(e) by {
                assert(e.0 != entity.0);
                if old(self).indices@.contains_key(e.0) {
                    assert(old(self).indices@[e.0] < old(self).colliders@.len());
                }
            }
        }
    }

    /// The collider `entity` was last assigned, if any.
    pub fn get(&self, entity: Entity) -> (r: Option<Collider>)
        requires
            self.wf(),
        ensures
            r == self.collider_of(entity),
    {
        match self.indices.get(&entity.0) {
            Some(index) => Some(self.colliders[*index]),
            None => None,
        }
    }

    /// Registers the handler `callback` for `entity`; returns whether the
    /// handler identity is new (see `CollisionCallbackManager::register`).
    pub fn register_callback(&mut self, entity: Entity, callback: CallbackId) -> (r: bool)
        ensures
            r == !old(self).callbacks().handler_ids().contains(callback),
            final(self).callbacks().handler_ids() == old(self).callbacks().handler_ids().insert(callback),
            final(self).callbacks().callbacks_of(entity) == old(self).callbacks().callbacks_of(entity).push(callback),
            forall|e: Entity| e != entity ==> #[trigger] final(self).callbacks().callbacks_of(e) == old(
                self,
            ).callbacks().callbacks_of(e),
            final(self).entries() == old(self).entries(),
            forall|e: Entity| #[trigger] final(self).collider_of(e) == old(self).collider_of(e),
            old(self).wf() ==> final(self).wf(),
    {
        self.callback_manager.register(entity, callback)
    }

    /// The handler registrations.
    pub fn callback_manager(&self) -> (r: &CollisionCallbackManager)
        ensures
            *r == self.callbacks(),
    {
        &self.callback_manager
    }

    /// Every assignment made, in order, as `(entity, collider)`.
    pub fn iter(&self) -> (r: Vec<(Entity, Collider)>)
        requires
            self.wf(),
        ensures
            r@ == self.entries(),
    {
        let mut out: Vec<(Entity, Collider)> = Vec::new();
        let mut k: usize = 0;
        while k < self.entities.len()
            invariant
                self.wf(),
                k <= self.entities@.len(),
                out@ == self.entries().subrange(0, k as int),
            decreases self.entities@.len() - k,
        {
            out.push((self.entities[k], self.colliders[k]));
            proof {
                assert(out@ =~= self.entries().subrange(0, k + 1));
            }
            k = k + 1;
        }
        proof {
            assert(out@ =~= self.entries());
        }
        out
    }
}

} // verus!
