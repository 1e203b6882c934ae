use gunship::callbacks::{CallbackInvocation, CollisionCallbackManager};
use gunship::collider::{Collider, ColliderManager};
use gunship::geometry::{CachedCollider, Extents, Point, Sphere};
use gunship::grid_collision::GridCollisionSystem;
use gunship::pair_set::EntityPairSet;
use gunship::volume::{BoundVolume, Entity, AABB};

const HANDLER: u64 = 77;

#[test]
fn handler_on_both_entities_runs_twice() {
    let e1 = Entity(1);
    let e2 = Entity(2);
    let mut manager = CollisionCallbackManager::new();
    assert!(manager.register(e1, HANDLER));
    assert!(!manager.register(e2, HANDLER));
    let mut pairs = EntityPairSet::new();
    pairs.insert(e1, e2);
    let calls = manager.process_collisions(&pairs);
    assert_eq!(
        calls,
        vec![
            CallbackInvocation { callback: HANDLER, first: e1, second: e2 },
            CallbackInvocation { callback: HANDLER, first: e2, second: e1 },
        ]
    );
}

#[test]
fn tick_then_dispatch() {
    let e1 = Entity(1);
    let e2 = Entity(2);
    let volumes: Vec<BoundVolume> = [(e1, 0), (e2, 1500)]
        .iter()
        .map(|&(e, x)| BoundVolume {
            entity: e,
            aabb: AABB { min: Point::new(x - 1000, -1000, -1000), max: Point::new(x + 1000, 1000, 1000) },
            collider: CachedCollider::Sphere(Sphere { center: Point::new(x, 0, 0), radius: 1000 }),
        })
        .collect();
    let mut system = GridCollisionSystem::new();
    system.update(&volumes);
    let mut manager = CollisionCallbackManager::new();
    manager.register(e1, HANDLER);
    manager.register(e2, HANDLER);
    let calls = manager.process_collisions(system.collisions());
    assert_eq!(calls.len(), 2);
    assert!(calls.contains(&CallbackInvocation { callback: HANDLER, first: e1, second: e2 }));
    assert!(calls.contains(&CallbackInvocation { callback: HANDLER, first: e2, second: e1 }));
}

#[test]
fn handlers_run_in_registration_order_with_repeats() {
    let (a, b, c) = (Entity(1), Entity(2), Entity(3));
    let mut manager = CollisionCallbackManager::new();
    assert!(manager.register(a, 5));
    assert!(manager.register(a, 6));
    assert!(!manager.register(a, 5));
    assert!(manager.register(c, 9));
    let mut pairs = EntityPairSet::new();
    pairs.insert(a, b);
    pairs.insert(c, a);
    let calls = manager.process_collisions(&pairs);
    let expected: Vec<CallbackInvocation> = vec![
        (5, a, b),
        (6, a, b),
        (5, a, b),
        (9, c, a),
        (5, a, c),
        (6, a, c),
        (5, a, c),
    ]
    .into_iter()
    .map(|(callback, first, second)| CallbackInvocation { callback, first, second })
    .collect();
    assert_eq!(calls, expected);
}

#[test]
fn no_handlers_no_calls() {
    let manager = CollisionCallbackManager::new();
    let mut pairs = EntityPairSet::new();
    pairs.insert(Entity(4), Entity(8));
    assert!(manager.process_collisions(&pairs).is_empty());
    assert!(manager.process_collisions(&EntityPairSet::new()).is_empty());
}

#[test]
fn collider_manager_keeps_assignments() {
    let mut colliders = ColliderManager::new();
    let ball = Collider::Sphere { offset: Point::new(0, 10, 0), radius: 5 };
    let crate_box = Collider::Box { offset: Point::new(0, 0, 0), widths: Extents { x: 2, y: 4, z: 6 } };
    colliders.assign(Entity(7), ball);
    colliders.assign(Entity(9), crate_box);
    assert_eq!(colliders.get(Entity(7)), Some(ball));
    assert_eq!(colliders.get(Entity(9)), Some(crate_box));
    assert_eq!(colliders.get(Entity(8)), None);
    assert_eq!(colliders.iter(), vec![(Entity(7), ball), (Entity(9), crate_box)]);
    colliders.assign(Entity(7), Collider::Mesh);
    assert_eq!(colliders.get(Entity(7)), Some(Collider::Mesh));
    assert_eq!(colliders.iter().len(), 3);
    assert!(colliders.register_callback(Entity(7), 1));
    assert!(!colliders.register_callback(Entity(9), 1));
    let mut pairs = EntityPairSet::new();
    pairs.insert(Entity(9), Entity(7));
    assert_eq!(colliders.callback_manager().process_collisions(&pairs).len(), 2);
}
