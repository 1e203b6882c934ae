use gunship::geometry::{CachedCollider, Extents, OBB, Orientation, Point, Sphere};
use gunship::grid_collision::{
    compute_cell_size, octant, CollisionError, GridCell, GridCollisionSystem, WorkUnit, Worker, NUM_WORK_UNITS,
};
use gunship::pair_set::EntityPairSet;
use gunship::volume::{BoundVolume, Entity, AABB};

fn sphere_volume(id: u32, x: i32, y: i32, z: i32, radius: u32) -> BoundVolume {
    let r = radius as i32;
    BoundVolume {
        entity: Entity(id),
        aabb: AABB { min: Point::new(x - r, y - r, z - r), max: Point::new(x + r, y + r, z + r) },
        collider: CachedCollider::Sphere(Sphere { center: Point::new(x, y, z), radius }),
    }
}

fn box_volume(id: u32, x: i32, y: i32, z: i32, half: u32) -> BoundVolume {
    let h = half as i32;
    BoundVolume {
        entity: Entity(id),
        aabb: AABB { min: Point::new(x - h, y - h, z - h), max: Point::new(x + h, y + h, z + h) },
        collider: CachedCollider::Box(OBB {
            center: Point::new(x, y, z),
            orientation: Orientation::identity(),
            half_widths: Extents { x: half, y: half, z: half },
        }),
    }
}

fn everywhere() -> AABB {
    AABB { min: Point::new(i32::MIN, i32::MIN, i32::MIN), max: Point::new(i32::MAX, i32::MAX, i32::MAX) }
}

#[test]
fn two_overlapping_spheres_give_one_pair() {
    let volumes = vec![sphere_volume(1, 0, 0, 0, 1000), sphere_volume(2, 1500, 0, 0, 1000)];
    let mut system = GridCollisionSystem::new();
    system.update(&volumes);
    let pairs = system.collisions().pairs().clone();
    assert_eq!(pairs.len(), 1);
    let (a, b) = pairs[0];
    assert!((a, b) == (Entity(1), Entity(2)) || (a, b) == (Entity(2), Entity(1)));
}

#[test]
fn two_overlapping_spheres_every_unit_count() {
    for n in [1usize, 2, 4, 8] {
        let volumes = vec![sphere_volume(1, 0, 0, 0, 1000), sphere_volume(2, 1500, 0, 0, 1000)];
        let mut system = GridCollisionSystem::with_work_units(n).unwrap();
        assert_eq!(system.num_work_units(), n);
        system.update(&volumes);
        assert_eq!(system.collisions().pairs(), &vec![(Entity(2), Entity(1))]);
    }
}

#[test]
fn scattered_volumes_give_no_pairs() {
    let mut volumes = Vec::new();
    let mut id = 0u32;
    for i in -3i32..3 {
        for j in -3i32..3 {
            for k in -2i32..2 {
                volumes.push(sphere_volume(id, i * 3000 + 100, j * 3000 - 50, k * 3000 + 7, 1000));
                id += 1;
            }
        }
    }
    let mut system = GridCollisionSystem::new();
    system.update(&volumes);
    assert!(system.collisions().is_empty());
    // A second tick on the same snapshot finds nothing either.
    system.update(&volumes);
    assert!(system.collisions().is_empty());
}

#[test]
fn empty_snapshot_gives_no_pairs() {
    let mut system = GridCollisionSystem::new();
    system.update(&Vec::new());
    assert!(system.collisions().is_empty());
}

#[test]
fn collisions_are_rebuilt_each_tick() {
    let mut system = GridCollisionSystem::new();
    let first = vec![sphere_volume(1, 0, 0, 0, 1000), sphere_volume(2, 1500, 0, 0, 1000)];
    system.update(&first);
    assert!(!system.collisions().is_empty());
    let second = vec![sphere_volume(1, 0, 0, 0, 1000), sphere_volume(2, 5000, 0, 0, 1000)];
    system.update(&second);
    assert!(system.collisions().is_empty());
}

#[test]
fn chain_of_spheres_gives_neighbouring_pairs() {
    let volumes = vec![
        sphere_volume(10, -3000, 500, 500, 1000),
        sphere_volume(11, -1500, 500, 500, 1000),
        sphere_volume(12, 0, 500, 500, 1000),
        sphere_volume(13, 1500, 500, 500, 1000),
    ];
    let mut system = GridCollisionSystem::new();
    system.update(&volumes);
    let set = system.collisions();
    assert!(set.contains(Entity(11), Entity(10)));
    assert!(set.contains(Entity(12), Entity(11)));
    assert!(set.contains(Entity(13), Entity(12)));
    assert!(!set.contains(Entity(12), Entity(10)));
    assert!(!set.contains(Entity(13), Entity(11)));
    assert!(!set.contains(Entity(13), Entity(10)));
    assert_eq!(set.pairs().len(), 3);
}

#[test]
fn boxes_are_tested_exactly() {
    let volumes = vec![box_volume(1, 0, 0, 0, 1000), box_volume(2, 1999, 0, 0, 1000), box_volume(3, -2001, 0, 0, 1000)];
    let mut system = GridCollisionSystem::new();
    system.update(&volumes);
    assert_eq!(system.collisions().pairs(), &vec![(Entity(2), Entity(1))]);
}

#[test]
fn sphere_meeting_box_is_not_supported() {
    let volumes = vec![sphere_volume(1, 0, 0, 0, 1000), box_volume(2, 1500, 0, 0, 1000)];
    let mut system = GridCollisionSystem::new();
    assert!(!system.supports_tick(&volumes));
    let far = vec![sphere_volume(1, 0, 0, 0, 1000), box_volume(2, 50000, 0, 0, 1000)];
    assert!(system.supports_tick(&far));
    system.update(&far);
    assert!(system.collisions().is_empty());
}

#[test]
fn candidate_already_a_hit_is_skipped_untested() {
    let mut worker = Worker::new();
    let first = vec![sphere_volume(1, 0, 0, 0, 1000), sphere_volume(2, 1500, 0, 0, 1000)];
    let mut system = GridCollisionSystem::with_work_units(1).unwrap();
    let mut unit = system.begin_update(&first).unwrap().pop().unwrap();
    assert_eq!(unit.cell_size(), 2000);
    worker.broadphase(&mut unit, &first);
    assert_eq!(worker.untestable_candidate(&unit, &first), None);
    worker.narrowphase(&mut unit, &first);
    assert_eq!(unit.hits().pairs(), &vec![(Entity(2), Entity(1))]);
    // Entity 2 now also has a box next to entity 1's sphere: that candidate's
    // pair is already a hit, so it is skipped rather than tested.
    let mut second = first.clone();
    second.push(box_volume(2, -1500, 0, 0, 1000));
    worker.broadphase(&mut unit, &second);
    assert_eq!(worker.untestable_candidate(&unit, &second), None);
    worker.narrowphase(&mut unit, &second);
    assert_eq!(unit.hits().pairs(), &vec![(Entity(2), Entity(1))]);
    // A box of a third entity there would have to be tested.
    let mut third = first.clone();
    third.push(box_volume(3, -1500, 0, 0, 1000));
    worker.broadphase(&mut unit, &third);
    assert_eq!(worker.untestable_candidate(&unit, &third), Some((Entity(3), Entity(1))));
}

#[test]
fn mesh_far_from_everything_is_never_tested() {
    let mut volumes = vec![sphere_volume(1, 0, 0, 0, 1000), sphere_volume(2, 1500, 0, 0, 1000)];
    volumes.push(BoundVolume {
        entity: Entity(3),
        aabb: AABB { min: Point::new(90000, 90000, 90000), max: Point::new(91000, 91000, 91000) },
        collider: CachedCollider::Mesh,
    });
    let mut system = GridCollisionSystem::new();
    system.update(&volumes);
    assert_eq!(system.collisions().pairs(), &vec![(Entity(2), Entity(1))]);
}

#[test]
fn starting_a_tick_with_units_out_fails() {
    let volumes = vec![sphere_volume(1, 0, 0, 0, 1000), sphere_volume(2, 1500, 0, 0, 1000)];
    let mut system = GridCollisionSystem::new();
    assert!(system.all_units_returned());
    let units = system.begin_update(&volumes).unwrap();
    assert_eq!(units.len(), NUM_WORK_UNITS);
    assert!(!system.all_units_returned());
    assert_eq!(system.held_work_units(), 0);
    assert_eq!(
        system.begin_update(&volumes).err(),
        Some(CollisionError::WorkUnitsOutstanding { expected: 8, found: 0 })
    );
    let mut units = units;
    let last = units.pop().unwrap();
    for unit in units {
        assert!(system.expects(&unit));
        system.receive(unit);
    }
    assert!(!system.all_units_returned());
    assert_eq!(
        system.begin_update(&volumes).err(),
        Some(CollisionError::WorkUnitsOutstanding { expected: 8, found: 7 })
    );
    assert!(system.expects(&last));
    system.receive(last);
    assert!(system.all_units_returned());
    system.update(&volumes);
    assert_eq!(system.collisions().pairs(), &vec![(Entity(2), Entity(1))]);
}

#[test]
fn foreign_units_are_not_expected() {
    let volumes = vec![sphere_volume(1, 0, 0, 0, 1000)];
    let mut system = GridCollisionSystem::new();
    let units = system.begin_update(&volumes).unwrap();
    let stranger = WorkUnit::new(everywhere());
    assert!(!system.expects(&stranger));
    let mut indices: Vec<usize> = units.iter().map(|u| u.index()).collect();
    indices.sort();
    assert_eq!(indices, (0..8).collect::<Vec<usize>>());
    for unit in units {
        assert_eq!(unit.bounds(), octant(8, unit.index()));
        system.receive(unit);
    }
    let again = system.begin_update(&volumes).unwrap();
    let first = &again[0];
    assert!(system.expects(first));
    let mut again = again;
    let first = again.remove(0);
    system.receive(first);
}

#[test]
fn units_processed_out_of_order_merge_the_same() {
    let volumes = vec![sphere_volume(1, 0, 0, 0, 1000), sphere_volume(2, 1500, 0, 0, 1000), sphere_volume(3, -1500, 0, 0, 1000)];
    let mut system = GridCollisionSystem::new();
    let mut units = system.begin_update(&volumes).unwrap();
    assert!(system.collisions().is_empty());
    let mut worker = Worker::new();
    while let Some(mut unit) = units.pop() {
        assert_eq!(unit.cell_size(), 2000);
        worker.process(&mut unit, &volumes);
        system.receive(unit);
    }
    let set = system.collisions();
    assert!(set.contains(Entity(2), Entity(1)));
    assert!(set.contains(Entity(3), Entity(1)));
    assert_eq!(set.pairs().len(), 2);
    system.update(&volumes);
    assert_eq!(system.collisions().pairs().len(), 2);
}

#[test]
fn unsupported_unit_count_is_refused() {
    assert!(GridCollisionSystem::with_work_units(0).is_none());
    assert!(GridCollisionSystem::with_work_units(3).is_none());
    assert!(GridCollisionSystem::with_work_units(16).is_none());
    assert!(GridCollisionSystem::with_work_units(4).is_some());
}

#[test]
fn octant_bounds_tile_around_origin() {
    let lo = i32::MIN;
    let hi = i32::MAX;
    assert_eq!(octant(1, 0), AABB { min: Point::new(lo, lo, lo), max: Point::new(hi, hi, hi) });
    assert_eq!(octant(2, 0), AABB { min: Point::new(lo, lo, lo), max: Point::new(0, hi, hi) });
    assert_eq!(octant(2, 1), AABB { min: Point::new(0, lo, lo), max: Point::new(hi, hi, hi) });
    assert_eq!(octant(4, 1), AABB { min: Point::new(lo, 0, lo), max: Point::new(0, hi, hi) });
    assert_eq!(octant(4, 2), AABB { min: Point::new(0, lo, lo), max: Point::new(hi, 0, hi) });
    assert_eq!(octant(8, 0), AABB { min: Point::new(lo, lo, lo), max: Point::new(0, 0, 0) });
    assert_eq!(octant(8, 1), AABB { min: Point::new(lo, lo, 0), max: Point::new(0, 0, hi) });
    assert_eq!(octant(8, 6), AABB { min: Point::new(0, 0, lo), max: Point::new(hi, hi, 0) });
    assert_eq!(octant(8, 7), AABB { min: Point::new(0, 0, 0), max: Point::new(hi, hi, hi) });
}

#[test]
fn cell_size_is_longest_side() {
    let volumes = vec![sphere_volume(1, 0, 0, 0, 10), box_volume(2, 5, 5, 5, 300)];
    assert_eq!(compute_cell_size(&volumes), 600);
    let flat = vec![BoundVolume {
        entity: Entity(1),
        aabb: AABB { min: Point::new(0, 0, 0), max: Point::new(3, 70, 0) },
        collider: CachedCollider::Mesh,
    }];
    assert_eq!(compute_cell_size(&flat), 70);
    assert_eq!(compute_cell_size(&Vec::new()), 1);
    let point = vec![sphere_volume(1, 4, 4, 4, 0)];
    assert_eq!(compute_cell_size(&point), 1);
    let huge = vec![BoundVolume {
        entity: Entity(1),
        aabb: AABB { min: Point::new(i32::MIN, 0, 0), max: Point::new(i32::MAX, 0, 0) },
        collider: CachedCollider::Mesh,
    }];
    assert_eq!(compute_cell_size(&huge), u32::MAX);
}

#[test]
fn world_to_grid_rounds_down() {
    let volumes = vec![box_volume(1, 0, 0, 0, 5)];
    let mut system = GridCollisionSystem::new();
    let units: Vec<WorkUnit> = system.begin_update(&volumes).unwrap();
    let unit = &units[0];
    assert_eq!(unit.cell_size(), 10);
    assert_eq!(unit.world_to_grid(Point::new(0, 9, 10)), GridCell::new(0, 0, 1));
    assert_eq!(unit.world_to_grid(Point::new(-1, -10, -11)), GridCell::new(-1, -1, -2));
    assert_eq!(unit.world_to_grid(Point::new(i32::MIN, i32::MAX, 25)), GridCell::new(-214748365, 214748364, 2));
    let fresh = WorkUnit::new(AABB { min: Point::new(0, 0, 0), max: Point::new(1, 1, 1) });
    assert_eq!(fresh.cell_size(), 1);
    assert_eq!(fresh.world_to_grid(Point::new(-7, 7, 0)), GridCell::new(-7, 7, 0));
}

#[test]
fn pair_set_keeps_each_pair_once() {
    let mut set = EntityPairSet::new();
    assert!(set.is_empty());
    assert!(set.insert(Entity(1), Entity(2)));
    assert!(!set.insert(Entity(1), Entity(2)));
    assert!(set.insert(Entity(2), Entity(1)));
    assert!(set.insert(Entity(u32::MAX), Entity(0)));
    assert!(set.contains(Entity(1), Entity(2)));
    assert!(!set.contains(Entity(0), Entity(u32::MAX)));
    assert_eq!(set.pairs(), &vec![(Entity(1), Entity(2)), (Entity(2), Entity(1)), (Entity(u32::MAX), Entity(0))]);
    let mut other = EntityPairSet::new();
    other.insert(Entity(2), Entity(1));
    other.insert(Entity(5), Entity(6));
    set.insert_all(&other);
    assert_eq!(set.pairs().len(), 4);
    assert!(set.contains(Entity(5), Entity(6)));
    set.clear();
    assert!(set.is_empty());
}

#[test]
fn aabb_touching_counts_as_overlap() {
    let a = AABB { min: Point::new(0, 0, 0), max: Point::new(10, 10, 10) };
    let b = AABB { min: Point::new(10, 10, 10), max: Point::new(20, 20, 20) };
    let c = AABB { min: Point::new(11, 0, 0), max: Point::new(20, 10, 10) };
    assert!(a.test_aabb(&b));
    assert!(b.test_aabb(&a));
    assert!(!a.test_aabb(&c));
    assert!(a.test_aabb(&everywhere()));
}

struct Lcg(u64);

impl Lcg {
    fn next(&mut self) -> u64 {
        self.0 = self.0.wrapping_mul(6364136223846793005).wrapping_add(1442695040888963407);
        self.0 >> 33
    }

    fn range(&mut self, lo: i64, hi: i64) -> i64 {
        lo + (self.next() % ((hi - lo) as u64)) as i64
    }
}

#[test]
fn tick_matches_all_pairs_check() {
    let mut rng = Lcg(12345);
    let mut volumes = Vec::new();
    for id in 0..150u32 {
        let x = rng.range(-20000, 20000) as i32;
        let y = rng.range(-20000, 20000) as i32;
        let z = rng.range(-5000, 5000) as i32;
        let r = rng.range(50, 2500) as u32;
        volumes.push(sphere_volume(id, x, y, z, r));
    }
    let mut expected = Vec::new();
    for i in 0..volumes.len() {
        for j in 0..i {
            if volumes[i].test(&volumes[j]) {
                expected.push((volumes[i].entity, volumes[j].entity));
            }
        }
    }
    assert!(!expected.is_empty());
    for n in [1usize, 2, 4, 8] {
        let mut system = GridCollisionSystem::with_work_units(n).unwrap();
        system.update(&volumes);
        let found = system.collisions();
        assert_eq!(found.pairs().len(), expected.len());
        for &(a, b) in &expected {
            assert!(found.contains(a, b));
        }
    }
}
