use gunship::geometry::{Axis, CachedCollider, Extents, OBB, Orientation, Point, Sphere, AXIS_UNIT};

fn sphere(x: i32, y: i32, z: i32, radius: u32) -> Sphere {
    Sphere { center: Point::new(x, y, z), radius }
}

fn aligned_box(x: i32, y: i32, z: i32, hx: u32, hy: u32, hz: u32) -> OBB {
    OBB {
        center: Point::new(x, y, z),
        orientation: Orientation::identity(),
        half_widths: Extents { x: hx, y: hy, z: hz },
    }
}

// Rotation about z by the angle whose cosine and sine are c / AXIS_UNIT and s / AXIS_UNIT.
fn rotated_z(c: i16, s: i16) -> Orientation {
    Orientation {
        x_axis: Axis { x: c, y: s, z: 0 },
        y_axis: Axis { x: -s, y: c, z: 0 },
        z_axis: Axis { x: 0, y: 0, z: AXIS_UNIT as i16 },
    }
}

// Rotation about x by the angle whose cosine and sine are c / AXIS_UNIT and s / AXIS_UNIT.
fn rotated_x(c: i16, s: i16) -> Orientation {
    Orientation {
        x_axis: Axis { x: AXIS_UNIT as i16, y: 0, z: 0 },
        y_axis: Axis { x: 0, y: c, z: s },
        z_axis: Axis { x: 0, y: -s, z: c },
    }
}

#[test]
fn spheres_closer_than_radii_intersect() {
    let e1 = sphere(0, 0, 0, 1000);
    let e2 = sphere(1500, 0, 0, 1000);
    assert!(e1.test_sphere(&e2));
    assert!(CachedCollider::Sphere(e1).test(&CachedCollider::Sphere(e2)));
}

#[test]
fn touching_spheres_do_not_intersect() {
    let a = sphere(0, 0, 0, 1000);
    let b = sphere(2000, 0, 0, 1000);
    assert!(!a.test_sphere(&b));
    let c = sphere(1200, 1600, 0, 1000);
    assert!(!a.test_sphere(&c));
    let d = sphere(1200, 1599, 0, 1000);
    assert!(a.test_sphere(&d));
}

#[test]
fn distant_spheres_do_not_intersect() {
    let a = sphere(-5, 7, 11, 3);
    let b = sphere(100, -200, 300, 50);
    assert!(!a.test_sphere(&b));
    assert!(!b.test_sphere(&a));
}

#[test]
fn extreme_sphere_coordinates_do_not_overflow() {
    let a = sphere(i32::MIN, i32::MIN, i32::MIN, u32::MAX);
    let b = sphere(i32::MAX, i32::MAX, i32::MAX, u32::MAX);
    assert!(a.test_sphere(&b));
    let c = sphere(i32::MIN, i32::MIN, i32::MIN, 0);
    let d = sphere(i32::MAX, i32::MAX, i32::MAX, 0);
    assert!(!c.test_sphere(&d));
}

#[test]
fn apart_aligned_boxes_do_not_intersect() {
    let a = aligned_box(0, 0, 0, 1000, 1000, 1000);
    let b = aligned_box(2001, 0, 0, 1000, 1000, 1000);
    assert!(!a.test_obb(&b));
    let c = aligned_box(0, -3000, 0, 1000, 1999, 1000);
    assert!(!a.test_obb(&c));
    let d = aligned_box(0, 0, 5000, 10, 10, 10);
    assert!(!a.test_obb(&d));
}

#[test]
fn overlapping_aligned_boxes_intersect() {
    let a = aligned_box(0, 0, 0, 1000, 1000, 1000);
    let b = aligned_box(1999, 0, 0, 1000, 1000, 1000);
    assert!(a.test_obb(&b));
}

#[test]
fn identical_boxes_intersect() {
    let a = aligned_box(40, -70, 9, 5, 6, 7);
    assert!(a.test_obb(&a));
    let r = OBB { center: Point::new(1, 2, 3), orientation: rotated_z(11585, 11585), half_widths: Extents { x: 1, y: 2, z: 3 } };
    assert!(r.test_obb(&r));
}

#[test]
fn rotated_box_beyond_reach_does_not_intersect() {
    // The boxes' axis-aligned bounds overlap, but B, turned by 45 degrees,
    // keeps a face between them.
    let a = aligned_box(0, 0, 0, 1000, 1000, 1000);
    let b = OBB {
        center: Point::new(2300, 2300, 0),
        orientation: rotated_z(11585, 11585),
        half_widths: Extents { x: 1000, y: 1000, z: 1000 },
    };
    assert!(!a.test_obb(&b));
    assert!(!b.test_obb(&a));
}

#[test]
fn rotated_box_within_reach_intersects() {
    let a = aligned_box(0, 0, 0, 1000, 1000, 1000);
    let b = OBB {
        center: Point::new(1500, 1500, 0),
        orientation: rotated_z(11585, 11585),
        half_widths: Extents { x: 1000, y: 1000, z: 1000 },
    };
    assert!(a.test_obb(&b));
    assert!(b.test_obb(&a));
}

#[test]
fn box_test_is_symmetric() {
    let orientations = [
        Orientation::identity(),
        rotated_z(11585, 11585),
        rotated_z(14189, 8192),
        rotated_x(8192, 14189),
        rotated_x(-11585, 11585),
    ];
    let centers = [(0, 0, 0), (1500, 300, -200), (2500, 2500, 0), (-900, 1800, 1700), (3000, 0, 0)];
    let sizes = [(1000, 1000, 1000), (200, 1500, 700), (1, 3000, 5), (800, 800, 2000), (1200, 100, 100)];
    for (i, o1) in orientations.iter().enumerate() {
        for (j, o2) in orientations.iter().enumerate() {
            let (cx, cy, cz) = centers[(i + 2 * j) % 5];
            let (ax, ay, az) = sizes[i];
            let (bx, by, bz) = sizes[j];
            let a = OBB { center: Point::new(0, 0, 0), orientation: *o1, half_widths: Extents { x: ax, y: ay, z: az } };
            let b = OBB { center: Point::new(cx, cy, cz), orientation: *o2, half_widths: Extents { x: bx, y: by, z: bz } };
            assert_eq!(a.test_obb(&b), b.test_obb(&a));
            let ca = CachedCollider::Box(a);
            let cb = CachedCollider::Box(b);
            assert_eq!(ca.test(&cb), cb.test(&ca));
        }
    }
}

#[test]
fn repeated_tests_agree() {
    let a = CachedCollider::Sphere(sphere(0, 0, 0, 1000));
    let b = CachedCollider::Sphere(sphere(1500, 0, 0, 1000));
    let first = a.test(&b);
    let second = a.test(&b);
    assert_eq!(first, second);
    assert_eq!(a, CachedCollider::Sphere(sphere(0, 0, 0, 1000)));
    let x = CachedCollider::Box(aligned_box(0, 0, 0, 10, 10, 10));
    let y = CachedCollider::Box(aligned_box(25, 0, 0, 10, 10, 10));
    assert_eq!(x.test(&y), x.test(&y));
    assert!(!x.test(&y));
}

#[test]
fn supported_shape_pairs() {
    let s = CachedCollider::Sphere(sphere(0, 0, 0, 1));
    let b = CachedCollider::Box(aligned_box(0, 0, 0, 1, 1, 1));
    assert!(s.supports(&s));
    assert!(b.supports(&b));
    assert!(!s.supports(&b));
    assert!(!b.supports(&s));
    assert!(!CachedCollider::Mesh.supports(&CachedCollider::Mesh));
    assert!(!s.supports(&CachedCollider::Mesh));
}

struct Lcg(u64);

impl Lcg {
    fn unit(&mut self) -> f64 {
        self.0 = self.0.wrapping_mul(6364136223846793005).wrapping_add(1442695040888963407);
        (self.0 >> 11) as f64 / (1u64 << 53) as f64
    }
}

fn random_orientation(rng: &mut Lcg) -> Orientation {
    let (mut x, mut y, mut z, mut w) = (rng.unit() - 0.5, rng.unit() - 0.5, rng.unit() - 0.5, rng.unit() - 0.5);
    let len = (x * x + y * y + z * z + w * w).sqrt();
    x /= len;
    y /= len;
    z /= len;
    w /= len;
    let axis = |ax: f64, ay: f64, az: f64| Axis {
        x: (ax * AXIS_UNIT as f64).round() as i16,
        y: (ay * AXIS_UNIT as f64).round() as i16,
        z: (az * AXIS_UNIT as f64).round() as i16,
    };
    Orientation {
        x_axis: axis(1.0 - 2.0 * (y * y + z * z), 2.0 * (x * y + w * z), 2.0 * (x * z - w * y)),
        y_axis: axis(2.0 * (x * y - w * z), 1.0 - 2.0 * (x * x + z * z), 2.0 * (y * z + w * x)),
        z_axis: axis(2.0 * (x * z + w * y), 2.0 * (y * z - w * x), 1.0 - 2.0 * (x * x + y * y)),
    }
}

#[test]
fn box_test_is_symmetric_for_random_boxes() {
    let mut rng = Lcg(987654321);
    let mut hits = 0;
    for _ in 0..500 {
        let mut random_box = |rng: &mut Lcg| OBB {
            center: Point::new(
                (rng.unit() * 6000.0 - 3000.0) as i32,
                (rng.unit() * 6000.0 - 3000.0) as i32,
                (rng.unit() * 6000.0 - 3000.0) as i32,
            ),
            orientation: random_orientation(rng),
            half_widths: Extents {
                x: (rng.unit() * 2000.0) as u32,
                y: (rng.unit() * 2000.0) as u32,
                z: (rng.unit() * 2000.0) as u32,
            },
        };
        let a = random_box(&mut rng);
        let b = random_box(&mut rng);
        let ab = a.test_obb(&b);
        assert_eq!(ab, b.test_obb(&a));
        if ab {
            hits += 1;
        }
    }
    assert!(hits > 0 && hits < 500);
}

#[test]
fn huge_aligned_boxes_one_unit_apart_do_not_intersect() {
    let a = aligned_box(0, 0, 0, 4_000_000_000, 10, 4_000_000_000);
    let b = aligned_box(0, 21, 0, 4_000_000_000, 10, 4_000_000_000);
    assert!(!a.test_obb(&b));
    assert!(!b.test_obb(&a));
    let c = aligned_box(0, 20, 0, 4_000_000_000, 10, 4_000_000_000);
    assert!(a.test_obb(&c));
}

#[test]
fn touching_aligned_boxes_intersect() {
    let a = aligned_box(0, 0, 0, 100, 200, 300);
    for (x, y, z) in [(150, 0, 0), (0, 250, 0), (0, 0, 350), (150, 250, 350), (-150, -250, -350)] {
        let b = aligned_box(x, y, z, 50, 50, 50);
        assert!(a.test_obb(&b));
        assert!(b.test_obb(&a));
    }
    let apart = aligned_box(151, 250, 350, 50, 50, 50);
    assert!(!a.test_obb(&apart));
}
