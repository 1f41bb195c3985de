use raytracer::aabb::AABB;
use raytracer::rat::{Rat, TInterval};
use raytracer::ray::Ray;
use raytracer::vec3::Vec3;

fn full_range() -> TInterval {
    TInterval::new(Rat::from_int(-30000), Rat::from_int(30000))
}

#[test]
fn from_point_contains_inputs() {
    let a: Vec3 = Vec3::new(5, -3, 7);
    let b: Vec3 = Vec3::new(-1, 4, 2);
    let bb: AABB = AABB::from_point(&a, &b);
    assert!(bb.x.min <= a.x && a.x <= bb.x.max);
    assert!(bb.y.min <= a.y && a.y <= bb.y.max);
    assert!(bb.z.min <= a.z && a.z <= bb.z.max);
    assert!(bb.x.min <= b.x && b.x <= bb.x.max);
    assert!(bb.y.min <= b.y && b.y <= bb.y.max);
    assert!(bb.z.min <= b.z && b.z <= bb.z.max);
}

#[test]
fn no_axis_is_degenerate() {
    // two points sharing a coordinate would give a zero-thickness slab
    // without the padding
    let a: Vec3 = Vec3::new(0, 0, 0);
    let b: Vec3 = Vec3::new(0, 10, 10);
    let bb: AABB = AABB::from_point(&a, &b);
    assert!(bb.x.max - bb.x.min >= 1);
    assert!(bb.y.max - bb.y.min >= 1);
    assert!(bb.z.max - bb.z.min >= 1);
}

#[test]
fn slab_test_hit_and_miss() {
    let bb: AABB = AABB::from_point(&Vec3::new(-5, -5, -10), &Vec3::new(5, 5, -20));
    // a ray straight through the middle of the box
    let through: Ray = Ray::new(&Vec3::new(0, 0, 0), &Vec3::new(0, 0, -1));
    assert!(bb.hit(&through, &full_range()));
    // a ray pointing away from the box: the line still crosses it, so the
    // full two-sided parameter range reports a crossing
    let away: Ray = Ray::new(&Vec3::new(0, 0, 0), &Vec3::new(0, 0, 1));
    assert!(bb.hit(&away, &full_range()));
    // but the forward half-line alone misses it
    let forward: TInterval = TInterval::new(Rat::from_int(0), Rat::from_int(30000));
    assert!(!bb.hit(&away, &forward));
    assert!(bb.hit(&through, &forward));
    // a ray passing beside the box
    let beside: Ray = Ray::new(&Vec3::new(100, 0, 0), &Vec3::new(0, 0, -1));
    assert!(!bb.hit(&beside, &full_range()));
}

#[test]
fn slab_test_parallel_ray() {
    let bb: AABB = AABB::from_point(&Vec3::new(-5, -5, -5), &Vec3::new(5, 5, 5));
    // parallel to the x slab, inside it
    let inside: Ray = Ray::new(&Vec3::new(0, 0, -100), &Vec3::new(0, 0, 1));
    assert!(bb.hit(&inside, &full_range()));
    // parallel to the x slab, outside it: never narrows into the box
    let outside: Ray = Ray::new(&Vec3::new(50, 0, -100), &Vec3::new(0, 0, 1));
    assert!(!bb.hit(&outside, &full_range()));
}

#[test]
fn slab_test_respects_range() {
    let bb: AABB = AABB::from_point(&Vec3::new(-5, -5, -10), &Vec3::new(5, 5, -20));
    let ray: Ray = Ray::new(&Vec3::new(0, 0, 0), &Vec3::new(0, 0, -1));
    // the box spans parameters 10 to 20 along this ray
    let before: TInterval = TInterval::new(Rat::from_int(0), Rat::from_int(5));
    assert!(!bb.hit(&ray, &before));
    let inside: TInterval = TInterval::new(Rat::from_int(12), Rat::from_int(15));
    assert!(bb.hit(&ray, &inside));
    let after: TInterval = TInterval::new(Rat::from_int(25), Rat::from_int(30));
    assert!(!bb.hit(&ray, &after));
}

#[test]
fn union_encloses_both() {
    let b1: AABB = AABB::from_point(&Vec3::new(0, 0, 0), &Vec3::new(2, 2, 2));
    let b2: AABB = AABB::from_point(&Vec3::new(10, -4, 1), &Vec3::new(12, -2, 3));
    let u: AABB = AABB::from_bounding_box(&b1, &b2);
    assert!(u.x.min <= b1.x.min && b1.x.max <= u.x.max);
    assert!(u.x.min <= b2.x.min && b2.x.max <= u.x.max);
    assert!(u.y.min <= b2.y.min && b2.y.max <= u.y.max);
    assert!(u.z.min <= b1.z.min && b1.z.max <= u.z.max);
}
