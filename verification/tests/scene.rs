use raytracer::bvh_node::BVHNode;
use raytracer::hittable::{HitRecord, Hittable};
use raytracer::hittable_list::HittableList;
use raytracer::plane::{Quad, Tri};
use raytracer::rat::{Rat, TInterval};
use raytracer::ray::Ray;
use raytracer::sphere::Sphere;
use raytracer::vec3::Vec3;

fn forward_range() -> TInterval {
    TInterval::new(Rat::from_int(0), Rat::from_int(30000))
}

fn unit_quad_at_z(z: i64, mat: usize) -> Hittable {
    Hittable::Quad(Quad::new(
        &Vec3::new(-1, -1, z),
        &Vec3::new(2, 0, 0),
        &Vec3::new(0, 2, 0),
        mat,
    ))
}

fn rat_eq(a: &Rat, b: &Rat) -> bool {
    a.num * b.den == b.num * a.den
}

#[test]
fn quad_hit_center() {
    let quad = unit_quad_at_z(-5, 7);
    let ray: Ray = Ray::new(&Vec3::new(0, 0, 0), &Vec3::new(0, 0, -1));
    let rec: HitRecord = quad.hit(&ray, &forward_range()).unwrap();
    // the crossing parameter is exactly 5
    assert!(rat_eq(&rec.t, &Rat::from_int(5)));
    // the hit lands at the middle of the quad: both coordinates are 1/2
    assert!(rat_eq(&rec.uv.u, &Rat { num: 1, den: 2 }));
    assert!(rat_eq(&rec.uv.v, &Rat { num: 1, den: 2 }));
    assert!(rec.front_face);
    assert_eq!(rec.mat, 7);
}

#[test]
fn quad_miss_outside_footprint() {
    let quad = unit_quad_at_z(-5, 0);
    // crosses the quad's plane but outside the unit cell
    let ray: Ray = Ray::new(&Vec3::new(10, 10, 0), &Vec3::new(0, 0, -1));
    assert!(quad.hit(&ray, &forward_range()).is_none());
}

#[test]
fn quad_miss_parallel() {
    let quad = unit_quad_at_z(-5, 0);
    let ray: Ray = Ray::new(&Vec3::new(0, 0, 0), &Vec3::new(1, 0, 0));
    assert!(quad.hit(&ray, &forward_range()).is_none());
}

#[test]
fn tri_interior_is_half_cell() {
    let tri = Hittable::Tri(Tri::new(
        &Vec3::new(0, 0, -5),
        &Vec3::new(4, 0, 0),
        &Vec3::new(0, 4, 0),
        1,
    ));
    // near the corner: inside the triangle
    let inside: Ray = Ray::new(&Vec3::new(1, 1, 0), &Vec3::new(0, 0, -1));
    assert!(tri.hit(&inside, &forward_range()).is_some());
    // near the far corner of the cell: outside the triangle
    let outside: Ray = Ray::new(&Vec3::new(3, 3, 0), &Vec3::new(0, 0, -1));
    assert!(tri.hit(&outside, &forward_range()).is_none());
}

#[test]
fn list_returns_nearest() {
    let mut scene: HittableList = HittableList::new();
    scene.add(unit_quad_at_z(-5, 0));
    scene.add(unit_quad_at_z(-3, 1));
    scene.add(unit_quad_at_z(-9, 2));
    let ray: Ray = Ray::new(&Vec3::new(0, 0, 0), &Vec3::new(0, 0, -1));
    let rec: HitRecord = scene.hit(&ray, &forward_range()).unwrap();
    assert!(rat_eq(&rec.t, &Rat::from_int(3)));
    assert_eq!(rec.mat, 1);
}

#[test]
fn box_of_six_sides() {
    let sides: HittableList = Quad::new_box(&Vec3::new(0, 0, 0), &Vec3::new(3, 4, 5), 2);
    assert_eq!(sides.objects.len(), 6);
    // a ray flying in along +z meets the nearer z face of the box first
    let ray: Ray = Ray::new(&Vec3::new(1, 1, -10), &Vec3::new(0, 0, 1));
    let rec: HitRecord = sides.hit(&ray, &forward_range()).unwrap();
    assert!(rat_eq(&rec.t, &Rat::from_int(10)));
    assert_eq!(rec.mat, 2);
}

#[test]
fn bvh_matches_scan_no_hit() {
    let mut scene: HittableList = HittableList::new();
    scene.add(unit_quad_at_z(-5, 0));
    scene.add(unit_quad_at_z(-3, 1));
    let bvh: BVHNode = BVHNode::from_hittable_list(&scene);
    let ray: Ray = Ray::new(&Vec3::new(100, 100, 0), &Vec3::new(0, 0, -1));
    assert!(scene.hit(&ray, &forward_range()).is_none());
    assert!(bvh.hit(&scene.objects, &ray, &forward_range()).is_none());
}

#[test]
fn bvh_matches_scan_single_hit() {
    let mut scene: HittableList = HittableList::new();
    scene.add(unit_quad_at_z(-5, 0));
    scene.add(unit_quad_at_z(-3, 1));
    scene.add(unit_quad_at_z(-9, 2));
    scene.add(unit_quad_at_z(-12, 3));
    scene.add(unit_quad_at_z(-2, 4));
    let bvh: BVHNode = BVHNode::from_hittable_list(&scene);
    let ray: Ray = Ray::new(&Vec3::new(0, 0, 0), &Vec3::new(0, 0, -1));
    let from_scan: HitRecord = scene.hit(&ray, &forward_range()).unwrap();
    let from_tree: HitRecord = bvh.hit(&scene.objects, &ray, &forward_range()).unwrap();
    assert_eq!(from_scan, from_tree);
    assert!(rat_eq(&from_tree.t, &Rat::from_int(2)));
    assert_eq!(from_tree.mat, 4);
}

#[test]
fn bvh_matches_scan_tie_on_split_axis() {
    // two identical overlapping quads: the nearest parameter ties exactly
    let mut scene: HittableList = HittableList::new();
    scene.add(unit_quad_at_z(-5, 6));
    scene.add(unit_quad_at_z(-5, 6));
    scene.add(unit_quad_at_z(-8, 1));
    let bvh: BVHNode = BVHNode::from_hittable_list(&scene);
    let ray: Ray = Ray::new(&Vec3::new(0, 0, 0), &Vec3::new(0, 0, -1));
    let from_scan: HitRecord = scene.hit(&ray, &forward_range()).unwrap();
    let from_tree: HitRecord = bvh.hit(&scene.objects, &ray, &forward_range()).unwrap();
    assert!(rat_eq(&from_scan.t, &from_tree.t));
    assert!(rat_eq(&from_tree.t, &Rat::from_int(5)));
    assert_eq!(from_scan.mat, from_tree.mat);
    assert_eq!(from_scan.point, from_tree.point);
}

#[test]
fn bvh_prunes_but_still_finds_offset_hits() {
    // spread the quads out so the tree actually partitions them
    let mut scene: HittableList = HittableList::new();
    for k in 0..8i64 {
        let corner = Vec3::new(4 * k - 16, -1, -5 - k);
        scene.add(Hittable::Quad(Quad::new(
            &corner,
            &Vec3::new(2, 0, 0),
            &Vec3::new(0, 2, 0),
            k as usize,
        )));
    }
    let bvh: BVHNode = BVHNode::from_hittable_list(&scene);
    for k in 0..8i64 {
        let x = 4 * k - 15;
        let ray: Ray = Ray::new(&Vec3::new(x, 0, 0), &Vec3::new(0, 0, -1));
        let from_scan = scene.hit(&ray, &forward_range());
        let from_tree = bvh.hit(&scene.objects, &ray, &forward_range());
        assert_eq!(from_scan, from_tree);
        assert_eq!(from_tree.unwrap().mat, k as usize);
    }
}

#[test]
fn box_contains_its_defining_corners() {
    let a = Vec3::new(5, -3, 7);
    let b = Vec3::new(-1, 4, 2);
    let sides: HittableList = Quad::new_box(&a, &b, 0);
    let bb = sides.bounding_box();
    assert!(bb.x.min <= a.x && a.x <= bb.x.max);
    assert!(bb.y.min <= a.y && a.y <= bb.y.max);
    assert!(bb.z.min <= a.z && a.z <= bb.z.max);
    assert!(bb.x.min <= b.x && b.x <= bb.x.max);
    assert!(bb.y.min <= b.y && b.y <= bb.y.max);
    assert!(bb.z.min <= b.z && b.z <= bb.z.max);
}

#[test]
fn sphere_box_and_discriminant() {
    let sphere = Sphere::new_stationary(&Vec3::new(0, 0, -5), 2, 9);
    assert!(sphere.bounding_box.x.min <= -2 && 2 <= sphere.bounding_box.x.max);
    assert!(sphere.bounding_box.z.min <= -7 && -3 <= sphere.bounding_box.z.max);
    // a ray aimed at the center meets the sphere; a sideways one cannot
    let toward: Ray = Ray::new(&Vec3::new(0, 0, 0), &Vec3::new(0, 0, -1));
    assert!(sphere.hit_possible(&toward));
    let sideways: Ray = Ray::new(&Vec3::new(0, 0, 0), &Vec3::new(1, 0, 0));
    assert!(!sphere.hit_possible(&sideways));
    // the motion of a moving sphere widens its box to both ends
    let moving = Sphere::new_moving(&Vec3::new(0, 0, 0), &Vec3::new(10, 0, 0), 1, 9);
    assert!(moving.bounding_box.x.min <= -1 && 11 <= moving.bounding_box.x.max);
}
