use raytracer::ray::Ray;
use raytracer::vec3::Vec3;

#[test]
fn origin_direction_time() {
    let orig: Vec3 = Vec3::new(3, 2, 1);
    let dir: Vec3 = Vec3::new(1, 2, 3);
    let ray1: Ray = Ray::new(&orig, &dir);

    assert_eq!(ray1.origin(), &orig);
    assert_eq!(ray1.direction(), &dir);
    assert_eq!(ray1.time(), 0);

    let tm: i64 = 500;
    let ray2: Ray = Ray::with_time(&orig, &dir, tm);
    assert_eq!(ray2.origin(), &orig);
    assert_eq!(ray2.direction(), &dir);
    assert_eq!(ray2.time(), tm);
}

#[test]
fn at() {
    let orig: Vec3 = Vec3::new(3, 2, 1);
    let dir: Vec3 = Vec3::new(1, 2, 3);
    let ray: Ray = Ray::new(&orig, &dir);

    assert_eq!(ray.at(0), Vec3::new(3, 2, 1));
    assert_eq!(ray.at(1), Vec3::new(4, 4, 4));
    assert_eq!(ray.at(2), Vec3::new(5, 6, 7));
}
