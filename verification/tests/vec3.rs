use raytracer::vec3::{Axis, Vec3};

#[test]
fn component() {
    let v: Vec3 = Vec3::new(3, 2, 1);
    assert_eq!(v.component(Axis::X), v.x);
    assert_eq!(v.component(Axis::Y), v.y);
    assert_eq!(v.component(Axis::Z), v.z);
}

#[test]
fn near_zero() {
    let v1: Vec3 = Vec3::new(3, 2, 1);
    assert_eq!(v1.near_zero(), false);

    let v2: Vec3 = Vec3::new(0, 0, 0);
    assert_eq!(v2.near_zero(), true);

    let v3: Vec3 = Vec3::new(0, 1, 0);
    assert_eq!(v3.near_zero(), false);
}

#[test]
fn reflect() {
    let v1: Vec3 = Vec3::new(3, 2, 1);
    let v2: Vec3 = Vec3::new(1, 1, 1);
    assert_eq!(Vec3::reflect(&v1, &v2), Vec3::new(-9, -10, -11));
}

#[test]
fn dot() {
    let v1: Vec3 = Vec3::new(2, 3, 5);
    let v2: Vec3 = Vec3::new(7, 11, 13);
    assert_eq!(Vec3::dot(&v1, &v2), 2 * 7 + 3 * 11 + 5 * 13);
}

#[test]
fn cross() {
    let v1: Vec3 = Vec3::new(1, 0, 0);
    let v2: Vec3 = Vec3::new(0, 1, 0);
    assert_eq!(Vec3::cross(&v1, &v2), Vec3::new(0, 0, 1));
}

#[test]
fn neg() {
    let v: Vec3 = Vec3::new(0, 1, 2);
    assert_eq!(v.neg(), Vec3::new(0, -1, -2));
}

#[test]
fn add() {
    let v1: Vec3 = Vec3::new(0, 1, 2);
    let v2: Vec3 = Vec3::new(3, 4, 5);
    assert_eq!(v1.add(&v2), Vec3::new(3, 5, 7));
}

#[test]
fn sub() {
    let v1: Vec3 = Vec3::new(0, 1, 2);
    let v2: Vec3 = Vec3::new(3, 4, 5);
    assert_eq!(v1.sub(&v2), Vec3::new(-3, -3, -3));
}

#[test]
fn mul() {
    let v1: Vec3 = Vec3::new(0, 1, 2);
    assert_eq!(v1.mul(2), Vec3::new(0, 2, 4));
}

#[test]
fn length_squared() {
    let v: Vec3 = Vec3::new(3, 2, 1);
    assert_eq!(v.length_squared(), 3 * 3 + 2 * 2 + 1 * 1);
}

#[test]
fn axis_order() {
    let axes = Axis::iterator();
    assert_eq!(axes.len(), 3);
    assert!(matches!(axes[0], Axis::X));
    assert!(matches!(axes[1], Axis::Y));
    assert!(matches!(axes[2], Axis::Z));
}

#[test]
fn metal_mirror_round_trip() {
    // a zero-fuzz metallic bounce straight into a plane normal: the normal
    // component flips exactly, the tangential components are kept exactly
    let incoming: Vec3 = Vec3::new(1, 2, -3);
    let normal: Vec3 = Vec3::new(0, 0, 1);
    let reflected: Vec3 = Vec3::reflect(&incoming, &normal);
    assert_eq!(reflected, Vec3::new(1, 2, 3));
    // reflecting the mirror image gives the incoming direction back
    assert_eq!(Vec3::reflect(&reflected, &normal), incoming);
}
