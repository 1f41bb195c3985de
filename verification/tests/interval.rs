use raytracer::interval::Interval;

#[test]
fn size() {
    let ivl: Interval = Interval::new(0, 1000);
    assert_eq!(ivl.size(), 1000);
}

#[test]
fn contains() {
    let ivl: Interval = Interval::new(0, 1000);
    assert_eq!(ivl.contains(-1000), false);
    assert_eq!(ivl.contains(0), true);
    assert_eq!(ivl.contains(500), true);
    assert_eq!(ivl.contains(1000), true);
    assert_eq!(ivl.contains(2000), false);
}

#[test]
fn surrounds() {
    let ivl: Interval = Interval::new(0, 1000);
    assert_eq!(ivl.surrounds(-1000), false);
    assert_eq!(ivl.surrounds(0), false);
    assert_eq!(ivl.surrounds(500), true);
    assert_eq!(ivl.surrounds(1000), false);
    assert_eq!(ivl.surrounds(2000), false);
}

#[test]
fn clamp() {
    let ivl: Interval = Interval::new(0, 1000);
    assert_eq!(ivl.clamp(-1000), 0);
    assert_eq!(ivl.clamp(0), 0);
    assert_eq!(ivl.clamp(500), 500);
    assert_eq!(ivl.clamp(1000), 1000);
    assert_eq!(ivl.clamp(2000), 1000);
}

#[test]
fn expand() {
    let orig_min: i64 = 0;
    let orig_max: i64 = 1000;
    let mut ivl: Interval = Interval::new(orig_min, orig_max);

    let mut delta: i64 = 0;
    ivl.expand(delta);
    assert_eq!(ivl.min, orig_min);
    assert_eq!(ivl.max, orig_max);

    delta = 1000;
    ivl.expand(delta);
    assert_eq!(ivl.min, orig_min - delta / 2);
    assert_eq!(ivl.max, orig_max + delta / 2);
}

#[test]
fn from_interval_union() {
    let a: Interval = Interval::new(0, 10);
    let b: Interval = Interval::new(-5, 3);
    let u: Interval = Interval::from_interval(&a, &b);
    assert_eq!(u.min, -5);
    assert_eq!(u.max, 10);
}
