use raygeom::point::Point;
use raygeom::quat::Quat;
use raygeom::rat::Rat;
use raygeom::vec3::Vector3;

fn whole(n: i64) -> Rat {
    Rat::from_int(n)
}

fn rat(n: i64, d: i64) -> Rat {
    Rat::new(n, d)
}

fn pt(x: i64, y: i64, z: i64) -> Point {
    Point::new(whole(x), whole(y), whole(z))
}

fn vec3(x: i64, y: i64, z: i64) -> Vector3 {
    Vector3::new(whole(x), whole(y), whole(z))
}

/// A quarter turn about `axis`: the quaternion `cos 45 + sin 45 * axis` is
/// proportional to `1 + axis`, and `rotate` is invariant under scaling, so
/// the rational quaternion `1 + axis` encodes exactly a 90-degree rotation.
fn quarter_turn(axis: Vector3) -> Quat {
    Quat::new(whole(1), axis)
}

#[test]
fn test_rotation_around_y() {
    let q = quarter_turn(vec3(0, 1, 0));
    let p = pt(1, 0, 0);
    let rotated = q.rotate(p).unwrap();

    assert_eq!(rotated, pt(0, 0, -1));
}

#[test]
fn test_rotation_around_x() {
    let q = quarter_turn(vec3(1, 0, 0));
    let p = pt(0, 1, 0);
    let rotated = q.rotate(p).unwrap();

    assert_eq!(rotated, pt(0, 0, 1));
}

#[test]
fn test_rotation_around_x_5() {
    let q = quarter_turn(vec3(1, 0, 0));
    let p = pt(0, 5, 0);
    let rotated = q.rotate(p).unwrap();

    assert_eq!(rotated, pt(0, 0, 5));
}

#[test]
fn test_rotation_preserves_magnitude() {
    // Rotating (0, 5, 0) a quarter turn about x gives (0, 0, 5): the same
    // squared length before and after.
    let q = quarter_turn(vec3(1, 0, 0));
    let p = pt(0, 5, 0);
    let rotated = q.rotate(p).unwrap();
    let before = p.local_vector().length_sq().unwrap();
    let after = rotated.local_vector().length_sq().unwrap();
    assert_eq!(before, after);
    assert_eq!(before, whole(25));
}

#[test]
fn test_rotate_zero_quaternion() {
    let q = Quat::new(whole(0), vec3(0, 0, 0));
    assert!(q.rotate(pt(1, 2, 3)).is_none());
}

#[test]
fn test_hamilton_product() {
    // i * j == k, and the product is not commutative: j * i == -k.
    let i = Quat::new(whole(0), vec3(1, 0, 0));
    let j = Quat::new(whole(0), vec3(0, 1, 0));
    let ij = i.mul(&j).unwrap();
    assert_eq!(ij.a, whole(0));
    assert_eq!(ij.cplx, vec3(0, 0, 1));
    let ji = j.mul(&i).unwrap();
    assert_eq!(ji.cplx, vec3(0, 0, -1));
}

#[test]
fn test_conjugate_and_inverse_are_distinct() {
    let q = Quat::new(whole(2), Vector3::new(whole(1), whole(2), whole(4)));
    let c = q.conjugate();
    assert_eq!(c.a, whole(2));
    assert_eq!(c.cplx, Vector3::new(whole(-1), whole(-2), whole(-4)));
    // The componentwise reciprocal, not conj / norm^2.
    let inv = q.inverse().unwrap();
    assert_eq!(inv.a, rat(1, 2));
    assert_eq!(inv.cplx, Vector3::new(whole(1), rat(1, 2), rat(1, 4)));
    // A zero component makes the reciprocal degenerate.
    assert!(Quat::new(whole(1), vec3(0, 1, 1)).inverse().is_none());
}

#[test]
fn test_quat_add_sub() {
    let p = Quat::new(rat(1, 2), vec3(1, 0, 2));
    let q = Quat::new(rat(1, 3), vec3(0, 2, -1));
    let s = p.add(&q).unwrap();
    assert_eq!(s.a, rat(5, 6));
    assert_eq!(s.cplx, vec3(1, 2, 1));
    let d = s.sub(&q).unwrap();
    assert_eq!(d.a, p.a);
    assert_eq!(d.cplx, p.cplx);
    let mut acc = p;
    assert!(acc.add_assign(&q));
    assert_eq!(acc.a, rat(5, 6));
}

#[test]
fn test_make_unitquarternion() {
    // Norm of (3, (4, 0, 0)) is 5: the normalized quaternion is exact.
    let mut q = Quat::new(whole(3), vec3(4, 0, 0));
    assert!(q.make_unitquarternion());
    assert_eq!(q.a, rat(3, 5));
    assert_eq!(q.cplx, Vector3::new(rat(4, 5), whole(0), whole(0)));
    // Normalizing an already-unit quaternion leaves it unchanged.
    let before = q;
    assert!(q.make_unitquarternion());
    assert_eq!(q.a, before.a);
    assert_eq!(q.cplx, before.cplx);
    // An irrational norm is reported, and the value is left unchanged.
    let mut odd = Quat::new(whole(1), vec3(1, 0, 0));
    assert!(!odd.make_unitquarternion());
    assert_eq!(odd.a, whole(1));
}
