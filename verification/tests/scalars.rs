use raygeom::rat::Rat;
use raygeom::vec3::Vector3;

fn whole(n: i64) -> Rat {
    Rat::from_int(n)
}

fn rat(n: i64, d: i64) -> Rat {
    Rat::new(n, d)
}

#[test]
fn test_rat_arithmetic() {
    let a = rat(1, 2);
    let b = rat(1, 3);
    assert_eq!(a.add(&b).unwrap(), rat(5, 6));
    assert_eq!(a.sub(&b).unwrap(), rat(1, 6));
    assert_eq!(a.mul(&b).unwrap(), rat(1, 6));
    assert_eq!(a.div(&b).unwrap(), rat(3, 2));
    assert_eq!(a.neg(), rat(-1, 2));
    // Equality is of rational values, not representations.
    assert_eq!(rat(2, 4), rat(1, 2));
    assert_ne!(rat(2, 4), rat(1, 3));
    // Results come out reduced.
    let s = rat(1, 4).add(&rat(1, 4)).unwrap();
    assert_eq!(s.num, 1);
    assert_eq!(s.den, 2);
}

#[test]
fn test_rat_degenerate_and_overflow() {
    // Division by zero is reported, not evaluated.
    assert!(whole(1).div(&whole(0)).is_none());
    assert!(whole(0).recip().is_none());
    // A sum that leaves the representable range is reported.
    let big = whole(0x7fff_ffff_ffff_ffff);
    assert!(big.add(&big).is_none());
    assert!(big.mul(&big).is_none());
    // One that reduces back into range is fine.
    assert_eq!(big.div(&big).unwrap(), whole(1));
}

#[test]
fn test_rat_sqrt() {
    assert_eq!(rat(4, 9).sqrt().unwrap(), rat(2, 3));
    assert_eq!(whole(0).sqrt().unwrap(), whole(0));
    assert_eq!(whole(144).sqrt().unwrap(), whole(12));
    // Irrational and negative inputs have no rational square root.
    assert!(whole(2).sqrt().is_none());
    assert!(whole(-4).sqrt().is_none());
    assert!(rat(1, 2).sqrt().is_none());
}

#[test]
fn test_rat_order() {
    assert!(rat(1, 3).le(&rat(1, 2)));
    assert!(rat(1, 2).le(&rat(1, 2)));
    assert!(!rat(1, 2).le(&rat(1, 3)));
    assert!(rat(-1, 2).abs_lt(&rat(2, 3)));
    assert!(!rat(-3, 2).abs_lt(&whole(1)));
}

#[test]
fn test_vector_algebra() {
    let u = Vector3::new(whole(1), whole(2), whole(3));
    let v = Vector3::new(whole(4), whole(-5), whole(6));
    // The dot product is symmetric.
    assert_eq!(u.dot_product(&v).unwrap(), whole(12));
    assert_eq!(v.dot_product(&u).unwrap(), whole(12));
    // The cross product is antisymmetric.
    let uv = u.cross_product(&v).unwrap();
    let vu = v.cross_product(&u).unwrap();
    assert_eq!(uv, Vector3::new(whole(27), whole(6), whole(-13)));
    assert_eq!(vu.negate(), uv);
    // The cross product is orthogonal to both factors.
    assert_eq!(uv.dot_product(&u).unwrap(), whole(0));
    assert_eq!(uv.dot_product(&v).unwrap(), whole(0));
}

#[test]
fn test_vector_add_sub_stretch() {
    let u = Vector3::new(whole(1), whole(2), whole(3));
    let v = Vector3::new(rat(1, 2), whole(0), whole(-3));
    let s = u.add(&v).unwrap();
    assert_eq!(s, Vector3::new(rat(3, 2), whole(2), whole(0)));
    assert_eq!(s.sub(&v).unwrap(), u);
    assert_eq!(
        u.stretched(&whole(-2)).unwrap(),
        Vector3::new(whole(-2), whole(-4), whole(-6))
    );
    let mut w = u;
    assert!(w.stretch(&rat(1, 2)));
    assert_eq!(w, Vector3::new(rat(1, 2), whole(1), rat(3, 2)));
    let half = w;
    assert!(w.add_assign(&half));
    assert_eq!(w, u);
    assert!(w.sub_assign(&u));
    assert_eq!(w, Vector3::new(whole(0), whole(0), whole(0)));
}

#[test]
fn test_unitvector() {
    // |(3, 4, 0)| == 5: the unit vector is exact, and unit-length.
    let v = Vector3::new(whole(3), whole(4), whole(0));
    assert_eq!(v.length_sq().unwrap(), whole(25));
    assert_eq!(v.length().unwrap(), whole(5));
    let u = v.get_unitvector().unwrap();
    assert_eq!(u, Vector3::new(rat(3, 5), rat(4, 5), whole(0)));
    assert_eq!(u.length().unwrap(), whole(1));
    // Normalizing an already-unit vector leaves it unchanged.
    assert_eq!(u.get_unitvector().unwrap(), u);
    let mut w = v;
    assert!(w.make_unitvector());
    assert_eq!(w, u);
    // Irrational length or the zero vector: no unit vector.
    assert!(Vector3::new(whole(1), whole(1), whole(0)).get_unitvector().is_none());
    assert!(Vector3::new(whole(0), whole(0), whole(0)).get_unitvector().is_none());
}

#[test]
fn test_vector_inverse() {
    let v = Vector3::new(whole(2), rat(1, 4), whole(-5));
    let inv = v.inverse().unwrap();
    assert_eq!(inv, Vector3::new(rat(1, 2), whole(4), rat(-1, 5)));
    assert!(Vector3::new(whole(1), whole(0), whole(1)).inverse().is_none());
}
