use raygeom::point::Point;
use raygeom::rat::Rat;
use raygeom::ray::Ray;
use raygeom::sphere::Sphere;

fn whole(n: i64) -> Rat {
    Rat::from_int(n)
}

fn rat(n: i64, d: i64) -> Rat {
    Rat::new(n, d)
}

fn pt(x: i64, y: i64, z: i64) -> Point {
    Point::new(whole(x), whole(y), whole(z))
}

fn dir(x: i64, y: i64, z: i64) -> raygeom::vec3::Vector3 {
    raygeom::vec3::Vector3::new(whole(x), whole(y), whole(z))
}

fn approx(r: &Rat, x: f64) -> bool {
    (r.num as f64 / r.den as f64 - x).abs() < 1e-5
}

#[test]
fn test_get_first_intersect1() {
    let center = pt(2, 0, 0);
    let sphere = Sphere::new(center, whole(1));

    let line = Ray::new(pt(0, 0, 0), dir(3, 0, 0));

    let intersect = sphere.get_first_intersect_point(&line).unwrap();
    assert_eq!(intersect, pt(1, 0, 0));
}

#[test]
fn test_get_first_intersect2() {
    let center = pt(-2, 0, 0);
    let sphere = Sphere::new(center, whole(1));

    let line = Ray::new(pt(0, 0, 0), dir(3, 0, 0));

    let intersect = sphere.get_first_intersect_point(&line).unwrap();
    assert_eq!(intersect, pt(-1, 0, 0));
}

#[test]
fn test_get_first_intersect3() {
    let center = pt(2, 0, 0);
    let sphere = Sphere::new(center, whole(1));

    let line = Ray::new(pt(0, 1, 0), dir(2, 0, 0));

    let intersect = sphere.get_first_intersect_point(&line).unwrap();
    assert_eq!(intersect, pt(2, 1, 0));
}

#[test]
fn test_get_first_intersect4() {
    let center = pt(2, 0, 0);
    let sphere = Sphere::new(center, whole(1));

    let line = Ray::new(pt(0, 0, 0), dir(2, 1, 0));

    let intersect = sphere.get_first_intersect_point(&line).unwrap();
    // Exactly (6/5, 3/5, 0) ...
    assert_eq!(
        intersect,
        Point::new(rat(6, 5), rat(3, 5), whole(0))
    );
    // ... which rounds to the classical floating-point answer.
    assert!(approx(&intersect.x, 1.2000002));
    assert!(approx(&intersect.y, 0.6000001));
    assert!(approx(&intersect.z, 0.0));
}

#[test]
fn test_get_first_intersect_miss() {
    // The supporting line misses the sphere: negative discriminant.
    let sphere = Sphere::new(pt(2, 0, 0), whole(1));
    let line = Ray::new(pt(0, 5, 0), dir(1, 0, 0));
    assert!(sphere.get_first_intersect_point(&line).is_none());
}

#[test]
fn test_does_intersect() {
    let sphere = Sphere::new(pt(2, 0, 0), whole(1));
    let hit = Ray::new(pt(0, 0, 0), dir(3, 0, 0));
    assert_eq!(sphere.does_intersect(hit), Some(true));
    // Tangent counts as intersecting: the comparison is not strict.
    let tangent = Ray::new(pt(0, 1, 0), dir(2, 0, 0));
    assert_eq!(sphere.does_intersect(tangent), Some(true));
    let miss = Ray::new(pt(0, 5, 0), dir(1, 0, 0));
    assert_eq!(sphere.does_intersect(miss), Some(false));
    // A zero direction is degenerate: never an intersection.
    let stuck = Ray::new(pt(2, 0, 0), dir(0, 0, 0));
    assert_eq!(sphere.does_intersect(stuck), Some(false));
}

#[test]
fn test_get_first_intersect_irrational_root() {
    // Discriminant 2 over an integer parameterization: the hit point is
    // irrational, and the exact kernel reports it instead of rounding.
    let sphere = Sphere::new(pt(0, 0, 0), whole(2));
    let line = Ray::new(pt(0, 0, 0), dir(1, 1, 0));
    assert!(sphere.get_first_intersect_point(&line).is_none());
}
