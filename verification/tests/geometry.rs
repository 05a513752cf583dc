use raygeom::plane::Plane;
use raygeom::point::Point;
use raygeom::rat::Rat;
use raygeom::ray::Ray;
use raygeom::vec3::Vector3;

fn rat(n: i64, d: i64) -> Rat {
    Rat::new(n, d)
}

fn whole(n: i64) -> Rat {
    Rat::from_int(n)
}

fn pt(x: Rat, y: Rat, z: Rat) -> Point {
    Point::new(x, y, z)
}

fn vec3(x: Rat, y: Rat, z: Rat) -> Vector3 {
    Vector3::new(x, y, z)
}

fn approx(r: &Rat, x: f64) -> bool {
    (r.num as f64 / r.den as f64 - x).abs() < 1e-5
}

#[test]
fn test_intersection_point() {
    let location = pt(whole(1), whole(1), whole(2));
    let l = Ray::new(location, vec3(whole(1), whole(2), whole(-1)));
    let p = Plane::from_points(
        &location,
        &pt(rat(1, 2), whole(-2), rat(7, 5)),
        &pt(whole(-1), whole(-6), whole(0)),
    )
    .unwrap();

    assert_eq!(l.intersection_point_with_plane(&p).unwrap(), location);
}

#[test]
fn test_intersection_point_ouch() {
    let location = pt(whole(1), whole(1), whole(2));
    let l = Ray::new(location, vec3(whole(1), whole(2), whole(-1)));
    let p = Plane::from_points(
        &pt(rat(3, 2), rat(-11, 5), rat(13, 10)),
        &pt(rat(1, 2), whole(-2), rat(7, 5)),
        &pt(whole(-1), whole(-6), whole(0)),
    )
    .unwrap();

    let result = l.intersection_point_with_plane(&p).unwrap();
    // The exact intersection point.
    assert_eq!(result, pt(rat(527, 728), rat(163, 364), rat(1657, 728)));
    // It rounds to the classical floating-point answer.
    assert!(approx(&result.x, 0.72390115));
    assert!(approx(&result.y, 0.44780225));
    assert!(approx(&result.z, 2.276099));
}

#[test]
fn test_intersection_point_parralel() {
    let direction = vec3(whole(1), whole(1), whole(2));
    let l = Ray::new(pt(whole(1), whole(2), whole(-1)), direction);

    let crossp = direction
        .cross_product(&vec3(whole(0), whole(0), whole(1)))
        .unwrap();
    let p = Plane::from_normal_and_point(crossp, &pt(whole(5), whole(5), whole(5))).unwrap();

    assert!(l.intersection_point_with_plane(&p).is_none());
}

#[test]
fn test_point_on_constructed_plane() {
    // The anchor point of a plane lies on it, exactly.
    let n = vec3(whole(3), rat(-7, 2), rat(1, 5));
    let anchor = pt(rat(2, 3), whole(4), rat(-5, 7));
    let p = Plane::from_normal_and_point(n, &anchor).unwrap();
    assert_eq!(p.point_is_on_plane(&anchor), Some(true));
    // A point off the plane is rejected.
    let off = pt(rat(2, 3), whole(4), whole(100));
    assert_eq!(p.point_is_on_plane(&off), Some(false));
}

#[test]
fn test_get_point_on_plane() {
    // normal (0, 0, 2), a = 3: the plane z == 3/2.
    let p = Plane::new(vec3(whole(0), whole(0), whole(2)), whole(3));
    let q = p.get_point_on_plane().unwrap();
    assert_eq!(q, pt(whole(0), whole(0), rat(3, 2)));
    assert_eq!(p.point_is_on_plane(&q), Some(true));
    // A plane parallel to the z-axis has no such point.
    let vertical = Plane::new(vec3(whole(1), whole(0), whole(0)), whole(1));
    assert!(vertical.get_point_on_plane().is_none());
}

#[test]
fn test_ray_form_points_and_evaluation() {
    let r = Ray::form_points(pt(whole(1), whole(0), whole(0)), pt(whole(3), whole(4), whole(0))).unwrap();
    // Raw parameter: location + s * direction.
    let half = r.get_point_for_s(&rat(1, 2)).unwrap();
    assert_eq!(half, pt(whole(2), whole(2), whole(0)));
    // Unit parameter: a true Euclidean distance; |direction| == sqrt(20) is
    // irrational, so the unit-parameter form reports that exactly.
    assert!(r.get_point_for_s_unitv(&whole(1)).is_none());

    let axis = Ray::new(pt(whole(0), whole(0), whole(0)), vec3(whole(3), whole(4), whole(0)));
    let five = axis.get_point_for_s_unitv(&whole(5)).unwrap();
    assert_eq!(five, pt(whole(3), whole(4), whole(0)));
}

#[test]
fn test_minimum_distance_skew_rays() {
    let a = Ray::new(pt(whole(0), whole(0), whole(0)), vec3(whole(1), whole(0), whole(0)));
    let b = Ray::new(pt(whole(0), whole(0), whole(1)), vec3(whole(0), whole(1), whole(0)));
    let d = a.minimum_distance_to_other_sq(&b).unwrap();
    assert_eq!(d, whole(1));
    assert_eq!(a.minimum_distance_to_other(&b).unwrap(), whole(1));
    // Parallel rays have a degenerate cross product: no result.
    let c = Ray::new(pt(whole(0), whole(5), whole(0)), vec3(whole(2), whole(0), whole(0)));
    assert!(a.minimum_distance_to_other_sq(&c).is_none());
}

#[test]
fn test_distance() {
    let a = pt(whole(1), whole(2), whole(2));
    let o = pt(whole(0), whole(0), whole(0));
    assert_eq!(o.distance_sq(&a).unwrap(), whole(9));
    assert_eq!(o.distance(&a).unwrap(), whole(3));
    // sqrt(2) is irrational: the exact kernel reports it.
    assert!(o.distance(&pt(whole(1), whole(1), whole(0))).is_none());
}

#[test]
fn test_distance_to_plane_sq() {
    // Plane z == 1 with a non-unit normal (0, 0, 2), a = 2.
    let p = Plane::new(vec3(whole(0), whole(0), whole(2)), whole(2));
    let q = pt(whole(7), whole(-3), whole(4));
    assert_eq!(q.distance_to_plane_sq(&p).unwrap(), whole(9));
    assert_eq!(q.distance_to_plane(&p).unwrap(), whole(3));
    // The division renormalizes any non-unit normal consistently.
    let scaled = Plane::new(vec3(whole(0), whole(0), whole(6)), whole(6));
    assert_eq!(q.distance_to_plane_sq(&scaled).unwrap(), whole(9));
    // A zero normal is degenerate.
    let broken = Plane::new(vec3(whole(0), whole(0), whole(0)), whole(1));
    assert!(q.distance_to_plane_sq(&broken).is_none());
}
