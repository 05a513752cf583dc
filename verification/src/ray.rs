//! Rays: an origin and a direction, with exact ray/plane intersection and
//! the squared skew-ray distance.

use vstd::prelude::*;
use crate::rat::{lemma_div_congr, lemma_nonzero_mul, lemma_pos_mul, lemma_req_trans, lemma_sub_congr, m_div, m_sub, o_sqrt, ov, r_add, r_div, r_eq, r_mul, r_sub, r_zero, Rat, Ratio};
use crate::vec3::{lemma_dot_congr, lemma_vadd_congr, lemma_vcross_dpos, lemma_vdot_dpos, lemma_veq_trans, lemma_vscale_congr, lemma_vscale_dpos, lemma_vsub_dpos, v_add, v_cross, v_dot, v_dpos, v_eq, v_scale, v_sub, vm_add, vm_cross, vm_dot, vm_scale, vm_sub, Vec3r, Vector3};
use crate::point::{dist_plane_sq, opt, pm_dist_plane_sq, Point};
use crate::plane::{pm_from_normal_and_point, Plane, Planr};

verus! {

/// Mathematical model of a ray: origin and direction as position vectors.
pub ghost struct Rayr {
    pub location: Vec3r,
    pub direction: Vec3r,
}

/// The ray's direction lies in the plane's tangent space; the intersection is
/// then undefined (the ray is parallel to the plane or embedded in it).
pub open spec fn parallel_to_plane(ray: Rayr, pl: Planr) -> bool {
    r_eq(v_dot(pl.normal, ray.direction), r_zero())
}

/// The point of the ray at raw parameter `s`: `location + s * direction`.
pub open spec fn ray_point_at(ray: Rayr, s: Ratio) -> Vec3r {
    v_add(ray.location, v_scale(ray.direction, s))
}

/// The unique ray/plane intersection point, for a non-parallel ray: the point
/// at `s = (a - n . location) / (n . direction)`.
pub open spec fn ray_plane_point(ray: Rayr, pl: Planr) -> Vec3r {
    ray_point_at(
        ray,
        r_div(
            r_sub(pl.a, v_dot(pl.normal, ray.location)),
            v_dot(pl.normal, ray.direction),
        ),
    )
}

/// Exact outcome of evaluating the ray at `s`.
pub open spec fn rm_point_at(ray: Rayr, s: Ratio) -> Option<Vec3r> {
    match vm_scale(ray.direction, s) {
        Some(sd) => vm_add(ray.location, sd),
        None => None,
    }
}

/// Exact outcome of evaluating the ray at Euclidean distance `s`: the
/// direction's rational length, the scaled parameter, and the point.
pub open spec fn rm_point_unitv(ray: Rayr, s: Ratio) -> Option<Vec3r> {
    match o_sqrt(vm_dot(ray.direction, ray.direction)) {
        Some(l) => match m_div(s, l) {
            Some(sl) => rm_point_at(ray, sl),
            None => None,
        },
        None => None,
    }
}

/// Exact outcome of the squared skew-ray distance: the cross-product normal,
/// the plane through the first ray's origin, and the squared point-to-plane
/// distance of the second origin.
pub open spec fn rm_min_dist_sq(ray: Rayr, other: Rayr) -> Option<Ratio> {
    match vm_cross(ray.direction, other.direction) {
        Some(n) => match pm_from_normal_and_point(n, ray.location) {
            Some(pl) => pm_dist_plane_sq(other.location, pl),
            None => None,
        },
        None => None,
    }
}

/// Exact outcome of the ray/plane intersection, step by step.
pub open spec fn rm_intersection(ray: Rayr, pl: Planr) -> Option<Vec3r> {
    match vm_dot(pl.normal, ray.direction) {
        Some(nd) => if nd.n == 0 {
            None
        } else {
            match vm_dot(pl.normal, ray.location) {
                Some(nl) => match m_sub(pl.a, nl) {
                    Some(num) => match m_div(num, nd) {
                        Some(s) => rm_point_at(ray, s),
                        None => None,
                    },
                    None => None,
                },
                None => None,
            }
        },
        None => None,
    }
}

/// A ray with exact rational origin and direction. The direction need not be
/// a unit vector; the raw parameter of `get_point_for_s` scales with it.
#[derive(Clone, Copy, Debug)]
pub struct Ray {
    pub location: Point,
    pub direction: Vector3,
}

impl View for Ray {
    type V = Rayr;

    open spec fn view(&self) -> Rayr {
        Rayr { location: self.location@, direction: self.direction@ }
    }
}

impl Ray {
    pub open spec fn wf(self) -> bool {
        &&& self.location.wf()
        &&& self.direction.wf()
    }

    pub fn new(location: Point, direction: Vector3) -> (r: Ray)
        requires
            location.wf(),
            direction.wf(),
        ensures
            r.wf(),
            r@ == (Rayr { location: location@, direction: direction@ }),
    {
        Ray { location, direction }
    }

    /// The ray from `p` through `s`: direction `s - p`.
    pub fn form_points(p: Point, s: Point) -> (r: Option<Ray>)
        requires
            p.wf(),
            s.wf(),
        ensures
            r matches Some(ray) ==> ray.wf() && ray@.location == p@ && v_eq(
                ray@.direction,
                v_sub(s@, p@),
            ),
            r is Some <==> vm_sub(s@, p@) is Some,
    {
        let dir = match Vector3::ab_from_points(&p, &s) {
            Some(v) => v,
            None => return None,
        };
        Some(Ray { location: p, direction: dir })
    }

    /// The point `location + s * direction`, using the raw direction: the
    /// parameter's unit scales with the direction's length.
    pub fn get_point_for_s(&self, s: &Rat) -> (r: Option<Point>)
        requires
            self.wf(),
            s.wf(),
        ensures
            opt(r) == rm_point_at(self@, s@),
            r matches Some(pt) ==> pt.wf() && v_eq(pt@, ray_point_at(self@, s@)),
    {
        let sd = match self.direction.stretched(s) {
            Some(v) => v,
            None => return None,
        };
        let lv = self.location.local_vector();
        let pv = match lv.add(&sd) {
            Some(v) => v,
            None => return None,
        };
        proof {
            let msd = v_scale(self@.direction, s@);
            lemma_vadd_congr(self@.location, self@.location, sd@, msd);
            lemma_vsub_dpos(self@.location, sd@);
            lemma_veq_trans(pv@, v_add(self@.location, sd@), ray_point_at(self@, s@));
        }
        Some(Point { x: pv.x, y: pv.y, z: pv.z })
    }

    /// The point at Euclidean distance `s` along the ray: the parameter is
    /// applied to the unit direction, so it is evaluated as `location +
    /// (s / |direction|) * direction`. `None` when the direction's length is
    /// zero or not an exactly representable rational, or when an intermediate
    /// value has no representable reduced form.
    pub fn get_point_for_s_unitv(&self, s: &Rat) -> (r: Option<Point>)
        requires
            self.wf(),
            s.wf(),
        ensures
            opt(r) == rm_point_unitv(self@, s@),
            r matches Some(pt) ==> pt.wf() && (exists|l: Ratio|
                #![trigger r_mul(l, l)]
                l.d >= 1 && l.n > 0 && r_eq(
                    r_mul(l, l),
                    v_dot(self@.direction, self@.direction),
                ) && v_eq(pt@, ray_point_at(self@, r_div(s@, l)))),
    {
        let l = match self.direction.length() {
            Some(v) => v,
            None => return None,
        };
        let sl = match s.div(&l) {
            Some(v) => v,
            None => return None,
        };
        let r = self.get_point_for_s(&sl);
        proof {
            match r {
                Some(pt) => {
                    lemma_vscale_congr(self@.direction, self@.direction, sl@, r_div(s@, l@));
                    lemma_vadd_congr(
                        self@.location,
                        self@.location,
                        v_scale(self@.direction, sl@),
                        v_scale(self@.direction, r_div(s@, l@)),
                    );
                    lemma_vscale_dpos(self@.direction, sl@);
                    lemma_vsub_dpos(self@.location, v_scale(self@.direction, sl@));
                    lemma_veq_trans(
                        pt@,
                        ray_point_at(self@, sl@),
                        ray_point_at(self@, r_div(s@, l@)),
                    );
                },
                None => {},
            }
        }
        r
    }

    /// The exact intersection point of the ray's supporting line with a
    /// plane. `None` when the direction is orthogonal to the normal (the ray
    /// is parallel to the plane -- a ray embedded in the plane is reported no
    /// differently) or when an intermediate value has no representable
    /// reduced form.
    pub fn intersection_point_with_plane(&self, plane: &Plane) -> (r: Option<Point>)
        requires
            self.wf(),
            plane.wf(),
        ensures
            opt(r) == rm_intersection(self@, plane@),
            parallel_to_plane(self@, plane@) ==> r is None,
            r matches Some(pt) ==> pt.wf() && !parallel_to_plane(self@, plane@) && v_eq(
                pt@,
                ray_plane_point(self@, plane@),
            ),
    {
        let nd = match plane.normal.dot_product(&self.direction) {
            Some(v) => v,
            None => return None,
        };
        proof {
            lemma_vdot_dpos(plane@.normal, self@.direction);
        }
        if nd.is_zero() {
            proof {
                let mnd = v_dot(plane@.normal, self@.direction);
                lemma_req_trans(mnd, nd@, r_zero());
            }
            return None;
        }
        proof {
            let mnd = v_dot(plane@.normal, self@.direction);
            if r_eq(mnd, r_zero()) {
                lemma_req_trans(nd@, mnd, r_zero());
            }
        }
        let lv = self.location.local_vector();
        let nl = match plane.normal.dot_product(&lv) {
            Some(v) => v,
            None => return None,
        };
        let num = match plane.a.sub(&nl) {
            Some(v) => v,
            None => return None,
        };
        let s = match num.div(&nd) {
            Some(v) => v,
            None => return None,
        };
        let r = self.get_point_for_s(&s);
        proof {
            match r {
                Some(pt) => {
                    let n = plane@.normal;
                    let mnl = v_dot(n, self@.location);
                    let mnum = r_sub(plane@.a, mnl);
                    let mnd = v_dot(n, self@.direction);
                    let ms = r_div(mnum, mnd);
                    lemma_sub_congr(plane@.a, plane@.a, nl@, mnl);
                    lemma_pos_mul(plane@.a.d, nl@.d);
                    lemma_req_trans(num@, r_sub(plane@.a, nl@), mnum);
                    lemma_div_congr(num@, mnum, nd@, mnd);
                    lemma_nonzero_mul(num@.d, nd@.n);
                    lemma_req_trans(s@, r_div(num@, nd@), ms);
                    lemma_vscale_congr(self@.direction, self@.direction, s@, ms);
                    lemma_vadd_congr(
                        self@.location,
                        self@.location,
                        v_scale(self@.direction, s@),
                        v_scale(self@.direction, ms),
                    );
                    lemma_vscale_dpos(self@.direction, s@);
                    lemma_vsub_dpos(self@.location, v_scale(self@.direction, s@));
                    lemma_veq_trans(
                        pt@,
                        ray_point_at(self@, s@),
                        ray_plane_point(self@, plane@),
                    );
                },
                None => {},
            }
        }
        r
    }

    /// The squared minimum distance between the supporting lines of two
    /// (possibly skew) rays: the squared distance from `other.location` to
    /// the plane through `self.location` with normal
    /// `self.direction x other.direction`. `None` when the directions are
    /// parallel (zero cross product, the degenerate case) or an intermediate
    /// value has no representable reduced form.
    pub fn minimum_distance_to_other_sq(&self, other: &Ray) -> (r: Option<Rat>)
        requires
            self.wf(),
            other.wf(),
        ensures
            ov(r) == rm_min_dist_sq(self@, other@),
            r matches Some(v) ==> v.wf() && r_eq(
                v@,
                dist_plane_sq(other@.location, skew_plane(self@, other@)),
            ),
    {
        let n = match self.direction.cross_product(&other.direction) {
            Some(v) => v,
            None => return None,
        };
        let p = match Plane::from_normal_and_point(n, &self.location) {
            Some(v) => v,
            None => return None,
        };
        let r = other.location.distance_to_plane_sq(&p);
        proof {
            match r {
                Some(v) => {
                    let mn = v_cross(self@.direction, other@.direction);
                    let mpl = skew_plane(self@, other@);
                    lemma_vcross_dpos(self@.direction, other@.direction);
                    lemma_dot_congr(n@, mn, self@.location, self@.location);
                    lemma_vdot_dpos(n@, self@.location);
                    lemma_req_trans(
                        p@.a,
                        v_dot(n@, self@.location),
                        v_dot(mn, self@.location),
                    );
                    lemma_dist_plane_congr(other@.location, p@, mpl);
                    lemma_dpsq_dpos(other@.location, p@);
                    lemma_req_trans(
                        v@,
                        dist_plane_sq(other@.location, p@),
                        dist_plane_sq(other@.location, mpl),
                    );
                },
                None => {},
            }
        }
        r
    }
}

/// A non-parallel ray whose origin lies on the plane meets the plane exactly
/// at its origin: the intersection parameter vanishes, so the intersection
/// point equals the location.
pub proof fn lemma_intersection_at_origin(ray: Rayr, pl: Planr)
    requires
        crate::plane::on_plane(pl, ray.location),
        !parallel_to_plane(ray, pl),
        v_dpos(ray.location),
        v_dpos(ray.direction),
        v_dpos(pl.normal),
        pl.a.d >= 1,
    ensures
        v_eq(ray_plane_point(ray, pl), ray.location),
{
    let num = r_sub(pl.a, v_dot(pl.normal, ray.location));
    let s = r_div(num, v_dot(pl.normal, ray.direction));
    assert(num.n == 0);
    vstd::arithmetic::mul::lemma_mul_basics(v_dot(pl.normal, ray.direction).d);
    assert(s.n == 0);
    vstd::arithmetic::mul::lemma_mul_basics(ray.direction.x.n);
    vstd::arithmetic::mul::lemma_mul_basics(ray.direction.y.n);
    vstd::arithmetic::mul::lemma_mul_basics(ray.direction.z.n);
    lemma_add_zero_term(ray.location.x, r_mul(ray.direction.x, s));
    lemma_add_zero_term(ray.location.y, r_mul(ray.direction.y, s));
    lemma_add_zero_term(ray.location.z, r_mul(ray.direction.z, s));
}

/// Adding a fraction with zero numerator keeps the rational value.
proof fn lemma_add_zero_term(p: Ratio, t: Ratio)
    requires
        t.n == 0,
    ensures
        r_eq(r_add(p, t), p),
{
    assert((p.n * t.d + t.n * p.d) * p.d == p.n * (p.d * t.d)) by (nonlinear_arith)
        requires
            t.n == 0,
    ;
}

impl Ray {
    /// The minimum distance between the supporting lines of two rays, where
    /// it is an exactly representable rational; the nonnegative square root
    /// of `minimum_distance_to_other_sq`.
    pub fn minimum_distance_to_other(&self, other: &Ray) -> (r: Option<Rat>)
        requires
            self.wf(),
            other.wf(),
        ensures
            ov(r) == o_sqrt(rm_min_dist_sq(self@, other@)),
            r matches Some(v) ==> v.wf() && v@.n >= 0 && r_eq(
                r_mul(v@, v@),
                dist_plane_sq(other@.location, skew_plane(self@, other@)),
            ),
    {
        let dsq = match self.minimum_distance_to_other_sq(other) {
            Some(v) => v,
            None => return None,
        };
        let r = dsq.sqrt();
        proof {
            match r {
                Some(v) => {
                    lemma_pos_mul(v@.d, v@.d);
                    lemma_req_trans(
                        r_mul(v@, v@),
                        dsq@,
                        dist_plane_sq(other@.location, skew_plane(self@, other@)),
                    );
                },
                None => {},
            }
        }
        r
    }
}

/// The auxiliary plane used for the skew-ray distance: through
/// `self.location`, orthogonal to both directions.
pub open spec fn skew_plane(ray: Rayr, other: Rayr) -> Planr {
    let n = v_cross(ray.direction, other.direction);
    Planr { normal: n, a: v_dot(n, ray.location) }
}

/// `dist_plane_sq` respects equivalence of the plane.
proof fn lemma_dist_plane_congr(p: Vec3r, pl: Planr, pl2: Planr)
    requires
        v_eq(pl.normal, pl2.normal),
        r_eq(pl.a, pl2.a),
    ensures
        r_eq(dist_plane_sq(p, pl), dist_plane_sq(p, pl2)),
{
    let s = r_sub(v_dot(pl.normal, p), pl.a);
    let s2 = r_sub(v_dot(pl2.normal, p), pl2.a);
    lemma_dot_congr(pl.normal, pl2.normal, p, p);
    lemma_sub_congr(v_dot(pl.normal, p), v_dot(pl2.normal, p), pl.a, pl2.a);
    crate::rat::lemma_mul_congr(s, s2, s, s2);
    lemma_dot_congr(pl.normal, pl2.normal, pl.normal, pl2.normal);
    lemma_div_congr(r_mul(s, s), r_mul(s2, s2), v_dot(pl.normal, pl.normal), v_dot(
        pl2.normal,
        pl2.normal,
    ));
}

/// The denominator of `dist_plane_sq` is nonzero whenever the normal's
/// squared length is nonzero, which holds on any value the executable
/// distance returns.
proof fn lemma_dpsq_dpos(p: Vec3r, pl: Planr)
    requires
        v_dpos(p),
        v_dpos(pl.normal),
        pl.a.d >= 1,
        v_dot(pl.normal, pl.normal).n != 0,
    ensures
        dist_plane_sq(p, pl).d != 0,
{
    let s = r_sub(v_dot(pl.normal, p), pl.a);
    lemma_vdot_dpos(pl.normal, p);
    lemma_pos_mul(v_dot(pl.normal, p).d, pl.a.d);
    lemma_pos_mul(s.d, s.d);
    lemma_nonzero_mul(s.d * s.d, v_dot(pl.normal, pl.normal).n);
}

} // verus!
