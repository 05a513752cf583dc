//! Spheres, with the exact line-sphere intersection test and the analytic
//! nearest-intersection-point computation.

use vstd::prelude::*;
use crate::rat::{lemma_abs_lt_congr, lemma_le_congr, lemma_neg_congr, lemma_pos_mul, lemma_req_nonzero, lemma_req_trans, lemma_step_add, lemma_step_div, lemma_step_mul, lemma_step_sub, m_add, m_div, m_mul, m_sqrt, m_sub, r_abs_lt, r_add, r_div, r_eq, r_le, r_mul, r_neg, r_sub, r_zero, Rat, Ratio};
use crate::vec3::{lemma_dot_congr, lemma_dot_self_nonneg, lemma_vadd_congr, lemma_vdot_dpos, lemma_veq_trans, lemma_vscale_congr, lemma_vscale_dpos, lemma_vsub_dpos, v_dot, v_dpos, v_eq, v_scale, v_sub, vm_dot, vm_sub, Vec3r};
use crate::point::{opt, pm_distance_sq, Point};
use crate::plane::{pm_from_normal_and_point, Plane, Planr};
use crate::ray::{ray_plane_point, ray_point_at, rm_intersection, rm_point_at, Ray, Rayr};

verus! {

/// Mathematical model of a sphere: center and radius.
pub ghost struct Spherr {
    pub center: Vec3r,
    pub radius: Ratio,
}

/// The plane through the sphere's center orthogonal to the ray's direction;
/// the ray meets it at the foot of the perpendicular from the center.
pub open spec fn foot_plane(ray: Rayr, c: Vec3r) -> Planr {
    Planr { normal: ray.direction, a: v_dot(ray.direction, c) }
}

/// The discriminant of the line/sphere quadratic, over the raw direction:
/// `(d . oc)^2 - (d . d) * (oc . oc - r^2)` with `oc = location - center`.
/// It is nonnegative exactly when the supporting line meets the sphere.
pub open spec fn sphere_disc(sp: Spherr, ray: Rayr) -> Ratio {
    let oc = v_sub(ray.location, sp.center);
    r_sub(
        r_mul(v_dot(ray.direction, oc), v_dot(ray.direction, oc)),
        r_mul(v_dot(ray.direction, ray.direction), r_sub(v_dot(oc, oc), r_mul(sp.radius, sp.radius))),
    )
}

/// Exact outcome of the intersection test: the squared direction length, a
/// zero direction answering `false` outright, then the foot-of-perpendicular
/// construction and the squared-distance comparison, step by step.
pub open spec fn sm_does_intersect(sp: Spherr, ray: Rayr) -> Option<bool> {
    match vm_dot(ray.direction, ray.direction) {
        Some(dd) => if dd.n == 0 {
            Some(false)
        } else {
            match pm_from_normal_and_point(ray.direction, sp.center) {
                Some(pl) => match rm_intersection(ray, pl) {
                    Some(ip) => match pm_distance_sq(ip, sp.center) {
                        Some(dsq) => match m_mul(sp.radius, sp.radius) {
                            Some(r2) => Some(r_le(dsq, r2)),
                            None => None,
                        },
                        None => None,
                    },
                    None => None,
                },
                None => None,
            }
        },
        None => None,
    }
}

/// Exact outcome of selecting the first intersection point, given the
/// discriminant's nonnegative rational root `sq`: both quadratic roots over
/// the raw direction, and the point at whichever has the smaller absolute
/// value.
pub open spec fn sm_pick_root(ray: Rayr, docd: Ratio, dd: Ratio, sq: Ratio) -> Option<Vec3r> {
    match m_add(r_neg(docd), sq) {
        Some(nbp) => match m_div(nbp, dd) {
            Some(t1) => match m_sub(r_neg(docd), sq) {
                Some(nbm) => match m_div(nbm, dd) {
                    Some(t2) => rm_point_at(
                        ray,
                        if r_abs_lt(t1, t2) {
                            t1
                        } else {
                            t2
                        },
                    ),
                    None => None,
                },
                None => None,
            },
            None => None,
        },
        None => None,
    }
}

/// Exact outcome of the analytic first-intersection computation: the
/// discriminant accumulated step by step, `None` once it is negative or has
/// no rational root, and the selected root's point otherwise.
pub open spec fn sm_first_intersect(sp: Spherr, ray: Rayr) -> Option<Vec3r> {
    match vm_sub(ray.location, sp.center) {
        Some(oc) => match vm_dot(ray.direction, oc) {
            Some(docd) => match vm_dot(ray.direction, ray.direction) {
                Some(dd) => match vm_dot(oc, oc) {
                    Some(ocsq) => match m_mul(sp.radius, sp.radius) {
                        Some(r2) => match m_sub(ocsq, r2) {
                            Some(inner) => match m_mul(dd, inner) {
                                Some(ddinner) => match m_mul(docd, docd) {
                                    Some(b2) => match m_sub(b2, ddinner) {
                                        Some(dval) => if !r_le(r_zero(), dval) {
                                            None
                                        } else {
                                            match m_sqrt(dval) {
                                                Some(sq) => sm_pick_root(ray, docd, dd, sq),
                                                None => None,
                                            }
                                        },
                                        None => None,
                                    },
                                    None => None,
                                },
                                None => None,
                            },
                            None => None,
                        },
                        None => None,
                    },
                    None => None,
                },
                None => None,
            },
            None => None,
        },
        None => None,
    }
}

/// A sphere; the radius is assumed nonnegative (part of `wf`), as the
/// intersection tests compare squared distances against its square.
#[derive(Clone, Copy, Debug)]
pub struct Sphere {
    pub center: Point,
    pub radius: Rat,
}

impl View for Sphere {
    type V = Spherr;

    open spec fn view(&self) -> Spherr {
        Spherr { center: self.center@, radius: self.radius@ }
    }
}

impl Sphere {
    pub open spec fn wf(self) -> bool {
        &&& self.center.wf()
        &&& self.radius.wf()
        &&& self.radius@.n >= 0
    }

    pub fn new(center: Point, radius: Rat) -> (r: Sphere)
        requires
            center.wf(),
            radius.wf(),
            radius@.n >= 0,
        ensures
            r.wf(),
            r@ == (Spherr { center: center@, radius: radius@ }),
    {
        Sphere { center, radius }
    }

    /// Whether the supporting line of `line` meets the sphere: the foot of
    /// the perpendicular from the center lies within `radius` of it. A ray
    /// with zero direction yields `Some(false)`; `None` only when an
    /// intermediate value has no representable reduced form.
    pub fn does_intersect(&self, line: Ray) -> (r: Option<bool>)
        requires
            self.wf(),
            line.wf(),
        ensures
            r == sm_does_intersect(self@, line@),
            r matches Some(b) ==> (r_eq(v_dot(line@.direction, line@.direction), r_zero()) ==> b
                == false),
            r matches Some(b) ==> (!r_eq(v_dot(line@.direction, line@.direction), r_zero())
                ==> (exists|cp: Vec3r|
                #![trigger v_dpos(cp)]
                v_dpos(cp) && v_eq(cp, ray_plane_point(line@, foot_plane(line@, self@.center)))
                    && b == r_le(
                    v_dot(v_sub(self@.center, cp), v_sub(self@.center, cp)),
                    r_mul(self@.radius, self@.radius),
                ))),
    {
        let dd = match line.direction.dot_product(&line.direction) {
            Some(v) => v,
            None => return None,
        };
        if dd.is_zero() {
            proof {
                lemma_vdot_dpos(line@.direction, line@.direction);
                lemma_req_trans(
                    v_dot(line@.direction, line@.direction),
                    dd@,
                    r_zero(),
                );
            }
            return Some(false);
        }
        let p = match Plane::from_normal_and_point(line.direction, &self.center) {
            Some(v) => v,
            None => return None,
        };
        let ip = match line.intersection_point_with_plane(&p) {
            Some(v) => v,
            None => return None,
        };
        let dsq = match ip.distance_sq(&self.center) {
            Some(v) => v,
            None => return None,
        };
        let r2 = match self.radius.mul(&self.radius) {
            Some(v) => v,
            None => return None,
        };
        let b = dsq.le(&r2);
        proof {
            let dir = line@.direction;
            let c = self@.center;
            let mnd = v_dot(dir, dir);
            lemma_vdot_dpos(dir, dir);
            if r_eq(mnd, r_zero()) {
                lemma_req_trans(dd@, mnd, r_zero());
            }
            // The executable plane is equivalent to the foot plane.
            lemma_rpp_congr(line@, p@, foot_plane(line@, c));
            lemma_dot_self_nonneg(dir);
            lemma_vscale_dpos_for_rpp(line@, p@);
            lemma_veq_trans(
                ip@,
                ray_plane_point(line@, p@),
                ray_plane_point(line@, foot_plane(line@, c)),
            );
            // The comparison agrees with the one over the witness point.
            lemma_vsub_dpos(c, ip@);
            lemma_vdot_dpos(v_sub(c, ip@), v_sub(c, ip@));
            crate::rat::lemma_mul_congr(self@.radius, self@.radius, self@.radius, self@.radius);
            lemma_pos_mul(self@.radius.d, self@.radius.d);
            lemma_le_congr(
                dsq@,
                v_dot(v_sub(c, ip@), v_sub(c, ip@)),
                r2@,
                r_mul(self@.radius, self@.radius),
            );
            assert(v_dpos(ip@));
        }
        Some(b)
    }

    /// The exact intersection point of the supporting line with the sphere
    /// whose quadratic root has the smaller absolute value -- which may lie
    /// behind the ray's origin. `None` when the discriminant is negative (the
    /// line misses the sphere), when the direction is zero, when the root is
    /// irrational (so `does_intersect` can answer `Some(true)` while no exact
    /// point is representable), or when an intermediate value has no
    /// representable reduced form; in every other case the point is owed.
    pub fn get_first_intersect_point(&self, line: &Ray) -> (r: Option<Point>)
        requires
            self.wf(),
            line.wf(),
        ensures
            opt(r) == sm_first_intersect(self@, line@),
            !r_le(r_zero(), sphere_disc(self@, line@)) ==> r is None,
            r matches Some(pt) ==> pt.wf() && r_le(r_zero(), sphere_disc(self@, line@))
                && (exists|sq: Ratio|
                #![trigger r_mul(sq, sq)]
                sq.d >= 1 && sq.n >= 0 && r_eq(r_mul(sq, sq), sphere_disc(self@, line@))
                    && first_hit_at(self@, line@, sq, pt@)),
    {
        let o = line.location.local_vector();
        let cv = self.center.local_vector();
        let oc = match o.sub(&cv) {
            Some(v) => v,
            None => return None,
        };
        let docd = match line.direction.dot_product(&oc) {
            Some(v) => v,
            None => return None,
        };
        let dd = match line.direction.length_sq() {
            Some(v) => v,
            None => return None,
        };
        let ocsq = match oc.dot_product(&oc) {
            Some(v) => v,
            None => return None,
        };
        let r2 = match self.radius.mul(&self.radius) {
            Some(v) => v,
            None => return None,
        };
        let inner = match ocsq.sub(&r2) {
            Some(v) => v,
            None => return None,
        };
        let ddinner = match dd.mul(&inner) {
            Some(v) => v,
            None => return None,
        };
        let b2 = match docd.mul(&docd) {
            Some(v) => v,
            None => return None,
        };
        let dval = match b2.sub(&ddinner) {
            Some(v) => v,
            None => return None,
        };
        let ghost ocm = v_sub(line@.location, self@.center);
        let ghost docdm = v_dot(line@.direction, ocm);
        let ghost ddm = v_dot(line@.direction, line@.direction);
        let ghost disc = sphere_disc(self@, line@);
        proof {
            // Relate the accumulated discriminant to its model.
            lemma_dot_congr(line@.direction, line@.direction, oc@, ocm);
            lemma_vdot_dpos(line@.direction, oc@);
            lemma_req_trans(docd@, v_dot(line@.direction, oc@), docdm);
            lemma_dot_congr(oc@, ocm, oc@, ocm);
            lemma_vdot_dpos(oc@, oc@);
            lemma_req_trans(ocsq@, v_dot(oc@, oc@), v_dot(ocm, ocm));
            lemma_step_sub(inner@, ocsq@, v_dot(ocm, ocm), r2@, r_mul(self@.radius, self@.radius));
            lemma_step_mul(
                ddinner@,
                dd@,
                ddm,
                inner@,
                r_sub(v_dot(ocm, ocm), r_mul(self@.radius, self@.radius)),
            );
            lemma_step_mul(b2@, docd@, docdm, docd@, docdm);
            lemma_step_sub(
                dval@,
                b2@,
                r_mul(docdm, docdm),
                ddinner@,
                r_mul(ddm, r_sub(v_dot(ocm, ocm), r_mul(self@.radius, self@.radius))),
            );
            lemma_disc_dpos(self@, line@);
            lemma_le_congr(Ratio { n: 0, d: 1 }, r_zero(), dval@, disc);
        }
        let zero = Rat::from_int(0);
        if !zero.le(&dval) {
            return None;
        }
        let sq = match dval.sqrt() {
            Some(v) => v,
            None => return None,
        };
        let nb = docd.neg();
        let nbp = match nb.add(&sq) {
            Some(v) => v,
            None => return None,
        };
        let t1 = match nbp.div(&dd) {
            Some(v) => v,
            None => return None,
        };
        let nbm = match nb.sub(&sq) {
            Some(v) => v,
            None => return None,
        };
        let t2 = match nbm.div(&dd) {
            Some(v) => v,
            None => return None,
        };
        let ghost t1m = r_div(r_add(r_neg(docdm), sq@), ddm);
        let ghost t2m = r_div(r_sub(r_neg(docdm), sq@), ddm);
        proof {
            lemma_pos_mul(sq@.d, sq@.d);
            lemma_req_trans(r_mul(sq@, sq@), dval@, disc);
            // The model denominators of the candidate parameters are positive.
            lemma_vsub_dpos(line@.location, self@.center);
            lemma_vdot_dpos(line@.direction, ocm);
            lemma_vdot_dpos(line@.direction, line@.direction);
            lemma_req_nonzero(dd@, ddm);
            lemma_dot_self_nonneg(line@.direction);
            lemma_neg_congr(docd@, docdm);
            lemma_step_add(nbp@, nb@, r_neg(docdm), sq@, sq@);
            lemma_step_div(t1@, nbp@, r_add(r_neg(docdm), sq@), dd@, ddm);
            lemma_step_sub(nbm@, nb@, r_neg(docdm), sq@, sq@);
            lemma_step_div(t2@, nbm@, r_sub(r_neg(docdm), sq@), dd@, ddm);
            lemma_pos_mul(docdm.d, sq@.d);
            lemma_pos_mul(r_add(r_neg(docdm), sq@).d, ddm.n);
            lemma_abs_lt_congr(t1@, t1m, t2@, t2m);
        }
        let t = if t1.abs_lt(&t2) {
            t1
        } else {
            t2
        };
        let r = line.get_point_for_s(&t);
        proof {
            match r {
                Some(pt) => {
                    let tm = if r_abs_lt(t1m, t2m) {
                        t1m
                    } else {
                        t2m
                    };
                    lemma_vscale_congr(line@.direction, line@.direction, t@, tm);
                    lemma_vadd_congr(
                        line@.location,
                        line@.location,
                        v_scale(line@.direction, t@),
                        v_scale(line@.direction, tm),
                    );
                    lemma_vscale_dpos(line@.direction, t@);
                    lemma_vsub_dpos(line@.location, v_scale(line@.direction, t@));
                    lemma_veq_trans(pt@, ray_point_at(line@, t@), ray_point_at(line@, tm));
                },
                None => {},
            }
        }
        r
    }
}

/// Where the selected first intersection lies, given the exact root `sq` of
/// the discriminant: at the quadratic root of smaller absolute value.
pub open spec fn first_hit_at(sp: Spherr, ray: Rayr, sq: Ratio, pt: Vec3r) -> bool {
    let docdm = v_dot(ray.direction, v_sub(ray.location, sp.center));
    let ddm = v_dot(ray.direction, ray.direction);
    let t1m = r_div(r_add(r_neg(docdm), sq), ddm);
    let t2m = r_div(r_sub(r_neg(docdm), sq), ddm);
    if r_abs_lt(t1m, t2m) {
        v_eq(pt, ray_point_at(ray, t1m))
    } else {
        v_eq(pt, ray_point_at(ray, t2m))
    }
}

/// The ray/plane intersection point respects equivalence of the plane.
proof fn lemma_rpp_congr(ray: Rayr, pl: Planr, pl2: Planr)
    requires
        v_eq(pl.normal, pl2.normal),
        r_eq(pl.a, pl2.a),
    ensures
        v_eq(ray_plane_point(ray, pl), ray_plane_point(ray, pl2)),
{
    lemma_dot_congr(pl.normal, pl2.normal, ray.location, ray.location);
    lemma_dot_congr(pl.normal, pl2.normal, ray.direction, ray.direction);
    crate::rat::lemma_sub_congr(
        pl.a,
        pl2.a,
        v_dot(pl.normal, ray.location),
        v_dot(pl2.normal, ray.location),
    );
    crate::rat::lemma_div_congr(
        r_sub(pl.a, v_dot(pl.normal, ray.location)),
        r_sub(pl2.a, v_dot(pl2.normal, ray.location)),
        v_dot(pl.normal, ray.direction),
        v_dot(pl2.normal, ray.direction),
    );
    lemma_vscale_congr(
        ray.direction,
        ray.direction,
        r_div(r_sub(pl.a, v_dot(pl.normal, ray.location)), v_dot(pl.normal, ray.direction)),
        r_div(r_sub(pl2.a, v_dot(pl2.normal, ray.location)), v_dot(pl2.normal, ray.direction)),
    );
    lemma_vadd_congr(
        ray.location,
        ray.location,
        v_scale(
            ray.direction,
            r_div(r_sub(pl.a, v_dot(pl.normal, ray.location)), v_dot(pl.normal, ray.direction)),
        ),
        v_scale(
            ray.direction,
            r_div(r_sub(pl2.a, v_dot(pl2.normal, ray.location)), v_dot(pl2.normal, ray.direction)),
        ),
    );
}

/// Positive denominators of the intersection point with a plane whose
/// divisor `normal . direction` has a positive numerator, as for the foot
/// plane off the degenerate case.
proof fn lemma_vscale_dpos_for_rpp(ray: Rayr, pl: Planr)
    requires
        v_dpos(ray.location),
        v_dpos(ray.direction),
        v_dpos(pl.normal),
        pl.a.d >= 1,
        v_dot(pl.normal, ray.direction).n >= 1,
    ensures
        v_dpos(ray_plane_point(ray, pl)),
{
    let s = r_div(r_sub(pl.a, v_dot(pl.normal, ray.location)), v_dot(pl.normal, ray.direction));
    lemma_vdot_dpos(pl.normal, ray.location);
    lemma_vdot_dpos(pl.normal, ray.direction);
    lemma_pos_mul(pl.a.d, v_dot(pl.normal, ray.location).d);
    lemma_pos_mul(
        r_sub(pl.a, v_dot(pl.normal, ray.location)).d,
        v_dot(pl.normal, ray.direction).n,
    );
    lemma_pos_mul(ray.direction.x.d, s.d);
    lemma_pos_mul(ray.direction.y.d, s.d);
    lemma_pos_mul(ray.direction.z.d, s.d);
    lemma_pos_mul(ray.location.x.d, ray.direction.x.d * s.d);
    lemma_pos_mul(ray.location.y.d, ray.direction.y.d * s.d);
    lemma_pos_mul(ray.location.z.d, ray.direction.z.d * s.d);
}

/// All denominators in the discriminant are positive.
proof fn lemma_disc_dpos(sp: Spherr, ray: Rayr)
    requires
        v_dpos(ray.location),
        v_dpos(ray.direction),
        v_dpos(sp.center),
        sp.radius.d >= 1,
    ensures
        sphere_disc(sp, ray).d >= 1,
{
    let oc = v_sub(ray.location, sp.center);
    lemma_vsub_dpos(ray.location, sp.center);
    lemma_vdot_dpos(ray.direction, oc);
    lemma_vdot_dpos(ray.direction, ray.direction);
    lemma_vdot_dpos(oc, oc);
    let docd = v_dot(ray.direction, oc);
    let ddm = v_dot(ray.direction, ray.direction);
    lemma_pos_mul(docd.d, docd.d);
    lemma_pos_mul(sp.radius.d, sp.radius.d);
    lemma_pos_mul(v_dot(oc, oc).d, sp.radius.d * sp.radius.d);
    lemma_pos_mul(ddm.d, v_dot(oc, oc).d * (sp.radius.d * sp.radius.d));
    lemma_pos_mul(docd.d * docd.d, ddm.d * (v_dot(oc, oc).d * (sp.radius.d * sp.radius.d)));
}

} // verus!
