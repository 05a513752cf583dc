//! 3D positions over exact rational coordinates.

use vstd::prelude::*;
use crate::rat::{
    is_square, lemma_div_congr, lemma_mul_congr, lemma_nonzero_mul, lemma_pos_mul,
    lemma_req_nonzero, lemma_req_trans, lemma_sub_congr, o_div, o_mul, o_sub, ov, r_div, r_eq,
    r_mul, r_sub, Rat, Ratio,
};
use crate::vec3::{
    lemma_dot_congr, lemma_vdot_dpos, v_dot, v_sub, vm_dot, vm_sub, Vec3r, Vector3,
};
use crate::plane::{Plane, Planr};

verus! {

/// An absolute position; its model is its position vector.
#[derive(Clone, Copy, Debug)]
pub struct Point {
    pub x: Rat,
    pub y: Rat,
    pub z: Rat,
}

impl View for Point {
    type V = Vec3r;

    open spec fn view(&self) -> Vec3r {
        Vec3r { x: self.x@, y: self.y@, z: self.z@ }
    }
}

/// The view of an optional point, for contracts over fallible steps.
pub open spec fn opt(r: Option<Point>) -> Option<Vec3r> {
    match r {
        Some(v) => Some(v@),
        None => None,
    }
}

/// Squared distance between two points, as an exact outcome.
pub open spec fn pm_distance_sq(a: Vec3r, b: Vec3r) -> Option<Ratio> {
    match vm_sub(b, a) {
        Some(d) => vm_dot(d, d),
        None => None,
    }
}

/// Squared distance from a point to a plane (Hessian normal form, squared):
/// `(n . p - a)^2 / (n . n)`.
pub open spec fn dist_plane_sq(p: Vec3r, pl: Planr) -> Ratio {
    let s = r_sub(v_dot(pl.normal, p), pl.a);
    r_div(r_mul(s, s), v_dot(pl.normal, pl.normal))
}

/// Exact outcome of the squared point-to-plane distance.
pub open spec fn pm_dist_plane_sq(p: Vec3r, pl: Planr) -> Option<Ratio> {
    let dot = vm_dot(pl.normal, p);
    let s = o_sub(dot, Some(pl.a));
    let num = o_mul(s, s);
    let nn = vm_dot(pl.normal, pl.normal);
    o_div(num, nn)
}

impl Point {
    pub open spec fn wf(self) -> bool {
        &&& self.x.wf()
        &&& self.y.wf()
        &&& self.z.wf()
    }

    pub fn new(x: Rat, y: Rat, z: Rat) -> (r: Point)
        requires
            x.wf(),
            y.wf(),
            z.wf(),
        ensures
            r.wf(),
            r@ == (Vec3r { x: x@, y: y@, z: z@ }),
    {
        Point { x, y, z }
    }

    /// The position vector of the point: the same coordinates read as a free
    /// vector.
    pub fn local_vector(&self) -> (r: Vector3)
        requires
            self.wf(),
        ensures
            r.wf(),
            r@ == self@,
    {
        Vector3 { x: self.x, y: self.y, z: self.z }
    }

    /// The squared Euclidean distance `|other - self|^2`, exactly.
    pub fn distance_sq(&self, other: &Point) -> (r: Option<Rat>)
        requires
            self.wf(),
            other.wf(),
        ensures
            ov(r) == pm_distance_sq(self@, other@),
            r matches Some(v) ==> v.wf() && r_eq(
                v@,
                v_dot(v_sub(other@, self@), v_sub(other@, self@)),
            ),
    {
        let d = match Vector3::ab_from_points(self, other) {
            Some(v) => v,
            None => return None,
        };
        let r = d.dot_product(&d);
        proof {
            match r {
                Some(v) => {
                    let dd = v_sub(other@, self@);
                    lemma_dot_congr(d@, dd, d@, dd);
                    lemma_vdot_dpos(d@, d@);
                    lemma_req_trans(v@, v_dot(d@, d@), v_dot(dd, dd));
                },
                None => {},
            }
        }
        r
    }

    /// The Euclidean distance `|other - self|`, where it is an exactly
    /// representable rational: `None` when the squared distance is not a
    /// rational square (the distance is irrational) or an intermediate value
    /// has no representable reduced form.
    pub fn distance(&self, other: &Point) -> (r: Option<Rat>)
        requires
            self.wf(),
            other.wf(),
        ensures
            r matches Some(v) ==> v.wf() && v@.n >= 0 && r_eq(
                r_mul(v@, v@),
                v_dot(v_sub(other@, self@), v_sub(other@, self@)),
            ),
            r is Some <==> (pm_distance_sq(self@, other@) matches Some(l) && l.n >= 0
                && is_square(l.n * l.d)),
    {
        let dsq = match self.distance_sq(other) {
            Some(v) => v,
            None => return None,
        };
        let r = dsq.sqrt();
        proof {
            match r {
                Some(v) => {
                    let dd = v_sub(other@, self@);
                    lemma_pos_mul(v@.d, v@.d);
                    lemma_req_trans(r_mul(v@, v@), dsq@, v_dot(dd, dd));
                },
                None => {},
            }
        }
        r
    }

    /// The squared Hessian-normal-form distance to a plane:
    /// `(n . p - a)^2 / (n . n)`, exactly. `None` on a zero-length normal
    /// (the degenerate division) or an unrepresentable intermediate value.
    pub fn distance_to_plane_sq(&self, plane: &Plane) -> (r: Option<Rat>)
        requires
            self.wf(),
            plane.wf(),
        ensures
            ov(r) == pm_dist_plane_sq(self@, plane@),
            r matches Some(v) ==> v.wf() && r_eq(v@, dist_plane_sq(self@, plane@)),
            r is Some ==> v_dot(plane@.normal, plane@.normal).n != 0,
    {
        let pv = self.local_vector();
        let dot = match plane.normal.dot_product(&pv) {
            Some(v) => v,
            None => return None,
        };
        let s = match dot.sub(&plane.a) {
            Some(v) => v,
            None => return None,
        };
        let num = match s.mul(&s) {
            Some(v) => v,
            None => return None,
        };
        let nn = match plane.normal.length_sq() {
            Some(v) => v,
            None => return None,
        };
        let r = num.div(&nn);
        proof {
            match r {
                Some(v) => {
                    let n = plane@.normal;
                    let ms = r_sub(v_dot(n, self@), plane@.a);
                    lemma_sub_congr(dot@, v_dot(n, self@), plane@.a, plane@.a);
                    lemma_pos_mul(dot@.d, plane@.a.d);
                    lemma_req_trans(s@, r_sub(dot@, plane@.a), ms);
                    lemma_mul_congr(s@, ms, s@, ms);
                    lemma_pos_mul(s@.d, s@.d);
                    lemma_req_trans(num@, r_mul(s@, s@), r_mul(ms, ms));
                    lemma_div_congr(num@, r_mul(ms, ms), nn@, v_dot(n, n));
                    lemma_nonzero_mul(num@.d, nn@.n);
                    lemma_req_trans(v@, r_div(num@, nn@), dist_plane_sq(self@, plane@));
                    lemma_vdot_dpos(n, n);
                    lemma_req_nonzero(nn@, v_dot(n, n));
                },
                None => {},
            }
        }
        r
    }
}

impl Point {
    /// The Hessian-normal-form distance to a plane, where it is an exactly
    /// representable rational; the nonnegative square root of
    /// `distance_to_plane_sq`. `None` when that square has no rational root
    /// or the squared form itself has no result.
    pub fn distance_to_plane(&self, plane: &Plane) -> (r: Option<Rat>)
        requires
            self.wf(),
            plane.wf(),
        ensures
            r matches Some(v) ==> v.wf() && v@.n >= 0 && r_eq(
                r_mul(v@, v@),
                dist_plane_sq(self@, plane@),
            ),
            r is Some <==> (pm_dist_plane_sq(self@, plane@) matches Some(l) && l.n >= 0
                && is_square(l.n * l.d)),
    {
        let dsq = match self.distance_to_plane_sq(plane) {
            Some(v) => v,
            None => return None,
        };
        let r = dsq.sqrt();
        proof {
            match r {
                Some(v) => {
                    lemma_pos_mul(v@.d, v@.d);
                    lemma_req_trans(r_mul(v@, v@), dsq@, dist_plane_sq(self@, plane@));
                },
                None => {},
            }
        }
        r
    }
}

impl PartialEq for Point {
    /// Componentwise equality of the rational coordinates.
    fn eq(&self, other: &Point) -> (r: bool) {
        self.x == other.x && self.y == other.y && self.z == other.z
    }
}

impl vstd::std_specs::cmp::PartialEqSpecImpl for Point {
    open spec fn obeys_eq_spec() -> bool {
        true
    }

    open spec fn eq_spec(&self, other: &Point) -> bool {
        crate::vec3::v_eq(self@, other@)
    }
}

} // verus!
