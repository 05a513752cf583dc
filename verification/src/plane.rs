//! Infinite planes in normal form: `{ p : normal . p == a }`.

use vstd::prelude::*;
use crate::rat::{lemma_req_trans, m_div, r_div, r_eq, r_zero, Rat, Ratio};
use crate::vec3::{lemma_cross_congr, lemma_vdot_dpos, lemma_veq_trans, lemma_vcross_dpos, v_cross, v_dot, v_eq, v_sub, vm_cross, vm_dot, vm_sub, Vec3r, Vector3};
use crate::point::Point;

verus! {

/// Mathematical model of a plane: a normal vector and the offset `a`.
/// The normal is not required to be of unit length.
pub ghost struct Planr {
    pub normal: Vec3r,
    pub a: Ratio,
}

/// A point lies on the plane exactly when `normal . p == a`.
pub open spec fn on_plane(pl: Planr, p: Vec3r) -> bool {
    r_eq(v_dot(pl.normal, p), pl.a)
}

/// Exact outcome of building a plane from a normal and a point on it.
pub open spec fn pm_from_normal_and_point(n: Vec3r, p: Vec3r) -> Option<Planr> {
    match vm_dot(n, p) {
        Some(a) => Some(Planr { normal: n, a }),
        None => None,
    }
}

/// Exact outcome of building a plane through three points.
pub open spec fn pm_from_points(p: Vec3r, q: Vec3r, s: Vec3r) -> Option<Planr> {
    match (vm_sub(q, p), vm_sub(s, p)) {
        (Some(v1), Some(v2)) => match vm_cross(v1, v2) {
            Some(n) => pm_from_normal_and_point(n, p),
            None => None,
        },
        _ => None,
    }
}

/// A plane in normal form; the normal may have any nonzero length, and a zero
/// normal is representable but degenerate (as in the floating-point
/// formulation, nothing rejects it on construction).
#[derive(Clone, Copy, Debug)]
pub struct Plane {
    pub normal: Vector3,
    pub a: Rat,
}

impl View for Plane {
    type V = Planr;

    open spec fn view(&self) -> Planr {
        Planr { normal: self.normal@, a: self.a@ }
    }
}

/// The view of an optional plane.
pub open spec fn opl(r: Option<Plane>) -> Option<Planr> {
    match r {
        Some(v) => Some(v@),
        None => None,
    }
}

impl Plane {
    pub open spec fn wf(self) -> bool {
        &&& self.normal.wf()
        &&& self.a.wf()
    }

    pub fn new(normal: Vector3, a: Rat) -> (r: Plane)
        requires
            normal.wf(),
            a.wf(),
        ensures
            r.wf(),
            r@ == (Planr { normal: normal@, a: a@ }),
    {
        Plane { normal, a }
    }

    /// The unique plane through `point` with the given normal:
    /// `a = normal . point`. The point then lies on the plane by construction.
    pub fn from_normal_and_point(normal: Vector3, point: &Point) -> (r: Option<Plane>)
        requires
            normal.wf(),
            point.wf(),
        ensures
            opl(r) == pm_from_normal_and_point(normal@, point@),
            r matches Some(pl) ==> pl.wf() && pl@.normal == normal@ && r_eq(
                pl@.a,
                v_dot(normal@, point@),
            ) && on_plane(pl@, point@),
    {
        let pv = point.local_vector();
        let a = match normal.dot_product(&pv) {
            Some(v) => v,
            None => return None,
        };
        proof {
            lemma_vdot_dpos(normal@, point@);
        }
        Some(Plane { normal, a })
    }

    /// The plane through three points: normal `(q - p) x (s - p)`, anchored
    /// at `p`. Collinear points give a zero normal and a degenerate plane;
    /// nothing detects that, as in the floating-point formulation.
    pub fn from_points(p: &Point, q: &Point, s: &Point) -> (r: Option<Plane>)
        requires
            p.wf(),
            q.wf(),
            s.wf(),
        ensures
            opl(r) == pm_from_points(p@, q@, s@),
            r matches Some(pl) ==> pl.wf() && v_eq(
                pl@.normal,
                v_cross(v_sub(q@, p@), v_sub(s@, p@)),
            ) && r_eq(pl@.a, v_dot(pl@.normal, p@)) && on_plane(pl@, p@),
    {
        let v1 = match Vector3::ab_from_points(p, q) {
            Some(v) => v,
            None => return None,
        };
        let v2 = match Vector3::ab_from_points(p, s) {
            Some(v) => v,
            None => return None,
        };
        let n = match v1.cross_product(&v2) {
            Some(v) => v,
            None => return None,
        };
        let r = Plane::from_normal_and_point(n, p);
        proof {
            let mv1 = v_sub(q@, p@);
            let mv2 = v_sub(s@, p@);
            lemma_cross_congr(v1@, mv1, v2@, mv2);
            lemma_vcross_dpos(v1@, v2@);
            lemma_veq_trans(n@, v_cross(v1@, v2@), v_cross(mv1, mv2));
        }
        r
    }

    /// Exact membership test: is `normal . point == a`? `None` iff the dot
    /// product has no representable reduced form.
    pub fn point_is_on_plane(&self, point: &Point) -> (r: Option<bool>)
        requires
            self.wf(),
            point.wf(),
        ensures
            r is Some <==> vm_dot(self@.normal, point@) is Some,
            r matches Some(b) ==> (b <==> on_plane(self@, point@)),
    {
        let pv = point.local_vector();
        let dot = match self.normal.dot_product(&pv) {
            Some(v) => v,
            None => return None,
        };
        proof {
            let md = v_dot(self@.normal, point@);
            lemma_vdot_dpos(self@.normal, point@);
            if r_eq(dot@, self@.a) {
                lemma_req_trans(md, dot@, self@.a);
            }
            if r_eq(md, self@.a) {
                lemma_req_trans(dot@, md, self@.a);
            }
        }
        Some(dot == self.a)
    }

    /// The point on the plane with `x == 0`, `y == 0`: `z = a / normal.z`.
    /// `None` iff the plane is parallel to the z-axis (`normal.z == 0`, the
    /// degenerate division) or the quotient has no representable reduced form.
    pub fn get_point_on_plane(&self) -> (r: Option<Point>)
        requires
            self.wf(),
        ensures
            r is Some <==> m_div(self@.a, self@.normal.z) is Some,
            r matches Some(pt) ==> pt.wf() && pt@.x == r_zero() && pt@.y == r_zero() && r_eq(
                pt@.z,
                r_div(self@.a, self@.normal.z),
            ),
    {
        let z = match self.a.div(&self.normal.z) {
            Some(v) => v,
            None => return None,
        };
        Some(Point { x: Rat::from_int(0), y: Rat::from_int(0), z })
    }
}

} // verus!
