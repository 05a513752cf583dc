//! 3D free vectors over exact rational coordinates.

use vstd::prelude::*;
use crate::rat::{is_square, lemma_add_congr, lemma_nonneg_mul, lemma_nonzero_mul, lemma_pos_mul, lemma_req_nonzero, lemma_req_trans, lemma_sub_congr, m_add, m_mul, m_recip, m_sub, o_add, o_sqrt, o_sub, ov, r_add, r_div, r_eq, r_mul, r_neg, r_one, r_sub, Rat, Ratio};
use crate::point::Point;

verus! {

/// Mathematical model of a vector (or of a point's position vector): three
/// unbounded fractions.
pub ghost struct Vec3r {
    pub x: Ratio,
    pub y: Ratio,
    pub z: Ratio,
}

/// Componentwise equality of the rational values.
pub open spec fn v_eq(u: Vec3r, v: Vec3r) -> bool {
    &&& r_eq(u.x, v.x)
    &&& r_eq(u.y, v.y)
    &&& r_eq(u.z, v.z)
}

/// All model denominators are positive.
pub open spec fn v_dpos(u: Vec3r) -> bool {
    &&& u.x.d >= 1
    &&& u.y.d >= 1
    &&& u.z.d >= 1
}

pub open spec fn v_add(u: Vec3r, v: Vec3r) -> Vec3r {
    Vec3r { x: r_add(u.x, v.x), y: r_add(u.y, v.y), z: r_add(u.z, v.z) }
}

pub open spec fn v_sub(u: Vec3r, v: Vec3r) -> Vec3r {
    Vec3r { x: r_sub(u.x, v.x), y: r_sub(u.y, v.y), z: r_sub(u.z, v.z) }
}

pub open spec fn v_neg(u: Vec3r) -> Vec3r {
    Vec3r { x: r_neg(u.x), y: r_neg(u.y), z: r_neg(u.z) }
}

pub open spec fn v_scale(u: Vec3r, t: Ratio) -> Vec3r {
    Vec3r { x: r_mul(u.x, t), y: r_mul(u.y, t), z: r_mul(u.z, t) }
}

/// The standard dot product.
pub open spec fn v_dot(u: Vec3r, v: Vec3r) -> Ratio {
    r_add(r_add(r_mul(u.x, v.x), r_mul(u.y, v.y)), r_mul(u.z, v.z))
}

/// The right-handed cross product.
pub open spec fn v_cross(u: Vec3r, v: Vec3r) -> Vec3r {
    Vec3r {
        x: r_sub(r_mul(u.y, v.z), r_mul(u.z, v.y)),
        y: r_sub(r_mul(u.z, v.x), r_mul(u.x, v.z)),
        z: r_sub(r_mul(u.x, v.y), r_mul(u.y, v.x)),
    }
}

/// Exact outcome of a componentwise fallible step.
pub open spec fn vm_add(u: Vec3r, v: Vec3r) -> Option<Vec3r> {
    match (m_add(u.x, v.x), m_add(u.y, v.y), m_add(u.z, v.z)) {
        (Some(x), Some(y), Some(z)) => Some(Vec3r { x, y, z }),
        _ => None,
    }
}

pub open spec fn vm_sub(u: Vec3r, v: Vec3r) -> Option<Vec3r> {
    match (m_sub(u.x, v.x), m_sub(u.y, v.y), m_sub(u.z, v.z)) {
        (Some(x), Some(y), Some(z)) => Some(Vec3r { x, y, z }),
        _ => None,
    }
}

pub open spec fn vm_scale(u: Vec3r, t: Ratio) -> Option<Vec3r> {
    match (m_mul(u.x, t), m_mul(u.y, t), m_mul(u.z, t)) {
        (Some(x), Some(y), Some(z)) => Some(Vec3r { x, y, z }),
        _ => None,
    }
}

/// Exact outcome of the dot product as it is accumulated.
pub open spec fn vm_dot(u: Vec3r, v: Vec3r) -> Option<Ratio> {
    o_add(o_add(m_mul(u.x, v.x), m_mul(u.y, v.y)), m_mul(u.z, v.z))
}

/// Exact outcome of normalizing: the rational length, its reciprocal, and
/// the scaled copy, each step owed whenever the one before it succeeds.
pub open spec fn vm_unit(u: Vec3r) -> Option<Vec3r> {
    match o_sqrt(vm_dot(u, u)) {
        Some(l) => match m_recip(l) {
            Some(il) => vm_scale(u, il),
            None => None,
        },
        None => None,
    }
}

pub open spec fn vm_cross(u: Vec3r, v: Vec3r) -> Option<Vec3r> {
    match (
        o_sub(m_mul(u.y, v.z), m_mul(u.z, v.y)),
        o_sub(m_mul(u.z, v.x), m_mul(u.x, v.z)),
        o_sub(m_mul(u.x, v.y), m_mul(u.y, v.x)),
    ) {
        (Some(x), Some(y), Some(z)) => Some(Vec3r { x, y, z }),
        _ => None,
    }
}

/// A 3D free vector with exact rational coordinates.
#[derive(Clone, Copy, Debug)]
pub struct Vector3 {
    pub x: Rat,
    pub y: Rat,
    pub z: Rat,
}

impl View for Vector3 {
    type V = Vec3r;

    open spec fn view(&self) -> Vec3r {
        Vec3r { x: self.x@, y: self.y@, z: self.z@ }
    }
}

/// The view of an optional vector, for contracts over fallible steps.
pub open spec fn ov3(r: Option<Vector3>) -> Option<Vec3r> {
    match r {
        Some(v) => Some(v@),
        None => None,
    }
}

impl Vector3 {
    pub open spec fn wf(self) -> bool {
        &&& self.x.wf()
        &&& self.y.wf()
        &&& self.z.wf()
    }

    pub fn new(x: Rat, y: Rat, z: Rat) -> (r: Vector3)
        requires
            x.wf(),
            y.wf(),
            z.wf(),
        ensures
            r.wf(),
            r@ == (Vec3r { x: x@, y: y@, z: z@ }),
    {
        Vector3 { x, y, z }
    }

    /// The vector from `a` to `b`.
    pub fn ab_from_points(a: &Point, b: &Point) -> (r: Option<Vector3>)
        requires
            a.wf(),
            b.wf(),
        ensures
            ov3(r) == vm_sub(b@, a@),
            r matches Some(v) ==> v.wf() && v_eq(v@, v_sub(b@, a@)),
    {
        let bv = b.local_vector();
        let av = a.local_vector();
        bv.sub(&av)
    }

    /// Componentwise exact sum; `None` iff some reduced component does not fit.
    pub fn add(&self, rhs: &Vector3) -> (r: Option<Vector3>)
        requires
            self.wf(),
            rhs.wf(),
        ensures
            ov3(r) == vm_add(self@, rhs@),
            r matches Some(v) ==> v.wf() && v_eq(v@, v_add(self@, rhs@)),
    {
        let x = match self.x.add(&rhs.x) {
            Some(v) => v,
            None => return None,
        };
        let y = match self.y.add(&rhs.y) {
            Some(v) => v,
            None => return None,
        };
        let z = match self.z.add(&rhs.z) {
            Some(v) => v,
            None => return None,
        };
        Some(Vector3 { x, y, z })
    }

    /// Componentwise exact difference.
    pub fn sub(&self, rhs: &Vector3) -> (r: Option<Vector3>)
        requires
            self.wf(),
            rhs.wf(),
        ensures
            ov3(r) == vm_sub(self@, rhs@),
            r matches Some(v) ==> v.wf() && v_eq(v@, v_sub(self@, rhs@)),
    {
        let x = match self.x.sub(&rhs.x) {
            Some(v) => v,
            None => return None,
        };
        let y = match self.y.sub(&rhs.y) {
            Some(v) => v,
            None => return None,
        };
        let z = match self.z.sub(&rhs.z) {
            Some(v) => v,
            None => return None,
        };
        Some(Vector3 { x, y, z })
    }

    /// In-place accumulation; on `None` the vector is left unchanged and
    /// `false` is returned.
    pub fn add_assign(&mut self, rhs: &Vector3) -> (ok: bool)
        requires
            old(self).wf(),
            rhs.wf(),
        ensures
            vm_add(old(self)@, rhs@) matches Some(m) ==> ok && final(self).wf() && final(self)@
                == m,
            vm_add(old(self)@, rhs@) is None ==> !ok && *final(self) == *old(self),
    {
        match self.add(rhs) {
            Some(v) => {
                *self = v;
                true
            },
            None => false,
        }
    }

    /// In-place subtraction; on `None` the vector is left unchanged.
    pub fn sub_assign(&mut self, rhs: &Vector3) -> (ok: bool)
        requires
            old(self).wf(),
            rhs.wf(),
        ensures
            vm_sub(old(self)@, rhs@) matches Some(m) ==> ok && final(self).wf() && final(self)@
                == m,
            vm_sub(old(self)@, rhs@) is None ==> !ok && *final(self) == *old(self),
    {
        match self.sub(rhs) {
            Some(v) => {
                *self = v;
                true
            },
            None => false,
        }
    }

    /// Scalar multiple, componentwise exact.
    pub fn stretched(&self, factor: &Rat) -> (r: Option<Vector3>)
        requires
            self.wf(),
            factor.wf(),
        ensures
            ov3(r) == vm_scale(self@, factor@),
            r matches Some(v) ==> v.wf() && v_eq(v@, v_scale(self@, factor@)),
    {
        let x = match self.x.mul(factor) {
            Some(v) => v,
            None => return None,
        };
        let y = match self.y.mul(factor) {
            Some(v) => v,
            None => return None,
        };
        let z = match self.z.mul(factor) {
            Some(v) => v,
            None => return None,
        };
        Some(Vector3 { x, y, z })
    }

    /// In-place scalar multiple; on `None` the vector is left unchanged.
    pub fn stretch(&mut self, factor: &Rat) -> (ok: bool)
        requires
            old(self).wf(),
            factor.wf(),
        ensures
            vm_scale(old(self)@, factor@) matches Some(m) ==> ok && final(self).wf()
                && final(self)@ == m,
            vm_scale(old(self)@, factor@) is None ==> !ok && *final(self) == *old(self),
    {
        match self.stretched(factor) {
            Some(v) => {
                *self = v;
                true
            },
            None => false,
        }
    }

    /// The standard dot product, exactly.
    pub fn dot_product(&self, other: &Vector3) -> (r: Option<Rat>)
        requires
            self.wf(),
            other.wf(),
        ensures
            ov(r) == vm_dot(self@, other@),
            r matches Some(v) ==> v.wf() && r_eq(v@, v_dot(self@, other@)),
    {
        let xm = match self.x.mul(&other.x) {
            Some(v) => v,
            None => return None,
        };
        let ym = match self.y.mul(&other.y) {
            Some(v) => v,
            None => return None,
        };
        let zm = match self.z.mul(&other.z) {
            Some(v) => v,
            None => return None,
        };
        let s1 = match xm.add(&ym) {
            Some(v) => v,
            None => return None,
        };
        let s2 = match s1.add(&zm) {
            Some(v) => v,
            None => return None,
        };
        proof {
            let mx = r_mul(self@.x, other@.x);
            let my = r_mul(self@.y, other@.y);
            let mz = r_mul(self@.z, other@.z);
            lemma_add_congr(xm@, mx, ym@, my);
            lemma_pos_mul(xm@.d, ym@.d);
            lemma_req_trans(s1@, r_add(xm@, ym@), r_add(mx, my));
            lemma_add_congr(s1@, r_add(mx, my), zm@, mz);
            lemma_pos_mul(s1@.d, zm@.d);
            lemma_req_trans(s2@, r_add(s1@, zm@), v_dot(self@, other@));
        }
        Some(s2)
    }

    /// The squared Euclidean length, exactly.
    pub fn length_sq(&self) -> (r: Option<Rat>)
        requires
            self.wf(),
        ensures
            ov(r) == vm_dot(self@, self@),
            r matches Some(v) ==> v.wf() && r_eq(v@, v_dot(self@, self@)),
    {
        self.dot_product(self)
    }

    /// The Euclidean length, where it is an exactly representable rational:
    /// `None` when the squared length is not a rational square (the length is
    /// irrational) or an intermediate value has no representable reduced form.
    pub fn length(&self) -> (r: Option<Rat>)
        requires
            self.wf(),
        ensures
            ov(r) == o_sqrt(vm_dot(self@, self@)),
            r matches Some(v) ==> v.wf() && v@.n >= 0 && r_eq(
                r_mul(v@, v@),
                v_dot(self@, self@),
            ),
            r is Some <==> (vm_dot(self@, self@) matches Some(l) && l.n >= 0 && is_square(
                l.n * l.d,
            )),
            r matches Some(v) ==> (vm_dot(self@, self@) matches Some(l) && (v@.n == 0 <==> l.n
                == 0)),
    {
        let lsq = match self.length_sq() {
            Some(v) => v,
            None => return None,
        };
        let r = lsq.sqrt();
        proof {
            match r {
                Some(v) => {
                    lemma_pos_mul(v@.d, v@.d);
                    lemma_req_trans(r_mul(v@, v@), lsq@, v_dot(self@, self@));
                    if v@.n != 0 {
                        lemma_nonzero_mul(v@.n, v@.n);
                        lemma_req_nonzero(r_mul(v@, v@), lsq@);
                    }
                    if lsq@.n != 0 {
                        lemma_req_nonzero(lsq@, r_mul(v@, v@));
                        assert(v@.n != 0) by (nonlinear_arith)
                            requires
                                v@.n * v@.n != 0,
                        ;
                    }
                },
                None => {},
            }
        }
        r
    }

    /// The normalized copy `self / |self|`, where the length is an exactly
    /// representable rational. `None` when the vector is zero (the degenerate
    /// division), when its length is irrational, or when an intermediate
    /// value has no representable reduced form; a unit vector is never
    /// returned in those cases, and one is owed in every other.
    pub fn get_unitvector(&self) -> (r: Option<Vector3>)
        requires
            self.wf(),
        ensures
            ov3(r) == vm_unit(self@),
            r matches Some(u) ==> u.wf() && (exists|l: Ratio|
                #![trigger r_mul(l, l)]
                l.d >= 1 && l.n > 0 && r_eq(r_mul(l, l), v_dot(self@, self@)) && v_eq(
                    u@,
                    v_scale(self@, r_div(r_one(), l)),
                )),
            r matches Some(u) ==> r_eq(v_dot(u@, u@), r_one()),
    {
        let l = match self.length() {
            Some(v) => v,
            None => return None,
        };
        let il = match l.recip() {
            Some(v) => v,
            None => return None,
        };
        let r = self.stretched(&il);
        proof {
            match r {
                Some(u) => {
                    let unit = v_scale(self@, r_div(r_one(), l@));
                    lemma_vscale_congr(self@, self@, il@, r_div(r_one(), l@));
                    lemma_vscale_dpos(self@, il@);
                    lemma_veq_trans(u@, v_scale(self@, il@), unit);
                    assert(l@.d >= 1 && l@.n > 0 && r_eq(r_mul(l@, l@), v_dot(self@, self@))
                        && v_eq(u@, unit));
                    // The result has unit length.
                    lemma_unit_length(self@, l@);
                    lemma_dot_congr(u@, unit, u@, unit);
                    lemma_vscale_dpos(self@, r_div(r_one(), l@));
                    lemma_vdot_dpos(unit, unit);
                    lemma_req_trans(v_dot(u@, u@), v_dot(unit, unit), r_one());
                },
                None => {},
            }
        }
        r
    }

    /// Normalize in place: exactly `get_unitvector`, stored back. Where that
    /// has no result the vector is left unchanged and `false` is returned.
    pub fn make_unitvector(&mut self) -> (ok: bool)
        requires
            old(self).wf(),
        ensures
            vm_unit(old(self)@) matches Some(m) ==> ok && final(self).wf() && final(self)@ == m,
            vm_unit(old(self)@) is None ==> !ok && *final(self) == *old(self),
            ok ==> final(self).wf() && (exists|l: Ratio|
                #![trigger r_mul(l, l)]
                l.d >= 1 && l.n > 0 && r_eq(r_mul(l, l), v_dot(old(self)@, old(self)@)) && v_eq(
                    final(self)@,
                    v_scale(old(self)@, r_div(r_one(), l)),
                )),
            ok ==> r_eq(v_dot(final(self)@, final(self)@), r_one()),
            !ok ==> *final(self) == *old(self),
    {
        match self.get_unitvector() {
            Some(v) => {
                *self = v;
                true
            },
            None => false,
        }
    }

    /// The right-handed cross product, componentwise exact.
    pub fn cross_product(&self, other: &Vector3) -> (r: Option<Vector3>)
        requires
            self.wf(),
            other.wf(),
        ensures
            ov3(r) == vm_cross(self@, other@),
            r matches Some(v) ==> v.wf() && v_eq(v@, v_cross(self@, other@)),
    {
        let yz = match self.y.mul(&other.z) {
            Some(v) => v,
            None => return None,
        };
        let zy = match self.z.mul(&other.y) {
            Some(v) => v,
            None => return None,
        };
        let zx = match self.z.mul(&other.x) {
            Some(v) => v,
            None => return None,
        };
        let xz = match self.x.mul(&other.z) {
            Some(v) => v,
            None => return None,
        };
        let xy = match self.x.mul(&other.y) {
            Some(v) => v,
            None => return None,
        };
        let yx = match self.y.mul(&other.x) {
            Some(v) => v,
            None => return None,
        };
        let cx = match yz.sub(&zy) {
            Some(v) => v,
            None => return None,
        };
        let cy = match zx.sub(&xz) {
            Some(v) => v,
            None => return None,
        };
        let cz = match xy.sub(&yx) {
            Some(v) => v,
            None => return None,
        };
        proof {
            let u = self@;
            let v = other@;
            lemma_sub_congr(yz@, r_mul(u.y, v.z), zy@, r_mul(u.z, v.y));
            lemma_pos_mul(yz@.d, zy@.d);
            lemma_req_trans(cx@, r_sub(yz@, zy@), v_cross(u, v).x);
            lemma_sub_congr(zx@, r_mul(u.z, v.x), xz@, r_mul(u.x, v.z));
            lemma_pos_mul(zx@.d, xz@.d);
            lemma_req_trans(cy@, r_sub(zx@, xz@), v_cross(u, v).y);
            lemma_sub_congr(xy@, r_mul(u.x, v.y), yx@, r_mul(u.y, v.x));
            lemma_pos_mul(xy@.d, yx@.d);
            lemma_req_trans(cz@, r_sub(xy@, yx@), v_cross(u, v).z);
        }
        Some(Vector3 { x: cx, y: cy, z: cz })
    }

    /// Componentwise reciprocal. `None` iff some component is zero (the
    /// degenerate case the floating-point formulation maps to infinities).
    pub fn inverse(&self) -> (r: Option<Vector3>)
        requires
            self.wf(),
        ensures
            r is Some <==> self@.x.n != 0 && self@.y.n != 0 && self@.z.n != 0,
            r matches Some(v) ==> v.wf() && r_eq(v@.x, r_div(r_one(), self@.x)) && r_eq(
                v@.y,
                r_div(r_one(), self@.y),
            ) && r_eq(v@.z, r_div(r_one(), self@.z)),
    {
        let x = match self.x.recip() {
            Some(v) => v,
            None => return None,
        };
        let y = match self.y.recip() {
            Some(v) => v,
            None => return None,
        };
        let z = match self.z.recip() {
            Some(v) => v,
            None => return None,
        };
        Some(Vector3 { x, y, z })
    }

    /// Componentwise negation; always exact.
    pub fn negate(&self) -> (r: Vector3)
        requires
            self.wf(),
        ensures
            r.wf(),
            r@ == v_neg(self@),
    {
        Vector3 { x: self.x.neg(), y: self.y.neg(), z: self.z.neg() }
    }
}

impl PartialEq for Vector3 {
    /// Componentwise equality of the rational values.
    fn eq(&self, other: &Vector3) -> (r: bool) {
        self.x == other.x && self.y == other.y && self.z == other.z
    }
}

impl vstd::std_specs::cmp::PartialEqSpecImpl for Vector3 {
    open spec fn obeys_eq_spec() -> bool {
        true
    }

    open spec fn eq_spec(&self, other: &Vector3) -> bool {
        v_eq(self@, other@)
    }
}

/// `v_eq` is transitive through a vector with positive denominators.
pub proof fn lemma_veq_trans(u: Vec3r, v: Vec3r, w: Vec3r)
    requires
        v_eq(u, v),
        v_eq(v, w),
        v_dpos(v),
    ensures
        v_eq(u, w),
{
    lemma_req_trans(u.x, v.x, w.x);
    lemma_req_trans(u.y, v.y, w.y);
    lemma_req_trans(u.z, v.z, w.z);
}

pub proof fn lemma_vadd_congr(u: Vec3r, u2: Vec3r, v: Vec3r, v2: Vec3r)
    requires
        v_eq(u, u2),
        v_eq(v, v2),
    ensures
        v_eq(v_add(u, v), v_add(u2, v2)),
{
    lemma_add_congr(u.x, u2.x, v.x, v2.x);
    lemma_add_congr(u.y, u2.y, v.y, v2.y);
    lemma_add_congr(u.z, u2.z, v.z, v2.z);
}

pub proof fn lemma_vsub_congr(u: Vec3r, u2: Vec3r, v: Vec3r, v2: Vec3r)
    requires
        v_eq(u, u2),
        v_eq(v, v2),
    ensures
        v_eq(v_sub(u, v), v_sub(u2, v2)),
{
    lemma_sub_congr(u.x, u2.x, v.x, v2.x);
    lemma_sub_congr(u.y, u2.y, v.y, v2.y);
    lemma_sub_congr(u.z, u2.z, v.z, v2.z);
}

pub proof fn lemma_vscale_congr(u: Vec3r, u2: Vec3r, t: Ratio, t2: Ratio)
    requires
        v_eq(u, u2),
        r_eq(t, t2),
    ensures
        v_eq(v_scale(u, t), v_scale(u2, t2)),
{
    crate::rat::lemma_mul_congr(u.x, u2.x, t, t2);
    crate::rat::lemma_mul_congr(u.y, u2.y, t, t2);
    crate::rat::lemma_mul_congr(u.z, u2.z, t, t2);
}

pub proof fn lemma_dot_congr(u: Vec3r, u2: Vec3r, v: Vec3r, v2: Vec3r)
    requires
        v_eq(u, u2),
        v_eq(v, v2),
    ensures
        r_eq(v_dot(u, v), v_dot(u2, v2)),
{
    crate::rat::lemma_mul_congr(u.x, u2.x, v.x, v2.x);
    crate::rat::lemma_mul_congr(u.y, u2.y, v.y, v2.y);
    crate::rat::lemma_mul_congr(u.z, u2.z, v.z, v2.z);
    lemma_add_congr(r_mul(u.x, v.x), r_mul(u2.x, v2.x), r_mul(u.y, v.y), r_mul(u2.y, v2.y));
    lemma_add_congr(
        r_add(r_mul(u.x, v.x), r_mul(u.y, v.y)),
        r_add(r_mul(u2.x, v2.x), r_mul(u2.y, v2.y)),
        r_mul(u.z, v.z),
        r_mul(u2.z, v2.z),
    );
}

pub proof fn lemma_cross_congr(u: Vec3r, u2: Vec3r, v: Vec3r, v2: Vec3r)
    requires
        v_eq(u, u2),
        v_eq(v, v2),
    ensures
        v_eq(v_cross(u, v), v_cross(u2, v2)),
{
    crate::rat::lemma_mul_congr(u.y, u2.y, v.z, v2.z);
    crate::rat::lemma_mul_congr(u.z, u2.z, v.y, v2.y);
    crate::rat::lemma_mul_congr(u.z, u2.z, v.x, v2.x);
    crate::rat::lemma_mul_congr(u.x, u2.x, v.z, v2.z);
    crate::rat::lemma_mul_congr(u.x, u2.x, v.y, v2.y);
    crate::rat::lemma_mul_congr(u.y, u2.y, v.x, v2.x);
    lemma_sub_congr(r_mul(u.y, v.z), r_mul(u2.y, v2.z), r_mul(u.z, v.y), r_mul(u2.z, v2.y));
    lemma_sub_congr(r_mul(u.z, v.x), r_mul(u2.z, v2.x), r_mul(u.x, v.z), r_mul(u2.x, v2.z));
    lemma_sub_congr(r_mul(u.x, v.y), r_mul(u2.x, v2.y), r_mul(u.y, v.x), r_mul(u2.y, v2.x));
}

pub proof fn lemma_vsub_dpos(u: Vec3r, v: Vec3r)
    requires
        v_dpos(u),
        v_dpos(v),
    ensures
        v_dpos(v_sub(u, v)),
        v_dpos(v_add(u, v)),
{
    lemma_pos_mul(u.x.d, v.x.d);
    lemma_pos_mul(u.y.d, v.y.d);
    lemma_pos_mul(u.z.d, v.z.d);
}

pub proof fn lemma_vscale_dpos(u: Vec3r, t: Ratio)
    requires
        v_dpos(u),
        t.d >= 1,
    ensures
        v_dpos(v_scale(u, t)),
{
    lemma_pos_mul(u.x.d, t.d);
    lemma_pos_mul(u.y.d, t.d);
    lemma_pos_mul(u.z.d, t.d);
}

pub proof fn lemma_vcross_dpos(u: Vec3r, v: Vec3r)
    requires
        v_dpos(u),
        v_dpos(v),
    ensures
        v_dpos(v_cross(u, v)),
{
    lemma_pos_mul(u.y.d, v.z.d);
    lemma_pos_mul(u.z.d, v.y.d);
    lemma_pos_mul(u.z.d, v.x.d);
    lemma_pos_mul(u.x.d, v.z.d);
    lemma_pos_mul(u.x.d, v.y.d);
    lemma_pos_mul(u.y.d, v.x.d);
    lemma_pos_mul(u.y.d * v.z.d, u.z.d * v.y.d);
    lemma_pos_mul(u.z.d * v.x.d, u.x.d * v.z.d);
    lemma_pos_mul(u.x.d * v.y.d, u.y.d * v.x.d);
}

pub proof fn lemma_vdot_dpos(u: Vec3r, v: Vec3r)
    requires
        v_dpos(u),
        v_dpos(v),
    ensures
        v_dot(u, v).d >= 1,
{
    lemma_pos_mul(u.x.d, v.x.d);
    lemma_pos_mul(u.y.d, v.y.d);
    lemma_pos_mul(u.z.d, v.z.d);
    lemma_pos_mul(u.x.d * v.x.d, u.y.d * v.y.d);
    lemma_pos_mul((u.x.d * v.x.d) * (u.y.d * v.y.d), u.z.d * v.z.d);
}

/// A squared length is nonnegative: the numerator of `u . u` is a sum of
/// products of squares and positive denominators.
pub proof fn lemma_dot_self_nonneg(u: Vec3r)
    requires
        v_dpos(u),
    ensures
        v_dot(u, u).n >= 0,
{
    crate::rat::lemma_square_nonneg(u.x.n);
    crate::rat::lemma_square_nonneg(u.y.n);
    crate::rat::lemma_square_nonneg(u.z.n);
    lemma_pos_mul(u.x.d, u.x.d);
    lemma_pos_mul(u.y.d, u.y.d);
    lemma_pos_mul(u.z.d, u.z.d);
    let mx = r_mul(u.x, u.x);
    let my = r_mul(u.y, u.y);
    let mz = r_mul(u.z, u.z);
    lemma_nonneg_mul(mx.n, my.d);
    lemma_nonneg_mul(my.n, mx.d);
    let s = r_add(mx, my);
    lemma_pos_mul(mx.d, my.d);
    lemma_nonneg_mul(s.n, mz.d);
    lemma_nonneg_mul(mz.n, s.d);
}

/// A vector scaled by `t` twice inside a dot product is the dot product
/// scaled by `t * t`: `(t*u) . (t*u) ~ (t*t) * (u . u)`.
proof fn lemma_scale_dot(u: Vec3r, t: Ratio)
    requires
        v_dpos(u),
        t.d >= 1,
    ensures
        r_eq(v_dot(v_scale(u, t), v_scale(u, t)), r_mul(r_mul(t, t), v_dot(u, u))),
{
    lemma_scale_sq_comp(u.x, t);
    lemma_scale_sq_comp(u.y, t);
    lemma_scale_sq_comp(u.z, t);
    let s = r_mul(t, t);
    let mx = r_mul(u.x, u.x);
    let my = r_mul(u.y, u.y);
    let mz = r_mul(u.z, u.z);
    crate::rat::lemma_mul_distrib(s, mx, my);
    crate::rat::lemma_mul_distrib(s, r_add(mx, my), mz);
    lemma_add_congr(
        r_add(r_mul(s, mx), r_mul(s, my)),
        r_mul(s, r_add(mx, my)),
        r_mul(s, mz),
        r_mul(s, mz),
    );
    lemma_pos_mul(t.d, t.d);
    lemma_pos_mul(u.x.d, u.x.d);
    lemma_pos_mul(u.y.d, u.y.d);
    lemma_pos_mul(u.z.d, u.z.d);
    lemma_pos_mul(mx.d, my.d);
    lemma_pos_mul(s.d, r_add(mx, my).d);
    lemma_pos_mul(s.d, mz.d);
    lemma_pos_mul(r_mul(s, r_add(mx, my)).d, r_mul(s, mz).d);
    lemma_req_trans(
        v_dot(v_scale(u, t), v_scale(u, t)),
        r_add(r_mul(s, r_add(mx, my)), r_mul(s, mz)),
        r_mul(s, v_dot(u, u)),
    );
}

/// One squared component of a scaled vector, regrouped:
/// `(c*t)*(c*t) == (t*t)*(c*c)`.
proof fn lemma_scale_sq_comp(c: Ratio, t: Ratio)
    ensures
        r_mul(r_mul(c, t), r_mul(c, t)) == r_mul(r_mul(t, t), r_mul(c, c)),
{
    crate::rat::lemma_mul_rearrange(c.n, t.n, c.n, t.n);
    crate::rat::lemma_mul_rearrange(c.d, t.d, c.d, t.d);
    vstd::arithmetic::mul::lemma_mul_is_commutative(c.n * c.n, t.n * t.n);
    vstd::arithmetic::mul::lemma_mul_is_commutative(c.d * c.d, t.d * t.d);
}

/// Normalizing a nonzero vector yields a vector of unit length: the squared
/// length of `u / l` is one whenever `l * l` equals `u . u`.
pub proof fn lemma_unit_length(u: Vec3r, l: Ratio)
    requires
        v_dpos(u),
        l.d >= 1,
        l.n > 0,
        r_eq(r_mul(l, l), v_dot(u, u)),
    ensures
        r_eq(
            v_dot(v_scale(u, r_div(r_one(), l)), v_scale(u, r_div(r_one(), l))),
            r_one(),
        ),
{
    let t = r_div(r_one(), l);
    lemma_scale_dot(u, t);
    let dd = v_dot(u, u);
    lemma_vdot_dpos(u, u);
    assert(((t.n * t.n) * dd.n) * 1 == 1 * ((t.d * t.d) * dd.d)) by (nonlinear_arith)
        requires
            t.n == 1 * l.d,
            t.d == 1 * l.n,
            (l.n * l.n) * dd.d == dd.n * (l.d * l.d),
            l.n >= 1,
            l.d >= 1,
            dd.d >= 1,
    ;
    crate::rat::lemma_nonzero_mul(t.d, t.d);
    crate::rat::lemma_nonzero_mul(t.d * t.d, dd.d);
    lemma_req_trans(
        v_dot(v_scale(u, t), v_scale(u, t)),
        r_mul(r_mul(t, t), dd),
        r_one(),
    );
}

/// Normalizing an already-unit vector leaves it unchanged (as a rational
/// value): when `u . u ~ 1` and `l` is its positive square root, `u / l ~ u`.
pub proof fn lemma_unit_normalize_id(u: Vec3r, l: Ratio)
    requires
        v_dpos(u),
        l.d >= 1,
        l.n > 0,
        r_eq(r_mul(l, l), v_dot(u, u)),
        r_eq(v_dot(u, u), r_one()),
    ensures
        v_eq(v_scale(u, r_div(r_one(), l)), u),
{
    lemma_vdot_dpos(u, u);
    lemma_req_trans(r_mul(l, l), v_dot(u, u), r_one());
    assert(l.n == l.d) by (nonlinear_arith)
        requires
            (l.n * l.n) * 1 == 1 * (l.d * l.d),
            l.n >= 1,
            l.d >= 1,
    ;
    lemma_unit_scale_comp(u.x, l);
    lemma_unit_scale_comp(u.y, l);
    lemma_unit_scale_comp(u.z, l);
}

/// Scaling a component by `1 / l` with `l.n == l.d` keeps its value.
pub proof fn lemma_unit_scale_comp(c: Ratio, l: Ratio)
    requires
        l.n == l.d,
    ensures
        r_eq(r_mul(c, r_div(r_one(), l)), c),
{
    assert((c.n * (1 * l.d)) * c.d == c.n * (c.d * (1 * l.n))) by (nonlinear_arith)
        requires
            l.n == l.d,
    ;
}

/// The dot product is symmetric: `u . v == v . u`.
pub proof fn lemma_dot_comm(u: Vec3r, v: Vec3r)
    ensures
        v_dot(u, v) == v_dot(v, u),
{
    vstd::arithmetic::mul::lemma_mul_is_commutative(u.x.n, v.x.n);
    vstd::arithmetic::mul::lemma_mul_is_commutative(u.x.d, v.x.d);
    vstd::arithmetic::mul::lemma_mul_is_commutative(u.y.n, v.y.n);
    vstd::arithmetic::mul::lemma_mul_is_commutative(u.y.d, v.y.d);
    vstd::arithmetic::mul::lemma_mul_is_commutative(u.z.n, v.z.n);
    vstd::arithmetic::mul::lemma_mul_is_commutative(u.z.d, v.z.d);
}

/// The cross product is antisymmetric: `u x v == -(v x u)`.
pub proof fn lemma_cross_antisym(u: Vec3r, v: Vec3r)
    ensures
        v_eq(v_cross(u, v), v_neg(v_cross(v, u))),
{
    lemma_cross_antisym_comp(u.y, u.z, v.y, v.z);
    lemma_cross_antisym_comp(u.z, u.x, v.z, v.x);
    lemma_cross_antisym_comp(u.x, u.y, v.x, v.y);
}

/// One component of the antisymmetry: `p*s' - q*s` against the negated swap.
proof fn lemma_cross_antisym_comp(p: Ratio, q: Ratio, s: Ratio, t: Ratio)
    ensures
        r_eq(r_sub(r_mul(p, t), r_mul(q, s)), r_neg(r_sub(r_mul(s, q), r_mul(t, p)))),
{
    vstd::arithmetic::mul::lemma_mul_is_commutative(p.n, t.n);
    vstd::arithmetic::mul::lemma_mul_is_commutative(q.d, s.d);
    vstd::arithmetic::mul::lemma_mul_is_commutative(q.n, s.n);
    vstd::arithmetic::mul::lemma_mul_is_commutative(p.d, t.d);
    vstd::arithmetic::mul::lemma_mul_is_commutative(p.d * t.d, q.d * s.d);
}

} // verus!
