//! Quaternions `a + b*i + c*j + d*k`, with exact Hamilton product and the
//! sandwich-product point rotation.

use vstd::prelude::*;
use crate::rat::{lemma_pos_mul, lemma_req_trans, lemma_step_add, lemma_step_mul, lemma_step_sub, m_mul, m_recip, o_add, o_sqrt, o_sub, ov, r_add, r_div, r_eq, r_mul, r_one, r_sub, r_zero, Rat, Ratio};
use crate::vec3::{
    lemma_veq_trans, lemma_vscale_congr, lemma_vscale_dpos, v_dpos, v_eq, v_neg, v_scale, Vec3r,
    Vector3,
};
use crate::point::Point;

verus! {

/// Mathematical model of a quaternion: scalar part `a` and imaginary part
/// `cplx = (b, c, d)`.
pub ghost struct Quatr {
    pub a: Ratio,
    pub cplx: Vec3r,
}

pub open spec fn q_eq(p: Quatr, q: Quatr) -> bool {
    &&& r_eq(p.a, q.a)
    &&& v_eq(p.cplx, q.cplx)
}

pub open spec fn q_dpos(p: Quatr) -> bool {
    &&& p.a.d >= 1
    &&& v_dpos(p.cplx)
}

pub open spec fn q_add(p: Quatr, q: Quatr) -> Quatr {
    Quatr { a: r_add(p.a, q.a), cplx: crate::vec3::v_add(p.cplx, q.cplx) }
}

pub open spec fn q_sub(p: Quatr, q: Quatr) -> Quatr {
    Quatr { a: r_sub(p.a, q.a), cplx: crate::vec3::v_sub(p.cplx, q.cplx) }
}

/// The Hamilton product, with each component associated exactly as the
/// executable code accumulates it.
pub open spec fn q_mul(p: Quatr, q: Quatr) -> Quatr {
    let a1 = p.a;
    let b1 = p.cplx.x;
    let c1 = p.cplx.y;
    let d1 = p.cplx.z;
    let a2 = q.a;
    let b2 = q.cplx.x;
    let c2 = q.cplx.y;
    let d2 = q.cplx.z;
    Quatr {
        a: r_sub(r_sub(r_sub(r_mul(a1, a2), r_mul(b1, b2)), r_mul(c1, c2)), r_mul(d1, d2)),
        cplx: Vec3r {
            x: r_sub(r_add(r_add(r_mul(a1, b2), r_mul(b1, a2)), r_mul(c1, d2)), r_mul(d1, c2)),
            y: r_add(r_add(r_sub(r_mul(a1, c2), r_mul(b1, d2)), r_mul(c1, a2)), r_mul(d1, b2)),
            z: r_add(r_sub(r_add(r_mul(a1, d2), r_mul(b1, c2)), r_mul(c1, b2)), r_mul(d1, a2)),
        },
    }
}

/// The standard conjugate: the imaginary part negated.
pub open spec fn q_conj(p: Quatr) -> Quatr {
    Quatr { a: p.a, cplx: v_neg(p.cplx) }
}

/// The squared 4-component Euclidean norm.
pub open spec fn q_norm_sq(p: Quatr) -> Ratio {
    r_add(
        r_add(r_add(r_mul(p.a, p.a), r_mul(p.cplx.x, p.cplx.x)), r_mul(p.cplx.y, p.cplx.y)),
        r_mul(p.cplx.z, p.cplx.z),
    )
}

/// A point embedded as a pure quaternion.
pub open spec fn q_pure(p: Vec3r) -> Quatr {
    Quatr { a: r_zero(), cplx: p }
}

/// The rotation of `p` by the quaternion `q`: the imaginary part of
/// `q * (0, p) * conj(q)`, scaled by `1 / |q|^2`. For a unit quaternion this
/// is the standard sandwich product; normalizing `q` first gives the same
/// value, since the sandwich is quadratic in `q`.
pub open spec fn q_rotate(q: Quatr, p: Vec3r) -> Vec3r {
    v_scale(q_mul(q_mul(q, q_pure(p)), q_conj(q)).cplx, r_div(r_one(), q_norm_sq(q)))
}

/// Exact outcome of the componentwise sum.
pub open spec fn qm_add(p: Quatr, q: Quatr) -> Option<Quatr> {
    match (crate::rat::m_add(p.a, q.a), crate::vec3::vm_add(p.cplx, q.cplx)) {
        (Some(a), Some(cplx)) => Some(Quatr { a, cplx }),
        _ => None,
    }
}

/// Exact outcome of the componentwise difference.
pub open spec fn qm_sub(p: Quatr, q: Quatr) -> Option<Quatr> {
    match (crate::rat::m_sub(p.a, q.a), crate::vec3::vm_sub(p.cplx, q.cplx)) {
        (Some(a), Some(cplx)) => Some(Quatr { a, cplx }),
        _ => None,
    }
}

/// Exact outcome of the scalar component of the Hamilton product, as it is
/// accumulated: `a1*a2 - b1*b2 - c1*c2 - d1*d2`.
pub open spec fn qm_comp_a(p: Quatr, q: Quatr) -> Option<Ratio> {
    o_sub(
        o_sub(o_sub(m_mul(p.a, q.a), m_mul(p.cplx.x, q.cplx.x)), m_mul(p.cplx.y, q.cplx.y)),
        m_mul(p.cplx.z, q.cplx.z),
    )
}

/// Exact outcome of the first imaginary component:
/// `a1*b2 + b1*a2 + c1*d2 - d1*c2`.
pub open spec fn qm_comp_x(p: Quatr, q: Quatr) -> Option<Ratio> {
    o_sub(
        o_add(o_add(m_mul(p.a, q.cplx.x), m_mul(p.cplx.x, q.a)), m_mul(p.cplx.y, q.cplx.z)),
        m_mul(p.cplx.z, q.cplx.y),
    )
}

/// Exact outcome of the second imaginary component:
/// `a1*c2 - b1*d2 + c1*a2 + d1*b2`.
pub open spec fn qm_comp_y(p: Quatr, q: Quatr) -> Option<Ratio> {
    o_add(
        o_add(o_sub(m_mul(p.a, q.cplx.y), m_mul(p.cplx.x, q.cplx.z)), m_mul(p.cplx.y, q.a)),
        m_mul(p.cplx.z, q.cplx.x),
    )
}

/// Exact outcome of the third imaginary component:
/// `a1*d2 + b1*c2 - c1*b2 + d1*a2`.
pub open spec fn qm_comp_z(p: Quatr, q: Quatr) -> Option<Ratio> {
    o_add(
        o_sub(o_add(m_mul(p.a, q.cplx.z), m_mul(p.cplx.x, q.cplx.y)), m_mul(p.cplx.y, q.cplx.x)),
        m_mul(p.cplx.z, q.a),
    )
}

/// Exact outcome of the Hamilton product.
pub open spec fn qm_mul(p: Quatr, q: Quatr) -> Option<Quatr> {
    match (qm_comp_a(p, q), qm_comp_x(p, q), qm_comp_y(p, q), qm_comp_z(p, q)) {
        (Some(a), Some(x), Some(y), Some(z)) => Some(Quatr { a, cplx: Vec3r { x, y, z } }),
        _ => None,
    }
}

/// Exact outcome of the squared 4-component norm, as it is accumulated.
pub open spec fn qm_norm(q: Quatr) -> Option<Ratio> {
    o_add(
        o_add(o_add(m_mul(q.a, q.a), m_mul(q.cplx.x, q.cplx.x)), m_mul(q.cplx.y, q.cplx.y)),
        m_mul(q.cplx.z, q.cplx.z),
    )
}

/// Exact outcome of normalizing: the rational norm, its reciprocal, and all
/// four components scaled by it.
pub open spec fn qm_unit(q: Quatr) -> Option<Quatr> {
    match o_sqrt(qm_norm(q)) {
        Some(l) => match m_recip(l) {
            Some(il) => match (m_mul(q.a, il), crate::vec3::vm_scale(q.cplx, il)) {
                (Some(a), Some(cplx)) => Some(Quatr { a, cplx }),
                _ => None,
            },
            None => None,
        },
        None => None,
    }
}

/// Exact outcome of the rotation: the two Hamilton products, the squared
/// norm, its reciprocal, and the scaled imaginary part. A result is owed
/// whenever every step is representable and the quaternion is nonzero.
pub open spec fn qm_rotate(q: Quatr, p: Vec3r) -> Option<Vec3r> {
    match qm_mul(q, q_pure(p)) {
        Some(t1) => match qm_mul(t1, q_conj(q)) {
            Some(t2) => match qm_norm(q) {
                Some(ns) => match m_recip(ns) {
                    Some(il) => crate::vec3::vm_scale(t2.cplx, il),
                    None => None,
                },
                None => None,
            },
            None => None,
        },
        None => None,
    }
}

/// A quaternion with exact rational components. Nothing requires it to be of
/// unit norm; `rotate` normalizes on the fly by dividing by the squared norm.
#[derive(Clone, Copy, Debug)]
pub struct Quat {
    pub a: Rat,
    pub cplx: Vector3,
}

impl View for Quat {
    type V = Quatr;

    open spec fn view(&self) -> Quatr {
        Quatr { a: self.a@, cplx: self.cplx@ }
    }
}

/// The view of an optional quaternion, for contracts over fallible steps.
pub open spec fn oq(r: Option<Quat>) -> Option<Quatr> {
    match r {
        Some(v) => Some(v@),
        None => None,
    }
}

impl Quat {
    pub open spec fn wf(self) -> bool {
        &&& self.a.wf()
        &&& self.cplx.wf()
    }

    pub fn new(a: Rat, cplx: Vector3) -> (r: Quat)
        requires
            a.wf(),
            cplx.wf(),
        ensures
            r.wf(),
            r@ == (Quatr { a: a@, cplx: cplx@ }),
    {
        Quat { a, cplx }
    }

    /// Componentwise exact sum.
    pub fn add(&self, rhs: &Quat) -> (r: Option<Quat>)
        requires
            self.wf(),
            rhs.wf(),
        ensures
            oq(r) == qm_add(self@, rhs@),
            r matches Some(v) ==> v.wf() && q_eq(v@, q_add(self@, rhs@)),
    {
        let a = match self.a.add(&rhs.a) {
            Some(v) => v,
            None => return None,
        };
        let cplx = match self.cplx.add(&rhs.cplx) {
            Some(v) => v,
            None => return None,
        };
        Some(Quat { a, cplx })
    }

    /// Componentwise exact difference.
    pub fn sub(&self, rhs: &Quat) -> (r: Option<Quat>)
        requires
            self.wf(),
            rhs.wf(),
        ensures
            oq(r) == qm_sub(self@, rhs@),
            r matches Some(v) ==> v.wf() && q_eq(v@, q_sub(self@, rhs@)),
    {
        let a = match self.a.sub(&rhs.a) {
            Some(v) => v,
            None => return None,
        };
        let cplx = match self.cplx.sub(&rhs.cplx) {
            Some(v) => v,
            None => return None,
        };
        Some(Quat { a, cplx })
    }

    /// In-place accumulation; on `None` the quaternion is left unchanged.
    pub fn add_assign(&mut self, rhs: &Quat) -> (ok: bool)
        requires
            old(self).wf(),
            rhs.wf(),
        ensures
            qm_add(old(self)@, rhs@) matches Some(m) ==> ok && final(self).wf() && final(self)@
                == m,
            qm_add(old(self)@, rhs@) is None ==> !ok && *final(self) == *old(self),
            ok ==> final(self).wf() && q_eq(final(self)@, q_add(old(self)@, rhs@)),
            !ok ==> *final(self) == *old(self),
    {
        match self.add(rhs) {
            Some(v) => {
                *self = v;
                true
            },
            None => false,
        }
    }

    /// In-place subtraction; on `None` the quaternion is left unchanged.
    pub fn sub_assign(&mut self, rhs: &Quat) -> (ok: bool)
        requires
            old(self).wf(),
            rhs.wf(),
        ensures
            qm_sub(old(self)@, rhs@) matches Some(m) ==> ok && final(self).wf() && final(self)@
                == m,
            qm_sub(old(self)@, rhs@) is None ==> !ok && *final(self) == *old(self),
            ok ==> final(self).wf() && q_eq(final(self)@, q_sub(old(self)@, rhs@)),
            !ok ==> *final(self) == *old(self),
    {
        match self.sub(rhs) {
            Some(v) => {
                *self = v;
                true
            },
            None => false,
        }
    }

    /// The exact Hamilton product.
    pub fn mul(&self, rhs: &Quat) -> (r: Option<Quat>)
        requires
            self.wf(),
            rhs.wf(),
        ensures
            oq(r) == qm_mul(self@, rhs@),
            r matches Some(v) ==> v.wf() && q_eq(v@, q_mul(self@, rhs@)),
    {
        let a1 = self.a;
        let b1 = self.cplx.x;
        let c1 = self.cplx.y;
        let d1 = self.cplx.z;
        let a2 = rhs.a;
        let b2 = rhs.cplx.x;
        let c2 = rhs.cplx.y;
        let d2 = rhs.cplx.z;
        let ra = match Self::comp_a(&a1, &b1, &c1, &d1, &a2, &b2, &c2, &d2) {
            Some(v) => v,
            None => return None,
        };
        let rx = match Self::comp_x(&a1, &b1, &c1, &d1, &a2, &b2, &c2, &d2) {
            Some(v) => v,
            None => return None,
        };
        let ry = match Self::comp_y(&a1, &b1, &c1, &d1, &a2, &b2, &c2, &d2) {
            Some(v) => v,
            None => return None,
        };
        let rz = match Self::comp_z(&a1, &b1, &c1, &d1, &a2, &b2, &c2, &d2) {
            Some(v) => v,
            None => return None,
        };
        Some(Quat { a: ra, cplx: Vector3 { x: rx, y: ry, z: rz } })
    }

    /// Scalar component of the Hamilton product:
    /// `a1*a2 - b1*b2 - c1*c2 - d1*d2`.
    fn comp_a(a1: &Rat, b1: &Rat, c1: &Rat, d1: &Rat, a2: &Rat, b2: &Rat, c2: &Rat, d2: &Rat) -> (r:
        Option<Rat>)
        requires
            a1.wf(),
            b1.wf(),
            c1.wf(),
            d1.wf(),
            a2.wf(),
            b2.wf(),
            c2.wf(),
            d2.wf(),
        ensures
            ov(r) == o_sub(
                o_sub(o_sub(m_mul(a1@, a2@), m_mul(b1@, b2@)), m_mul(c1@, c2@)),
                m_mul(d1@, d2@),
            ),
            r matches Some(v) ==> v.wf() && r_eq(
                v@,
                r_sub(
                    r_sub(r_sub(r_mul(a1@, a2@), r_mul(b1@, b2@)), r_mul(c1@, c2@)),
                    r_mul(d1@, d2@),
                ),
            ),
    {
        let t1 = match a1.mul(a2) {
            Some(v) => v,
            None => return None,
        };
        let t2 = match b1.mul(b2) {
            Some(v) => v,
            None => return None,
        };
        let t3 = match c1.mul(c2) {
            Some(v) => v,
            None => return None,
        };
        let t4 = match d1.mul(d2) {
            Some(v) => v,
            None => return None,
        };
        let s1 = match t1.sub(&t2) {
            Some(v) => v,
            None => return None,
        };
        let s2 = match s1.sub(&t3) {
            Some(v) => v,
            None => return None,
        };
        let s3 = match s2.sub(&t4) {
            Some(v) => v,
            None => return None,
        };
        proof {
            let m1 = r_mul(a1@, a2@);
            let m2 = r_mul(b1@, b2@);
            let m3 = r_mul(c1@, c2@);
            let m4 = r_mul(d1@, d2@);
            lemma_step_sub(s1@, t1@, m1, t2@, m2);
            lemma_step_sub(s2@, s1@, r_sub(m1, m2), t3@, m3);
            lemma_step_sub(s3@, s2@, r_sub(r_sub(m1, m2), m3), t4@, m4);
        }
        Some(s3)
    }

    /// First imaginary component: `a1*b2 + b1*a2 + c1*d2 - d1*c2`.
    fn comp_x(a1: &Rat, b1: &Rat, c1: &Rat, d1: &Rat, a2: &Rat, b2: &Rat, c2: &Rat, d2: &Rat) -> (r:
        Option<Rat>)
        requires
            a1.wf(),
            b1.wf(),
            c1.wf(),
            d1.wf(),
            a2.wf(),
            b2.wf(),
            c2.wf(),
            d2.wf(),
        ensures
            ov(r) == o_sub(
                o_add(o_add(m_mul(a1@, b2@), m_mul(b1@, a2@)), m_mul(c1@, d2@)),
                m_mul(d1@, c2@),
            ),
            r matches Some(v) ==> v.wf() && r_eq(
                v@,
                r_sub(
                    r_add(r_add(r_mul(a1@, b2@), r_mul(b1@, a2@)), r_mul(c1@, d2@)),
                    r_mul(d1@, c2@),
                ),
            ),
    {
        let t1 = match a1.mul(b2) {
            Some(v) => v,
            None => return None,
        };
        let t2 = match b1.mul(a2) {
            Some(v) => v,
            None => return None,
        };
        let t3 = match c1.mul(d2) {
            Some(v) => v,
            None => return None,
        };
        let t4 = match d1.mul(c2) {
            Some(v) => v,
            None => return None,
        };
        let s1 = match t1.add(&t2) {
            Some(v) => v,
            None => return None,
        };
        let s2 = match s1.add(&t3) {
            Some(v) => v,
            None => return None,
        };
        let s3 = match s2.sub(&t4) {
            Some(v) => v,
            None => return None,
        };
        proof {
            let m1 = r_mul(a1@, b2@);
            let m2 = r_mul(b1@, a2@);
            let m3 = r_mul(c1@, d2@);
            let m4 = r_mul(d1@, c2@);
            lemma_step_add(s1@, t1@, m1, t2@, m2);
            lemma_step_add(s2@, s1@, r_add(m1, m2), t3@, m3);
            lemma_step_sub(s3@, s2@, r_add(r_add(m1, m2), m3), t4@, m4);
        }
        Some(s3)
    }

    /// Second imaginary component: `a1*c2 - b1*d2 + c1*a2 + d1*b2`.
    fn comp_y(a1: &Rat, b1: &Rat, c1: &Rat, d1: &Rat, a2: &Rat, b2: &Rat, c2: &Rat, d2: &Rat) -> (r:
        Option<Rat>)
        requires
            a1.wf(),
            b1.wf(),
            c1.wf(),
            d1.wf(),
            a2.wf(),
            b2.wf(),
            c2.wf(),
            d2.wf(),
        ensures
            ov(r) == o_add(
                o_add(o_sub(m_mul(a1@, c2@), m_mul(b1@, d2@)), m_mul(c1@, a2@)),
                m_mul(d1@, b2@),
            ),
            r matches Some(v) ==> v.wf() && r_eq(
                v@,
                r_add(
                    r_add(r_sub(r_mul(a1@, c2@), r_mul(b1@, d2@)), r_mul(c1@, a2@)),
                    r_mul(d1@, b2@),
                ),
            ),
    {
        let t1 = match a1.mul(c2) {
            Some(v) => v,
            None => return None,
        };
        let t2 = match b1.mul(d2) {
            Some(v) => v,
            None => return None,
        };
        let t3 = match c1.mul(a2) {
            Some(v) => v,
            None => return None,
        };
        let t4 = match d1.mul(b2) {
            Some(v) => v,
            None => return None,
        };
        let s1 = match t1.sub(&t2) {
            Some(v) => v,
            None => return None,
        };
        let s2 = match s1.add(&t3) {
            Some(v) => v,
            None => return None,
        };
        let s3 = match s2.add(&t4) {
            Some(v) => v,
            None => return None,
        };
        proof {
            let m1 = r_mul(a1@, c2@);
            let m2 = r_mul(b1@, d2@);
            let m3 = r_mul(c1@, a2@);
            let m4 = r_mul(d1@, b2@);
            lemma_step_sub(s1@, t1@, m1, t2@, m2);
            lemma_step_add(s2@, s1@, r_sub(m1, m2), t3@, m3);
            lemma_step_add(s3@, s2@, r_add(r_sub(m1, m2), m3), t4@, m4);
        }
        Some(s3)
    }

    /// Third imaginary component: `a1*d2 + b1*c2 - c1*b2 + d1*a2`.
    fn comp_z(a1: &Rat, b1: &Rat, c1: &Rat, d1: &Rat, a2: &Rat, b2: &Rat, c2: &Rat, d2: &Rat) -> (r:
        Option<Rat>)
        requires
            a1.wf(),
            b1.wf(),
            c1.wf(),
            d1.wf(),
            a2.wf(),
            b2.wf(),
            c2.wf(),
            d2.wf(),
        ensures
            ov(r) == o_add(
                o_sub(o_add(m_mul(a1@, d2@), m_mul(b1@, c2@)), m_mul(c1@, b2@)),
                m_mul(d1@, a2@),
            ),
            r matches Some(v) ==> v.wf() && r_eq(
                v@,
                r_add(
                    r_sub(r_add(r_mul(a1@, d2@), r_mul(b1@, c2@)), r_mul(c1@, b2@)),
                    r_mul(d1@, a2@),
                ),
            ),
    {
        let t1 = match a1.mul(d2) {
            Some(v) => v,
            None => return None,
        };
        let t2 = match b1.mul(c2) {
            Some(v) => v,
            None => return None,
        };
        let t3 = match c1.mul(b2) {
            Some(v) => v,
            None => return None,
        };
        let t4 = match d1.mul(a2) {
            Some(v) => v,
            None => return None,
        };
        let s1 = match t1.add(&t2) {
            Some(v) => v,
            None => return None,
        };
        let s2 = match s1.sub(&t3) {
            Some(v) => v,
            None => return None,
        };
        let s3 = match s2.add(&t4) {
            Some(v) => v,
            None => return None,
        };
        proof {
            let m1 = r_mul(a1@, d2@);
            let m2 = r_mul(b1@, c2@);
            let m3 = r_mul(c1@, b2@);
            let m4 = r_mul(d1@, a2@);
            lemma_step_add(s1@, t1@, m1, t2@, m2);
            lemma_step_sub(s2@, s1@, r_add(m1, m2), t3@, m3);
            lemma_step_add(s3@, s2@, r_sub(r_add(m1, m2), m3), t4@, m4);
        }
        Some(s3)
    }

    /// The componentwise reciprocal: `1/a` and the inverted imaginary part.
    /// This is a distinct operation from the mathematical quaternion inverse
    /// `conj / norm^2`; `rotate` does not use it. `None` iff any component is
    /// zero.
    pub fn inverse(&self) -> (r: Option<Quat>)
        requires
            self.wf(),
        ensures
            r is Some <==> self@.a.n != 0 && self@.cplx.x.n != 0 && self@.cplx.y.n != 0
                && self@.cplx.z.n != 0,
            r matches Some(v) ==> v.wf() && r_eq(v@.a, r_div(r_one(), self@.a)) && r_eq(
                v@.cplx.x,
                r_div(r_one(), self@.cplx.x),
            ) && r_eq(v@.cplx.y, r_div(r_one(), self@.cplx.y)) && r_eq(
                v@.cplx.z,
                r_div(r_one(), self@.cplx.z),
            ),
    {
        let a = match self.a.recip() {
            Some(v) => v,
            None => return None,
        };
        let cplx = match self.cplx.inverse() {
            Some(v) => v,
            None => return None,
        };
        Some(Quat { a, cplx })
    }

    /// The standard conjugate; always exact.
    pub fn conjugate(&self) -> (r: Quat)
        requires
            self.wf(),
        ensures
            r.wf(),
            r@ == q_conj(self@),
    {
        Quat { a: self.a, cplx: self.cplx.negate() }
    }

    /// The squared 4-component norm, exactly.
    fn norm_sq(&self) -> (r: Option<Rat>)
        requires
            self.wf(),
        ensures
            ov(r) == qm_norm(self@),
            r matches Some(v) ==> v.wf() && r_eq(v@, q_norm_sq(self@)),
    {
        let t1 = match self.a.mul(&self.a) {
            Some(v) => v,
            None => return None,
        };
        let t2 = match self.cplx.x.mul(&self.cplx.x) {
            Some(v) => v,
            None => return None,
        };
        let t3 = match self.cplx.y.mul(&self.cplx.y) {
            Some(v) => v,
            None => return None,
        };
        let t4 = match self.cplx.z.mul(&self.cplx.z) {
            Some(v) => v,
            None => return None,
        };
        let s1 = match t1.add(&t2) {
            Some(v) => v,
            None => return None,
        };
        let s2 = match s1.add(&t3) {
            Some(v) => v,
            None => return None,
        };
        let s3 = match s2.add(&t4) {
            Some(v) => v,
            None => return None,
        };
        proof {
            let m1 = r_mul(self@.a, self@.a);
            let m2 = r_mul(self@.cplx.x, self@.cplx.x);
            let m3 = r_mul(self@.cplx.y, self@.cplx.y);
            let m4 = r_mul(self@.cplx.z, self@.cplx.z);
            lemma_step_add(s1@, t1@, m1, t2@, m2);
            lemma_step_add(s2@, s1@, r_add(m1, m2), t3@, m3);
            lemma_step_add(s3@, s2@, r_add(r_add(m1, m2), m3), t4@, m4);
        }
        Some(s3)
    }

    /// The normalized copy `self / |self|`, where the 4-component norm is an
    /// exactly representable rational. `None` when the quaternion is zero,
    /// its norm is irrational, or an intermediate value has no representable
    /// reduced form.
    fn get_unitquarternion(&self) -> (r: Option<Quat>)
        requires
            self.wf(),
        ensures
            oq(r) == qm_unit(self@),
            r matches Some(u) ==> u.wf() && (exists|l: Ratio|
                #![trigger r_mul(l, l)]
                l.d >= 1 && l.n > 0 && r_eq(r_mul(l, l), q_norm_sq(self@)) && r_eq(
                    u@.a,
                    r_mul(self@.a, r_div(r_one(), l)),
                ) && v_eq(u@.cplx, v_scale(self@.cplx, r_div(r_one(), l)))),
    {
        let ns = match self.norm_sq() {
            Some(v) => v,
            None => return None,
        };
        let l = match ns.sqrt() {
            Some(v) => v,
            None => return None,
        };
        let il = match l.recip() {
            Some(v) => v,
            None => return None,
        };
        let a = match self.a.mul(&il) {
            Some(v) => v,
            None => return None,
        };
        let cplx = match self.cplx.stretched(&il) {
            Some(v) => v,
            None => return None,
        };
        proof {
            lemma_qnorm_dpos(self@);
            lemma_req_trans(r_mul(l@, l@), ns@, q_norm_sq(self@));
            lemma_step_mul(a@, self@.a, self@.a, il@, r_div(r_one(), l@));
            lemma_vscale_congr(self@.cplx, self@.cplx, il@, r_div(r_one(), l@));
            lemma_vscale_dpos(self@.cplx, il@);
            lemma_veq_trans(
                cplx@,
                v_scale(self@.cplx, il@),
                v_scale(self@.cplx, r_div(r_one(), l@)),
            );
            assert(l@.d >= 1 && l@.n > 0 && r_eq(r_mul(l@, l@), q_norm_sq(self@)));
        }
        Some(Quat { a, cplx })
    }

    /// Normalize in place: exactly `get_unitquarternion`, stored back. Where
    /// that has no result the quaternion is left unchanged and `false` is
    /// returned.
    pub fn make_unitquarternion(&mut self) -> (ok: bool)
        requires
            old(self).wf(),
        ensures
            qm_unit(old(self)@) matches Some(m) ==> ok && final(self).wf() && final(self)@ == m,
            qm_unit(old(self)@) is None ==> !ok && *final(self) == *old(self),
            ok ==> final(self).wf() && (exists|l: Ratio|
                #![trigger r_mul(l, l)]
                l.d >= 1 && l.n > 0 && r_eq(r_mul(l, l), q_norm_sq(old(self)@)) && r_eq(
                    final(self)@.a,
                    r_mul(old(self)@.a, r_div(r_one(), l)),
                ) && v_eq(final(self)@.cplx, v_scale(old(self)@.cplx, r_div(r_one(), l)))),
            !ok ==> *final(self) == *old(self),
    {
        match self.get_unitquarternion() {
            Some(v) => {
                *self = v;
                true
            },
            None => false,
        }
    }

    fn to_point(self) -> (r: Point)
        requires
            self.wf(),
        ensures
            r.wf(),
            r@ == self@.cplx,
    {
        Point { x: self.cplx.x, y: self.cplx.y, z: self.cplx.z }
    }

    /// Applies the rotation specified by the quaternion to the point:
    /// the imaginary part of `q * (0, p) * conj(q)`, divided by the squared
    /// norm -- exactly the sandwich product of the normalized quaternion.
    /// `None` on the zero quaternion (the degenerate normalization) or when
    /// an intermediate value has no representable reduced form.
    pub fn rotate(&self, p: Point) -> (r: Option<Point>)
        requires
            self.wf(),
            p.wf(),
        ensures
            crate::point::opt(r) == qm_rotate(self@, p@),
            r_eq(q_norm_sq(self@), r_zero()) ==> r is None,
            r matches Some(rp) ==> rp.wf() && !r_eq(q_norm_sq(self@), r_zero()) && v_eq(
                rp@,
                q_rotate(self@, p@),
            ),
    {
        let q_point = Quat { a: Rat::from_int(0), cplx: p.local_vector() };
        let t1 = match self.mul(&q_point) {
            Some(v) => v,
            None => return None,
        };
        let t2 = match t1.mul(&self.conjugate()) {
            Some(v) => v,
            None => return None,
        };
        let ns = match self.norm_sq() {
            Some(v) => v,
            None => return None,
        };
        let inv = match ns.recip() {
            Some(v) => v,
            None => return None,
        };
        let rv = match t2.cplx.stretched(&inv) {
            Some(v) => v,
            None => return None,
        };
        proof {
            let qns = q_norm_sq(self@);
            lemma_qnorm_dpos(self@);
            if r_eq(qns, r_zero()) {
                lemma_req_trans(ns@, qns, r_zero());
            }
            let m1 = q_mul(self@, q_pure(p@));
            let c = q_conj(self@);
            let mq = q_mul(m1, c);
            lemma_qmul_congr(t1@, m1, c, c);
            lemma_qmul_dpos(t1@, c);
            lemma_qeq_trans(t2@, q_mul(t1@, c), mq);
            crate::rat::lemma_div_congr(r_one(), r_one(), ns@, qns);
            crate::rat::lemma_nonzero_mul(1, ns@.n);
            lemma_req_trans(inv@, r_div(r_one(), ns@), r_div(r_one(), qns));
            lemma_vscale_congr(t2.cplx@, mq.cplx, inv@, r_div(r_one(), qns));
            lemma_vscale_dpos(t2.cplx@, inv@);
            lemma_veq_trans(rv@, v_scale(t2.cplx@, inv@), q_rotate(self@, p@));
        }
        Some(Point { x: rv.x, y: rv.y, z: rv.z })
    }
}

/// The Hamilton product respects componentwise equivalence.
proof fn lemma_qmul_congr(pe: Quatr, pm: Quatr, qe: Quatr, qm: Quatr)
    requires
        q_eq(pe, pm),
        q_eq(qe, qm),
    ensures
        q_eq(q_mul(pe, qe), q_mul(pm, qm)),
{
    let (a1, b1, c1, d1) = (pe.a, pe.cplx.x, pe.cplx.y, pe.cplx.z);
    let (a2, b2, c2, d2) = (qe.a, qe.cplx.x, qe.cplx.y, qe.cplx.z);
    let (e1, f1, g1, h1) = (pm.a, pm.cplx.x, pm.cplx.y, pm.cplx.z);
    let (e2, f2, g2, h2) = (qm.a, qm.cplx.x, qm.cplx.y, qm.cplx.z);
    crate::rat::lemma_mul_congr(a1, e1, a2, e2);
    crate::rat::lemma_mul_congr(b1, f1, b2, f2);
    crate::rat::lemma_mul_congr(c1, g1, c2, g2);
    crate::rat::lemma_mul_congr(d1, h1, d2, h2);
    crate::rat::lemma_sub_congr(r_mul(a1, a2), r_mul(e1, e2), r_mul(b1, b2), r_mul(f1, f2));
    crate::rat::lemma_sub_congr(
        r_sub(r_mul(a1, a2), r_mul(b1, b2)),
        r_sub(r_mul(e1, e2), r_mul(f1, f2)),
        r_mul(c1, c2),
        r_mul(g1, g2),
    );
    crate::rat::lemma_sub_congr(
        r_sub(r_sub(r_mul(a1, a2), r_mul(b1, b2)), r_mul(c1, c2)),
        r_sub(r_sub(r_mul(e1, e2), r_mul(f1, f2)), r_mul(g1, g2)),
        r_mul(d1, d2),
        r_mul(h1, h2),
    );
    crate::rat::lemma_mul_congr(a1, e1, b2, f2);
    crate::rat::lemma_mul_congr(b1, f1, a2, e2);
    crate::rat::lemma_mul_congr(c1, g1, d2, h2);
    crate::rat::lemma_mul_congr(d1, h1, c2, g2);
    crate::rat::lemma_add_congr(r_mul(a1, b2), r_mul(e1, f2), r_mul(b1, a2), r_mul(f1, e2));
    crate::rat::lemma_add_congr(
        r_add(r_mul(a1, b2), r_mul(b1, a2)),
        r_add(r_mul(e1, f2), r_mul(f1, e2)),
        r_mul(c1, d2),
        r_mul(g1, h2),
    );
    crate::rat::lemma_sub_congr(
        r_add(r_add(r_mul(a1, b2), r_mul(b1, a2)), r_mul(c1, d2)),
        r_add(r_add(r_mul(e1, f2), r_mul(f1, e2)), r_mul(g1, h2)),
        r_mul(d1, c2),
        r_mul(h1, g2),
    );
    crate::rat::lemma_mul_congr(a1, e1, c2, g2);
    crate::rat::lemma_mul_congr(b1, f1, d2, h2);
    crate::rat::lemma_mul_congr(c1, g1, a2, e2);
    crate::rat::lemma_mul_congr(d1, h1, b2, f2);
    crate::rat::lemma_sub_congr(r_mul(a1, c2), r_mul(e1, g2), r_mul(b1, d2), r_mul(f1, h2));
    crate::rat::lemma_add_congr(
        r_sub(r_mul(a1, c2), r_mul(b1, d2)),
        r_sub(r_mul(e1, g2), r_mul(f1, h2)),
        r_mul(c1, a2),
        r_mul(g1, e2),
    );
    crate::rat::lemma_add_congr(
        r_add(r_sub(r_mul(a1, c2), r_mul(b1, d2)), r_mul(c1, a2)),
        r_add(r_sub(r_mul(e1, g2), r_mul(f1, h2)), r_mul(g1, e2)),
        r_mul(d1, b2),
        r_mul(h1, f2),
    );
    crate::rat::lemma_mul_congr(a1, e1, d2, h2);
    crate::rat::lemma_mul_congr(b1, f1, c2, g2);
    crate::rat::lemma_mul_congr(c1, g1, b2, f2);
    crate::rat::lemma_mul_congr(d1, h1, a2, e2);
    crate::rat::lemma_add_congr(r_mul(a1, d2), r_mul(e1, h2), r_mul(b1, c2), r_mul(f1, g2));
    crate::rat::lemma_sub_congr(
        r_add(r_mul(a1, d2), r_mul(b1, c2)),
        r_add(r_mul(e1, h2), r_mul(f1, g2)),
        r_mul(c1, b2),
        r_mul(g1, f2),
    );
    crate::rat::lemma_add_congr(
        r_sub(r_add(r_mul(a1, d2), r_mul(b1, c2)), r_mul(c1, b2)),
        r_sub(r_add(r_mul(e1, h2), r_mul(f1, g2)), r_mul(g1, f2)),
        r_mul(d1, a2),
        r_mul(h1, e2),
    );
}

/// The Hamilton product of well-formed models has positive denominators.
proof fn lemma_qmul_dpos(p: Quatr, q: Quatr)
    requires
        q_dpos(p),
        q_dpos(q),
    ensures
        q_dpos(q_mul(p, q)),
{
    let (a1, b1, c1, d1) = (p.a, p.cplx.x, p.cplx.y, p.cplx.z);
    let (a2, b2, c2, d2) = (q.a, q.cplx.x, q.cplx.y, q.cplx.z);
    lemma_pos_mul(a1.d, a2.d);
    lemma_pos_mul(b1.d, b2.d);
    lemma_pos_mul(c1.d, c2.d);
    lemma_pos_mul(d1.d, d2.d);
    lemma_pos_mul(a1.d, b2.d);
    lemma_pos_mul(b1.d, a2.d);
    lemma_pos_mul(c1.d, d2.d);
    lemma_pos_mul(d1.d, c2.d);
    lemma_pos_mul(a1.d, c2.d);
    lemma_pos_mul(b1.d, d2.d);
    lemma_pos_mul(c1.d, a2.d);
    lemma_pos_mul(d1.d, b2.d);
    lemma_pos_mul(a1.d, d2.d);
    lemma_pos_mul(b1.d, c2.d);
    lemma_pos_mul(c1.d, b2.d);
    lemma_pos_mul(d1.d, a2.d);
    lemma_pos_mul(a1.d * a2.d, b1.d * b2.d);
    lemma_pos_mul((a1.d * a2.d) * (b1.d * b2.d), c1.d * c2.d);
    lemma_pos_mul(((a1.d * a2.d) * (b1.d * b2.d)) * (c1.d * c2.d), d1.d * d2.d);
    lemma_pos_mul(a1.d * b2.d, b1.d * a2.d);
    lemma_pos_mul((a1.d * b2.d) * (b1.d * a2.d), c1.d * d2.d);
    lemma_pos_mul(((a1.d * b2.d) * (b1.d * a2.d)) * (c1.d * d2.d), d1.d * c2.d);
    lemma_pos_mul(a1.d * c2.d, b1.d * d2.d);
    lemma_pos_mul((a1.d * c2.d) * (b1.d * d2.d), c1.d * a2.d);
    lemma_pos_mul(((a1.d * c2.d) * (b1.d * d2.d)) * (c1.d * a2.d), d1.d * b2.d);
    lemma_pos_mul(a1.d * d2.d, b1.d * c2.d);
    lemma_pos_mul((a1.d * d2.d) * (b1.d * c2.d), c1.d * b2.d);
    lemma_pos_mul(((a1.d * d2.d) * (b1.d * c2.d)) * (c1.d * b2.d), d1.d * a2.d);
}

/// `q_eq` is transitive through a model with positive denominators.
proof fn lemma_qeq_trans(u: Quatr, v: Quatr, w: Quatr)
    requires
        q_eq(u, v),
        q_eq(v, w),
        q_dpos(v),
    ensures
        q_eq(u, w),
{
    lemma_req_trans(u.a, v.a, w.a);
    crate::vec3::lemma_veq_trans(u.cplx, v.cplx, w.cplx);
}

/// Normalizing an already-unit quaternion leaves it unchanged (as a rational
/// value): when `|q|^2 ~ 1` and `l` is its positive square root, `q / l ~ q`,
/// scalar and imaginary parts alike.
pub proof fn lemma_unit_quat_normalize_id(q: Quatr, l: Ratio)
    requires
        q_dpos(q),
        l.d >= 1,
        l.n > 0,
        r_eq(r_mul(l, l), q_norm_sq(q)),
        r_eq(q_norm_sq(q), r_one()),
    ensures
        r_eq(r_mul(q.a, r_div(r_one(), l)), q.a),
        v_eq(v_scale(q.cplx, r_div(r_one(), l)), q.cplx),
{
    lemma_qnorm_dpos(q);
    lemma_req_trans(r_mul(l, l), q_norm_sq(q), r_one());
    assert(l.n == l.d) by (nonlinear_arith)
        requires
            (l.n * l.n) * 1 == 1 * (l.d * l.d),
            l.n >= 1,
            l.d >= 1,
    ;
    crate::vec3::lemma_unit_scale_comp(q.a, l);
    crate::vec3::lemma_unit_scale_comp(q.cplx.x, l);
    crate::vec3::lemma_unit_scale_comp(q.cplx.y, l);
    crate::vec3::lemma_unit_scale_comp(q.cplx.z, l);
}

/// The denominator of the squared norm is positive for well-formed inputs.
proof fn lemma_qnorm_dpos(p: Quatr)
    requires
        q_dpos(p),
    ensures
        q_norm_sq(p).d >= 1,
{
    lemma_pos_mul(p.a.d, p.a.d);
    lemma_pos_mul(p.cplx.x.d, p.cplx.x.d);
    lemma_pos_mul(p.cplx.y.d, p.cplx.y.d);
    lemma_pos_mul(p.cplx.z.d, p.cplx.z.d);
    lemma_pos_mul(p.a.d * p.a.d, p.cplx.x.d * p.cplx.x.d);
    lemma_pos_mul((p.a.d * p.a.d) * (p.cplx.x.d * p.cplx.x.d), p.cplx.y.d * p.cplx.y.d);
    lemma_pos_mul(
        ((p.a.d * p.a.d) * (p.cplx.x.d * p.cplx.x.d)) * (p.cplx.y.d * p.cplx.y.d),
        p.cplx.z.d * p.cplx.z.d,
    );
}




} // verus!
