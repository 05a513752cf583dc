//! Exact rational scalars.
//!
//! `Rat` is a fraction of two `i64`s with a positive denominator. The
//! arithmetic operations return the mathematically exact result whenever its
//! reduced form fits back into `i64` numerator and denominator, and `None`
//! otherwise. The ghost type `Ratio` is the mathematical model: an unbounded
//! fraction, compared by cross-multiplication.

use vstd::prelude::*;
use vstd::arithmetic::div_mod::{
    lemma_div_nonincreasing, lemma_div_pos_is_pos, lemma_fundamental_div_mod,
    lemma_fundamental_div_mod_converse, lemma_mod_multiples_basic, lemma_mod_self_0,
    lemma_small_mod,
};

verus! {

/// Mathematical fraction `n / d`; meaningful whenever `d != 0`.
pub ghost struct Ratio {
    pub n: int,
    pub d: int,
}

/// `a` and `b` denote the same rational number (for nonzero denominators).
pub open spec fn r_eq(a: Ratio, b: Ratio) -> bool {
    a.n * b.d == b.n * a.d
}

/// `a <= b` as rational numbers; meaningful for positive denominators.
pub open spec fn r_le(a: Ratio, b: Ratio) -> bool {
    a.n * b.d <= b.n * a.d
}

/// `|a| < |b|` as rational numbers; meaningful for positive denominators.
pub open spec fn r_abs_lt(a: Ratio, b: Ratio) -> bool {
    iabs(a.n) * b.d < iabs(b.n) * a.d
}

pub open spec fn r_add(a: Ratio, b: Ratio) -> Ratio {
    Ratio { n: a.n * b.d + b.n * a.d, d: a.d * b.d }
}

pub open spec fn r_sub(a: Ratio, b: Ratio) -> Ratio {
    Ratio { n: a.n * b.d - b.n * a.d, d: a.d * b.d }
}

pub open spec fn r_mul(a: Ratio, b: Ratio) -> Ratio {
    Ratio { n: a.n * b.n, d: a.d * b.d }
}

pub open spec fn r_div(a: Ratio, b: Ratio) -> Ratio {
    Ratio { n: a.n * b.d, d: a.d * b.n }
}

pub open spec fn r_neg(a: Ratio) -> Ratio {
    Ratio { n: -a.n, d: a.d }
}

pub open spec fn r_zero() -> Ratio {
    Ratio { n: 0, d: 1 }
}

pub open spec fn r_one() -> Ratio {
    Ratio { n: 1, d: 1 }
}

pub open spec fn iabs(x: int) -> nat {
    if x < 0 {
        (-x) as nat
    } else {
        x as nat
    }
}

/// Euclid's greatest common divisor.
pub open spec fn gcd(a: nat, b: nat) -> nat
    decreases b,
{
    if b == 0 {
        a
    } else {
        gcd(b, a % b)
    }
}

/// The sign-normalized, fully reduced form of a fraction (for `d != 0`).
pub open spec fn norm(q: Ratio) -> Ratio {
    let n = if q.d < 0 { -q.n } else { q.n };
    let d = if q.d < 0 { -q.d } else { q.d };
    let g = gcd(iabs(n), d as nat) as int;
    Ratio { n: n / g, d: d / g }
}

/// Whether a fraction fits the `Rat` representation. The numerator range is
/// symmetric so that negation always stays representable.
pub open spec fn r_fits(q: Ratio) -> bool {
    &&& -0x7fff_ffff_ffff_ffff <= q.n <= 0x7fff_ffff_ffff_ffff
    &&& 1 <= q.d <= 0x7fff_ffff_ffff_ffff
}

/// The exact outcome of an arithmetic step: the reduced result if it is
/// representable, `None` otherwise.
pub open spec fn m_norm(q: Ratio) -> Option<Ratio> {
    if r_fits(norm(q)) {
        Some(norm(q))
    } else {
        None
    }
}

pub open spec fn m_add(a: Ratio, b: Ratio) -> Option<Ratio> {
    m_norm(r_add(a, b))
}

pub open spec fn m_sub(a: Ratio, b: Ratio) -> Option<Ratio> {
    m_norm(r_sub(a, b))
}

pub open spec fn m_mul(a: Ratio, b: Ratio) -> Option<Ratio> {
    m_norm(r_mul(a, b))
}

/// The exact outcome of the reciprocal: `None` on zero, else the flipped
/// fraction with the denominator kept positive.
pub open spec fn m_recip(a: Ratio) -> Option<Ratio> {
    if a.n == 0 {
        None
    } else if a.n < 0 {
        Some(Ratio { n: -a.d, d: -a.n })
    } else {
        Some(Ratio { n: a.d, d: a.n })
    }
}

pub open spec fn m_div(a: Ratio, b: Ratio) -> Option<Ratio> {
    if b.n == 0 {
        None
    } else {
        m_norm(r_div(a, b))
    }
}

/// Monadic lifts: a step on missing operands is missing.
pub open spec fn o_add(a: Option<Ratio>, b: Option<Ratio>) -> Option<Ratio> {
    match (a, b) {
        (Some(x), Some(y)) => m_add(x, y),
        _ => None,
    }
}

pub open spec fn o_sub(a: Option<Ratio>, b: Option<Ratio>) -> Option<Ratio> {
    match (a, b) {
        (Some(x), Some(y)) => m_sub(x, y),
        _ => None,
    }
}

pub open spec fn o_mul(a: Option<Ratio>, b: Option<Ratio>) -> Option<Ratio> {
    match (a, b) {
        (Some(x), Some(y)) => m_mul(x, y),
        _ => None,
    }
}

pub open spec fn o_div(a: Option<Ratio>, b: Option<Ratio>) -> Option<Ratio> {
    match (a, b) {
        (Some(x), Some(y)) => m_div(x, y),
        _ => None,
    }
}

/// An exact rational scalar: `num / den` with `den >= 1`.
#[derive(Clone, Copy, Debug)]
pub struct Rat {
    pub num: i64,
    pub den: i64,
}

impl View for Rat {
    type V = Ratio;

    open spec fn view(&self) -> Ratio {
        Ratio { n: self.num as int, d: self.den as int }
    }
}

/// The view of an optional scalar, for contracts over fallible steps.
pub open spec fn ov(r: Option<Rat>) -> Option<Ratio> {
    match r {
        Some(v) => Some(v@),
        None => None,
    }
}

impl Rat {
    /// Well-formed: positive denominator; numerator symmetric around zero so
    /// that negation cannot overflow.
    pub open spec fn wf(self) -> bool {
        &&& 1 <= self.den
        &&& -0x7fff_ffff_ffff_ffff <= self.num
    }

    pub fn new(num: i64, den: i64) -> (r: Rat)
        requires
            1 <= den,
            -0x7fff_ffff_ffff_ffff <= num,
        ensures
            r.wf(),
            r@ == (Ratio { n: num as int, d: den as int }),
    {
        Rat { num, den }
    }

    pub fn from_int(num: i64) -> (r: Rat)
        requires
            -0x7fff_ffff_ffff_ffff <= num,
        ensures
            r.wf(),
            r@ == (Ratio { n: num as int, d: 1 }),
    {
        Rat { num, den: 1 }
    }

    /// Exact negation; always representable thanks to the symmetric range.
    pub fn neg(&self) -> (r: Rat)
        requires
            self.wf(),
        ensures
            r.wf(),
            r@ == r_neg(self@),
    {
        Rat { num: -self.num, den: self.den }
    }

    /// Exact sum, reduced; `None` iff the reduced sum does not fit.
    pub fn add(&self, other: &Rat) -> (r: Option<Rat>)
        requires
            self.wf(),
            other.wf(),
        ensures
            ov(r) == m_add(self@, other@),
            r matches Some(v) ==> v.wf() && r_eq(v@, r_add(self@, other@)),
    {
        proof {
            lemma_i64_mul_bound(self.num as int, other.den as int);
            lemma_i64_mul_bound(other.num as int, self.den as int);
            lemma_den_mul(self.den as int, other.den as int);
        }
        let n: i128 = self.num as i128 * other.den as i128 + other.num as i128 * self.den as i128;
        let d: i128 = self.den as i128 * other.den as i128;
        reduce(n, d)
    }

    /// Exact difference, reduced; `None` iff the reduced difference does not fit.
    pub fn sub(&self, other: &Rat) -> (r: Option<Rat>)
        requires
            self.wf(),
            other.wf(),
        ensures
            ov(r) == m_sub(self@, other@),
            r matches Some(v) ==> v.wf() && r_eq(v@, r_sub(self@, other@)),
    {
        proof {
            lemma_i64_mul_bound(self.num as int, other.den as int);
            lemma_i64_mul_bound(other.num as int, self.den as int);
            lemma_den_mul(self.den as int, other.den as int);
        }
        let n: i128 = self.num as i128 * other.den as i128 - other.num as i128 * self.den as i128;
        let d: i128 = self.den as i128 * other.den as i128;
        reduce(n, d)
    }

    /// Exact product, reduced; `None` iff the reduced product does not fit.
    pub fn mul(&self, other: &Rat) -> (r: Option<Rat>)
        requires
            self.wf(),
            other.wf(),
        ensures
            ov(r) == m_mul(self@, other@),
            r matches Some(v) ==> v.wf() && r_eq(v@, r_mul(self@, other@)),
    {
        proof {
            lemma_i64_mul_bound(self.num as int, other.num as int);
            lemma_den_mul(self.den as int, other.den as int);
        }
        let n: i128 = self.num as i128 * other.num as i128;
        let d: i128 = self.den as i128 * other.den as i128;
        reduce(n, d)
    }

    /// Exact quotient, reduced. `None` iff the divisor is zero (the
    /// degenerate case) or the reduced quotient does not fit.
    pub fn div(&self, other: &Rat) -> (r: Option<Rat>)
        requires
            self.wf(),
            other.wf(),
        ensures
            ov(r) == m_div(self@, other@),
            r matches Some(v) ==> v.wf() && r_eq(v@, r_div(self@, other@)),
    {
        if other.num == 0 {
            return None;
        }
        proof {
            lemma_i64_mul_bound(self.num as int, other.den as int);
            lemma_i64_mul_bound(self.den as int, other.num as int);
        }
        let n: i128 = self.num as i128 * other.den as i128;
        let d: i128 = self.den as i128 * other.num as i128;
        proof {
            assert(d != 0) by (nonlinear_arith)
                requires
                    d == self.den as int * other.num as int,
                    self.den as int >= 1,
                    other.num as int != 0,
            ;
        }
        if d < 0 {
            match reduce(-n, -d) {
                Some(v) => {
                    proof {
                        lemma_req_flip(v@, n as int, d as int);
                    }
                    Some(v)
                },
                None => None,
            }
        } else {
            reduce(n, d)
        }
    }

    /// Exact order test.
    pub fn le(&self, other: &Rat) -> (r: bool)
        requires
            self.wf(),
            other.wf(),
        ensures
            r == r_le(self@, other@),
    {
        proof {
            lemma_i64_mul_bound(self.num as int, other.den as int);
            lemma_i64_mul_bound(other.num as int, self.den as int);
        }
        self.num as i128 * other.den as i128 <= other.num as i128 * self.den as i128
    }

    /// Exact comparison of absolute values.
    pub fn abs_lt(&self, other: &Rat) -> (r: bool)
        requires
            self.wf(),
            other.wf(),
        ensures
            r == r_abs_lt(self@, other@),
    {
        let a: i128 = if self.num < 0 {
            -(self.num as i128)
        } else {
            self.num as i128
        };
        let b: i128 = if other.num < 0 {
            -(other.num as i128)
        } else {
            other.num as i128
        };
        proof {
            lemma_i64_mul_bound(a as int, other.den as int);
            lemma_i64_mul_bound(b as int, self.den as int);
        }
        (a * other.den as i128) < (b * self.den as i128)
    }

    /// Exact reciprocal; `None` iff the value is zero (the degenerate case).
    /// Always representable otherwise thanks to the symmetric range.
    pub fn recip(&self) -> (r: Option<Rat>)
        requires
            self.wf(),
        ensures
            ov(r) == m_recip(self@),
            r matches Some(v) ==> v.wf() && r_eq(v@, r_div(r_one(), self@)),
            r is Some <==> self@.n != 0,
    {
        if self.num == 0 {
            None
        } else if self.num < 0 {
            let v = Rat { num: -self.den, den: -self.num };
            proof {
                assert(v@.n * (1 * self@.n) == (1 * self@.d) * v@.d) by (nonlinear_arith)
                    requires
                        v@.n == -self@.d,
                        v@.d == -self@.n,
                ;
            }
            Some(v)
        } else {
            let v = Rat { num: self.den, den: self.num };
            proof {
                assert(v@.n * (1 * self@.n) == (1 * self@.d) * v@.d) by (nonlinear_arith)
                    requires
                        v@.n == self@.d,
                        v@.d == self@.n,
                ;
            }
            Some(v)
        }
    }

    pub fn is_zero(&self) -> (r: bool)
        requires
            self.wf(),
        ensures
            r == r_eq(self@, r_zero()),
    {
        self.num == 0
    }
}

impl PartialEq for Rat {
    /// Equality of the rational values, not of the representations:
    /// `1/2 == 2/4`.
    fn eq(&self, other: &Rat) -> (r: bool) {
        proof {
            lemma_i64_mul_bound_wide(self.num as int, other.den as int);
            lemma_i64_mul_bound_wide(other.num as int, self.den as int);
        }
        self.num as i128 * other.den as i128 == other.num as i128 * self.den as i128
    }
}

impl vstd::std_specs::cmp::PartialEqSpecImpl for Rat {
    open spec fn obeys_eq_spec() -> bool {
        true
    }

    open spec fn eq_spec(&self, other: &Rat) -> bool {
        r_eq(self@, other@)
    }
}

/// `|x * y| <= (2^63 - 1)^2` for factors in the symmetric `i64` range; small
/// enough that a sum of two such products still fits an `i128`.
proof fn lemma_i64_mul_bound(x: int, y: int)
    requires
        -0x7fff_ffff_ffff_ffff <= x <= 0x7fff_ffff_ffff_ffff,
        -0x7fff_ffff_ffff_ffff <= y <= 0x7fff_ffff_ffff_ffff,
    ensures
        -0x3fff_ffff_ffff_ffff_0000_0000_0000_0001 <= x * y
            <= 0x3fff_ffff_ffff_ffff_0000_0000_0000_0001,
{
    assert(-0x3fff_ffff_ffff_ffff_0000_0000_0000_0001 <= x * y
        <= 0x3fff_ffff_ffff_ffff_0000_0000_0000_0001) by (nonlinear_arith)
        requires
            -0x7fff_ffff_ffff_ffff <= x <= 0x7fff_ffff_ffff_ffff,
            -0x7fff_ffff_ffff_ffff <= y <= 0x7fff_ffff_ffff_ffff,
    ;
}

/// A product of two positive integers is positive.
pub proof fn lemma_pos_mul(x: int, y: int)
    requires
        x >= 1,
        y >= 1,
    ensures
        x * y >= 1,
{
    assert(x * y >= 1) by (nonlinear_arith)
        requires
            x >= 1,
            y >= 1,
    ;
}

/// A product of two nonzero integers is nonzero.
pub proof fn lemma_nonzero_mul(x: int, y: int)
    requires
        x != 0,
        y != 0,
    ensures
        x * y != 0,
{
    assert(x * y != 0) by (nonlinear_arith)
        requires
            x != 0,
            y != 0,
    ;
}

/// A nonzero rational value stays nonzero across `r_eq`.
pub proof fn lemma_req_nonzero(a: Ratio, b: Ratio)
    requires
        r_eq(a, b),
        a.n != 0,
        b.d != 0,
    ensures
        b.n != 0,
{
    assert(b.n != 0) by (nonlinear_arith)
        requires
            a.n * b.d == b.n * a.d,
            a.n != 0,
            b.d != 0,
    ;
}

/// A product of two positive `i64` denominators is a positive valid
/// intermediate denominator.
proof fn lemma_den_mul(x: int, y: int)
    requires
        1 <= x <= 0x7fff_ffff_ffff_ffff,
        1 <= y <= 0x7fff_ffff_ffff_ffff,
    ensures
        1 <= x * y <= 0x3fff_ffff_ffff_ffff_0000_0000_0000_0001,
{
    assert(1 <= x * y <= 0x3fff_ffff_ffff_ffff_0000_0000_0000_0001) by (nonlinear_arith)
        requires
            1 <= x <= 0x7fff_ffff_ffff_ffff,
            1 <= y <= 0x7fff_ffff_ffff_ffff,
    ;
}

/// Negating numerator and denominator together keeps the value.
proof fn lemma_req_flip(a: Ratio, n: int, d: int)
    requires
        r_eq(a, Ratio { n: -n, d: -d }),
    ensures
        r_eq(a, Ratio { n: n, d: d }),
{
    assert(a.n * d == n * a.d) by (nonlinear_arith)
        requires
            a.n * -d == -n * a.d,
    ;
}

/// The normal form of a fraction denotes the same rational number and has a
/// positive denominator.
pub proof fn lemma_norm_eq(q: Ratio)
    requires
        q.d != 0,
    ensures
        norm(q).d >= 1,
        r_eq(norm(q), q),
{
    let n1 = if q.d < 0 { -q.n } else { q.n };
    let d1 = if q.d < 0 { -q.d } else { q.d };
    let na = iabs(n1);
    lemma_gcd_pos(na, d1 as nat);
    lemma_gcd_divides(na, d1 as nat);
    let g = gcd(na, d1 as nat) as int;
    lemma_fundamental_div_mod(na as int, g);
    lemma_fundamental_div_mod(d1, g);
    let qn = na as int / g;
    let qd = d1 / g;
    assert(qd >= 1) by (nonlinear_arith)
        requires
            g * qd == d1,
            d1 >= 1,
            g >= 1,
    ;
    if n1 < 0 {
        assert(n1 == g * (-qn) + 0) by (nonlinear_arith)
            requires
                g * qn == na as int,
                n1 == -(na as int),
        ;
        lemma_fundamental_div_mod_converse(n1, g, -qn, 0);
        assert(norm(q).n == -qn);
    } else {
        assert(norm(q).n == qn);
    }
    assert(norm(q).n * d1 == n1 * norm(q).d) by (nonlinear_arith)
        requires
            norm(q).n == if n1 < 0 { -qn } else { qn },
            norm(q).d == qd,
            n1 == if n1 < 0 { -(g * qn) } else { g * qn },
            d1 == g * qd,
    ;
    if q.d < 0 {
        assert(norm(q).n * q.d == q.n * norm(q).d) by (nonlinear_arith)
            requires
                norm(q).n * -q.d == -q.n * norm(q).d,
        ;
    }
}

/// `|x * y| <= 2^126` for any `i64`-valued factors, `i64::MIN` included.
proof fn lemma_i64_mul_bound_wide(x: int, y: int)
    requires
        -0x8000_0000_0000_0000 <= x <= 0x7fff_ffff_ffff_ffff,
        -0x8000_0000_0000_0000 <= y <= 0x7fff_ffff_ffff_ffff,
    ensures
        -0x4000_0000_0000_0000_0000_0000_0000_0000 <= x * y
            <= 0x4000_0000_0000_0000_0000_0000_0000_0000,
{
    assert(-0x4000_0000_0000_0000_0000_0000_0000_0000 <= x * y
        <= 0x4000_0000_0000_0000_0000_0000_0000_0000) by (nonlinear_arith)
        requires
            -0x8000_0000_0000_0000 <= x <= 0x7fff_ffff_ffff_ffff,
            -0x8000_0000_0000_0000 <= y <= 0x7fff_ffff_ffff_ffff,
    ;
}

proof fn lemma_gcd_pos(a: nat, b: nat)
    requires
        a > 0 || b > 0,
    ensures
        gcd(a, b) >= 1,
    decreases b,
{
    if b == 0 {
    } else {
        lemma_gcd_pos(b, a % b);
    }
}

/// The gcd divides both of its arguments.
proof fn lemma_gcd_divides(a: nat, b: nat)
    requires
        a > 0 || b > 0,
    ensures
        a % gcd(a, b) == 0,
        b % gcd(a, b) == 0,
    decreases b,
{
    lemma_gcd_pos(a, b);
    if b == 0 {
        lemma_mod_self_0(a as int);
        lemma_small_mod(0, a);
    } else {
        lemma_gcd_divides(b, a % b);
        let g = gcd(a, b) as int;
        let q = a as int / b as int;
        lemma_fundamental_div_mod(a as int, b as int);
        lemma_fundamental_div_mod(b as int, g);
        lemma_fundamental_div_mod((a % b) as int, g);
        let k1 = b as int / g;
        let k2 = (a % b) as int / g;
        assert(a as int == g * (k1 * q + k2)) by (nonlinear_arith)
            requires
                a as int == b as int * q + (a % b) as int,
                b as int == g * k1 + 0,
                (a % b) as int == g * k2 + 0,
        ;
        lemma_mod_multiples_basic(k1 * q + k2, g);
        assert((k1 * q + k2) * g == g * (k1 * q + k2)) by (nonlinear_arith);
    }
}

/// `r_eq` is transitive through a fraction with nonzero denominator.
pub proof fn lemma_req_trans(a: Ratio, b: Ratio, c: Ratio)
    requires
        r_eq(a, b),
        r_eq(b, c),
        b.d != 0,
    ensures
        r_eq(a, c),
{
    assert(a.n * c.d == c.n * a.d) by (nonlinear_arith)
        requires
            a.n * b.d == b.n * a.d,
            b.n * c.d == c.n * b.d,
            b.d != 0,
    ;
}

/// Regrouping a product of four factors.
pub proof fn lemma_mul_rearrange(x: int, y: int, z: int, w: int)
    ensures
        (x * y) * (z * w) == (x * z) * (y * w),
        (x * y) * (z * w) == (x * w) * (y * z),
{
    assert((x * y) * (z * w) == (x * z) * (y * w)) by (nonlinear_arith);
    assert((x * y) * (z * w) == (x * w) * (y * z)) by (nonlinear_arith);
}

proof fn lemma_distrib(x: int, y: int, z: int)
    ensures
        (x + y) * z == x * z + y * z,
        (x - y) * z == x * z - y * z,
{
    assert((x + y) * z == x * z + y * z) by (nonlinear_arith);
    assert((x - y) * z == x * z - y * z) by (nonlinear_arith);
}

/// The two cross-multiplied terms of an equivalent sum or difference agree.
proof fn lemma_addsub_congr_terms(a: Ratio, a2: Ratio, b: Ratio, b2: Ratio)
    requires
        r_eq(a, a2),
        r_eq(b, b2),
    ensures
        (a.n * b.d) * (a2.d * b2.d) == (a2.n * b2.d) * (a.d * b.d),
        (b.n * a.d) * (a2.d * b2.d) == (b2.n * a2.d) * (a.d * b.d),
{
    lemma_mul_rearrange(a.n, b.d, a2.d, b2.d);
    lemma_mul_rearrange(a2.n, a.d, b.d, b2.d);
    lemma_mul_rearrange(b.n, a.d, a2.d, b2.d);
    lemma_mul_rearrange(b2.n, b.d, a.d, a2.d);
    vstd::arithmetic::mul::lemma_mul_is_commutative(b.d, a.d);
}

/// Addition respects `r_eq`.
pub proof fn lemma_add_congr(a: Ratio, a2: Ratio, b: Ratio, b2: Ratio)
    requires
        r_eq(a, a2),
        r_eq(b, b2),
    ensures
        r_eq(r_add(a, b), r_add(a2, b2)),
{
    lemma_addsub_congr_terms(a, a2, b, b2);
    lemma_distrib(a.n * b.d, b.n * a.d, a2.d * b2.d);
    lemma_distrib(a2.n * b2.d, b2.n * a2.d, a.d * b.d);
}

/// Subtraction respects `r_eq`.
pub proof fn lemma_sub_congr(a: Ratio, a2: Ratio, b: Ratio, b2: Ratio)
    requires
        r_eq(a, a2),
        r_eq(b, b2),
    ensures
        r_eq(r_sub(a, b), r_sub(a2, b2)),
{
    lemma_addsub_congr_terms(a, a2, b, b2);
    lemma_distrib(a.n * b.d, b.n * a.d, a2.d * b2.d);
    lemma_distrib(a2.n * b2.d, b2.n * a2.d, a.d * b.d);
}

/// Multiplication respects `r_eq`.
pub proof fn lemma_mul_congr(a: Ratio, a2: Ratio, b: Ratio, b2: Ratio)
    requires
        r_eq(a, a2),
        r_eq(b, b2),
    ensures
        r_eq(r_mul(a, b), r_mul(a2, b2)),
{
    lemma_mul_rearrange(a.n, b.n, a2.d, b2.d);
    lemma_mul_rearrange(a2.n, b2.n, a.d, b.d);
}

/// Division respects `r_eq`.
pub proof fn lemma_div_congr(a: Ratio, a2: Ratio, b: Ratio, b2: Ratio)
    requires
        r_eq(a, a2),
        r_eq(b, b2),
    ensures
        r_eq(r_div(a, b), r_div(a2, b2)),
{
    lemma_mul_rearrange(a.n, b.d, a2.d, b2.n);
    lemma_mul_rearrange(a2.n, b2.d, a.d, b.n);
    vstd::arithmetic::mul::lemma_mul_is_commutative(b.d, b2.n);
    vstd::arithmetic::mul::lemma_mul_is_commutative(b.n, b2.d);
}

/// Negation respects `r_eq`.
pub proof fn lemma_neg_congr(a: Ratio, a2: Ratio)
    requires
        r_eq(a, a2),
    ensures
        r_eq(r_neg(a), r_neg(a2)),
{
    assert(-a.n * a2.d == -a2.n * a.d) by (nonlinear_arith)
        requires
            a.n * a2.d == a2.n * a.d,
    ;
}

/// The order test respects `r_eq` for positive denominators.
pub proof fn lemma_le_congr(a: Ratio, a2: Ratio, b: Ratio, b2: Ratio)
    requires
        r_eq(a, a2),
        r_eq(b, b2),
        a.d >= 1,
        a2.d >= 1,
        b.d >= 1,
        b2.d >= 1,
    ensures
        r_le(a, b) == r_le(a2, b2),
{
    assert((a.n * b.d <= b.n * a.d) == (a2.n * b2.d <= b2.n * a2.d)) by (nonlinear_arith)
        requires
            a.n * a2.d == a2.n * a.d,
            b.n * b2.d == b2.n * b.d,
            a.d >= 1,
            a2.d >= 1,
            b.d >= 1,
            b2.d >= 1,
    ;
}

/// Scalar multiplication distributes over addition, as rational values.
pub proof fn lemma_mul_distrib(s: Ratio, p: Ratio, q: Ratio)
    ensures
        r_eq(r_add(r_mul(s, p), r_mul(s, q)), r_mul(s, r_add(p, q))),
{
    let lhs = r_add(r_mul(s, p), r_mul(s, q));
    let x = p.n * q.d;
    let y = q.n * p.d;
    lemma_distrib((s.n * p.n) * (s.d * q.d), (s.n * q.n) * (s.d * p.d), s.d * (p.d * q.d));
    vstd::arithmetic::mul::lemma_mul_is_commutative(s.n, x + y);
    lemma_distrib(x, y, s.n);
    lemma_distrib(x * s.n, y * s.n, lhs.d);
    broadcast use vstd::arithmetic::mul::group_mul_properties;

    assert(((s.n * p.n) * (s.d * q.d)) * (s.d * (p.d * q.d)) == ((p.n * q.d) * s.n) * ((s.d
        * p.d) * (s.d * q.d)));
    assert(((s.n * q.n) * (s.d * p.d)) * (s.d * (p.d * q.d)) == ((q.n * p.d) * s.n) * ((s.d
        * p.d) * (s.d * q.d)));
}

/// One step of relating an executable chain to its mathematical value: the
/// step produced `v ~ pe + te` from operands equivalent to `pm` and `tm`.
pub proof fn lemma_step_add(v: Ratio, pe: Ratio, pm: Ratio, te: Ratio, tm: Ratio)
    requires
        r_eq(v, r_add(pe, te)),
        r_eq(pe, pm),
        r_eq(te, tm),
        pe.d >= 1,
        te.d >= 1,
    ensures
        r_eq(v, r_add(pm, tm)),
{
    lemma_add_congr(pe, pm, te, tm);
    lemma_pos_mul(pe.d, te.d);
    lemma_req_trans(v, r_add(pe, te), r_add(pm, tm));
}

pub proof fn lemma_step_sub(v: Ratio, pe: Ratio, pm: Ratio, te: Ratio, tm: Ratio)
    requires
        r_eq(v, r_sub(pe, te)),
        r_eq(pe, pm),
        r_eq(te, tm),
        pe.d >= 1,
        te.d >= 1,
    ensures
        r_eq(v, r_sub(pm, tm)),
{
    lemma_sub_congr(pe, pm, te, tm);
    lemma_pos_mul(pe.d, te.d);
    lemma_req_trans(v, r_sub(pe, te), r_sub(pm, tm));
}

pub proof fn lemma_step_mul(v: Ratio, pe: Ratio, pm: Ratio, te: Ratio, tm: Ratio)
    requires
        r_eq(v, r_mul(pe, te)),
        r_eq(pe, pm),
        r_eq(te, tm),
        pe.d >= 1,
        te.d >= 1,
    ensures
        r_eq(v, r_mul(pm, tm)),
{
    lemma_mul_congr(pe, pm, te, tm);
    lemma_pos_mul(pe.d, te.d);
    lemma_req_trans(v, r_mul(pe, te), r_mul(pm, tm));
}

pub proof fn lemma_step_div(v: Ratio, pe: Ratio, pm: Ratio, te: Ratio, tm: Ratio)
    requires
        r_eq(v, r_div(pe, te)),
        r_eq(pe, pm),
        r_eq(te, tm),
        pe.d >= 1,
        te.d >= 1,
        te.n != 0,
    ensures
        r_eq(v, r_div(pm, tm)),
{
    lemma_div_congr(pe, pm, te, tm);
    lemma_nonzero_mul(pe.d, te.n);
    lemma_req_trans(v, r_div(pe, te), r_div(pm, tm));
}

/// Absolute values of equivalent fractions cross-multiply equally.
proof fn lemma_abs_req(a: Ratio, a2: Ratio)
    requires
        r_eq(a, a2),
        a.d >= 1,
        a2.d >= 1,
    ensures
        iabs(a.n) * a2.d == iabs(a2.n) * a.d,
{
    if a.n >= 0 {
        lemma_req_sign_nonneg(a, a2);
    } else {
        if a2.n >= 0 {
            lemma_req_sign_nonneg(a2, a);
        }
        assert((-a.n) * a2.d == (-a2.n) * a.d) by (nonlinear_arith)
            requires
                a.n * a2.d == a2.n * a.d,
        ;
    }
}

/// The absolute-value comparison respects `r_eq` for positive denominators.
pub proof fn lemma_abs_lt_congr(a: Ratio, a2: Ratio, b: Ratio, b2: Ratio)
    requires
        r_eq(a, a2),
        r_eq(b, b2),
        a.d >= 1,
        a2.d >= 1,
        b.d >= 1,
        b2.d >= 1,
    ensures
        r_abs_lt(a, b) == r_abs_lt(a2, b2),
{
    lemma_abs_req(a, a2);
    lemma_abs_req(b, b2);
    let x = iabs(a.n) as int;
    let x2 = iabs(a2.n) as int;
    let y = iabs(b.n) as int;
    let y2 = iabs(b2.n) as int;
    assert((x * b.d < y * a.d) == (x2 * b2.d < y2 * a2.d)) by (nonlinear_arith)
        requires
            x * a2.d == x2 * a.d,
            y * b2.d == y2 * b.d,
            x >= 0,
            y >= 0,
            x2 >= 0,
            y2 >= 0,
            a.d >= 1,
            a2.d >= 1,
            b.d >= 1,
            b2.d >= 1,
    ;
}

/// Reduce an exact intermediate fraction back into a `Rat`.
fn reduce(num: i128, den: i128) -> (r: Option<Rat>)
    requires
        1 <= den <= 0x7fff_ffff_ffff_ffff_ffff_ffff_ffff_ffff,
        -0x7fff_ffff_ffff_ffff_ffff_ffff_ffff_ffff <= num
            <= 0x7fff_ffff_ffff_ffff_ffff_ffff_ffff_ffff,
    ensures
        ov(r) == m_norm(Ratio { n: num as int, d: den as int }),
        r matches Some(v) ==> v.wf() && r_eq(v@, Ratio { n: num as int, d: den as int }),
{
    let ghost q = Ratio { n: num as int, d: den as int };
    let neg: bool = num < 0;
    let n_abs: u128 = if neg {
        (-num) as u128
    } else {
        num as u128
    };
    let d_abs: u128 = den as u128;
    assert(n_abs as nat == iabs(q.n));
    let g: u128 = gcd_u128(n_abs, d_abs);
    proof {
        lemma_gcd_pos(n_abs as nat, d_abs as nat);
        lemma_gcd_divides(n_abs as nat, d_abs as nat);
        lemma_fundamental_div_mod(n_abs as int, g as int);
        lemma_fundamental_div_mod(d_abs as int, g as int);
    }
    let qn: u128 = n_abs / g;
    let qd: u128 = d_abs / g;
    assert(g as int * qn as int == n_abs as int);
    assert(g as int * qd as int == d_abs as int);
    assert(qd >= 1) by (nonlinear_arith)
        requires
            g as int * qd as int == d_abs as int,
            d_abs >= 1,
            g >= 1,
    ;
    proof {
        // The components of the normal form are exactly qd and (sign) qn.
        assert(norm(q).d == qd as int) by {
            assert(q.d as int / g as int == qd as int);
        }
        if neg {
            assert(q.n == g as int * (-(qn as int)) + 0) by (nonlinear_arith)
                requires
                    g as int * qn as int == n_abs as int,
                    q.n == -(n_abs as int),
            ;
            lemma_fundamental_div_mod_converse(q.n, g as int, -(qn as int), 0);
            assert(norm(q).n == -(qn as int));
        } else {
            assert(norm(q).n == qn as int);
        }
    }
    if qn <= 0x7fff_ffff_ffff_ffff && qd <= 0x7fff_ffff_ffff_ffff {
        let v = Rat {
            num: if neg {
                -(qn as i64)
            } else {
                qn as i64
            },
            den: qd as i64,
        };
        proof {
            assert(r_eq(v@, q)) by (nonlinear_arith)
                requires
                    v@.n == if neg {
                        -(qn as int)
                    } else {
                        qn as int
                    },
                    v@.d == qd as int,
                    q.n == if neg {
                        -(n_abs as int)
                    } else {
                        n_abs as int
                    },
                    q.d == d_abs as int,
                    g as int * qn as int == n_abs as int,
                    g as int * qd as int == d_abs as int,
            ;
        }
        Some(v)
    } else {
        None
    }
}

/// `x` is the square of an integer.
pub open spec fn is_square(x: int) -> bool {
    exists|k: int| 0 <= k && #[trigger] (k * k) == x
}

/// The nonnegative integer square root of a perfect square (unconstrained on
/// other inputs).
pub open spec fn sqrt_of(x: int) -> int {
    choose|k: int| 0 <= k && #[trigger] (k * k) == x
}

/// The exact outcome of the rational square root: for a nonnegative perfect
/// rational square `n/d`, the reduced form of `sqrt(n*d) / d`; `None`
/// otherwise.
pub open spec fn m_sqrt(a: Ratio) -> Option<Ratio> {
    if a.n >= 0 && is_square(a.n * a.d) {
        m_norm(Ratio { n: sqrt_of(a.n * a.d), d: a.d })
    } else {
        None
    }
}

/// The monadic lift of `m_sqrt`.
pub open spec fn o_sqrt(a: Option<Ratio>) -> Option<Ratio> {
    match a {
        Some(v) => m_sqrt(v),
        None => None,
    }
}

/// A nonnegative square root is unique, so `sqrt_of` hits any witness.
proof fn lemma_sqrt_unique(k: int, x: int)
    requires
        0 <= k,
        k * k == x,
    ensures
        sqrt_of(x) == k,
{
    assert(is_square(x));
    let j = sqrt_of(x);
    assert(0 <= j && j * j == x);
    assert(j == k) by (nonlinear_arith)
        requires
            0 <= j,
            0 <= k,
            j * j == k * k,
    ;
}

/// A square is nonnegative.
pub proof fn lemma_square_nonneg(x: int)
    ensures
        x * x >= 0,
{
    assert(x * x >= 0) by (nonlinear_arith);
}

/// A product of nonnegative integers is nonnegative.
pub proof fn lemma_nonneg_mul(x: int, y: int)
    requires
        x >= 0,
        y >= 0,
    ensures
        x * y >= 0,
{
    assert(x * y >= 0) by (nonlinear_arith)
        requires
            x >= 0,
            y >= 0,
    ;
}

/// A nonnegative rational value stays nonnegative across `r_eq`, for
/// positive denominators.
pub proof fn lemma_req_sign_nonneg(a: Ratio, b: Ratio)
    requires
        r_eq(a, b),
        a.n >= 0,
        a.d >= 1,
        b.d >= 1,
    ensures
        b.n >= 0,
{
    assert(b.n >= 0) by (nonlinear_arith)
        requires
            a.n * b.d == b.n * a.d,
            a.n >= 0,
            a.d >= 1,
            b.d >= 1,
    ;
}

/// If the integer square root of `p` does not hit `p` exactly, no integer
/// does.
proof fn lemma_no_square(p: int, r: int)
    requires
        0 <= r,
        r * r <= p,
        p < (r + 1) * (r + 1),
        r * r != p,
    ensures
        !is_square(p),
{
    assert forall|k: int| 0 <= k implies #[trigger] (k * k) != p by {
        if k <= r {
            assert(k * k <= r * r) by (nonlinear_arith)
                requires
                    0 <= k,
                    k <= r,
            ;
        } else {
            assert(k * k >= (r + 1) * (r + 1)) by (nonlinear_arith)
                requires
                    k >= r + 1,
                    r >= 0,
            ;
        }
    }
}

/// The integer square root: the largest `r` with `r * r <= n`.
fn isqrt_u128(n: u128) -> (r: u128)
    ensures
        r * r <= n,
        n < (r + 1) * (r + 1),
{
    let mut lo: u128 = 0;
    let mut hi: u128 = 0x1_0000_0000_0000_0000;
    proof {
        assert((0x1_0000_0000_0000_0000 as int) * (0x1_0000_0000_0000_0000 as int)
            == 0x1_0000_0000_0000_0000_0000_0000_0000_0000) by (nonlinear_arith);
    }
    while lo + 1 < hi
        invariant
            lo < hi <= 0x1_0000_0000_0000_0000,
            lo * lo <= n,
            n < hi * hi,
        decreases hi - lo,
    {
        let mid: u128 = lo + (hi - lo) / 2;
        proof {
            assert(mid * mid <= 0xffff_ffff_ffff_fffe_0000_0000_0000_0001) by (nonlinear_arith)
                requires
                    mid <= 0xffff_ffff_ffff_ffff,
            ;
        }
        if mid * mid <= n {
            lo = mid;
        } else {
            hi = mid;
        }
    }
    lo
}

impl Rat {
    /// The exact nonnegative square root, where one exists: `None` iff the
    /// value is negative or is not the square of a rational number.
    pub fn sqrt(&self) -> (r: Option<Rat>)
        requires
            self.wf(),
        ensures
            ov(r) == m_sqrt(self@),
            r matches Some(v) ==> v.wf() && v@.n >= 0 && r_eq(r_mul(v@, v@), self@),
            r is Some <==> self@.n >= 0 && is_square(self@.n * self@.d),
    {
        if self.num < 0 {
            return None;
        }
        proof {
            lemma_i64_mul_bound(self.num as int, self.den as int);
            lemma_nonneg_mul(self.num as int, self.den as int);
        }
        let p: u128 = (self.num as i128 * self.den as i128) as u128;
        let k: u128 = isqrt_u128(p);
        if k * k == p {
            proof {
                assert(is_square(self@.n * self@.d)) by {
                    assert(0 <= k as int && (k as int) * (k as int) == self@.n * self@.d);
                }
                assert((k as int) * (k as int) < 0x8000_0000_0000_0000
                    * 0x8000_0000_0000_0000) by (nonlinear_arith)
                    requires
                        (k as int) * (k as int) <= 0x3fff_ffff_ffff_ffff_0000_0000_0000_0001,
                ;
                assert((k as int) < 0x8000_0000_0000_0000) by (nonlinear_arith)
                    requires
                        (k as int) * (k as int) < 0x8000_0000_0000_0000
                            * 0x8000_0000_0000_0000,
                        k as int >= 0,
                ;
            }
            let res = reduce(k as i128, self.den as i128);
            proof {
                lemma_sqrt_unique(k as int, self@.n * self@.d);
                let q = Ratio { n: k as int, d: self.den as int };
                let g = gcd(iabs(q.n), q.d as nat) as int;
                lemma_gcd_pos(iabs(q.n), q.d as nat);
                lemma_div_pos_is_pos(q.n, g);
                lemma_div_nonincreasing(q.n, g);
                lemma_div_pos_is_pos(q.d, g);
                lemma_div_nonincreasing(q.d, g);
                lemma_norm_eq(q);
                assert(r_fits(norm(q)));
                let v = res->Some_0;
                lemma_mul_congr(v@, q, v@, q);
                assert(r_eq(r_mul(q, q), self@)) by (nonlinear_arith)
                    requires
                        (k as int) * (k as int) == self@.n * self@.d,
                        q.n == k as int,
                        q.d == self@.d,
                ;
                lemma_pos_mul(q.d, q.d);
                lemma_req_trans(r_mul(v@, v@), r_mul(q, q), self@);
                lemma_req_sign_nonneg(q, v@);
            }
            res
        } else {
            proof {
                lemma_no_square(p as int, k as int);
            }
            None
        }
    }
}

/// Euclid's algorithm.
fn gcd_u128(a: u128, b: u128) -> (g: u128)
    ensures
        g as nat == gcd(a as nat, b as nat),
{
    let mut x: u128 = a;
    let mut y: u128 = b;
    while y != 0
        invariant
            gcd(x as nat, y as nat) == gcd(a as nat, b as nat),
        decreases y,
    {
        let t: u128 = x % y;
        x = y;
        y = t;
    }
    x
}

} // verus!
