//! Exact nonnegative rational arithmetic.
//!
//! Probabilities are kept as `num / den` pairs of machine integers and
//! combined exactly; every operation reduces its result to lowest terms
//! and reports arithmetic overflow instead of losing precision.
//! Contracts speak about mathematical fractions `(int, int)`; `req`
//! is equality of fractions by cross-multiplication.

use vstd::prelude::*;

verus! {

/// Mathematical fraction: numerator and denominator as unbounded integers.
/// Well-formed fractions are nonnegative with a positive denominator.
pub open spec fn rwf(a: (int, int)) -> bool {
    a.0 >= 0 && a.1 >= 1
}

/// `a` and `b` denote the same rational number.
pub open spec fn req(a: (int, int), b: (int, int)) -> bool {
    a.0 * b.1 == b.0 * a.1
}

/// `a` denotes a rational number no larger than `b`.
pub open spec fn rle(a: (int, int), b: (int, int)) -> bool {
    a.0 * b.1 <= b.0 * a.1
}

/// A probability: well-formed and at most one.
pub open spec fn rprob(a: (int, int)) -> bool {
    rwf(a) && a.0 <= a.1
}

pub open spec fn rzero() -> (int, int) {
    (0, 1)
}

pub open spec fn rone() -> (int, int) {
    (1, 1)
}

pub open spec fn radd(a: (int, int), b: (int, int)) -> (int, int) {
    (a.0 * b.1 + b.0 * a.1, a.1 * b.1)
}

pub open spec fn rmul(a: (int, int), b: (int, int)) -> (int, int) {
    (a.0 * b.0, a.1 * b.1)
}

/// One minus `a`; meaningful when `a` is a probability.
pub open spec fn rcomp(a: (int, int)) -> (int, int) {
    (a.1 - a.0, a.1)
}

pub open spec fn rdiv(a: (int, int), b: (int, int)) -> (int, int) {
    (a.0 * b.1, a.1 * b.0)
}

pub open spec fn rpow(a: (int, int), n: nat) -> (int, int)
    decreases n,
{
    if n == 0 {
        rone()
    } else {
        rmul(rpow(a, (n - 1) as nat), a)
    }
}

pub open spec fn gcd(a: nat, b: nat) -> nat
    decreases b,
{
    if b == 0 {
        a
    } else {
        gcd(b, a % b)
    }
}

/// The fraction `n / d` in lowest terms.
pub open spec fn reduce_spec(n: int, d: int) -> (int, int) {
    let g = gcd(n as nat, d as nat) as int;
    (n / g, d / g)
}

/// Whether `n / d` in lowest terms fits the machine representation.
pub open spec fn reduce_fits(n: int, d: int) -> bool {
    reduce_spec(n, d).0 <= u64::MAX as int && reduce_spec(n, d).1 <= u64::MAX as int
}

/// The machine result of reducing `n / d`: the lowest-terms value
/// when it fits the representation, `None` otherwise.
pub open spec fn spec_reduced(n: int, d: int) -> Option<Rational> {
    if reduce_fits(n, d) {
        Some(Rational { num: reduce_spec(n, d).0 as u64, den: reduce_spec(n, d).1 as u64 })
    } else {
        None
    }
}

/// The machine result of `a.add(b)`, including the overflow cases.
pub open spec fn spec_add(a: Rational, b: Rational) -> Option<Rational> {
    let n = a.num * b.den + b.num * a.den;
    let d = a.den * b.den;
    if n <= u128::MAX {
        spec_reduced(n, d)
    } else {
        None
    }
}

/// The machine result of `a.mul(b)`.
pub open spec fn spec_mul(a: Rational, b: Rational) -> Option<Rational> {
    spec_reduced(a.num * b.num, a.den * b.den)
}

/// The machine result of `a.div(b)`.
pub open spec fn spec_div(a: Rational, b: Rational) -> Option<Rational> {
    spec_reduced(a.num * b.den, a.den * b.num)
}

/// The machine result of `a.complement()`.
pub open spec fn spec_comp(a: Rational) -> Rational {
    Rational { num: (a.den - a.num) as u64, den: a.den }
}

/// The greatest common divisor divides both arguments and, when the
/// second is positive, lies between one and that argument.
pub proof fn lemma_gcd(a: nat, b: nat)
    requires
        a >= 1 || b >= 1,
    ensures
        gcd(a, b) >= 1,
        (a as int) % (gcd(a, b) as int) == 0,
        (b as int) % (gcd(a, b) as int) == 0,
        b >= 1 ==> gcd(a, b) <= b,
    decreases b,
{
    if b == 0 {
        let g = gcd(a, b) as int;
        assert(g == a as int);
        assert((a as int) % g == 0) by {
            vstd::arithmetic::div_mod::lemma_mod_self_0(g);
        }
        assert(0int % g == 0) by {
            vstd::arithmetic::div_mod::lemma_small_mod(0, g as nat);
        }
    } else {
        lemma_gcd(b, a % b);
        let g = gcd(a, b) as int;
        assert(g == gcd(b, a % b) as int);
        let q = (a as int) / (b as int);
        let r = (a as int) % (b as int);
        assert(a as int == (b as int) * q + r) by {
            vstd::arithmetic::div_mod::lemma_fundamental_div_mod(a as int, b as int);
        }
        let kb = (b as int) / g;
        let kr = r / g;
        assert(b as int == g * kb && r == g * kr) by {
            vstd::arithmetic::div_mod::lemma_fundamental_div_mod(b as int, g);
            vstd::arithmetic::div_mod::lemma_fundamental_div_mod(r, g);
        }
        assert(a as int == (kb * q + kr) * g) by (nonlinear_arith)
            requires
                a as int == (b as int) * q + r,
                b as int == g * kb,
                r == g * kr,
        {}
        assert((a as int) % g == 0) by {
            vstd::arithmetic::div_mod::lemma_mod_multiples_basic(kb * q + kr, g);
        }
        if a % b == 0 {
            assert(g == gcd(b, 0) as int);
            assert(g == b as int);
        } else {
            assert(g <= r);
            assert(r < b as int) by {
                vstd::arithmetic::div_mod::lemma_mod_division_less_than_divisor(
                    a as int, b as int);
            }
        }
    }
}

/// Reducing a fraction to lowest terms keeps its value.
pub proof fn lemma_reduce_req(n: int, d: int)
    requires
        n >= 0,
        d >= 1,
    ensures
        rwf(reduce_spec(n, d)),
        req(reduce_spec(n, d), (n, d)),
        reduce_spec(n, d).0 <= n,
        reduce_spec(n, d).1 <= d,
{
    lemma_gcd(n as nat, d as nat);
    let g = gcd(n as nat, d as nat) as int;
    let kn = n / g;
    let kd = d / g;
    assert(1 <= g <= d);
    assert(n == g * kn && d == g * kd) by {
        vstd::arithmetic::div_mod::lemma_fundamental_div_mod(n, g);
        vstd::arithmetic::div_mod::lemma_fundamental_div_mod(d, g);
    }
    assert(kn >= 0 && kd >= 1) by (nonlinear_arith)
        requires
            n == g * kn,
            d == g * kd,
            n >= 0,
            d >= 1,
            1 <= g,
    {}
    assert(kn * d == n * kd) by (nonlinear_arith)
        requires
            n == g * kn,
            d == g * kd,
    {}
    assert(kn <= n && kd <= d) by (nonlinear_arith)
        requires
            n == g * kn,
            d == g * kd,
            kn >= 0,
            kd >= 1,
            g >= 1,
    {}
}

/// Fraction equality is transitive.
pub proof fn lemma_req_trans(a: (int, int), b: (int, int), c: (int, int))
    requires
        req(a, b),
        req(b, c),
        a.1 >= 1,
        b.1 >= 1,
        c.1 >= 1,
    ensures
        req(a, c),
{
    assert(a.0 * c.1 == c.0 * a.1) by (nonlinear_arith)
        requires
            a.0 * b.1 == b.0 * a.1,
            b.0 * c.1 == c.0 * b.1,
            b.1 >= 1,
    {}
}

/// Fraction equality is compatible with addition.
pub proof fn lemma_radd_cong(a: (int, int), a2: (int, int), b: (int, int), b2: (int, int))
    requires
        req(a, a2),
        req(b, b2),
        a.1 >= 1,
        a2.1 >= 1,
        b.1 >= 1,
        b2.1 >= 1,
    ensures
        req(radd(a, b), radd(a2, b2)),
{
    assert((a.0 * b.1) * (a2.1 * b2.1) == (a2.0 * b2.1) * (a.1 * b.1)) by (nonlinear_arith)
        requires
            a.0 * a2.1 == a2.0 * a.1,
    {}
    assert((b.0 * a.1) * (a2.1 * b2.1) == (b2.0 * a2.1) * (a.1 * b.1)) by (nonlinear_arith)
        requires
            b.0 * b2.1 == b2.0 * b.1,
    {}
    assert((a.0 * b.1 + b.0 * a.1) * (a2.1 * b2.1) == (a2.0 * b2.1 + b2.0 * a2.1) * (a.1 * b.1))
        by (nonlinear_arith)
        requires
            (a.0 * b.1) * (a2.1 * b2.1) == (a2.0 * b2.1) * (a.1 * b.1),
            (b.0 * a.1) * (a2.1 * b2.1) == (b2.0 * a2.1) * (a.1 * b.1),
    {}
}

/// Fraction equality is compatible with multiplication.
pub proof fn lemma_rmul_cong(a: (int, int), a2: (int, int), b: (int, int), b2: (int, int))
    requires
        req(a, a2),
        req(b, b2),
    ensures
        req(rmul(a, b), rmul(a2, b2)),
{
    assert((a.0 * b.0) * (a2.1 * b2.1) == (a2.0 * b2.0) * (a.1 * b.1)) by (nonlinear_arith)
        requires
            a.0 * a2.1 == a2.0 * a.1,
            b.0 * b2.1 == b2.0 * b.1,
    {}
}

/// Fraction equality is compatible with complement.
pub proof fn lemma_rcomp_cong(a: (int, int), a2: (int, int))
    requires
        req(a, a2),
    ensures
        req(rcomp(a), rcomp(a2)),
{
    assert((a.1 - a.0) * a2.1 == (a2.1 - a2.0) * a.1) by (nonlinear_arith)
        requires
            a.0 * a2.1 == a2.0 * a.1,
    {}
}

/// Fraction equality is compatible with division.
pub proof fn lemma_rdiv_cong(a: (int, int), a2: (int, int), b: (int, int), b2: (int, int))
    requires
        req(a, a2),
        req(b, b2),
    ensures
        req(rdiv(a, b), rdiv(a2, b2)),
{
    assert((a.0 * b.1) * (a2.1 * b2.0) == (a2.0 * b2.1) * (a.1 * b.0)) by (nonlinear_arith)
        requires
            a.0 * a2.1 == a2.0 * a.1,
            b.0 * b2.1 == b2.0 * b.1,
    {}
}

/// A fraction equal to a probability is itself at most one.
pub proof fn lemma_rle_one_transfer(a: (int, int), b: (int, int))
    requires
        req(a, b),
        b.0 <= b.1,
        a.1 >= 1,
        b.1 >= 1,
    ensures
        a.0 <= a.1,
{
    assert(a.0 <= a.1) by (nonlinear_arith)
        requires
            a.0 * b.1 == b.0 * a.1,
            b.0 <= b.1,
            a.1 >= 1,
            b.1 >= 1,
    {}
}

/// Well-formedness is preserved by powers.
pub proof fn lemma_rwf_rpow(a: (int, int), n: nat)
    requires
        rwf(a),
    ensures
        rwf(rpow(a, n)),
    decreases n,
{
    if n > 0 {
        lemma_rwf_rpow(a, (n - 1) as nat);
        lemma_rwf_rmul(rpow(a, (n - 1) as nat), a);
    }
}

/// Equal fractions compare the same way against any third fraction.
pub proof fn lemma_rle_req_right(p: (int, int), a: (int, int), b: (int, int))
    requires
        req(a, b),
        a.1 >= 1,
        b.1 >= 1,
    ensures
        rle(p, a) == rle(p, b),
{
    assert((p.0 * a.1 <= a.0 * p.1) == (p.0 * b.1 <= b.0 * p.1)) by (nonlinear_arith)
        requires
            a.0 * b.1 == b.0 * a.1,
            a.1 >= 1,
            b.1 >= 1,
    {}
}

/// Left-to-right product of the first `n` fractions of a sequence.
pub open spec fn rprod_upto(s: Seq<(int, int)>, n: nat) -> (int, int)
    decreases n,
{
    if n == 0 {
        rone()
    } else {
        rmul(rprod_upto(s, (n - 1) as nat), s[n - 1])
    }
}

/// Well-formedness is preserved by multiplication.
pub proof fn lemma_rwf_rmul(a: (int, int), b: (int, int))
    requires
        rwf(a),
        rwf(b),
    ensures
        rwf(rmul(a, b)),
{
    assert(a.0 * b.0 >= 0 && a.1 * b.1 >= 1) by (nonlinear_arith)
        requires
            a.0 >= 0,
            b.0 >= 0,
            a.1 >= 1,
            b.1 >= 1,
    {}
}

/// Well-formedness is preserved by addition.
pub proof fn lemma_rwf_radd(a: (int, int), b: (int, int))
    requires
        rwf(a),
        rwf(b),
    ensures
        rwf(radd(a, b)),
{
    assert(a.0 * b.1 + b.0 * a.1 >= 0 && a.1 * b.1 >= 1) by (nonlinear_arith)
        requires
            a.0 >= 0,
            b.0 >= 0,
            a.1 >= 1,
            b.1 >= 1,
    {}
}

/// Being a probability is preserved by multiplication.
pub proof fn lemma_rprob_rmul(a: (int, int), b: (int, int))
    requires
        rprob(a),
        rprob(b),
    ensures
        rprob(rmul(a, b)),
{
    assert(a.0 * b.0 >= 0 && a.1 * b.1 >= 1 && a.0 * b.0 <= a.1 * b.1) by (nonlinear_arith)
        requires
            0 <= a.0 <= a.1,
            0 <= b.0 <= b.1,
            a.1 >= 1,
            b.1 >= 1,
    {}
}

/// The ordering of fractions is transitive.
pub proof fn lemma_rle_trans(a: (int, int), b: (int, int), c: (int, int))
    requires
        rle(a, b),
        rle(b, c),
        a.1 >= 1,
        b.1 >= 1,
        c.1 >= 1,
    ensures
        rle(a, c),
{
    assert(a.0 * c.1 <= c.0 * a.1) by (nonlinear_arith)
        requires
            a.0 * b.1 <= b.0 * a.1,
            b.0 * c.1 <= c.0 * b.1,
            a.1 >= 1,
            b.1 >= 1,
            c.1 >= 1,
    {}
}

/// A product of probabilities is a probability.
pub proof fn lemma_rprod_prob(s: Seq<(int, int)>, n: nat)
    requires
        n <= s.len(),
        forall|i: int| 0 <= i < n ==> rprob(#[trigger] s[i]),
    ensures
        rprob(rprod_upto(s, n)),
    decreases n,
{
    if n > 0 {
        lemma_rprod_prob(s, (n - 1) as nat);
        lemma_rprob_rmul(rprod_upto(s, (n - 1) as nat), s[n - 1]);
    }
}

/// A product of probabilities is at most each of its factors.
pub proof fn lemma_rprod_le_factor(s: Seq<(int, int)>, n: nat, i: int)
    requires
        n <= s.len(),
        forall|j: int| 0 <= j < n ==> rprob(#[trigger] s[j]),
        0 <= i < n,
    ensures
        rle(rprod_upto(s, n), s[i]),
    decreases n,
{
    lemma_rprod_prob(s, (n - 1) as nat);
    let prev = rprod_upto(s, (n - 1) as nat);
    let last = s[n - 1];
    if i == n - 1 {
        assert(rle(rmul(prev, last), last)) by (nonlinear_arith)
            requires
                0 <= prev.0 <= prev.1,
                0 <= last.0 <= last.1,
                prev.1 >= 1,
                last.1 >= 1,
        {}
    } else {
        lemma_rprod_le_factor(s, (n - 1) as nat, i);
        assert(rle(rmul(prev, last), prev)) by (nonlinear_arith)
            requires
                0 <= prev.0 <= prev.1,
                0 <= last.0 <= last.1,
                prev.1 >= 1,
                last.1 >= 1,
        {}
        lemma_rprob_rmul(prev, last);
        assert(rprob(s[i]));
        lemma_rle_trans(rmul(prev, last), prev, s[i]);
    }
}

/// A product of two values bounded by `u64::MAX` fits in a `u128`.
pub proof fn lemma_u64_mul_fits(a: int, b: int)
    requires
        0 <= a <= u64::MAX,
        0 <= b <= u64::MAX,
    ensures
        0 <= a * b <= u128::MAX,
{
    assert(0 <= a * b <= u128::MAX) by (nonlinear_arith)
        requires
            0 <= a <= u64::MAX,
            0 <= b <= u64::MAX,
    {}
}

/// An exactly representable nonnegative rational number.
#[derive(Clone, Copy, Debug, PartialEq, Eq, Structural)]
pub struct Rational {
    pub num: u64,
    pub den: u64,
}

impl Rational {
    /// The mathematical fraction this value denotes.
    pub open spec fn v(self) -> (int, int) {
        (self.num as int, self.den as int)
    }

    pub open spec fn wf(self) -> bool {
        self.den >= 1
    }

    pub fn new(num: u64, den: u64) -> (r: Self)
        requires
            den >= 1,
        ensures
            r.v() == (num as int, den as int),
            r.wf(),
    {
        Rational { num, den }
    }

    pub fn zero() -> (r: Self)
        ensures
            r.v() == rzero(),
            r.wf(),
    {
        Rational { num: 0, den: 1 }
    }

    pub fn one() -> (r: Self)
        ensures
            r.v() == rone(),
            r.wf(),
    {
        Rational { num: 1, den: 1 }
    }

    /// Whether this value denotes exactly one.
    pub fn is_one(self) -> (r: bool)
        requires
            self.wf(),
        ensures
            r == req(self.v(), rone()),
    {
        proof {
            assert((self.num as int) * 1 == self.num as int);
            assert(1 * (self.den as int) == self.den as int);
        }
        self.num == self.den
    }

    /// Whether this value denotes exactly zero.
    pub fn is_zero(self) -> (r: bool)
        requires
            self.wf(),
        ensures
            r == req(self.v(), rzero()),
    {
        self.num == 0
    }

    /// Whether the two values denote the same rational number.
    pub fn equiv(self, other: Self) -> (r: bool)
        requires
            self.wf(),
            other.wf(),
        ensures
            r == req(self.v(), other.v()),
    {
        proof {
            lemma_u64_mul_fits(self.num as int, other.den as int);
            lemma_u64_mul_fits(other.num as int, self.den as int);
        }
        (self.num as u128) * (other.den as u128) == (other.num as u128) * (self.den as u128)
    }

    /// Whether this value is at most the other.
    pub fn le(self, other: Self) -> (r: bool)
        requires
            self.wf(),
            other.wf(),
        ensures
            r == rle(self.v(), other.v()),
    {
        proof {
            lemma_u64_mul_fits(self.num as int, other.den as int);
            lemma_u64_mul_fits(other.num as int, self.den as int);
        }
        (self.num as u128) * (other.den as u128) <= (other.num as u128) * (self.den as u128)
    }

    /// Exact sum, in lowest terms; `None` on arithmetic overflow.
    pub fn add(self, other: Self) -> (r: Option<Self>)
        requires
            self.wf(),
            other.wf(),
        ensures
            ({
                let n = self.num * other.den + other.num * self.den;
                let d = self.den * other.den;
                &&& r == spec_add(self, other)
                &&& r is Some == (n <= u128::MAX && reduce_fits(n as int, d as int))
                &&& r is Some ==> {
                    &&& r->Some_0.wf()
                    &&& r->Some_0.v() == reduce_spec(n as int, d as int)
                    &&& req(r->Some_0.v(), radd(self.v(), other.v()))
                }
            }),
    {
        proof {
            lemma_u64_mul_fits(self.num as int, other.den as int);
            lemma_u64_mul_fits(other.num as int, self.den as int);
            lemma_u64_mul_fits(self.den as int, other.den as int);
        }
        let n1: u128 = (self.num as u128) * (other.den as u128);
        let n2: u128 = (other.num as u128) * (self.den as u128);
        let d: u128 = (self.den as u128) * (other.den as u128);
        assert(d >= 1) by (nonlinear_arith)
            requires
                self.den >= 1,
                other.den >= 1,
                d == (self.den as u128) * (other.den as u128),
        {}
        match n1.checked_add(n2) {
            Some(n) => reduced(n, d),
            None => None,
        }
    }

    /// Exact product, in lowest terms; `None` on arithmetic overflow.
    pub fn mul(self, other: Self) -> (r: Option<Self>)
        requires
            self.wf(),
            other.wf(),
        ensures
            ({
                let n = self.num * other.num;
                let d = self.den * other.den;
                &&& r == spec_mul(self, other)
                &&& r is Some == reduce_fits(n as int, d as int)
                &&& r is Some ==> {
                    &&& r->Some_0.wf()
                    &&& r->Some_0.v() == reduce_spec(n as int, d as int)
                    &&& req(r->Some_0.v(), rmul(self.v(), other.v()))
                }
            }),
    {
        proof {
            lemma_u64_mul_fits(self.num as int, other.num as int);
            lemma_u64_mul_fits(self.den as int, other.den as int);
        }
        let n: u128 = (self.num as u128) * (other.num as u128);
        let d: u128 = (self.den as u128) * (other.den as u128);
        assert(d >= 1) by (nonlinear_arith)
            requires
                self.den >= 1,
                other.den >= 1,
                d == (self.den as u128) * (other.den as u128),
        {}
        reduced(n, d)
    }

    /// Exact quotient, in lowest terms; `None` on arithmetic overflow.
    pub fn div(self, other: Self) -> (r: Option<Self>)
        requires
            self.wf(),
            other.wf(),
            other.num >= 1,
        ensures
            ({
                let n = self.num * other.den;
                let d = self.den * other.num;
                &&& r == spec_div(self, other)
                &&& r is Some == reduce_fits(n as int, d as int)
                &&& r is Some ==> {
                    &&& r->Some_0.wf()
                    &&& r->Some_0.v() == reduce_spec(n as int, d as int)
                    &&& req(r->Some_0.v(), rdiv(self.v(), other.v()))
                }
            }),
    {
        proof {
            lemma_u64_mul_fits(self.num as int, other.den as int);
            lemma_u64_mul_fits(self.den as int, other.num as int);
        }
        let n: u128 = (self.num as u128) * (other.den as u128);
        let d: u128 = (self.den as u128) * (other.num as u128);
        assert(d >= 1) by (nonlinear_arith)
            requires
                self.den >= 1,
                other.num >= 1,
                d == (self.den as u128) * (other.num as u128),
        {}
        reduced(n, d)
    }

    /// One minus this value, exactly.
    pub fn complement(self) -> (r: Self)
        requires
            self.wf(),
            self.num <= self.den,
        ensures
            r == spec_comp(self),
            r.wf(),
            r.v() == rcomp(self.v()),
            r.num <= r.den,
    {
        Rational { num: self.den - self.num, den: self.den }
    }
}

/// Iterative Euclid; returns the greatest common divisor.
pub fn gcd_u128(a: u128, b: u128) -> (g: u128)
    ensures
        g as nat == gcd(a as nat, b as nat),
{
    let mut x: u128 = a;
    let mut y: u128 = b;
    while y != 0
        invariant
            gcd(x as nat, y as nat) == gcd(a as nat, b as nat),
        decreases y,
    {
        let r: u128 = x % y;
        x = y;
        y = r;
    }
    x
}

/// Reduces `n / d` to lowest terms and narrows it to the machine
/// representation; `None` when the reduced parts do not fit.
fn reduced(n: u128, d: u128) -> (r: Option<Rational>)
    requires
        d >= 1,
    ensures
        r == spec_reduced(n as int, d as int),
        r is Some == reduce_fits(n as int, d as int),
        r is Some ==> {
            &&& r->Some_0.wf()
            &&& r->Some_0.v() == reduce_spec(n as int, d as int)
            &&& req(r->Some_0.v(), (n as int, d as int))
        },
{
    let g: u128 = gcd_u128(n, d);
    proof {
        lemma_gcd(n as nat, d as nat);
        lemma_reduce_req(n as int, d as int);
    }
    let rn: u128 = n / g;
    let rd: u128 = d / g;
    if rn <= u64::MAX as u128 && rd <= u64::MAX as u128 {
        Some(Rational { num: rn as u64, den: rd as u64 })
    } else {
        None
    }
}

} // verus!
