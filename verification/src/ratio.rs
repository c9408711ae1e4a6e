//! Exact rational numbers with a positive denominator.
//!
//! Profit-and-loss figures are integral while a market close is known, but an
//! average-price fallback and the PnL-ratio normalisation divide by running
//! totals, so the ledger reports them as exact fractions instead of rounding.

use vstd::prelude::*;

verus! {

/// Mathematical model of a rational: numerator over positive denominator.
pub ghost struct RatioV {
    pub num: int,
    pub den: int,
}

impl RatioV {
    /// Well-formed: the denominator is positive.
    pub open spec fn wf(self) -> bool {
        self.den >= 1
    }

    /// The integer `v` as a rational.
    pub open spec fn of_int(v: int) -> RatioV {
        RatioV { num: v, den: 1 }
    }

    /// `self <= other` as rational values (cross multiplication; both
    /// denominators are positive under `wf`).
    pub open spec fn le(self, other: RatioV) -> bool {
        self.num * other.den <= other.num * self.den
    }

    /// `self < other` as rational values.
    pub open spec fn lt(self, other: RatioV) -> bool {
        self.num * other.den < other.num * self.den
    }

    /// The floor of the rational value; `/` on `int` rounds toward negative
    /// infinity for a positive divisor.
    pub open spec fn floor(self) -> int {
        self.num / self.den
    }

    /// Both components bounded in magnitude: enough to form cross products in
    /// 128-bit arithmetic.
    pub open spec fn bounded(self, num_bound: int, den_bound: int) -> bool {
        &&& -num_bound <= self.num <= num_bound
        &&& 1 <= self.den <= den_bound
    }
}

/// Ordering by `le` is total.
pub proof fn lemma_ratio_le_total(a: RatioV, b: RatioV)
    requires
        a.wf(),
        b.wf(),
    ensures
        a.le(b) || b.le(a),
{
}

/// Ordering by `le` is transitive.
pub proof fn lemma_ratio_le_transitive(a: RatioV, b: RatioV, c: RatioV)
    by (nonlinear_arith)
    requires
        a.wf(),
        b.wf(),
        c.wf(),
        a.le(b),
        b.le(c),
    ensures
        a.le(c),
{
}

/// An exact rational with a positive denominator.
#[derive(Clone, Copy, Debug, PartialEq, Eq, Structural)]
pub struct Ratio {
    pub num: i128,
    pub den: i128,
}

impl View for Ratio {
    type V = RatioV;

    open spec fn view(&self) -> RatioV {
        RatioV { num: self.num as int, den: self.den as int }
    }
}

impl Ratio {
    /// Build a rational from numerator and positive denominator.
    pub fn new(num: i128, den: i128) -> (r: Ratio)
        requires
            den >= 1,
        ensures
            r@ == (RatioV { num: num as int, den: den as int }),
    {
        Ratio { num, den }
    }

    /// The integer `v` as a rational.
    pub fn of_int(v: i128) -> (r: Ratio)
        ensures
            r@ == RatioV::of_int(v as int),
    {
        Ratio { num: v, den: 1 }
    }

    /// Exact comparison `self <= other`.
    pub fn le(&self, other: &Ratio) -> (r: bool)
        requires
            self@.wf(),
            other@.wf(),
            i128::MIN <= self@.num * other@.den <= i128::MAX,
            i128::MIN <= other@.num * self@.den <= i128::MAX,
        ensures
            r == self@.le(other@),
    {
        self.num * other.den <= other.num * self.den
    }

    /// Exact comparison `self < other`.
    pub fn lt(&self, other: &Ratio) -> (r: bool)
        requires
            self@.wf(),
            other@.wf(),
            i128::MIN <= self@.num * other@.den <= i128::MAX,
            i128::MIN <= other@.num * self@.den <= i128::MAX,
        ensures
            r == self@.lt(other@),
    {
        self.num * other.den < other.num * self.den
    }

    /// The floor of the rational value. Its magnitude never exceeds the
    /// numerator's.
    pub fn floor(&self) -> (f: i128)
        requires
            self@.wf(),
            self@.num > i128::MIN,
        ensures
            f as int == self@.floor(),
            self@.num >= 0 ==> 0 <= f as int <= self@.num,
            self@.num < 0 ==> self@.num <= f as int <= 0,
    {
        proof {
            let n = self@.num;
            let d = self@.den;
            vstd::arithmetic::div_mod::lemma_fundamental_div_mod(n, d);
            vstd::arithmetic::div_mod::lemma_mod_division_less_than_divisor(n, d);
            if n >= 0 {
                assert(0 <= n / d <= n) by (nonlinear_arith)
                    requires
                        n == d * (n / d) + n % d,
                        0 <= n % d < d,
                        d >= 1,
                        n >= 0,
                ;
            } else {
                assert(n <= n / d <= 0) by (nonlinear_arith)
                    requires
                        n == d * (n / d) + n % d,
                        0 <= n % d < d,
                        d >= 1,
                        n < 0,
                ;
            }
        }
        if self.num >= 0 {
            self.num / self.den
        } else {
            let a = -self.num;
            let q = a / self.den;
            let rem = a % self.den;
            proof {
                lemma_neg_floor(self.num as int, self.den as int);
            }
            if rem == 0 {
                -q
            } else {
                -q - 1
            }
        }
    }
}

/// Relates Euclidean division of a negative numerator to division of its
/// magnitude: for `n < 0 <= d`, `n / d` is `-(-n / d)` minus one more when
/// the magnitude does not divide evenly.
proof fn lemma_neg_floor(n: int, d: int)
    requires
        n < 0,
        d >= 1,
    ensures
        (-n) % d == 0 ==> n / d == -((-n) / d),
        (-n) % d != 0 ==> n / d == -((-n) / d) - 1,
{
    let a = -n;
    vstd::arithmetic::div_mod::lemma_fundamental_div_mod(a, d);
    let q = a / d;
    let r = a % d;
    vstd::arithmetic::div_mod::lemma_mod_division_less_than_divisor(a, d);
    if r == 0 {
        assert(n == (-q) * d + 0) by (nonlinear_arith)
            requires
                a == d * q + r,
                r == 0,
                n == -a,
        ;
        vstd::arithmetic::div_mod::lemma_fundamental_div_mod_converse(n, d, -q, 0);
    } else {
        assert(n == (-q - 1) * d + (d - r)) by (nonlinear_arith)
            requires
                a == d * q + r,
                n == -a,
        ;
        vstd::arithmetic::div_mod::lemma_fundamental_div_mod_converse(n, d, -q - 1, d - r);
    }
}

} // verus!
