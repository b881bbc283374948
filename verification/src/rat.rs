//! Exact rational numbers with `i64` numerator and positive denominator.
//!
//! The mathematical model of a rational is `RatVal`, a pair of unbounded
//! integers. The executable `Rat` carries the same pair in `i64` fields; its
//! checked operations compute the exact mathematical result and report `None`
//! whenever that result does not fit the machine representation.

use vstd::prelude::*;

verus! {

/// Mathematical value of a rational: numerator over denominator, unbounded.
pub struct RatVal {
    pub num: int,
    pub den: int,
}

/// An executable rational. Well-formed values keep `den >= 1`; the sign lives
/// in the numerator. Values are not reduced to lowest terms: equality of the
/// represented numbers is cross-multiplication, see [`Rat::eq_val`].
#[derive(Debug, Clone, Copy, PartialEq, Eq, Structural)]
pub struct Rat {
    pub num: i64,
    pub den: i64,
}

impl View for Rat {
    type V = RatVal;

    open spec fn view(&self) -> RatVal {
        RatVal { num: self.num as int, den: self.den as int }
    }
}

pub open spec fn fits_i64(x: int) -> bool {
    i64::MIN <= x <= i64::MAX
}

/// Both components of the exact result fit the machine representation.
pub open spec fn rat_fits(v: RatVal) -> bool {
    fits_i64(v.num) && fits_i64(v.den)
}

pub open spec fn rat_val_wf(v: RatVal) -> bool {
    v.den >= 1
}

/// a/b + c/d = (ad + cb) / bd, exactly.
pub open spec fn rat_add(a: RatVal, b: RatVal) -> RatVal {
    RatVal { num: a.num * b.den + b.num * a.den, den: a.den * b.den }
}

/// a/b - c/d = (ad - cb) / bd, exactly.
pub open spec fn rat_sub(a: RatVal, b: RatVal) -> RatVal {
    RatVal { num: a.num * b.den - b.num * a.den, den: a.den * b.den }
}

/// (a/b) * (c/d) = ac / bd, exactly.
pub open spec fn rat_mul(a: RatVal, b: RatVal) -> RatVal {
    RatVal { num: a.num * b.num, den: a.den * b.den }
}

/// (a/b) / (c/d) = ad / bc, with the sign moved into the numerator so that
/// the denominator stays positive. Only meaningful when `b.num != 0`.
pub open spec fn rat_div(a: RatVal, b: RatVal) -> RatVal {
    if b.num >= 0 {
        RatVal { num: a.num * b.den, den: a.den * b.num }
    } else {
        RatVal { num: -(a.num * b.den), den: a.den * (-b.num) }
    }
}

proof fn lemma_mul_bound(a: int, b: int, ab: int, bb: int)
    by (nonlinear_arith)
    requires
        -ab <= a <= ab,
        -bb <= b <= bb,
    ensures
        -(ab * bb) <= a * b <= ab * bb,
{
}

proof fn lemma_mul_pos(a: int, b: int)
    by (nonlinear_arith)
    requires
        a >= 1,
        b >= 1,
    ensures
        a * b >= 1,
{
}

proof fn lemma_mul_sign(a: int, b: int)
    by (nonlinear_arith)
    requires
        a >= 1,
    ensures
        b > 0 ==> a * b >= 1,
        b < 0 ==> a * b <= -1,
        b == 0 ==> a * b == 0,
{
}

impl Rat {
    /// The denominator is at least one.
    pub open spec fn wf(self) -> bool {
        self.den >= 1
    }

    /// Build a rational from an integer.
    pub fn from_int(n: i64) -> (r: Rat)
        ensures
            r.wf(),
            r@ == (RatVal { num: n as int, den: 1 }),
    {
        Rat { num: n, den: 1 }
    }

    /// Whether `self` and `other` represent the same number: a/b == c/d
    /// exactly when ad == cb.
    pub fn eq_val(self, other: Rat) -> (r: bool)
        requires
            self.wf(),
            other.wf(),
        ensures
            r == (self@.num * other@.den == other@.num * self@.den),
    {
        proof {
            lemma_mul_bound(self.num as int, other.den as int, 0x8000_0000_0000_0000, 0x7fff_ffff_ffff_ffff);
            lemma_mul_bound(other.num as int, self.den as int, 0x8000_0000_0000_0000, 0x7fff_ffff_ffff_ffff);
        }
        (self.num as i128) * (other.den as i128) == (other.num as i128) * (self.den as i128)
    }

    /// Exact sum, or `None` when it leaves the machine range.
    pub fn checked_add(self, other: Rat) -> (r: Option<Rat>)
        requires
            self.wf(),
            other.wf(),
        ensures
            ({
                let v = rat_add(self@, other@);
                match r {
                    Some(q) => rat_fits(v) && q.wf() && q@ == v,
                    None => !rat_fits(v),
                }
            }),
    {
        proof {
            lemma_mul_bound(self.num as int, other.den as int, 0x8000_0000_0000_0000, 0x7fff_ffff_ffff_ffff);
            lemma_mul_bound(other.num as int, self.den as int, 0x8000_0000_0000_0000, 0x7fff_ffff_ffff_ffff);
            lemma_mul_bound(self.den as int, other.den as int, 0x7fff_ffff_ffff_ffff, 0x7fff_ffff_ffff_ffff);
            lemma_mul_pos(self.den as int, other.den as int);
        }
        let n: i128 = (self.num as i128) * (other.den as i128) + (other.num as i128) * (self.den as i128);
        let d: i128 = (self.den as i128) * (other.den as i128);
        if i64::MIN as i128 <= n && n <= i64::MAX as i128 && d <= i64::MAX as i128 {
            Some(Rat { num: n as i64, den: d as i64 })
        } else {
            None
        }
    }

    /// Exact difference, or `None` when it leaves the machine range.
    pub fn checked_sub(self, other: Rat) -> (r: Option<Rat>)
        requires
            self.wf(),
            other.wf(),
        ensures
            ({
                let v = rat_sub(self@, other@);
                match r {
                    Some(q) => rat_fits(v) && q.wf() && q@ == v,
                    None => !rat_fits(v),
                }
            }),
    {
        proof {
            lemma_mul_bound(self.num as int, other.den as int, 0x8000_0000_0000_0000, 0x7fff_ffff_ffff_ffff);
            lemma_mul_bound(other.num as int, self.den as int, 0x8000_0000_0000_0000, 0x7fff_ffff_ffff_ffff);
            lemma_mul_bound(self.den as int, other.den as int, 0x7fff_ffff_ffff_ffff, 0x7fff_ffff_ffff_ffff);
            lemma_mul_pos(self.den as int, other.den as int);
        }
        let n: i128 = (self.num as i128) * (other.den as i128) - (other.num as i128) * (self.den as i128);
        let d: i128 = (self.den as i128) * (other.den as i128);
        if i64::MIN as i128 <= n && n <= i64::MAX as i128 && d <= i64::MAX as i128 {
            Some(Rat { num: n as i64, den: d as i64 })
        } else {
            None
        }
    }

    /// Exact product, or `None` when it leaves the machine range.
    pub fn checked_mul(self, other: Rat) -> (r: Option<Rat>)
        requires
            self.wf(),
            other.wf(),
        ensures
            ({
                let v = rat_mul(self@, other@);
                match r {
                    Some(q) => rat_fits(v) && q.wf() && q@ == v,
                    None => !rat_fits(v),
                }
            }),
    {
        proof {
            lemma_mul_bound(self.num as int, other.num as int, 0x8000_0000_0000_0000, 0x8000_0000_0000_0000);
            lemma_mul_bound(self.den as int, other.den as int, 0x7fff_ffff_ffff_ffff, 0x7fff_ffff_ffff_ffff);
            lemma_mul_pos(self.den as int, other.den as int);
        }
        let n: i128 = (self.num as i128) * (other.num as i128);
        let d: i128 = (self.den as i128) * (other.den as i128);
        if i64::MIN as i128 <= n && n <= i64::MAX as i128 && d <= i64::MAX as i128 {
            Some(Rat { num: n as i64, den: d as i64 })
        } else {
            None
        }
    }

    /// Exact quotient, or `None` when it leaves the machine range. The
    /// divisor must not represent zero; callers test that first.
    pub fn checked_div(self, other: Rat) -> (r: Option<Rat>)
        requires
            self.wf(),
            other.wf(),
            other@.num != 0,
        ensures
            ({
                let v = rat_div(self@, other@);
                match r {
                    Some(q) => rat_fits(v) && q.wf() && q@ == v,
                    None => !rat_fits(v),
                }
            }),
    {
        proof {
            lemma_mul_bound(self.num as int, other.den as int, 0x8000_0000_0000_0000, 0x7fff_ffff_ffff_ffff);
            lemma_mul_bound(self.den as int, other.num as int, 0x7fff_ffff_ffff_ffff, 0x8000_0000_0000_0000);
            lemma_mul_sign(self.den as int, other.num as int);
            assert((self.den as int) * (-(other.num as int)) == -((self.den as int) * (other.num as int)))
                by (nonlinear_arith);
        }
        let mut n: i128 = (self.num as i128) * (other.den as i128);
        let mut d: i128 = (self.den as i128) * (other.num as i128);
        if d < 0 {
            n = -n;
            d = -d;
        }
        if i64::MIN as i128 <= n && n <= i64::MAX as i128 && d <= i64::MAX as i128 {
            Some(Rat { num: n as i64, den: d as i64 })
        } else {
            None
        }
    }
}

} // verus!
