//! Exact rational numbers with machine-sized numerator and denominator.
//!
//! Results are not reduced: each operation says exactly which numerator and
//! denominator it yields, and yields nothing when one of them, or one of the
//! products it is made of, leaves the range.

use vstd::prelude::*;

verus! {

/// The range that numerators and denominators are kept in: that of `i128`
/// without its least value, so that every number in range can be negated.
pub open spec fn in_range(v: int) -> bool {
    -i128::MAX <= v <= i128::MAX
}

/// `v` as a machine integer, where it is in range.
pub open spec fn ranged(v: int) -> Option<i128> {
    if in_range(v) {
        Some(v as i128)
    } else {
        None
    }
}

/// `a * b`, where it is in range.
pub fn ranged_product(a: i128, b: i128) -> (r: Option<i128>)
    ensures
        r == ranged(a * b),
{
    match a.checked_mul(b) {
        Some(v) => if v == i128::MIN {
            None
        } else {
            Some(v)
        },
        None => None,
    }
}

/// `a + b`, where it is in range.
pub fn ranged_sum(a: i128, b: i128) -> (r: Option<i128>)
    ensures
        r == ranged(a + b),
{
    match a.checked_add(b) {
        Some(v) => if v == i128::MIN {
            None
        } else {
            Some(v)
        },
        None => None,
    }
}

/// `a - b`, where it is in range.
pub fn ranged_difference(a: i128, b: i128) -> (r: Option<i128>)
    ensures
        r == ranged(a - b),
{
    match a.checked_sub(b) {
        Some(v) => if v == i128::MIN {
            None
        } else {
            Some(v)
        },
        None => None,
    }
}

/// The rational number `num / den`.
#[derive(Clone, Copy, Debug, PartialEq, Eq, Structural, Hash)]
pub struct Fraction {
    pub num: i128,
    pub den: i128,
}

impl Fraction {
    /// The denominator is positive and the numerator can be negated.
    pub open spec fn wf(self) -> bool {
        self.den > 0 && in_range(self.num as int)
    }

    /// The number that the fraction stands for.
    pub open spec fn value(self) -> real {
        ratio(self.num as int, self.den as int)
    }

    /// The fraction `num / den` with the sign moved to the numerator, where
    /// `den` is not zero and both are in range.
    pub open spec fn spec_new(num: i128, den: i128) -> Option<Fraction> {
        if den == 0 || !in_range(num as int) || !in_range(den as int) {
            None
        } else if den < 0 {
            Some(Fraction { num: (-num) as i128, den: (-den) as i128 })
        } else {
            Some(Fraction { num, den })
        }
    }

    /// The sum over the product of the denominators.
    pub open spec fn spec_plus(self, other: Fraction) -> Option<Fraction> {
        match (
            ranged(self.num * other.den),
            ranged(other.num * self.den),
            ranged(self.den * other.den),
        ) {
            (Some(a), Some(b), Some(den)) => match ranged(a + b) {
                Some(num) => Some(Fraction { num, den }),
                None => None,
            },
            _ => None,
        }
    }

    /// The difference over the product of the denominators.
    pub open spec fn spec_minus(self, other: Fraction) -> Option<Fraction> {
        match (
            ranged(self.num * other.den),
            ranged(other.num * self.den),
            ranged(self.den * other.den),
        ) {
            (Some(a), Some(b), Some(den)) => match ranged(a - b) {
                Some(num) => Some(Fraction { num, den }),
                None => None,
            },
            _ => None,
        }
    }

    /// The product of the numerators over the product of the denominators.
    pub open spec fn spec_times(self, other: Fraction) -> Option<Fraction> {
        match (ranged(self.num * other.num), ranged(self.den * other.den)) {
            (Some(num), Some(den)) => Some(Fraction { num, den }),
            _ => None,
        }
    }

    /// The quotient, with the sign of the divisor moved to the numerator.
    /// Nothing where the divisor is zero.
    pub open spec fn spec_over(self, other: Fraction) -> Option<Fraction> {
        if other.num == 0 {
            None
        } else {
            match (ranged(self.num * other.den), ranged(self.den * other.num)) {
                (Some(num), Some(den)) => if den < 0 {
                    Some(Fraction { num: (-num) as i128, den: (-den) as i128 })
                } else {
                    Some(Fraction { num, den })
                },
                _ => None,
            }
        }
    }

    /// The same denominator under the negated numerator.
    pub open spec fn spec_negated(self) -> Fraction {
        Fraction { num: (-self.num) as i128, den: self.den }
    }

    /// The same denominator under the absolute value of the numerator.
    pub open spec fn spec_magnitude(self) -> Fraction {
        if self.num < 0 {
            self.spec_negated()
        } else {
            self
        }
    }

    /// Whether `self` is greater than `other`, by cross-multiplication.
    pub open spec fn spec_exceeds(self, other: Fraction) -> Option<bool> {
        match (ranged(self.num * other.den), ranged(other.num * self.den)) {
            (Some(a), Some(b)) => Some(a > b),
            _ => None,
        }
    }

    /// The whole number `v`.
    pub fn from_int(v: i64) -> (f: Fraction)
        ensures
            f == (Fraction { num: v as i128, den: 1 }),
            f.wf(),
            f.value() == (v as real),
    {
        proof {
            let r = v as real;
            assert(r / 1real == r) by (nonlinear_arith);
        }
        Fraction { num: v as i128, den: 1 }
    }

    /// The fraction `num / den`.
    pub fn new(num: i128, den: i128) -> (f: Option<Fraction>)
        ensures
            f == Fraction::spec_new(num, den),
            f matches Some(q) ==> q.wf() && q.value() == ratio(num as int, den as int),
    {
        if den == 0 || num == i128::MIN || den == i128::MIN {
            None
        } else if den < 0 {
            proof {
                lemma_ratio_negated(num as int, den as int);
            }
            Some(Fraction { num: -num, den: -den })
        } else {
            Some(Fraction { num, den })
        }
    }

    /// Whether the number is zero.
    pub fn is_zero(&self) -> (b: bool)
        requires
            self.wf(),
        ensures
            b == (self.num == 0),
            b == (self.value() == 0real),
    {
        proof {
            lemma_ratio_sign(self.num as int, self.den as int);
        }
        self.num == 0
    }

    /// Whether the number is below zero.
    pub fn is_negative(&self) -> (b: bool)
        requires
            self.wf(),
        ensures
            b == (self.num < 0),
            b == (self.value() < 0real),
    {
        proof {
            lemma_ratio_sign(self.num as int, self.den as int);
        }
        self.num < 0
    }

    /// `-self`.
    pub fn negated(&self) -> (f: Fraction)
        requires
            self.wf(),
        ensures
            f == self.spec_negated(),
            f.wf(),
            f.value() == -self.value(),
    {
        proof {
            lemma_ratio_sign(self.num as int, self.den as int);
        }
        Fraction { num: -self.num, den: self.den }
    }

    /// The absolute value.
    pub fn magnitude(&self) -> (f: Fraction)
        requires
            self.wf(),
        ensures
            f == self.spec_magnitude(),
            f.wf(),
            f.value() == real_abs(self.value()),
    {
        proof {
            lemma_ratio_sign(self.num as int, self.den as int);
        }
        if self.num < 0 {
            self.negated()
        } else {
            *self
        }
    }

    /// `self + other`.
    pub fn plus(&self, other: Fraction) -> (sum: Option<Fraction>)
        requires
            self.wf(),
            other.wf(),
        ensures
            sum == self.spec_plus(other),
            sum matches Some(f) ==> f.wf() && f.value() == self.value() + other.value(),
    {
        let a = ranged_product(self.num, other.den);
        let b = ranged_product(other.num, self.den);
        let d = ranged_product(self.den, other.den);
        match (a, b, d) {
            (Some(a), Some(b), Some(den)) => match ranged_sum(a, b) {
                Some(num) => {
                    proof {
                        lemma_ratio_sum(
                            self.num as int,
                            self.den as int,
                            other.num as int,
                            other.den as int,
                        );
                    }
                    Some(Fraction { num, den })
                },
                None => None,
            },
            _ => None,
        }
    }

    /// `self - other`.
    pub fn minus(&self, other: Fraction) -> (difference: Option<Fraction>)
        requires
            self.wf(),
            other.wf(),
        ensures
            difference == self.spec_minus(other),
            difference matches Some(f) ==> f.wf() && f.value() == self.value() - other.value(),
    {
        let a = ranged_product(self.num, other.den);
        let b = ranged_product(other.num, self.den);
        let d = ranged_product(self.den, other.den);
        match (a, b, d) {
            (Some(a), Some(b), Some(den)) => match ranged_difference(a, b) {
                Some(num) => {
                    proof {
                        lemma_ratio_difference(
                            self.num as int,
                            self.den as int,
                            other.num as int,
                            other.den as int,
                        );
                    }
                    Some(Fraction { num, den })
                },
                None => None,
            },
            _ => None,
        }
    }

    /// `self * other`.
    pub fn times(&self, other: Fraction) -> (product: Option<Fraction>)
        requires
            self.wf(),
            other.wf(),
        ensures
            product == self.spec_times(other),
            product matches Some(f) ==> f.wf() && f.value() == self.value() * other.value(),
    {
        let n = ranged_product(self.num, other.num);
        let d = ranged_product(self.den, other.den);
        match (n, d) {
            (Some(num), Some(den)) => {
                proof {
                    lemma_ratio_product(
                        self.num as int,
                        self.den as int,
                        other.num as int,
                        other.den as int,
                    );
                }
                Some(Fraction { num, den })
            },
            _ => None,
        }
    }

    /// `self / other`, for a divisor other than zero.
    pub fn over(&self, other: Fraction) -> (quotient: Option<Fraction>)
        requires
            self.wf(),
            other.wf(),
        ensures
            quotient == self.spec_over(other),
            quotient matches Some(f) ==> f.wf() && other.value() != 0real && f.value()
                == self.value() / other.value(),
    {
        if other.num == 0 {
            return None;
        }
        let n = ranged_product(self.num, other.den);
        let d = ranged_product(self.den, other.num);
        match (n, d) {
            (Some(num), Some(den)) => {
                proof {
                    lemma_ratio_quotient(
                        self.num as int,
                        self.den as int,
                        other.num as int,
                        other.den as int,
                    );
                    lemma_ratio_negated(num as int, den as int);
                }
                if den < 0 {
                    Some(Fraction { num: -num, den: -den })
                } else {
                    Some(Fraction { num, den })
                }
            },
            _ => None,
        }
    }

    /// Whether `self` is greater than `other`.
    pub fn exceeds(&self, other: Fraction) -> (greater: Option<bool>)
        requires
            self.wf(),
            other.wf(),
        ensures
            greater == self.spec_exceeds(other),
            greater matches Some(b) ==> b == (self.value() > other.value()),
    {
        let a = ranged_product(self.num, other.den);
        let b = ranged_product(other.num, self.den);
        match (a, b) {
            (Some(a), Some(b)) => {
                proof {
                    lemma_ratio_order(
                        self.num as int,
                        self.den as int,
                        other.num as int,
                        other.den as int,
                    );
                }
                Some(a > b)
            },
            _ => None,
        }
    }
}

/// A result that is missing or well-formed.
pub open spec fn wf_or_none(a: Option<Fraction>) -> bool {
    a matches Some(f) ==> f.wf()
}

/// The sum of two results, missing where either is.
pub open spec fn spec_sum_of(a: Option<Fraction>, b: Option<Fraction>) -> Option<Fraction> {
    match (a, b) {
        (Some(x), Some(y)) => x.spec_plus(y),
        _ => None,
    }
}

/// The difference of two results, missing where either is.
pub open spec fn spec_difference_of(a: Option<Fraction>, b: Option<Fraction>) -> Option<Fraction> {
    match (a, b) {
        (Some(x), Some(y)) => x.spec_minus(y),
        _ => None,
    }
}

/// The product of two results, missing where either is.
pub open spec fn spec_product_of(a: Option<Fraction>, b: Option<Fraction>) -> Option<Fraction> {
    match (a, b) {
        (Some(x), Some(y)) => x.spec_times(y),
        _ => None,
    }
}

/// The quotient of two results, missing where either is.
pub open spec fn spec_quotient_of(a: Option<Fraction>, b: Option<Fraction>) -> Option<Fraction> {
    match (a, b) {
        (Some(x), Some(y)) => x.spec_over(y),
        _ => None,
    }
}

/// The sum of two results, missing where either is.
pub fn sum_of(a: Option<Fraction>, b: Option<Fraction>) -> (r: Option<Fraction>)
    requires
        wf_or_none(a),
        wf_or_none(b),
    ensures
        r == spec_sum_of(a, b),
        r matches Some(f) ==> f.wf() && a.is_some() && b.is_some() && f.value()
            == a.unwrap().value() + b.unwrap().value(),
{
    match (a, b) {
        (Some(x), Some(y)) => x.plus(y),
        _ => None,
    }
}

/// The difference of two results, missing where either is.
pub fn difference_of(a: Option<Fraction>, b: Option<Fraction>) -> (r: Option<Fraction>)
    requires
        wf_or_none(a),
        wf_or_none(b),
    ensures
        r == spec_difference_of(a, b),
        r matches Some(f) ==> f.wf() && a.is_some() && b.is_some() && f.value()
            == a.unwrap().value() - b.unwrap().value(),
{
    match (a, b) {
        (Some(x), Some(y)) => x.minus(y),
        _ => None,
    }
}

/// The product of two results, missing where either is.
pub fn product_of(a: Option<Fraction>, b: Option<Fraction>) -> (r: Option<Fraction>)
    requires
        wf_or_none(a),
        wf_or_none(b),
    ensures
        r == spec_product_of(a, b),
        r matches Some(f) ==> f.wf() && a.is_some() && b.is_some() && f.value()
            == a.unwrap().value() * b.unwrap().value(),
{
    match (a, b) {
        (Some(x), Some(y)) => x.times(y),
        _ => None,
    }
}

/// The quotient of two results, missing where either is or the divisor is
/// zero.
pub fn quotient_of(a: Option<Fraction>, b: Option<Fraction>) -> (r: Option<Fraction>)
    requires
        wf_or_none(a),
        wf_or_none(b),
    ensures
        r == spec_quotient_of(a, b),
        r matches Some(f) ==> f.wf() && a.is_some() && b.is_some() && b.unwrap().value() != 0real
            && f.value() == a.unwrap().value() / b.unwrap().value(),
{
    match (a, b) {
        (Some(x), Some(y)) => x.over(y),
        _ => None,
    }
}

/// The real number `n / d`.
pub open spec fn ratio(n: int, d: int) -> real {
    n as real / d as real
}

/// The absolute value of a real number.
pub open spec fn real_abs(v: real) -> real {
    if v < 0real {
        -v
    } else {
        v
    }
}

/// A ratio with a positive denominator has the sign of its numerator, and
/// negating the numerator negates the ratio.
pub proof fn lemma_ratio_sign(n: int, d: int)
    requires
        d > 0,
    ensures
        (n == 0) == (ratio(n, d) == 0real),
        (n < 0) == (ratio(n, d) < 0real),
        ratio(-n, d) == -ratio(n, d),
{
    let nr = n as real;
    let dr = d as real;
    assert((nr == 0real) == (nr / dr == 0real) && (nr < 0real) == (nr / dr < 0real) && (-nr) / dr
        == -(nr / dr)) by (nonlinear_arith)
        requires
            dr > 0real,
    ;
}

/// Negating numerator and denominator together leaves a ratio as it is.
pub proof fn lemma_ratio_negated(n: int, d: int)
    requires
        d != 0,
    ensures
        ratio(-n, -d) == ratio(n, d),
{
    let nr = n as real;
    let dr = d as real;
    assert((-nr) / (-dr) == nr / dr) by (nonlinear_arith)
        requires
            dr != 0real,
    ;
}

/// `an / ad + bn / bd` over the common denominator `ad * bd`.
pub proof fn lemma_ratio_sum(an: int, ad: int, bn: int, bd: int)
    requires
        ad > 0,
        bd > 0,
    ensures
        ad * bd > 0,
        ratio(an * bd + bn * ad, ad * bd) == ratio(an, ad) + ratio(bn, bd),
{
    let (a, b, c, d) = (an as real, ad as real, bn as real, bd as real);
    assert(ad * bd > 0) by (nonlinear_arith)
        requires
            ad > 0,
            bd > 0,
    ;
    assert((an * bd + bn * ad) as real == a * d + c * b && (ad * bd) as real == b * d)
        by (nonlinear_arith)
        requires
            a == an as real,
            b == ad as real,
            c == bn as real,
            d == bd as real,
    ;
    assert((a * d + c * b) / (b * d) == a / b + c / d) by (nonlinear_arith)
        requires
            b > 0real,
            d > 0real,
    ;
}

/// `an / ad - bn / bd` over the common denominator `ad * bd`.
pub proof fn lemma_ratio_difference(an: int, ad: int, bn: int, bd: int)
    requires
        ad > 0,
        bd > 0,
    ensures
        ad * bd > 0,
        ratio(an * bd - bn * ad, ad * bd) == ratio(an, ad) - ratio(bn, bd),
{
    let (a, b, c, d) = (an as real, ad as real, bn as real, bd as real);
    assert(ad * bd > 0) by (nonlinear_arith)
        requires
            ad > 0,
            bd > 0,
    ;
    assert((an * bd - bn * ad) as real == a * d - c * b && (ad * bd) as real == b * d)
        by (nonlinear_arith)
        requires
            a == an as real,
            b == ad as real,
            c == bn as real,
            d == bd as real,
    ;
    assert((a * d - c * b) / (b * d) == a / b - c / d) by (nonlinear_arith)
        requires
            b > 0real,
            d > 0real,
    ;
}

/// `(an / ad) * (bn / bd)` as one ratio.
pub proof fn lemma_ratio_product(an: int, ad: int, bn: int, bd: int)
    requires
        ad > 0,
        bd > 0,
    ensures
        ad * bd > 0,
        ratio(an * bn, ad * bd) == ratio(an, ad) * ratio(bn, bd),
{
    let (a, b, c, d) = (an as real, ad as real, bn as real, bd as real);
    assert(ad * bd > 0) by (nonlinear_arith)
        requires
            ad > 0,
            bd > 0,
    ;
    assert((an * bn) as real == a * c && (ad * bd) as real == b * d) by (nonlinear_arith)
        requires
            a == an as real,
            b == ad as real,
            c == bn as real,
            d == bd as real,
    ;
    assert((a * c) / (b * d) == (a / b) * (c / d)) by (nonlinear_arith)
        requires
            b > 0real,
            d > 0real,
    ;
}

/// `(an / ad) / (bn / bd)` as one ratio, for `bn` other than zero.
pub proof fn lemma_ratio_quotient(an: int, ad: int, bn: int, bd: int)
    requires
        ad > 0,
        bd > 0,
        bn != 0,
    ensures
        ad * bn != 0,
        ratio(bn, bd) != 0real,
        ratio(an * bd, ad * bn) == ratio(an, ad) / ratio(bn, bd),
{
    let (a, b, c, d) = (an as real, ad as real, bn as real, bd as real);
    assert(ad * bn != 0) by (nonlinear_arith)
        requires
            ad > 0,
            bn != 0,
    ;
    assert((an * bd) as real == a * d && (ad * bn) as real == b * c) by (nonlinear_arith)
        requires
            a == an as real,
            b == ad as real,
            c == bn as real,
            d == bd as real,
    ;
    assert(c / d != 0real && (a * d) / (b * c) == (a / b) / (c / d)) by (nonlinear_arith)
        requires
            b > 0real,
            d > 0real,
            c != 0real,
    ;
}

/// Two ratios with positive denominators compare as their cross products.
pub proof fn lemma_ratio_order(an: int, ad: int, bn: int, bd: int)
    requires
        ad > 0,
        bd > 0,
    ensures
        (an * bd > bn * ad) == (ratio(an, ad) > ratio(bn, bd)),
        (an * bd == bn * ad) == (ratio(an, ad) == ratio(bn, bd)),
{
    let (a, b, c, d) = (an as real, ad as real, bn as real, bd as real);
    assert((an * bd) as real == a * d && (bn * ad) as real == c * b) by (nonlinear_arith)
        requires
            a == an as real,
            b == ad as real,
            c == bn as real,
            d == bd as real,
    ;
    assert((a * d > c * b) == (a / b > c / d) && (a * d == c * b) == (a / b == c / d))
        by (nonlinear_arith)
        requires
            b > 0real,
            d > 0real,
    ;
}

/// A well-formed fraction whose numerator is at most `n` in magnitude and
/// whose denominator is at most `d`.
pub open spec fn bounded(f: Fraction, n: int, d: int) -> bool {
    f.wf() && -n <= f.num <= n && f.den <= d
}

/// A sum or difference of bounded fractions is in range where the bounds
/// leave room for it.
pub proof fn lemma_plus_minus_bounded(a: Fraction, b: Fraction, an: int, ad: int, bn: int, bd: int)
    requires
        bounded(a, an, ad),
        bounded(b, bn, bd),
        an * bd + bn * ad <= i128::MAX,
        ad * bd <= i128::MAX,
    ensures
        a.spec_plus(b) matches Some(f) && bounded(f, an * bd + bn * ad, ad * bd) && f.num == a.num
            * b.den + b.num * a.den && f.den == a.den * b.den,
        a.spec_minus(b) matches Some(f) && bounded(f, an * bd + bn * ad, ad * bd) && f.num
            == a.num * b.den - b.num * a.den && f.den == a.den * b.den,
{
    let (x, y, den) = (a.num * b.den, b.num * a.den, a.den * b.den);
    assert(-(an * bd) <= x <= an * bd && -(bn * ad) <= y <= bn * ad && 0 < den <= ad * bd)
        by (nonlinear_arith)
        requires
            x == a.num * b.den,
            y == b.num * a.den,
            den == a.den * b.den,
            -an <= a.num <= an,
            -bn <= b.num <= bn,
            0 < a.den <= ad,
            0 < b.den <= bd,
    ;
    assert(an * bd >= 0 && bn * ad >= 0) by (nonlinear_arith)
        requires
            an >= 0,
            bn >= 0,
            ad > 0,
            bd > 0,
    ;
}

/// A product of bounded fractions is in range where the bounds leave room
/// for it.
pub proof fn lemma_times_bounded(a: Fraction, b: Fraction, an: int, ad: int, bn: int, bd: int)
    requires
        bounded(a, an, ad),
        bounded(b, bn, bd),
        an * bn <= i128::MAX,
        ad * bd <= i128::MAX,
    ensures
        a.spec_times(b) matches Some(f) && bounded(f, an * bn, ad * bd) && f.num == a.num * b.num
            && f.den == a.den * b.den,
{
    let (num, den) = (a.num * b.num, a.den * b.den);
    assert(-(an * bn) <= num <= an * bn && 0 < den <= ad * bd) by (nonlinear_arith)
        requires
            num == a.num * b.num,
            den == a.den * b.den,
            -an <= a.num <= an,
            -bn <= b.num <= bn,
            0 < a.den <= ad,
            0 < b.den <= bd,
    ;
}

/// A quotient of bounded fractions, the divisor other than zero, is in range
/// where the bounds leave room for it.
pub proof fn lemma_over_bounded(a: Fraction, b: Fraction, an: int, ad: int, bn: int, bd: int)
    requires
        bounded(a, an, ad),
        bounded(b, bn, bd),
        b.num != 0,
        an * bd <= i128::MAX,
        ad * bn <= i128::MAX,
    ensures
        a.spec_over(b) matches Some(f) && bounded(f, an * bd, ad * bn),
{
    let (num, den) = (a.num * b.den, a.den * b.num);
    assert(-(an * bd) <= num <= an * bd && -(ad * bn) <= den <= ad * bn && den != 0)
        by (nonlinear_arith)
        requires
            num == a.num * b.den,
            den == a.den * b.num,
            -an <= a.num <= an,
            -bn <= b.num <= bn,
            b.num != 0,
            0 < a.den <= ad,
            0 < b.den <= bd,
    ;
}

} // verus!
