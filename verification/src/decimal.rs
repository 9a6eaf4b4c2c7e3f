//! Fixed-point decimal numbers.
//!
//! A [`Decimal`] is a signed 96-bit mantissa `m` together with a scale `s`
//! between 0 and 28; it stands for the number `m / 10^s`. Comparison, sign and
//! absolute value are stated exactly. Sums, differences, products and
//! quotients are computed by the `rust_decimal` crate, which rounds where the
//! exact result does not fit: the contracts give each such result a name and
//! say nothing more of it than that it is again a decimal.

use vstd::prelude::*;
use std::cmp::Ordering;

verus! {

/// The largest scale a decimal can have.
pub const MAX_SCALE: u32 = 28;

/// The largest mantissa a decimal can have: 2^96 - 1.
pub const MAX_MANTISSA: i128 = 79_228_162_514_264_337_593_543_950_335;

/// Ten to the power `n`.
pub open spec fn pow10(n: nat) -> int
    decreases n,
{
    if n == 0 {
        1
    } else {
        10 * pow10((n - 1) as nat)
    }
}

/// Whether `mantissa` and `scale` are within the bounds of a decimal.
pub open spec fn in_range(mantissa: int, scale: nat) -> bool {
    -MAX_MANTISSA <= mantissa <= MAX_MANTISSA && scale <= MAX_SCALE
}

/// What `rust_decimal::Decimal::checked_add` returns for the decimals
/// `am / 10^a_scale` and `bm / 10^b_scale`: mantissa and scale of the sum, or
/// `None` where the sum overflows.
pub uninterp spec fn decimal_sum(am: int, a_scale: nat, bm: int, b_scale: nat) -> Option<(int, nat)>;

/// What `rust_decimal::Decimal::checked_sub` returns: mantissa and scale of
/// the difference, or `None` on overflow.
pub uninterp spec fn decimal_difference(am: int, a_scale: nat, bm: int, b_scale: nat) -> Option<(int, nat)>;

/// What `rust_decimal::Decimal::checked_mul` returns: mantissa and scale of
/// the product, or `None` on overflow.
pub uninterp spec fn decimal_product(am: int, a_scale: nat, bm: int, b_scale: nat) -> Option<(int, nat)>;

/// What `rust_decimal::Decimal::checked_div` returns: mantissa and scale of
/// the quotient, or `None` on overflow or division by zero.
pub uninterp spec fn decimal_quotient(am: int, a_scale: nat, bm: int, b_scale: nat) -> Option<(int, nat)>;

/// The text `rust_decimal::Decimal` shows for `mantissa / 10^scale`.
pub uninterp spec fn decimal_text(mantissa: int, scale: nat) -> Seq<char>;

/// A fixed-point decimal number `mantissa / 10^scale`.
#[derive(Debug, Clone, Copy)]
pub struct Decimal {
    mantissa: i128,
    scale: u32,
}

impl Decimal {
    #[verifier::type_invariant]
    spec fn within_bounds(self) -> bool {
        in_range(self.mantissa as int, self.scale as nat)
    }

    /// The mantissa.
    pub closed spec fn spec_mantissa(self) -> int {
        self.mantissa as int
    }

    /// The scale: the number of digits after the decimal point.
    pub closed spec fn spec_scale(self) -> nat {
        self.scale as nat
    }

    /// The decimal with the given mantissa and scale.
    pub closed spec fn from_pair(mantissa: int, scale: nat) -> Decimal {
        Decimal { mantissa: mantissa as i128, scale: scale as u32 }
    }

    /// The number as a multiple of 10^-28. Two decimals stand for the same
    /// number exactly when their units are equal.
    pub open spec fn units(self) -> int {
        if self.spec_scale() <= MAX_SCALE {
            self.spec_mantissa() * pow10((MAX_SCALE - self.spec_scale()) as nat)
        } else {
            0
        }
    }

    /// Numeric equality.
    pub open spec fn same_value(self, other: Decimal) -> bool {
        self.units() == other.units()
    }

    /// Numeric "less than".
    pub open spec fn less_than(self, other: Decimal) -> bool {
        self.units() < other.units()
    }

    /// Numeric "less than or equal".
    pub open spec fn at_most(self, other: Decimal) -> bool {
        self.units() <= other.units()
    }

    /// Whether the number is greater than zero.
    pub open spec fn positive(self) -> bool {
        self.spec_mantissa() > 0
    }

    /// Whether the number is less than zero.
    pub open spec fn negative(self) -> bool {
        self.spec_mantissa() < 0
    }

    /// The sum as `rust_decimal` computes it, or `None` on overflow.
    pub open spec fn spec_add(self, rhs: Decimal) -> Option<Decimal> {
        lift(decimal_sum(self.spec_mantissa(), self.spec_scale(), rhs.spec_mantissa(), rhs.spec_scale()))
    }

    /// The difference as `rust_decimal` computes it, or `None` on overflow.
    pub open spec fn spec_sub(self, rhs: Decimal) -> Option<Decimal> {
        lift(decimal_difference(self.spec_mantissa(), self.spec_scale(), rhs.spec_mantissa(), rhs.spec_scale()))
    }

    /// The product as `rust_decimal` computes it, or `None` on overflow.
    pub open spec fn spec_mul(self, rhs: Decimal) -> Option<Decimal> {
        lift(decimal_product(self.spec_mantissa(), self.spec_scale(), rhs.spec_mantissa(), rhs.spec_scale()))
    }

    /// The quotient as `rust_decimal` computes it, or `None` on overflow or
    /// division by zero.
    pub open spec fn spec_div(self, rhs: Decimal) -> Option<Decimal> {
        lift(decimal_quotient(self.spec_mantissa(), self.spec_scale(), rhs.spec_mantissa(), rhs.spec_scale()))
    }

    /// The absolute value.
    pub open spec fn spec_abs(self) -> Decimal {
        if self.spec_mantissa() < 0 {
            Decimal::from_pair(-self.spec_mantissa(), self.spec_scale())
        } else {
            self
        }
    }

    /// The number with its sign reversed.
    pub open spec fn spec_neg(self) -> Decimal {
        Decimal::from_pair(-self.spec_mantissa(), self.spec_scale())
    }

    /// The decimal text of the number.
    pub open spec fn spec_text(self) -> Seq<char> {
        decimal_text(self.spec_mantissa(), self.spec_scale())
    }

    /// The decimal `num / 10^scale`.
    pub fn new(num: i64, scale: u32) -> (r: Decimal)
        requires
            scale <= MAX_SCALE,
        ensures
            r == Decimal::from_pair(num as int, scale as nat),
            r.spec_mantissa() == num,
            r.spec_scale() == scale,
    {
        Decimal { mantissa: num as i128, scale }
    }

    /// The decimal `mantissa / 10^scale`, or `None` where the mantissa needs
    /// more than 96 bits or the scale is above 28.
    pub fn from_parts(mantissa: i128, scale: u32) -> (r: Option<Decimal>)
        ensures
            r is Some <==> in_range(mantissa as int, scale as nat),
            r matches Some(d) ==> d == Decimal::from_pair(mantissa as int, scale as nat)
                && d.spec_mantissa() == mantissa && d.spec_scale() == scale,
    {
        if scale <= MAX_SCALE && -MAX_MANTISSA <= mantissa && mantissa <= MAX_MANTISSA {
            Some(Decimal { mantissa, scale })
        } else {
            None
        }
    }

    /// The decimal `n / 10^scale` for a number without sign.
    pub fn from_unsigned(n: u64, scale: u32) -> (r: Decimal)
        requires
            scale <= MAX_SCALE,
        ensures
            r == Decimal::from_pair(n as int, scale as nat),
            r.spec_mantissa() == n,
            r.spec_scale() == scale,
    {
        Decimal { mantissa: n as i128, scale }
    }

    /// The whole number `n`.
    pub fn from_int(n: i64) -> (r: Decimal)
        ensures
            r == Decimal::from_pair(n as int, 0),
            r.spec_mantissa() == n,
            r.spec_scale() == 0,
    {
        Decimal { mantissa: n as i128, scale: 0 }
    }

    /// Zero.
    pub fn zero() -> (r: Decimal)
        ensures
            r == Decimal::from_pair(0, 0),
            r.spec_mantissa() == 0,
            r.spec_scale() == 0,
    {
        Decimal { mantissa: 0, scale: 0 }
    }

    /// One.
    pub fn one() -> (r: Decimal)
        ensures
            r == Decimal::from_pair(1, 0),
            r.spec_mantissa() == 1,
            r.spec_scale() == 0,
    {
        Decimal { mantissa: 1, scale: 0 }
    }

    /// The mantissa.
    pub fn mantissa(&self) -> (m: i128)
        ensures
            m == self.spec_mantissa(),
            -MAX_MANTISSA <= m <= MAX_MANTISSA,
    {
        proof {
            use_type_invariant(self);
        }
        self.mantissa
    }

    /// The scale.
    pub fn scale(&self) -> (s: u32)
        ensures
            s == self.spec_scale(),
            s <= MAX_SCALE,
    {
        proof {
            use_type_invariant(self);
        }
        self.scale
    }

    /// Whether the number is zero.
    pub fn is_zero(&self) -> (r: bool)
        ensures
            r == (self.spec_mantissa() == 0),
            r == (self.units() == 0),
    {
        proof {
            use_type_invariant(self);
            lemma_units_sign(*self);
        }
        self.mantissa == 0
    }

    /// Whether the number is below zero.
    pub fn is_negative(&self) -> (r: bool)
        ensures
            r == self.negative(),
            r == (self.units() < 0),
    {
        proof {
            use_type_invariant(self);
            lemma_units_sign(*self);
        }
        self.mantissa < 0
    }

    /// Whether the number is above zero.
    pub fn is_positive(&self) -> (r: bool)
        ensures
            r == self.positive(),
            r == (self.units() > 0),
    {
        proof {
            use_type_invariant(self);
            lemma_units_sign(*self);
        }
        self.mantissa > 0
    }

    /// The absolute value.
    pub fn abs(&self) -> (r: Decimal)
        ensures
            r == self.spec_abs(),
            r.units() == if self.units() < 0 { -self.units() } else { self.units() },
    {
        proof {
            use_type_invariant(self);
            lemma_units_negate(*self);
        }
        if self.mantissa < 0 {
            Decimal { mantissa: -self.mantissa, scale: self.scale }
        } else {
            *self
        }
    }

    /// The number with its sign reversed.
    pub fn neg(&self) -> (r: Decimal)
        ensures
            r == self.spec_neg(),
            r.units() == -self.units(),
    {
        proof {
            use_type_invariant(self);
            lemma_units_negate(*self);
        }
        Decimal { mantissa: -self.mantissa, scale: self.scale }
    }

    /// The sum, or `None` where it overflows.
    pub fn checked_add(self, rhs: Decimal) -> (r: Option<Decimal>)
        ensures
            r == self.spec_add(rhs),
    {
        proof {
            use_type_invariant(&self);
            use_type_invariant(&rhs);
        }
        let r = sum_outside(self, rhs);
        proof {
            lemma_lift_lower(r);
        }
        r
    }

    /// The difference, or `None` where it overflows.
    pub fn checked_sub(self, rhs: Decimal) -> (r: Option<Decimal>)
        ensures
            r == self.spec_sub(rhs),
    {
        proof {
            use_type_invariant(&self);
            use_type_invariant(&rhs);
        }
        let r = difference_outside(self, rhs);
        proof {
            lemma_lift_lower(r);
        }
        r
    }

    /// The product, or `None` where it overflows.
    pub fn checked_mul(self, rhs: Decimal) -> (r: Option<Decimal>)
        ensures
            r == self.spec_mul(rhs),
    {
        proof {
            use_type_invariant(&self);
            use_type_invariant(&rhs);
        }
        let r = product_outside(self, rhs);
        proof {
            lemma_lift_lower(r);
        }
        r
    }

    /// The quotient, or `None` where it overflows or `rhs` is zero.
    pub fn checked_div(self, rhs: Decimal) -> (r: Option<Decimal>)
        ensures
            r == self.spec_div(rhs),
    {
        proof {
            use_type_invariant(&self);
            use_type_invariant(&rhs);
        }
        let r = quotient_outside(self, rhs);
        proof {
            lemma_lift_lower(r);
        }
        r
    }

    /// The decimal text of the number.
    pub fn to_text(&self) -> (r: String)
        ensures
            r@ == self.spec_text(),
    {
        proof {
            use_type_invariant(self);
        }
        text_outside(*self)
    }

    /// Numeric equality: `1.0` and `1.00` are the same value.
    pub fn eq_value(&self, other: &Decimal) -> (r: bool)
        ensures
            r == self.same_value(*other),
    {
        proof {
            use_type_invariant(self);
            use_type_invariant(other);
        }
        sign_of_comparison(*self, *other) == 0
    }

    /// Numeric "less than".
    pub fn lt(&self, other: &Decimal) -> (r: bool)
        ensures
            r == self.less_than(*other),
    {
        proof {
            use_type_invariant(self);
            use_type_invariant(other);
        }
        sign_of_comparison(*self, *other) < 0
    }

    /// Numeric "less than or equal".
    pub fn le(&self, other: &Decimal) -> (r: bool)
        ensures
            r == self.at_most(*other),
    {
        proof {
            use_type_invariant(self);
            use_type_invariant(other);
        }
        sign_of_comparison(*self, *other) <= 0
    }

    /// Numeric "greater than".
    pub fn gt(&self, other: &Decimal) -> (r: bool)
        ensures
            r == other.less_than(*self),
    {
        proof {
            use_type_invariant(self);
            use_type_invariant(other);
        }
        sign_of_comparison(*self, *other) > 0
    }

    /// Numeric "greater than or equal".
    pub fn ge(&self, other: &Decimal) -> (r: bool)
        ensures
            r == other.at_most(*self),
    {
        proof {
            use_type_invariant(self);
            use_type_invariant(other);
        }
        sign_of_comparison(*self, *other) >= 0
    }
}

/// The sum of two optional decimals; `None` as soon as either is missing or
/// the sum overflows.
pub open spec fn spec_plus(a: Option<Decimal>, b: Option<Decimal>) -> Option<Decimal> {
    match (a, b) {
        (Some(x), Some(y)) => x.spec_add(y),
        _ => None,
    }
}

/// The difference of two optional decimals, `None` propagating.
pub open spec fn spec_minus(a: Option<Decimal>, b: Option<Decimal>) -> Option<Decimal> {
    match (a, b) {
        (Some(x), Some(y)) => x.spec_sub(y),
        _ => None,
    }
}

/// The product of two optional decimals, `None` propagating.
pub open spec fn spec_times(a: Option<Decimal>, b: Option<Decimal>) -> Option<Decimal> {
    match (a, b) {
        (Some(x), Some(y)) => x.spec_mul(y),
        _ => None,
    }
}

/// The quotient of two optional decimals, `None` propagating.
pub open spec fn spec_over(a: Option<Decimal>, b: Option<Decimal>) -> Option<Decimal> {
    match (a, b) {
        (Some(x), Some(y)) => x.spec_div(y),
        _ => None,
    }
}

/// The absolute value of an optional decimal.
pub open spec fn spec_magnitude(a: Option<Decimal>) -> Option<Decimal> {
    match a {
        Some(x) => Some(x.spec_abs()),
        None => None,
    }
}

/// Computes [`spec_plus`].
pub fn plus(a: Option<Decimal>, b: Option<Decimal>) -> (r: Option<Decimal>)
    ensures
        r == spec_plus(a, b),
{
    match (a, b) {
        (Some(x), Some(y)) => x.checked_add(y),
        _ => None,
    }
}

/// Computes [`spec_minus`].
pub fn minus(a: Option<Decimal>, b: Option<Decimal>) -> (r: Option<Decimal>)
    ensures
        r == spec_minus(a, b),
{
    match (a, b) {
        (Some(x), Some(y)) => x.checked_sub(y),
        _ => None,
    }
}

/// Computes [`spec_times`].
pub fn times(a: Option<Decimal>, b: Option<Decimal>) -> (r: Option<Decimal>)
    ensures
        r == spec_times(a, b),
{
    match (a, b) {
        (Some(x), Some(y)) => x.checked_mul(y),
        _ => None,
    }
}

/// Computes [`spec_over`].
pub fn over(a: Option<Decimal>, b: Option<Decimal>) -> (r: Option<Decimal>)
    ensures
        r == spec_over(a, b),
{
    match (a, b) {
        (Some(x), Some(y)) => x.checked_div(y),
        _ => None,
    }
}

/// Computes [`spec_magnitude`].
pub fn magnitude(a: Option<Decimal>) -> (r: Option<Decimal>)
    ensures
        r == spec_magnitude(a),
{
    match a {
        Some(x) => Some(x.abs()),
        None => None,
    }
}

/// Whether a decimal is within the bounds of a decimal.
pub open spec fn is_valid(d: Decimal) -> bool {
    in_range(d.spec_mantissa(), d.spec_scale())
}

/// Whether the sum of `a` and `b` comes out without rounding: it is a
/// decimal that stands for the sum of the two numbers.
pub open spec fn exact_sum(a: Decimal, b: Decimal) -> bool {
    a.spec_add(b) matches Some(r) && is_valid(r) && r.units() == a.units() + b.units()
}

/// Whether the difference of `a` and `b` comes out without rounding.
pub open spec fn exact_difference(a: Decimal, b: Decimal) -> bool {
    a.spec_sub(b) matches Some(r) && is_valid(r) && r.units() == a.units() - b.units()
}

/// Whether the product of `a` and `b` comes out without rounding.
pub open spec fn exact_product(a: Decimal, b: Decimal) -> bool {
    a.spec_mul(b) matches Some(r) && is_valid(r) && r.units() * pow10(MAX_SCALE as nat) == a.units() * b.units()
}

/// Whether the quotient of `a` by `b` comes out without rounding.
pub open spec fn exact_quotient(a: Decimal, b: Decimal) -> bool {
    a.spec_div(b) matches Some(r) && is_valid(r) && b.units() != 0 && r.units() * b.units() == a.units() * pow10(
        MAX_SCALE as nat,
    )
}

/// The absolute value of a decimal stands for the absolute value of its
/// number, and is a decimal.
pub proof fn lemma_abs_units(d: Decimal)
    requires
        is_valid(d),
    ensures
        is_valid(d.spec_abs()),
        d.spec_abs().units() == if d.units() < 0 {
            -d.units()
        } else {
            d.units()
        },
{
    lemma_units_negate(d);
}

/// The decimal made of a mantissa and a scale within the bounds has that
/// mantissa and that scale, and its units have the sign of the mantissa.
pub proof fn lemma_from_pair(mantissa: int, scale: nat)
    requires
        in_range(mantissa, scale),
    ensures
        is_valid(Decimal::from_pair(mantissa, scale)),
        Decimal::from_pair(mantissa, scale).spec_mantissa() == mantissa,
        Decimal::from_pair(mantissa, scale).spec_scale() == scale,
        Decimal::from_pair(mantissa, scale).units() > 0 <==> mantissa > 0,
        Decimal::from_pair(mantissa, scale).units() < 0 <==> mantissa < 0,
{
    lemma_units_sign(Decimal::from_pair(mantissa, scale));
}

/// The units of a whole number are the number times 10^28.
pub proof fn lemma_units_of_whole(n: int)
    requires
        -MAX_MANTISSA <= n <= MAX_MANTISSA,
    ensures
        is_valid(Decimal::from_pair(n, 0)),
        Decimal::from_pair(n, 0).units() == n * pow10(MAX_SCALE as nat),
{
}

/// A named result as a decimal.
pub open spec fn lift(pair: Option<(int, nat)>) -> Option<Decimal> {
    match pair {
        Some((mantissa, scale)) => Some(Decimal::from_pair(mantissa, scale)),
        None => None,
    }
}

/// Mantissa and scale of an optional decimal.
pub open spec fn lower(value: Option<Decimal>) -> Option<(int, nat)> {
    match value {
        Some(d) => Some((d.spec_mantissa(), d.spec_scale())),
        None => None,
    }
}

/// How two numbers compare: -1, 0 or 1 as the first is less than, equal to
/// or greater than the second.
pub open spec fn comparison_sign(a: int, b: int) -> i8 {
    if a < b {
        -1i8
    } else if a == b {
        0i8
    } else {
        1i8
    }
}

/// Lifting the mantissa and scale of a decimal gives the decimal back.
proof fn lemma_lift_lower(value: Option<Decimal>)
    ensures
        lift(lower(value)) == value,
{
}

/// Ten to any power is positive.
pub proof fn lemma_pow10_positive(n: nat)
    ensures
        pow10(n) > 0,
    decreases n,
{
    if n > 0 {
        lemma_pow10_positive((n - 1) as nat);
    }
}

/// The units of a decimal have the sign of its mantissa.
pub proof fn lemma_units_sign(d: Decimal)
    requires
        d.spec_scale() <= MAX_SCALE,
    ensures
        d.units() > 0 <==> d.spec_mantissa() > 0,
        d.units() < 0 <==> d.spec_mantissa() < 0,
        d.units() == 0 <==> d.spec_mantissa() == 0,
{
    let p = pow10((MAX_SCALE - d.spec_scale()) as nat);
    let m = d.spec_mantissa();
    lemma_pow10_positive((MAX_SCALE - d.spec_scale()) as nat);
    assert(m > 0 ==> m * p > 0) by (nonlinear_arith)
        requires
            p > 0,
    ;
    assert(m < 0 ==> m * p < 0) by (nonlinear_arith)
        requires
            p > 0,
    ;
    assert(m == 0 ==> m * p == 0) by (nonlinear_arith);
}

/// Reversing the sign of the mantissa reverses the sign of the units.
proof fn lemma_units_negate(d: Decimal)
    requires
        in_range(d.spec_mantissa(), d.spec_scale()),
    ensures
        Decimal::from_pair(-d.spec_mantissa(), d.spec_scale()).units() == -d.units(),
        Decimal::from_pair(-d.spec_mantissa(), d.spec_scale()).spec_mantissa() == -d.spec_mantissa(),
        Decimal::from_pair(-d.spec_mantissa(), d.spec_scale()).spec_scale() == d.spec_scale(),
        d.units() < 0 <==> d.spec_mantissa() < 0,
{
    let p = pow10((MAX_SCALE - d.spec_scale()) as nat);
    let m = d.spec_mantissa();
    assert((-m) * p == -(m * p)) by (nonlinear_arith);
    lemma_units_sign(d);
}

/// `rust_decimal::Decimal::checked_add` on the two numbers. The arguments
/// must be within the bounds of a decimal, outside of which
/// `from_i128_with_scale` panics. The contract names the result and adds
/// nothing to it. What is handed back is again within the bounds: its
/// mantissa is read from 96 bits by `mantissa()`, and `scale()` is never
/// above 28.
#[verifier::external_body]
fn sum_outside(a: Decimal, b: Decimal) -> (r: Option<Decimal>)
    requires
        in_range(a.spec_mantissa(), a.spec_scale()),
        in_range(b.spec_mantissa(), b.spec_scale()),
    ensures
        lower(r) == decimal_sum(a.spec_mantissa(), a.spec_scale(), b.spec_mantissa(), b.spec_scale()),
{
    let x = rust_decimal::Decimal::from_i128_with_scale(a.mantissa, a.scale);
    let y = rust_decimal::Decimal::from_i128_with_scale(b.mantissa, b.scale);
    x.checked_add(y).map(|d| Decimal { mantissa: d.mantissa(), scale: d.scale() })
}

/// `rust_decimal::Decimal::checked_sub` on the two numbers; the contract
/// names the result.
#[verifier::external_body]
fn difference_outside(a: Decimal, b: Decimal) -> (r: Option<Decimal>)
    requires
        in_range(a.spec_mantissa(), a.spec_scale()),
        in_range(b.spec_mantissa(), b.spec_scale()),
    ensures
        lower(r) == decimal_difference(a.spec_mantissa(), a.spec_scale(), b.spec_mantissa(), b.spec_scale()),
{
    let x = rust_decimal::Decimal::from_i128_with_scale(a.mantissa, a.scale);
    let y = rust_decimal::Decimal::from_i128_with_scale(b.mantissa, b.scale);
    x.checked_sub(y).map(|d| Decimal { mantissa: d.mantissa(), scale: d.scale() })
}

/// `rust_decimal::Decimal::checked_mul` on the two numbers; the contract
/// names the result.
#[verifier::external_body]
fn product_outside(a: Decimal, b: Decimal) -> (r: Option<Decimal>)
    requires
        in_range(a.spec_mantissa(), a.spec_scale()),
        in_range(b.spec_mantissa(), b.spec_scale()),
    ensures
        lower(r) == decimal_product(a.spec_mantissa(), a.spec_scale(), b.spec_mantissa(), b.spec_scale()),
{
    let x = rust_decimal::Decimal::from_i128_with_scale(a.mantissa, a.scale);
    let y = rust_decimal::Decimal::from_i128_with_scale(b.mantissa, b.scale);
    x.checked_mul(y).map(|d| Decimal { mantissa: d.mantissa(), scale: d.scale() })
}

/// `rust_decimal::Decimal::checked_div` on the two numbers; the contract
/// names the result.
#[verifier::external_body]
fn quotient_outside(a: Decimal, b: Decimal) -> (r: Option<Decimal>)
    requires
        in_range(a.spec_mantissa(), a.spec_scale()),
        in_range(b.spec_mantissa(), b.spec_scale()),
    ensures
        lower(r) == decimal_quotient(a.spec_mantissa(), a.spec_scale(), b.spec_mantissa(), b.spec_scale()),
{
    let x = rust_decimal::Decimal::from_i128_with_scale(a.mantissa, a.scale);
    let y = rust_decimal::Decimal::from_i128_with_scale(b.mantissa, b.scale);
    x.checked_div(y).map(|d| Decimal { mantissa: d.mantissa(), scale: d.scale() })
}

/// The text that `rust_decimal::Decimal` shows for the number (its
/// `Display`); the contract names the text.
#[verifier::external_body]
fn text_outside(a: Decimal) -> (r: String)
    requires
        in_range(a.spec_mantissa(), a.spec_scale()),
    ensures
        r@ == decimal_text(a.spec_mantissa(), a.spec_scale()),
{
    rust_decimal::Decimal::from_i128_with_scale(a.mantissa, a.scale).to_string()
}

/// The order `rust_decimal::Decimal` puts the two numbers in, as a sign.
/// The crate orders decimals by the numbers they stand for, whatever their
/// scales: that is what the contract states.
#[verifier::external_body]
fn sign_of_comparison(a: Decimal, b: Decimal) -> (r: i8)
    requires
        in_range(a.spec_mantissa(), a.spec_scale()),
        in_range(b.spec_mantissa(), b.spec_scale()),
    ensures
        r == comparison_sign(a.units(), b.units()),
{
    let x = rust_decimal::Decimal::from_i128_with_scale(a.mantissa, a.scale);
    let y = rust_decimal::Decimal::from_i128_with_scale(b.mantissa, b.scale);
    match x.cmp(&y) {
        Ordering::Less => -1,
        Ordering::Equal => 0,
        Ordering::Greater => 1,
    }
}

impl PartialEq for Decimal {
    fn eq(&self, other: &Decimal) -> (r: bool) {
        proof {
            use_type_invariant(self);
            use_type_invariant(other);
        }
        sign_of_comparison(*self, *other) == 0
    }
}

impl vstd::std_specs::cmp::PartialEqSpecImpl for Decimal {
    open spec fn obeys_eq_spec() -> bool {
        true
    }

    open spec fn eq_spec(&self, other: &Decimal) -> bool {
        self.units() == other.units()
    }
}

impl PartialOrd for Decimal {
    fn partial_cmp(&self, other: &Decimal) -> (r: Option<Ordering>) {
        proof {
            use_type_invariant(self);
            use_type_invariant(other);
        }
        let sign = sign_of_comparison(*self, *other);
        if sign < 0 {
            Some(Ordering::Less)
        } else if sign == 0 {
            Some(Ordering::Equal)
        } else {
            Some(Ordering::Greater)
        }
    }
}

impl vstd::std_specs::cmp::PartialOrdSpecImpl for Decimal {
    open spec fn obeys_partial_cmp_spec() -> bool {
        true
    }

    open spec fn partial_cmp_spec(&self, other: &Decimal) -> Option<Ordering> {
        if self.units() < other.units() {
            Some(Ordering::Less)
        } else if self.units() == other.units() {
            Some(Ordering::Equal)
        } else {
            Some(Ordering::Greater)
        }
    }
}

} // verus!
