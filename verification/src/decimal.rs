//! Fixed-point decimal numbers held as plain values (sign, 96-bit magnitude,
//! scale), with the arithmetic of `rust_decimal` behind trusted wrappers.
//!
//! The value of a `Dec` is `(-1)^negative * mantissa / 10^scale`.  Contracts
//! speak of `units()`, the value multiplied by `10^28`, which is always an
//! integer because the scale never exceeds 28.

use vstd::prelude::*;

verus! {

/// `2^96`: every magnitude is strictly below this bound.
pub open spec fn mantissa_bound() -> int {
    79228162514264337593543950336
}

/// `10^28`, one whole unit expressed in `units()`.
pub open spec fn unit() -> int {
    10000000000000000000000000000
}

pub open spec fn pow10(n: nat) -> nat
    decreases n,
{
    if n == 0 {
        1
    } else {
        10 * pow10((n - 1) as nat)
    }
}

/// A decimal number in the representation used by `rust_decimal::Decimal`.
#[derive(Clone, Copy, Debug)]
pub struct Dec {
    pub negative: bool,
    pub mantissa: u128,
    pub scale: u32,
}

impl View for Dec {
    type V = (bool, nat, nat);

    open spec fn view(&self) -> (bool, nat, nat) {
        (self.negative, self.mantissa as nat, self.scale as nat)
    }
}

pub open spec fn dec_from_view(v: (bool, nat, nat)) -> Dec {
    Dec { negative: v.0, mantissa: v.1 as u128, scale: v.2 as u32 }
}

/// The integer `v` divided by `10^scale`, in the representation `Decimal::new` builds.
pub open spec fn dec_from_int(v: int, scale: u32) -> Dec {
    Dec { negative: v < 0, mantissa: (if v < 0 { -v } else { v }) as u128, scale }
}

pub open spec fn opt_dec_from_view(v: Option<(bool, nat, nat)>) -> Option<Dec> {
    match v {
        Some(x) => Some(dec_from_view(x)),
        None => None,
    }
}

impl Dec {
    /// The representation invariant of `rust_decimal::Decimal`.
    pub open spec fn wf(self) -> bool {
        &&& (self.mantissa as int) < mantissa_bound()
        &&& self.scale <= 28
    }

    pub open spec fn signed_mantissa(self) -> int {
        if self.negative {
            -(self.mantissa as int)
        } else {
            self.mantissa as int
        }
    }

    /// The value times `10^28`.
    pub open spec fn units(self) -> int {
        self.signed_mantissa() * pow10((28 - self.scale) as nat)
    }

    pub open spec fn is_zero_spec(self) -> bool {
        self.mantissa == 0
    }

    pub open spec fn zero_spec() -> Dec {
        Dec { negative: false, mantissa: 0, scale: 0 }
    }

    pub open spec fn one_spec() -> Dec {
        Dec { negative: false, mantissa: 1, scale: 0 }
    }

    pub open spec fn abs_spec(self) -> Dec {
        Dec { negative: false, ..self }
    }

    pub open spec fn neg_spec(self) -> Dec {
        Dec { negative: !self.negative, ..self }
    }

    /// `Decimal::ZERO`.
    pub fn zero() -> (r: Dec)
        ensures
            r == Dec::zero_spec(),
            r.wf(),
            r.units() == 0,
    {
        let r = Dec { negative: false, mantissa: 0, scale: 0 };
        assert(r.units() == 0) by (nonlinear_arith)
            requires r.signed_mantissa() == 0, r.units() == r.signed_mantissa() * pow10(28);
        r
    }

    /// `Decimal::ONE`.
    pub fn one() -> (r: Dec)
        ensures
            r == Dec::one_spec(),
            r.wf(),
            r.units() == unit(),
    {
        let r = Dec { negative: false, mantissa: 1, scale: 0 };
        proof {
            lemma_pow10_28();
            assert(r.units() == r.signed_mantissa() * pow10(28));
        }
        r
    }

    /// `Decimal::new(num, scale)`: the value `num / 10^scale`.
    pub fn new(num: i64, scale: u32) -> (r: Dec)
        requires
            scale <= 28,
        ensures
            r == dec_from_int(num as int, scale),
            r.wf(),
            r.scale == scale,
            r.signed_mantissa() == num as int,
    {
        let negative = num < 0;
        let mantissa: u128 = if negative {
            (0i128 - num as i128) as u128
        } else {
            num as u128
        };
        Dec { negative, mantissa, scale }
    }

    /// `Decimal::from(i32)`: an integer at scale zero.
    pub fn from_i32(num: i32) -> (r: Dec)
        ensures
            r == dec_from_int(num as int, 0),
            r.wf(),
            r.scale == 0,
            r.signed_mantissa() == num as int,
            r.units() == num as int * unit(),
    {
        proof {
            lemma_pow10_28();
        }
        Dec::new(num as i64, 0)
    }

    /// `Decimal::is_zero`.
    pub fn is_zero(&self) -> (r: bool)
        ensures
            r == self.is_zero_spec(),
    {
        self.mantissa == 0
    }

    /// `Decimal::is_sign_negative`: the sign flag, also set on a negative zero.
    pub fn is_sign_negative(&self) -> (r: bool)
        ensures
            r == self.negative,
    {
        self.negative
    }

    /// `Decimal::is_sign_positive`.
    pub fn is_sign_positive(&self) -> (r: bool)
        ensures
            r == !self.negative,
    {
        !self.negative
    }

    /// `Decimal::abs`: clears the sign flag.
    pub fn abs(&self) -> (r: Dec)
        ensures
            r == self.abs_spec(),
    {
        Dec { negative: false, mantissa: self.mantissa, scale: self.scale }
    }

    /// `Neg for Decimal`: flips the sign flag.
    pub fn neg(&self) -> (r: Dec)
        ensures
            r == self.neg_spec(),
    {
        Dec { negative: !self.negative, mantissa: self.mantissa, scale: self.scale }
    }
}

pub proof fn lemma_pow10_28()
    ensures
        pow10(28) == unit(),
{
    reveal_with_fuel(pow10, 29);
}

pub proof fn lemma_pow10_positive(n: nat)
    ensures
        pow10(n) >= 1,
    decreases n,
{
    if n > 0 {
        lemma_pow10_positive((n - 1) as nat);
    }
}

/// The units of a value are zero exactly when its magnitude is zero, and they
/// carry the sign flag of a non-zero value.
pub proof fn lemma_units_sign(d: Dec)
    ensures
        d.is_zero_spec() <==> d.units() == 0,
        !d.is_zero_spec() && d.negative ==> d.units() < 0,
        !d.is_zero_spec() && !d.negative ==> d.units() > 0,
        d.abs_spec().units() == (if d.units() < 0 { -d.units() } else { d.units() }),
        d.neg_spec().units() == -d.units(),
{
    let p = pow10((28 - d.scale) as nat);
    lemma_pow10_positive((28 - d.scale) as nat);
    assert(d.units() == d.signed_mantissa() * p);
    if d.mantissa == 0 {
        assert(d.units() == 0) by (nonlinear_arith)
            requires d.units() == d.signed_mantissa() * p, d.signed_mantissa() == 0;
    } else if d.negative {
        assert(d.units() < 0) by (nonlinear_arith)
            requires d.units() == d.signed_mantissa() * p, d.signed_mantissa() < 0, p >= 1;
    } else {
        assert(d.units() > 0) by (nonlinear_arith)
            requires d.units() == d.signed_mantissa() * p, d.signed_mantissa() > 0, p >= 1;
    }
    assert(d.neg_spec().units() == -d.units()) by (nonlinear_arith)
        requires
            d.neg_spec().units() == d.neg_spec().signed_mantissa() * p,
            d.units() == d.signed_mantissa() * p,
            d.neg_spec().signed_mantissa() == -d.signed_mantissa(),
    ;
    if d.negative {
        assert(d.abs_spec().units() == -d.units()) by (nonlinear_arith)
            requires
                d.abs_spec().units() == d.abs_spec().signed_mantissa() * p,
                d.units() == d.signed_mantissa() * p,
                d.abs_spec().signed_mantissa() == -d.signed_mantissa(),
        ;
    }
}

// ---------------------------------------------------------------------------
// rust_decimal behind trusted items.
// ---------------------------------------------------------------------------

#[verifier::external_type_specification]
#[verifier::external_body]
pub struct ExDecimal(rust_decimal::Decimal);

/// The larger of two scales: the scale at which `rust_decimal` aligns two
/// operands before adding them.
pub open spec fn max_scale(a: Dec, b: Dec) -> nat {
    if a.scale >= b.scale {
        a.scale as nat
    } else {
        b.scale as nat
    }
}

/// A number of units is exactly representable at `scale` with a magnitude
/// below `2^96`.
pub open spec fn fits_at_scale(units: int, scale: nat) -> bool {
    let step = pow10((28 - scale) as nat) as int;
    &&& units % step == 0
    &&& -mantissa_bound() * step < units < mantissa_bound() * step
}

/// What `Decimal::checked_add` returns for two values (a name for the result).
pub uninterp spec fn decimal_checked_add(a: (bool, nat, nat), b: (bool, nat, nat)) -> Option<(bool, nat, nat)>;

/// What `Decimal::checked_sub` returns for two values (a name for the result).
pub uninterp spec fn decimal_checked_sub(a: (bool, nat, nat), b: (bool, nat, nat)) -> Option<(bool, nat, nat)>;

/// What `Decimal::checked_mul` returns for two values (a name for the result).
pub uninterp spec fn decimal_checked_mul(a: (bool, nat, nat), b: (bool, nat, nat)) -> Option<(bool, nat, nat)>;

/// What `Decimal::checked_div` returns for two values (a name for the result).
pub uninterp spec fn decimal_checked_div(a: (bool, nat, nat), b: (bool, nat, nat)) -> Option<(bool, nat, nat)>;

/// What `Display for Decimal` writes for a value (a name for the result).
pub uninterp spec fn decimal_text(a: (bool, nat, nat)) -> Seq<char>;

/// What `Decimal::from_str` parses from a text (a name for the result).
pub uninterp spec fn decimal_parse(s: Seq<char>) -> Option<(bool, nat, nat)>;

/// What `Decimal::normalize` returns for a value (a name for the result).
pub uninterp spec fn decimal_normalized(a: (bool, nat, nat)) -> (bool, nat, nat);

pub open spec fn spec_add(a: Dec, b: Dec) -> Option<Dec> {
    opt_dec_from_view(decimal_checked_add(a@, b@))
}

pub open spec fn spec_sub(a: Dec, b: Dec) -> Option<Dec> {
    opt_dec_from_view(decimal_checked_sub(a@, b@))
}

pub open spec fn spec_mul(a: Dec, b: Dec) -> Option<Dec> {
    opt_dec_from_view(decimal_checked_mul(a@, b@))
}

pub open spec fn spec_div(a: Dec, b: Dec) -> Option<Dec> {
    opt_dec_from_view(decimal_checked_div(a@, b@))
}

/// `Decimal::checked_add`.  The claim: the result is a valid decimal; a zero
/// operand gives the other operand unchanged (the second one when both are
/// zero); when the exact sum fits at the larger operand scale, the result is
/// present and equals the exact sum.  Where the sum needs rounding the result is only
/// named, not described.
#[verifier::external_body]
pub(crate) fn dec_add(a: Dec, b: Dec) -> (r: Option<Dec>)
    requires
        a.wf(),
        b.wf(),
    ensures
        r == opt_dec_from_view(decimal_checked_add(a@, b@)),
        r matches Some(x) ==> x.wf(),
        fits_at_scale(a.units() + b.units(), max_scale(a, b)) ==> (r is Some && r.unwrap().units() == a.units() + b.units()),
        a.mantissa == 0 ==> r == Some(b),
        (a.mantissa != 0 && b.mantissa == 0) ==> r == Some(a),
{
    let mut x = rust_decimal::Decimal::from_i128_with_scale(a.mantissa as i128, a.scale);
    x.set_sign_negative(a.negative);
    let mut y = rust_decimal::Decimal::from_i128_with_scale(b.mantissa as i128, b.scale);
    y.set_sign_negative(b.negative);
    match x.checked_add(y) {
        Some(z) => Some(Dec { negative: z.is_sign_negative(), mantissa: z.mantissa().unsigned_abs(), scale: z.scale() }),
        None => None,
    }
}

/// `Decimal::checked_sub`.  The claim mirrors `dec_add` for the exact
/// difference and a zero operand (zero minus a non-zero value is that value
/// with its sign flipped); besides, a difference of a value and one not above it is not
/// negative, rounded or not.
#[verifier::external_body]
pub(crate) fn dec_sub(a: Dec, b: Dec) -> (r: Option<Dec>)
    requires
        a.wf(),
        b.wf(),
    ensures
        r == opt_dec_from_view(decimal_checked_sub(a@, b@)),
        r matches Some(x) ==> x.wf(),
        fits_at_scale(a.units() - b.units(), max_scale(a, b)) ==> (r is Some && r.unwrap().units() == a.units() - b.units()),
        (a.units() >= b.units() && r is Some) ==> r.unwrap().units() >= 0,
        a.mantissa == 0 ==> r == Some(if b.mantissa != 0 { b.neg_spec() } else { b }),
        (a.mantissa != 0 && b.mantissa == 0) ==> r == Some(a),
{
    let mut x = rust_decimal::Decimal::from_i128_with_scale(a.mantissa as i128, a.scale);
    x.set_sign_negative(a.negative);
    let mut y = rust_decimal::Decimal::from_i128_with_scale(b.mantissa as i128, b.scale);
    y.set_sign_negative(b.negative);
    match x.checked_sub(y) {
        Some(z) => Some(Dec { negative: z.is_sign_negative(), mantissa: z.mantissa().unsigned_abs(), scale: z.scale() }),
        None => None,
    }
}

/// `Decimal::checked_mul`.  The claim: a zero operand gives `Decimal::ZERO`;
/// when the product of the magnitudes fits in 96 bits and the scales add up
/// to at most 28, the product is exact: the product of the magnitudes at the
/// sum of the scales, with the product of the signs.
#[verifier::external_body]
pub(crate) fn dec_mul(a: Dec, b: Dec) -> (r: Option<Dec>)
    requires
        a.wf(),
        b.wf(),
    ensures
        r == opt_dec_from_view(decimal_checked_mul(a@, b@)),
        r matches Some(x) ==> x.wf(),
        (a.mantissa == 0 || b.mantissa == 0) ==> r == Some(Dec::zero_spec()),
        ((a.mantissa as int) * (b.mantissa as int) < mantissa_bound() && a.scale + b.scale <= 28) ==> (r is Some && r.unwrap().units() * unit() == a.units() * b.units()),
        (a.mantissa != 0 && b.mantissa != 0 && (a.mantissa as int) * (b.mantissa as int) < mantissa_bound() && a.scale + b.scale <= 28)
            ==> r == Some(Dec { negative: a.negative != b.negative, mantissa: (a.mantissa * b.mantissa) as u128, scale: (a.scale + b.scale) as u32 }),
{
    let mut x = rust_decimal::Decimal::from_i128_with_scale(a.mantissa as i128, a.scale);
    x.set_sign_negative(a.negative);
    let mut y = rust_decimal::Decimal::from_i128_with_scale(b.mantissa as i128, b.scale);
    y.set_sign_negative(b.negative);
    match x.checked_mul(y) {
        Some(z) => Some(Dec { negative: z.is_sign_negative(), mantissa: z.mantissa().unsigned_abs(), scale: z.scale() }),
        None => None,
    }
}

/// `Decimal::checked_div`.  The claim: division by zero gives `None`, a zero
/// dividend over a non-zero divisor gives `Decimal::ZERO`, a non-zero
/// quotient carries the product of the signs (a quotient rounded to zero is
/// positive); a quotient whose magnitude is below the largest mantissa less
/// one is present (only a larger one overflows); otherwise the (rounded)
/// quotient is only named.
#[verifier::external_body]
pub(crate) fn dec_div(a: Dec, b: Dec) -> (r: Option<Dec>)
    requires
        a.wf(),
        b.wf(),
    ensures
        r == opt_dec_from_view(decimal_checked_div(a@, b@)),
        r matches Some(x) ==> x.wf(),
        b.mantissa == 0 ==> r is None,
        (a.mantissa == 0 && b.mantissa != 0) ==> r == Some(Dec::zero_spec()),
        (r matches Some(q) && q.mantissa != 0) ==> r.unwrap().negative == (a.negative != b.negative),
        (b.mantissa != 0 && (if a.units() < 0 { -a.units() } else { a.units() }) < (mantissa_bound() - 1) * (if b.units() < 0 { -b.units() } else { b.units() })) ==> r is Some,
{
    let mut x = rust_decimal::Decimal::from_i128_with_scale(a.mantissa as i128, a.scale);
    x.set_sign_negative(a.negative);
    let mut y = rust_decimal::Decimal::from_i128_with_scale(b.mantissa as i128, b.scale);
    y.set_sign_negative(b.negative);
    match x.checked_div(y) {
        Some(z) => Some(Dec { negative: z.is_sign_negative(), mantissa: z.mantissa().unsigned_abs(), scale: z.scale() }),
        None => None,
    }
}

/// `<` on `Decimal`: compares the two values exactly.
#[verifier::external_body]
pub(crate) fn dec_lt(a: Dec, b: Dec) -> (r: bool)
    requires
        a.wf(),
        b.wf(),
    ensures
        r == (a.units() < b.units()),
{
    let mut x = rust_decimal::Decimal::from_i128_with_scale(a.mantissa as i128, a.scale);
    x.set_sign_negative(a.negative);
    let mut y = rust_decimal::Decimal::from_i128_with_scale(b.mantissa as i128, b.scale);
    y.set_sign_negative(b.negative);
    x < y
}

/// `<=` on `Decimal`: compares the two values exactly.
#[verifier::external_body]
pub(crate) fn dec_le(a: Dec, b: Dec) -> (r: bool)
    requires
        a.wf(),
        b.wf(),
    ensures
        r == (a.units() <= b.units()),
{
    let mut x = rust_decimal::Decimal::from_i128_with_scale(a.mantissa as i128, a.scale);
    x.set_sign_negative(a.negative);
    let mut y = rust_decimal::Decimal::from_i128_with_scale(b.mantissa as i128, b.scale);
    y.set_sign_negative(b.negative);
    x <= y
}

/// `==` on `Decimal`: equality of the two values (scale and the sign of a
/// zero do not matter).
#[verifier::external_body]
pub(crate) fn dec_eq(a: Dec, b: Dec) -> (r: bool)
    requires
        a.wf(),
        b.wf(),
    ensures
        r == (a.units() == b.units()),
{
    let mut x = rust_decimal::Decimal::from_i128_with_scale(a.mantissa as i128, a.scale);
    x.set_sign_negative(a.negative);
    let mut y = rust_decimal::Decimal::from_i128_with_scale(b.mantissa as i128, b.scale);
    y.set_sign_negative(b.negative);
    x == y
}

/// Floor division of units by one whole unit, times one whole unit: the value
/// rounded down to an integer, in units.
pub open spec fn floor_units(u: int) -> int {
    (u / unit()) * unit()
}

/// Truncation towards zero of units to an integer, in units.
pub open spec fn trunc_units(u: int) -> int {
    if u >= 0 {
        (u / unit()) * unit()
    } else {
        -(((-u) / unit()) * unit())
    }
}

/// Rounding of units to the nearest integer, halves to the even integer.
pub open spec fn round_half_even_units(u: int) -> int {
    let q = u / unit();
    let rem = u - q * unit();
    if 2 * rem < unit() {
        q * unit()
    } else if 2 * rem > unit() {
        (q + 1) * unit()
    } else if q % 2 == 0 {
        q * unit()
    } else {
        (q + 1) * unit()
    }
}

/// The value truncated to an integer at scale zero, keeping the sign flag.
pub open spec fn trunc_to_integer(a: Dec) -> Dec {
    Dec { negative: a.negative, mantissa: (a.mantissa as nat / pow10(a.scale as nat)) as u128, scale: 0 }
}

/// `Decimal::floor`: the largest integer not above the value.  Unless the
/// value is negative with a fraction, that is the value truncated to scale
/// zero, keeping its sign flag.
#[verifier::external_body]
pub(crate) fn dec_floor(a: Dec) -> (r: Dec)
    requires
        a.wf(),
    ensures
        r.wf(),
        r.units() == floor_units(a.units()),
        !(a.negative && a.mantissa as nat % pow10(a.scale as nat) != 0) ==> r == trunc_to_integer(a),
{
    let mut x = rust_decimal::Decimal::from_i128_with_scale(a.mantissa as i128, a.scale);
    x.set_sign_negative(a.negative);
    let z = x.floor();
    Dec { negative: z.is_sign_negative(), mantissa: z.mantissa().unsigned_abs(), scale: z.scale() }
}

/// `Decimal::round`: rounds to the nearest integer, halves to even (banker's
/// rounding, as its documentation says).
#[verifier::external_body]
pub(crate) fn dec_round(a: Dec) -> (r: Dec)
    requires
        a.wf(),
    ensures
        r.wf(),
        r.units() == round_half_even_units(a.units()),
{
    let mut x = rust_decimal::Decimal::from_i128_with_scale(a.mantissa as i128, a.scale);
    x.set_sign_negative(a.negative);
    let z = x.round();
    Dec { negative: z.is_sign_negative(), mantissa: z.mantissa().unsigned_abs(), scale: z.scale() }
}

/// `Decimal::fract`: the value minus its truncation towards zero.
#[verifier::external_body]
pub(crate) fn dec_fract(a: Dec) -> (r: Dec)
    requires
        a.wf(),
    ensures
        r.wf(),
        r.units() == a.units() - trunc_units(a.units()),
{
    let mut x = rust_decimal::Decimal::from_i128_with_scale(a.mantissa as i128, a.scale);
    x.set_sign_negative(a.negative);
    let z = x.fract();
    Dec { negative: z.is_sign_negative(), mantissa: z.mantissa().unsigned_abs(), scale: z.scale() }
}

/// `ToPrimitive::to_i32` for `Decimal`: the value truncated towards zero,
/// when that integer is within the range of `i32`.
#[verifier::external_body]
pub(crate) fn dec_to_i32(a: Dec) -> (r: Option<i32>)
    requires
        a.wf(),
    ensures
        (i32::MIN as int) * unit() <= trunc_units(a.units()) <= (i32::MAX as int) * unit() <==> r is Some,
        r matches Some(v) ==> (v as int) * unit() == trunc_units(a.units()),
{
    let mut x = rust_decimal::Decimal::from_i128_with_scale(a.mantissa as i128, a.scale);
    x.set_sign_negative(a.negative);
    rust_decimal::prelude::ToPrimitive::to_i32(&x)
}

/// `Display for Decimal`: the text is only named.
#[verifier::external_body]
pub(crate) fn dec_to_string(a: Dec) -> (r: String)
    requires
        a.wf(),
    ensures
        r@ == decimal_text(a@),
{
    let mut x = rust_decimal::Decimal::from_i128_with_scale(a.mantissa as i128, a.scale);
    x.set_sign_negative(a.negative);
    x.to_string()
}

/// `Decimal::normalize`: drops trailing zeros of the fraction and the sign of
/// a zero; the value is unchanged, as its documentation says.
#[verifier::external_body]
pub(crate) fn dec_normalize(a: Dec) -> (r: Dec)
    requires
        a.wf(),
    ensures
        r@ == decimal_normalized(a@),
        r.wf(),
        r.units() == a.units(),
        r.mantissa == 0 ==> !r.negative,
{
    let mut x = rust_decimal::Decimal::from_i128_with_scale(a.mantissa as i128, a.scale);
    x.set_sign_negative(a.negative);
    let z = x.normalize();
    Dec { negative: z.is_sign_negative(), mantissa: z.mantissa().unsigned_abs(), scale: z.scale() }
}

/// `FromStr for Decimal`: whether and to what a text parses is only named.
#[verifier::external_body]
pub(crate) fn dec_parse(s: &str) -> (r: Option<Dec>)
    ensures
        r == opt_dec_from_view(decimal_parse(s@)),
        r matches Some(x) ==> x.wf(),
{
    match <rust_decimal::Decimal as core::str::FromStr>::from_str(s) {
        Ok(z) => Some(Dec { negative: z.is_sign_negative(), mantissa: z.mantissa().unsigned_abs(), scale: z.scale() }),
        Err(_) => None,
    }
}

// ---------------------------------------------------------------------------
// Verified helpers built on the primitives above.
// ---------------------------------------------------------------------------

/// `Ord::max(value, Decimal::ZERO)`: the value when it is above zero,
/// `Decimal::ZERO` otherwise.
pub fn dec_max_zero(a: Dec) -> (r: Dec)
    requires
        a.wf(),
    ensures
        r.wf(),
        a.units() > 0 ==> r == a,
        a.units() <= 0 ==> r == Dec::zero_spec(),
{
    let zero = Dec::zero();
    if dec_lt(zero, a) {
        a
    } else {
        zero
    }
}

} // verus!
