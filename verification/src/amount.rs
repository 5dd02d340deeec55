//! Monetary amounts: the decimal numbers that balances are kept in.
//!
//! An amount is held as the three parts a `rust_decimal::Decimal` is made of:
//! a sign, a 96-bit mantissa and a scale (the number of fractional digits).
//! The arithmetic that `rust_decimal` performs on them (addition, comparison,
//! truncation, rendering) is delegated to that crate; the contracts below say
//! what of it the engine relies on.
//!
//! For specifications an amount is read as an integer count of 10^-28 units
//! (`value`), so that amounts of different scales compare and add exactly.
use vstd::prelude::*;

use rust_decimal::Decimal;

verus! {

/// The largest scale a decimal carries.
pub const MAX_SCALE: u32 = 28;

/// One past the largest mantissa: a mantissa has 96 bits.
pub const MANTISSA_LIMIT: u128 = 79228162514264337593543950336;

/// Sign, mantissa and scale of a decimal: the number is
/// `(-1)^negative * mantissa / 10^scale`.
pub type AmountModel = (bool, u128, u32);

/// Ten to the power `n`.
pub open spec fn pow10(n: nat) -> nat
    decreases n,
{
    if n == 0 {
        1
    } else {
        10 * pow10((n - 1) as nat)
    }
}

/// Whether the parts describe a decimal that `rust_decimal` can hold.
pub open spec fn valid_model(m: AmountModel) -> bool {
    m.1 < MANTISSA_LIMIT && m.2 <= MAX_SCALE
}

/// The number described by the parts, counted in units of 10^-28.
pub open spec fn value(m: AmountModel) -> int {
    let magnitude = m.1 * pow10((MAX_SCALE - m.2) as nat);
    if m.0 {
        -magnitude
    } else {
        magnitude
    }
}

/// The larger of two scales.
pub open spec fn max_scale(a: u32, b: u32) -> u32 {
    if a >= b {
        a
    } else {
        b
    }
}

/// Whether `x` (in units of 10^-28) can be written with a 96-bit mantissa at `scale`.
pub open spec fn fits_at(x: int, scale: u32) -> bool {
    let limit = MANTISSA_LIMIT * pow10((MAX_SCALE - scale) as nat);
    -limit < x < limit
}

/// The largest magnitude a decimal can hold, in units of 10^-28.
pub open spec fn max_magnitude() -> int {
    (MANTISSA_LIMIT - 1) * pow10(MAX_SCALE as nat)
}

/// Whether `x` (in units of 10^-28) needs more than 96 bits even without
/// fractional digits: no decimal comes near it.
pub open spec fn beyond_range(x: int) -> bool {
    x >= MANTISSA_LIMIT * pow10(MAX_SCALE as nat) || x <= -(MANTISSA_LIMIT * pow10(
        MAX_SCALE as nat,
    ))
}

/// Whether the exact sum of `a` and `b` can be written at the larger of their scales,
/// in which case `rust_decimal` adds them without rounding.
pub open spec fn exact_sum(a: AmountModel, b: AmountModel) -> bool {
    fits_at(value(a) + value(b), max_scale(a.2, b.2))
}

/// The parts of the negation of a decimal: the sign flips, zero included.
pub open spec fn negated(m: AmountModel) -> AmountModel {
    (!m.0, m.1, m.2)
}

/// What `Decimal::checked_add` returns for two decimals, given by their parts.
pub uninterp spec fn decimal_checked_add(a: AmountModel, b: AmountModel) -> Option<AmountModel>;

/// The largest number of times, up to `d`, that `m` can be multiplied by ten
/// and stay within 96 bits.
pub open spec fn raise_steps(m: nat, d: nat) -> nat
    decreases d,
{
    if d == 0 || m * pow10(d) < MANTISSA_LIMIT {
        d
    } else {
        raise_steps(m, (d - 1) as nat)
    }
}

/// The parts of `a` brought to `scale` fractional digits: digits beyond it are
/// dropped (the mantissa is divided, toward zero), and a smaller scale is
/// raised as far toward it as the 96-bit mantissa allows. The sign is kept.
pub open spec fn truncated(a: AmountModel, scale: u32) -> AmountModel {
    if a.2 >= scale {
        (a.0, (a.1 as nat / pow10((a.2 - scale) as nat)) as u128, scale)
    } else {
        let k = raise_steps(a.1 as nat, (scale - a.2) as nat);
        (a.0, (a.1 as nat * pow10(k)) as u128, (a.2 + k) as u32)
    }
}

/// The character of a decimal digit.
pub open spec fn digit_char(d: nat) -> char {
    if d == 0 {
        '0'
    } else if d == 1 {
        '1'
    } else if d == 2 {
        '2'
    } else if d == 3 {
        '3'
    } else if d == 4 {
        '4'
    } else if d == 5 {
        '5'
    } else if d == 6 {
        '6'
    } else if d == 7 {
        '7'
    } else if d == 8 {
        '8'
    } else {
        '9'
    }
}

/// The decimal digits of `m`, most significant first; none for zero.
pub open spec fn digits(m: nat) -> Seq<char>
    decreases m,
{
    if m == 0 {
        Seq::empty()
    } else {
        digits(m / 10) + seq![digit_char(m % 10)]
    }
}

/// `d` preceded by as many zeros as it takes to be `len` characters long.
pub open spec fn zero_padded(d: Seq<char>, len: nat) -> Seq<char> {
    if d.len() >= len {
        d
    } else {
        Seq::new((len - d.len()) as nat, |i: int| '0') + d
    }
}

/// The text `Decimal`'s `Display` writes for a decimal: a '-' when the sign bit
/// is set (a negative zero included), the digits of the mantissa with a '.'
/// before the last `scale` of them (padded with zeros to at least `scale`
/// digits), a "0" for an empty whole part, and "0" for zero at scale 0.
pub open spec fn display_text(a: AmountModel) -> Seq<char> {
    let d = zero_padded(digits(a.1 as nat), a.2 as nat);
    let whole = d.take(d.len() - a.2);
    let body = if a.2 == 0 {
        if d.len() == 0 {
            seq!['0']
        } else {
            d
        }
    } else {
        (if whole.len() == 0 {
            seq!['0']
        } else {
            whole
        }) + seq!['.'] + d.skip(d.len() - a.2)
    };
    if a.0 {
        seq!['-'] + body
    } else {
        body
    }
}

/// `x` cut toward zero to a multiple of `unit`.
pub open spec fn cut_toward_zero(x: int, unit: int) -> int
    recommends
        unit > 0,
{
    if x >= 0 {
        (x / unit) * unit
    } else {
        -((-x / unit) * unit)
    }
}

/// The parts of an optional amount.
pub open spec fn model_of(r: Option<Amount>) -> Option<AmountModel> {
    match r {
        Some(s) => Some(s@),
        None => None,
    }
}

/// A decimal number, held as the parts of a `rust_decimal::Decimal`.
#[derive(Clone, Copy, Debug)]
pub struct Amount {
    negative: bool,
    mantissa: u128,
    scale: u32,
}

impl View for Amount {
    type V = AmountModel;

    closed spec fn view(&self) -> AmountModel {
        (self.negative, self.mantissa, self.scale)
    }
}

impl Amount {
    /// Every amount has a 96-bit mantissa and a scale of at most 28.
    #[verifier::type_invariant]
    pub open spec fn well_formed(self) -> bool {
        valid_model(self@)
    }

    /// The amount `num / 10^scale`, as `Decimal::new` builds it.
    pub fn new(num: i64, scale: u32) -> (r: Amount)
        requires
            scale <= MAX_SCALE,
        ensures
            r@ == (num < 0, (if num < 0 { -num } else { num as int }) as u128, scale),
    {
        let mantissa: u128 = if num < 0 {
            (0 - (num as i128)) as u128
        } else {
            num as u128
        };
        Amount { negative: num < 0, mantissa, scale }
    }

    /// The amount with the given parts, kept as given (a negative zero stays negative).
    pub fn from_parts(negative: bool, mantissa: u128, scale: u32) -> (r: Amount)
        requires
            mantissa < MANTISSA_LIMIT,
            scale <= MAX_SCALE,
        ensures
            r@ == (negative, mantissa, scale),
    {
        Amount { negative, mantissa, scale }
    }

    /// Zero, as `Decimal::ZERO`.
    pub fn zero() -> (r: Amount)
        ensures
            r@ == (false, 0u128, 0u32),
            value(r@) == 0,
    {
        Amount { negative: false, mantissa: 0, scale: 0 }
    }

    /// One, as `Decimal::ONE`.
    pub fn one() -> (r: Amount)
        ensures
            r@ == (false, 1u128, 0u32),
    {
        Amount { negative: false, mantissa: 1, scale: 0 }
    }

    /// The largest decimal, as `Decimal::MAX`.
    pub fn max() -> (r: Amount)
        ensures
            r@ == (false, (MANTISSA_LIMIT - 1) as u128, 0u32),
            value(r@) == max_magnitude(),
    {
        Amount { negative: false, mantissa: MANTISSA_LIMIT - 1, scale: 0 }
    }

    /// Whether the sign bit is set.
    pub fn is_sign_negative(&self) -> (r: bool)
        ensures
            r == self@.0,
    {
        self.negative
    }

    /// Whether the sign bit is clear, as `Decimal::is_sign_positive` (zero without
    /// a negative sign counts as positive).
    pub fn is_sign_positive(&self) -> (r: bool)
        ensures
            r == !self@.0,
    {
        !self.negative
    }

    /// The magnitude of the mantissa.
    pub fn mantissa(&self) -> (r: u128)
        ensures
            r == self@.1,
    {
        self.mantissa
    }

    /// The number of fractional digits.
    pub fn scale(&self) -> (r: u32)
        ensures
            r == self@.2,
    {
        self.scale
    }

    /// Whether the amount is zero, whatever its sign and scale.
    pub fn is_zero(&self) -> (r: bool)
        ensures
            r == (self@.1 == 0),
            r == (value(self@) == 0),
    {
        proof {
            use_type_invariant(self);
            lemma_pow10_positive((MAX_SCALE - self.scale) as nat);
            lemma_value_zero(self@);
        }
        self.mantissa == 0
    }

    /// The amount with its sign flipped, as `Decimal`'s `Neg` (which flips the sign
    /// of a zero too).
    pub fn neg(self) -> (r: Amount)
        ensures
            r@ == negated(self@),
            value(r@) == -value(self@),
    {
        proof {
            use_type_invariant(&self);
        }
        Amount { negative: !self.negative, mantissa: self.mantissa, scale: self.scale }
    }
}

/// A power of ten is positive.
pub proof fn lemma_pow10_positive(n: nat)
    ensures
        pow10(n) >= 1,
    decreases n,
{
    if n > 0 {
        lemma_pow10_positive((n - 1) as nat);
    }
}

/// Negating a decimal negates its value and keeps its scale.
pub proof fn lemma_negated_value(m: AmountModel)
    ensures
        value(negated(m)) == -value(m),
        negated(m).2 == m.2,
{
}

/// Powers of ten grow with the exponent.
pub proof fn lemma_pow10_monotone(m: nat, n: nat)
    requires
        m <= n,
    ensures
        pow10(m) <= pow10(n),
    decreases n,
{
    if m < n {
        lemma_pow10_monotone(m, (n - 1) as nat);
    }
}

/// Two amounts whose scales are at most `scale` add without rounding whenever
/// their exact sum can be written at `scale`.
pub proof fn lemma_exact_at(a: AmountModel, b: AmountModel, scale: u32)
    requires
        a.2 <= scale,
        b.2 <= scale,
        scale <= MAX_SCALE,
        fits_at(value(a) + value(b), scale),
    ensures
        exact_sum(a, b),
{
    let s = max_scale(a.2, b.2);
    lemma_pow10_monotone((MAX_SCALE - scale) as nat, (MAX_SCALE - s) as nat);
    let p = pow10((MAX_SCALE - scale) as nat);
    let q = pow10((MAX_SCALE - s) as nat);
    assert(MANTISSA_LIMIT * p <= MANTISSA_LIMIT * q) by (nonlinear_arith)
        requires
            p <= q,
    ;
}

/// Ten to the power of a sum is the product of the powers.
pub proof fn lemma_pow10_add(m: nat, n: nat)
    ensures
        pow10(m + n) == pow10(m) * pow10(n),
    decreases m,
{
    if m > 0 {
        lemma_pow10_add((m - 1) as nat, n);
        assert(pow10(m + n) == 10 * pow10((m - 1 + n) as nat));
        assert(10 * (pow10((m - 1) as nat) * pow10(n)) == (10 * pow10((m - 1) as nat)) * pow10(n))
            by (nonlinear_arith);
    } else {
        assert(pow10(0) == 1);
        assert(1 * pow10(n) == pow10(n));
    }
}

/// What `raise_steps` finds: a number of steps within `d` that keeps the
/// mantissa within 96 bits.
proof fn lemma_raise_steps(m: nat, d: nat)
    requires
        m < MANTISSA_LIMIT,
    ensures
        raise_steps(m, d) <= d,
        m * pow10(raise_steps(m, d)) < MANTISSA_LIMIT,
    decreases d,
{
    if d == 0 {
        assert(pow10(0) == 1);
        assert(m * 1 == m);
    } else if m * pow10(d) >= MANTISSA_LIMIT {
        lemma_raise_steps(m, (d - 1) as nat);
    }
}

/// Bringing a decimal to `scale` fractional digits keeps its sign, leaves at
/// most `scale` of them, and cuts its value toward zero to a multiple of
/// 10^-scale.
pub proof fn lemma_truncated(a: AmountModel, scale: u32)
    requires
        valid_model(a),
        scale <= MAX_SCALE,
    ensures
        valid_model(truncated(a, scale)),
        truncated(a, scale).0 == a.0,
        truncated(a, scale).2 <= scale,
        value(truncated(a, scale)) == cut_toward_zero(
            value(a),
            pow10((MAX_SCALE - scale) as nat) as int,
        ),
{
    let r = truncated(a, scale);
    let m = a.1 as nat;
    let u = pow10((MAX_SCALE - scale) as nat);
    lemma_pow10_positive((MAX_SCALE - scale) as nat);
    if a.2 >= scale {
        let e = (a.2 - scale) as nat;
        let q = pow10((MAX_SCALE - a.2) as nat);
        let p = pow10(e);
        lemma_pow10_positive(e);
        lemma_pow10_positive((MAX_SCALE - a.2) as nat);
        lemma_pow10_add(e, (MAX_SCALE - a.2) as nat);
        assert(u == p * q);
        vstd::arithmetic::div_mod::lemma_div_nonincreasing(m as int, p as int);
        assert(r.1 == m / p);
        // (m * q) / (p * q) == m / p
        vstd::arithmetic::div_mod::lemma_div_by_multiple(m as int, q as int);
        assert((m * q) / q == m);
        vstd::arithmetic::div_mod::lemma_div_denominator((m * q) as int, q as int, p as int);
        assert(((m * q) / q) / p == (m * q) / (q * p));
        assert(q * p == p * q) by (nonlinear_arith);
        assert((m * q) / u == m / p);
        assert(value(r) == if a.0 { -((m / p) * u) } else { ((m / p) * u) as int });
        assert(value(a) == if a.0 { -(m * q) } else { (m * q) as int });
        assert(r.2 == scale);
    } else {
        let d = (scale - a.2) as nat;
        let k = raise_steps(m, d);
        lemma_raise_steps(m, d);
        lemma_pow10_positive(k);
        let q = pow10((MAX_SCALE - a.2 - k) as nat);
        lemma_pow10_add(k, (MAX_SCALE - a.2 - k) as nat);
        assert(pow10((MAX_SCALE - a.2) as nat) == pow10(k) * q);
        assert(m * pow10((MAX_SCALE - a.2) as nat) == (m * pow10(k)) * q) by (nonlinear_arith)
            requires
                pow10((MAX_SCALE - a.2) as nat) == pow10(k) * q,
        ;
        // the value is a multiple of the unit, so cutting keeps it
        let w = pow10(d);
        lemma_pow10_add(d, (MAX_SCALE - scale) as nat);
        assert(pow10((MAX_SCALE - a.2) as nat) == w * u);
        assert(m * pow10((MAX_SCALE - a.2) as nat) == (m * w) * u) by (nonlinear_arith)
            requires
                pow10((MAX_SCALE - a.2) as nat) == w * u,
        ;
        vstd::arithmetic::div_mod::lemma_div_by_multiple((m * w) as int, u as int);
        assert(value(a) == if a.0 { -((m * w) * u) } else { ((m * w) * u) as int });
    }
}

/// The value of a decimal is zero exactly when its mantissa is.
pub proof fn lemma_value_zero(m: AmountModel)
    ensures
        (value(m) == 0) <==> (m.1 == 0),
{
    let p = pow10((MAX_SCALE - m.2) as nat);
    lemma_pow10_positive((MAX_SCALE - m.2) as nat);
    assert((m.1 == 0) <==> (m.1 * p == 0)) by (nonlinear_arith)
        requires
            p >= 1,
    ;
}

/// `Decimal::checked_add` on the decimals that `a` and `b` hold.
///
/// Claims: the result is the name `decimal_checked_add` of the two inputs; a
/// result has a scale no larger than the larger input scale; when the exact sum
/// can be written at that scale, it is returned unrounded; `None` comes only
/// when the exact sum exceeds the largest decimal, and always when it needs
/// more than 96 bits even at scale 0 (no rounding brings it back in range). (When the sum needs more
/// than 96 bits at that scale, the crate rounds it to a smaller scale; what it
/// rounds to is left to the name.)
#[verifier::external_body]
pub(crate) fn checked_add(a: Amount, b: Amount) -> (r: Option<Amount>)
    ensures
        model_of(r) == decimal_checked_add(a@, b@),
        r matches Some(s) ==> s@.2 <= max_scale(a@.2, b@.2),
        exact_sum(a@, b@) ==> r is Some && value(r.unwrap()@) == value(a@) + value(b@),
        r is None ==> value(a@) + value(b@) > max_magnitude() || value(a@) + value(b@)
            < -max_magnitude(),
        beyond_range(value(a@) + value(b@)) ==> r is None,
{
    let mut x = Decimal::from_i128_with_scale(a.mantissa as i128, a.scale);
    x.set_sign_negative(a.negative);
    let mut y = Decimal::from_i128_with_scale(b.mantissa as i128, b.scale);
    y.set_sign_negative(b.negative);
    x.checked_add(y).map(|d| Amount {
        negative: d.is_sign_negative(),
        mantissa: d.mantissa().unsigned_abs(),
        scale: d.scale(),
    })
}

/// `a >= b` on the decimals that `a` and `b` hold.
///
/// Claims: `Decimal`'s ordering is numeric, so the answer is the comparison of the
/// two values (a negative zero equals zero).
#[verifier::external_body]
pub(crate) fn at_least(a: Amount, b: Amount) -> (r: bool)
    ensures
        r == (value(a@) >= value(b@)),
{
    let mut x = Decimal::from_i128_with_scale(a.mantissa as i128, a.scale);
    x.set_sign_negative(a.negative);
    let mut y = Decimal::from_i128_with_scale(b.mantissa as i128, b.scale);
    y.set_sign_negative(b.negative);
    x >= y
}

/// `a == b` on the decimals that `a` and `b` hold.
///
/// Claims: `Decimal`'s equality is numeric, so the answer is the equality of the
/// two values, whatever their scales and the sign of a zero.
#[verifier::external_body]
pub(crate) fn same_value(a: Amount, b: Amount) -> (r: bool)
    ensures
        r == (value(a@) == value(b@)),
{
    let mut x = Decimal::from_i128_with_scale(a.mantissa as i128, a.scale);
    x.set_sign_negative(a.negative);
    let mut y = Decimal::from_i128_with_scale(b.mantissa as i128, b.scale);
    y.set_sign_negative(b.negative);
    x == y
}

/// `Decimal::trunc_with_scale` on the decimal that `a` holds.
///
/// Claims: the result is `truncated(a, scale)`: the sign bit is kept; digits
/// beyond `scale` are dropped without rounding; a smaller scale is raised to
/// `scale`, or as far toward it as the 96-bit mantissa allows.
#[verifier::external_body]
pub(crate) fn trunc_with_scale(a: Amount, scale: u32) -> (r: Amount)
    requires
        scale <= MAX_SCALE,
    ensures
        r@ == truncated(a@, scale),
{
    let mut x = Decimal::from_i128_with_scale(a.mantissa as i128, a.scale);
    x.set_sign_negative(a.negative);
    let d = x.trunc_with_scale(scale);
    Amount { negative: d.is_sign_negative(), mantissa: d.mantissa().unsigned_abs(), scale: d.scale() }
}

/// `Decimal`'s `Display` (through `to_string`) on the decimal that `a` holds.
///
/// Claims: the text is `display_text` of the decimal's parts (no precision or
/// width is given, so none applies).
#[verifier::external_body]
pub(crate) fn to_text(a: Amount) -> (r: String)
    ensures
        r@ == display_text(a@),
{
    let mut x = Decimal::from_i128_with_scale(a.mantissa as i128, a.scale);
    x.set_sign_negative(a.negative);
    x.to_string()
}

impl PartialEq for Amount {
    fn eq(&self, other: &Amount) -> (r: bool) {
        same_value(*self, *other)
    }
}

impl Eq for Amount {

}

impl vstd::std_specs::cmp::PartialEqSpecImpl for Amount {
    open spec fn obeys_eq_spec() -> bool {
        true
    }

    open spec fn eq_spec(&self, other: &Amount) -> bool {
        value(self@) == value(other@)
    }
}

} // verus!
