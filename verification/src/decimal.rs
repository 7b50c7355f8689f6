//! A decimal number held as an integer mantissa and a count of fractional digits, with the
//! two operations that are left to the `rust_decimal` crate: rounding to a number of places
//! and writing the digits out. What each of the two returns is stated here in full.

use rust_decimal::{Decimal, RoundingStrategy};
use vstd::arithmetic::div_mod::{lemma_fundamental_div_mod, lemma_mod_bound};
use vstd::arithmetic::power::{lemma_pow_positive, pow};
use vstd::prelude::*;

verus! {

/// The largest magnitude of a mantissa that a 96-bit decimal holds.
pub const MAX_MANTISSA: i128 = 79_228_162_514_264_337_593_543_950_335;

/// The largest count of fractional digits that a 96-bit decimal holds.
pub const MAX_SCALE: u32 = 28;

/// The largest width, and the largest precision, that a format takes at run time.
pub const MAX_FORMAT_COUNT: usize = 65_535;

/// Ten to the power `n`.
pub open spec fn pow10(n: nat) -> int {
    pow(10, n)
}

/// `mantissa / divisor`, rounded to the nearest integer, a tie going away from zero.
pub open spec fn round_half_away(mantissa: int, divisor: int) -> int
    recommends
        divisor > 0,
{
    let magnitude = if mantissa < 0 {
        -mantissa
    } else {
        mantissa
    };
    let quotient = magnitude / divisor;
    let nearest = if 2 * (magnitude % divisor) >= divisor {
        quotient + 1
    } else {
        quotient
    };
    if mantissa < 0 {
        -nearest
    } else {
        nearest
    }
}

/// The number `mantissa / 10^scale`, with no limit on either part.
pub struct DecimalSpec {
    pub mantissa: int,
    pub scale: nat,
}

impl DecimalSpec {
    /// Whether a 96-bit decimal with at most 28 fractional digits holds this number as it
    /// is written.
    pub open spec fn is_representable(self) -> bool {
        &&& self.scale <= MAX_SCALE
        &&& -MAX_MANTISSA <= self.mantissa <= MAX_MANTISSA
    }

    /// This number with at most `places` fractional digits: unchanged where it has no more
    /// than that, else rounded half away from zero to exactly `places`.
    pub open spec fn rounded(self, places: nat) -> DecimalSpec {
        if self.scale <= places {
            self
        } else {
            DecimalSpec {
                mantissa: round_half_away(self.mantissa, pow10((self.scale - places) as nat)),
                scale: places,
            }
        }
    }
}

/// The decimal number `mantissa / 10^scale`.
#[derive(Debug, Clone, Copy, PartialEq, Eq, Structural)]
pub struct DecimalValue {
    pub mantissa: i128,
    pub scale: u32,
}

impl View for DecimalValue {
    type V = DecimalSpec;

    open spec fn view(&self) -> DecimalSpec {
        DecimalSpec { mantissa: self.mantissa as int, scale: self.scale as nat }
    }
}

impl DecimalValue {
    /// Tells whether a 96-bit decimal holds this value.
    pub fn fits(&self) -> (fits: bool)
        ensures
            fits == self@.is_representable(),
    {
        self.scale <= MAX_SCALE && -MAX_MANTISSA <= self.mantissa && self.mantissa
            <= MAX_MANTISSA
    }
}

/// The character of one decimal digit.
pub open spec fn digit_char(digit: int) -> char
    recommends
        0 <= digit <= 9,
{
    seq!['0', '1', '2', '3', '4', '5', '6', '7', '8', '9'][digit]
}

/// The decimal digits of a whole number, the most significant first and none of them a
/// leading zero; zero is written as one digit.
pub open spec fn integer_digits(number: nat) -> Seq<char>
    decreases number,
{
    if number < 10 {
        seq![digit_char(number as int)]
    } else {
        integer_digits(number / 10).push(digit_char((number % 10) as int))
    }
}

/// The first `precision` fractional digits of `mantissa / 10^scale`: what the number has
/// beyond them is cut off, and where it has fewer, zeros follow.
pub open spec fn fraction_digits(mantissa: int, scale: nat, precision: nat) -> Seq<char>
    recommends
        mantissa >= 0,
{
    Seq::new(
        precision,
        |place: int|
            if place < scale {
                digit_char((mantissa / pow10((scale - 1 - place) as nat)) % 10)
            } else {
                '0'
            },
    )
}

/// The text of the number `mantissa / 10^scale`, which is not negative, with `precision`
/// fractional digits and zeros in front up to `width` characters: the integer digits, then,
/// where fractional digits are asked for, the point and those digits.
pub open spec fn decimal_text(mantissa: int, scale: nat, width: nat, precision: nat) -> Seq<char>
    recommends
        mantissa >= 0,
{
    let whole = integer_digits((mantissa / pow10(scale)) as nat);
    let digits = if precision > 0 {
        whole.push('.') + fraction_digits(mantissa, scale, precision)
    } else {
        whole
    };
    let padding = if digits.len() < width {
        (width - digits.len()) as nat
    } else {
        0
    };
    Seq::new(padding, |place: int| '0') + digits
}

/// `Decimal::round_dp_with_strategy` with `RoundingStrategy::MidpointAwayFromZero`.
///
/// Taken on trust: a value with no more than `places` fractional digits comes back as it
/// is. Any other comes back with exactly `places` digits: its magnitude divided by the
/// power of ten that drops the surplus digits, one added where the dropped digits make half
/// a unit or more, and the sign kept.
#[verifier::external_body]
pub(crate) fn round_half_away_from_zero(value: DecimalValue, places: u32) -> (rounded:
    DecimalValue)
    requires
        value@.is_representable(),
    ensures
        rounded@ == value@.rounded(places as nat),
{
    let rounded = Decimal::from_i128_with_scale(value.mantissa, value.scale)
        .round_dp_with_strategy(places, RoundingStrategy::MidpointAwayFromZero);
    DecimalValue { mantissa: rounded.mantissa(), scale: rounded.scale() }
}

/// `Display` of `Decimal`, called through `format!("{:0width$.precision$}")`.
///
/// Taken on trust: for a value that is not negative the text is the integer digits of the
/// value, then, for a precision above zero, the point and exactly that many fractional
/// digits, cut off and not rounded; zeros stand in front of it where it is shorter than the
/// width. `format!` panics on a width or a precision that 16 bits do not hold. `Decimal`
/// writes its digits to a buffer of 32 characters and panics past its end; the demands keep
/// the text within it: either no fractional digit is asked for, or the integer part has at
/// most three digits.
#[verifier::external_body]
pub(crate) fn fixed_text(value: DecimalValue, width: usize, precision: usize) -> (text: String)
    requires
        value@.is_representable(),
        value.mantissa >= 0,
        width <= MAX_FORMAT_COUNT,
        precision <= MAX_FORMAT_COUNT,
        precision == 0 || value.mantissa < 1000 * pow10(value@.scale),
    ensures
        text@ == decimal_text(
            value.mantissa as int,
            value.scale as nat,
            width as nat,
            precision as nat,
        ),
{
    let decimal = Decimal::from_i128_with_scale(value.mantissa, value.scale);
    format!("{decimal:0width$.precision$}")
}

/// Ten to the power `exponent`, for the exponents that a scale can take.
pub fn power_of_ten(exponent: u32) -> (power: i128)
    requires
        exponent <= MAX_SCALE,
    ensures
        power == pow10(exponent as nat),
        1 <= power <= 10_000_000_000_000_000_000_000_000_000,
{
    let mut power: i128 = 1;
    let mut done: u32 = 0;
    proof {
        reveal(pow);
    }
    while done < exponent
        invariant
            done <= exponent <= MAX_SCALE,
            power == pow10(done as nat),
            1 <= power,
            power * pow10((MAX_SCALE - done) as nat) == pow10(MAX_SCALE as nat),
        decreases exponent - done,
    {
        proof {
            let rest = pow10((MAX_SCALE - done - 1) as nat);
            lemma_pow10_max();
            lemma_pow10_step(done as nat);
            lemma_pow10_step((MAX_SCALE - done - 1) as nat);
            assert(power * 10 * rest == pow10(MAX_SCALE as nat)) by (nonlinear_arith)
                requires
                    power * pow10((MAX_SCALE - done) as nat) == pow10(MAX_SCALE as nat),
                    pow10((MAX_SCALE - done) as nat) == 10 * rest,
            ;
            assert(power * 10 <= pow10(MAX_SCALE as nat)) by (nonlinear_arith)
                requires
                    power * 10 * rest == pow10(MAX_SCALE as nat),
                    rest >= 1,
                    power >= 1,
            ;
        }
        power = power * 10;
        done = done + 1;
    }
    proof {
        let rest = pow10((MAX_SCALE - done) as nat);
        lemma_pow10_max();
        lemma_pow_positive(10, (MAX_SCALE - done) as nat);
        assert(power <= pow10(MAX_SCALE as nat)) by (nonlinear_arith)
            requires
                power * rest == pow10(MAX_SCALE as nat),
                rest >= 1,
                power >= 1,
        ;
    }
    power
}

/// Rounding `mantissa / divisor` keeps it within a bound that `mantissa` keeps within
/// `bound * divisor`, and gives no larger a magnitude than `mantissa` has.
pub proof fn lemma_round_half_away_bounded(mantissa: int, divisor: int, bound: int)
    requires
        divisor >= 2,
        -(bound * divisor) <= mantissa <= bound * divisor,
    ensures
        -bound <= round_half_away(mantissa, divisor) <= bound,
        mantissa >= 0 ==> 0 <= round_half_away(mantissa, divisor) <= mantissa,
        mantissa <= 0 ==> mantissa <= round_half_away(mantissa, divisor) <= 0,
{
    let magnitude = if mantissa < 0 {
        -mantissa
    } else {
        mantissa
    };
    let quotient = magnitude / divisor;
    let remainder = magnitude % divisor;
    lemma_fundamental_div_mod(magnitude, divisor);
    lemma_mod_bound(magnitude, divisor);
    assert(quotient >= 0 && (quotient >= 1 ==> quotient + 1 <= magnitude) && (quotient == 0 && 2
        * remainder >= divisor ==> 1 <= magnitude)) by (nonlinear_arith)
        requires
            magnitude == divisor * quotient + remainder,
            0 <= remainder < divisor,
            divisor >= 2,
            magnitude >= 0,
    ;
    assert(quotient <= bound && (quotient == bound ==> remainder == 0)) by (nonlinear_arith)
        requires
            magnitude == divisor * quotient + remainder,
            0 <= remainder < divisor,
            magnitude <= bound * divisor,
    ;
}

/// Each further power of ten is ten times the one before, and none is less than one.
pub proof fn lemma_pow10_step(n: nat)
    ensures
        pow10(n + 1) == 10 * pow10(n),
        pow10(n) >= 1,
{
    reveal(pow);
    lemma_pow_positive(10, n);
}

/// The largest power of ten that a scale can name.
pub proof fn lemma_pow10_max()
    ensures
        pow10(MAX_SCALE as nat) == 10_000_000_000_000_000_000_000_000_000,
{
    reveal_with_fuel(pow, 29);
}

} // verus!
