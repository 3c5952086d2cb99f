use rust_decimal::Decimal;
use vstd::prelude::*;

verus! {

/// Largest magnitude of a mantissa: 2^96 - 1.
pub const MAX_MANTISSA: i128 = 0xFFFF_FFFF_FFFF_FFFF_FFFF_FFFF;

/// Largest number of digits after the decimal point.
pub const MAX_SCALE: u32 = 28;

/// An exact base-10 number, worth `mantissa / 10^scale`.
///
/// The fields hold what a `rust_decimal::Decimal` holds; all arithmetic on
/// them is done by that crate.
#[derive(Clone, Copy, Debug, PartialEq, Eq, Structural)]
pub struct Dec {
    pub mantissa: i128,
    pub scale: u32,
}

impl View for Dec {
    type V = (int, nat);

    open spec fn view(&self) -> (int, nat) {
        (self.mantissa as int, self.scale as nat)
    }
}

impl Dec {
    /// The ranges within which a `Decimal` can be built from the fields.
    pub open spec fn wf(&self) -> bool {
        &&& self.scale <= MAX_SCALE
        &&& -MAX_MANTISSA <= self.mantissa <= MAX_MANTISSA
    }

    pub open spec fn is_zero_spec(&self) -> bool {
        self.mantissa == 0
    }

    pub open spec fn non_negative(&self) -> bool {
        self.mantissa >= 0
    }

    /// The whole number `n`.
    pub fn from_int(n: i64) -> (r: Dec)
        ensures
            r@ == (n as int, 0nat),
            r.wf(),
    {
        Dec { mantissa: n as i128, scale: 0 }
    }

    pub fn zero() -> (r: Dec)
        ensures
            r@ == (0int, 0nat),
            r.wf(),
    {
        Dec { mantissa: 0, scale: 0 }
    }

    pub fn is_zero(&self) -> (r: bool)
        ensures
            r == self.is_zero_spec(),
    {
        self.mantissa == 0
    }
}

/// The view of an optional number.
pub open spec fn opt_view(o: Option<Dec>) -> Option<(int, nat)> {
    match o {
        Some(d) => Some(d@),
        None => None,
    }
}

/// `10^n`.
pub open spec fn pow10(n: nat) -> nat
    decreases n,
{
    if n == 0 {
        1
    } else {
        10 * pow10((n - 1) as nat)
    }
}

/// `a / p` rounded to the nearest whole number, ties to the even one.
pub open spec fn div_half_even(a: nat, p: nat) -> nat {
    let q = a / p;
    let r = a % p;
    if 2 * r > p || (2 * r == p && q % 2 == 1) {
        q + 1
    } else {
        q
    }
}

/// `d` rounded to at most `dp` digits after the point, ties to even; a
/// number with no more digits than that is returned as it is.
pub open spec fn rounded(d: (int, nat), dp: nat) -> (int, nat) {
    if d.1 <= dp {
        d
    } else {
        let mag = div_half_even((if d.0 < 0 { -d.0 } else { d.0 }) as nat, pow10((d.1 - dp) as nat));
        (if d.0 < 0 { -(mag as int) } else { mag as int }, dp)
    }
}

/// What `Decimal::checked_add` returns on two numbers.
pub uninterp spec fn sum_of(a: (int, nat), b: (int, nat)) -> Option<(int, nat)>;

/// What `Decimal::checked_sub` returns on two numbers.
pub uninterp spec fn difference_of(a: (int, nat), b: (int, nat)) -> Option<(int, nat)>;

/// What `Decimal::checked_mul` returns on two numbers.
pub uninterp spec fn product_of(a: (int, nat), b: (int, nat)) -> Option<(int, nat)>;

/// What `Decimal::checked_div` returns on two numbers.
pub uninterp spec fn quotient_of(a: (int, nat), b: (int, nat)) -> Option<(int, nat)>;

/// The digit character for `d < 10`.
pub open spec fn digit_char(d: nat) -> char {
    seq!['0', '1', '2', '3', '4', '5', '6', '7', '8', '9'][d as int]
}

/// The decimal digits of `n`, most significant first; none for zero.
pub open spec fn digits(n: nat) -> Seq<char>
    decreases n,
{
    if n == 0 {
        seq![]
    } else {
        digits(n / 10).push(digit_char(n % 10))
    }
}

/// The text that `Decimal`'s `Display` writes for a number: a `-` for a
/// negative one, the digits of the mantissa with the point before the last
/// `scale` of them, zeros in front where there are fewer digits than that,
/// and a `0` before a point that nothing else precedes.
pub open spec fn text_of(d: (int, nat)) -> Seq<char> {
    let digs = digits((if d.0 < 0 { -d.0 } else { d.0 }) as nat);
    let padded = if digs.len() < d.1 {
        Seq::new((d.1 - digs.len()) as nat, |i: int| '0') + digs
    } else {
        digs
    };
    let whole = padded.len() - d.1;
    let body = if d.1 == 0 {
        if digs.len() == 0 {
            seq!['0']
        } else {
            digs
        }
    } else {
        (if whole == 0 {
            seq!['0']
        } else {
            padded.take(whole)
        }) + seq!['.'] + padded.skip(whole)
    };
    (if d.0 < 0 {
        seq!['-']
    } else {
        seq![]
    }) + body
}

/// Relies on `Decimal::checked_add`: the sum, `None` where it overflows.
#[verifier::external_body]
pub(crate) fn checked_sum(a: Dec, b: Dec) -> (r: Option<Dec>)
    requires
        a.wf(),
        b.wf(),
    ensures
        opt_view(r) == sum_of(a@, b@),
        r matches Some(d) ==> d.wf(),
{
    let x = Decimal::from_i128_with_scale(a.mantissa, a.scale);
    let y = Decimal::from_i128_with_scale(b.mantissa, b.scale);
    match x.checked_add(y) {
        Some(d) => Some(Dec { mantissa: d.mantissa(), scale: d.scale() }),
        None => None,
    }
}

/// Relies on `Decimal::checked_sub`: the difference, `None` where it overflows.
#[verifier::external_body]
pub(crate) fn checked_difference(a: Dec, b: Dec) -> (r: Option<Dec>)
    requires
        a.wf(),
        b.wf(),
    ensures
        opt_view(r) == difference_of(a@, b@),
        r matches Some(d) ==> d.wf(),
{
    let x = Decimal::from_i128_with_scale(a.mantissa, a.scale);
    let y = Decimal::from_i128_with_scale(b.mantissa, b.scale);
    match x.checked_sub(y) {
        Some(d) => Some(Dec { mantissa: d.mantissa(), scale: d.scale() }),
        None => None,
    }
}

/// Relies on `Decimal::checked_mul`: the product, `None` where it overflows.
/// A zero factor gives zero at scale 0; a product whose mantissa and scale
/// fit is exact (`mul_impl` and `finish_mul` rescale nothing then).
#[verifier::external_body]
pub(crate) fn checked_product(a: Dec, b: Dec) -> (r: Option<Dec>)
    requires
        a.wf(),
        b.wf(),
    ensures
        opt_view(r) == product_of(a@, b@),
        r matches Some(d) ==> d.wf(),
        a.mantissa == 0 || b.mantissa == 0 ==> opt_view(r) == Some((0int, 0nat)),
        a.mantissa != 0 && b.mantissa != 0 && a.scale + b.scale <= MAX_SCALE && -MAX_MANTISSA
            <= a.mantissa * b.mantissa <= MAX_MANTISSA ==> opt_view(r) == Some(
            (a.mantissa * b.mantissa, (a.scale + b.scale) as nat),
        ),
{
    let x = Decimal::from_i128_with_scale(a.mantissa, a.scale);
    let y = Decimal::from_i128_with_scale(b.mantissa, b.scale);
    match x.checked_mul(y) {
        Some(d) => Some(Dec { mantissa: d.mantissa(), scale: d.scale() }),
        None => None,
    }
}

/// Relies on `Decimal::checked_div`: the quotient, `None` where it
/// overflows or the divisor is zero.
#[verifier::external_body]
pub(crate) fn checked_quotient(a: Dec, b: Dec) -> (r: Option<Dec>)
    requires
        a.wf(),
        b.wf(),
    ensures
        opt_view(r) == quotient_of(a@, b@),
        r matches Some(d) ==> d.wf(),
{
    let x = Decimal::from_i128_with_scale(a.mantissa, a.scale);
    let y = Decimal::from_i128_with_scale(b.mantissa, b.scale);
    match x.checked_div(y) {
        Some(d) => Some(Dec { mantissa: d.mantissa(), scale: d.scale() }),
        None => None,
    }
}

/// Relies on `Decimal::round_dp`: rounds to `dp` digits after the point,
/// ties to even, and leaves a number with fewer digits as it is.
#[verifier::external_body]
pub(crate) fn round_dp(a: Dec, dp: u32) -> (r: Dec)
    requires
        a.wf(),
    ensures
        r@ == rounded(a@, dp as nat),
        r.wf(),
{
    let d = Decimal::from_i128_with_scale(a.mantissa, a.scale).round_dp(dp);
    Dec { mantissa: d.mantissa(), scale: d.scale() }
}

/// Relies on `Decimal`'s `Display` (`to_str_internal` with no precision,
/// then the sign): the number written out in full.
#[verifier::external_body]
pub(crate) fn decimal_text(a: Dec) -> (r: String)
    requires
        a.wf(),
    ensures
        r@ == text_of(a@),
{
    Decimal::from_i128_with_scale(a.mantissa, a.scale).to_string()
}

} // verus!
