use vstd::prelude::*;
use std::str::FromStr;
use crate::text::nat_digits;

verus! {

/// The largest magnitude of a decimal's mantissa: 96 bits.
pub const DECIMAL_MAX_MANTISSA: i128 = 0xFFFF_FFFF_FFFF_FFFF_FFFF_FFFF;

/// The largest number of digits after a decimal's point.
pub const DECIMAL_MAX_SCALE: u32 = 28;

/// A fixed-point decimal: `mantissa / 10^scale`, with its scale kept as
/// given (`1.50` and `1.5` differ).
#[derive(Debug, Copy, Clone, PartialEq, Eq, Hash, Structural)]
pub struct DecimalValue {
    pub mantissa: i128,
    pub scale: u32,
}

impl DecimalValue {
    pub open spec fn wf(self) -> bool {
        &&& self.scale <= DECIMAL_MAX_SCALE
        &&& -DECIMAL_MAX_MANTISSA <= self.mantissa <= DECIMAL_MAX_MANTISSA
    }
}

pub open spec fn abs(m: int) -> nat {
    if m < 0 {
        (-m) as nat
    } else {
        m as nat
    }
}

pub open spec fn zeros(n: nat) -> Seq<char> {
    Seq::new(n, |i: int| '0')
}

/// The digits of `n` with leading zeros up to `width` characters.
pub open spec fn padded_digits(n: nat, width: nat) -> Seq<char> {
    let d = nat_digits(n);
    if d.len() < width {
        zeros((width - d.len()) as nat) + d
    } else {
        d
    }
}

/// Fixed-point text of `m / 10^scale`: a `-` for negative values, the whole
/// part (`0` when empty), and, for a positive scale, a point followed by
/// exactly `scale` digits.
pub open spec fn decimal_text(m: int, scale: nat) -> Seq<char> {
    let p = padded_digits(abs(m), scale);
    let whole = p.subrange(0, p.len() - scale);
    let frac = p.subrange(p.len() - scale, p.len() as int);
    let sign = if m < 0 {
        seq!['-']
    } else {
        seq![]
    };
    let w = if whole.len() == 0 {
        seq!['0']
    } else {
        whole
    };
    if scale > 0 {
        sign + w + seq!['.'] + frac
    } else {
        sign + w
    }
}

/// What `rust_decimal` reads from a string: mantissa and scale.
pub uninterp spec fn decimal_parse_of(s: Seq<char>) -> Option<(int, nat)>;

/// Relies on `rust_decimal::Decimal::from_i128_with_scale` (which panics
/// outside the bounds required here) and on its `Display`, which writes the
/// sign, the whole part, and `scale` digits after the point.
#[verifier::external_body]
pub(crate) fn decimal_to_text(mantissa: i128, scale: u32) -> (r: String)
    requires
        scale <= DECIMAL_MAX_SCALE,
        -DECIMAL_MAX_MANTISSA <= mantissa <= DECIMAL_MAX_MANTISSA,
    ensures
        r@ == decimal_text(mantissa as int, scale as nat),
{
    rust_decimal::Decimal::from_i128_with_scale(mantissa, scale).to_string()
}

/// Relies on `rust_decimal::Decimal::from_str`, and on `mantissa` and
/// `scale` of the result: a parsed decimal is within the type's bounds, and
/// the text that `Display` writes for a decimal reads back as that decimal.
#[verifier::external_body]
pub(crate) fn decimal_from_text(s: &str) -> (r: Option<(i128, u32)>)
    ensures
        r matches Some(p) ==> decimal_parse_of(s@) == Some((p.0 as int, p.1 as nat)),
        r matches Some(p) ==> p.1 <= DECIMAL_MAX_SCALE && -DECIMAL_MAX_MANTISSA <= p.0
            <= DECIMAL_MAX_MANTISSA,
        r is None ==> decimal_parse_of(s@) is None,
        forall|m: int, sc: nat|
            sc <= 28 && abs(m) <= DECIMAL_MAX_MANTISSA && s@ == #[trigger] decimal_text(
                m,
                sc,
            ) ==> r == Some((m as i128, sc as u32)),
{
    rust_decimal::Decimal::from_str(s).ok().map(|d| (d.mantissa(), d.scale()))
}

/// Canonical text of a decimal.
pub fn encode_decimal(d: DecimalValue) -> (r: String)
    requires
        d.wf(),
    ensures
        r@ == decimal_text(d.mantissa as int, d.scale as nat),
{
    decimal_to_text(d.mantissa, d.scale)
}

/// Reads a decimal; `None` where `rust_decimal` rejects the text.
pub fn decode_decimal(s: &str) -> (r: Option<DecimalValue>)
    ensures
        r matches Some(d) ==> d.wf() && decimal_parse_of(s@) == Some(
            (d.mantissa as int, d.scale as nat),
        ),
        r is None ==> decimal_parse_of(s@) is None,
        forall|d: DecimalValue|
            d.wf() && s@
                == #[trigger] decimal_text(d.mantissa as int, d.scale as nat) ==> r == Some(d),
{
    match decimal_from_text(s) {
        Some(p) => Some(DecimalValue { mantissa: p.0, scale: p.1 }),
        None => None,
    }
}

} // verus!
