use crate::bytes::{le_bytes, le_value};
use vstd::prelude::*;

verus! {

/// The largest magnitude a decimal's mantissa can have: 96 bits of ones.
pub const DECIMAL_MAX_MANTISSA: i128 = 79228162514264337593543950335;

/// The largest number of fractional digits a decimal can have.
pub const DECIMAL_MAX_SCALE: u32 = 28;

/// How one value stands to another of the same kind.
#[derive(Debug, Clone, Copy, PartialEq, Eq, Structural)]
pub enum ValueOrder {
    Less,
    Equal,
    Greater,
}

/// A fixed-point number: `mantissa / 10^scale`, with a mantissa of at most 96
/// bits and a scale of at most 28.
#[derive(Debug, Clone, Copy)]
pub struct Decimal {
    mantissa: i128,
    scale: u32,
}

/// 10 to the power `n`.
pub open spec fn pow10(n: nat) -> nat
    decreases n,
{
    if n == 0 {
        1
    } else {
        10 * pow10((n - 1) as nat)
    }
}

/// The sign of `x` as an order: negative is `Less`, zero is `Equal`.
pub open spec fn order_of_sign(x: int) -> ValueOrder {
    if x < 0 {
        ValueOrder::Less
    } else if x == 0 {
        ValueOrder::Equal
    } else {
        ValueOrder::Greater
    }
}

/// The numeric order of `m1 / 10^s1` against `m2 / 10^s2`.
pub open spec fn decimal_order_of(m1: int, s1: nat, m2: int, s2: nat) -> ValueOrder {
    order_of_sign(m1 * pow10(s2) - m2 * pow10(s1))
}

/// [`decimal_order_of`] on machine integers.
pub open spec fn decimal_order_of_parts(m1: i128, s1: u32, m2: i128, s2: u32) -> ValueOrder {
    decimal_order_of(m1 as int, s1 as nat, m2 as int, s2 as nat)
}

/// Whether a mantissa and a scale are inside what a decimal can hold.
pub open spec fn decimal_parts_ok(m: i128, s: u32) -> bool {
    -DECIMAL_MAX_MANTISSA <= m <= DECIMAL_MAX_MANTISSA && s <= DECIMAL_MAX_SCALE
}

/// The flags word of a decimal's 16-byte form: the scale in bits 16 to 23,
/// the sign in bit 31.
pub open spec fn decimal_flags(m: int, s: nat) -> nat {
    (s * 0x1_0000 + if m < 0 {
        0x8000_0000int
    } else {
        0int
    }) as nat
}

/// The magnitude of a mantissa.
pub open spec fn magnitude(m: int) -> nat {
    if m < 0 {
        (-m) as nat
    } else {
        m as nat
    }
}

/// The 16-byte form of a decimal: flags, then the low, middle and high 32
/// bits of the mantissa's magnitude, each little-endian.
pub open spec fn decimal_raw(m: int, s: nat) -> Seq<u8> {
    le_bytes(decimal_flags(m, s), 4) + le_bytes(magnitude(m), 12)
}

/// What `rust_decimal` reads out of sixteen bytes.
pub uninterp spec fn decimal_of_raw(bytes: Seq<u8>) -> Decimal;

/// The decimal with a given mantissa and scale.
pub open spec fn decimal_with(m: int, s: nat) -> Decimal {
    choose|d: Decimal| d.m() == m && d.s() == s
}

/// The scale that the flag bytes of a 16-byte form hold: five bits from bit
/// 16 on.
pub open spec fn raw_scale(w: Seq<u8>) -> nat {
    (le_value(w.subrange(0, 4)) / 0x1_0000) % 32
}

/// The decimal that sixteen bytes spell: sign and scale from the flag bytes,
/// the magnitude from the other twelve. A scale above 28 is left to
/// `rust_decimal`, which rounds the number to 28 digits.
pub open spec fn decimal_decode(w: Seq<u8>) -> Decimal {
    let mag = le_value(w.subrange(4, 16));
    if raw_scale(w) <= DECIMAL_MAX_SCALE {
        decimal_with(
            if le_value(w.subrange(0, 4)) >= 0x8000_0000 {
                -(mag as int)
            } else {
                mag as int
            },
            raw_scale(w),
        )
    } else {
        decimal_of_raw(w)
    }
}

/// What `rust_decimal` makes of `m / 10^s` when it is cut to `target`
/// fractional digits without rounding. Its scale may lie above what a
/// decimal can hold where `target` does.
pub uninterp spec fn decimal_truncated(m: int, s: nat, target: nat) -> Decimal;

/// `m / 10^s` cut to `target` fractional digits, where the result is a
/// decimal that can be held.
pub open spec fn truncated_to(m: int, s: nat, target: nat) -> Option<Decimal> {
    if decimal_truncated(m, s, target).s() <= DECIMAL_MAX_SCALE {
        Some(decimal_truncated(m, s, target))
    } else {
        None
    }
}

/// The text `rust_decimal` prints for `m / 10^s`.
pub uninterp spec fn decimal_text(m: int, s: nat) -> Seq<char>;

/// What `rust_decimal` parses out of a text, if it is a decimal number.
pub uninterp spec fn decimal_parsed(text: Seq<char>) -> Option<Decimal>;

impl Decimal {
    #[verifier::type_invariant]
    closed spec fn inv(self) -> bool {
        &&& -DECIMAL_MAX_MANTISSA <= self.mantissa <= DECIMAL_MAX_MANTISSA
        &&& self.scale <= DECIMAL_MAX_SCALE
    }

    /// The mantissa as a mathematical integer.
    pub closed spec fn m(self) -> int {
        self.mantissa as int
    }

    /// The scale as a natural number.
    pub closed spec fn s(self) -> nat {
        self.scale as nat
    }

    /// Whether mantissa and scale are inside what a decimal can hold.
    pub open spec fn in_range(self) -> bool {
        &&& -DECIMAL_MAX_MANTISSA <= self.m() <= DECIMAL_MAX_MANTISSA
        &&& self.s() <= DECIMAL_MAX_SCALE
    }

    /// Two decimals with the same mantissa and scale are the same decimal.
    pub proof fn lemma_same(a: Decimal, b: Decimal)
        requires
            a.m() == b.m(),
            a.s() == b.s(),
        ensures
            a == b,
    {
    }

    /// `num / 10^scale`.
    pub fn new(num: i64, scale: u32) -> (d: Decimal)
        requires
            scale <= DECIMAL_MAX_SCALE,
        ensures
            d.m() == num,
            d.s() == scale,
            d.in_range(),
    {
        Decimal { mantissa: num as i128, scale }
    }

    /// `mantissa / 10^scale`, if both are inside what a decimal can hold.
    pub fn from_parts(mantissa: i128, scale: u32) -> (d: Option<Decimal>)
        ensures
            d is Some <==> (-DECIMAL_MAX_MANTISSA <= mantissa <= DECIMAL_MAX_MANTISSA && scale
                <= DECIMAL_MAX_SCALE),
            d matches Some(x) ==> x.m() == mantissa && x.s() == scale && x.in_range(),
    {
        if scale <= DECIMAL_MAX_SCALE && mantissa >= -DECIMAL_MAX_MANTISSA && mantissa
            <= DECIMAL_MAX_MANTISSA {
            Some(Decimal { mantissa, scale })
        } else {
            None
        }
    }

    /// The largest decimal.
    pub fn max_value() -> (d: Decimal)
        ensures
            d.m() == DECIMAL_MAX_MANTISSA,
            d.s() == 0,
    {
        Decimal { mantissa: DECIMAL_MAX_MANTISSA, scale: 0 }
    }

    /// The smallest decimal.
    pub fn min_value() -> (d: Decimal)
        ensures
            d.m() == -DECIMAL_MAX_MANTISSA,
            d.s() == 0,
    {
        Decimal { mantissa: -DECIMAL_MAX_MANTISSA, scale: 0 }
    }

    /// The mantissa.
    pub fn mantissa(&self) -> (m: i128)
        ensures
            m == self.m(),
            -DECIMAL_MAX_MANTISSA <= m <= DECIMAL_MAX_MANTISSA,
    {
        proof {
            use_type_invariant(self);
        }
        self.mantissa
    }

    /// The number of fractional digits.
    pub fn scale(&self) -> (s: u32)
        ensures
            s == self.s(),
            s <= DECIMAL_MAX_SCALE,
    {
        proof {
            use_type_invariant(self);
        }
        self.scale
    }

    /// Whether the number is zero.
    pub fn is_zero(&self) -> (r: bool)
        ensures
            r == (self.m() == 0),
    {
        self.mantissa == 0
    }

    /// Whether the number is zero or above.
    pub fn is_sign_positive(&self) -> (r: bool)
        ensures
            r == (self.m() >= 0),
    {
        self.mantissa >= 0
    }

    /// Whether the number is below zero.
    pub fn is_sign_negative(&self) -> (r: bool)
        ensures
            r == (self.m() < 0),
    {
        self.mantissa < 0
    }

    /// The numeric order of `self` against `other`.
    pub fn order(&self, other: &Decimal) -> (r: ValueOrder)
        ensures
            r == decimal_order_of(self.m(), self.s(), other.m(), other.s()),
    {
        proof {
            use_type_invariant(self);
            use_type_invariant(other);
        }
        decimal_order(self.mantissa, self.scale, other.mantissa, other.scale)
    }

    /// The 16-byte form.
    pub fn to_raw_bytes(&self) -> (r: Vec<u8>)
        ensures
            r@ == decimal_raw(self.m(), self.s()),
            r@.len() == 16,
    {
        proof {
            use_type_invariant(self);
            crate::bytes::lemma_le_len(decimal_flags(self.m(), self.s()), 4);
            crate::bytes::lemma_le_len(magnitude(self.m()), 12);
        }
        decimal_serialize(self.mantissa, self.scale)
    }

    /// The decimal that sixteen bytes spell.
    pub fn from_raw_bytes(bytes: &[u8]) -> (d: Decimal)
        requires
            bytes@.len() == 16,
        ensures
            d == decimal_decode(bytes@),
    {
        let (mantissa, scale) = decimal_deserialize(bytes);
        let d = Decimal { mantissa, scale };
        proof {
            Decimal::lemma_same(d, decimal_decode(bytes@));
        }
        d
    }

    /// Cuts the number to `target` fractional digits without rounding.
    pub fn trunc_with_scale(&self, target: u32) -> (d: Option<Decimal>)
        ensures
            d == truncated_to(self.m(), self.s(), target as nat),
    {
        proof {
            use_type_invariant(self);
        }
        let (mantissa, scale) = decimal_truncate(self.mantissa, self.scale, target);
        if scale <= DECIMAL_MAX_SCALE {
            let d = Decimal { mantissa, scale };
            proof {
                Decimal::lemma_same(d, decimal_truncated(self.m(), self.s(), target as nat));
            }
            Some(d)
        } else {
            None
        }
    }

    /// The number as text.
    pub fn to_text(&self) -> (r: String)
        ensures
            r@ == decimal_text(self.m(), self.s()),
    {
        proof {
            use_type_invariant(self);
        }
        decimal_print(self.mantissa, self.scale)
    }

    /// The decimal that a text spells, if it spells one.
    pub fn parse(text: &str) -> (d: Option<Decimal>)
        ensures
            d == decimal_parsed(text@),
    {
        match decimal_scan(text) {
            Some((mantissa, scale)) => {
                let d = Decimal { mantissa, scale };
                proof {
                    Decimal::lemma_same(d, decimal_parsed(text@)->0);
                }
                Some(d)
            },
            None => None,
        }
    }
}

/// `Ord::cmp` of `rust_decimal::Decimal`, on two numbers built with
/// `from_i128_with_scale`: decimals order by numeric value, whatever their
/// scales.
#[verifier::external_body]
fn decimal_order(m1: i128, s1: u32, m2: i128, s2: u32) -> (r: ValueOrder)
    requires
        decimal_parts_ok(m1, s1),
        decimal_parts_ok(m2, s2),
    ensures
        r == decimal_order_of_parts(m1, s1, m2, s2),
{
    let a = rust_decimal::Decimal::from_i128_with_scale(m1, s1);
    let b = rust_decimal::Decimal::from_i128_with_scale(m2, s2);
    match a.cmp(&b) {
        std::cmp::Ordering::Less => ValueOrder::Less,
        std::cmp::Ordering::Equal => ValueOrder::Equal,
        std::cmp::Ordering::Greater => ValueOrder::Greater,
    }
}

/// `rust_decimal::Decimal::serialize`: four flag bytes (scale in the third,
/// sign in the top bit of the fourth), then the 96-bit magnitude, all
/// little-endian.
#[verifier::external_body]
fn decimal_serialize(m: i128, s: u32) -> (r: Vec<u8>)
    requires
        -DECIMAL_MAX_MANTISSA <= m <= DECIMAL_MAX_MANTISSA,
        s <= DECIMAL_MAX_SCALE,
    ensures
        r@ == decimal_raw(m as int, s as nat),
{
    rust_decimal::Decimal::from_i128_with_scale(m, s).serialize().to_vec()
}

/// `rust_decimal::Decimal::deserialize`, read back through `mantissa` and
/// `scale`: the flag bytes give the sign (top bit) and the scale (five bits
/// from bit 16 on), the other twelve bytes the magnitude, little-endian; a
/// scale above 28 is brought down to 28 by the crate's own rounding.
#[verifier::external_body]
fn decimal_deserialize(bytes: &[u8]) -> (r: (i128, u32))
    requires
        bytes@.len() == 16,
    ensures
        r.0 == decimal_decode(bytes@).m(),
        r.1 == decimal_decode(bytes@).s(),
        raw_scale(bytes@) > DECIMAL_MAX_SCALE ==> r.0 == decimal_of_raw(bytes@).m() && r.1
            == decimal_of_raw(bytes@).s(),
        -DECIMAL_MAX_MANTISSA <= r.0 <= DECIMAL_MAX_MANTISSA,
        r.1 <= DECIMAL_MAX_SCALE,
{
    let mut raw = [0u8; 16];
    raw.copy_from_slice(bytes);
    let d = rust_decimal::Decimal::deserialize(raw);
    (d.mantissa(), d.scale())
}

/// `rust_decimal::Decimal::trunc_with_scale`, read back through `mantissa`
/// and `scale`: the magnitude stays inside 96 bits; the scale is whatever the
/// call leaves, which a target above 28 can take above 28.
#[verifier::external_body]
fn decimal_truncate(m: i128, s: u32, target: u32) -> (r: (i128, u32))
    requires
        -DECIMAL_MAX_MANTISSA <= m <= DECIMAL_MAX_MANTISSA,
        s <= DECIMAL_MAX_SCALE,
    ensures
        r.0 == decimal_truncated(m as int, s as nat, target as nat).m(),
        r.1 == decimal_truncated(m as int, s as nat, target as nat).s(),
        -DECIMAL_MAX_MANTISSA <= r.0 <= DECIMAL_MAX_MANTISSA,
{
    let d = rust_decimal::Decimal::from_i128_with_scale(m, s).trunc_with_scale(target);
    (d.mantissa(), d.scale())
}

/// `ToString::to_string` of `rust_decimal::Decimal`.
#[verifier::external_body]
fn decimal_print(m: i128, s: u32) -> (r: String)
    requires
        -DECIMAL_MAX_MANTISSA <= m <= DECIMAL_MAX_MANTISSA,
        s <= DECIMAL_MAX_SCALE,
    ensures
        r@ == decimal_text(m as int, s as nat),
{
    rust_decimal::Decimal::from_i128_with_scale(m, s).to_string()
}

/// `FromStr::from_str` of `rust_decimal::Decimal`, read back through
/// `mantissa` and `scale`; `None` where the text is refused.
#[verifier::external_body]
fn decimal_scan(text: &str) -> (r: Option<(i128, u32)>)
    ensures
        r is Some <==> decimal_parsed(text@) is Some,
        r matches Some(p) ==> {
            &&& p.0 == decimal_parsed(text@)->0.m()
            &&& p.1 == decimal_parsed(text@)->0.s()
            &&& -DECIMAL_MAX_MANTISSA <= p.0 <= DECIMAL_MAX_MANTISSA
            &&& p.1 <= DECIMAL_MAX_SCALE
        },
{
    match <rust_decimal::Decimal as std::str::FromStr>::from_str(text) {
        Ok(d) => Some((d.mantissa(), d.scale())),
        Err(_) => None,
    }
}

} // verus!
