use vstd::prelude::*;

verus! {

/// The character of a decimal digit.
pub open spec fn digit_char(d: int) -> char {
    if d == 0 {
        '0'
    } else if d == 1 {
        '1'
    } else if d == 2 {
        '2'
    } else if d == 3 {
        '3'
    } else if d == 4 {
        '4'
    } else if d == 5 {
        '5'
    } else if d == 6 {
        '6'
    } else if d == 7 {
        '7'
    } else if d == 8 {
        '8'
    } else {
        '9'
    }
}

/// The decimal digits of a natural number, without leading zeros; the
/// single digit `0` for zero.
pub open spec fn nat_text(n: nat) -> Seq<char>
    decreases n,
{
    if n < 10 {
        seq![digit_char(n as int)]
    } else {
        nat_text(n / 10).push(digit_char((n % 10) as int))
    }
}

/// The decimal text of an integer: its digits, behind a minus sign where it
/// is below zero.
pub open spec fn int_text(v: int) -> Seq<char> {
    if v < 0 {
        seq!['-'] + nat_text((-v) as nat)
    } else {
        nat_text(v as nat)
    }
}

/// The integer that a text spells for a signed integer type, if it spells
/// one of at most 128 bits.
pub uninterp spec fn signed_parsed(text: Seq<char>) -> Option<i128>;

/// The integer that a text spells for an unsigned integer type, if it spells
/// one of at most 128 bits.
pub uninterp spec fn unsigned_parsed(text: Seq<char>) -> Option<u128>;

/// The text `true`.
pub open spec fn true_text() -> Seq<char> {
    seq!['t', 'r', 'u', 'e']
}

/// The text `false`.
pub open spec fn false_text() -> Seq<char> {
    seq!['f', 'a', 'l', 's', 'e']
}

/// `ToString::to_string` of `i128`: the integer in decimal digits without
/// leading zeros, behind a minus sign where it is below zero.
#[verifier::external_body]
pub(crate) fn integer_to_string(v: i128) -> (r: String)
    ensures
        r@ == int_text(v as int),
{
    v.to_string()
}

/// `FromStr::from_str` of `i128`; nothing where the text is refused.
#[verifier::external_body]
pub(crate) fn parse_signed(text: &str) -> (r: Option<i128>)
    ensures
        r == signed_parsed(text@),
{
    text.parse::<i128>().ok()
}

/// `FromStr::from_str` of `u128`; nothing where the text is refused.
#[verifier::external_body]
pub(crate) fn parse_unsigned(text: &str) -> (r: Option<u128>)
    ensures
        r == unsigned_parsed(text@),
{
    text.parse::<u128>().ok()
}

/// The one text followed by the other.
pub fn append_text(a: &str, b: &str) -> (r: String)
    ensures
        r@ == a@ + b@,
{
    String::from_str(a).concat(b)
}

/// The text of a truth value.
pub fn bool_to_string(v: bool) -> (r: String)
    ensures
        r@ == (if v {
            true_text()
        } else {
            false_text()
        }),
{
    proof {
        reveal_strlit("true");
        reveal_strlit("false");
    }
    if v {
        let s = "true".to_owned();
        assert(s@ =~= true_text());
        s
    } else {
        let s = "false".to_owned();
        assert(s@ =~= false_text());
        s
    }
}

/// The truth value that a text spells: `true` or `false`, nothing else.
pub fn parse_bool(text: &String) -> (r: Option<bool>)
    ensures
        r == (if text@ == true_text() {
            Some(true)
        } else if text@ == false_text() {
            Some(false)
        } else {
            None
        }),
{
    if text.eq(&bool_to_string(true)) {
        Some(true)
    } else if text.eq(&bool_to_string(false)) {
        Some(false)
    } else {
        None
    }
}

/// Whether the text holds the byte `byte`.
pub fn has_byte(text: &str, byte: u8) -> (r: bool)
    ensures
        r == vstd::utf8::encode_utf8(text@).contains(byte),
{
    let bytes = text.as_bytes();
    let mut i: usize = 0;
    while i < bytes.len()
        invariant
            i <= bytes@.len(),
            bytes@ == vstd::utf8::encode_utf8(text@),
            forall|k: int| 0 <= k < i ==> bytes@[k] != byte,
        decreases bytes@.len() - i,
    {
        if bytes[i] == byte {
            return true;
        }
        i += 1;
    }
    false
}

} // verus!
