//! Text operations taken from std: case folding and integer parsing.
use vstd::prelude::*;

verus! {

/// The lowercase form of `s`, as `str::to_lowercase` gives it.
pub uninterp spec fn lower_of(s: Seq<char>) -> Seq<char>;

/// Relies on `str::to_lowercase`: its result depends on the characters of
/// `s` alone.
#[verifier::external_body]
pub(crate) fn lowercase(s: &String) -> (r: String)
    ensures
        r@ == lower_of(s@),
{
    s.to_lowercase()
}

/// `c` is an ASCII decimal digit.
pub open spec fn is_digit(c: char) -> bool {
    '0' <= c <= '9'
}

/// The value of the decimal digits `s`, most significant first.
pub open spec fn digits_value(s: Seq<char>) -> int
    decreases s.len(),
{
    if s.len() == 0 {
        0
    } else {
        digits_value(s.drop_last()) * 10 + (s.last() as int - '0' as int)
    }
}

/// The value that `s` denotes as an `i32`: an optional `+` or `-` sign and
/// then one or more decimal digits, nothing else, within the range of `i32`.
pub open spec fn parsed_i32(s: Seq<char>) -> Option<int> {
    let negative = s.len() > 0 && s[0] == '-';
    let digits = if s.len() > 0 && (s[0] == '-' || s[0] == '+') {
        s.drop_first()
    } else {
        s
    };
    let v = if negative {
        -digits_value(digits)
    } else {
        digits_value(digits)
    };
    if digits.len() > 0 && (forall|i: int| 0 <= i < digits.len() ==> is_digit(#[trigger] digits[i]))
        && i32::MIN <= v <= i32::MAX {
        Some(v)
    } else {
        None
    }
}

/// Relies on `str::parse::<i32>`: it accepts an optional `+` or `-` sign
/// followed by decimal digits only, and fails when the value does not fit.
#[verifier::external_body]
pub(crate) fn parse_i32(s: &String) -> (r: Option<i32>)
    ensures
        r is Some <==> parsed_i32(s@) is Some,
        r matches Some(v) ==> parsed_i32(s@) == Some(v as int),
{
    s.parse::<i32>().ok()
}

} // verus!
