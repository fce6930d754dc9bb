//! The JSON values that a reply line is made of: string literals, unsigned
//! numbers, booleans and `null`.

use vstd::prelude::*;

verus! {

/// The error type of `serde_json`, carried through and never looked into.
#[verifier::external_type_specification]
#[verifier::external_body]
pub struct ExJsonError(serde_json::Error);

/// The JSON string literal for a text, quotes included, as
/// `serde_json::to_string` writes it.
pub uninterp spec fn json_string(text: Seq<char>) -> Seq<char>;

/// Calls `serde_json::to_string` on a string slice.
///
/// Trusted: the call succeeds, since a string slice neither refuses to be
/// serialised nor holds a map, and its result is the literal that
/// [`json_string`] names.
#[verifier::external_body]
fn to_json_string(text: &str) -> (r: Result<String, serde_json::Error>)
    ensures
        r is Ok,
        r->Ok_0@ == json_string(text@),
{
    serde_json::to_string(text)
}

/// The character of one decimal digit.
pub open spec fn digit_char(digit: nat) -> char {
    if digit == 0 {
        '0'
    } else if digit == 1 {
        '1'
    } else if digit == 2 {
        '2'
    } else if digit == 3 {
        '3'
    } else if digit == 4 {
        '4'
    } else if digit == 5 {
        '5'
    } else if digit == 6 {
        '6'
    } else if digit == 7 {
        '7'
    } else if digit == 8 {
        '8'
    } else {
        '9'
    }
}

/// The decimal numeral of a natural number, without leading zeros.
pub open spec fn json_number(n: nat) -> Seq<char>
    decreases n,
{
    if n < 10 {
        seq![digit_char(n)]
    } else {
        json_number(n / 10).push(digit_char(n % 10))
    }
}

/// The JSON text of a boolean.
pub open spec fn json_bool(b: bool) -> Seq<char> {
    if b {
        "true"@
    } else {
        "false"@
    }
}

/// The JSON text of an optional string: the literal, or `null`.
pub open spec fn json_optional_string(text: Option<Seq<char>>) -> Seq<char> {
    match text {
        Some(t) => json_string(t),
        None => "null"@,
    }
}

/// The JSON string literal for `text`.
pub fn json_quote(text: &str) -> (literal: String)
    ensures
        literal@ == json_string(text@),
{
    match to_json_string(text) {
        Ok(literal) => literal,
        Err(_) => unreached(),
    }
}

/// The JSON text of an optional string: its literal, or `null` where there
/// is none.
pub fn json_quote_optional(text: Option<&str>) -> (json: String)
    ensures
        json@ == json_optional_string(
            match text {
                Some(t) => Some(t@),
                None => None,
            },
        ),
{
    match text {
        Some(t) => json_quote(t),
        None => String::from_str("null"),
    }
}

/// Appends `true` or `false`.
pub fn push_json_bool(out: &mut String, b: bool)
    ensures
        final(out)@ == old(out)@ + json_bool(b),
{
    if b {
        out.append("true");
    } else {
        out.append("false");
    }
}

fn digit_text(digit: usize) -> (text: &'static str)
    requires
        digit < 10,
    ensures
        text@ == seq![digit_char(digit as nat)],
{
    proof {
        reveal_strlit("0");
        reveal_strlit("1");
        reveal_strlit("2");
        reveal_strlit("3");
        reveal_strlit("4");
        reveal_strlit("5");
        reveal_strlit("6");
        reveal_strlit("7");
        reveal_strlit("8");
        reveal_strlit("9");
    }
    if digit == 0 {
        "0"
    } else if digit == 1 {
        "1"
    } else if digit == 2 {
        "2"
    } else if digit == 3 {
        "3"
    } else if digit == 4 {
        "4"
    } else if digit == 5 {
        "5"
    } else if digit == 6 {
        "6"
    } else if digit == 7 {
        "7"
    } else if digit == 8 {
        "8"
    } else {
        "9"
    }
}

/// Appends the decimal numeral of `n`.
pub fn push_json_number(out: &mut String, n: usize)
    ensures
        final(out)@ == old(out)@ + json_number(n as nat),
    decreases n,
{
    if n >= 10 {
        push_json_number(out, n / 10);
    }
    out.append(digit_text(n % 10));
}

} // verus!
