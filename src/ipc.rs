//! Pieces of the JSON text handed to a viewer.
use vstd::prelude::*;

use crate::text::short_digit_runs;

verus! {

pub open spec fn hex_digit(d: nat) -> char {
    if d < 10 {
        digit_char(d)
    } else if d == 10 {
        'a'
    } else if d == 11 {
        'b'
    } else if d == 12 {
        'c'
    } else if d == 13 {
        'd'
    } else if d == 14 {
        'e'
    } else {
        'f'
    }
}

/// How one character is written inside a JSON string: `"` and `\` and the
/// control characters are escaped, the rest stands as it is.
pub open spec fn json_escaped_char(c: char) -> Seq<char> {
    if c == '"' {
        seq!['\\', '"']
    } else if c == '\\' {
        seq!['\\', '\\']
    } else if c == '\x08' {
        seq!['\\', 'b']
    } else if c == '\t' {
        seq!['\\', 't']
    } else if c == '\n' {
        seq!['\\', 'n']
    } else if c == '\x0C' {
        seq!['\\', 'f']
    } else if c == '\r' {
        seq!['\\', 'r']
    } else if (c as nat) < 0x20 {
        seq!['\\', 'u', '0', '0', hex_digit((c as nat) / 16), hex_digit((c as nat) % 16)]
    } else {
        seq![c]
    }
}

pub open spec fn json_escaped(s: Seq<char>) -> Seq<char>
    decreases s.len(),
{
    if s.len() == 0 {
        Seq::empty()
    } else {
        json_escaped(s.drop_last()) + json_escaped_char(s.last())
    }
}

/// The JSON string literal for `s`.
pub open spec fn json_quoted(s: Seq<char>) -> Seq<char> {
    seq!['"'] + json_escaped(s) + seq!['"']
}

/// Relies on `json::stringify` of a string: the string in quotes, with `"`,
/// `\\` and control characters escaped (`\b \t \n \f \r`, else `\u00xx` in
/// lower-case hex).
#[verifier::external_body]
pub fn quote(s: &str) -> (r: String)
    ensures
        r@ == json_quoted(s@),
{
    json::stringify(s)
}

pub open spec fn digit_char(d: nat) -> char {
    if d == 0 {
        '0'
    } else if d == 1 {
        '1'
    } else if d == 2 {
        '2'
    } else if d == 3 {
        '3'
    } else if d == 4 {
        '4'
    } else if d == 5 {
        '5'
    } else if d == 6 {
        '6'
    } else if d == 7 {
        '7'
    } else if d == 8 {
        '8'
    } else {
        '9'
    }
}

/// The decimal digits of `n`, without leading zeros.
pub open spec fn decimal(n: nat) -> Seq<char>
    decreases n,
{
    if n < 10 {
        seq![digit_char(n)]
    } else {
        decimal(n / 10) + seq![digit_char(n % 10)]
    }
}

/// The one-character text of the digit `d`.
fn digit_text(d: u64) -> (r: &'static str)
    requires
        d < 10,
    ensures
        r@ == seq![digit_char(d as nat)],
{
    proof {
        reveal_strlit("0");
        reveal_strlit("1");
        reveal_strlit("2");
        reveal_strlit("3");
        reveal_strlit("4");
        reveal_strlit("5");
        reveal_strlit("6");
        reveal_strlit("7");
        reveal_strlit("8");
        reveal_strlit("9");
    }
    let r = if d == 0 {
        "0"
    } else if d == 1 {
        "1"
    } else if d == 2 {
        "2"
    } else if d == 3 {
        "3"
    } else if d == 4 {
        "4"
    } else if d == 5 {
        "5"
    } else if d == 6 {
        "6"
    } else if d == 7 {
        "7"
    } else if d == 8 {
        "8"
    } else {
        "9"
    };
    assert(r@ =~= seq![digit_char(d as nat)]);
    r
}

/// The decimal digits of `n`, without leading zeros.
pub fn decimal_text(n: u64) -> (r: String)
    ensures
        r@ == decimal(n as nat),
    decreases n,
{
    if n < 10 {
        String::from_str(digit_text(n))
    } else {
        let mut s = decimal_text(n / 10);
        s.append(digit_text(n % 10));
        s
    }
}

/// A time in milliseconds written in seconds, with three decimals.
pub open spec fn seconds_text(ms: nat) -> Seq<char> {
    decimal(ms / 1000) + "."@ + decimal((ms % 1000) / 100) + decimal((ms % 100) / 10) + decimal(
        ms % 10,
    )
}

pub fn append_seconds(out: &mut String, ms: u64)
    ensures
        final(out)@ == old(out)@ + seconds_text(ms as nat),
{
    out.append(decimal_text(ms / 1000).as_str());
    out.append(".");
    out.append(decimal_text((ms % 1000) / 100).as_str());
    out.append(decimal_text((ms % 100) / 10).as_str());
    out.append(decimal_text(ms % 10).as_str());
}

pub open spec fn bool_text(b: bool) -> Seq<char> {
    if b {
        "true"@
    } else {
        "false"@
    }
}

pub fn append_bool(out: &mut String, b: bool)
    ensures
        final(out)@ == old(out)@ + bool_text(b),
{
    if b {
        out.append("true");
    } else {
        out.append("false");
    }
}

pub open spec fn opt_json(o: Option<Seq<char>>) -> Seq<char> {
    match o {
        Some(s) => json_quoted(s),
        None => "null"@,
    }
}

pub fn append_opt(out: &mut String, o: &Option<String>)
    ensures
        final(out)@ == old(out)@ + opt_json(match o {
            Some(s) => Some(s@),
            None => None,
        }),
{
    match o {
        Some(s) => {
            let q = quote(s.as_str());
            out.append(q.as_str());
        },
        None => {
            out.append("null");
        },
    }
}

/// The json crate's document value, carried through as it is.
#[verifier::external_type_specification]
#[verifier::external_body]
pub struct ExJsonValue(json::JsonValue);

/// Whether `json::parse` accepts `s`.
pub uninterp spec fn json_parses(s: Seq<char>) -> bool;

/// The member `key` of the document that `json::parse` reads from `s`, where
/// the document is an object and that member is a string.
pub uninterp spec fn json_str_at(s: Seq<char>, key: Seq<char>) -> Option<Seq<char>>;

/// Relies on `json::parse`: whether it accepts `s`, with its message (never
/// empty) when it does not. The parser lowers a 16-bit exponent once per
/// fraction digit, so a text with a very long run of digits is left out.
#[verifier::external_body]
pub(crate) fn parse_check(s: &str) -> (r: Result<(), String>)
    requires
        short_digit_runs(s@),
    ensures
        r is Ok <==> json_parses(s@),
        r matches Err(e) ==> e@.len() > 0,
{
    json::parse(s).map(|_| ()).map_err(|e| e.to_string())
}

/// Relies on `json::parse`, indexing a `json::JsonValue` by key, and
/// `JsonValue::as_str`: the string member `key` of the document in `s`. As for
/// `parse_check`, a text with a very long run of digits is left out.
#[verifier::external_body]
pub(crate) fn str_member_of(s: &str, key: &str) -> (r: Option<String>)
    requires
        short_digit_runs(s@),
    ensures
        match r {
            Some(v) => json_str_at(s@, key@) == Some(v@),
            None => json_str_at(s@, key@) is None,
        },
{
    json::parse(s).ok().and_then(|v| v[key].as_str().map(|x| x.to_string()))
}

/// Relies on indexing a `json::JsonValue` by a key: the member `key` of an
/// object, or null.
#[verifier::external_body]
pub(crate) fn json_member(v: &json::JsonValue, key: &str) -> (r: json::JsonValue) {
    v[key].clone()
}

/// Relies on `JsonValue::as_str`: the text of a string value.
#[verifier::external_body]
pub(crate) fn json_as_str(v: &json::JsonValue) -> (r: Option<String>) {
    v.as_str().map(|s| s.to_string())
}

/// Relies on the `Array` variant of `json::JsonValue`: the elements of an array
/// value, or `None` for any other value.
#[verifier::external_body]
pub(crate) fn json_elements(v: &json::JsonValue) -> (r: Option<Vec<json::JsonValue>>) {
    match v {
        json::JsonValue::Array(items) => Some(items.clone()),
        _ => None,
    }
}

/// The member `key` of an object value, where it is a string.
pub fn str_member(v: &json::JsonValue, key: &str) -> (r: Option<String>) {
    let m = json_member(v, key);
    json_as_str(&m)
}

} // verus!
