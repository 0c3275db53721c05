use vstd::prelude::*;

verus! {

/// Position of the first `sep` in `s` at or after `from`.
pub open spec fn find_from(s: Seq<char>, sep: char, from: int) -> Option<int>
    decreases s.len() - from,
{
    if from < 0 || from >= s.len() {
        None
    } else if s[from] == sep {
        Some(from)
    } else {
        find_from(s, sep, from + 1)
    }
}

/// The two sides of `s` around its first `sep`.
pub open spec fn spec_split_pair(s: Seq<char>, sep: char) -> Option<(Seq<char>, Seq<char>)> {
    match find_from(s, sep, 0) {
        None => None,
        Some(k) => Some((s.subrange(0, k), s.subrange(k + 1, s.len() as int))),
    }
}

pub open spec fn is_digit(c: char) -> bool {
    '0' <= c && c <= '9'
}

/// Value of a string of decimal digits.
pub open spec fn digits_value(s: Seq<char>) -> nat
    decreases s.len(),
{
    if s.len() == 0 {
        0
    } else {
        digits_value(s.drop_last()) * 10 + (s.last() as nat - '0' as nat) as nat
    }
}

/// Digits of an unsigned decimal: the text itself, or what follows one leading `+`.
pub open spec fn unsigned_digits(s: Seq<char>) -> Seq<char> {
    if s.len() > 0 && s[0] == '+' {
        s.drop_first()
    } else {
        s
    }
}

/// A `u32` written in decimal: an optional `+`, then one or more ASCII digits,
/// of a value that fits.
pub open spec fn spec_parse_u32(s: Seq<char>) -> Option<u32> {
    let d = unsigned_digits(s);
    if d.len() > 0 && (forall|i: int| 0 <= i < d.len() ==> is_digit(#[trigger] d[i]))
        && digits_value(d) <= u32::MAX {
        Some(digits_value(d) as u32)
    } else {
        None
    }
}

/// Message for an argument without the separator.
pub open spec fn separator_message(sep: char) -> Seq<char> {
    "expected argument in X"@ + seq![sep] + "Y format"@
}

/// What parsing `s` as two `u32` around `sep` gives.
pub open spec fn spec_parse_pair(s: Seq<char>, sep: char) -> Result<(u32, u32), Seq<char>> {
    match spec_split_pair(s, sep) {
        None => Err(separator_message(sep)),
        Some((w, h)) => match (spec_parse_u32(w), spec_parse_u32(h)) {
            (None, _) => Err("invalid X"@),
            (Some(_), None) => Err("invalid Y"@),
            (Some(x), Some(y)) => Ok((x, y)),
        },
    }
}

/// Relies on `<u32 as FromStr>::from_str`, which accepts an optional `+` and
/// then only decimal digits, and fails when the value does not fit.
#[verifier::external_body]
fn parse_u32(s: &str) -> (r: Option<u32>)
    ensures
        r == spec_parse_u32(s@),
{
    s.parse::<u32>().ok()
}

/// Relies on `char::to_string`: a string holding the one character.
#[verifier::external_body]
fn char_to_string(c: char) -> (r: String)
    ensures
        r@ == seq![c],
{
    c.to_string()
}

/// The two sides of `s` around the first `sep`, or `None` where `s` holds no `sep`.
pub fn split_pair<'a>(s: &'a str, sep: char) -> (r: Option<(&'a str, &'a str)>)
    ensures
        match r {
            None => spec_split_pair(s@, sep).is_none(),
            Some((a, b)) => spec_split_pair(s@, sep) == Some((a@, b@)),
        },
{
    let len = s.unicode_len();
    let mut i: usize = 0;
    while i < len
        invariant
            len == s@.len(),
            0 <= i <= len,
            find_from(s@, sep, 0) == find_from(s@, sep, i as int),
        decreases len - i,
    {
        if s.get_char(i) == sep {
            let a = s.substring_char(0, i);
            let b = s.substring_char(i + 1, len);
            return Some((a, b));
        }
        i += 1;
    }
    None
}

/// The message for an argument that lacks the separator `sep`.
pub fn separator_error(sep: char) -> (r: String)
    ensures
        r@ == separator_message(sep),
{
    let head = String::from_str("expected argument in X");
    let mid = char_to_string(sep);
    let whole = head.concat(mid.as_str());
    whole.concat("Y format")
}

/// Parses two unsigned integers written as `X<sep>Y` (as in `1200x800`).
pub fn parse_pair(s: &str, sep: char) -> (r: Result<(u32, u32), String>)
    ensures
        match r {
            Ok(p) => spec_parse_pair(s@, sep) == Ok::<(u32, u32), Seq<char>>(p),
            Err(e) => spec_parse_pair(s@, sep) == Err::<(u32, u32), Seq<char>>(e@),
        },
{
    let (w, h) = match split_pair(s, sep) {
        Some(p) => p,
        None => {
            return Err(separator_error(sep));
        },
    };
    let x = match parse_u32(w) {
        Some(x) => x,
        None => {
            return Err(String::from_str("invalid X"));
        },
    };
    let y = match parse_u32(h) {
        Some(y) => y,
        None => {
            return Err(String::from_str("invalid Y"));
        },
    };
    Ok((x, y))
}

} // verus!
