//! Character classes used by the JSON grammar: whitespace, digits in a
//! given radix, and hexadecimal digits for `\uXXXX` escapes.
use vstd::prelude::*;

verus! {

/// The Unicode `White_Space` code points, written out, so that both the
/// grammar specification and the executable scanner agree on exactly
/// which characters separate tokens.
pub open spec fn is_ws(c: char) -> bool {
    let n = c as u32;
    (0x09 <= n && n <= 0x0D) || n == 0x20 || n == 0x85 || n == 0xA0 || n == 0x1680 || (0x2000 <= n
        && n <= 0x200A) || n == 0x2028 || n == 0x2029 || n == 0x202F || n == 0x205F || n == 0x3000
}

/// Decides `is_ws` for a character.
pub fn is_whitespace_char(c: char) -> (r: bool)
    ensures
        r == is_ws(c),
{
    let n = c as u32;
    (0x09 <= n && n <= 0x0D) || n == 0x20 || n == 0x85 || n == 0xA0 || n == 0x1680 || (0x2000 <= n
        && n <= 0x200A) || n == 0x2028 || n == 0x2029 || n == 0x202F || n == 0x205F || n == 0x3000
}

/// The value of `c` as a digit in the given radix: `0`-`9` count from zero,
/// letters of either case continue from ten, and any value at or above the
/// radix is no digit at all.
pub open spec fn digit_val(c: char, radix: u32) -> Option<u32> {
    let n = c as u32;
    let d: u32 = if 0x30 <= n && n <= 0x39 {
        (n - 0x30) as u32
    } else if 0x61 <= n && n <= 0x7A {
        (n - 0x61 + 10) as u32
    } else if 0x41 <= n && n <= 0x5A {
        (n - 0x41 + 10) as u32
    } else {
        36
    };
    if d < radix && radix <= 36 {
        Some(d)
    } else {
        None
    }
}

/// Reads a character as a digit in the given radix, if it is one.
pub fn try_char_to_digit(c: Option<char>, radix: u32) -> (r: Option<u32>)
    ensures
        r == match c {
            Some(ch) => digit_val(ch, radix),
            None => None::<u32>,
        },
{
    match c {
        None => None,
        Some(ch) => {
            let n = ch as u32;
            let d: u32 = if 0x30 <= n && n <= 0x39 {
                n - 0x30
            } else if 0x61 <= n && n <= 0x7A {
                n - 0x61 + 10
            } else if 0x41 <= n && n <= 0x5A {
                n - 0x41 + 10
            } else {
                36
            };
            if d < radix && radix <= 36 {
                Some(d)
            } else {
                None
            }
        },
    }
}

/// Relies on str::chars: it yields exactly the characters of the string,
/// in order.
#[verifier::external_body]
pub(crate) fn str_chars(s: &str) -> (r: Vec<char>)
    ensures
        r@ == s@,
{
    s.chars().collect()
}

/// Relies on str::eq: two strings are equal exactly when their character
/// sequences are.
#[verifier::external_body]
pub(crate) fn str_eq(a: &str, b: &str) -> (r: bool)
    ensures
        r == (a@ == b@),
{
    a == b
}

/// Relies on char::from_u32: it returns `Some` exactly for Unicode scalar
/// values (all code points except the surrogate range), and the returned
/// character has the given code point.
#[verifier::external_body]
pub fn char_from_u32(n: u32) -> (r: Option<char>)
    ensures
        r is Some <==> (n < 0xD800 || (0xE000 <= n && n <= 0x10FFFF)),
        r matches Some(c) ==> c == n as char,
{
    char::from_u32(n)
}

} // verus!
