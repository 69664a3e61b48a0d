//! Strings serialize wrapped in double quotes: `\`, `"` and `/` get a
//! preceding backslash, the control characters backspace, form-feed,
//! newline, carriage-return and tab their short escapes, every non-ASCII
//! code point a `\uXXXX` escape (four lowercase hex digits), and code
//! points at or above 0x10000 a UTF-16 surrogate pair, lead first.
use crate::chars::str_chars;
use crate::marshal::marshalable::{push_char, Marshalable};
use vstd::prelude::*;

verus! {

/// The character for a hexadecimal digit value (`f` for anything larger).
pub open spec fn hex_char(d: int) -> char {
    if d < 10 {
        crate::marshal::i64::digit_char(d)
    } else if d == 10 {
        'a'
    } else if d == 11 {
        'b'
    } else if d == 12 {
        'c'
    } else if d == 13 {
        'd'
    } else if d == 14 {
        'e'
    } else {
        'f'
    }
}

/// Four lowercase hexadecimal digits.
pub open spec fn hex4(n: int) -> Seq<char> {
    seq![
        hex_char(n / 0x1000 % 16),
        hex_char(n / 0x100 % 16),
        hex_char(n / 0x10 % 16),
        hex_char(n % 16),
    ]
}

/// How one character appears inside a serialized string: itself for
/// printable ASCII, a two-character escape for the named ones, and
/// `\uXXXX` (or a surrogate pair of two such escapes) for the rest.
pub open spec fn esc_char(c: char) -> Seq<char> {
    let n = c as u32;
    if c == '\\' {
        seq!['\\', '\\']
    } else if c == '"' {
        seq!['\\', '"']
    } else if c == '/' {
        seq!['\\', '/']
    } else if n == 0x08 {
        seq!['\\', 'b']
    } else if n == 0x0C {
        seq!['\\', 'f']
    } else if c == '\n' {
        seq!['\\', 'n']
    } else if c == '\r' {
        seq!['\\', 'r']
    } else if c == '\t' {
        seq!['\\', 't']
    } else if n <= 0x7F {
        seq![c]
    } else if n < 0x10000 {
        seq!['\\', 'u'] + hex4(n as int)
    } else {
        seq!['\\', 'u'] + hex4(0xD800 + (n - 0x10000) / 0x400) + seq!['\\', 'u'] + hex4(
            0xDC00 + (n - 0x10000) % 0x400,
        )
    }
}

/// The escaped body of a string.
pub open spec fn escs(s: Seq<char>) -> Seq<char>
    decreases s,
{
    if s.len() == 0 {
        Seq::empty()
    } else {
        escs(s.drop_last()) + esc_char(s.last())
    }
}

/// The full text of a serialized string: quoted and escaped.
pub open spec fn string_text(s: Seq<char>) -> Seq<char> {
    seq!['"'] + escs(s) + seq!['"']
}

/// The character for a hexadecimal digit value (`f` for anything larger).
fn hex_char_of(d: u32) -> (r: char)
    ensures
        r == hex_char(d as int),
{
    if d < 10 {
        crate::marshal::i64::digit_char_of(d as u64)
    } else if d == 10 {
        'a'
    } else if d == 11 {
        'b'
    } else if d == 12 {
        'c'
    } else if d == 13 {
        'd'
    } else if d == 14 {
        'e'
    } else {
        'f'
    }
}

/// Appends four lowercase hexadecimal digits.
fn push_hex4(n: u32, s: &mut String)
    requires
        n < 0x10000,
    ensures
        final(s)@ == old(s)@ + hex4(n as int),
{
    push_char(s, hex_char_of(n / 0x1000 % 16));
    push_char(s, hex_char_of(n / 0x100 % 16));
    push_char(s, hex_char_of(n / 0x10 % 16));
    push_char(s, hex_char_of(n % 16));
    proof {
        assert(s@ =~= old(s)@ + hex4(n as int));
    }
}

/// Appends the escape of one character.
fn push_esc_char(c: char, s: &mut String)
    ensures
        final(s)@ == old(s)@ + esc_char(c),
{
    let n = c as u32;
    if c == '\\' {
        push_char(s, '\\');
        push_char(s, '\\');
        proof {
            assert(s@ =~= old(s)@ + esc_char(c));
        }
    } else if c == '"' {
        push_char(s, '\\');
        push_char(s, '"');
        proof {
            assert(s@ =~= old(s)@ + esc_char(c));
        }
    } else if c == '/' {
        push_char(s, '\\');
        push_char(s, '/');
        proof {
            assert(s@ =~= old(s)@ + esc_char(c));
        }
    } else if n == 0x08 {
        push_char(s, '\\');
        push_char(s, 'b');
        proof {
            assert(s@ =~= old(s)@ + esc_char(c));
        }
    } else if n == 0x0C {
        push_char(s, '\\');
        push_char(s, 'f');
        proof {
            assert(s@ =~= old(s)@ + esc_char(c));
        }
    } else if c == '\n' {
        push_char(s, '\\');
        push_char(s, 'n');
        proof {
            assert(s@ =~= old(s)@ + esc_char(c));
        }
    } else if c == '\r' {
        push_char(s, '\\');
        push_char(s, 'r');
        proof {
            assert(s@ =~= old(s)@ + esc_char(c));
        }
    } else if c == '\t' {
        push_char(s, '\\');
        push_char(s, 't');
        proof {
            assert(s@ =~= old(s)@ + esc_char(c));
        }
    } else if n <= 0x7F {
        push_char(s, c);
        proof {
            assert(s@ =~= old(s)@ + esc_char(c));
        }
    } else if n < 0x10000 {
        push_char(s, '\\');
        push_char(s, 'u');
        push_hex4(n, s);
        proof {
            assert(s@ =~= old(s)@ + esc_char(c));
        }
    } else {
        let m = n - 0x10000;
        push_char(s, '\\');
        push_char(s, 'u');
        push_hex4(0xD800 + m / 0x400, s);
        push_char(s, '\\');
        push_char(s, 'u');
        push_hex4(0xDC00 + m % 0x400, s);
        proof {
            assert(s@ =~= old(s)@ + esc_char(c));
        }
    }
}

/// Appends the escaped body of a string.
fn push_escaped(chars: &Vec<char>, s: &mut String)
    ensures
        final(s)@ == old(s)@ + escs(chars@),
{
    let mut k: usize = 0;
    while k < chars.len()
        invariant
            0 <= k <= chars@.len(),
            s@ == old(s)@ + escs(chars@.take(k as int)),
        decreases chars@.len() - k,
    {
        push_esc_char(chars[k], s);
        proof {
            assert(chars@.take(k + 1 as int).drop_last() =~= chars@.take(k as int));
            assert(s@ =~= old(s)@ + escs(chars@.take(k + 1 as int)));
        }
        k = k + 1;
    }
    proof {
        assert(chars@.take(chars@.len() as int) =~= chars@);
    }
}

/// Appends a quoted, escaped string.
pub(crate) fn push_string_text(t: &str, s: &mut String)
    ensures
        final(s)@ == old(s)@ + string_text(t@),
{
    let chars = str_chars(t);
    push_char(s, '"');
    push_escaped(&chars, s);
    push_char(s, '"');
    proof {
        assert(s@ =~= old(s)@ + string_text(t@));
    }
}

/// Escapes a string and wraps it in double quotes.
pub fn escape_and_quote(s: &str) -> (r: String)
    ensures
        r@ == string_text(s@),
{
    let chars = str_chars(s);
    let mut out = String::new();
    push_char(&mut out, '"');
    push_escaped(&chars, &mut out);
    push_char(&mut out, '"');
    proof {
        assert(out@ =~= string_text(s@));
    }
    out
}

impl Marshalable for String {
    open spec fn json_text(&self) -> Seq<char> {
        string_text(self@)
    }

    fn marshal_json_into(&self, s: &mut String) {
        let chars = str_chars(self.as_str());
        push_char(s, '"');
        push_escaped(&chars, s);
        push_char(s, '"');
        proof {
            assert(s@ =~= old(s)@ + self.json_text());
        }
    }
}

} // verus!
