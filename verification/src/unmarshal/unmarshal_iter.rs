//! The parse cursor: a position-tracking, lookahead-capable character
//! reader that every parsing routine consumes characters from.
//!
//! Its specification-level twin is [`Cur`], a ghost cursor over the full
//! character sequence; every method of [`UnmarshalIter`] is described
//! exactly as a function from the old ghost cursor to the new one.
use crate::chars::{digit_val, is_whitespace_char, is_ws, str_chars, try_char_to_digit};
use crate::unmarshal::unmarshalable::UnmarshalError;
use vstd::prelude::*;

verus! {

/// The ghost state of a parse cursor: the full input, how many characters
/// have been consumed, and the row and column of the character consumed
/// most recently (row starts at 1, column at 0, and a newline moves to
/// column 1 of the next row).
pub ghost struct Cur {
    pub s: Seq<char>,
    pub i: int,
    pub row: int,
    pub col: int,
}

impl Cur {
    /// The cursor at the start of an input.
    pub open spec fn start(s: Seq<char>) -> Cur {
        Cur { s, i: 0, row: 1, col: 0 }
    }

    /// The next character to be consumed, if any remains.
    pub open spec fn peek(self) -> Option<char> {
        if 0 <= self.i < self.s.len() {
            Some(self.s[self.i])
        } else {
            None
        }
    }

    /// The cursor after consuming one character; at the end of the input
    /// nothing changes.
    pub open spec fn adv(self) -> Cur {
        match self.peek() {
            None => self,
            Some(ch) => {
                if ch == '\n' {
                    Cur { s: self.s, i: self.i + 1, row: self.row + 1, col: 1 }
                } else {
                    Cur { s: self.s, i: self.i + 1, row: self.row, col: self.col + 1 }
                }
            },
        }
    }

    /// The cursor after consuming the longest run of whitespace characters.
    pub open spec fn skip_ws(self) -> Cur
        decreases self.s.len() - self.i,
    {
        match self.peek() {
            Some(ch) => if is_ws(ch) {
                self.adv().skip_ws()
            } else {
                self
            },
            None => self,
        }
    }

    /// Positions stay within the input and within the range that the
    /// executable cursor's 32-bit row and column counters can mirror.
    pub open spec fn wf(self) -> bool {
        &&& 0 <= self.i <= self.s.len()
        &&& 1 <= self.row <= self.i + 1
        &&& 0 <= self.col <= self.i
    }

    /// The error for meeting `got` (or the end of input) at this position.
    pub open spec fn unexpected(self, got: Option<char>) -> UnmarshalError {
        match got {
            Some(ch) => UnmarshalError::UnexpectedChar {
                c: ch,
                row: self.row as u32,
                col: self.col as u32,
            },
            None => UnmarshalError::EndOfChars,
        }
    }
}

/// Whitespace skipping preserves the input, never moves backwards, and
/// stops on the first non-whitespace character.
pub proof fn lemma_skip_ws(c: Cur)
    ensures
        c.skip_ws().s == c.s,
        c.i <= c.skip_ws().i,
        c.wf() ==> c.skip_ws().wf(),
        c.skip_ws().peek() matches Some(ch) ==> !is_ws(ch),
    decreases c.s.len() - c.i,
{
    match c.peek() {
        Some(ch) => {
            if is_ws(ch) {
                lemma_skip_ws(c.adv());
            }
        },
        None => {},
    }
}

/// Stores the remaining characters for unmarshaling, together with the
/// row and column of the most recently consumed character.
pub struct UnmarshalIter {
    chars: Vec<char>,
    i: usize,
    row: u32,
    col: u32,
}

impl View for UnmarshalIter {
    type V = Cur;

    closed spec fn view(&self) -> Cur {
        Cur { s: self.chars@, i: self.i as int, row: self.row as int, col: self.col as int }
    }
}

impl UnmarshalIter {
    /// The cursor state is well formed and the input is short enough for
    /// the 32-bit row and column counters.
    pub open spec fn wf(&self) -> bool {
        &&& self@.wf()
        &&& self@.s.len() < 0xFFFF_FFFF
    }

    pub fn new(s: &str) -> (r: UnmarshalIter)
        requires
            s@.len() < 0xFFFF_FFFF,
        ensures
            r.wf(),
            r@ == Cur::start(s@),
    {
        UnmarshalIter { chars: str_chars(s), i: 0, row: 1, col: 0 }
    }

    /// Consumes and returns the next character, updating row and column.
    pub fn next(&mut self) -> (r: Option<char>)
        requires
            old(self).wf(),
        ensures
            final(self).wf(),
            r == old(self)@.peek(),
            final(self)@ == old(self)@.adv(),
    {
        if self.i < self.chars.len() {
            let c = self.chars[self.i];
            self.i = self.i + 1;
            if c == '\n' {
                self.row = self.row + 1;
                self.col = 1;
            } else {
                self.col = self.col + 1;
            }
            Some(c)
        } else {
            None
        }
    }

    /// Looks at the next character without consuming it.
    pub fn peek(&self) -> (r: Option<char>)
        requires
            self.wf(),
        ensures
            r == self@.peek(),
    {
        if self.i < self.chars.len() {
            Some(self.chars[self.i])
        } else {
            None
        }
    }

    /// Skips any run of whitespace, then consumes and returns the next
    /// character.
    pub fn next_non_whitespace(&mut self) -> (r: Option<char>)
        requires
            old(self).wf(),
        ensures
            final(self).wf(),
            r == old(self)@.skip_ws().peek(),
            final(self)@ == old(self)@.skip_ws().adv(),
    {
        self.peek_non_whitespace();
        self.next()
    }

    /// Skips any run of whitespace, then looks at the next character
    /// without consuming it.
    pub fn peek_non_whitespace(&mut self) -> (r: Option<char>)
        requires
            old(self).wf(),
        ensures
            final(self).wf(),
            r == old(self)@.skip_ws().peek(),
            final(self)@ == old(self)@.skip_ws(),
    {
        loop
            invariant
                self.wf(),
                self@.skip_ws() == old(self)@.skip_ws(),
            decreases self@.s.len() - self@.i,
        {
            match self.peek() {
                Some(c) => {
                    if is_whitespace_char(c) {
                        self.next();
                    } else {
                        return Some(c);
                    }
                },
                None => {
                    return None;
                },
            }
        }
    }

    /// Returns an error if any character besides whitespace remains.
    pub fn check_finished(&mut self) -> (r: Result<(), UnmarshalError>)
        requires
            old(self).wf(),
        ensures
            final(self).wf(),
            final(self)@ == old(self)@.skip_ws().adv(),
            r == sp_check_finished(old(self)@),
    {
        match self.next_non_whitespace() {
            None => Ok(()),
            Some(c) => Err(self.unexpected_char(c)),
        }
    }

    /// Attempts to read the next character as a digit in the given radix.
    pub fn try_next_digit(&mut self, radix: u32) -> (r: Result<u32, UnmarshalError>)
        requires
            old(self).wf(),
        ensures
            final(self).wf(),
            final(self)@ == sp_next_digit(old(self)@, radix).0,
            r == sp_next_digit(old(self)@, radix).1,
    {
        match self.next() {
            None => Err(UnmarshalError::EndOfChars),
            Some(c) => match try_char_to_digit(Some(c), radix) {
                Some(d) => Ok(d),
                None => Err(self.unexpected_char(c)),
            },
        }
    }

    /// Returns the error for some unexpected value that was read.
    pub fn unexpected(&self, got: Option<char>) -> (r: UnmarshalError)
        ensures
            r == self@.unexpected(got),
    {
        match got {
            Some(c) => self.unexpected_char(c),
            None => UnmarshalError::EndOfChars,
        }
    }

    /// Returns the error for some unexpected character that was read.
    pub fn unexpected_char(&self, c: char) -> (r: UnmarshalError)
        ensures
            r == self@.unexpected(Some(c)),
    {
        UnmarshalError::UnexpectedChar { c, row: self.row, col: self.col }
    }
}

/// What `check_finished` returns: `Ok` exactly when only whitespace
/// remains, and otherwise the offending character at its position.
pub open spec fn sp_check_finished(c: Cur) -> Result<(), UnmarshalError> {
    let c1 = c.skip_ws();
    match c1.peek() {
        None => Ok(()),
        Some(ch) => Err(c1.adv().unexpected(Some(ch))),
    }
}

/// Consuming one required character: the cursor moves past it when it is
/// the expected one; a different character is still consumed and reported
/// at its position; at the end of input nothing moves.
pub open spec fn sp_lit_char(c: Cur, expected: char) -> (Cur, Result<(), UnmarshalError>) {
    match c.peek() {
        Some(ch) => if ch == expected {
            (c.adv(), Ok(()))
        } else {
            (c.adv(), Err(c.adv().unexpected(Some(ch))))
        },
        None => (c, Err(UnmarshalError::EndOfChars)),
    }
}

/// What `try_next_digit` does to the cursor and returns: the digit value
/// of the consumed character, or a positioned error.
pub open spec fn sp_next_digit(c: Cur, radix: u32) -> (Cur, Result<u32, UnmarshalError>) {
    match c.peek() {
        None => (c, Err(UnmarshalError::EndOfChars)),
        Some(ch) => match digit_val(ch, radix) {
            Some(d) => (c.adv(), Ok(d)),
            None => (c.adv(), Err(c.adv().unexpected(Some(ch)))),
        },
    }
}

} // verus!
