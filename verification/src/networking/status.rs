//! The status line that a Gemini server sends before a page.
use vstd::prelude::*;

verus! {

/// A decimal digit character.
pub open spec fn is_digit(c: char) -> bool {
    '0' <= c && c <= '9'
}

/// The value of a decimal digit character.
pub open spec fn digit_value(c: char) -> u8 {
    ((c as u32) - ('0' as u32)) as u8
}

/// A status line that `Status::new` accepts: two decimal digits, a space,
/// then the meta text.
pub open spec fn is_status_line(s: Seq<char>) -> bool {
    s.len() >= 3 && is_digit(s[0]) && is_digit(s[1]) && s[2] == ' '
}

/// The parts of a status line: first digit, second digit, meta text.
pub struct StatusView {
    pub first: u8,
    pub second: u8,
    pub meta: Seq<char>,
}

/// The parts of a status line that `is_status_line` accepts.
pub open spec fn status_of(s: Seq<char>) -> StatusView {
    StatusView { first: digit_value(s[0]), second: digit_value(s[1]), meta: s.skip(3) }
}

/// A parsed Gemini status line.
pub struct Status {
    f_digit_code: u8,
    s_digit_code: u8,
    meta: String,
}

impl View for Status {
    type V = StatusView;

    closed spec fn view(&self) -> StatusView {
        StatusView { first: self.f_digit_code, second: self.s_digit_code, meta: self.meta@ }
    }
}

fn digit_of(c: char) -> (d: u8)
    requires
        is_digit(c),
    ensures
        d == digit_value(c),
{
    ((c as u32) - ('0' as u32)) as u8
}

impl Status {
    /// Parses a status line: the two-digit code before the first space, and
    /// the meta text after it.
    pub fn new(status: String) -> (r: Self)
        requires
            is_status_line(status@),
        ensures
            r@ == status_of(status@),
    {
        let chars = crate::text::chars_of(status.as_str());
        let meta = crate::text::sub_chars(&chars, 3, chars.len());
        assert(meta@ =~= status@.skip(3));
        Status {
            f_digit_code: digit_of(chars[0]),
            s_digit_code: digit_of(chars[1]),
            meta: crate::text::string_of(&meta),
        }
    }

    /// Whether the status is a success (its first digit is 2).
    pub fn is_ok(&self) -> (r: bool)
        ensures
            r == (self@.first == 2),
    {
        if self.f_digit_code == 2 {
            true
        } else {
            false
        }
    }
}

/// Whether `s` is a status line that `Status::new` accepts.
pub(crate) fn status_line_valid(s: &[char]) -> (r: bool)
    ensures
        r == is_status_line(s@),
{
    s.len() >= 3 && '0' <= s[0] && s[0] <= '9' && '0' <= s[1] && s[1] <= '9' && s[2] == ' '
}

} // verus!
