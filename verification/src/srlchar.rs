//! The character classes of the language.

use vstd::prelude::*;

verus! {

/// Space, comma, newline and tab separate words.
pub open spec fn is_separator(c: char) -> bool {
    c == ' ' || c == ',' || c == '\n' || c == '\t'
}

/// The two brackets of a group.
pub open spec fn is_bracket(c: char) -> bool {
    c == '(' || c == ')'
}

/// A single or a double quote.
pub open spec fn is_quote_mark(c: char) -> bool {
    c == '\'' || c == '"'
}

/// An ASCII letter of either case.
pub open spec fn is_letter(c: char) -> bool {
    ('a' <= c && c <= 'z') || ('A' <= c && c <= 'Z')
}

/// An ASCII lower-case letter.
pub open spec fn is_lower(c: char) -> bool {
    'a' <= c && c <= 'z'
}

/// An ASCII upper-case letter.
pub open spec fn is_upper(c: char) -> bool {
    'A' <= c && c <= 'Z'
}

/// An ASCII decimal digit.
pub open spec fn is_digit(c: char) -> bool {
    '0' <= c && c <= '9'
}

/// The lower-case form of an ASCII upper-case letter; any other
/// character is left as it is.
pub open spec fn lowercase(c: char) -> char {
    if is_upper(c) {
        ((c as u8) + 32) as char
    } else {
        c
    }
}

/// A text with every character in lower case.
pub open spec fn lowercase_text(s: Seq<char>) -> Seq<char> {
    Seq::new(s.len(), |i: int| lowercase(s[i]))
}

/// What a word of the language ends at: the end of the text, a separator
/// or a bracket.
pub open spec fn at_word_end(s: Seq<char>, i: int) -> bool {
    i >= s.len() || is_separator(s[i]) || is_bracket(s[i])
}

/// The classes that the lexer tells apart, as tests on a character.
pub trait SrlChar: Sized {
    fn is_srl_whitespace(self) -> bool;

    fn is_group_start(self) -> bool;

    fn is_group_end(self) -> bool;

    fn is_group_char(self) -> bool;

    fn is_space(self) -> bool;

    fn is_quote(self) -> bool;

    fn is_backslash(self) -> bool;
}

impl SrlChar for char {
    fn is_srl_whitespace(self) -> (b: bool)
        ensures
            b == is_separator(self),
    {
        (self == ' ') || (self == ',') || (self == '\n') || (self == '\t')
    }

    fn is_group_start(self) -> (b: bool)
        ensures
            b == (self == '('),
    {
        self == '('
    }

    fn is_group_end(self) -> (b: bool)
        ensures
            b == (self == ')'),
    {
        self == ')'
    }

    fn is_group_char(self) -> (b: bool)
        ensures
            b == is_bracket(self),
    {
        self.is_group_start() || self.is_group_end()
    }

    fn is_space(self) -> (b: bool)
        ensures
            b == (self == ' '),
    {
        self == ' '
    }

    fn is_quote(self) -> (b: bool)
        ensures
            b == is_quote_mark(self),
    {
        (self == '\'') || (self == '"')
    }

    fn is_backslash(self) -> (b: bool)
        ensures
            b == (self == '\\'),
    {
        self == '\\'
    }
}

/// Whether `c` is an ASCII letter.
pub fn letter(c: char) -> (b: bool)
    ensures
        b == is_letter(c),
{
    (c >= 'a' && c <= 'z') || (c >= 'A' && c <= 'Z')
}

/// Whether `c` is an ASCII decimal digit.
pub fn digit(c: char) -> (b: bool)
    ensures
        b == is_digit(c),
{
    c >= '0' && c <= '9'
}

/// The lower-case form of `c`.
pub fn to_lowercase(c: char) -> (r: char)
    ensures
        r == lowercase(c),
{
    if c >= 'A' && c <= 'Z' {
        ((c as u8) + 32u8) as char
    } else {
        c
    }
}

} // verus!
