//! Token kinds and the token value that the lexer hands to the parser.

use vstd::prelude::*;
use vstd::string::StringExecFns;
use crate::ast::{CharKind, CharKindView};
use crate::srlchar::is_digit;

verus! {

/// Keywords that stand for something the pattern matches.
#[derive(Clone, Copy, Debug, PartialEq, Eq, Structural)]
pub enum Characters {
    Literally,
    OneOf,
    Raw,
    Letter,
    UppercaseLetter,
    Digit,
    AnyCharacter,
    NoCharacter,
    Anything,
    NewLine,
    Whitespace,
    NoWhitespace,
    Tab,
}

/// The two words of a range: `from` and `to`.
#[derive(Clone, Copy, Debug, PartialEq, Eq)]
pub enum Specifications {
    From,
    To,
}

/// Words that make up a repetition count.
#[derive(Clone, Copy, Debug, PartialEq, Eq)]
pub enum Quantifiers {
    Exactly,
    Once,
    Twice,
    Between,
    Optional,
    OnceOrMore,
    NeverOrMore,
    AtLeast,
    Times,
    And,
}

/// Words that open, name or bracket a group.
#[derive(Clone, Copy, Debug, PartialEq, Eq)]
pub enum Groups {
    Capture,
    As,
    Until,
    AnyOf,
    IfFollowedBy,
    IfNotFollowedBy,
    IfAlreadyHad,
    IfNotAlreadyHad,
    GroupStart,
    GroupEnd,
}

/// Options of the whole pattern.
#[derive(Clone, Copy, Debug, PartialEq, Eq)]
pub enum Flags {
    CaseInsensitive,
    MultiLine,
    AllLazy,
}

/// Positions the pattern can be tied to.
#[derive(Clone, Copy, Debug, PartialEq, Eq)]
pub enum Anchors {
    BeginWith,
    MustEnd,
}

/// The kind of a token: a keyword of one of six classes, one of the four
/// kinds of literal value, or the end of the input.
#[derive(Clone, Copy, Debug, PartialEq, Eq)]
pub enum TokenType {
    Character(Characters),
    Specification(Specifications),
    Quantifier(Quantifiers),
    Group(Groups),
    Flag(Flags),
    Anchor(Anchors),
    Number,
    String,
    Char,
    Digit,
    EndOfFile,
}

impl Characters {
    /// True for the three keywords that take a quoted string.
    pub open spec fn takes_string(self) -> bool {
        self is Literally || self is OneOf || self is Raw
    }

    /// True for the three keywords that take an optional range.
    pub open spec fn takes_range(self) -> bool {
        self is Letter || self is UppercaseLetter || self is Digit
    }

    /// The atom that this keyword denotes when it is followed by the string
    /// `val` (for the string keywords) or by nothing (for the plain ones).
    pub open spec fn charkind_of(self, val: Option<Seq<char>>) -> CharKindView
        recommends
            !self.takes_range(),
            self.takes_string() ==> val is Some,
    {
        match self {
            Characters::Literally => CharKindView::Literally(val->0),
            Characters::OneOf => CharKindView::OneOf(val->0),
            Characters::Raw => CharKindView::Raw(val->0),
            Characters::AnyCharacter => CharKindView::AnyCharacter,
            Characters::NoCharacter => CharKindView::NoCharacter,
            Characters::Anything => CharKindView::Anything,
            Characters::NewLine => CharKindView::NewLine,
            Characters::Whitespace => CharKindView::Whitespace,
            Characters::NoWhitespace => CharKindView::NoWhitespace,
            _ => CharKindView::Tab,
        }
    }

    /// The character class that this keyword denotes with the given bounds;
    /// a bound that is absent is the first or last member of the class.
    pub open spec fn class_of(self, from: Option<char>, to: Option<char>) -> CharKindView
        recommends
            self.takes_range(),
    {
        match self {
            Characters::Letter => CharKindView::Letter {
                from: if from is Some { from->0 } else { 'a' },
                to: if to is Some { to->0 } else { 'z' },
            },
            Characters::UppercaseLetter => CharKindView::UppercaseLetter {
                from: if from is Some { from->0 } else { 'A' },
                to: if to is Some { to->0 } else { 'Z' },
            },
            _ => CharKindView::Digit {
                from: if from is Some { from->0 as int - '0' as int } else { 0 },
                to: if to is Some { to->0 as int - '0' as int } else { 9 },
            },
        }
    }

    /// The atom of a word that takes a string, with the string `val`, or of
    /// a word that takes nothing.
    pub fn to_charkind(self, val: Option<String>) -> (kind: CharKind)
        requires
            !self.takes_range(),
            self.takes_string() ==> val is Some,
        ensures
            kind@ == self.charkind_of(
                match val {
                    Some(s) => Some(s@),
                    None => None,
                },
            ),
    {
        match self {
            Characters::Literally => CharKind::Literally(val.unwrap()),
            Characters::OneOf => CharKind::OneOf(val.unwrap()),
            Characters::Raw => CharKind::Raw(val.unwrap()),
            Characters::AnyCharacter => CharKind::AnyCharacter,
            Characters::NoCharacter => CharKind::NoCharacter,
            Characters::Anything => CharKind::Anything,
            Characters::NewLine => CharKind::NewLine,
            Characters::Whitespace => CharKind::Whitespace,
            Characters::NoWhitespace => CharKind::NoWhitespace,
            _ => CharKind::Tab,
        }
    }

    /// The class of a word that takes a range, with the bounds that are
    /// given. A bound of digits is a digit character.
    pub fn to_char_class_with_spec(self, from: Option<char>, to: Option<char>) -> (kind: CharKind)
        requires
            self.takes_range(),
            self is Digit && from is Some ==> is_digit(from->0),
            self is Digit && to is Some ==> is_digit(to->0),
        ensures
            kind@ == self.class_of(from, to),
    {
        match self {
            Characters::Letter => CharKind::Letter {
                from: match from {
                    Some(c) => c,
                    None => 'a',
                },
                to: match to {
                    Some(c) => c,
                    None => 'z',
                },
            },
            Characters::UppercaseLetter => CharKind::UppercaseLetter {
                from: match from {
                    Some(c) => c,
                    None => 'A',
                },
                to: match to {
                    Some(c) => c,
                    None => 'Z',
                },
            },
            _ => CharKind::Digit {
                from: match from {
                    Some(c) => (c as u8 - 48u8) as i32,
                    None => 0,
                },
                to: match to {
                    Some(c) => (c as u8 - 48u8) as i32,
                    None => 9,
                },
            },
        }
    }
}

impl TokenType {
    /// True for the keywords after which a quoted string is read.
    pub open spec fn wants_string(self) -> bool {
        match self {
            TokenType::Character(c) => c.takes_string(),
            TokenType::Group(Groups::As) => true,
            _ => false,
        }
    }

    /// True for the keywords after which a decimal number is read.
    pub open spec fn wants_number(self) -> bool {
        match self {
            TokenType::Quantifier(q) => q is Exactly || q is Between || q is And || q is AtLeast,
            _ => false,
        }
    }

    /// True for the words that open a group: what follows is a quoted
    /// string, a bracket or another keyword.
    pub open spec fn opens_group(self) -> bool {
        match self {
            TokenType::Group(g) => !(g is As || g is GroupStart || g is GroupEnd),
            _ => false,
        }
    }

    /// Whether a range starts with this token: whether it is `from`.
    pub fn is_spec_start(self) -> (b: bool)
        ensures
            b == (self == TokenType::Specification(Specifications::From)),
    {
        match self {
            TokenType::Specification(Specifications::From) => true,
            _ => false,
        }
    }
}

/// A token as the contracts see it: its text and its kind.
pub struct TokenView {
    pub val: Seq<char>,
    pub token_type: TokenType,
}

/// A token: for a keyword the spelling under which the keyword table holds
/// it, for a literal value the value itself.
#[derive(Clone, Debug)]
pub struct Token {
    val: String,
    token_type: TokenType,
}

impl View for Token {
    type V = TokenView;

    closed spec fn view(&self) -> TokenView {
        TokenView { val: self.val@, token_type: self.token_type }
    }
}

impl Token {
    /// The token with the text `t_val` and the kind `t_type`.
    pub fn new(t_val: &str, t_type: TokenType) -> (token: Token)
        ensures
            token@ == (TokenView { val: t_val@, token_type: t_type }),
    {
        Token { val: String::from_str(t_val), token_type: t_type }
    }

    /// A token that takes over an owned text.
    pub fn from_string(t_val: String, t_type: TokenType) -> (token: Token)
        ensures
            token@ == (TokenView { val: t_val@, token_type: t_type }),
    {
        Token { val: t_val, token_type: t_type }
    }

    /// The text of the token.
    pub fn val(&self) -> (text: String)
        ensures
            text@ == self@.val,
    {
        self.val.clone()
    }

    /// The kind of the token.
    pub fn token_type(&self) -> (kind: TokenType)
        ensures
            kind == self@.token_type,
    {
        self.token_type
    }

    /// Whether the token is a quoted string.
    pub fn is_string(&self) -> (b: bool)
        ensures
            b == (self@.token_type is String),
    {
        match self.token_type {
            TokenType::String => true,
            _ => false,
        }
    }
}

} // verus!
