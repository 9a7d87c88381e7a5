//! The keyword table: the spellings of the language's keywords and the
//! token kinds that they stand for.

use vstd::prelude::*;
use vstd::string::StrSliceExecFns;
use crate::token::{
    Anchors, Characters, Flags, Groups, Quantifiers, Specifications, Token, TokenType, TokenView,
};

verus! {

/// The length from which on a text that is no keyword is given up: below it
/// the text may still grow into a keyword by a further word.
pub const MAX_KEY_LENGTH: usize = 15;

/// The keyword table. A keyword is spelled in lower case, its words joined
/// by single spaces; two spellings may stand for one kind.
pub open spec fn keyword_kind(text: Seq<char>) -> Option<TokenType> {
    if text == "literally"@ {
        Some(TokenType::Character(Characters::Literally))
    } else if text == "one of"@ {
        Some(TokenType::Character(Characters::OneOf))
    } else if text == "letter"@ {
        Some(TokenType::Character(Characters::Letter))
    } else if text == "uppercase letter"@ {
        Some(TokenType::Character(Characters::UppercaseLetter))
    } else if text == "any character"@ {
        Some(TokenType::Character(Characters::AnyCharacter))
    } else if text == "no character"@ {
        Some(TokenType::Character(Characters::NoCharacter))
    } else if text == "digit"@ {
        Some(TokenType::Character(Characters::Digit))
    } else if text == "anything"@ {
        Some(TokenType::Character(Characters::Anything))
    } else if text == "new line"@ {
        Some(TokenType::Character(Characters::NewLine))
    } else if text == "whitespace"@ {
        Some(TokenType::Character(Characters::Whitespace))
    } else if text == "no whitespace"@ {
        Some(TokenType::Character(Characters::NoWhitespace))
    } else if text == "tab"@ {
        Some(TokenType::Character(Characters::Tab))
    } else if text == "raw"@ {
        Some(TokenType::Character(Characters::Raw))
    } else if text == "from"@ {
        Some(TokenType::Specification(Specifications::From))
    } else if text == "to"@ {
        Some(TokenType::Specification(Specifications::To))
    } else if text == "exactly"@ {
        Some(TokenType::Quantifier(Quantifiers::Exactly))
    } else if text == "once"@ {
        Some(TokenType::Quantifier(Quantifiers::Once))
    } else if text == "twice"@ {
        Some(TokenType::Quantifier(Quantifiers::Twice))
    } else if text == "between"@ {
        Some(TokenType::Quantifier(Quantifiers::Between))
    } else if text == "optional"@ {
        Some(TokenType::Quantifier(Quantifiers::Optional))
    } else if text == "once or more"@ {
        Some(TokenType::Quantifier(Quantifiers::OnceOrMore))
    } else if text == "never or more"@ {
        Some(TokenType::Quantifier(Quantifiers::NeverOrMore))
    } else if text == "at least"@ {
        Some(TokenType::Quantifier(Quantifiers::AtLeast))
    } else if text == "and"@ {
        Some(TokenType::Quantifier(Quantifiers::And))
    } else if text == "times"@ {
        Some(TokenType::Quantifier(Quantifiers::Times))
    } else if text == "time"@ {
        Some(TokenType::Quantifier(Quantifiers::Times))
    } else if text == "capture"@ {
        Some(TokenType::Group(Groups::Capture))
    } else if text == "as"@ {
        Some(TokenType::Group(Groups::As))
    } else if text == "any of"@ {
        Some(TokenType::Group(Groups::AnyOf))
    } else if text == "either of"@ {
        Some(TokenType::Group(Groups::AnyOf))
    } else if text == "until"@ {
        Some(TokenType::Group(Groups::Until))
    } else if text == "if followed by"@ {
        Some(TokenType::Group(Groups::IfFollowedBy))
    } else if text == "if not followed by"@ {
        Some(TokenType::Group(Groups::IfNotFollowedBy))
    } else if text == "if already had"@ {
        Some(TokenType::Group(Groups::IfAlreadyHad))
    } else if text == "if not already had"@ {
        Some(TokenType::Group(Groups::IfNotAlreadyHad))
    } else if text == "case insensitive"@ {
        Some(TokenType::Flag(Flags::CaseInsensitive))
    } else if text == "multi line"@ {
        Some(TokenType::Flag(Flags::MultiLine))
    } else if text == "all lazy"@ {
        Some(TokenType::Flag(Flags::AllLazy))
    } else if text == "begin with"@ {
        Some(TokenType::Anchor(Anchors::BeginWith))
    } else if text == "starts with"@ {
        Some(TokenType::Anchor(Anchors::BeginWith))
    } else if text == "must end"@ {
        Some(TokenType::Anchor(Anchors::MustEnd))
    } else {
        None
    }
}

/// What follows a keyword that is the beginning of a longer one.
pub open spec fn longer_form(text: Seq<char>) -> Option<Seq<char>> {
    if text == "once"@ {
        Some(" or more"@)
    } else {
        None
    }
}

/// The kind of the token that `text` spells: a bracket or a keyword.
pub open spec fn token_kind(text: Seq<char>) -> Option<TokenType> {
    if text == "("@ {
        Some(TokenType::Group(Groups::GroupStart))
    } else if text == ")"@ {
        Some(TokenType::Group(Groups::GroupEnd))
    } else {
        keyword_kind(text)
    }
}

/// The token that ends every token stream.
pub open spec fn eof_token() -> TokenView {
    TokenView { val: "eof"@, token_type: TokenType::EndOfFile }
}

/// Whether two texts hold the same characters.
pub fn same_text(a: &str, b: &str) -> (same: bool)
    ensures
        same == (a@ == b@),
{
    let n = a.unicode_len();
    if b.unicode_len() != n {
        return false;
    }
    let mut i: usize = 0;
    while i < n
        invariant
            i <= n,
            n == a@.len(),
            n == b@.len(),
            forall|j: int| 0 <= j < i ==> a@[j] == b@[j],
        decreases n - i,
    {
        if a.get_char(i) != b.get_char(i) {
            return false;
        }
        i += 1;
    }
    assert(a@ =~= b@);
    true
}

/// Looks `text` up in the keyword table.
pub fn lookup_keyword(text: &str) -> (kind: Option<TokenType>)
    ensures
        kind == keyword_kind(text@),
{
    if same_text(text, "literally") {
        Some(TokenType::Character(Characters::Literally))
    } else if same_text(text, "one of") {
        Some(TokenType::Character(Characters::OneOf))
    } else if same_text(text, "letter") {
        Some(TokenType::Character(Characters::Letter))
    } else if same_text(text, "uppercase letter") {
        Some(TokenType::Character(Characters::UppercaseLetter))
    } else if same_text(text, "any character") {
        Some(TokenType::Character(Characters::AnyCharacter))
    } else if same_text(text, "no character") {
        Some(TokenType::Character(Characters::NoCharacter))
    } else if same_text(text, "digit") {
        Some(TokenType::Character(Characters::Digit))
    } else if same_text(text, "anything") {
        Some(TokenType::Character(Characters::Anything))
    } else if same_text(text, "new line") {
        Some(TokenType::Character(Characters::NewLine))
    } else if same_text(text, "whitespace") {
        Some(TokenType::Character(Characters::Whitespace))
    } else if same_text(text, "no whitespace") {
        Some(TokenType::Character(Characters::NoWhitespace))
    } else if same_text(text, "tab") {
        Some(TokenType::Character(Characters::Tab))
    } else if same_text(text, "raw") {
        Some(TokenType::Character(Characters::Raw))
    } else if same_text(text, "from") {
        Some(TokenType::Specification(Specifications::From))
    } else if same_text(text, "to") {
        Some(TokenType::Specification(Specifications::To))
    } else if same_text(text, "exactly") {
        Some(TokenType::Quantifier(Quantifiers::Exactly))
    } else if same_text(text, "once") {
        Some(TokenType::Quantifier(Quantifiers::Once))
    } else if same_text(text, "twice") {
        Some(TokenType::Quantifier(Quantifiers::Twice))
    } else if same_text(text, "between") {
        Some(TokenType::Quantifier(Quantifiers::Between))
    } else if same_text(text, "optional") {
        Some(TokenType::Quantifier(Quantifiers::Optional))
    } else if same_text(text, "once or more") {
        Some(TokenType::Quantifier(Quantifiers::OnceOrMore))
    } else if same_text(text, "never or more") {
        Some(TokenType::Quantifier(Quantifiers::NeverOrMore))
    } else if same_text(text, "at least") {
        Some(TokenType::Quantifier(Quantifiers::AtLeast))
    } else if same_text(text, "and") {
        Some(TokenType::Quantifier(Quantifiers::And))
    } else if same_text(text, "times") {
        Some(TokenType::Quantifier(Quantifiers::Times))
    } else if same_text(text, "time") {
        Some(TokenType::Quantifier(Quantifiers::Times))
    } else if same_text(text, "capture") {
        Some(TokenType::Group(Groups::Capture))
    } else if same_text(text, "as") {
        Some(TokenType::Group(Groups::As))
    } else if same_text(text, "any of") {
        Some(TokenType::Group(Groups::AnyOf))
    } else if same_text(text, "either of") {
        Some(TokenType::Group(Groups::AnyOf))
    } else if same_text(text, "until") {
        Some(TokenType::Group(Groups::Until))
    } else if same_text(text, "if followed by") {
        Some(TokenType::Group(Groups::IfFollowedBy))
    } else if same_text(text, "if not followed by") {
        Some(TokenType::Group(Groups::IfNotFollowedBy))
    } else if same_text(text, "if already had") {
        Some(TokenType::Group(Groups::IfAlreadyHad))
    } else if same_text(text, "if not already had") {
        Some(TokenType::Group(Groups::IfNotAlreadyHad))
    } else if same_text(text, "case insensitive") {
        Some(TokenType::Flag(Flags::CaseInsensitive))
    } else if same_text(text, "multi line") {
        Some(TokenType::Flag(Flags::MultiLine))
    } else if same_text(text, "all lazy") {
        Some(TokenType::Flag(Flags::AllLazy))
    } else if same_text(text, "begin with") {
        Some(TokenType::Anchor(Anchors::BeginWith))
    } else if same_text(text, "starts with") {
        Some(TokenType::Anchor(Anchors::BeginWith))
    } else if same_text(text, "must end") {
        Some(TokenType::Anchor(Anchors::MustEnd))
    } else {
        None
    }
}

/// The token that `text` spells, if it is a bracket or a keyword. The
/// token keeps the spelling.
pub fn get_token(text: &str) -> (token: Option<Token>)
    ensures
        match token_kind(text@) {
            Some(kind) => token matches Some(t) && t@ == (TokenView {
                val: text@,
                token_type: kind,
            }),
            None => token is None,
        },
{
    if same_text(text, "(") {
        Some(Token::new(text, TokenType::Group(Groups::GroupStart)))
    } else if same_text(text, ")") {
        Some(Token::new(text, TokenType::Group(Groups::GroupEnd)))
    } else {
        match lookup_keyword(text) {
            Some(kind) => Some(Token::new(text, kind)),
            None => None,
        }
    }
}

/// The token of a quoted string with the contents `val`.
pub fn get_string_token(val: &str) -> (token: Token)
    ensures
        token@ == (TokenView { val: val@, token_type: TokenType::String }),
{
    Token::new(val, TokenType::String)
}

/// The token of a decimal number with the digits `val`.
pub fn get_number_token(val: &str) -> (token: Token)
    ensures
        token@ == (TokenView { val: val@, token_type: TokenType::Number }),
{
    Token::new(val, TokenType::Number)
}

/// The token of a single letter that bounds a range.
pub fn get_char_token(val: &str) -> (token: Token)
    ensures
        token@ == (TokenView { val: val@, token_type: TokenType::Char }),
{
    Token::new(val, TokenType::Char)
}

/// The token of a single digit that bounds a range.
pub fn get_digit_token(val: &str) -> (token: Token)
    ensures
        token@ == (TokenView { val: val@, token_type: TokenType::Digit }),
{
    Token::new(val, TokenType::Digit)
}

/// The token that marks the end of the input.
pub fn get_eof_token() -> (token: Token)
    ensures
        token@ == eof_token(),
{
    Token::new("eof", TokenType::EndOfFile)
}

} // verus!
