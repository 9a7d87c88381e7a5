//! What the lexer reads, stated on the source text as a sequence of
//! characters: for each mode, the token that starts at a position and where
//! it ends, or the error that the text runs into.

use vstd::prelude::*;
use crate::grammar::{eof_token, keyword_kind, longer_form, MAX_KEY_LENGTH};
use crate::srlchar::{
    at_word_end, is_bracket, is_digit, is_letter, is_quote_mark, is_separator, lowercase,
    lowercase_text,
};
use crate::token::{Groups, TokenType, TokenView};

verus! {

/// Why a text cannot be split into tokens.
#[derive(Clone, Copy, Debug, PartialEq, Eq)]
pub enum LexError {
    /// A character that the mode does not admit, or the end of the text
    /// where the mode needs a character.
    InvalidChar,
    /// Words that are no keyword and have grown too long to become one.
    OverlongIdentifier,
    /// No opening or no closing quote before the end of the text.
    UnterminatedString,
    /// A number was due and no digit came.
    EmptyNumber,
}

/// The modes of the lexer. The kind of the token read last decides the
/// mode in which the next one is read.
#[derive(Clone, Copy, Debug, PartialEq, Eq)]
pub enum State {
    Start,
    InIdent,
    InString,
    InNumber,
    InCharOrDigit,
    Done,
    Error,
}

/// The result of reading one token: the token and the position behind it,
/// or an error.
pub enum Scan {
    Token { token: TokenView, end: int },
    Fail(LexError),
}

/// One element of a token stream. An error ends the stream.
pub enum Lexeme {
    Token(TokenView),
    Error(LexError),
}

/// The mode in which the token after one of kind `kind` is read.
pub open spec fn state_after(kind: TokenType) -> State {
    if kind is EndOfFile {
        State::Done
    } else if kind.wants_string() {
        State::InString
    } else if kind.wants_number() {
        State::InNumber
    } else if kind is Specification {
        State::InCharOrDigit
    } else if kind.opens_group() {
        State::Start
    } else {
        State::InIdent
    }
}

/// The first position from `i` on that holds no separator.
pub open spec fn skip_separators(s: Seq<char>, i: int) -> int
    decreases s.len() - i,
{
    if 0 <= i < s.len() && is_separator(s[i]) {
        skip_separators(s, i + 1)
    } else {
        i
    }
}

/// The first position from `i` on that holds no letter.
pub open spec fn word_end(s: Seq<char>, i: int) -> int
    decreases s.len() - i,
{
    if 0 <= i < s.len() && is_letter(s[i]) {
        word_end(s, i + 1)
    } else {
        i
    }
}

/// The first position from `i` on that holds no digit.
pub open spec fn digits_end(s: Seq<char>, i: int) -> int
    decreases s.len() - i,
{
    if 0 <= i < s.len() && is_digit(s[i]) {
        digits_end(s, i + 1)
    } else {
        i
    }
}

/// Where the passage that starts at `i` and spells `text` ends, if there is
/// one. A letter of either case spells its lower-case form, a run of
/// separators spells one space, and the passage ends where a word ends.
pub open spec fn spelled_end(s: Seq<char>, i: int, text: Seq<char>) -> Option<int>
    decreases text.len(),
{
    if text.len() == 0 {
        if at_word_end(s, i) {
            Some(i)
        } else {
            None
        }
    } else if text[0] == ' ' {
        if 0 <= i < s.len() && is_separator(s[i]) {
            spelled_end(s, skip_separators(s, i), text.drop_first())
        } else {
            None
        }
    } else if 0 <= i < s.len() && is_letter(s[i]) && lowercase(s[i]) == text[0] {
        spelled_end(s, i + 1, text.drop_first())
    } else {
        None
    }
}

/// The longer keyword that begins with the keyword `text`, which ends at
/// `e`, if the characters from `e` on spell the rest of it.
pub open spec fn longer_keyword(s: Seq<char>, e: int, text: Seq<char>) -> Option<(TokenView, int)> {
    match longer_form(text) {
        Some(rest) => match (spelled_end(s, e, rest), keyword_kind(text + rest)) {
            (Some(end), Some(kind)) => Some((TokenView { val: text + rest, token_type: kind }, end)),
            _ => None,
        },
        None => None,
    }
}

/// The keyword that is read from the word at `i` on, when the words before
/// it have given `prefix` (empty, or words that each end in a space).
///
/// The word is added in lower case. If the text so far is a keyword, it is
/// the token, unless the next words make a longer keyword of it. If it is
/// none, it may become one by a further word: then a separator has to
/// follow, the text has to be shorter than `MAX_KEY_LENGTH`, and a letter
/// has to come after the separators.
pub open spec fn scan_keyword(s: Seq<char>, i: int, prefix: Seq<char>) -> Scan
    decreases s.len() - i,
    when 0 <= i <= s.len()
    via scan_keyword_decreases
{
    let e = word_end(s, i);
    let text = prefix + lowercase_text(s.subrange(i, e));
    if !at_word_end(s, e) {
        Scan::Fail(LexError::InvalidChar)
    } else if let Some(kind) = keyword_kind(text) {
        match longer_keyword(s, e, text) {
            Some((token, end)) => Scan::Token { token, end },
            None => Scan::Token { token: TokenView { val: text, token_type: kind }, end: e },
        }
    } else if e >= s.len() || is_bracket(s[e]) {
        Scan::Fail(LexError::InvalidChar)
    } else if text.len() >= MAX_KEY_LENGTH {
        Scan::Fail(LexError::OverlongIdentifier)
    } else {
        let n = skip_separators(s, e);
        if n < s.len() && is_letter(s[n]) {
            scan_keyword(s, n, text.push(' '))
        } else {
            Scan::Fail(LexError::InvalidChar)
        }
    }
}

#[via_fn]
proof fn scan_keyword_decreases(s: Seq<char>, i: int, prefix: Seq<char>) {
    let e = word_end(s, i);
    lemma_word_end(s, i);
    if e < s.len() {
        lemma_skip_separators(s, e);
        lemma_skip_separators(s, e + 1);
    }
}

/// The token read in identifier mode: the end of the input once only
/// separators are left, a bracket, or a keyword.
pub open spec fn scan_identifier(s: Seq<char>, pos: int) -> Scan {
    let i = skip_separators(s, pos);
    if i >= s.len() {
        Scan::Token { token: eof_token(), end: i }
    } else if s[i] == '(' {
        Scan::Token {
            token: TokenView { val: seq!['('], token_type: TokenType::Group(Groups::GroupStart) },
            end: i + 1,
        }
    } else if s[i] == ')' {
        Scan::Token {
            token: TokenView { val: seq![')'], token_type: TokenType::Group(Groups::GroupEnd) },
            end: i + 1,
        }
    } else if is_letter(s[i]) {
        scan_keyword(s, i, Seq::empty())
    } else {
        Scan::Fail(LexError::InvalidChar)
    }
}

/// The position of the quote `quote` that closes the string whose contents
/// start at `i`: the first one that no backslash stands before. The length
/// of the text if there is none.
pub open spec fn closing_quote(s: Seq<char>, i: int, quote: char) -> int
    decreases s.len() - i,
{
    if i < 0 || i >= s.len() {
        s.len() as int
    } else if s[i] == '\\' {
        if i + 1 < s.len() {
            closing_quote(s, i + 2, quote)
        } else {
            s.len() as int
        }
    } else if s[i] == quote {
        i
    } else {
        closing_quote(s, i + 1, quote)
    }
}

/// The contents of a string as written between its quotes, with each
/// backslash taken out and the character behind it kept as it is.
pub open spec fn unescape(body: Seq<char>) -> Seq<char>
    decreases body.len(),
{
    if body.len() == 0 {
        Seq::empty()
    } else if body[0] == '\\' {
        if body.len() == 1 {
            Seq::empty()
        } else {
            seq![body[1]] + unescape(body.skip(2))
        }
    } else {
        seq![body[0]] + unescape(body.skip(1))
    }
}

/// The token read in string mode: separators, then a quote, then the
/// contents up to the closing quote of the same kind.
pub open spec fn scan_string(s: Seq<char>, pos: int) -> Scan {
    let i = skip_separators(s, pos);
    if i >= s.len() {
        Scan::Fail(LexError::UnterminatedString)
    } else if !is_quote_mark(s[i]) {
        Scan::Fail(LexError::InvalidChar)
    } else {
        let close = closing_quote(s, i + 1, s[i]);
        if close >= s.len() {
            Scan::Fail(LexError::UnterminatedString)
        } else {
            Scan::Token {
                token: TokenView {
                    val: unescape(s.subrange(i + 1, close)),
                    token_type: TokenType::String,
                },
                end: close + 1,
            }
        }
    }
}

/// The token read in number mode: separators, then digits up to the end of
/// the word.
pub open spec fn scan_number(s: Seq<char>, pos: int) -> Scan {
    let i = skip_separators(s, pos);
    let e = digits_end(s, i);
    if !at_word_end(s, e) {
        Scan::Fail(LexError::InvalidChar)
    } else if e == i {
        Scan::Fail(LexError::EmptyNumber)
    } else {
        Scan::Token {
            token: TokenView { val: s.subrange(i, e), token_type: TokenType::Number },
            end: e,
        }
    }
}

/// The token read where a bound of a range is due: separators, then one
/// letter or one digit.
pub open spec fn scan_char_or_digit(s: Seq<char>, pos: int) -> Scan {
    let i = skip_separators(s, pos);
    if i < s.len() && is_digit(s[i]) {
        Scan::Token { token: TokenView { val: seq![s[i]], token_type: TokenType::Digit }, end: i + 1 }
    } else if i < s.len() && is_letter(s[i]) {
        Scan::Token { token: TokenView { val: seq![s[i]], token_type: TokenType::Char }, end: i + 1 }
    } else {
        Scan::Fail(LexError::InvalidChar)
    }
}

/// The token read where a group may open: the first character that is no
/// separator decides how the token is read.
pub open spec fn scan_start(s: Seq<char>, pos: int) -> Scan {
    let i = skip_separators(s, pos);
    if i >= s.len() {
        Scan::Token { token: eof_token(), end: i }
    } else if is_quote_mark(s[i]) {
        scan_string(s, i)
    } else if is_letter(s[i]) || is_bracket(s[i]) {
        scan_identifier(s, i)
    } else if is_digit(s[i]) {
        scan_number(s, i)
    } else {
        Scan::Fail(LexError::InvalidChar)
    }
}

/// The token read in mode `state`; nothing is read once the lexer is done
/// or has failed.
pub open spec fn scan(s: Seq<char>, pos: int, state: State) -> Option<Scan> {
    match state {
        State::Start => Some(scan_start(s, pos)),
        State::InIdent => Some(scan_identifier(s, pos)),
        State::InString => Some(scan_string(s, pos)),
        State::InNumber => Some(scan_number(s, pos)),
        State::InCharOrDigit => Some(scan_char_or_digit(s, pos)),
        State::Done => None,
        State::Error => None,
    }
}

/// The tokens that are read from `pos` on, starting in mode `state`. The
/// stream ends with the end-of-input token, or with the first error.
pub open spec fn token_stream(s: Seq<char>, pos: int, state: State) -> Seq<Lexeme>
    decreases s.len() - pos, (if state is Done { 0int } else { 1int }),
    when 0 <= pos <= s.len()
    via token_stream_decreases
{
    match scan(s, pos, state) {
        None => Seq::empty(),
        Some(Scan::Fail(e)) => seq![Lexeme::Error(e)],
        Some(Scan::Token { token, end }) => seq![Lexeme::Token(token)] + token_stream(
            s,
            end,
            state_after(token.token_type),
        ),
    }
}

#[via_fn]
proof fn token_stream_decreases(s: Seq<char>, pos: int, state: State) {
    lemma_scan_advances(s, pos, state);
}

/// The tokens of the whole text.
pub open spec fn tokens_of(s: Seq<char>) -> Seq<Lexeme> {
    token_stream(s, 0, State::Start)
}

/// `skip_separators` passes over separators only and stops at the first
/// character that is none.
pub proof fn lemma_skip_separators(s: Seq<char>, i: int)
    requires
        0 <= i <= s.len(),
    ensures
        i <= skip_separators(s, i) <= s.len(),
        forall|j: int| i <= j < skip_separators(s, i) ==> is_separator(#[trigger] s[j]),
        skip_separators(s, i) < s.len() ==> !is_separator(s[skip_separators(s, i)]),
        i < s.len() && is_separator(s[i]) ==> skip_separators(s, i) == skip_separators(s, i + 1),
        skip_separators(s, skip_separators(s, i)) == skip_separators(s, i),
    decreases s.len() - i,
{
    if i < s.len() && is_separator(s[i]) {
        lemma_skip_separators(s, i + 1);
    }
}

/// `word_end` passes over letters only and stops at the first character
/// that is none.
pub proof fn lemma_word_end(s: Seq<char>, i: int)
    requires
        0 <= i <= s.len(),
    ensures
        i <= word_end(s, i) <= s.len(),
        forall|j: int| i <= j < word_end(s, i) ==> is_letter(#[trigger] s[j]),
        word_end(s, i) < s.len() ==> !is_letter(s[word_end(s, i)]),
    decreases s.len() - i,
{
    if i < s.len() && is_letter(s[i]) {
        lemma_word_end(s, i + 1);
    }
}

/// `digits_end` passes over digits only and stops at the first character
/// that is none.
pub proof fn lemma_digits_end(s: Seq<char>, i: int)
    requires
        0 <= i <= s.len(),
    ensures
        i <= digits_end(s, i) <= s.len(),
        forall|j: int| i <= j < digits_end(s, i) ==> is_digit(#[trigger] s[j]),
        digits_end(s, i) < s.len() ==> !is_digit(s[digits_end(s, i)]),
    decreases s.len() - i,
{
    if i < s.len() && is_digit(s[i]) {
        lemma_digits_end(s, i + 1);
    }
}

/// The closing quote lies at or behind the start of the contents.
pub proof fn lemma_closing_quote(s: Seq<char>, i: int, quote: char)
    requires
        0 <= i,
    ensures
        i <= closing_quote(s, i, quote) || closing_quote(s, i, quote) == s.len(),
        closing_quote(s, i, quote) <= s.len(),
        closing_quote(s, i, quote) < s.len() ==> s[closing_quote(s, i, quote)] == quote,
    decreases s.len() - i,
{
    if i < s.len() {
        if s[i] == '\\' {
            if i + 1 < s.len() {
                lemma_closing_quote(s, i + 2, quote);
            }
        } else if s[i] != quote {
            lemma_closing_quote(s, i + 1, quote);
        }
    }
}

/// A keyword ends within the text, behind the position where it starts.
pub proof fn lemma_scan_keyword_end(s: Seq<char>, i: int, prefix: Seq<char>)
    requires
        0 <= i < s.len(),
        is_letter(s[i]),
    ensures
        scan_keyword(s, i, prefix) matches Scan::Token { token, end } ==> i < end <= s.len()
            && !(token.token_type is EndOfFile),
    decreases s.len() - i,
{
    let e = word_end(s, i);
    lemma_word_end(s, i);
    lemma_word_end(s, i + 1);
    let text = prefix + lowercase_text(s.subrange(i, e));
    if at_word_end(s, e) {
        if keyword_kind(text) is Some {
            if let Some(rest) = longer_form(text) {
                lemma_spelled_end(s, e, rest);
            }
        } else if e < s.len() && !is_bracket(s[e]) && text.len() < MAX_KEY_LENGTH {
            let n = skip_separators(s, e);
            lemma_skip_separators(s, e);
            if n < s.len() && is_letter(s[n]) {
                lemma_scan_keyword_end(s, n, text.push(' '));
            }
        }
    }
}

/// A passage that spells a text ends within the source, at or behind its
/// start.
pub proof fn lemma_spelled_end(s: Seq<char>, i: int, text: Seq<char>)
    requires
        0 <= i <= s.len(),
    ensures
        spelled_end(s, i, text) matches Some(end) ==> i <= end <= s.len() && at_word_end(s, end),
    decreases text.len(),
{
    if text.len() > 0 && i < s.len() {
        if text[0] == ' ' && is_separator(s[i]) {
            lemma_skip_separators(s, i);
            lemma_spelled_end(s, skip_separators(s, i), text.drop_first());
        } else if text[0] != ' ' && is_letter(s[i]) && lowercase(s[i]) == text[0] {
            lemma_spelled_end(s, i + 1, text.drop_first());
        }
    }
}

/// Every token ends within the text and at or behind the position where
/// reading began; only the end-of-input token takes no character.
pub proof fn lemma_scan_advances(s: Seq<char>, pos: int, state: State)
    requires
        0 <= pos <= s.len(),
    ensures
        scan(s, pos, state) matches Some(Scan::Token { token, end }) ==> {
            &&& pos <= end <= s.len()
            &&& end == pos ==> token.token_type is EndOfFile
        },
{
    let i = skip_separators(s, pos);
    lemma_skip_separators(s, pos);
    lemma_skip_separators(s, i);
    if i < s.len() {
        if is_letter(s[i]) {
            lemma_scan_keyword_end(s, i, Seq::empty());
        }
        lemma_closing_quote(s, i + 1, s[i]);
        lemma_digits_end(s, i);
    }
}

/// The token that ends the input.
pub open spec fn is_eof(x: Lexeme) -> bool {
    x matches Lexeme::Token(t) && t.token_type is EndOfFile
}

/// What the text of a token is, by its kind: the digits of a number, the
/// one letter or digit of a bound, a bracket, the mark of the end of the
/// input, or a spelling that the keyword table holds for the kind.
pub open spec fn well_shaped(t: TokenView) -> bool {
    match t.token_type {
        TokenType::String => true,
        TokenType::Number => t.val.len() > 0 && forall|i: int|
            0 <= i < t.val.len() ==> is_digit(#[trigger] t.val[i]),
        TokenType::Char => t.val.len() == 1 && is_letter(t.val[0]),
        TokenType::Digit => t.val.len() == 1 && is_digit(t.val[0]),
        TokenType::EndOfFile => t == eof_token(),
        TokenType::Group(Groups::GroupStart) => t.val == seq!['('],
        TokenType::Group(Groups::GroupEnd) => t.val == seq![')'],
        kind => keyword_kind(t.val) == Some(kind),
    }
}

/// A keyword that is read is held by the keyword table.
proof fn lemma_keyword_well_shaped(s: Seq<char>, i: int, prefix: Seq<char>)
    requires
        0 <= i <= s.len(),
    ensures
        scan_keyword(s, i, prefix) matches Scan::Token { token, .. } ==> keyword_kind(token.val)
            == Some(token.token_type),
    decreases s.len() - i,
{
    let e = word_end(s, i);
    lemma_word_end(s, i);
    let text = prefix + lowercase_text(s.subrange(i, e));
    if at_word_end(s, e) && keyword_kind(text) is None && e < s.len() && !is_bracket(s[e])
        && text.len() < MAX_KEY_LENGTH {
        let n = skip_separators(s, e);
        lemma_skip_separators(s, e);
        lemma_skip_separators(s, e + 1);
        if n < s.len() && is_letter(s[n]) {
            lemma_keyword_well_shaped(s, n, text.push(' '));
        }
    }
}

/// Every token that is read is well shaped.
pub proof fn lemma_scan_well_shaped(s: Seq<char>, pos: int, state: State)
    requires
        0 <= pos <= s.len(),
    ensures
        scan(s, pos, state) matches Some(Scan::Token { token, .. }) ==> well_shaped(token),
{
    let i = skip_separators(s, pos);
    lemma_skip_separators(s, pos);
    lemma_skip_separators(s, i);
    let e = digits_end(s, i);
    lemma_digits_end(s, i);
    if i < s.len() {
        lemma_keyword_well_shaped(s, i, Seq::empty());
        if is_letter(s[i]) {
            lemma_keywords_are_words(scan_keyword(s, i, Seq::empty())->token.val);
        }
    }
    assert forall|j: int| 0 <= j < e - i implies is_digit(#[trigger] s.subrange(i, e)[j]) by {}
}

/// No keyword has the kind of a value, of a bracket or of the end of the
/// input.
proof fn lemma_keywords_are_words(text: Seq<char>)
    ensures
        keyword_kind(text) matches Some(kind) ==> !(kind is String || kind is Number || kind is Char
            || kind is Digit || kind is EndOfFile || kind == TokenType::Group(Groups::GroupStart)
            || kind == TokenType::Group(Groups::GroupEnd)),
{
}

/// The shape of a token stream. The tokens that are read from a position
/// within the text, in a mode in which the lexer reads, are at least one
/// element. The last element is the end-of-input token or an error, and
/// every element before it is a token that is neither. Every token is well
/// shaped.
pub proof fn lemma_stream_shape(s: Seq<char>, pos: int, state: State)
    requires
        0 <= pos <= s.len(),
        !(state is Done || state is Error),
    ensures
        token_stream(s, pos, state).len() > 0,
        is_eof(token_stream(s, pos, state).last()) || token_stream(s, pos, state).last() is Error,
        forall|j: int|
            0 <= j < token_stream(s, pos, state).len() - 1 ==> (#[trigger] token_stream(
                s,
                pos,
                state,
            )[j]) is Token && !is_eof(token_stream(s, pos, state)[j]),
        forall|j: int|
            0 <= j < token_stream(s, pos, state).len() ==> (#[trigger] token_stream(s, pos, state)[j]
                matches Lexeme::Token(t) ==> well_shaped(t)),
    decreases s.len() - pos,
{
    let ts = token_stream(s, pos, state);
    lemma_scan_advances(s, pos, state);
    lemma_scan_well_shaped(s, pos, state);
    if let Some(Scan::Token { token, end }) = scan(s, pos, state) {
        let next = state_after(token.token_type);
        if !(token.token_type is EndOfFile) {
            lemma_stream_shape(s, end, next);
            assert forall|j: int| 0 <= j < ts.len() - 1 implies (#[trigger] ts[j]) is Token
                && !is_eof(ts[j]) by {}
            assert forall|j: int| 0 <= j < ts.len() implies (#[trigger] ts[j] matches Lexeme::Token(
                t,
            ) ==> well_shaped(t)) by {}
        }
    }
}

} // verus!
