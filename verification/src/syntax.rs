//! The grammar, stated on the stream of tokens: what each production reads
//! from the start of a stream, what is left behind it, and the error that
//! it ends in where the stream does not fit.

use vstd::prelude::*;
use crate::ast::{CharKindView, CharacterView, ExprView, GroupView, LookAround, Quantifier};
use crate::grammar::eof_token;
use crate::scan::{LexError, Lexeme};
use crate::srlchar::{is_digit, is_lower, is_upper};
use crate::token::{Anchors, Characters, Flags, Groups, Quantifiers, Specifications, TokenType};

verus! {

/// Why a stream of tokens is no pattern.
#[derive(Clone, Copy, Debug, PartialEq, Eq)]
pub enum ParseError {
    /// A token of a kind that the production does not admit at this place.
    UnexpectedToken,
    /// The input ends within a production.
    UnexpectedEnd,
    /// A bound that is not of the class of its range, or bounds out of
    /// order.
    BadRange,
    /// A count that does not fit, or bounds of `between` out of order.
    BadQuantifierBound,
    /// A group that holds nothing.
    EmptyGroup,
}

/// Why a text cannot be translated.
#[derive(Clone, Copy, Debug, PartialEq, Eq)]
pub enum Error {
    Lex(LexError),
    Parse(ParseError),
}

/// What a production has read, and the stream behind it.
pub type Parsed<T> = Result<(T, Seq<Lexeme>), Error>;

/// The first element of the stream. A stream that has run out stands at
/// the end of the input.
pub open spec fn peek(ts: Seq<Lexeme>) -> Lexeme {
    if ts.len() > 0 {
        ts[0]
    } else {
        Lexeme::Token(eof_token())
    }
}

/// The kind of the first token, if the stream starts with one.
pub open spec fn peek_kind(ts: Seq<Lexeme>) -> Option<TokenType> {
    match peek(ts) {
        Lexeme::Token(t) => Some(t.token_type),
        Lexeme::Error(_) => None,
    }
}

/// The error where the first element of the stream is not what a
/// production needs: the error of the lexer if it is one, `UnexpectedEnd`
/// at the end of the input, `UnexpectedToken` at any other token.
pub open spec fn unexpected(ts: Seq<Lexeme>) -> Error {
    match peek(ts) {
        Lexeme::Error(e) => Error::Lex(e),
        Lexeme::Token(t) => if t.token_type is EndOfFile {
            Error::Parse(ParseError::UnexpectedEnd)
        } else {
            Error::Parse(ParseError::UnexpectedToken)
        },
    }
}

/// The value of a character as a decimal digit; zero for any other.
pub open spec fn digit_value(c: char) -> int {
    if is_digit(c) {
        c as int - '0' as int
    } else {
        0
    }
}

/// The number that a sequence of decimal digits denotes.
pub open spec fn decimal_value(digits: Seq<char>) -> int
    decreases digits.len(),
{
    if digits.len() == 0 {
        0
    } else {
        10 * decimal_value(digits.drop_last()) + digit_value(digits.last())
    }
}

/// Whether `c` may bound a range of the class `ty`.
pub open spec fn class_admits(ty: Characters, c: char) -> bool {
    match ty {
        Characters::Letter => is_lower(c),
        Characters::UppercaseLetter => is_upper(c),
        _ => is_digit(c),
    }
}

/// A quoted string.
pub open spec fn parse_string(ts: Seq<Lexeme>) -> Parsed<Seq<char>> {
    match peek(ts) {
        Lexeme::Token(t) => if t.token_type is String {
            Ok((t.val, ts.drop_first()))
        } else {
            Err(unexpected(ts))
        },
        _ => Err(unexpected(ts)),
    }
}

/// A count: a number that fits into an `i32`.
pub open spec fn parse_number(ts: Seq<Lexeme>) -> Parsed<int> {
    match peek(ts) {
        Lexeme::Token(t) => if t.token_type is Number {
            if decimal_value(t.val) <= i32::MAX {
                Ok((decimal_value(t.val), ts.drop_first()))
            } else {
                Err(Error::Parse(ParseError::BadQuantifierBound))
            }
        } else {
            Err(unexpected(ts))
        },
        _ => Err(unexpected(ts)),
    }
}

/// The word `times` behind the count `count`. The singular `time` is
/// admitted behind the count 1 only. Where the word is not `required`, the
/// production reads nothing if another token stands there.
pub open spec fn parse_times(ts: Seq<Lexeme>, count: int, required: bool) -> Parsed<()> {
    match peek(ts) {
        Lexeme::Token(t) => if t.token_type == TokenType::Quantifier(Quantifiers::Times) {
            if t.val == "time"@ && count != 1 {
                Err(Error::Parse(ParseError::UnexpectedToken))
            } else {
                Ok(((), ts.drop_first()))
            }
        } else if required {
            Err(unexpected(ts))
        } else {
            Ok(((), ts))
        },
        _ => if required {
            Err(unexpected(ts))
        } else {
            Ok(((), ts))
        },
    }
}

/// `n times` behind `exactly` or `at least`.
pub open spec fn parse_count(ts: Seq<Lexeme>) -> Parsed<int> {
    match parse_number(ts) {
        Ok((n, r1)) => match parse_times(r1, n, true) {
            Ok((_, r2)) => Ok((n, r2)),
            Err(e) => Err(e),
        },
        Err(e) => Err(e),
    }
}

/// `m and n`, with `times` or without, behind `between`.
pub open spec fn parse_bounds(ts: Seq<Lexeme>) -> Parsed<(int, int)> {
    match parse_number(ts) {
        Ok((m, r1)) => if peek_kind(r1) == Some(TokenType::Quantifier(Quantifiers::And)) {
            match parse_number(r1.drop_first()) {
                Ok((n, r2)) => if m > n {
                    Err(Error::Parse(ParseError::BadQuantifierBound))
                } else {
                    match parse_times(r2, n, false) {
                        Ok((_, r3)) => Ok(((m, n), r3)),
                        Err(e) => Err(e),
                    }
                },
                Err(e) => Err(e),
            }
        } else {
            Err(unexpected(r1))
        },
        Err(e) => Err(e),
    }
}

/// The quantifier at the start of the stream, if one stands there.
pub open spec fn parse_quantifier(ts: Seq<Lexeme>) -> Parsed<Option<Quantifier>> {
    match peek_kind(ts) {
        Some(TokenType::Quantifier(word)) => match word {
            Quantifiers::Once => Ok((Some(Quantifier::Once), ts.drop_first())),
            Quantifiers::Twice => Ok((Some(Quantifier::Twice), ts.drop_first())),
            Quantifiers::Optional => Ok((Some(Quantifier::Optional), ts.drop_first())),
            Quantifiers::OnceOrMore => Ok((Some(Quantifier::OnceOrMore), ts.drop_first())),
            Quantifiers::NeverOrMore => Ok((Some(Quantifier::NeverOrMore), ts.drop_first())),
            Quantifiers::Exactly => match parse_count(ts.drop_first()) {
                Ok((n, rest)) => Ok((Some(Quantifier::Exactly(n as i32)), rest)),
                Err(e) => Err(e),
            },
            Quantifiers::AtLeast => match parse_count(ts.drop_first()) {
                Ok((n, rest)) => Ok((Some(Quantifier::AtLeast(n as i32)), rest)),
                Err(e) => Err(e),
            },
            Quantifiers::Between => match parse_bounds(ts.drop_first()) {
                Ok(((m, n), rest)) => Ok(
                    (Some(Quantifier::Between { from: m as i32, to: n as i32 }), rest),
                ),
                Err(e) => Err(e),
            },
            _ => Ok((None, ts)),
        },
        _ => Ok((None, ts)),
    }
}

/// The flags at the start of the stream.
pub open spec fn parse_flags(ts: Seq<Lexeme>) -> (Seq<Flags>, Seq<Lexeme>)
    decreases ts.len(),
{
    match peek_kind(ts) {
        Some(TokenType::Flag(f)) => {
            let (flags, rest) = parse_flags(ts.drop_first());
            (seq![f] + flags, rest)
        },
        _ => (Seq::empty(), ts),
    }
}

/// One bound of a range of the class `ty`: a single letter or digit that
/// belongs to the class.
pub open spec fn parse_bound(ts: Seq<Lexeme>, ty: Characters) -> Parsed<char> {
    match peek(ts) {
        Lexeme::Token(t) => if t.token_type is Char || t.token_type is Digit {
            if t.val.len() == 1 && class_admits(ty, t.val[0]) {
                Ok((t.val[0], ts.drop_first()))
            } else {
                Err(Error::Parse(ParseError::BadRange))
            }
        } else {
            Err(unexpected(ts))
        },
        _ => Err(unexpected(ts)),
    }
}

/// The range behind the class word `ty`: `from` a bound `to` a bound, in
/// order, or nothing, which leaves the whole class.
pub open spec fn parse_range(ts: Seq<Lexeme>, ty: Characters) -> Parsed<CharKindView> {
    if peek_kind(ts) == Some(TokenType::Specification(Specifications::From)) {
        match parse_bound(ts.drop_first(), ty) {
            Ok((from, r1)) => if peek_kind(r1) == Some(
                TokenType::Specification(Specifications::To),
            ) {
                match parse_bound(r1.drop_first(), ty) {
                    Ok((to, r2)) => if from <= to {
                        Ok((ty.class_of(Some(from), Some(to)), r2))
                    } else {
                        Err(Error::Parse(ParseError::BadRange))
                    },
                    Err(e) => Err(e),
                }
            } else {
                Err(unexpected(r1))
            },
            Err(e) => Err(e),
        }
    } else {
        Ok((ty.class_of(None, None), ts))
    }
}

/// What follows the atom word `ty`: a string, a range, or nothing.
pub open spec fn parse_atom(ts: Seq<Lexeme>, ty: Characters) -> Parsed<CharKindView> {
    if ty.takes_string() {
        match parse_string(ts) {
            Ok((s, rest)) => Ok((ty.charkind_of(Some(s)), rest)),
            Err(e) => Err(e),
        }
    } else if ty.takes_range() {
        parse_range(ts, ty)
    } else {
        Ok((ty.charkind_of(None), ts))
    }
}

/// What may follow an atom or group: a quantifier, where `quantified`
/// admits one, and then flags.
pub open spec fn parse_modifiers(ts: Seq<Lexeme>, quantified: bool) -> Parsed<
    (Option<Quantifier>, Seq<Flags>),
> {
    if quantified {
        match parse_quantifier(ts) {
            Ok((q, r1)) => {
                let (flags, r2) = parse_flags(r1);
                Ok(((q, flags), r2))
            },
            Err(e) => Err(e),
        }
    } else {
        let (flags, rest) = parse_flags(ts);
        Ok(((None, flags), rest))
    }
}

/// The expression that starts with the atom word `ty`, which has to be the
/// first token: the word, what belongs to it, a quantifier and flags.
pub open spec fn parse_character(ts: Seq<Lexeme>, ty: Characters) -> Parsed<ExprView> {
    if peek_kind(ts) == Some(TokenType::Character(ty)) {
        match parse_atom(ts.drop_first(), ty) {
            Ok((kind, r1)) => match parse_modifiers(r1, true) {
                Ok(((q, flags), r2)) => Ok(
                    (ExprView::Character(CharacterView::CharKind(kind), q, flags), r2),
                ),
                Err(e) => Err(e),
            },
            Err(e) => Err(e),
        }
    } else {
        Err(unexpected(ts))
    }
}

/// A string as the contents of a group: one literal.
pub open spec fn literal(text: Seq<char>) -> ExprView {
    ExprView::Character(
        CharacterView::CharKind(CharKindView::Literally(text)),
        None,
        Seq::empty(),
    )
}

/// An atom as the contents of a group.
pub open spec fn bare(kind: CharKindView) -> ExprView {
    ExprView::Character(CharacterView::CharKind(kind), None, Seq::empty())
}

/// The assertion that a group word stands for, if it stands for one.
pub open spec fn lookaround_of(word: Groups) -> Option<LookAround> {
    match word {
        Groups::IfFollowedBy => Some(LookAround::IfFollowedBy),
        Groups::IfNotFollowedBy => Some(LookAround::IfNotFollowedBy),
        Groups::IfAlreadyHad => Some(LookAround::IfAlreadyHad),
        Groups::IfNotAlreadyHad => Some(LookAround::IfNotAlreadyHad),
        _ => None,
    }
}

/// The name behind the contents of a group: `as` and a string behind
/// `capture`, nothing elsewhere.
pub open spec fn parse_name(ts: Seq<Lexeme>, word: Groups) -> Parsed<Option<Seq<char>>> {
    if word is Capture && peek_kind(ts) == Some(TokenType::Group(Groups::As)) {
        match parse_string(ts.drop_first()) {
            Ok((name, rest)) => Ok((Some(name), rest)),
            Err(e) => Err(e),
        }
    } else {
        Ok((None, ts))
    }
}

/// The group that `word` makes of `inner` and `name`.
pub open spec fn group_of(word: Groups, inner: Seq<ExprView>, name: Option<Seq<char>>) -> GroupView {
    match word {
        Groups::Capture => GroupView::Capture { inner, name },
        Groups::AnyOf => GroupView::AnyOf { inner },
        Groups::Until => GroupView::Until { inner },
        Groups::IfFollowedBy => GroupView::LookAround { kind: LookAround::IfFollowedBy, inner },
        Groups::IfNotFollowedBy => GroupView::LookAround {
            kind: LookAround::IfNotFollowedBy,
            inner,
        },
        Groups::IfAlreadyHad => GroupView::LookAround { kind: LookAround::IfAlreadyHad, inner },
        _ => GroupView::LookAround { kind: LookAround::IfNotAlreadyHad, inner },
    }
}

/// Whether an expression starts with the first token of the stream: with
/// an atom word or with a word that opens a group.
pub open spec fn starts_expr(ts: Seq<Lexeme>) -> bool {
    match peek_kind(ts) {
        Some(TokenType::Character(_)) => true,
        Some(kind) => kind.opens_group(),
        None => false,
    }
}

/// The contents of the group that `word` opens: a string that is not
/// empty, expressions between brackets, at least one, or, behind a word
/// that stands for an assertion, a single atom.
pub open spec fn parse_inner(ts: Seq<Lexeme>, word: Groups) -> Parsed<Seq<ExprView>>
    decreases ts.len(), 0int,
{
    match peek_kind(ts) {
        Some(TokenType::String) => match parse_string(ts) {
            Ok((text, rest)) => if text.len() == 0 {
                Err(Error::Parse(ParseError::EmptyGroup))
            } else {
                Ok((seq![literal(text)], rest))
            },
            Err(e) => Err(e),
        },
        Some(TokenType::Group(Groups::GroupStart)) => match parse_sequence(ts.drop_first()) {
            Ok((inner, rest)) => if peek_kind(rest) == Some(TokenType::Group(Groups::GroupEnd)) {
                if inner.len() == 0 {
                    Err(Error::Parse(ParseError::EmptyGroup))
                } else {
                    Ok((inner, rest.drop_first()))
                }
            } else {
                Err(unexpected(rest))
            },
            Err(e) => Err(e),
        },
        Some(TokenType::Character(ty)) => if lookaround_of(word) is Some {
            match parse_atom(ts.drop_first(), ty) {
                Ok((kind, rest)) => Ok((seq![bare(kind)], rest)),
                Err(e) => Err(e),
            }
        } else {
            Err(unexpected(ts))
        },
        _ => Err(unexpected(ts)),
    }
}

/// The expression that starts with a word that opens a group: the word,
/// the contents, behind `capture` a name, and what may follow. A
/// quantifier may follow `capture` and `any of` only.
pub open spec fn parse_group(ts: Seq<Lexeme>) -> Parsed<ExprView>
    decreases ts.len(), 1int,
{
    match peek_kind(ts) {
        Some(TokenType::Group(word)) => if TokenType::Group(word).opens_group() {
            match parse_inner(ts.drop_first(), word) {
                Ok((inner, r1)) => match parse_name(r1, word) {
                    Ok((name, r2)) => match parse_modifiers(r2, word is Capture || word is AnyOf) {
                        Ok(((q, flags), r3)) => Ok(
                            (
                                ExprView::Character(
                                    CharacterView::Group(group_of(word, inner, name)),
                                    q,
                                    flags,
                                ),
                                r3,
                            ),
                        ),
                        Err(e) => Err(e),
                    },
                    Err(e) => Err(e),
                },
                Err(e) => Err(e),
            }
        } else {
            Err(unexpected(ts))
        },
        _ => Err(unexpected(ts)),
    }
}

/// One expression: an atom or a group with what follows it.
pub open spec fn parse_expr(ts: Seq<Lexeme>) -> Parsed<ExprView>
    decreases ts.len(), 2int,
{
    match peek_kind(ts) {
        Some(TokenType::Character(ty)) => parse_character(ts, ty),
        Some(TokenType::Group(_)) => parse_group(ts),
        _ => Err(unexpected(ts)),
    }
}

/// The expressions at the start of the stream, as many as there are.
pub open spec fn parse_sequence(ts: Seq<Lexeme>) -> Parsed<Seq<ExprView>>
    decreases ts.len(), 3int,
{
    if starts_expr(ts) {
        match parse_expr(ts) {
            Ok((first, r1)) => if r1.len() < ts.len() {
                match parse_sequence(r1) {
                    Ok((others, r2)) => Ok((seq![first] + others, r2)),
                    Err(e) => Err(e),
                }
            } else {
                Ok((seq![first], r1))
            },
            Err(e) => Err(e),
        }
    } else {
        Ok((Seq::empty(), ts))
    }
}

/// A whole pattern: `begin with` or nothing, expressions, `must end` or
/// nothing, and the end of the input.
pub open spec fn parse_pattern(ts: Seq<Lexeme>) -> Result<Seq<ExprView>, Error> {
    let begins = peek_kind(ts) == Some(TokenType::Anchor(Anchors::BeginWith));
    let r0 = if begins {
        ts.drop_first()
    } else {
        ts
    };
    match parse_sequence(r0) {
        Ok((exprs, r1)) => {
            let ends = peek_kind(r1) == Some(TokenType::Anchor(Anchors::MustEnd));
            let r2 = if ends {
                r1.drop_first()
            } else {
                r1
            };
            if peek_kind(r2) == Some(TokenType::EndOfFile) {
                Ok(
                    (if begins {
                        seq![ExprView::Anchor(Anchors::BeginWith)]
                    } else {
                        Seq::empty()
                    }) + exprs + (if ends {
                        seq![ExprView::Anchor(Anchors::MustEnd)]
                    } else {
                        Seq::empty()
                    }),
                )
            } else {
                Err(unexpected(r2))
            }
        },
        Err(e) => Err(e),
    }
}

/// The value of a sequence of digits is not negative, and not less than
/// the value of its beginnings.
pub proof fn lemma_decimal_value(digits: Seq<char>, n: int)
    requires
        0 <= n <= digits.len(),
    ensures
        0 <= decimal_value(digits.take(n)) <= decimal_value(digits),
    decreases digits.len() - n,
{
    lemma_decimal_value_bound(digits.take(n));
    if n < digits.len() {
        lemma_decimal_value(digits, n + 1);
        assert(digits.take(n + 1).drop_last() =~= digits.take(n));
        lemma_decimal_value_bound(digits.take(n + 1));
    } else {
        assert(digits.take(n) =~= digits);
    }
}

proof fn lemma_decimal_value_bound(digits: Seq<char>)
    ensures
        0 <= decimal_value(digits),
    decreases digits.len(),
{
    if digits.len() > 0 {
        lemma_decimal_value_bound(digits.drop_last());
    }
}

/// What the simple productions leave behind is no longer than what they
/// were given.
pub proof fn lemma_flags_shorten(ts: Seq<Lexeme>)
    ensures
        parse_flags(ts).1.len() <= ts.len(),
    decreases ts.len(),
{
    if let Some(TokenType::Flag(_)) = peek_kind(ts) {
        lemma_flags_shorten(ts.drop_first());
    }
}

/// What a quantifier leaves behind is no longer than what it was given.
pub proof fn lemma_quantifier_shortens(ts: Seq<Lexeme>)
    ensures
        parse_quantifier(ts) matches Ok((_, rest)) ==> rest.len() <= ts.len(),
{
}

/// What follows an atom word leaves no more behind than it was given.
pub proof fn lemma_atom_shortens(ts: Seq<Lexeme>, ty: Characters)
    ensures
        parse_atom(ts, ty) matches Ok((_, rest)) ==> rest.len() <= ts.len(),
{
}

/// What may follow an atom or group leaves no more behind than it was
/// given.
pub proof fn lemma_modifiers_shorten(ts: Seq<Lexeme>, quantified: bool)
    ensures
        parse_modifiers(ts, quantified) matches Ok((_, rest)) ==> rest.len() <= ts.len(),
{
    lemma_quantifier_shortens(ts);
    lemma_flags_shorten(ts);
    if let Ok((_, r1)) = parse_quantifier(ts) {
        lemma_flags_shorten(r1);
    }
}

/// An expression takes at least one token, and a sequence of expressions
/// leaves no more behind than it was given.
pub proof fn lemma_expr_shortens(ts: Seq<Lexeme>)
    ensures
        parse_expr(ts) matches Ok((_, rest)) ==> rest.len() < ts.len(),
    decreases ts.len(), 2int,
{
    match peek_kind(ts) {
        Some(TokenType::Character(ty)) => {
            lemma_atom_shortens(ts.drop_first(), ty);
            if let Ok((_, r1)) = parse_atom(ts.drop_first(), ty) {
                lemma_modifiers_shorten(r1, true);
            }
        },
        Some(TokenType::Group(word)) => {
            if TokenType::Group(word).opens_group() {
                lemma_inner_shortens(ts.drop_first(), word);
                if let Ok((_, r1)) = parse_inner(ts.drop_first(), word) {
                    if let Ok((_, r2)) = parse_name(r1, word) {
                        lemma_modifiers_shorten(r2, word is Capture || word is AnyOf);
                    }
                }
            }
        },
        _ => {},
    }
}

/// The contents of a group leave no more behind than they were given.
pub proof fn lemma_inner_shortens(ts: Seq<Lexeme>, word: Groups)
    ensures
        parse_inner(ts, word) matches Ok((_, rest)) ==> rest.len() <= ts.len(),
    decreases ts.len(), 0int,
{
    match peek_kind(ts) {
        Some(TokenType::Group(Groups::GroupStart)) => {
            lemma_sequence_shortens(ts.drop_first());
        },
        Some(TokenType::Character(ty)) => {
            lemma_atom_shortens(ts.drop_first(), ty);
        },
        _ => {},
    }
}

/// A sequence of expressions leaves no more behind than it was given.
pub proof fn lemma_sequence_shortens(ts: Seq<Lexeme>)
    ensures
        parse_sequence(ts) matches Ok((_, rest)) ==> rest.len() <= ts.len(),
    decreases ts.len(), 3int,
{
    if starts_expr(ts) {
        lemma_expr_shortens(ts);
        if let Ok((_, r1)) = parse_expr(ts) {
            lemma_sequence_shortens(r1);
        }
    }
}

} // verus!
