//! The law of the anchors: `begin with` is read only as the first element
//! of a pattern and `must end` only as the last.
//!
//! The proof compares the stream with the stream that ends where the
//! anchor stands. No production can tell an anchor from the end of the
//! input, except that the one is an unexpected token where the other is an
//! unexpected end.

use vstd::prelude::*;
use crate::ast::ExprView;
use crate::grammar::eof_token;
use crate::scan::{is_eof, lemma_stream_shape, tokens_of, Lexeme, State};
use crate::syntax::{
    lemma_expr_shortens, parse_atom, parse_bound, parse_bounds, parse_character, parse_count, parse_expr, parse_flags,
    parse_group, parse_inner, parse_modifiers, parse_name, parse_number, parse_pattern,
    parse_quantifier, parse_range, parse_sequence, parse_string, parse_times, peek_kind,
    unexpected, Error, ParseError, Parsed,
};
use crate::token::{Anchors, Characters, Groups, Quantifiers, TokenType};
use crate::translation;

verus! {

/// An anchor token.
pub open spec fn is_anchor(x: Lexeme) -> bool {
    x matches Lexeme::Token(t) && t.token_type is Anchor
}

/// A token that does not end the input.
pub open spec fn is_inner_token(x: Lexeme) -> bool {
    x matches Lexeme::Token(t) && !(t.token_type is EndOfFile)
}

/// The stream `cut` is the stream `s` up to one of its anchors, where it
/// has the end of the input instead. No end of input stands before that
/// place, and if the anchor is `must end`, a further token follows it.
pub open spec fn cut_at_anchor(s: Seq<Lexeme>, cut: Seq<Lexeme>) -> bool
    decreases s.len(),
{
    s.len() > 0 && cut.len() > 0 && if is_anchor(s[0]) && is_eof(cut[0]) {
        peek_kind(s) == Some(TokenType::Anchor(Anchors::MustEnd)) ==> s.len() > 1
            && is_inner_token(s[1])
    } else {
        s[0] == cut[0] && !is_eof(s[0]) && cut_at_anchor(s.drop_first(), cut.drop_first())
    }
}

/// What a production gives on the stream and on the cut stream is alike:
/// the same value with what is left cut at the same anchor, or the same
/// error, or an unexpected token where the cut stream ends unexpectedly.
pub open spec fn alike<T>(r: Parsed<T>, c: Parsed<T>) -> bool {
    match (r, c) {
        (Ok((v, rest)), Ok((w, crest))) => v == w && cut_at_anchor(rest, crest),
        (Err(e), Err(f)) => e == f || (e == Error::Parse(ParseError::UnexpectedToken) && f
            == Error::Parse(ParseError::UnexpectedEnd)),
        _ => false,
    }
}

proof fn lemma_string_alike(s: Seq<Lexeme>, c: Seq<Lexeme>)
    requires
        cut_at_anchor(s, c),
    ensures
        alike(parse_string(s), parse_string(c)),
{
}

proof fn lemma_number_alike(s: Seq<Lexeme>, c: Seq<Lexeme>)
    requires
        cut_at_anchor(s, c),
    ensures
        alike(parse_number(s), parse_number(c)),
{
}

proof fn lemma_times_alike(s: Seq<Lexeme>, c: Seq<Lexeme>, count: int, required: bool)
    requires
        cut_at_anchor(s, c),
    ensures
        alike(parse_times(s, count, required), parse_times(c, count, required)),
{
}

proof fn lemma_count_alike(s: Seq<Lexeme>, c: Seq<Lexeme>)
    requires
        cut_at_anchor(s, c),
    ensures
        alike(parse_count(s), parse_count(c)),
{
    lemma_number_alike(s, c);
    if let (Ok((n, r1)), Ok((_, c1))) = (parse_number(s), parse_number(c)) {
        lemma_times_alike(r1, c1, n, true);
    }
}

proof fn lemma_bounds_alike(s: Seq<Lexeme>, c: Seq<Lexeme>)
    requires
        cut_at_anchor(s, c),
    ensures
        alike(parse_bounds(s), parse_bounds(c)),
{
    lemma_number_alike(s, c);
    if let (Ok((m, r1)), Ok((_, c1))) = (parse_number(s), parse_number(c)) {
        if peek_kind(r1) == Some(TokenType::Quantifier(Quantifiers::And)) {
            lemma_number_alike(r1.drop_first(), c1.drop_first());
            if let (Ok((n, r2)), Ok((_, c2))) = (
                parse_number(r1.drop_first()),
                parse_number(c1.drop_first()),
            ) {
                lemma_times_alike(r2, c2, n, false);
            }
        }
    }
}

proof fn lemma_quantifier_alike(s: Seq<Lexeme>, c: Seq<Lexeme>)
    requires
        cut_at_anchor(s, c),
    ensures
        alike(parse_quantifier(s), parse_quantifier(c)),
{
    if s[0] == c[0] {
        lemma_count_alike(s.drop_first(), c.drop_first());
        lemma_bounds_alike(s.drop_first(), c.drop_first());
    }
}

proof fn lemma_flags_alike(s: Seq<Lexeme>, c: Seq<Lexeme>)
    requires
        cut_at_anchor(s, c),
    ensures
        parse_flags(s).0 == parse_flags(c).0,
        cut_at_anchor(parse_flags(s).1, parse_flags(c).1),
    decreases s.len(),
{
    if let Some(TokenType::Flag(_)) = peek_kind(s) {
        lemma_flags_alike(s.drop_first(), c.drop_first());
    }
}

proof fn lemma_bound_alike(s: Seq<Lexeme>, c: Seq<Lexeme>, ty: Characters)
    requires
        cut_at_anchor(s, c),
    ensures
        alike(parse_bound(s, ty), parse_bound(c, ty)),
{
}

proof fn lemma_range_alike(s: Seq<Lexeme>, c: Seq<Lexeme>, ty: Characters)
    requires
        cut_at_anchor(s, c),
    ensures
        alike(parse_range(s, ty), parse_range(c, ty)),
{
    if s[0] == c[0] {
        lemma_bound_alike(s.drop_first(), c.drop_first(), ty);
        if let (Ok((_, r1)), Ok((_, c1))) = (
            parse_bound(s.drop_first(), ty),
            parse_bound(c.drop_first(), ty),
        ) {
            if r1[0] == c1[0] {
                lemma_bound_alike(r1.drop_first(), c1.drop_first(), ty);
            }
        }
    }
}

proof fn lemma_atom_alike(s: Seq<Lexeme>, c: Seq<Lexeme>, ty: Characters)
    requires
        cut_at_anchor(s, c),
    ensures
        alike(parse_atom(s, ty), parse_atom(c, ty)),
{
    lemma_string_alike(s, c);
    lemma_range_alike(s, c, ty);
}

proof fn lemma_modifiers_alike(s: Seq<Lexeme>, c: Seq<Lexeme>, quantified: bool)
    requires
        cut_at_anchor(s, c),
    ensures
        alike(parse_modifiers(s, quantified), parse_modifiers(c, quantified)),
{
    lemma_flags_alike(s, c);
    lemma_quantifier_alike(s, c);
    if let (Ok((_, r1)), Ok((_, c1))) = (parse_quantifier(s), parse_quantifier(c)) {
        lemma_flags_alike(r1, c1);
    }
}

proof fn lemma_character_alike(s: Seq<Lexeme>, c: Seq<Lexeme>, ty: Characters)
    requires
        cut_at_anchor(s, c),
    ensures
        alike(parse_character(s, ty), parse_character(c, ty)),
{
    if s[0] == c[0] {
        lemma_atom_alike(s.drop_first(), c.drop_first(), ty);
        if let (Ok((_, r1)), Ok((_, c1))) = (
            parse_atom(s.drop_first(), ty),
            parse_atom(c.drop_first(), ty),
        ) {
            lemma_modifiers_alike(r1, c1, true);
        }
    }
}

proof fn lemma_name_alike(s: Seq<Lexeme>, c: Seq<Lexeme>, word: Groups)
    requires
        cut_at_anchor(s, c),
    ensures
        alike(parse_name(s, word), parse_name(c, word)),
{
    if s[0] == c[0] {
        lemma_string_alike(s.drop_first(), c.drop_first());
    }
}

proof fn lemma_inner_alike(s: Seq<Lexeme>, c: Seq<Lexeme>, word: Groups)
    requires
        cut_at_anchor(s, c),
    ensures
        alike(parse_inner(s, word), parse_inner(c, word)),
    decreases s.len(), 0int,
{
    if s[0] == c[0] {
        match peek_kind(s) {
            Some(TokenType::String) => {
                lemma_string_alike(s, c);
            },
            Some(TokenType::Group(Groups::GroupStart)) => {
                lemma_sequence_alike(s.drop_first(), c.drop_first());
            },
            Some(TokenType::Character(ty)) => {
                lemma_atom_alike(s.drop_first(), c.drop_first(), ty);
            },
            _ => {},
        }
    }
}

proof fn lemma_group_alike(s: Seq<Lexeme>, c: Seq<Lexeme>)
    requires
        cut_at_anchor(s, c),
    ensures
        alike(parse_group(s), parse_group(c)),
    decreases s.len(), 1int,
{
    if s[0] == c[0] {
        if let Some(TokenType::Group(word)) = peek_kind(s) {
            if TokenType::Group(word).opens_group() {
                lemma_inner_alike(s.drop_first(), c.drop_first(), word);
                if let (Ok((_, r1)), Ok((_, c1))) = (
                    parse_inner(s.drop_first(), word),
                    parse_inner(c.drop_first(), word),
                ) {
                    lemma_name_alike(r1, c1, word);
                    if let (Ok((_, r2)), Ok((_, c2))) = (parse_name(r1, word), parse_name(c1, word)) {
                        lemma_modifiers_alike(r2, c2, word is Capture || word is AnyOf);
                    }
                }
            }
        }
    }
}

proof fn lemma_expr_alike(s: Seq<Lexeme>, c: Seq<Lexeme>)
    requires
        cut_at_anchor(s, c),
    ensures
        alike(parse_expr(s), parse_expr(c)),
    decreases s.len(), 2int,
{
    if s[0] == c[0] {
        match peek_kind(s) {
            Some(TokenType::Character(ty)) => {
                lemma_character_alike(s, c, ty);
            },
            Some(TokenType::Group(_)) => {
                lemma_group_alike(s, c);
            },
            _ => {},
        }
    }
}

proof fn lemma_sequence_alike(s: Seq<Lexeme>, c: Seq<Lexeme>)
    requires
        cut_at_anchor(s, c),
    ensures
        alike(parse_sequence(s), parse_sequence(c)),
    decreases s.len(), 3int,
{
    if s[0] == c[0] {
        lemma_expr_alike(s, c);
        if let (Ok((_, r1)), Ok((_, c1))) = (parse_expr(s), parse_expr(c)) {
            lemma_expr_shortens(s);
            lemma_expr_shortens(c);
            lemma_sequence_alike(r1, c1);
        }
    }
}

/// A stream with an anchor out of place is no pattern, whatever stands
/// before the anchor: reading it ends in the error that reading the cut
/// stream ends in, or in `UnexpectedToken`.
proof fn lemma_pattern_alike(s: Seq<Lexeme>, c: Seq<Lexeme>)
    requires
        cut_at_anchor(s, c),
        !(is_eof(c[0]) && peek_kind(s) == Some(TokenType::Anchor(Anchors::BeginWith))),
    ensures
        parse_pattern(s) is Err,
        parse_pattern(s) == Err::<Seq<ExprView>, Error>(
            Error::Parse(ParseError::UnexpectedToken),
        ) || parse_pattern(s) == parse_pattern(c),
{
    let begins = peek_kind(s) == Some(TokenType::Anchor(Anchors::BeginWith));
    let s0 = if begins { s.drop_first() } else { s };
    let c0 = if begins { c.drop_first() } else { c };
    lemma_sequence_alike(s0, c0);
    if let (Ok((_, r1)), Ok((_, c1))) = (parse_sequence(s0), parse_sequence(c0)) {
        let ends = peek_kind(r1) == Some(TokenType::Anchor(Anchors::MustEnd));
        if ends && r1[0] == c1[0] {
            let r2 = r1.drop_first();
            let c2 = c1.drop_first();
            assert(cut_at_anchor(r2, c2));
        }
    }
}

/// A stream cut at `n`, where an anchor stands that is out of place, is
/// cut at that anchor.
proof fn lemma_cut(ts: Seq<Lexeme>, n: int, k: int)
    requires
        0 <= k <= n < ts.len(),
        forall|j: int| 0 <= j < n ==> !is_eof(#[trigger] ts[j]),
        is_anchor(ts[n]),
        peek_kind(ts.skip(n)) == Some(TokenType::Anchor(Anchors::MustEnd)) ==> n + 1 < ts.len()
            && is_inner_token(ts[n + 1]),
    ensures
        cut_at_anchor(ts.skip(k), ts.take(n).push(Lexeme::Token(eof_token())).skip(k)),
    decreases n - k,
{
    let cut = ts.take(n).push(Lexeme::Token(eof_token()));
    if k < n {
        lemma_cut(ts, n, k + 1);
        assert(ts.skip(k).drop_first() =~= ts.skip(k + 1));
        assert(cut.skip(k).drop_first() =~= cut.skip(k + 1));
    }
}

/// Anchor placement. `begin with` is read only as the first element of a
/// pattern, and `must end` only as the last one, which the end of the input
/// follows. A stream that holds an anchor at any other place `n`, before
/// its end, is no pattern. The error is `UnexpectedToken`, unless reading
/// fails before it reaches the anchor: then it is the error that the stream
/// gives when it ends at `n`.
pub proof fn lemma_anchor_out_of_place(ts: Seq<Lexeme>, n: int)
    requires
        0 <= n < ts.len(),
        forall|j: int| 0 <= j < n ==> !is_eof(#[trigger] ts[j]),
        ts[n] matches Lexeme::Token(t) && match t.token_type {
            TokenType::Anchor(Anchors::BeginWith) => n > 0,
            TokenType::Anchor(Anchors::MustEnd) => n + 1 < ts.len() && is_inner_token(ts[n + 1]),
            _ => false,
        },
    ensures
        parse_pattern(ts) is Err,
        parse_pattern(ts) == Err::<Seq<ExprView>, Error>(
            Error::Parse(ParseError::UnexpectedToken),
        ) || parse_pattern(ts) == parse_pattern(ts.take(n).push(Lexeme::Token(eof_token()))),
{
    let cut = ts.take(n).push(Lexeme::Token(eof_token()));
    lemma_cut(ts, n, 0);
    assert(ts.skip(0) =~= ts);
    assert(cut.skip(0) =~= cut);
    lemma_pattern_alike(ts, cut);
}

/// Anchor placement in a source text. A text whose tokens hold
/// `begin with` at another place than the first, or `must end` before
/// another token than the end of the input, has no translation.
pub proof fn lemma_anchor_out_of_place_in_source(source: Seq<char>, n: int)
    requires
        0 <= n < tokens_of(source).len(),
        tokens_of(source)[n] matches Lexeme::Token(t) && match t.token_type {
            TokenType::Anchor(Anchors::BeginWith) => n > 0,
            TokenType::Anchor(Anchors::MustEnd) => n + 1 < tokens_of(source).len()
                && is_inner_token(tokens_of(source)[n + 1]),
            _ => false,
        },
    ensures
        translation(source) is Err,
        translation(source) == Err::<Seq<char>, Error>(Error::Parse(ParseError::UnexpectedToken))
            || (translation(source) matches Err(e) && parse_pattern(
            tokens_of(source).take(n).push(Lexeme::Token(eof_token())),
        ) == Err::<Seq<ExprView>, Error>(e)),
{
    lemma_stream_shape(source, 0, State::Start);
    lemma_anchor_out_of_place(tokens_of(source), n);
}

} // verus!
