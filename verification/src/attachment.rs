//! The law of the quantifier: a quantifier behind an atom belongs to that
//! atom.

use vstd::prelude::*;
use crate::ast::{CharKindView, CharacterView, ExprView, Quantifier};
use crate::builder::{decimal, digit_char};
use crate::grammar::eof_token;
use crate::scan::Lexeme;
use crate::syntax::{
    decimal_value, parse_atom, parse_expr, parse_pattern, parse_quantifier, parse_sequence,
    peek_kind, Error,
};
use crate::token::{Characters, Quantifiers, Specifications, TokenType, TokenView};

verus! {

/// A token of the kind `kind`, whatever its text.
pub open spec fn is_word(x: Lexeme, kind: TokenType) -> bool {
    x matches Lexeme::Token(t) && t.token_type == kind
}

/// The token of the kind `kind` with the text `text`.
pub open spec fn is_value(x: Lexeme, kind: TokenType, text: Seq<char>) -> bool {
    x == Lexeme::Token(TokenView { val: text, token_type: kind })
}

/// A number token whose digits denote `n`.
pub open spec fn is_count(x: Lexeme, n: int) -> bool {
    x matches Lexeme::Token(t) && t.token_type is Number && decimal_value(t.val) == n
}

/// The word `times`, or the word `time` behind the count 1.
pub open spec fn is_times(x: Lexeme, n: int) -> bool {
    x matches Lexeme::Token(t) && t.token_type == TokenType::Quantifier(Quantifiers::Times) && (
    t.val == "time"@ ==> n == 1)
}

/// The word of an atom.
pub open spec fn atom_word(kind: CharKindView) -> Characters {
    match kind {
        CharKindView::Literally(_) => Characters::Literally,
        CharKindView::OneOf(_) => Characters::OneOf,
        CharKindView::Raw(_) => Characters::Raw,
        CharKindView::Letter { .. } => Characters::Letter,
        CharKindView::UppercaseLetter { .. } => Characters::UppercaseLetter,
        CharKindView::Digit { .. } => Characters::Digit,
        CharKindView::AnyCharacter => Characters::AnyCharacter,
        CharKindView::NoCharacter => Characters::NoCharacter,
        CharKindView::Anything => Characters::Anything,
        CharKindView::NewLine => Characters::NewLine,
        CharKindView::Whitespace => Characters::Whitespace,
        CharKindView::NoWhitespace => Characters::NoWhitespace,
        CharKindView::Tab => Characters::Tab,
    }
}

/// The tokens `from`, a bound, `to`, a bound behind the word of a class.
pub open spec fn spells_range(ts: Seq<Lexeme>, bound: TokenType, from: char, to: char) -> bool {
    &&& ts.len() == 5
    &&& is_word(ts[1], TokenType::Specification(Specifications::From))
    &&& is_value(ts[2], bound, seq![from])
    &&& is_word(ts[3], TokenType::Specification(Specifications::To))
    &&& is_value(ts[4], bound, seq![to])
}

/// The tokens `ts` spell the atom `kind`: its word, and behind it the
/// string of a text, or the range of a class. The word of a class alone
/// spells the whole class.
pub open spec fn spells_atom(ts: Seq<Lexeme>, kind: CharKindView) -> bool {
    &&& ts.len() > 0
    &&& is_word(ts[0], TokenType::Character(atom_word(kind)))
    &&& match kind {
        CharKindView::Literally(text) => ts.len() == 2 && is_value(ts[1], TokenType::String, text),
        CharKindView::OneOf(text) => ts.len() == 2 && is_value(ts[1], TokenType::String, text),
        CharKindView::Raw(text) => ts.len() == 2 && is_value(ts[1], TokenType::String, text),
        CharKindView::Letter { from, to } => spells_range(ts, TokenType::Char, from, to) || (
        ts.len() == 1 && from == 'a' && to == 'z'),
        CharKindView::UppercaseLetter { from, to } => spells_range(ts, TokenType::Char, from, to)
            || (ts.len() == 1 && from == 'A' && to == 'Z'),
        CharKindView::Digit { from, to } => spells_range(
            ts,
            TokenType::Digit,
            digit_char(from),
            digit_char(to),
        ) || (ts.len() == 1 && from == 0 && to == 9),
        _ => ts.len() == 1,
    }
}

/// The tokens `ts` spell the quantifier `q`: its word, and behind
/// `exactly` and `at least` a count and `times`, behind `between` two
/// counts with `and` between them and `times` behind them.
pub open spec fn spells_quantifier(ts: Seq<Lexeme>, q: Quantifier) -> bool {
    &&& ts.len() > 0
    &&& match q {
        Quantifier::Once => ts.len() == 1 && is_word(ts[0], TokenType::Quantifier(Quantifiers::Once)),
        Quantifier::Twice => ts.len() == 1 && is_word(
            ts[0],
            TokenType::Quantifier(Quantifiers::Twice),
        ),
        Quantifier::Optional => ts.len() == 1 && is_word(
            ts[0],
            TokenType::Quantifier(Quantifiers::Optional),
        ),
        Quantifier::OnceOrMore => ts.len() == 1 && is_word(
            ts[0],
            TokenType::Quantifier(Quantifiers::OnceOrMore),
        ),
        Quantifier::NeverOrMore => ts.len() == 1 && is_word(
            ts[0],
            TokenType::Quantifier(Quantifiers::NeverOrMore),
        ),
        Quantifier::Exactly(n) => {
            &&& ts.len() == 3
            &&& is_word(ts[0], TokenType::Quantifier(Quantifiers::Exactly))
            &&& is_count(ts[1], n as int)
            &&& is_times(ts[2], n as int)
        },
        Quantifier::AtLeast(n) => {
            &&& ts.len() == 3
            &&& is_word(ts[0], TokenType::Quantifier(Quantifiers::AtLeast))
            &&& is_count(ts[1], n as int)
            &&& is_times(ts[2], n as int)
        },
        Quantifier::Between { from, to } => {
            &&& ts.len() == 5
            &&& is_word(ts[0], TokenType::Quantifier(Quantifiers::Between))
            &&& is_count(ts[1], from as int)
            &&& is_word(ts[2], TokenType::Quantifier(Quantifiers::And))
            &&& is_count(ts[3], to as int)
            &&& is_times(ts[4], to as int)
        },
    }
}

/// A count is read as it is written: the digits that the emitter writes
/// for a number denote that number.
pub proof fn lemma_decimal_is_read(n: int)
    requires
        n >= 0,
    ensures
        decimal_value(decimal(n)) == n,
        decimal(n).len() > 0,
    decreases n,
{
    if n >= 10 {
        lemma_decimal_is_read(n / 10);
        assert(decimal(n).drop_last() =~= decimal(n / 10));
    } else {
        assert(decimal(n).drop_last() =~= Seq::<char>::empty());
        assert(decimal_value(Seq::<char>::empty()) == 0);
    }
}

/// The tokens behind the word of an atom are read as that atom.
proof fn lemma_atom_is_read(atom: Seq<Lexeme>, kind: CharKindView, rest: Seq<Lexeme>)
    requires
        spells_atom(atom, kind),
        kind.wf(),
        peek_kind(rest) != Some(TokenType::Specification(Specifications::From)),
    ensures
        parse_atom(atom.drop_first() + rest, atom_word(kind)) == Ok::<
            (CharKindView, Seq<Lexeme>),
            Error,
        >((kind, rest)),
{
    let ts = atom.drop_first() + rest;
    if atom.len() == 2 {
        assert(ts.drop_first() =~= rest);
    } else if atom.len() > 2 {
        let t1 = ts.drop_first();
        let t2 = t1.drop_first();
        let t3 = t2.drop_first();
        assert(t3.drop_first() =~= rest);
    }
}

/// The tokens of a quantifier are read as that quantifier.
proof fn lemma_quantifier_is_read(quantifier: Seq<Lexeme>, q: Quantifier, rest: Seq<Lexeme>)
    requires
        spells_quantifier(quantifier, q),
        q.wf(),
    ensures
        parse_quantifier(quantifier + rest) == Ok::<(Option<Quantifier>, Seq<Lexeme>), Error>(
            (Some(q), rest),
        ),
{
    let ts = quantifier + rest;
    let t1 = ts.drop_first();
    if quantifier.len() == 1 {
        assert(t1 =~= rest);
    } else if quantifier.len() == 3 {
        let t2 = t1.drop_first();
        assert(t2.drop_first() =~= rest);
    } else {
        let t2 = t1.drop_first();
        let t3 = t2.drop_first();
        let t4 = t3.drop_first();
        assert(t4.drop_first() =~= rest);
    }
}

/// Quantifier attachment. Where `atom` are the tokens of an atom and
/// `quantifier` those of a quantifier, the input that holds the one behind
/// the other and nothing else is read as one expression: that atom with
/// that quantifier and no flags.
pub proof fn lemma_quantifier_attaches(
    atom: Seq<Lexeme>,
    kind: CharKindView,
    quantifier: Seq<Lexeme>,
    q: Quantifier,
)
    requires
        spells_atom(atom, kind),
        kind.wf(),
        spells_quantifier(quantifier, q),
        q.wf(),
    ensures
        parse_pattern(atom + quantifier + seq![Lexeme::Token(eof_token())]) == Ok::<
            Seq<ExprView>,
            Error,
        >(seq![ExprView::Character(CharacterView::CharKind(kind), Some(q), Seq::empty())]),
{
    let end = seq![Lexeme::Token(eof_token())];
    let ts = atom + quantifier + end;
    let node = ExprView::Character(CharacterView::CharKind(kind), Some(q), Seq::empty());
    assert(ts.drop_first() =~= atom.drop_first() + (quantifier + end));
    lemma_atom_is_read(atom, kind, quantifier + end);
    lemma_quantifier_is_read(quantifier, q, end);
    assert(parse_expr(ts) == Ok::<(ExprView, Seq<Lexeme>), Error>((node, end)));
    assert(parse_sequence(end) == Ok::<(Seq<ExprView>, Seq<Lexeme>), Error>((Seq::empty(), end)));
    assert(parse_sequence(ts) == Ok::<(Seq<ExprView>, Seq<Lexeme>), Error>(
        (seq![node] + Seq::empty(), end),
    ));
    assert(Seq::<ExprView>::empty() + (seq![node] + Seq::empty()) + Seq::<ExprView>::empty()
        =~= seq![node]);
}

} // verus!
