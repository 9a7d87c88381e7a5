//! The parser: reads the tokens of a lexer as a pattern, looking one token
//! ahead.

use vstd::prelude::*;
use vstd::pervasive::unreached;
use vstd::string::StrSliceExecFns;
use crate::ast::{
    all_wf, expr_view, exprs_view, lemma_all_wf, lemma_exprs_view, lemma_exprs_view_push,
    pattern_wf, CharKind, Character, Expr, ExprView, Group, LookAround, Quantifier,
};
use crate::grammar::same_text;
use crate::lexer::Lexer;
use crate::scan::{scan, Lexeme};
use crate::srlchar::digit;
use crate::syntax::{
    class_admits, decimal_value, lemma_decimal_value, lemma_expr_shortens,
    parse_atom, parse_bound, parse_bounds, parse_character, parse_count, parse_expr, parse_flags,
    parse_group, parse_inner, parse_modifiers, parse_name, parse_number, parse_pattern,
    parse_quantifier, parse_range, parse_sequence, parse_string, parse_times, peek, peek_kind,
    unexpected, Error, ParseError,
};
use crate::text::chars_of;
use crate::token::{
    Anchors, Characters, Flags, Groups, Quantifiers, Specifications, Token, TokenType,
};

verus! {

/// The parser: a lexer and the token that it handed out last, which is the
/// one token that the parser looks ahead.
pub struct Parser {
    lexer: Lexer,
    curr_tk: Option<Token>,
}

/// The stream that a parser reads from `lexer`: the error that the lexer
/// holds, or the tokens that it has still to hand out.
pub open spec fn stream_of(lexer: Lexer) -> Seq<Lexeme> {
    match lexer.failure() {
        Some(e) => seq![Lexeme::Error(e)],
        None => lexer.remaining(),
    }
}

/// One step of the lexer takes the first element off the stream that is
/// still to come: the token that it hands out, or the error that it keeps.
proof fn lemma_lexer_step(before: Lexer, after: Lexer, token: Option<Token>)
    requires
        before.inv(),
        match scan(before.source(), before.position(), before.state()) {
            Some(outcome) => after.follows(&before, outcome, token),
            None => token is None && after == before,
        },
    ensures
        after.inv(),
        token is Some ==> after.failure() is None,
        stream_of(before) == match token {
            Some(t) => seq![Lexeme::Token(t@)] + after.remaining(),
            None => match after.failure() {
                Some(e) => seq![Lexeme::Error(e)],
                None => Seq::empty(),
            },
        },
{
}

/// The number that the digits of a count denote, if it fits.
pub fn number_value(digits: &str) -> (value: Option<i32>)
    ensures
        match value {
            Some(n) => n == decimal_value(digits@),
            None => decimal_value(digits@) > i32::MAX,
        },
{
    let chars = chars_of(digits);
    let mut acc: i32 = 0;
    let mut i: usize = 0;
    proof {
        lemma_decimal_value(chars@, 0);
    }
    while i < chars.len()
        invariant
            i <= chars.len(),
            chars@ == digits@,
            0 <= acc,
            acc == decimal_value(chars@.take(i as int)),
        decreases chars.len() - i,
    {
        let c = chars[i];
        let d: i32 = if digit(c) {
            (c as u8 - 48u8) as i32
        } else {
            0
        };
        proof {
            assert(chars@.take(i as int + 1).drop_last() =~= chars@.take(i as int));
            lemma_decimal_value(chars@, i as int + 1);
        }
        if acc > (i32::MAX - d) / 10 {
            return None;
        }
        acc = acc * 10 + d;
        i += 1;
    }
    assert(chars@.take(i as int) =~= chars@);
    Some(acc)
}

impl Parser {
    /// The tokens that the parser has still to read, the one that it looks
    /// at first. An error of the lexer ends the stream.
    pub closed spec fn stream(&self) -> Seq<Lexeme> {
        match self.curr_tk {
            Some(t) => seq![Lexeme::Token(t@)] + self.lexer.remaining(),
            None => match self.lexer.failure() {
                Some(e) => seq![Lexeme::Error(e)],
                None => Seq::empty(),
            },
        }
    }

    /// The lexer is sound, and has not failed while a token is at hand.
    pub closed spec fn inv(&self) -> bool {
        &&& self.lexer.inv()
        &&& self.curr_tk is Some ==> self.lexer.failure() is None
    }

    /// A parser that reads from `lexer`. It takes the first token at once.
    pub fn new(lexer: Lexer) -> (parser: Parser)
        requires
            lexer.inv(),
        ensures
            parser.inv(),
            parser.stream() == stream_of(lexer),
    {
        let mut p = Parser { lexer: lexer, curr_tk: None };
        p.curr_tk = p.lexer.next();
        proof {
            lemma_lexer_step(lexer, p.lexer, p.curr_tk);
        }
        p
    }

    /// Moves on to the next token.
    fn advance(&mut self)
        requires
            old(self).inv(),
            old(self).curr_tk is Some,
        ensures
            final(self).inv(),
            old(self).stream().len() > 0,
            final(self).stream() == old(self).stream().drop_first(),
    {
        let ghost before = self.lexer;
        self.curr_tk = self.lexer.next();
        proof {
            lemma_lexer_step(before, self.lexer, self.curr_tk);
        }
    }

    /// The kind of the token at hand.
    fn kind(&self) -> (kind: Option<TokenType>)
        requires
            self.inv(),
        ensures
            kind == peek_kind(self.stream()),
            kind matches Some(k) && !(k is EndOfFile) ==> self.curr_tk is Some,
    {
        match &self.curr_tk {
            Some(t) => Some(t.token_type()),
            None => match self.lexer.error() {
                Some(_) => None,
                None => Some(TokenType::EndOfFile),
            },
        }
    }

    /// Whether the parser stands at the end of the input.
    pub fn at_end(&self) -> (b: bool)
        requires
            self.inv(),
        ensures
            b == (peek_kind(self.stream()) == Some(TokenType::EndOfFile)),
    {
        match self.kind() {
            Some(TokenType::EndOfFile) => true,
            _ => false,
        }
    }

    /// The error for a token that does not fit.
    fn unexpected(&self) -> (e: Error)
        requires
            self.inv(),
        ensures
            e == unexpected(self.stream()),
    {
        match &self.curr_tk {
            Some(t) => match t.token_type() {
                TokenType::EndOfFile => Error::Parse(ParseError::UnexpectedEnd),
                _ => Error::Parse(ParseError::UnexpectedToken),
            },
            None => match self.lexer.error() {
                Some(e) => Error::Lex(e),
                None => Error::Parse(ParseError::UnexpectedEnd),
            },
        }
    }

    /// The text of the token at hand.
    fn text(&self) -> (text: String)
        requires
            self.inv(),
            self.curr_tk is Some,
        ensures
            peek(self.stream()) matches Lexeme::Token(t) && t.val == text@,
    {
        match &self.curr_tk {
            Some(t) => t.val(),
            None => unreached(),
        }
    }

    /// A quoted string.
    pub fn parse_string(&mut self) -> (r: Result<String, Error>)
        requires
            old(self).inv(),
        ensures
            final(self).inv(),
            match parse_string(old(self).stream()) {
                Ok((text, rest)) => r matches Ok(s) && s@ == text && final(self).stream() == rest,
                Err(e) => r == Err::<String, Error>(e),
            },
    {
        match self.kind() {
            Some(TokenType::String) => {
                let s = self.text();
                self.advance();
                Ok(s)
            },
            _ => Err(self.unexpected()),
        }
    }

    /// A count.
    pub fn parse_number(&mut self) -> (r: Result<i32, Error>)
        requires
            old(self).inv(),
        ensures
            final(self).inv(),
            match parse_number(old(self).stream()) {
                Ok((n, rest)) => r == Ok::<i32, Error>(n as i32) && 0 <= n <= i32::MAX
                    && final(self).stream() == rest,
                Err(e) => r == Err::<i32, Error>(e),
            },
    {
        match self.kind() {
            Some(TokenType::Number) => {
                let digits = self.text();
                proof {
                    lemma_decimal_value(digits@, 0);
                }
                match number_value(digits.as_str()) {
                    Some(n) => {
                        self.advance();
                        Ok(n)
                    },
                    None => Err(Error::Parse(ParseError::BadQuantifierBound)),
                }
            },
            _ => Err(self.unexpected()),
        }
    }

    /// The word `times` behind a count.
    fn parse_times(&mut self, count: i32, required: bool) -> (r: Result<(), Error>)
        requires
            old(self).inv(),
        ensures
            final(self).inv(),
            match parse_times(old(self).stream(), count as int, required) {
                Ok((_, rest)) => r is Ok && final(self).stream() == rest,
                Err(e) => r == Err::<(), Error>(e),
            },
    {
        match self.kind() {
            Some(TokenType::Quantifier(Quantifiers::Times)) => {
                let word = self.text();
                if same_text(word.as_str(), "time") && count != 1 {
                    Err(Error::Parse(ParseError::UnexpectedToken))
                } else {
                    self.advance();
                    Ok(())
                }
            },
            _ => if required {
                Err(self.unexpected())
            } else {
                Ok(())
            },
        }
    }

    /// `n times`.
    fn parse_count(&mut self) -> (r: Result<i32, Error>)
        requires
            old(self).inv(),
        ensures
            final(self).inv(),
            match parse_count(old(self).stream()) {
                Ok((n, rest)) => r == Ok::<i32, Error>(n as i32) && 0 <= n <= i32::MAX
                    && final(self).stream() == rest,
                Err(e) => r == Err::<i32, Error>(e),
            },
    {
        match self.parse_number() {
            Ok(n) => match self.parse_times(n, true) {
                Ok(_) => Ok(n),
                Err(e) => Err(e),
            },
            Err(e) => Err(e),
        }
    }

    /// `m and n`, with `times` or without.
    fn parse_bounds(&mut self) -> (r: Result<(i32, i32), Error>)
        requires
            old(self).inv(),
        ensures
            final(self).inv(),
            match parse_bounds(old(self).stream()) {
                Ok(((m, n), rest)) => r == Ok::<(i32, i32), Error>((m as i32, n as i32)) && 0 <= m
                    <= n <= i32::MAX && final(self).stream() == rest,
                Err(e) => r == Err::<(i32, i32), Error>(e),
            },
    {
        let m = match self.parse_number() {
            Ok(m) => m,
            Err(e) => {
                return Err(e);
            },
        };
        match self.kind() {
            Some(TokenType::Quantifier(Quantifiers::And)) => {},
            _ => {
                return Err(self.unexpected());
            },
        }
        self.advance();
        let n = match self.parse_number() {
            Ok(n) => n,
            Err(e) => {
                return Err(e);
            },
        };
        if m > n {
            return Err(Error::Parse(ParseError::BadQuantifierBound));
        }
        match self.parse_times(n, false) {
            Ok(_) => Ok((m, n)),
            Err(e) => Err(e),
        }
    }

    /// The quantifier at hand, if there is one.
    pub fn parse_quantifier(&mut self) -> (r: Result<Option<Quantifier>, Error>)
        requires
            old(self).inv(),
        ensures
            final(self).inv(),
            match parse_quantifier(old(self).stream()) {
                Ok((q, rest)) => r == Ok::<Option<Quantifier>, Error>(q) && final(self).stream()
                    == rest && (q matches Some(quantifier) ==> quantifier.wf()),
                Err(e) => r == Err::<Option<Quantifier>, Error>(e),
            },
    {
        let word = match self.kind() {
            Some(TokenType::Quantifier(word)) => word,
            _ => {
                return Ok(None);
            },
        };
        match word {
            Quantifiers::Once => {
                self.advance();
                Ok(Some(Quantifier::Once))
            },
            Quantifiers::Twice => {
                self.advance();
                Ok(Some(Quantifier::Twice))
            },
            Quantifiers::Optional => {
                self.advance();
                Ok(Some(Quantifier::Optional))
            },
            Quantifiers::OnceOrMore => {
                self.advance();
                Ok(Some(Quantifier::OnceOrMore))
            },
            Quantifiers::NeverOrMore => {
                self.advance();
                Ok(Some(Quantifier::NeverOrMore))
            },
            Quantifiers::Exactly => {
                self.advance();
                match self.parse_count() {
                    Ok(n) => Ok(Some(Quantifier::Exactly(n))),
                    Err(e) => Err(e),
                }
            },
            Quantifiers::AtLeast => {
                self.advance();
                match self.parse_count() {
                    Ok(n) => Ok(Some(Quantifier::AtLeast(n))),
                    Err(e) => Err(e),
                }
            },
            Quantifiers::Between => {
                self.advance();
                match self.parse_bounds() {
                    Ok((m, n)) => Ok(Some(Quantifier::Between { from: m, to: n })),
                    Err(e) => Err(e),
                }
            },
            _ => Ok(None),
        }
    }

    /// The flags at hand.
    pub fn parse_flags(&mut self) -> (flags: Vec<Flags>)
        requires
            old(self).inv(),
        ensures
            final(self).inv(),
            flags@ == parse_flags(old(self).stream()).0,
            final(self).stream() == parse_flags(old(self).stream()).1,
    {
        let mut flags: Vec<Flags> = Vec::new();
        loop
            invariant
                self.inv(),
                parse_flags(old(self).stream()).0 == flags@ + parse_flags(self.stream()).0,
                parse_flags(old(self).stream()).1 == parse_flags(self.stream()).1,
            decreases self.stream().len(),
        {
            match self.kind() {
                Some(TokenType::Flag(f)) => {
                    self.advance();
                    flags.push(f);
                },
                _ => {
                    return flags;
                },
            }
        }
    }

    /// One bound of a range of the class `ty`.
    fn parse_bound(&mut self, ty: Characters) -> (r: Result<char, Error>)
        requires
            old(self).inv(),
        ensures
            final(self).inv(),
            match parse_bound(old(self).stream(), ty) {
                Ok((c, rest)) => r == Ok::<char, Error>(c) && class_admits(ty, c)
                    && final(self).stream() == rest,
                Err(e) => r == Err::<char, Error>(e),
            },
    {
        match self.kind() {
            Some(TokenType::Char) | Some(TokenType::Digit) => {
                let text = self.text();
                let chars = chars_of(text.as_str());
                if chars.len() != 1 {
                    return Err(Error::Parse(ParseError::BadRange));
                }
                let c = chars[0];
                let admitted = match ty {
                    Characters::Letter => c >= 'a' && c <= 'z',
                    Characters::UppercaseLetter => c >= 'A' && c <= 'Z',
                    _ => digit(c),
                };
                if admitted {
                    self.advance();
                    Ok(c)
                } else {
                    Err(Error::Parse(ParseError::BadRange))
                }
            },
            _ => Err(self.unexpected()),
        }
    }

    /// The range behind the class word `ty`, or the whole class.
    fn parse_spec(&mut self, ty: Characters) -> (r: Result<CharKind, Error>)
        requires
            old(self).inv(),
            ty.takes_range(),
        ensures
            final(self).inv(),
            match parse_range(old(self).stream(), ty) {
                Ok((kind, rest)) => r matches Ok(k) && k@ == kind && kind.wf()
                    && final(self).stream() == rest,
                Err(e) => r matches Err(x) && x == e,
            },
    {
        match self.kind() {
            Some(TokenType::Specification(Specifications::From)) => {},
            _ => {
                return Ok(ty.to_char_class_with_spec(None, None));
            },
        }
        self.advance();
        let from = match self.parse_bound(ty) {
            Ok(c) => c,
            Err(e) => {
                return Err(e);
            },
        };
        match self.kind() {
            Some(TokenType::Specification(Specifications::To)) => {},
            _ => {
                return Err(self.unexpected());
            },
        }
        self.advance();
        let to = match self.parse_bound(ty) {
            Ok(c) => c,
            Err(e) => {
                return Err(e);
            },
        };
        if from <= to {
            Ok(ty.to_char_class_with_spec(Some(from), Some(to)))
        } else {
            Err(Error::Parse(ParseError::BadRange))
        }
    }

    /// What follows the atom word `ty`.
    pub fn parse_atom(&mut self, ty: Characters) -> (r: Result<CharKind, Error>)
        requires
            old(self).inv(),
        ensures
            final(self).inv(),
            match parse_atom(old(self).stream(), ty) {
                Ok((kind, rest)) => r matches Ok(k) && k@ == kind && kind.wf()
                    && final(self).stream() == rest,
                Err(e) => r matches Err(x) && x == e,
            },
    {
        match ty {
            Characters::Literally | Characters::OneOf | Characters::Raw => {
                match self.parse_string() {
                    Ok(s) => Ok(ty.to_charkind(Some(s))),
                    Err(e) => Err(e),
                }
            },
            Characters::Letter | Characters::UppercaseLetter | Characters::Digit => {
                self.parse_spec(ty)
            },
            _ => Ok(ty.to_charkind(None)),
        }
    }

    /// What may follow an atom or group.
    fn parse_modifiers(&mut self, quantified: bool) -> (r: Result<(Option<Quantifier>, Vec<Flags>), Error>)
        requires
            old(self).inv(),
        ensures
            final(self).inv(),
            match parse_modifiers(old(self).stream(), quantified) {
                Ok(((q, flags), rest)) => r matches Ok((rq, rflags)) && rq == q && rflags@ == flags
                    && final(self).stream() == rest && (q matches Some(quantifier)
                    ==> quantifier.wf()),
                Err(e) => r matches Err(x) && x == e,
            },
    {
        if quantified {
            match self.parse_quantifier() {
                Ok(q) => {
                    let flags = self.parse_flags();
                    Ok((q, flags))
                },
                Err(e) => Err(e),
            }
        } else {
            let flags = self.parse_flags();
            Ok((None, flags))
        }
    }

    /// Reads the expression that starts with the atom word `ty`, which has
    /// to be the token at hand.
    pub fn parse_character(&mut self, ty: Characters) -> (r: Result<Expr, Error>)
        requires
            old(self).inv(),
        ensures
            final(self).inv(),
            match parse_character(old(self).stream(), ty) {
                Ok((expr, rest)) => r matches Ok(x) && x@ == expr && expr.wf()
                    && final(self).stream() == rest,
                Err(e) => r matches Err(x) && x == e,
            },
    {
        match self.kind() {
            Some(TokenType::Character(found)) => {
                if found != ty {
                    return Err(self.unexpected());
                }
            },
            _ => {
                return Err(self.unexpected());
            },
        }
        self.advance();
        let kind = match self.parse_atom(ty) {
            Ok(k) => k,
            Err(e) => {
                return Err(e);
            },
        };
        match self.parse_modifiers(true) {
            Ok((q, flags)) => Ok(Expr::Character(Character::CharKind(kind), q, flags)),
            Err(e) => Err(e),
        }
    }

    /// The name behind the contents of a group.
    fn parse_name(&mut self, word: Groups) -> (r: Result<Option<String>, Error>)
        requires
            old(self).inv(),
        ensures
            final(self).inv(),
            match parse_name(old(self).stream(), word) {
                Ok((name, rest)) => r matches Ok(n) && final(self).stream() == rest && match name {
                    Some(text) => n matches Some(s) && s@ == text,
                    None => n is None,
                },
                Err(e) => r matches Err(x) && x == e,
            },
    {
        match word {
            Groups::Capture => {},
            _ => {
                return Ok(None);
            },
        }
        match self.kind() {
            Some(TokenType::Group(Groups::As)) => {},
            _ => {
                return Ok(None);
            },
        }
        self.advance();
        match self.parse_string() {
            Ok(s) => Ok(Some(s)),
            Err(e) => Err(e),
        }
    }

    /// The contents of the group that `word` opens.
    pub fn parse_inner(&mut self, word: Groups) -> (r: Result<Vec<Expr>, Error>)
        requires
            old(self).inv(),
        ensures
            final(self).inv(),
            match parse_inner(old(self).stream(), word) {
                Ok((inner, rest)) => r matches Ok(v) && exprs_view(v@) == inner && inner.len() > 0
                    && all_wf(inner) && final(self).stream() == rest,
                Err(e) => r matches Err(x) && x == e,
            },
        decreases old(self).stream().len(), 0int,
    {
        match self.kind() {
            Some(TokenType::String) => {
                match self.parse_string() {
                    Ok(s) => {
                        if s.as_str().unicode_len() == 0 {
                            Err(Error::Parse(ParseError::EmptyGroup))
                        } else {
                            let e = Expr::Character(
                                Character::CharKind(CharKind::Literally(s)),
                                None,
                                Vec::new(),
                            );
                            Ok(single(e))
                        }
                    },
                    Err(e) => Err(e),
                }
            },
            Some(TokenType::Group(Groups::GroupStart)) => {
                self.advance();
                let v = match self.parse_sequence() {
                    Ok(v) => v,
                    Err(e) => {
                        return Err(e);
                    },
                };
                match self.kind() {
                    Some(TokenType::Group(Groups::GroupEnd)) => {},
                    _ => {
                        return Err(self.unexpected());
                    },
                }
                proof {
                    lemma_exprs_view(v@);
                }
                if v.len() == 0 {
                    return Err(Error::Parse(ParseError::EmptyGroup));
                }
                self.advance();
                Ok(v)
            },
            Some(TokenType::Character(ty)) => {
                match word {
                    Groups::IfFollowedBy
                    | Groups::IfNotFollowedBy
                    | Groups::IfAlreadyHad
                    | Groups::IfNotAlreadyHad => {},
                    _ => {
                        return Err(self.unexpected());
                    },
                }
                self.advance();
                match self.parse_atom(ty) {
                    Ok(kind) => {
                        let e = Expr::Character(Character::CharKind(kind), None, Vec::new());
                        Ok(single(e))
                    },
                    Err(e) => Err(e),
                }
            },
            _ => Err(self.unexpected()),
        }
    }

    /// Reads the expression that starts with a word that opens a group,
    /// which is the token at hand.
    pub fn parse_group(&mut self) -> (r: Result<Expr, Error>)
        requires
            old(self).inv(),
        ensures
            final(self).inv(),
            match parse_group(old(self).stream()) {
                Ok((expr, rest)) => r matches Ok(x) && x@ == expr && expr.wf()
                    && final(self).stream() == rest,
                Err(e) => r matches Err(x) && x == e,
            },
        decreases old(self).stream().len(), 1int,
    {
        let word = match self.kind() {
            Some(TokenType::Group(word)) => word,
            _ => {
                return Err(self.unexpected());
            },
        };
        match word {
            Groups::As | Groups::GroupStart | Groups::GroupEnd => {
                return Err(self.unexpected());
            },
            _ => {},
        }
        self.advance();
        let inner = match self.parse_inner(word) {
            Ok(v) => v,
            Err(e) => {
                return Err(e);
            },
        };
        let name = match self.parse_name(word) {
            Ok(n) => n,
            Err(e) => {
                return Err(e);
            },
        };
        let quantified = match word {
            Groups::Capture | Groups::AnyOf => true,
            _ => false,
        };
        let (q, flags) = match self.parse_modifiers(quantified) {
            Ok(m) => m,
            Err(e) => {
                return Err(e);
            },
        };
        let g = match word {
            Groups::Capture => Group::Capture { inner, name },
            Groups::AnyOf => Group::AnyOf { inner },
            Groups::Until => Group::Until { inner },
            Groups::IfFollowedBy => Group::LookAround { kind: LookAround::IfFollowedBy, inner },
            Groups::IfNotFollowedBy => Group::LookAround {
                kind: LookAround::IfNotFollowedBy,
                inner,
            },
            Groups::IfAlreadyHad => Group::LookAround { kind: LookAround::IfAlreadyHad, inner },
            _ => Group::LookAround { kind: LookAround::IfNotAlreadyHad, inner },
        };
        Ok(Expr::Character(Character::Group(g), q, flags))
    }

    /// Reads one expression: an atom or a group with what follows it.
    pub fn parse_expr(&mut self) -> (r: Result<Expr, Error>)
        requires
            old(self).inv(),
        ensures
            final(self).inv(),
            match parse_expr(old(self).stream()) {
                Ok((expr, rest)) => r matches Ok(x) && x@ == expr && expr.wf()
                    && final(self).stream() == rest,
                Err(e) => r matches Err(x) && x == e,
            },
        decreases old(self).stream().len(), 2int,
    {
        match self.kind() {
            Some(TokenType::Character(ty)) => self.parse_character(ty),
            Some(TokenType::Group(_)) => self.parse_group(),
            _ => Err(self.unexpected()),
        }
    }

    /// Reads the expressions at hand, as many as there are.
    pub fn parse_sequence(&mut self) -> (r: Result<Vec<Expr>, Error>)
        requires
            old(self).inv(),
        ensures
            final(self).inv(),
            match parse_sequence(old(self).stream()) {
                Ok((exprs, rest)) => r matches Ok(v) && exprs_view(v@) == exprs && all_wf(exprs)
                    && final(self).stream() == rest,
                Err(e) => r matches Err(x) && x == e,
            },
        decreases old(self).stream().len(), 3int,
    {
        let mut exprs: Vec<Expr> = Vec::new();
        loop
            invariant
                self.inv(),
                self.stream().len() <= old(self).stream().len(),
                all_wf(exprs_view(exprs@)),
                parse_sequence(old(self).stream()) == match parse_sequence(self.stream()) {
                    Ok((others, rest)) => Ok::<(Seq<ExprView>, Seq<Lexeme>), Error>(
                        (exprs_view(exprs@) + others, rest),
                    ),
                    Err(e) => Err(e),
                },
            decreases self.stream().len(),
        {
            let starts = match self.kind() {
                Some(TokenType::Character(_)) => true,
                Some(TokenType::Group(word)) => match word {
                    Groups::As | Groups::GroupStart | Groups::GroupEnd => false,
                    _ => true,
                },
                _ => false,
            };
            if !starts {
                return Ok(exprs);
            }
            let ghost before = self.stream();
            let ghost seen = exprs_view(exprs@);
            proof {
                lemma_expr_shortens(before);
            }
            match self.parse_expr() {
                Ok(e) => {
                    proof {
                        lemma_exprs_view_push(exprs@, e);
                        assert(seen.push(e@).drop_last() =~= seen);
                        if let Ok((others, _)) = parse_sequence(self.stream()) {
                            assert(seen + (seq![e@] + others) =~= seen.push(e@) + others);
                        }
                    }
                    exprs.push(e);
                },
                Err(e) => {
                    return Err(e);
                },
            }
        }
    }

    /// Reads a whole pattern.
    pub fn parse(&mut self) -> (r: Result<Vec<Expr>, Error>)
        requires
            old(self).inv(),
        ensures
            final(self).inv(),
            match parse_pattern(old(self).stream()) {
                Ok(exprs) => r matches Ok(v) && exprs_view(v@) == exprs && pattern_wf(exprs),
                Err(e) => r matches Err(x) && x == e,
            },
    {
        let begins = match self.kind() {
            Some(TokenType::Anchor(Anchors::BeginWith)) => true,
            _ => false,
        };
        if begins {
            self.advance();
        }
        let mut exprs = match self.parse_sequence() {
            Ok(v) => v,
            Err(e) => {
                return Err(e);
            },
        };
        let ghost middle = exprs_view(exprs@);
        let ghost inside = exprs@;
        let ghost off = if begins { 1int } else { 0 };
        proof {
            lemma_exprs_view(inside);
        }
        if begins {
            exprs.insert(0, Expr::Anchor(Anchors::BeginWith));
        }
        let ends = match self.kind() {
            Some(TokenType::Anchor(Anchors::MustEnd)) => true,
            _ => false,
        };
        if ends {
            self.advance();
            exprs.push(Expr::Anchor(Anchors::MustEnd));
        }
        match self.kind() {
            Some(TokenType::EndOfFile) => {
                proof {
                    lemma_framed(exprs@, middle, begins, ends, off);
                }
                Ok(exprs)
            },
            _ => Err(self.unexpected()),
        }
    }
}

/// A sequence that holds one expression.
fn single(e: Expr) -> (v: Vec<Expr>)
    ensures
        v@ == seq![e],
        exprs_view(v@) == seq![e@],
        e@.wf() ==> all_wf(exprs_view(v@)),
{
    let mut v: Vec<Expr> = Vec::new();
    v.push(e);
    proof {
        lemma_exprs_view_push(Seq::<Expr>::empty(), e);
        assert(seq![e@].drop_last() =~= Seq::<ExprView>::empty());
        assert(all_wf(Seq::<ExprView>::empty()));
    }
    v
}

/// Expressions that are well formed, with anchors put round them, make a
/// well-formed pattern.
proof fn lemma_framed(
    exprs: Seq<Expr>,
    middle: Seq<ExprView>,
    begins: bool,
    ends: bool,
    off: int,
)
    requires
        all_wf(middle),
        off == (if begins { 1int } else { 0 }),
        exprs.len() == middle.len() + off + (if ends { 1int } else { 0 }),
        begins ==> exprs[0] == Expr::Anchor(Anchors::BeginWith),
        ends ==> exprs.last() == Expr::Anchor(Anchors::MustEnd),
        forall|i: int| 0 <= i < middle.len() ==> expr_view(#[trigger] exprs[i + off]) == middle[i],
    ensures
        exprs_view(exprs) == (if begins {
            seq![ExprView::Anchor(Anchors::BeginWith)]
        } else {
            Seq::empty()
        }) + middle + (if ends {
            seq![ExprView::Anchor(Anchors::MustEnd)]
        } else {
            Seq::empty()
        }),
        pattern_wf(exprs_view(exprs)),
{
    lemma_exprs_view(exprs);
    lemma_all_wf(middle);
    let framed = (if begins {
        seq![ExprView::Anchor(Anchors::BeginWith)]
    } else {
        Seq::empty()
    }) + middle + (if ends {
        seq![ExprView::Anchor(Anchors::MustEnd)]
    } else {
        Seq::empty()
    });
    assert forall|i: int| 0 <= i < exprs.len() implies exprs_view(exprs)[i] == framed[i] by {
        if off <= i < off + middle.len() {
            assert(expr_view(exprs[(i - off) + off]) == middle[i - off]);
        }
    }
    assert(exprs_view(exprs) =~= framed);
    assert forall|i: int| 0 <= i < framed.len() implies match #[trigger] framed[i] {
        ExprView::Anchor(Anchors::BeginWith) => i == 0,
        ExprView::Anchor(Anchors::MustEnd) => i == framed.len() - 1,
        e => e.wf(),
    } by {}
}

} // verus!
