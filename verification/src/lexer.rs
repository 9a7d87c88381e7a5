//! The lexer: a cursor over the source text that hands out one token at a
//! time, in the mode that the token before it asks for.

use vstd::prelude::*;
use vstd::string::{StrSliceExecFns, StringExecFns};
use crate::grammar::{
    get_char_token, get_digit_token, get_eof_token, get_number_token, get_string_token,
    lookup_keyword, same_text, MAX_KEY_LENGTH,
};
use crate::scan::{
    closing_quote, digits_end, lemma_closing_quote, lemma_skip_separators, lemma_word_end,
    longer_keyword, scan, scan_char_or_digit, scan_identifier, scan_keyword, scan_number,
    scan_start, scan_string, skip_separators, spelled_end, state_after, token_stream, unescape,
    word_end, LexError, Lexeme, Scan, State,
};
use crate::srlchar::{
    at_word_end, digit, is_letter, is_separator, letter, lowercase, lowercase_text, to_lowercase,
    SrlChar,
};
use crate::text::chars_of;
use crate::token::{Characters, Groups, Quantifiers, Token, TokenType};

verus! {

/// A cursor over a source text. It holds the text, the position up to
/// which the text has been read, the mode in which the next token is read,
/// and the error that it has run into, if it has.
pub struct Lexer {
    src: Vec<char>,
    pos: usize,
    state: State,
    error: Option<LexError>,
}

/// The mode in which the token after one of kind `kind` is read.
pub fn mode_after(kind: TokenType) -> (state: State)
    ensures
        state == state_after(kind),
{
    match kind {
        TokenType::EndOfFile => State::Done,
        TokenType::Character(c) => match c {
            Characters::Raw
            | Characters::Literally
            | Characters::OneOf => State::InString,
            _ => State::InIdent,
        },
        TokenType::Quantifier(q) => match q {
            Quantifiers::Exactly
            | Quantifiers::Between
            | Quantifiers::And
            | Quantifiers::AtLeast => State::InNumber,
            _ => State::InIdent,
        },
        TokenType::Specification(_) => State::InCharOrDigit,
        TokenType::Group(g) => match g {
            Groups::As => State::InString,
            Groups::GroupStart | Groups::GroupEnd => State::InIdent,
            _ => State::Start,
        },
        _ => State::InIdent,
    }
}

impl Lexer {
    /// The text that is read.
    pub closed spec fn source(&self) -> Seq<char> {
        self.src@
    }

    /// The position from which the next token is read.
    pub closed spec fn position(&self) -> int {
        self.pos as int
    }

    /// The mode in which the next token is read.
    pub closed spec fn state(&self) -> State {
        self.state
    }

    /// The error that the lexer has run into, if it has.
    pub closed spec fn failure(&self) -> Option<LexError> {
        self.error
    }

    /// The position lies within the text, and the lexer holds an error
    /// exactly when it has failed.
    pub open spec fn inv(&self) -> bool {
        &&& 0 <= self.position() <= self.source().len()
        &&& self.state() is Error <==> self.failure() is Some
    }

    /// The tokens that are still to come.
    pub open spec fn remaining(&self) -> Seq<Lexeme> {
        token_stream(self.source(), self.position(), self.state())
    }

    /// What reading one token does to the lexer. A token moves the position
    /// behind it and sets the mode that its kind asks for. An error leaves
    /// the position where it was and is kept.
    pub open spec fn follows(&self, before: &Lexer, outcome: Scan, token: Option<Token>) -> bool {
        &&& self.inv()
        &&& self.source() == before.source()
        &&& match outcome {
            Scan::Token { token: read, end } => {
                &&& token matches Some(t)
                &&& t@ == read
                &&& self.position() == end
                &&& self.state() == state_after(read.token_type)
                &&& self.failure() is None
            },
            Scan::Fail(e) => {
                &&& token is None
                &&& self.position() == before.position()
                &&& self.state() is Error
                &&& self.failure() == Some(e)
            },
        }
    }

    /// A lexer at the start of `src`.
    pub fn new(src: &str) -> (lexer: Lexer)
        ensures
            lexer.inv(),
            lexer.source() == src@,
            lexer.position() == 0,
            lexer.state() is Start,
            lexer.failure() is None,
    {
        Lexer { src: chars_of(src), pos: 0, state: State::Start, error: None }
    }

    /// Whether the lexer has failed.
    pub fn is_error(&self) -> (b: bool)
        ensures
            b == (self.state() is Error),
    {
        match self.state {
            State::Error => true,
            _ => false,
        }
    }

    /// The error that stopped the lexer, if one did.
    pub fn error(&self) -> (e: Option<LexError>)
        ensures
            e == self.failure(),
    {
        self.error
    }

    /// Sets the mode that `token` asks for.
    fn next_state(&mut self, token: &Token)
        ensures
            final(self).src == old(self).src,
            final(self).pos == old(self).pos,
            final(self).state == state_after(token@.token_type),
            final(self).error is None,
    {
        self.state = mode_after(token.token_type());
        self.error = None;
    }

    /// Fails with the error `e`.
    fn set_error(&mut self, e: LexError) -> (token: Option<Token>)
        requires
            old(self).inv(),
        ensures
            token is None,
            final(self).inv(),
            final(self).src == old(self).src,
            final(self).pos == old(self).pos,
            final(self).state is Error,
            final(self).error == Some(e),
    {
        self.state = State::Error;
        self.error = Some(e);
        None
    }

    /// Hands out `token`, which ends at `end`.
    fn accept(&mut self, token: Token, end: usize) -> (out: Option<Token>)
        requires
            old(self).inv(),
            end <= old(self).src.len(),
        ensures
            out == Some(token),
            final(self).inv(),
            final(self).src == old(self).src,
            final(self).pos == end,
            final(self).state == state_after(token@.token_type),
            final(self).error is None,
    {
        self.next_state(&token);
        self.pos = end;
        Some(token)
    }

    /// The first position from `from` on that holds no separator.
    fn skip_space(&self, from: usize) -> (i: usize)
        requires
            from <= self.src.len(),
        ensures
            i == skip_separators(self.src@, from as int),
            from <= i <= self.src.len(),
            i < self.src.len() ==> !is_separator(self.src@[i as int]),
    {
        let mut i = from;
        while i < self.src.len() && self.src[i].is_srl_whitespace()
            invariant
                from <= i <= self.src.len(),
                skip_separators(self.src@, from as int) == skip_separators(self.src@, i as int),
            decreases self.src.len() - i,
        {
            i += 1;
        }
        i
    }

    /// Adds the letters from `from` on to `buffer`, in lower case.
    fn read_word(&self, from: usize, buffer: &mut String) -> (e: usize)
        requires
            from <= self.src.len(),
        ensures
            e == word_end(self.src@, from as int),
            from <= e <= self.src.len(),
            final(buffer)@ == old(buffer)@ + lowercase_text(self.src@.subrange(from as int, e as int)),
    {
        let mut e = from;
        while e < self.src.len() && letter(self.src[e])
            invariant
                from <= e <= self.src.len(),
                word_end(self.src@, from as int) == word_end(self.src@, e as int),
                buffer@ == old(buffer)@ + lowercase_text(self.src@.subrange(from as int, e as int)),
            decreases self.src.len() - e,
        {
            buffer.push(to_lowercase(self.src[e]));
            assert(lowercase_text(self.src@.subrange(from as int, e as int + 1))
                =~= lowercase_text(self.src@.subrange(from as int, e as int)).push(
                lowercase(self.src@[e as int]),
            ));
            e += 1;
        }
        e
    }

    /// Adds the digits from `from` on to `buffer`.
    fn read_digits(&self, from: usize, buffer: &mut String) -> (e: usize)
        requires
            from <= self.src.len(),
        ensures
            e == digits_end(self.src@, from as int),
            from <= e <= self.src.len(),
            final(buffer)@ == old(buffer)@ + self.src@.subrange(from as int, e as int),
    {
        let mut e = from;
        while e < self.src.len() && digit(self.src[e])
            invariant
                from <= e <= self.src.len(),
                digits_end(self.src@, from as int) == digits_end(self.src@, e as int),
                buffer@ == old(buffer)@ + self.src@.subrange(from as int, e as int),
            decreases self.src.len() - e,
        {
            buffer.push(self.src[e]);
            assert(self.src@.subrange(from as int, e as int + 1) =~= self.src@.subrange(
                from as int,
                e as int,
            ).push(self.src@[e as int]));
            e += 1;
        }
        e
    }

    /// Whether a word may end at `i`.
    fn word_ends_at(&self, i: usize) -> (b: bool)
        requires
            i <= self.src.len(),
        ensures
            b == at_word_end(self.src@, i as int),
    {
        i >= self.src.len() || self.src[i].is_srl_whitespace() || self.src[i].is_group_char()
    }

    /// Where the passage that starts at `from` and spells `text` ends.
    fn spelled(&self, from: usize, text: &str) -> (end: Option<usize>)
        requires
            from <= self.src.len(),
        ensures
            match spelled_end(self.src@, from as int, text@) {
                Some(e) => end == Some(e as usize) && from <= e <= self.src.len(),
                None => end is None,
            },
    {
        let n = text.unicode_len();
        let mut k: usize = 0;
        let mut p = from;
        assert(text@.skip(0) =~= text@);
        while k < n
            invariant
                k <= n,
                n == text@.len(),
                from <= p <= self.src.len(),
                spelled_end(self.src@, from as int, text@) == spelled_end(
                    self.src@,
                    p as int,
                    text@.skip(k as int),
                ),
            decreases n - k,
        {
            let t = text.get_char(k);
            assert(text@.skip(k as int).drop_first() =~= text@.skip(k as int + 1));
            if t == ' ' {
                if p < self.src.len() && self.src[p].is_srl_whitespace() {
                    p = self.skip_space(p);
                } else {
                    return None;
                }
            } else if p < self.src.len() && letter(self.src[p]) && to_lowercase(self.src[p]) == t {
                p += 1;
            } else {
                return None;
            }
            k += 1;
        }
        if self.word_ends_at(p) {
            Some(p)
        } else {
            None
        }
    }

    /// The longer keyword that begins with the keyword `text`, which ends at
    /// `e`, if the text goes on to spell it.
    fn longer(&self, e: usize, text: &str) -> (found: Option<(Token, usize)>)
        requires
            e <= self.src.len(),
        ensures
            match longer_keyword(self.src@, e as int, text@) {
                Some((token, end)) => found matches Some((t, p)) && t@ == token && p == end && p
                    <= self.src.len(),
                None => found is None,
            },
    {
        if same_text(text, "once") {
            match self.spelled(e, " or more") {
                Some(end) => {
                    let mut full = String::from_str(text);
                    full.append(" or more");
                    match lookup_keyword(full.as_str()) {
                        Some(kind) => Some((Token::from_string(full, kind), end)),
                        None => None,
                    }
                },
                None => None,
            }
        } else {
            None
        }
    }

    /// Reads a token in identifier mode, whatever the mode of the lexer: a
    /// keyword, a bracket, or the end of the input.
    #[verifier::loop_isolation(false)]
    pub fn next_identifier(&mut self) -> (token: Option<Token>)
        requires
            old(self).inv(),
        ensures
            final(self).follows(
                old(self),
                scan_identifier(old(self).source(), old(self).position()),
                token,
            ),
    {
        let i = self.skip_space(self.pos);
        if i >= self.src.len() {
            return self.accept(get_eof_token(), i);
        }
        let c = self.src[i];
        if c.is_group_char() {
            proof {
                reveal_strlit("(");
                reveal_strlit(")");
                assert("("@ =~= seq!['(']);
                assert(")"@ =~= seq![')']);
            }
            let bracket = if c.is_group_start() {
                Token::new("(", TokenType::Group(Groups::GroupStart))
            } else {
                Token::new(")", TokenType::Group(Groups::GroupEnd))
            };
            return self.accept(bracket, i + 1);
        }
        if !letter(c) {
            return self.set_error(LexError::InvalidChar);
        }
        let mut buffer = String::new();
        let mut j = i;
        loop
            invariant
                self.inv(),
                *self == *old(self),
                i <= j < self.src.len(),
                is_letter(self.src@[j as int]),
                scan_keyword(self.src@, i as int, Seq::empty()) == scan_keyword(
                    self.src@,
                    j as int,
                    buffer@,
                ),
            decreases self.src.len() - j,
        {
            let e = self.read_word(j, &mut buffer);
            proof {
                lemma_word_end(self.src@, j as int);
                lemma_word_end(self.src@, j as int + 1);
            }
            if !self.word_ends_at(e) {
                return self.set_error(LexError::InvalidChar);
            }
            match lookup_keyword(buffer.as_str()) {
                Some(kind) => {
                    return match self.longer(e, buffer.as_str()) {
                        Some((t, end)) => self.accept(t, end),
                        None => self.accept(Token::from_string(buffer, kind), e),
                    };
                },
                None => {
                    if e >= self.src.len() || self.src[e].is_group_char() {
                        return self.set_error(LexError::InvalidChar);
                    }
                    if buffer.as_str().unicode_len() >= MAX_KEY_LENGTH {
                        return self.set_error(LexError::OverlongIdentifier);
                    }
                    let n = self.skip_space(e);
                    proof {
                        lemma_skip_separators(self.src@, e as int);
                        lemma_skip_separators(self.src@, e as int + 1);
                    }
                    if n < self.src.len() && letter(self.src[n]) {
                        buffer.push(' ');
                        j = n;
                    } else {
                        return self.set_error(LexError::InvalidChar);
                    }
                },
            }
        }
    }

    /// Reads a token in string mode, whatever the mode of the lexer: a quoted
    /// string.
    #[verifier::loop_isolation(false)]
    pub fn next_string(&mut self) -> (token: Option<Token>)
        requires
            old(self).inv(),
        ensures
            final(self).follows(
                old(self),
                scan_string(old(self).source(), old(self).position()),
                token,
            ),
    {
        let i = self.skip_space(self.pos);
        if i >= self.src.len() {
            return self.set_error(LexError::UnterminatedString);
        }
        let start_char = self.src[i];
        if !start_char.is_quote() {
            return self.set_error(LexError::InvalidChar);
        }
        let ghost close = closing_quote(self.src@, i as int + 1, start_char);
        let mut buffer = String::new();
        let mut j = i + 1;
        proof {
            lemma_closing_quote(self.src@, i as int + 1, start_char);
        }
        while j < self.src.len()
            invariant
                self.inv(),
                *self == *old(self),
                i < j <= self.src.len(),
                j <= close <= self.src.len(),
                close == closing_quote(self.src@, i as int + 1, start_char),
                close == closing_quote(self.src@, j as int, start_char),
                unescape(self.src@.subrange(i as int + 1, close)) == buffer@ + unescape(
                    self.src@.subrange(j as int, close),
                ),
            decreases self.src.len() - j,
        {
            let ch = self.src[j];
            let ghost rest = self.src@.subrange(j as int, close);
            if ch.is_backslash() {
                if j + 1 < self.src.len() {
                    proof {
                        lemma_closing_quote(self.src@, j as int + 2, start_char);
                        assert(rest.skip(2) =~= self.src@.subrange(j as int + 2, close));
                        assert(buffer@ + (seq![rest[1]] + unescape(rest.skip(2))) =~= buffer@.push(
                            self.src@[j as int + 1],
                        ) + unescape(rest.skip(2)));
                    }
                    buffer.push(self.src[j + 1]);
                    j += 2;
                } else {
                    return self.set_error(LexError::UnterminatedString);
                }
            } else if ch == start_char {
                let t = get_string_token(buffer.as_str());
                return self.accept(t, j + 1);
            } else {
                proof {
                    lemma_closing_quote(self.src@, j as int + 1, start_char);
                    assert(rest.skip(1) =~= self.src@.subrange(j as int + 1, close));
                    assert(buffer@ + (seq![rest[0]] + unescape(rest.skip(1))) =~= buffer@.push(ch)
                        + unescape(rest.skip(1)));
                }
                buffer.push(ch);
                j += 1;
            }
        }
        self.set_error(LexError::UnterminatedString)
    }

    /// Reads a token in number mode, whatever the mode of the lexer: a
    /// decimal number.
    pub fn next_number(&mut self) -> (token: Option<Token>)
        requires
            old(self).inv(),
        ensures
            final(self).follows(
                old(self),
                scan_number(old(self).source(), old(self).position()),
                token,
            ),
    {
        let i = self.skip_space(self.pos);
        let mut buffer = String::new();
        let e = self.read_digits(i, &mut buffer);
        if !self.word_ends_at(e) {
            return self.set_error(LexError::InvalidChar);
        }
        if e == i {
            return self.set_error(LexError::EmptyNumber);
        }
        let t = get_number_token(buffer.as_str());
        self.accept(t, e)
    }

    /// Reads the bound of a range, whatever the mode of the lexer: one letter
    /// or one digit.
    pub fn next_char_or_digit(&mut self) -> (token: Option<Token>)
        requires
            old(self).inv(),
        ensures
            final(self).follows(
                old(self),
                scan_char_or_digit(old(self).source(), old(self).position()),
                token,
            ),
    {
        let i = self.skip_space(self.pos);
        if i >= self.src.len() {
            return self.set_error(LexError::InvalidChar);
        }
        let ch = self.src[i];
        let mut buffer = String::new();
        buffer.push(ch);
        if digit(ch) {
            let t = get_digit_token(buffer.as_str());
            self.accept(t, i + 1)
        } else if letter(ch) {
            let t = get_char_token(buffer.as_str());
            self.accept(t, i + 1)
        } else {
            self.set_error(LexError::InvalidChar)
        }
    }

    /// Reads a token as at the start of the text or behind a word that opens
    /// a group, whatever the mode of the lexer: the first character decides
    /// whether a string, a number, or a keyword or bracket is read.
    pub fn next_token(&mut self) -> (token: Option<Token>)
        requires
            old(self).inv(),
        ensures
            final(self).follows(
                old(self),
                scan_start(old(self).source(), old(self).position()),
                token,
            ),
    {
        let i = self.skip_space(self.pos);
        proof {
            lemma_skip_separators(self.src@, self.pos as int);
        }
        if i >= self.src.len() {
            return self.accept(get_eof_token(), i);
        }
        let ch = self.src[i];
        if ch.is_quote() {
            self.next_string()
        } else if letter(ch) || ch.is_group_char() {
            self.next_identifier()
        } else if digit(ch) {
            self.next_number()
        } else {
            self.set_error(LexError::InvalidChar)
        }
    }

    /// Reads the next token in the mode of the lexer. Nothing is read, and
    /// the lexer stays as it is, once it is done or has failed.
    pub fn next(&mut self) -> (token: Option<Token>)
        requires
            old(self).inv(),
        ensures
            match scan(old(self).source(), old(self).position(), old(self).state()) {
                Some(outcome) => final(self).follows(old(self), outcome, token),
                None => token is None && *final(self) == *old(self),
            },
    {
        match self.state {
            State::Start => self.next_token(),
            State::InIdent => self.next_identifier(),
            State::InString => self.next_string(),
            State::InNumber => self.next_number(),
            State::InCharOrDigit => self.next_char_or_digit(),
            State::Done => None,
            State::Error => None,
        }
    }
}

} // verus!
