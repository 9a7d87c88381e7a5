//! Laws of the lexer: a keyword is read however its letters are cased and
//! however many separators stand between its words, the longer of two
//! keywords wins, and a quoted string is kept as it is written.

use vstd::prelude::*;
use crate::grammar::{keyword_kind, longer_form, MAX_KEY_LENGTH};
use crate::keywords::{gaps_miss, lemma_keyword_prefixes, lemma_keyword_shape};
use crate::scan::{
    closing_quote, lemma_scan_well_shaped, lemma_skip_separators, lemma_word_end, longer_keyword,
    scan, scan_identifier, scan_keyword, scan_string, skip_separators, spelled_end, unescape,
    word_end, Scan, State,
};
use crate::srlchar::{
    at_word_end, is_bracket, is_letter, is_quote_mark, is_separator, lowercase_text,
};
use crate::token::{Groups, TokenType, TokenView};

verus! {

/// The letters from `from` up to `to` are a whole word.
proof fn lemma_word_end_at(s: Seq<char>, from: int, to: int)
    requires
        0 <= from <= to <= s.len(),
        forall|j: int| from <= j < to ==> is_letter(#[trigger] s[j]),
        to == s.len() || !is_letter(s[to]),
    ensures
        word_end(s, from) == to,
    decreases to - from,
{
    if from < to {
        lemma_word_end_at(s, from + 1, to);
    }
}

/// Reading a keyword word by word arrives at `text` when the source spells
/// it: `begin` is where the current word starts, `i` how far it has been
/// compared, and `first` and `p` are the same places in `text`.
proof fn lemma_scan_spelled(
    s: Seq<char>,
    begin: int,
    i: int,
    text: Seq<char>,
    first: int,
    p: int,
    end: int,
)
    requires
        0 <= begin <= i <= s.len(),
        0 <= first <= p <= text.len(),
        i - begin == p - first,
        forall|j: int| begin <= j < i ==> is_letter(#[trigger] s[j]),
        lowercase_text(s.subrange(begin, i)) == text.subrange(first, p),
        spelled_end(s, i, text.skip(p)) == Some(end),
        keyword_kind(text) is Some,
        gaps_miss(text, p),
        longer_keyword(s, end, text) is None,
        text.len() > 0,
        text.last() != ' ',
    ensures
        scan_keyword(s, begin, text.take(first)) == (Scan::Token {
            token: TokenView { val: text, token_type: keyword_kind(text)->0 },
            end,
        }),
    decreases text.len() - p,
{
    let rest = text.skip(p);
    if p == text.len() {
        lemma_word_end_at(s, begin, i);
        assert(text.take(first) + text.subrange(first, p) =~= text);
    } else if text[p] == ' ' {
        lemma_word_end_at(s, begin, i);
        assert(text.take(first) + text.subrange(first, p) =~= text.take(p));
        lemma_skip_separators(s, i);
        lemma_skip_separators(s, i + 1);
        let n = skip_separators(s, i);
        let after = text.skip(p + 1);
        assert(rest.drop_first() =~= after);
        assert(lowercase_text(s.subrange(n, n)) =~= text.subrange(p + 1, p + 1));
        lemma_scan_spelled(s, n, n, text, p + 1, p + 1, end);
        assert(text.take(p).push(' ') =~= text.take(p + 1));
    } else {
        assert(rest.drop_first() =~= text.skip(p + 1));
        assert(lowercase_text(s.subrange(begin, i + 1)) =~= text.subrange(first, p + 1));
        lemma_scan_spelled(s, begin, i + 1, text, first, p + 1, end);
    }
}

/// Whitespace and case do not matter to a keyword. Where the source, from
/// the first character after the separators at `pos`, spells the keyword
/// `keyword` in letters of either case and with any run of separators for
/// each of its spaces, the token read in identifier mode is that keyword
/// under its spelling in the table, and ends where the passage ends.
///
/// Two cases are left out. The words `once` give way to `once or more`
/// where the source goes on to spell it, so no longer keyword may follow.
/// And `if not followed by` is never read: `if not followed` has the
/// length at which a text that is no keyword is given up.
pub proof fn lemma_spelled_keyword_is_read(s: Seq<char>, pos: int, keyword: Seq<char>)
    requires
        0 <= pos <= s.len(),
        keyword_kind(keyword) is Some,
        keyword != "if not followed by"@,
        spelled_end(s, skip_separators(s, pos), keyword) is Some,
        longer_keyword(s, spelled_end(s, skip_separators(s, pos), keyword)->0, keyword) is None,
    ensures
        scan_identifier(s, pos) == (Scan::Token {
            token: TokenView { val: keyword, token_type: keyword_kind(keyword)->0 },
            end: spelled_end(s, skip_separators(s, pos), keyword)->0,
        }),
{
    let i = skip_separators(s, pos);
    let end = spelled_end(s, i, keyword)->0;
    lemma_skip_separators(s, pos);
    if keyword == "once or more"@ {
        lemma_once_or_more(s, i, end);
    } else {
        lemma_keyword_shape(keyword);
        assert(keyword.skip(0) =~= keyword);
        assert(lowercase_text(s.subrange(i, i)) =~= keyword.subrange(0, 0));
        lemma_scan_spelled(s, i, i, keyword, 0, 0, end);
    }
}

/// `once or more` is read where the source spells it, though it begins
/// with the keyword `once`.
proof fn lemma_once_or_more(s: Seq<char>, i: int, end: int)
    requires
        0 <= i <= s.len(),
        i == s.len() || !is_separator(s[i]),
        spelled_end(s, i, "once or more"@) == Some(end),
    ensures
        i < s.len(),
        is_letter(s[i]),
        scan_keyword(s, i, Seq::empty()) == (Scan::Token {
            token: TokenView {
                val: "once or more"@,
                token_type: keyword_kind("once or more"@)->0,
            },
            end,
        }),
{
    reveal_strlit("once or more");
    reveal_strlit("once");
    reveal_strlit(" or more");
    let text = "once or more"@;
    let t1 = text.drop_first();
    let t2 = t1.drop_first();
    let t3 = t2.drop_first();
    let t4 = t3.drop_first();
    assert(spelled_end(s, i + 1, t1) == Some(end));
    assert(spelled_end(s, i + 2, t2) == Some(end));
    assert(spelled_end(s, i + 3, t3) == Some(end));
    assert(spelled_end(s, i + 4, t4) == Some(end));
    assert(t4 =~= " or more"@);
    lemma_word_end_at(s, i, i + 4);
    assert(lowercase_text(s.subrange(i, i + 4)) =~= "once"@);
    assert("once"@ + " or more"@ =~= text);
}

/// The longer of two keywords wins. Where one keyword is the beginning of
/// another and the source spells the longer one, the longer one is the
/// token that is read.
pub proof fn lemma_longer_keyword_is_read(
    s: Seq<char>,
    pos: int,
    shorter: Seq<char>,
    longer: Seq<char>,
)
    requires
        0 <= pos <= s.len(),
        keyword_kind(shorter) is Some,
        keyword_kind(longer) is Some,
        shorter.len() < longer.len(),
        longer.take(shorter.len() as int) == shorter,
        spelled_end(s, skip_separators(s, pos), longer) is Some,
    ensures
        scan_identifier(s, pos) == (Scan::Token {
            token: TokenView { val: longer, token_type: keyword_kind(longer)->0 },
            end: spelled_end(s, skip_separators(s, pos), longer)->0,
        }),
{
    lemma_keyword_prefixes(shorter, longer);
    reveal_strlit("once");
    reveal_strlit("once or more");
    reveal_strlit("times");
    reveal_strlit("if not followed by");
    lemma_spelled_keyword_is_read(s, pos, longer);
}

/// The position of the closing quote, where no backslash and no quote of
/// the same kind stands before it.
proof fn lemma_plain_closing_quote(s: Seq<char>, i: int, close: int, quote: char)
    requires
        0 <= i <= close < s.len(),
        s[close] == quote,
        forall|j: int| i <= j < close ==> #[trigger] s[j] != '\\' && s[j] != quote,
        quote != '\\',
    ensures
        closing_quote(s, i, quote) == close,
    decreases close - i,
{
    if i < close {
        lemma_plain_closing_quote(s, i + 1, close, quote);
    }
}

/// Contents that hold no backslash are left as they are.
pub proof fn lemma_plain_unescape(body: Seq<char>)
    requires
        forall|j: int| 0 <= j < body.len() ==> #[trigger] body[j] != '\\',
    ensures
        unescape(body) == body,
    decreases body.len(),
{
    if body.len() > 0 {
        lemma_plain_unescape(body.skip(1));
    }
}

/// A quoted string keeps its case and every character. Where the first
/// character after the separators at `pos` is a quote, the same quote
/// stands at `close`, and neither it nor a backslash stands in between,
/// the token read in string mode holds exactly the characters in between.
pub proof fn lemma_plain_string_is_kept(s: Seq<char>, pos: int, close: int)
    requires
        0 <= pos <= s.len(),
        skip_separators(s, pos) < close < s.len(),
        is_quote_mark(s[skip_separators(s, pos)]),
        s[close] == s[skip_separators(s, pos)],
        forall|j: int|
            skip_separators(s, pos) < j < close ==> #[trigger] s[j] != '\\' && s[j]
                != s[skip_separators(s, pos)],
    ensures
        scan_string(s, pos) == (Scan::Token {
            token: TokenView {
                val: s.subrange(skip_separators(s, pos) + 1, close),
                token_type: TokenType::String,
            },
            end: close + 1,
        }),
{
    let i = skip_separators(s, pos);
    lemma_skip_separators(s, pos);
    lemma_plain_closing_quote(s, i + 1, close, s[i]);
    lemma_plain_unescape(s.subrange(i + 1, close));
}

/// A keyword that is read word by word never comes to be
/// `if not followed by`, as long as the words read before are no longer
/// than a text may be that is read on.
proof fn lemma_keyword_is_not_the_long_one(s: Seq<char>, i: int, prefix: Seq<char>)
    requires
        0 <= i <= s.len(),
        prefix.len() <= MAX_KEY_LENGTH,
    ensures
        scan_keyword(s, i, prefix) matches Scan::Token { token, .. } ==> token.val
            != "if not followed by"@,
    decreases s.len() - i,
{
    let e = word_end(s, i);
    lemma_word_end(s, i);
    let word = lowercase_text(s.subrange(i, e));
    let text = prefix + word;
    reveal_strlit("if not followed by");
    reveal_strlit("once");
    reveal_strlit(" or more");
    if at_word_end(s, e) {
        if keyword_kind(text) is Some {
            if text == "if not followed by"@ {
                assert(text[15] == ' ');
            }
            if let Some(rest) = longer_form(text) {
                assert((text + rest).len() == 12);
            }
        } else if e < s.len() && !is_bracket(s[e]) && text.len() < MAX_KEY_LENGTH {
            let n = skip_separators(s, e);
            lemma_skip_separators(s, e);
            lemma_skip_separators(s, e + 1);
            if n < s.len() && is_letter(s[n]) {
                lemma_keyword_is_not_the_long_one(s, n, text.push(' '));
            }
        }
    }
}

/// `if not followed by` is never read. Its first three words are no
/// keyword and have the length at which a text that is no keyword is given
/// up, so no text is read as a token of this kind, in any mode.
pub proof fn lemma_if_not_followed_by_is_not_read(s: Seq<char>, pos: int, state: State)
    requires
        0 <= pos <= s.len(),
    ensures
        scan(s, pos, state) matches Some(Scan::Token { token, .. }) ==> token.token_type
            != TokenType::Group(Groups::IfNotFollowedBy),
{
    let i = skip_separators(s, pos);
    lemma_skip_separators(s, pos);
    lemma_skip_separators(s, i);
    lemma_scan_well_shaped(s, pos, state);
    lemma_keyword_is_not_the_long_one(s, i, Seq::empty());
    lemma_only_spelling(Groups::IfNotFollowedBy);
}

/// The one spelling of `if not followed by`.
proof fn lemma_only_spelling(word: Groups)
    requires
        word is IfNotFollowedBy,
    ensures
        forall|text: Seq<char>|
            keyword_kind(text) == Some(TokenType::Group(word)) ==> text == "if not followed by"@,
{
}

} // verus!
