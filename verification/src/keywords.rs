//! Facts about the keyword table that the laws of the lexer rest on.

use vstd::prelude::*;
use crate::grammar::{keyword_kind, MAX_KEY_LENGTH};

verus! {

/// From position `q` on, no beginning of `text` that ends before one of its
/// spaces is a keyword, and each is short enough to be read on.
pub open spec fn gaps_miss(text: Seq<char>, q: int) -> bool
    decreases text.len() - q,
{
    if q < 0 || q >= text.len() {
        true
    } else {
        &&& text[q] == ' ' ==> keyword_kind(text.take(q)) is None && q < MAX_KEY_LENGTH
        &&& gaps_miss(text, q + 1)
    }
}

/// What lets a text be read word by word: it does not end in a space, and
/// none of its beginnings stops the reading early.
pub open spec fn readable(text: Seq<char>) -> bool {
    &&& text.len() > 0
    &&& text.last() != ' '
    &&& gaps_miss(text, 0)
}

/// The two texts hold the same characters from `j` up to the end of the
/// first.
pub open spec fn agree(a: Seq<char>, b: Seq<char>, j: int) -> bool
    decreases a.len() - j,
{
    if j < 0 || j >= a.len() {
        true
    } else {
        a[j] == b[j] && agree(a, b, j + 1)
    }
}

proof fn lemma_prefix_agrees(a: Seq<char>, b: Seq<char>, j: int)
    requires
        a.len() <= b.len(),
        b.take(a.len() as int) == a,
        0 <= j,
    ensures
        agree(a, b, j),
    decreases a.len() - j,
{
    if j < a.len() {
        lemma_prefix_agrees(a, b, j + 1);
    }
}

/// The words that begin a keyword of several words are themselves no
/// keywords, but for `once`.
pub proof fn lemma_beginnings_miss()
    ensures
        keyword_kind("one"@) is None,
        keyword_kind("uppercase"@) is None,
        keyword_kind("any"@) is None,
        keyword_kind("no"@) is None,
        keyword_kind("new"@) is None,
        keyword_kind("once or"@) is None,
        keyword_kind("never"@) is None,
        keyword_kind("never or"@) is None,
        keyword_kind("at"@) is None,
        keyword_kind("either"@) is None,
        keyword_kind("if"@) is None,
        keyword_kind("if followed"@) is None,
        keyword_kind("if not"@) is None,
        keyword_kind("if not followed"@) is None,
        keyword_kind("if already"@) is None,
        keyword_kind("if not already"@) is None,
        keyword_kind("case"@) is None,
        keyword_kind("multi"@) is None,
        keyword_kind("all"@) is None,
        keyword_kind("begin"@) is None,
        keyword_kind("starts"@) is None,
        keyword_kind("must"@) is None,
{
    reveal_strlit("literally");
    reveal_strlit("one of");
    reveal_strlit("letter");
    reveal_strlit("uppercase letter");
    reveal_strlit("any character");
    reveal_strlit("no character");
    reveal_strlit("digit");
    reveal_strlit("anything");
    reveal_strlit("new line");
    reveal_strlit("whitespace");
    reveal_strlit("no whitespace");
    reveal_strlit("tab");
    reveal_strlit("raw");
    reveal_strlit("from");
    reveal_strlit("to");
    reveal_strlit("exactly");
    reveal_strlit("once");
    reveal_strlit("twice");
    reveal_strlit("between");
    reveal_strlit("optional");
    reveal_strlit("once or more");
    reveal_strlit("never or more");
    reveal_strlit("at least");
    reveal_strlit("and");
    reveal_strlit("times");
    reveal_strlit("time");
    reveal_strlit("capture");
    reveal_strlit("as");
    reveal_strlit("any of");
    reveal_strlit("either of");
    reveal_strlit("until");
    reveal_strlit("if followed by");
    reveal_strlit("if not followed by");
    reveal_strlit("if already had");
    reveal_strlit("if not already had");
    reveal_strlit("case insensitive");
    reveal_strlit("multi line");
    reveal_strlit("all lazy");
    reveal_strlit("begin with");
    reveal_strlit("starts with");
    reveal_strlit("must end");
    reveal_strlit("one");
    reveal_strlit("uppercase");
    reveal_strlit("any");
    reveal_strlit("no");
    reveal_strlit("new");
    reveal_strlit("once or");
    reveal_strlit("never");
    reveal_strlit("never or");
    reveal_strlit("at");
    reveal_strlit("either");
    reveal_strlit("if");
    reveal_strlit("if followed");
    reveal_strlit("if not");
    reveal_strlit("if not followed");
    reveal_strlit("if already");
    reveal_strlit("if not already");
    reveal_strlit("case");
    reveal_strlit("multi");
    reveal_strlit("all");
    reveal_strlit("begin");
    reveal_strlit("starts");
    reveal_strlit("must");
    assert("one"@.len() == 3 && "one"@[0] == 'o' && "one"@[2] == 'e');
    assert("uppercase"@.len() == 9
        && "uppercase"@[0] == 'u'
        && "uppercase"@[3] == 'e'
        && "uppercase"@[8] == 'e');
    assert("any"@.len() == 3 && "any"@[0] == 'a' && "any"@[2] == 'y');
    assert("no"@.len() == 2 && "no"@[0] == 'n' && "no"@[1] == 'o');
    assert("new"@.len() == 3 && "new"@[0] == 'n' && "new"@[2] == 'w');
    assert("once or"@.len() == 7
        && "once or"@[0] == 'o'
        && "once or"@[3] == 'e'
        && "once or"@[6] == 'r');
    assert("never"@.len() == 5 && "never"@[0] == 'n' && "never"@[3] == 'e' && "never"@[4] == 'r');
    assert("never or"@.len() == 8
        && "never or"@[0] == 'n'
        && "never or"@[3] == 'e'
        && "never or"@[7] == 'r');
    assert("at"@.len() == 2 && "at"@[0] == 'a' && "at"@[1] == 't');
    assert("either"@.len() == 6
        && "either"@[0] == 'e'
        && "either"@[3] == 'h'
        && "either"@[5] == 'r');
    assert("if"@.len() == 2 && "if"@[0] == 'i' && "if"@[1] == 'f');
    assert("if followed"@.len() == 11
        && "if followed"@[0] == 'i'
        && "if followed"@[3] == 'f'
        && "if followed"@[10] == 'd');
    assert("if not"@.len() == 6
        && "if not"@[0] == 'i'
        && "if not"@[3] == 'n'
        && "if not"@[5] == 't');
    assert("if not followed"@.len() == 15
        && "if not followed"@[0] == 'i'
        && "if not followed"@[3] == 'n'
        && "if not followed"@[14] == 'd');
    assert("if already"@.len() == 10
        && "if already"@[0] == 'i'
        && "if already"@[3] == 'a'
        && "if already"@[9] == 'y');
    assert("if not already"@.len() == 14
        && "if not already"@[0] == 'i'
        && "if not already"@[3] == 'n'
        && "if not already"@[13] == 'y');
    assert("case"@.len() == 4 && "case"@[0] == 'c' && "case"@[3] == 'e');
    assert("multi"@.len() == 5 && "multi"@[0] == 'm' && "multi"@[3] == 't' && "multi"@[4] == 'i');
    assert("all"@.len() == 3 && "all"@[0] == 'a' && "all"@[2] == 'l');
    assert("begin"@.len() == 5 && "begin"@[0] == 'b' && "begin"@[3] == 'i' && "begin"@[4] == 'n');
    assert("starts"@.len() == 6
        && "starts"@[0] == 's'
        && "starts"@[3] == 'r'
        && "starts"@[5] == 's');
    assert("must"@.len() == 4 && "must"@[0] == 'm' && "must"@[3] == 't');
}

/// The words of the atoms can be read word by word.
proof fn lemma_readable_atoms()
    ensures
        readable("literally"@),
        readable("one of"@),
        readable("letter"@),
        readable("uppercase letter"@),
        readable("any character"@),
        readable("no character"@),
        readable("digit"@),
        readable("anything"@),
        readable("new line"@),
        readable("whitespace"@),
        readable("no whitespace"@),
        readable("tab"@),
        readable("raw"@),
{
    reveal_with_fuel(gaps_miss, 20);
    lemma_beginnings_miss();
    reveal_strlit("literally");
    reveal_strlit("one of");
    reveal_strlit("letter");
    reveal_strlit("uppercase letter");
    reveal_strlit("any character");
    reveal_strlit("no character");
    reveal_strlit("digit");
    reveal_strlit("anything");
    reveal_strlit("new line");
    reveal_strlit("whitespace");
    reveal_strlit("no whitespace");
    reveal_strlit("tab");
    reveal_strlit("raw");
    assert("one of"@.take(3) =~= "one"@) by {
        reveal_strlit("one");
    }
    assert("uppercase letter"@.take(9) =~= "uppercase"@) by {
        reveal_strlit("uppercase");
    }
    assert("any character"@.take(3) =~= "any"@) by {
        reveal_strlit("any");
    }
    assert("no character"@.take(2) =~= "no"@) by {
        reveal_strlit("no");
    }
    assert("new line"@.take(3) =~= "new"@) by {
        reveal_strlit("new");
    }
    assert("no whitespace"@.take(2) =~= "no"@) by {
        reveal_strlit("no");
    }
}

/// The words of ranges and quantifiers can be read word by word.
proof fn lemma_readable_counts()
    ensures
        readable("from"@),
        readable("to"@),
        readable("exactly"@),
        readable("once"@),
        readable("twice"@),
        readable("between"@),
        readable("optional"@),
        readable("never or more"@),
        readable("at least"@),
        readable("and"@),
        readable("times"@),
        readable("time"@),
{
    reveal_with_fuel(gaps_miss, 20);
    lemma_beginnings_miss();
    reveal_strlit("from");
    reveal_strlit("to");
    reveal_strlit("exactly");
    reveal_strlit("once");
    reveal_strlit("twice");
    reveal_strlit("between");
    reveal_strlit("optional");
    reveal_strlit("never or more");
    reveal_strlit("at least");
    reveal_strlit("and");
    reveal_strlit("times");
    reveal_strlit("time");
    assert("never or more"@.take(5) =~= "never"@) by {
        reveal_strlit("never");
    }
    assert("never or more"@.take(8) =~= "never or"@) by {
        reveal_strlit("never or");
    }
    assert("at least"@.take(2) =~= "at"@) by {
        reveal_strlit("at");
    }
}

/// The words of groups can be read word by word.
proof fn lemma_readable_groups()
    ensures
        readable("capture"@),
        readable("as"@),
        readable("any of"@),
        readable("either of"@),
        readable("until"@),
        readable("if followed by"@),
        readable("if already had"@),
        readable("if not already had"@),
{
    reveal_with_fuel(gaps_miss, 20);
    lemma_beginnings_miss();
    reveal_strlit("capture");
    reveal_strlit("as");
    reveal_strlit("any of");
    reveal_strlit("either of");
    reveal_strlit("until");
    reveal_strlit("if followed by");
    reveal_strlit("if already had");
    reveal_strlit("if not already had");
    assert("any of"@.take(3) =~= "any"@) by {
        reveal_strlit("any");
    }
    assert("either of"@.take(6) =~= "either"@) by {
        reveal_strlit("either");
    }
    assert("if followed by"@.take(2) =~= "if"@) by {
        reveal_strlit("if");
    }
    assert("if followed by"@.take(11) =~= "if followed"@) by {
        reveal_strlit("if followed");
    }
    assert("if already had"@.take(2) =~= "if"@) by {
        reveal_strlit("if");
    }
    assert("if already had"@.take(10) =~= "if already"@) by {
        reveal_strlit("if already");
    }
    assert("if not already had"@.take(2) =~= "if"@) by {
        reveal_strlit("if");
    }
    assert("if not already had"@.take(6) =~= "if not"@) by {
        reveal_strlit("if not");
    }
    assert("if not already had"@.take(14) =~= "if not already"@) by {
        reveal_strlit("if not already");
    }
}

/// The flags and the anchors can be read word by word.
proof fn lemma_readable_flags_and_anchors()
    ensures
        readable("case insensitive"@),
        readable("multi line"@),
        readable("all lazy"@),
        readable("begin with"@),
        readable("starts with"@),
        readable("must end"@),
{
    reveal_with_fuel(gaps_miss, 20);
    lemma_beginnings_miss();
    reveal_strlit("case insensitive");
    reveal_strlit("multi line");
    reveal_strlit("all lazy");
    reveal_strlit("begin with");
    reveal_strlit("starts with");
    reveal_strlit("must end");
    assert("case insensitive"@.take(4) =~= "case"@) by {
        reveal_strlit("case");
    }
    assert("multi line"@.take(5) =~= "multi"@) by {
        reveal_strlit("multi");
    }
    assert("all lazy"@.take(3) =~= "all"@) by {
        reveal_strlit("all");
    }
    assert("begin with"@.take(5) =~= "begin"@) by {
        reveal_strlit("begin");
    }
    assert("starts with"@.take(6) =~= "starts"@) by {
        reveal_strlit("starts");
    }
    assert("must end"@.take(4) =~= "must"@) by {
        reveal_strlit("must");
    }
}

/// Every keyword but two can be read word by word. `once or more` begins
/// with the keyword `once`, and `if not followed` is too long to be read
/// on.
pub proof fn lemma_keyword_shape(keyword: Seq<char>)
    requires
        keyword_kind(keyword) is Some,
        keyword != "if not followed by"@,
        keyword != "once or more"@,
    ensures
        readable(keyword),
{
    lemma_readable_atoms();
    lemma_readable_counts();
    lemma_readable_groups();
    lemma_readable_flags_and_anchors();
}

/// The only keywords that begin another keyword are `once`, which begins
/// `once or more`, and `time`, which begins `times`.
pub proof fn lemma_keyword_prefixes(shorter: Seq<char>, longer: Seq<char>)
    requires
        keyword_kind(shorter) is Some,
        keyword_kind(longer) is Some,
        shorter.len() < longer.len(),
        longer.take(shorter.len() as int) == shorter,
    ensures
        (shorter == "once"@ && longer == "once or more"@) || (shorter == "time"@ && longer
            == "times"@),
{
    lemma_prefix_agrees(shorter, longer, 0);
    reveal_with_fuel(agree, 20);
    reveal_strlit("literally");
    reveal_strlit("one of");
    reveal_strlit("letter");
    reveal_strlit("uppercase letter");
    reveal_strlit("any character");
    reveal_strlit("no character");
    reveal_strlit("digit");
    reveal_strlit("anything");
    reveal_strlit("new line");
    reveal_strlit("whitespace");
    reveal_strlit("no whitespace");
    reveal_strlit("tab");
    reveal_strlit("raw");
    reveal_strlit("from");
    reveal_strlit("to");
    reveal_strlit("exactly");
    reveal_strlit("once");
    reveal_strlit("twice");
    reveal_strlit("between");
    reveal_strlit("optional");
    reveal_strlit("once or more");
    reveal_strlit("never or more");
    reveal_strlit("at least");
    reveal_strlit("and");
    reveal_strlit("times");
    reveal_strlit("time");
    reveal_strlit("capture");
    reveal_strlit("as");
    reveal_strlit("any of");
    reveal_strlit("either of");
    reveal_strlit("until");
    reveal_strlit("if followed by");
    reveal_strlit("if not followed by");
    reveal_strlit("if already had");
    reveal_strlit("if not already had");
    reveal_strlit("case insensitive");
    reveal_strlit("multi line");
    reveal_strlit("all lazy");
    reveal_strlit("begin with");
    reveal_strlit("starts with");
    reveal_strlit("must end");
}

} // verus!
