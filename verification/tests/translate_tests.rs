use srl::scan::LexError;
use srl::syntax::{Error, ParseError};
use srl::{srl, translate};

fn pattern(source: &str) -> String {
    translate(source).unwrap()
}

#[test]
fn range_with_count_between_anchors() {
    assert_eq!(
        pattern("begin with letter from a to f exactly 3 times, must end"),
        "^[a-f]{3}$"
    );
}

#[test]
fn quantified_literal_with_flag() {
    assert_eq!(pattern("literally \"foo\", once or more, case insensitive"), "(?i)(?:foo)+");
}

#[test]
fn named_capture() {
    assert_eq!(
        pattern("capture (digit from 0 to 9 between 2 and 4 times) as \"year\""),
        "(?P<year>[0-9]{2,4})"
    );
}

#[test]
fn any_of_joins_alternatives() {
    assert_eq!(pattern("any of (literally \"cat\", literally \"dog\")"), "(?:cat|dog)");
}

#[test]
fn lookahead_behind_an_atom() {
    assert_eq!(pattern("letter if followed by digit"), "[a-z](?=[0-9])");
}

#[test]
fn synonym_of_begin_with() {
    assert_eq!(pattern("starts with anything never or more must end"), "^.*$");
}

#[test]
fn srl_gives_the_pattern() {
    assert_eq!(srl("digit twice"), "[0-9]{2}");
}

#[test]
fn empty_source_is_the_empty_pattern() {
    assert_eq!(pattern(""), "");
    assert_eq!(pattern(" ,\n\t"), "");
    assert_eq!(pattern("begin with must end"), "^$");
}

#[test]
fn keywords_ignore_case_and_literals_keep_it() {
    assert_eq!(pattern("Literally \"AbC\""), "AbC");
    assert_eq!(pattern("lItErAlLy \"AbC\""), "AbC");
}

#[test]
fn separators_between_words_collapse() {
    assert_eq!(pattern("no \t,\n whitespace"), "\\S");
    assert_eq!(pattern("any   character"), "\\w");
    assert_eq!(pattern("if  not   already ,, had \"x\""), "(?<!x)");
}

#[test]
fn once_alone_and_once_or_more() {
    assert_eq!(pattern("digit once"), "[0-9]");
    assert_eq!(pattern("digit once, letter"), "[0-9][a-z]");
    assert_eq!(pattern("digit once or more"), "[0-9]+");
    assert_eq!(pattern("digit ONCE  or,MORE"), "[0-9]+");
}

#[test]
fn emitting_twice_gives_the_same_text() {
    for source in [
        "literally \"a.b\"",
        "one of \"a-z]\"",
        "raw \"[x]+\"",
        "letter",
        "uppercase letter",
        "digit",
        "any character",
        "no character",
        "anything",
        "new line",
        "whitespace",
        "no whitespace",
        "tab",
    ] {
        assert_eq!(translate(source), translate(source));
    }
}

#[test]
fn atoms_render_as_listed() {
    assert_eq!(pattern("literally \"a.b\\\\c+*?[]{}()|^$\""), "a\\.b\\\\c\\+\\*\\?\\[\\]\\{\\}\\(\\)\\|\\^\\$");
    assert_eq!(pattern("one of \"a-z]^\\\\\""), "[a\\-z\\]\\^\\\\]");
    assert_eq!(pattern("raw \"[x]+\""), "[x]+");
    assert_eq!(pattern("letter"), "[a-z]");
    assert_eq!(pattern("uppercase letter"), "[A-Z]");
    assert_eq!(pattern("uppercase letter from C to F"), "[C-F]");
    assert_eq!(pattern("digit"), "[0-9]");
    assert_eq!(pattern("digit from 3 to 5"), "[3-5]");
    assert_eq!(pattern("any character"), "\\w");
    assert_eq!(pattern("no character"), "\\W");
    assert_eq!(pattern("anything"), ".");
    assert_eq!(pattern("new line"), "\\n");
    assert_eq!(pattern("whitespace"), "\\s");
    assert_eq!(pattern("no whitespace"), "\\S");
    assert_eq!(pattern("tab"), "\\t");
}

#[test]
fn quantifiers_render_as_listed() {
    assert_eq!(pattern("digit once"), "[0-9]");
    assert_eq!(pattern("digit twice"), "[0-9]{2}");
    assert_eq!(pattern("digit optional"), "[0-9]?");
    assert_eq!(pattern("digit never or more"), "[0-9]*");
    assert_eq!(pattern("digit once or more"), "[0-9]+");
    assert_eq!(pattern("digit exactly 12 times"), "[0-9]{12}");
    assert_eq!(pattern("digit exactly 1 time"), "[0-9]{1}");
    assert_eq!(pattern("digit at least 0 times"), "[0-9]{0,}");
    assert_eq!(pattern("digit between 3 and 305"), "[0-9]{3,305}");
    assert_eq!(pattern("digit exactly 2147483647 times"), "[0-9]{2147483647}");
    assert_eq!(pattern("raw \"ab\" twice"), "(?:ab){2}");
}

#[test]
fn groups_render_as_listed() {
    assert_eq!(pattern("capture \"a\""), "(a)");
    assert_eq!(pattern("capture (letter, digit) twice"), "([a-z][0-9]){2}");
    assert_eq!(pattern("either of (digit, letter, tab)"), "(?:[0-9]|[a-z]|\\t)");
    assert_eq!(pattern("digit until \".\""), "[0-9].*?\\.");
    assert_eq!(pattern("letter if already had (digit)"), "[a-z](?<=[0-9])");
    assert_eq!(pattern("letter if not already had digit from 0 to 3"), "[a-z](?<![0-3])");
}

#[test]
fn flags_stand_before_the_pattern() {
    assert_eq!(
        pattern("begin with letter, case insensitive, multi line, all lazy, must end"),
        "(?imU)^[a-z]$"
    );
    assert_eq!(pattern("capture (letter all lazy) multi line"), "(?Um)([a-z])");
}

#[test]
fn anchors_only_at_the_ends() {
    assert_eq!(
        translate("letter begin with digit"),
        Err(Error::Parse(ParseError::UnexpectedToken))
    );
    assert_eq!(
        translate("letter must end digit"),
        Err(Error::Parse(ParseError::UnexpectedToken))
    );
    assert_eq!(
        translate("must end begin with"),
        Err(Error::Parse(ParseError::UnexpectedToken))
    );
    assert_eq!(
        translate("capture (begin with letter)"),
        Err(Error::Parse(ParseError::UnexpectedToken))
    );
    assert_eq!(
        translate("letter must end case insensitive"),
        Err(Error::Parse(ParseError::UnexpectedToken))
    );
}

#[test]
fn each_parse_error() {
    assert_eq!(translate("twice"), Err(Error::Parse(ParseError::UnexpectedToken)));
    assert_eq!(
        translate("digit case insensitive twice"),
        Err(Error::Parse(ParseError::UnexpectedToken))
    );
    assert_eq!(
        translate("letter if followed by \"a\" twice"),
        Err(Error::Parse(ParseError::UnexpectedToken))
    );
    assert_eq!(translate("digit exactly 3 time"), Err(Error::Parse(ParseError::UnexpectedToken)));
    assert_eq!(translate("digit exactly 3"), Err(Error::Parse(ParseError::UnexpectedEnd)));
    assert_eq!(translate("capture (letter"), Err(Error::Parse(ParseError::UnexpectedEnd)));
    assert_eq!(translate("letter from z to a"), Err(Error::Parse(ParseError::BadRange)));
    assert_eq!(translate("letter from A to Z"), Err(Error::Parse(ParseError::BadRange)));
    assert_eq!(translate("uppercase letter from a to z"), Err(Error::Parse(ParseError::BadRange)));
    assert_eq!(translate("digit from a to z"), Err(Error::Parse(ParseError::BadRange)));
    assert_eq!(
        translate("digit between 4 and 2 times"),
        Err(Error::Parse(ParseError::BadQuantifierBound))
    );
    assert_eq!(
        translate("digit exactly 2147483648 times"),
        Err(Error::Parse(ParseError::BadQuantifierBound))
    );
    assert_eq!(translate("capture \"\""), Err(Error::Parse(ParseError::EmptyGroup)));
    assert_eq!(translate("capture ()"), Err(Error::Parse(ParseError::EmptyGroup)));
}

#[test]
fn each_lex_error() {
    assert_eq!(translate("letter ?"), Err(Error::Lex(LexError::InvalidChar)));
    assert_eq!(translate("letter from"), Err(Error::Lex(LexError::InvalidChar)));
    assert_eq!(translate("lettre"), Err(Error::Lex(LexError::InvalidChar)));
    assert_eq!(
        translate("one two three four five"),
        Err(Error::Lex(LexError::OverlongIdentifier))
    );
    assert_eq!(translate("literally \"abc"), Err(Error::Lex(LexError::UnterminatedString)));
    assert_eq!(translate("literally"), Err(Error::Lex(LexError::UnterminatedString)));
    assert_eq!(translate("digit exactly"), Err(Error::Lex(LexError::EmptyNumber)));
    assert_eq!(translate("digit exactly x"), Err(Error::Lex(LexError::InvalidChar)));
}

#[test]
fn the_first_error_is_reported() {
    assert_eq!(
        translate("twice literally \"abc"),
        Err(Error::Parse(ParseError::UnexpectedToken))
    );
    assert_eq!(
        translate("letter from z to a literally \"abc"),
        Err(Error::Parse(ParseError::BadRange))
    );
}

#[test]
fn words_that_reach_the_length_limit_are_given_up() {
    assert_eq!(
        translate("letter if not followed by digit"),
        Err(Error::Lex(LexError::OverlongIdentifier))
    );
}

#[test]
fn brackets_end_words_and_numbers() {
    assert_eq!(pattern("capture(letter)"), "([a-z])");
    assert_eq!(pattern("capture (digit between 1 and 3)"), "([0-9]{1,3})");
    assert_eq!(pattern("capture (digit exactly 3 times)twice"), "([0-9]{3}){2}");
    assert_eq!(translate("letter from a to k twice)"), Err(Error::Parse(ParseError::UnexpectedToken)));
    assert_eq!(translate("lettre(digit)"), Err(Error::Lex(LexError::InvalidChar)));
    assert_eq!(translate("no (digit)"), Err(Error::Lex(LexError::InvalidChar)));
}

#[test]
fn strings_keep_what_stands_behind_a_backslash() {
    assert_eq!(pattern("raw \"a\\\"b\""), "a\"b");
    assert_eq!(pattern("raw 'a\\'b'"), "a'b");
    assert_eq!(pattern("raw 'a\"b'"), "a\"b");
    assert_eq!(pattern("raw \"a\\nb\""), "anb");
    assert_eq!(pattern("raw \"a\\\\b\""), "a\\b");
    assert_eq!(pattern("raw \"héllo, wörld\""), "héllo, wörld");
    assert_eq!(pattern("raw \"\""), "");
    assert_eq!(translate("raw \"abc\\"), Err(Error::Lex(LexError::UnterminatedString)));
    assert_eq!(translate("raw \"abc\\\""), Err(Error::Lex(LexError::UnterminatedString)));
    assert_eq!(translate("raw abc"), Err(Error::Lex(LexError::InvalidChar)));
}

#[test]
fn groups_nest() {
    assert_eq!(
        pattern("capture (any of (digit, capture (letter) as \"l\") twice, until \"x\")"),
        "((?:[0-9]|(?P<l>[a-z])){2}.*?x)"
    );
    assert_eq!(
        pattern("begin with any of (literally \"a.b\" once or more, one of \"xyz\") at least 2 times"),
        "^(?:(?:a\\.b)+|[xyz]){2,}"
    );
}

#[test]
fn every_flag_counts() {
    assert_eq!(pattern("tab case insensitive case insensitive"), "(?ii)\\t");
    assert_eq!(pattern("tab all lazy, digit multi line"), "(?Um)\\t[0-9]");
}

#[test]
fn a_number_at_the_start_is_no_pattern() {
    assert_eq!(translate("5"), Err(Error::Parse(ParseError::UnexpectedToken)));
    assert_eq!(translate("\"abc\""), Err(Error::Parse(ParseError::UnexpectedToken)));
    assert_eq!(translate("digit exactly 3times"), Err(Error::Lex(LexError::InvalidChar)));
    assert_eq!(pattern("digit exactly 0003 times"), "[0-9]{3}");
}

#[test]
fn words_with_other_characters_are_no_keywords() {
    assert_eq!(translate("létter"), Err(Error::Lex(LexError::InvalidChar)));
    assert_eq!(translate("letter5"), Err(Error::Lex(LexError::InvalidChar)));
    assert_eq!(translate("letter_"), Err(Error::Lex(LexError::InvalidChar)));
    assert_eq!(translate("uppercase"), Err(Error::Lex(LexError::InvalidChar)));
    assert_eq!(translate("uppercase "), Err(Error::Lex(LexError::InvalidChar)));
    assert_eq!(translate("uppercase digit"), Err(Error::Lex(LexError::InvalidChar)));
    assert_eq!(
        translate("abcdefghijklmnopqrstuvwxyz digit"),
        Err(Error::Lex(LexError::OverlongIdentifier))
    );
    assert_eq!(translate("abcdefghijklmn digit"), Err(Error::Lex(LexError::InvalidChar)));
    assert_eq!(translate("abcdefghijklmno digit"), Err(Error::Lex(LexError::OverlongIdentifier)));
}
