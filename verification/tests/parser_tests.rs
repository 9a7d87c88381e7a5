use srl::ast::{CharKind, Character, Expr, Quantifier};
use srl::lexer::Lexer;
use srl::parser::{number_value, Parser};
use srl::scan::LexError;
use srl::syntax::{Error, ParseError};
use srl::token::{Anchors, Characters, Flags};

fn parse(source: &str) -> Result<Vec<Expr>, Error> {
    Parser::new(Lexer::new(source)).parse()
}

fn atom(kind: CharKind) -> Expr {
    Expr::Character(Character::CharKind(kind), None, vec![])
}

fn quantified(kind: CharKind, q: Quantifier) -> Expr {
    Expr::Character(Character::CharKind(kind), Some(q), vec![])
}

fn digits() -> CharKind {
    CharKind::Digit { from: 0, to: 9 }
}

#[test]
fn a_quantifier_belongs_to_the_atom_before_it() {
    assert_eq!(
        parse("letter twice"),
        Ok(vec![quantified(CharKind::Letter { from: 'a', to: 'z' }, Quantifier::Twice)])
    );
    assert_eq!(
        parse("literally \"ab\" between 2 and 3 times"),
        Ok(vec![quantified(
            CharKind::Literally(String::from("ab")),
            Quantifier::Between { from: 2, to: 3 }
        )])
    );
    assert_eq!(
        parse("tab optional, digit at least 4 times"),
        Ok(vec![
            quantified(CharKind::Tab, Quantifier::Optional),
            quantified(digits(), Quantifier::AtLeast(4)),
        ])
    );
}

#[test]
fn time_is_read_behind_one_only() {
    assert_eq!(parse("digit exactly 1 time"), Ok(vec![quantified(digits(), Quantifier::Exactly(1))]));
    assert_eq!(parse("digit exactly 1 times"), Ok(vec![quantified(digits(), Quantifier::Exactly(1))]));
    assert_eq!(parse("digit at least 1 time"), Ok(vec![quantified(digits(), Quantifier::AtLeast(1))]));
    assert_eq!(parse("digit exactly 01 time"), Ok(vec![quantified(digits(), Quantifier::Exactly(1))]));
    assert_eq!(parse("digit exactly 2 time"), Err(Error::Parse(ParseError::UnexpectedToken)));
    assert_eq!(parse("digit between 1 and 2 time"), Err(Error::Parse(ParseError::UnexpectedToken)));
}

#[test]
fn parse_expr_reads_one_expression() {
    let mut parser = Parser::new(Lexer::new("digit twice tab"));
    assert_eq!(parser.parse_expr(), Ok(quantified(digits(), Quantifier::Twice)));
    assert_eq!(parser.parse_expr(), Ok(atom(CharKind::Tab)));
    assert_eq!(parser.parse_expr(), Err(Error::Parse(ParseError::UnexpectedEnd)));

    let mut parser = Parser::new(Lexer::new("twice"));
    assert_eq!(parser.parse_expr(), Err(Error::Parse(ParseError::UnexpectedToken)));

    let mut parser = Parser::new(Lexer::new("?"));
    assert_eq!(parser.parse_expr(), Err(Error::Lex(LexError::InvalidChar)));
}

#[test]
fn parse_character_needs_its_word_at_hand() {
    let mut parser = Parser::new(Lexer::new("letter from b to d once"));
    assert_eq!(
        parser.parse_character(Characters::Letter),
        Ok(quantified(CharKind::Letter { from: 'b', to: 'd' }, Quantifier::Once))
    );

    let mut parser = Parser::new(Lexer::new("digit"));
    assert_eq!(
        parser.parse_character(Characters::Letter),
        Err(Error::Parse(ParseError::UnexpectedToken))
    );

    let mut parser = Parser::new(Lexer::new(""));
    assert_eq!(
        parser.parse_character(Characters::Letter),
        Err(Error::Parse(ParseError::UnexpectedEnd))
    );
}

#[test]
fn a_parser_on_a_failed_lexer_reports_its_error() {
    let mut lexer = Lexer::new("\"abc");
    assert!(lexer.next().is_none());
    assert!(lexer.is_error());
    assert_eq!(Parser::new(lexer).parse(), Err(Error::Lex(LexError::UnterminatedString)));
}

#[test]
fn counts_that_fit() {
    assert_eq!(number_value("0"), Some(0));
    assert_eq!(number_value("007"), Some(7));
    assert_eq!(number_value("2147483647"), Some(2147483647));
    assert_eq!(number_value("2147483648"), None);
    assert_eq!(number_value("99999999999999999999"), None);
    assert_eq!(number_value(""), Some(0));
}

#[test]
fn a_whole_pattern_is_framed_by_anchors() {
    assert_eq!(parse(""), Ok(vec![]));
    assert_eq!(
        parse("begin with tab must end"),
        Ok(vec![
            Expr::Anchor(Anchors::BeginWith),
            atom(CharKind::Tab),
            Expr::Anchor(Anchors::MustEnd),
        ])
    );
    assert_eq!(
        parse("tab case insensitive multi line all lazy"),
        Ok(vec![Expr::Character(
            Character::CharKind(CharKind::Tab),
            None,
            vec![Flags::CaseInsensitive, Flags::MultiLine, Flags::AllLazy]
        )])
    );
    assert_eq!(parse("case insensitive"), Err(Error::Parse(ParseError::UnexpectedToken)));
    assert_eq!(parse("tab )"), Err(Error::Parse(ParseError::UnexpectedToken)));
}
