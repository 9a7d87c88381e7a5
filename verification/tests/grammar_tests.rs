use srl::ast::{CharKind, Character, Expr, Group, LookAround, Quantifier};
use srl::lexer::Lexer;
use srl::parser::Parser;
use srl::scan::LexError;
use srl::syntax::{Error, ParseError};
use srl::token::{Anchors, Flags, Groups, TokenType};

fn parser(source: &str) -> Parser {
    Parser::new(Lexer::new(source))
}

fn atom(kind: CharKind) -> Expr {
    Expr::Character(Character::CharKind(kind), None, vec![])
}

fn whole_quantifier(source: &str) -> Option<Quantifier> {
    let mut p = parser(source);
    let q = p.parse_quantifier().unwrap();
    assert!(p.at_end());
    q
}

fn whole_flags(source: &str) -> Vec<Flags> {
    let mut p = parser(source);
    let flags = p.parse_flags();
    assert!(p.at_end());
    flags
}

fn whole_expr(source: &str) -> Expr {
    let mut p = parser(source);
    let e = p.parse_expr().unwrap();
    assert!(p.at_end());
    e
}

#[test]
fn test_number() {
    let mut p = parser("123456");
    assert_eq!(p.parse_number(), Ok(123456));
    assert!(p.at_end());
}

#[test]
fn test_alpha() {
    let mut lower = Lexer::new("a");
    let token = lower.next_char_or_digit().unwrap();
    assert_eq!(token.val(), "a");
    assert_eq!(token.token_type(), TokenType::Char);
    assert_eq!(lower.next().unwrap().token_type(), TokenType::EndOfFile);

    let mut upper = Lexer::new("U");
    let token = upper.next_char_or_digit().unwrap();
    assert_eq!(token.val(), "U");
    assert_eq!(token.token_type(), TokenType::Char);
    assert_eq!(upper.next().unwrap().token_type(), TokenType::EndOfFile);
}

#[test]
fn test_quantifier() {
    assert_eq!(whole_quantifier("exactly 78 Times"), Some(Quantifier::Exactly(78)));
    assert_eq!(whole_quantifier("once"), Some(Quantifier::Once));
    assert_eq!(whole_quantifier("twice"), Some(Quantifier::Twice));
    assert_eq!(
        whole_quantifier("between 78 and 100 Times"),
        Some(Quantifier::Between { from: 78, to: 100 })
    );
    assert_eq!(
        whole_quantifier("between 78 and 100"),
        Some(Quantifier::Between { from: 78, to: 100 })
    );
    assert_eq!(whole_quantifier("optional"), Some(Quantifier::Optional));
    assert_eq!(whole_quantifier("once or more"), Some(Quantifier::OnceOrMore));
    assert_eq!(whole_quantifier("never or more"), Some(Quantifier::NeverOrMore));
    assert_eq!(whole_quantifier("at least 8 times"), Some(Quantifier::AtLeast(8)));

    let mut one_word = parser("atleast 8 times");
    assert_eq!(one_word.parse_quantifier(), Ok(None));
    assert!(!one_word.at_end());
    assert_eq!(one_word.parse(), Err(Error::Lex(LexError::InvalidChar)));
}

#[test]
fn test_anchor() {
    assert_eq!(parser("begin with").parse(), Ok(vec![Expr::Anchor(Anchors::BeginWith)]));
    assert_eq!(parser("starts with").parse(), Ok(vec![Expr::Anchor(Anchors::BeginWith)]));
    assert_eq!(parser("must end").parse(), Ok(vec![Expr::Anchor(Anchors::MustEnd)]));
    assert_eq!(parser("start with").parse(), Err(Error::Lex(LexError::InvalidChar)));
}

#[test]
fn test_flags() {
    assert_eq!(whole_flags("case insensitive"), vec![Flags::CaseInsensitive]);
    assert_eq!(whole_flags("multi line"), vec![Flags::MultiLine]);
    assert_eq!(whole_flags("all lazy"), vec![Flags::AllLazy]);

    let mut one_word = parser("multiline");
    assert_eq!(one_word.parse_flags(), vec![]);
    assert!(!one_word.at_end());
    assert_eq!(one_word.parse(), Err(Error::Lex(LexError::InvalidChar)));
}

#[test]
fn test_character() {
    assert_eq!(whole_expr("literally \"str\""), atom(CharKind::Literally(String::from("str"))));
    assert_eq!(
        whole_expr("one of \"abc\\\"def\""),
        atom(CharKind::OneOf(String::from("abc\"def")))
    );
    assert_eq!(whole_expr("letter from a to k"), atom(CharKind::Letter { from: 'a', to: 'k' }));
    assert_eq!(whole_expr("letter"), atom(CharKind::Letter { from: 'a', to: 'z' }));
    assert_eq!(
        whole_expr("uppercase letter from A to L"),
        atom(CharKind::UppercaseLetter { from: 'A', to: 'L' })
    );
    assert_eq!(
        whole_expr("uppercase letter"),
        atom(CharKind::UppercaseLetter { from: 'A', to: 'Z' })
    );
    assert_eq!(whole_expr("any character"), atom(CharKind::AnyCharacter));
    assert_eq!(whole_expr("no character"), atom(CharKind::NoCharacter));
    assert_eq!(whole_expr("digit from 5 to 9"), atom(CharKind::Digit { from: 5, to: 9 }));
    assert_eq!(whole_expr("digit"), atom(CharKind::Digit { from: 0, to: 9 }));
    assert_eq!(whole_expr("anything"), atom(CharKind::Anything));
    assert_eq!(whole_expr("new line"), atom(CharKind::NewLine));
    assert_eq!(whole_expr("whitespace"), atom(CharKind::Whitespace));
    assert_eq!(whole_expr("tab"), atom(CharKind::Tab));
    assert_eq!(whole_expr("no whitespace"), atom(CharKind::NoWhitespace));
    assert_eq!(whole_expr("raw \"abc\\\"def\""), atom(CharKind::Raw(String::from("abc\"def"))));
    assert_eq!(
        whole_expr("capture (literally \"abcdef\") as \"name\""),
        Expr::Character(
            Character::Group(Group::Capture {
                inner: vec![atom(CharKind::Literally(String::from("abcdef")))],
                name: Some(String::from("name")),
            }),
            None,
            vec![]
        )
    );
    assert_eq!(
        parser("(literally \"abcdef\")").parse_expr(),
        Err(Error::Parse(ParseError::UnexpectedToken))
    );
}

#[test]
fn test_group() {
    let literal = || atom(CharKind::Literally(String::from("abcdef")));

    let mut p = parser("\"abcdef\"");
    assert_eq!(p.parse_inner(Groups::Capture), Ok(vec![literal()]));
    assert!(p.at_end());

    let mut p = parser("(literally \"abcdef\")");
    assert_eq!(p.parse_inner(Groups::Capture), Ok(vec![literal()]));
    assert!(p.at_end());

    let mut p = parser("letter from a to c");
    assert_eq!(
        p.parse_inner(Groups::IfFollowedBy),
        Ok(vec![atom(CharKind::Letter { from: 'a', to: 'c' })])
    );
    assert!(p.at_end());
    assert_eq!(
        parser("letter").parse_inner(Groups::Capture),
        Err(Error::Parse(ParseError::UnexpectedToken))
    );
    assert_eq!(parser("\"\"").parse_inner(Groups::Until), Err(Error::Parse(ParseError::EmptyGroup)));
    assert_eq!(parser("()").parse_inner(Groups::Until), Err(Error::Parse(ParseError::EmptyGroup)));
    assert_eq!(parser("(tab").parse_inner(Groups::Until), Err(Error::Parse(ParseError::UnexpectedEnd)));

    assert_eq!(
        parser("until (literally \"abcdef\")").parse_group(),
        Ok(Expr::Character(Character::Group(Group::Until { inner: vec![literal()] }), None, vec![]))
    );
    assert_eq!(
        parser("any of (literally \"abcdef\", digit twice) optional").parse_group(),
        Ok(Expr::Character(
            Character::Group(Group::AnyOf {
                inner: vec![
                    literal(),
                    Expr::Character(
                        Character::CharKind(CharKind::Digit { from: 0, to: 9 }),
                        Some(Quantifier::Twice),
                        vec![]
                    )
                ]
            }),
            Some(Quantifier::Optional),
            vec![]
        ))
    );
    assert_eq!(
        parser("if already had letter from a to c multi line").parse_group(),
        Ok(Expr::Character(
            Character::Group(Group::LookAround {
                kind: LookAround::IfAlreadyHad,
                inner: vec![atom(CharKind::Letter { from: 'a', to: 'c' })],
            }),
            None,
            vec![Flags::MultiLine]
        ))
    );
    assert_eq!(parser("capture digit").parse_group(), Err(Error::Parse(ParseError::UnexpectedToken)));
    assert_eq!(parser("capture (capture ())").parse_group(), Err(Error::Parse(ParseError::EmptyGroup)));
    assert_eq!(parser("as \"x\"").parse_group(), Err(Error::Parse(ParseError::UnexpectedToken)));
}

#[test]
fn productions_read_what_is_at_hand() {
    let mut p = parser("\"a\" tab twice, digit ) case insensitive");
    assert_eq!(p.parse_string(), Ok(String::from("a")));
    assert_eq!(
        p.parse_sequence(),
        Ok(vec![
            Expr::Character(Character::CharKind(CharKind::Tab), Some(Quantifier::Twice), vec![]),
            atom(CharKind::Digit { from: 0, to: 9 }),
        ])
    );
    assert!(!p.at_end());
    assert_eq!(p.parse_sequence(), Ok(vec![]));
    assert_eq!(p.parse_string(), Err(Error::Parse(ParseError::UnexpectedToken)));
    assert_eq!(p.parse_number(), Err(Error::Parse(ParseError::UnexpectedToken)));

    let mut p = parser("letter from b to d");
    assert_eq!(p.parse_atom(srl::token::Characters::Tab), Ok(CharKind::Tab));
    assert_eq!(p.parse_expr(), Ok(atom(CharKind::Letter { from: 'b', to: 'd' })));
    assert_eq!(p.parse_number(), Err(Error::Parse(ParseError::UnexpectedEnd)));
}
