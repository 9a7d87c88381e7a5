use srl::ast::{CharKind, Character, Expr, Group, LookAround, Quantifier};
use srl::builder::Builder;
use srl::lexer::Lexer;
use srl::parser::Parser;
use srl::token::{Anchors, Flags};

fn atom(kind: CharKind) -> Expr {
    Expr::Character(Character::CharKind(kind), None, vec![])
}

fn group(g: Group, q: Option<Quantifier>) -> Expr {
    Expr::Character(Character::Group(g), q, vec![])
}

fn text(s: &str) -> CharKind {
    CharKind::Literally(String::from(s))
}

#[test]
fn an_empty_pattern_is_the_empty_text() {
    assert_eq!(Builder::from_ast(&vec![]), "");
    assert_eq!(Builder::new().finish(), "");
}

#[test]
fn a_literal_is_grouped_when_quantified() {
    assert_eq!(Builder::from_ast(&vec![atom(text("foo"))]), "foo");
    assert_eq!(
        Builder::from_ast(&vec![Expr::Character(
            Character::CharKind(text("foo")),
            Some(Quantifier::Once),
            vec![]
        )]),
        "(?:foo)"
    );
    assert_eq!(
        Builder::from_ast(&vec![Expr::Character(
            Character::CharKind(CharKind::OneOf(String::from("abc"))),
            Some(Quantifier::NeverOrMore),
            vec![]
        )]),
        "[abc]*"
    );
}

#[test]
fn each_assertion_has_its_opening() {
    let look = |kind| group(Group::LookAround { kind, inner: vec![atom(text("x"))] }, None);
    assert_eq!(Builder::from_ast(&vec![look(LookAround::IfFollowedBy)]), "(?=x)");
    assert_eq!(Builder::from_ast(&vec![look(LookAround::IfNotFollowedBy)]), "(?!x)");
    assert_eq!(Builder::from_ast(&vec![look(LookAround::IfAlreadyHad)]), "(?<=x)");
    assert_eq!(Builder::from_ast(&vec![look(LookAround::IfNotAlreadyHad)]), "(?<!x)");
}

#[test]
fn until_is_lazy_and_grouped_when_quantified() {
    let inner = || vec![atom(text("x")), atom(CharKind::Tab)];
    assert_eq!(Builder::from_ast(&vec![group(Group::Until { inner: inner() }, None)]), ".*?x\\t");
    assert_eq!(
        Builder::from_ast(&vec![group(Group::Until { inner: inner() }, Some(Quantifier::Twice))]),
        "(?:.*?x\\t){2}"
    );
}

#[test]
fn captures_and_alternatives() {
    let inner = || vec![atom(text("a")), atom(text("b"))];
    assert_eq!(
        Builder::from_ast(&vec![group(Group::Capture { inner: inner(), name: None }, None)]),
        "(ab)"
    );
    assert_eq!(
        Builder::from_ast(&vec![group(
            Group::Capture { inner: inner(), name: Some(String::from("n")) },
            Some(Quantifier::Optional)
        )]),
        "(?P<n>ab)?"
    );
    assert_eq!(
        Builder::from_ast(&vec![group(Group::AnyOf { inner: inner() }, None)]),
        "(?:a|b)"
    );
    assert_eq!(
        Builder::from_ast(&vec![group(Group::AnyOf { inner: vec![atom(text("a"))] }, None)]),
        "(?:a)"
    );
}

#[test]
fn counts_are_written_in_decimal() {
    let counted = |q| {
        Builder::from_ast(&vec![Expr::Character(
            Character::CharKind(CharKind::Anything),
            Some(q),
            vec![],
        )])
    };
    assert_eq!(counted(Quantifier::Exactly(0)), ".{0}");
    assert_eq!(counted(Quantifier::Exactly(9)), ".{9}");
    assert_eq!(counted(Quantifier::Exactly(10)), ".{10}");
    assert_eq!(counted(Quantifier::AtLeast(1204)), ".{1204,}");
    assert_eq!(counted(Quantifier::Between { from: 0, to: 2147483647 }), ".{0,2147483647}");
}

#[test]
fn flags_of_the_whole_tree_come_first() {
    let flagged = Expr::Character(
        Character::Group(Group::Capture {
            inner: vec![Expr::Character(
                Character::CharKind(CharKind::Digit { from: 2, to: 7 }),
                None,
                vec![Flags::AllLazy],
            )],
            name: None,
        }),
        None,
        vec![Flags::CaseInsensitive, Flags::MultiLine],
    );
    assert_eq!(
        Builder::from_ast(&vec![
            Expr::Anchor(Anchors::BeginWith),
            flagged,
            Expr::Anchor(Anchors::MustEnd)
        ]),
        "(?Uim)^([2-7])$"
    );
}

#[test]
fn emitting_one_tree_twice() {
    for source in [
        "literally \"a.b\"",
        "one of \"a-z]\"",
        "raw \"[x]+\"",
        "letter from c to g",
        "uppercase letter",
        "digit from 1 to 2",
        "any character",
        "no character",
        "anything",
        "new line",
        "whitespace",
        "no whitespace",
        "tab",
    ] {
        let ast = Parser::new(Lexer::new(source)).parse().unwrap();
        let first = Builder::from_ast(&ast);
        let second = Builder::from_ast(&ast);
        assert_eq!(first, second);
    }
}
