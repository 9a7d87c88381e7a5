use srl::ast::CharKind;
use srl::grammar::{
    get_char_token, get_digit_token, get_eof_token, get_number_token, get_string_token, get_token,
    lookup_keyword, same_text, MAX_KEY_LENGTH,
};
use srl::lexer::{mode_after, Lexer};
use srl::scan::State;
use srl::srlchar::{digit, letter, to_lowercase, SrlChar};
use srl::text::chars_of;
use srl::token::{
    Anchors, Characters, Flags, Groups, Quantifiers, Specifications, Token, TokenType,
};

#[test]
fn a_token_keeps_its_text_and_kind() {
    let token = Token::new("abc", TokenType::String);
    assert_eq!(token.val(), "abc");
    assert_eq!(token.token_type(), TokenType::String);
    assert!(token.is_string());
    let token = Token::from_string(String::from("12"), TokenType::Number);
    assert_eq!(token.val(), "12");
    assert!(!token.is_string());
}

#[test]
fn only_from_starts_a_range() {
    assert!(TokenType::Specification(Specifications::From).is_spec_start());
    assert!(!TokenType::Specification(Specifications::To).is_spec_start());
    assert!(!TokenType::Char.is_spec_start());
}

#[test]
fn atom_words_become_atoms() {
    assert_eq!(
        Characters::Literally.to_charkind(Some(String::from("a"))),
        CharKind::Literally(String::from("a"))
    );
    assert_eq!(
        Characters::OneOf.to_charkind(Some(String::from("a"))),
        CharKind::OneOf(String::from("a"))
    );
    assert_eq!(Characters::Raw.to_charkind(Some(String::from("a"))), CharKind::Raw(String::from("a")));
    assert_eq!(Characters::AnyCharacter.to_charkind(None), CharKind::AnyCharacter);
    assert_eq!(Characters::NoCharacter.to_charkind(None), CharKind::NoCharacter);
    assert_eq!(Characters::Anything.to_charkind(None), CharKind::Anything);
    assert_eq!(Characters::NewLine.to_charkind(None), CharKind::NewLine);
    assert_eq!(Characters::Whitespace.to_charkind(None), CharKind::Whitespace);
    assert_eq!(Characters::NoWhitespace.to_charkind(None), CharKind::NoWhitespace);
    assert_eq!(Characters::Tab.to_charkind(None), CharKind::Tab);
}

#[test]
fn class_words_become_ranges() {
    assert_eq!(
        Characters::Letter.to_char_class_with_spec(None, None),
        CharKind::Letter { from: 'a', to: 'z' }
    );
    assert_eq!(
        Characters::Letter.to_char_class_with_spec(Some('c'), Some('f')),
        CharKind::Letter { from: 'c', to: 'f' }
    );
    assert_eq!(
        Characters::UppercaseLetter.to_char_class_with_spec(None, Some('F')),
        CharKind::UppercaseLetter { from: 'A', to: 'F' }
    );
    assert_eq!(
        Characters::Digit.to_char_class_with_spec(None, None),
        CharKind::Digit { from: 0, to: 9 }
    );
    assert_eq!(
        Characters::Digit.to_char_class_with_spec(Some('3'), Some('8')),
        CharKind::Digit { from: 3, to: 8 }
    );
}

#[test]
fn the_classes_of_characters() {
    for c in [' ', ',', '\n', '\t'] {
        assert!(c.is_srl_whitespace());
    }
    assert!(!'\r'.is_srl_whitespace());
    assert!(!'a'.is_srl_whitespace());
    assert!('('.is_group_start() && !')'.is_group_start());
    assert!(')'.is_group_end() && !'('.is_group_end());
    assert!('('.is_group_char() && ')'.is_group_char() && !'['.is_group_char());
    assert!(' '.is_space() && !'\t'.is_space());
    assert!('\''.is_quote() && '"'.is_quote() && !'`'.is_quote());
    assert!('\\'.is_backslash() && !'/'.is_backslash());
    assert!(letter('a') && letter('z') && letter('A') && letter('Z'));
    assert!(!letter('@') && !letter('[') && !letter('`') && !letter('{') && !letter('é'));
    assert!(digit('0') && digit('9') && !digit('/') && !digit(':'));
    assert_eq!(to_lowercase('A'), 'a');
    assert_eq!(to_lowercase('Z'), 'z');
    assert_eq!(to_lowercase('q'), 'q');
    assert_eq!(to_lowercase('É'), 'É');
    assert_eq!(to_lowercase('['), '[');
}

#[test]
fn the_keyword_table() {
    let table = [
        ("literally", TokenType::Character(Characters::Literally)),
        ("one of", TokenType::Character(Characters::OneOf)),
        ("letter", TokenType::Character(Characters::Letter)),
        ("uppercase letter", TokenType::Character(Characters::UppercaseLetter)),
        ("any character", TokenType::Character(Characters::AnyCharacter)),
        ("no character", TokenType::Character(Characters::NoCharacter)),
        ("digit", TokenType::Character(Characters::Digit)),
        ("anything", TokenType::Character(Characters::Anything)),
        ("new line", TokenType::Character(Characters::NewLine)),
        ("whitespace", TokenType::Character(Characters::Whitespace)),
        ("no whitespace", TokenType::Character(Characters::NoWhitespace)),
        ("tab", TokenType::Character(Characters::Tab)),
        ("raw", TokenType::Character(Characters::Raw)),
        ("from", TokenType::Specification(Specifications::From)),
        ("to", TokenType::Specification(Specifications::To)),
        ("exactly", TokenType::Quantifier(Quantifiers::Exactly)),
        ("once", TokenType::Quantifier(Quantifiers::Once)),
        ("twice", TokenType::Quantifier(Quantifiers::Twice)),
        ("between", TokenType::Quantifier(Quantifiers::Between)),
        ("optional", TokenType::Quantifier(Quantifiers::Optional)),
        ("once or more", TokenType::Quantifier(Quantifiers::OnceOrMore)),
        ("never or more", TokenType::Quantifier(Quantifiers::NeverOrMore)),
        ("at least", TokenType::Quantifier(Quantifiers::AtLeast)),
        ("and", TokenType::Quantifier(Quantifiers::And)),
        ("times", TokenType::Quantifier(Quantifiers::Times)),
        ("time", TokenType::Quantifier(Quantifiers::Times)),
        ("capture", TokenType::Group(Groups::Capture)),
        ("as", TokenType::Group(Groups::As)),
        ("any of", TokenType::Group(Groups::AnyOf)),
        ("either of", TokenType::Group(Groups::AnyOf)),
        ("until", TokenType::Group(Groups::Until)),
        ("if followed by", TokenType::Group(Groups::IfFollowedBy)),
        ("if not followed by", TokenType::Group(Groups::IfNotFollowedBy)),
        ("if already had", TokenType::Group(Groups::IfAlreadyHad)),
        ("if not already had", TokenType::Group(Groups::IfNotAlreadyHad)),
        ("case insensitive", TokenType::Flag(Flags::CaseInsensitive)),
        ("multi line", TokenType::Flag(Flags::MultiLine)),
        ("all lazy", TokenType::Flag(Flags::AllLazy)),
        ("begin with", TokenType::Anchor(Anchors::BeginWith)),
        ("starts with", TokenType::Anchor(Anchors::BeginWith)),
        ("must end", TokenType::Anchor(Anchors::MustEnd)),
    ];
    for (text, kind) in table {
        assert_eq!(lookup_keyword(text), Some(kind));
        let token = get_token(text).unwrap();
        assert_eq!(token.val(), text);
        assert_eq!(token.token_type(), kind);
    }
    for text in ["", "no", "if", "Letter", "letter ", " letter", "once or", "eof", "(", ")"] {
        assert_eq!(lookup_keyword(text), None);
    }
    assert_eq!(get_token("(").unwrap().token_type(), TokenType::Group(Groups::GroupStart));
    assert_eq!(get_token(")").unwrap().token_type(), TokenType::Group(Groups::GroupEnd));
    assert!(get_token("[").is_none());
    assert_eq!(MAX_KEY_LENGTH, 15);
}

#[test]
fn every_keyword_but_one_is_read_from_a_text() {
    for text in [
        "literally", "one of", "letter", "uppercase letter", "any character", "no character",
        "digit", "anything", "new line", "whitespace", "no whitespace", "tab", "raw", "from", "to",
        "exactly", "once", "twice", "between", "optional", "once or more", "never or more",
        "at least", "and", "times", "time", "capture", "as", "any of", "either of", "until",
        "if followed by", "if already had", "if not already had", "case insensitive", "multi line",
        "all lazy", "begin with", "starts with", "must end",
    ] {
        let spaced = text.replace(" ", " ,\n\t ").to_uppercase();
        let mut plain = Lexer::new(text);
        let mut odd = Lexer::new(&spaced);
        let a = plain.next_identifier().unwrap();
        let b = odd.next_identifier().unwrap();
        assert_eq!(a.val(), text);
        assert_eq!(b.val(), text);
        assert_eq!(a.token_type(), lookup_keyword(text).unwrap());
        assert_eq!(b.token_type(), a.token_type());
    }
    let mut lexer = Lexer::new("if not followed by");
    assert!(lexer.next_identifier().is_none());
    assert!(lexer.is_error());
}

#[test]
fn the_tokens_of_values() {
    assert_eq!(get_string_token("a b").token_type(), TokenType::String);
    assert_eq!(get_string_token("a b").val(), "a b");
    assert_eq!(get_number_token("12").token_type(), TokenType::Number);
    assert_eq!(get_char_token("x").token_type(), TokenType::Char);
    assert_eq!(get_digit_token("7").token_type(), TokenType::Digit);
    assert_eq!(get_eof_token().token_type(), TokenType::EndOfFile);
    assert_eq!(get_eof_token().val(), "eof");
}

#[test]
fn texts_are_compared_by_their_characters() {
    assert!(same_text("", ""));
    assert!(same_text("héllo", "héllo"));
    assert!(!same_text("hello", "hellp"));
    assert!(!same_text("hello", "hell"));
    assert!(!same_text("é", "e"));
    assert_eq!(chars_of("aé("), vec!['a', 'é', '(']);
}

#[test]
fn the_mode_after_each_kind_of_token() {
    assert_eq!(mode_after(TokenType::Character(Characters::Literally)), State::InString);
    assert_eq!(mode_after(TokenType::Character(Characters::OneOf)), State::InString);
    assert_eq!(mode_after(TokenType::Character(Characters::Raw)), State::InString);
    assert_eq!(mode_after(TokenType::Group(Groups::As)), State::InString);
    assert_eq!(mode_after(TokenType::Quantifier(Quantifiers::Exactly)), State::InNumber);
    assert_eq!(mode_after(TokenType::Quantifier(Quantifiers::Between)), State::InNumber);
    assert_eq!(mode_after(TokenType::Quantifier(Quantifiers::And)), State::InNumber);
    assert_eq!(mode_after(TokenType::Quantifier(Quantifiers::AtLeast)), State::InNumber);
    assert_eq!(mode_after(TokenType::Specification(Specifications::From)), State::InCharOrDigit);
    assert_eq!(mode_after(TokenType::Specification(Specifications::To)), State::InCharOrDigit);
    for word in [
        Groups::Capture,
        Groups::Until,
        Groups::AnyOf,
        Groups::IfFollowedBy,
        Groups::IfNotFollowedBy,
        Groups::IfAlreadyHad,
        Groups::IfNotAlreadyHad,
    ] {
        assert_eq!(mode_after(TokenType::Group(word)), State::Start);
    }
    assert_eq!(mode_after(TokenType::Group(Groups::GroupStart)), State::InIdent);
    assert_eq!(mode_after(TokenType::Group(Groups::GroupEnd)), State::InIdent);
    assert_eq!(mode_after(TokenType::Character(Characters::Letter)), State::InIdent);
    assert_eq!(mode_after(TokenType::Quantifier(Quantifiers::Times)), State::InIdent);
    assert_eq!(mode_after(TokenType::Flag(Flags::AllLazy)), State::InIdent);
    assert_eq!(mode_after(TokenType::Anchor(Anchors::BeginWith)), State::InIdent);
    assert_eq!(mode_after(TokenType::String), State::InIdent);
    assert_eq!(mode_after(TokenType::Number), State::InIdent);
    assert_eq!(mode_after(TokenType::Char), State::InIdent);
    assert_eq!(mode_after(TokenType::Digit), State::InIdent);
    assert_eq!(mode_after(TokenType::EndOfFile), State::Done);
}
