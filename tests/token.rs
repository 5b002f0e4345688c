use rex::{is_alphabetical, is_alphanumeric, is_integer, is_numeric, TokenType};

#[test]
fn keyword() {
    let source = "const let match hello".split(" ");
    let mut tokens = Vec::<Option<TokenType>>::new();
    let expected = [
        Some(TokenType::Const),
        Some(TokenType::Let),
        Some(TokenType::Match),
        None,
    ];

    for word in source {
        tokens.push(TokenType::try_keyword(word));
    }

    for i in 0..4 {
        assert!(tokens[i] == expected[i]);
    }
}

#[test]
fn keywords_are_exact() {
    assert_eq!(TokenType::try_keyword("anytype"), Some(TokenType::Anytype));
    assert_eq!(TokenType::try_keyword("any"), None);
    assert_eq!(TokenType::try_keyword("ctime"), Some(TokenType::Ctime));
    assert_eq!(TokenType::try_keyword("Let"), None);
    assert_eq!(TokenType::try_keyword("lets"), None);
    assert_eq!(TokenType::try_keyword(""), None);
}

#[test]
fn single_characters() {
    assert_eq!(TokenType::of_char('+'), TokenType::Plus);
    assert_eq!(TokenType::of_char('#'), TokenType::Pound);
    assert_eq!(TokenType::of_char('\n'), TokenType::Newline);
    assert_eq!(TokenType::of_char('\0'), TokenType::Eof);
    assert_eq!(TokenType::of_char('a'), TokenType::Illegal);
    assert_eq!(TokenType::of_char('\\'), TokenType::Illegal);
}

#[test]
fn renderings() {
    assert_eq!(TokenType::Tag("x1".into()).to_string(), "x1");
    assert_eq!(TokenType::String("a b".into()).to_string(), "a b");
    assert_eq!(TokenType::Anytype.to_string(), "anytype");
    assert_eq!(TokenType::LesserEq.to_string(), "<=");
    assert_eq!(TokenType::RangeInc.to_string(), "...");
    assert_eq!(TokenType::Newline.to_string(), "\n");
    assert_eq!(TokenType::Illegal.to_string(), "illegal");
    assert_eq!(TokenType::Eof.to_string(), "\0");
}

#[test]
fn character_classes() {
    assert!(is_alphabetical('_') && is_alphabetical('Z') && !is_alphabetical('1'));
    assert!(is_integer('0') && is_integer('9') && !is_integer('a'));
    assert!(is_numeric('.') && is_numeric('5') && !is_numeric(','));
    assert!(is_alphanumeric('q') && is_alphanumeric('7') && !is_alphanumeric('?'));
    assert!(!is_alphabetical('é'));
}
