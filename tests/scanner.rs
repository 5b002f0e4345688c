use rex::{Scanner, Token, TokenType};

fn scan(source: &str) -> Vec<Token> {
    let mut scanner = Scanner::new("test".into(), source.into());
    let mut tokens = Vec::new();
    loop {
        if let Some(token) = scanner.next_token() {
            tokens.push(token);
        } else {
            break;
        }
    }
    tokens
}

fn test_tokens(tokens: &Vec<Token>, expected: &Vec<TokenType>) {
    assert_eq!(tokens.len(), expected.len());

    for (t, e) in tokens.iter().zip(expected.iter()) {
        assert_eq!(t.tt, *e)
    }
}

fn kinds(source: &str) -> Vec<TokenType> {
    scan(source).into_iter().map(|t| t.tt).collect()
}

fn positions(source: &str) -> Vec<(usize, usize)> {
    scan(source).into_iter().map(|t| (t.pos.line, t.pos.col)).collect()
}

#[test]
fn scanner_operators() {
    let source = r#"+-*/<>!@$%&^=|;:?,."#;
    let expected = vec![
        TokenType::Plus,
        TokenType::Minus,
        TokenType::Asterisk,
        TokenType::Slash,
        TokenType::Lesser,
        TokenType::Greater,
        TokenType::Bang,
        TokenType::Address,
        TokenType::Cash,
        TokenType::Percent,
        TokenType::Ampersand,
        TokenType::Caret,
        TokenType::Assign,
        TokenType::Pipe,
        TokenType::Semicolon,
        TokenType::Colon,
        TokenType::Question,
        TokenType::Comma,
        TokenType::Dot,
        TokenType::Eof,
    ];

    let tokens = scan(source);
    test_tokens(&tokens, &expected)
}

#[test]
fn scanner_numbers() {
    let expected = vec![
        TokenType::Newline,
        TokenType::Integer("1234".into()),
        TokenType::Newline,
        TokenType::Float("12.4".into()),
        TokenType::Newline,
        TokenType::Float("12.2".into()),
        TokenType::Dot,
        TokenType::Integer("4".into()),
        TokenType::Newline,
        TokenType::Eof,
    ];

    let source = r#"
        # imma comment
        1234
        12.4 # Another Comment
        12.2.4
        "#
    .trim_start();
    test_tokens(&scan(source), &expected);

    let source = "
    # imma comment
    1234
    12.4 # Anothe Comment
    12.2.4
    ";
    test_tokens(&scan(source), &expected);
}

#[test]
fn scanner_strings() {
    let source = r#"
        "12.2.1"
        "hello"
        \\hello, world
        \\!
        "#
    .trim_start();

    let expected = vec![
        TokenType::String("12.2.1".into()),
        TokenType::Newline,
        TokenType::String("hello".into()),
        TokenType::Newline,
        TokenType::String("hello, world\n!".into()),
        TokenType::Eof,
    ];
    test_tokens(&scan(source), &expected);

    let source = "
    \"12.2.1\"
    \"hello\"
    ";

    let expected = vec![
        TokenType::String("12.2.1".into()),
        TokenType::Newline,
        TokenType::String("hello".into()),
        TokenType::Newline,
        TokenType::Eof,
    ];
    test_tokens(&scan(source), &expected);
}

#[test]
fn scanner_tags_and_keywords() {
    let expected = vec![
        TokenType::Tag("hello".into()),
        TokenType::Newline,
        TokenType::Tag("hey?".into()),
        TokenType::Newline,
        TokenType::Tag("yo!".into()),
        TokenType::Newline,
        TokenType::Let,
        TokenType::Newline,
        TokenType::Eof,
    ];

    let source = r#"
        hello
        hey?
        yo!
        let
        "#
    .trim_start();
    test_tokens(&scan(source), &expected);

    let source = "
    hello
    hey?
    yo!
    let
    ";
    test_tokens(&scan(source), &expected);
}

#[test]
fn scanner_compound_operators() {
    let source = r#"<==>->!!=..:=...=~!~"#;

    let expected = vec![
        TokenType::LesserEq,
        TokenType::FatArrow,
        TokenType::Arrow,
        TokenType::Bang,
        TokenType::NotEqual,
        TokenType::RangeExc,
        TokenType::AssignExp,
        TokenType::RangeInc,
        TokenType::PatternMatch,
        TokenType::PatternNotMatch,
        TokenType::Eof,
    ];

    test_tokens(&scan(source), &expected)
}

#[test]
fn scanner_assignment() {
    let expected = vec![
        TokenType::Let,
        TokenType::Tag("x".into()),
        TokenType::Colon,
        TokenType::Tag("int".into()),
        TokenType::Assign,
        TokenType::Integer("12".into()),
        TokenType::Newline,
        TokenType::Const,
        TokenType::Tag("y".into()),
        TokenType::Colon,
        TokenType::Tag("regex".into()),
        TokenType::Assign,
        TokenType::Regex("rex(lang|xer)".into()),
        TokenType::Newline,
        TokenType::Let,
        TokenType::Tag("z".into()),
        TokenType::Colon,
        TokenType::Tag("string".into()),
        TokenType::Assign,
        TokenType::String("rexlang".into()),
        TokenType::Newline,
        TokenType::Tag("z".into()),
        TokenType::PatternMatch,
        TokenType::Tag("y".into()),
        TokenType::Newline,
        TokenType::Eof,
    ];

    let source = r#"
        let x: int = 12
        const y: regex = `rex(lang|xer)`
        let z: string = "rexlang"
        z =~ y
        "#
    .trim_start();
    test_tokens(&scan(source), &expected);

    let source = "
    let x: int = 12
    const y: regex = `rex(lang|xer)`
    let z: string = \"rexlang\"
    z =~ y
    ";
    test_tokens(&scan(source), &expected);
}

#[test]
fn lone_operators_scan_one_per_character() {
    let source = "()[]{};,@$%&^~?/";
    let mut expected: Vec<TokenType> = source.chars().map(TokenType::of_char).collect();
    expected.push(TokenType::Eof);
    assert_eq!(kinds(source), expected);
    assert_eq!(kinds(source).len(), source.chars().count() + 1);
}

#[test]
fn every_compound_operator() {
    let source = "=> =~ == ++ ** -> -- <= << >= >> != !~ := |> .. ...";
    assert_eq!(
        kinds(source),
        vec![
            TokenType::FatArrow,
            TokenType::PatternMatch,
            TokenType::Equal,
            TokenType::Increment,
            TokenType::Power,
            TokenType::Arrow,
            TokenType::Decrement,
            TokenType::LesserEq,
            TokenType::Lshift,
            TokenType::GreaterEq,
            TokenType::Rshift,
            TokenType::NotEqual,
            TokenType::PatternNotMatch,
            TokenType::AssignExp,
            TokenType::Pipeline,
            TokenType::RangeExc,
            TokenType::RangeInc,
            TokenType::Eof,
        ]
    );
}

#[test]
fn numbers_alone() {
    assert_eq!(kinds("1234"), vec![TokenType::Integer("1234".into()), TokenType::Eof]);
    assert_eq!(kinds("12.4"), vec![TokenType::Float("12.4".into()), TokenType::Eof]);
    assert_eq!(
        kinds("12.2.4"),
        vec![
            TokenType::Float("12.2".into()),
            TokenType::Dot,
            TokenType::Integer("4".into()),
            TokenType::Eof
        ]
    );
    assert_eq!(kinds("12."), vec![TokenType::Float("12.".into()), TokenType::Eof]);
}

#[test]
fn trailing_punctuation_on_tags() {
    assert_eq!(
        kinds("hey? yo! ? ! a?!"),
        vec![
            TokenType::Tag("hey?".into()),
            TokenType::Tag("yo!".into()),
            TokenType::Question,
            TokenType::Bang,
            TokenType::Tag("a?".into()),
            TokenType::Bang,
            TokenType::Eof,
        ]
    );
    assert_eq!(
        kinds("anytype mut mov loc ctime _x1 any"),
        vec![
            TokenType::Anytype,
            TokenType::Mutable,
            TokenType::Move,
            TokenType::Local,
            TokenType::Ctime,
            TokenType::Tag("_x1".into()),
            TokenType::Tag("any".into()),
            TokenType::Eof,
        ]
    );
}

#[test]
fn comments_leave_only_their_newline() {
    assert_eq!(
        kinds("a # note == 1\nb"),
        vec![
            TokenType::Tag("a".into()),
            TokenType::Newline,
            TokenType::Tag("b".into()),
            TokenType::Eof,
        ]
    );
    assert_eq!(positions("a # note\nb"), vec![(1, 1), (1, 9), (2, 1), (2, 2)]);
    assert_eq!(kinds("x # to the end"), vec![TokenType::Tag("x".into()), TokenType::Eof]);
}

#[test]
fn multiline_string_takes_first_line_position() {
    let tokens = scan("\\\\ab\n  \\\\cd");
    assert_eq!(tokens.len(), 2);
    assert_eq!(tokens[0].tt, TokenType::String("ab\ncd".into()));
    assert_eq!((tokens[0].pos.line, tokens[0].pos.col), (1, 3));
    assert_eq!(tokens[1].tt, TokenType::Eof);
    assert_eq!(kinds("\\\\ab"), vec![TokenType::String("ab".into()), TokenType::Eof]);
    assert_eq!(
        kinds("\\\\ab\nc"),
        vec![TokenType::String("ab".into()), TokenType::Tag("c".into()), TokenType::Eof]
    );
}

#[test]
fn reset_rescans_identically() {
    let mut scanner = Scanner::new("test".into(), "let x = \"s\" # c\n  y.z(1.5)".into());
    let mut first = Vec::new();
    while let Some(t) = scanner.next_token() {
        first.push(t);
    }
    assert_eq!(scanner.next_token(), None);
    scanner.reset();
    let mut second = Vec::new();
    while let Some(t) = scanner.next_token() {
        second.push(t);
    }
    assert_eq!(first, second);
    assert!(first.len() > 5);
}

#[test]
fn positions_are_exact_and_ordered() {
    assert_eq!(
        positions("let x\n  y \"s\" `r`"),
        vec![(1, 1), (1, 5), (1, 6), (2, 3), (2, 5), (2, 9), (2, 12)]
    );
    let ps = positions("a+=b\n\n  c <= 12.5 # x\n\\\\m\n\\\\n\nd");
    for w in ps.windows(2) {
        assert!(w[0] <= w[1]);
    }
    assert!(ps.iter().all(|&(l, c)| l >= 1 && c >= 1));
}

#[test]
fn leading_newlines_are_trimmed() {
    assert_eq!(positions("\n\nab"), vec![(1, 1), (1, 3)]);
}

#[test]
fn empty_source_gives_only_eof() {
    let mut scanner = Scanner::new("test".into(), "".into());
    let eof = scanner.next_token().unwrap();
    assert_eq!(eof.tt, TokenType::Eof);
    assert_eq!((eof.pos.line, eof.pos.col), (1, 1));
    assert_eq!(scanner.next_token(), None);
    assert_eq!(scanner.next_token(), None);
    assert_eq!(kinds("\n\n"), vec![TokenType::Eof]);
}

#[test]
fn strings_and_regexes() {
    assert_eq!(kinds("\"abc"), vec![TokenType::String("abc".into()), TokenType::Eof]);
    assert_eq!(kinds("`a|b`"), vec![TokenType::Regex("a|b".into()), TokenType::Eof]);
    assert_eq!(kinds("\"\""), vec![TokenType::String("".into()), TokenType::Eof]);
}

#[test]
fn illegal_characters_do_not_stop_the_scan() {
    assert_eq!(
        kinds("é x \\ y"),
        vec![
            TokenType::Illegal,
            TokenType::Tag("x".into()),
            TokenType::Illegal,
            TokenType::Tag("y".into()),
            TokenType::Eof,
        ]
    );
    assert_eq!(positions("é x"), vec![(1, 1), (1, 3), (1, 4)]);
}

#[test]
fn tokens_carry_the_file_name() {
    let mut scanner = Scanner::new("main.rx".into(), "a".into());
    let t = scanner.next_token().unwrap();
    assert_eq!(t.file_name, "main.rx");
}

#[test]
fn comment_line_scans_like_an_empty_line() {
    assert_eq!(kinds("a\n# note = 1\nx := 2\n"), kinds("a\n\nx := 2\n"));
    assert_eq!(kinds("# note\nx"), vec![TokenType::Newline, TokenType::Tag("x".into()), TokenType::Eof]);
    assert_eq!(
        kinds("a#b\n7#"),
        vec![
            TokenType::Tag("a".into()),
            TokenType::Newline,
            TokenType::Integer("7".into()),
            TokenType::Eof,
        ]
    );
}

#[test]
fn lone_operators_sit_on_their_own_columns() {
    assert_eq!(
        positions("+-*/"),
        vec![(1, 1), (1, 2), (1, 3), (1, 4), (1, 5)]
    );
}
