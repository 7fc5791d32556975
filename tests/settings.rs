use ddnet_config::{parse_config, ConfigToken, ConfigValue, LexicalError, LexingError, ParseError, Span};

fn line(src: &str) -> (String, Vec<ConfigValue>) {
    let lines = parse_config(src).unwrap();
    assert_eq!(lines.len(), 1);
    (lines[0].name.clone(), lines[0].values.clone())
}

#[test]
fn parses_config() {
    let settings = "sv_name \"My Server\"\nsv_port 8303\n\nsv_map dm1\r\nbind 0x10 \"say hi\"\n";
    let vars = parse_config(settings).unwrap();
    assert_eq!(vars.len(), 4);
    for var in &vars {
        println!("{:?}", var);
    }
}

#[test]
fn port_line() {
    let (name, values) = line("sv_port 8303");
    assert_eq!(name, "sv_port");
    assert_eq!(values.len(), 1);
    assert!(matches!(values[0], ConfigValue::Int(8303)));
}

#[test]
fn quoted_line() {
    let (name, values) = line("sv_name \"My Server\"");
    assert_eq!(name, "sv_name");
    assert_eq!(values.len(), 1);
    assert!(matches!(&values[0], ConfigValue::String(s) if s == "My Server"));
}

#[test]
fn all_value_kinds() {
    let (name, values) = line("add_friend 127.0.0.1:8303 -12 0x1f some_key \"\" 1_000");
    assert_eq!(name, "add_friend");
    assert_eq!(values.len(), 6);
    assert!(matches!(&values[0], ConfigValue::IP(s) if s == "127.0.0.1:8303"));
    assert!(matches!(values[1], ConfigValue::Int(-12)));
    assert!(matches!(values[2], ConfigValue::Int(31)));
    assert!(matches!(&values[3], ConfigValue::Key(s) if s == "some_key"));
    assert!(matches!(&values[4], ConfigValue::String(s) if s.is_empty()));
    assert!(matches!(values[5], ConfigValue::Int(1000)));
}

#[test]
fn empty_settings_give_no_lines() {
    assert!(parse_config("").unwrap().is_empty());
    assert!(parse_config("\n\n  \r\n").unwrap().is_empty());
}

#[test]
fn lines_keep_file_order_and_duplicates() {
    let lines = parse_config("a 1\nb 2\na 3").unwrap();
    let names: Vec<&str> = lines.iter().map(|l| l.name.as_str()).collect();
    assert_eq!(names, vec!["a", "b", "a"]);
    assert!(matches!(lines[2].values[0], ConfigValue::Int(3)));
}

#[test]
fn line_must_start_with_name() {
    match parse_config("sv_port 1\n8303 x") {
        Err(ParseError::UnexpectedToken { token, expected }) => {
            assert_eq!(token, (10, ConfigToken::Integer(8303), 14));
            assert!(!expected.is_empty());
        }
        other => panic!("unexpected {:?}", other),
    }
}

#[test]
fn stray_character_is_lexical_error() {
    match parse_config("sv_port 1 $") {
        Err(ParseError::Lexical(e)) => {
            assert_eq!(e, LexicalError::InvalidToken(LexingError::Other, Span { start: 10, end: 11 }));
        }
        other => panic!("unexpected {:?}", other),
    }
    match parse_config("sv_port 99999999999999999999") {
        Err(ParseError::Lexical(e)) => {
            assert_eq!(
                e,
                LexicalError::InvalidToken(LexingError::NumberParseError, Span { start: 8, end: 28 })
            );
        }
        other => panic!("unexpected {:?}", other),
    }
}

#[test]
fn settings_lexer_marks_line_ends() {
    let mut lx = ddnet_config::ConfigLexer::new("a \"b c\"\r\n\n");
    let mut got = Vec::new();
    while let Some(t) = lx.next() {
        got.push(t.unwrap());
    }
    assert_eq!(
        got,
        vec![
            (0, ConfigToken::Identifier("a".to_string()), 1),
            (2, ConfigToken::StringLiteral("b c".to_string()), 7),
            (7, ConfigToken::Endline, 9),
            (9, ConfigToken::Endline, 10),
        ]
    );
}
