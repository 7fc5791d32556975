use ddnet_config::{
    map_with_names, parse_config_variables, CFGFlags, ConfigEntry, EntryType, Flag, IntBound,
    LexicalError, LexingError, ParseError, Span, Token,
};

const HEADER: &str = "#ifndef CONFIG_VARIABLES_H
#define CONFIG_VARIABLES_H
// client prediction
MACRO_CONFIG_INT(ClPredict, cl_predict, 1, 0, 1, CFGFLAG_CLIENT|CFGFLAG_SAVE, \"Predict client movements\")
/* the name
   of the player */
MACRO_CONFIG_STR(PlayerName, player_name, 16, \"nameless tee\", CFGFLAG_SAVE|CFGFLAG_CLIENT, \"Name of the player\")
MACRO_CONFIG_COL(ClMessageColor, cl_message_color, 0xFFFFFF, CFGFLAG_CLIENT|CFGFLAG_SAVE|CFGFLAG_COLLIGHT, \"Message color\")
#endif
";

fn flags_of(fs: &[Flag]) -> CFGFlags {
    let mut r = CFGFlags::empty();
    for f in fs {
        r = r.union(CFGFlags::from_flag(*f));
    }
    r
}

#[test]
fn parses() {
    let mut vars = parse_config_variables(HEADER).unwrap();
    vars.extend(parse_config_variables("MACRO_CONFIG_INT(SvPort, sv_port, 8303, 0, 65535, CFGFLAG_SERVER, \"Port\")").unwrap());
    assert!(!vars.is_empty())
}

#[test]
fn three_kinds_in_source_order() {
    let vars = parse_config_variables(HEADER).unwrap();
    assert_eq!(vars.len(), 3);
    assert_eq!(
        vars[0],
        ConfigEntry {
            description: "Predict client movements".to_string(),
            entry_type: EntryType::Int {
                max: IntBound::Literal(1),
                min: IntBound::Literal(0),
                default: IntBound::Literal(1),
                value: None,
            },
            flags: flags_of(&[Flag::Client, Flag::Save]),
            name: "cl_predict".to_string(),
            symbol: "ClPredict".to_string(),
        }
    );
    assert_eq!(
        vars[1].entry_type,
        EntryType::Str { max_length: 16, default: "nameless tee".to_string(), value: None }
    );
    assert_eq!(vars[1].name, "player_name");
    assert_eq!(vars[2].entry_type, EntryType::Color { default: 0xFFFFFF, value: None });
    assert_eq!(vars[2].flags.bits(), 2 | 1 | 512);
}

#[test]
fn symbolic_bounds_are_kept() {
    let vars = parse_config_variables(
        "MACRO_CONFIG_INT(SvMaxClients, sv_max_clients, MAX_CLIENTS, 1, MAX_CLIENTS, CFGFLAG_SERVER, \"Max clients\");
MACRO_CONFIG_INT(SvInfo, sv_info, 5, SERVERINFO_LEVEL_MIN, SERVERINFO_LEVEL_MAX, CFGFLAG_SERVER, \"Level\");",
    )
    .unwrap();
    assert_eq!(
        vars[0].entry_type,
        EntryType::Int {
            max: IntBound::MaxClients,
            min: IntBound::Literal(1),
            default: IntBound::MaxClients,
            value: None,
        }
    );
    assert_eq!(
        vars[1].entry_type,
        EntryType::Int {
            max: IntBound::ServerInfoLevelMax,
            min: IntBound::ServerInfoLevelMin,
            default: IntBound::Literal(5),
            value: None,
        }
    );
}

#[test]
fn int_default_out_of_bounds_fails() {
    let src = "MACRO_CONFIG_INT(A1, a_one, 7, 0, 5, CFGFLAG_SAVE, \"x\")";
    match parse_config_variables(src) {
        Err(ParseError::InvalidEntry { start, end }) => {
            assert_eq!(start, 0);
            assert_eq!(end, src.len());
        }
        other => panic!("unexpected {:?}", other),
    }
    let neg = "MACRO_CONFIG_INT(A1, a_one, -3, -5, -1, CFGFLAG_SAVE, \"x\")";
    let vars = parse_config_variables(neg).unwrap();
    assert_eq!(
        vars[0].entry_type,
        EntryType::Int {
            max: IntBound::Literal(-1),
            min: IntBound::Literal(-5),
            default: IntBound::Literal(-3),
            value: None,
        }
    );
}

#[test]
fn string_default_too_long_fails() {
    let src = "MACRO_CONFIG_STR(Ab, ab, 3, \"abcd\", CFGFLAG_SAVE, \"x\")";
    assert!(matches!(parse_config_variables(src), Err(ParseError::InvalidEntry { .. })));
    let fits = "MACRO_CONFIG_STR(Ab, ab, 4, \"abcd\", CFGFLAG_SAVE, \"x\")";
    let vars = parse_config_variables(fits).unwrap();
    match &vars[0].entry_type {
        EntryType::Str { max_length, default, value } => {
            assert!(default.len() <= *max_length);
            assert_eq!(*value, None);
        }
        other => panic!("unexpected {:?}", other),
    }
}

#[test]
fn string_default_length_counts_bytes() {
    let src = "MACRO_CONFIG_STR(Ab, ab, 1, \"é\", CFGFLAG_SAVE, \"x\")";
    match parse_config_variables(src) {
        Err(ParseError::InvalidEntry { start, end }) => {
            assert_eq!(start, 0);
            assert_eq!(end, src.len());
        }
        other => panic!("unexpected {:?}", other),
    }
    let fits = "MACRO_CONFIG_STR(Ab, ab, 2, \"é\", CFGFLAG_SAVE, \"x\")";
    let vars = parse_config_variables(fits).unwrap();
    assert_eq!(
        vars[0].entry_type,
        EntryType::Str { max_length: 2, default: "é".to_string(), value: None }
    );
}

#[test]
fn flag_union_commutes_and_is_idempotent() {
    let a = flags_of(&[Flag::Save, Flag::Game]);
    let b = flags_of(&[Flag::Econ]);
    assert_eq!(a.union(b), b.union(a));
    assert_eq!(a.union(a), a);
    assert!(a.union(b).contains(b));
    let once = parse_config_variables("MACRO_CONFIG_COL(Ab, ab, 1, CFGFLAG_SAVE, \"x\")").unwrap();
    let twice =
        parse_config_variables("MACRO_CONFIG_COL(Ab, ab, 1, CFGFLAG_SAVE|CFGFLAG_SAVE, \"x\")").unwrap();
    assert_eq!(once[0].flags, twice[0].flags);
}

#[test]
fn empty_header_gives_no_entries() {
    assert!(parse_config_variables("").unwrap().is_empty());
    assert!(parse_config_variables("  // nothing\n#define X\n/* */\n").unwrap().is_empty());
}

#[test]
fn missing_close_paren_is_end_of_input() {
    let src = "MACRO_CONFIG_INT(A1, a_one, 1, 0, 5, CFGFLAG_SAVE, \"x\"";
    match parse_config_variables(src) {
        Err(ParseError::UnexpectedEndOfInput { location, expected }) => {
            assert_eq!(location, src.len());
            assert!(!expected.is_empty());
        }
        other => panic!("unexpected {:?}", other),
    }
}

#[test]
fn unexpected_token_names_expected() {
    let src = "MACRO_CONFIG_INT(A1, a_one, 1, 0, 5, \"x\")";
    match parse_config_variables(src) {
        Err(ParseError::UnexpectedToken { token, expected }) => {
            assert_eq!(token, (37, Token::StringLiteral("x".to_string()), 40));
            assert!(!expected.is_empty());
        }
        other => panic!("unexpected {:?}", other),
    }
    match parse_config_variables("cl_predict") {
        Err(ParseError::UnexpectedToken { token, expected }) => {
            assert_eq!(token.1, Token::Identifier("cl_predict".to_string()));
            assert!(expected.contains(&"MACRO_CONFIG_INT".to_string()));
        }
        other => panic!("unexpected {:?}", other),
    }
}

#[test]
fn unterminated_block_comment_is_lexical_error() {
    let src = "MACRO_CONFIG_COL(Ab, ab, 1, CFGFLAG_SAVE, \"x\")\n  /* never closed";
    match parse_config_variables(src) {
        Err(ParseError::Lexical(e)) => {
            assert_eq!(e, LexicalError::InvalidToken(LexingError::Other, Span { start: 49, end: 51 }));
        }
        other => panic!("unexpected {:?}", other),
    }
}

#[test]
fn number_overflow_is_number_error() {
    let src = "MACRO_CONFIG_COL(Ab, ab, 0xFFFFFFFFFFFFFFFFF, CFGFLAG_SAVE, \"x\")";
    match parse_config_variables(src) {
        Err(ParseError::Lexical(e)) => {
            assert_eq!(
                e,
                LexicalError::InvalidToken(LexingError::NumberParseError, Span { start: 25, end: 44 })
            );
        }
        other => panic!("unexpected {:?}", other),
    }
}

#[test]
fn underscores_and_extremes_in_numbers() {
    let vars = parse_config_variables(
        "MACRO_CONFIG_INT(Ab, ab, 1_000, -9223372036854775808, 9_223_372_036_854_775_807, CFGFLAG_SAVE, \"x\")",
    )
    .unwrap();
    assert_eq!(
        vars[0].entry_type,
        EntryType::Int {
            max: IntBound::Literal(i64::MAX),
            min: IntBound::Literal(i64::MIN),
            default: IntBound::Literal(1000),
            value: None,
        }
    );
    assert!(parse_config_variables("MACRO_CONFIG_COL(Ab, ab, 9223372036854775808, CFGFLAG_SAVE, \"x\")").is_err());
}

#[test]
fn spans_are_byte_offsets() {
    let src = "/* é */ MACRO_CONFIG_COL(Ab, ab, 1, CFGFLAG_SAVE, \"ü\") x";
    match parse_config_variables(src) {
        Err(ParseError::Lexical(e)) => {
            let x = src.len() - 1;
            assert_eq!(e, LexicalError::InvalidToken(LexingError::Other, Span { start: x, end: x + 1 }));
        }
        other => panic!("unexpected {:?}", other),
    }
}

#[test]
fn later_entry_wins_by_name() {
    let vars = parse_config_variables(
        "MACRO_CONFIG_INT(Ab, ab, 1, 0, 5, CFGFLAG_SAVE, \"first\")
MACRO_CONFIG_INT(Ab2, ab, 2, 0, 5, CFGFLAG_SAVE, \"second\")
MACRO_CONFIG_COL(Cd, cd, 3, CFGFLAG_SAVE, \"other\")",
    )
    .unwrap();
    let map = map_with_names(&vars);
    assert_eq!(map.get("ab").unwrap().description, "second");
    assert_eq!(map.get("ab").unwrap().symbol, "Ab2");
    assert!(map.contains_key("cd"));
    assert!(!map.contains_key("ef"));
    assert!(map.get("ef").is_none());
    assert_eq!(map.len(), 2);
    let kept = map.entries();
    assert_eq!(kept.len(), 2);
    assert_eq!(kept[0].symbol, "Ab2");
    assert_eq!(kept[1].name, "cd");
}

#[test]
fn empty_map_has_no_entries() {
    let map = map_with_names(&[]);
    assert_eq!(map.len(), 0);
    assert!(map.entries().is_empty());
}

#[test]
fn lexer_hands_out_tokens_with_byte_spans() {
    let mut lx = ddnet_config::VarLexer::new("MACRO_CONFIG_COL ( \"a\\\"b\" , -0x1 MAX_CLIENTS| y");
    let mut got = Vec::new();
    while let Some(t) = lx.next() {
        got.push(t);
    }
    assert_eq!(got.len(), 9);
    assert_eq!(got[0].clone().unwrap(), (0, Token::MacroConfigColor, 16));
    assert_eq!(got[1].clone().unwrap(), (17, Token::LParen, 18));
    assert_eq!(got[2].clone().unwrap(), (19, Token::StringLiteral("a\\\"b".to_string()), 25));
    assert_eq!(got[3].clone().unwrap(), (26, Token::Comma, 27));
    assert_eq!(got[4].clone().unwrap(), (28, Token::Integer(0), 30));
    assert_eq!(got[5].clone().unwrap(), (30, Token::Identifier("x1".to_string()), 32));
    assert_eq!(got[6].clone().unwrap(), (33, Token::MaxClients, 44));
    assert_eq!(got[7].clone().unwrap(), (44, Token::Pipe, 45));
    assert_eq!(
        got[8].clone().unwrap_err(),
        LexicalError::InvalidToken(LexingError::Other, Span { start: 46, end: 47 })
    );
}
