use jscan::common::Value;
use jscan::parser::{parse, Import, Mode, Scanner, Token};
use jscan::text::{is_float, is_whitespace, make_string, parse_integer, spells, trim};

fn sym(s: &str) -> Token {
    Token::Symbol(s.to_string())
}

fn chars(s: &str) -> Vec<char> {
    s.chars().collect()
}

fn tokens_of(source: &str) -> Vec<(u64, Token)> {
    parse(&source.to_string()).tokens
}

#[test]
fn definition_header_scans_to_its_tokens() {
    assert_eq!(
        tokens_of("def add(a, b) end"),
        vec![
            (1, Token::Def),
            (1, sym("add")),
            (1, Token::LBrace),
            (1, sym("a")),
            (1, Token::Comma),
            (1, sym("b")),
            (1, Token::RBrace),
            (1, Token::End),
        ]
    );
}

#[test]
fn every_keyword_has_its_token() {
    assert_eq!(
        tokens_of("def end var ret if else true false while"),
        vec![
            (1, Token::Def),
            (1, Token::End),
            (1, Token::Var),
            (1, Token::Ret),
            (1, Token::If),
            (1, Token::Else),
            (1, Token::Value(Value::Boolean(true))),
            (1, Token::Value(Value::Boolean(false))),
            (1, Token::While),
        ]
    );
}

#[test]
fn keyword_is_recognised_inside_a_longer_word() {
    assert_eq!(tokens_of("define "), vec![(1, Token::Def), (1, sym("ine"))]);
    assert_eq!(tokens_of("iffy "), vec![(1, Token::If), (1, sym("fy"))]);
    assert_eq!(tokens_of("render "), vec![(1, sym("render"))]);
}

#[test]
fn punctuation_closes_the_pending_word() {
    assert_eq!(
        tokens_of("a+b-c*d/e"),
        vec![
            (1, sym("a")),
            (1, Token::Add),
            (1, sym("b")),
            (1, Token::Minus),
            (1, sym("c")),
            (1, Token::Times),
            (1, sym("d")),
            (1, Token::Divide),
        ]
    );
    assert_eq!(tokens_of("12)"), vec![(1, Token::Value(Value::Integer(12))), (1, Token::RBrace)]);
}

#[test]
fn boundary_classifies_in_order() {
    assert_eq!(
        tokens_of("12 3.5 x = == != 1a 1.2.3 .5 5. 1x5 "),
        vec![
            (1, Token::Value(Value::Integer(12))),
            (1, Token::Value(Value::FloatingPointInteger("3.5".to_string()))),
            (1, sym("x")),
            (1, Token::Assign),
            (1, Token::Eq),
            (1, Token::Ne),
            (1, sym("1a")),
            (1, sym("1.2.3")),
            (1, sym(".5")),
            (1, sym("5.")),
            (1, sym("1x5")),
        ]
    );
}

#[test]
fn tab_and_newline_are_boundaries_too() {
    assert_eq!(
        tokens_of("7\t8\n"),
        vec![
            (1, Token::Value(Value::Integer(7))),
            (1, Token::Value(Value::Integer(8))),
            (1, Token::NewLine),
        ]
    );
}

#[test]
fn integer_literal_fits_in_128_bits_or_is_a_symbol() {
    assert_eq!(
        tokens_of("170141183460469231731687303715884105727 "),
        vec![(1, Token::Value(Value::Integer(i128::MAX)))]
    );
    assert_eq!(
        tokens_of("170141183460469231731687303715884105728 "),
        vec![(1, sym("170141183460469231731687303715884105728"))]
    );
    assert_eq!(tokens_of("007 "), vec![(1, Token::Value(Value::Integer(7)))]);
}

#[test]
fn string_literal_keeps_its_escape() {
    assert_eq!(
        tokens_of("\"a\\\"b\""),
        vec![(1, Token::Value(Value::String("a\\\"b".to_string())))]
    );
}

#[test]
fn string_literal_takes_white_space_and_newlines_verbatim() {
    assert_eq!(
        tokens_of("\" a\n b \" x\n"),
        vec![
            (1, Token::Value(Value::String(" a\n b ".to_string()))),
            (1, sym("x")),
            (1, Token::NewLine),
        ]
    );
}

#[test]
fn string_literal_continues_the_pending_word() {
    assert_eq!(tokens_of("ab\"cd\""), vec![(1, Token::Value(Value::String("abcd".to_string())))]);
}

#[test]
fn unterminated_string_is_accepted_and_dropped() {
    assert_eq!(tokens_of("x \"abc"), vec![(1, sym("x"))]);
}

#[test]
fn pending_word_at_the_end_of_the_text_is_dropped() {
    assert_eq!(tokens_of("abc"), vec![]);
    assert_eq!(tokens_of(""), vec![]);
}

#[test]
fn lines_count_the_line_terminators() {
    assert_eq!(
        tokens_of("a\nb\n\nc "),
        vec![
            (1, sym("a")),
            (1, Token::NewLine),
            (2, sym("b")),
            (2, Token::NewLine),
            (3, Token::NewLine),
            (4, sym("c")),
        ]
    );
}

#[test]
fn lines_never_go_down_and_step_by_one_after_a_newline() {
    let tokens = tokens_of("def f(a)\n  var x = 1\n\nret x\nend\n");
    assert_eq!(tokens[0].0, 1);
    for i in 1..tokens.len() {
        let step = if tokens[i - 1].1 == Token::NewLine { 1 } else { 0 };
        assert_eq!(tokens[i].0, tokens[i - 1].0 + step);
    }
    assert_eq!(tokens[tokens.len() - 1], (5, Token::NewLine));
}

#[test]
fn import_is_collected_and_leaves_no_token() {
    let scanned = parse(&"imp foo\nvar x\n".to_string());
    assert_eq!(scanned.imports, vec![Import { line: 1, module: "foo".to_string() }]);
    assert_eq!(scanned.tokens, vec![(1, Token::Var), (1, sym("x")), (1, Token::NewLine)]);
}

#[test]
fn import_target_is_trimmed_and_keeps_inner_text() {
    let scanned = parse(&"x\nimp  \t lib/util  \nimp b\n".to_string());
    assert_eq!(
        scanned.imports,
        vec![
            Import { line: 2, module: "lib/util".to_string() },
            Import { line: 2, module: "b".to_string() },
        ]
    );
    assert_eq!(scanned.tokens, vec![(1, sym("x")), (1, Token::NewLine)]);
}

#[test]
fn import_without_newline_is_never_asked_for() {
    let scanned = parse(&"imp foo".to_string());
    assert_eq!(scanned.imports, vec![]);
    assert_eq!(scanned.tokens, vec![]);
}

#[test]
fn other_white_space_joins_nothing_and_ends_nothing() {
    assert_eq!(tokens_of("a\rb "), vec![(1, sym("ab"))]);
    assert_eq!(tokens_of("a\u{a0}b\u{3000} "), vec![(1, sym("ab"))]);
}

#[test]
fn scanning_twice_gives_the_same() {
    let text = "def f(a, b)\n ret a + b\nend\n".to_string();
    let first = parse(&text);
    let second = parse(&text);
    assert_eq!(first.tokens, second.tokens);
    assert_eq!(first.imports, second.imports);
}

#[test]
fn feeding_characters_is_scanning() {
    let text = "imp m\ndef f(a)\n \"s\" 1.5 end";
    let mut scanner = Scanner::new();
    for c in text.chars() {
        scanner.feed(c);
    }
    let scanned = parse(&text.to_string());
    assert_eq!(scanner.tokens, scanned.tokens);
    assert_eq!(scanner.imports, scanned.imports);
    assert_eq!(scanner.mode, Mode::Normal);
    assert_eq!(scanner.line, 2);
}

#[test]
fn scanner_modes_follow_the_text() {
    let mut scanner = Scanner::new();
    assert_eq!(scanner.mode, Mode::Normal);
    assert_eq!(scanner.line, 1);
    for c in "imp".chars() {
        scanner.feed(c);
    }
    assert_eq!(scanner.mode, Mode::InImportTarget);
    for c in " m\n".chars() {
        scanner.feed(c);
    }
    assert_eq!(scanner.mode, Mode::Normal);
    scanner.feed('"');
    assert_eq!(scanner.mode, Mode::InString);
    scanner.feed('\\');
    scanner.feed('"');
    assert_eq!(scanner.mode, Mode::InString);
    assert_eq!(scanner.collector, vec!['\\', '"']);
    scanner.feed('"');
    assert_eq!(scanner.mode, Mode::Normal);
    assert_eq!(scanner.tokens, vec![(1, Token::Value(Value::String("\\\"".to_string())))]);
}

#[test]
fn trim_removes_white_space_at_both_ends_only() {
    assert_eq!(trim(&chars("  a b\t\n")), chars("a b"));
    assert_eq!(trim(&chars(" \u{2003}\u{85} ")), chars(""));
    assert_eq!(trim(&chars("")), chars(""));
    assert_eq!(trim(&chars("x")), chars("x"));
    assert_eq!(trim(&chars("\u{200b}x ")), chars("\u{200b}x"));
}

#[test]
fn white_space_is_what_std_calls_white_space() {
    let mut n: u32 = 0;
    while n <= 0x3100 {
        if let Some(c) = char::from_u32(n) {
            assert_eq!(is_whitespace(c), c.is_whitespace());
        }
        n += 1;
    }
}

#[test]
fn float_literal_is_digits_point_digits() {
    assert!(is_float(&chars("0.0")));
    assert!(is_float(&chars("12.345")));
    assert!(!is_float(&chars("12")));
    assert!(!is_float(&chars("1a2")));
    assert!(!is_float(&chars(".5")));
    assert!(!is_float(&chars("5.")));
    assert!(!is_float(&chars("1.2.3")));
    assert!(!is_float(&chars("1.2a")));
    assert!(!is_float(&chars("")));
    assert!(!is_float(&chars(".")));
}

#[test]
fn integer_literal_is_read_in_base_ten() {
    assert_eq!(parse_integer(&chars("0")), Some(0));
    assert_eq!(parse_integer(&chars("1234567890")), Some(1234567890));
    assert_eq!(parse_integer(&chars("")), None);
    assert_eq!(parse_integer(&chars("-1")), None);
    assert_eq!(parse_integer(&chars("12a")), None);
    assert_eq!(parse_integer(&chars("340282366920938463463374607431768211456")), None);
}

#[test]
fn strings_are_built_and_compared_by_characters() {
    assert_eq!(make_string(&chars("héllo")), "héllo".to_string());
    assert_eq!(make_string(&chars("")), String::new());
    assert!(spells(&chars("def"), "def"));
    assert!(!spells(&chars("de"), "def"));
    assert!(!spells(&chars("dex"), "def"));
}

#[test]
fn text_without_a_quote_has_no_text_literal() {
    let tokens = tokens_of("def f(a)\n var s = a + 1.5\n ret s == true\nend\n");
    assert_eq!(tokens.len(), 20);
    for (_, t) in tokens.iter() {
        assert!(!matches!(t, Token::Value(Value::String(_))));
    }
}

#[test]
fn newline_moves_the_line_in_normal_mode_only() {
    let mut scanner = Scanner::new();
    scanner.feed('\n');
    assert_eq!(scanner.line, 2);
    scanner.feed('"');
    scanner.feed('\n');
    assert_eq!(scanner.line, 2);
    scanner.feed('"');
    for c in "imp m".chars() {
        scanner.feed(c);
    }
    scanner.feed('\n');
    assert_eq!(scanner.line, 2);
    scanner.feed('x');
    assert_eq!(scanner.line, 2);
    scanner.feed('\n');
    assert_eq!(scanner.line, 3);
}
