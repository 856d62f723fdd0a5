use jscan::lexer::{describe, extract, header, lex, Function, Functions, SyntaxError};
use jscan::text::{location, push_decimal};
use jscan::parser::{assemble, import_target, parse, ParseError, Token};
use jscan::table::ParsedFile;

fn table_of(path: &str, source: &str) -> ParsedFile {
    let scanned = parse(&source.to_string());
    assemble(path.to_string(), scanned.tokens, Vec::new())
}

fn function(name: &str, file: &str, args: &[&str]) -> Function {
    Function {
        name: name.to_string(),
        file: file.to_string(),
        args: args.iter().map(|a| a.to_string()).collect(),
    }
}

#[test]
fn header_gives_name_file_and_parameters() {
    let functions = lex(table_of("main.j", "def add(a, b) end")).unwrap();
    assert_eq!(functions.entries, vec![function("add", "main.j", &["a", "b"])]);
    assert_eq!(functions.len(), 1);
    assert_eq!(functions.get(&"add".to_string()), Some(&function("add", "main.j", &["a", "b"])));
    assert_eq!(functions.get(&"sub".to_string()), None);
}

#[test]
fn header_without_parameters_and_with_repeated_ones() {
    let functions = lex(table_of("m.j", "def g() end\ndef h(x, x,) end\n")).unwrap();
    assert_eq!(
        functions.entries,
        vec![function("g", "m.j", &[]), function("h", "m.j", &["x", "x"])]
    );
}

#[test]
fn file_without_definitions_gives_no_function() {
    let functions = lex(table_of("m.j", "var x = 1\nret x\n")).unwrap();
    assert_eq!(functions.len(), 0);
    assert_eq!(lex(ParsedFile::new()).unwrap().len(), 0);
}

#[test]
fn missing_right_parenthesis_fails_on_the_last_line() {
    let e = lex(table_of("main.j", "def f(a")).unwrap_err();
    assert_eq!(e.line, 1);
    assert_eq!(e.file, "main.j");
    assert_eq!(e.error, "Expected symbol ), found end of input");

    let e = lex(table_of("main.j", "x\n\ndef f(a ")).unwrap_err();
    assert_eq!(e.line, 3);
    assert_eq!(e.file, "main.j");
    assert_eq!(e.error, "Expected , ), found end of input");

    let e = lex(table_of("main.j", "x\ndef f(a\nend")).unwrap_err();
    assert_eq!(e.line, 2);
    assert_eq!(e.error, "Expected , ), found NewLine");
}

#[test]
fn missing_name_fails() {
    let e = lex(table_of("a.j", "\ndef (a) end")).unwrap_err();
    assert_eq!((e.line, e.file.as_str()), (2, "a.j"));
    assert_eq!(e.error, "Expected name, found LBrace");
    let e = lex(table_of("a.j", "def")).unwrap_err();
    assert_eq!(e.line, 1);
    assert_eq!(e.error, "Expected name, found end of input");
}

#[test]
fn missing_left_parenthesis_fails() {
    let e = lex(table_of("a.j", "def f x ")).unwrap_err();
    assert_eq!(e.line, 1);
    assert_eq!(e.error, "Expected (, found Symbol(x)");
    let e = lex(table_of("a.j", "def f ")).unwrap_err();
    assert_eq!(e.error, "Expected (, found end of input");
}

#[test]
fn wrong_token_among_the_parameters_fails() {
    let e = lex(table_of("a.j", "def f(a b) end")).unwrap_err();
    assert_eq!(e.error, "Expected , ), found Symbol(b)");
    let e = lex(table_of("a.j", "def f(, a) end")).unwrap_err();
    assert_eq!(e.error, "Expected symbol ), found Comma");
    let e = lex(table_of("a.j", "def f(1 ) end")).unwrap_err();
    assert_eq!(e.error, "Expected symbol ), found Value");
    let e = lex(table_of("a.j", "def f(")).unwrap_err();
    assert_eq!(e.error, "Expected symbol ), found end of input");
}

#[test]
fn first_wrong_header_ends_the_extraction() {
    let e = lex(table_of("a.j", "def ok() end\ndef bad(\ndef worse\n")).unwrap_err();
    assert_eq!(e.line, 2);
    assert_eq!(e.error, "Expected symbol ), found NewLine");
}

#[test]
fn imported_file_contributes_its_functions() {
    let entry = parse(&"imp foo\n".to_string());
    assert_eq!(entry.imports.len(), 1);
    let target = import_target("src", entry.imports[0].module.as_str());
    assert_eq!(target, "src/foo.j");
    let imported = table_of(&target, "def g() end");
    let table = assemble("src/main.j".to_string(), entry.tokens, vec![imported]);
    assert_eq!(table.len(), 2);
    assert!(table.get(&"src/main.j".to_string()).is_some());
    assert!(table.get(&"src/foo.j".to_string()).is_some());
    let functions = lex(table).unwrap();
    assert_eq!(functions.get(&"g".to_string()), Some(&function("g", "src/foo.j", &[])));
}

#[test]
fn later_definition_of_a_name_replaces_the_earlier() {
    let a = table_of("a.j", "def f() end");
    let b = table_of("b.j", "def f() end");
    let entry = parse(&"imp a\nimp b\n".to_string());
    let table = assemble("main.j".to_string(), entry.tokens, vec![a, b]);
    assert_eq!(table.len(), 3);
    let functions = lex(table).unwrap();
    assert_eq!(functions.len(), 1);
    assert_eq!(functions.entries, vec![function("f", "b.j", &[])]);
}

#[test]
fn later_definition_in_one_file_replaces_the_earlier() {
    let functions = lex(table_of("a.j", "def f(a) end\ndef g() end\ndef f(b, c) end\n")).unwrap();
    assert_eq!(
        functions.entries,
        vec![function("g", "a.j", &[]), function("f", "a.j", &["b", "c"])]
    );
}

#[test]
fn header_and_extract_work_on_one_file() {
    let tokens = parse(&"x def f(a)".to_string()).tokens;
    let file = "m.j".to_string();
    assert_eq!(header(&tokens, &file, 1).unwrap(), function("f", "m.j", &["a"]));
    let e = header(&tokens, &file, 0).unwrap_err();
    assert_eq!(e.error, "Expected name, found Def");
    let mut functions = Functions::new();
    functions.insert(function("f", "old.j", &[]));
    functions.insert(function("k", "old.j", &[]));
    assert!(extract(&tokens, &file, &mut functions).is_ok());
    assert_eq!(
        functions.entries,
        vec![function("k", "old.j", &[]), function("f", "m.j", &["a"])]
    );
    assert_eq!(functions.position(&"f".to_string()), 1);
    assert_eq!(functions.position(&"zz".to_string()), 2);
}

#[test]
fn tokens_are_named_in_messages() {
    assert_eq!(describe(&Token::Def), "Def");
    assert_eq!(describe(&Token::Symbol("ab".to_string())), "Symbol(ab)");
    assert_eq!(describe(&Token::NewLine), "NewLine");
    assert_eq!(describe(&Token::While), "While");
    assert_eq!(describe(&Token::Assign), "Assign");
}

#[test]
fn import_failure_names_file_line_and_cause() {
    let e = ParseError::import_failed(&"dir/main.j".to_string(), 4, "dir/foo.j", "not found");
    assert_eq!(e.line, 4);
    assert_eq!(e.file, "dir/main.j");
    assert_eq!(e.error, "Could not import file dir/foo.j\n not found");
}

#[test]
fn import_target_is_a_sibling_with_the_extension() {
    assert_eq!(import_target("a/b", "foo"), "a/b/foo.j");
    assert_eq!(import_target("", "foo"), "/foo.j");
}

#[test]
fn errors_are_shown_with_their_place() {
    let e = lex(table_of("dir/main.j", "a\nb\ndef f(a")).unwrap_err();
    assert_eq!(e.location(), "dir/main.j:3");
    assert_eq!(e.message(), "Syntax Error: Expected symbol ), found end of input\n dir/main.j:3");
    let e = SyntaxError { line: 120, file: "x".to_string(), error: "wrong".to_string() };
    assert_eq!(e.message(), "Syntax Error: wrong\n x:120");
    let e = ParseError::import_failed(&"m.j".to_string(), 7, "foo.j", "gone");
    assert_eq!(e.location(), "m.j:7");
    assert_eq!(e.message(), "Could not import file foo.j\n gone\n m.j:7");
}

#[test]
fn numbers_are_written_in_base_ten() {
    let mut s = "n=".to_string();
    push_decimal(&mut s, 0);
    assert_eq!(s, "n=0");
    push_decimal(&mut s, 9);
    push_decimal(&mut s, 10);
    push_decimal(&mut s, 1234567890);
    assert_eq!(s, "n=09101234567890");
    let mut s = String::new();
    push_decimal(&mut s, u64::MAX);
    assert_eq!(s, "18446744073709551615");
    assert_eq!(location(&"a b".to_string(), 1005), "a b:1005");
}
