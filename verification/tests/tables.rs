use jscan::parser::{assemble, Token};
use jscan::table::ParsedFile;

fn one(line: u64, t: Token) -> Vec<(u64, Token)> {
    vec![(line, t)]
}

fn paths(table: &ParsedFile) -> Vec<String> {
    table.entries.iter().map(|e| e.0.clone()).collect()
}

#[test]
fn new_table_is_empty() {
    let table = ParsedFile::new();
    assert_eq!(table.len(), 0);
    assert_eq!(table.get(&"a".to_string()), None);
    assert_eq!(table.position(&"a".to_string()), 0);
}

#[test]
fn insert_binds_and_replaces() {
    let mut table = ParsedFile::new();
    table.insert("a".to_string(), one(1, Token::Def));
    table.insert("b".to_string(), one(2, Token::End));
    assert_eq!(table.len(), 2);
    assert_eq!(table.get(&"a".to_string()), Some(&one(1, Token::Def)));
    table.insert("a".to_string(), one(3, Token::Var));
    assert_eq!(table.len(), 2);
    assert_eq!(table.get(&"a".to_string()), Some(&one(3, Token::Var)));
    assert_eq!(table.get(&"b".to_string()), Some(&one(2, Token::End)));
    assert_eq!(paths(&table), vec!["b".to_string(), "a".to_string()]);
}

#[test]
fn extend_lets_the_other_table_win() {
    let mut table = ParsedFile::new();
    table.insert("a".to_string(), one(1, Token::Def));
    table.insert("b".to_string(), one(1, Token::End));
    let mut other = ParsedFile::new();
    other.insert("c".to_string(), one(1, Token::If));
    other.insert("a".to_string(), one(9, Token::Else));
    table.extend(other);
    assert_eq!(paths(&table), vec!["b".to_string(), "c".to_string(), "a".to_string()]);
    assert_eq!(table.get(&"a".to_string()), Some(&one(9, Token::Else)));
}

#[test]
fn assemble_puts_the_file_itself_last() {
    let mut first = ParsedFile::new();
    first.insert("x".to_string(), one(1, Token::Def));
    first.insert("main".to_string(), one(1, Token::End));
    let mut second = ParsedFile::new();
    second.insert("x".to_string(), one(2, Token::Ret));
    let table = assemble("main".to_string(), one(5, Token::While), vec![first, second]);
    assert_eq!(paths(&table), vec!["x".to_string(), "main".to_string()]);
    assert_eq!(table.get(&"x".to_string()), Some(&one(2, Token::Ret)));
    assert_eq!(table.get(&"main".to_string()), Some(&one(5, Token::While)));
}
