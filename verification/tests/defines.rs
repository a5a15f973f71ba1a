use svlint::define::{add_filelist_defines, command_line_defines, filelist_define_text, parse_define, Defines, UnescapeError};
use std::collections::HashMap;

fn table(d: Defines) -> HashMap<String, Option<String>> {
    let mut m = HashMap::new();
    for (k, v) in d.into_entries() {
        m.insert(k, v);
    }
    m
}

#[test]
fn a_name_alone_has_no_text() {
    assert_eq!(parse_define("WIDTH"), Ok(("WIDTH".to_string(), None)));
    assert_eq!(parse_define(""), Ok(("".to_string(), None)));
}

#[test]
fn the_text_follows_the_first_equals_sign() {
    assert_eq!(parse_define("WIDTH=8"), Ok(("WIDTH".to_string(), Some("8".to_string()))));
    assert_eq!(parse_define("A=b=c"), Ok(("A".to_string(), Some("b=c".to_string()))));
    assert_eq!(parse_define("=x"), Ok(("".to_string(), Some("x".to_string()))));
    assert_eq!(parse_define("A="), Ok(("A".to_string(), Some("".to_string()))));
}

#[test]
fn escapes_in_the_text_are_replaced() {
    assert_eq!(parse_define("MSG=a\\nb"), Ok(("MSG".to_string(), Some("a\nb".to_string()))));
    assert_eq!(parse_define("Q=\\\"x\\\""), Ok(("Q".to_string(), Some("\"x\"".to_string()))));
    assert_eq!(parse_define("H=\\x41"), Ok(("H".to_string(), Some("A".to_string()))));
}

#[test]
fn bad_escapes_are_errors() {
    assert_eq!(parse_define("A=\\q"), Err(UnescapeError::UnrecognizedEscape));
    assert_eq!(parse_define("A=x\\"), Err(UnescapeError::UnexpectedEOF));
    assert_eq!(parse_define("A=\\UFFFFFFFF"), Err(UnescapeError::InvalidUnicode));
}

#[test]
fn later_command_line_definitions_win() {
    let list = vec!["A=1".to_string(), "B".to_string(), "A=2".to_string()];
    let m = table(command_line_defines(&list).unwrap());
    assert_eq!(m.len(), 2);
    assert_eq!(m["A"], Some("2".to_string()));
    assert_eq!(m["B"], None);
}

#[test]
fn the_first_bad_definition_is_the_error() {
    let list = vec!["A=1".to_string(), "B=\\q".to_string(), "C=\\".to_string()];
    assert_eq!(command_line_defines(&list).err(), Some(UnescapeError::UnrecognizedEscape));
}

#[test]
fn filelist_texts_lose_their_first_character() {
    assert_eq!(filelist_define_text("=abc"), "abc");
    assert_eq!(filelist_define_text("x"), "");
}

#[test]
fn filelist_definitions_join_the_table() {
    let mut d = command_line_defines(&vec!["A=1".to_string(), "B=2".to_string()]).unwrap();
    add_filelist_defines(&mut d, &vec![("B".to_string(), Some("=3".to_string())), ("C".to_string(), None)]);
    let m = table(d);
    assert_eq!(m["A"], Some("1".to_string()));
    assert_eq!(m["B"], Some("3".to_string()));
    assert_eq!(m["C"], None);
}

#[test]
fn inserting_replaces() {
    let mut d = Defines::new();
    d.insert("X".to_string(), None);
    d.insert("X".to_string(), Some("v".to_string()));
    let m = table(d);
    assert_eq!(m.len(), 1);
    assert_eq!(m["X"], Some("v".to_string()));
}
