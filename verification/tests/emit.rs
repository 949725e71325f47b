use javafmt::emit::{emit, trim_trailing_whitespace};
use javafmt::printer::PrintedDoc;

#[test]
fn emit_trims_spaces_before_newline() {
    let output = trim_trailing_whitespace("class A {}   \n");
    assert_eq!(output, "class A {}\n");
}

#[test]
fn emit_keeps_internal_whitespace() {
    let output = trim_trailing_whitespace("a  b\n");
    assert_eq!(output, "a  b\n");
}

#[test]
fn fallback_trims_spaces_before_newline() {
    let output = trim_trailing_whitespace("class A {}   \n");
    assert_eq!(output, "class A {}\n");
}

#[test]
fn fallback_keeps_internal_whitespace() {
    let output = trim_trailing_whitespace("a  b\n");
    assert_eq!(output, "a  b\n");
}

#[test]
fn trims_tabs_and_spaces_at_the_end_of_every_line() {
    assert_eq!(trim_trailing_whitespace("a \t\nb\t \n c  "), "a\nb\n c");
}

#[test]
fn emit_appends_final_newline() {
    let doc = PrintedDoc { text: String::from("class A {}  ") };
    assert_eq!(emit(doc), "class A {}\n");
}

#[test]
fn emit_keeps_empty_text_empty() {
    let doc = PrintedDoc { text: String::from("   \n") };
    assert_eq!(emit(doc), "\n");
    let doc = PrintedDoc { text: String::from("  ") };
    assert_eq!(emit(doc), "");
}

#[test]
fn emitting_twice_is_emitting_once() {
    let once = emit(PrintedDoc { text: "class A { \t\n  int x;  \n}\t".to_string() });
    assert_eq!(once, "class A {\n  int x;\n}\n");
    let twice = emit(PrintedDoc { text: once.clone() });
    assert_eq!(twice, once);
}
