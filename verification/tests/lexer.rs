use javafmt::lexer::{TokenKind, lex};

#[test]
fn lexes_newline_and_word_tokens() {
    let lexed = lex("class A {}\n");
    let kinds = lexed
        .tokens
        .iter()
        .map(|token| token.kind)
        .collect::<Vec<_>>();
    assert!(kinds.contains(&TokenKind::Word));
    assert!(kinds.contains(&TokenKind::Newline));
}

#[test]
fn lexes_comments() {
    let lexed = lex("int a; // line\n/* block */\n");
    let kinds = lexed
        .tokens
        .iter()
        .map(|token| token.kind)
        .collect::<Vec<_>>();
    assert!(kinds.contains(&TokenKind::LineComment));
    assert!(kinds.contains(&TokenKind::BlockComment));
}

#[test]
fn keeps_double_slash_inside_string() {
    let lexed = lex("String s = \"//not-comment\";\n");
    let kinds = lexed
        .tokens
        .iter()
        .map(|token| token.kind)
        .collect::<Vec<_>>();
    assert!(kinds.contains(&TokenKind::StringLiteral));
    assert!(!kinds.contains(&TokenKind::LineComment));
}

#[test]
fn lexes_text_block_as_single_string_literal() {
    let lexed = lex("String s = \"\"\"\nline1\nline2\n\"\"\";\n");
    let string_count = lexed
        .tokens
        .iter()
        .filter(|token| token.kind == TokenKind::StringLiteral)
        .count();
    assert_eq!(string_count, 1);
}
