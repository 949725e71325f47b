use javafmt::doc::Doc;
use javafmt::layout;

#[test]
fn keeps_plain_text_doc_unchanged() {
    let doc = Doc::text("class A {}\n");
    assert_eq!(layout::render(&doc, 100), "class A {}\n");
}

#[test]
fn keeps_group_flat_when_it_fits() {
    let doc = Doc::group(Doc::concat(vec![
        Doc::text("foo("),
        Doc::indent(2, Doc::concat(vec![Doc::soft_line(), Doc::text("bar")])),
        Doc::soft_line(),
        Doc::text(")"),
    ]));

    assert_eq!(layout::render(&doc, 32), "foo( bar )");
}

#[test]
fn breaks_group_when_it_does_not_fit() {
    let doc = Doc::group(Doc::concat(vec![
        Doc::text("foo("),
        Doc::indent(
            2,
            Doc::concat(vec![Doc::soft_line(), Doc::text("longArgumentName")]),
        ),
        Doc::soft_line(),
        Doc::text(")"),
    ]));

    assert_eq!(layout::render(&doc, 10), "foo(\n  longArgumentName\n)");
}

#[test]
fn preserves_hard_lines_inside_groups() {
    let doc = Doc::group(Doc::concat(vec![
        Doc::text("a"),
        Doc::indent(
            2,
            Doc::concat(vec![
                Doc::hard_line(),
                Doc::text("b"),
                Doc::hard_line(),
                Doc::text("c"),
            ]),
        ),
    ]));

    assert_eq!(layout::render(&doc, 100), "a\n  b\n  c");
}

#[test]
fn hard_document_renders_alike_at_every_width() {
    let make = || {
        Doc::group(Doc::concat(vec![
            Doc::text("first line that is long"),
            Doc::indent(4, Doc::concat(vec![Doc::hard_line(), Doc::text("second")])),
            Doc::hard_line(),
            Doc::text("third"),
        ]))
    };
    let expected = "first line that is long\n    second\nthird";
    assert_eq!(layout::render(&make(), 1), expected);
    assert_eq!(layout::render(&make(), 100), expected);
}

#[test]
fn nested_group_breaks_only_where_needed() {
    let doc = Doc::group(Doc::concat(vec![
        Doc::text("outer("),
        Doc::indent(
            2,
            Doc::concat(vec![
                Doc::soft_line(),
                Doc::group(Doc::concat(vec![Doc::text("in("), Doc::soft_line(), Doc::text("x)")])),
            ]),
        ),
        Doc::soft_line(),
        Doc::text(")"),
    ]));
    assert_eq!(layout::render(&doc, 12), "outer(\n  in( x)\n)");
}

#[test]
fn concat_of_one_document_is_that_document() {
    let doc = Doc::concat(vec![Doc::text("x")]);
    assert_eq!(layout::render(&doc, 100), "x");
    let empty = Doc::concat(Vec::new());
    assert_eq!(layout::render(&empty, 100), "");
}

#[test]
fn token_printer_document_lays_out_the_printed_lines() {
    let parsed = javafmt::syntax::parse("class A{int add(int a,int b){return a+b;}}   ");
    let doc = javafmt::source_file::format_doc(&parsed);
    assert_eq!(
        layout::render(&doc, 100),
        "class A {\n  int add(int a, int b) {\n    return a + b;\n  }\n}\n"
    );
}
