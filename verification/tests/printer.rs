use javafmt::comments;
use javafmt::ir;
use javafmt::lexer;
use javafmt::parser;
use javafmt::printer::print;

#[test]
fn mod_formats_simple_class_body() {
    let source = "class A{int add(int a,int b){return a+b;}}";
    let lexed = lexer::lex(source);
    let cst = parser::parse(&lexed);
    let attachments = comments::attach(&cst, &lexed);
    let ir = ir::build(&cst, attachments);
    let printed = print(&ir);
    assert_eq!(
        printed.text,
        "class A {\n  int add(int a, int b) {\n    return a + b;\n  }\n}\n"
    );
}

#[test]
fn mod_formats_string_and_char_literals() {
    let source = "class A{String s=\"x\";char c='y';}";
    let lexed = lexer::lex(source);
    let cst = parser::parse(&lexed);
    let attachments = comments::attach(&cst, &lexed);
    let ir = ir::build(&cst, attachments);
    let printed = print(&ir);
    assert_eq!(
        printed.text,
        "class A {\n  String s = \"x\";\n  char c = 'y';\n}\n"
    );
}

#[test]
fn mod_formats_ternary_expression() {
    let source = "class A{int x(){return true?1:2;}}";
    let lexed = lexer::lex(source);
    let cst = parser::parse(&lexed);
    let attachments = comments::attach(&cst, &lexed);
    let ir = ir::build(&cst, attachments);
    let printed = print(&ir);
    assert_eq!(
        printed.text,
        "class A {\n  int x() {\n    return true ? 1 : 2;\n  }\n}\n"
    );
}

#[test]
fn mod_formats_annotation_and_comment() {
    let source = "class A{@Override public String toString(){//x\nreturn \"x\";}}";
    let lexed = lexer::lex(source);
    let cst = parser::parse(&lexed);
    let attachments = comments::attach(&cst, &lexed);
    let ir = ir::build(&cst, attachments);
    let printed = print(&ir);
    assert_eq!(
        printed.text,
        "class A {\n  @Override\n  public String toString() { // x\n    return \"x\";\n  }\n}\n"
    );
}

#[test]
fn mod_keeps_generic_without_spaces_around_angle() {
    let source = "class A{java.util.List<String> xs;}";
    let lexed = lexer::lex(source);
    let cst = parser::parse(&lexed);
    let attachments = comments::attach(&cst, &lexed);
    let ir = ir::build(&cst, attachments);
    let printed = print(&ir);
    assert_eq!(printed.text, "class A {\n  java.util.List<String> xs;\n}\n");
}

#[test]
fn mod_keeps_operator_spacing_inside_parentheses() {
    let source = "class A{int f(int n){for(int i=0;i<n;i++){if(i%2==0){continue;}else{break;}}return n;}}";
    let lexed = lexer::lex(source);
    let cst = parser::parse(&lexed);
    let attachments = comments::attach(&cst, &lexed);
    let ir = ir::build(&cst, attachments);
    let printed = print(&ir);
    assert!(printed.text.contains("i < n"));
    assert!(printed.text.contains("i % 2 == 0"));
}

#[test]
fn mod_joins_catch_and_finally() {
    let source = "class A{void f(){try{foo();}catch(Exception e){bar();}finally{baz();}}void foo(){}void bar(){}void baz(){}}";
    let lexed = lexer::lex(source);
    let cst = parser::parse(&lexed);
    let attachments = comments::attach(&cst, &lexed);
    let ir = ir::build(&cst, attachments);
    let printed = print(&ir);
    assert!(printed.text.contains("} catch (Exception e) {"));
    assert!(printed.text.contains("} finally {"));
}

#[test]
fn mod_formats_switch_case_labels() {
    let source = "class A{void f(){switch(x){case 1:foo();break;default:bar();}}int x;void foo(){}void bar(){}}";
    let lexed = lexer::lex(source);
    let cst = parser::parse(&lexed);
    let attachments = comments::attach(&cst, &lexed);
    let ir = ir::build(&cst, attachments);
    let printed = print(&ir);
    assert!(printed.text.contains("case 1:\n"));
    assert!(printed.text.contains("default:\n"));
}

#[test]
fn mod_keeps_non_sealed_keyword() {
    let source = "class A{non-sealed class B{}}";
    let lexed = lexer::lex(source);
    let cst = parser::parse(&lexed);
    let attachments = comments::attach(&cst, &lexed);
    let ir = ir::build(&cst, attachments);
    let printed = print(&ir);
    assert!(printed.text.contains("non-sealed class B"));
}

#[test]
fn mod_adds_blank_line_between_block_members_in_type_body() {
    let source = "class A{void f(){}void g(){}}";
    let lexed = lexer::lex(source);
    let cst = parser::parse(&lexed);
    let attachments = comments::attach(&cst, &lexed);
    let ir = ir::build(&cst, attachments);
    let printed = print(&ir);
    assert!(printed.text.contains("void f() {}\n\n  void g() {}"));
}

#[test]
fn mod_breaks_block_lambda_after_assignment() {
    let source = "class A{void f(){Runnable r=()->{x();};}}";
    let lexed = lexer::lex(source);
    let cst = parser::parse(&lexed);
    let attachments = comments::attach(&cst, &lexed);
    let ir = ir::build(&cst, attachments);
    let printed = print(&ir);
    assert!(printed.text.contains("Runnable r =\n"));
    assert!(printed.text.contains("() -> {\n"));
}

#[test]
fn mod_does_not_merge_binary_plus_and_unary_plus_into_increment() {
    let source = "class A{int f(int x){return -x + +x + ~x;}}";
    let lexed = lexer::lex(source);
    let cst = parser::parse(&lexed);
    let attachments = comments::attach(&cst, &lexed);
    let ir = ir::build(&cst, attachments);
    let printed = print(&ir);
    assert!(printed.text.contains("return -x + +x + ~x;"));
    assert!(!printed.text.contains("x++"));
}

#[test]
fn mod_formats_switch_arrow_labels() {
    let source = "class A{void f(int x){switch(x){case 1->System.out.println(1);default->{System.out.println(0);}}}}";
    let lexed = lexer::lex(source);
    let cst = parser::parse(&lexed);
    let attachments = comments::attach(&cst, &lexed);
    let ir = ir::build(&cst, attachments);
    let printed = print(&ir);
    assert!(printed.text.contains("case 1 -> System.out.println(1);"));
    assert!(printed.text.contains("default -> {\n"));
}

#[test]
fn mod_formats_try_with_resources_parentheses_spacing() {
    let source = "class A{void f(){try(var in=new java.io.ByteArrayInputStream(new byte[0])){in.read();}catch(java.io.IOException e){throw new RuntimeException(e);}}}";
    let lexed = lexer::lex(source);
    let cst = parser::parse(&lexed);
    let attachments = comments::attach(&cst, &lexed);
    let ir = ir::build(&cst, attachments);
    let printed = print(&ir);
    assert!(printed.text.contains("try (var in ="));
}

#[test]
fn mod_keeps_do_while_on_single_line_join() {
    let source =
        "class A{void f(){do{x();}while(cond());}void x(){}boolean cond(){return true;}}";
    let lexed = lexer::lex(source);
    let cst = parser::parse(&lexed);
    let attachments = comments::attach(&cst, &lexed);
    let ir = ir::build(&cst, attachments);
    let printed = print(&ir);
    assert!(printed.text.contains("} while (cond());"));
}

#[test]
fn mod_keeps_array_initializer_inline_for_short_literal() {
    let source = "class A{void f(){int[] a=new int[]{1,2,3};}}";
    let lexed = lexer::lex(source);
    let cst = parser::parse(&lexed);
    let attachments = comments::attach(&cst, &lexed);
    let ir = ir::build(&cst, attachments);
    let printed = print(&ir);
    assert!(printed.text.contains("new int[] {1, 2, 3};"));
}

#[test]
fn mod_keeps_plain_array_initializer_inline_for_short_literal() {
    let source = "class A{void f(){int[] a={1,2,3};}}";
    let lexed = lexer::lex(source);
    let cst = parser::parse(&lexed);
    let attachments = comments::attach(&cst, &lexed);
    let ir = ir::build(&cst, attachments);
    let printed = print(&ir);
    assert!(printed.text.contains("int[] a = {1, 2, 3};"));
}

#[test]
fn mod_keeps_generic_method_invocation_without_extra_spaces() {
    let source = "class A{void f(){this.<String>m(\"x\");} <T> void m(T t){}}";
    let lexed = lexer::lex(source);
    let cst = parser::parse(&lexed);
    let attachments = comments::attach(&cst, &lexed);
    let ir = ir::build(&cst, attachments);
    let printed = print(&ir);
    assert!(printed.text.contains("this.<String>m(\"x\");"));
    assert!(printed.text.contains("<T> void m(T t) {}"));
}

#[test]
fn mod_spaces_shift_operators_as_binary_ops() {
    let source = "class A{void f(){int x=a>>b>>>c<<d;}}";
    let lexed = lexer::lex(source);
    let cst = parser::parse(&lexed);
    let attachments = comments::attach(&cst, &lexed);
    let ir = ir::build(&cst, attachments);
    let printed = print(&ir);
    assert!(printed.text.contains("int x = a >> b >>> c << d;"));
}

#[test]
fn mod_keeps_switch_multi_labels_comma_spacing() {
    let source = "class A{int f(int x){return switch(x){case 1,2->1;default->0;};}}";
    let lexed = lexer::lex(source);
    let cst = parser::parse(&lexed);
    let attachments = comments::attach(&cst, &lexed);
    let ir = ir::build(&cst, attachments);
    let printed = print(&ir);
    assert!(printed.text.contains("case 1, 2 -> 1;"));
}

#[test]
fn mod_keeps_switch_guard_method_call_spacing() {
    let source = "class A{void f(){var p=switch(x){case String s when s.length()>3->s;default->\"\";};}}";
    let lexed = lexer::lex(source);
    let cst = parser::parse(&lexed);
    let attachments = comments::attach(&cst, &lexed);
    let ir = ir::build(&cst, attachments);
    let printed = print(&ir);
    assert!(printed.text.contains("when s.length() > 3 -> s;"));
}

#[test]
fn mod_keeps_scientific_notation_sign_tight() {
    let source = "class A{void f(){double d=1.23e-4;double e=2.0E+8;}}";
    let lexed = lexer::lex(source);
    let cst = parser::parse(&lexed);
    let attachments = comments::attach(&cst, &lexed);
    let ir = ir::build(&cst, attachments);
    let printed = print(&ir);
    assert!(printed.text.contains("double d = 1.23e-4;"));
    assert!(printed.text.contains("double e = 2.0E+8;"));
}

#[test]
fn mod_breaks_return_before_text_block_literal() {
    let source = "class A{String f(){return \"\"\"\nline1\nline2\n\"\"\";}}";
    let lexed = lexer::lex(source);
    let cst = parser::parse(&lexed);
    let attachments = comments::attach(&cst, &lexed);
    let ir = ir::build(&cst, attachments);
    let printed = print(&ir);
    assert!(printed.text.contains("return\n\"\"\"\nline1"));
}

#[test]
fn mod_breaks_assignment_before_switch_expression_rhs() {
    let source = "class A{void f(){var p=switch(x){case String s when s.length()>3->s;default->\"\";};}}";
    let lexed = lexer::lex(source);
    let cst = parser::parse(&lexed);
    let attachments = comments::attach(&cst, &lexed);
    let ir = ir::build(&cst, attachments);
    let printed = print(&ir);
    assert!(printed.text.contains("var p =\n"));
    assert!(printed.text.contains("switch (x) {"));
}

#[test]
fn mod_breaks_long_chained_call_assignment() {
    let source = "class A{void f(){var x=java.util.stream.Stream.of(1,2,3,4,5).map(i->i+1).filter(i->i%2==0).sorted().toList();}}";
    let lexed = lexer::lex(source);
    let cst = parser::parse(&lexed);
    let attachments = comments::attach(&cst, &lexed);
    let ir = ir::build(&cst, attachments);
    let printed = print(&ir);
    assert!(printed.text.contains("var x =\n"));
    assert!(printed.text.contains("\n            .map("));
}

#[test]
fn mod_formats_try_with_multiple_resources_multiline() {
    let source = "class A{void f(){try(var in1=open();var in2=open2()){use(in1,in2);}catch(Exception e){x();}}java.io.InputStream open(){return null;}java.io.InputStream open2(){return null;}void use(java.io.InputStream a,java.io.InputStream b){}void x(){}}";
    let lexed = lexer::lex(source);
    let cst = parser::parse(&lexed);
    let attachments = comments::attach(&cst, &lexed);
    let ir = ir::build(&cst, attachments);
    let printed = print(&ir);
    assert!(printed.text.contains("try (var in1 = open();\n"));
    assert!(printed.text.contains("var in2 = open2())"));
}

#[test]
fn mod_keeps_annotation_array_inline_when_short() {
    let source = "class A{@SuppressWarnings({\"unchecked\",\"rawtypes\"}) void f(){}}";
    let lexed = lexer::lex(source);
    let cst = parser::parse(&lexed);
    let attachments = comments::attach(&cst, &lexed);
    let ir = ir::build(&cst, attachments);
    let printed = print(&ir);
    assert!(
        printed
            .text
            .contains("@SuppressWarnings({\"unchecked\", \"rawtypes\"})")
    );
}

#[test]
fn mod_formats_enum_constants_on_separate_lines() {
    let source = "class A{enum E{A(1),B(2);final int n;E(int n){this.n=n;}}}";
    let lexed = lexer::lex(source);
    let cst = parser::parse(&lexed);
    let attachments = comments::attach(&cst, &lexed);
    let ir = ir::build(&cst, attachments);
    let printed = print(&ir);
    assert!(printed.text.contains("A(1),\n    B(2);"));
}

#[test]
fn mod_formats_module_to_and_with_clauses_multiline() {
    let source = "module m.example{requires java.base;exports a.b;opens a.c to x.y,z.w;uses a.spi.S;provides a.spi.S with a.impl.SImpl;}";
    let lexed = lexer::lex(source);
    let cst = parser::parse(&lexed);
    let attachments = comments::attach(&cst, &lexed);
    let ir = ir::build(&cst, attachments);
    let printed = print(&ir);
    assert!(printed.text.contains("opens a.c to\n"));
    assert!(printed.text.contains("x.y,\n"));
    assert!(printed.text.contains("provides a.spi.S with\n"));
}

#[test]
fn mod_formats_top_level_package_and_import_blank_lines() {
    let source = "package p;import java.util.List;class A{}";
    let lexed = lexer::lex(source);
    let cst = parser::parse(&lexed);
    let attachments = comments::attach(&cst, &lexed);
    let ir = ir::build(&cst, attachments);
    let printed = print(&ir);
    assert!(
        printed
            .text
            .starts_with("package p;\n\nimport java.util.List;\n\nclass A {}\n")
    );
}

#[test]
fn mod_formats_statement_label_without_space_before_colon() {
    let source = "class A{void f(){outer:for(int i=0;i<1;i++){break outer;}}}";
    let lexed = lexer::lex(source);
    let cst = parser::parse(&lexed);
    let attachments = comments::attach(&cst, &lexed);
    let ir = ir::build(&cst, attachments);
    let printed = print(&ir);
    assert!(printed.text.contains("outer:\n"));
    assert!(!printed.text.contains("outer :"));
}

#[test]
fn mod_keeps_enum_constant_body_comma_on_same_line() {
    let source = "class A{enum E{A{int v(){return 1;}},B;}}";
    let lexed = lexer::lex(source);
    let cst = parser::parse(&lexed);
    let attachments = comments::attach(&cst, &lexed);
    let ir = ir::build(&cst, attachments);
    let printed = print(&ir);
    assert!(printed.text.contains("},\n    B;"));
}

#[test]
fn mod_keeps_module_requires_group_compact() {
    let source =
        "module m.probe{requires transitive java.base;requires static java.sql;exports p.api;}";
    let lexed = lexer::lex(source);
    let cst = parser::parse(&lexed);
    let attachments = comments::attach(&cst, &lexed);
    let ir = ir::build(&cst, attachments);
    let printed = print(&ir);
    assert!(printed.text.contains(
        "requires transitive java.base;\n  requires static java.sql;\n\n  exports p.api;"
    ));
}

#[test]
fn mod_keeps_annotation_interface_keyword_together() {
    let source = "class A{@interface B{}}";
    let lexed = lexer::lex(source);
    let cst = parser::parse(&lexed);
    let attachments = comments::attach(&cst, &lexed);
    let ir = ir::build(&cst, attachments);
    let printed = print(&ir);
    assert!(printed.text.contains("@interface B {"));
}

#[test]
fn mod_keeps_block_comment_on_its_own_line_after_open_brace() {
    let source =
        "class A{void f(){do{/*x*/a();}while(cond());}void a(){}boolean cond(){return true;}}";
    let lexed = lexer::lex(source);
    let cst = parser::parse(&lexed);
    let attachments = comments::attach(&cst, &lexed);
    let ir = ir::build(&cst, attachments);
    let printed = print(&ir);
    assert!(printed.text.contains("do {\n        /*x*/\n      a();"));
}

#[test]
fn mod_breaks_named_annotation_arguments_multiline() {
    let source = "class A{@Anno(values={1,2,3},name=\"x\") void f(){} @interface Anno{int[] values();String name();}}";
    let lexed = lexer::lex(source);
    let cst = parser::parse(&lexed);
    let attachments = comments::attach(&cst, &lexed);
    let ir = ir::build(&cst, attachments);
    let printed = print(&ir);
    assert!(printed.text.contains("@Anno(\n"));
    assert!(printed.text.contains("values = {1, 2, 3},\n"));
    assert!(printed.text.contains("name = \"x\")"));
}

#[test]
fn mod_breaks_long_generic_assignment_rhs() {
    let source = "class A{void f(){var m=java.util.Map.<String,java.util.List<java.util.Set<Integer>>>of(\"k\",java.util.List.of(java.util.Set.of(1,2)));}}";
    let lexed = lexer::lex(source);
    let cst = parser::parse(&lexed);
    let attachments = comments::attach(&cst, &lexed);
    let ir = ir::build(&cst, attachments);
    let printed = print(&ir);
    assert!(printed.text.contains("var m =\n"));
}

#[test]
fn mod_keeps_diamond_operator_without_spaces() {
    let source = "class A{record R<T>(T x){} R<Integer> r=new R<>(1);} ";
    let lexed = lexer::lex(source);
    let cst = parser::parse(&lexed);
    let attachments = comments::attach(&cst, &lexed);
    let ir = ir::build(&cst, attachments);
    let printed = print(&ir);
    assert!(printed.text.contains("new R<>(1);"));
    assert!(!printed.text.contains("R < >"));
}

#[test]
fn mod_attaches_line_comment_after_open_brace() {
    let source = "class A{void f(){//@x\nx();}}";
    let lexed = lexer::lex(source);
    let cst = parser::parse(&lexed);
    let attachments = comments::attach(&cst, &lexed);
    let ir = ir::build(&cst, attachments);
    let printed = print(&ir);
    assert!(printed.text.contains("void f() { // @x"));
}

#[test]
fn mod_attaches_block_comment_to_previous_statement_when_inline() {
    let source = "class A{void f(){x();/*y*/z();}}";
    let lexed = lexer::lex(source);
    let cst = parser::parse(&lexed);
    let attachments = comments::attach(&cst, &lexed);
    let ir = ir::build(&cst, attachments);
    let printed = print(&ir);
    assert!(printed.text.contains("x(); /*y*/\n"));
    assert!(printed.text.contains("z();"));
}
