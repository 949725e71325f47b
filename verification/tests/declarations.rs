use javafmt::declarations::{finalize_declarations, normalize_modifier_order, wrap_multivariable_declaration_line};

#[test]
fn reorders_access_modifier_before_sealed() {
    let input = "class T {\n  sealed private interface A permits I {}\n}\n";
    let expected = "class T {\n  private sealed interface A permits I {}\n}\n";
    assert_eq!(finalize_declarations(input), expected);
}

#[test]
fn wraps_long_multivariable_declaration() {
    let input = "class T {\n  int xxxxxxxxxxxxxxxxxxxxxxxxxxxxxxxxxxxxxxxxx, yyyyyyyyyyyyyyyyyyyyyyyyyyyyyyyyyyyyyyyyy, zzzzzzzzzzzzzzzzzzzzzzzzzzzzzzzzzzzzzzzzz;\n}\n";
    let expected = "class T {\n  int xxxxxxxxxxxxxxxxxxxxxxxxxxxxxxxxxxxxxxxxx,\n      yyyyyyyyyyyyyyyyyyyyyyyyyyyyyyyyyyyyyyyyy,\n      zzzzzzzzzzzzzzzzzzzzzzzzzzzzzzzzzzzzzzzzz;\n}\n";
    assert_eq!(finalize_declarations(input), expected);
}

#[test]
fn reorders_non_sealed_modifier() {
    let line: Vec<char> = "  non-sealed public class B extends A {}".chars().collect();
    let fixed: String = normalize_modifier_order(&line).into_iter().collect();
    assert_eq!(fixed, "  public non-sealed class B extends A {}");
}

#[test]
fn keeps_short_declaration_unwrapped() {
    let line: Vec<char> = "  int a, b;".chars().collect();
    assert!(wrap_multivariable_declaration_line(&line).is_none());
}

#[test]
fn keeps_long_declaration_with_initializer_unwrapped() {
    let text = format!("  int {} = 1, b;", "x".repeat(100));
    let line: Vec<char> = text.chars().collect();
    assert!(wrap_multivariable_declaration_line(&line).is_none());
}

#[test]
fn does_not_split_at_commas_inside_generic_arguments() {
    let text = format!("  Map<String, Integer> {}, {};", "a".repeat(50), "b".repeat(50));
    let line: Vec<char> = text.chars().collect();
    let wrapped: String = wrap_multivariable_declaration_line(&line).unwrap().into_iter().collect();
    assert_eq!(wrapped, format!("  Map<String, Integer> {},\n      {};", "a".repeat(50), "b".repeat(50)));
}

#[test]
fn separates_member_javadoc_from_previous_member() {
    let input = "class T {\n  int a;\n  /** Doc. */\n  int b;\n}\n";
    let expected = "class T {\n  int a;\n\n  /** Doc. */\n  int b;\n}\n";
    assert_eq!(finalize_declarations(input), expected);
}

#[test]
fn drops_blank_line_before_closing_brace() {
    let input = "class T {\n  int a;\n\n}\n";
    assert_eq!(finalize_declarations(input), "class T {\n  int a;\n}\n");
}
