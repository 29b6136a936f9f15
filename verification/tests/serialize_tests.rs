use cosmic_manager::escape::escape_string;
use cosmic_manager::serialize::classify;
use cosmic_manager::serialize::to_nix_expression;
use cosmic_manager::serialize::trim_str;
use cosmic_manager::serialize::ValueKind;

#[test]
fn scenario_bare_boolean() {
    assert_eq!(to_nix_expression(None, "true", "  ", None), "true");
}

#[test]
fn scenario_integer_binding_line() {
    assert_eq!(to_nix_expression(Some("x"), "-42", "  ", None), "  x = -42;\n");
}

#[test]
fn scenario_optional_string() {
    assert_eq!(to_nix_expression(None, "Some(\"hi\")", "", None), "mkOptional(\"hi\")");
}

#[test]
fn scenario_character() {
    assert_eq!(to_nix_expression(None, "'a'", "", None), "mkChar(\"a\")");
}

#[test]
fn scenario_escape_tab() {
    assert_eq!(escape_string("Tab\there"), "Tab\\there");
}

#[test]
fn scenario_escape_accent() {
    assert_eq!(escape_string("café"), "caf\\u00e9");
}

#[test]
fn booleans_serialize_verbatim() {
    assert_eq!(to_nix_expression(None, "true", "", None), "true");
    assert_eq!(to_nix_expression(None, "false", "", None), "false");
}

#[test]
fn integers_serialize_verbatim() {
    assert_eq!(to_nix_expression(None, "0", "", None), "0");
    assert_eq!(to_nix_expression(None, "-7", "", None), "-7");
    assert_eq!(to_nix_expression(None, "123456789012345678901234567890", "", None),
        "123456789012345678901234567890");
}

#[test]
fn floats_serialize_verbatim() {
    assert_eq!(to_nix_expression(None, "3.14", "", None), "3.14");
    assert_eq!(to_nix_expression(None, "-0.5", "", None), "-0.5");
}

#[test]
fn none_token_serializes_to_null_optional() {
    assert_eq!(to_nix_expression(None, "None", "", None), "mkOptional(null)");
}

#[test]
fn optional_wraps_inner_serialization() {
    assert_eq!(to_nix_expression(None, "Some(42)", "", None), "mkOptional(42)");
    assert_eq!(to_nix_expression(None, "Some( 42 )", "", None), "mkOptional(42)");
    assert_eq!(to_nix_expression(None, "Some(abc)", "", None), "mkOptional((mkRaw(\"abc\")))");
    assert_eq!(to_nix_expression(None, "Some('a')", "", None), "mkOptional((mkChar(\"a\")))");
    assert_eq!(to_nix_expression(None, "Some(None)", "", None), "mkOptional((mkOptional(null)))");
}

#[test]
fn optional_with_empty_inner_is_null() {
    assert_eq!(to_nix_expression(None, "Some()", "", None), "mkOptional(null)");
    assert_eq!(to_nix_expression(None, "Some(   )", "", None), "mkOptional(null)");
}

#[test]
fn quoted_string_interior_is_escaped_at_top_level() {
    assert_eq!(to_nix_expression(None, "\"hello\"", "", None), "\"hello\"");
    assert_eq!(to_nix_expression(None, "\"a\"b\"", "", None), "\"a\\\"b\"");
    assert_eq!(to_nix_expression(None, "\"x\\y\"", "", None), "\"x\\\\y\"");
}

#[test]
fn raw_values_are_escaped_whole() {
    assert_eq!(to_nix_expression(None, "x\\y", "", None), "mkRaw(\"x\\\\y\")");
    assert_eq!(
        to_nix_expression(None, "(a: 1, b: 2)", "", None),
        "mkRaw(\"(a: 1, b: 2)\")"
    );
}

#[test]
fn character_contents_are_escaped() {
    assert_eq!(to_nix_expression(None, "'\t'", "", None), "mkChar(\"\\t\")");
    assert_eq!(to_nix_expression(None, "'é'", "", None), "mkChar(\"\\u00e9\")");
}

#[test]
fn binding_line_uses_indent_and_name() {
    assert_eq!(
        to_nix_expression(Some("autotile"), "true", "          ", None),
        "          autotile = true;\n"
    );
    assert_eq!(
        to_nix_expression(Some("label"), "\"hi\"", "", None),
        "label = \"hi\";\n"
    );
}

#[test]
fn classification_follows_rule_order() {
    assert_eq!(classify("Some(true)"), ValueKind::SomeOptional);
    assert_eq!(classify("true"), ValueKind::Boolean);
    assert_eq!(classify("false"), ValueKind::Boolean);
    assert_eq!(classify("1.5"), ValueKind::Float);
    assert_eq!(classify("-1.5"), ValueKind::Float);
    assert_eq!(classify("15"), ValueKind::Integer);
    assert_eq!(classify("-15"), ValueKind::Integer);
    assert_eq!(classify("'x'"), ValueKind::Character);
    assert_eq!(classify("None"), ValueKind::NoneOptional);
    assert_eq!(classify("\"s\""), ValueKind::StringLiteral);
    assert_eq!(classify("anything else"), ValueKind::Raw);
}

#[test]
fn classification_edge_cases() {
    // Not quite matching tokens fall through to later rules.
    assert_eq!(classify(""), ValueKind::Raw);
    assert_eq!(classify("True"), ValueKind::Raw);
    assert_eq!(classify("+5"), ValueKind::Raw);
    assert_eq!(classify("1."), ValueKind::Raw);
    assert_eq!(classify(".5"), ValueKind::Raw);
    assert_eq!(classify("1.2.3"), ValueKind::Raw);
    assert_eq!(classify("-"), ValueKind::Raw);
    assert_eq!(classify("'ab'"), ValueKind::Raw);
    assert_eq!(classify("''"), ValueKind::Raw);
    assert_eq!(classify("\""), ValueKind::Raw);
    assert_eq!(classify("none"), ValueKind::Raw);
    assert_eq!(classify("Some(x"), ValueKind::Raw);
    // A single-quoted character need not be a word character.
    assert_eq!(classify("' '"), ValueKind::Character);
    // The optional wrapper wins over the quoted string.
    assert_eq!(classify("Some(\"q\")"), ValueKind::SomeOptional);
}

#[test]
fn nested_calls_parenthesize_and_skip_escaping() {
    // A nested call marks the value as standing inside an optional wrapper:
    // complex expressions gain parentheses and a quoted interior passes
    // through untouched.
    assert_eq!(to_nix_expression(None, "raw", "", Some("optional")), "(mkRaw(\"raw\"))");
    assert_eq!(to_nix_expression(None, "true", "", Some("optional")), "true");
    assert_eq!(
        to_nix_expression(None, "\"a\\\"b\"", "", Some("optional")),
        "\"a\\\"b\""
    );
}

#[test]
fn trim_removes_surrounding_whitespace() {
    assert_eq!(trim_str("  a b  "), "a b");
    assert_eq!(trim_str("\t\nx\r\n"), "x");
    assert_eq!(trim_str("   "), "");
    assert_eq!(trim_str(""), "");
    assert_eq!(trim_str("\u{a0}y\u{3000}"), "y");
}
