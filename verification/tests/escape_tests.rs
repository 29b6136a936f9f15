use cosmic_manager::escape::escape_string;

#[test]
fn test_escape_sequences() {
    let test_cases = [
        // Basic escapes
        ("Hello \"World\"", "Hello \\\"World\\\""),
        ("Path\\to\\file", "Path\\\\to\\\\file"),
        ("Line1\nLine2", "Line1\\nLine2"),
        ("Tab\there", "Tab\\there"),
        ("Return\rhere", "Return\\rhere"),
        ("Single'quote", "Single\\'quote"),
        // Control characters
        ("\x07Bell", "\\aBell"),
        ("Back\x08space", "Back\\bspace"),
        ("Form\x0Cfeed", "Form\\ffeed"),
        ("Vert\x0Btab", "Vert\\vtab"),
        // Null character
        ("Null\0char", "Null\\0char"),
        // Unicode examples
        ("Hello 🦀", "Hello \\U0001f980"), // Rust crab emoji
        ("café", "caf\\u00e9"),            // é character
    ];

    for (input, expected) in test_cases {
        assert_eq!(escape_string(input), expected, "Failed on input: {}", input);
    }
}

#[test]
fn escape_passes_printable_ascii_through() {
    assert_eq!(escape_string("plain text 123 !#$%&"), "plain text 123 !#$%&");
    assert_eq!(escape_string(""), "");
}

#[test]
fn escape_uses_hex_for_other_controls() {
    assert_eq!(escape_string("\x01"), "\\x01");
    assert_eq!(escape_string("\x1f"), "\\x1f");
    assert_eq!(escape_string("a\x1eb"), "a\\x1eb");
}

#[test]
fn escape_leaves_no_raw_specials() {
    // Every reserved or control character lands inside an escape sequence.
    assert_eq!(escape_string("\x01\"\\\n"), "\\x01\\\"\\\\\\n");
    assert_eq!(escape_string("\"\""), "\\\"\\\"");
}

#[test]
fn escape_boundary_code_points() {
    // 0x7F passes through; 0x80 is the first \u escape; 0xFFFF the last;
    // 0x10000 the first \U escape.
    assert_eq!(escape_string("\u{7f}"), "\u{7f}");
    assert_eq!(escape_string("\u{80}"), "\\u0080");
    assert_eq!(escape_string("\u{ffff}"), "\\uffff");
    assert_eq!(escape_string("\u{10000}"), "\\U00010000");
}
