use shader_crusher::preprocess::{normalize_line_endings, strip_directive_comments};

#[test]
fn strip_directive_comments_only_touches_directive_lines() {
    let src = "#extension all : disable // no error\n  # define X 1 /* one */ // c\n#define Y /* a */ 2 /* b */\nfloat a = 1.0; // keep me\n/* keep */ float b;\n#pragma once";
    let expected = "#extension all : disable\n  # define X 1\n#define Y   2\nfloat a = 1.0; // keep me\n/* keep */ float b;\n#pragma once";
    assert_eq!(strip_directive_comments(src), expected);
    assert_eq!(strip_directive_comments("#define A 1 // c\n"), "#define A 1\n");
    assert_eq!(strip_directive_comments(""), "");
    // continuation lines belong to the directive
    assert_eq!(
        strip_directive_comments("#define M a \\\n  b /* c */ \\\n  d // e\nfloat x; // keep\n"),
        "#define M a \\\n  b   \\\n  d\nfloat x; // keep\n"
    );
}

#[test]
fn normalize_line_endings_handles_crlf_and_cr() {
    assert_eq!(normalize_line_endings("a\r\nb\rc\n"), "a\nb\nc\n");
    assert_eq!(normalize_line_endings("a\nb"), "a\nb");
    assert_eq!(normalize_line_endings(""), "");
}
