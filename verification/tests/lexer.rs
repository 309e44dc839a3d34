use shader_crusher::lexer::{identifiers, needs_space, squeeze, tokenize, Tok};

fn texts(s: &str) -> Vec<&str> {
    tokenize(s).iter().map(|t| t.text()).collect()
}

#[test]
fn tokenizes_numbers_identifiers_and_punctuation() {
    assert_eq!(texts("a+b"), ["a", "+", "b"]);
    assert_eq!(texts("x <<= 1"), ["x", "<<=", "1"]);
    assert_eq!(texts("a++ + ++b"), ["a", "++", "+", "++", "b"]);
    assert_eq!(texts("1.e+5 .5 1.5f 0x1F 1e-3"), ["1.e+5", ".5", "1.5f", "0x1F", "1e-3"]);
    assert_eq!(texts("v.xy"), ["v", ".", "xy"]);
    assert_eq!(texts("a // c\n/* b */ d"), ["a", "d"]);
    assert_eq!(texts("x \\\n  y"), ["x", "y"]);
    assert_eq!(texts("a##b"), ["a", "##", "b"]);
    assert_eq!(texts("@"), ["@"]);
    assert!(matches!(tokenize("_a1")[0], Tok::Ident("_a1")));
    assert!(matches!(tokenize("1")[0], Tok::Number("1")));
    assert!(matches!(tokenize("(")[0], Tok::Punct("(")));
}

#[test]
fn identifiers_of_macro_bodies() {
    assert_eq!(identifiers("((v)*(v)) + scale_factor*0.5"), ["v", "v", "scale_factor"]);
    assert_eq!(identifiers("defined(FOO) && BAR > 1"), ["defined", "FOO", "BAR"]);
    assert_eq!(identifiers("1.0e-5f"), Vec::<&str>::new());
}

#[test]
fn needs_space_matrix() {
    for (a, b) in [
        ("a", "b"),
        ("+", "+"),
        ("-", "--"),
        ("<", "<"),
        ("<", "<="),
        ("/", "/"),
        ("/", "*"),
        (".", "5"),
        ("1", ".5"),
        ("#", "#"),
        ("a", "1"),
        ("1", "e"),
        ("&", "&"),
    ] {
        assert!(needs_space(a, b), "{a} {b}");
    }
    for (a, b) in [("a", "+"), ("+", "a"), (")", "("), ("1", "+"), ("-", "1"), ("*", "/"), ("x", ".")] {
        assert!(!needs_space(a, b), "{a} {b}");
    }
}

#[test]
fn squeeze_keeps_tokens_apart() {
    assert_eq!(squeeze("( ( v ) * ( v ) )"), "((v)*(v))");
    assert_eq!(squeeze("a - -b"), "a- -b");
    assert_eq!(squeeze("a + ++ b"), "a+ ++b");
    assert_eq!(squeeze("int sum = 1; \\\n   sum = test; // c"), "int sum=1;sum=test;");
    assert_eq!(squeeze("defined ( FOO ) && BAR > 1"), "defined(FOO)&&BAR>1");
    assert_eq!(squeeze(""), "");
    assert_eq!(squeeze("  "), "");
}
