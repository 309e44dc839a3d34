use shader_crusher::options::Scoring;
use shader_crusher::parser::Parse;
use shader_crusher::preprocess::{normalize_line_endings, strip_directive_comments};
use shader_crusher::printer::{format_decimal, print, shortest_literal};
use shader_crusher::protect::run as protect;
use shader_crusher::rename::{assign, Bigrams};
use shader_crusher::scope::{resolve, PinReason};
use shader_crusher::syntax::{Decimal, TranslationUnit};

#[test]
fn normalizing_leaves_no_carriage_return_and_is_idempotent() {
    for src in ["a\r\nb\rc\n", "\r\r\n\n\r", "x", "", "\r"] {
        let once = normalize_line_endings(src);
        assert!(!once.contains('\r'), "{once:?}");
        assert_eq!(normalize_line_endings(&once), once);
    }
    let lf = "#version 110\nvoid main() {}\n\n";
    assert_eq!(normalize_line_endings(&lf.replace('\n', "\r\n")), lf);
    assert_eq!(normalize_line_endings(&lf.replace('\n', "\r")), lf);
    assert_eq!(normalize_line_endings(lf), lf);
}

fn lit(digits: &[u8], k: i64) -> String {
    shortest_literal(&digits.to_vec(), k).into_iter().collect()
}

#[test]
fn shortest_literals() {
    assert_eq!(lit(&[1], 0), "1.");
    assert_eq!(lit(&[5], -1), ".5");
    assert_eq!(lit(&[1], 2), "1e2");
    assert_eq!(lit(&[1], 6), "1e6");
    assert_eq!(lit(&[1, 5], 5), "15e5");
    assert_eq!(lit(&[1], -7), "1e-7");
    assert_eq!(lit(&[1], -3), ".001");
    assert_eq!(lit(&[1, 2, 3, 4, 5, 6], 0), "123456.");
    assert_eq!(lit(&[1, 5], -1), "1.5");
    assert_eq!(lit(&[1, 5], -11), ".15e-9");
    let d = |negative: bool, digits: Vec<u8>, exponent: i64| Decimal { negative, digits, exponent };
    let f = |x: &Decimal, double: bool| -> String { format_decimal(x, double).into_iter().collect() };
    assert_eq!(f(&d(false, vec![], 0), false), "0.");
    assert_eq!(f(&d(false, vec![], 0), true), "0.lf");
    assert_eq!(f(&d(true, vec![2, 5], -1), false), "-2.5");
    assert_eq!(f(&d(false, vec![1], 300), true), "1e300lf");
    assert_eq!(f(&d(false, vec![1], -1), true), ".1lf");
}

#[test]
fn kept_names_stay_unrenamed() {
    let mut tu = TranslationUnit::parse(
        "uniform float keep_me; uniform float my__value; uniform float other_value;\nvoid main() { gl_FragColor = vec4(keep_me + my__value + other_value); }\n",
    )
    .unwrap();
    let prot = protect(&mut tu, &["keep_me".to_string()]).unwrap();
    let mut table = resolve(&mut tu, &prot).unwrap();
    assert!(table.symbols.iter().all(|s| s.new_name.is_none()));
    let text = print(&tu);
    assign(&mut table, &text, Scoring::BigramCount, true);
    for s in &table.symbols {
        match s.name.as_str() {
            "keep_me" | "main" => {
                assert_eq!(s.pinned, Some(PinReason::Protected));
                assert_eq!(s.new_name, None);
            },
            "my__value" => {
                assert_eq!(s.pinned, Some(PinReason::Reserved));
                assert_eq!(s.new_name, None);
            },
            "other_value" => assert!(s.new_name.is_some()),
            _ => {},
        }
    }
}

#[test]
fn bigram_counts_and_fold() {
    let b = Bigrams::new("abab");
    assert_eq!(b.count('a', 'b'), 2);
    assert_eq!(b.count('b', 'a'), 1);
    assert_eq!(b.count('a', 'a'), 0);
    assert!(Bigrams::has_row(&b.next_of, 'a') && !Bigrams::has_row(&b.next_of, 'z'));
    let mut b = Bigrams::new("(s)+(s)");
    // s is preceded by '(' twice and followed by ')' twice
    b.fold('s', "xy");
    assert_eq!(b.count('(', 'x'), 2);
    assert_eq!(b.count('y', ')'), 2);
    assert_eq!(b.count('x', 'y'), 2);
    assert_eq!(b.count(')', '+'), 1);
    assert!(!Bigrams::has_row(&b.next_of, 's') && !Bigrams::has_row(&b.prev_of, 's'));
    let b = Bigrams::new("(s)+(s)");
    // unweighted: each distinct neighbour counts how often it precedes/follows the first/last letter
    assert_eq!(b.score('s', "q", false), 0);
    assert_eq!(b.score('s', "+", false), 0);
    assert_eq!(b.score('s', "s", false), 4);
    assert_eq!(b.score('s', "s", true), 8);
    assert_eq!(b.score('s', "ab", false), -1000);
    assert_eq!(b.score('s', "ab", true), -2000);
}

fn token_texts(s: &str) -> Vec<&str> {
    shader_crusher::lexer::tokenize(s).iter().map(|t| t.text()).collect()
}

#[test]
fn one_space_keeps_two_tokens_apart() {
    for (a, b) in [("a", "b"), ("1", "2"), ("+", "+"), ("-", "-"), ("/", "/"), ("/", "*"), ("x", ".5"), ("<", "<=")] {
        let joined = format!("{a} {b}");
        assert_eq!(token_texts(&joined), vec![a, b], "{joined:?}");
    }
}

#[test]
fn skipped_stretches_give_no_token() {
    let s = "x = y;";
    for gap in [" ", "\t", "\n", "\\\n", "\\\r\n", "/* c */", "/**/", "// c\n", "//\n"] {
        let joined = format!("{gap}{s}");
        assert_eq!(token_texts(&joined), token_texts(s), "{joined:?}");
    }
}

#[test]
fn stripping_directive_comments_keeps_the_lines() {
    for src in [
        "#define A 1 // c\nint x; // keep\n#pragma x /* y */\n",
        "#define F(a) \\\n  (a) // two\nvoid main(){}",
        "",
        "\n\n",
        "#version 100",
    ] {
        let out = strip_directive_comments(src);
        assert_eq!(out.matches('\n').count(), src.matches('\n').count(), "{src:?}");
    }
    let out = strip_directive_comments("#define A 1 // c\nint x; // keep\n");
    assert_eq!(out.lines().nth(1), Some("int x; // keep"));
}
