use shader_crusher::options::Scoring;
use shader_crusher::{crush_str, CrushError, Options, Rewrites, ShaderCrusher};

#[test]
fn errors_report_code_and_message() {
    let mut sc = ShaderCrusher::new();
    sc.set_input("void main() { float a = ; }");
    let e = sc.crush().unwrap_err();
    assert_eq!(e.exit_code(), 1);
    assert!(e.message().starts_with("parse error"));
    assert!(sc.last_error().is_some());
    sc.set_input("void main() { gl_FragColor = vec4(1.0); }");
    assert!(sc.last_error().is_none());
    assert!(sc.crush().is_ok());
    assert!(sc.last_error().is_none());
    let o = sc.options_mut();
    assert_eq!(o.set_option("bogus", 1), -1);
    assert_eq!(o.set_option("verbose", 1), 0);
    assert!(o.verbose);
}

#[test]
fn set_option_names_every_switch() {
    let mut o = Options::default();
    assert_eq!(o.set_option("rename", 0), 0);
    assert!(!o.rename);
    assert_eq!(o.set_option("simplify", 0), 0);
    assert!(!o.simplify);
    assert_eq!(o.set_option("shadowing", 0), 0);
    assert!(!o.shadowing);
    assert_eq!(o.set_option("selfcheck", 0), 0);
    assert!(!o.selfcheck);
    assert_eq!(o.set_option("selfcheck", 7), 0);
    assert!(o.selfcheck);
    assert_eq!(o.set_option("scoring", 0), 0);
    assert_eq!(o.scoring, Scoring::Frequency);
    assert_eq!(o.set_option("scoring", 1), 0);
    assert_eq!(o.scoring, Scoring::Bigram);
    let before = o.clone();
    assert_eq!(o.set_option("scoring", 3), -1);
    assert_eq!(o, before);
    assert_eq!(o.set_option("scoring", 2), 0);
    assert_eq!(o.scoring, Scoring::BigramCount);
}

#[test]
fn messages_of_every_error() {
    assert_eq!(CrushError::Parse("bad \n".to_string()).message(), "parse error: bad");
    assert_eq!(
        CrushError::PartialParse { consumed: 26, rest: "@@@ \"x\"\t\u{1b}".to_string() }.message(),
        "parse error: unparsed input at byte 26 (shader would have been truncated): \"@@@ \\\"x\\\"\\t\\u{1b}\""
    );
    assert_eq!(CrushError::Reparse("r ".to_string()).message(), "self-check: output does not parse: r");
    assert_eq!(CrushError::AstMismatch("a".to_string()).message(), "self-check: output parses differently: a");
    assert_eq!(
        CrushError::ScopeMismatch("s".to_string()).message(),
        "self-check: identifiers resolve differently: s"
    );
    assert_eq!(CrushError::NameCollision("n".to_string()).message(), "self-check: renaming collision: n");
    assert_eq!(CrushError::Unsupported("u".to_string()).message(), "unsupported: u");
    assert_eq!(CrushError::TooManySymbols(70000).message(), "too many symbols (70000)");
    assert_eq!(CrushError::Reparse(String::new()).exit_code(), 2);
    assert_eq!(CrushError::NameCollision(String::new()).exit_code(), 2);
    assert_eq!(CrushError::TooManySymbols(0).exit_code(), 3);
    assert_eq!(CrushError::Unsupported(String::new()).exit_code(), 3);
}

#[test]
fn rewrite_names_can_be_disabled() {
    assert_eq!(Rewrites::names(), ["void-params", "empty-compound"]);
    let mut r = Rewrites::default();
    assert!(r.disable("void-params"));
    assert!(!r.void_params && r.empty_compound);
    assert!(!r.disable("merge-decls"));
    assert!(r.disable("empty-compound"));
    assert!(!r.empty_compound);
}

#[test]
fn scoring_spellings() {
    assert_eq!(Scoring::parse("freq"), Some(Scoring::Frequency));
    assert_eq!(Scoring::parse("frequency"), Some(Scoring::Frequency));
    assert_eq!(Scoring::parse("bigram"), Some(Scoring::Bigram));
    assert_eq!(Scoring::parse("count"), Some(Scoring::BigramCount));
    assert_eq!(Scoring::parse("bigram-count"), Some(Scoring::BigramCount));
    assert_eq!(Scoring::parse("Count"), None);
}

#[test]
fn counts_are_bytes() {
    let src = "// \u{e9}t\u{e9}\nuniform float value_one;\nvoid main() { gl_FragColor = vec4(value_one); }\n";
    let (out, counts) = crush_str(src, &Options::default()).unwrap();
    assert_eq!(counts.input_len, src.len());
    assert_eq!(counts.output_len, out.len());
    assert!(counts.renamed >= 1);
    let err = crush_str("float a;\n\u{e9}", &Options::default()).unwrap_err();
    match err {
        CrushError::PartialParse { consumed, rest } => {
            assert_eq!(consumed, "float a;\n".len());
            assert_eq!(rest, "\u{e9}");
        },
        e => panic!("{e:?}"),
    }
}

#[test]
fn failed_crush_passes_input_through_and_success_clears_the_error() {
    let mut sc = ShaderCrusher::new();
    sc.blocklist_identifier("keep_this");
    sc.blocklist_identifier("keep_this");
    assert_eq!(sc.options().blocklist, vec!["keep_this".to_string()]);
    sc.set_input("uniform float keep_this; uniform float other_one;\nvoid main() { gl_FragColor = vec4(keep_this + other_one); }\n");
    assert_eq!(sc.get_output(), sc.get_input());
    sc.crush().unwrap();
    let out = sc.get_output();
    assert!(out.contains("keep_this"), "{out}");
    assert!(!out.contains("other_one"), "{out}");
    sc.set_input("void main() {");
    assert!(sc.crush().is_err());
    assert_eq!(sc.get_output(), "void main() {");
}

#[test]
fn crush_reports_its_symbols() {
    let mut sc = ShaderCrusher::new();
    sc.set_input("uniform float some_value;\nvoid main() { gl_FragColor = vec4(some_value); }\n");
    assert!(sc.symbols().symbols.is_empty());
    sc.crush().unwrap();
    let t = sc.symbols();
    let counts = sc.stats();
    assert_eq!(counts.renamed + counts.kept, t.symbols.len());
    let main = t.symbols.iter().find(|s| s.name == "main").unwrap();
    assert!(main.pinned.is_some());
    let v = t.symbols.iter().find(|s| s.name == "some_value").unwrap();
    assert!(v.new_name.is_some());
    assert_eq!(counts.renamed, 1);
    let (out, c, table) =
        shader_crusher::shadercrusher::crush_with_symbols("void main() {}", &Options::default()).unwrap();
    assert_eq!(out, "void main(){}");
    assert_eq!(c.kept, 1);
    assert_eq!(table.symbols.len(), 1);
}
