use shader_crusher::options::Scoring;
use shader_crusher::parser::Parse;
use shader_crusher::printer::print;
use shader_crusher::protect::Protection;
use shader_crusher::rename::{assign, letters_by_frequency, Bigrams};
use shader_crusher::scope::{self, sentinel, Symbol, SymbolKind, SymbolTable};
use shader_crusher::selfcheck::type_names_distinct;
use shader_crusher::syntax::TranslationUnit;

/// Resolve `src`, assign names with the given options, return the table.
fn assigned(src: &str, scoring: Scoring, shadowing: bool) -> SymbolTable {
    let mut tu = TranslationUnit::parse(src).expect("parse");
    let mut table = scope::resolve(&mut tu, &Protection::default()).expect("resolve");
    let text = print(&tu);
    assign(&mut table, &text, scoring, shadowing);
    table
}

fn finals(table: &SymbolTable, of: impl Fn(&Symbol) -> bool) -> Vec<String> {
    table
        .symbols
        .iter()
        .filter(|s| of(s))
        .map(|s| s.new_name.clone().unwrap_or_else(|| s.name.clone()))
        .collect()
}

#[test]
fn letters_sorted_by_frequency_stable() {
    let l = letters_by_frequency("zzz yy x");
    assert_eq!(&l[..3], &['z', 'y', 'x']);
    assert_eq!(l[3], 'a');
    assert_eq!(l.len(), 52);
}

#[test]
fn type_names_are_never_reused_by_any_symbol() {
    let src = "#version 410\nout vec4 out_color;\nstruct S { float v; };\nfloat f() { int i = 0; while (i < 9) i += 1; return float(i); }\nvoid main() { S s; s.v = f(); out_color = vec4(s.v); }\n";
    for shadowing in [true, false] {
        for scoring in [Scoring::Frequency, Scoring::Bigram, Scoring::BigramCount] {
            let table = assigned(src, scoring, shadowing);
            assert!(
                type_names_distinct(&table).is_ok(),
                "{scoring:?} {shadowing}"
            );
            let types = finals(&table, |s| s.kind == SymbolKind::StructType);
            assert_eq!(types.len(), 1);
            let others = finals(&table, |s| s.kind != SymbolKind::StructType);
            assert!(
                !others.contains(&types[0]),
                "{scoring:?} {shadowing}: type {} also used by {others:?}",
                types[0]
            );
        }
    }
}

#[test]
fn local_struct_type_does_not_take_a_freed_outer_name() {
    // `unused_outer` is not referenced inside main, so its name is freed
    // there; the struct type declared in main must not receive it
    let table = assigned(
        "uniform float unused_outer; void main() { struct L { float a; } l; l.a = 1.; gl_FragColor = vec4(l.a); }",
        Scoring::BigramCount,
        true,
    );
    assert!(type_names_distinct(&table).is_ok());
    let ty = finals(&table, |s| s.kind == SymbolKind::StructType);
    let outer = finals(&table, |s| s.name == "unused_outer");
    assert_ne!(ty[0], outer[0], "type took the freed outer name");
}

#[test]
fn fields_are_never_spelled_like_a_type() {
    // `x` is a swizzle-shaped field: it keeps its name, so no type may take it
    let table = assigned(
        "struct A { float x; float second; }; struct B { float third; }; uniform A a; uniform B b; void main() { gl_FragColor = vec4(a.x + a.second + b.third); }",
        Scoring::BigramCount,
        true,
    );
    assert!(type_names_distinct(&table).is_ok());
    let types = finals(&table, |s| s.kind == SymbolKind::StructType);
    let fields = finals(&table, |s| matches!(s.kind, SymbolKind::Field(_)));
    assert!(
        fields.contains(&"x".to_string()),
        "swizzle-shaped field kept: {fields:?}"
    );
    for t in &types {
        assert!(
            !fields.contains(t),
            "type {t} also names a field: {fields:?}"
        );
    }
}

#[test]
fn bigram_scoring_prefers_names_that_repeat_existing_contexts() {
    let s = sentinel(0);
    let text = format!("f(a)f(a) x({s})+{s}", s = s);
    let sc = s.chars().next().unwrap();
    let mut b = Bigrams::new(&text);
    // `(a` and `a)` exist twice; `(b` / `b)` never
    assert!(b.score(sc, "a", false) > b.score(sc, "b", false));
    assert!(b.score(sc, "a", true) > b.score(sc, "b", true));
    // any single letter beats any pair
    assert!(b.score(sc, "q", false) > b.score(sc, "ab", false));
    b.fold(sc, "a");
    assert_eq!(b.count('(', 'a'), 3);
    assert_eq!(b.count('a', ')'), 3);
    assert_eq!(b.count('+', 'a'), 1);
    assert!(!Bigrams::has_row(&b.prev_of, sc) && !Bigrams::has_row(&b.next_of, sc));
    // a pair adds its inner bigram once per occurrence
    let text = format!("x {s}, {s}", s = s);
    let mut b = Bigrams::new(&text);
    b.fold(sc, "ab");
    assert_eq!(b.count('a', 'b'), 2);
}

#[test]
fn new_names_avoid_keywords_and_kept_names() {
    let src = "uniform float in_value;\nvarying vec2 uv;\nfloat helper(float a, float b) { float c = a * b; return c + in_value; }\nvoid main() { float d = helper(uv.x, uv.y); gl_FragColor = vec4(d); }\n";
    let mut tu = TranslationUnit::parse(src).expect("parse");
    let mut prot = Protection::default();
    prot.names.insert_str("in_value");
    let mut table = scope::resolve(&mut tu, &prot).expect("resolve");
    let text = print(&tu);
    assign(&mut table, &text, Scoring::Frequency, true);
    let kept: Vec<String> = table.symbols.iter().filter(|s| s.pinned.is_some()).map(|s| s.name.clone()).collect();
    assert!(kept.contains(&"in_value".to_string()));
    for s in &table.symbols {
        if let Some(n) = &s.new_name {
            assert!(!shader_crusher::builtins::never_generate(n), "{n}");
            assert!(!kept.contains(n), "{n} is kept");
            assert_ne!(n, "main");
        }
    }
}

#[test]
fn every_symbol_is_either_kept_or_renamed() {
    let src = "uniform float gl_like;\nstruct S { float v; };\nfloat f(float a) { S s; s.v = a; return s.v; }\nvoid main() { for (int i = 0; i < 3; i++) { float t = f(float(i)); } gl_FragColor = vec4(f(1.)); }\n";
    for scoring in [Scoring::Frequency, Scoring::Bigram, Scoring::BigramCount] {
        let table = assigned(src, scoring, true);
        for s in &table.symbols {
            assert_eq!(s.pinned.is_some(), s.new_name.is_none(), "{} {:?}", s.name, s.kind);
        }
    }
}
