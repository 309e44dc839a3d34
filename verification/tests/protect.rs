use shader_crusher::parser::Parse;
use shader_crusher::protect::{pragma_command, run, Protection};
use shader_crusher::syntax::TranslationUnit;
use shader_crusher::CrushError;

fn protect(src: &str) -> (Protection, TranslationUnit) {
    let mut tu = TranslationUnit::parse(src).expect("parse");
    let p = run(&mut tu, &[]).expect("protect");
    (p, tu)
}

#[test]
fn pragmas_are_removed_and_off_regions_pinned() {
    let (p, tu) = protect(
        "#pragma SHADER_CRUSHER_OFF\nuniform float keep_me;\n#pragma SHADER_CRUSHER_ON\nuniform float crush_me;\n#pragma optionNV(fastmath)\nvoid main(){}\n",
    );
    assert!(p.names.contains("keep_me"));
    assert!(!p.names.contains("crush_me"));
    assert!(p.names.contains("main"));
    let pragmas: Vec<_> = tu.0 .0.iter().filter_map(pragma_command).collect();
    assert_eq!(pragmas, ["optionNV(fastmath)"]);
}

#[test]
fn macro_names_bodies_and_conditions_are_pinned_but_not_params() {
    let (p, _) = protect(
        "#define SQ(v) ((v)*(v))\n#define HALF (scale_factor*0.5)\n#ifdef FOO\n#undef BAR\n#endif\n#if defined(BAZ) && QUX > 1\n#elif QUUX\n#endif\nuniform float scale_factor;\nvoid main(){}\n",
    );
    for n in [
        "SQ",
        "HALF",
        "scale_factor",
        "FOO",
        "BAR",
        "BAZ",
        "QUX",
        "QUUX",
        "defined",
    ] {
        assert!(p.names.contains(n), "{n}");
    }
    assert!(!p.names.contains("v"), "macro parameter must not be pinned");
    assert!(p.field_names.contains("scale_factor"));
}

#[test]
fn blocks_and_builtin_members_are_pinned() {
    let (p, _) = protect(
        "uniform Light { vec4 light_pos; } light_src;\nstruct S { float intensity; };\nvoid main(){ S s; gl_FragColor = gl_LightSource[0].position + vec4(s.intensity) + gl_FrontMaterial.diffuse; }\n",
    );
    assert!(p.names.contains("Light"));
    assert!(p.names.contains("light_pos"));
    assert!(
        !p.names.contains("light_src"),
        "block instance names are shader-private"
    );
    assert!(p.field_names.contains("position"));
    assert!(p.field_names.contains("diffuse"));
    assert!(!p.field_names.contains("intensity"));
}

#[test]
fn only_pragmas_is_unsupported() {
    let mut tu = TranslationUnit::parse("#pragma SHADER_CRUSHER_OFF\n").expect("parse");
    assert!(matches!(run(&mut tu, &[]), Err(CrushError::Unsupported(_))));
}
