use shader_crusher::{crush_str, CrushError, Options, ShaderCrusher};

fn crush(src: &str) -> String {
    crush_str(src, &Options::default()).expect("crush failed").0
}

#[test]
fn gl_prefixed_identifiers_are_never_renamed() {
    let out = crush(
        "#version 110\nuniform vec4 color_tint;\nvoid main() { gl_FragColor = gl_Color * color_tint; }\n",
    );
    assert!(out.contains("gl_FragColor"), "{out}");
    assert!(out.contains("gl_Color"), "{out}");
    assert!(
        !out.contains("color_tint"),
        "user identifiers must still be crushed: {out}"
    );
}

#[test]
fn double_underscore_identifiers_are_never_renamed() {
    let out = crush("#version 110\nuniform float my__value;\nvoid main() { gl_FragColor = vec4(my__value); }\n");
    assert!(out.contains("my__value"), "{out}");
}

#[test]
fn comments_on_directive_lines_do_not_break_parsing_or_leak() {
    let out = crush(
        "#version 110\n#extension all : warn // no error\n#define SCALE 2.0 // twice\nuniform float some_value;\nvoid main() { gl_FragColor = vec4(some_value * SCALE); }\n",
    );
    assert!(out.contains("#extension all : warn\n"), "{out}");
    assert!(out.contains("#define SCALE 2.0\n"), "{out}");
    assert!(!out.contains("//"), "comment leaked: {out}");
    assert!(!out.contains("some_value"), "shader was not crushed: {out}");
}

#[test]
fn pragma_with_trailing_comment_still_toggles_crushing() {
    let out = crush(
        "#version 110\n#pragma SHADER_CRUSHER_OFF // keep uniforms\nuniform float keep_me;\n#pragma SHADER_CRUSHER_ON // back on\nuniform float crush_me;\nvoid main() { gl_FragColor = vec4(keep_me + crush_me); }\n",
    );
    assert!(out.contains("keep_me"), "{out}");
    assert!(!out.contains("crush_me"), "{out}");
    assert!(!out.contains("#pragma"), "pragma should be removed: {out}");
}

/// Every directive kind the parser reads up to the end of the line, plus the
/// crusher's own pragmas: a `\r` left in a pragma command would make OFF/ON
/// go unnoticed, and one left in a `#define` value would leak into the output.
const LINE_ENDING_FIXTURE: &str = "#version 110\n#extension GL_ARB_shader_texture_lod : enable\n#define SCALE 2.0\n#define SQ(v) ((v)*(v))\n#pragma SHADER_CRUSHER_OFF\nuniform float keep_me;\n#pragma SHADER_CRUSHER_ON\nuniform float crush_me;\nvoid main() {\n\tfloat scaled_value = keep_me * SCALE + SQ(crush_me);\n\tgl_FragColor = vec4(scaled_value);\n}\n";

fn assert_crushes_like_lf(input: &str) {
    let expected = crush(LINE_ENDING_FIXTURE);
    let out = crush(input);
    assert_eq!(out, expected);
    assert!(!out.contains('\r'), "CR leaked into output: {out:?}");
    assert!(out.contains("keep_me"), "pragma OFF ignored: {out}");
    assert!(!out.contains("crush_me"), "shader was not crushed: {out}");
    assert!(!out.contains("#pragma"), "pragma should be removed: {out}");
    assert!(out.contains("#define SCALE 2.0\n"), "{out}");
}

#[test]
fn crlf_input_crushes_identically_to_lf() {
    assert_crushes_like_lf(&LINE_ENDING_FIXTURE.replace('\n', "\r\n"));
}

#[test]
fn cr_only_input_crushes_identically_to_lf() {
    assert_crushes_like_lf(&LINE_ENDING_FIXTURE.replace('\n', "\r"));
}

#[test]
fn parse_failure_is_an_error_with_passthrough_output() {
    let src = "void main() { float a = ; }\n";
    let err = crush_str(src, &Options::default()).unwrap_err();
    assert!(matches!(err, CrushError::Parse(_)), "{err:?}");
    assert_eq!(err.exit_code(), 1);
    let mut sc = ShaderCrusher::new();
    sc.set_input(src);
    assert!(sc.crush().is_err());
    assert_eq!(
        sc.get_output(),
        src,
        "failed crush must pass the input through"
    );
    assert!(sc.last_error().is_some());
}

#[test]
fn unparsed_trailing_input_is_an_error() {
    // The parser accepts the first declaration and stops before the garbage.
    let src = "uniform float some_value;\n@@@ not glsl @@@\nvoid main() { gl_FragColor = vec4(some_value); }\n";
    let err = crush_str(src, &Options::default()).unwrap_err();
    match err {
        CrushError::PartialParse { consumed, rest } => {
            assert_eq!(consumed, "uniform float some_value;\n".len(), "{rest}");
            assert!(rest.starts_with("@@@"), "{rest}");
        },
        e => panic!("expected PartialParse, got {e:?}"),
    }
}

