use shader_crusher::builtins::{
    builtin_functions, is_builtin_function, is_builtin_member, is_keyword, is_reserved, is_swizzle,
    keywords, never_generate,
};

#[test]
fn lists_load_and_contain_expected_words() {
    for k in ["in", "do", "if", "vec4", "sampler2DRect", "precision", "struct", "true", "float16_t"] {
        assert!(is_keyword(k), "{k}");
    }
    // the merged tokens of an earlier keyword file are gone
    for k in ["usamplerCubeArraystruct", "inlinenoinline", "castnamespace", "removedTypes"] {
        assert!(!is_keyword(k) && !is_builtin_function(k), "{k}");
    }
    for f in [
        "texture2D",
        "texture2DRect",
        "texture2DProj",
        "texture1D",
        "textureCube",
        "shadow2D",
        "shadow2DRect",
        "ftransform",
        "noise1",
        "texture",
        "texelFetch",
        "length",
        "dFdx",
        "EmitVertex",
    ] {
        assert!(is_builtin_function(f), "{f}");
    }
    for m in ["position", "diffuse", "specular", "halfVector", "near", "far", "color", "size"] {
        assert!(is_builtin_member(m), "{m}");
    }
    assert!(!is_builtin_member("foo"));
    // no 1- or 2-letter builtin function, so the short pool only loses keywords
    assert!(builtin_functions().iter().all(|f| f.len() > 2));
    assert!(keywords().iter().filter(|k| k.len() <= 2).count() == 3);
}

#[test]
fn reserved_and_swizzle() {
    assert!(is_reserved("gl_FragColor"));
    assert!(is_reserved("GL_ES"));
    assert!(is_reserved("my__var"));
    assert!(!is_reserved("_private"));
    assert!(!is_reserved("glFoo"));
    for s in ["x", "xyzw", "rgb", "stpq", "wzyx", "aa"] {
        assert!(is_swizzle(s), "{s}");
    }
    for s in ["", "xr", "xyzwx", "foo", "xs", "1"] {
        assert!(!is_swizzle(s), "{s}");
    }
    assert!(never_generate("main"));
    assert!(never_generate("do"));
    assert!(never_generate("dot"));
    assert!(!never_generate("ab"));
}
