use shader_crusher::parser::Parse;
use shader_crusher::printer::{format_decimal, print};
use shader_crusher::syntax::{Decimal, Declaration, Expr, ExternalDeclaration, Initializer, TranslationUnit};

/// Parse, print, and check that the print parses back to the same AST.
fn rt(src: &str) -> String {
    let tu = TranslationUnit::parse(src).unwrap_or_else(|e| panic!("{src}: {e:?}"));
    let out = print(&tu);
    let again = TranslationUnit::parse(&out).unwrap_or_else(|e| panic!("{src} -> {out}: {e:?}"));
    assert_eq!(again, tu, "{src} -> {out} parses differently");
    out
}

fn expr(src: &str) -> String {
    let out = rt(&format!("void main(){{x={};}}", src));
    out.strip_prefix("void main(){x=")
        .unwrap()
        .strip_suffix(";}")
        .unwrap()
        .to_string()
}

#[test]
fn expressions_keep_only_necessary_parens() {
    for (src, want) in [
        ("a + b * c", "a+b*c"),
        ("(a + b) * c", "(a+b)*c"),
        ("a * (b + c)", "a*(b+c)"),
        ("a - b - c", "a-b-c"),
        ("a - (b - c)", "a-(b-c)"),
        ("a / (b * c)", "a/(b*c)"),
        ("-(a * b)", "-(a*b)"),
        ("-a * b", "-a*b"),
        ("(-a).x", "(-a).x"),
        ("-a.x", "-a.x"),
        ("(-a)++", "(-a)++"),
        ("-a++", "-a++"),
        ("a - -b", "a- -b"),
        ("a + +b", "a+ +b"),
        ("a - --b", "a- --b"),
        ("a++ + b", "a++ +b"),
        ("a-- - b", "a-- -b"),
        ("a + ++b", "a+ ++b"),
        ("- -a", "- -a"),
        ("-(-a)", "- -a"),
        ("a ? b : c", "a?b:c"),
        ("a ? b : c ? d : e", "a?b:c?d:e"),
        ("(a ? b : c) ? d : e", "(a?b:c)?d:e"),
        ("a || b ? c : d", "a||b?c:d"),
        ("(a = b) ? c : d", "(a=b)?c:d"),
        ("a ? b, c : d", "a?b,c:d"),
        ("a ? b : c = d", "a?b:c=d"),
        ("a = b = c", "a=b=c"),
        ("(a = b) = c", "(a=b)=c"),
        ("a += b * c", "a+=b*c"),
        ("a | b | c", "a|b|c"),
        ("(a | b) | c", "(a|b)|c"),
        ("a & b & c", "a&b&c"),
        ("a ^ b | c", "a^b|c"),
        ("a | b ^ c", "a|b^c"),
        ("a && b && c", "a&&b&&c"),
        ("a && (b && c)", "a&&(b&&c)"),
        ("a == b == c", "a==b==c"),
        ("a < b == c", "a<b==c"),
        ("a << 1 + b", "a<<1+b"),
        ("f(a, b)", "f(a,b)"),
        ("f((a, b))", "f((a,b))"),
        ("f(a = 1)", "f(a=1)"),
        ("float[2](1., 2.)", "float[2](1.,2.)"),
        ("a.length()", "a.length()"),
        ("a[1][2]", "a[1][2]"),
        ("a[b ? 1 : 2]", "a[b?1:2]"),
        ("a[(b = 1)]", "a[(b=1)]"),
        ("(a, b), c", "(a,b),c"),
        ("a, b, c", "a,b,c"),
        ("v.xyz", "v.xyz"),
        ("vec4(1.0, 0.5, 0.0, 1e3)", "vec4(1.,.5,0.,1e3)"),
        ("!a", "!a"),
        ("!(a && b)", "!(a&&b)"),
        ("~a", "~a"),
        ("3u + 0x10", "3u+16"),
        ("0xFFFFFFFF", "0xFFFFFFFF"),
        ("010", "8"),
        ("true && false", "true&&false"),
        ("1.5lf", "1.5lf"),
    ] {
        assert_eq!(expr(src), want, "{src}");
    }
}

#[test]
fn statements_and_declarations() {
    for (src, want) in [
        ("void main(){if(a)x;else y;}", "void main(){if(a)x;else y;}"),
        (
            "void main(){if(a){x;}else{y;}}",
            "void main(){if(a){x;}else{y;}}",
        ),
        (
            "void main(){if(a)x;else if(b)y;else z;}",
            "void main(){if(a)x;else if(b)y;else z;}",
        ),
        (
            "void main(){if(a){if(b)x;}else y;}",
            "void main(){if(a){if(b)x;}else y;}",
        ),
        ("void main(){do x;while(c);}", "void main(){do x;while(c);}"),
        (
            "void main(){do{x;}while(c);}",
            "void main(){do{x;}while(c);}",
        ),
        ("void main(){for(;;);}", "void main(){for(;;);}"),
        (
            "void main(){for(int i=0;i<3;i++){x;}}",
            "void main(){for(int i=0;i<3;i++){x;}}",
        ),
        (
            "void main(){for(i=0;i<3;++i)x;}",
            "void main(){for(i=0;i<3;++i)x;}",
        ),
        ("void main(){while(a)x;}", "void main(){while(a)x;}"),
        (
            "void main(){switch(a){case 1:x;break;default:y;}}",
            "void main(){switch(a){case 1:x;break;default:y;}}",
        ),
        ("void main(){return;}", "void main(){return;}"),
        ("void main(){return -1;}", "void main(){return-1;}"),
        ("void main(){return 1.;}", "void main(){return 1.;}"),
        ("void main(){return .5;}", "void main(){return.5;}"),
        (
            "void main(){discard;continue;break;}",
            "void main(){discard;continue;break;}",
        ),
        ("void main(){{}}", "void main(){{}}"),
        ("void main(){;}", "void main(){;}"),
        ("void main(){a;}", "void main(){a;}"),
        ("void main(void){}", "void main(void){}"),
        (
            "float f(float a, in vec2 b[2], out float c);",
            "float f(float a,in vec2 b[2],out float c);",
        ),
        (
            "float a, b[2] = float[2](1., 2.);",
            "float a,b[2]=float[2](1.,2.);",
        ),
        (
            "const float a[] = float[](0., 1.);",
            "const float a[]=float[](0.,1.);",
        ),
        (
            "layout(location = 0) in vec4 p;",
            "layout(location=0)in vec4 p;",
        ),
        (
            "layout(std140, binding = 1) uniform B { vec4 a; float b[2]; } inst;",
            "layout(std140,binding=1)uniform B{vec4 a;float b[2];}inst;",
        ),
        ("uniform B { vec4 a; };", "uniform B{vec4 a;};"),
        (
            "struct S { int a; float b, c; };",
            "struct S{int a;float b,c;};",
        ),
        (
            "const struct S { int a; } s = S(1);",
            "const struct S{int a;}s=S(1);",
        ),
        ("struct { int a; } s;", "struct{int a;}s;"),
        ("precision mediump float;", "precision mediump float;"),
        ("highp vec4 c;", "highp vec4 c;"),
        ("invariant gl_Position;", "invariant gl_Position;"),
        ("flat centroid in vec3 n;", "flat centroid in vec3 n;"),
        (
            "subroutine(T) float f(float a){return a;}",
            "subroutine(T)float f(float a){return a;}",
        ),
        ("int a[2] = {1, 2};", "int a[2]={1,2};"),
        (
            "void main(){float x = (a, b);}",
            "void main(){float x=(a,b);}",
        ),
        ("void main(){int x = x;}", "void main(){int x=x;}"),
        ("void main(){float a[2][3];}", "void main(){float a[2][3];}"),
    ] {
        assert_eq!(rt(src), want, "{src}");
    }
}

#[test]
fn preprocessor_lines_stay_on_their_own_lines() {
    let src = "#version 300 es\n#extension GL_ARB_x : enable\n#extension all : warn\n#define X\n#define Y 1 + 2\n#define SQ(v) ((v)*(v))\n#define F(a, b)\n#ifdef X\n#undef X\n#elif defined(Y)\n#else\n#endif\n#if 1\n#endif\n#error no way\n#pragma optionNV(fastmath)\n#line 3 4\n#line 5\nfloat a;\n#ifndef Z\nvoid main(){}\n#endif\n";
    let want = "#version 300 es\n#extension GL_ARB_x : enable\n#extension all : warn\n#define X\n#define Y 1 + 2\n#define SQ(v) ((v)*(v))\n#define F(a,b)\n#ifdef X\n#undef X\n#elif defined(Y)\n#else\n#endif\n#if 1\n#endif\n#error no way\n#pragma optionNV(fastmath)\n#line 3 4\n#line 5\nfloat a;\n#ifndef Z\nvoid main(){}\n#endif";
    assert_eq!(rt(src), want);
    assert_eq!(
        rt("#version 110\nvoid main(){}"),
        "#version 110\nvoid main(){}"
    );
    assert_eq!(rt("#version 110"), "#version 110");
    assert_eq!(
        rt("#version 110\n#version 120"),
        "#version 110\n#version 120"
    );
}

#[test]
fn negative_int_constants_print_as_hex() {
    assert_eq!(expr("-1"), "-1");
    let tu = TranslationUnit::parse("int a=0xFFFFFFFF;").unwrap();
    match &tu.0 .0[0] {
        ExternalDeclaration::Declaration(Declaration::InitDeclaratorList(l)) => {
            assert_eq!(
                l.head.initializer,
                Some(Initializer::Simple(Box::new(Expr::IntConst(-1))))
            );
        },
        other => panic!("{other:?}"),
    }
    assert_eq!(rt("int a=0xFFFFFFFF;"), "int a=0xFFFFFFFF;");
}

/// The decimal digits and exponent of the shortest rendering that reads
/// back as `sci` (Rust's `{:e}` form).
fn decompose(sci: &str) -> (Vec<u8>, i64) {
    let (mant, exp) = sci.split_once('e').expect("scientific notation");
    let exp: i64 = exp.parse().expect("exponent");
    let digits: Vec<u8> = mant.chars().filter(|c| *c != '.').map(|c| c as u8 - b'0').collect();
    let k = exp - (digits.len() as i64 - 1);
    (digits, k)
}

fn literal(sci: Option<String>, negative: bool, double: bool) -> String {
    let d = match sci {
        None => Decimal { negative: false, digits: vec![], exponent: 0 },
        Some(sci) => {
            let (digits, exponent) = decompose(&sci);
            Decimal { negative, digits, exponent }
        },
    };
    format_decimal(&d, double).into_iter().collect()
}

fn format_float(x: f32) -> String {
    let sci = if x == 0.0 { None } else { Some(format!("{:e}", x.abs())) };
    literal(sci, x < 0.0, false)
}

fn format_double(x: f64) -> String {
    let sci = if x == 0.0 { None } else { Some(format!("{:e}", x.abs())) };
    literal(sci, x < 0.0, true)
}

/// The parser's reading of a literal: a leading `.` gets a `0` in front.
fn parser_reads(lit: &str) -> String {
    if lit.starts_with('.') {
        format!("0{}", lit)
    } else {
        lit.to_string()
    }
}

#[test]
fn float_literals_are_shortest_roundtrip() {
    for (x, want) in [
        (1.0, "1."),
        (0.5, ".5"),
        (0.0, "0."),
        (-0.0, "0."),
        (1.5, "1.5"),
        (1.1, "1.1"),
        (100.0, "1e2"),
        (1000000.0, "1e6"),
        (1500000.0, "15e5"),
        (0.0000001, "1e-7"),
        (0.001, ".001"),
        (123456.0, "123456."),
        (16777216.0, "16777216."),
        (0.1, ".1"),
        (3.1415927, "3.1415927"),
        (f32::MAX, "34028235e31"),
        (f32::MIN_POSITIVE, "11754944e-45"),
        (1.0e-45, "1e-45"),
    ] {
        let got = format_float(x);
        assert_eq!(got, want, "{x}");
        assert_eq!(parser_reads(&got).parse::<f32>().unwrap(), x, "{x} -> {got}");
    }
    assert_eq!(format_float(-2.5), "-2.5");
    assert_eq!(format_double(1.0), "1.lf");
    assert_eq!(format_double(0.1), ".1lf");
    assert_eq!(format_double(1.0e300), "1e300lf");
    // every candidate form is something both Rust and the parser accept
    for lit in ["1.", ".5", "1e3", "1.e3", ".5e1", "15e5", "1.5e-10"] {
        assert!(parser_reads(lit).parse::<f32>().is_ok(), "{lit}");
    }
}
