use shader_crusher::parser::Parse;
use shader_crusher::printer::print;
use shader_crusher::simplify::{run, Flags};
use shader_crusher::syntax::TranslationUnit;

fn simplified(src: &str) -> String {
    let mut tu = TranslationUnit::parse(src).expect("parse");
    run(&mut tu, &Flags::default());
    let out = print(&tu);
    assert_eq!(TranslationUnit::parse(&out).expect("reparse"), tu, "{out}");
    out
}

#[test]
fn void_parameter_lists_become_empty() {
    assert_eq!(simplified("void main(void){}"), "void main(){}");
    assert_eq!(simplified("float f(void);"), "float f();");
    assert_eq!(simplified("float f(float a);"), "float f(float a);");
    assert_eq!(simplified("void main(){f(void);}"), "void main(){f();}");
}

#[test]
fn empty_compound_statements_become_semicolons() {
    assert_eq!(
        simplified("void main(){if(a){}else{}}"),
        "void main(){if(a);else;}"
    );
    assert_eq!(
        simplified("void main(){for(;;){}{}}"),
        "void main(){for(;;);;}"
    );
    assert_eq!(simplified("void main(){}"), "void main(){}");
    assert_eq!(simplified("void main(){{x;}}"), "void main(){{x;}}");
}

#[test]
fn statements_other_than_the_two_rewrites_stay() {
    assert_eq!(simplified("void main(){x=1;{}y=f(2);}"), "void main(){x=1;;y=f(2);}");
    assert_eq!(simplified("void main(){while(a){b();}}"), "void main(){while(a){b();}}");
    let mut tu = TranslationUnit::parse("void g(void){{}}").expect("parse");
    run(&mut tu, &Flags { void_params: false, empty_compound: false });
    assert_eq!(print(&tu), "void g(void){{}}");
}
