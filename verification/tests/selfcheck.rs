use shader_crusher::parser::Parse;
use shader_crusher::protect::Protection;
use shader_crusher::scope;
use shader_crusher::selfcheck::{reparse_equals, scope_isomorphic};
use shader_crusher::syntax::TranslationUnit;
use shader_crusher::CrushError;

#[test]
fn detects_differences() {
    let tu = TranslationUnit::parse("float a=1.;").unwrap();
    assert!(reparse_equals("float a=1.;", &tu).is_ok());
    assert!(matches!(
        reparse_equals("float a=2.;", &tu),
        Err(CrushError::AstMismatch(_))
    ));
    assert!(matches!(
        reparse_equals("float a=1.;float b;", &tu),
        Err(CrushError::AstMismatch(_))
    ));
    assert!(matches!(
        reparse_equals("float a=;", &tu),
        Err(CrushError::Reparse(_))
    ));
    assert!(matches!(
        reparse_equals("float a=1.;@@", &tu),
        Err(CrushError::Reparse(_))
    ));
}

#[test]
fn detects_rebinding() {
    // renaming the local to `a` would rebind the later use of the global
    let mut tu =
        TranslationUnit::parse("float a; void main() { float b = 1.; b = a; }").unwrap();
    let mut table = scope::resolve(&mut tu, &Protection::default()).unwrap();
    table.symbols[2].new_name = Some("a".to_string());
    let bad = TranslationUnit::parse("float a; void main() { float a = 1.; a = a; }").unwrap();
    assert!(matches!(
        scope_isomorphic(&bad, &table),
        Err(CrushError::ScopeMismatch(_))
    ));
    table.symbols[2].new_name = Some("c".to_string());
    let good = TranslationUnit::parse("float a; void main() { float c = 1.; c = a; }").unwrap();
    assert!(scope_isomorphic(&good, &table).is_ok());
    // a name of a different kind or scope is a mismatch too
    let other =
        TranslationUnit::parse("float a; float c; void main() { c = 1.; c = a; }").unwrap();
    assert!(matches!(
        scope_isomorphic(&other, &table),
        Err(CrushError::ScopeMismatch(_))
    ));
}
