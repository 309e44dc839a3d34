use shader_crusher::parser::Parse;
use shader_crusher::protect::Protection;
use shader_crusher::scope::{
    resolve, sentinel, sentinel_id, PinReason, ScopeKind, Symbol, SymbolKind, SymbolTable,
};
use shader_crusher::syntax::{
    Condition, Expr, ExternalDeclaration, FullySpecifiedType, Identifier, Initializer,
    IterationStatement, SimpleStatement, Statement, TranslationUnit, TypeSpecifierNonArray,
};

fn table(src: &str) -> SymbolTable {
    let mut tu = TranslationUnit::parse(src).expect("parse");
    resolve(&mut tu, &Protection::default()).expect("resolve")
}

fn sym<'a>(t: &'a SymbolTable, name: &str) -> Vec<&'a Symbol> {
    t.symbols.iter().filter(|s| s.name == name).collect()
}

#[test]
fn sentinel_roundtrip() {
    assert_eq!(sentinel_id(&sentinel(0)), Some(0));
    assert_eq!(sentinel_id(&sentinel(65533)), Some(65533));
    assert_eq!(sentinel_id("a"), None);
    assert_eq!(sentinel_id(""), None);
    assert_eq!(
        sentinel_id(&format!("{}{}", sentinel(1), sentinel(2))),
        None
    );
}

#[test]
fn locals_hide_globals_and_initializers_see_the_outer_name() {
    let t = table("float a = 1.; void main() { float a = a; }");
    let a = sym(&t, "a");
    assert_eq!(a.len(), 2);
    assert_eq!(a[0].scope, 0);
    assert_ne!(a[1].scope, 0);
    // decl global, decl main, the initializer's use -> outer, then decl local
    let uses: Vec<_> = t.occ.iter().map(|o| (o.sym, o.is_decl)).collect();
    assert_eq!(uses, vec![(0, true), (1, true), (0, false), (2, true)]);
    assert!(t.scopes[a[1].scope as usize].referenced.contains(&0));
}

#[test]
fn loop_header_and_body_share_a_scope_but_branches_do_not() {
    let t = table("void main() { for (int i = 0; i < 2; i++) { int j = i; } int i; if (true) float k; else float k; do float m; while (true); while (true) float n; switch (1) { case 1: int c; } }");
    let i = sym(&t, "i");
    assert_eq!(i.len(), 2, "loop i and the later i are distinct");
    let j = sym(&t, "j")[0];
    assert_eq!(
        j.scope, i[0].scope,
        "body declaration lives in the loop scope"
    );
    assert_eq!(t.scopes[j.scope as usize].kind, ScopeKind::Loop);
    let k = sym(&t, "k");
    assert_eq!(k.len(), 2);
    assert_ne!(k[0].scope, k[1].scope);
    assert_eq!(
        t.scopes[sym(&t, "m")[0].scope as usize].kind,
        ScopeKind::Block
    );
    assert_eq!(
        t.scopes[sym(&t, "n")[0].scope as usize].kind,
        ScopeKind::Loop
    );
    assert_eq!(
        t.scopes[sym(&t, "c")[0].scope as usize].kind,
        ScopeKind::Switch
    );
}

#[test]
fn structs_have_their_own_field_namespace() {
    let t = table("struct S { float k; vec3 x; struct T { float k; } t; }; float k; uniform S s; void main() { k = s.k + s.t.k + s.x.y + s.x.x; }");
    let k = sym(&t, "k");
    assert_eq!(k.len(), 3, "field S.k, field T.k, global k");
    assert!(matches!(k[0].kind, SymbolKind::Field(0)));
    assert!(matches!(k[1].kind, SymbolKind::Field(1)));
    assert_eq!(k[2].kind, SymbolKind::Variable);
    assert_eq!(k[0].occurrences, 2, "decl + s.k");
    assert_eq!(k[1].occurrences, 2, "decl + s.t.k");
    assert_eq!(k[2].occurrences, 2, "decl + assignment");
    let x = sym(&t, "x")[0];
    assert_eq!(x.pinned, Some(PinReason::SwizzleShaped));
    assert_eq!(
        x.occurrences, 3,
        "s.x is a field access even though `x` looks like a swizzle"
    );
    let tf = sym(&t, "t")[0];
    assert_eq!(tf.pinned, Some(PinReason::SwizzleShaped));
    assert_eq!(
        tf.occurrences, 2,
        "s.t.k resolves through the swizzle-shaped field"
    );
    let tt = sym(&t, "T")[0];
    assert_eq!(
        tt.scope, 0,
        "nested struct type is declared in the enclosing scope"
    );
    assert_eq!(sym(&t, "S")[0].kind, SymbolKind::StructType);
}

#[test]
fn unknown_bases_pin_field_names_builtin_bases_do_not() {
    let t = table("struct L { vec4 position; float diffuse; }; uniform L l; void main() { gl_FragColor = l.position * l.diffuse + gl_LightSource[0].position + gl_FrontMaterial.diffuse; }");
    assert!(
        sym(&t, "position")[0].pinned.is_none(),
        "gl_LightSource is a builtin base"
    );
    assert!(sym(&t, "diffuse")[0].pinned.is_none());
    let t = table("Unknown u; struct L { float diffuse; }; L l; void main() { float f = u.diffuse + l.diffuse; }");
    assert_eq!(
        sym(&t, "diffuse")[0].pinned,
        Some(PinReason::FieldNameOpaque)
    );
    assert!(t.pinned_names.contains("Unknown"));
}

#[test]
fn functions_merge_prototypes_definitions_and_overloads() {
    let t = table("float f(float a); float f(float a) { return a; } float f(vec2 a) { return a.x; } float dot(float a, float b) { return a * b; } void main() { f(1.); f(vec2(1.)); dot(1., 2.); length(vec2(1.)); }");
    let f = sym(&t, "f");
    assert_eq!(f.len(), 1);
    assert_eq!(f[0].occurrences, 5);
    assert_eq!(sym(&t, "a").len(), 4, "a parameter per prototype scope");
    assert_eq!(sym(&t, "dot")[0].pinned, Some(PinReason::BuiltinShadow));
    assert!(sym(&t, "length").is_empty());
}

#[test]
fn blocks_pin_names_and_members_but_not_instances() {
    let t = table("uniform B { vec4 member_a; } inst; uniform C { vec4 member_b; }; void main() { gl_Position = inst.member_a + member_b; }");
    assert!(t.pinned_names.contains("B") && t.pinned_names.contains("C"));
    assert_eq!(sym(&t, "member_a")[0].pinned, Some(PinReason::BlockMember));
    assert!(sym(&t, "member_b")
        .iter()
        .all(|s| s.pinned == Some(PinReason::BlockMember)));
    assert_eq!(sym(&t, "member_b").len(), 2, "field and global");
    let inst = sym(&t, "inst")[0];
    assert_eq!(inst.kind, SymbolKind::BlockInstance);
    assert!(inst.pinned.is_none());
    assert_eq!(sym(&t, "member_a")[0].occurrences, 2);
}

#[test]
fn protected_struct_variables_pin_their_fields_transitively() {
    let mut prot = Protection::default();
    prot.names.insert("light".to_string());
    let mut tu = TranslationUnit::parse("struct In { float k; }; struct L { In inner; float v; }; uniform L light; uniform L other; void main() { gl_FragColor = vec4(light.v + other.inner.k); }").unwrap();
    let t = resolve(&mut tu, &prot).unwrap();
    assert_eq!(sym(&t, "light")[0].pinned, Some(PinReason::Protected));
    assert_eq!(sym(&t, "v")[0].pinned, Some(PinReason::ApiStruct));
    assert_eq!(sym(&t, "inner")[0].pinned, Some(PinReason::ApiStruct));
    assert_eq!(sym(&t, "k")[0].pinned, Some(PinReason::ApiStruct));
    assert!(sym(&t, "other")[0].pinned.is_none());
}

#[test]
fn unresolved_identifiers_pin_every_symbol_of_that_name() {
    let t = table("void f() { int sum = 1; } void main() { sum = 2; }");
    assert!(t.pinned_names.contains("sum"));
    assert_eq!(sym(&t, "sum")[0].pinned, Some(PinReason::Protected));
}

#[test]
fn nameless_declarations_and_constructors_are_uses() {
    let t = table("struct S { float v; }; varying vec4 Color1; invariant Color1; invariant gl_Position; void main() { S a[2] = S[2](S(1.), S(2.)); float f[2] = float[2](1., 2.); Color1 = vec4(a[0].v, f.length()); a; }");
    assert_eq!(sym(&t, "Color1")[0].occurrences, 3);
    assert_eq!(
        sym(&t, "S")[0].occurrences,
        5,
        "decl, S a, S[2], S(1.), S(2.)"
    );
    assert_eq!(sym(&t, "v")[0].occurrences, 2);
    assert_eq!(sym(&t, "a")[0].occurrences, 3);
    assert!(sym(&t, "length").is_empty());
    assert!(sym(&t, "gl_Position").is_empty());
}

#[test]
fn duplicate_declarations_in_one_scope_are_one_symbol() {
    let t = table("#ifdef X\nuniform float u;\nstruct S { float a; };\n#else\nuniform float u;\nstruct S { float a; };\n#endif\nvoid main() { S s; gl_FragColor = vec4(u + s.a); }");
    assert_eq!(sym(&t, "u").len(), 1);
    assert_eq!(sym(&t, "u")[0].occurrences, 3);
    assert_eq!(sym(&t, "S").len(), 1);
    assert_eq!(
        sym(&t, "a").len(),
        1,
        "fields of the duplicate definition merge"
    );
    assert_eq!(t.structs.len(), 2);
}

#[test]
fn condition_assignment_declares_in_the_loop_scope() {
    let mut tu = TranslationUnit::parse("void main() { while (true) { b; } }").unwrap();
    if let ExternalDeclaration::FunctionDefinition(fd) = &mut tu.0 .0[0] {
        if let Statement::Simple(s) = &mut fd.statement.statement_list[0] {
            if let SimpleStatement::Iteration(IterationStatement::While(c, _)) = &mut **s {
                *c = Condition::Assignment(
                    FullySpecifiedType::new(TypeSpecifierNonArray::Bool),
                    Identifier("b".to_string()),
                    Initializer::Simple(Box::new(Expr::BoolConst(true))),
                );
            }
        }
    }
    let t = resolve(&mut tu, &Protection::default()).unwrap();
    let b = sym(&t, "b")[0];
    assert_eq!(b.kind, SymbolKind::Variable);
    assert_eq!(t.scopes[b.scope as usize].kind, ScopeKind::Loop);
    assert_eq!(b.occurrences, 2);
}
