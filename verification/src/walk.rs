//! A walk over every identifier and type name of a shader, in place.
use vstd::prelude::*;
use crate::builtins::{Lexicon, spec_is_builtin_member};
use crate::names::NameSet;
use crate::scope::{SymbolTable, sentinel_id, spec_sentinel_id, printed_name};
use crate::syntax::{Identifier, TypeName, SingleDeclaration, SingleDeclarationNoType, TypeSpecifierNonArray, TypeSpecifier, StructSpecifier,
    StructFieldSpecifier, ArrayedIdentifier, TypeQualifier, TypeQualifierSpec, StorageQualifier,
    LayoutQualifierSpec, FullySpecifiedType, ArraySpecifier, ArraySpecifierDimension, Declaration,
    FunIdentifier, FunctionPrototype, FunctionParameterDeclaration, Initializer, Expr,
    TranslationUnit, ExternalDeclaration, Statement, SimpleStatement, Condition,
    SelectionRestStatement, CaseLabel, IterationStatement, ForInitStatement, JumpStatement,
    Preprocessor, PreprocessorDefine};
use crate::text::{chars_of, string_of};

verus! {

/// The symbol table and the pinned-only switch of a renaming walk.
pub open spec fn op_renames(op: NameOp) -> Option<(SymbolTable, bool)> {
    match op {
        NameOp::Rename(t, only) => Some((*t, only)),
        _ => None,
    }
}

/// What a renaming walk makes of the name `s`: a placeholder of a symbol of
/// the table (of a pinned one, for `only`) becomes the name the symbol is
/// printed with; every other name stays.
pub open spec fn name_map(r: Option<(SymbolTable, bool)>, s: Seq<char>) -> Seq<char> {
    match r {
        Some((t, only)) => match spec_sentinel_id(s) {
            Some(id) => if id < t.symbols@.len() && (!only || t.symbols@[id as int].pinned is Some) {
                printed_name(t, id as int)
            } else {
                s
            },
            None => s,
        },
        None => s,
    }
}

/// How the names of two trees correspond.
pub enum NameRel {
    /// The second name is the first one mapped by `name_map`.
    Rename(Option<(SymbolTable, bool)>),
    /// The second name is the first one, or the placeholder of a symbol of
    /// the table with that name.
    Bind(SymbolTable),
}

/// The name `b` corresponds to `a` as `r` says.
pub open spec fn walked_name(a: Seq<char>, b: Seq<char>, r: NameRel) -> bool {
    match r {
        NameRel::Rename(m) => b == name_map(m, a),
        NameRel::Bind(t) => b == a || (spec_sentinel_id(b) matches Some(id) && id < t.symbols@.len()
            && t.symbols@[id as int].name@ == a),
    }
}

/// The name `b` at a place that declares `a` corresponds to it as `r` says;
/// a binding walk always turns a declared name into the placeholder of a
/// symbol with that name.
pub open spec fn walked_decl_name(a: Seq<char>, b: Seq<char>, r: NameRel) -> bool {
    match r {
        NameRel::Rename(m) => walked_name(a, b, r),
        NameRel::Bind(t) => spec_sentinel_id(b) matches Some(id) && id < t.symbols@.len() && t.symbols@[id as int].name@ == a,
    }
}

pub open spec fn walked_opt_array(a: Option<ArraySpecifier>, b: Option<ArraySpecifier>, r: NameRel) -> bool {
    match (a, b) {
        (Some(x), Some(y)) => walked_array(x, y, r),
        (None, None) => true,
        _ => false,
    }
}

pub open spec fn walked_arrayed(a: ArrayedIdentifier, b: ArrayedIdentifier, r: NameRel) -> bool {
    walked_decl_name(a.ident.0@, b.ident.0@, r) && walked_opt_array(a.array_spec, b.array_spec, r)
}

pub open spec fn walked_array(a: ArraySpecifier, b: ArraySpecifier, r: NameRel) -> bool
    decreases a, 1nat,
{
    a.dimensions.0@.len() == b.dimensions.0@.len() && forall|k: int|
        0 <= k < a.dimensions.0@.len() ==> walked_dim(#[trigger] a.dimensions.0@[k], b.dimensions.0@[k], r)
}

pub open spec fn walked_dim(a: ArraySpecifierDimension, b: ArraySpecifierDimension, r: NameRel) -> bool
    decreases a, 0nat,
{
    match (a, b) {
        (ArraySpecifierDimension::ExplicitlySized(x), ArraySpecifierDimension::ExplicitlySized(y)) => walked_expr(*x, *y, r),
        (ArraySpecifierDimension::Unsized, ArraySpecifierDimension::Unsized) => true,
        _ => false,
    }
}

pub open spec fn walked_funid(a: FunIdentifier, b: FunIdentifier, r: NameRel) -> bool
    decreases a, 0nat,
{
    match (a, b) {
        (FunIdentifier::Identifier(x), FunIdentifier::Identifier(y)) => walked_name(x.0@, y.0@, r),
        (FunIdentifier::Expr(x), FunIdentifier::Expr(y)) => walked_expr(*x, *y, r),
        _ => false,
    }
}

/// `b` is the expression `a` with every name mapped as `r` says.
pub open spec fn walked_expr(a: Expr, b: Expr, r: NameRel) -> bool
    decreases a, 2nat,
{
    match (a, b) {
        (Expr::Variable(x), Expr::Variable(y)) => walked_name(x.0@, y.0@, r),
        (Expr::Unary(o1, x), Expr::Unary(o2, y)) => o1 == o2 && walked_expr(*x, *y, r),
        (Expr::PostInc(x), Expr::PostInc(y)) => walked_expr(*x, *y, r),
        (Expr::PostDec(x), Expr::PostDec(y)) => walked_expr(*x, *y, r),
        (Expr::Binary(o1, l1, r1), Expr::Binary(o2, l2, r2)) => o1 == o2 && walked_expr(*l1, *l2, r) && walked_expr(
            *r1,
            *r2,
            r,
        ),
        (Expr::Assignment(l1, o1, r1), Expr::Assignment(l2, o2, r2)) => o1 == o2 && walked_expr(*l1, *l2, r)
            && walked_expr(*r1, *r2, r),
        (Expr::Comma(l1, r1), Expr::Comma(l2, r2)) => walked_expr(*l1, *l2, r) && walked_expr(*r1, *r2, r),
        (Expr::Ternary(a1, b1, c1), Expr::Ternary(a2, b2, c2)) => walked_expr(*a1, *a2, r) && walked_expr(*b1, *b2, r)
            && walked_expr(*c1, *c2, r),
        (Expr::Bracket(x1, s1), Expr::Bracket(x2, s2)) => walked_expr(*x1, *x2, r) && walked_array(s1, s2, r),
        (Expr::FunCall(f1, a1), Expr::FunCall(f2, a2)) => walked_funid(f1, f2, r) && a1@.len() == a2@.len() && forall|
            k: int,
        | 0 <= k < a1@.len() ==> walked_expr(#[trigger] a1@[k], a2@[k], r),
        (Expr::Dot(x1, f1), Expr::Dot(x2, f2)) => walked_expr(*x1, *x2, r) && walked_name(f1.0@, f2.0@, r),
        _ => a == b,
    }
}

/// `b` is the initializer `a` with every name mapped as `r` says.
pub open spec fn walked_init(a: Initializer, b: Initializer, r: NameRel) -> bool
    decreases a,
{
    match (a, b) {
        (Initializer::Simple(x), Initializer::Simple(y)) => walked_expr(*x, *y, r),
        (Initializer::List(l1), Initializer::List(l2)) => l1.0@.len() == l2.0@.len() && forall|k: int|
            0 <= k < l1.0@.len() ==> walked_init(#[trigger] l1.0@[k], l2.0@[k], r),
        _ => false,
    }
}


pub open spec fn walked_opt_name(a: Option<TypeName>, b: Option<TypeName>, r: NameRel) -> bool {
    match (a, b) {
        (Some(x), Some(y)) => walked_decl_name(x.0@, y.0@, r),
        (None, None) => true,
        _ => false,
    }
}

pub open spec fn walked_layout(a: LayoutQualifierSpec, b: LayoutQualifierSpec, r: NameRel) -> bool {
    match (a, b) {
        (LayoutQualifierSpec::Identifier(i1, e1), LayoutQualifierSpec::Identifier(i2, e2)) => walked_name(i1.0@, i2.0@, r)
            && match (e1, e2) {
            (Some(x), Some(y)) => walked_expr(*x, *y, r),
            (None, None) => true,
            _ => false,
        },
        (LayoutQualifierSpec::Shared, LayoutQualifierSpec::Shared) => true,
        _ => false,
    }
}

pub open spec fn walked_qspec(a: TypeQualifierSpec, b: TypeQualifierSpec, r: NameRel) -> bool {
    match (a, b) {
        (
            TypeQualifierSpec::Storage(StorageQualifier::Subroutine(n1)),
            TypeQualifierSpec::Storage(StorageQualifier::Subroutine(n2)),
        ) => n1@.len() == n2@.len() && forall|k: int|
            0 <= k < n1@.len() ==> walked_name(#[trigger] n1@[k].0@, n2@[k].0@, r),
        (TypeQualifierSpec::Layout(l1), TypeQualifierSpec::Layout(l2)) => l1.ids.0@.len() == l2.ids.0@.len() && forall|
            k: int,
        | 0 <= k < l1.ids.0@.len() ==> walked_layout(#[trigger] l1.ids.0@[k], l2.ids.0@[k], r),
        _ => a == b,
    }
}

pub open spec fn walked_qualifier(a: TypeQualifier, b: TypeQualifier, r: NameRel) -> bool {
    a.qualifiers.0@.len() == b.qualifiers.0@.len() && forall|k: int|
        0 <= k < a.qualifiers.0@.len() ==> walked_qspec(#[trigger] a.qualifiers.0@[k], b.qualifiers.0@[k], r)
}

pub open spec fn walked_opt_qualifier(a: Option<TypeQualifier>, b: Option<TypeQualifier>, r: NameRel) -> bool {
    match (a, b) {
        (Some(x), Some(y)) => walked_qualifier(x, y, r),
        (None, None) => true,
        _ => false,
    }
}

pub open spec fn walked_type(a: TypeSpecifier, b: TypeSpecifier, r: NameRel) -> bool
    decreases a, 3nat,
{
    walked_tsna(a.ty, b.ty, r) && walked_opt_array(a.array_specifier, b.array_specifier, r)
}

pub open spec fn walked_tsna(a: TypeSpecifierNonArray, b: TypeSpecifierNonArray, r: NameRel) -> bool
    decreases a, 2nat,
{
    match (a, b) {
        (TypeSpecifierNonArray::Struct(s1), TypeSpecifierNonArray::Struct(s2)) => walked_struct(s1, s2, r),
        (TypeSpecifierNonArray::TypeName(t1), TypeSpecifierNonArray::TypeName(t2)) => walked_name(t1.0@, t2.0@, r),
        _ => a == b,
    }
}

pub open spec fn walked_struct(a: StructSpecifier, b: StructSpecifier, r: NameRel) -> bool
    decreases a, 1nat,
{
    walked_opt_name(a.name, b.name, r) && a.fields.0@.len() == b.fields.0@.len() && forall|k: int|
        0 <= k < a.fields.0@.len() ==> walked_field(#[trigger] a.fields.0@[k], b.fields.0@[k], r)
}

pub open spec fn walked_field(a: StructFieldSpecifier, b: StructFieldSpecifier, r: NameRel) -> bool
    decreases a, 4nat,
{
    walked_opt_qualifier(a.qualifier, b.qualifier, r) && walked_type(a.ty, b.ty, r) && a.identifiers.0@.len()
        == b.identifiers.0@.len() && forall|k: int|
        0 <= k < a.identifiers.0@.len() ==> walked_arrayed(#[trigger] a.identifiers.0@[k], b.identifiers.0@[k], r)
}

pub open spec fn walked_full_type(a: FullySpecifiedType, b: FullySpecifiedType, r: NameRel) -> bool {
    walked_opt_qualifier(a.qualifier, b.qualifier, r) && walked_type(a.ty, b.ty, r)
}


pub open spec fn walked_param(a: FunctionParameterDeclaration, b: FunctionParameterDeclaration, r: NameRel) -> bool {
    match (a, b) {
        (FunctionParameterDeclaration::Named(q1, d1), FunctionParameterDeclaration::Named(q2, d2)) => walked_opt_qualifier(
            q1,
            q2,
            r,
        ) && walked_type(d1.ty, d2.ty, r) && walked_arrayed(d1.ident, d2.ident, r),
        (FunctionParameterDeclaration::Unnamed(q1, t1), FunctionParameterDeclaration::Unnamed(q2, t2)) => walked_opt_qualifier(
            q1,
            q2,
            r,
        ) && walked_type(t1, t2, r),
        _ => false,
    }
}

pub open spec fn walked_prototype(a: FunctionPrototype, b: FunctionPrototype, r: NameRel) -> bool {
    walked_full_type(a.ty, b.ty, r) && walked_decl_name(a.name.0@, b.name.0@, r) && a.parameters@.len() == b.parameters@.len()
        && forall|k: int| 0 <= k < a.parameters@.len() ==> walked_param(#[trigger] a.parameters@[k], b.parameters@[k], r)
}

pub open spec fn walked_opt_ident(a: Option<Identifier>, b: Option<Identifier>, r: NameRel) -> bool {
    match (a, b) {
        (Some(x), Some(y)) => walked_decl_name(x.0@, y.0@, r),
        (None, None) => true,
        _ => false,
    }
}

pub open spec fn walked_opt_init(a: Option<Initializer>, b: Option<Initializer>, r: NameRel) -> bool {
    match (a, b) {
        (Some(x), Some(y)) => walked_init(x, y, r),
        (None, None) => true,
        _ => false,
    }
}

pub open spec fn walked_opt_arrayed(a: Option<ArrayedIdentifier>, b: Option<ArrayedIdentifier>, r: NameRel) -> bool {
    match (a, b) {
        (Some(x), Some(y)) => walked_arrayed(x, y, r),
        (None, None) => true,
        _ => false,
    }
}

pub open spec fn walked_single(a: SingleDeclaration, b: SingleDeclaration, r: NameRel) -> bool {
    walked_full_type(a.ty, b.ty, r) && walked_opt_ident(a.name, b.name, r) && walked_opt_array(
        a.array_specifier,
        b.array_specifier,
        r,
    ) && walked_opt_init(a.initializer, b.initializer, r)
}

pub open spec fn walked_tail_item(a: SingleDeclarationNoType, b: SingleDeclarationNoType, r: NameRel) -> bool {
    walked_arrayed(a.ident, b.ident, r) && walked_opt_init(a.initializer, b.initializer, r)
}

/// `b` is the declaration `a` with every name mapped as `r` says.
pub open spec fn walked_declaration(a: Declaration, b: Declaration, r: NameRel) -> bool {
    match (a, b) {
        (Declaration::FunctionPrototype(p1), Declaration::FunctionPrototype(p2)) => walked_prototype(p1, p2, r),
        (Declaration::InitDeclaratorList(l1), Declaration::InitDeclaratorList(l2)) => walked_single(l1.head, l2.head, r)
            && l1.tail@.len() == l2.tail@.len() && forall|k: int|
            0 <= k < l1.tail@.len() ==> walked_tail_item(#[trigger] l1.tail@[k], l2.tail@[k], r),
        (Declaration::Precision(q1, t1), Declaration::Precision(q2, t2)) => q1 == q2 && walked_type(t1, t2, r),
        (Declaration::Block(b1), Declaration::Block(b2)) => walked_qualifier(b1.qualifier, b2.qualifier, r) && walked_name(
            b1.name.0@,
            b2.name.0@,
            r,
        ) && b1.fields@.len() == b2.fields@.len() && (forall|k: int|
            0 <= k < b1.fields@.len() ==> walked_field(#[trigger] b1.fields@[k], b2.fields@[k], r)) && walked_opt_arrayed(
            b1.identifier,
            b2.identifier,
            r,
        ),
        (Declaration::Global(q1, i1), Declaration::Global(q2, i2)) => walked_qualifier(q1, q2, r) && i1@.len() == i2@.len()
            && forall|k: int| 0 <= k < i1@.len() ==> walked_name(#[trigger] i1@[k].0@, i2@[k].0@, r),
        _ => false,
    }
}

pub open spec fn walked_condition(a: Condition, b: Condition, r: NameRel) -> bool {
    match (a, b) {
        (Condition::Expr(x), Condition::Expr(y)) => walked_expr(*x, *y, r),
        (Condition::Assignment(t1, i1, n1), Condition::Assignment(t2, i2, n2)) => walked_full_type(t1, t2, r) && walked_decl_name(
            i1.0@,
            i2.0@,
            r,
        ) && walked_init(n1, n2, r),
        _ => false,
    }
}


pub open spec fn walked_opt_expr(a: Option<Expr>, b: Option<Expr>, r: NameRel) -> bool {
    match (a, b) {
        (Some(x), Some(y)) => walked_expr(x, y, r),
        (None, None) => true,
        _ => false,
    }
}

pub open spec fn walked_opt_boxed(a: Option<Box<Expr>>, b: Option<Box<Expr>>, r: NameRel) -> bool {
    match (a, b) {
        (Some(x), Some(y)) => walked_expr(*x, *y, r),
        (None, None) => true,
        _ => false,
    }
}

pub open spec fn walked_opt_condition(a: Option<Condition>, b: Option<Condition>, r: NameRel) -> bool {
    match (a, b) {
        (Some(x), Some(y)) => walked_condition(x, y, r),
        (None, None) => true,
        _ => false,
    }
}

pub open spec fn walked_for_init(a: ForInitStatement, b: ForInitStatement, r: NameRel) -> bool {
    match (a, b) {
        (ForInitStatement::Expression(x), ForInitStatement::Expression(y)) => walked_opt_expr(x, y, r),
        (ForInitStatement::Declaration(x), ForInitStatement::Declaration(y)) => walked_declaration(*x, *y, r),
        _ => false,
    }
}

/// `b` is the statement `a` with every name mapped as `r` says.
pub open spec fn walked_statement(a: Statement, b: Statement, r: NameRel) -> bool
    decreases a, 1nat,
{
    match (a, b) {
        (Statement::Compound(c1), Statement::Compound(c2)) => c1.statement_list@.len() == c2.statement_list@.len()
            && forall|k: int|
            0 <= k < c1.statement_list@.len() ==> walked_statement(
                #[trigger] c1.statement_list@[k],
                c2.statement_list@[k],
                r,
            ),
        (Statement::Simple(x), Statement::Simple(y)) => walked_simple(*x, *y, r),
        _ => false,
    }
}

pub open spec fn walked_simple(a: SimpleStatement, b: SimpleStatement, r: NameRel) -> bool
    decreases a, 0nat,
{
    match (a, b) {
        (SimpleStatement::Declaration(d1), SimpleStatement::Declaration(d2)) => walked_declaration(d1, d2, r),
        (SimpleStatement::Expression(e1), SimpleStatement::Expression(e2)) => walked_opt_expr(e1, e2, r),
        (SimpleStatement::Selection(s1), SimpleStatement::Selection(s2)) => walked_expr(*s1.cond, *s2.cond, r) && match (
            s1.rest,
            s2.rest,
        ) {
            (SelectionRestStatement::Statement(x), SelectionRestStatement::Statement(y)) => walked_statement(*x, *y, r),
            (SelectionRestStatement::Else(a1, b1), SelectionRestStatement::Else(a2, b2)) => walked_statement(*a1, *a2, r)
                && walked_statement(*b1, *b2, r),
            _ => false,
        },
        (SimpleStatement::Switch(w1), SimpleStatement::Switch(w2)) => walked_expr(*w1.head, *w2.head, r) && w1.body@.len()
            == w2.body@.len() && forall|k: int|
            0 <= k < w1.body@.len() ==> walked_statement(#[trigger] w1.body@[k], w2.body@[k], r),
        (SimpleStatement::CaseLabel(CaseLabel::Case(e1)), SimpleStatement::CaseLabel(CaseLabel::Case(e2))) => walked_expr(
            *e1,
            *e2,
            r,
        ),
        (
            SimpleStatement::Iteration(IterationStatement::While(c1, b1)),
            SimpleStatement::Iteration(IterationStatement::While(c2, b2)),
        ) => walked_condition(c1, c2, r) && walked_statement(*b1, *b2, r),
        (
            SimpleStatement::Iteration(IterationStatement::DoWhile(b1, e1)),
            SimpleStatement::Iteration(IterationStatement::DoWhile(b2, e2)),
        ) => walked_statement(*b1, *b2, r) && walked_expr(*e1, *e2, r),
        (
            SimpleStatement::Iteration(IterationStatement::For(i1, r1, b1)),
            SimpleStatement::Iteration(IterationStatement::For(i2, r2, b2)),
        ) => walked_for_init(i1, i2, r) && walked_opt_condition(r1.condition, r2.condition, r) && walked_opt_boxed(
            r1.post_expr,
            r2.post_expr,
            r,
        ) && walked_statement(*b1, *b2, r),
        (
            SimpleStatement::Jump(JumpStatement::Return(Some(e1))),
            SimpleStatement::Jump(JumpStatement::Return(Some(e2))),
        ) => walked_expr(*e1, *e2, r),
        _ => a == b,
    }
}

/// `b` is the directive `a` with its names mapped as `r` says.
pub open spec fn walked_pp(a: Preprocessor, b: Preprocessor, r: NameRel) -> bool {
    match (a, b) {
        (
            Preprocessor::Define(PreprocessorDefine::ObjectLike { ident: i1, value: v1 }),
            Preprocessor::Define(PreprocessorDefine::ObjectLike { ident: i2, value: v2 }),
        ) => walked_name(i1.0@, i2.0@, r) && v1 == v2,
        (
            Preprocessor::Define(PreprocessorDefine::FunctionLike { ident: i1, args: a1, value: v1 }),
            Preprocessor::Define(PreprocessorDefine::FunctionLike { ident: i2, args: a2, value: v2 }),
        ) => walked_name(i1.0@, i2.0@, r) && a1@.len() == a2@.len() && (forall|k: int|
            0 <= k < a1@.len() ==> walked_name(#[trigger] a1@[k].0@, a2@[k].0@, r)) && v1 == v2,
        (Preprocessor::IfDef(d1), Preprocessor::IfDef(d2)) => walked_name(d1.ident.0@, d2.ident.0@, r),
        (Preprocessor::IfNDef(d1), Preprocessor::IfNDef(d2)) => walked_name(d1.ident.0@, d2.ident.0@, r),
        (Preprocessor::Undef(u1), Preprocessor::Undef(u2)) => walked_name(u1.name.0@, u2.name.0@, r),
        _ => a == b,
    }
}

/// `b` is the external declaration `a` with every name mapped as `r` says.
pub open spec fn walked_external(a: ExternalDeclaration, b: ExternalDeclaration, r: NameRel) -> bool {
    match (a, b) {
        (ExternalDeclaration::Preprocessor(p1), ExternalDeclaration::Preprocessor(p2)) => walked_pp(p1, p2, r),
        (ExternalDeclaration::FunctionDefinition(f1), ExternalDeclaration::FunctionDefinition(f2)) => walked_prototype(
            f1.prototype,
            f2.prototype,
            r,
        ) && f1.statement.statement_list@.len() == f2.statement.statement_list@.len() && forall|k: int|
            0 <= k < f1.statement.statement_list@.len() ==> walked_statement(
                #[trigger] f1.statement.statement_list@[k],
                f2.statement.statement_list@[k],
                r,
            ),
        (ExternalDeclaration::Declaration(d1), ExternalDeclaration::Declaration(d2)) => walked_declaration(d1, d2, r),
        _ => false,
    }
}

/// `b` is the shader `a` with every identifier and type name mapped as `r`
/// says, and nothing else changed.
pub open spec fn walked_unit(a: TranslationUnit, b: TranslationUnit, r: NameRel) -> bool {
    a.0.0@.len() == b.0.0@.len() && forall|k: int|
        0 <= k < a.0.0@.len() ==> walked_external(#[trigger] a.0.0@[k], b.0.0@[k], r)
}


// -------------------------------------------------------- gathered names

/// Whether a gathering walk keeps `w` of the identifier or type name `x`:
/// it keeps all of them, or (`members`) none.
pub open spec fn name_leaf(x: Seq<char>, members: bool, w: Seq<char>) -> bool {
    !members && w == x
}

/// Whether a gathering walk keeps `w` of the selector `x` after `.`: it
/// keeps all of them, or (`members`) those that name a member of a builtin
/// structure.
pub open spec fn field_leaf(x: Seq<char>, members: bool, w: Seq<char>) -> bool {
    (!members || spec_is_builtin_member(x)) && w == x
}

pub open spec fn in_names_opt_array(a: Option<ArraySpecifier>, m: bool, w: Seq<char>) -> bool {
    match a {
        Some(x) => in_names_array(x, m, w),
        None => false,
    }
}

pub open spec fn in_names_arrayed(a: ArrayedIdentifier, m: bool, w: Seq<char>) -> bool {
    name_leaf(a.ident.0@, m, w) || (in_names_opt_array(a.array_spec, m, w))
}

pub open spec fn in_names_array(a: ArraySpecifier, m: bool, w: Seq<char>) -> bool
    decreases a, 1nat,
{
    (exists|k: int| 0 <= k < a.dimensions.0@.len() && in_names_dim(#[trigger] a.dimensions.0@[k], m, w))
}

pub open spec fn in_names_dim(a: ArraySpecifierDimension, m: bool, w: Seq<char>) -> bool
    decreases a, 0nat,
{
    match a {
        ArraySpecifierDimension::ExplicitlySized(x) => in_names_expr(*x, m, w),
        ArraySpecifierDimension::Unsized => false,
    }
}

pub open spec fn in_names_funid(a: FunIdentifier, m: bool, w: Seq<char>) -> bool
    decreases a, 0nat,
{
    match a {
        FunIdentifier::Identifier(x) => name_leaf(x.0@, m, w),
        FunIdentifier::Expr(x) => in_names_expr(*x, m, w),
    }
}

/// The names a gathering walk keeps of the expression `a`.
pub open spec fn in_names_expr(a: Expr, m: bool, w: Seq<char>) -> bool
    decreases a, 2nat,
{
    match a {
        Expr::Variable(x) => name_leaf(x.0@, m, w),
        Expr::Unary(_, x) => in_names_expr(*x, m, w),
        Expr::PostInc(x) => in_names_expr(*x, m, w),
        Expr::PostDec(x) => in_names_expr(*x, m, w),
        Expr::Binary(_, l, r) => in_names_expr(*l, m, w) || (in_names_expr(*r, m, w)),
        Expr::Assignment(l, _, r) => in_names_expr(*l, m, w) || (in_names_expr(*r, m, w)),
        Expr::Comma(l, r) => in_names_expr(*l, m, w) || (in_names_expr(*r, m, w)),
        Expr::Ternary(x, y, z) => in_names_expr(*x, m, w) || (in_names_expr(*y, m, w)) || (in_names_expr(*z, m, w)),
        Expr::Bracket(x, s) => in_names_expr(*x, m, w) || (in_names_array(s, m, w)),
        Expr::FunCall(f, args) => in_names_funid(f, m, w) || (
            (exists|k: int| 0 <= k < args@.len() && in_names_expr(#[trigger] args@[k], m, w))
        ),
        Expr::Dot(x, f) => in_names_expr(*x, m, w) || (field_leaf(f.0@, m, w)),
        _ => false,
    }
}

pub open spec fn in_names_init(a: Initializer, m: bool, w: Seq<char>) -> bool
    decreases a,
{
    match a {
        Initializer::Simple(x) => in_names_expr(*x, m, w),
        Initializer::List(l) => (exists|k: int| 0 <= k < l.0@.len() && in_names_init(#[trigger] l.0@[k], m, w)),
    }
}


pub open spec fn in_names_opt_name(a: Option<TypeName>, m: bool, w: Seq<char>) -> bool {
    match a {
        Some(x) => name_leaf(x.0@, m, w),
        None => false,
    }
}

pub open spec fn in_names_layout(a: LayoutQualifierSpec, m: bool, w: Seq<char>) -> bool {
    match a {
        LayoutQualifierSpec::Identifier(i, e) => name_leaf(i.0@, m, w) || (
            match e {
                Some(x) => in_names_expr(*x, m, w),
                None => false,
            }
        ),
        LayoutQualifierSpec::Shared => false,
    }
}

pub open spec fn in_names_qspec(a: TypeQualifierSpec, m: bool, w: Seq<char>) -> bool {
    match a {
        TypeQualifierSpec::Storage(StorageQualifier::Subroutine(n)) => (exists|k: int| 0 <= k < n@.len() && name_leaf(#[trigger] n@[k].0@, m, w)
        ),
        TypeQualifierSpec::Layout(l) => (exists|k: int| 0 <= k < l.ids.0@.len() && in_names_layout(#[trigger] l.ids.0@[k], m, w)
        ),
        _ => false,
    }
}

pub open spec fn in_names_qualifier(a: TypeQualifier, m: bool, w: Seq<char>) -> bool {
    (exists|k: int| 0 <= k < a.qualifiers.0@.len() && in_names_qspec(#[trigger] a.qualifiers.0@[k], m, w)
    )
}

pub open spec fn in_names_opt_qualifier(a: Option<TypeQualifier>, m: bool, w: Seq<char>) -> bool {
    match a {
        Some(x) => in_names_qualifier(x, m, w),
        None => false,
    }
}

pub open spec fn in_names_type(a: TypeSpecifier, m: bool, w: Seq<char>) -> bool
    decreases a, 3nat,
{
    in_names_tsna(a.ty, m, w) || (in_names_opt_array(a.array_specifier, m, w))
}

pub open spec fn in_names_tsna(a: TypeSpecifierNonArray, m: bool, w: Seq<char>) -> bool
    decreases a, 2nat,
{
    match a {
        TypeSpecifierNonArray::Struct(x) => in_names_struct(x, m, w),
        TypeSpecifierNonArray::TypeName(t) => name_leaf(t.0@, m, w),
        _ => false,
    }
}

pub open spec fn in_names_struct(a: StructSpecifier, m: bool, w: Seq<char>) -> bool
    decreases a, 1nat,
{
    in_names_opt_name(a.name, m, w) || (
        (exists|k: int| 0 <= k < a.fields.0@.len() && in_names_field(#[trigger] a.fields.0@[k], m, w))
    )
}

pub open spec fn in_names_field(a: StructFieldSpecifier, m: bool, w: Seq<char>) -> bool
    decreases a, 4nat,
{
    in_names_opt_qualifier(a.qualifier, m, w) || (in_names_type(a.ty, m, w)) || (
        (exists|k: int| 0 <= k < a.identifiers.0@.len() && in_names_arrayed(#[trigger] a.identifiers.0@[k], m, w)
        )
    )
}

pub open spec fn in_names_full_type(a: FullySpecifiedType, m: bool, w: Seq<char>) -> bool {
    in_names_opt_qualifier(a.qualifier, m, w) || (in_names_type(a.ty, m, w))
}

pub open spec fn in_names_param(a: FunctionParameterDeclaration, m: bool, w: Seq<char>) -> bool {
    match a {
        FunctionParameterDeclaration::Named(q, d) => in_names_opt_qualifier(q, m, w) || (in_names_type(d.ty, m, w)) || (
            in_names_arrayed(d.ident, m, w)
        ),
        FunctionParameterDeclaration::Unnamed(q, t) => in_names_opt_qualifier(q, m, w) || (in_names_type(t, m, w)),
    }
}

pub open spec fn in_names_prototype(a: FunctionPrototype, m: bool, w: Seq<char>) -> bool {
    in_names_full_type(a.ty, m, w) || (name_leaf(a.name.0@, m, w)) || (
        (exists|k: int| 0 <= k < a.parameters@.len() && in_names_param(#[trigger] a.parameters@[k], m, w))
    )
}

pub open spec fn in_names_opt_init(a: Option<Initializer>, m: bool, w: Seq<char>) -> bool {
    match a {
        Some(x) => in_names_init(x, m, w),
        None => false,
    }
}

pub open spec fn in_names_single(a: SingleDeclaration, m: bool, w: Seq<char>) -> bool {
    in_names_full_type(a.ty, m, w) || (
        match a.name {
            Some(n) => name_leaf(n.0@, m, w),
            None => false,
        }
    ) || (in_names_opt_array(a.array_specifier, m, w)) || (in_names_opt_init(a.initializer, m, w))
}

pub open spec fn in_names_tail_item(a: SingleDeclarationNoType, m: bool, w: Seq<char>) -> bool {
    in_names_arrayed(a.ident, m, w) || (in_names_opt_init(a.initializer, m, w))
}

/// The names a gathering walk keeps of the declaration `a`.
pub open spec fn in_names_declaration(a: Declaration, m: bool, w: Seq<char>) -> bool {
    match a {
        Declaration::FunctionPrototype(p) => in_names_prototype(p, m, w),
        Declaration::InitDeclaratorList(l) => in_names_single(l.head, m, w) || (
            (exists|k: int| 0 <= k < l.tail@.len() && in_names_tail_item(#[trigger] l.tail@[k], m, w))
        ),
        Declaration::Precision(_, t) => in_names_type(t, m, w),
        Declaration::Block(b) => in_names_qualifier(b.qualifier, m, w) || (name_leaf(b.name.0@, m, w)) || (
            (exists|k: int| 0 <= k < b.fields@.len() && in_names_field(#[trigger] b.fields@[k], m, w))
        ) || (
            match b.identifier {
                Some(a) => in_names_arrayed(a, m, w),
                None => false,
            }
        ),
        Declaration::Global(q, ids) => in_names_qualifier(q, m, w) || (
            (exists|k: int| 0 <= k < ids@.len() && name_leaf(#[trigger] ids@[k].0@, m, w))
        ),
    }
}

pub open spec fn in_names_condition(a: Condition, m: bool, w: Seq<char>) -> bool {
    match a {
        Condition::Expr(x) => in_names_expr(*x, m, w),
        Condition::Assignment(t, i, n) => in_names_full_type(t, m, w) || (name_leaf(i.0@, m, w)) || (in_names_init(n, m, w)),
    }
}

pub open spec fn in_names_opt_expr(a: Option<Expr>, m: bool, w: Seq<char>) -> bool {
    match a {
        Some(x) => in_names_expr(x, m, w),
        None => false,
    }
}

/// The names a gathering walk keeps of the statement `a`.
pub open spec fn in_names_statement(a: Statement, m: bool, w: Seq<char>) -> bool
    decreases a, 1nat,
{
    match a {
        Statement::Compound(c) => (exists|k: int| 0 <= k < c.statement_list@.len() && in_names_statement(#[trigger] c.statement_list@[k], m, w)
        ),
        Statement::Simple(x) => in_names_simple(*x, m, w),
    }
}

pub open spec fn in_names_simple(a: SimpleStatement, m: bool, w: Seq<char>) -> bool
    decreases a, 0nat,
{
    match a {
        SimpleStatement::Declaration(d) => in_names_declaration(d, m, w),
        SimpleStatement::Expression(e) => in_names_opt_expr(e, m, w),
        SimpleStatement::Selection(sel) => in_names_expr(*sel.cond, m, w) || (
            match sel.rest {
                SelectionRestStatement::Statement(x) => in_names_statement(*x, m, w),
                SelectionRestStatement::Else(x, y) => in_names_statement(*x, m, w) || (in_names_statement(*y, m, w)),
            }
        ),
        SimpleStatement::Switch(sw) => in_names_expr(*sw.head, m, w) || (
            (exists|k: int| 0 <= k < sw.body@.len() && in_names_statement(#[trigger] sw.body@[k], m, w))
        ),
        SimpleStatement::CaseLabel(CaseLabel::Case(e)) => in_names_expr(*e, m, w),
        SimpleStatement::Iteration(IterationStatement::While(c, body)) => in_names_condition(c, m, w) || (in_names_statement(*body, m, w)),
        SimpleStatement::Iteration(IterationStatement::DoWhile(body, e)) => in_names_statement(*body, m, w) || (in_names_expr(*e, m, w)),
        SimpleStatement::Iteration(IterationStatement::For(init, rest, body)) => (match init {
            ForInitStatement::Expression(e) => in_names_opt_expr(e, m, w),
            ForInitStatement::Declaration(d) => in_names_declaration(*d, m, w),
        }) || (
            match rest.condition {
                Some(c) => in_names_condition(c, m, w),
                None => false,
            }
        ) || (
            match rest.post_expr {
                Some(e) => in_names_expr(*e, m, w),
                None => false,
            }
        ) || (in_names_statement(*body, m, w)),
        SimpleStatement::Jump(JumpStatement::Return(Some(e))) => in_names_expr(*e, m, w),
        _ => false,
    }
}

/// The names a gathering walk keeps of the directive `a`.
pub open spec fn in_names_pp(a: Preprocessor, m: bool, w: Seq<char>) -> bool {
    match a {
        Preprocessor::Define(PreprocessorDefine::ObjectLike { ident, .. }) => name_leaf(ident.0@, m, w),
        Preprocessor::Define(PreprocessorDefine::FunctionLike { ident, args, .. }) => name_leaf(ident.0@, m, w) || (
            (exists|k: int| 0 <= k < args@.len() && name_leaf(#[trigger] args@[k].0@, m, w))
        ),
        Preprocessor::IfDef(d) => name_leaf(d.ident.0@, m, w),
        Preprocessor::IfNDef(d) => name_leaf(d.ident.0@, m, w),
        Preprocessor::Undef(u) => name_leaf(u.name.0@, m, w),
        _ => false,
    }
}

/// The names a gathering walk keeps of the external declaration `a`.
pub open spec fn in_names_external(a: ExternalDeclaration, m: bool, w: Seq<char>) -> bool {
    match a {
        ExternalDeclaration::Preprocessor(p) => in_names_pp(p, m, w),
        ExternalDeclaration::FunctionDefinition(f) => in_names_prototype(f.prototype, m, w) || (
            (exists|k: int|
                        0 <= k < f.statement.statement_list@.len() && in_names_statement(#[trigger] f.statement.statement_list@[k], m, w)
            )
        ),
        ExternalDeclaration::Declaration(d) => in_names_declaration(d, m, w),
    }
}


pub open spec fn op_members(op: NameOp) -> bool {
    op is BuiltinMembers
}

pub open spec fn op_gathers(op: NameOp) -> bool {
    !(op is Rename)
}

/// The names a gathering walk has gathered so far.
pub open spec fn op_set(op: NameOp) -> Set<Seq<char>> {
    match op {
        NameOp::Collect(x) => x@,
        NameOp::BuiltinMembers(x, _) => x@,
        NameOp::Rename(..) => Set::empty(),
    }
}

/// `op1` is the walk `op0` after it went over a part of the tree whose
/// kept names are `names`: the kind of walk is the same, and a gathering
/// walk has kept what it had and gathered `names`.
pub open spec fn gathered(op0: NameOp, op1: NameOp, names: Set<Seq<char>>) -> bool {
    &&& op_members(op1) == op_members(op0)
    &&& op_gathers(op1) == op_gathers(op0)
    &&& op_set(op0).subset_of(op_set(op1))
    &&& op_gathers(op0) ==> names.subset_of(op_set(op1))
    &&& op_gathers(op0) ==> op_set(op1).subset_of(op_set(op0).union(names))
}


/// The names a gathering walk keeps of the shader `a`.
pub open spec fn in_names_unit(a: TranslationUnit, m: bool, w: Seq<char>) -> bool {
    exists|k: int| 0 <= k < a.0.0@.len() && in_names_external(#[trigger] a.0.0@[k], m, w)
}

/// What to do with each name.
pub enum NameOp<'a> {
    /// Collect every identifier and type name.
    Collect(NameSet),
    /// Collect the `.member` selectors that name a member of a builtin
    /// structure.
    BuiltinMembers(NameSet, &'a Lexicon),
    /// Replace placeholders by the names their symbols are printed with
    /// (`true`: only those of pinned symbols).
    Rename(&'a SymbolTable, bool),
}

impl<'a> NameOp<'a> {
    pub open spec fn wf(&self) -> bool {
        match self {
            NameOp::BuiltinMembers(_, lex) => lex.wf(),
            _ => true,
        }
    }

    fn rename(table: &SymbolTable, only_pinned: bool, s: &mut String)
        ensures
            final(s)@ == name_map(Some((*table, only_pinned)), old(s)@),
    {
        if let Some(id) = sentinel_id(s.as_str()) {
            if (id as usize) < table.symbols.len() && (!only_pinned || table.symbols[id as usize].pinned.is_some()) {
                let n = table.new_name_or_original(id);
                *s = string_of(chars_of(n).as_slice());
            }
        }
    }

    /// An identifier or type name.
    pub(crate) fn name(&mut self, s: &mut String)
        requires
            old(self).wf(),
        ensures
            final(self).wf(),
            op_renames(*final(self)) == op_renames(*old(self)),
            walked_name(old(s)@, final(s)@, NameRel::Rename(op_renames(*old(self)))),
            gathered(*old(self), *final(self), Set::new(|w: Seq<char>| name_leaf(old(s)@, op_members(*old(self)), w))),
    {
        match self {
            NameOp::Collect(set) => set.insert_str(s.as_str()),
            NameOp::BuiltinMembers(..) => {},
            NameOp::Rename(table, only) => Self::rename(table, *only, s),
        }
    }

    /// A field selector after `.`.
    pub(crate) fn field(&mut self, s: &mut String)
        requires
            old(self).wf(),
        ensures
            final(self).wf(),
            op_renames(*final(self)) == op_renames(*old(self)),
            walked_name(old(s)@, final(s)@, NameRel::Rename(op_renames(*old(self)))),
            gathered(*old(self), *final(self), Set::new(|w: Seq<char>| field_leaf(old(s)@, op_members(*old(self)), w))),
    {
        match self {
            NameOp::Collect(set) => set.insert_str(s.as_str()),
            NameOp::BuiltinMembers(set, lex) => {
                let c = chars_of(s.as_str());
                if lex.builtin_member(c.as_slice()) {
                    set.insert_str(s.as_str());
                }
            },
            NameOp::Rename(table, only) => Self::rename(table, *only, s),
        }
    }
}

pub(crate) fn walk_arrayed(a: &mut ArrayedIdentifier, op: &mut NameOp)
    requires
        old(op).wf(),
    ensures
        final(op).wf(),
        op_renames(*final(op)) == op_renames(*old(op)),
        walked_arrayed(*old(a), *final(a), NameRel::Rename(op_renames(*old(op)))),
        gathered(*old(op), *final(op), Set::new(|w: Seq<char>| in_names_arrayed(*old(a), op_members(*old(op)), w))),
{
    op.name(&mut a.ident.0);
    if let Some(spec) = &mut a.array_spec {
        walk_array(spec, op);
    }
}

pub(crate) fn walk_array(a: &mut ArraySpecifier, op: &mut NameOp)
    requires
        old(op).wf(),
    ensures
        final(op).wf(),
        op_renames(*final(op)) == op_renames(*old(op)),
        walked_array(*old(a), *final(a), NameRel::Rename(op_renames(*old(op)))),
        gathered(*old(op), *final(op), Set::new(|w: Seq<char>| in_names_array(*old(a), op_members(*old(op)), w))),
    decreases *old(a),
{
    let dims = &mut a.dimensions.0;
    {
        let ghost orig = dims@;
        assert(forall|k: int| 0 <= k < orig.len() ==> decreases_to!(*old(a) => #[trigger] orig[k]));
        let mut n: usize = 0;
        while n < dims.len()
            invariant
                op.wf(),
                n <= dims@.len(),
                dims@.len() == orig.len(),
                forall|k: int| n <= k < orig.len() ==> dims@[k] == orig[k],
                forall|k: int| 0 <= k < orig.len() ==> decreases_to!(*old(a) => #[trigger] orig[k]),
                op.wf(),
                op_renames(*op) == op_renames(*old(op)),
                forall|k: int| 0 <= k < n ==> walked_dim(#[trigger] orig[k], dims@[k], NameRel::Rename(op_renames(*old(op)))),
                op_members(*op) == op_members(*old(op)),
                op_gathers(*op) == op_gathers(*old(op)),
                op_set(*old(op)).subset_of(op_set(*op)),
                op_gathers(*old(op)) ==> forall|k: int| 0 <= k < n ==> Set::new(|w: Seq<char>| in_names_dim(#[trigger] orig[k], op_members(*old(op)), w)).subset_of(op_set(*op)),
                op_gathers(*old(op)) ==> forall|w: Seq<char>| #[trigger] op_set(*op).contains(w) ==> op_set(*old(op)).contains(w) || exists|k: int| 0 <= k < n && #[trigger] in_names_dim(orig[k], op_members(*old(op)), w),
            decreases dims@.len() - n,
        {
            let ghost op_prev = *op;
            assert(dims@[n as int] == orig[n as int]);
            assert(dims@[n as int] == orig[n as int]);
            assert(decreases_to!(*old(a) => dims[n as int]));
            walk_dimension(&mut dims[n], op);
            proof {
                assert forall|w: Seq<char>| op_gathers(*old(op)) && #[trigger] op_set(*op).contains(w) && !op_set(op_prev).contains(w) implies in_names_dim(orig[n as int], op_members(*old(op)), w) by {}
            }
            n = n + 1;
        }
        proof {
            assert(orig == old(a).dimensions.0@);
            assert forall|w: Seq<char>| op_gathers(*old(op)) && #[trigger] op_set(*op).contains(w) && !op_set(*old(op)).contains(w) implies in_names_array(*old(a), op_members(*old(op)), w) by {
                let k = choose|k: int| 0 <= k < n && #[trigger] in_names_dim(orig[k], op_members(*old(op)), w);
                assert(old(a).dimensions.0@[k] == orig[k]);
            }
        }
    }
}

fn walk_dimension(d: &mut ArraySpecifierDimension, op: &mut NameOp)
    requires
        old(op).wf(),
    ensures
        final(op).wf(),
        op_renames(*final(op)) == op_renames(*old(op)),
        walked_dim(*old(d), *final(d), NameRel::Rename(op_renames(*old(op)))),
        gathered(*old(op), *final(op), Set::new(|w: Seq<char>| in_names_dim(*old(d), op_members(*old(op)), w))),
    decreases *old(d),
{
    match d {
        ArraySpecifierDimension::ExplicitlySized(e) => walk_expr(e, op),
        ArraySpecifierDimension::Unsized => {},
    }
}

pub(crate) fn walk_expr(e: &mut Expr, op: &mut NameOp)
    requires
        old(op).wf(),
    ensures
        final(op).wf(),
        op_renames(*final(op)) == op_renames(*old(op)),
        walked_expr(*old(e), *final(e), NameRel::Rename(op_renames(*old(op)))),
        gathered(*old(op), *final(op), Set::new(|w: Seq<char>| in_names_expr(*old(e), op_members(*old(op)), w))),
    decreases *old(e),
{
    match e {
        Expr::Variable(i) => op.name(&mut i.0),
        Expr::Unary(_, x) => walk_expr(x, op),
        Expr::PostInc(x) => walk_expr(x, op),
        Expr::PostDec(x) => walk_expr(x, op),
        Expr::Binary(_, l, r) => {
            walk_expr(l, op);
            walk_expr(r, op);
        },
        Expr::Assignment(l, _, r) => {
            walk_expr(l, op);
            walk_expr(r, op);
        },
        Expr::Comma(l, r) => {
            walk_expr(l, op);
            walk_expr(r, op);
        },
        Expr::Ternary(a, b, c) => {
            walk_expr(a, op);
            walk_expr(b, op);
            walk_expr(c, op);
        },
        Expr::Bracket(x, a) => {
            walk_expr(x, op);
            walk_array(a, op);
        },
        Expr::FunCall(fi, args) => {
            let ghost fi_before = *fi;
            match fi {
                FunIdentifier::Identifier(i) => op.name(&mut i.0),
                FunIdentifier::Expr(x) => walk_expr(x, op),
            }
            assert(walked_funid(fi_before, *fi, NameRel::Rename(op_renames(*old(op)))));
            {
                let ghost orig = args@;
                assert(forall|k: int| 0 <= k < orig.len() ==> decreases_to!(*old(e) => #[trigger] orig[k]));
                let mut n: usize = 0;
                while n < args.len()
                    invariant
                        op.wf(),
                        n <= args@.len(),
                        args@.len() == orig.len(),
                        forall|k: int| n <= k < orig.len() ==> args@[k] == orig[k],
                        forall|k: int| 0 <= k < orig.len() ==> decreases_to!(*old(e) => #[trigger] orig[k]),
                        op_renames(*op) == op_renames(*old(op)),
                        forall|k: int| 0 <= k < n ==> walked_expr(#[trigger] orig[k], args@[k], NameRel::Rename(op_renames(*old(op)))),
                        op_members(*op) == op_members(*old(op)),
                        op_gathers(*op) == op_gathers(*old(op)),
                        op_set(*old(op)).subset_of(op_set(*op)),
                        op_gathers(*old(op)) ==> forall|k: int| 0 <= k < n ==> Set::new(|w: Seq<char>| in_names_expr(#[trigger] orig[k], op_members(*old(op)), w)).subset_of(op_set(*op)),
                        op_gathers(*old(op)) ==> forall|w: Seq<char>| #[trigger] op_set(*op).contains(w) ==> op_set(*old(op)).contains(w) || in_names_funid(fi_before, op_members(*old(op)), w) || exists|k: int| 0 <= k < n && #[trigger] in_names_expr(orig[k], op_members(*old(op)), w),
                        walked_funid(fi_before, *fi, NameRel::Rename(op_renames(*old(op)))),
                        op_gathers(*old(op)) ==> Set::new(|w: Seq<char>| in_names_funid(fi_before, op_members(*old(op)), w)).subset_of(op_set(*op)),
                    decreases args@.len() - n,
                {
                    let ghost op_prev = *op;
                    assert(args@[n as int] == orig[n as int]);
                    assert(args@[n as int] == orig[n as int]);
                    assert(decreases_to!(*old(e) => args[n as int]));
                    walk_expr(&mut args[n], op);
                    proof {
                        assert forall|w: Seq<char>| op_gathers(*old(op)) && #[trigger] op_set(*op).contains(w) && !op_set(op_prev).contains(w) implies in_names_expr(orig[n as int], op_members(*old(op)), w) by {}
                    }
                    n = n + 1;
                }
                proof {
                    assert(orig == old(e)->FunCall_1@);
                    assert forall|w: Seq<char>| op_gathers(*old(op)) && #[trigger] op_set(*op).contains(w) && !op_set(*old(op)).contains(w) && !in_names_funid(fi_before, op_members(*old(op)), w) implies in_names_expr(*old(e), op_members(*old(op)), w) by {
                        let k = choose|k: int| 0 <= k < n && #[trigger] in_names_expr(orig[k], op_members(*old(op)), w);
                        assert(old(e)->FunCall_1@[k] == orig[k]);
                    }
                }
            }
        },
        Expr::Dot(x, f) => {
            walk_expr(x, op);
            op.field(&mut f.0);
        },
        _ => {},
    }
}

pub(crate) fn walk_initializer(i: &mut Initializer, op: &mut NameOp)
    requires
        old(op).wf(),
    ensures
        final(op).wf(),
        op_renames(*final(op)) == op_renames(*old(op)),
        walked_init(*old(i), *final(i), NameRel::Rename(op_renames(*old(op)))),
        gathered(*old(op), *final(op), Set::new(|w: Seq<char>| in_names_init(*old(i), op_members(*old(op)), w))),
    decreases *old(i),
{
    match i {
        Initializer::Simple(e) => walk_expr(e, op),
        Initializer::List(l) => {
            let items = &mut l.0;
            {
                let ghost orig = items@;
                assert(forall|k: int| 0 <= k < orig.len() ==> decreases_to!(*old(i) => #[trigger] orig[k]));
                let mut n: usize = 0;
                while n < items.len()
                    invariant
                        op.wf(),
                        n <= items@.len(),
                        items@.len() == orig.len(),
                        forall|k: int| n <= k < orig.len() ==> items@[k] == orig[k],
                        forall|k: int| 0 <= k < orig.len() ==> decreases_to!(*old(i) => #[trigger] orig[k]),
                        op_renames(*op) == op_renames(*old(op)),
                        forall|k: int| 0 <= k < n ==> walked_init(#[trigger] orig[k], items@[k], NameRel::Rename(op_renames(*old(op)))),
                        op_members(*op) == op_members(*old(op)),
                        op_gathers(*op) == op_gathers(*old(op)),
                        op_set(*old(op)).subset_of(op_set(*op)),
                        op_gathers(*old(op)) ==> forall|k: int| 0 <= k < n ==> Set::new(|w: Seq<char>| in_names_init(#[trigger] orig[k], op_members(*old(op)), w)).subset_of(op_set(*op)),
                        op_gathers(*old(op)) ==> forall|w: Seq<char>| #[trigger] op_set(*op).contains(w) ==> op_set(*old(op)).contains(w) || exists|k: int| 0 <= k < n && #[trigger] in_names_init(orig[k], op_members(*old(op)), w),
                    decreases items@.len() - n,
                {
                    let ghost op_prev = *op;
                    assert(items@[n as int] == orig[n as int]);
                    assert(items@[n as int] == orig[n as int]);
                    assert(decreases_to!(*old(i) => items[n as int]));
                    walk_initializer(&mut items[n], op);
                    proof {
                        assert forall|w: Seq<char>| op_gathers(*old(op)) && #[trigger] op_set(*op).contains(w) && !op_set(op_prev).contains(w) implies in_names_init(orig[n as int], op_members(*old(op)), w) by {}
                    }
                    n = n + 1;
                }
                proof {
                    assert(orig == old(i)->List_0.0@);
                    assert forall|w: Seq<char>| op_gathers(*old(op)) && #[trigger] op_set(*op).contains(w) && !op_set(*old(op)).contains(w) implies in_names_init(*old(i), op_members(*old(op)), w) by {
                        let k = choose|k: int| 0 <= k < n && #[trigger] in_names_init(orig[k], op_members(*old(op)), w);
                        assert(old(i)->List_0.0@[k] == orig[k]);
                    }
                }
            }
        },
    }
}

pub(crate) fn walk_qualifier(q: &mut TypeQualifier, op: &mut NameOp)
    requires
        old(op).wf(),
    ensures
        final(op).wf(),
        op_renames(*final(op)) == op_renames(*old(op)),
        walked_qualifier(*old(q), *final(q), NameRel::Rename(op_renames(*old(op)))),
        gathered(*old(op), *final(op), Set::new(|w: Seq<char>| in_names_qualifier(*old(q), op_members(*old(op)), w))),
{
    let qs = &mut q.qualifiers.0;
    {
        let ghost len = qs@.len();
        let ghost orig = qs@;
        let mut n: usize = 0;
        while n < qs.len()
            invariant
                op.wf(),
                n <= qs@.len(),
                qs@.len() == len,
                orig.len() == len,
                forall|k: int| n <= k < len ==> qs@[k] == orig[k],
                op_renames(*op) == op_renames(*old(op)),
                forall|k: int| 0 <= k < n ==> walked_qspec(#[trigger] orig[k], qs@[k], NameRel::Rename(op_renames(*old(op)))),
                op_members(*op) == op_members(*old(op)),
                op_gathers(*op) == op_gathers(*old(op)),
                op_set(*old(op)).subset_of(op_set(*op)),
                op_gathers(*old(op)) ==> forall|k: int| 0 <= k < n ==> Set::new(|w: Seq<char>| in_names_qspec(#[trigger] orig[k], op_members(*old(op)), w)).subset_of(op_set(*op)),
                op_gathers(*old(op)) ==> forall|w: Seq<char>| #[trigger] op_set(*op).contains(w) ==> op_set(*old(op)).contains(w) || exists|k: int| 0 <= k < n && #[trigger] in_names_qspec(orig[k], op_members(*old(op)), w),
            decreases qs@.len() - n,
        {
            let ghost op_prev = *op;
            assert(qs@[n as int] == orig[n as int]);
            walk_qualifier_spec(&mut qs[n], op);
            proof {
                assert forall|w: Seq<char>| op_gathers(*old(op)) && #[trigger] op_set(*op).contains(w) && !op_set(op_prev).contains(w) implies in_names_qspec(orig[n as int], op_members(*old(op)), w) by {}
            }
            n = n + 1;
        }
    }
}

fn walk_qualifier_spec(q: &mut TypeQualifierSpec, op: &mut NameOp)
    requires
        old(op).wf(),
    ensures
        final(op).wf(),
        op_renames(*final(op)) == op_renames(*old(op)),
        walked_qspec(*old(q), *final(q), NameRel::Rename(op_renames(*old(op)))),
        gathered(*old(op), *final(op), Set::new(|w: Seq<char>| in_names_qspec(*old(q), op_members(*old(op)), w))),
{
    match q {
        TypeQualifierSpec::Storage(StorageQualifier::Subroutine(names)) => {
            {
                let ghost len = names@.len();
                let ghost orig = names@;
                let mut n: usize = 0;
                while n < names.len()
                    invariant
                        op.wf(),
                        n <= names@.len(),
                        names@.len() == len,
                        orig.len() == len,
                        forall|k: int| n <= k < len ==> names@[k] == orig[k],
                        op_renames(*op) == op_renames(*old(op)),
                        forall|k: int| 0 <= k < n ==> walked_name(#[trigger] orig[k].0@, names@[k].0@, NameRel::Rename(op_renames(*old(op)))),
                        op_members(*op) == op_members(*old(op)),
                        op_gathers(*op) == op_gathers(*old(op)),
                        op_set(*old(op)).subset_of(op_set(*op)),
                        op_gathers(*old(op)) ==> forall|k: int| 0 <= k < n ==> Set::new(|w: Seq<char>| name_leaf(#[trigger] orig[k].0@, op_members(*old(op)), w)).subset_of(op_set(*op)),
                        op_gathers(*old(op)) ==> forall|w: Seq<char>| #[trigger] op_set(*op).contains(w) ==> op_set(*old(op)).contains(w) || exists|k: int| 0 <= k < n && #[trigger] name_leaf(orig[k].0@, op_members(*old(op)), w),
                    decreases names@.len() - n,
                {
                    let ghost op_prev = *op;
                    assert(names@[n as int] == orig[n as int]);
                    op.name(&mut names[n].0);
                    proof {
                        assert forall|w: Seq<char>| op_gathers(*old(op)) && #[trigger] op_set(*op).contains(w) && !op_set(op_prev).contains(w) implies name_leaf(orig[n as int].0@, op_members(*old(op)), w) by {}
                    }
                    n = n + 1;
                }
            }
        },
        TypeQualifierSpec::Layout(l) => {
            let ids = &mut l.ids.0;
            {
                let ghost len = ids@.len();
                let ghost orig = ids@;
                let mut n: usize = 0;
                while n < ids.len()
                    invariant
                        op.wf(),
                        n <= ids@.len(),
                        ids@.len() == len,
                        orig.len() == len,
                        forall|k: int| n <= k < len ==> ids@[k] == orig[k],
                        op_renames(*op) == op_renames(*old(op)),
                        forall|k: int| 0 <= k < n ==> walked_layout(#[trigger] orig[k], ids@[k], NameRel::Rename(op_renames(*old(op)))),
                        op_members(*op) == op_members(*old(op)),
                        op_gathers(*op) == op_gathers(*old(op)),
                        op_set(*old(op)).subset_of(op_set(*op)),
                        op_gathers(*old(op)) ==> forall|k: int| 0 <= k < n ==> Set::new(|w: Seq<char>| in_names_layout(#[trigger] orig[k], op_members(*old(op)), w)).subset_of(op_set(*op)),
                        op_gathers(*old(op)) ==> forall|w: Seq<char>| #[trigger] op_set(*op).contains(w) ==> op_set(*old(op)).contains(w) || exists|k: int| 0 <= k < n && #[trigger] in_names_layout(orig[k], op_members(*old(op)), w),
                    decreases ids@.len() - n,
                {
                    let ghost op_prev = *op;
                    assert(ids@[n as int] == orig[n as int]);
                    walk_layout_spec(&mut ids[n], op);
                    proof {
                        assert forall|w: Seq<char>| op_gathers(*old(op)) && #[trigger] op_set(*op).contains(w) && !op_set(op_prev).contains(w) implies in_names_layout(orig[n as int], op_members(*old(op)), w) by {}
                    }
                    n = n + 1;
                }
            }
        },
        _ => {},
    }
}

fn walk_layout_spec(s: &mut LayoutQualifierSpec, op: &mut NameOp)
    requires
        old(op).wf(),
    ensures
        final(op).wf(),
        op_renames(*final(op)) == op_renames(*old(op)),
        walked_layout(*old(s), *final(s), NameRel::Rename(op_renames(*old(op)))),
        gathered(*old(op), *final(op), Set::new(|w: Seq<char>| in_names_layout(*old(s), op_members(*old(op)), w))),
{
    match s {
        LayoutQualifierSpec::Identifier(i, e) => {
            op.name(&mut i.0);
            if let Some(e) = e {
                walk_expr(e, op);
            }
        },
        LayoutQualifierSpec::Shared => {},
    }
}

pub(crate) fn walk_type(t: &mut TypeSpecifier, op: &mut NameOp)
    requires
        old(op).wf(),
    ensures
        final(op).wf(),
        op_renames(*final(op)) == op_renames(*old(op)),
        walked_type(*old(t), *final(t), NameRel::Rename(op_renames(*old(op)))),
        gathered(*old(op), *final(op), Set::new(|w: Seq<char>| in_names_type(*old(t), op_members(*old(op)), w))),
    decreases *old(t),
{
    match &mut t.ty {
        TypeSpecifierNonArray::Struct(s) => walk_struct(s, op),
        TypeSpecifierNonArray::TypeName(tn) => op.name(&mut tn.0),
        _ => {},
    }
    if let Some(a) = &mut t.array_specifier {
        walk_array(a, op);
    }
}

fn walk_struct(s: &mut StructSpecifier, op: &mut NameOp)
    requires
        old(op).wf(),
    ensures
        final(op).wf(),
        op_renames(*final(op)) == op_renames(*old(op)),
        walked_struct(*old(s), *final(s), NameRel::Rename(op_renames(*old(op)))),
        gathered(*old(op), *final(op), Set::new(|w: Seq<char>| in_names_struct(*old(s), op_members(*old(op)), w))),
    decreases *old(s),
{
    let ghost name_before = s.name;
    if let Some(n) = &mut s.name {
        op.name(&mut n.0);
    }
    let fields = &mut s.fields.0;
    {
        let ghost orig = fields@;
        assert(forall|k: int| 0 <= k < orig.len() ==> decreases_to!(*old(s) => #[trigger] orig[k]));
        let mut n: usize = 0;
        while n < fields.len()
            invariant
                op.wf(),
                n <= fields@.len(),
                fields@.len() == orig.len(),
                forall|k: int| n <= k < orig.len() ==> fields@[k] == orig[k],
                forall|k: int| 0 <= k < orig.len() ==> decreases_to!(*old(s) => #[trigger] orig[k]),
                op_renames(*op) == op_renames(*old(op)),
                forall|k: int| 0 <= k < n ==> walked_field(#[trigger] orig[k], fields@[k], NameRel::Rename(op_renames(*old(op)))),
                op_members(*op) == op_members(*old(op)),
                op_gathers(*op) == op_gathers(*old(op)),
                op_set(*old(op)).subset_of(op_set(*op)),
                op_gathers(*old(op)) ==> forall|k: int| 0 <= k < n ==> Set::new(|w: Seq<char>| in_names_field(#[trigger] orig[k], op_members(*old(op)), w)).subset_of(op_set(*op)),
                op_gathers(*old(op)) ==> forall|w: Seq<char>| #[trigger] op_set(*op).contains(w) ==> op_set(*old(op)).contains(w) || in_names_opt_name(name_before, op_members(*old(op)), w) || exists|k: int| 0 <= k < n && #[trigger] in_names_field(orig[k], op_members(*old(op)), w),
                walked_opt_name(name_before, s.name, NameRel::Rename(op_renames(*old(op)))),
                op_gathers(*old(op)) ==> Set::new(|w: Seq<char>| in_names_opt_name(name_before, op_members(*old(op)), w)).subset_of(op_set(*op)),
            decreases fields@.len() - n,
        {
            let ghost op_prev = *op;
            assert(fields@[n as int] == orig[n as int]);
            assert(fields@[n as int] == orig[n as int]);
            assert(decreases_to!(*old(s) => fields[n as int]));
            walk_field(&mut fields[n], op);
            proof {
                assert forall|w: Seq<char>| op_gathers(*old(op)) && #[trigger] op_set(*op).contains(w) && !op_set(op_prev).contains(w) implies in_names_field(orig[n as int], op_members(*old(op)), w) by {}
            }
            n = n + 1;
        }
        proof {
            assert(orig == old(s).fields.0@);
            assert forall|w: Seq<char>| op_gathers(*old(op)) && #[trigger] op_set(*op).contains(w) && !op_set(*old(op)).contains(w) && !in_names_opt_name(name_before, op_members(*old(op)), w) implies in_names_struct(*old(s), op_members(*old(op)), w) by {
                let k = choose|k: int| 0 <= k < n && #[trigger] in_names_field(orig[k], op_members(*old(op)), w);
                assert(old(s).fields.0@[k] == orig[k]);
            }
        }
    }
}

pub(crate) fn walk_field(f: &mut StructFieldSpecifier, op: &mut NameOp)
    requires
        old(op).wf(),
    ensures
        final(op).wf(),
        op_renames(*final(op)) == op_renames(*old(op)),
        walked_field(*old(f), *final(f), NameRel::Rename(op_renames(*old(op)))),
        gathered(*old(op), *final(op), Set::new(|w: Seq<char>| in_names_field(*old(f), op_members(*old(op)), w))),
    decreases *old(f),
{
    let ghost q_before = f.qualifier;
    let ghost ty_before = f.ty;
    if let Some(q) = &mut f.qualifier {
        walk_qualifier(q, op);
    }
    walk_type(&mut f.ty, op);
    let ids = &mut f.identifiers.0;
    {
        let ghost len = ids@.len();
        let ghost orig = ids@;
        let mut n: usize = 0;
        while n < ids.len()
            invariant
                op.wf(),
                n <= ids@.len(),
                ids@.len() == len,
                orig.len() == len,
                forall|k: int| n <= k < len ==> ids@[k] == orig[k],
                op_renames(*op) == op_renames(*old(op)),
                forall|k: int| 0 <= k < n ==> walked_arrayed(#[trigger] orig[k], ids@[k], NameRel::Rename(op_renames(*old(op)))),
                op_members(*op) == op_members(*old(op)),
                op_gathers(*op) == op_gathers(*old(op)),
                op_set(*old(op)).subset_of(op_set(*op)),
                op_gathers(*old(op)) ==> forall|k: int| 0 <= k < n ==> Set::new(|w: Seq<char>| in_names_arrayed(#[trigger] orig[k], op_members(*old(op)), w)).subset_of(op_set(*op)),
                op_gathers(*old(op)) ==> forall|w: Seq<char>| #[trigger] op_set(*op).contains(w) ==> op_set(*old(op)).contains(w) || in_names_opt_qualifier(q_before, op_members(*old(op)), w) || in_names_type(ty_before, op_members(*old(op)), w) || exists|k: int| 0 <= k < n && #[trigger] in_names_arrayed(orig[k], op_members(*old(op)), w),
                walked_opt_qualifier(q_before, f.qualifier, NameRel::Rename(op_renames(*old(op)))),
                op_gathers(*old(op)) ==> Set::new(|w: Seq<char>| in_names_opt_qualifier(q_before, op_members(*old(op)), w)).subset_of(op_set(*op)),
                walked_type(ty_before, f.ty, NameRel::Rename(op_renames(*old(op)))),
                op_gathers(*old(op)) ==> Set::new(|w: Seq<char>| in_names_type(ty_before, op_members(*old(op)), w)).subset_of(op_set(*op)),
            decreases ids@.len() - n,
        {
            let ghost op_prev = *op;
            assert(ids@[n as int] == orig[n as int]);
            walk_arrayed(&mut ids[n], op);
            proof {
                assert forall|w: Seq<char>| op_gathers(*old(op)) && #[trigger] op_set(*op).contains(w) && !op_set(op_prev).contains(w) implies in_names_arrayed(orig[n as int], op_members(*old(op)), w) by {}
            }
            n = n + 1;
        }
    }
}

pub(crate) fn walk_full_type(t: &mut FullySpecifiedType, op: &mut NameOp)
    requires
        old(op).wf(),
    ensures
        final(op).wf(),
        op_renames(*final(op)) == op_renames(*old(op)),
        walked_full_type(*old(t), *final(t), NameRel::Rename(op_renames(*old(op)))),
        gathered(*old(op), *final(op), Set::new(|w: Seq<char>| in_names_full_type(*old(t), op_members(*old(op)), w))),
{
    if let Some(q) = &mut t.qualifier {
        walk_qualifier(q, op);
    }
    walk_type(&mut t.ty, op);
}

pub(crate) fn walk_prototype(p: &mut FunctionPrototype, op: &mut NameOp)
    requires
        old(op).wf(),
    ensures
        final(op).wf(),
        op_renames(*final(op)) == op_renames(*old(op)),
        walked_prototype(*old(p), *final(p), NameRel::Rename(op_renames(*old(op)))),
        gathered(*old(op), *final(op), Set::new(|w: Seq<char>| in_names_prototype(*old(p), op_members(*old(op)), w))),
{
    let ghost ty_before = p.ty;
    let ghost name_before = p.name.0@;
    walk_full_type(&mut p.ty, op);
    op.name(&mut p.name.0);
    let params = &mut p.parameters;
    {
        let ghost len = params@.len();
        let ghost orig = params@;
        let mut n: usize = 0;
        while n < params.len()
            invariant
                op.wf(),
                n <= params@.len(),
                params@.len() == len,
                orig.len() == len,
                forall|k: int| n <= k < len ==> params@[k] == orig[k],
                op_renames(*op) == op_renames(*old(op)),
                forall|k: int| 0 <= k < n ==> walked_param(#[trigger] orig[k], params@[k], NameRel::Rename(op_renames(*old(op)))),
                op_members(*op) == op_members(*old(op)),
                op_gathers(*op) == op_gathers(*old(op)),
                op_set(*old(op)).subset_of(op_set(*op)),
                op_gathers(*old(op)) ==> forall|k: int| 0 <= k < n ==> Set::new(|w: Seq<char>| in_names_param(#[trigger] orig[k], op_members(*old(op)), w)).subset_of(op_set(*op)),
                op_gathers(*old(op)) ==> forall|w: Seq<char>| #[trigger] op_set(*op).contains(w) ==> op_set(*old(op)).contains(w) || in_names_full_type(ty_before, op_members(*old(op)), w) || name_leaf(name_before, op_members(*old(op)), w) || exists|k: int| 0 <= k < n && #[trigger] in_names_param(orig[k], op_members(*old(op)), w),
                walked_full_type(ty_before, p.ty, NameRel::Rename(op_renames(*old(op)))),
                op_gathers(*old(op)) ==> Set::new(|w: Seq<char>| in_names_full_type(ty_before, op_members(*old(op)), w)).subset_of(op_set(*op)),
                walked_name(name_before, p.name.0@, NameRel::Rename(op_renames(*old(op)))),
                op_gathers(*old(op)) ==> Set::new(|w: Seq<char>| name_leaf(name_before, op_members(*old(op)), w)).subset_of(op_set(*op)),
            decreases params@.len() - n,
        {
            let ghost op_prev = *op;
            assert(params@[n as int] == orig[n as int]);
            walk_parameter(&mut params[n], op);
            proof {
                assert forall|w: Seq<char>| op_gathers(*old(op)) && #[trigger] op_set(*op).contains(w) && !op_set(op_prev).contains(w) implies in_names_param(orig[n as int], op_members(*old(op)), w) by {}
            }
            n = n + 1;
        }
    }
}

fn walk_parameter(p: &mut FunctionParameterDeclaration, op: &mut NameOp)
    requires
        old(op).wf(),
    ensures
        final(op).wf(),
        op_renames(*final(op)) == op_renames(*old(op)),
        walked_param(*old(p), *final(p), NameRel::Rename(op_renames(*old(op)))),
        gathered(*old(op), *final(op), Set::new(|w: Seq<char>| in_names_param(*old(p), op_members(*old(op)), w))),
{
    match p {
        FunctionParameterDeclaration::Named(q, d) => {
            if let Some(q) = q {
                walk_qualifier(q, op);
            }
            walk_type(&mut d.ty, op);
            walk_arrayed(&mut d.ident, op);
        },
        FunctionParameterDeclaration::Unnamed(q, t) => {
            if let Some(q) = q {
                walk_qualifier(q, op);
            }
            walk_type(t, op);
        },
    }
}

pub(crate) fn walk_declaration(d: &mut Declaration, op: &mut NameOp)
    requires
        old(op).wf(),
    ensures
        final(op).wf(),
        op_renames(*final(op)) == op_renames(*old(op)),
        walked_declaration(*old(d), *final(d), NameRel::Rename(op_renames(*old(op)))),
        gathered(*old(op), *final(op), Set::new(|w: Seq<char>| in_names_declaration(*old(d), op_members(*old(op)), w))),
{
    match d {
        Declaration::FunctionPrototype(p) => walk_prototype(p, op),
        Declaration::InitDeclaratorList(l) => {
            let ghost head_before = l.head;
            walk_full_type(&mut l.head.ty, op);
            if let Some(n) = &mut l.head.name {
                op.name(&mut n.0);
            }
            if let Some(a) = &mut l.head.array_specifier {
                walk_array(a, op);
            }
            if let Some(i) = &mut l.head.initializer {
                walk_initializer(i, op);
            }
            assert(walked_single(head_before, l.head, NameRel::Rename(op_renames(*old(op)))));
            let tail = &mut l.tail;
            let ghost len = tail@.len();
            let ghost orig = tail@;
            let mut n: usize = 0;
            while n < tail.len()
                invariant
                    n <= tail@.len(),
                    tail@.len() == len,
                    op.wf(),
                    orig.len() == len,
                    forall|k: int| n <= k < len ==> tail@[k] == orig[k],
                    op_renames(*op) == op_renames(*old(op)),
                    forall|k: int| 0 <= k < n ==> walked_tail_item(#[trigger] orig[k], tail@[k], NameRel::Rename(op_renames(*old(op)))),
                    op_members(*op) == op_members(*old(op)),
                    op_gathers(*op) == op_gathers(*old(op)),
                    op_set(*old(op)).subset_of(op_set(*op)),
                    op_gathers(*old(op)) ==> forall|k: int| 0 <= k < n ==> Set::new(|w: Seq<char>| in_names_tail_item(#[trigger] orig[k], op_members(*old(op)), w)).subset_of(op_set(*op)),
                    op_gathers(*old(op)) ==> forall|w: Seq<char>| #[trigger] op_set(*op).contains(w) ==> op_set(*old(op)).contains(w) || in_names_single(head_before, op_members(*old(op)), w) || exists|k: int| 0 <= k < n && #[trigger] in_names_tail_item(orig[k], op_members(*old(op)), w),
                    walked_single(head_before, l.head, NameRel::Rename(op_renames(*old(op)))),
                    op_gathers(*old(op)) ==> Set::new(|w: Seq<char>| in_names_single(head_before, op_members(*old(op)), w)).subset_of(op_set(*op)),
                decreases tail@.len() - n,
            {
                let ghost op_prev = *op;
                assert(tail@[n as int] == orig[n as int]);
                walk_arrayed(&mut tail[n].ident, op);
                if let Some(i) = &mut tail[n].initializer {
                    walk_initializer(i, op);
                }
                proof {
                    assert forall|w: Seq<char>| op_gathers(*old(op)) && #[trigger] op_set(*op).contains(w) && !op_set(op_prev).contains(w) implies in_names_tail_item(orig[n as int], op_members(*old(op)), w) by {}
                }
                n = n + 1;
            }
        },
        Declaration::Precision(_, t) => walk_type(t, op),
        Declaration::Block(b) => {
            let ghost q_before = b.qualifier;
            let ghost name_before = b.name.0@;
            let ghost id_before = b.identifier;
            walk_qualifier(&mut b.qualifier, op);
            op.name(&mut b.name.0);
            let fields = &mut b.fields;
            {
                let ghost len = fields@.len();
                let ghost orig = fields@;
                let mut n: usize = 0;
                while n < fields.len()
                    invariant
                        op.wf(),
                        n <= fields@.len(),
                        fields@.len() == len,
                        orig.len() == len,
                        forall|k: int| n <= k < len ==> fields@[k] == orig[k],
                        op_renames(*op) == op_renames(*old(op)),
                        forall|k: int| 0 <= k < n ==> walked_field(#[trigger] orig[k], fields@[k], NameRel::Rename(op_renames(*old(op)))),
                        op_members(*op) == op_members(*old(op)),
                        op_gathers(*op) == op_gathers(*old(op)),
                        op_set(*old(op)).subset_of(op_set(*op)),
                        op_gathers(*old(op)) ==> forall|k: int| 0 <= k < n ==> Set::new(|w: Seq<char>| in_names_field(#[trigger] orig[k], op_members(*old(op)), w)).subset_of(op_set(*op)),
                        op_gathers(*old(op)) ==> forall|w: Seq<char>| #[trigger] op_set(*op).contains(w) ==> op_set(*old(op)).contains(w) || in_names_qualifier(q_before, op_members(*old(op)), w) || name_leaf(name_before, op_members(*old(op)), w) || exists|k: int| 0 <= k < n && #[trigger] in_names_field(orig[k], op_members(*old(op)), w),
                        walked_qualifier(q_before, b.qualifier, NameRel::Rename(op_renames(*old(op)))),
                        op_gathers(*old(op)) ==> Set::new(|w: Seq<char>| in_names_qualifier(q_before, op_members(*old(op)), w)).subset_of(op_set(*op)),
                        walked_name(name_before, b.name.0@, NameRel::Rename(op_renames(*old(op)))),
                        op_gathers(*old(op)) ==> Set::new(|w: Seq<char>| name_leaf(name_before, op_members(*old(op)), w)).subset_of(op_set(*op)),
                        b.identifier == id_before,
                    decreases fields@.len() - n,
                {
                    let ghost op_prev = *op;
                    assert(fields@[n as int] == orig[n as int]);
                    walk_field(&mut fields[n], op);
                    proof {
                        assert forall|w: Seq<char>| op_gathers(*old(op)) && #[trigger] op_set(*op).contains(w) && !op_set(op_prev).contains(w) implies in_names_field(orig[n as int], op_members(*old(op)), w) by {}
                    }
                    n = n + 1;
                }
            }
            if let Some(a) = &mut b.identifier {
                walk_arrayed(a, op);
            }
        },
        Declaration::Global(q, ids) => {
            let ghost q_before = *q;
            walk_qualifier(q, op);
            {
                let ghost len = ids@.len();
                let ghost orig = ids@;
                let mut n: usize = 0;
                while n < ids.len()
                    invariant
                        op.wf(),
                        n <= ids@.len(),
                        ids@.len() == len,
                        orig.len() == len,
                        forall|k: int| n <= k < len ==> ids@[k] == orig[k],
                        op_renames(*op) == op_renames(*old(op)),
                        forall|k: int| 0 <= k < n ==> walked_name(#[trigger] orig[k].0@, ids@[k].0@, NameRel::Rename(op_renames(*old(op)))),
                        op_members(*op) == op_members(*old(op)),
                        op_gathers(*op) == op_gathers(*old(op)),
                        op_set(*old(op)).subset_of(op_set(*op)),
                        op_gathers(*old(op)) ==> forall|k: int| 0 <= k < n ==> Set::new(|w: Seq<char>| name_leaf(#[trigger] orig[k].0@, op_members(*old(op)), w)).subset_of(op_set(*op)),
                        op_gathers(*old(op)) ==> forall|w: Seq<char>| #[trigger] op_set(*op).contains(w) ==> op_set(*old(op)).contains(w) || in_names_qualifier(q_before, op_members(*old(op)), w) || exists|k: int| 0 <= k < n && #[trigger] name_leaf(orig[k].0@, op_members(*old(op)), w),
                        walked_qualifier(q_before, *q, NameRel::Rename(op_renames(*old(op)))),
                        op_gathers(*old(op)) ==> Set::new(|w: Seq<char>| in_names_qualifier(q_before, op_members(*old(op)), w)).subset_of(op_set(*op)),
                    decreases ids@.len() - n,
                {
                    let ghost op_prev = *op;
                    assert(ids@[n as int] == orig[n as int]);
                    op.name(&mut ids[n].0);
                    proof {
                        assert forall|w: Seq<char>| op_gathers(*old(op)) && #[trigger] op_set(*op).contains(w) && !op_set(op_prev).contains(w) implies name_leaf(orig[n as int].0@, op_members(*old(op)), w) by {}
                    }
                    n = n + 1;
                }
            }
        },
    }
}

fn walk_condition(c: &mut Condition, op: &mut NameOp)
    requires
        old(op).wf(),
    ensures
        final(op).wf(),
        op_renames(*final(op)) == op_renames(*old(op)),
        walked_condition(*old(c), *final(c), NameRel::Rename(op_renames(*old(op)))),
        gathered(*old(op), *final(op), Set::new(|w: Seq<char>| in_names_condition(*old(c), op_members(*old(op)), w))),
{
    match c {
        Condition::Expr(e) => walk_expr(e, op),
        Condition::Assignment(t, i, init) => {
            walk_full_type(t, op);
            op.name(&mut i.0);
            walk_initializer(init, op);
        },
    }
}

pub(crate) fn walk_statement(st: &mut Statement, op: &mut NameOp)
    requires
        old(op).wf(),
    ensures
        final(op).wf(),
        op_renames(*final(op)) == op_renames(*old(op)),
        walked_statement(*old(st), *final(st), NameRel::Rename(op_renames(*old(op)))),
        gathered(*old(op), *final(op), Set::new(|w: Seq<char>| in_names_statement(*old(st), op_members(*old(op)), w))),
    decreases *old(st),
{
    match st {
        Statement::Compound(c) => {
            let list = &mut c.statement_list;
            {
                let ghost orig = list@;
                assert(forall|k: int| 0 <= k < orig.len() ==> decreases_to!(*old(st) => #[trigger] orig[k]));
                let mut n: usize = 0;
                while n < list.len()
                    invariant
                        op.wf(),
                        n <= list@.len(),
                        list@.len() == orig.len(),
                        forall|k: int| n <= k < orig.len() ==> list@[k] == orig[k],
                        forall|k: int| 0 <= k < orig.len() ==> decreases_to!(*old(st) => #[trigger] orig[k]),
                        op_renames(*op) == op_renames(*old(op)),
                        forall|k: int| 0 <= k < n ==> walked_statement(#[trigger] orig[k], list@[k], NameRel::Rename(op_renames(*old(op)))),
                        op_members(*op) == op_members(*old(op)),
                        op_gathers(*op) == op_gathers(*old(op)),
                        op_set(*old(op)).subset_of(op_set(*op)),
                        op_gathers(*old(op)) ==> forall|k: int| 0 <= k < n ==> Set::new(|w: Seq<char>| in_names_statement(#[trigger] orig[k], op_members(*old(op)), w)).subset_of(op_set(*op)),
                        op_gathers(*old(op)) ==> forall|w: Seq<char>| #[trigger] op_set(*op).contains(w) ==> op_set(*old(op)).contains(w) || exists|k: int| 0 <= k < n && #[trigger] in_names_statement(orig[k], op_members(*old(op)), w),
                    decreases list@.len() - n,
                {
                    let ghost op_prev = *op;
                    assert(list@[n as int] == orig[n as int]);
                    assert(list@[n as int] == orig[n as int]);
                    assert(decreases_to!(*old(st) => list[n as int]));
                    walk_statement(&mut list[n], op);
                    proof {
                        assert forall|w: Seq<char>| op_gathers(*old(op)) && #[trigger] op_set(*op).contains(w) && !op_set(op_prev).contains(w) implies in_names_statement(orig[n as int], op_members(*old(op)), w) by {}
                    }
                    n = n + 1;
                }
                proof {
                    assert(orig == old(st)->Compound_0.statement_list@);
                    assert forall|w: Seq<char>| op_gathers(*old(op)) && #[trigger] op_set(*op).contains(w) && !op_set(*old(op)).contains(w) implies in_names_statement(*old(st), op_members(*old(op)), w) by {
                        let k = choose|k: int| 0 <= k < n && #[trigger] in_names_statement(orig[k], op_members(*old(op)), w);
                        assert(old(st)->Compound_0.statement_list@[k] == orig[k]);
                    }
                }
            }
        },
        Statement::Simple(s) => walk_simple(s, op),
    }
}

fn walk_simple(s: &mut SimpleStatement, op: &mut NameOp)
    requires
        old(op).wf(),
    ensures
        final(op).wf(),
        op_renames(*final(op)) == op_renames(*old(op)),
        walked_simple(*old(s), *final(s), NameRel::Rename(op_renames(*old(op)))),
        gathered(*old(op), *final(op), Set::new(|w: Seq<char>| in_names_simple(*old(s), op_members(*old(op)), w))),
    decreases *old(s),
{
    match s {
        SimpleStatement::Declaration(d) => walk_declaration(d, op),
        SimpleStatement::Expression(e) => {
            if let Some(e) = e {
                walk_expr(e, op);
            }
        },
        SimpleStatement::Selection(sel) => {
            walk_expr(&mut sel.cond, op);
            match &mut sel.rest {
                SelectionRestStatement::Statement(x) => walk_statement(x, op),
                SelectionRestStatement::Else(a, b) => {
                    walk_statement(a, op);
                    walk_statement(b, op);
                },
            }
        },
        SimpleStatement::Switch(sw) => {
            let ghost head_before = *sw.head;
            walk_expr(&mut sw.head, op);
            let body = &mut sw.body;
            {
                let ghost orig = body@;
                assert(forall|k: int| 0 <= k < orig.len() ==> decreases_to!(*old(s) => #[trigger] orig[k]));
                let mut n: usize = 0;
                while n < body.len()
                    invariant
                        op.wf(),
                        n <= body@.len(),
                        body@.len() == orig.len(),
                        forall|k: int| n <= k < orig.len() ==> body@[k] == orig[k],
                        forall|k: int| 0 <= k < orig.len() ==> decreases_to!(*old(s) => #[trigger] orig[k]),
                        op_renames(*op) == op_renames(*old(op)),
                        forall|k: int| 0 <= k < n ==> walked_statement(#[trigger] orig[k], body@[k], NameRel::Rename(op_renames(*old(op)))),
                        op_members(*op) == op_members(*old(op)),
                        op_gathers(*op) == op_gathers(*old(op)),
                        op_set(*old(op)).subset_of(op_set(*op)),
                        op_gathers(*old(op)) ==> forall|k: int| 0 <= k < n ==> Set::new(|w: Seq<char>| in_names_statement(#[trigger] orig[k], op_members(*old(op)), w)).subset_of(op_set(*op)),
                        op_gathers(*old(op)) ==> forall|w: Seq<char>| #[trigger] op_set(*op).contains(w) ==> op_set(*old(op)).contains(w) || in_names_expr(head_before, op_members(*old(op)), w) || exists|k: int| 0 <= k < n && #[trigger] in_names_statement(orig[k], op_members(*old(op)), w),
                        walked_expr(head_before, *sw.head, NameRel::Rename(op_renames(*old(op)))),
                        op_gathers(*old(op)) ==> Set::new(|w: Seq<char>| in_names_expr(head_before, op_members(*old(op)), w)).subset_of(op_set(*op)),
                    decreases body@.len() - n,
                {
                    let ghost op_prev = *op;
                    assert(body@[n as int] == orig[n as int]);
                    assert(body@[n as int] == orig[n as int]);
                    assert(decreases_to!(*old(s) => body[n as int]));
                    walk_statement(&mut body[n], op);
                    proof {
                        assert forall|w: Seq<char>| op_gathers(*old(op)) && #[trigger] op_set(*op).contains(w) && !op_set(op_prev).contains(w) implies in_names_statement(orig[n as int], op_members(*old(op)), w) by {}
                    }
                    n = n + 1;
                }
                proof {
                    assert(orig == old(s)->Switch_0.body@);
                    assert forall|w: Seq<char>| op_gathers(*old(op)) && #[trigger] op_set(*op).contains(w) && !op_set(*old(op)).contains(w) && !in_names_expr(head_before, op_members(*old(op)), w) implies in_names_simple(*old(s), op_members(*old(op)), w) by {
                        let k = choose|k: int| 0 <= k < n && #[trigger] in_names_statement(orig[k], op_members(*old(op)), w);
                        assert(old(s)->Switch_0.body@[k] == orig[k]);
                    }
                }
            }
        },
        SimpleStatement::CaseLabel(CaseLabel::Case(e)) => walk_expr(e, op),
        SimpleStatement::CaseLabel(CaseLabel::Def) => {},
        SimpleStatement::Iteration(IterationStatement::While(c, body)) => {
            walk_condition(c, op);
            walk_statement(body, op);
        },
        SimpleStatement::Iteration(IterationStatement::DoWhile(body, e)) => {
            walk_statement(body, op);
            walk_expr(e, op);
        },
        SimpleStatement::Iteration(IterationStatement::For(init, rest, body)) => {
            match init {
                ForInitStatement::Expression(Some(e)) => walk_expr(e, op),
                ForInitStatement::Expression(None) => {},
                ForInitStatement::Declaration(d) => walk_declaration(d, op),
            }
            if let Some(c) = &mut rest.condition {
                walk_condition(c, op);
            }
            if let Some(e) = &mut rest.post_expr {
                walk_expr(e, op);
            }
            walk_statement(body, op);
        },
        SimpleStatement::Jump(JumpStatement::Return(Some(e))) => walk_expr(e, op),
        SimpleStatement::Jump(_) => {},
    }
}

fn walk_preprocessor(pp: &mut Preprocessor, op: &mut NameOp)
    requires
        old(op).wf(),
    ensures
        final(op).wf(),
        op_renames(*final(op)) == op_renames(*old(op)),
        walked_pp(*old(pp), *final(pp), NameRel::Rename(op_renames(*old(op)))),
        gathered(*old(op), *final(op), Set::new(|w: Seq<char>| in_names_pp(*old(pp), op_members(*old(op)), w))),
        (*old(pp)) is Pragma ==> *final(pp) == *old(pp),
        !((*old(pp)) is Pragma) ==> !((*final(pp)) is Pragma),
{
    match pp {
        Preprocessor::Define(PreprocessorDefine::ObjectLike { ident, .. }) => op.name(&mut ident.0),
        Preprocessor::Define(PreprocessorDefine::FunctionLike { ident, args, .. }) => {
            let ghost ident_before = ident.0@;
            op.name(&mut ident.0);
            {
                let ghost len = args@.len();
                let ghost orig = args@;
                let mut n: usize = 0;
                while n < args.len()
                    invariant
                        op.wf(),
                        n <= args@.len(),
                        args@.len() == len,
                        orig.len() == len,
                        forall|k: int| n <= k < len ==> args@[k] == orig[k],
                        op_renames(*op) == op_renames(*old(op)),
                        forall|k: int| 0 <= k < n ==> walked_name(#[trigger] orig[k].0@, args@[k].0@, NameRel::Rename(op_renames(*old(op)))),
                        op_members(*op) == op_members(*old(op)),
                        op_gathers(*op) == op_gathers(*old(op)),
                        op_set(*old(op)).subset_of(op_set(*op)),
                        op_gathers(*old(op)) ==> forall|k: int| 0 <= k < n ==> Set::new(|w: Seq<char>| name_leaf(#[trigger] orig[k].0@, op_members(*old(op)), w)).subset_of(op_set(*op)),
                        op_gathers(*old(op)) ==> forall|w: Seq<char>| #[trigger] op_set(*op).contains(w) ==> op_set(*old(op)).contains(w) || name_leaf(ident_before, op_members(*old(op)), w) || exists|k: int| 0 <= k < n && #[trigger] name_leaf(orig[k].0@, op_members(*old(op)), w),
                        walked_name(ident_before, ident.0@, NameRel::Rename(op_renames(*old(op)))),
                        op_gathers(*old(op)) ==> Set::new(|w: Seq<char>| name_leaf(ident_before, op_members(*old(op)), w)).subset_of(op_set(*op)),
                    decreases args@.len() - n,
                {
                    let ghost op_prev = *op;
                    assert(args@[n as int] == orig[n as int]);
                    op.name(&mut args[n].0);
                    proof {
                        assert forall|w: Seq<char>| op_gathers(*old(op)) && #[trigger] op_set(*op).contains(w) && !op_set(op_prev).contains(w) implies name_leaf(orig[n as int].0@, op_members(*old(op)), w) by {}
                    }
                    n = n + 1;
                }
            }
        },
        Preprocessor::IfDef(d) => op.name(&mut d.ident.0),
        Preprocessor::IfNDef(d) => op.name(&mut d.ident.0),
        Preprocessor::Undef(u) => op.name(&mut u.name.0),
        _ => {},
    }
}

/// Whether `ed` is a `#pragma` directive.
pub open spec fn is_pragma(ed: ExternalDeclaration) -> bool {
    ed matches ExternalDeclaration::Preprocessor(Preprocessor::Pragma(_))
}

pub(crate) fn walk_external(ed: &mut ExternalDeclaration, op: &mut NameOp)
    requires
        old(op).wf(),
    ensures
        final(op).wf(),
        op_renames(*final(op)) == op_renames(*old(op)),
        walked_external(*old(ed), *final(ed), NameRel::Rename(op_renames(*old(op)))),
        gathered(*old(op), *final(op), Set::new(|w: Seq<char>| in_names_external(*old(ed), op_members(*old(op)), w))),
        is_pragma(*old(ed)) ==> *final(ed) == *old(ed),
        !is_pragma(*old(ed)) ==> !is_pragma(*final(ed)),
{
    match ed {
        ExternalDeclaration::Preprocessor(pp) => walk_preprocessor(pp, op),
        ExternalDeclaration::FunctionDefinition(fd) => {
            let ghost proto_before = fd.prototype;
            walk_prototype(&mut fd.prototype, op);
            let list = &mut fd.statement.statement_list;
            {
                let ghost len = list@.len();
                let ghost orig = list@;
                let mut n: usize = 0;
                while n < list.len()
                    invariant
                        op.wf(),
                        n <= list@.len(),
                        list@.len() == len,
                        orig.len() == len,
                        forall|k: int| n <= k < len ==> list@[k] == orig[k],
                        op_renames(*op) == op_renames(*old(op)),
                        forall|k: int| 0 <= k < n ==> walked_statement(#[trigger] orig[k], list@[k], NameRel::Rename(op_renames(*old(op)))),
                        op_members(*op) == op_members(*old(op)),
                        op_gathers(*op) == op_gathers(*old(op)),
                        op_set(*old(op)).subset_of(op_set(*op)),
                        op_gathers(*old(op)) ==> forall|k: int| 0 <= k < n ==> Set::new(|w: Seq<char>| in_names_statement(#[trigger] orig[k], op_members(*old(op)), w)).subset_of(op_set(*op)),
                        op_gathers(*old(op)) ==> forall|w: Seq<char>| #[trigger] op_set(*op).contains(w) ==> op_set(*old(op)).contains(w) || in_names_prototype(proto_before, op_members(*old(op)), w) || exists|k: int| 0 <= k < n && #[trigger] in_names_statement(orig[k], op_members(*old(op)), w),
                        walked_prototype(proto_before, fd.prototype, NameRel::Rename(op_renames(*old(op)))),
                        op_gathers(*old(op)) ==> Set::new(|w: Seq<char>| in_names_prototype(proto_before, op_members(*old(op)), w)).subset_of(op_set(*op)),
                    decreases list@.len() - n,
                {
                    let ghost op_prev = *op;
                    assert(list@[n as int] == orig[n as int]);
                    walk_statement(&mut list[n], op);
                    proof {
                        assert forall|w: Seq<char>| op_gathers(*old(op)) && #[trigger] op_set(*op).contains(w) && !op_set(op_prev).contains(w) implies in_names_statement(orig[n as int], op_members(*old(op)), w) by {}
                    }
                    n = n + 1;
                }
            }
        },
        ExternalDeclaration::Declaration(d) => walk_declaration(d, op),
    }
}

/// Visit every identifier and type name of `tu`.
pub(crate) fn walk_unit(tu: &mut TranslationUnit, op: &mut NameOp)
    requires
        old(op).wf(),
    ensures
        final(op).wf(),
        op_renames(*final(op)) == op_renames(*old(op)),
        walked_unit(*old(tu), *final(tu), NameRel::Rename(op_renames(*old(op)))),
        gathered(*old(op), *final(op), Set::new(|w: Seq<char>| in_names_unit(*old(tu), op_members(*old(op)), w))),
        final(tu).0.0@.len() == old(tu).0.0@.len(),
        forall|i: int|
            0 <= i < old(tu).0.0@.len() ==> (is_pragma(#[trigger] old(tu).0.0@[i]) ==> final(tu).0.0@[i]
                == old(tu).0.0@[i]) && (!is_pragma(old(tu).0.0@[i]) ==> !is_pragma(final(tu).0.0@[i])),
{
    let eds = &mut tu.0.0;
    {
        let ghost len = eds@.len();
        let ghost orig = eds@;
        let mut n: usize = 0;
        while n < eds.len()
            invariant
                op.wf(),
                n <= eds@.len(),
                eds@.len() == len,
                orig.len() == len,
                forall|i: int| n <= i < len ==> eds@[i] == orig[i],
                forall|i: int|
                    0 <= i < n ==> (is_pragma(#[trigger] orig[i]) ==> eds@[i] == orig[i]) && (!is_pragma(orig[i])
                        ==> !is_pragma(eds@[i])),
                op_renames(*op) == op_renames(*old(op)),
                forall|i: int| 0 <= i < n ==> walked_external(#[trigger] orig[i], eds@[i], NameRel::Rename(op_renames(*old(op)))),
                op_members(*op) == op_members(*old(op)),
                op_gathers(*op) == op_gathers(*old(op)),
                op_set(*old(op)).subset_of(op_set(*op)),
                op_gathers(*old(op)) ==> forall|k: int| 0 <= k < n ==> Set::new(|w: Seq<char>| in_names_external(#[trigger] orig[k], op_members(*old(op)), w)).subset_of(op_set(*op)),
                op_gathers(*old(op)) ==> forall|w: Seq<char>| #[trigger] op_set(*op).contains(w) ==> op_set(*old(op)).contains(w) || exists|k: int| 0 <= k < n && #[trigger] in_names_external(orig[k], op_members(*old(op)), w),
            decreases eds@.len() - n,
        {
            let ghost op_prev = *op;
            walk_external(&mut eds[n], op);
            proof {
                assert forall|w: Seq<char>| op_gathers(*old(op)) && #[trigger] op_set(*op).contains(w) && !op_set(op_prev).contains(w) implies in_names_external(orig[n as int], op_members(*old(op)), w) by {}
            }
            n = n + 1;
        }
    }
}

} // verus!
