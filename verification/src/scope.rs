//! Identifier resolution: builds the scope tree and symbol table of a shader
//! and binds every identifier occurrence to its symbol.
//!
//! Binding rewrites the identifier in the tree to a *placeholder*: a single
//! private-use character encoding the symbol id. Every later stage
//! recognises symbols by `sentinel_id`; `rename::apply` writes the final
//! names back.
//!
//! Scoping follows the strictest reading over all GLSL / GLSL ES versions:
//! - variables, functions and struct type names share one namespace per
//!   scope; a nested scope may hide any outer name;
//! - function parameters and the function body form one scope;
//! - a `for`/`while` header and its body form one scope; `do` bodies,
//!   `switch` bodies, unbraced `if`/`else` branches and `{}` blocks are
//!   scopes;
//! - a declared name becomes visible only after its initializer;
//! - struct members live in a namespace per struct; interface block names
//!   and members are API-visible and pinned; swizzles are never identifiers.
use vstd::prelude::*;
use crate::builtins::{Lexicon, reserved, swizzle, spec_is_reserved, spec_is_swizzle, spec_is_keyword, spec_is_builtin_function};
use crate::error::CrushError;
use crate::names::{NameSet, IdSet, NameMap};
use crate::walk::{NameRel, walked_name, walked_for_init, walked_opt_condition, walked_opt_boxed, walked_decl_name, walked_struct, walked_expr, walked_array, walked_dim, walked_opt_array, walked_qualifier,
    walked_field, walked_type, walked_prototype, walked_init, walked_declaration, walked_condition, walked_statement,
    walked_simple, walked_external, walked_unit, walked_funid, walked_qspec, walked_layout,
    walked_arrayed, walked_opt_qualifier, walked_param, walked_opt_init, walked_single, walked_tail_item, walked_opt_ident, walked_opt_arrayed, walked_opt_name, walked_tsna};
use crate::protect::Protection;
use crate::syntax::{StructSpecifier, SingleDeclaration, SingleDeclarationNoType, TypeSpecifierNonArray, TypeSpecifier, StructFieldSpecifier, TypeQualifier, ArrayedIdentifier,
    TypeQualifierSpec, StorageQualifier, LayoutQualifierSpec, ArraySpecifier, ArraySpecifierDimension,
    Declaration, FunIdentifier, FunctionPrototype, FunctionParameterDeclaration, Initializer, Expr,
    TranslationUnit, ExternalDeclaration, Statement, SimpleStatement, Condition,
    SelectionRestStatement, CaseLabel, IterationStatement, ForInitStatement, JumpStatement, Preprocessor, PreprocessorDefine};
use crate::text::{chars_of, string_of, char_from_u32};

verus! {

broadcast use vstd::string::group_string_axioms;

pub type SymbolId = u32;
pub type ScopeId = u32;
pub type StructId = u32;

#[derive(Debug, Clone, Copy, PartialEq, Eq, Structural)]
pub enum SymbolKind {
    Variable,
    Parameter,
    Function,
    StructType,
    BlockInstance,
    Field(StructId),
}

#[derive(Debug, Clone, Copy, PartialEq, Eq, Structural)]
pub enum TypeRef {
    /// A builtin type (scalar, vector, sampler, ...) or a builtin struct.
    Builtin,
    UserStruct(StructId),
    /// Unknown: a type name that could not be resolved.
    Opaque,
}

#[derive(Debug, Clone, Copy, PartialEq, Eq, Structural)]
pub enum PinReason {
    /// Protected by the caller, a pragma region or preprocessor text.
    Protected,
    /// `gl_`/`GL_` prefix or `__`.
    Reserved,
    /// A user function with the name of a builtin function.
    BuiltinShadow,
    BlockMember,
    Subroutine,
    /// Member of a struct that is reachable from a pinned variable.
    ApiStruct,
    /// A field name that is also selected on a value of unknown type.
    FieldNameOpaque,
    /// A field whose name looks like a swizzle.
    SwizzleShaped,
    /// The same name declared with different kinds in one scope.
    KindClash,
}

#[derive(Debug, Clone, PartialEq)]
pub struct Symbol {
    pub name: String,
    pub kind: SymbolKind,
    pub scope: ScopeId,
    pub ty: TypeRef,
    pub pinned: Option<PinReason>,
    pub occurrences: u32,
    pub new_name: Option<String>,
}

#[derive(Debug, Clone, PartialEq)]
pub struct StructDef {
    pub type_symbol: Option<SymbolId>,
    /// In declaration order.
    pub fields: Vec<SymbolId>,
}

#[derive(Debug, Clone, Copy, PartialEq, Eq, Structural)]
pub enum ScopeKind {
    Global,
    Function,
    Block,
    Loop,
    Switch,
}

#[derive(Debug, Clone, PartialEq)]
pub struct Scope {
    pub parent: Option<ScopeId>,
    pub kind: ScopeKind,
    /// In declaration order.
    pub symbols: Vec<SymbolId>,
    pub children: Vec<ScopeId>,
    /// Symbols used anywhere in this scope's subtree.
    pub referenced: IdSet,
}

/// One identifier occurrence, in traversal order.
#[derive(Debug, Clone, Copy, PartialEq, Eq, Structural)]
pub struct Occ {
    pub sym: SymbolId,
    pub is_decl: bool,
}

#[derive(Debug, Clone, PartialEq, Default)]
pub struct SymbolTable {
    pub symbols: Vec<Symbol>,
    pub scopes: Vec<Scope>,
    pub structs: Vec<StructDef>,
    /// Every binding in traversal order: the fingerprint the self-check
    /// compares after re-parsing the output.
    pub occ: Vec<Occ>,
    /// Names that must keep their spelling (and must not be generated).
    pub pinned_names: NameSet,
    /// Field names that must keep their spelling in every struct.
    pub pinned_field_names: NameSet,
}

/// First code point of the placeholders (Supplementary Private Use Area-A).
pub const SENTINEL_BASE: u32 = 0xF0000;
/// Last code point of the placeholders.
pub const SENTINEL_MAX: u32 = 0xFFFFD;

/// The placeholder text of symbol `id`.
pub open spec fn spec_sentinel(id: SymbolId) -> Seq<char> {
    seq![(SENTINEL_BASE + id) as char]
}

/// The symbol id a text stands for, if it is a placeholder.
pub open spec fn spec_sentinel_id(s: Seq<char>) -> Option<SymbolId> {
    if s.len() == 1 && SENTINEL_BASE <= s[0] as u32 && s[0] as u32 <= SENTINEL_MAX {
        Some((s[0] as u32 - SENTINEL_BASE) as u32)
    } else {
        None
    }
}

/// The placeholder identifier for symbol `id`.
pub fn sentinel(id: SymbolId) -> (r: String)
    requires
        id <= SENTINEL_MAX - SENTINEL_BASE,
    ensures
        r@.len() == 1,
        r@[0] as u32 == SENTINEL_BASE + id,
        spec_sentinel_id(r@) == Some(id),
{
    let c = match char_from_u32(SENTINEL_BASE + id) {
        Some(c) => c,
        None => ' ',
    };
    let mut v: Vec<char> = Vec::new();
    v.push(c);
    string_of(v.as_slice())
}

/// The symbol id encoded by a placeholder identifier, if `s` is one.
pub fn sentinel_id(s: &str) -> (r: Option<SymbolId>)
    ensures
        r == spec_sentinel_id(s@),
{
    let c = chars_of(s);
    if c.len() != 1 {
        return None;
    }
    let u = c[0] as u32;
    if SENTINEL_BASE <= u && u <= SENTINEL_MAX {
        Some(u - SENTINEL_BASE)
    } else {
        None
    }
}

/// Placeholders decode to the symbol they were made for.
pub proof fn lemma_sentinel_roundtrip(id: SymbolId)
    requires
        id <= SENTINEL_MAX - SENTINEL_BASE,
    ensures
        spec_sentinel_id(spec_sentinel(id)) == Some(id),
{
}

/// Whether symbol `s` of a table with the given pinned spellings must keep
/// its name: a reserved spelling (`gl_`, `GL_`, `__`), a pinned name (for a
/// symbol that is not a field), a pinned field name or a swizzle-shaped
/// spelling (for a field).
pub open spec fn must_keep_name(s: Symbol, pinned_names: Set<Seq<char>>, pinned_field_names: Set<Seq<char>>) -> bool {
    spec_is_reserved(s.name@) || match s.kind {
        SymbolKind::Field(_) => pinned_field_names.contains(s.name@) || spec_is_swizzle(s.name@),
        _ => pinned_names.contains(s.name@),
    }
}

/// `ty` names a struct of `t`, if any.
pub open spec fn valid_ty(t: SymbolTable, ty: TypeRef) -> bool {
    ty matches TypeRef::UserStruct(d) ==> d < t.structs@.len()
}

/// `k` names a struct of `t`, if any.
pub open spec fn valid_kind(t: SymbolTable, k: SymbolKind) -> bool {
    k matches SymbolKind::Field(d) ==> d < t.structs@.len()
}

/// The table is well formed: there is a global scope, and every symbol,
/// scope and struct id it holds points into it; a scope's parent comes
/// before it and its children after it.
pub open spec fn symbol_table_wf(t: SymbolTable) -> bool {
    let nsym = t.symbols@.len();
    let nsc = t.scopes@.len();
    let nst = t.structs@.len();
    &&& nsc > 0
    &&& t.scopes@[0].parent is None
    &&& forall|i: int|
        0 <= i < nsym ==> (#[trigger] t.symbols@[i]).scope < nsc && (t.symbols@[i].kind matches SymbolKind::Field(d)
            ==> d < nst) && (t.symbols@[i].ty matches TypeRef::UserStruct(d) ==> d < nst)
    &&& forall|k: int| 0 <= k < t.occ@.len() ==> (#[trigger] t.occ@[k]).sym < nsym
    &&& forall|s: int| 0 <= s < nsc ==> ((#[trigger] t.scopes@[s]).parent matches Some(p) ==> p < s)
    &&& forall|s: int, j: int|
        0 <= s < nsc && 0 <= j < t.scopes@[s].symbols@.len() ==> (#[trigger] t.scopes@[s].symbols@[j]) < nsym
    &&& forall|s: int, j: int|
        0 <= s < nsc && 0 <= j < t.scopes@[s].children@.len() ==> s < (#[trigger] t.scopes@[s].children@[j]) < nsc
    &&& forall|s: int, x: u32| 0 <= s < nsc && (#[trigger] t.scopes@[s].referenced@.contains(x)) ==> x < nsym
    &&& forall|d: int| 0 <= d < nst ==> ((#[trigger] t.structs@[d]).type_symbol matches Some(x) ==> x < nsym)
    &&& forall|d: int, j: int|
        0 <= d < nst && 0 <= j < t.structs@[d].fields@.len() ==> (#[trigger] t.structs@[d].fields@[j]) < nsym
    &&& table_links(t)
}

/// Each symbol's occurrence count is the number of its entries in the
/// occurrence list (saturating at the largest `u32`), a scope's parent
/// lists it as a child, a scope listed as a child has that parent, and a
/// scope's referenced symbols are referenced in its parent too.
#[verifier::opaque]
pub open spec fn table_links(t: SymbolTable) -> bool {
    &&& counts_match(t)
    &&& parents_list_children(t)
    &&& children_have_parent(t)
    &&& referenced_closed(t)
    &&& one_home(t)
    &&& forall|s: int| 0 < s < t.scopes@.len() ==> (#[trigger] parent_of(t, s)) is Some
}

/// The `j`-th symbol scope `s` of `t` lists.
pub open spec fn listed(t: SymbolTable, s: int, j: int) -> u32 {
    t.scopes@[s].symbols@[j]
}

/// Every symbol but a field is listed exactly once, by the scope it
/// belongs to; a scope lists no field and no symbol of another scope.
pub open spec fn one_home(t: SymbolTable) -> bool {
    &&& forall|s: int, j: int|
        0 <= s < t.scopes@.len() && 0 <= j < t.scopes@[s].symbols@.len() ==> #[trigger] listed(t, s, j) < t.symbols@.len()
            && t.symbols@[listed(t, s, j) as int].scope == s && !(t.symbols@[listed(t, s, j) as int].kind is Field)
    &&& forall|s: int, j1: int, j2: int|
        0 <= s < t.scopes@.len() && 0 <= j1 < j2 < t.scopes@[s].symbols@.len() ==> #[trigger] listed(t, s, j1) != #[trigger] listed(t, s, j2)
    &&& forall|i: int|
        0 <= i < t.symbols@.len() && !((#[trigger] t.symbols@[i]).kind is Field) ==> t.symbols@[i].scope < t.scopes@.len() && exists|j: int|
            0 <= j < t.scopes@[t.symbols@[i].scope as int].symbols@.len() && #[trigger] listed(t, t.symbols@[i].scope as int, j) == i
}

/// `one_home` holds of `b` when it has the symbols' kinds and scopes and
/// the scope lists of `a`.
proof fn lemma_home_frame(a: SymbolTable, b: SymbolTable)
    requires
        one_home(a),
        b.symbols@.len() == a.symbols@.len(),
        forall|i: int| 0 <= i < a.symbols@.len() ==> (#[trigger] b.symbols@[i]).kind == a.symbols@[i].kind,
        forall|i: int| 0 <= i < a.symbols@.len() ==> (#[trigger] b.symbols@[i]).scope == a.symbols@[i].scope,
        b.scopes@.len() == a.scopes@.len(),
        forall|s: int| 0 <= s < a.scopes@.len() ==> (#[trigger] b.scopes@[s]).symbols@ == a.scopes@[s].symbols@,
    ensures
        one_home(b),
{
    assert forall|s: int, j: int|
        0 <= s < b.scopes@.len() && 0 <= j < b.scopes@[s].symbols@.len() implies #[trigger] listed(b, s, j) < b.symbols@.len()
            && b.symbols@[listed(b, s, j) as int].scope == s && !(b.symbols@[listed(b, s, j) as int].kind is Field) by {
        assert(b.scopes@[s].symbols@ == a.scopes@[s].symbols@);
        assert(listed(a, s, j) == listed(b, s, j));
        let x = a.symbols@[listed(a, s, j) as int];
    }
    assert forall|s: int, j1: int, j2: int|
        0 <= s < b.scopes@.len() && 0 <= j1 < j2 < b.scopes@[s].symbols@.len() implies #[trigger] listed(b, s, j1) != #[trigger] listed(b, s, j2) by {
        assert(b.scopes@[s].symbols@ == a.scopes@[s].symbols@);
        assert(listed(a, s, j1) == listed(b, s, j1));
        assert(listed(a, s, j2) == listed(b, s, j2));
    }
    assert forall|i: int| 0 <= i < b.symbols@.len() && !((#[trigger] b.symbols@[i]).kind is Field) implies b.symbols@[i].scope < b.scopes@.len() && exists|j: int|
        0 <= j < b.scopes@[b.symbols@[i].scope as int].symbols@.len() && #[trigger] listed(b, b.symbols@[i].scope as int, j) == i by {
        let x = a.symbols@[i];
        let sc = x.scope as int;
        let j = choose|j: int| 0 <= j < a.scopes@[sc].symbols@.len() && #[trigger] listed(a, sc, j) == i;
        assert(0 <= sc < a.scopes@.len());
        assert(b.scopes@[sc].symbols@ == a.scopes@[sc].symbols@);
        assert(listed(b, sc, j) == i);
    }
}

/// A symbol referenced in a scope is referenced in its parent.
pub open spec fn referenced_closed(t: SymbolTable) -> bool {
    forall|s: int, x: u32|
        0 <= s < t.scopes@.len() && #[trigger] t.scopes@[s].referenced@.contains(x) && (#[trigger] parent_of(t, s)) is Some
            ==> t.scopes@[parent_of(t, s)->0 as int].referenced@.contains(x)
}

/// The parent of scope `s` of `t`.
pub open spec fn parent_of(t: SymbolTable, s: int) -> Option<u32> {
    t.scopes@[s].parent
}

/// The `j`-th child of scope `s` of `t`.
pub open spec fn child_of(t: SymbolTable, s: int, j: int) -> u32 {
    t.scopes@[s].children@[j]
}

/// Each symbol's occurrence count is its number of entries in `t.occ`.
pub open spec fn counts_match(t: SymbolTable) -> bool {
    forall|i: int| 0 <= i < t.symbols@.len() ==> (#[trigger] t.symbols@[i]).occurrences == capped_count(occ_count(t.occ@, i))
}

/// A scope's parent lists it among its children.
pub open spec fn parents_list_children(t: SymbolTable) -> bool {
    forall|s: int|
        0 <= s < t.scopes@.len() ==> (#[trigger] parent_of(t, s) matches Some(p) ==> 0 <= p < t.scopes@.len()
            && t.scopes@[p as int].children@.contains(s as u32))
}

/// A scope listed as a child has that parent.
pub open spec fn children_have_parent(t: SymbolTable) -> bool {
    forall|s: int, j: int|
        0 <= s < t.scopes@.len() && 0 <= j < t.scopes@[s].children@.len() ==> 0 <= #[trigger] child_of(t, s, j) < t.scopes@.len()
            && t.scopes@[child_of(t, s, j) as int].parent == Some(s as u32)
}

/// How often symbol `i` occurs in `occ`.
pub open spec fn occ_count(occ: Seq<Occ>, i: int) -> nat
    decreases occ.len(),
{
    if occ.len() == 0 {
        0
    } else {
        occ_count(occ.drop_last(), i) + (if occ.last().sym == i { 1nat } else { 0nat })
    }
}

/// `n`, or the largest `u32` where `n` is larger.
pub open spec fn capped_count(n: nat) -> u32 {
    if n < u32::MAX { n as u32 } else { u32::MAX }
}

/// A symbol that does not occur in `occ` has count 0.
proof fn lemma_occ_count_absent(occ: Seq<Occ>, i: int)
    requires
        forall|k: int| 0 <= k < occ.len() ==> (#[trigger] occ[k]).sym != i,
    ensures
        occ_count(occ, i) == 0,
    decreases occ.len(),
{
    if occ.len() > 0 {
        assert(occ.last() == occ[occ.len() - 1]);
        assert forall|k: int| 0 <= k < occ.drop_last().len() implies (#[trigger] occ.drop_last()[k]).sym != i by {
            assert(occ.drop_last()[k] == occ[k]);
        }
        lemma_occ_count_absent(occ.drop_last(), i);
    }
}

/// The scope links of `b` are those of `a`.
proof fn lemma_scope_links_frame(a: SymbolTable, b: SymbolTable)
    requires
        parents_list_children(a),
        children_have_parent(a),
        forall|s: int| 0 < s < a.scopes@.len() ==> (#[trigger] parent_of(a, s)) is Some,
        b.scopes@.len() == a.scopes@.len(),
        forall|s: int| 0 <= s < a.scopes@.len() ==> (#[trigger] b.scopes@[s]).parent == a.scopes@[s].parent,
        forall|s: int| 0 <= s < a.scopes@.len() ==> (#[trigger] b.scopes@[s]).children@ == a.scopes@[s].children@,
    ensures
        parents_list_children(b),
        children_have_parent(b),
        forall|s: int| 0 < s < b.scopes@.len() ==> (#[trigger] parent_of(b, s)) is Some,
{
    assert forall|s: int| 0 < s < b.scopes@.len() implies (#[trigger] parent_of(b, s)) is Some by {
        assert(parent_of(a, s) == parent_of(b, s));
    }
    assert forall|s: int| 0 <= s < b.scopes@.len() implies (#[trigger] parent_of(b, s) matches Some(p) ==> 0 <= p < b.scopes@.len()
        && b.scopes@[p as int].children@.contains(s as u32)) by {
        assert(parent_of(a, s) == parent_of(b, s));
        if parent_of(b, s) is Some {
            let p = parent_of(b, s)->0;
            assert(b.scopes@[p as int].children@ == a.scopes@[p as int].children@);
        }
    }
    assert forall|s: int, j: int| 0 <= s < b.scopes@.len() && 0 <= j < b.scopes@[s].children@.len() implies 0
        <= #[trigger] child_of(b, s, j) < b.scopes@.len() && b.scopes@[child_of(b, s, j) as int].parent == Some(s as u32) by {
        assert(b.scopes@[s].children@ == a.scopes@[s].children@);
        assert(child_of(a, s, j) == child_of(b, s, j));
        let c = child_of(a, s, j);
        assert(b.scopes@[c as int].parent == a.scopes@[c as int].parent);
    }
}

/// Closed referenced sets stay closed when parents and sets are kept.
proof fn lemma_refs_frame(a: SymbolTable, b: SymbolTable)
    requires
        referenced_closed(a),
        parents_list_children(a),
        b.scopes@.len() == a.scopes@.len(),
        forall|s: int| 0 <= s < a.scopes@.len() ==> (#[trigger] b.scopes@[s]).parent == a.scopes@[s].parent,
        forall|s: int| 0 <= s < a.scopes@.len() ==> (#[trigger] b.scopes@[s]).referenced@ == a.scopes@[s].referenced@,
    ensures
        referenced_closed(b),
{
    assert forall|s: int, x: u32|
        0 <= s < b.scopes@.len() && #[trigger] b.scopes@[s].referenced@.contains(x) && (#[trigger] parent_of(b, s)) is Some
            implies b.scopes@[parent_of(b, s)->0 as int].referenced@.contains(x) by {
        assert(b.scopes@[s].parent == a.scopes@[s].parent);
        assert(parent_of(a, s) == parent_of(b, s));
        assert(a.scopes@[s].referenced@ == b.scopes@[s].referenced@);
        assert(a.scopes@[s].referenced@.contains(x) && parent_of(a, s) is Some);
        let p = parent_of(a, s)->0;
        assert(0 <= p < a.scopes@.len());
        assert(b.scopes@[p as int].referenced@ == a.scopes@[p as int].referenced@);
    }
}

/// Adding `x` to the referenced set of scope `c`, whose parent (if any)
/// references `x` already, keeps the links.
pub proof fn lemma_links_reference(a: SymbolTable, b: SymbolTable, c: int, x: u32)
    requires
        table_links(a),
        0 <= c < a.scopes@.len(),
        parent_of(a, c) matches Some(p) ==> a.scopes@[p as int].referenced@.contains(x),
        b.occ@ == a.occ@,
        b.symbols == a.symbols,
        b.scopes@.len() == a.scopes@.len(),
        forall|s: int| 0 <= s < a.scopes@.len() ==> (#[trigger] b.scopes@[s]).parent == a.scopes@[s].parent,
        forall|s: int| 0 <= s < a.scopes@.len() ==> (#[trigger] b.scopes@[s]).children@ == a.scopes@[s].children@,
        forall|s: int| 0 <= s < a.scopes@.len() && s != c ==> (#[trigger] b.scopes@[s]).referenced@ == a.scopes@[s].referenced@,
        b.scopes@[c].referenced@ == a.scopes@[c].referenced@.insert(x),
        forall|s: int| 0 <= s < a.scopes@.len() ==> (#[trigger] b.scopes@[s]).symbols@ == a.scopes@[s].symbols@,
    ensures
        table_links(b),
{
    reveal(table_links);
    lemma_scope_links_frame(a, b);
    lemma_home_frame(a, b);
    assert forall|i: int| 0 <= i < b.symbols@.len() implies (#[trigger] b.symbols@[i]).occurrences == capped_count(occ_count(b.occ@, i)) by {
        let y = a.symbols@[i];
    }
    assert forall|s: int, y: u32|
        0 <= s < b.scopes@.len() && #[trigger] b.scopes@[s].referenced@.contains(y) && (#[trigger] parent_of(b, s)) is Some
            implies b.scopes@[parent_of(b, s)->0 as int].referenced@.contains(y) by {
        assert(parent_of(a, s) == parent_of(b, s));
        let p = parent_of(a, s)->0;
        assert(0 <= p < a.scopes@.len());
        if s == c && y == x {
        } else {
            assert(a.scopes@[s].referenced@.contains(y));
            assert(a.scopes@[s].referenced@.contains(y) && parent_of(a, s) is Some);
            assert(a.scopes@[p as int].referenced@.contains(y));
        }
    }
}

/// The links hold of `b` when it has the counts, occurrences and scope
/// links of `a`.
pub proof fn lemma_links_frame(a: SymbolTable, b: SymbolTable)
    requires
        table_links(a),
        b.occ@ == a.occ@,
        b.symbols@.len() == a.symbols@.len(),
        forall|i: int| 0 <= i < a.symbols@.len() ==> (#[trigger] b.symbols@[i]).occurrences == a.symbols@[i].occurrences,
        b.scopes@.len() == a.scopes@.len(),
        forall|s: int| 0 <= s < a.scopes@.len() ==> (#[trigger] b.scopes@[s]).parent == a.scopes@[s].parent,
        forall|s: int| 0 <= s < a.scopes@.len() ==> (#[trigger] b.scopes@[s]).children@ == a.scopes@[s].children@,
        forall|s: int| 0 <= s < a.scopes@.len() ==> (#[trigger] b.scopes@[s]).referenced@ == a.scopes@[s].referenced@,
        forall|i: int| 0 <= i < a.symbols@.len() ==> (#[trigger] b.symbols@[i]).kind == a.symbols@[i].kind,
        forall|i: int| 0 <= i < a.symbols@.len() ==> (#[trigger] b.symbols@[i]).scope == a.symbols@[i].scope,
        forall|s: int| 0 <= s < a.scopes@.len() ==> (#[trigger] b.scopes@[s]).symbols@ == a.scopes@[s].symbols@,
    ensures
        table_links(b),
{
    reveal(table_links);
    lemma_scope_links_frame(a, b);
    lemma_refs_frame(a, b);
    lemma_home_frame(a, b);
    assert forall|i: int| 0 <= i < b.symbols@.len() implies (#[trigger] b.symbols@[i]).occurrences == capped_count(occ_count(b.occ@, i)) by {
        let x = a.symbols@[i];
    }
}

/// A new symbol that occurs nowhere keeps the links.
pub proof fn lemma_links_new_symbol(a: SymbolTable, b: SymbolTable)
    requires
        table_links(a),
        symbol_table_wf(a),
        a.symbols@.len() < 0xFFFF_FFFF,
        forall|i: int| 0 <= i < a.symbols@.len() ==> (#[trigger] b.symbols@[i]).kind == a.symbols@[i].kind,
        forall|i: int| 0 <= i < a.symbols@.len() ==> (#[trigger] b.symbols@[i]).scope == a.symbols@[i].scope,
        0 <= b.symbols@[a.symbols@.len() as int].scope < a.scopes@.len(),
        forall|s: int| 0 <= s < a.scopes@.len() && s != b.symbols@[a.symbols@.len() as int].scope ==> (#[trigger] b.scopes@[s]).symbols@
            == a.scopes@[s].symbols@,
        b.scopes@[b.symbols@[a.symbols@.len() as int].scope as int].symbols@ == (if b.symbols@[a.symbols@.len() as int].kind is Field {
            a.scopes@[b.symbols@[a.symbols@.len() as int].scope as int].symbols@
        } else {
            a.scopes@[b.symbols@[a.symbols@.len() as int].scope as int].symbols@.push(a.symbols@.len() as u32)
        }),
        b.occ@ == a.occ@,
        b.symbols@.len() == a.symbols@.len() + 1,
        forall|i: int| 0 <= i < a.symbols@.len() ==> (#[trigger] b.symbols@[i]).occurrences == a.symbols@[i].occurrences,
        b.symbols@[a.symbols@.len() as int].occurrences == 0,
        forall|k: int| 0 <= k < a.occ@.len() ==> (#[trigger] a.occ@[k]).sym < a.symbols@.len(),
        b.scopes@.len() == a.scopes@.len(),
        forall|s: int| 0 <= s < a.scopes@.len() ==> (#[trigger] b.scopes@[s]).parent == a.scopes@[s].parent,
        forall|s: int| 0 <= s < a.scopes@.len() ==> (#[trigger] b.scopes@[s]).children@ == a.scopes@[s].children@,
        forall|s: int| 0 <= s < a.scopes@.len() ==> (#[trigger] b.scopes@[s]).referenced@ == a.scopes@[s].referenced@,
    ensures
        table_links(b),
{
    reveal(table_links);
    let n = a.symbols@.len() as int;
    lemma_occ_count_absent(a.occ@, n);
    lemma_scope_links_frame(a, b);
    lemma_refs_frame(a, b);
    let hs = b.symbols@[n].scope as int;
    let grew = !(b.symbols@[n].kind is Field);
    if grew {
        assert(b.scopes@[hs].symbols@ == a.scopes@[hs].symbols@.push(n as u32));
        assert(listed(b, hs, a.scopes@[hs].symbols@.len() as int) == n);
    } else {
        assert(b.scopes@[hs].symbols@ == a.scopes@[hs].symbols@);
    }
    assert forall|s: int, j: int| 0 <= s < a.scopes@.len() && 0 <= j < a.scopes@[s].symbols@.len() implies #[trigger] listed(b, s, j)
        == listed(a, s, j) by {
        if s == hs && grew {
            assert(b.scopes@[hs].symbols@[j] == a.scopes@[hs].symbols@.push(n as u32)[j]);
        }
    }
    assert forall|s: int, j: int|
        0 <= s < b.scopes@.len() && 0 <= j < b.scopes@[s].symbols@.len() implies #[trigger] listed(b, s, j) < b.symbols@.len()
            && b.symbols@[listed(b, s, j) as int].scope == s && !(b.symbols@[listed(b, s, j) as int].kind is Field) by {
        if s == hs && j == a.scopes@[s].symbols@.len() {
            assert(listed(b, s, j) == n);
        } else {
            assert(listed(b, s, j) == listed(a, s, j));
            let x = a.symbols@[listed(a, s, j) as int];
        }
    }
    assert forall|s: int, j1: int, j2: int|
        0 <= s < b.scopes@.len() && 0 <= j1 < j2 < b.scopes@[s].symbols@.len() implies #[trigger] listed(b, s, j1) != #[trigger] listed(b, s, j2) by {
        if s == hs && j2 == a.scopes@[s].symbols@.len() {
            assert(listed(b, s, j1) == listed(a, s, j1));
            assert(listed(a, s, j1) < n);
        } else {
            assert(listed(b, s, j1) == listed(a, s, j1));
            assert(listed(b, s, j2) == listed(a, s, j2));
        }
    }
    assert forall|i: int| 0 <= i < b.symbols@.len() && !((#[trigger] b.symbols@[i]).kind is Field) implies b.symbols@[i].scope < b.scopes@.len() && exists|j: int|
        0 <= j < b.scopes@[b.symbols@[i].scope as int].symbols@.len() && #[trigger] listed(b, b.symbols@[i].scope as int, j) == i by {
        if i == n {
            assert(listed(b, hs, a.scopes@[hs].symbols@.len() as int) == n);
        } else {
            let sc = a.symbols@[i].scope as int;
            let j = choose|j: int| 0 <= j < a.scopes@[sc].symbols@.len() && #[trigger] listed(a, sc, j) == i;
            assert(listed(b, sc, j) == i);
        }
    }
    assert forall|i: int| 0 <= i < b.symbols@.len() implies (#[trigger] b.symbols@[i]).occurrences == capped_count(occ_count(b.occ@, i)) by {
        if i < n {
            let x = a.symbols@[i];
        }
    }
}

/// Counting one more occurrence of `sym` keeps the links.
pub proof fn lemma_links_bind(a: SymbolTable, b: SymbolTable, sym: int)
    requires
        table_links(a),
        0 <= sym < a.symbols@.len(),
        b.occ@.len() == a.occ@.len() + 1,
        b.occ@.drop_last() == a.occ@,
        b.occ@.last().sym == sym,
        b.symbols@.len() == a.symbols@.len(),
        forall|i: int| 0 <= i < a.symbols@.len() && i != sym ==> (#[trigger] b.symbols@[i]).occurrences == a.symbols@[i].occurrences,
        b.symbols@[sym].occurrences == (if a.symbols@[sym].occurrences < u32::MAX { (a.symbols@[sym].occurrences + 1) as u32 } else { u32::MAX }),
        b.scopes@.len() == a.scopes@.len(),
        forall|s: int| 0 <= s < a.scopes@.len() ==> (#[trigger] b.scopes@[s]).parent == a.scopes@[s].parent,
        forall|s: int| 0 <= s < a.scopes@.len() ==> (#[trigger] b.scopes@[s]).children@ == a.scopes@[s].children@,
        forall|s: int| 0 <= s < a.scopes@.len() ==> (#[trigger] b.scopes@[s]).referenced@ == a.scopes@[s].referenced@,
        forall|i: int| 0 <= i < a.symbols@.len() ==> (#[trigger] b.symbols@[i]).kind == a.symbols@[i].kind,
        forall|i: int| 0 <= i < a.symbols@.len() ==> (#[trigger] b.symbols@[i]).scope == a.symbols@[i].scope,
        forall|s: int| 0 <= s < a.scopes@.len() ==> (#[trigger] b.scopes@[s]).symbols@ == a.scopes@[s].symbols@,
    ensures
        table_links(b),
{
    reveal(table_links);
    lemma_scope_links_frame(a, b);
    lemma_refs_frame(a, b);
    lemma_home_frame(a, b);
    assert forall|i: int| 0 <= i < b.symbols@.len() implies (#[trigger] b.symbols@[i]).occurrences == capped_count(occ_count(b.occ@, i)) by {
        let x = a.symbols@[i];
        assert(occ_count(b.occ@, i) == occ_count(a.occ@, i) + (if i == sym { 1nat } else { 0nat }));
    }
}

/// A new child scope of `cur`, listed among the children of `cur`, keeps
/// the links.
pub proof fn lemma_links_push_scope(a: SymbolTable, b: SymbolTable, cur: int)
    requires
        table_links(a),
        0 <= cur < a.scopes@.len(),
        a.scopes@.len() < 0xFFFF_FFFF,
        b.occ@ == a.occ@,
        b.symbols == a.symbols,
        b.scopes@.len() == a.scopes@.len() + 1,
        forall|s: int| 0 <= s < a.scopes@.len() ==> (#[trigger] b.scopes@[s]).parent == a.scopes@[s].parent,
        forall|s: int| 0 <= s < a.scopes@.len() && s != cur ==> (#[trigger] b.scopes@[s]).children@ == a.scopes@[s].children@,
        b.scopes@[cur].children@ == a.scopes@[cur].children@.push(a.scopes@.len() as u32),
        b.scopes@[a.scopes@.len() as int].parent == Some(cur as u32),
        b.scopes@[a.scopes@.len() as int].children@.len() == 0,
        forall|s: int| 0 <= s < a.scopes@.len() ==> (#[trigger] b.scopes@[s]).referenced@ == a.scopes@[s].referenced@,
        b.scopes@[a.scopes@.len() as int].referenced@ == Set::<u32>::empty(),
        forall|s: int| 0 <= s < a.scopes@.len() ==> (#[trigger] b.scopes@[s]).symbols@ == a.scopes@[s].symbols@,
        b.scopes@[a.scopes@.len() as int].symbols@.len() == 0,
    ensures
        table_links(b),
{
    assert(one_home(b)) by {
        reveal(table_links);
        let n = a.scopes@.len() as int;
        assert forall|s: int, j: int|
            0 <= s < b.scopes@.len() && 0 <= j < b.scopes@[s].symbols@.len() implies #[trigger] listed(b, s, j) < b.symbols@.len()
                && b.symbols@[listed(b, s, j) as int].scope == s && !(b.symbols@[listed(b, s, j) as int].kind is Field) by {
            assert(s < n);
            assert(listed(a, s, j) == listed(b, s, j));
        }
        assert forall|s: int, j1: int, j2: int|
            0 <= s < b.scopes@.len() && 0 <= j1 < j2 < b.scopes@[s].symbols@.len() implies #[trigger] listed(b, s, j1) != #[trigger] listed(b, s, j2) by {
            assert(s < n);
            assert(listed(a, s, j1) == listed(b, s, j1));
            assert(listed(a, s, j2) == listed(b, s, j2));
        }
        assert forall|i: int| 0 <= i < b.symbols@.len() && !((#[trigger] b.symbols@[i]).kind is Field) implies b.symbols@[i].scope < b.scopes@.len() && exists|j: int|
            0 <= j < b.scopes@[b.symbols@[i].scope as int].symbols@.len() && #[trigger] listed(b, b.symbols@[i].scope as int, j) == i by {
            let sc = a.symbols@[i].scope as int;
            let j = choose|j: int| 0 <= j < a.scopes@[sc].symbols@.len() && #[trigger] listed(a, sc, j) == i;
            assert(listed(b, sc, j) == i);
        }
    }
    reveal(table_links);
    assert forall|s: int| 0 < s < b.scopes@.len() implies (#[trigger] parent_of(b, s)) is Some by {
        if s < a.scopes@.len() {
            assert(parent_of(a, s) == parent_of(b, s));
        }
    }
    let n = a.scopes@.len() as int;
    assert forall|s: int, x: u32|
        0 <= s < b.scopes@.len() && #[trigger] b.scopes@[s].referenced@.contains(x) && (#[trigger] parent_of(b, s)) is Some
            implies b.scopes@[parent_of(b, s)->0 as int].referenced@.contains(x) by {
        if s < n {
            assert(a.scopes@[s].referenced@.contains(x));
            assert(parent_of(a, s) == parent_of(b, s));
            assert(parent_of(a, s) is Some && a.scopes@[s].referenced@.contains(x));
            let p = parent_of(a, s)->0;
            assert(0 <= p < n);
        }
    }
    assert forall|i: int| 0 <= i < b.symbols@.len() implies (#[trigger] b.symbols@[i]).occurrences == capped_count(occ_count(b.occ@, i)) by {
        let x = a.symbols@[i];
    }
    assert forall|s: int| 0 <= s < b.scopes@.len() implies (#[trigger] parent_of(b, s) matches Some(p) ==> 0 <= p < b.scopes@.len()
        && b.scopes@[p as int].children@.contains(s as u32)) by {
        if s == n {
            assert(b.scopes@[cur].children@[a.scopes@[cur].children@.len() as int] == n as u32);
        } else {
            assert(parent_of(a, s) == parent_of(b, s));
            if parent_of(b, s) is Some {
                let p = parent_of(b, s)->0;
                let y = a.scopes@[p as int].children@;
                assert(y.contains(s as u32));
                let k = choose|k: int| 0 <= k < y.len() && y[k] == s as u32;
                assert(b.scopes@[p as int].children@[k] == s as u32);
            }
        }
    }
    assert forall|s: int, j: int| 0 <= s < b.scopes@.len() && 0 <= j < b.scopes@[s].children@.len() implies 0
        <= #[trigger] child_of(b, s, j) < b.scopes@.len() && b.scopes@[child_of(b, s, j) as int].parent == Some(s as u32) by {
        if s < n {
            if s == cur && j == a.scopes@[cur].children@.len() {
                assert(child_of(b, s, j) == n as u32);
            } else {
                assert(child_of(b, s, j) == child_of(a, s, j));
                let c = child_of(a, s, j);
                assert(b.scopes@[c as int].parent == a.scopes@[c as int].parent);
            }
        }
    }
}

/// Every symbol a struct lists as a member was declared as a field.
pub open spec fn members_declared_as_fields(t: SymbolTable) -> bool {
    forall|d: int, j: int|
        0 <= d < t.structs@.len() && 0 <= j < t.structs@[d].fields@.len() && t.structs@[d].fields@[j] < t.symbols@.len()
            ==> (#[trigger] t.symbols@[t.structs@[d].fields@[j] as int]).kind is Field
}

/// The name symbol `i` is printed with.
pub open spec fn printed_name(table: SymbolTable, i: int) -> Seq<char> {
    match table.symbols@[i].new_name {
        Some(n) => n@,
        None => table.symbols@[i].name@,
    }
}

/// No symbol has a new name yet.
pub open spec fn unassigned(t: SymbolTable) -> bool {
    forall|i: int| 0 <= i < t.symbols@.len() ==> (#[trigger] t.symbols@[i]).new_name is None
}

/// Every symbol of `t` that must keep its name is pinned.
pub open spec fn pins_kept_names(t: SymbolTable) -> bool {
    forall|i: int|
        0 <= i < t.symbols@.len() && must_keep_name(#[trigger] t.symbols@[i], t.pinned_names@, t.pinned_field_names@)
            ==> t.symbols@[i].pinned is Some
}

impl SymbolTable {
    /// The name symbol `id` is printed with: its new name, or its original one.
    pub fn new_name_or_original(&self, id: SymbolId) -> (r: &str)
        requires
            id < self.symbols@.len(),
        ensures
            r@ == printed_name(*self, id as int),
            r@ == (match self.symbols@[id as int].new_name {
                Some(n) => n@,
                None => self.symbols@[id as int].name@,
            }),
    {
        let s = &self.symbols[id as usize];
        match &s.new_name {
            Some(n) => n.as_str(),
            None => s.name.as_str(),
        }
    }
}


/// What a `.member` selector is applied to.
#[derive(Debug, Clone, Copy, PartialEq, Eq, Structural)]
enum Base {
    Struct(StructId),
    /// A builtin type: the selector is a swizzle or a builtin member.
    NotStruct,
    Unknown,
}

/// Copy of a text as a `String`.
fn owned(s: &str) -> (r: String)
    ensures
        r@ == s@,
{
    string_of(chars_of(s).as_slice())
}

/// The resolver's only failures: more symbols than placeholders can
/// address, or more scopes or struct types than a 32-bit index holds.
pub open spec fn limit_error(e: CrushError) -> bool {
    ||| e matches CrushError::TooManySymbols(n) && n == SENTINEL_MAX - SENTINEL_BASE + 1
    ||| e matches CrushError::Unsupported(m) && (m@ == "too many scopes"@ || m@ == "too many structs"@)
}

fn fail_unsupported(msg: &str) -> (e: CrushError)
    ensures
        e matches CrushError::Unsupported(m) && m@ == msg@,
{
    CrushError::Unsupported(owned(msg))
}

struct Resolver {
    t: SymbolTable,
    cur: ScopeId,
    scope_names: Vec<NameMap>,
    field_names: Vec<NameMap>,
    use_sites: Vec<(SymbolId, ScopeId)>,
}

impl Resolver {
    /// The symbol `name` binds to when looked up from `scope` outwards, with
    /// at most `fuel` scopes visited.
    spec fn lookup_from(&self, scope: Option<ScopeId>, name: Seq<char>, fuel: nat) -> Option<SymbolId>
        decreases fuel,
    {
        if fuel == 0 {
            None
        } else {
            match scope {
                None => None,
                Some(id) => if id >= self.scope_names@.len() || id >= self.t.scopes@.len() {
                    None
                } else {
                    match self.scope_names@[id as int].spec_get(name) {
                        Some(s) => if s <= SENTINEL_MAX - SENTINEL_BASE {
                            Some(s)
                        } else {
                            None
                        },
                        None => self.lookup_from(self.t.scopes@[id as int].parent, name, (fuel - 1) as nat),
                    }
                },
            }
        }
    }

    /// The symbol `name` binds to from the current scope: the innermost
    /// enclosing scope that declares it.
    spec fn lookup_spec(&self, name: Seq<char>) -> Option<SymbolId> {
        self.lookup_from(Some(self.cur), name, self.t.scopes@.len())
    }

    /// The table is well formed, the name maps line up with it and hold
    /// only its symbols, and the current scope and use sites point into it.
    spec fn inv(&self) -> bool {
        &&& symbol_table_wf(self.t)
        &&& self.t.symbols@.len() <= SENTINEL_MAX - SENTINEL_BASE + 1
        &&& self.scope_names@.len() == self.t.scopes@.len()
        &&& self.field_names@.len() == self.t.structs@.len()
        &&& self.cur < self.t.scopes@.len()
        &&& forall|s: int, n: Seq<char>|
            0 <= s < self.scope_names@.len() ==> (#[trigger] self.scope_names@[s].spec_get(n) matches Some(id) ==> id
                < self.t.symbols@.len() && self.t.symbols@[id as int].name@ == n)
        &&& forall|d: int, n: Seq<char>|
            0 <= d < self.field_names@.len() ==> (#[trigger] self.field_names@[d].spec_get(n) matches Some(id) ==> id
                < self.t.symbols@.len() && self.t.symbols@[id as int].name@ == n)
        &&& forall|k: int|
            0 <= k < self.use_sites@.len() ==> (#[trigger] self.use_sites@[k]).0 < self.t.symbols@.len()
                && self.use_sites@[k].1 < self.t.scopes@.len()
        &&& members_declared_as_fields(self.t)
    }
}

/// The symbols of `b` extend those of `a`: every symbol of `a` is in `b`
/// under the same name.
pub open spec fn extends(a: SymbolTable, b: SymbolTable) -> bool {
    &&& a.symbols@.len() <= b.symbols@.len()
    &&& forall|i: int| 0 <= i < a.symbols@.len() ==> (#[trigger] b.symbols@[i]).name@ == a.symbols@[i].name@
}

/// Extending is transitive.
pub broadcast proof fn lemma_extends_trans(a: SymbolTable, b: SymbolTable, c: SymbolTable)
    requires
        extends(a, b),
        extends(b, c),
    ensures
        #![trigger extends(a, b), extends(b, c)]
        extends(a, c),
{
    assert forall|i: int| 0 <= i < a.symbols@.len() implies (#[trigger] c.symbols@[i]).name@ == a.symbols@[i].name@ by {
        assert(b.symbols@[i].name@ == a.symbols@[i].name@);
    }
}

pub proof fn lemma_extends_refl(a: SymbolTable)
    ensures
        extends(a, a),
{
}

/// The name `b` stands for `a`, for every table that extends `t`.
pub open spec fn binds_name(a: Seq<char>, b: Seq<char>, t: SymbolTable) -> bool {
    forall|t2: SymbolTable| extends(t, t2) ==> #[trigger] walked_name(a, b, NameRel::Bind(t2))
}

/// The expression `b` is `a` with names bound, for every table that
/// extends `t`.
pub open spec fn binds_expr(a: Expr, b: Expr, t: SymbolTable) -> bool {
    forall|t2: SymbolTable| extends(t, t2) ==> #[trigger] walked_expr(a, b, NameRel::Bind(t2))
}

pub open spec fn binds_array(a: ArraySpecifier, b: ArraySpecifier, t: SymbolTable) -> bool {
    forall|t2: SymbolTable| extends(t, t2) ==> #[trigger] walked_array(a, b, NameRel::Bind(t2))
}

pub open spec fn binds_dim(a: ArraySpecifierDimension, b: ArraySpecifierDimension, t: SymbolTable) -> bool {
    forall|t2: SymbolTable| extends(t, t2) ==> #[trigger] walked_dim(a, b, NameRel::Bind(t2))
}

pub open spec fn binds_opt_array(a: Option<ArraySpecifier>, b: Option<ArraySpecifier>, t: SymbolTable) -> bool {
    forall|t2: SymbolTable| extends(t, t2) ==> #[trigger] walked_opt_array(a, b, NameRel::Bind(t2))
}

pub open spec fn binds_qualifier(a: TypeQualifier, b: TypeQualifier, t: SymbolTable) -> bool {
    forall|t2: SymbolTable| extends(t, t2) ==> #[trigger] walked_qualifier(a, b, NameRel::Bind(t2))
}

pub open spec fn binds_field(a: StructFieldSpecifier, b: StructFieldSpecifier, t: SymbolTable) -> bool {
    forall|t2: SymbolTable| extends(t, t2) ==> #[trigger] walked_field(a, b, NameRel::Bind(t2))
}

pub open spec fn binds_type(a: TypeSpecifier, b: TypeSpecifier, t: SymbolTable) -> bool {
    forall|t2: SymbolTable| extends(t, t2) ==> #[trigger] walked_type(a, b, NameRel::Bind(t2))
}

pub open spec fn binds_prototype(a: FunctionPrototype, b: FunctionPrototype, t: SymbolTable) -> bool {
    forall|t2: SymbolTable| extends(t, t2) ==> #[trigger] walked_prototype(a, b, NameRel::Bind(t2))
}

pub open spec fn binds_init(a: Initializer, b: Initializer, t: SymbolTable) -> bool {
    forall|t2: SymbolTable| extends(t, t2) ==> #[trigger] walked_init(a, b, NameRel::Bind(t2))
}

pub open spec fn binds_declaration(a: Declaration, b: Declaration, t: SymbolTable) -> bool {
    forall|t2: SymbolTable| extends(t, t2) ==> #[trigger] walked_declaration(a, b, NameRel::Bind(t2))
}

pub open spec fn binds_condition(a: Condition, b: Condition, t: SymbolTable) -> bool {
    forall|t2: SymbolTable| extends(t, t2) ==> #[trigger] walked_condition(a, b, NameRel::Bind(t2))
}

pub open spec fn binds_statement(a: Statement, b: Statement, t: SymbolTable) -> bool {
    forall|t2: SymbolTable| extends(t, t2) ==> #[trigger] walked_statement(a, b, NameRel::Bind(t2))
}

pub open spec fn binds_simple(a: SimpleStatement, b: SimpleStatement, t: SymbolTable) -> bool {
    forall|t2: SymbolTable| extends(t, t2) ==> #[trigger] walked_simple(a, b, NameRel::Bind(t2))
}

pub open spec fn binds_external(a: ExternalDeclaration, b: ExternalDeclaration, t: SymbolTable) -> bool {
    forall|t2: SymbolTable| extends(t, t2) ==> #[trigger] walked_external(a, b, NameRel::Bind(t2))
}

pub open spec fn binds_unit(a: TranslationUnit, b: TranslationUnit, t: SymbolTable) -> bool {
    forall|t2: SymbolTable| extends(t, t2) ==> #[trigger] walked_unit(a, b, NameRel::Bind(t2))
}

proof fn lemma_binds_name_lift(a: Seq<char>, b: Seq<char>, t1: SymbolTable, t2: SymbolTable)
    requires
        binds_name(a, b, t1),
        extends(t1, t2),
    ensures
        binds_name(a, b, t2),
{
    assert forall|t3: SymbolTable| extends(t2, t3) implies #[trigger] walked_name(a, b, NameRel::Bind(t3)) by {
        lemma_extends_trans(t1, t2, t3);
    }
}

proof fn lemma_binds_expr_lift(a: Expr, b: Expr, t1: SymbolTable, t2: SymbolTable)
    requires
        binds_expr(a, b, t1),
        extends(t1, t2),
    ensures
        binds_expr(a, b, t2),
{
    assert forall|t3: SymbolTable| extends(t2, t3) implies #[trigger] walked_expr(a, b, NameRel::Bind(t3)) by {
        lemma_extends_trans(t1, t2, t3);
    }
}

proof fn lemma_binds_array_lift(a: ArraySpecifier, b: ArraySpecifier, t1: SymbolTable, t2: SymbolTable)
    requires
        binds_array(a, b, t1),
        extends(t1, t2),
    ensures
        binds_array(a, b, t2),
{
    assert forall|t3: SymbolTable| extends(t2, t3) implies #[trigger] walked_array(a, b, NameRel::Bind(t3)) by {
        lemma_extends_trans(t1, t2, t3);
    }
}

proof fn lemma_binds_dim_lift(a: ArraySpecifierDimension, b: ArraySpecifierDimension, t1: SymbolTable, t2: SymbolTable)
    requires
        binds_dim(a, b, t1),
        extends(t1, t2),
    ensures
        binds_dim(a, b, t2),
{
    assert forall|t3: SymbolTable| extends(t2, t3) implies #[trigger] walked_dim(a, b, NameRel::Bind(t3)) by {
        lemma_extends_trans(t1, t2, t3);
    }
}

proof fn lemma_binds_opt_array_lift(a: Option<ArraySpecifier>, b: Option<ArraySpecifier>, t1: SymbolTable, t2: SymbolTable)
    requires
        binds_opt_array(a, b, t1),
        extends(t1, t2),
    ensures
        binds_opt_array(a, b, t2),
{
    assert forall|t3: SymbolTable| extends(t2, t3) implies #[trigger] walked_opt_array(a, b, NameRel::Bind(t3)) by {
        lemma_extends_trans(t1, t2, t3);
    }
}

proof fn lemma_binds_qualifier_lift(a: TypeQualifier, b: TypeQualifier, t1: SymbolTable, t2: SymbolTable)
    requires
        binds_qualifier(a, b, t1),
        extends(t1, t2),
    ensures
        binds_qualifier(a, b, t2),
{
    assert forall|t3: SymbolTable| extends(t2, t3) implies #[trigger] walked_qualifier(a, b, NameRel::Bind(t3)) by {
        lemma_extends_trans(t1, t2, t3);
    }
}

proof fn lemma_binds_field_lift(a: StructFieldSpecifier, b: StructFieldSpecifier, t1: SymbolTable, t2: SymbolTable)
    requires
        binds_field(a, b, t1),
        extends(t1, t2),
    ensures
        binds_field(a, b, t2),
{
    assert forall|t3: SymbolTable| extends(t2, t3) implies #[trigger] walked_field(a, b, NameRel::Bind(t3)) by {
        lemma_extends_trans(t1, t2, t3);
    }
}

proof fn lemma_binds_type_lift(a: TypeSpecifier, b: TypeSpecifier, t1: SymbolTable, t2: SymbolTable)
    requires
        binds_type(a, b, t1),
        extends(t1, t2),
    ensures
        binds_type(a, b, t2),
{
    assert forall|t3: SymbolTable| extends(t2, t3) implies #[trigger] walked_type(a, b, NameRel::Bind(t3)) by {
        lemma_extends_trans(t1, t2, t3);
    }
}

proof fn lemma_binds_prototype_lift(a: FunctionPrototype, b: FunctionPrototype, t1: SymbolTable, t2: SymbolTable)
    requires
        binds_prototype(a, b, t1),
        extends(t1, t2),
    ensures
        binds_prototype(a, b, t2),
{
    assert forall|t3: SymbolTable| extends(t2, t3) implies #[trigger] walked_prototype(a, b, NameRel::Bind(t3)) by {
        lemma_extends_trans(t1, t2, t3);
    }
}

proof fn lemma_binds_init_lift(a: Initializer, b: Initializer, t1: SymbolTable, t2: SymbolTable)
    requires
        binds_init(a, b, t1),
        extends(t1, t2),
    ensures
        binds_init(a, b, t2),
{
    assert forall|t3: SymbolTable| extends(t2, t3) implies #[trigger] walked_init(a, b, NameRel::Bind(t3)) by {
        lemma_extends_trans(t1, t2, t3);
    }
}

proof fn lemma_binds_declaration_lift(a: Declaration, b: Declaration, t1: SymbolTable, t2: SymbolTable)
    requires
        binds_declaration(a, b, t1),
        extends(t1, t2),
    ensures
        binds_declaration(a, b, t2),
{
    assert forall|t3: SymbolTable| extends(t2, t3) implies #[trigger] walked_declaration(a, b, NameRel::Bind(t3)) by {
        lemma_extends_trans(t1, t2, t3);
    }
}

proof fn lemma_binds_condition_lift(a: Condition, b: Condition, t1: SymbolTable, t2: SymbolTable)
    requires
        binds_condition(a, b, t1),
        extends(t1, t2),
    ensures
        binds_condition(a, b, t2),
{
    assert forall|t3: SymbolTable| extends(t2, t3) implies #[trigger] walked_condition(a, b, NameRel::Bind(t3)) by {
        lemma_extends_trans(t1, t2, t3);
    }
}

proof fn lemma_binds_statement_lift(a: Statement, b: Statement, t1: SymbolTable, t2: SymbolTable)
    requires
        binds_statement(a, b, t1),
        extends(t1, t2),
    ensures
        binds_statement(a, b, t2),
{
    assert forall|t3: SymbolTable| extends(t2, t3) implies #[trigger] walked_statement(a, b, NameRel::Bind(t3)) by {
        lemma_extends_trans(t1, t2, t3);
    }
}

proof fn lemma_binds_simple_lift(a: SimpleStatement, b: SimpleStatement, t1: SymbolTable, t2: SymbolTable)
    requires
        binds_simple(a, b, t1),
        extends(t1, t2),
    ensures
        binds_simple(a, b, t2),
{
    assert forall|t3: SymbolTable| extends(t2, t3) implies #[trigger] walked_simple(a, b, NameRel::Bind(t3)) by {
        lemma_extends_trans(t1, t2, t3);
    }
}

proof fn lemma_binds_external_lift(a: ExternalDeclaration, b: ExternalDeclaration, t1: SymbolTable, t2: SymbolTable)
    requires
        binds_external(a, b, t1),
        extends(t1, t2),
    ensures
        binds_external(a, b, t2),
{
    assert forall|t3: SymbolTable| extends(t2, t3) implies #[trigger] walked_external(a, b, NameRel::Bind(t3)) by {
        lemma_extends_trans(t1, t2, t3);
    }
}

proof fn lemma_binds_unit_lift(a: TranslationUnit, b: TranslationUnit, t1: SymbolTable, t2: SymbolTable)
    requires
        binds_unit(a, b, t1),
        extends(t1, t2),
    ensures
        binds_unit(a, b, t2),
{
    assert forall|t3: SymbolTable| extends(t2, t3) implies #[trigger] walked_unit(a, b, NameRel::Bind(t3)) by {
        lemma_extends_trans(t1, t2, t3);
    }
}

/// The declared name `b` stands for `a`, for every table that extends `t`.
pub open spec fn binds_decl_name(a: Seq<char>, b: Seq<char>, t: SymbolTable) -> bool {
    forall|t2: SymbolTable| extends(t, t2) ==> #[trigger] walked_decl_name(a, b, NameRel::Bind(t2))
}

pub open spec fn binds_param(a: FunctionParameterDeclaration, b: FunctionParameterDeclaration, t: SymbolTable) -> bool {
    forall|t2: SymbolTable| extends(t, t2) ==> #[trigger] walked_param(a, b, NameRel::Bind(t2))
}

proof fn lemma_binds_param_lift(a: FunctionParameterDeclaration, b: FunctionParameterDeclaration, t1: SymbolTable, t2: SymbolTable)
    requires
        binds_param(a, b, t1),
        extends(t1, t2),
    ensures
        binds_param(a, b, t2),
{
    assert forall|t3: SymbolTable| extends(t2, t3) implies #[trigger] walked_param(a, b, NameRel::Bind(t3)) by {
        lemma_extends_trans(t1, t2, t3);
    }
}

pub open spec fn binds_tail_item(a: SingleDeclarationNoType, b: SingleDeclarationNoType, t: SymbolTable) -> bool {
    forall|t2: SymbolTable| extends(t, t2) ==> #[trigger] walked_tail_item(a, b, NameRel::Bind(t2))
}

proof fn lemma_binds_tail_item_lift(a: SingleDeclarationNoType, b: SingleDeclarationNoType, t1: SymbolTable, t2: SymbolTable)
    requires
        binds_tail_item(a, b, t1),
        extends(t1, t2),
    ensures
        binds_tail_item(a, b, t2),
{
    assert forall|t3: SymbolTable| extends(t2, t3) implies #[trigger] walked_tail_item(a, b, NameRel::Bind(t3)) by {
        lemma_extends_trans(t1, t2, t3);
    }
}

pub open spec fn binds_arrayed(a: ArrayedIdentifier, b: ArrayedIdentifier, t: SymbolTable) -> bool {
    forall|t2: SymbolTable| extends(t, t2) ==> #[trigger] walked_arrayed(a, b, NameRel::Bind(t2))
}

proof fn lemma_binds_arrayed_lift(a: ArrayedIdentifier, b: ArrayedIdentifier, t1: SymbolTable, t2: SymbolTable)
    requires
        binds_arrayed(a, b, t1),
        extends(t1, t2),
    ensures
        binds_arrayed(a, b, t2),
{
    assert forall|t3: SymbolTable| extends(t2, t3) implies #[trigger] walked_arrayed(a, b, NameRel::Bind(t3)) by {
        lemma_extends_trans(t1, t2, t3);
    }
}

pub open spec fn binds_layout(a: LayoutQualifierSpec, b: LayoutQualifierSpec, t: SymbolTable) -> bool {
    forall|t2: SymbolTable| extends(t, t2) ==> #[trigger] walked_layout(a, b, NameRel::Bind(t2))
}

proof fn lemma_binds_layout_lift(a: LayoutQualifierSpec, b: LayoutQualifierSpec, t1: SymbolTable, t2: SymbolTable)
    requires
        binds_layout(a, b, t1),
        extends(t1, t2),
    ensures
        binds_layout(a, b, t2),
{
    assert forall|t3: SymbolTable| extends(t2, t3) implies #[trigger] walked_layout(a, b, NameRel::Bind(t3)) by {
        lemma_extends_trans(t1, t2, t3);
    }
}

pub open spec fn binds_qspec(a: TypeQualifierSpec, b: TypeQualifierSpec, t: SymbolTable) -> bool {
    forall|t2: SymbolTable| extends(t, t2) ==> #[trigger] walked_qspec(a, b, NameRel::Bind(t2))
}

proof fn lemma_binds_qspec_lift(a: TypeQualifierSpec, b: TypeQualifierSpec, t1: SymbolTable, t2: SymbolTable)
    requires
        binds_qspec(a, b, t1),
        extends(t1, t2),
    ensures
        binds_qspec(a, b, t2),
{
    assert forall|t3: SymbolTable| extends(t2, t3) implies #[trigger] walked_qspec(a, b, NameRel::Bind(t3)) by {
        lemma_extends_trans(t1, t2, t3);
    }
}

/// A `subroutine` storage qualifier.
pub open spec fn is_subroutine_qualifier(q: TypeQualifierSpec) -> bool {
    q matches TypeQualifierSpec::Storage(StorageQualifier::Subroutine(_))
}

/// Some qualifier of `q` is `subroutine`.
pub open spec fn spec_has_subroutine(q: Option<TypeQualifier>) -> bool {
    q is Some && exists|k: int| 0 <= k < q->Some_0.qualifiers.0@.len() && is_subroutine_qualifier(
        #[trigger] q->Some_0.qualifiers.0@[k],
    )
}

/// What the type of symbol `id` says of a selection on it.
spec fn spec_symbol_base(t: SymbolTable, id: SymbolId) -> Base {
    if id >= t.symbols@.len() {
        Base::Unknown
    } else {
        match t.symbols@[id as int].ty {
            TypeRef::UserStruct(d) => Base::Struct(d),
            TypeRef::Builtin => Base::NotStruct,
            TypeRef::Opaque => Base::Unknown,
        }
    }
}

/// What an expression's type says of a selection on it: a struct of the
/// table, a builtin type, or not known.
spec fn spec_classify(t: SymbolTable, e: Expr) -> Base
    decreases e,
{
    match e {
        Expr::Variable(s) => match spec_sentinel_id(s.0@) {
            Some(id) => spec_symbol_base(t, id),
            None => if spec_is_reserved(s.0@) {
                Base::NotStruct
            } else {
                Base::Unknown
            },
        },
        Expr::IntConst(_) | Expr::UIntConst(_) | Expr::BoolConst(_) | Expr::FloatConst(_) | Expr::DoubleConst(_)
        | Expr::Unary(..) | Expr::Binary(..) | Expr::PostInc(_) | Expr::PostDec(_) => Base::NotStruct,
        Expr::Bracket(inner, _) => spec_classify(t, *inner),
        Expr::Dot(inner, f) => match spec_classify(t, *inner) {
            Base::Struct(_) => match spec_sentinel_id(f.0@) {
                Some(id) => spec_symbol_base(t, id),
                None => Base::NotStruct,
            },
            Base::NotStruct => Base::NotStruct,
            Base::Unknown => Base::Unknown,
        },
        Expr::FunCall(FunIdentifier::Identifier(s), _) => match spec_sentinel_id(s.0@) {
            Some(id) => spec_symbol_base(t, id),
            None => if spec_is_keyword(s.0@) || spec_is_builtin_function(s.0@) {
                Base::NotStruct
            } else {
                Base::Unknown
            },
        },
        Expr::FunCall(FunIdentifier::Expr(inner), _) => match *inner {
            Expr::Bracket(b, _) => match *b {
                Expr::Variable(s) => match spec_sentinel_id(s.0@) {
                    Some(id) => spec_symbol_base(t, id),
                    None => if spec_is_keyword(s.0@) {
                        Base::NotStruct
                    } else {
                        Base::Unknown
                    },
                },
                _ => Base::Unknown,
            },
            Expr::Dot(..) => Base::NotStruct,
            _ => Base::Unknown,
        },
        Expr::Ternary(_, a, b) => match (spec_classify(t, *a), spec_classify(t, *b)) {
            (Base::Struct(x), Base::Struct(y)) => if x == y {
                Base::Struct(x)
            } else {
                Base::Unknown
            },
            (Base::NotStruct, Base::NotStruct) => Base::NotStruct,
            _ => Base::Unknown,
        },
        Expr::Assignment(l, _, _) => spec_classify(t, *l),
        Expr::Comma(_, b) => spec_classify(t, *b),
    }
}

/// `b` has at least the symbols, scopes and structs of `a`.
spec fn grows(a: Resolver, b: Resolver) -> bool {
    &&& extends(a.t, b.t)
    &&& a.t.symbols@.len() <= b.t.symbols@.len()
    &&& a.t.scopes@.len() <= b.t.scopes@.len()
    &&& a.t.structs@.len() <= b.t.structs@.len()
}

impl Resolver {
    fn new(prot: &Protection) -> (r: Resolver)
        ensures
            r.inv(),
            unassigned(r.t),
            r.t.pinned_names@ == prot.names@,
    {
        let mut scopes: Vec<Scope> = Vec::new();
        scopes.push(Scope {
            parent: None,
            kind: ScopeKind::Global,
            symbols: Vec::new(),
            children: Vec::new(),
            referenced: IdSet::new(),
        });
        let mut scope_names: Vec<NameMap> = Vec::new();
        scope_names.push(NameMap::new());
        let r = Resolver {
            t: SymbolTable {
                symbols: Vec::new(),
                scopes,
                structs: Vec::new(),
                occ: Vec::new(),
                pinned_names: prot.names.copy(),
                pinned_field_names: prot.field_names.copy(),
            },
            cur: 0,
            scope_names,
            field_names: Vec::new(),
            use_sites: Vec::new(),
        };
        proof {
            reveal(table_links);
            assert(r.t.scopes@.len() == 1);
            assert(r.t.scopes@[0].parent is None);
            assert(r.t.scopes@[0].children@.len() == 0);
        }
        r
    }

    fn push_scope(&mut self, kind: ScopeKind) -> (r: Result<(), CrushError>)
        requires
            unassigned(old(self).t),
            old(self).inv(),
        ensures
            r is Err <==> old(self).t.scopes@.len() >= 0xFFFF_FFFF,
            r is Ok ==> final(self).t.scopes@.len() == old(self).t.scopes@.len() + 1 && final(self).cur
                == old(self).t.scopes@.len() && final(self).t.scopes@[final(self).cur as int].parent == Some(old(self).cur)
                && final(self).t.scopes@[final(self).cur as int].kind == kind && final(self).t.symbols == old(self).t.symbols,
            r is Err ==> *final(self) == *old(self),
            unassigned(final(self).t),
            final(self).inv(),
            grows(*old(self), *final(self)),
            old(self).t.pinned_names@.subset_of(final(self).t.pinned_names@),
            r matches Err(e) ==> limit_error(e),
    {
        if self.t.scopes.len() >= 0xFFFF_FFFF {
            return Err(fail_unsupported("too many scopes"));
        }
        let id = self.t.scopes.len() as ScopeId;
        let ghost t_in = self.t;
        let ghost cur_in = self.cur;
        self.t.scopes.push(Scope {
            parent: Some(self.cur),
            kind,
            symbols: Vec::new(),
            children: Vec::new(),
            referenced: IdSet::new(),
        });
        self.scope_names.push(NameMap::new());
        if (self.cur as usize) < self.t.scopes.len() {
            self.t.scopes[self.cur as usize].children.push(id);
        }
        proof {
            lemma_links_push_scope(t_in, self.t, cur_in as int);
        }
        self.cur = id;
        Ok(())
    }

    fn pop_scope(&mut self)
        requires
            unassigned(old(self).t),
            old(self).inv(),
        ensures
            final(self).t == old(self).t,
            final(self).cur == (match old(self).t.scopes@[old(self).cur as int].parent {
                Some(p) => p,
                None => old(self).cur,
            }),
            unassigned(final(self).t),
            final(self).inv(),
            grows(*old(self), *final(self)),
            old(self).t.pinned_names@.subset_of(final(self).t.pinned_names@),
    {
        if (self.cur as usize) < self.t.scopes.len() {
            match self.t.scopes[self.cur as usize].parent {
                Some(p) => self.cur = p,
                None => {},
            }
        }
    }

    fn new_struct(&mut self) -> (r: Result<StructId, CrushError>)
        requires
            unassigned(old(self).t),
            old(self).inv(),
        ensures
            r matches Ok(d) ==> d < final(self).t.structs@.len(),
            final(self).cur == old(self).cur,
            unassigned(final(self).t),
            final(self).inv(),
            grows(*old(self), *final(self)),
            old(self).t.pinned_names@.subset_of(final(self).t.pinned_names@),
            r matches Err(e) ==> limit_error(e),
    {
        if self.t.structs.len() >= 0xFFFF_FFFF {
            return Err(fail_unsupported("too many structs"));
        }
        let ghost t_in = self.t;
        self.t.structs.push(StructDef { type_symbol: None, fields: Vec::new() });
        self.field_names.push(NameMap::new());
        proof {
            lemma_links_frame(t_in, self.t);
        }
        Ok((self.t.structs.len() - 1) as StructId)
    }

    fn pin(&mut self, id: SymbolId, reason: PinReason)
        requires
            unassigned(old(self).t),
            old(self).inv(),
        ensures
            final(self).t.symbols@.len() == old(self).t.symbols@.len(),
            forall|j: int| 0 <= j < old(self).t.symbols@.len() && j != id ==> final(self).t.symbols@[j] == old(self).t.symbols@[j],
            id < old(self).t.symbols@.len() ==> final(self).t.symbols@[id as int].pinned == (if old(self).t.symbols@[id as int].pinned is None {
                Some(reason)
            } else {
                old(self).t.symbols@[id as int].pinned
            }),
            id < old(self).t.symbols@.len() ==> final(self).t.symbols@[id as int] == (Symbol {
                pinned: final(self).t.symbols@[id as int].pinned,
                ..old(self).t.symbols@[id as int]
            }),
            final(self).cur == old(self).cur,
            unassigned(final(self).t),
            final(self).inv(),
            grows(*old(self), *final(self)),
            old(self).t.pinned_names@.subset_of(final(self).t.pinned_names@),
    {
        let ghost t_in = self.t;
        if (id as usize) < self.t.symbols.len() && self.t.symbols[id as usize].pinned.is_none() {
            self.t.symbols[id as usize].pinned = Some(reason);
        }
        proof {
            lemma_links_frame(t_in, self.t);
        }
    }

    fn new_symbol(&mut self, name: &str, kind: SymbolKind, scope: ScopeId, ty: TypeRef) -> (r: Result<SymbolId, CrushError>)
        requires
            unassigned(old(self).t),
            old(self).inv(),
            scope < old(self).t.scopes@.len(),
            valid_kind(old(self).t, kind),
            valid_ty(old(self).t, ty),
        ensures
            r matches Ok(id) ==> id == old(self).t.symbols@.len() && id < final(self).t.symbols@.len()
                && final(self).t.symbols@[id as int].name@ == name@,
            r matches Ok(id) ==> final(self).t.symbols@[id as int].kind == kind,
            final(self).cur == old(self).cur,
            final(self).use_sites == old(self).use_sites,
            final(self).t.occ == old(self).t.occ,
            unassigned(final(self).t),
            final(self).inv(),
            grows(*old(self), *final(self)),
            old(self).t.pinned_names@.subset_of(final(self).t.pinned_names@),
            r matches Err(e) ==> limit_error(e),
            r matches Ok(id) ==> id <= SENTINEL_MAX - SENTINEL_BASE,
            final(self).scope_names == old(self).scope_names,
            final(self).field_names == old(self).field_names,
            kind is Field ==> final(self).t.scopes == old(self).t.scopes,
            final(self).t.scopes@.len() == old(self).t.scopes@.len(),
            final(self).t.structs == old(self).t.structs,
    {
        let n = self.t.symbols.len();
        if n > (SENTINEL_MAX - SENTINEL_BASE) as usize {
            return Err(CrushError::TooManySymbols(n));
        }
        let id = n as u32;
        let ghost t_in = self.t;
        self.t.symbols.push(Symbol {
            name: owned(name),
            kind,
            scope,
            ty,
            pinned: None,
            occurrences: 0,
            new_name: None,
        });
        let is_field = match kind {
            SymbolKind::Field(_) => true,
            _ => false,
        };
        if !is_field {
            self.t.scopes[scope as usize].symbols.push(id);
        }
        proof {
            lemma_links_new_symbol(t_in, self.t);
        }
        Ok(id)
    }

    /// Declare `name` in `scope`; a redeclaration in the same scope
    /// (prototype and definition, overloads, `#if` duplicates) yields the
    /// existing symbol.
    fn declare(&mut self, scope: ScopeId, name: &str, kind: SymbolKind, ty: TypeRef) -> (r: Result<SymbolId, CrushError>)
        requires
            unassigned(old(self).t),
            old(self).inv(),
            scope < old(self).t.scopes@.len(),
            valid_kind(old(self).t, kind),
            valid_ty(old(self).t, ty),
        ensures
            r matches Ok(id) ==> id < final(self).t.symbols@.len() && final(self).t.symbols@[id as int].name@ == name@,
            final(self).cur == old(self).cur,
            unassigned(final(self).t),
            final(self).inv(),
            grows(*old(self), *final(self)),
            old(self).t.pinned_names@.subset_of(final(self).t.pinned_names@),
            r matches Err(e) ==> limit_error(e),
            r matches Ok(id) ==> id <= SENTINEL_MAX - SENTINEL_BASE,
    {
        if (scope as usize) >= self.scope_names.len() || (scope as usize) >= self.t.scopes.len() {
            return Err(fail_unsupported("unknown scope"));
        }
        match self.scope_names[scope as usize].get(name) {
            Some(id) => {
                if (id as usize) < self.t.symbols.len() && id <= SENTINEL_MAX - SENTINEL_BASE {
                    let s_kind = self.t.symbols[id as usize].kind;
                    let s_ty = self.t.symbols[id as usize].ty;
                    let ghost t_in = self.t;
                    if s_kind != kind {
                        if self.t.symbols[id as usize].pinned.is_none() {
                            self.t.symbols[id as usize].pinned = Some(PinReason::KindClash);
                        }
                    } else if kind == SymbolKind::Function && s_ty != ty {
                        self.t.symbols[id as usize].ty = TypeRef::Opaque;
                    }
                    proof {
                        lemma_links_frame(t_in, self.t);
                    }
                    return Ok(id);
                }
                Err(fail_unsupported("unknown symbol"))
            },
            None => {
                let id = self.new_symbol(name, kind, scope, ty)?;
                self.scope_names[scope as usize].insert(owned(name), id);
                Ok(id)
            },
        }
    }

    fn declare_field(&mut self, def: StructId, name: &str, ty: TypeRef) -> (r: Result<SymbolId, CrushError>)
        requires
            unassigned(old(self).t),
            old(self).inv(),
            def < old(self).t.structs@.len(),
            valid_ty(old(self).t, ty),
        ensures
            r matches Ok(id) ==> id < final(self).t.symbols@.len() && final(self).t.symbols@[id as int].name@ == name@,
            final(self).cur == old(self).cur,
            unassigned(final(self).t),
            final(self).inv(),
            grows(*old(self), *final(self)),
            old(self).t.pinned_names@.subset_of(final(self).t.pinned_names@),
            r matches Err(e) ==> limit_error(e),
            r matches Ok(id) ==> id <= SENTINEL_MAX - SENTINEL_BASE,
    {
        if (def as usize) >= self.field_names.len() || (def as usize) >= self.t.structs.len() {
            return Err(fail_unsupported("unknown struct"));
        }
        match self.field_names[def as usize].get(name) {
            Some(id) => {
                if id <= SENTINEL_MAX - SENTINEL_BASE {
                    Ok(id)
                } else {
                    Err(fail_unsupported("unknown symbol"))
                }
            },
            None => {
                let id = self.new_symbol(name, SymbolKind::Field(def), self.cur, ty)?;
                self.field_names[def as usize].insert(owned(name), id);
                let ghost t0 = self.t;
                self.t.structs[def as usize].fields.push(id);
                proof {
                    lemma_links_frame(t0, self.t);
                    assert(t0.symbols@[id as int].kind is Field);
                    assert forall|d: int, j: int|
                        0 <= d < self.t.structs@.len() && 0 <= j < self.t.structs@[d].fields@.len()
                            && self.t.structs@[d].fields@[j] < self.t.symbols@.len()
                            implies (#[trigger] self.t.symbols@[self.t.structs@[d].fields@[j] as int]).kind is Field by {
                        if d == def as int && j == t0.structs@[d].fields@.len() {
                            assert(self.t.structs@[d].fields@[j] == id);
                        } else {
                            assert(self.t.structs@[d].fields@[j] == t0.structs@[d].fields@[j]);
                        }
                    }
                }
                Ok(id)
            },
        }
    }

    /// The symbol `name` binds to from the current scope.
    fn lookup(&self, name: &str) -> (r: Option<SymbolId>)
        requires
            self.inv(),
        ensures
            r matches Some(id) ==> id <= SENTINEL_MAX - SENTINEL_BASE && id < self.t.symbols@.len()
                && self.t.symbols@[id as int].name@ == name@,
            r == self.lookup_spec(name@),
    {
        let mut scope = Some(self.cur);
        let mut fuel = self.t.scopes.len();
        while fuel > 0
            invariant
                self.inv(),
                self.lookup_from(scope, name@, fuel as nat) == self.lookup_spec(name@),
            decreases fuel,
        {
            fuel = fuel - 1;
            match scope {
                None => return None,
                Some(id) => {
                    if (id as usize) >= self.scope_names.len() || (id as usize) >= self.t.scopes.len() {
                        return None;
                    }
                    match self.scope_names[id as usize].get(name) {
                        Some(s) => {
                            if s <= SENTINEL_MAX - SENTINEL_BASE {
                                return Some(s);
                            }
                            return None;
                        },
                        None => {},
                    }
                    scope = self.t.scopes[id as usize].parent;
                },
            }
        }
        None
    }

    fn bind(&mut self, slot: &mut String, sym: SymbolId, is_decl: bool)
        requires
            unassigned(old(self).t),
            old(self).inv(),
            sym < old(self).t.symbols@.len(),
            sym <= SENTINEL_MAX - SENTINEL_BASE,
        ensures
            spec_sentinel_id(final(slot)@) == Some(sym),
            unassigned(final(self).t),
            final(self).inv(),
            grows(*old(self), *final(self)),
            old(self).t.pinned_names@.subset_of(final(self).t.pinned_names@),
    {
        let ghost t_in = self.t;
        if (sym as usize) < self.t.symbols.len() {
            let o = self.t.symbols[sym as usize].occurrences;
            if o < u32::MAX {
                self.t.symbols[sym as usize].occurrences = o + 1;
            }
        }
        self.t.occ.push(Occ { sym, is_decl });
        proof {
            assert(self.t.occ@.drop_last() =~= t_in.occ@);
            lemma_links_bind(t_in, self.t, sym as int);
        }
        self.use_sites.push((sym, self.cur));
        *slot = sentinel(sym);
    }

    /// A name that is neither declared nor owned by the language: it must
    /// keep its spelling everywhere (a macro may declare it).
    fn pin_name(&mut self, name: &str, lex: &Lexicon)
        requires
            unassigned(old(self).t),
            old(self).inv(),
            lex.wf(),
        ensures
            final(self).t.pinned_names@ == (if spec_is_keyword(name@) || spec_is_builtin_function(name@) || spec_is_reserved(name@) {
                old(self).t.pinned_names@
            } else {
                old(self).t.pinned_names@.insert(name@)
            }),
            final(self).t.symbols == old(self).t.symbols,
            final(self).cur == old(self).cur,
            unassigned(final(self).t),
            final(self).inv(),
            grows(*old(self), *final(self)),
            old(self).t.pinned_names@.subset_of(final(self).t.pinned_names@),
    {
        let c = chars_of(name);
        let ghost t_in = self.t;
        if !(lex.keyword(c.as_slice()) || lex.builtin_function(c.as_slice()) || reserved(c.as_slice())) {
            self.t.pinned_names.insert_str(name);
        }
        proof {
            lemma_links_frame(t_in, self.t);
        }
    }

    fn use_ident(&mut self, slot: &mut String, lex: &Lexicon)
        requires
            unassigned(old(self).t),
            old(self).inv(),
            lex.wf(),
        ensures
            old(self).lookup_spec(old(slot)@) matches Some(id) ==> spec_sentinel_id(final(slot)@) == Some(id),
            old(self).lookup_spec(old(slot)@) is None ==> final(slot)@ == old(slot)@ && (final(self).t.pinned_names@.contains(
                old(slot)@) || spec_is_keyword(old(slot)@) || spec_is_builtin_function(old(slot)@) || spec_is_reserved(old(slot)@)),
            binds_name(old(slot)@, final(slot)@, final(self).t),
            unassigned(final(self).t),
            final(self).inv(),
            grows(*old(self), *final(self)),
            old(self).t.pinned_names@.subset_of(final(self).t.pinned_names@),
    {
        match self.lookup(slot.as_str()) {
            Some(id) => self.bind(slot, id, false),
            None => {
                let name = owned(slot.as_str());
                self.pin_name(name.as_str(), lex);
            },
        }
    }

    fn type_qualifier(&mut self, q: &mut TypeQualifier, lex: &Lexicon) -> (r: Result<(), CrushError>)
        requires
            unassigned(old(self).t),
            old(self).inv(),
            lex.wf(),
        ensures
            r is Ok ==> binds_qualifier(*old(q), *final(q), final(self).t),
            unassigned(final(self).t),
            final(self).inv(),
            grows(*old(self), *final(self)),
            old(self).t.pinned_names@.subset_of(final(self).t.pinned_names@),
            r matches Err(e) ==> limit_error(e),
    {
        let qs = &mut q.qualifiers.0;
        let ghost len = qs@.len();
        let ghost orig = qs@;
        let mut n: usize = 0;
        while n < qs.len()
            invariant
                unassigned(self.t),
                self.inv(),
                grows(*old(self), *self),
                old(self).t.pinned_names@.subset_of(self.t.pinned_names@),
                n <= qs@.len(),
                qs@.len() == len,
                lex.wf(),
                orig.len() == len,
                orig == old(q).qualifiers.0@,
                forall|k: int| n <= k < len ==> qs@[k] == orig[k],
                forall|k: int| 0 <= k < n ==> binds_qspec(#[trigger] orig[k], qs@[k], self.t),
            decreases qs@.len() - n,
        {
            let ghost t0 = self.t;
            let ghost q0 = qs@[n as int];
            match &mut qs[n] {
                TypeQualifierSpec::Storage(StorageQualifier::Subroutine(names)) => {
                    let mut k: usize = 0;
                    while k < names.len()
                        invariant
                            unassigned(self.t),
                            self.inv(),
                            grows(*old(self), *self),
                            old(self).t.pinned_names@.subset_of(self.t.pinned_names@),
                            k <= names@.len(),
                            extends(t0, self.t),
                        decreases names@.len() - k,
                    {
                        let ghost t_in = self.t;
                        self.t.pinned_names.insert_str(names[k].0.as_str());
                        proof {
                            lemma_links_frame(t_in, self.t);
                        }
                        k = k + 1;
                    }
                },
                TypeQualifierSpec::Layout(l) => {
                    let ids = &mut l.ids.0;
                    let ghost len2 = ids@.len();
                    let ghost orig2 = ids@;
                    let mut k: usize = 0;
                    while k < ids.len()
                        invariant
                            unassigned(self.t),
                            self.inv(),
                            grows(*old(self), *self),
                            old(self).t.pinned_names@.subset_of(self.t.pinned_names@),
                            k <= ids@.len(),
                            ids@.len() == len2,
                            lex.wf(),
                            orig2.len() == len2,
                            extends(t0, self.t),
                            forall|j: int| k <= j < len2 ==> ids@[j] == orig2[j],
                            forall|j: int| 0 <= j < k ==> binds_layout(#[trigger] orig2[j], ids@[j], self.t),
                        decreases ids@.len() - k,
                    {
                        let ghost t1 = self.t;
                        let ghost i0 = ids@[k as int];
                        match &mut ids[k] {
                            LayoutQualifierSpec::Identifier(_, Some(e)) => {
                                let ghost e0: Expr = **e;
                                self.expr(e, lex)?;
                                proof {
                                    assert forall|t2: SymbolTable| extends(self.t, t2) implies #[trigger] walked_layout(
                                        i0,
                                        ids@[k as int],
                                        NameRel::Bind(t2),
                                    ) by {
                                        assert(walked_expr(e0, **e, NameRel::Bind(t2)));
                                    }
                                }
                            },
                            _ => {},
                        }
                        proof {
                            assert forall|j: int| 0 <= j < k + 1 implies binds_layout(#[trigger] orig2[j], ids@[j], self.t) by {
                                if j < k {
                                    lemma_binds_layout_lift(orig2[j], ids@[j], t1, self.t);
                                }
                            }
                        }
                        k = k + 1;
                    }
                    proof {
                        assert forall|t2: SymbolTable| extends(self.t, t2) implies #[trigger] walked_qspec(q0, qs@[n as int], NameRel::Bind(t2)) by {
                            assert forall|j: int| 0 <= j < len2 implies #[trigger] walked_layout(orig2[j], ids@[j], NameRel::Bind(t2)) by {
                                assert(binds_layout(orig2[j], ids@[j], self.t));
                            }
                        }
                    }
                },
                _ => {},
            }
            proof {
                assert forall|k: int| 0 <= k < n + 1 implies binds_qspec(#[trigger] orig[k], qs@[k], self.t) by {
                    if k < n {
                        lemma_binds_qspec_lift(orig[k], qs@[k], t0, self.t);
                    }
                }
            }
            n = n + 1;
        }
        proof {
            assert forall|t2: SymbolTable| extends(self.t, t2) implies #[trigger] walked_qualifier(*old(q), *q, NameRel::Bind(t2)) by {
                assert forall|k: int| 0 <= k < len implies #[trigger] walked_qspec(orig[k], qs@[k], NameRel::Bind(t2)) by {
                    assert(binds_qspec(orig[k], qs@[k], self.t));
                }
            }
        }
        Ok(())
    }

    fn array_spec(&mut self, spec: &mut ArraySpecifier, lex: &Lexicon) -> (r: Result<(), CrushError>)
        requires
            unassigned(old(self).t),
            old(self).inv(),
            lex.wf(),
        ensures
            r is Ok ==> binds_array(*old(spec), *final(spec), final(self).t),
            unassigned(final(self).t),
            final(self).inv(),
            grows(*old(self), *final(self)),
            old(self).t.pinned_names@.subset_of(final(self).t.pinned_names@),
            r matches Err(e) ==> limit_error(e),
        decreases *old(spec), 0nat,
    {
        let dims = &mut spec.dimensions.0;
        {
            let ghost orig = dims@;
            assert(forall|k: int| 0 <= k < orig.len() ==> decreases_to!(*old(spec) => #[trigger] orig[k]));
            let mut n: usize = 0;
            while n < dims.len()
                invariant
                    unassigned(self.t),
                    self.inv(),
                    grows(*old(self), *self),
                    old(self).t.pinned_names@.subset_of(self.t.pinned_names@),
                    n <= dims@.len(),
                    dims@.len() == orig.len(),
                    forall|k: int| n <= k < orig.len() ==> dims@[k] == orig[k],
                    forall|k: int| 0 <= k < orig.len() ==> decreases_to!(*old(spec) => #[trigger] orig[k]),
                    lex.wf(),
                    orig == old(spec).dimensions.0@,
                    forall|k: int| 0 <= k < n ==> binds_dim(#[trigger] orig[k], dims@[k], self.t),
                decreases dims@.len() - n,
            {
                assert(dims@[n as int] == orig[n as int]);
                assert(decreases_to!(*old(spec) => dims[n as int]));
                let ghost t0 = self.t;
                self.dimension(&mut dims[n], lex)?;
                proof {
                    assert forall|k: int| 0 <= k < n + 1 implies binds_dim(#[trigger] orig[k], dims@[k], self.t) by {
                        if k < n {
                            lemma_binds_dim_lift(orig[k], dims@[k], t0, self.t);
                        }
                    }
                }
                n = n + 1;
            }
            proof {
                assert forall|t2: SymbolTable| extends(self.t, t2) implies #[trigger] walked_array(*old(spec), *spec, NameRel::Bind(t2)) by {
                    assert forall|k: int| 0 <= k < orig.len() implies walked_dim(#[trigger] orig[k], spec.dimensions.0@[k], NameRel::Bind(t2)) by {
                        assert(binds_dim(orig[k], dims@[k], self.t));
                    }
                }
            }
        }
        Ok(())
    }

    fn dimension(&mut self, d: &mut ArraySpecifierDimension, lex: &Lexicon) -> (r: Result<(), CrushError>)
        requires
            unassigned(old(self).t),
            old(self).inv(),
            lex.wf(),
        ensures
            r is Ok ==> binds_dim(*old(d), *final(d), final(self).t),
            unassigned(final(self).t),
            final(self).inv(),
            grows(*old(self), *final(self)),
            old(self).t.pinned_names@.subset_of(final(self).t.pinned_names@),
            r matches Err(e) ==> limit_error(e),
        decreases *old(d), 0nat,
    {
        match d {
            ArraySpecifierDimension::ExplicitlySized(e) => {
                let ghost e0: Expr = **e;
                let r = self.expr(e, lex);
                proof {
                    if r is Ok {
                        assert forall|t2: SymbolTable| extends(self.t, t2) implies #[trigger] walked_dim(*old(d), *d, NameRel::Bind(t2)) by {
                            assert(walked_expr(e0, **e, NameRel::Bind(t2)));
                        }
                    }
                }
                r
            },
            ArraySpecifierDimension::Unsized => Ok(()),
        }
    }

    fn opt_array_spec(&mut self, spec: &mut Option<ArraySpecifier>, lex: &Lexicon) -> (r: Result<(), CrushError>)
        requires
            unassigned(old(self).t),
            old(self).inv(),
            lex.wf(),
        ensures
            r is Ok ==> binds_opt_array(*old(spec), *final(spec), final(self).t),
            unassigned(final(self).t),
            final(self).inv(),
            grows(*old(self), *final(self)),
            old(self).t.pinned_names@.subset_of(final(self).t.pinned_names@),
            r matches Err(e) ==> limit_error(e),
    {
        match spec {
            Some(s) => {
                let ghost s0 = *s;
                let r = self.array_spec(s, lex);
                proof {
                    if r is Ok {
                        assert forall|t2: SymbolTable| extends(self.t, t2) implies #[trigger] walked_opt_array(*old(spec), *spec, NameRel::Bind(t2)) by {
                            assert(walked_array(s0, *s, NameRel::Bind(t2)));
                        }
                    }
                }
                r
            },
            None => Ok(()),
        }
    }

    fn struct_field(&mut self, def: StructId, f: &mut StructFieldSpecifier, lex: &Lexicon) -> (r: Result<(), CrushError>)
        requires
            unassigned(old(self).t),
            old(self).inv(),
            lex.wf(),
            def < old(self).t.structs@.len(),
        ensures
            r is Ok ==> binds_field(*old(f), *final(f), final(self).t),
            unassigned(final(self).t),
            final(self).inv(),
            grows(*old(self), *final(self)),
            old(self).t.pinned_names@.subset_of(final(self).t.pinned_names@),
            r matches Err(e) ==> limit_error(e),
        decreases *old(f), 1nat,
    {
        let ghost q0 = f.qualifier;
        let ghost ty0 = f.ty;
        if let Some(q) = &mut f.qualifier {
            self.type_qualifier(q, lex)?;
        }
        let ghost t1 = self.t;
        let ft = self.type_spec(&mut f.ty, lex)?;
        let ghost t2 = self.t;
        assert(forall|t3: SymbolTable| extends(t1, t3) ==> #[trigger] walked_opt_qualifier(q0, f.qualifier, NameRel::Bind(t3)));
        let ids = &mut f.identifiers.0;
        let ghost len = ids@.len();
        let ghost orig = ids@;
        let mut n: usize = 0;
        while n < ids.len()
            invariant
                unassigned(self.t),
                self.inv(),
                grows(*old(self), *self),
                old(self).t.pinned_names@.subset_of(self.t.pinned_names@),
                n <= ids@.len(),
                ids@.len() == len,
                lex.wf(),
                valid_ty(self.t, ft),
                orig.len() == len,
                forall|k: int| n <= k < len ==> ids@[k] == orig[k],
                forall|k: int| 0 <= k < n ==> binds_arrayed(#[trigger] orig[k], ids@[k], self.t),
                extends(t2, self.t),
                extends(t1, t2),
                forall|t3: SymbolTable| extends(t1, t3) ==> #[trigger] walked_opt_qualifier(q0, f.qualifier, NameRel::Bind(t3)),
                binds_type(ty0, f.ty, t2),
                def < self.t.structs@.len(),
            decreases ids@.len() - n,
        {
            let ghost t0 = self.t;
            let ghost a0 = ids@[n as int];
            self.opt_array_spec(&mut ids[n].array_spec, lex)?;
            let name = owned(ids[n].ident.0.as_str());
            let fs = self.declare_field(def, name.as_str(), ft)?;
            let ghost tb = self.t;
            self.bind(&mut ids[n].ident.0, fs, true);
            proof {
                assert forall|t3: SymbolTable| extends(self.t, t3) implies #[trigger] walked_arrayed(a0, ids@[n as int], NameRel::Bind(t3)) by {
                    assert(extends(tb, t3));
                    assert(t3.symbols@[fs as int].name@ == tb.symbols@[fs as int].name@);
                }
                assert forall|k: int| 0 <= k < n + 1 implies binds_arrayed(#[trigger] orig[k], ids@[k], self.t) by {
                    if k < n {
                        lemma_binds_arrayed_lift(orig[k], ids@[k], t0, self.t);
                    }
                }
            }
            n = n + 1;
        }
        proof {
            assert forall|t3: SymbolTable| extends(self.t, t3) implies #[trigger] walked_field(*old(f), *f, NameRel::Bind(t3)) by {
                assert(extends(t2, t3));
                assert(extends(t1, t3));
                assert(walked_opt_qualifier(q0, f.qualifier, NameRel::Bind(t3)));
                assert(walked_type(ty0, f.ty, NameRel::Bind(t3)));
                assert forall|k: int| 0 <= k < len implies #[trigger] walked_arrayed(orig[k], ids@[k], NameRel::Bind(t3)) by {
                    assert(binds_arrayed(orig[k], ids@[k], self.t));
                }
            }
        }
        Ok(())
    }

    /// Declare a struct type (and its name, where it has one) and its fields.
    fn struct_spec(&mut self, spec: &mut StructSpecifier, lex: &Lexicon) -> (r: Result<StructId, CrushError>)
        requires
            unassigned(old(self).t),
            old(self).inv(),
            lex.wf(),
        ensures
            r is Ok ==> forall|t3: SymbolTable| extends(final(self).t, t3) ==> #[trigger] walked_struct(*old(spec), *final(spec), NameRel::Bind(t3)),
            r matches Ok(d) ==> d < final(self).t.structs@.len(),
            unassigned(final(self).t),
            final(self).inv(),
            grows(*old(self), *final(self)),
            old(self).t.pinned_names@.subset_of(final(self).t.pinned_names@),
            r matches Err(e) ==> limit_error(e),
        decreases *old(spec), 2nat,
    {
        let ghost name0 = spec.name;
        let mut def = self.new_struct()?;
        if let Some(tn) = &mut spec.name {
            let name = owned(tn.0.as_str());
            let s = self.declare(self.cur, name.as_str(), SymbolKind::StructType, TypeRef::UserStruct(def))?;
            // a redeclaration (`#if` duplicate) keeps the first definition
            if (s as usize) < self.t.symbols.len() {
                match self.t.symbols[s as usize].ty {
                    TypeRef::UserStruct(existing) => def = existing,
                    _ => {},
                }
            }
            let ghost t_in = self.t;
            if (def as usize) < self.t.structs.len() {
                self.t.structs[def as usize].type_symbol = Some(s);
            }
            proof {
                lemma_links_frame(t_in, self.t);
            }
            let ghost tb = self.t;
            assert(tb.symbols@[s as int].name@ == name@);
            self.bind(&mut tn.0, s, true);
            proof {
                assert forall|t3: SymbolTable| extends(self.t, t3) implies #[trigger] walked_opt_name(
                    name0,
                    spec.name,
                    NameRel::Bind(t3),
                ) by {
                    assert(extends(tb, t3));
                    assert(t3.symbols@[s as int].name@ == tb.symbols@[s as int].name@);
                }
            }
        }
        let ghost tn1 = self.t;
        assert(forall|t3: SymbolTable| extends(tn1, t3) ==> #[trigger] walked_opt_name(name0, spec.name, NameRel::Bind(t3)));
        let ghost orig = spec.fields.0@;
        let fields = &mut spec.fields.0;
        {
            assert(forall|k: int| 0 <= k < orig.len() ==> decreases_to!(*old(spec) => #[trigger] orig[k]));
            let mut n: usize = 0;
            while n < fields.len()
                invariant
                    unassigned(self.t),
                    self.inv(),
                    grows(*old(self), *self),
                    old(self).t.pinned_names@.subset_of(self.t.pinned_names@),
                    n <= fields@.len(),
                    fields@.len() == orig.len(),
                    forall|k: int| n <= k < orig.len() ==> fields@[k] == orig[k],
                    forall|k: int| 0 <= k < orig.len() ==> decreases_to!(*old(spec) => #[trigger] orig[k]),
                    lex.wf(),
                    def < self.t.structs@.len(),
                    extends(tn1, self.t),
                    forall|t3: SymbolTable| extends(tn1, t3) ==> #[trigger] walked_opt_name(name0, spec.name, NameRel::Bind(t3)),
                    forall|k: int| 0 <= k < n ==> binds_field(#[trigger] orig[k], fields@[k], self.t),
                decreases fields@.len() - n,
            {
                assert(fields@[n as int] == orig[n as int]);
                assert(decreases_to!(*old(spec) => fields[n as int]));
                let ghost t0 = self.t;
                self.struct_field(def, &mut fields[n], lex)?;
                proof {
                    assert forall|k: int| 0 <= k < n + 1 implies binds_field(#[trigger] orig[k], fields@[k], self.t) by {
                        if k < n {
                            lemma_binds_field_lift(orig[k], fields@[k], t0, self.t);
                        }
                    }
                }
                n = n + 1;
            }
            proof {
                assert forall|t3: SymbolTable| extends(self.t, t3) implies #[trigger] walked_opt_name(name0, spec.name, NameRel::Bind(t3))
                    && forall|k: int| 0 <= k < orig.len() ==> #[trigger] walked_field(orig[k], fields@[k], NameRel::Bind(t3)) by {
                    assert(extends(tn1, t3));
                    assert forall|k: int| 0 <= k < orig.len() implies #[trigger] walked_field(orig[k], fields@[k], NameRel::Bind(t3)) by {
                        assert(binds_field(orig[k], fields@[k], self.t));
                    }
                }
            }
        }
        proof {
            assert(old(spec).fields.0@ == orig);
            assert(old(spec).name == name0);
            assert forall|t3: SymbolTable| extends(self.t, t3) implies #[trigger] walked_struct(*old(spec), *spec, NameRel::Bind(t3)) by {
                assert(walked_opt_name(name0, spec.name, NameRel::Bind(t3)));
                assert(forall|k: int| 0 <= k < orig.len() ==> #[trigger] walked_field(orig[k], spec.fields.0@[k], NameRel::Bind(t3)));
                Self::lemma_walked_struct_intro(*old(spec), *spec, NameRel::Bind(t3));
            }
        }
        Ok(def)
    }

    proof fn lemma_walked_struct_intro(a: StructSpecifier, b: StructSpecifier, r: NameRel)
        requires
            walked_opt_name(a.name, b.name, r),
            a.fields.0@.len() == b.fields.0@.len(),
            forall|k: int| 0 <= k < a.fields.0@.len() ==> #[trigger] walked_field(a.fields.0@[k], b.fields.0@[k], r),
        ensures
            walked_struct(a, b, r),
    {
        assert(walked_opt_name(a.name, b.name, r));
        assert(walked_struct(a, b, r) == (walked_opt_name(a.name, b.name, r) && a.fields.0@.len() == b.fields.0@.len() && forall|k: int|
        0 <= k < a.fields.0@.len() ==> walked_field(#[trigger] a.fields.0@[k], b.fields.0@[k], r)));
    }

    proof fn lemma_walked_init_list_intro(a: Initializer, b: Initializer, r: NameRel)
        requires
            a is List,
            b is List,
            a->List_0.0@.len() == b->List_0.0@.len(),
            forall|k: int| 0 <= k < a->List_0.0@.len() ==> #[trigger] walked_init(a->List_0.0@[k], b->List_0.0@[k], r),
        ensures
            walked_init(a, b, r),
    {
        let l1 = a->List_0;
        let l2 = b->List_0;
        assert(walked_init(a, b, r) == (l1.0@.len() == l2.0@.len() && forall|k: int|
            0 <= k < l1.0@.len() ==> walked_init(#[trigger] l1.0@[k], l2.0@[k], r)));
    }

    fn type_spec(&mut self, ts: &mut TypeSpecifier, lex: &Lexicon) -> (r: Result<TypeRef, CrushError>)
        requires
            unassigned(old(self).t),
            old(self).inv(),
            lex.wf(),
        ensures
            r is Ok ==> binds_type(*old(ts), *final(ts), final(self).t),
            r matches Ok(ty) ==> valid_ty(final(self).t, ty),
            unassigned(final(self).t),
            final(self).inv(),
            grows(*old(self), *final(self)),
            old(self).t.pinned_names@.subset_of(final(self).t.pinned_names@),
            r matches Err(e) ==> limit_error(e),
        decreases *old(ts), 0nat,
    {
        let ghost ty0 = ts.ty;
        let ghost arr0 = ts.array_specifier;
        let r = match &mut ts.ty {
            TypeSpecifierNonArray::Struct(spec) => {
                let def = self.struct_spec(spec, lex)?;
                proof {
                    assert forall|t3: SymbolTable| extends(self.t, t3) implies #[trigger] walked_tsna(ty0, ts.ty, NameRel::Bind(t3)) by {
                        assert(walked_struct(ty0->Struct_0, *spec, NameRel::Bind(t3)));
                    }
                }
                TypeRef::UserStruct(def)
            },
            TypeSpecifierNonArray::TypeName(tn) => {
                let ghost tn0 = tn.0@;
                match self.lookup(tn.0.as_str()) {
                    Some(s) => {
                        let ghost tb = self.t;
                        self.bind(&mut tn.0, s, false);
                        proof {
                            assert forall|t3: SymbolTable| extends(self.t, t3) implies #[trigger] walked_tsna(ty0, ts.ty, NameRel::Bind(t3)) by {
                                assert(extends(tb, t3));
                                assert(t3.symbols@[s as int].name@ == tb.symbols@[s as int].name@);
                            }
                        }
                        if (s as usize) < self.t.symbols.len() && self.t.symbols[s as usize].kind == SymbolKind::StructType {
                            self.t.symbols[s as usize].ty
                        } else {
                            TypeRef::Opaque
                        }
                    },
                    None => {
                        let n = owned(tn.0.as_str());
                        let c = chars_of(n.as_str());
                        if lex.keyword(c.as_slice()) || reserved(c.as_slice()) {
                            TypeRef::Builtin
                        } else {
                            self.pin_name(n.as_str(), lex);
                            TypeRef::Opaque
                        }
                    },
                }
            },
            _ => TypeRef::Builtin,
        };
        let ghost t1 = self.t;
        assert(forall|t3: SymbolTable| extends(t1, t3) ==> #[trigger] walked_tsna(ty0, ts.ty, NameRel::Bind(t3)));
        self.opt_array_spec(&mut ts.array_specifier, lex)?;
        proof {
            assert forall|t3: SymbolTable| extends(self.t, t3) implies #[trigger] walked_type(*old(ts), *ts, NameRel::Bind(t3)) by {
                assert(extends(t1, t3));
                assert(walked_tsna(ty0, ts.ty, NameRel::Bind(t3)));
                assert(walked_opt_array(arr0, ts.array_specifier, NameRel::Bind(t3)));
            }
        }
        Ok(r)
    }

    fn has_subroutine(q: &Option<TypeQualifier>) -> (r: bool)
        ensures
            r == spec_has_subroutine(*q),
    {
        match q {
            Some(tq) => {
                let qs = &tq.qualifiers.0;
                let mut n: usize = 0;
                while n < qs.len()
                    invariant
                        n <= qs@.len(),
                        qs@ == tq.qualifiers.0@,
                        *q == Some(*tq),
                        forall|k: int| 0 <= k < n ==> !is_subroutine_qualifier(#[trigger] qs@[k]),
                    decreases qs@.len() - n,
                {
                    match &qs[n] {
                        TypeQualifierSpec::Storage(StorageQualifier::Subroutine(_)) => {
                            assert(is_subroutine_qualifier(tq.qualifiers.0@[n as int]));
                            assert(is_subroutine_qualifier((*q)->Some_0.qualifiers.0@[n as int]));
                            return true;
                        },
                        _ => {},
                    }
                    n = n + 1;
                }
                assert(!exists|k: int| 0 <= k < tq.qualifiers.0@.len() && is_subroutine_qualifier(#[trigger] tq.qualifiers.0@[k]));
                false
            },
            None => false,
        }
    }

    /// Declare a function, open its scope and declare its parameters. The
    /// caller resolves the body and closes the scope.
    fn function_begin(&mut self, proto: &mut FunctionPrototype, lex: &Lexicon) -> (r: Result<(), CrushError>)
        requires
            unassigned(old(self).t),
            old(self).inv(),
            lex.wf(),
        ensures
            r is Ok ==> binds_prototype(*old(proto), *final(proto), final(self).t),
            unassigned(final(self).t),
            final(self).inv(),
            grows(*old(self), *final(self)),
            old(self).t.pinned_names@.subset_of(final(self).t.pinned_names@),
            r matches Err(e) ==> limit_error(e),
    {
        let ghost q0 = proto.ty.qualifier;
        let ghost ty0 = proto.ty.ty;
        let ghost name0 = proto.name.0@;
        let ghost params0 = proto.parameters@;
        let ghost ta = self.t;
        self.opt_qualifier(&mut proto.ty.qualifier, lex)?;
        let ghost tq = self.t;
        let ret = self.type_spec(&mut proto.ty.ty, lex)?;
        let name = owned(proto.name.0.as_str());
        let sym = self.declare(0, name.as_str(), SymbolKind::Function, ret)?;
        let c = chars_of(name.as_str());
        if lex.builtin_function(c.as_slice()) {
            self.pin(sym, PinReason::BuiltinShadow);
        }
        if Self::has_subroutine(&proto.ty.qualifier) {
            self.pin(sym, PinReason::Subroutine);
        }
        let ghost tb = self.t;
        assert(tb.symbols@[sym as int].name@ == name0);
        self.bind(&mut proto.name.0, sym, true);
        let ghost tn = self.t;
        proof {
            assert forall|t3: SymbolTable| extends(tn, t3) implies #[trigger] walked_name(name0, proto.name.0@, NameRel::Bind(t3)) by {
                assert(extends(tb, t3));
                assert(t3.symbols@[sym as int].name@ == tb.symbols@[sym as int].name@);
            }
        }
        self.push_scope(ScopeKind::Function)?;
        let params = &mut proto.parameters;
        let ghost len = params@.len();
        let mut n: usize = 0;
        while n < params.len()
            invariant
                unassigned(self.t),
                self.inv(),
                grows(*old(self), *self),
                old(self).t.pinned_names@.subset_of(self.t.pinned_names@),
                n <= params@.len(),
                params@.len() == len,
                params0.len() == len,
                forall|k: int| n <= k < len ==> params@[k] == params0[k],
                forall|k: int| 0 <= k < n ==> binds_param(#[trigger] params0[k], params@[k], self.t),
                extends(tn, self.t),
                lex.wf(),
            decreases params@.len() - n,
        {
            let ghost t0 = self.t;
            let ghost p0 = params@[n as int];
            match &mut params[n] {
                FunctionParameterDeclaration::Named(q, d) => {
                    let ghost dq0 = *q;
                    let ghost dty0 = d.ty;
                    let ghost da0 = d.ident.array_spec;
                    let ghost dn0 = d.ident.ident.0@;
                    self.opt_qualifier(q, lex)?;
                    let ghost t1 = self.t;
                    let t = self.type_spec(&mut d.ty, lex)?;
                    let ghost t2 = self.t;
                    self.opt_array_spec(&mut d.ident.array_spec, lex)?;
                    let pname = owned(d.ident.ident.0.as_str());
                    let ps = self.declare(self.cur, pname.as_str(), SymbolKind::Parameter, t)?;
                    let ghost tb2 = self.t;
                    assert(tb2.symbols@[ps as int].name@ == dn0);
                    self.bind(&mut d.ident.ident.0, ps, true);
                    proof {
                        assert forall|t3: SymbolTable| extends(self.t, t3) implies #[trigger] walked_param(p0, params@[n as int], NameRel::Bind(t3)) by {
                            assert(extends(tb2, t3));
                            assert(t3.symbols@[ps as int].name@ == tb2.symbols@[ps as int].name@);
                            assert(extends(t1, t3));
                            assert(extends(t2, t3));
                            assert(walked_opt_qualifier(dq0, *q, NameRel::Bind(t3)));
                            assert(walked_type(dty0, d.ty, NameRel::Bind(t3)));
                            assert(walked_opt_array(da0, d.ident.array_spec, NameRel::Bind(t3)));
                        }
                    }
                },
                FunctionParameterDeclaration::Unnamed(q, ts) => {
                    let ghost dq0 = *q;
                    let ghost ts0 = *ts;
                    self.opt_qualifier(q, lex)?;
                    let ghost t1 = self.t;
                    self.type_spec(ts, lex)?;
                    proof {
                        assert forall|t3: SymbolTable| extends(self.t, t3) implies #[trigger] walked_param(p0, params@[n as int], NameRel::Bind(t3)) by {
                            assert(extends(t1, t3));
                            assert(walked_opt_qualifier(dq0, *q, NameRel::Bind(t3)));
                            assert(walked_type(ts0, *ts, NameRel::Bind(t3)));
                        }
                    }
                },
            }
            proof {
                assert forall|k: int| 0 <= k < n + 1 implies binds_param(#[trigger] params0[k], params@[k], self.t) by {
                    if k < n {
                        lemma_binds_param_lift(params0[k], params@[k], t0, self.t);
                    }
                }
            }
            n = n + 1;
        }
        proof {
            assert forall|t3: SymbolTable| extends(self.t, t3) implies #[trigger] walked_prototype(*old(proto), *proto, NameRel::Bind(t3)) by {
                assert(extends(tq, t3));
                assert(extends(tn, t3));
                assert(walked_opt_qualifier(q0, proto.ty.qualifier, NameRel::Bind(t3)));
                assert(walked_type(ty0, proto.ty.ty, NameRel::Bind(t3)));
                assert(walked_name(name0, proto.name.0@, NameRel::Bind(t3)));
                assert forall|k: int| 0 <= k < len implies #[trigger] walked_param(params0[k], proto.parameters@[k], NameRel::Bind(t3)) by {
                    assert(binds_param(params0[k], proto.parameters@[k], self.t));
                }
            }
        }
        Ok(())
    }

    /// Resolve an optional qualifier.
    fn opt_qualifier(&mut self, q: &mut Option<TypeQualifier>, lex: &Lexicon) -> (r: Result<(), CrushError>)
        requires
            unassigned(old(self).t),
            old(self).inv(),
            lex.wf(),
        ensures
            r is Ok ==> forall|t3: SymbolTable| extends(final(self).t, t3) ==> #[trigger] walked_opt_qualifier(*old(q), *final(q), NameRel::Bind(t3)),
            unassigned(final(self).t),
            final(self).inv(),
            grows(*old(self), *final(self)),
            old(self).t.pinned_names@.subset_of(final(self).t.pinned_names@),
            r matches Err(e) ==> limit_error(e),
    {
        let ghost q0 = *q;
        match q {
            Some(x) => {
                let ghost x0 = *x;
                self.type_qualifier(x, lex)?;
                proof {
                    assert forall|t3: SymbolTable| extends(self.t, t3) implies #[trigger] walked_opt_qualifier(q0, *q, NameRel::Bind(t3)) by {
                        assert(walked_qualifier(x0, *x, NameRel::Bind(t3)));
                    }
                }
            },
            None => {
                proof {
                    lemma_extends_refl(self.t);
                }
            },
        }
        Ok(())
    }

    fn initializer(&mut self, i: &mut Initializer, lex: &Lexicon) -> (r: Result<(), CrushError>)
        requires
            unassigned(old(self).t),
            old(self).inv(),
            lex.wf(),
        ensures
            r is Ok ==> binds_init(*old(i), *final(i), final(self).t),
            unassigned(final(self).t),
            final(self).inv(),
            grows(*old(self), *final(self)),
            old(self).t.pinned_names@.subset_of(final(self).t.pinned_names@),
            r matches Err(e) ==> limit_error(e),
        decreases *old(i),
    {
        let ghost i0 = *i;
        match i {
            Initializer::Simple(e) => {
                let ghost e0 = **e;
                let r = self.expr(e, lex);
                proof {
                    if r is Ok {
                        assert forall|t3: SymbolTable| extends(self.t, t3) implies #[trigger] walked_init(i0, *i, NameRel::Bind(t3)) by {
                            assert(walked_expr(e0, **e, NameRel::Bind(t3)));
                        }
                    }
                }
                r
            },
            Initializer::List(l) => {
                let items = &mut l.0;
                {
                    let ghost orig = items@;
                    assert(forall|k: int| 0 <= k < orig.len() ==> decreases_to!(*old(i) => #[trigger] orig[k]));
                    let mut n: usize = 0;
                    while n < items.len()
                        invariant
                            unassigned(self.t),
                            self.inv(),
                            grows(*old(self), *self),
                            old(self).t.pinned_names@.subset_of(self.t.pinned_names@),
                            n <= items@.len(),
                            items@.len() == orig.len(),
                            forall|k: int| n <= k < orig.len() ==> items@[k] == orig[k],
                            forall|k: int| 0 <= k < orig.len() ==> decreases_to!(*old(i) => #[trigger] orig[k]),
                            lex.wf(),
                            forall|k: int| 0 <= k < n ==> binds_init(#[trigger] orig[k], items@[k], self.t),
                        decreases items@.len() - n,
                    {
                        assert(items@[n as int] == orig[n as int]);
                        assert(decreases_to!(*old(i) => items[n as int]));
                        let ghost t0 = self.t;
                        self.initializer(&mut items[n], lex)?;
                        proof {
                            assert forall|k: int| 0 <= k < n + 1 implies binds_init(#[trigger] orig[k], items@[k], self.t) by {
                                if k < n {
                                    lemma_binds_init_lift(orig[k], items@[k], t0, self.t);
                                }
                            }
                        }
                        n = n + 1;
                    }
                    proof {
                        assert forall|t3: SymbolTable| extends(self.t, t3) implies #[trigger] walked_init(i0, *i, NameRel::Bind(t3)) by {
                            assert forall|k: int| 0 <= k < orig.len() implies #[trigger] walked_init(orig[k], items@[k], NameRel::Bind(t3)) by {
                                assert(binds_init(orig[k], items@[k], self.t));
                            }
                            Self::lemma_walked_init_list_intro(i0, *i, NameRel::Bind(t3));
                        }
                    }
                }
                Ok(())
            },
        }
    }

    /// Declare the variable `name` of type `t` in the current scope.
    fn declare_variable(&mut self, name: &mut String, t: TypeRef, subroutine: bool) -> (r: Result<(), CrushError>)
        requires
            unassigned(old(self).t),
            old(self).inv(),
            valid_ty(old(self).t, t),
        ensures
            r is Ok ==> binds_decl_name(old(name)@, final(name)@, final(self).t),
            unassigned(final(self).t),
            final(self).inv(),
            grows(*old(self), *final(self)),
            old(self).t.pinned_names@.subset_of(final(self).t.pinned_names@),
            r matches Err(e) ==> limit_error(e),
    {
        let n = owned(name.as_str());
        let s = self.declare(self.cur, n.as_str(), SymbolKind::Variable, t)?;
        if subroutine {
            self.pin(s, PinReason::Subroutine);
        }
        let ghost tb = self.t;
        assert(tb.symbols@[s as int].name@ == old(name)@);
        self.bind(name, s, true);
        proof {
            assert forall|t3: SymbolTable| extends(self.t, t3) implies #[trigger] walked_decl_name(old(name)@, name@, NameRel::Bind(t3)) by {
                assert(extends(tb, t3));
                assert(t3.symbols@[s as int].name@ == tb.symbols@[s as int].name@);
            }
        }
        Ok(())
    }

    /// Resolve an optional initializer.
    fn opt_initializer(&mut self, i: &mut Option<Initializer>, lex: &Lexicon) -> (r: Result<(), CrushError>)
        requires
            unassigned(old(self).t),
            old(self).inv(),
            lex.wf(),
        ensures
            r is Ok ==> forall|t3: SymbolTable| extends(final(self).t, t3) ==> #[trigger] walked_opt_init(*old(i), *final(i), NameRel::Bind(t3)),
            unassigned(final(self).t),
            final(self).inv(),
            grows(*old(self), *final(self)),
            old(self).t.pinned_names@.subset_of(final(self).t.pinned_names@),
            r matches Err(e) ==> limit_error(e),
    {
        let ghost i0 = *i;
        match i {
            Some(x) => {
                let ghost x0 = *x;
                self.initializer(x, lex)?;
                proof {
                    assert forall|t3: SymbolTable| extends(self.t, t3) implies #[trigger] walked_opt_init(i0, *i, NameRel::Bind(t3)) by {
                        assert(walked_init(x0, *x, NameRel::Bind(t3)));
                    }
                }
            },
            None => {
                proof {
                    lemma_extends_refl(self.t);
                }
            },
        }
        Ok(())
    }

    /// Resolve the first declarator of a declaration and declare its name;
    /// gives the declared type and whether it is a subroutine.
    fn declaration_head(&mut self, h: &mut SingleDeclaration, lex: &Lexicon) -> (r: Result<(TypeRef, bool), CrushError>)
        requires
            unassigned(old(self).t),
            old(self).inv(),
            lex.wf(),
        ensures
            r is Ok ==> forall|t3: SymbolTable| extends(final(self).t, t3) ==> #[trigger] walked_single(*old(h), *final(h), NameRel::Bind(t3)),
            r matches Ok((ty, _)) ==> valid_ty(final(self).t, ty),
            unassigned(final(self).t),
            final(self).inv(),
            grows(*old(self), *final(self)),
            old(self).t.pinned_names@.subset_of(final(self).t.pinned_names@),
            r matches Err(e) ==> limit_error(e),
    {
        let ghost h0 = *h;
        self.opt_qualifier(&mut h.ty.qualifier, lex)?;
        let ghost t1 = self.t;
        let t = self.type_spec(&mut h.ty.ty, lex)?;
        let ghost t2 = self.t;
        let subroutine = Self::has_subroutine(&h.ty.qualifier);
        // a declaration without a name carries neither dimensions nor an initializer
        self.opt_array_spec(&mut h.array_specifier, lex)?;
        let ghost t3a = self.t;
        self.opt_initializer(&mut h.initializer, lex)?;
        let ghost t4 = self.t;
        match &mut h.name {
            Some(name) => {
                let ghost n0 = name.0@;
                self.declare_variable(&mut name.0, t, subroutine)?;
                proof {
                    assert forall|t5: SymbolTable| extends(self.t, t5) implies #[trigger] walked_opt_ident(h0.name, h.name, NameRel::Bind(t5)) by {
                        assert(walked_decl_name(n0, name.0@, NameRel::Bind(t5)));
                    }
                }
            },
            None => {
                proof {
                    lemma_extends_refl(self.t);
                }
            },
        }
        proof {
            assert forall|t5: SymbolTable| extends(self.t, t5) implies #[trigger] walked_single(h0, *h, NameRel::Bind(t5)) by {
                assert(extends(t1, t5));
                assert(extends(t2, t5));
                assert(extends(t3a, t5));
                assert(extends(t4, t5));
                assert(walked_opt_qualifier(h0.ty.qualifier, h.ty.qualifier, NameRel::Bind(t5)));
                assert(walked_type(h0.ty.ty, h.ty.ty, NameRel::Bind(t5)));
                assert(walked_opt_array(h0.array_specifier, h.array_specifier, NameRel::Bind(t5)));
                assert(walked_opt_init(h0.initializer, h.initializer, NameRel::Bind(t5)));
                assert(walked_opt_ident(h0.name, h.name, NameRel::Bind(t5)));
            }
        }
        Ok((t, subroutine))
    }

    /// Resolve a further declarator of a declaration and declare its name.
    fn declaration_tail(&mut self, d: &mut SingleDeclarationNoType, t: TypeRef, subroutine: bool, lex: &Lexicon) -> (r: Result<(), CrushError>)
        requires
            unassigned(old(self).t),
            old(self).inv(),
            lex.wf(),
            valid_ty(old(self).t, t),
        ensures
            r is Ok ==> binds_tail_item(*old(d), *final(d), final(self).t),
            unassigned(final(self).t),
            final(self).inv(),
            grows(*old(self), *final(self)),
            old(self).t.pinned_names@.subset_of(final(self).t.pinned_names@),
            r matches Err(e) ==> limit_error(e),
    {
        let ghost d0 = *d;
        self.opt_array_spec(&mut d.ident.array_spec, lex)?;
        let ghost t1 = self.t;
        self.opt_initializer(&mut d.initializer, lex)?;
        let ghost t2 = self.t;
        self.declare_variable(&mut d.ident.ident.0, t, subroutine)?;
        proof {
            assert forall|t5: SymbolTable| extends(self.t, t5) implies #[trigger] walked_tail_item(d0, *d, NameRel::Bind(t5)) by {
                assert(extends(t1, t5));
                assert(extends(t2, t5));
                assert(walked_opt_array(d0.ident.array_spec, d.ident.array_spec, NameRel::Bind(t5)));
                assert(walked_opt_init(d0.initializer, d.initializer, NameRel::Bind(t5)));
                assert(walked_decl_name(d0.ident.ident.0@, d.ident.ident.0@, NameRel::Bind(t5)));
            }
        }
        Ok(())
    }

    fn declaration(&mut self, d: &mut Declaration, lex: &Lexicon) -> (r: Result<(), CrushError>)
        requires
            unassigned(old(self).t),
            old(self).inv(),
            lex.wf(),
        ensures
            r is Ok ==> binds_declaration(*old(d), *final(d), final(self).t),
            unassigned(final(self).t),
            final(self).inv(),
            grows(*old(self), *final(self)),
            old(self).t.pinned_names@.subset_of(final(self).t.pinned_names@),
            r matches Err(e) ==> limit_error(e),
    {
        let ghost d0 = *d;
        match d {
            Declaration::FunctionPrototype(p) => {
                let ghost p0 = *p;
                self.function_begin(p, lex)?;
                let ghost t1 = self.t;
                self.pop_scope();
                proof {
                    assert forall|t3: SymbolTable| extends(self.t, t3) implies #[trigger] walked_declaration(d0, *d, NameRel::Bind(t3)) by {
                        assert(extends(t1, t3));
                        assert(walked_prototype(p0, *p, NameRel::Bind(t3)));
                    }
                }
                Ok(())
            },
            Declaration::InitDeclaratorList(l) => {
                let ghost h0 = l.head;
                let (t, subroutine) = self.declaration_head(&mut l.head, lex)?;
                let ghost th = self.t;
                let tail = &mut l.tail;
                let ghost orig = tail@;
                let ghost len = tail@.len();
                let mut n: usize = 0;
                while n < tail.len()
                    invariant
                        unassigned(self.t),
                        self.inv(),
                        grows(*old(self), *self),
                        old(self).t.pinned_names@.subset_of(self.t.pinned_names@),
                        n <= tail@.len(),
                        tail@.len() == len,
                        orig.len() == len,
                        forall|k: int| n <= k < len ==> tail@[k] == orig[k],
                        forall|k: int| 0 <= k < n ==> binds_tail_item(#[trigger] orig[k], tail@[k], self.t),
                        extends(th, self.t),
                        lex.wf(),
                        valid_ty(self.t, t),
                    decreases tail@.len() - n,
                {
                    let ghost t0 = self.t;
                    self.declaration_tail(&mut tail[n], t, subroutine, lex)?;
                    proof {
                        assert forall|k: int| 0 <= k < n + 1 implies binds_tail_item(#[trigger] orig[k], tail@[k], self.t) by {
                            if k < n {
                                lemma_binds_tail_item_lift(orig[k], tail@[k], t0, self.t);
                            }
                        }
                    }
                    n = n + 1;
                }
                proof {
                    assert forall|t3: SymbolTable| extends(self.t, t3) implies #[trigger] walked_declaration(d0, *d, NameRel::Bind(t3)) by {
                        assert(extends(th, t3));
                        assert(walked_single(h0, l.head, NameRel::Bind(t3)));
                        assert forall|k: int| 0 <= k < len implies #[trigger] walked_tail_item(orig[k], l.tail@[k], NameRel::Bind(t3)) by {
                            assert(binds_tail_item(orig[k], l.tail@[k], self.t));
                        }
                        Self::lemma_walked_list_intro(d0, *d, NameRel::Bind(t3));
                    }
                }
                Ok(())
            },
            Declaration::Precision(_, ts) => {
                let ghost ts0 = *ts;
                self.type_spec(ts, lex)?;
                proof {
                    assert forall|t3: SymbolTable| extends(self.t, t3) implies #[trigger] walked_declaration(d0, *d, NameRel::Bind(t3)) by {
                        assert(walked_type(ts0, *ts, NameRel::Bind(t3)));
                    }
                }
                Ok(())
            },
            Declaration::Block(b) => {
                let ghost b0 = *b;
                self.type_qualifier(&mut b.qualifier, lex)?;
                let ghost tq = self.t;
                self.t.pinned_names.insert_str(b.name.0.as_str());
                proof {
                    lemma_links_frame(tq, self.t);
                    lemma_extends_refl(tq);
                }
                let def = self.new_struct()?;
                let fields = &mut b.fields;
                let ghost orig = fields@;
                let ghost len = fields@.len();
                let ghost tf = self.t;
                assert(extends(tq, tf));
                let mut n: usize = 0;
                while n < fields.len()
                    invariant
                        unassigned(self.t),
                        self.inv(),
                        grows(*old(self), *self),
                        old(self).t.pinned_names@.subset_of(self.t.pinned_names@),
                        def < self.t.structs@.len(),
                        n <= fields@.len(),
                        fields@.len() == len,
                        orig.len() == len,
                        forall|k: int| n <= k < len ==> fields@[k] == orig[k],
                        forall|k: int| 0 <= k < n ==> binds_field(#[trigger] orig[k], fields@[k], self.t),
                        extends(tf, self.t),
                        lex.wf(),
                    decreases fields@.len() - n,
                {
                    let ghost t0 = self.t;
                    self.struct_field(def, &mut fields[n], lex)?;
                    proof {
                        assert forall|k: int| 0 <= k < n + 1 implies binds_field(#[trigger] orig[k], fields@[k], self.t) by {
                            if k < n {
                                lemma_binds_field_lift(orig[k], fields@[k], t0, self.t);
                            }
                        }
                    }
                    n = n + 1;
                }
                let members: Vec<SymbolId> = if (def as usize) < self.t.structs.len() {
                    self.t.structs[def as usize].fields.clone()
                } else {
                    Vec::new()
                };
                let ghost tm = self.t;
                let mut k: usize = 0;
                while k < members.len()
                    invariant
                        unassigned(self.t),
                        self.inv(),
                        grows(*old(self), *self),
                        old(self).t.pinned_names@.subset_of(self.t.pinned_names@),
                        def < self.t.structs@.len(),
                        k <= members@.len(),
                        extends(tm, self.t),
                    decreases members@.len() - k,
                {
                    self.pin(members[k], PinReason::BlockMember);
                    k = k + 1;
                }
                let ghost tp = self.t;
                let ghost id0 = b.identifier;
                match &mut b.identifier {
                    None => {
                        // members are globals, addressed by name through the API
                        let mut k: usize = 0;
                        while k < members.len()
                            invariant
                                unassigned(self.t),
                                self.inv(),
                                grows(*old(self), *self),
                                old(self).t.pinned_names@.subset_of(self.t.pinned_names@),
                                def < self.t.structs@.len(),
                                k <= members@.len(),
                                extends(tp, self.t),
                            decreases members@.len() - k,
                        {
                            let fs = members[k];
                            if (fs as usize) < self.t.symbols.len() {
                                let name = owned(self.t.symbols[fs as usize].name.as_str());
                                let ty = self.t.symbols[fs as usize].ty;
                                let gs = self.declare(0, name.as_str(), SymbolKind::Variable, ty)?;
                                self.pin(gs, PinReason::BlockMember);
                            }
                            k = k + 1;
                        }
                    },
                    Some(inst) => {
                        let ghost inst0 = *inst;
                        self.opt_array_spec(&mut inst.array_spec, lex)?;
                        let ghost ta = self.t;
                        let name = owned(inst.ident.0.as_str());
                        let s = self.declare(self.cur, name.as_str(), SymbolKind::BlockInstance, TypeRef::UserStruct(def))?;
                        let ghost tb = self.t;
                        assert(tb.symbols@[s as int].name@ == inst0.ident.0@);
                        self.bind(&mut inst.ident.0, s, true);
                        proof {
                            assert forall|t3: SymbolTable| extends(self.t, t3) implies #[trigger] walked_opt_arrayed(id0, b.identifier, NameRel::Bind(t3)) by {
                                assert(extends(tb, t3));
                                assert(t3.symbols@[s as int].name@ == tb.symbols@[s as int].name@);
                                assert(extends(ta, t3));
                                assert(walked_opt_array(inst0.array_spec, inst.array_spec, NameRel::Bind(t3)));
                            }
                        }
                    },
                }
                proof {
                    assert forall|t3: SymbolTable| extends(self.t, t3) implies #[trigger] walked_declaration(d0, *d, NameRel::Bind(t3)) by {
                        assert(extends(tq, t3));
                        assert(extends(tf, t3));
                        assert(walked_qualifier(b0.qualifier, b.qualifier, NameRel::Bind(t3)));
                        assert(walked_name(b0.name.0@, b.name.0@, NameRel::Bind(t3)));
                        assert forall|k: int| 0 <= k < len implies #[trigger] walked_field(orig[k], b.fields@[k], NameRel::Bind(t3)) by {
                            assert(binds_field(orig[k], b.fields@[k], self.t));
                        }
                        if id0 is None {
                            assert(walked_opt_arrayed(id0, b.identifier, NameRel::Bind(t3)));
                        }
                        Self::lemma_walked_block_intro(d0, *d, NameRel::Bind(t3));
                    }
                }
                Ok(())
            },
            Declaration::Global(q, ids) => {
                let ghost q0 = *q;
                self.type_qualifier(q, lex)?;
                let ghost tq = self.t;
                let ghost orig = ids@;
                let mut n: usize = 0;
                let ghost len = ids@.len();
                while n < ids.len()
                    invariant
                        unassigned(self.t),
                        self.inv(),
                        grows(*old(self), *self),
                        old(self).t.pinned_names@.subset_of(self.t.pinned_names@),
                        n <= ids@.len(),
                        ids@.len() == len,
                        orig.len() == len,
                        forall|k: int| n <= k < len ==> ids@[k] == orig[k],
                        forall|k: int| 0 <= k < n ==> binds_name(#[trigger] orig[k].0@, ids@[k].0@, self.t),
                        extends(tq, self.t),
                        lex.wf(),
                    decreases ids@.len() - n,
                {
                    let ghost t0 = self.t;
                    self.use_ident(&mut ids[n].0, lex);
                    proof {
                        assert forall|k: int| 0 <= k < n + 1 implies binds_name(#[trigger] orig[k].0@, ids@[k].0@, self.t) by {
                            if k < n {
                                lemma_binds_name_lift(orig[k].0@, ids@[k].0@, t0, self.t);
                            }
                        }
                    }
                    n = n + 1;
                }
                proof {
                    assert forall|t3: SymbolTable| extends(self.t, t3) implies #[trigger] walked_declaration(d0, *d, NameRel::Bind(t3)) by {
                        assert(extends(tq, t3));
                        assert(walked_qualifier(q0, *q, NameRel::Bind(t3)));
                        assert forall|k: int| 0 <= k < len implies #[trigger] walked_name(orig[k].0@, ids@[k].0@, NameRel::Bind(t3)) by {
                            assert(binds_name(orig[k].0@, ids@[k].0@, self.t));
                        }
                        Self::lemma_walked_global_intro(d0, *d, NameRel::Bind(t3));
                    }
                }
                Ok(())
            },
        }
    }

    proof fn lemma_walked_list_intro(a: Declaration, b: Declaration, r: NameRel)
        requires
            a is InitDeclaratorList,
            b is InitDeclaratorList,
            walked_single(a->InitDeclaratorList_0.head, b->InitDeclaratorList_0.head, r),
            a->InitDeclaratorList_0.tail@.len() == b->InitDeclaratorList_0.tail@.len(),
            forall|k: int| 0 <= k < a->InitDeclaratorList_0.tail@.len() ==> #[trigger] walked_tail_item(
                a->InitDeclaratorList_0.tail@[k],
                b->InitDeclaratorList_0.tail@[k],
                r,
            ),
        ensures
            walked_declaration(a, b, r),
    {
        let l1 = a->InitDeclaratorList_0;
        let l2 = b->InitDeclaratorList_0;
        assert(walked_declaration(a, b, r) == (walked_single(l1.head, l2.head, r) && l1.tail@.len() == l2.tail@.len()
            && forall|k: int| 0 <= k < l1.tail@.len() ==> walked_tail_item(#[trigger] l1.tail@[k], l2.tail@[k], r)));
    }

    proof fn lemma_walked_block_intro(a: Declaration, b: Declaration, r: NameRel)
        requires
            a is Block,
            b is Block,
            walked_qualifier(a->Block_0.qualifier, b->Block_0.qualifier, r),
            walked_name(a->Block_0.name.0@, b->Block_0.name.0@, r),
            a->Block_0.fields@.len() == b->Block_0.fields@.len(),
            forall|k: int| 0 <= k < a->Block_0.fields@.len() ==> #[trigger] walked_field(a->Block_0.fields@[k], b->Block_0.fields@[k], r),
            walked_opt_arrayed(a->Block_0.identifier, b->Block_0.identifier, r),
        ensures
            walked_declaration(a, b, r),
    {
        let b1 = a->Block_0;
        let b2 = b->Block_0;
        assert(walked_declaration(a, b, r) == (walked_qualifier(b1.qualifier, b2.qualifier, r) && walked_name(b1.name.0@, b2.name.0@, r)
            && b1.fields@.len() == b2.fields@.len() && (forall|k: int|
            0 <= k < b1.fields@.len() ==> walked_field(#[trigger] b1.fields@[k], b2.fields@[k], r)) && walked_opt_arrayed(
            b1.identifier, b2.identifier, r)));
    }

    proof fn lemma_walked_global_intro(a: Declaration, b: Declaration, r: NameRel)
        requires
            a is Global,
            b is Global,
            walked_qualifier(a->Global_0, b->Global_0, r),
            a->Global_1@.len() == b->Global_1@.len(),
            forall|k: int| 0 <= k < a->Global_1@.len() ==> #[trigger] walked_name(a->Global_1@[k].0@, b->Global_1@[k].0@, r),
        ensures
            walked_declaration(a, b, r),
    {
        let i1 = a->Global_1;
        let i2 = b->Global_1;
        assert(walked_declaration(a, b, r) == (walked_qualifier(a->Global_0, b->Global_0, r) && i1@.len() == i2@.len()
            && forall|k: int| 0 <= k < i1@.len() ==> walked_name(#[trigger] i1@[k].0@, i2@[k].0@, r)));
    }

    fn condition(&mut self, c: &mut Condition, lex: &Lexicon) -> (r: Result<(), CrushError>)
        requires
            unassigned(old(self).t),
            old(self).inv(),
            lex.wf(),
        ensures
            r is Ok ==> binds_condition(*old(c), *final(c), final(self).t),
            unassigned(final(self).t),
            final(self).inv(),
            grows(*old(self), *final(self)),
            old(self).t.pinned_names@.subset_of(final(self).t.pinned_names@),
            r matches Err(e) ==> limit_error(e),
    {
        let ghost c0 = *c;
        match c {
            Condition::Expr(e) => {
                let ghost e0 = **e;
                self.expr(e, lex)?;
                proof {
                    assert forall|t3: SymbolTable| extends(self.t, t3) implies #[trigger] walked_condition(c0, *c, NameRel::Bind(t3)) by {
                        assert(walked_expr(e0, **e, NameRel::Bind(t3)));
                    }
                }
                Ok(())
            },
            Condition::Assignment(ty, name, init) => {
                let ghost ty0 = *ty;
                let ghost n0 = name.0@;
                let ghost i0 = *init;
                self.opt_qualifier(&mut ty.qualifier, lex)?;
                let ghost t1 = self.t;
                let t = self.type_spec(&mut ty.ty, lex)?;
                let ghost t2 = self.t;
                self.initializer(init, lex)?;
                let ghost t3a = self.t;
                self.declare_variable(&mut name.0, t, false)?;
                proof {
                    assert forall|t3: SymbolTable| extends(self.t, t3) implies #[trigger] walked_condition(c0, *c, NameRel::Bind(t3)) by {
                        assert(extends(t1, t3));
                        assert(extends(t2, t3));
                        assert(extends(t3a, t3));
                        assert(walked_opt_qualifier(ty0.qualifier, ty.qualifier, NameRel::Bind(t3)));
                        assert(walked_type(ty0.ty, ty.ty, NameRel::Bind(t3)));
                        assert(walked_init(i0, *init, NameRel::Bind(t3)));
                        assert(walked_decl_name(n0, name.0@, NameRel::Bind(t3)));
                    }
                }
                Ok(())
            },
        }
    }

    /// A sub-statement that forms a scope of its own when unbraced.
    fn branch(&mut self, st: &mut Statement, lex: &Lexicon) -> (r: Result<(), CrushError>)
        requires
            unassigned(old(self).t),
            old(self).inv(),
            lex.wf(),
        ensures
            r is Ok ==> binds_statement(*old(st), *final(st), final(self).t),
            unassigned(final(self).t),
            final(self).inv(),
            grows(*old(self), *final(self)),
            old(self).t.pinned_names@.subset_of(final(self).t.pinned_names@),
            r matches Err(e) ==> limit_error(e),
        decreases *old(st), 3nat,
    {
        let compound = match st {
            Statement::Compound(_) => true,
            _ => false,
        };
        if compound {
            self.statement(st, lex)
        } else {
            self.push_scope(ScopeKind::Block)?;
            let r = self.statement(st, lex);
            let ghost t1 = self.t;
            self.pop_scope();
            proof {
                if r is Ok {
                    lemma_binds_statement_lift(*old(st), *st, t1, self.t);
                }
            }
            r
        }
    }

    /// A loop body shares the loop header's scope, even when braced.
    fn loop_body(&mut self, st: &mut Statement, lex: &Lexicon) -> (r: Result<(), CrushError>)
        requires
            unassigned(old(self).t),
            old(self).inv(),
            lex.wf(),
        ensures
            r is Ok ==> binds_statement(*old(st), *final(st), final(self).t),
            unassigned(final(self).t),
            final(self).inv(),
            grows(*old(self), *final(self)),
            old(self).t.pinned_names@.subset_of(final(self).t.pinned_names@),
            r matches Err(e) ==> limit_error(e),
        decreases *old(st), 3nat,
    {
        let compound = match st {
            Statement::Compound(_) => true,
            _ => false,
        };
        if compound {
            let ghost st0 = *st;
            match st {
                Statement::Compound(c) => {
                    let list = &mut c.statement_list;
                    let ghost mut ghost_orig: Seq<Statement> = Seq::empty();
                {
                    let ghost orig = list@;
                    assert(forall|k: int| 0 <= k < orig.len() ==> decreases_to!(*old(st) => #[trigger] orig[k]));
                    let ghost tl = self.t;
                    let mut n: usize = 0;
                    while n < list.len()
                        invariant
                            unassigned(self.t),
                            self.inv(),
                            grows(*old(self), *self),
                            old(self).t.pinned_names@.subset_of(self.t.pinned_names@),
                            n <= list@.len(),
                            list@.len() == orig.len(),
                            forall|k: int| n <= k < orig.len() ==> list@[k] == orig[k],
                            forall|k: int| 0 <= k < orig.len() ==> decreases_to!(*old(st) => #[trigger] orig[k]),
                            forall|k: int| 0 <= k < n ==> binds_statement(#[trigger] orig[k], list@[k], self.t),
                            extends(tl, self.t),
                            lex.wf(),
                        decreases list@.len() - n,
                    {
                        assert(list@[n as int] == orig[n as int]);
                        assert(decreases_to!(*old(st) => list[n as int]));
                        let ghost t0 = self.t;
                        self.statement(&mut list[n], lex)?;
                        proof {
                            assert forall|k: int| 0 <= k < n + 1 implies binds_statement(#[trigger] orig[k], list@[k], self.t) by {
                                if k < n {
                                    lemma_binds_statement_lift(orig[k], list@[k], t0, self.t);
                                }
                            }
                        }
                        n = n + 1;
                    }
                    proof {
                        ghost_orig = orig;
                    }
                }
                    proof {
                        assert forall|t3: SymbolTable| extends(self.t, t3) implies #[trigger] walked_statement(st0, *st, NameRel::Bind(t3)) by {
                            assert forall|k: int| 0 <= k < ghost_orig.len() implies #[trigger] walked_statement(ghost_orig[k], c.statement_list@[k], NameRel::Bind(t3)) by {
                                assert(binds_statement(ghost_orig[k], c.statement_list@[k], self.t));
                            }
                            Self::lemma_walked_compound_intro(st0, *st, NameRel::Bind(t3));
                        }
                    }
                    Ok(())
                },
                _ => {
                    proof { lemma_extends_refl(self.t); }
                    Ok(())
                },
            }
        } else {
            self.statement(st, lex)
        }
    }

    proof fn lemma_walked_compound_intro(a: Statement, b: Statement, r: NameRel)
        requires
            a is Compound,
            b is Compound,
            a->Compound_0.statement_list@.len() == b->Compound_0.statement_list@.len(),
            forall|k: int| 0 <= k < a->Compound_0.statement_list@.len() ==> #[trigger] walked_statement(
                a->Compound_0.statement_list@[k],
                b->Compound_0.statement_list@[k],
                r,
            ),
        ensures
            walked_statement(a, b, r),
    {
        let c1 = a->Compound_0;
        let c2 = b->Compound_0;
        assert(walked_statement(a, b, r) == (c1.statement_list@.len() == c2.statement_list@.len() && forall|k: int|
            0 <= k < c1.statement_list@.len() ==> walked_statement(#[trigger] c1.statement_list@[k], c2.statement_list@[k], r)));
    }

    proof fn lemma_walked_switch_intro(a: SimpleStatement, b: SimpleStatement, r: NameRel)
        requires
            a is Switch,
            b is Switch,
            walked_expr(*a->Switch_0.head, *b->Switch_0.head, r),
            a->Switch_0.body@.len() == b->Switch_0.body@.len(),
            forall|k: int| 0 <= k < a->Switch_0.body@.len() ==> #[trigger] walked_statement(a->Switch_0.body@[k], b->Switch_0.body@[k], r),
        ensures
            walked_simple(a, b, r),
    {
        let w1 = a->Switch_0;
        let w2 = b->Switch_0;
        assert(walked_simple(a, b, r) == (walked_expr(*w1.head, *w2.head, r) && w1.body@.len() == w2.body@.len() && forall|k: int|
            0 <= k < w1.body@.len() ==> walked_statement(#[trigger] w1.body@[k], w2.body@[k], r)));
    }

    fn statement(&mut self, st: &mut Statement, lex: &Lexicon) -> (r: Result<(), CrushError>)
        requires
            unassigned(old(self).t),
            old(self).inv(),
            lex.wf(),
        ensures
            r is Ok ==> binds_statement(*old(st), *final(st), final(self).t),
            unassigned(final(self).t),
            final(self).inv(),
            grows(*old(self), *final(self)),
            old(self).t.pinned_names@.subset_of(final(self).t.pinned_names@),
            r matches Err(e) ==> limit_error(e),
        decreases *old(st), 2nat,
    {
        let ghost st0 = *st;
        match st {
            Statement::Compound(c) => {
                self.push_scope(ScopeKind::Block)?;
                let list = &mut c.statement_list;
                let ghost mut ghost_orig: Seq<Statement> = Seq::empty();
                {
                    let ghost orig = list@;
                    assert(forall|k: int| 0 <= k < orig.len() ==> decreases_to!(*old(st) => #[trigger] orig[k]));
                    let ghost tl = self.t;
                    let mut n: usize = 0;
                    while n < list.len()
                        invariant
                            unassigned(self.t),
                            self.inv(),
                            grows(*old(self), *self),
                            old(self).t.pinned_names@.subset_of(self.t.pinned_names@),
                            n <= list@.len(),
                            list@.len() == orig.len(),
                            forall|k: int| n <= k < orig.len() ==> list@[k] == orig[k],
                            forall|k: int| 0 <= k < orig.len() ==> decreases_to!(*old(st) => #[trigger] orig[k]),
                            forall|k: int| 0 <= k < n ==> binds_statement(#[trigger] orig[k], list@[k], self.t),
                            extends(tl, self.t),
                            lex.wf(),
                        decreases list@.len() - n,
                    {
                        assert(list@[n as int] == orig[n as int]);
                        assert(decreases_to!(*old(st) => list[n as int]));
                        let ghost t0 = self.t;
                        self.statement(&mut list[n], lex)?;
                        proof {
                            assert forall|k: int| 0 <= k < n + 1 implies binds_statement(#[trigger] orig[k], list@[k], self.t) by {
                                if k < n {
                                    lemma_binds_statement_lift(orig[k], list@[k], t0, self.t);
                                }
                            }
                        }
                        n = n + 1;
                    }
                    proof {
                        ghost_orig = orig;
                    }
                }
                let ghost t1 = self.t;
                self.pop_scope();
                proof {
                    assert forall|t3: SymbolTable| extends(self.t, t3) implies #[trigger] walked_statement(st0, *st, NameRel::Bind(t3)) by {
                        assert(extends(t1, t3));
                        assert forall|k: int| 0 <= k < ghost_orig.len() implies #[trigger] walked_statement(ghost_orig[k], c.statement_list@[k], NameRel::Bind(t3)) by {
                            assert(binds_statement(ghost_orig[k], c.statement_list@[k], t1));
                        }
                        Self::lemma_walked_compound_intro(st0, *st, NameRel::Bind(t3));
                    }
                }
                Ok(())
            },
            Statement::Simple(s) => {
                let ghost s0 = **s;
                self.simple_statement(s, lex)?;
                proof {
                    assert forall|t3: SymbolTable| extends(self.t, t3) implies #[trigger] walked_statement(st0, *st, NameRel::Bind(t3)) by {
                        assert(walked_simple(s0, **s, NameRel::Bind(t3)));
                    }
                }
                Ok(())
            },
        }
    }

    fn simple_statement(&mut self, s: &mut SimpleStatement, lex: &Lexicon) -> (r: Result<(), CrushError>)
        requires
            unassigned(old(self).t),
            old(self).inv(),
            lex.wf(),
        ensures
            r is Ok ==> binds_simple(*old(s), *final(s), final(self).t),
            unassigned(final(self).t),
            final(self).inv(),
            grows(*old(self), *final(self)),
            old(self).t.pinned_names@.subset_of(final(self).t.pinned_names@),
            r matches Err(e) ==> limit_error(e),
        decreases *old(s), 1nat,
    {
        let ghost s0 = *s;
        match s {
            SimpleStatement::Declaration(d) => {
                let ghost d0 = *d;
                self.declaration(d, lex)?;
                proof {
                    assert forall|t3: SymbolTable| extends(self.t, t3) implies #[trigger] walked_simple(s0, *s, NameRel::Bind(t3)) by {
                        assert(walked_declaration(d0, *d, NameRel::Bind(t3)));
                    }
                }
                Ok(())
            },
            SimpleStatement::Expression(e) => {
                match e {
                    Some(x) => {
                        let ghost x0 = *x;
                        self.expr(x, lex)?;
                proof {
                    assert forall|t3: SymbolTable| extends(self.t, t3) implies #[trigger] walked_simple(s0, *s, NameRel::Bind(t3)) by {
                        assert(walked_expr(x0, *x, NameRel::Bind(t3)));
                    }
                }
                    },
                    None => {
                        proof { lemma_extends_refl(self.t); }
                    },
                }
                Ok(())
            },
            SimpleStatement::Selection(sel) => {
                let ghost c0 = *sel.cond;
                self.expr(&mut sel.cond, lex)?;
                let ghost t1 = self.t;
                match &mut sel.rest {
                    SelectionRestStatement::Statement(st) => {
                        let ghost st0 = **st;
                        self.branch(st, lex)?;
                proof {
                    assert forall|t3: SymbolTable| extends(self.t, t3) implies #[trigger] walked_simple(s0, *s, NameRel::Bind(t3)) by {
                        assert(extends(t1, t3));
                        assert(walked_expr(c0, *sel.cond, NameRel::Bind(t3)));
                        assert(walked_statement(st0, **st, NameRel::Bind(t3)));
                    }
                }
                    },
                    SelectionRestStatement::Else(a, b) => {
                        let ghost a0 = **a;
                        let ghost b0 = **b;
                        self.branch(a, lex)?;
                        let ghost t2 = self.t;
                        self.branch(b, lex)?;
                proof {
                    assert forall|t3: SymbolTable| extends(self.t, t3) implies #[trigger] walked_simple(s0, *s, NameRel::Bind(t3)) by {
                        assert(extends(t1, t3));
                        assert(extends(t2, t3));
                        assert(walked_expr(c0, *sel.cond, NameRel::Bind(t3)));
                        assert(walked_statement(a0, **a, NameRel::Bind(t3)));
                        assert(walked_statement(b0, **b, NameRel::Bind(t3)));
                    }
                }
                    },
                }
                Ok(())
            },
            SimpleStatement::Switch(sw) => {
                let ghost h0 = *sw.head;
                self.expr(&mut sw.head, lex)?;
                let ghost th = self.t;
                self.push_scope(ScopeKind::Switch)?;
                let body = &mut sw.body;
                let ghost orig = body@;
                {
                    assert(forall|k: int| 0 <= k < orig.len() ==> decreases_to!(*old(s) => #[trigger] orig[k]));
                    let ghost tl = self.t;
                    let mut n: usize = 0;
                    while n < body.len()
                        invariant
                            unassigned(self.t),
                            self.inv(),
                            grows(*old(self), *self),
                            old(self).t.pinned_names@.subset_of(self.t.pinned_names@),
                            n <= body@.len(),
                            body@.len() == orig.len(),
                            forall|k: int| n <= k < orig.len() ==> body@[k] == orig[k],
                            forall|k: int| 0 <= k < orig.len() ==> decreases_to!(*old(s) => #[trigger] orig[k]),
                            forall|k: int| 0 <= k < n ==> binds_statement(#[trigger] orig[k], body@[k], self.t),
                            extends(tl, self.t),
                            lex.wf(),
                        decreases body@.len() - n,
                    {
                        assert(body@[n as int] == orig[n as int]);
                        assert(decreases_to!(*old(s) => body[n as int]));
                        let ghost t0 = self.t;
                        self.statement(&mut body[n], lex)?;
                        proof {
                            assert forall|k: int| 0 <= k < n + 1 implies binds_statement(#[trigger] orig[k], body@[k], self.t) by {
                                if k < n {
                                    lemma_binds_statement_lift(orig[k], body@[k], t0, self.t);
                                }
                            }
                        }
                        n = n + 1;
                    }
                }
                let ghost t1 = self.t;
                self.pop_scope();
                proof {
                    assert forall|t3: SymbolTable| extends(self.t, t3) implies #[trigger] walked_simple(s0, *s, NameRel::Bind(t3)) by {
                        assert(extends(th, t3));
                        assert(extends(t1, t3));
                        assert(walked_expr(h0, *sw.head, NameRel::Bind(t3)));
                        assert forall|k: int| 0 <= k < orig.len() implies #[trigger] walked_statement(orig[k], sw.body@[k], NameRel::Bind(t3)) by {
                            assert(binds_statement(orig[k], sw.body@[k], t1));
                        }
                        Self::lemma_walked_switch_intro(s0, *s, NameRel::Bind(t3));
                    }
                }
                Ok(())
            },
            SimpleStatement::CaseLabel(CaseLabel::Case(e)) => {
                let ghost e0 = **e;
                self.expr(e, lex)?;
                proof {
                    assert forall|t3: SymbolTable| extends(self.t, t3) implies #[trigger] walked_simple(s0, *s, NameRel::Bind(t3)) by {
                        assert(walked_expr(e0, **e, NameRel::Bind(t3)));
                    }
                }
                Ok(())
            },
            SimpleStatement::CaseLabel(CaseLabel::Def) => {
                proof { lemma_extends_refl(self.t); }
                Ok(())
            },
            SimpleStatement::Iteration(IterationStatement::While(c, body)) => {
                let ghost c0 = *c;
                let ghost b0 = **body;
                self.push_scope(ScopeKind::Loop)?;
                self.condition(c, lex)?;
                let ghost t1 = self.t;
                self.loop_body(body, lex)?;
                let ghost t2 = self.t;
                self.pop_scope();
                proof {
                    assert forall|t3: SymbolTable| extends(self.t, t3) implies #[trigger] walked_simple(s0, *s, NameRel::Bind(t3)) by {
                        assert(extends(t1, t3));
                        assert(extends(t2, t3));
                        assert(walked_condition(c0, *c, NameRel::Bind(t3)));
                        assert(walked_statement(b0, **body, NameRel::Bind(t3)));
                    }
                }
                Ok(())
            },
            SimpleStatement::Iteration(IterationStatement::DoWhile(body, e)) => {
                let ghost b0 = **body;
                let ghost e0 = **e;
                self.branch(body, lex)?;
                let ghost t1 = self.t;
                self.expr(e, lex)?;
                proof {
                    assert forall|t3: SymbolTable| extends(self.t, t3) implies #[trigger] walked_simple(s0, *s, NameRel::Bind(t3)) by {
                        assert(extends(t1, t3));
                        assert(walked_statement(b0, **body, NameRel::Bind(t3)));
                        assert(walked_expr(e0, **e, NameRel::Bind(t3)));
                    }
                }
                Ok(())
            },
            SimpleStatement::Iteration(IterationStatement::For(init, rest, body)) => {
                let ghost i0 = *init;
                let ghost c0 = rest.condition;
                let ghost p0 = rest.post_expr;
                let ghost b0 = **body;
                self.push_scope(ScopeKind::Loop)?;
                match init {
                    ForInitStatement::Expression(Some(e)) => {
                        let ghost x0 = *e;
                        self.expr(e, lex)?;
                        proof {
                            assert forall|t3: SymbolTable| extends(self.t, t3) implies #[trigger] walked_for_init(i0, *init, NameRel::Bind(t3)) by {
                                assert(walked_expr(x0, *e, NameRel::Bind(t3)));
                            }
                        }
                    },
                    ForInitStatement::Expression(None) => {
                        proof { lemma_extends_refl(self.t); }
                    },
                    ForInitStatement::Declaration(d) => {
                        let ghost d0 = **d;
                        self.declaration(d, lex)?;
                        proof {
                            assert forall|t3: SymbolTable| extends(self.t, t3) implies #[trigger] walked_for_init(i0, *init, NameRel::Bind(t3)) by {
                                assert(walked_declaration(d0, **d, NameRel::Bind(t3)));
                            }
                        }
                    },
                }
                let ghost t1 = self.t;
                match &mut rest.condition {
                    Some(c) => {
                        let ghost cc0 = *c;
                        self.condition(c, lex)?;
                        proof {
                            assert forall|t3: SymbolTable| extends(self.t, t3) implies #[trigger] walked_opt_condition(c0, rest.condition, NameRel::Bind(t3)) by {
                                assert(walked_condition(cc0, *c, NameRel::Bind(t3)));
                            }
                        }
                    },
                    None => {
                        proof { lemma_extends_refl(self.t); }
                    },
                }
                let ghost t2 = self.t;
                match &mut rest.post_expr {
                    Some(e) => {
                        let ghost pe0 = **e;
                        self.expr(e, lex)?;
                        proof {
                            assert forall|t3: SymbolTable| extends(self.t, t3) implies #[trigger] walked_opt_boxed(p0, rest.post_expr, NameRel::Bind(t3)) by {
                                assert(walked_expr(pe0, **e, NameRel::Bind(t3)));
                            }
                        }
                    },
                    None => {
                        proof { lemma_extends_refl(self.t); }
                    },
                }
                let ghost t3b = self.t;
                self.loop_body(body, lex)?;
                let ghost t4 = self.t;
                self.pop_scope();
                proof {
                    assert forall|t3: SymbolTable| extends(self.t, t3) implies #[trigger] walked_simple(s0, *s, NameRel::Bind(t3)) by {
                        assert(extends(t1, t3));
                        assert(extends(t2, t3));
                        assert(extends(t3b, t3));
                        assert(extends(t4, t3));
                        assert(walked_for_init(i0, *init, NameRel::Bind(t3)));
                        assert(walked_opt_condition(c0, rest.condition, NameRel::Bind(t3)));
                        assert(walked_opt_boxed(p0, rest.post_expr, NameRel::Bind(t3)));
                        assert(walked_statement(b0, **body, NameRel::Bind(t3)));
                    }
                }
                Ok(())
            },
            SimpleStatement::Jump(JumpStatement::Return(Some(e))) => {
                let ghost e0 = **e;
                self.expr(e, lex)?;
                proof {
                    assert forall|t3: SymbolTable| extends(self.t, t3) implies #[trigger] walked_simple(s0, *s, NameRel::Bind(t3)) by {
                        assert(walked_expr(e0, **e, NameRel::Bind(t3)));
                    }
                }
                Ok(())
            },
            SimpleStatement::Jump(_) => {
                proof { lemma_extends_refl(self.t); }
                Ok(())
            },
        }
    }

    fn symbol_base(&self, id: SymbolId) -> (r: Base)
        ensures
            r == spec_symbol_base(self.t, id),
    {
        if (id as usize) >= self.t.symbols.len() {
            return Base::Unknown;
        }
        match self.t.symbols[id as usize].ty {
            TypeRef::UserStruct(d) => Base::Struct(d),
            TypeRef::Builtin => Base::NotStruct,
            TypeRef::Opaque => Base::Unknown,
        }
    }

    /// The struct type (if any) of an already-resolved expression.
    fn classify(&self, e: &Expr, lex: &Lexicon) -> (r: Base)
        requires
            lex.wf(),
        ensures
            r == spec_classify(self.t, *e),
        decreases e,
    {
        match e {
            Expr::Variable(s) => match sentinel_id(s.0.as_str()) {
                Some(id) => self.symbol_base(id),
                None => {
                    let c = chars_of(s.0.as_str());
                    if reserved(c.as_slice()) {
                        Base::NotStruct
                    } else {
                        Base::Unknown
                    }
                },
            },
            Expr::IntConst(_) | Expr::UIntConst(_) | Expr::BoolConst(_) | Expr::FloatConst(_) | Expr::DoubleConst(_)
            | Expr::Unary(..) | Expr::Binary(..) | Expr::PostInc(_) | Expr::PostDec(_) => Base::NotStruct,
            Expr::Bracket(inner, _) => self.classify(inner, lex),
            Expr::Dot(inner, f) => match self.classify(inner, lex) {
                Base::Struct(_) => match sentinel_id(f.0.as_str()) {
                    Some(id) => self.symbol_base(id),
                    None => Base::NotStruct,
                },
                Base::NotStruct => Base::NotStruct,
                Base::Unknown => Base::Unknown,
            },
            Expr::FunCall(FunIdentifier::Identifier(s), _) => match sentinel_id(s.0.as_str()) {
                Some(id) => self.symbol_base(id),
                None => {
                    let c = chars_of(s.0.as_str());
                    if lex.keyword(c.as_slice()) || lex.builtin_function(c.as_slice()) {
                        Base::NotStruct
                    } else {
                        Base::Unknown
                    }
                },
            },
            Expr::FunCall(FunIdentifier::Expr(inner), _) => match &**inner {
                Expr::Bracket(b, _) => match &**b {
                    Expr::Variable(s) => match sentinel_id(s.0.as_str()) {
                        Some(id) => self.symbol_base(id),
                        None => {
                            let c = chars_of(s.0.as_str());
                            if lex.keyword(c.as_slice()) {
                                Base::NotStruct
                            } else {
                                Base::Unknown
                            }
                        },
                    },
                    _ => Base::Unknown,
                },
                Expr::Dot(..) => Base::NotStruct,
                _ => Base::Unknown,
            },
            Expr::Ternary(_, a, b) => match (self.classify(a, lex), self.classify(b, lex)) {
                (Base::Struct(x), Base::Struct(y)) => if x == y { Base::Struct(x) } else { Base::Unknown },
                (Base::NotStruct, Base::NotStruct) => Base::NotStruct,
                _ => Base::Unknown,
            },
            Expr::Assignment(l, _, _) => self.classify(l, lex),
            Expr::Comma(_, b) => self.classify(b, lex),
        }
    }

    fn expr(&mut self, e: &mut Expr, lex: &Lexicon) -> (r: Result<(), CrushError>)
        requires
            unassigned(old(self).t),
            old(self).inv(),
            lex.wf(),
        ensures
            r is Ok ==> binds_expr(*old(e), *final(e), final(self).t),
            unassigned(final(self).t),
            final(self).inv(),
            grows(*old(self), *final(self)),
            old(self).t.pinned_names@.subset_of(final(self).t.pinned_names@),
            r matches Err(e) ==> limit_error(e),
        decreases *old(e), 1nat,
    {
        broadcast use lemma_extends_trans;
        match e {
            Expr::Variable(i) => {
                self.use_ident(&mut i.0, lex);
                assert(binds_expr(*old(e), *e, self.t));
                Ok(())
            },
            Expr::IntConst(_) | Expr::UIntConst(_) | Expr::BoolConst(_) | Expr::FloatConst(_) | Expr::DoubleConst(_) => {
                assert(binds_expr(*old(e), *e, self.t));
                Ok(())
            },
            Expr::Unary(_, x) => {
                let ghost x0: Expr = **x;
                let r = self.expr(x, lex);
                proof {
                    if r is Ok {
                        assert forall|t2: SymbolTable| extends(self.t, t2) implies #[trigger] walked_expr(*old(e), *e, NameRel::Bind(t2)) by {
                            assert(walked_expr(x0, **x, NameRel::Bind(t2)));
                        }
                    }
                }
                r
            },
            Expr::PostInc(x) => {
                let ghost x0: Expr = **x;
                let r = self.expr(x, lex);
                proof {
                    if r is Ok {
                        assert forall|t2: SymbolTable| extends(self.t, t2) implies #[trigger] walked_expr(*old(e), *e, NameRel::Bind(t2)) by {
                            assert(walked_expr(x0, **x, NameRel::Bind(t2)));
                        }
                    }
                }
                r
            },
            Expr::PostDec(x) => {
                let ghost x0: Expr = **x;
                let r = self.expr(x, lex);
                proof {
                    if r is Ok {
                        assert forall|t2: SymbolTable| extends(self.t, t2) implies #[trigger] walked_expr(*old(e), *e, NameRel::Bind(t2)) by {
                            assert(walked_expr(x0, **x, NameRel::Bind(t2)));
                        }
                    }
                }
                r
            },
            Expr::Binary(_, l, r) => {
                let ghost a0: Expr = **l;
                let ghost b0: Expr = **r;
                self.expr(l, lex)?;
                let ghost t1 = self.t;
                let res = self.expr(r, lex);
                proof {
                    if res is Ok {
                        assert forall|t2: SymbolTable| extends(self.t, t2) implies #[trigger] walked_expr(*old(e), *e, NameRel::Bind(t2)) by {
                            assert(extends(t1, t2));
                            assert(walked_expr(a0, **l, NameRel::Bind(t2)));
                            assert(walked_expr(b0, **r, NameRel::Bind(t2)));
                        }
                    }
                }
                res
            },
            Expr::Assignment(l, _, r) => {
                let ghost a0: Expr = **l;
                let ghost b0: Expr = **r;
                self.expr(l, lex)?;
                let ghost t1 = self.t;
                let res = self.expr(r, lex);
                proof {
                    if res is Ok {
                        assert forall|t2: SymbolTable| extends(self.t, t2) implies #[trigger] walked_expr(*old(e), *e, NameRel::Bind(t2)) by {
                            assert(extends(t1, t2));
                            assert(walked_expr(a0, **l, NameRel::Bind(t2)));
                            assert(walked_expr(b0, **r, NameRel::Bind(t2)));
                        }
                    }
                }
                res
            },
            Expr::Comma(l, r) => {
                let ghost a0: Expr = **l;
                let ghost b0: Expr = **r;
                self.expr(l, lex)?;
                let ghost t1 = self.t;
                let res = self.expr(r, lex);
                proof {
                    if res is Ok {
                        assert forall|t2: SymbolTable| extends(self.t, t2) implies #[trigger] walked_expr(*old(e), *e, NameRel::Bind(t2)) by {
                            assert(extends(t1, t2));
                            assert(walked_expr(a0, **l, NameRel::Bind(t2)));
                            assert(walked_expr(b0, **r, NameRel::Bind(t2)));
                        }
                    }
                }
                res
            },
            Expr::Ternary(a, b, c) => {
                let ghost a0: Expr = **a;
                let ghost b0: Expr = **b;
                let ghost c0: Expr = **c;
                self.expr(a, lex)?;
                let ghost t1 = self.t;
                self.expr(b, lex)?;
                let ghost t2 = self.t;
                let r = self.expr(c, lex);
                proof {
                    if r is Ok {
                        assert forall|t3: SymbolTable| extends(self.t, t3) implies #[trigger] walked_expr(*old(e), *e, NameRel::Bind(t3)) by {
                            assert(extends(t2, t3));
                            assert(extends(t1, t3));
                            assert(walked_expr(a0, **a, NameRel::Bind(t3)));
                            assert(walked_expr(b0, **b, NameRel::Bind(t3)));
                            assert(walked_expr(c0, **c, NameRel::Bind(t3)));
                        }
                    }
                }
                r
            },
            Expr::Bracket(x, spec) => {
                let ghost x0: Expr = **x;
                let ghost s0 = *spec;
                self.expr(x, lex)?;
                let ghost t1 = self.t;
                let r = self.array_spec(spec, lex);
                proof {
                    if r is Ok {
                        assert forall|t2: SymbolTable| extends(self.t, t2) implies #[trigger] walked_expr(*old(e), *e, NameRel::Bind(t2)) by {
                            assert(extends(t1, t2));
                            assert(walked_expr(x0, **x, NameRel::Bind(t2)));
                            assert(walked_array(s0, *spec, NameRel::Bind(t2)));
                        }
                    }
                }
                r
            },
            Expr::FunCall(fi, args) => {
                let ghost fi0 = *fi;
                match fi {
                    FunIdentifier::Identifier(i) => {
                        let ghost i0 = i.0@;
                        match self.lookup(i.0.as_str()) {
                            Some(s) => {
                                let ghost tl = self.t;
                                self.bind(&mut i.0, s, false);
                                proof {
                                    assert forall|t2: SymbolTable| extends(self.t, t2) implies #[trigger] walked_funid(
                                        fi0,
                                        *fi,
                                        NameRel::Bind(t2),
                                    ) by {
                                        assert(extends(tl, t2));
                                        assert(t2.symbols@[s as int].name@ == tl.symbols@[s as int].name@);
                                        assert(walked_name(i0, i.0@, NameRel::Bind(t2)));
                                    }
                                }
                            },
                            None => {
                                let n = owned(i.0.as_str());
                                self.pin_name(n.as_str(), lex);
                                assert(forall|t2: SymbolTable| extends(self.t, t2) ==> #[trigger] walked_funid(fi0, *fi, NameRel::Bind(t2)));
                            },
                        }
                    },
                    FunIdentifier::Expr(inner) => match &mut **inner {
                        // `a.length()`: the method name is not a field
                        Expr::Dot(base, _) => {
                            let ghost b0: Expr = **base;
                            self.expr(base, lex)?;
                            proof {
                                assert forall|t2: SymbolTable| extends(self.t, t2) implies #[trigger] walked_funid(
                                    fi0,
                                    *fi,
                                    NameRel::Bind(t2),
                                ) by {
                                    assert(walked_expr(b0, **base, NameRel::Bind(t2)));
                                }
                            }
                        },
                        other => {
                            let ghost o0: Expr = *other;
                            self.expr(other, lex)?;
                            proof {
                                assert forall|t2: SymbolTable| extends(self.t, t2) implies #[trigger] walked_funid(
                                    fi0,
                                    *fi,
                                    NameRel::Bind(t2),
                                ) by {
                                    assert(walked_expr(o0, *other, NameRel::Bind(t2)));
                                }
                            }
                        },
                    },
                }
                let ghost t1 = self.t;
                assert(forall|t2: SymbolTable| extends(t1, t2) ==> #[trigger] walked_funid(fi0, *fi, NameRel::Bind(t2)));
                {
                    let ghost orig = args@;
                    assert(forall|k: int| 0 <= k < orig.len() ==> decreases_to!(*old(e) => #[trigger] orig[k]));
                    let mut n: usize = 0;
                    while n < args.len()
                        invariant
                            unassigned(self.t),
                            self.inv(),
                            grows(*old(self), *self),
                            old(self).t.pinned_names@.subset_of(self.t.pinned_names@),
                            n <= args@.len(),
                            args@.len() == orig.len(),
                            forall|k: int| n <= k < orig.len() ==> args@[k] == orig[k],
                            forall|k: int| 0 <= k < orig.len() ==> decreases_to!(*old(e) => #[trigger] orig[k]),
                            lex.wf(),
                            extends(t1, self.t),
                            forall|t2: SymbolTable| extends(t1, t2) ==> #[trigger] walked_funid(fi0, *fi, NameRel::Bind(t2)),
                            forall|k: int| 0 <= k < n ==> binds_expr(#[trigger] orig[k], args@[k], self.t),
                        decreases args@.len() - n,
                    {
                        assert(args@[n as int] == orig[n as int]);
                        assert(decreases_to!(*old(e) => args[n as int]));
                        let ghost t0 = self.t;
                        self.expr(&mut args[n], lex)?;
                        proof {
                            assert forall|k: int| 0 <= k < n + 1 implies binds_expr(#[trigger] orig[k], args@[k], self.t) by {
                                if k < n {
                                    lemma_binds_expr_lift(orig[k], args@[k], t0, self.t);
                                }
                            }
                        }
                        n = n + 1;
                    }
                    proof {
                        assert forall|t2: SymbolTable| extends(self.t, t2) implies #[trigger] walked_expr(*old(e), *e, NameRel::Bind(t2)) by {
                            assert(walked_funid(fi0, *fi, NameRel::Bind(t2)));
                            assert forall|k: int| 0 <= k < orig.len() implies walked_expr(#[trigger] orig[k], args@[k], NameRel::Bind(t2)) by {
                                assert(binds_expr(orig[k], args@[k], self.t));
                            }
                        }
                    }
                }
                Ok(())
            },
            Expr::Dot(base, f) => {
                let ghost b0: Expr = **base;
                let ghost f0 = f.0@;
                self.expr(base, lex)?;
                let ghost t1 = self.t;
                match self.classify(base, lex) {
                    // a struct has no swizzles: every selector is a field, whatever its shape
                    Base::Struct(def) => {
                        let found = if (def as usize) < self.field_names.len() {
                            self.field_names[def as usize].get(f.0.as_str())
                        } else {
                            None
                        };
                        match found {
                            Some(fs) => {
                                if fs <= SENTINEL_MAX - SENTINEL_BASE {
                                    self.bind(&mut f.0, fs, false);
                                }
                            },
                            None => {
                                let ghost t_in = self.t;
                                self.t.pinned_field_names.insert_str(f.0.as_str());
                                proof {
                                    lemma_links_frame(t_in, self.t);
                                }
                            },
                        }
                    },
                    // a swizzle or a member of a builtin struct
                    Base::NotStruct => {},
                    Base::Unknown => {
                        let ghost t_in = self.t;
                        self.t.pinned_field_names.insert_str(f.0.as_str());
                        proof {
                            lemma_links_frame(t_in, self.t);
                        }
                    },
                }
                proof {
                    assert forall|t2: SymbolTable| extends(self.t, t2) implies #[trigger] walked_expr(*old(e), *e, NameRel::Bind(t2)) by {
                        assert(extends(t1, t2));
                        assert(walked_expr(b0, **base, NameRel::Bind(t2)));
                    }
                }
                Ok(())
            },
        }
    }

    fn finalize(self, lex: &Lexicon) -> (r: SymbolTable)
        requires
            lex.wf(),
            unassigned(self.t),
            self.inv(),
        ensures
            symbol_table_wf(r),
            unassigned(r),
            pins_kept_names(r),
            r.pinned_names == self.t.pinned_names,
            r.pinned_field_names == self.t.pinned_field_names,
            extends(self.t, r),
            members_declared_as_fields(r),
    {
        let mut t = self.t;
        let ghost names = t.pinned_names;
        let ghost field_names = t.pinned_field_names;
        let use_sites = self.use_sites;
        let mut u: usize = 0;
        while u < use_sites.len()
            invariant
                members_declared_as_fields(t),
                unassigned(t),
                symbol_table_wf(t),
                u <= use_sites@.len(),
                use_sites@ == self.use_sites@,
                forall|k: int|
                    0 <= k < use_sites@.len() ==> (#[trigger] use_sites@[k]).0 < t.symbols@.len() && use_sites@[k].1
                        < t.scopes@.len(),
                t.pinned_names == names,
                t.pinned_field_names == field_names,
                extends(self.t, t),
                t.symbols@.len() == self.t.symbols@.len(),
                t.scopes@.len() == self.t.scopes@.len(),
            decreases use_sites@.len() - u,
        {
            let (sym, sc) = use_sites[u];
            // the chain of scopes from the use site up to the global scope
            let mut chain: Vec<u32> = Vec::new();
            let mut s = Some(sc);
            let mut fuel = t.scopes.len();
            while fuel > 0
                invariant
                    symbol_table_wf(t),
                    fuel <= t.scopes@.len(),
                    sc < t.scopes@.len(),
                    s matches Some(c) ==> c < fuel,
                    chain@.len() == 0 ==> s == Some(sc),
                    chain@.len() > 0 ==> parent_of(t, chain@.last() as int) == s,
                    forall|j: int| 0 <= j < chain@.len() ==> (#[trigger] chain@[j]) < t.scopes@.len(),
                    forall|j: int| 0 <= j < chain@.len() - 1 ==> parent_of(t, #[trigger] chain@[j] as int) == Some(chain@[j + 1]),
                ensures
                    s is None,
                    symbol_table_wf(t),
                    chain@.len() == 0 ==> s == Some(sc),
                    chain@.len() > 0 ==> parent_of(t, chain@.last() as int) == s,
                    forall|j: int| 0 <= j < chain@.len() ==> (#[trigger] chain@[j]) < t.scopes@.len(),
                    forall|j: int| 0 <= j < chain@.len() - 1 ==> parent_of(t, #[trigger] chain@[j] as int) == Some(chain@[j + 1]),
                decreases fuel,
            {
                match s {
                    None => break,
                    Some(id) => {
                        let ghost before = chain@;
                        chain.push(id);
                        s = t.scopes[id as usize].parent;
                        proof {
                            assert forall|j: int| 0 <= j < chain@.len() - 1 implies parent_of(t, #[trigger] chain@[j] as int) == Some(chain@[j + 1]) by {
                                if j < before.len() - 1 {
                                    assert(chain@[j] == before[j] && chain@[j + 1] == before[j + 1]);
                                } else {
                                    assert(chain@[j] == before.last());
                                }
                            }
                        }
                        fuel = fuel - 1;
                    },
                }
            }
            assert(chain@.len() > 0 ==> parent_of(t, chain@.last() as int) is None);
            // mark the use from the outermost scope inwards, so that each
            // scope's parent already holds it
            let mut k = chain.len();
            while k > 0
                invariant
                    members_declared_as_fields(t),
                    unassigned(t),
                    symbol_table_wf(t),
                    t.pinned_names == names,
                    t.pinned_field_names == field_names,
                    extends(self.t, t),
                    t.symbols@.len() == self.t.symbols@.len(),
                    t.scopes@.len() == self.t.scopes@.len(),
                    sym < t.symbols@.len(),
                    k <= chain@.len(),
                    forall|j: int| 0 <= j < chain@.len() ==> (#[trigger] chain@[j]) < t.scopes@.len(),
                    forall|j: int| 0 <= j < chain@.len() - 1 ==> parent_of(t, #[trigger] chain@[j] as int) == Some(chain@[j + 1]),
                    chain@.len() > 0 ==> parent_of(t, chain@.last() as int) is None,
                    k < chain@.len() ==> t.scopes@[chain@[k as int] as int].referenced@.contains(sym),
                decreases k,
            {
                k = k - 1;
                let id = chain[k];
                let ghost t_in = t;
                proof {
                    if k + 1 < chain@.len() {
                        assert(parent_of(t, chain@[k as int] as int) == Some(chain@[k + 1]));
                    }
                }
                t.scopes[id as usize].referenced.insert(sym);
                proof {
                    lemma_links_reference(t_in, t, id as int, sym);
                    assert forall|j: int| 0 <= j < chain@.len() - 1 implies parent_of(t, #[trigger] chain@[j] as int) == Some(chain@[j + 1]) by {
                        assert(parent_of(t_in, chain@[j] as int) == Some(chain@[j + 1]));
                    }
                    if chain@.len() > 0 {
                        assert(parent_of(t_in, chain@.last() as int) is None);
                    }
                }
            }
            u = u + 1;
        }
        let mut id: usize = 0;
        while id < t.symbols.len()
            invariant
                members_declared_as_fields(t),
                unassigned(t),
                symbol_table_wf(t),
                lex.wf(),
                t.pinned_names == names,
                t.pinned_field_names == field_names,
                extends(self.t, t),
                forall|j: int|
                    0 <= j < id && j < t.symbols@.len() && must_keep_name(#[trigger] t.symbols@[j], t.pinned_names@, t.pinned_field_names@)
                        ==> t.symbols@[j].pinned is Some,
            decreases t.symbols@.len() - id,
        {
            let name = owned(t.symbols[id].name.as_str());
            let kind = t.symbols[id].kind;
            let c = chars_of(name.as_str());
            let ghost t_in = t;
            match kind {
                SymbolKind::Field(_) => {
                    if t.pinned_field_names.contains(name.as_str()) && t.symbols[id].pinned.is_none() {
                        t.symbols[id].pinned = Some(PinReason::FieldNameOpaque);
                    }
                    if swizzle(c.as_slice()) && t.symbols[id].pinned.is_none() {
                        t.symbols[id].pinned = Some(PinReason::SwizzleShaped);
                    }
                },
                _ => {
                    if t.pinned_names.contains(name.as_str()) && t.symbols[id].pinned.is_none() {
                        t.symbols[id].pinned = Some(PinReason::Protected);
                    }
                },
            }
            if reserved(c.as_slice()) && t.symbols[id].pinned.is_none() {
                t.symbols[id].pinned = Some(PinReason::Reserved);
            }
            proof {
                lemma_links_frame(t_in, t);
            }
            id = id + 1;
        }
        // a pinned variable of struct type is addressed as `name.field` by
        // the application: its fields (recursively) keep their names too
        let mut work: Vec<StructId> = Vec::new();
        let mut k: usize = 0;
        while k < t.symbols.len()
            invariant
                members_declared_as_fields(t),
                unassigned(t),
                symbol_table_wf(t),
                pins_kept_names(t),
                t.pinned_names == names,
                t.pinned_field_names == field_names,
                extends(self.t, t),
            decreases t.symbols@.len() - k,
        {
            if t.symbols[k].pinned.is_some() && t.symbols[k].kind != SymbolKind::StructType {
                match t.symbols[k].ty {
                    TypeRef::UserStruct(d) => work.push(d),
                    _ => {},
                }
            }
            k = k + 1;
        }
        let mut done = IdSet::new();
        let extra = t.symbols.len();
        let mut fuel = work.len();
        if fuel <= usize::MAX - extra {
            fuel = fuel + extra;
        }
        if fuel < usize::MAX {
            fuel = fuel + 1;
        }
        while fuel > 0 && work.len() > 0
            invariant
                members_declared_as_fields(t),
                unassigned(t),
                symbol_table_wf(t),
                pins_kept_names(t),
                t.pinned_names == names,
                t.pinned_field_names == field_names,
                extends(self.t, t),
            decreases fuel,
        {
            fuel = fuel - 1;
            let def = match work.pop() {
                Some(d) => d,
                None => break,
            };
            if !done.insert(def) {
                continue;
            }
            if (def as usize) >= t.structs.len() {
                continue;
            }
            let fields = t.structs[def as usize].fields.clone();
            let mut f: usize = 0;
            while f < fields.len()
                invariant
                    members_declared_as_fields(t),
                    unassigned(t),
                    symbol_table_wf(t),
                symbol_table_wf(t),
                    f <= fields@.len(),
                    pins_kept_names(t),
                    t.pinned_names == names,
                    t.pinned_field_names == field_names,
                    extends(self.t, t),
                decreases fields@.len() - f,
            {
                let fs = fields[f];
                if (fs as usize) < t.symbols.len() {
                    let ghost t_in = t;
                    if t.symbols[fs as usize].pinned.is_none() {
                        t.symbols[fs as usize].pinned = Some(PinReason::ApiStruct);
                    }
                    proof {
                        lemma_links_frame(t_in, t);
                    }
                    match t.symbols[fs as usize].ty {
                        TypeRef::UserStruct(d) => work.push(d),
                        _ => {},
                    }
                }
                f = f + 1;
            }
        }
        t
    }
}

/// Resolve every identifier of `tu` (rewriting bound identifiers to
/// placeholders) and return the symbol table.
pub fn resolve(tu: &mut TranslationUnit, prot: &Protection) -> (r: Result<SymbolTable, CrushError>)
    ensures
        r matches Ok(t) ==> symbol_table_wf(t),
        r matches Ok(t) ==> pins_kept_names(t),
        r matches Ok(t) ==> unassigned(t),
        r matches Ok(t) ==> prot.names@.subset_of(t.pinned_names@),
        r matches Err(e) ==> limit_error(e),
        r matches Ok(t) ==> binds_unit(*old(tu), *final(tu), t),
        r matches Ok(t) ==> members_declared_as_fields(t),
{
    let lex = Lexicon::new();
    let mut res = Resolver::new(prot);
    let eds = &mut tu.0.0;
    let ghost orig = eds@;
    let ghost len = eds@.len();
    let mut n: usize = 0;
    while n < eds.len()
        invariant
            n <= eds@.len(),
            eds@.len() == len,
            orig.len() == len,
            forall|k: int| n <= k < len ==> eds@[k] == orig[k],
            forall|k: int| 0 <= k < n ==> binds_external(#[trigger] orig[k], eds@[k], res.t),
            lex.wf(),
            unassigned(res.t),
            res.inv(),
            prot.names@.subset_of(res.t.pinned_names@),
        decreases eds@.len() - n,
    {
        let ghost t0 = res.t;
        let ghost e0 = eds@[n as int];
        match &mut eds[n] {
            ExternalDeclaration::Preprocessor(_) => {
                proof {
                    assert forall|t3: SymbolTable| extends(res.t, t3) implies #[trigger] walked_external(e0, eds@[n as int], NameRel::Bind(t3)) by {
                        lemma_walked_pp_same(e0->Preprocessor_0, t3);
                    }
                }
            },
            ExternalDeclaration::FunctionDefinition(fd) => {
                let ghost p0 = fd.prototype;
                res.function_begin(&mut fd.prototype, &lex)?;
                let ghost tp = res.t;
                let list = &mut fd.statement.statement_list;
                let ghost orig2 = list@;
                let ghost len2 = list@.len();
                let mut k: usize = 0;
                while k < list.len()
                    invariant
                        k <= list@.len(),
                        list@.len() == len2,
                        orig2.len() == len2,
                        forall|m: int| k <= m < len2 ==> list@[m] == orig2[m],
                        forall|m: int| 0 <= m < k ==> binds_statement(#[trigger] orig2[m], list@[m], res.t),
                        extends(tp, res.t),
                        lex.wf(),
                        unassigned(res.t),
                        res.inv(),
                        prot.names@.subset_of(res.t.pinned_names@),
                    decreases list@.len() - k,
                {
                    let ghost t1 = res.t;
                    res.statement(&mut list[k], &lex)?;
                    proof {
                        assert forall|m: int| 0 <= m < k + 1 implies binds_statement(#[trigger] orig2[m], list@[m], res.t) by {
                            if m < k {
                                lemma_binds_statement_lift(orig2[m], list@[m], t1, res.t);
                            }
                        }
                    }
                    k = k + 1;
                }
                let ghost t2 = res.t;
                res.pop_scope();
                proof {
                    assert forall|t3: SymbolTable| extends(res.t, t3) implies #[trigger] walked_external(e0, eds@[n as int], NameRel::Bind(t3)) by {
                        assert(extends(t2, t3));
                        assert(extends(tp, t3));
                        assert(walked_prototype(p0, fd.prototype, NameRel::Bind(t3)));
                        assert forall|m: int| 0 <= m < len2 implies #[trigger] walked_statement(orig2[m], fd.statement.statement_list@[m], NameRel::Bind(t3)) by {
                            assert(binds_statement(orig2[m], fd.statement.statement_list@[m], t2));
                        }
                        lemma_walked_fundef_intro(e0, eds@[n as int], NameRel::Bind(t3));
                    }
                }
            },
            ExternalDeclaration::Declaration(d) => {
                let ghost d0 = *d;
                res.declaration(d, &lex)?;
                proof {
                    assert forall|t3: SymbolTable| extends(res.t, t3) implies #[trigger] walked_external(e0, eds@[n as int], NameRel::Bind(t3)) by {
                        assert(walked_declaration(d0, *d, NameRel::Bind(t3)));
                    }
                }
            },
        }
        proof {
            assert forall|k: int| 0 <= k < n + 1 implies binds_external(#[trigger] orig[k], eds@[k], res.t) by {
                if k < n {
                    lemma_binds_external_lift(orig[k], eds@[k], t0, res.t);
                }
            }
        }
        n = n + 1;
    }
    let ghost tr = res.t;
    let t = res.finalize(&lex);
    proof {
        assert forall|t3: SymbolTable| extends(t, t3) implies #[trigger] walked_unit(*old(tu), *tu, NameRel::Bind(t3)) by {
            lemma_extends_trans(tr, t, t3);
            assert forall|k: int| 0 <= k < len implies #[trigger] walked_external(orig[k], tu.0.0@[k], NameRel::Bind(t3)) by {
                assert(binds_external(orig[k], tu.0.0@[k], tr));
            }
        }
    }
    Ok(t)
}

/// A directive is left as it is by the binding walk.
proof fn lemma_walked_pp_same(p: Preprocessor, t: SymbolTable)
    ensures
        walked_external(ExternalDeclaration::Preprocessor(p), ExternalDeclaration::Preprocessor(p), NameRel::Bind(t)),
{
    match p {
        Preprocessor::Define(PreprocessorDefine::FunctionLike { ident, args, value }) => {
            assert(forall|k: int| 0 <= k < args@.len() ==> walked_name(#[trigger] args@[k].0@, args@[k].0@, NameRel::Bind(t)));
        },
        _ => {},
    }
}

proof fn lemma_walked_fundef_intro(a: ExternalDeclaration, b: ExternalDeclaration, r: NameRel)
    requires
        a is FunctionDefinition,
        b is FunctionDefinition,
        walked_prototype(a->FunctionDefinition_0.prototype, b->FunctionDefinition_0.prototype, r),
        a->FunctionDefinition_0.statement.statement_list@.len() == b->FunctionDefinition_0.statement.statement_list@.len(),
        forall|k: int| 0 <= k < a->FunctionDefinition_0.statement.statement_list@.len() ==> #[trigger] walked_statement(
            a->FunctionDefinition_0.statement.statement_list@[k],
            b->FunctionDefinition_0.statement.statement_list@[k],
            r,
        ),
    ensures
        walked_external(a, b, r),
{
    let f1 = a->FunctionDefinition_0;
    let f2 = b->FunctionDefinition_0;
    assert(walked_external(a, b, r) == (walked_prototype(f1.prototype, f2.prototype, r)
        && f1.statement.statement_list@.len() == f2.statement.statement_list@.len() && forall|k: int|
        0 <= k < f1.statement.statement_list@.len() ==> walked_statement(
            #[trigger] f1.statement.statement_list@[k],
            f2.statement.statement_list@[k],
            r,
        )));
}

} // verus!
