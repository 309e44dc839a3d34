//! Verify the crusher's own output: it must parse again, to exactly the
//! tree the crusher meant to print, and every identifier in it must bind
//! the way the original did.
use vstd::prelude::*;
use crate::equality::{eq_external_declaration, clone_translation_unit, same_vec_external_declaration, same_translation_unit,
    same_external_declaration};
use crate::error::CrushError;
use crate::parser::parse_translation_unit_with_rest;
use crate::protect::Protection;
use crate::scope::{self, SymbolTable, SymbolKind, printed_name, binds_unit};
use crate::syntax::TranslationUnit;
use crate::text::{chars_of, string_of, extend_str, extend_chars, decimal_chars, str_eq};

verus! {

broadcast use vstd::string::group_string_axioms;

/// A message under construction.
struct Msg {
    text: Vec<char>,
}

impl Msg {
    fn new(s: &str) -> (r: Msg)
        ensures
            r.text@ == s@,
    {
        let mut text: Vec<char> = Vec::new();
        extend_str(&mut text, s);
        Msg { text }
    }

    fn add(&mut self, s: &str)
        ensures
            final(self).text@ == old(self).text@ + s@,
    {
        extend_str(&mut self.text, s);
    }

    fn num(&mut self, n: usize) {
        let d = decimal_chars(n as u64);
        extend_chars(&mut self.text, d.as_slice());
    }

    fn done(&self) -> (r: String)
        ensures
            r@ == self.text@,
    {
        string_of(self.text.as_slice())
    }
}

/// At most the first `max` characters of `s` (an ellipsis marks a cut).
fn truncate(s: &str, max: usize) -> (r: String)
    ensures
        r@ == (if s@.len() <= max {
            s@
        } else {
            s@.take(max as int).push('…')
        }),
{
    let c = chars_of(s);
    if c.len() <= max {
        return string_of(c.as_slice());
    }
    let mut v: Vec<char> = Vec::new();
    let mut k: usize = 0;
    while k < max
        invariant
            k <= max,
            max < c@.len(),
            c@ == s@,
            v@ == c@.take(k as int),
        decreases max - k,
    {
        v.push(c[k]);
        k = k + 1;
        assert(v@ =~= c@.take(k as int));
    }
    v.push('…');
    string_of(v.as_slice())
}

/// Whether `s` holds only whitespace.
pub fn is_blank(s: &str) -> (r: bool)
    ensures
        r == (forall|i: int| 0 <= i < s@.len() ==> crate::text::is_uws(#[trigger] s@[i])),
{
    let c = chars_of(s);
    let mut k: usize = 0;
    while k < c.len()
        invariant
            k <= c@.len(),
            c@ == s@,
            forall|i: int| 0 <= i < k ==> crate::text::is_uws(#[trigger] s@[i]),
        decreases c@.len() - k,
    {
        if !crate::text::uws(c[k]) {
            return false;
        }
        k = k + 1;
    }
    true
}

/// The first 60 characters of `rest` after its leading whitespace.
pub fn rest_excerpt(rest: &str) -> (r: String)
    ensures
        r@ == crate::text::trim_start(rest@).take(
            if crate::text::trim_start(rest@).len() < 60 { crate::text::trim_start(rest@).len() as int } else { 60 },
        ),
{
    let c = chars_of(rest);
    let a = crate::text::skip_ws(c.as_slice(), 0);
    proof {
        assert(c@.subrange(0, c@.len() as int) =~= c@);
    }
    let mut v: Vec<char> = Vec::new();
    let mut k = a;
    while k < c.len() && k - a < 60
        invariant
            a <= k <= c@.len(),
            k - a <= 60,
            v@ == c@.subrange(a as int, k as int),
        decreases c@.len() - k,
    {
        v.push(c[k]);
        k = k + 1;
        proof {
            assert(v@ =~= c@.subrange(a as int, k as int));
        }
    }
    proof {
        assert(v@ =~= c@.subrange(a as int, c@.len() as int).take((k - a) as int));
    }
    string_of(v.as_slice())
}

/// The parse of `s` stopped at `k` with only white space after it.
pub open spec fn reads_completely(s: Seq<char>, k: int) -> bool {
    &&& 0 <= k <= s.len()
    &&& crate::parser::stops_at(s, k)
    &&& forall|i: int| k <= i < s.len() ==> crate::text::is_uws(#[trigger] s[i])
}

/// The message of an output that parses only up to `k`.
pub open spec fn trailing_message(s: Seq<char>, k: int) -> Seq<char> {
    let t = crate::text::trim_start(s.subrange(k, s.len() as int));
    "unparsed trailing output: \""@ + t.take(if t.len() < 60 { t.len() as int } else { 60 }) + "\""@
}

/// Parse the crusher's output; `Reparse` when it does not parse or only
/// partly.
pub fn reparse(output: &str) -> (r: Result<TranslationUnit, CrushError>)
    ensures
        r matches Err(e) ==> e is Reparse,
        r matches Ok(tu) ==> tu.0.0@.len() > 0 && exists|k: int| #[trigger] reads_completely(output@, k),
        r matches Err(CrushError::Reparse(m)) ==> (exists|pos: int| 0 <= pos <= output@.len() && m@ == #[trigger] crate::parser::error_text(output@, pos))
            || (exists|k: int| 0 <= k < output@.len() && crate::parser::stops_at(output@, k) && !reads_completely(output@, k) && m@ == #[trigger] trailing_message(output@, k)),
{
    match parse_translation_unit_with_rest(output) {
        Ok((tu, rest)) => {
            let ghost k = output@.len() - rest@.len();
            if !is_blank(rest) {
                let mut m = Msg::new("unparsed trailing output: \"");
                let ex = rest_excerpt(rest);
                m.add(ex.as_str());
                m.add("\"");
                let d = m.done();
                proof {
                    assert(!reads_completely(output@, k)) by {
                        if reads_completely(output@, k) {
                            assert forall|j: int| 0 <= j < rest@.len() implies crate::text::is_uws(#[trigger] rest@[j]) by {
                                assert(rest@[j] == output@[k + j]);
                            }
                        }
                    }
                    assert(rest@ == output@.subrange(k, output@.len() as int));
                    assert(d@ =~= trailing_message(output@, k));
                }
                return Err(CrushError::Reparse(d));
            }
            proof {
                assert forall|i: int| k <= i < output@.len() implies crate::text::is_uws(#[trigger] output@[i]) by {
                    assert(output@[i] == rest@[i - k]);
                }
                assert(reads_completely(output@, k));
            }
            Ok(tu)
        },
        Err(e) => Err(CrushError::Reparse(e.info)),
    }
}

/// `AstMismatch` unless `tu` and `expected` are the same tree.
pub fn ast_equals(tu: &TranslationUnit, expected: &TranslationUnit) -> (r: Result<(), CrushError>)
    ensures
        r is Ok <==> same_vec_external_declaration(tu.0.0, expected.0.0),
        r matches Err(e) ==> e is AstMismatch,
{
    let got = &tu.0.0;
    let want = &expected.0.0;
    let mut i: usize = 0;
    while i < got.len() && i < want.len()
        invariant
            got@ == tu.0.0@,
            want@ == expected.0.0@,
            i <= got@.len(),
            i <= want@.len(),
            forall|k: int| 0 <= k < i ==> same_external_declaration(#[trigger] got@[k], want@[k]),
        decreases got@.len() - i,
    {
        if !eq_external_declaration(&got[i], &want[i]) {
            assert(!same_external_declaration(got@[i as int], want@[i as int]));
            let mut m = Msg::new("external declaration ");
            m.num(i);
            m.add(" reads back differently from what was printed");
            return Err(CrushError::AstMismatch(m.done()));
        }
        i = i + 1;
    }
    if got.len() != want.len() {
        let mut m = Msg::new("");
        m.num(want.len());
        m.add(" external declarations printed, ");
        m.num(got.len());
        m.add(" read back");
        return Err(CrushError::AstMismatch(m.done()));
    }
    assert(same_vec_external_declaration(tu.0.0, expected.0.0));
    Ok(())
}

/// Re-parse `output` and compare it with `expected`.
pub fn reparse_equals(output: &str, expected: &TranslationUnit) -> (r: Result<(), CrushError>)
    ensures
        r matches Err(e) ==> e is Reparse || e is AstMismatch,
        r is Ok ==> exists|k: int| #[trigger] reads_completely(output@, k),
        r is Ok ==> exists|tu: TranslationUnit| #[trigger] same_vec_external_declaration(tu.0.0, expected.0.0),
{
    let tu = reparse(output)?;
    let r = ast_equals(&tu, expected);
    proof {
        if r is Ok {
            assert(same_vec_external_declaration(tu.0.0, expected.0.0));
        }
    }
    r
}

/// The word a message uses for a kind of symbol.
spec fn spec_kind_name(k: SymbolKind) -> Seq<char> {
    match k {
        SymbolKind::Variable => "variable"@,
        SymbolKind::Parameter => "parameter"@,
        SymbolKind::Function => "function"@,
        SymbolKind::StructType => "struct type"@,
        SymbolKind::BlockInstance => "block instance"@,
        SymbolKind::Field(_) => "field"@,
    }
}

fn kind_name(k: SymbolKind) -> (r: &'static str)
    ensures
        r@ == spec_kind_name(k),
{
    match k {
        SymbolKind::Variable => "variable",
        SymbolKind::Parameter => "parameter",
        SymbolKind::Function => "function",
        SymbolKind::StructType => "struct type",
        SymbolKind::BlockInstance => "block instance",
        SymbolKind::Field(_) => "field",
    }
}

/// The name symbol `i` is printed with.
fn final_name(table: &SymbolTable, i: usize) -> (r: &str)
    requires
        i < table.symbols@.len(),
    ensures
        r@ == printed_name(*table, i as int),
{
    match &table.symbols[i].new_name {
        Some(n) => n.as_str(),
        None => table.symbols[i].name.as_str(),
    }
}

/// A fresh table of a tree agrees with `table`: the same symbols, with the
/// same kinds and scopes, each spelled as `table` prints it, and the same
/// occurrence sequence.
pub open spec fn tables_agree(fresh: SymbolTable, table: SymbolTable) -> bool {
    &&& fresh.symbols@.len() == table.symbols@.len()
    &&& forall|i: int| 0 <= i < table.symbols@.len() ==> {
        &&& (#[trigger] fresh.symbols@[i]).kind == table.symbols@[i].kind
        &&& fresh.symbols@[i].scope == table.symbols@[i].scope
        &&& fresh.symbols@[i].name@ == printed_name(table, i)
    }
    &&& fresh.occ@ == table.occ@
}

/// A resolution of (a copy of) `tu` gives a table that agrees with `table`.
pub open spec fn binding_agrees(tu: TranslationUnit, table: SymbolTable) -> bool {
    exists|c0: TranslationUnit, c: TranslationUnit, fresh: SymbolTable|
        same_translation_unit(tu, c0) && #[trigger] binds_unit(c0, c, fresh) && tables_agree(fresh, table)
}

/// A resolution of (a copy of) `tu` gives a table that disagrees with
/// `table`.
pub open spec fn binding_differs(tu: TranslationUnit, table: SymbolTable) -> bool {
    exists|c0: TranslationUnit, c: TranslationUnit, fresh: SymbolTable|
        same_translation_unit(tu, c0) && #[trigger] binds_unit(c0, c, fresh) && !tables_agree(fresh, table)
}

/// Resolve `tu` afresh and check that its binding structure is the one in
/// `table` (same symbols, kinds, scopes and occurrence sequence) and that
/// every symbol carries the name the renamer chose.
pub fn scope_isomorphic(tu: &TranslationUnit, table: &SymbolTable) -> (r: Result<(), CrushError>)
    ensures
        r matches Err(e) ==> e is ScopeMismatch || scope::limit_error(e),
        r is Ok ==> exists|c0: TranslationUnit, c: TranslationUnit, fresh: SymbolTable|
            same_translation_unit(*tu, c0) && #[trigger] binds_unit(c0, c, fresh) && tables_agree(fresh, *table),
        r matches Err(CrushError::ScopeMismatch(_)) ==> exists|c0: TranslationUnit, c: TranslationUnit, fresh: SymbolTable|
            same_translation_unit(*tu, c0) && #[trigger] binds_unit(c0, c, fresh) && !tables_agree(fresh, *table),
{
    let mut copy = clone_translation_unit(tu);
    let ghost c0 = copy;
    let t2 = match scope::resolve(&mut copy, &Protection::new()) {
        Ok(t) => t,
        Err(e) => {
            return Err(e);
        },
    };
    assert(binds_unit(c0, copy, t2));
    if t2.symbols.len() != table.symbols.len() {
        let mut m = Msg::new("");
        m.num(table.symbols.len());
        m.add(" symbols before, ");
        m.num(t2.symbols.len());
        m.add(" after");
        assert(!tables_agree(t2, *table));
        return Err(CrushError::ScopeMismatch(m.done()));
    }
    let mut i: usize = 0;
    while i < t2.symbols.len()
        invariant
            t2.symbols@.len() == table.symbols@.len(),
            binds_unit(c0, copy, t2),
            same_translation_unit(*tu, c0),
            forall|j: int| 0 <= j < i ==> {
                &&& (#[trigger] t2.symbols@[j]).kind == table.symbols@[j].kind
                &&& t2.symbols@[j].scope == table.symbols@[j].scope
                &&& t2.symbols@[j].name@ == printed_name(*table, j)
            },
        decreases t2.symbols@.len() - i,
    {
        let a = &t2.symbols[i];
        let b = &table.symbols[i];
        let want = final_name(table, i);
        if a.kind != b.kind || a.scope != b.scope || !str_eq(a.name.as_str(), want) {
            let mut m = Msg::new("symbol ");
            m.num(i);
            m.add(": ");
            m.add(kind_name(b.kind));
            m.add(" ");
            m.add(want);
            m.add(" (scope ");
            m.num(b.scope as usize);
            m.add(") became ");
            m.add(kind_name(a.kind));
            m.add(" ");
            m.add(a.name.as_str());
            m.add(" (scope ");
            m.num(a.scope as usize);
            m.add(")");
            assert(!tables_agree(t2, *table));
            return Err(CrushError::ScopeMismatch(m.done()));
        }
        i = i + 1;
    }
    let mut k: usize = 0;
    while k < t2.occ.len() && k < table.occ.len()
        invariant
            binds_unit(c0, copy, t2),
            same_translation_unit(*tu, c0),
            forall|j: int| 0 <= j < k ==> t2.occ@[j] == table.occ@[j],
            k <= t2.occ@.len(),
            k <= table.occ@.len(),
        decreases t2.occ@.len() - k,
    {
        if t2.occ[k] != table.occ[k] {
            let mut m = Msg::new("occurrence ");
            m.num(k);
            m.add(" binds differently");
            assert(!tables_agree(t2, *table));
            return Err(CrushError::ScopeMismatch(m.done()));
        }
        k = k + 1;
    }
    if t2.occ.len() != table.occ.len() {
        let mut m = Msg::new("");
        m.num(table.occ.len());
        m.add(" occurrences before, ");
        m.num(t2.occ.len());
        m.add(" after");
        assert(!tables_agree(t2, *table));
        return Err(CrushError::ScopeMismatch(m.done()));
    }
    assert(t2.occ@ =~= table.occ@);
    assert(tables_agree(t2, *table));
    assert(binds_unit(c0, copy, t2));
    Ok(())
}

/// Struct type `t` and symbol `s` are printed alike although the renamer
/// named one of them.
pub open spec fn type_collision(table: SymbolTable, t: int, s: int) -> bool {
    &&& t != s
    &&& table.symbols@[t].kind == SymbolKind::StructType
    &&& (table.symbols@[s].new_name is Some || table.symbols@[t].new_name is Some)
    &&& printed_name(table, s) == printed_name(table, t)
}

/// `NameCollision` when a struct type ends up with the printed name of
/// another symbol that the renamer named (a variable spelled like a
/// visible type would lex as that type).
pub fn type_names_distinct(table: &SymbolTable) -> (r: Result<(), CrushError>)
    ensures
        r is Ok <==> !exists|t: int, s: int|
            0 <= t < table.symbols@.len() && 0 <= s < table.symbols@.len() && #[trigger] type_collision(*table, t, s),
        r matches Err(e) ==> e is NameCollision,
{
    let n = table.symbols.len();
    let mut t: usize = 0;
    while t < n
        invariant
            n == table.symbols@.len(),
            t <= n,
            forall|a: int, b: int| 0 <= a < t && 0 <= b < n ==> !#[trigger] type_collision(*table, a, b),
        decreases n - t,
    {
        if table.symbols[t].kind == SymbolKind::StructType {
            let tn = final_name(table, t);
            let mut s: usize = 0;
            while s < n
                invariant
                    n == table.symbols@.len(),
                    t < n,
                    s <= n,
                    table.symbols@[t as int].kind == SymbolKind::StructType,
                    tn@ == printed_name(*table, t as int),
                    forall|a: int, b: int| 0 <= a < t && 0 <= b < n ==> !#[trigger] type_collision(*table, a, b),
                    forall|b: int| 0 <= b < s ==> !#[trigger] type_collision(*table, t as int, b),
                decreases n - s,
            {
                if s != t {
                    let renamed = table.symbols[s].new_name.is_some() || table.symbols[t].new_name.is_some();
                    if renamed && str_eq(final_name(table, s), tn) {
                        assert(type_collision(*table, t as int, s as int));
                        let mut m = Msg::new("type ");
                        m.add(tn);
                        m.add(" is also the name of a ");
                        m.add(kind_name(table.symbols[s].kind));
                        return Err(CrushError::NameCollision(m.done()));
                    }
                }
                s = s + 1;
            }
        }
        proof {
            assert forall|a: int, b: int| 0 <= a < t + 1 && 0 <= b < n implies !#[trigger] type_collision(*table, a, b) by {
                if a == t as int {
                    if table.symbols@[t as int].kind == SymbolKind::StructType {
                    }
                }
            }
        }
        t = t + 1;
    }
    Ok(())
}

/// The full self-check: re-parse, compare the tree, compare the binding.
pub fn run(output: &str, expected: &TranslationUnit, table: &SymbolTable) -> (r: Result<(), CrushError>)
    ensures
        r matches Err(e) ==> e is Reparse || e is AstMismatch || e is ScopeMismatch || scope::limit_error(e),
        r is Ok ==> exists|k: int| #[trigger] reads_completely(output@, k),
        r is Ok ==> exists|tu: TranslationUnit| #[trigger] same_vec_external_declaration(tu.0.0, expected.0.0) && binding_agrees(tu, *table),
        r matches Err(CrushError::Reparse(m)) ==> (exists|pos: int| 0 <= pos <= output@.len() && m@ == #[trigger] crate::parser::error_text(output@, pos))
            || (exists|k: int| 0 <= k < output@.len() && crate::parser::stops_at(output@, k) && !reads_completely(output@, k) && m@ == #[trigger] trailing_message(output@, k)),
        r matches Err(CrushError::AstMismatch(_)) ==> exists|k: int| #[trigger] reads_completely(output@, k),
        r matches Err(CrushError::ScopeMismatch(_)) ==> exists|k: int| #[trigger] reads_completely(output@, k),
        r matches Err(CrushError::ScopeMismatch(_)) ==> exists|tu: TranslationUnit| #[trigger] same_vec_external_declaration(tu.0.0, expected.0.0) && binding_differs(tu, *table),
{
    let tu = reparse(output)?;
    ast_equals(&tu, expected)?;
    let r = scope_isomorphic(&tu, table);
    proof {
        assert(same_vec_external_declaration(tu.0.0, expected.0.0));
        if r is Ok {
            assert(binding_agrees(tu, *table));
        }
        if r matches Err(CrushError::ScopeMismatch(_)) {
            assert(binding_differs(tu, *table));
        }
    }
    r
}

} // verus!
