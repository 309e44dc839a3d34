//! Names that must not be renamed because of things the tree walk cannot
//! see: preprocessor text, `#pragma SHADER_CRUSHER_OFF` regions, the
//! caller's blocklist, interface blocks and builtin structure members.
use vstd::prelude::*;
use crate::builtins::Lexicon;
use crate::error::CrushError;
use crate::lexer::{identifiers, ident_texts, spec_tokens};
use crate::names::NameSet;
use crate::syntax::{TranslationUnit, ExternalDeclaration, Declaration, Preprocessor, PreprocessorDefine};
use crate::text::{chars_of, string_of, str_eq};
use crate::walk::{NameOp, NameRel, walked_external, walk_external, walk_unit, is_pragma, in_names_external, op_set, op_gathers, op_members};
use crate::equality::clone_translation_unit;

verus! {

broadcast use vstd::string::group_string_axioms;

#[derive(Debug, Default, Clone)]
pub struct Protection {
    /// Identifiers (variables, functions, types) pinned file-wide.
    pub names: NameSet,
    /// Names pinned when they appear as a `.member` selector.
    pub field_names: NameSet,
}

impl Protection {
    /// Nothing protected.
    pub fn new() -> (r: Protection)
        ensures
            r.names@ == Set::<Seq<char>>::empty(),
            r.field_names@ == Set::<Seq<char>>::empty(),
    {
        Protection { names: NameSet::new(), field_names: NameSet::new() }
    }
}

/// `s` without leading and trailing ASCII whitespace.
pub open spec fn spec_trim(s: Seq<char>) -> Seq<char> {
    crate::text::trim_end(crate::text::trim_start(s))
}

fn trim(s: &str) -> (r: String)
    ensures
        r@ == spec_trim(s@),
{
    let c = chars_of(s);
    proof {
        assert(c@.subrange(0, c@.len() as int) =~= c@);
    }
    let a = crate::text::skip_ws(c.as_slice(), 0);
    let mut rest: Vec<char> = Vec::new();
    let mut k = a;
    while k < c.len()
        invariant
            a <= k <= c@.len(),
            rest@ == c@.subrange(a as int, k as int),
        decreases c@.len() - k,
    {
        rest.push(c[k]);
        k = k + 1;
        assert(rest@ =~= c@.subrange(a as int, k as int));
    }
    proof {
        assert(c@.subrange(0, c@.len() as int) =~= c@);
    }
    let e = crate::text::end_without_ws(rest.as_slice(), rest.len());
    proof {
        assert(rest@.subrange(0, rest@.len() as int) =~= rest@);
    }
    let mut out: Vec<char> = Vec::new();
    let mut k: usize = 0;
    while k < e
        invariant
            k <= e,
            e <= rest@.len(),
            out@ == rest@.subrange(0, k as int),
        decreases e - k,
    {
        out.push(rest[k]);
        k = k + 1;
        assert(out@ =~= rest@.subrange(0, k as int));
    }
    string_of(out.as_slice())
}

/// The command of a `#pragma` directive, without surrounding whitespace.
pub fn pragma_command(ed: &ExternalDeclaration) -> (r: Option<String>)
    ensures
        r matches Some(c) ==> ed matches ExternalDeclaration::Preprocessor(Preprocessor::Pragma(p)) && c@
            == spec_trim(p.command@),
        r is None ==> !(ed matches ExternalDeclaration::Preprocessor(Preprocessor::Pragma(_))),
{
    match ed {
        ExternalDeclaration::Preprocessor(Preprocessor::Pragma(p)) => Some(trim(p.command.as_str())),
        _ => None,
    }
}

/// The identifiers of the text `s` (a macro body or a condition).
pub open spec fn text_ids(s: Seq<char>) -> Seq<Seq<char>> {
    ident_texts(spec_tokens(s))
}

/// Whether `x` is spelled like one of `args`.
pub open spec fn is_arg(args: Seq<crate::syntax::Identifier>, x: Seq<char>) -> bool {
    exists|k: int| 0 <= k < args.len() && args[k].0@ == x
}

/// Add every identifier of the text `s` to `names` and to `fields`, except
/// those spelled like one of `except`.
fn pin_text_identifiers(s: &str, except: &Vec<crate::syntax::Identifier>, names: &mut NameSet, fields: &mut NameSet)
    ensures
        old(names)@.subset_of(final(names)@),
        old(fields)@.subset_of(final(fields)@),
        forall|i: int|
            0 <= i < text_ids(s@).len() && !is_arg(except@, #[trigger] text_ids(s@)[i]) ==> final(names)@.contains(
                text_ids(s@)[i],
            ) && final(fields)@.contains(text_ids(s@)[i]),
        forall|w: Seq<char>| #[trigger] final(names)@.contains(w) ==> old(names)@.contains(w) || (text_ids(s@).contains(w) && !is_arg(except@, w)),
        forall|w: Seq<char>| #[trigger] final(fields)@.contains(w) ==> old(fields)@.contains(w) || (text_ids(s@).contains(w) && !is_arg(except@, w)),
{
    let ids = identifiers(s);
    let ghost t = text_ids(s@);
    assert(ids@.map_values(|x: &str| x@) == t);
    let mut k: usize = 0;
    while k < ids.len()
        invariant
            k <= ids@.len(),
            ids@.map_values(|x: &str| x@) == t,
            old(names)@.subset_of(names@),
            old(fields)@.subset_of(fields@),
            forall|i: int|
                0 <= i < k && !is_arg(except@, #[trigger] t[i]) ==> names@.contains(t[i]) && fields@.contains(t[i]),
            forall|w: Seq<char>| #[trigger] names@.contains(w) ==> old(names)@.contains(w) || (t.contains(w) && !is_arg(except@, w)),
            forall|w: Seq<char>| #[trigger] fields@.contains(w) ==> old(fields)@.contains(w) || (t.contains(w) && !is_arg(except@, w)),
        decreases ids@.len() - k,
    {
        let id = ids[k];
        assert(t[k as int] == id@);
        let mut is_param = false;
        let mut m: usize = 0;
        while m < except.len()
            invariant
                m <= except@.len(),
                is_param ==> is_arg(except@, id@),
                !is_param ==> forall|j: int| 0 <= j < m ==> except@[j].0@ != id@,
            decreases except@.len() - m,
        {
            if str_eq(except[m].0.as_str(), id) {
                is_param = true;
            }
            m = m + 1;
        }
        if !is_param {
            assert(t.contains(id@));
            names.insert_str(id);
            fields.insert_str(id);
        }
        k = k + 1;
    }
}

/// Whether `ed` is one of the crusher's own pragmas.
pub open spec fn is_crusher_pragma(ed: ExternalDeclaration) -> bool {
    match ed {
        ExternalDeclaration::Preprocessor(Preprocessor::Pragma(p)) => spec_trim(p.command@) == "SHADER_CRUSHER_OFF"@
            || spec_trim(p.command@) == "SHADER_CRUSHER_ON"@,
        _ => false,
    }
}

/// What `run` pins for the declaration `ed`: the name of a macro and the
/// identifiers of its body (but its parameters), the names in `#undef`,
/// `#ifdef`, `#ifndef`, the identifiers of `#if`/`#elif` conditions, and
/// the name and members of an interface block (the members as field names
/// too).
pub open spec fn pinned_by_directive(ed: ExternalDeclaration, names: Set<Seq<char>>, fields: Set<Seq<char>>) -> bool {
    match ed {
        ExternalDeclaration::Preprocessor(Preprocessor::Define(PreprocessorDefine::ObjectLike { ident, value })) => names.contains(
            ident.0@,
        ) && forall|i: int|
            0 <= i < text_ids(value@).len() ==> names.contains(#[trigger] text_ids(value@)[i]) && fields.contains(
                text_ids(value@)[i],
            ),
        ExternalDeclaration::Preprocessor(Preprocessor::Define(PreprocessorDefine::FunctionLike { ident, args, value })) => names.contains(
            ident.0@,
        ) && forall|i: int|
            0 <= i < text_ids(value@).len() && !is_arg(args@, #[trigger] text_ids(value@)[i]) ==> names.contains(
                text_ids(value@)[i],
            ) && fields.contains(text_ids(value@)[i]),
        ExternalDeclaration::Preprocessor(Preprocessor::Undef(u)) => names.contains(u.name.0@),
        ExternalDeclaration::Preprocessor(Preprocessor::IfDef(d)) => names.contains(d.ident.0@),
        ExternalDeclaration::Preprocessor(Preprocessor::IfNDef(d)) => names.contains(d.ident.0@),
        ExternalDeclaration::Preprocessor(Preprocessor::If(c)) => forall|i: int|
            0 <= i < text_ids(c.condition@).len() ==> names.contains(#[trigger] text_ids(c.condition@)[i]),
        ExternalDeclaration::Preprocessor(Preprocessor::ElIf(c)) => forall|i: int|
            0 <= i < text_ids(c.condition@).len() ==> names.contains(#[trigger] text_ids(c.condition@)[i]),
        ExternalDeclaration::Declaration(Declaration::Block(b)) => names.contains(b.name.0@) && forall|g: int, k: int|
            0 <= g < b.fields@.len() && 0 <= k < b.fields@[g].identifiers.0@.len() ==> names.contains(
                #[trigger] b.fields@[g].identifiers.0@[k].ident.0@,
            ) && fields.contains(b.fields@[g].identifiers.0@[k].ident.0@),
        _ => true,
    }
}

/// The names that `run` may pin for the declaration `ed`: a macro's name
/// and the identifiers of its body but its parameters, the names in
/// `#undef`, `#ifdef`, `#ifndef`, the identifiers of `#if`/`#elif`
/// conditions, and the name and members of an interface block.
pub open spec fn directive_name(ed: ExternalDeclaration, w: Seq<char>) -> bool {
    match ed {
        ExternalDeclaration::Preprocessor(Preprocessor::Define(PreprocessorDefine::ObjectLike { ident, value })) => w == ident.0@
            || text_ids(value@).contains(w),
        ExternalDeclaration::Preprocessor(Preprocessor::Define(PreprocessorDefine::FunctionLike { ident, args, value })) => w
            == ident.0@ || (text_ids(value@).contains(w) && !is_arg(args@, w)),
        ExternalDeclaration::Preprocessor(Preprocessor::Undef(u)) => w == u.name.0@,
        ExternalDeclaration::Preprocessor(Preprocessor::IfDef(d)) => w == d.ident.0@,
        ExternalDeclaration::Preprocessor(Preprocessor::IfNDef(d)) => w == d.ident.0@,
        ExternalDeclaration::Preprocessor(Preprocessor::If(c)) => text_ids(c.condition@).contains(w),
        ExternalDeclaration::Preprocessor(Preprocessor::ElIf(c)) => text_ids(c.condition@).contains(w),
        ExternalDeclaration::Declaration(Declaration::Block(b)) => w == b.name.0@ || block_member(b.fields@, w),
        _ => false,
    }
}

/// `w` names a member of one of the interface block fields `fs`.
pub open spec fn block_member(fs: Seq<crate::syntax::StructFieldSpecifier>, w: Seq<char>) -> bool {
    exists|g: int, k: int| 0 <= g < fs.len() && 0 <= k < fs[g].identifiers.0@.len() && #[trigger] fs[g].identifiers.0@[k].ident.0@ == w
}

/// The field names that `run` may pin for the declaration `ed`: the
/// identifiers of a macro body but its parameters, and the members of an
/// interface block.
pub open spec fn directive_field(ed: ExternalDeclaration, w: Seq<char>) -> bool {
    match ed {
        ExternalDeclaration::Preprocessor(Preprocessor::Define(PreprocessorDefine::ObjectLike { ident, value })) => text_ids(value@).contains(w),
        ExternalDeclaration::Preprocessor(Preprocessor::Define(PreprocessorDefine::FunctionLike { ident, args, value })) => text_ids(
            value@,
        ).contains(w) && !is_arg(args@, w),
        ExternalDeclaration::Declaration(Declaration::Block(b)) => block_member(b.fields@, w),
        _ => false,
    }
}

/// `w` is an identifier or type name of a declaration among the first `n`
/// of `eds` that stands in a `SHADER_CRUSHER_OFF` region.
pub open spec fn off_name(eds: Seq<ExternalDeclaration>, n: int, w: Seq<char>) -> bool {
    exists|j: int| 0 <= j < n && !crushing_before(eds, j) && !is_crusher_pragma(eds[j]) && #[trigger] in_names_external(eds[j], false, w)
}

/// `w` is one of the names the first `n` declarations of `eds` and the
/// blocklist `bl` may pin: `main`, an entry of the blocklist, a name that a
/// directive pins, or a name in an OFF region.
pub open spec fn may_pin_name(eds: Seq<ExternalDeclaration>, n: int, bl: Seq<String>, w: Seq<char>) -> bool {
    ||| w == "main"@
    ||| exists|i: int| 0 <= i < bl.len() && #[trigger] bl[i]@ == w
    ||| exists|j: int| 0 <= j < n && #[trigger] directive_name(eds[j], w)
    ||| off_name(eds, n, w)
}

/// `w` is one of the field names the first `n` declarations of `eds` may
/// pin before the builtin members are added: one a directive pins, or a
/// name in an OFF region.
pub open spec fn may_pin_field(eds: Seq<ExternalDeclaration>, n: int, w: Seq<char>) -> bool {
    ||| exists|j: int| 0 <= j < n && #[trigger] directive_field(eds[j], w)
    ||| off_name(eds, n, w)
}

/// A name the first `n` declarations may pin, the first `m >= n` may pin too.
proof fn lemma_may_pin_grows(eds: Seq<ExternalDeclaration>, n: int, m: int, bl: Seq<String>)
    requires
        n <= m,
    ensures
        forall|w: Seq<char>| may_pin_name(eds, n, bl, w) ==> #[trigger] may_pin_name(eds, m, bl, w),
        forall|w: Seq<char>| may_pin_field(eds, n, w) ==> #[trigger] may_pin_field(eds, m, w),
{
    assert forall|w: Seq<char>| off_name(eds, n, w) implies #[trigger] off_name(eds, m, w) by {
        let j = choose|j: int| 0 <= j < n && !crushing_before(eds, j) && !is_crusher_pragma(eds[j]) && #[trigger] in_names_external(eds[j], false, w);
        assert(in_names_external(eds[j], false, w));
    }
}

/// What is pinned stays pinned as the sets grow.
proof fn lemma_pinned_grows(
    ed: ExternalDeclaration,
    n0: Set<Seq<char>>,
    f0: Set<Seq<char>>,
    n1: Set<Seq<char>>,
    f1: Set<Seq<char>>,
)
    requires
        pinned_by_directive(ed, n0, f0),
        n0.subset_of(n1),
        f0.subset_of(f1),
    ensures
        pinned_by_directive(ed, n1, f1),
{
}

/// Whether `ed` is the pragma `SHADER_CRUSHER_OFF` (`on`: `_ON`).
pub open spec fn is_switch(ed: ExternalDeclaration, on: bool) -> bool {
    match ed {
        ExternalDeclaration::Preprocessor(Preprocessor::Pragma(p)) => spec_trim(p.command@) == (if on {
            "SHADER_CRUSHER_ON"@
        } else {
            "SHADER_CRUSHER_OFF"@
        }),
        _ => false,
    }
}

/// Whether the declarations from `j` on are crushed: no OFF pragma before
/// them, or an ON pragma after the last one.
pub open spec fn crushing_before(eds: Seq<ExternalDeclaration>, j: int) -> bool
    decreases j,
{
    if j <= 0 || j > eds.len() {
        true
    } else if is_switch(eds[j - 1], false) {
        false
    } else if is_switch(eds[j - 1], true) {
        true
    } else {
        crushing_before(eds, j - 1)
    }
}

/// The declarations of `eds` that are not the crusher's own pragmas, in
/// their order.
pub open spec fn kept_declarations(eds: Seq<ExternalDeclaration>) -> Seq<ExternalDeclaration> {
    eds.filter(|e: ExternalDeclaration| !is_crusher_pragma(e))
}

proof fn lemma_kept_push(s: Seq<ExternalDeclaration>, x: ExternalDeclaration)
    ensures
        kept_declarations(s.push(x)) == (if is_crusher_pragma(x) {
            kept_declarations(s)
        } else {
            kept_declarations(s).push(x)
        }),
{
    reveal(Seq::filter);
    assert(s.push(x).drop_last() =~= s);
}

/// `b` is the declaration `a` as it was, or `a` after a walk that maps
/// every name to itself.
pub open spec fn kept_as_is(a: ExternalDeclaration, b: ExternalDeclaration) -> bool {
    b == a || walked_external(a, b, NameRel::Rename(None))
}

/// Every identifier and type name of `ed` is in `names` and in `fields`.
pub open spec fn all_pinned(ed: ExternalDeclaration, names: Set<Seq<char>>, fields: Set<Seq<char>>) -> bool {
    forall|w: Seq<char>| #[trigger] in_names_external(ed, false, w) ==> names.contains(w) && fields.contains(w)
}

/// Compute the protection sets for `tu` and remove the crusher's own
/// `#pragma SHADER_CRUSHER_OFF/ON` directives from it.
///
/// - every identifier inside an OFF region (until the next ON) is pinned;
/// - macro names, the identifiers in macro bodies and in `#if`/`#elif`
///   conditions, `#ifdef`/`#ifndef`/`#undef` names are pinned (macro
///   parameters are not: they are local to the `#define` line, which the
///   crusher never touches);
/// - interface block names and members are pinned (API-visible);
/// - builtin structure members that appear as `.member` are pinned as
///   field names.
///
/// `Unsupported` when nothing is left after removing the pragmas.
pub fn run(tu: &mut TranslationUnit, blocklist: &[String]) -> (r: Result<Protection, CrushError>)
    ensures
        r is Ok ==> final(tu).0.0@.len() > 0,
        r is Ok ==> forall|i: int| 0 <= i < final(tu).0.0@.len() ==> !is_crusher_pragma(#[trigger] final(tu).0.0@[i]),
        r is Err <==> forall|i: int| 0 <= i < old(tu).0.0@.len() ==> is_crusher_pragma(#[trigger] old(tu).0.0@[i]),
        r matches Ok(p) ==> p.names@.contains("main"@),
        r matches Ok(p) ==> forall|i: int| 0 <= i < old(tu).0.0@.len() ==> pinned_by_directive(#[trigger] old(tu).0.0@[i], p.names@, p.field_names@),
        r matches Ok(p) ==> forall|i: int|
            0 <= i < old(tu).0.0@.len() && !crushing_before(old(tu).0.0@, i) ==> all_pinned(#[trigger] old(tu).0.0@[i], p.names@, p.field_names@),
        r matches Ok(p) ==> forall|i: int| 0 <= i < blocklist@.len() ==> p.names@.contains(#[trigger] blocklist@[i]@),
        r matches Ok(p) ==> forall|w: Seq<char>|
            #[trigger] p.names@.contains(w) ==> may_pin_name(old(tu).0.0@, old(tu).0.0@.len() as int, blocklist@, w),
        r matches Ok(p) ==> forall|w: Seq<char>|
            #[trigger] p.field_names@.contains(w) ==> may_pin_field(old(tu).0.0@, old(tu).0.0@.len() as int, w) || exists|c: TranslationUnit|
                crate::equality::same_translation_unit(*final(tu), c) && #[trigger] crate::walk::in_names_unit(c, true, w),
        r matches Err(e) ==> e is Unsupported,
        r matches Err(CrushError::Unsupported(m)) ==> m@ == "nothing left after removing the SHADER_CRUSHER pragmas"@,
        final(tu).0.0@.len() == kept_declarations(old(tu).0.0@).len(),
        forall|i: int| 0 <= i < final(tu).0.0@.len() ==> kept_as_is(kept_declarations(old(tu).0.0@)[i], #[trigger] final(tu).0.0@[i]),
{
    let mut p = Protection::new();
    p.names.insert_str("main");
    let mut b: usize = 0;
    while b < blocklist.len()
        invariant
            b <= blocklist@.len(),
            p.names@.contains("main"@),
            forall|i: int| 0 <= i < b ==> p.names@.contains(#[trigger] blocklist@[i]@),
            p.field_names@ == Set::<Seq<char>>::empty(),
            forall|w: Seq<char>|
                #[trigger] p.names@.contains(w) ==> w == "main"@ || exists|i: int| 0 <= i < b && #[trigger] blocklist@[i]@ == w,
        decreases blocklist@.len() - b,
    {
        p.names.insert_str(blocklist[b].as_str());
        assert(blocklist@[b as int]@ == blocklist@[b as int]@);
        b = b + 1;
    }
    let lex = Lexicon::new();
    let mut crushing = true;
    let mut keep: Vec<ExternalDeclaration> = Vec::new();
    let mut eds: Vec<ExternalDeclaration> = Vec::new();
    std::mem::swap(&mut eds, &mut tu.0.0);
    let ghost orig = eds@;
    assert(orig == old(tu).0.0@);
    let off = "SHADER_CRUSHER_OFF";
    let on = "SHADER_CRUSHER_ON";
    while eds.len() > 0
        invariant
            p.names@.contains("main"@),
            forall|i: int| 0 <= i < blocklist@.len() ==> p.names@.contains(#[trigger] blocklist@[i]@),
            eds@.len() <= orig.len(),
            eds@ == orig.subrange(orig.len() - eds@.len(), orig.len() as int),
            forall|k: int| 0 <= k < keep@.len() ==> !is_crusher_pragma(#[trigger] keep@[k]),
            keep@.len() == kept_declarations(orig.subrange(0, orig.len() - eds@.len())).len(),
            forall|k: int| 0 <= k < keep@.len() ==> kept_as_is(kept_declarations(orig.subrange(0, orig.len() - eds@.len()))[k], #[trigger] keep@[k]),
            keep@.len() == 0 <==> forall|j: int| 0 <= j < orig.len() - eds@.len() ==> is_crusher_pragma(#[trigger] orig[j]),
            off@ == "SHADER_CRUSHER_OFF"@,
            on@ == "SHADER_CRUSHER_ON"@,
            forall|j: int| 0 <= j < orig.len() - eds@.len() ==> pinned_by_directive(#[trigger] orig[j], p.names@, p.field_names@),
            crushing == crushing_before(orig, orig.len() - eds@.len()),
            forall|j: int|
                0 <= j < orig.len() - eds@.len() && !crushing_before(orig, j) ==> all_pinned(#[trigger] orig[j], p.names@, p.field_names@),
            forall|w: Seq<char>| #[trigger] p.names@.contains(w) ==> may_pin_name(orig, orig.len() - eds@.len(), blocklist@, w),
            forall|w: Seq<char>| #[trigger] p.field_names@.contains(w) ==> may_pin_field(orig, orig.len() - eds@.len(), w),
        decreases eds@.len(),
    {
        let ghost done = orig.len() - eds@.len();
        let mut ed = eds.remove(0);
        proof {
            assert(ed == orig[done]);
            assert(eds@ =~= orig.subrange(orig.len() - eds@.len(), orig.len() as int));
            assert(orig.subrange(0, done + 1) =~= orig.subrange(0, done).push(orig[done]));
            lemma_kept_push(orig.subrange(0, done), orig[done]);
        }
        match pragma_command(&ed) {
            Some(c) => {
                if str_eq(c.as_str(), off) {
                    crushing = false;
                    proof {
                        lemma_may_pin_grows(orig, done, done + 1, blocklist@);
                        assert(is_crusher_pragma(orig[done]));
                        assert forall|j: int| 0 <= j < orig.len() - eds@.len() implies (keep@.len() == 0 ==> is_crusher_pragma(#[trigger] orig[j])) by {
                            if j < done {
                            }
                        }
                    }
                    continue;
                }
                if str_eq(c.as_str(), on) {
                    crushing = true;
                    proof {
                        lemma_may_pin_grows(orig, done, done + 1, blocklist@);
                        assert(is_crusher_pragma(orig[done]));
                        assert forall|j: int| 0 <= j < orig.len() - eds@.len() implies (keep@.len() == 0 ==> is_crusher_pragma(#[trigger] orig[j])) by {
                            if j < done {
                            }
                        }
                    }
                    continue;
                }
            },
            None => {},
        }
        let ghost n0 = p.names@;
        let ghost f0 = p.field_names@;
        match &ed {
            ExternalDeclaration::Preprocessor(pp) => match pp {
                Preprocessor::Define(PreprocessorDefine::ObjectLike { ident, value }) => {
                    p.names.insert_str(ident.0.as_str());
                    let none: Vec<crate::syntax::Identifier> = Vec::new();
                    pin_text_identifiers(value.as_str(), &none, &mut p.names, &mut p.field_names);
                },
                Preprocessor::Define(PreprocessorDefine::FunctionLike { ident, args, value }) => {
                    p.names.insert_str(ident.0.as_str());
                    pin_text_identifiers(value.as_str(), args, &mut p.names, &mut p.field_names);
                },
                Preprocessor::Undef(u) => p.names.insert_str(u.name.0.as_str()),
                Preprocessor::IfDef(d) => p.names.insert_str(d.ident.0.as_str()),
                Preprocessor::IfNDef(d) => p.names.insert_str(d.ident.0.as_str()),
                Preprocessor::If(i) => {
                    let ids = identifiers(i.condition.as_str());
                    let ghost t = text_ids(i.condition@);
                    let mut k: usize = 0;
                    while k < ids.len()
                        invariant
                            k <= ids@.len(),
                            ids@.map_values(|x: &str| x@) == t,
                            n0.subset_of(p.names@),
                            f0.subset_of(p.field_names@),
                            forall|j: int| 0 <= j < k ==> p.names@.contains(#[trigger] t[j]),
                            p.field_names@ == f0,
                            forall|w: Seq<char>| #[trigger] p.names@.contains(w) ==> n0.contains(w) || t.contains(w),
                        decreases ids@.len() - k,
                    {
                        assert(t[k as int] == ids@[k as int]@);
                        assert(t.contains(ids@[k as int]@));
                        p.names.insert_str(ids[k]);
                        k = k + 1;
                    }
                },
                Preprocessor::ElIf(i) => {
                    let ids = identifiers(i.condition.as_str());
                    let ghost t = text_ids(i.condition@);
                    let mut k: usize = 0;
                    while k < ids.len()
                        invariant
                            k <= ids@.len(),
                            ids@.map_values(|x: &str| x@) == t,
                            n0.subset_of(p.names@),
                            f0.subset_of(p.field_names@),
                            forall|j: int| 0 <= j < k ==> p.names@.contains(#[trigger] t[j]),
                            p.field_names@ == f0,
                            forall|w: Seq<char>| #[trigger] p.names@.contains(w) ==> n0.contains(w) || t.contains(w),
                        decreases ids@.len() - k,
                    {
                        assert(t[k as int] == ids@[k as int]@);
                        assert(t.contains(ids@[k as int]@));
                        p.names.insert_str(ids[k]);
                        k = k + 1;
                    }
                },
                _ => {},
            },
            ExternalDeclaration::Declaration(Declaration::Block(b)) => {
                p.names.insert_str(b.name.0.as_str());
                let mut f: usize = 0;
                while f < b.fields.len()
                    invariant
                        f <= b.fields@.len(),
                        n0.subset_of(p.names@),
                        f0.subset_of(p.field_names@),
                        p.names@.contains(b.name.0@),
                        forall|w: Seq<char>| #[trigger] p.names@.contains(w) ==> n0.contains(w) || w == b.name.0@ || block_member(b.fields@, w),
                        forall|w: Seq<char>| #[trigger] p.field_names@.contains(w) ==> f0.contains(w) || block_member(b.fields@, w),
                        forall|g: int, k: int|
                            0 <= g < f && 0 <= k < b.fields@[g].identifiers.0@.len() ==> p.names@.contains(
                                #[trigger] b.fields@[g].identifiers.0@[k].ident.0@,
                            ) && p.field_names@.contains(b.fields@[g].identifiers.0@[k].ident.0@),
                    decreases b.fields@.len() - f,
                {
                    let ids = &b.fields[f].identifiers.0;
                    let mut k: usize = 0;
                    while k < ids.len()
                        invariant
                            k <= ids@.len(),
                            f < b.fields@.len(),
                            ids@ == b.fields@[f as int].identifiers.0@,
                            n0.subset_of(p.names@),
                            f0.subset_of(p.field_names@),
                            p.names@.contains(b.name.0@),
                            forall|w: Seq<char>| #[trigger] p.names@.contains(w) ==> n0.contains(w) || w == b.name.0@ || block_member(b.fields@, w),
                            forall|w: Seq<char>| #[trigger] p.field_names@.contains(w) ==> f0.contains(w) || block_member(b.fields@, w),
                            forall|g: int, j: int|
                                0 <= g < f && 0 <= j < b.fields@[g].identifiers.0@.len() ==> p.names@.contains(
                                    #[trigger] b.fields@[g].identifiers.0@[j].ident.0@,
                                ) && p.field_names@.contains(b.fields@[g].identifiers.0@[j].ident.0@),
                            forall|j: int|
                                0 <= j < k ==> p.names@.contains(#[trigger] ids@[j].ident.0@) && p.field_names@.contains(
                                    ids@[j].ident.0@,
                                ),
                        decreases ids@.len() - k,
                    {
                        assert(block_member(b.fields@, ids@[k as int].ident.0@)) by {
                            assert(b.fields@[f as int].identifiers.0@[k as int].ident.0@ == ids@[k as int].ident.0@);
                        }
                        p.names.insert_str(ids[k].ident.0.as_str());
                        p.field_names.insert_str(ids[k].ident.0.as_str());
                        k = k + 1;
                    }
                    f = f + 1;
                }
            },
            _ => {},
        }
        proof {
            assert forall|w: Seq<char>| #[trigger] p.names@.contains(w) implies may_pin_name(orig, done + 1, blocklist@, w) by {
                lemma_may_pin_grows(orig, done, done + 1, blocklist@);
                if !n0.contains(w) {
                    assert(directive_name(orig[done], w));
                }
            }
            assert forall|w: Seq<char>| #[trigger] p.field_names@.contains(w) implies may_pin_field(orig, done + 1, w) by {
                lemma_may_pin_grows(orig, done, done + 1, blocklist@);
                if !f0.contains(w) {
                    assert(directive_field(orig[done], w));
                }
            }
            assert(pinned_by_directive(orig[done], p.names@, p.field_names@));
            assert forall|j: int| 0 <= j < done implies pinned_by_directive(#[trigger] orig[j], p.names@, p.field_names@) by {
                lemma_pinned_grows(orig[j], n0, f0, p.names@, p.field_names@);
            }
        }
        let ghost ed0 = ed;
        if !crushing {
            let ghost n1 = p.names@;
            let ghost f1 = p.field_names@;
            let mut op = NameOp::Collect(NameSet::new());
            walk_external(&mut ed, &mut op);
            assert(walked_external(ed0, ed, NameRel::Rename(None)));
            match op {
                NameOp::Collect(set) => {
                    p.field_names.extend(&set);
                    p.names.extend(&set);
                },
                _ => {},
            }
            proof {
                assert forall|j: int| 0 <= j <= done implies pinned_by_directive(#[trigger] orig[j], p.names@, p.field_names@) by {
                    lemma_pinned_grows(orig[j], n1, f1, p.names@, p.field_names@);
                }
                assert(!is_crusher_pragma(orig[done]));
                assert forall|w: Seq<char>| #[trigger] p.names@.contains(w) implies may_pin_name(orig, done + 1, blocklist@, w) by {
                    if !n1.contains(w) {
                        assert(in_names_external(orig[done], false, w));
                        assert(off_name(orig, done + 1, w));
                    }
                }
                assert forall|w: Seq<char>| #[trigger] p.field_names@.contains(w) implies may_pin_field(orig, done + 1, w) by {
                    if !f1.contains(w) {
                        assert(in_names_external(orig[done], false, w));
                        assert(off_name(orig, done + 1, w));
                    }
                }
            }
        }
        let ghost before = keep@;
        assert(kept_as_is(ed0, ed));
        keep.push(ed);
        proof {
            assert(keep@[before.len() as int] == ed);
            assert(ed0 == orig[done]);
            assert forall|k: int| 0 <= k < keep@.len() implies kept_as_is(kept_declarations(orig.subrange(0, done + 1))[k], #[trigger] keep@[k]) by {
                if k < before.len() {
                    assert(keep@[k] == before[k]);
                }
            }
            assert(!is_crusher_pragma(ed));
            assert forall|k: int| 0 <= k < keep@.len() implies !is_crusher_pragma(#[trigger] keep@[k]) by {
                if k < before.len() {
                    assert(keep@[k] == before[k]);
                }
            }
            assert(!is_crusher_pragma(orig[done]));
        }
    }
    proof {
        assert(orig.len() - eds@.len() == orig.len());
        assert(orig.subrange(0, orig.len() as int) =~= orig);
    }
    if keep.len() == 0 {
        let msg = string_of(chars_of("nothing left after removing the SHADER_CRUSHER pragmas").as_slice());
        return Err(CrushError::Unsupported(msg));
    }
    tu.0.0 = keep;
    let mut copy = clone_translation_unit(tu);
    let ghost c0 = copy;
    let ghost fb = p.field_names@;
    let mut op = NameOp::BuiltinMembers(NameSet::new(), &lex);
    walk_unit(&mut copy, &mut op);
    match op {
        NameOp::BuiltinMembers(set, _) => p.field_names.extend(&set),
        _ => {},
    }
    proof {
        assert forall|w: Seq<char>| #[trigger] p.field_names@.contains(w) && !fb.contains(w) implies crate::equality::same_translation_unit(*tu, c0)
            && crate::walk::in_names_unit(c0, true, w) by {}
    }
    Ok(p)
}

} // verus!
