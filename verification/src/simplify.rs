//! Tree rewrites that never change meaning. They run before identifier
//! resolution, so the self-check compares the printed output against the
//! rewritten tree.
use vstd::prelude::*;
use crate::syntax::{TranslationUnit, ExternalDeclaration, Declaration, FunctionPrototype,
    FunctionParameterDeclaration, TypeSpecifierNonArray, Statement, SimpleStatement,
    SelectionRestStatement, IterationStatement, ForInitStatement};

verus! {

/// Which rewrites to apply; every one is individually switchable so its
/// effect on compressed size can be measured.
#[derive(Debug, Clone, Copy, PartialEq, Eq, Structural)]
pub struct Flags {
    /// `void f(void)` becomes `void f()`.
    pub void_params: bool,
    /// An empty `{}` statement becomes `;`.
    pub empty_compound: bool,
}

impl Default for Flags {
    fn default() -> (r: Flags)
        ensures
            r.void_params && r.empty_compound,
    {
        Flags { void_params: true, empty_compound: true }
    }
}

impl Flags {
    /// Names of the rewrites as the command line spells them.
    pub fn names() -> (r: Vec<&'static str>)
        ensures
            r@.len() == 2,
            r@[0]@ == "void-params"@,
            r@[1]@ == "empty-compound"@,
    {
        let mut v: Vec<&'static str> = Vec::new();
        v.push("void-params");
        v.push("empty-compound");
        v
    }

    /// Switch off the rewrite called `name`; false for an unknown name.
    pub fn disable(&mut self, name: &str) -> (known: bool)
        ensures
            known == (name@ == "void-params"@ || name@ == "empty-compound"@),
            name@ == "void-params"@ ==> *final(self) == (Flags { void_params: false, ..*old(self) }),
            name@ == "empty-compound"@ ==> *final(self) == (Flags { empty_compound: false, ..*old(self) }),
            !known ==> *final(self) == *old(self),
    {
        proof {
            reveal_strlit("void-params");
            reveal_strlit("empty-compound");
            assert("void-params"@ != "empty-compound"@) by {
                assert("void-params"@.len() != "empty-compound"@.len());
            }
        }
        if crate::text::str_eq(name, "void-params") {
            self.void_params = false;
            true
        } else if crate::text::str_eq(name, "empty-compound") {
            self.empty_compound = false;
            true
        } else {
            false
        }
    }
}

/// `(void)`: one unnamed, unqualified parameter of type `void`.
pub open spec fn spec_is_void_param(p: FunctionParameterDeclaration) -> bool {
    match p {
        FunctionParameterDeclaration::Unnamed(None, t) => t.ty is Void && t.array_specifier is None,
        _ => false,
    }
}

pub fn is_void_param(p: &FunctionParameterDeclaration) -> (r: bool)
    ensures
        r == spec_is_void_param(*p),
{
    match p {
        FunctionParameterDeclaration::Unnamed(None, t) => {
            match (&t.ty, &t.array_specifier) {
                (TypeSpecifierNonArray::Void, None) => true,
                _ => false,
            }
        },
        _ => false,
    }
}

/// `p` has no `(void)` parameter list left where that rewrite is on.
pub open spec fn proto_simplified(p: FunctionPrototype, f: Flags) -> bool {
    f.void_params ==> !(p.parameters@.len() == 1 && spec_is_void_param(p.parameters@[0]))
}

/// The same for the prototype a declaration may be.
pub open spec fn decl_simplified(d: Declaration, f: Flags) -> bool {
    match d {
        Declaration::FunctionPrototype(p) => proto_simplified(p, f),
        _ => true,
    }
}

/// `st` holds no prototype with `(void)` and, where that rewrite is on, no
/// empty `{}` statement.
pub open spec fn st_simplified(st: Statement, f: Flags) -> bool
    decreases st, 1nat,
{
    match st {
        Statement::Compound(c) => (f.empty_compound ==> c.statement_list@.len() > 0) && forall|k: int|
            0 <= k < c.statement_list@.len() ==> st_simplified(#[trigger] c.statement_list@[k], f),
        Statement::Simple(x) => simple_simplified(*x, f),
    }
}

/// The same for a statement that is not a braced list.
pub open spec fn simple_simplified(s: SimpleStatement, f: Flags) -> bool
    decreases s, 0nat,
{
    match s {
        SimpleStatement::Declaration(d) => decl_simplified(d, f),
        SimpleStatement::Selection(sel) => match sel.rest {
            SelectionRestStatement::Statement(st) => st_simplified(*st, f),
            SelectionRestStatement::Else(a, b) => st_simplified(*a, f) && st_simplified(*b, f),
        },
        SimpleStatement::Switch(sw) => forall|k: int| 0 <= k < sw.body@.len() ==> st_simplified(#[trigger] sw.body@[k], f),
        SimpleStatement::Iteration(IterationStatement::While(_, body)) => st_simplified(*body, f),
        SimpleStatement::Iteration(IterationStatement::DoWhile(body, _)) => st_simplified(*body, f),
        SimpleStatement::Iteration(IterationStatement::For(init, _, body)) => (match init {
            ForInitStatement::Declaration(d) => decl_simplified(*d, f),
            _ => true,
        }) && st_simplified(*body, f),
        _ => true,
    }
}

/// Every prototype and every statement inside the function body of `ed`
/// is rewritten as `f` asks.
pub open spec fn ed_simplified(ed: ExternalDeclaration, f: Flags) -> bool {
    match ed {
        ExternalDeclaration::FunctionDefinition(fd) => proto_simplified(fd.prototype, f) && forall|k: int|
            0 <= k < fd.statement.statement_list@.len() ==> st_simplified(
                #[trigger] fd.statement.statement_list@[k],
                f,
            ),
        ExternalDeclaration::Declaration(d) => decl_simplified(d, f),
        _ => true,
    }
}

/// Every prototype and every statement inside a function body of `tu` is
/// rewritten as `f` asks.
pub open spec fn unit_simplified(tu: TranslationUnit, f: Flags) -> bool {
    forall|i: int| 0 <= i < tu.0.0@.len() ==> ed_simplified(#[trigger] tu.0.0@[i], f)
}

/// `b` is the prototype `a` after the `(void)` rewrite where `f` asks for it.
pub open spec fn rewritten_proto(a: FunctionPrototype, b: FunctionPrototype, f: Flags) -> bool {
    if f.void_params && a.parameters@.len() == 1 && spec_is_void_param(a.parameters@[0]) {
        b.parameters@.len() == 0 && b.ty == a.ty && b.name == a.name
    } else {
        b == a
    }
}

/// The same for a declaration: only a prototype changes.
pub open spec fn rewritten_decl(a: Declaration, b: Declaration, f: Flags) -> bool {
    match (a, b) {
        (Declaration::FunctionPrototype(p), Declaration::FunctionPrototype(q)) => rewritten_proto(p, q, f),
        (Declaration::FunctionPrototype(_), _) => false,
        _ => b == a,
    }
}

/// `b` is the statement `a` with exactly the rewrites of `f`: an empty `{}`
/// becomes `;` where that rewrite is on, every prototype loses a `(void)`
/// parameter list where that rewrite is on, and nothing else changes.
pub open spec fn rewritten_st(a: Statement, b: Statement, f: Flags) -> bool
    decreases a, 1nat,
{
    match a {
        Statement::Compound(c1) => if f.empty_compound && c1.statement_list@.len() == 0 {
            b == Statement::Simple(Box::new(SimpleStatement::Expression(None)))
        } else {
            match b {
                Statement::Compound(c2) => c1.statement_list@.len() == c2.statement_list@.len() && forall|k: int|
                    0 <= k < c1.statement_list@.len() ==> rewritten_st(
                        #[trigger] c1.statement_list@[k],
                        c2.statement_list@[k],
                        f,
                    ),
                _ => false,
            }
        },
        Statement::Simple(x) => match b {
            Statement::Simple(y) => rewritten_simple(*x, *y, f),
            _ => false,
        },
    }
}

/// The same for a statement that is not a braced list.
pub open spec fn rewritten_simple(a: SimpleStatement, b: SimpleStatement, f: Flags) -> bool
    decreases a, 0nat,
{
    match (a, b) {
        (SimpleStatement::Declaration(d1), SimpleStatement::Declaration(d2)) => rewritten_decl(d1, d2, f),
        (SimpleStatement::Selection(s1), SimpleStatement::Selection(s2)) => s2.cond == s1.cond && match (s1.rest, s2.rest) {
            (SelectionRestStatement::Statement(x), SelectionRestStatement::Statement(y)) => rewritten_st(*x, *y, f),
            (SelectionRestStatement::Else(a1, b1), SelectionRestStatement::Else(a2, b2)) => rewritten_st(*a1, *a2, f)
                && rewritten_st(*b1, *b2, f),
            _ => false,
        },
        (SimpleStatement::Switch(w1), SimpleStatement::Switch(w2)) => w2.head == w1.head && w1.body@.len() == w2.body@.len()
            && forall|k: int| 0 <= k < w1.body@.len() ==> rewritten_st(#[trigger] w1.body@[k], w2.body@[k], f),
        (
            SimpleStatement::Iteration(IterationStatement::While(c1, b1)),
            SimpleStatement::Iteration(IterationStatement::While(c2, b2)),
        ) => c2 == c1 && rewritten_st(*b1, *b2, f),
        (
            SimpleStatement::Iteration(IterationStatement::DoWhile(b1, e1)),
            SimpleStatement::Iteration(IterationStatement::DoWhile(b2, e2)),
        ) => e2 == e1 && rewritten_st(*b1, *b2, f),
        (
            SimpleStatement::Iteration(IterationStatement::For(i1, r1, b1)),
            SimpleStatement::Iteration(IterationStatement::For(i2, r2, b2)),
        ) => r2 == r1 && (match (i1, i2) {
            (ForInitStatement::Declaration(d1), ForInitStatement::Declaration(d2)) => rewritten_decl(*d1, *d2, f),
            (ForInitStatement::Declaration(_), _) => false,
            _ => i2 == i1,
        }) && rewritten_st(*b1, *b2, f),
        (SimpleStatement::Declaration(_), _) => false,
        (SimpleStatement::Selection(_), _) => false,
        (SimpleStatement::Switch(_), _) => false,
        (SimpleStatement::Iteration(_), _) => false,
        _ => b == a,
    }
}

/// The same for an external declaration: a function's prototype and body,
/// or a declared prototype.
pub open spec fn rewritten_ed(a: ExternalDeclaration, b: ExternalDeclaration, f: Flags) -> bool {
    match (a, b) {
        (ExternalDeclaration::FunctionDefinition(f1), ExternalDeclaration::FunctionDefinition(f2)) => rewritten_proto(
            f1.prototype,
            f2.prototype,
            f,
        ) && f1.statement.statement_list@.len() == f2.statement.statement_list@.len() && forall|k: int|
            0 <= k < f1.statement.statement_list@.len() ==> rewritten_st(
                #[trigger] f1.statement.statement_list@[k],
                f2.statement.statement_list@[k],
                f,
            ),
        (ExternalDeclaration::Declaration(d1), ExternalDeclaration::Declaration(d2)) => rewritten_decl(d1, d2, f),
        (ExternalDeclaration::FunctionDefinition(_), _) => false,
        (ExternalDeclaration::Declaration(_), _) => false,
        _ => b == a,
    }
}

/// `void f(void)` → `void f()`.
pub fn prototype(p: &mut FunctionPrototype, flags: &Flags)
    ensures
        flags.void_params && old(p).parameters@.len() == 1 && spec_is_void_param(
            old(p).parameters@[0],
        ) ==> final(p).parameters@.len() == 0,
        !(flags.void_params && old(p).parameters@.len() == 1 && spec_is_void_param(
            old(p).parameters@[0],
        )) ==> *final(p) == *old(p),
        final(p).ty == old(p).ty && final(p).name == old(p).name,
{
    if flags.void_params && p.parameters.len() == 1 && is_void_param(&p.parameters[0]) {
        p.parameters.clear();
    }
}

fn declaration(d: &mut Declaration, flags: &Flags)
    ensures
        decl_simplified(*final(d), *flags),
        rewritten_decl(*old(d), *final(d), *flags),
{
    match d {
        Declaration::FunctionPrototype(p) => prototype(p, flags),
        _ => {},
    }
}

fn statement(st: &mut Statement, flags: &Flags)
    ensures
        st_simplified(*final(st), *flags),
        rewritten_st(*old(st), *final(st), *flags),
    decreases *old(st), 1nat,
{
    let empty = match st {
        Statement::Compound(c) => c.statement_list.len() == 0,
        _ => false,
    };
    if flags.empty_compound && empty {
        *st = Statement::Simple(Box::new(SimpleStatement::Expression(None)));
        assert(simple_simplified(SimpleStatement::Expression(None), *flags));
        assert(st_simplified(*st, *flags));
        return;
    }
    match st {
        Statement::Compound(c) => {
            let ghost orig = c.statement_list@;
            assert(forall|k: int| 0 <= k < orig.len() ==> decreases_to!(*old(st) => #[trigger] orig[k]));
            let mut n: usize = 0;
            while n < c.statement_list.len()
                invariant
                    n <= c.statement_list@.len(),
                    c.statement_list@.len() == orig.len(),
                    forall|k: int| n <= k < orig.len() ==> c.statement_list@[k] == orig[k],
                    forall|k: int| 0 <= k < orig.len() ==> decreases_to!(*old(st) => #[trigger] orig[k]),
                    forall|k: int| 0 <= k < n ==> st_simplified(#[trigger] c.statement_list@[k], *flags),
                    forall|k: int| 0 <= k < n ==> rewritten_st(#[trigger] orig[k], c.statement_list@[k], *flags),
                    flags.empty_compound ==> orig.len() > 0,
                decreases c.statement_list@.len() - n,
            {
                assert(c.statement_list@[n as int] == orig[n as int]);
                assert(decreases_to!(*old(st) => c.statement_list[n as int]));
                statement(&mut c.statement_list[n], flags);
                n = n + 1;
            }
        },
        Statement::Simple(s) => simple_statement(s, flags),
    }
}

fn simple_statement(s: &mut SimpleStatement, flags: &Flags)
    ensures
        simple_simplified(*final(s), *flags),
        rewritten_simple(*old(s), *final(s), *flags),
    decreases *old(s), 0nat,
{
    match s {
        SimpleStatement::Declaration(d) => declaration(d, flags),
        SimpleStatement::Selection(sel) => match &mut sel.rest {
            SelectionRestStatement::Statement(st) => statement(st, flags),
            SelectionRestStatement::Else(a, b) => {
                statement(a, flags);
                statement(b, flags);
            },
        },
        SimpleStatement::Switch(sw) => {
            let ghost orig = sw.body@;
            let ghost head0 = sw.head;
            assert(forall|k: int| 0 <= k < orig.len() ==> decreases_to!(*old(s) => #[trigger] orig[k]));
            let mut n: usize = 0;
            while n < sw.body.len()
                invariant
                    n <= sw.body@.len(),
                    sw.body@.len() == orig.len(),
                    sw.head == head0,
                    forall|k: int| n <= k < orig.len() ==> sw.body@[k] == orig[k],
                    forall|k: int| 0 <= k < orig.len() ==> decreases_to!(*old(s) => #[trigger] orig[k]),
                    forall|k: int| 0 <= k < n ==> st_simplified(#[trigger] sw.body@[k], *flags),
                    forall|k: int| 0 <= k < n ==> rewritten_st(#[trigger] orig[k], sw.body@[k], *flags),
                decreases sw.body@.len() - n,
            {
                assert(sw.body@[n as int] == orig[n as int]);
                assert(decreases_to!(*old(s) => sw.body[n as int]));
                statement(&mut sw.body[n], flags);
                n = n + 1;
            }
        },
        SimpleStatement::Iteration(IterationStatement::While(_, body)) => statement(body, flags),
        SimpleStatement::Iteration(IterationStatement::DoWhile(body, _)) => statement(body, flags),
        SimpleStatement::Iteration(IterationStatement::For(init, _, body)) => {
            match init {
                ForInitStatement::Declaration(d) => declaration(d, flags),
                _ => {},
            }
            statement(body, flags);
        },
        _ => {},
    }
}

/// Apply the rewrites `flags` switches on to every function prototype and
/// every statement of `tu`.
pub fn run(tu: &mut TranslationUnit, flags: &Flags)
    ensures
        final(tu).0.0@.len() == old(tu).0.0@.len(),
        unit_simplified(*final(tu), *flags),
        forall|i: int| 0 <= i < old(tu).0.0@.len() ==> rewritten_ed(#[trigger] old(tu).0.0@[i], final(tu).0.0@[i], *flags),
{
    let eds = &mut tu.0.0;
    let mut n: usize = 0;
    let ghost orig = eds@;
    while n < eds.len()
        invariant
            n <= eds@.len(),
            eds@.len() == orig.len(),
            forall|i: int| n <= i < orig.len() ==> eds@[i] == orig[i],
            forall|i: int| 0 <= i < n ==> ed_simplified(#[trigger] eds@[i], *flags),
            forall|i: int| 0 <= i < n ==> rewritten_ed(#[trigger] orig[i], eds@[i], *flags),
        decreases eds@.len() - n,
    {
        match &mut eds[n] {
            ExternalDeclaration::FunctionDefinition(fd) => {
                prototype(&mut fd.prototype, flags);
                let list = &mut fd.statement.statement_list;
                let mut k: usize = 0;
                let ghost l0 = list@;
                while k < list.len()
                    invariant
                        k <= list@.len(),
                        list@.len() == l0.len(),
                        forall|j: int| k <= j < l0.len() ==> list@[j] == l0[j],
                        forall|j: int| 0 <= j < k ==> st_simplified(#[trigger] list@[j], *flags),
                        forall|j: int| 0 <= j < k ==> rewritten_st(#[trigger] l0[j], list@[j], *flags),
                    decreases list@.len() - k,
                {
                    statement(&mut list[k], flags);
                    k = k + 1;
                }
            },
            ExternalDeclaration::Declaration(d) => declaration(d, flags),
            _ => {},
        }
        n = n + 1;
    }
}

} // verus!
