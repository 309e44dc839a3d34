//! The crusher: normalize line endings, strip directive comments, parse,
//! protect, simplify, resolve, rename, print, and check the result.
use vstd::prelude::*;
use crate::error::CrushError;
use crate::options::{Options, default_options};
use crate::parser::parse_translation_unit_with_rest;
use crate::preprocess::{normalize_line_endings, strip_directive_comments};
use crate::printer::print;
use crate::rename::{apply, apply_pinned, assign};
use crate::scope::{resolve, SymbolTable, symbol_table_wf};
use crate::selfcheck::{is_blank, rest_excerpt, type_names_distinct};
use crate::text::{chars_of, string_of, str_eq, utf8_byte_len, utf8_len_usize};
use crate::names::NameSet;

verus! {

broadcast use vstd::string::group_string_axioms;

/// Numbers about a crush (the entropy figures are the caller's business).
#[derive(Debug, Clone, Copy, PartialEq, Eq, Default, Structural)]
pub struct Stats {
    /// Bytes of the input.
    pub input_len: usize,
    /// Bytes of the output.
    pub output_len: usize,
    /// Symbols that got a new name.
    pub renamed: usize,
    /// Symbols that kept their name (keywords, builtins, protected).
    pub kept: usize,
}

/// Crush `src` with `opts`: the crushed shader and its counts.
///
/// `Parse` when the input does not parse, `PartialParse` when only a prefix
/// of it does (the rest is not whitespace), `Unsupported` for input the
/// crusher does not handle, and the self-check errors when the output would
/// not read back as the intended tree with the intended binding.
pub fn crush_str(src: &str, opts: &Options) -> (r: Result<(String, Stats), CrushError>)
    ensures
        r matches Ok(x) ==> x.1.input_len == utf8_len_usize(src@) && x.1.output_len == utf8_len_usize(x.0@),
        !opts.rename ==> (r matches Ok(x) ==> x.1.renamed == 0),
        r matches Err(e) ==> e is Parse || e is PartialParse || e is Unsupported || e is TooManySymbols || (opts.selfcheck
            && (e is Reparse || e is AstMismatch || e is ScopeMismatch || e is NameCollision)),
        r matches Err(CrushError::PartialParse { consumed, rest }) ==> rest@.len() <= 60,
        r matches Err(CrushError::Unsupported(m)) ==> m@ == "nothing left after removing the SHADER_CRUSHER pragmas"@
            || m@ == "too many scopes"@ || m@ == "too many structs"@,
        r matches Err(CrushError::TooManySymbols(n)) ==> n == crate::scope::SENTINEL_MAX - crate::scope::SENTINEL_BASE + 1,
        r matches Err(CrushError::Parse(info)) ==> exists|pos: int| 0 <= pos <= parser_input(src@).len() && info@ == #[trigger] crate::parser::error_text(parser_input(src@), pos),
        r matches Err(CrushError::PartialParse { consumed, rest }) ==> exists|k: int| #[trigger] partial_at(src@, k, consumed, rest@),
        r is Ok ==> exists|k: int| #[trigger] complete_at(src@, k),
        r matches Ok(x) ==> exists|tu: crate::syntax::TranslationUnit| x.0@ == #[trigger] crate::printer::print_unit(tu),
{
    match crush_with_symbols(src, opts) {
        Ok((out, counts, _)) => Ok((out, counts)),
        Err(e) => Err(e),
    }
}

/// `crush_str`, also handing back the symbol table: every symbol with its
/// new name and why it kept its name, if it did.
pub fn crush_with_symbols(src: &str, opts: &Options) -> (r: Result<(String, Stats, SymbolTable), CrushError>)
    ensures
        r matches Ok(x) ==> symbol_table_wf(x.2),
        r matches Ok(x) ==> x.1.input_len == utf8_len_usize(src@) && x.1.output_len == utf8_len_usize(x.0@),
        r matches Ok(x) ==> x.1.renamed + x.1.kept == x.2.symbols@.len(),
        !opts.rename ==> (r matches Ok(x) ==> crate::scope::unassigned(x.2) && x.1.renamed == 0),
        opts.rename ==> (r matches Ok(x) ==> crate::rename::table_unshadowed(x.2, opts.shadowing)
            && crate::rename::table_globals_distinct(x.2)),
        r matches Err(e) ==> e is Parse || e is PartialParse || e is Unsupported || e is TooManySymbols || (opts.selfcheck
            && (e is Reparse || e is AstMismatch || e is ScopeMismatch || e is NameCollision)),
        r matches Err(CrushError::PartialParse { consumed, rest }) ==> rest@.len() <= 60,
        r matches Err(CrushError::Unsupported(m)) ==> m@ == "nothing left after removing the SHADER_CRUSHER pragmas"@
            || m@ == "too many scopes"@ || m@ == "too many structs"@,
        r matches Err(CrushError::TooManySymbols(n)) ==> n == crate::scope::SENTINEL_MAX - crate::scope::SENTINEL_BASE + 1,
        r matches Err(CrushError::Parse(info)) ==> exists|pos: int| 0 <= pos <= parser_input(src@).len() && info@ == #[trigger] crate::parser::error_text(parser_input(src@), pos),
        r matches Err(CrushError::PartialParse { consumed, rest }) ==> exists|k: int| #[trigger] partial_at(src@, k, consumed, rest@),
        r is Ok ==> exists|k: int| #[trigger] complete_at(src@, k),
        r matches Ok(x) ==> exists|tu: crate::syntax::TranslationUnit| x.0@ == #[trigger] crate::printer::print_unit(tu),
{
    let normalized = normalize_line_endings(src);
    let source = strip_directive_comments(normalized.as_str());
    assert(source@ == parser_input(src@));
    let (mut tu, rest) = match parse_translation_unit_with_rest(source.as_str()) {
        Ok(x) => x,
        Err(e) => return Err(CrushError::Parse(e.info)),
    };
    let ghost k = source@.len() - rest@.len();
    assert(rest@ == source@.subrange(k, source@.len() as int));
    if !is_blank(rest) {
        let prefix = source.substring_char(0, source.unicode_len() - rest.unicode_len());
        let consumed = utf8_byte_len(prefix);
        let ex = rest_excerpt(rest);
        proof {
            assert(!forall|i: int| k <= i < source@.len() ==> crate::text::is_uws(#[trigger] source@[i])) by {
                if forall|i: int| k <= i < source@.len() ==> crate::text::is_uws(#[trigger] source@[i]) {
                    assert forall|j: int| 0 <= j < rest@.len() implies crate::text::is_uws(#[trigger] rest@[j]) by {
                        assert(rest@[j] == source@[k + j]);
                    }
                }
            }
            assert(prefix@ =~= source@.subrange(0, k));
            assert(partial_at(src@, k, consumed, ex@));
        }
        let e = CrushError::PartialParse { consumed, rest: ex };
        assert(e matches CrushError::PartialParse { consumed: c2, rest: r2 } && partial_at(src@, k, c2, r2@));
        return Err(e);
    }
    proof {
        assert forall|i: int| k <= i < source@.len() implies crate::text::is_uws(#[trigger] source@[i]) by {
            assert(source@[i] == rest@[i - k]);
        }
        assert(complete_at(src@, k));
    }
    let prot = crate::protect::run(&mut tu, opts.blocklist.as_slice())?;
    if opts.simplify {
        crate::simplify::run(&mut tu, &opts.rewrites);
    }
    let mut table = resolve(&mut tu, &prot)?;
    if opts.rename {
        apply_pinned(&mut tu, &table);
        let text = print(&tu);
        assign(&mut table, text.as_str(), opts.scoring, opts.shadowing);
    }
    apply(&mut tu, &table);
    let output = print(&tu);
    assert(output@ == crate::printer::print_unit(tu));
    if opts.selfcheck {
        type_names_distinct(&table)?;
        crate::selfcheck::run(output.as_str(), &tu, &table)?;
    }
    let mut renamed: usize = 0;
    let mut kept: usize = 0;
    let mut i: usize = 0;
    while i < table.symbols.len()
        invariant
            renamed + kept == i,
            i <= table.symbols@.len(),
            !opts.rename ==> crate::scope::unassigned(table) && renamed == 0,
        decreases table.symbols@.len() - i,
    {
        let changed = match &table.symbols[i].new_name {
            Some(n) => !str_eq(n.as_str(), table.symbols[i].name.as_str()),
            None => false,
        };
        if changed {
            renamed = renamed + 1;
        } else {
            kept = kept + 1;
        }
        i = i + 1;
    }
    let counts = Stats {
        input_len: utf8_byte_len(src),
        output_len: utf8_byte_len(output.as_str()),
        renamed,
        kept,
    };
    Ok((output, counts, table))
}

/// A crusher with its input, options and the result of the last crush.
pub struct ShaderCrusher {
    input: String,
    output: String,
    options: Options,
    stats: Stats,
    symbols: SymbolTable,
    last_error: Option<CrushError>,
}

/// The text the parser reads for the input `src`: line endings normalized
/// and directive comments stripped.
pub open spec fn parser_input(src: Seq<char>) -> Seq<char> {
    crate::preprocess::spec_strip_directive_comments(crate::preprocess::spec_normalize(src))
}

/// The parse of `src` stopped at `k`, where the text is not only white
/// space: `consumed` bytes precede `k` and `rest` shows the start of what
/// follows.
pub open spec fn partial_at(src: Seq<char>, k: int, consumed: usize, rest: Seq<char>) -> bool {
    let s = parser_input(src);
    &&& 0 <= k < s.len()
    &&& crate::parser::stops_at(s, k)
    &&& !forall|i: int| k <= i < s.len() ==> crate::text::is_uws(#[trigger] s[i])
    &&& consumed == utf8_len_usize(s.subrange(0, k))
    &&& rest == crate::text::trim_start(s.subrange(k, s.len() as int)).take(
        if crate::text::trim_start(s.subrange(k, s.len() as int)).len() < 60 {
            crate::text::trim_start(s.subrange(k, s.len() as int)).len() as int
        } else {
            60
        },
    )
}

/// The parse of `src` stopped at `k` with only white space after it.
pub open spec fn complete_at(src: Seq<char>, k: int) -> bool {
    let s = parser_input(src);
    &&& 0 <= k <= s.len()
    &&& crate::parser::stops_at(s, k)
    &&& forall|i: int| k <= i < s.len() ==> crate::text::is_uws(#[trigger] s[i])
}

/// A table with no symbols and no scopes.
fn empty_table() -> (r: SymbolTable)
    ensures
        r.symbols@.len() == 0,
        r.scopes@.len() == 0,
        r.structs@.len() == 0,
        r.occ@.len() == 0,
        r.pinned_names@ == Set::<Seq<char>>::empty(),
        r.pinned_field_names@ == Set::<Seq<char>>::empty(),
{
    SymbolTable {
        symbols: Vec::new(),
        scopes: Vec::new(),
        structs: Vec::new(),
        occ: Vec::new(),
        pinned_names: NameSet::new(),
        pinned_field_names: NameSet::new(),
    }
}

impl ShaderCrusher {
    pub fn new() -> (r: ShaderCrusher)
        ensures
            default_options(r.spec_options()),
            r.spec_input() == Seq::<char>::empty(),
            r.spec_output() == Seq::<char>::empty(),
            r.spec_last_error() is None,
    {
        Self::with_options(Options::default())
    }

    pub fn with_options(options: Options) -> (r: ShaderCrusher)
        ensures
            r.spec_input() == Seq::<char>::empty(),
            r.spec_output() == Seq::<char>::empty(),
            r.spec_last_error() is None,
            r.spec_options() == options,
    {
        ShaderCrusher {
            input: String::new(),
            output: String::new(),
            options,
            stats: Stats { input_len: 0, output_len: 0, renamed: 0, kept: 0 },
            symbols: empty_table(),
            last_error: None,
        }
    }

    pub closed spec fn spec_input(&self) -> Seq<char> {
        self.input@
    }

    pub closed spec fn spec_output(&self) -> Seq<char> {
        self.output@
    }

    pub closed spec fn spec_options(&self) -> Options {
        self.options
    }

    pub closed spec fn spec_stats(&self) -> Stats {
        self.stats
    }

    pub closed spec fn spec_symbols(&self) -> SymbolTable {
        self.symbols
    }

    pub closed spec fn spec_last_error(&self) -> Option<CrushError> {
        self.last_error
    }

    pub fn options(&self) -> (r: &Options)
        ensures
            *r == self.spec_options(),
    {
        &self.options
    }

    pub fn options_mut(&mut self) -> (r: &mut Options)
        ensures
            *r == old(self).spec_options(),
            final(self).spec_options() == *final(r),
            final(self).spec_input() == old(self).spec_input(),
            final(self).spec_output() == old(self).spec_output(),
            final(self).spec_last_error() == old(self).spec_last_error(),
    {
        &mut self.options
    }

    /// Add an identifier that must not be renamed (once).
    pub fn blocklist_identifier(&mut self, n: &str)
        ensures
            final(self).spec_input() == old(self).spec_input(),
            final(self).spec_output() == old(self).spec_output(),
            exists|i: int| 0 <= i < final(self).spec_options().blocklist@.len() && #[trigger] final(self).spec_options().blocklist@[i]@ == n@,
            (exists|i: int| 0 <= i < old(self).spec_options().blocklist@.len() && #[trigger] old(self).spec_options().blocklist@[i]@ == n@)
                ==> final(self).spec_options() == old(self).spec_options(),
            final(self).spec_options().blocklist@.len() <= old(self).spec_options().blocklist@.len() + 1,
            forall|i: int| 0 <= i < old(self).spec_options().blocklist@.len() ==> final(self).spec_options().blocklist@[i] == #[trigger] old(self).spec_options().blocklist@[i],
            final(self).spec_options() == (Options { blocklist: final(self).spec_options().blocklist, ..old(self).spec_options() }),
    {
        let mut i: usize = 0;
        while i < self.options.blocklist.len()
            invariant
                i <= self.options.blocklist@.len(),
                forall|k: int| 0 <= k < i ==> self.options.blocklist@[k]@ != n@,
            decreases self.options.blocklist@.len() - i,
        {
            if str_eq(self.options.blocklist[i].as_str(), n) {
                assert(self.spec_options().blocklist@[i as int]@ == n@);
                return;
            }
            i = i + 1;
        }
        self.options.blocklist.push(string_of(chars_of(n).as_slice()));
        assert(self.spec_options().blocklist@[self.spec_options().blocklist@.len() - 1]@ == n@);
    }

    /// Set the input; the output is the input until a crush succeeds.
    pub fn set_input(&mut self, input: &str)
        ensures
            final(self).spec_input() == input@,
            final(self).spec_output() == input@,
            final(self).spec_last_error() is None,
            final(self).spec_options() == old(self).spec_options(),
            final(self).spec_stats() == (Stats {
                input_len: utf8_len_usize(input@),
                output_len: utf8_len_usize(input@),
                renamed: 0,
                kept: 0,
            }),
            final(self).spec_symbols().symbols@.len() == 0,
    {
        self.input = string_of(chars_of(input).as_slice());
        self.output = string_of(chars_of(input).as_slice());
        let n = utf8_byte_len(input);
        self.stats = Stats { input_len: n, output_len: n, renamed: 0, kept: 0 };
        self.symbols = empty_table();
        self.last_error = None;
    }

    /// The input set with `set_input`.
    pub fn get_input(&self) -> (r: String)
        ensures
            r@ == self.spec_input(),
    {
        string_of(chars_of(self.input.as_str()).as_slice())
    }

    /// The crushed shader, or the unchanged input if the last crush failed
    /// (or none ran).
    pub fn get_output(&self) -> (r: String)
        ensures
            r@ == self.spec_output(),
    {
        string_of(chars_of(self.output.as_str()).as_slice())
    }

    /// Numbers about the last successful crush (or the input alone).
    pub fn stats(&self) -> (r: Stats)
        ensures
            r == self.spec_stats(),
    {
        self.stats
    }

    /// The symbols of the last successful crush, with their new names.
    pub fn symbols(&self) -> (r: &SymbolTable)
        ensures
            *r == self.spec_symbols(),
    {
        &self.symbols
    }

    pub fn last_error(&self) -> (r: Option<&CrushError>)
        ensures
            match r {
                Some(e) => self.spec_last_error() == Some(*e),
                None => self.spec_last_error() is None,
            },
    {
        match &self.last_error {
            Some(e) => Some(e),
            None => None,
        }
    }

    /// Crush the input set with `set_input`. On error the output is the
    /// unchanged input and the error is kept.
    pub fn crush(&mut self) -> (r: Result<(), CrushError>)
        ensures
            final(self).spec_input() == old(self).spec_input(),
            final(self).spec_options() == old(self).spec_options(),
            r is Err ==> final(self).spec_output() == old(self).spec_input() && final(self).spec_last_error() is Some,
            r matches Err(e) ==> final(self).spec_last_error() == Some(e),
            r matches Err(CrushError::Parse(info)) ==> exists|pos: int| 0 <= pos <= parser_input(old(self).spec_input()).len()
                && info@ == #[trigger] crate::parser::error_text(parser_input(old(self).spec_input()), pos),
            r matches Err(CrushError::PartialParse { consumed, rest }) ==> exists|k: int| #[trigger] partial_at(old(self).spec_input(), k, consumed, rest@),
            r matches Err(CrushError::Unsupported(m)) ==> m@ == "nothing left after removing the SHADER_CRUSHER pragmas"@
                || m@ == "too many scopes"@ || m@ == "too many structs"@,
            r matches Err(CrushError::TooManySymbols(n)) ==> n == crate::scope::SENTINEL_MAX - crate::scope::SENTINEL_BASE + 1,
            r matches Err(e) ==> e is Parse || e is PartialParse || e is Unsupported || e is TooManySymbols || (
                old(self).spec_options().selfcheck && (e is Reparse || e is AstMismatch || e is ScopeMismatch || e is NameCollision)),
            r is Ok ==> exists|k: int| #[trigger] complete_at(old(self).spec_input(), k),
            r is Ok ==> exists|tu: crate::syntax::TranslationUnit| final(self).spec_output() == #[trigger] crate::printer::print_unit(tu),
            r is Ok ==> final(self).spec_last_error() is None,
            r is Ok ==> final(self).spec_stats().input_len == utf8_len_usize(old(self).spec_input())
                && final(self).spec_stats().output_len == utf8_len_usize(final(self).spec_output()),
            r is Err ==> final(self).spec_stats() == old(self).spec_stats(),
            r is Ok ==> symbol_table_wf(final(self).spec_symbols()),
            r is Ok ==> final(self).spec_stats().renamed + final(self).spec_stats().kept == final(self).spec_symbols().symbols@.len(),
            r is Ok && !old(self).spec_options().rename ==> crate::scope::unassigned(final(self).spec_symbols())
                && final(self).spec_stats().renamed == 0,
            r is Ok && old(self).spec_options().rename ==> crate::rename::table_unshadowed(
                final(self).spec_symbols(),
                old(self).spec_options().shadowing,
            ) && crate::rename::table_globals_distinct(final(self).spec_symbols()),
    {
        match crush_with_symbols(self.input.as_str(), &self.options) {
            Ok((out, counts, table)) => {
                self.output = out;
                self.stats = counts;
                self.symbols = table;
                self.last_error = None;
                Ok(())
            },
            Err(e) => {
                self.output = string_of(chars_of(self.input.as_str()).as_slice());
                self.last_error = Some(e.duplicate());
                Err(e)
            },
        }
    }
}

impl Default for ShaderCrusher {
    fn default() -> (r: ShaderCrusher)
        ensures
            r.spec_input() == Seq::<char>::empty(),
            r.spec_output() == Seq::<char>::empty(),
            r.spec_last_error() is None,
    {
        ShaderCrusher::new()
    }
}

} // verus!
