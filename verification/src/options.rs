//! Crusher options.
use vstd::prelude::*;
pub use crate::simplify::Flags as Rewrites;

verus! {

/// How a new name is chosen for a renamable symbol.
#[derive(Debug, Clone, Copy, PartialEq, Eq, Structural)]
pub enum Scoring {
    /// Next unused name in frequency order.
    Frequency,
    /// Shader-Minifier style: maximise the frequency of the character
    /// bigrams the new name forms with its distinct neighbours.
    Bigram,
    /// Like `Bigram`, but each neighbour is weighted by how often it occurs.
    /// The default.
    BigramCount,
}

/// The option spellings `Scoring::parse` accepts.
pub open spec fn spec_scoring_parse(s: Seq<char>) -> Option<Scoring> {
    if s == "freq"@ || s == "frequency"@ {
        Some(Scoring::Frequency)
    } else if s == "bigram"@ {
        Some(Scoring::Bigram)
    } else if s == "count"@ || s == "bigram-count"@ {
        Some(Scoring::BigramCount)
    } else {
        None
    }
}

impl Scoring {
    /// `freq`/`frequency`, `bigram`, `count`/`bigram-count`.
    pub fn parse(s: &str) -> (r: Option<Scoring>)
        ensures
            r == spec_scoring_parse(s@),
    {
        if crate::text::str_eq(s, "freq") || crate::text::str_eq(s, "frequency") {
            Some(Scoring::Frequency)
        } else if crate::text::str_eq(s, "bigram") {
            Some(Scoring::Bigram)
        } else if crate::text::str_eq(s, "count") || crate::text::str_eq(s, "bigram-count") {
            Some(Scoring::BigramCount)
        } else {
            None
        }
    }
}

/// Crusher options.
#[derive(Debug, Clone, PartialEq)]
pub struct Options {
    /// Identifiers that are never renamed (in addition to keywords, builtins
    /// and everything protected by `#pragma SHADER_CRUSHER_OFF`).
    pub blocklist: Vec<String>,
    /// Per-identifier diagnostics on stderr.
    pub verbose: bool,
    /// Rename identifiers at all.
    pub rename: bool,
    /// Apply AST-level rewrites.
    pub simplify: bool,
    /// Which rewrites `simplify` applies.
    pub rewrites: Rewrites,
    /// Let a local reuse the name of an outer symbol that is not referenced
    /// inside its scope. Off: locals never reuse names of globals.
    pub shadowing: bool,
    pub scoring: Scoring,
    /// Re-parse the output and verify it is the intended tree with the
    /// intended identifier binding.
    pub selfcheck: bool,
}

/// The default options: no blocklist, quiet, every step on, bigram-count
/// scoring.
pub open spec fn default_options(o: Options) -> bool {
    &&& o.blocklist@.len() == 0
    &&& !o.verbose
    &&& o.rename
    &&& o.simplify
    &&& o.rewrites.void_params && o.rewrites.empty_compound
    &&& o.shadowing
    &&& o.scoring == Scoring::BigramCount
    &&& o.selfcheck
}

impl Default for Options {
    fn default() -> (r: Options)
        ensures
            default_options(r),
    {
        Options {
            blocklist: Vec::new(),
            verbose: false,
            rename: true,
            simplify: true,
            rewrites: Rewrites::default(),
            shadowing: true,
            scoring: Scoring::BigramCount,
            selfcheck: true,
        }
    }
}

/// What setting option `key` to `value` makes of `o`: `None` for an unknown
/// key, or a `scoring` value other than 0 (frequency), 1 (bigram) and
/// 2 (bigram-count). The switches take any nonzero value as on.
pub open spec fn spec_set_option(o: Options, key: Seq<char>, value: i32) -> Option<Options> {
    let b = value != 0;
    if key == "verbose"@ {
        Some(Options { verbose: b, ..o })
    } else if key == "rename"@ {
        Some(Options { rename: b, ..o })
    } else if key == "simplify"@ {
        Some(Options { simplify: b, ..o })
    } else if key == "shadowing"@ {
        Some(Options { shadowing: b, ..o })
    } else if key == "selfcheck"@ {
        Some(Options { selfcheck: b, ..o })
    } else if key == "scoring"@ {
        if value == 0 {
            Some(Options { scoring: Scoring::Frequency, ..o })
        } else if value == 1 {
            Some(Options { scoring: Scoring::Bigram, ..o })
        } else if value == 2 {
            Some(Options { scoring: Scoring::BigramCount, ..o })
        } else {
            None
        }
    } else {
        None
    }
}

impl Options {
    /// Set a switch (`verbose`, `rename`, `simplify`, `shadowing`,
    /// `selfcheck`: 0 off, anything else on) or `scoring` (0 frequency,
    /// 1 bigram, 2 bigram-count) by name. 0 on success; -1, with the options
    /// unchanged, for an unknown key or scoring value.
    pub fn set_option(&mut self, key: &str, value: i32) -> (r: i32)
        ensures
            spec_set_option(*old(self), key@, value) matches Some(o) ==> r == 0 && *final(self) == o,
            spec_set_option(*old(self), key@, value) is None ==> r == -1 && *final(self) == *old(self),
    {
        let b = value != 0;
        if crate::text::str_eq(key, "verbose") {
            self.verbose = b;
        } else if crate::text::str_eq(key, "rename") {
            self.rename = b;
        } else if crate::text::str_eq(key, "simplify") {
            self.simplify = b;
        } else if crate::text::str_eq(key, "shadowing") {
            self.shadowing = b;
        } else if crate::text::str_eq(key, "selfcheck") {
            self.selfcheck = b;
        } else if crate::text::str_eq(key, "scoring") {
            if value == 0 {
                self.scoring = Scoring::Frequency;
            } else if value == 1 {
                self.scoring = Scoring::Bigram;
            } else if value == 2 {
                self.scoring = Scoring::BigramCount;
            } else {
                return -1;
            }
        } else {
            return -1;
        }
        0
    }
}

} // verus!
