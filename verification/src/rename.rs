//! Choose new names for the renamable symbols of a resolved shader and
//! write them back into the tree.
//!
//! Names are handed out per scope in declaration order from a pool of
//! single letters (most frequent letters of the shader first) followed by
//! two-character names. On entering a scope, the names of outer symbols
//! that are not referenced anywhere inside it become available again
//! ("shadowing", legal in every GLSL version); with shadowing off, global
//! names are never reused by locals.
//!
//! Struct fields get names from a separate pool, shared across all structs
//! so that equally named fields of different structs stay equally named.
//!
//! Struct *type* names are allocated first and reserved for the whole
//! shader: compilers feed declared type names back into the lexer, so a
//! variable, parameter or field spelled like a visible type makes the
//! driver read the next statement as a declaration.
use vstd::prelude::*;
use crate::builtins::{Lexicon, swizzle, spec_never_generate, spec_is_reserved, keyword_words, function_words};
use crate::names::NameSet;
use crate::options::Scoring;
use crate::scope::{SymbolTable, SymbolId, printed_name, members_declared_as_fields, ScopeId, SymbolKind, SENTINEL_BASE, SENTINEL_MAX, pins_kept_names, unassigned,
    must_keep_name, symbol_table_wf};
use crate::protect::Protection;
use crate::syntax::TranslationUnit;
use crate::text::{chars_of, string_of, char_from_u32};
use crate::walk::{NameOp, NameRel, walk_unit, walked_unit};

verus! {

broadcast use vstd::string::group_string_axioms;

/// Whether `c` is an ASCII letter.
pub open spec fn is_letter(c: char) -> bool {
    ('a' <= c && c <= 'z') || ('A' <= c && c <= 'Z')
}

/// The 52 letters `a..z` then `A..Z`.
pub open spec fn alphabet() -> Seq<char> {
    Seq::new(52, |i: int| if i < 26 { (('a' as int) + i) as char } else { (('A' as int) + i - 26) as char })
}

/// How often `c` occurs in `s`.
pub open spec fn occurrences_of(s: Seq<char>, c: char) -> nat
    decreases s.len(),
{
    if s.len() == 0 {
        0
    } else {
        occurrences_of(s.drop_last(), c) + if s.last() == c { 1nat } else { 0nat }
    }
}

/// The letter with index `i` in `a..z A..Z`.
fn letter(i: usize) -> (c: char)
    requires
        i < 52,
    ensures
        c == alphabet()[i as int],
{
    let v: u8 = if i < 26 { 97 + i as u8 } else { 65 + (i - 26) as u8 };
    v as char
}

/// Index of letter `c` in `a..z A..Z`.
fn letter_index(c: char) -> (r: Option<usize>)
    ensures
        r matches Some(i) ==> i < 52 && alphabet()[i as int] == c,
        r is None ==> !is_letter(c),
{
    if 'a' <= c && c <= 'z' {
        Some(((c as u32) - ('a' as u32)) as usize)
    } else if 'A' <= c && c <= 'Z' {
        Some(((c as u32) - ('A' as u32)) as usize + 26)
    } else {
        None
    }
}

/// The place of the letter `c` in `a..z A..Z`.
pub open spec fn letter_rank(c: char) -> int {
    if 'a' <= c && c <= 'z' {
        c as int - 'a' as int
    } else {
        c as int - 'A' as int + 26
    }
}

proof fn lemma_letter_rank(k: int)
    requires
        0 <= k < 52,
    ensures
        letter_rank(alphabet()[k]) == k,
{
}

/// `a..z` then `A..Z`, most frequent in `text` first; letters that occur
/// equally often keep that order.
pub fn letters_by_frequency(text: &str) -> (r: Vec<char>)
    ensures
        r@.len() == 52,
        r@.to_multiset() == alphabet().to_multiset(),
        forall|i: int, j: int| 0 <= i < j < 52 ==> occurrences_of(text@, #[trigger] r@[i]) >= occurrences_of(text@, #[trigger] r@[j]),
        forall|i: int, j: int|
            0 <= i < j < 52 && occurrences_of(text@, #[trigger] r@[i]) == occurrences_of(text@, #[trigger] r@[j]) ==> letter_rank(
                r@[i],
            ) < letter_rank(r@[j]),
{
    let t = chars_of(text);
    let mut count: Vec<u64> = Vec::new();
    let mut k: usize = 0;
    while k < 52
        invariant
            k <= 52,
            count@.len() == k,
            forall|m: int| 0 <= m < k ==> count@[m] == 0,
        decreases 52 - k,
    {
        count.push(0);
        k = k + 1;
    }
    let mut p: usize = 0;
    while p < t.len()
        invariant
            p <= t@.len(),
            count@.len() == 52,
            t@ == text@,
            forall|m: int| 0 <= m < 52 ==> count@[m] == occurrences_of(t@.subrange(0, p as int), #[trigger] alphabet()[m]),
            forall|m: int| 0 <= m < 52 ==> count@[m] <= p,
        decreases t@.len() - p,
    {
        proof {
            assert(t@.subrange(0, p + 1).drop_last() =~= t@.subrange(0, p as int));
        }
        match letter_index(t[p]) {
            Some(i) => {
                proof {
                    assert forall|m: int| 0 <= m < 52 && m != i implies alphabet()[m] != alphabet()[i as int] by {}
                }
                count.set(i, count[i] + 1);
            },
            None => {},
        }
        p = p + 1;
    }
    proof {
        assert(t@.subrange(0, t@.len() as int) =~= t@);
    }
    // stable insertion sort by descending count
    let mut letters: Vec<char> = Vec::new();
    let mut keys: Vec<u64> = Vec::new();
    let ghost mut ix: Seq<int> = seq![];
    let mut i: usize = 0;
    assert(letters@ =~= alphabet().subrange(0, 0));
    while i < 52
        invariant
            i <= 52,
            letters@.len() == i,
            keys@.len() == i,
            count@.len() == 52,
            forall|m: int| 0 <= m < 52 ==> count@[m] == occurrences_of(text@, #[trigger] alphabet()[m]),
            forall|m: int| 0 <= m < i ==> keys@[m] == occurrences_of(text@, #[trigger] letters@[m]),
            forall|a: int, b: int| 0 <= a < b < i ==> keys@[a] >= keys@[b],
            letters@.to_multiset() == alphabet().subrange(0, i as int).to_multiset(),
            ix.len() == i,
            forall|m: int| 0 <= m < i ==> 0 <= #[trigger] ix[m] < i && letters@[m] == alphabet()[ix[m]],
            forall|a: int, b: int| 0 <= a < b < i && keys@[a] == keys@[b] ==> ix[a] < ix[b],
        decreases 52 - i,
    {
        let c = letter(i);
        let key = count[i];
        let mut pos = letters.len();
        while pos > 0 && keys[pos - 1] < key
            invariant
                pos <= keys@.len(),
                forall|m: int| pos <= m < keys@.len() ==> keys@[m] < key,
            decreases pos,
        {
            pos = pos - 1;
        }
        let ghost before = letters@;
        let ghost kbefore = keys@;
        let ghost ixb = ix;
        letters.insert(pos, c);
        keys.insert(pos, key);
        proof {
            ix = ixb.insert(pos as int, i as int);
            assert(c == alphabet()[i as int]);
            assert forall|m: int| 0 <= m < i + 1 implies 0 <= #[trigger] ix[m] < i + 1 && letters@[m] == alphabet()[ix[m]] by {
                if m < pos {
                    assert(ix[m] == ixb[m]);
                    assert(letters@[m] == before[m]);
                } else if m > pos {
                    assert(ix[m] == ixb[m - 1]);
                    assert(letters@[m] == before[m - 1]);
                }
            }
            assert forall|a: int, b: int| 0 <= a < b < i + 1 && keys@[a] == keys@[b] implies ix[a] < ix[b] by {
                if b < pos {
                    assert(keys@[a] == kbefore[a] && keys@[b] == kbefore[b]);
                } else if b == pos {
                    assert(ix[a] == ixb[a]);
                } else if a == pos {
                    assert(keys@[b] == kbefore[b - 1]);
                    assert(kbefore[b - 1] < key);
                } else if a < pos {
                    assert(keys@[b] == kbefore[b - 1]);
                    assert(kbefore[b - 1] < key);
                    assert(keys@[a] == kbefore[a]);
                    assert(kbefore[a] >= key);
                } else {
                    assert(keys@[a] == kbefore[a - 1] && keys@[b] == kbefore[b - 1]);
                    assert(ix[a] == ixb[a - 1] && ix[b] == ixb[b - 1]);
                }
            }
            assert(alphabet().subrange(0, i + 1) =~= alphabet().subrange(0, i as int).push(c));
            assert(letters@ == before.insert(pos as int, c));
            vstd::seq_lib::to_multiset_insert(before, pos as int, c);
            vstd::seq_lib::to_multiset_build(alphabet().subrange(0, i as int), c);
        }
        i = i + 1;
    }
    proof {
        assert(alphabet().subrange(0, 52) =~= alphabet());
        assert forall|a: int, b: int|
            0 <= a < b < 52 && occurrences_of(text@, #[trigger] letters@[a]) == occurrences_of(text@, #[trigger] letters@[b])
                implies letter_rank(letters@[a]) < letter_rank(letters@[b]) by {
            lemma_letter_rank(ix[a]);
            lemma_letter_rank(ix[b]);
        }
    }
    letters
}


/// One row of a bigram table: the counts of the characters that follow
/// (or precede) one character.
pub type Row = Vec<(char, u32)>;

/// No character has two entries in `row`.
pub open spec fn row_keys_unique(row: Seq<(char, u32)>) -> bool {
    forall|i: int, j: int| 0 <= i < j < row.len() ==> row[i].0 != row[j].0
}

/// No character has two rows in `t`, and every row is well formed.
pub open spec fn table_wf(t: Seq<(char, Row)>) -> bool {
    &&& forall|i: int, j: int| 0 <= i < j < t.len() ==> t[i].0 != t[j].0
    &&& forall|i: int| 0 <= i < t.len() ==> row_keys_unique(#[trigger] t[i].1@)
}

/// The count of `c` in `row` (0 without an entry).
pub open spec fn row_value(row: Seq<(char, u32)>, c: char) -> u32 {
    if exists|i: int| 0 <= i < row.len() && row[i].0 == c {
        row[choose|i: int| 0 <= i < row.len() && row[i].0 == c].1
    } else {
        0
    }
}

/// Whether `t` has a row for `a`.
pub open spec fn has_row_spec(t: Seq<(char, Row)>, a: char) -> bool {
    exists|i: int| 0 <= i < t.len() && t[i].0 == a
}

/// The row of `a` in `t` (empty without one).
pub open spec fn row_of(t: Seq<(char, Row)>, a: char) -> Seq<(char, u32)> {
    if has_row_spec(t, a) {
        t[choose|i: int| 0 <= i < t.len() && t[i].0 == a].1@
    } else {
        seq![]
    }
}

/// `a + b`, or `u32::MAX` where that is larger.
pub open spec fn sat_add(a: int, b: int) -> u32 {
    if a + b > u32::MAX {
        u32::MAX
    } else {
        (a + b) as u32
    }
}

/// How often `b` directly follows `a` in `s`.
pub open spec fn pair_count(s: Seq<char>, a: char, b: char) -> nat
    decreases s.len(),
{
    if s.len() < 2 {
        0
    } else {
        pair_count(s.drop_last(), a, b) + if s[s.len() - 2] == a && s.last() == b { 1nat } else { 0nat }
    }
}

proof fn lemma_row_value_at(row: Seq<(char, u32)>, i: int)
    requires
        row_keys_unique(row),
        0 <= i < row.len(),
    ensures
        row_value(row, row[i].0) == row[i].1,
{
    let c = row[i].0;
    let j = choose|j: int| 0 <= j < row.len() && row[j].0 == c;
    if j != i {
        if j < i {
            assert(row[j].0 != row[i].0);
        } else {
            assert(row[i].0 != row[j].0);
        }
    }
}

proof fn lemma_row_of_at(t: Seq<(char, Row)>, i: int)
    requires
        table_wf(t),
        0 <= i < t.len(),
    ensures
        row_of(t, t[i].0) == t[i].1@,
{
    let c = t[i].0;
    assert(has_row_spec(t, c));
    let j = choose|j: int| 0 <= j < t.len() && t[j].0 == c;
    if j != i {
        if j < i {
            assert(t[j].0 != t[i].0);
        } else {
            assert(t[i].0 != t[j].0);
        }
    }
}

fn copy_row(row: &Row) -> (r: Row)
    ensures
        r@ == row@,
{
    let mut r: Row = Vec::new();
    let mut i: usize = 0;
    while i < row.len()
        invariant
            i <= row@.len(),
            r@ == row@.subrange(0, i as int),
        decreases row@.len() - i,
    {
        r.push(row[i]);
        i = i + 1;
        proof {
            assert(r@ =~= row@.subrange(0, i as int));
        }
    }
    proof {
        assert(row@.subrange(0, row@.len() as int) =~= row@);
    }
    r
}

fn row_get(row: &Row, c: char) -> (r: u32)
    requires
        row_keys_unique(row@),
    ensures
        r == row_value(row@, c),
{
    let mut i: usize = 0;
    while i < row.len()
        invariant
            i <= row@.len(),
            row_keys_unique(row@),
            forall|j: int| 0 <= j < i ==> row@[j].0 != c,
        decreases row@.len() - i,
    {
        if row[i].0 == c {
            proof {
                lemma_row_value_at(row@, i as int);
            }
            return row[i].1;
        }
        i = i + 1;
    }
    0
}

fn row_add(row: &mut Row, c: char, n: u32)
    requires
        row_keys_unique(old(row)@),
    ensures
        row_keys_unique(final(row)@),
        forall|x: char| #[trigger] row_value(final(row)@, x) == if x == c {
            sat_add(row_value(old(row)@, c) as int, n as int)
        } else {
            row_value(old(row)@, x)
        },
{
    let mut i: usize = 0;
    while i < row.len()
        invariant
            i <= row@.len(),
            row@ == old(row)@,
            row_keys_unique(old(row)@),
            forall|j: int| 0 <= j < i ==> row@[j].0 != c,
        decreases row@.len() - i,
    {
        if row[i].0 == c {
            let v = row[i].1;
            let w = if v <= u32::MAX - n { v + n } else { u32::MAX };
            proof {
                lemma_row_value_at(old(row)@, i as int);
            }
            row.set(i, (c, w));
            proof {
                assert forall|j: int, k: int| 0 <= j < k < row@.len() implies row@[j].0 != row@[k].0 by {
                    assert(row@[j].0 == old(row)@[j].0 && row@[k].0 == old(row)@[k].0);
                }
                assert forall|x: char| #[trigger] row_value(row@, x) == if x == c {
                    sat_add(row_value(old(row)@, c) as int, n as int)
                } else {
                    row_value(old(row)@, x)
                } by {
                    lemma_row_value_at(row@, i as int);
                    if x != c {
                        if exists|j: int| 0 <= j < old(row)@.len() && old(row)@[j].0 == x {
                            let j = choose|j: int| 0 <= j < old(row)@.len() && old(row)@[j].0 == x;
                            lemma_row_value_at(old(row)@, j);
                            lemma_row_value_at(row@, j);
                        } else {
                            assert(!exists|j: int| 0 <= j < row@.len() && row@[j].0 == x);
                        }
                    }
                }
            }
            return;
        }
        i = i + 1;
    }
    row.push((c, n));
    proof {
        let last = row@.len() - 1;
        assert forall|j: int, k: int| 0 <= j < k < row@.len() implies row@[j].0 != row@[k].0 by {
            if k < last {
                assert(row@[j] == old(row)@[j] && row@[k] == old(row)@[k]);
            } else {
                assert(row@[j] == old(row)@[j]);
            }
        }
        assert forall|x: char| #[trigger] row_value(row@, x) == if x == c {
            sat_add(row_value(old(row)@, c) as int, n as int)
        } else {
            row_value(old(row)@, x)
        } by {
            if x == c {
                lemma_row_value_at(row@, last);
            } else if exists|j: int| 0 <= j < old(row)@.len() && old(row)@[j].0 == x {
                let j = choose|j: int| 0 <= j < old(row)@.len() && old(row)@[j].0 == x;
                lemma_row_value_at(old(row)@, j);
                lemma_row_value_at(row@, j);
            } else {
                assert(!exists|j: int| 0 <= j < row@.len() && row@[j].0 == x);
            }
        }
    }
}

fn row_remove(row: &mut Row, c: char)
    requires
        row_keys_unique(old(row)@),
    ensures
        row_keys_unique(final(row)@),
        forall|x: char| #[trigger] row_value(final(row)@, x) == if x == c { 0 } else { row_value(old(row)@, x) },
{
    let mut i: usize = 0;
    while i < row.len()
        invariant
            i <= row@.len(),
            row@ == old(row)@,
            row_keys_unique(old(row)@),
            forall|j: int| 0 <= j < i ==> row@[j].0 != c,
        decreases row@.len() - i,
    {
        if row[i].0 == c {
            row.remove(i);
            proof {
                let o = old(row)@;
                assert(row@ =~= o.remove(i as int));
                assert forall|j: int, k: int| 0 <= j < k < row@.len() implies row@[j].0 != row@[k].0 by {
                    let j2 = if j < i { j } else { j + 1 };
                    let k2 = if k < i { k } else { k + 1 };
                    assert(row@[j] == o[j2] && row@[k] == o[k2]);
                }
                assert forall|x: char| #[trigger] row_value(row@, x) == if x == c { 0 } else { row_value(o, x) } by {
                    if x == c {
                        assert forall|j: int| 0 <= j < row@.len() implies row@[j].0 != c by {
                            if j < i {
                            } else {
                                assert(row@[j] == o[j + 1]);
                                assert(o[i as int].0 != o[j + 1].0);
                            }
                        }
                    } else if exists|j: int| 0 <= j < o.len() && o[j].0 == x {
                        let j = choose|j: int| 0 <= j < o.len() && o[j].0 == x;
                        lemma_row_value_at(o, j);
                        let j2 = if j < i { j } else { j - 1 };
                        assert(row@[j2] == o[j]);
                        lemma_row_value_at(row@, j2);
                    } else {
                        assert forall|j: int| 0 <= j < row@.len() implies row@[j].0 != x by {
                            if j >= i {
                                assert(row@[j] == o[j + 1]);
                            }
                        }
                    }
                }
            }
            return;
        }
        i = i + 1;
    }
    proof {
        assert forall|x: char| #[trigger] row_value(row@, x) == if x == c { 0 } else { row_value(old(row)@, x) } by {
            if x == c {
                assert(!exists|j: int| 0 <= j < row@.len() && row@[j].0 == c);
            }
        }
    }
}

fn table_index(t: &Vec<(char, Row)>, c: char) -> (r: Option<usize>)
    ensures
        r matches Some(i) ==> i < t@.len() && t@[i as int].0 == c,
        r is None ==> !has_row_spec(t@, c),
{
    let mut i: usize = 0;
    while i < t.len()
        invariant
            i <= t@.len(),
            forall|j: int| 0 <= j < i ==> t@[j].0 != c,
        decreases t@.len() - i,
    {
        if t[i].0 == c {
            return Some(i);
        }
        i = i + 1;
    }
    None
}

/// `a * b` as a wide integer.
fn wide_product(a: u32, b: u32) -> (r: i128)
    ensures
        0 <= r <= 0xFFFF_FFFF_FFFF_FFFF,
        r == a * b,
{
    assert(a * b <= 0xFFFF_FFFF * 0xFFFF_FFFF) by (nonlinear_arith)
        requires
            a <= 0xFFFF_FFFF,
            b <= 0xFFFF_FFFF,
    ;
    assert(0 <= a * b) by (nonlinear_arith)
        requires
            0 <= a,
            0 <= b,
    ;
    (a as i128) * (b as i128)
}

/// The count of `b` in the row of `a` of table `t`.
pub open spec fn table_value(t: Seq<(char, Row)>, a: char, b: char) -> u32 {
    row_value(row_of(t, a), b)
}

/// Counts of adjacent character pairs in the shader text. Symbols appear as
/// their placeholder characters, so a symbol's left and right contexts are
/// the neighbours of one distinct character.
pub struct Bigrams {
    /// For each character, the characters that follow it, with counts.
    pub next_of: Vec<(char, Row)>,
    /// For each character, the characters that precede it, with counts.
    pub prev_of: Vec<(char, Row)>,
}

impl Bigrams {
    /// Both tables are well formed.
    pub open spec fn wf(&self) -> bool {
        table_wf(self.next_of@) && table_wf(self.prev_of@)
    }

    /// How often `b` follows `a`.
    pub open spec fn spec_count(&self, a: char, b: char) -> u32 {
        table_value(self.next_of@, a, b)
    }

    /// How often `a` precedes `b`.
    pub open spec fn spec_count_before(&self, b: char, a: char) -> u32 {
        table_value(self.prev_of@, b, a)
    }

    /// The counts of the adjacent pairs of `text`.
    pub fn new(text: &str) -> (r: Bigrams)
        ensures
            r.wf(),
            forall|a: char, b: char| #[trigger] r.spec_count(a, b) == sat_add(pair_count(text@, a, b) as int, 0),
            forall|a: char, b: char| #[trigger] r.spec_count_before(b, a) == sat_add(pair_count(text@, a, b) as int, 0),
    {
        let mut b = Bigrams { next_of: Vec::new(), prev_of: Vec::new() };
        let t = chars_of(text);
        if t.len() == 0 {
            return b;
        }
        proof {
            assert(pair_count(t@.subrange(0, 1), 'a', 'a') == 0);
        }
        let mut i: usize = 1;
        while i < t.len()
            invariant
                1 <= i <= t@.len(),
                t@ == text@,
                b.wf(),
                forall|x: char, y: char| #[trigger] b.spec_count(x, y) == sat_add(pair_count(t@.subrange(0, i as int), x, y) as int, 0),
                forall|x: char, y: char| #[trigger] b.spec_count_before(y, x) == sat_add(pair_count(t@.subrange(0, i as int), x, y) as int, 0),
            decreases t@.len() - i,
        {
            let ghost pre = t@.subrange(0, i as int);
            let ghost next = t@.subrange(0, i + 1);
            proof {
                assert(next.drop_last() =~= pre);
            }
            b.add(t[i - 1], t[i], 1);
            i = i + 1;
        }
        proof {
            assert(t@.subrange(0, i as int) =~= text@);
        }
        b
    }

    fn add_to(t: &mut Vec<(char, Row)>, a: char, b: char, n: u32)
        requires
            table_wf(old(t)@),
        ensures
            table_wf(final(t)@),
            forall|x: char, y: char| #[trigger] table_value(final(t)@, x, y) == if x == a && y == b {
                sat_add(table_value(old(t)@, a, b) as int, n as int)
            } else {
                table_value(old(t)@, x, y)
            },
            forall|x: char| has_row_spec(final(t)@, x) <==> (x == a || has_row_spec(old(t)@, x)),
    {
        match table_index(t, a) {
            Some(i) => {
                let mut row = copy_row(&t[i].1);
                proof {
                    lemma_row_of_at(old(t)@, i as int);
                }
                row_add(&mut row, b, n);
                let ghost new_row = row@;
                t.set(i, (a, row));
                proof {
                    let o = old(t)@;
                    assert(t@[i as int].1@ == new_row);
                    assert forall|j: int, k: int| 0 <= j < k < t@.len() implies t@[j].0 != t@[k].0 by {
                        assert(t@[j].0 == o[j].0 && t@[k].0 == o[k].0);
                    }
                    assert forall|j: int| 0 <= j < t@.len() implies row_keys_unique(#[trigger] t@[j].1@) by {
                        if j != i {
                            assert(t@[j] == o[j]);
                        }
                    }
                    lemma_row_of_at(t@, i as int);
                    assert forall|x: char, y: char| #[trigger] table_value(t@, x, y) == if x == a && y == b {
                        sat_add(table_value(o, a, b) as int, n as int)
                    } else {
                        table_value(o, x, y)
                    } by {
                        if x != a {
                            if has_row_spec(o, x) {
                                let j = choose|j: int| 0 <= j < o.len() && o[j].0 == x;
                                lemma_row_of_at(o, j);
                                assert(t@[j] == o[j]);
                                lemma_row_of_at(t@, j);
                            } else {
                                assert(!has_row_spec(t@, x)) by {
                                    if has_row_spec(t@, x) {
                                        let j = choose|j: int| 0 <= j < t@.len() && t@[j].0 == x;
                                        assert(o[j].0 == x);
                                    }
                                }
                            }
                        }
                    }
                    assert forall|x: char| has_row_spec(t@, x) <==> (x == a || has_row_spec(o, x)) by {
                        if has_row_spec(o, x) {
                            let j = choose|j: int| 0 <= j < o.len() && o[j].0 == x;
                            assert(t@[j].0 == x);
                        }
                        if has_row_spec(t@, x) {
                            let j = choose|j: int| 0 <= j < t@.len() && t@[j].0 == x;
                            assert(o[j].0 == x);
                        }
                        if x == a {
                            assert(t@[i as int].0 == a);
                        }
                    }
                }
            },
            None => {
                let mut row: Row = Vec::new();
                row.push((b, n));
                let ghost new_row = row@;
                t.push((a, row));
                proof {
                    let o = old(t)@;
                    let last = t@.len() - 1;
                    assert(t@[last].1@ == new_row);
                    assert(new_row =~= seq![(b, n)]);
                    assert forall|j: int| 0 <= j < t@.len() implies row_keys_unique(#[trigger] t@[j].1@) by {
                        if j < last {
                            assert(t@[j] == o[j]);
                        }
                    }
                    assert forall|j: int, k: int| 0 <= j < k < t@.len() implies t@[j].0 != t@[k].0 by {
                        if k == last {
                            assert(o[j].0 != a);
                        }
                    }
                    lemma_row_of_at(t@, last);
                    lemma_row_value_at(new_row, 0);
                    assert forall|x: char, y: char| #[trigger] table_value(t@, x, y) == if x == a && y == b {
                        sat_add(table_value(o, a, b) as int, n as int)
                    } else {
                        table_value(o, x, y)
                    } by {
                        if x == a {
                            if y != b {
                                assert(!exists|k: int| 0 <= k < new_row.len() && new_row[k].0 == y);
                            }
                        } else if has_row_spec(o, x) {
                            let j = choose|j: int| 0 <= j < o.len() && o[j].0 == x;
                            lemma_row_of_at(o, j);
                            assert(t@[j] == o[j]);
                            lemma_row_of_at(t@, j);
                        } else {
                            assert(!has_row_spec(t@, x)) by {
                                if has_row_spec(t@, x) {
                                    let j = choose|j: int| 0 <= j < t@.len() && t@[j].0 == x;
                                    if j < last {
                                        assert(o[j].0 == x);
                                    }
                                }
                            }
                        }
                    }
                    assert forall|x: char| has_row_spec(t@, x) <==> (x == a || has_row_spec(o, x)) by {
                        if has_row_spec(o, x) {
                            let j = choose|j: int| 0 <= j < o.len() && o[j].0 == x;
                            assert(t@[j].0 == x);
                        }
                        if has_row_spec(t@, x) {
                            let j = choose|j: int| 0 <= j < t@.len() && t@[j].0 == x;
                            if j < last {
                                assert(o[j].0 == x);
                            }
                        }
                        if x == a {
                            assert(t@[last].0 == a);
                        }
                    }
                }
            },
        }
    }

    /// Count `n` more occurrences of `b` following `a`.
    pub fn add(&mut self, a: char, b: char, n: u32)
        requires
            old(self).wf(),
        ensures
            final(self).wf(),
            forall|x: char, y: char| #[trigger] final(self).spec_count(x, y) == if x == a && y == b {
                sat_add(old(self).spec_count(a, b) as int, n as int)
            } else {
                old(self).spec_count(x, y)
            },
            forall|x: char, y: char| #[trigger] final(self).spec_count_before(y, x) == if x == a && y == b {
                sat_add(old(self).spec_count_before(b, a) as int, n as int)
            } else {
                old(self).spec_count_before(y, x)
            },
            forall|x: char| has_row_spec(final(self).next_of@, x) <==> (x == a || has_row_spec(old(self).next_of@, x)),
            forall|x: char| has_row_spec(final(self).prev_of@, x) <==> (x == b || has_row_spec(old(self).prev_of@, x)),
    {
        Self::add_to(&mut self.next_of, a, b, n);
        Self::add_to(&mut self.prev_of, b, a, n);
    }

    /// How often `b` follows `a`.
    pub fn count(&self, a: char, b: char) -> (r: u32)
        requires
            self.wf(),
        ensures
            r == self.spec_count(a, b),
    {
        match table_index(&self.next_of, a) {
            Some(i) => {
                proof {
                    lemma_row_of_at(self.next_of@, i as int);
                }
                row_get(&self.next_of[i].1, b)
            },
            None => 0,
        }
    }

    /// The row of `s` in `t`, removed from `t`.
    fn take_row(t: &mut Vec<(char, Row)>, s: char) -> (r: Row)
        requires
            table_wf(old(t)@),
        ensures
            table_wf(final(t)@),
            r@ == row_of(old(t)@, s),
            row_keys_unique(r@),
            !has_row_spec(final(t)@, s),
            forall|x: char, y: char| x != s ==> #[trigger] table_value(final(t)@, x, y) == table_value(old(t)@, x, y),
            forall|x: char| x != s ==> (has_row_spec(final(t)@, x) <==> has_row_spec(old(t)@, x)),
    {
        match table_index(t, s) {
            Some(i) => {
                proof {
                    lemma_row_of_at(old(t)@, i as int);
                }
                let (_, row) = t.remove(i);
                proof {
                    let o = old(t)@;
                    assert(t@ =~= o.remove(i as int));
                    assert forall|j: int, k: int| 0 <= j < k < t@.len() implies t@[j].0 != t@[k].0 by {
                        let j2 = if j < i { j } else { j + 1 };
                        let k2 = if k < i { k } else { k + 1 };
                        assert(t@[j] == o[j2] && t@[k] == o[k2]);
                    }
                    assert forall|j: int| 0 <= j < t@.len() implies row_keys_unique(#[trigger] t@[j].1@) by {
                        let j2 = if j < i { j } else { j + 1 };
                        assert(t@[j] == o[j2]);
                    }
                    assert(!has_row_spec(t@, s)) by {
                        if has_row_spec(t@, s) {
                            let j = choose|j: int| 0 <= j < t@.len() && t@[j].0 == s;
                            let j2 = if j < i { j } else { j + 1 };
                            assert(t@[j] == o[j2]);
                        }
                    }
                    assert forall|x: char| x != s implies (has_row_spec(t@, x) <==> has_row_spec(o, x)) by {
                        if has_row_spec(o, x) {
                            let j = choose|j: int| 0 <= j < o.len() && o[j].0 == x;
                            let j2 = if j < i { j } else { j - 1 };
                            assert(t@[j2] == o[j]);
                        }
                        if has_row_spec(t@, x) {
                            let j = choose|j: int| 0 <= j < t@.len() && t@[j].0 == x;
                            let j2 = if j < i { j } else { j + 1 };
                            assert(t@[j] == o[j2]);
                        }
                    }
                    assert forall|x: char, y: char| x != s implies #[trigger] table_value(t@, x, y) == table_value(o, x, y) by {
                        if has_row_spec(o, x) {
                            let j = choose|j: int| 0 <= j < o.len() && o[j].0 == x;
                            let j2 = if j < i { j } else { j - 1 };
                            assert(t@[j2] == o[j]);
                            lemma_row_of_at(o, j);
                            lemma_row_of_at(t@, j2);
                        }
                    }
                }
                row
            },
            None => Vec::new(),
        }
    }

    /// Whether the row of `s` is present.
    pub fn has_row(t: &Vec<(char, Row)>, s: char) -> (r: bool)
        ensures
            r == has_row_spec(t@, s),
    {
        table_index(t, s).is_some()
    }

    /// How well `cand` fits the contexts of the symbol printed as `s`: the
    /// frequency of the bigrams its first/last character would form with
    /// each distinct neighbour (`weighted`: times how often that neighbour
    /// occurs), minus a penalty that keeps any single letter ahead of any
    /// longer name. The sums saturate near 2^80.
    pub fn score(&self, s: char, cand: &str, weighted: bool) -> (r: i128)
        requires
            self.wf(),
            cand@.len() > 0,
        ensures
            score_fits(*self, s, cand@, weighted) ==> r == spec_score(*self, s, cand@, weighted),
    {
        let c = chars_of(cand);
        let first = c[0];
        let last = c[c.len() - 1];
        let ghost p = row_of(self.prev_of@, s);
        let ghost n = row_of(self.next_of@, s);
        let ghost bound = SCORE_LIMIT - 0x1_0000_0000_0000_0000;
        let ghost occ_bound = SCORE_LIMIT - 0x1_0000_0000;
        let mut score: i128 = 0;
        let mut occurrences: i128 = 0;
        let limit: i128 = SCORE_LIMIT;
        match table_index(&self.prev_of, s) {
            Some(i) => {
                proof {
                    lemma_row_of_at(self.prev_of@, i as int);
                }
                let prev = &self.prev_of[i].1;
                let mut k: usize = 0;
                while k < prev.len()
                    invariant
                        self.wf(),
                        limit == SCORE_LIMIT,
                        bound == SCORE_LIMIT - 0x1_0000_0000_0000_0000,
                        occ_bound == SCORE_LIMIT - 0x1_0000_0000,
                        prev@ == p,
                        k <= prev@.len(),
                        -limit <= score <= limit,
                        0 <= occurrences <= limit,
                        prev_sum(*self, p.subrange(0, k as int), first, weighted) < bound ==> score == prev_sum(
                            *self,
                            p.subrange(0, k as int),
                            first,
                            weighted,
                        ),
                        weight_sum(p.subrange(0, k as int)) < occ_bound ==> occurrences == weight_sum(
                            p.subrange(0, k as int),
                        ),
                    decreases prev@.len() - k,
                {
                    let (ch, w) = prev[k];
                    let ghost pre = p.subrange(0, k as int);
                    let ghost nxt = p.subrange(0, k + 1);
                    proof {
                        assert(nxt.drop_last() =~= pre);
                        assert(nxt.last() == (ch, w));
                    }
                    if occurrences < limit - 0x1_0000_0000 {
                        occurrences = occurrences + w as i128;
                    }
                    let v = self.count(ch, first);
                    let d: i128 = if weighted { wide_product(v, w) } else { v as i128 };
                    if score < limit - 0x1_0000_0000_0000_0000 {
                        score = score + d;
                    }
                    proof {
                        assert(d == term(v, w, weighted));
                        assert(d >= 0);
                        assert(prev_sum(*self, nxt, first, weighted) == prev_sum(*self, pre, first, weighted) + d);
                        assert(weight_sum(nxt) == weight_sum(pre) + w);
                    }
                    k = k + 1;
                }
                proof {
                    assert(p.subrange(0, k as int) =~= p);
                }
            },
            None => {},
        }
        let ghost base = prev_sum(*self, p, first, weighted);
        match table_index(&self.next_of, s) {
            Some(i) => {
                proof {
                    lemma_row_of_at(self.next_of@, i as int);
                }
                let next = &self.next_of[i].1;
                let mut k: usize = 0;
                while k < next.len()
                    invariant
                        self.wf(),
                        limit == SCORE_LIMIT,
                        bound == SCORE_LIMIT - 0x1_0000_0000_0000_0000,
                        occ_bound == SCORE_LIMIT - 0x1_0000_0000,
                        next@ == n,
                        k <= next@.len(),
                        -limit <= score <= limit,
                        0 <= occurrences <= limit,
                        base + next_sum(*self, n.subrange(0, k as int), last, weighted) < bound ==> score == base
                            + next_sum(*self, n.subrange(0, k as int), last, weighted),
                    decreases next@.len() - k,
                {
                    let (ch, w) = next[k];
                    let ghost pre = n.subrange(0, k as int);
                    let ghost nxt = n.subrange(0, k + 1);
                    proof {
                        assert(nxt.drop_last() =~= pre);
                        assert(nxt.last() == (ch, w));
                    }
                    let v = self.count(last, ch);
                    let d: i128 = if weighted { wide_product(v, w) } else { v as i128 };
                    if score < limit - 0x1_0000_0000_0000_0000 {
                        score = score + d;
                    }
                    proof {
                        assert(d == term(v, w, weighted));
                        assert(next_sum(*self, nxt, last, weighted) == next_sum(*self, pre, last, weighted) + d);
                    }
                    k = k + 1;
                }
                proof {
                    assert(n.subrange(0, k as int) =~= n);
                }
            },
            None => {},
        }
        if c.len() > 1 {
            let inner = self.count(first, last) as i128;
            assert(0 <= inner * occurrences <= 0x1_0000_0000 * 0x1_0000_0000_0000_0000_0000) by (nonlinear_arith)
                requires
                    0 <= inner <= 0x1_0000_0000,
                    0 <= occurrences <= 0x1_0000_0000_0000_0000_0000,
            ;
            score = score + if weighted { inner * occurrences } else { inner };
            let occ1: i128 = if occurrences > 1 { occurrences } else { 1 };
            score = score - 1000 * if weighted { occ1 } else { 1 };
        }
        score
    }

    /// Remove the entry of `s` from the row of `ch` in `t`, if there is one.
    fn remove_from_row(t: &mut Vec<(char, Row)>, ch: char, s: char)
        requires
            table_wf(old(t)@),
        ensures
            table_wf(final(t)@),
            forall|x: char, y: char| #[trigger] table_value(final(t)@, x, y) == if x == ch && y == s {
                0
            } else {
                table_value(old(t)@, x, y)
            },
            forall|x: char| has_row_spec(final(t)@, x) <==> has_row_spec(old(t)@, x),
    {
        match table_index(t, ch) {
            Some(i) => {
                let mut row = copy_row(&t[i].1);
                proof {
                    lemma_row_of_at(old(t)@, i as int);
                }
                row_remove(&mut row, s);
                let ghost new_row = row@;
                t.set(i, (ch, row));
                proof {
                    let o = old(t)@;
                    assert(t@[i as int].1@ == new_row);
                    assert forall|j: int, k: int| 0 <= j < k < t@.len() implies t@[j].0 != t@[k].0 by {
                        assert(t@[j].0 == o[j].0 && t@[k].0 == o[k].0);
                    }
                    assert forall|j: int| 0 <= j < t@.len() implies row_keys_unique(#[trigger] t@[j].1@) by {
                        if j != i {
                            assert(t@[j] == o[j]);
                        }
                    }
                    lemma_row_of_at(t@, i as int);
                    assert forall|x: char, y: char| #[trigger] table_value(t@, x, y) == if x == ch && y == s {
                        0
                    } else {
                        table_value(o, x, y)
                    } by {
                        if x != ch {
                            if has_row_spec(o, x) {
                                let j = choose|j: int| 0 <= j < o.len() && o[j].0 == x;
                                lemma_row_of_at(o, j);
                                assert(t@[j] == o[j]);
                                lemma_row_of_at(t@, j);
                            } else {
                                assert(!has_row_spec(t@, x)) by {
                                    if has_row_spec(t@, x) {
                                        let j = choose|j: int| 0 <= j < t@.len() && t@[j].0 == x;
                                        assert(o[j].0 == x);
                                    }
                                }
                            }
                        }
                    }
                    assert forall|x: char| has_row_spec(t@, x) <==> has_row_spec(o, x) by {
                        if has_row_spec(o, x) {
                            let j = choose|j: int| 0 <= j < o.len() && o[j].0 == x;
                            assert(t@[j].0 == x);
                        }
                        if has_row_spec(t@, x) {
                            let j = choose|j: int| 0 <= j < t@.len() && t@[j].0 == x;
                            assert(o[j].0 == x);
                        }
                    }
                }
            },
            None => {
                proof {
                    assert forall|x: char, y: char| #[trigger] table_value(t@, x, y) == if x == ch && y == s {
                        0
                    } else {
                        table_value(old(t)@, x, y)
                    } by {
                    }
                }
            },
        }
    }

    /// Account for the symbol printed as `s` now being spelled `name`: the
    /// rows of `s` go, and its neighbours now neighbour the name's first and
    /// last characters (and those two each other, once per occurrence).
    #[verifier::spinoff_prover]
    #[verifier::rlimit(40)]
    pub fn fold(&mut self, s: char, name: &str)
        requires
            old(self).wf(),
            name@.len() > 0,
        ensures
            final(self).wf(),
            forall|x: char, y: char|
                x != s && y != s ==> #[trigger] final(self).spec_count(x, y) == sat_add(
                    old(self).spec_count(x, y) + fold_gain(*old(self), s, name@, x, y),
                    0,
                ),
            forall|x: char, y: char|
                x != s && y != s ==> #[trigger] final(self).spec_count_before(y, x) == sat_add(
                    old(self).spec_count_before(y, x) + fold_gain(*old(self), s, name@, x, y),
                    0,
                ),
            (name@[0] != s && name@.last() != s && !row_has(row_of(old(self).prev_of@, s), s) && !row_has(
                row_of(old(self).next_of@, s),
                s,
            )) ==> !has_row_spec(final(self).next_of@, s) && !has_row_spec(final(self).prev_of@, s),
    {
        let c = chars_of(name);
        let first = c[0];
        let last = c[c.len() - 1];
        let ghost p = row_of(old(self).prev_of@, s);
        let ghost n = row_of(old(self).next_of@, s);
        let ghost quiet = first != s && last != s && !row_has(p, s) && !row_has(n, s);
        let prev = Self::take_row(&mut self.prev_of, s);
        let next = Self::take_row(&mut self.next_of, s);
        let mut occurrences: u32 = 0;
        let mut k: usize = 0;
        while k < prev.len()
            invariant
                self.wf(),
                prev@ == p,
                p == row_of(old(self).prev_of@, s),
                n == row_of(old(self).next_of@, s),
                next@ == n,
                row_keys_unique(n),
                c@ == name@,
                name@.len() > 0,
                first == name@[0],
                last == name@.last(),
                quiet == (first != s && last != s && !row_has(p, s) && !row_has(n, s)),
                row_keys_unique(p),
                k <= prev@.len(),
                occurrences == sat_add(weight_sum(p.subrange(0, k as int)), 0),
                forall|x: char, y: char|
                    x != s && y != s ==> #[trigger] self.spec_count(x, y) == sat_add(
                        old(self).spec_count(x, y) + if y == first { row_value(p.subrange(0, k as int), x) as int } else { 0 },
                        0,
                    ),
                forall|x: char, y: char|
                    x != s && y != s ==> #[trigger] self.spec_count_before(y, x) == sat_add(
                        old(self).spec_count_before(y, x) + if y == first { row_value(p.subrange(0, k as int), x) as int } else { 0 },
                        0,
                    ),
                quiet ==> !has_row_spec(self.next_of@, s) && !has_row_spec(self.prev_of@, s),
                quiet ==> forall|j: int| 0 <= j < p.len() ==> p[j].0 != s,
            decreases prev@.len() - k,
        {
            let (ch, w) = prev[k];
            let ghost pre = p.subrange(0, k as int);
            let ghost nxt = p.subrange(0, k + 1);
            proof {
                lemma_prefix_value(p, k as int);
                assert(nxt.drop_last() =~= pre);
                assert(p[k as int] == (ch, w));
                lemma_weight_sum_nonneg(pre);
            }
            let ghost s0 = *self;
            Self::remove_from_row(&mut self.next_of, ch, s);
            let ghost s1 = *self;
            self.add(ch, first, w);
            occurrences = if occurrences <= u32::MAX - w { occurrences + w } else { u32::MAX };
            proof {
                lemma_sat_chain(weight_sum(pre), 0, w as int);
                assert(weight_sum(nxt) == weight_sum(pre) + w);
                lemma_sat_chain(old(self).spec_count(ch, first) as int, row_value(pre, ch) as int, w as int);
                lemma_sat_chain(old(self).spec_count_before(first, ch) as int, row_value(pre, ch) as int, w as int);
                assert forall|x: char, y: char|
                    x != s && y != s implies #[trigger] self.spec_count(x, y) == sat_add(
                        old(self).spec_count(x, y) + if y == first { row_value(nxt, x) as int } else { 0 },
                        0,
                    ) by {
                    assert(table_value(s1.next_of@, x, y) == table_value(s0.next_of@, x, y));
                    assert(s1.spec_count(x, y) == s0.spec_count(x, y));
                    assert(self.spec_count(x, y) == if x == ch && y == first {
                        sat_add(s1.spec_count(ch, first) as int, w as int)
                    } else {
                        s1.spec_count(x, y)
                    });
                    assert(row_value(nxt, x) == if p[k as int].0 == x {
                        row_value(pre, x) + p[k as int].1
                    } else {
                        row_value(pre, x) as int
                    });
                }
                assert forall|x: char, y: char|
                    x != s && y != s implies #[trigger] self.spec_count_before(y, x) == sat_add(
                        old(self).spec_count_before(y, x) + if y == first { row_value(nxt, x) as int } else { 0 },
                        0,
                    ) by {
                    assert(s1.prev_of == s0.prev_of);
                    assert(s1.spec_count_before(y, x) == s0.spec_count_before(y, x));
                    assert(self.spec_count_before(y, x) == if x == ch && y == first {
                        sat_add(s1.spec_count_before(first, ch) as int, w as int)
                    } else {
                        s1.spec_count_before(y, x)
                    });
                    assert(row_value(nxt, x) == if p[k as int].0 == x {
                        row_value(pre, x) + p[k as int].1
                    } else {
                        row_value(pre, x) as int
                    });
                }
            }
            k = k + 1;
        }
        proof {
            assert(p.subrange(0, k as int) =~= p);
            assert(n.subrange(0, 0) =~= Seq::<(char, u32)>::empty());
        }
        let mut k: usize = 0;
        while k < next.len()
            invariant
                self.wf(),
                next@ == n,
                prev@ == p,
                p == row_of(old(self).prev_of@, s),
                n == row_of(old(self).next_of@, s),
                row_keys_unique(p),
                c@ == name@,
                name@.len() > 0,
                first == name@[0],
                last == name@.last(),
                quiet == (first != s && last != s && !row_has(p, s) && !row_has(n, s)),
                row_keys_unique(n),
                k <= next@.len(),
                occurrences == sat_add(weight_sum(p), 0),
                forall|x: char, y: char|
                    x != s && y != s ==> #[trigger] self.spec_count(x, y) == sat_add(
                        old(self).spec_count(x, y) + (if y == first { row_value(p, x) as int } else { 0 }) + (
                        if x == last { row_value(n.subrange(0, k as int), y) as int } else { 0 }),
                        0,
                    ),
                forall|x: char, y: char|
                    x != s && y != s ==> #[trigger] self.spec_count_before(y, x) == sat_add(
                        old(self).spec_count_before(y, x) + (if y == first { row_value(p, x) as int } else { 0 }) + (
                        if x == last { row_value(n.subrange(0, k as int), y) as int } else { 0 }),
                        0,
                    ),
                quiet ==> !has_row_spec(self.next_of@, s) && !has_row_spec(self.prev_of@, s),
                quiet ==> forall|j: int| 0 <= j < n.len() ==> n[j].0 != s,
            decreases next@.len() - k,
        {
            let (ch, w) = next[k];
            let ghost pre = n.subrange(0, k as int);
            let ghost nxt = n.subrange(0, k + 1);
            proof {
                lemma_prefix_value(n, k as int);
                assert(n[k as int] == (ch, w));
            }
            let ghost s0 = *self;
            Self::remove_from_row(&mut self.prev_of, ch, s);
            let ghost s1 = *self;
            self.add(last, ch, w);
            proof {
                let a1 = old(self).spec_count(last, ch) as int + (if ch == first { row_value(p, last) as int } else { 0 });
                let a2 = old(self).spec_count_before(ch, last) as int + (if ch == first { row_value(p, last) as int } else { 0 });
                lemma_sat_chain(a1, row_value(pre, ch) as int, w as int);
                lemma_sat_chain(a2, row_value(pre, ch) as int, w as int);
                assert forall|x: char, y: char|
                    x != s && y != s implies #[trigger] self.spec_count(x, y) == sat_add(
                        old(self).spec_count(x, y) + (if y == first { row_value(p, x) as int } else { 0 }) + (
                        if x == last { row_value(nxt, y) as int } else { 0 }),
                        0,
                    ) by {
                    assert(s1.next_of == s0.next_of);
                    assert(s1.spec_count(x, y) == s0.spec_count(x, y));
                    assert(self.spec_count(x, y) == if x == last && y == ch {
                        sat_add(s1.spec_count(last, ch) as int, w as int)
                    } else {
                        s1.spec_count(x, y)
                    });
                    assert(row_value(nxt, y) == if n[k as int].0 == y {
                        row_value(pre, y) + n[k as int].1
                    } else {
                        row_value(pre, y) as int
                    });
                }
                assert forall|x: char, y: char|
                    x != s && y != s implies #[trigger] self.spec_count_before(y, x) == sat_add(
                        old(self).spec_count_before(y, x) + (if y == first { row_value(p, x) as int } else { 0 }) + (
                        if x == last { row_value(nxt, y) as int } else { 0 }),
                        0,
                    ) by {
                    assert(table_value(s1.prev_of@, y, x) == table_value(s0.prev_of@, y, x));
                    assert(s1.spec_count_before(y, x) == s0.spec_count_before(y, x));
                    assert(self.spec_count_before(y, x) == if x == last && y == ch {
                        sat_add(s1.spec_count_before(ch, last) as int, w as int)
                    } else {
                        s1.spec_count_before(y, x)
                    });
                    assert(row_value(nxt, y) == if n[k as int].0 == y {
                        row_value(pre, y) + n[k as int].1
                    } else {
                        row_value(pre, y) as int
                    });
                }
            }
            k = k + 1;
        }
        proof {
            assert(n.subrange(0, k as int) =~= n);
            lemma_weight_sum_nonneg(p);
        }
        if c.len() > 1 {
            self.add(first, last, occurrences);
            proof {
                let a1 = old(self).spec_count(first, last) as int + row_value(p, first) as int + (if first == last { row_value(n, last) as int } else { 0 });
                let a2 = old(self).spec_count_before(last, first) as int + row_value(p, first) as int + (if first == last { row_value(n, last) as int } else { 0 });
                lemma_sat_chain(a1, 0, occurrences as int);
                lemma_sat_chain(a2, 0, occurrences as int);
            }
        }
    }
}

/// The upper end of the score sums.
pub const SCORE_LIMIT: i128 = 0x1_0000_0000_0000_0000_0000;

/// One neighbour's contribution to a score.
pub open spec fn term(v: u32, w: u32, weighted: bool) -> int {
    if weighted {
        v * w
    } else {
        v as int
    }
}

/// Σ over the left neighbours `(c, w)` in `row` of how often `c` is
/// followed by `first`.
pub open spec fn prev_sum(b: Bigrams, row: Seq<(char, u32)>, first: char, weighted: bool) -> int
    decreases row.len(),
{
    if row.len() == 0 {
        0
    } else {
        prev_sum(b, row.drop_last(), first, weighted) + term(b.spec_count(row.last().0, first), row.last().1, weighted)
    }
}

/// Σ over the right neighbours `(c, w)` in `row` of how often `last` is
/// followed by `c`.
pub open spec fn next_sum(b: Bigrams, row: Seq<(char, u32)>, last: char, weighted: bool) -> int
    decreases row.len(),
{
    if row.len() == 0 {
        0
    } else {
        next_sum(b, row.drop_last(), last, weighted) + term(b.spec_count(last, row.last().0), row.last().1, weighted)
    }
}

/// Σ of the counts in `row`.
pub open spec fn weight_sum(row: Seq<(char, u32)>) -> int
    decreases row.len(),
{
    if row.len() == 0 {
        0
    } else {
        weight_sum(row.drop_last()) + row.last().1
    }
}

/// Whether `row` has an entry for `c`.
pub open spec fn row_has(row: Seq<(char, u32)>, c: char) -> bool {
    exists|i: int| 0 <= i < row.len() && row[i].0 == c
}

/// The score sums of `cand` for `s` stay below the saturation bound.
pub open spec fn score_fits(b: Bigrams, s: char, cand: Seq<char>, weighted: bool) -> bool {
    let p = row_of(b.prev_of@, s);
    let n = row_of(b.next_of@, s);
    &&& prev_sum(b, p, cand[0], weighted) + next_sum(b, n, cand.last(), weighted) < SCORE_LIMIT - 0x1_0000_0000_0000_0000
    &&& weight_sum(p) < SCORE_LIMIT - 0x1_0000_0000
}

/// The score of `cand` for the symbol printed as `s`.
pub open spec fn spec_score(b: Bigrams, s: char, cand: Seq<char>, weighted: bool) -> int {
    let first = cand[0];
    let last = cand.last();
    let p = row_of(b.prev_of@, s);
    let n = row_of(b.next_of@, s);
    let base = prev_sum(b, p, first, weighted) + next_sum(b, n, last, weighted);
    if cand.len() > 1 {
        let occ = weight_sum(p);
        let inner = b.spec_count(first, last) as int;
        base + (if weighted { inner * occ } else { inner }) - 1000 * (if weighted {
            if occ > 1 {
                occ
            } else {
                1
            }
        } else {
            1
        })
    } else {
        base
    }
}

/// What folding `s` into `name` adds to the count of `y` following `x`.
pub open spec fn fold_gain(b: Bigrams, s: char, name: Seq<char>, x: char, y: char) -> int {
    let p = row_of(b.prev_of@, s);
    let n = row_of(b.next_of@, s);
    let first = name[0];
    let last = name.last();
    (if y == first { row_value(p, x) as int } else { 0 }) + (if x == last { row_value(n, y) as int } else { 0 }) + (
    if name.len() > 1 && x == first && y == last { sat_add(weight_sum(p), 0) as int } else { 0 })
}

/// Saturating additions of non-negative amounts add up.
proof fn lemma_sat_chain(a: int, b: int, c: int)
    requires
        a >= 0,
        b >= 0,
        c >= 0,
    ensures
        sat_add(sat_add(a + b, 0) as int, c) == sat_add(a + b + c, 0),
{
}

proof fn lemma_weight_sum_nonneg(row: Seq<(char, u32)>)
    ensures
        weight_sum(row) >= 0,
    decreases row.len(),
{
    if row.len() > 0 {
        lemma_weight_sum_nonneg(row.drop_last());
    }
}

/// The count of `x` in a prefix grows by the next entry.
proof fn lemma_prefix_value(row: Seq<(char, u32)>, k: int)
    requires
        row_keys_unique(row),
        0 <= k < row.len(),
    ensures
        forall|x: char| #[trigger] row_value(row.subrange(0, k + 1), x) == if row[k].0 == x {
            row_value(row.subrange(0, k), x) + row[k].1
        } else {
            row_value(row.subrange(0, k), x) as int
        },
        forall|x: char| row[k].0 == x ==> #[trigger] row_value(row.subrange(0, k), x) == 0,
{
    let a = row.subrange(0, k);
    let b = row.subrange(0, k + 1);
    assert(row_keys_unique(a));
    assert(row_keys_unique(b));
    assert forall|x: char| row[k].0 == x implies #[trigger] row_value(a, x) == 0 by {
        assert(!exists|j: int| 0 <= j < a.len() && a[j].0 == x) by {
            if exists|j: int| 0 <= j < a.len() && a[j].0 == x {
                let j = choose|j: int| 0 <= j < a.len() && a[j].0 == x;
                assert(row[j].0 != row[k].0);
            }
        }
    }
    assert forall|x: char| #[trigger] row_value(b, x) == if row[k].0 == x {
        row_value(a, x) + row[k].1
    } else {
        row_value(a, x) as int
    } by {
        if row[k].0 == x {
            lemma_row_value_at(b, k);
        } else if exists|j: int| 0 <= j < a.len() && a[j].0 == x {
            let j = choose|j: int| 0 <= j < a.len() && a[j].0 == x;
            lemma_row_value_at(a, j);
            lemma_row_value_at(b, j);
        } else {
            assert(!exists|j: int| 0 <= j < b.len() && b[j].0 == x) by {
                if exists|j: int| 0 <= j < b.len() && b[j].0 == x {
                    let j = choose|j: int| 0 <= j < b.len() && b[j].0 == x;
                    if j < k {
                        assert(a[j].0 == x);
                    }
                }
            }
        }
    }
}

/// `after` is `before` with at most the new names of unpinned symbols
/// changed: every other part of the table, and the new name of every pinned
/// symbol, stays as it was.
pub open spec fn renames_only_unpinned(before: SymbolTable, after: SymbolTable) -> bool {
    &&& after.symbols@.len() == before.symbols@.len()
    &&& forall|i: int|
        0 <= i < before.symbols@.len() ==> {
            let x = #[trigger] before.symbols@[i];
            let y = after.symbols@[i];
            &&& y.name == x.name
            &&& y.kind == x.kind
            &&& y.scope == x.scope
            &&& y.ty == x.ty
            &&& y.pinned == x.pinned
            &&& y.occurrences == x.occurrences
            &&& (x.pinned is Some ==> y.new_name == x.new_name)
        }
    &&& after.scopes == before.scopes
    &&& after.structs == before.structs
    &&& after.occ == before.occ
    &&& after.pinned_names == before.pinned_names
    &&& after.pinned_field_names == before.pinned_field_names
}

/// A symbol that must keep its name (a `gl_`/`GL_`/`__` spelling, a pinned
/// name, a pinned or swizzle-shaped field name) is left without a new name
/// by resolving and then renaming: it is printed as it was written.
pub proof fn law_kept_names_are_not_renamed(resolved: SymbolTable, renamed: SymbolTable, i: int)
    requires
        pins_kept_names(resolved),
        unassigned(resolved),
        renames_only_unpinned(resolved, renamed),
        0 <= i < resolved.symbols@.len(),
        must_keep_name(resolved.symbols@[i], resolved.pinned_names@, resolved.pinned_field_names@),
    ensures
        renamed.symbols@[i].new_name is None,
        renamed.symbols@[i].name == resolved.symbols@[i].name,
{
}

/// A protected name (`main`, the blocklist, what a pragma region or the
/// preprocessor pins) that a non-field symbol carries is never renamed.
pub proof fn law_protected_names_are_not_renamed(
    prot: Protection,
    resolved: SymbolTable,
    renamed: SymbolTable,
    i: int,
)
    requires
        prot.names@.subset_of(resolved.pinned_names@),
        pins_kept_names(resolved),
        unassigned(resolved),
        renames_only_unpinned(resolved, renamed),
        0 <= i < resolved.symbols@.len(),
        !(resolved.symbols@[i].kind is Field),
        prot.names@.contains(resolved.symbols@[i].name@),
    ensures
        renamed.symbols@[i].new_name is None,
{
    law_kept_names_are_not_renamed(resolved, renamed, i);
}

/// Renaming keeps the table well formed: it changes no id the table holds.
pub proof fn law_renaming_keeps_table_wf(before: SymbolTable, after: SymbolTable)
    requires
        symbol_table_wf(before),
        renames_only_unpinned(before, after),
    ensures
        symbol_table_wf(after),
{
    assert forall|i: int| 0 <= i < after.symbols@.len() implies (#[trigger] after.symbols@[i]).scope
        < after.scopes@.len() && (after.symbols@[i].kind matches SymbolKind::Field(d) ==> d < after.structs@.len())
        && (after.symbols@[i].ty matches crate::scope::TypeRef::UserStruct(d) ==> d < after.structs@.len()) by {
        let _ = before.symbols@[i];
    }
    assert forall|i: int| 0 <= i < before.symbols@.len() implies (#[trigger] after.symbols@[i]).occurrences
        == before.symbols@[i].occurrences by {
        let _ = before.symbols@[i];
    }
    crate::scope::lemma_links_frame(before, after);
}

/// A reordering of the alphabet holds each letter once, and no digit.
proof fn lemma_letters_distinct(letters: Seq<char>)
    requires
        letters.to_multiset() == alphabet().to_multiset(),
    ensures
        letters.no_duplicates(),
        forall|i: int| 0 <= i < letters.len() ==> !digit_seq().contains(#[trigger] letters[i]),
{
    broadcast use vstd::seq_lib::group_to_multiset_ensures;
    let a = alphabet();
    assert forall|i: int, j: int| 0 <= i < a.len() && 0 <= j < a.len() && i != j implies a[i] != a[j] by {
        assert(a[i] as u32 != a[j] as u32);
    }
    assert(a.no_duplicates());
    a.lemma_multiset_has_no_duplicates();
    letters.lemma_multiset_has_no_duplicates_conv();
    assert forall|i: int| 0 <= i < letters.len() implies !digit_seq().contains(#[trigger] letters[i]) by {
        assert(letters.to_multiset().contains(letters[i]));
        assert(a.contains(letters[i]));
        let k = choose|k: int| 0 <= k < a.len() && a[k] == letters[i];
        if digit_seq().contains(letters[i]) {
            let d = choose|d: int| 0 <= d < 10 && digit_seq()[d] == letters[i];
            assert(a[k] as u32 != digit_seq()[d] as u32);
        }
    }
}

/// No name of `p` but a last-resort one occurs twice.
pub open spec fn names_apart(p: Seq<String>) -> bool {
    forall|a: int, b: int|
        #![trigger p[a], p[b]]
        0 <= a < p.len() && 0 <= b < p.len() && a != b && !last_resort(p[a]@) ==> p[a]@ != p[b]@
}

/// No name but a last-resort one occurs twice among the free names
/// `avail` and the names of the visible symbols `live`.
pub open spec fn pool_apart(avail: Seq<String>, live: Seq<(SymbolId, String)>) -> bool {
    &&& names_apart(avail)
    &&& forall|a: int, b: int|
        #![trigger live[a], live[b]]
        0 <= a < live.len() && 0 <= b < live.len() && a != b && !last_resort(live[a].1@) ==> live[a].1@ != live[b].1@
    &&& forall|a: int, b: int|
        #![trigger avail[a], live[b]]
        0 <= a < avail.len() && 0 <= b < live.len() && !last_resort(avail[a]@) ==> avail[a]@ != live[b].1@
}

/// `after` gives symbol `x` another new name than `before` did.
pub open spec fn renamed_anew(before: SymbolTable, after: SymbolTable, x: int) -> bool {
    after.symbols@[x].new_name != before.symbols@[x].new_name
}

/// `sym` is a symbol of the global scope of `t`.
pub open spec fn is_global(t: SymbolTable, sym: SymbolId) -> bool {
    sym < t.symbols@.len() && t.symbols@[sym as int].scope == 0
}

/// A scope lists only symbols that belong to it, and a child scope comes
/// after its parent and references nothing its parent does not.
pub open spec fn scope_order(t: SymbolTable) -> bool {
    &&& forall|s: int, j: int|
        0 <= s < t.scopes@.len() && 0 <= j < t.scopes@[s].symbols@.len() && (#[trigger] t.scopes@[s].symbols@[j]) < t.symbols@.len()
            ==> t.symbols@[t.scopes@[s].symbols@[j] as int].scope == s
    &&& forall|s: int, j: int|
        0 <= s < t.scopes@.len() && 0 <= j < t.scopes@[s].children@.len() ==> s < (#[trigger] t.scopes@[s].children@[j])
            && t.scopes@[s].children@[j] < t.scopes@.len() && t.scopes@[t.scopes@[s].children@[j] as int].referenced@.subset_of(
            t.scopes@[s].referenced@,
        )
}

/// Every symbol that `after` names anew belongs to `scope` or to a scope
/// after it.
pub open spec fn stays_below(before: SymbolTable, after: SymbolTable, scope: int) -> bool {
    forall|x: int| 0 <= x < before.symbols@.len() && #[trigger] renamed_anew(before, after, x) ==> before.symbols@[x].scope >= scope
}

/// Every symbol that `after` names anew is printed unlike every global
/// symbol of `live`, unless it has a last-resort name.
pub open spec fn avoids_live_globals(before: SymbolTable, after: SymbolTable, live: Seq<(SymbolId, String)>) -> bool {
    forall|x: int, k: int|
        #![trigger renamed_anew(before, after, x), live[k]]
        0 <= x < before.symbols@.len() && 0 <= k < live.len() && is_global(before, live[k].0) && renamed_anew(before, after, x)
            ==> printed_name(after, x) != live[k].1@ || last_resort(printed_name(after, x))
}

/// No name but a last-resort one of `avail` is that of a global symbol of
/// `live`.
pub open spec fn avail_avoids_globals(avail: Seq<String>, live: Seq<(SymbolId, String)>, t: SymbolTable) -> bool {
    forall|a: int, k: int|
        #![trigger avail[a], live[k]]
        0 <= a < avail.len() && 0 <= k < live.len() && is_global(t, live[k].0) && !last_resort(avail[a]@) ==> avail[a]@ != live[k].1@
}

/// No name but a last-resort one of `avail` is that of a symbol of `live`
/// in `refs`.
pub open spec fn avail_avoids_refs(avail: Seq<String>, live: Seq<(SymbolId, String)>, refs: Set<u32>) -> bool {
    forall|a: int, k: int|
        #![trigger avail[a], live[k]]
        0 <= a < avail.len() && 0 <= k < live.len() && refs.contains(live[k].0) && !last_resort(avail[a]@) ==> avail[a]@ != live[k].1@
}

/// Every symbol of `live_in` in `refs` is still in `live` with its name.
pub open spec fn refs_kept(live_in: Seq<(SymbolId, String)>, live: Seq<(SymbolId, String)>, refs: Set<u32>) -> bool {
    forall|k: int| 0 <= k < live_in.len() && refs.contains((#[trigger] live_in[k]).0) ==> exists|a: int| 0 <= a < live.len() && live[a] == live_in[k]
}

/// Every symbol that `after` names anew is printed unlike every symbol of
/// `live` that its own scope references, unless it has a last-resort name.
pub open spec fn avoids_referenced(before: SymbolTable, after: SymbolTable, live: Seq<(SymbolId, String)>) -> bool {
    forall|x: int, k: int|
        #![trigger renamed_anew(before, after, x), live[k]]
        0 <= x < before.symbols@.len() && 0 <= k < live.len() && renamed_anew(before, after, x) && before.symbols@[x].scope
            < before.scopes@.len() && before.scopes@[before.symbols@[x].scope as int].referenced@.contains(live[k].0) ==> printed_name(after, x)
            != live[k].1@ || last_resort(printed_name(after, x))
}

/// Every symbol that `after` names anew belongs to a scope that references
/// nothing scope `s` does not.
pub open spec fn refs_below(before: SymbolTable, after: SymbolTable, s: int) -> bool {
    forall|x: int|
        0 <= x < before.symbols@.len() && #[trigger] renamed_anew(before, after, x) ==> before.symbols@[x].scope < before.scopes@.len()
            && before.scopes@[before.symbols@[x].scope as int].referenced@.subset_of(before.scopes@[s].referenced@)
}

/// Every global symbol of `live_in` is still in `live` with its name.
pub open spec fn globals_kept(live_in: Seq<(SymbolId, String)>, live: Seq<(SymbolId, String)>, t: SymbolTable) -> bool {
    forall|k: int| 0 <= k < live_in.len() && is_global(t, (#[trigger] live_in[k]).0) ==> exists|a: int| 0 <= a < live.len() && live[a] == live_in[k]
}

/// No symbol outside the global scope that `after` names anew is printed
/// like a global symbol that `after` names anew, unless it has a
/// last-resort name.
pub open spec fn locals_avoid_globals(before: SymbolTable, after: SymbolTable) -> bool {
    forall|x: int, y: int|
        #![trigger renamed_anew(before, after, x), renamed_anew(before, after, y)]
        0 <= x < before.symbols@.len() && 0 <= y < before.symbols@.len() && renamed_anew(before, after, x) && renamed_anew(before, after, y)
            && before.symbols@[x].scope != 0 && before.symbols@[y].scope == 0 ==> printed_name(after, x) != printed_name(after, y)
            || last_resort(printed_name(after, x))
}

proof fn lemma_scope_order_keeps(a: SymbolTable, b: SymbolTable)
    requires
        scope_order(a),
        renames_only_unpinned(a, b),
    ensures
        scope_order(b),
{
    assert forall|s: int, j: int|
        0 <= s < b.scopes@.len() && 0 <= j < b.scopes@[s].symbols@.len() && (#[trigger] b.scopes@[s].symbols@[j]) < b.symbols@.len()
            implies b.symbols@[b.scopes@[s].symbols@[j] as int].scope == s by {
        assert(a.scopes@[s].symbols@[j] == b.scopes@[s].symbols@[j]);
        let x = a.symbols@[a.scopes@[s].symbols@[j] as int];
    }
    assert forall|s: int, j: int|
        0 <= s < b.scopes@.len() && 0 <= j < b.scopes@[s].children@.len() implies s < (#[trigger] b.scopes@[s].children@[j])
            && b.scopes@[s].children@[j] < b.scopes@.len() && b.scopes@[b.scopes@[s].children@[j] as int].referenced@.subset_of(
            b.scopes@[s].referenced@,
        ) by {
        assert(a.scopes@[s].children@[j] == b.scopes@[s].children@[j]);
    }
}

proof fn lemma_live_globals_chain(t0: SymbolTable, t1: SymbolTable, t2: SymbolTable, live: Seq<(SymbolId, String)>)
    requires
        avoids_live_globals(t0, t1, live),
        avoids_live_globals(t1, t2, live),
        renames_only_unpinned(t0, t1),
        renames_only_unpinned(t1, t2),
    ensures
        avoids_live_globals(t0, t2, live),
{
    assert forall|x: int, k: int|
        0 <= x < t0.symbols@.len() && 0 <= k < live.len() && is_global(t0, live[k].0) && renamed_anew(t0, t2, x)
            implies printed_name(t2, x) != live[k].1@ || last_resort(printed_name(t2, x)) by {
        let sym = live[k].0;
        let a = t0.symbols@[sym as int];
        let b = t1.symbols@[sym as int];
        assert(is_global(t1, sym));
        if !renamed_anew(t1, t2, x) {
            assert(renamed_anew(t0, t1, x));
        }
    }
}

proof fn lemma_stays_below_chain(t0: SymbolTable, t1: SymbolTable, t2: SymbolTable, s0: int, s1: int)
    requires
        stays_below(t0, t1, s0),
        stays_below(t1, t2, s1),
        s0 <= s1,
        renames_only_unpinned(t0, t1),
        renames_only_unpinned(t1, t2),
    ensures
        stays_below(t0, t2, s0),
{
    assert forall|x: int| 0 <= x < t0.symbols@.len() && #[trigger] renamed_anew(t0, t2, x) implies t0.symbols@[x].scope >= s0 by {
        let a = t0.symbols@[x];
        if !renamed_anew(t0, t1, x) {
            assert(renamed_anew(t1, t2, x));
        }
    }
}

/// Taking entry `k` of `avail` as the name of `sym` keeps the names apart.
proof fn lemma_apart_take(avail: Seq<String>, live: Seq<(SymbolId, String)>, k: int, sym: SymbolId)
    requires
        pool_apart(avail, live),
        0 <= k < avail.len(),
    ensures
        pool_apart(avail.remove(k), live.push((sym, avail[k]))),
{
    let av = avail.remove(k);
    let lv = live.push((sym, avail[k]));
    assert forall|a: int| 0 <= a < av.len() implies #[trigger] av[a] == avail[if a < k { a } else { a + 1 }] by {}
    assert forall|a: int| 0 <= a < lv.len() implies #[trigger] lv[a] == (if a < live.len() { live[a] } else { (sym, avail[k]) }) by {}
    assert forall|a: int, b: int|
        #![trigger av[a], av[b]]
        0 <= a < av.len() && 0 <= b < av.len() && a != b && !last_resort(av[a]@) implies av[a]@ != av[b]@ by {
        let ia = if a < k { a } else { a + 1 };
        let ib = if b < k { b } else { b + 1 };
        assert(avail[ia] == avail[ia] && avail[ib] == avail[ib]);
    }
    assert forall|a: int, b: int|
        #![trigger lv[a], lv[b]]
        0 <= a < lv.len() && 0 <= b < lv.len() && a != b && !last_resort(lv[a].1@) implies lv[a].1@ != lv[b].1@ by {
        if a < live.len() && b < live.len() {
            assert(live[a] == live[a] && live[b] == live[b]);
        } else if a < live.len() {
            assert(avail[k] == avail[k] && live[a] == live[a]);
        } else {
            assert(avail[k] == avail[k] && live[b] == live[b]);
        }
    }
    assert forall|a: int, b: int|
        #![trigger av[a], lv[b]]
        0 <= a < av.len() && 0 <= b < lv.len() && !last_resort(av[a]@) implies av[a]@ != lv[b].1@ by {
        let ia = if a < k { a } else { a + 1 };
        if b < live.len() {
            assert(avail[ia] == avail[ia] && live[b] == live[b]);
        } else {
            assert(avail[ia] == avail[ia] && avail[k] == avail[k]);
        }
    }
}

/// The parts of `live` that a scope keeps visible (`kept`, at the
/// positions `kidx`) and frees (the names `fr`, at the positions `fidx`):
/// no symbol the scope references (`refs`) was freed, nor, with shadowing
/// off, a global one.
pub open spec fn split_of(
    live: Seq<(SymbolId, String)>,
    kept: Seq<(SymbolId, String)>,
    fr: Seq<String>,
    kidx: Seq<int>,
    fidx: Seq<int>,
    n: int,
    t: SymbolTable,
    shadowing: bool,
    refs: Set<u32>,
) -> bool {
    &&& kept.len() == kidx.len()
    &&& fr.len() == fidx.len()
    &&& forall|a: int| 0 <= a < kidx.len() ==> 0 <= #[trigger] kidx[a] < n && kidx[a] < live.len() && kept[a] == live[kidx[a]]
    &&& forall|b: int|
        0 <= b < fidx.len() ==> 0 <= #[trigger] fidx[b] < n && fidx[b] < live.len() && fr[b]@ == live[fidx[b]].1@ && (shadowing
            || !is_global(t, live[fidx[b]].0)) && !refs.contains(live[fidx[b]].0)
    &&& forall|a1: int, a2: int| #![trigger kidx[a1], kidx[a2]] 0 <= a1 < a2 < kidx.len() ==> kidx[a1] < kidx[a2]
    &&& forall|b1: int, b2: int| #![trigger fidx[b1], fidx[b2]] 0 <= b1 < b2 < fidx.len() ==> fidx[b1] < fidx[b2]
    &&& forall|a: int, b: int| #![trigger kidx[a], fidx[b]] 0 <= a < kidx.len() && 0 <= b < fidx.len() ==> kidx[a] != fidx[b]
    &&& forall|j: int| 0 <= j < n ==> #[trigger] placed(kidx, fidx, j)
}

/// Position `j` is among `kidx` or among `fidx`.
pub open spec fn placed(kidx: Seq<int>, fidx: Seq<int>, j: int) -> bool {
    (exists|a: int| 0 <= a < kidx.len() && #[trigger] kidx[a] == j) || (exists|b: int| 0 <= b < fidx.len() && #[trigger] fidx[b] == j)
}

proof fn lemma_split_apart(
    live: Seq<(SymbolId, String)>,
    kept: Seq<(SymbolId, String)>,
    fr: Seq<String>,
    kidx: Seq<int>,
    fidx: Seq<int>,
    av_in: Seq<String>,
    t: SymbolTable,
    shadowing: bool,
    refs: Set<u32>,
)
    requires
        pool_apart(av_in, live),
        split_of(live, kept, fr, kidx, fidx, live.len() as int, t, shadowing, refs),
    ensures
        pool_apart(fr + av_in, kept),
        avail_avoids_refs(fr + av_in, live, refs),
        refs_kept(live, kept, refs),
        !shadowing ==> avail_avoids_globals(fr + av_in, live, t),
        !shadowing ==> globals_kept(live, kept, t),
{
    let av = fr + av_in;
    let n = fr.len() as int;
    assert forall|a: int| 0 <= a < av.len() implies (#[trigger] av[a])@ == (if a < n { live[fidx[a]].1@ } else { av_in[a - n]@ }) by {
        if a < n {
            assert(av[a] == fr[a]);
        } else {
            assert(av[a] == av_in[a - n]);
        }
    }
    assert forall|a1: int, a2: int| 0 <= a1 < kidx.len() && 0 <= a2 < kidx.len() && a1 != a2 implies #[trigger] kidx[a1] != #[trigger] kidx[a2] by {
        if a1 < a2 {
            assert(kidx[a1] < kidx[a2]);
        } else {
            assert(kidx[a2] < kidx[a1]);
        }
    }
    assert forall|b1: int, b2: int| 0 <= b1 < fidx.len() && 0 <= b2 < fidx.len() && b1 != b2 implies #[trigger] fidx[b1] != #[trigger] fidx[b2] by {
        if b1 < b2 {
            assert(fidx[b1] < fidx[b2]);
        } else {
            assert(fidx[b2] < fidx[b1]);
        }
    }
    assert forall|a: int, b: int|
        #![trigger av[a], av[b]]
        0 <= a < av.len() && 0 <= b < av.len() && a != b && !last_resort(av[a]@) implies av[a]@ != av[b]@ by {
        if a < n && b < n {
            assert(fidx[a] != fidx[b]);
            assert(live[fidx[a]] == live[fidx[a]] && live[fidx[b]] == live[fidx[b]]);
        } else if a < n {
            assert(av_in[b - n] == av_in[b - n] && live[fidx[a]] == live[fidx[a]]);
        } else if b < n {
            assert(av_in[a - n] == av_in[a - n] && live[fidx[b]] == live[fidx[b]]);
        } else {
            assert(av_in[a - n] == av_in[a - n] && av_in[b - n] == av_in[b - n]);
        }
    }
    assert forall|a: int, b: int|
        #![trigger kept[a], kept[b]]
        0 <= a < kept.len() && 0 <= b < kept.len() && a != b && !last_resort(kept[a].1@) implies kept[a].1@ != kept[b].1@ by {
        assert(kidx[a] != kidx[b]);
        assert(live[kidx[a]] == live[kidx[a]] && live[kidx[b]] == live[kidx[b]]);
    }
    assert forall|a: int, b: int|
        #![trigger av[a], kept[b]]
        0 <= a < av.len() && 0 <= b < kept.len() && !last_resort(av[a]@) implies av[a]@ != kept[b].1@ by {
        if a < n {
            assert(fidx[a] != kidx[b]);
            assert(live[fidx[a]] == live[fidx[a]] && live[kidx[b]] == live[kidx[b]]);
        } else {
            assert(av_in[a - n] == av_in[a - n] && live[kidx[b]] == live[kidx[b]]);
        }
    }
    assert forall|a: int, k: int|
        #![trigger av[a], live[k]]
        0 <= a < av.len() && 0 <= k < live.len() && refs.contains(live[k].0) && !last_resort(av[a]@) implies av[a]@ != live[k].1@ by {
        if a < n {
            assert(fidx[a] != k);
            assert(live[fidx[a]] == live[fidx[a]]);
        } else {
            assert(av_in[a - n] == av_in[a - n]);
        }
    }
    assert forall|k: int| 0 <= k < live.len() && refs.contains((#[trigger] live[k]).0) implies exists|a: int| 0 <= a < kept.len() && kept[a] == live[k] by {
        assert(placed(kidx, fidx, k));
        if exists|b: int| 0 <= b < fidx.len() && #[trigger] fidx[b] == k {
            let b = choose|b: int| 0 <= b < fidx.len() && #[trigger] fidx[b] == k;
            assert(!refs.contains(live[fidx[b]].0));
        }
        let a = choose|a: int| 0 <= a < kidx.len() && #[trigger] kidx[a] == k;
        assert(kept[a] == live[k]);
    }
    if !shadowing {
        assert forall|a: int, k: int|
            #![trigger av[a], live[k]]
            0 <= a < av.len() && 0 <= k < live.len() && is_global(t, live[k].0) && !last_resort(av[a]@) implies av[a]@ != live[k].1@ by {
            if a < n {
                assert(fidx[a] != k);
                assert(live[fidx[a]] == live[fidx[a]]);
            } else {
                assert(av_in[a - n] == av_in[a - n]);
            }
        }
        assert forall|k: int| 0 <= k < live.len() && is_global(t, (#[trigger] live[k]).0) implies exists|a: int| 0 <= a < kept.len() && kept[a] == live[k] by {
            assert(placed(kidx, fidx, k));
            if exists|b: int| 0 <= b < fidx.len() && #[trigger] fidx[b] == k {
                let b = choose|b: int| 0 <= b < fidx.len() && #[trigger] fidx[b] == k;
                assert(!is_global(t, live[fidx[b]].0));
            }
            let a = choose|a: int| 0 <= a < kidx.len() && #[trigger] kidx[a] == k;
            assert(kept[a] == live[k]);
        }
    }
}

proof fn lemma_renames_chain(a: SymbolTable, b: SymbolTable, c: SymbolTable)
    requires
        renames_only_unpinned(a, b),
        renames_only_unpinned(b, c),
    ensures
        renames_only_unpinned(a, c),
{
    assert forall|i: int| 0 <= i < a.symbols@.len() implies {
        let x = #[trigger] a.symbols@[i];
        let y = c.symbols@[i];
        &&& y.name == x.name
        &&& y.kind == x.kind
        &&& y.scope == x.scope
        &&& y.ty == x.ty
        &&& y.pinned == x.pinned
        &&& y.occurrences == x.occurrences
        &&& (x.pinned is Some ==> y.new_name == x.new_name)
    } by {
        let m = b.symbols@[i];
    }
}

/// What a scope's visit gives: its own symbols (`before` to `mid`) take
/// names that are then visible in `live`, and its children (`mid` to
/// `after`) name only symbols of later scopes and avoid the global names
/// of `live`.
proof fn lemma_visit_end(
    before: SymbolTable,
    mid: SymbolTable,
    after: SymbolTable,
    live_in: Seq<(SymbolId, String)>,
    live: Seq<(SymbolId, String)>,
    syms: Seq<SymbolId>,
    sc: int,
    apart: bool,
)
    requires
        renames_only_unpinned(before, mid),
        renames_only_unpinned(mid, after),
        0 <= sc < before.scopes@.len(),
        syms == before.scopes@[sc].symbols@,
        forall|x: int|
            0 <= x < before.symbols@.len() && #[trigger] renamed_anew(before, mid, x) ==> exists|j: int| 0 <= j < syms.len() && syms[j] == x,
        forall|x: int|
            0 <= x < before.symbols@.len() && #[trigger] renamed_anew(before, mid, x) ==> exists|a: int|
                0 <= a < live.len() && live[a].0 == x && live[a].1@ == printed_name(mid, x),
        apart ==> avoids_live_globals(before, mid, live_in) && globals_kept(live_in, live, before) && avoids_live_globals(mid, after, live),
        scope_order(before) ==> stays_below(mid, after, sc + 1),
    ensures
        scope_order(before) ==> stays_below(before, after, sc),
        apart ==> avoids_live_globals(before, after, live_in),
        sc == 0 && scope_order(before) && apart ==> locals_avoid_globals(before, after),
{
    if scope_order(before) {
        assert forall|x: int| 0 <= x < before.symbols@.len() && #[trigger] renamed_anew(before, after, x) implies before.symbols@[x].scope >= sc by {
            let m = mid.symbols@[x];
            let o = before.symbols@[x];
            if !renamed_anew(mid, after, x) {
                assert(renamed_anew(before, mid, x));
                let j = choose|j: int| 0 <= j < syms.len() && syms[j] == x;
                assert(before.scopes@[sc].symbols@[j] == x);
            }
        }
    }
    if apart {
        assert forall|x: int, k: int|
            0 <= x < before.symbols@.len() && 0 <= k < live_in.len() && is_global(before, live_in[k].0) && renamed_anew(before, after, x)
                implies printed_name(after, x) != live_in[k].1@ || last_resort(printed_name(after, x)) by {
            let m = mid.symbols@[x];
            if renamed_anew(mid, after, x) {
                let a = choose|a: int| 0 <= a < live.len() && live[a] == live_in[k];
                let g = mid.symbols@[live_in[k].0 as int];
                assert(is_global(mid, live[a].0));
            } else {
                assert(renamed_anew(before, mid, x));
            }
        }
    }
    if sc == 0 && scope_order(before) && apart {
        assert forall|x: int, y: int|
            0 <= x < before.symbols@.len() && 0 <= y < before.symbols@.len() && renamed_anew(before, after, x) && renamed_anew(before, after, y)
                && before.symbols@[x].scope != 0 && before.symbols@[y].scope == 0 implies printed_name(after, x) != printed_name(after, y)
                || last_resort(printed_name(after, x)) by {
            let mx = mid.symbols@[x];
            let my = mid.symbols@[y];
            if renamed_anew(mid, after, y) {
                assert(my.scope >= 1);
            }
            assert(renamed_anew(before, mid, y));
            if renamed_anew(before, mid, x) {
                let j = choose|j: int| 0 <= j < syms.len() && syms[j] == x;
                assert(before.scopes@[sc].symbols@[j] == x);
            }
            assert(renamed_anew(mid, after, x));
            let a = choose|a: int| 0 <= a < live.len() && live[a].0 == y && live[a].1@ == printed_name(mid, y);
            assert(is_global(mid, live[a].0));
        }
    }
}

/// What a scope's visit gives for the symbols each scope references: its
/// own symbols (`before` to `mid`, all of scope `sc`) avoid those of
/// `live_in` that `sc` references, and its children (`mid` to `after`)
/// name symbols of scopes that reference no more than `sc` and avoid the
/// names of `live` that their own scopes reference.
proof fn lemma_visit_end_refs(
    before: SymbolTable,
    mid: SymbolTable,
    after: SymbolTable,
    live_in: Seq<(SymbolId, String)>,
    live: Seq<(SymbolId, String)>,
    avail: Seq<String>,
    sc: int,
    apart: bool,
)
    requires
        renames_only_unpinned(before, mid),
        renames_only_unpinned(mid, after),
        0 <= sc < before.scopes@.len(),
        forall|x: int| 0 <= x < before.symbols@.len() && #[trigger] renamed_anew(before, mid, x) ==> before.symbols@[x].scope == sc,
        apart ==> pool_apart(avail, live),
        refs_below(mid, after, sc),
        stays_below(mid, after, sc + 1),
        apart ==> avoids_referenced(before, mid, live_in) && refs_kept(live_in, live, before.scopes@[sc].referenced@)
            && avoids_referenced(mid, after, live),
        forall|x: int|
            0 <= x < before.symbols@.len() && #[trigger] renamed_anew(before, mid, x) ==> exists|a: int|
                0 <= a < live.len() && live[a].0 == x && live[a].1@ == printed_name(mid, x),
    ensures
        refs_below(before, after, sc),
        apart ==> avoids_referenced(before, after, live_in),
        sc == 0 && apart ==> referenced_globals_apart(before, after),
        sc == 0 && apart ==> globals_apart(before, after),
{
    assert forall|x: int| 0 <= x < before.symbols@.len() && #[trigger] renamed_anew(before, after, x) implies before.symbols@[x].scope
        < before.scopes@.len() && before.scopes@[before.symbols@[x].scope as int].referenced@.subset_of(before.scopes@[sc].referenced@) by {
        let m = mid.symbols@[x];
        if !renamed_anew(mid, after, x) {
            assert(renamed_anew(before, mid, x));
        }
    }
    if apart {
        assert forall|x: int, k: int|
            0 <= x < before.symbols@.len() && 0 <= k < live_in.len() && renamed_anew(before, after, x) && before.symbols@[x].scope
                < before.scopes@.len() && before.scopes@[before.symbols@[x].scope as int].referenced@.contains(live_in[k].0)
                implies printed_name(after, x) != live_in[k].1@ || last_resort(printed_name(after, x)) by {
            let m = mid.symbols@[x];
            if renamed_anew(mid, after, x) {
                assert(before.scopes@[sc].referenced@.contains(live_in[k].0));
                let a = choose|a: int| 0 <= a < live.len() && live[a] == live_in[k];
                assert(live[a] == live[a]);
            } else {
                assert(renamed_anew(before, mid, x));
            }
        }
    }
    if sc == 0 && apart {
        assert forall|x: int, y: int|
            0 <= x < before.symbols@.len() && 0 <= y < before.symbols@.len() && renamed_anew(before, after, x) && renamed_anew(before, after, y)
                && before.symbols@[x].scope != 0 && before.symbols@[y].scope == 0 && before.symbols@[x].scope < before.scopes@.len()
                && before.scopes@[before.symbols@[x].scope as int].referenced@.contains(y as u32) implies printed_name(after, x)
                != printed_name(after, y) || last_resort(printed_name(after, x)) by {
            let mx = mid.symbols@[x];
            let my = mid.symbols@[y];
            assert(!renamed_anew(before, mid, x));
            assert(renamed_anew(mid, after, x));
            if renamed_anew(mid, after, y) {
                assert(my.scope >= 1);
            }
            assert(renamed_anew(before, mid, y));
            let a = choose|a: int| 0 <= a < live.len() && live[a].0 == y && live[a].1@ == printed_name(mid, y);
            assert(live[a] == live[a]);
        }
        assert forall|x: int, y: int|
            0 <= x < before.symbols@.len() && 0 <= y < before.symbols@.len() && x != y && renamed_anew(before, after, x) && renamed_anew(
                before,
                after,
                y,
            ) && before.symbols@[x].scope == 0 && before.symbols@[y].scope == 0 implies printed_name(after, x) != printed_name(after, y)
                || last_resort(printed_name(after, x)) by {
            let mx = mid.symbols@[x];
            let my = mid.symbols@[y];
            if renamed_anew(mid, after, y) {
                assert(my.scope >= 1);
            }
            if renamed_anew(mid, after, x) {
                assert(mx.scope >= 1);
            }
            assert(renamed_anew(before, mid, y));
            assert(renamed_anew(before, mid, x));
            let a = choose|a: int| 0 <= a < live.len() && live[a].0 == x && live[a].1@ == printed_name(mid, x);
            let b = choose|b: int| 0 <= b < live.len() && live[b].0 == y && live[b].1@ == printed_name(mid, y);
            assert(live[a] == live[a] && live[b] == live[b]);
        }
    }
}

/// No two global symbols that `after` names anew are printed alike, unless
/// with a last-resort name.
pub open spec fn globals_apart(before: SymbolTable, after: SymbolTable) -> bool {
    forall|x: int, y: int|
        #![trigger renamed_anew(before, after, x), renamed_anew(before, after, y)]
        0 <= x < before.symbols@.len() && 0 <= y < before.symbols@.len() && x != y && renamed_anew(before, after, x) && renamed_anew(
            before,
            after,
            y,
        ) && before.symbols@[x].scope == 0 && before.symbols@[y].scope == 0 ==> printed_name(after, x) != printed_name(after, y)
            || last_resort(printed_name(after, x))
}

/// No symbol outside the global scope that `after` names anew is printed
/// like a global symbol that `after` names anew and that its scope
/// references, unless it has a last-resort name.
pub open spec fn referenced_globals_apart(before: SymbolTable, after: SymbolTable) -> bool {
    forall|x: int, y: int|
        #![trigger renamed_anew(before, after, x), renamed_anew(before, after, y)]
        0 <= x < before.symbols@.len() && 0 <= y < before.symbols@.len() && renamed_anew(before, after, x) && renamed_anew(before, after, y)
            && before.symbols@[x].scope != 0 && before.symbols@[y].scope == 0 && before.symbols@[x].scope < before.scopes@.len()
            && before.scopes@[before.symbols@[x].scope as int].referenced@.contains(y as u32) ==> printed_name(after, x)
            != printed_name(after, y) || last_resort(printed_name(after, x))
}

/// Symbols named from the list of scope `sc` belong to `sc`.
proof fn lemma_own_scope(before: SymbolTable, mid: SymbolTable, syms: Seq<SymbolId>, sc: int)
    requires
        scope_order(before),
        0 <= sc < before.scopes@.len(),
        syms == before.scopes@[sc].symbols@,
        forall|x: int|
            0 <= x < before.symbols@.len() && #[trigger] renamed_anew(before, mid, x) ==> exists|j: int| 0 <= j < syms.len() && syms[j] == x,
    ensures
        forall|x: int| 0 <= x < before.symbols@.len() && #[trigger] renamed_anew(before, mid, x) ==> before.symbols@[x].scope == sc,
{
    assert forall|x: int| 0 <= x < before.symbols@.len() && #[trigger] renamed_anew(before, mid, x) implies before.symbols@[x].scope == sc by {
        let j = choose|j: int| 0 <= j < syms.len() && syms[j] == x;
        assert(before.scopes@[sc].symbols@[j] == x);
    }
}

proof fn lemma_referenced_chain(t0: SymbolTable, t1: SymbolTable, t2: SymbolTable, live: Seq<(SymbolId, String)>)
    requires
        avoids_referenced(t0, t1, live),
        avoids_referenced(t1, t2, live),
        renames_only_unpinned(t0, t1),
        renames_only_unpinned(t1, t2),
    ensures
        avoids_referenced(t0, t2, live),
{
    assert forall|x: int, k: int|
        0 <= x < t0.symbols@.len() && 0 <= k < live.len() && renamed_anew(t0, t2, x) && t0.symbols@[x].scope < t0.scopes@.len()
            && t0.scopes@[t0.symbols@[x].scope as int].referenced@.contains(live[k].0) implies printed_name(t2, x) != live[k].1@
            || last_resort(printed_name(t2, x)) by {
        let a = t1.symbols@[x];
        if !renamed_anew(t1, t2, x) {
            assert(renamed_anew(t0, t1, x));
        }
    }
}

proof fn lemma_refs_below_chain(t0: SymbolTable, t1: SymbolTable, t2: SymbolTable, s: int, c: int)
    requires
        refs_below(t0, t1, s),
        refs_below(t1, t2, c),
        0 <= s < t0.scopes@.len(),
        0 <= c < t0.scopes@.len(),
        t0.scopes@[c].referenced@.subset_of(t0.scopes@[s].referenced@),
        renames_only_unpinned(t0, t1),
        renames_only_unpinned(t1, t2),
    ensures
        refs_below(t0, t2, s),
{
    assert forall|x: int| 0 <= x < t0.symbols@.len() && #[trigger] renamed_anew(t0, t2, x) implies t0.symbols@[x].scope < t0.scopes@.len()
        && t0.scopes@[t0.symbols@[x].scope as int].referenced@.subset_of(t0.scopes@[s].referenced@) by {
        let a = t1.symbols@[x];
        if !renamed_anew(t1, t2, x) {
            assert(renamed_anew(t0, t1, x));
        }
    }
}

/// Adding a symbol with a last-resort name keeps the names apart.
proof fn lemma_apart_push_resort(avail: Seq<String>, live: Seq<(SymbolId, String)>, sym: SymbolId, n: String)
    requires
        pool_apart(avail, live),
        last_resort(n@),
    ensures
        pool_apart(avail, live.push((sym, n))),
{
    let lv = live.push((sym, n));
    assert forall|a: int| 0 <= a < lv.len() implies #[trigger] lv[a] == (if a < live.len() { live[a] } else { (sym, n) }) by {}
    assert forall|a: int, b: int|
        #![trigger lv[a], lv[b]]
        0 <= a < lv.len() && 0 <= b < lv.len() && a != b && !last_resort(lv[a].1@) implies lv[a].1@ != lv[b].1@ by {
        if a < live.len() && b < live.len() {
            assert(live[a] == live[a] && live[b] == live[b]);
        }
    }
    assert forall|a: int, b: int|
        #![trigger avail[a], lv[b]]
        0 <= a < avail.len() && 0 <= b < lv.len() && !last_resort(avail[a]@) implies avail[a]@ != lv[b].1@ by {
        if b < live.len() {
            assert(avail[a] == avail[a] && live[b] == live[b]);
        }
    }
}

/// Candidates examined per choice (the pool is in preference order).
pub const CANDIDATES: usize = 26;

/// Whether `sc` weighs each neighbour by how often it occurs.
pub open spec fn counts_weighted(sc: Scoring) -> bool {
    sc == Scoring::BigramCount
}

/// How many of `n` pool entries a choice examines.
pub open spec fn window(n: int) -> int {
    if n < CANDIDATES {
        n
    } else {
        CANDIDATES as int
    }
}

/// The code point of the character that stands for symbol `sym` in the
/// bigram table.
pub open spec fn sentinel_code(sym: SymbolId) -> u32 {
    if sym <= SENTINEL_MAX - SENTINEL_BASE {
        (SENTINEL_BASE + sym) as u32
    } else {
        ' ' as u32
    }
}

/// `c` stands for symbol `sym`, and where the examined scores are exact,
/// `r` is the best-scoring examined entry of `avail` for it.
pub open spec fn best_for(b: Bigrams, sym: SymbolId, c: char, avail: Seq<String>, weighted: bool, r: String, rest: Seq<String>) -> bool {
    &&& c as u32 == sentinel_code(sym)
    &&& scores_fit(b, c, avail, weighted) ==> takes_best(b, c, avail, weighted, r, rest)
}

/// `c` stands for symbol `sym`, and the statistics `b1` are `b0` after it
/// took the name `name`.
pub open spec fn folded_for(b0: Bigrams, b1: Bigrams, sym: SymbolId, c: char, name: Seq<char>) -> bool {
    &&& c as u32 == sentinel_code(sym)
    &&& folded(b0, b1, c, name)
}

/// `b1` is `b0` after the symbol printed as `s` took the name `name`: each
/// bigram count not involving `s` grew by what the name adds.
pub open spec fn folded(b0: Bigrams, b1: Bigrams, s: char, name: Seq<char>) -> bool {
    &&& forall|x: char, y: char|
        x != s && y != s ==> #[trigger] b1.spec_count(x, y) == sat_add(b0.spec_count(x, y) + fold_gain(b0, s, name, x, y), 0)
    &&& forall|x: char, y: char|
        x != s && y != s ==> #[trigger] b1.spec_count_before(y, x) == sat_add(b0.spec_count_before(y, x) + fold_gain(b0, s, name, x, y), 0)
}

/// `r` is entry `k` of `avail`, `k` among the examined entries and best
/// for the symbol printed as `s`, and `rest` is `avail` without it.
pub open spec fn takes_best(b: Bigrams, s: char, avail: Seq<String>, weighted: bool, r: String, rest: Seq<String>) -> bool {
    exists|k: int|
        0 <= k < window(avail.len() as int) && r == #[trigger] avail[k] && rest == avail.remove(k) && best_at(b, s, avail, weighted, k)
}

/// The scores of the examined entries of `avail` stay below saturation.
pub open spec fn scores_fit(b: Bigrams, s: char, avail: Seq<String>, weighted: bool) -> bool {
    forall|j: int| 0 <= j < window(avail.len() as int) && (#[trigger] avail[j])@.len() > 0 ==> score_fits(b, s, avail[j]@, weighted)
}

/// Entry `k` of `avail` scores highest among the examined entries for the
/// symbol printed as `s`, and strictly higher than every examined entry
/// before it; it is a name unless no examined entry is.
pub open spec fn best_at(b: Bigrams, s: char, avail: Seq<String>, weighted: bool, k: int) -> bool {
    &&& (exists|j: int| 0 <= j < window(avail.len() as int) && (#[trigger] avail[j])@.len() > 0) ==> avail[k]@.len() > 0
    &&& forall|j: int|
        0 <= j < window(avail.len() as int) && (#[trigger] avail[j])@.len() > 0 && avail[k]@.len() > 0 ==> spec_score(b, s, avail[j]@, weighted)
            <= spec_score(b, s, avail[k]@, weighted)
    &&& forall|j: int|
        0 <= j < k && (#[trigger] avail[j])@.len() > 0 ==> spec_score(b, s, avail[j]@, weighted) < spec_score(b, s, avail[k]@, weighted)
}

/// The digits `0..9`.
fn digit_char(i: usize) -> (c: char)
    requires
        i < 10,
    ensures
        c == digit_seq()[i as int],
{
    let v: u8 = 48 + i as u8;
    v as char
}

/// The digit characters, in order.
pub open spec fn digit_seq() -> Seq<char> {
    seq!['0', '1', '2', '3', '4', '5', '6', '7', '8', '9']
}

fn name_of(cs: &[char]) -> (r: String)
    ensures
        r@ == cs@,
{
    string_of(cs)
}

struct Renamer {
    letters: Vec<char>,
    forbidden: NameSet,
    scoring: Scoring,
    shadowing: bool,
    next_triple: usize,
    bigrams: Bigrams,
    lex: Lexicon,
}

impl Renamer {
    /// A name the renamer may hand out.
    spec fn spec_allowed(&self, n: Seq<char>) -> bool {
        !spec_never_generate(n) && !self.forbidden@.contains(n)
    }

    fn allowed(&self, n: &str) -> (r: bool)
        requires
            self.lex.wf(),
        ensures
            r == self.spec_allowed(n@),
    {
        let c = chars_of(n);
        !self.lex.never_generate(c.as_slice()) && !self.forbidden.contains(n)
    }

    /// The letters followed by the digits: the second character of a name.
    fn second_chars(&self) -> (r: Vec<char>)
        ensures
            r@ == self.letters@ + digit_seq(),
    {
        let mut second = self.letters.clone();
        let mut d: usize = 0;
        while d < 10
            invariant
                d <= 10,
                second@ == self.letters@ + digit_seq().take(d as int),
            decreases 10 - d,
        {
            second.push(digit_char(d));
            d = d + 1;
            assert(second@ =~= self.letters@ + digit_seq().take(d as int));
        }
        assert(digit_seq().take(10) =~= digit_seq());
        second
    }

    /// The `idx`-th name the pool considers: every single letter, then every
    /// letter followed by a letter or digit.
    spec fn pool_candidate(&self, idx: int) -> Seq<char> {
        let l = self.letters@.len() as int;
        let second = self.letters@ + digit_seq();
        if idx < l {
            seq![self.letters@[idx]]
        } else {
            seq![self.letters@[(idx - l) / second.len() as int], second[(idx - l) % second.len() as int]]
        }
    }

    /// The allowed names among the first `n` candidates, in order.
    spec fn pool_prefix(&self, n: int) -> Seq<Seq<char>> {
        Seq::new(n as nat, |k: int| self.pool_candidate(k)).filter(|x: Seq<char>| self.spec_allowed(x))
    }

    proof fn lemma_pool_step(&self, n: int)
        requires
            0 <= n,
        ensures
            self.pool_prefix(n + 1) == (if self.spec_allowed(self.pool_candidate(n)) {
                self.pool_prefix(n).push(self.pool_candidate(n))
            } else {
                self.pool_prefix(n)
            }),
    {
        let s = Seq::new(n as nat, |k: int| self.pool_candidate(k));
        let s1 = Seq::new((n + 1) as nat, |k: int| self.pool_candidate(k));
        let p = |x: Seq<char>| self.spec_allowed(x);
        reveal(Seq::filter);
        assert(s1.drop_last() =~= s);
        assert(s1.last() == self.pool_candidate(n));
        assert(self.pool_prefix(n + 1) == s1.filter(p));
        assert(self.pool_prefix(n) == s.filter(p));
        assert(s1.filter(p) == (if p(s1.last()) {
            s1.drop_last().filter(p).push(s1.last())
        } else {
            s1.drop_last().filter(p)
        }));
    }

    /// With distinct letters, none of them a digit, the candidates of the
    /// pool are pairwise different.
    proof fn lemma_candidates_differ(&self, k: int, n: int)
        requires
            self.letters@.no_duplicates(),
            forall|i: int| 0 <= i < self.letters@.len() ==> !digit_seq().contains(#[trigger] self.letters@[i]),
            0 <= k < n < self.letters@.len() + self.letters@.len() * (self.letters@.len() + 10),
        ensures
            self.pool_candidate(k) != self.pool_candidate(n),
    {
        let l = self.letters@.len() as int;
        let second = self.letters@ + digit_seq();
        let m = second.len() as int;
        assert(m == l + 10);
        if n < l {
            assert(self.pool_candidate(k)[0] != self.pool_candidate(n)[0]);
        } else if k < l {
            assert(self.pool_candidate(k).len() != self.pool_candidate(n).len());
        } else {
            let x = k - l;
            let y = n - l;
            vstd::arithmetic::div_mod::lemma_fundamental_div_mod(x, m);
            vstd::arithmetic::div_mod::lemma_fundamental_div_mod(y, m);
            vstd::arithmetic::div_mod::lemma_mod_bound(x, m);
            vstd::arithmetic::div_mod::lemma_mod_bound(y, m);
            vstd::arithmetic::div_mod::lemma_div_pos_is_pos(x, m);
            vstd::arithmetic::div_mod::lemma_div_pos_is_pos(y, m);
            assert(y < m * l) by (nonlinear_arith)
                requires
                    y < l * m,
            ;
            vstd::arithmetic::div_mod::lemma_multiply_divide_lt(x, m, l);
            vstd::arithmetic::div_mod::lemma_multiply_divide_lt(y, m, l);
            let a = x / m;
            let b = x % m;
            let c = y / m;
            let d = y % m;
            if self.pool_candidate(k) == self.pool_candidate(n) {
                assert(self.pool_candidate(k)[0] == self.pool_candidate(n)[0]);
                assert(self.letters@[a] == self.letters@[c]);
                assert(a == c);
                assert(second[b] == second[d]);
                if b != d {
                    if b < l && d < l {
                        assert(self.letters@[b] == self.letters@[d]);
                    } else if b >= l && d >= l {
                        assert(digit_seq()[b - l] == digit_seq()[d - l]);
                    } else if b < l {
                        assert(self.letters@[b] == digit_seq()[d - l]);
                        assert(digit_seq().contains(self.letters@[b]));
                    } else {
                        assert(self.letters@[d] == digit_seq()[b - l]);
                        assert(digit_seq().contains(self.letters@[d]));
                    }
                }
                assert(x == y);
            }
        }
    }

    /// With distinct letters, none of them a digit, a pool prefix holds
    /// each name once.
    proof fn lemma_pool_distinct(&self, n: int)
        requires
            self.letters@.no_duplicates(),
            forall|i: int| 0 <= i < self.letters@.len() ==> !digit_seq().contains(#[trigger] self.letters@[i]),
            0 <= n <= self.letters@.len() + self.letters@.len() * (self.letters@.len() + 10),
        ensures
            self.pool_prefix(n).no_duplicates(),
            forall|x: Seq<char>| #[trigger] self.pool_prefix(n).contains(x) ==> exists|k: int| 0 <= k < n && self.pool_candidate(k) == x,
        decreases n,
    {
        if n == 0 {
            assert(self.pool_prefix(0) =~= Seq::<Seq<char>>::empty()) by {
                reveal(Seq::filter);
            }
        } else {
            self.lemma_pool_distinct(n - 1);
            self.lemma_pool_step(n - 1);
            let p = self.pool_prefix(n - 1);
            let c = self.pool_candidate(n - 1);
            if self.spec_allowed(c) {
                assert(!p.contains(c)) by {
                    if p.contains(c) {
                        let k = choose|k: int| 0 <= k < n - 1 && self.pool_candidate(k) == c;
                        self.lemma_candidates_differ(k, n - 1);
                    }
                }
                assert forall|x: Seq<char>| #[trigger] self.pool_prefix(n).contains(x) implies exists|k: int| 0 <= k < n && self.pool_candidate(k) == x by {
                    let q = self.pool_prefix(n);
                    let i = choose|i: int| 0 <= i < q.len() && q[i] == x;
                    if i < p.len() {
                        assert(p[i] == x);
                        assert(p.contains(x));
                    } else {
                        assert(self.pool_candidate(n - 1) == x);
                    }
                }
                assert forall|i: int, j: int| 0 <= i < j < self.pool_prefix(n).len() implies self.pool_prefix(n)[i] != self.pool_prefix(n)[j] by {
                    if j == p.len() {
                        assert(self.pool_prefix(n)[i] == p[i]);
                    } else {
                        assert(self.pool_prefix(n)[i] == p[i]);
                        assert(self.pool_prefix(n)[j] == p[j]);
                    }
                }
            } else {
                assert forall|x: Seq<char>| #[trigger] self.pool_prefix(n).contains(x) implies exists|k: int| 0 <= k < n && self.pool_candidate(k) == x by {
                    assert(p.contains(x));
                }
            }
        }
    }

    /// Every name of a pool prefix is one the renamer may hand out.
    proof fn lemma_pool_good(&self, pool: Seq<String>, n: int)
        requires
            0 <= n,
            pool.map_values(|x: String| x@) == self.pool_prefix(n),
        ensures
            forall|k: int| 0 <= k < pool.len() ==> good_new_name(#[trigger] pool[k]@, self.forbidden@, false),
    {
        let s = Seq::new(n as nat, |k: int| self.pool_candidate(k));
        let p = |x: Seq<char>| self.spec_allowed(x);
        assert forall|k: int| 0 <= k < pool.len() implies good_new_name(#[trigger] pool[k]@, self.forbidden@, false) by {
            assert(pool.map_values(|x: String| x@)[k] == pool[k]@);
            s.lemma_filter_pred(p, k);
        }
    }

    /// Singles then pairs, in preference order.
    fn initial_pool(&self) -> (r: Vec<String>)
        requires
            self.lex.wf(),
        ensures
            r@.map_values(|x: String| x@) == self.pool_prefix(
                (self.letters@.len() + self.letters@.len() * (self.letters@.len() + 10)) as int,
            ),
    {
        let mut pool: Vec<String> = Vec::new();
        let second = self.second_chars();
        let ghost l = self.letters@.len() as int;
        let ghost m = second@.len() as int;
        proof {
            assert(pool@.map_values(|x: String| x@) =~= self.pool_prefix(0));
        }
        let mut i: usize = 0;
        while i < self.letters.len()
            invariant
                self.lex.wf(),
                i <= self.letters@.len(),
                pool@.map_values(|x: String| x@) == self.pool_prefix(i as int),
            decreases self.letters@.len() - i,
        {
            let v: [char; 1] = [self.letters[i]];
            let n = name_of(v.as_slice());
            proof {
                self.lemma_pool_step(i as int);
                assert(n@ =~= self.pool_candidate(i as int));
            }
            let ghost before = pool@;
            if self.allowed(n.as_str()) {
                pool.push(n);
                assert(pool@.map_values(|x: String| x@) =~= before.map_values(|x: String| x@).push(n@));
            }
            i = i + 1;
        }
        let mut i: usize = 0;
        while i < self.letters.len()
            invariant
                self.lex.wf(),
                i <= self.letters@.len(),
                l == self.letters@.len(),
                m == second@.len(),
                second@ == self.letters@ + digit_seq(),
                pool@.map_values(|x: String| x@) == self.pool_prefix(l + i * m),
            decreases self.letters@.len() - i,
        {
            let mut j: usize = 0;
            while j < second.len()
                invariant
                    self.lex.wf(),
                    i < self.letters@.len(),
                    j <= second@.len(),
                    l == self.letters@.len(),
                    m == second@.len(),
                    second@ == self.letters@ + digit_seq(),
                    pool@.map_values(|x: String| x@) == self.pool_prefix(l + i * m + j),
                decreases second@.len() - j,
            {
                let v: [char; 2] = [self.letters[i], second[j]];
                let n = name_of(v.as_slice());
                proof {
                    let idx = l + i * m + j;
                    assert(i * m >= 0) by (nonlinear_arith)
                        requires
                            i >= 0,
                            m >= 0,
                    ;
                    self.lemma_pool_step(idx);
                    vstd::arithmetic::div_mod::lemma_fundamental_div_mod_converse(idx - l, m, i as int, j as int);
                    assert(n@ =~= self.pool_candidate(idx));
                }
                let ghost before = pool@;
                if self.allowed(n.as_str()) {
                    pool.push(n);
                    assert(pool@.map_values(|x: String| x@) =~= before.map_values(|x: String| x@).push(n@));
                }
                j = j + 1;
            }
            assert(l + i * m + m == l + (i + 1) * m) by (nonlinear_arith);
            i = i + 1;
        }
        pool
    }

    /// Next never-used three-character name that the renamer may hand out
    /// (only for shaders with more simultaneously visible symbols than the
    /// pool holds). Should no three-character name be left, a run of `z`
    /// longer than every kept name and every word of the language is used.
    fn triple(&mut self) -> (r: String)
        requires
            old(self).lex.wf(),
            old(self).bigrams.wf(),
        ensures
            final(self).lex == old(self).lex,
            final(self).forbidden == old(self).forbidden,
            final(self).shadowing == old(self).shadowing,
            final(self).bigrams.wf(),
            last_resort(r@),
            good_new_name(r@, old(self).forbidden@, false),
    {
        let second = self.second_chars();
        let m = second.len();
        let l = self.letters.len();
        if m == 0 || l == 0 {
            return self.long_name();
        }
        let mut fuel: usize = 200_000;
        loop
            invariant
                self.lex == old(self).lex,
                self.forbidden == old(self).forbidden,
                self.shadowing == old(self).shadowing,
                self.lex.wf(),
                self.bigrams.wf(),
                m == second@.len(),
                l == self.letters@.len(),
                m > 0 && l > 0,
            decreases fuel,
        {
            let i = self.next_triple;
            if self.next_triple < usize::MAX {
                self.next_triple = self.next_triple + 1;
            }
            let c3 = second[i % m];
            let c2 = second[(i / m) % m];
            let c1 = self.letters[(i / m / m) % l];
            let v: [char; 3] = [c1, c2, c3];
            let n = name_of(v.as_slice());
            assert(n@.len() == 3);
            if self.allowed(n.as_str()) {
                return n;
            }
            if fuel == 0 {
                return self.long_name();
            }
            fuel = fuel - 1;
        }
    }

    /// A run of `z` one longer than every forbidden name and every keyword
    /// and built-in function name.
    fn long_name(&self) -> (r: String)
        requires
            self.lex.wf(),
        ensures
            last_resort(r@),
            good_new_name(r@, self.forbidden@, false),
    {
        let a = self.forbidden.max_len();
        let b = self.lex.max_word_len();
        let mut l = if a > b { a } else { b };
        if l < 4 {
            l = 4;
        }
        if l == usize::MAX {
            let v: [char; 5] = ['z', 'z', 'z', 'z', 'z'];
            let n = name_of(v.as_slice());
            proof {
                assert(n@ =~= seq!['z', 'z', 'z', 'z', 'z']);
                if a == usize::MAX {
                    let x = choose|x: Seq<char>| #[trigger] self.forbidden@.contains(x) && x.len() == a;
                } else {
                    assert(b == usize::MAX);
                }
                assert(overlong_words(self.forbidden@));
            }
            return n;
        }
        let mut v: Vec<char> = Vec::new();
        let mut k: usize = 0;
        while k <= l
            invariant
                k <= l + 1,
                l < usize::MAX,
                v@.len() == k,
                forall|i: int| 0 <= i < v@.len() ==> v@[i] == 'z',
            decreases l + 1 - k,
        {
            v.push('z');
            k = k + 1;
        }
        let n = name_of(v.as_slice());
        proof {
            let z = n@;
            assert(z.len() == l + 1);
            assert(!spec_is_reserved(z)) by {
                assert forall|i: int| !#[trigger] crate::builtins::underscores_at(z, i) by {
                    if 0 <= i < z.len() {
                        assert(z[i] == 'z');
                    }
                }
                assert(z[0] == 'z');
            }
            assert(z != seq!['m', 'a', 'i', 'n']) by {
                assert(z.len() != 4);
            }
            assert(!crate::builtins::keyword_words().contains(z)) by {
                if crate::builtins::keyword_words().contains(z) {
                    let k = choose|k: int| 0 <= k < crate::builtins::keyword_words().len() && crate::builtins::keyword_words()[k] == z;
                    assert(crate::builtins::keyword_words()[k].len() <= b);
                }
            }
            assert(!crate::builtins::function_words().contains(z)) by {
                if crate::builtins::function_words().contains(z) {
                    let k = choose|k: int| 0 <= k < crate::builtins::function_words().len() && crate::builtins::function_words()[k] == z;
                    assert(crate::builtins::function_words()[k].len() <= b);
                }
            }
            assert(!self.forbidden@.contains(z));
            assert forall|i: int| 0 <= i < z.len() implies #[trigger] z[i] == 'z' by {}
        }
        n
    }

    /// The placeholder character of symbol `sym`.
    fn sentinel_char(sym: SymbolId) -> (c: char)
        ensures
            c as u32 == sentinel_code(sym),
    {
        if sym <= SENTINEL_MAX - SENTINEL_BASE {
            match char_from_u32(SENTINEL_BASE + sym) {
                Some(c) => c,
                None => ' ',
            }
        } else {
            ' '
        }
    }

    fn choose_name(&mut self, sym: SymbolId, avail: &mut Vec<String>) -> (r: String)
        requires
            old(self).lex.wf(),
            old(self).bigrams.wf(),
        ensures
            final(self).lex == old(self).lex,
            final(self).forbidden == old(self).forbidden,
            final(self).shadowing == old(self).shadowing,
            final(self).bigrams.wf(),
            old(avail)@.len() > 0 ==> exists|k: int| 0 <= k < old(avail)@.len() && r == old(avail)@[k] && final(avail)@
                == old(avail)@.remove(k),
            old(avail)@.len() > 0 && old(self).scoring == Scoring::Frequency ==> r == old(avail)@[0] && final(avail)@
                == old(avail)@.remove(0),
            old(avail)@.len() == 0 ==> final(avail)@.len() == 0 && last_resort(r@) && good_new_name(r@, old(self).forbidden@, false),
            old(avail)@.len() > 0 && old(self).scoring != Scoring::Frequency ==> exists|c: char|
                #[trigger] best_for(old(self).bigrams, sym, c, old(avail)@, counts_weighted(old(self).scoring), r, final(avail)@),
            old(avail)@.len() > 0 && old(self).scoring != Scoring::Frequency && r@.len() > 0 ==> exists|c: char|
                #[trigger] folded_for(old(self).bigrams, final(self).bigrams, sym, c, r@),
            old(avail)@.len() > 0 && old(self).scoring == Scoring::Frequency ==> final(self).bigrams == old(self).bigrams,
    {
        if avail.len() == 0 {
            let n = self.triple();
            avail.push(n);
        }
        let weighted = match self.scoring {
            Scoring::Frequency => {
                let r = avail.remove(0);
                return r;
            },
            Scoring::Bigram => false,
            Scoring::BigramCount => true,
        };
        let s = Self::sentinel_char(sym);
        let mut best: usize = 0;
        let mut best_score: i128 = 0;
        let mut have = false;
        let mut i: usize = 0;
        let ghost b0 = self.bigrams;
        let ghost fit = old(avail)@.len() > 0 && scores_fit(b0, s, avail@, weighted);
        assert(old(avail)@.len() > 0 ==> weighted == counts_weighted(old(self).scoring) && b0 == old(self).bigrams);
        while i < avail.len() && i < CANDIDATES
            invariant
                best < avail@.len(),
                self.bigrams == b0,
                old(avail)@.len() > 0 ==> b0 == old(self).bigrams && weighted == counts_weighted(old(self).scoring),
                i <= window(avail@.len() as int),
                fit ==> avail@ == old(avail)@ && scores_fit(b0, s, avail@, weighted),
                have ==> best < i && avail@[best as int]@.len() > 0,
                !have ==> best == 0 && forall|j: int| 0 <= j < i ==> (#[trigger] avail@[j])@.len() == 0,
                fit && have ==> best_score == spec_score(b0, s, avail@[best as int]@, weighted),
                fit ==> forall|j: int| 0 <= j < i && (#[trigger] avail@[j])@.len() > 0 ==> spec_score(b0, s, avail@[j]@, weighted) <= best_score,
                fit ==> forall|j: int| 0 <= j < best && (#[trigger] avail@[j])@.len() > 0 ==> spec_score(b0, s, avail@[j]@, weighted) < best_score,
                self.bigrams.wf(),
                self.lex == old(self).lex,
                self.forbidden == old(self).forbidden,
                self.shadowing == old(self).shadowing,
                avail@ == old(avail)@ || (old(avail)@.len() == 0 && avail@.len() == 1 && last_resort(avail@[0]@)
                    && good_new_name(avail@[0]@, old(self).forbidden@, false)),
            decreases avail@.len() - i,
        {
            if avail[i].unicode_len() > 0 {
                let score = self.bigrams.score(s, avail[i].as_str(), weighted);
                if !have || score > best_score {
                    best_score = score;
                    best = i;
                    have = true;
                }
            }
            i = i + 1;
        }
        proof {
            if fit {
                assert(i == window(avail@.len() as int));
                assert(best_at(b0, s, avail@, weighted, best as int));
            }
        }
        let ghost a0 = avail@;
        let name = avail.remove(best);
        proof {
            if fit {
                assert(name == a0[best as int]);
                assert(takes_best(b0, s, a0, weighted, name, avail@));
            }
        }
        if name.unicode_len() > 0 {
            self.bigrams.fold(s, name.as_str());
        }
        proof {
            if old(avail)@.len() > 0 {
                assert(best_for(old(self).bigrams, sym, s, old(avail)@, counts_weighted(old(self).scoring), name, avail@));
                if name@.len() > 0 {
                    assert(folded_for(old(self).bigrams, self.bigrams, sym, s, name@));
                }
            }
        }
        name
    }
}


/// An element-by-element copy of `v`.
fn copy_live(v: &Vec<(SymbolId, String)>) -> (r: Vec<(SymbolId, String)>)
    ensures
        r@ == v@,
{
    let mut r: Vec<(SymbolId, String)> = Vec::new();
    let mut i: usize = 0;
    while i < v.len()
        invariant
            i <= v@.len(),
            r@ == v@.take(i as int),
        decreases v@.len() - i,
    {
        r.push((v[i].0, v[i].1.clone()));
        i = i + 1;
        assert(r@ =~= v@.take(i as int));
    }
    assert(v@.take(v@.len() as int) =~= v@);
    r
}

/// An element-by-element copy of `v`.
fn copy_names(v: &Vec<String>) -> (r: Vec<String>)
    ensures
        r@ == v@,
{
    let mut r: Vec<String> = Vec::new();
    let mut i: usize = 0;
    while i < v.len()
        invariant
            i <= v@.len(),
            r@ == v@.take(i as int),
        decreases v@.len() - i,
    {
        r.push(v[i].clone());
        i = i + 1;
        assert(r@ =~= v@.take(i as int));
    }
    assert(v@.take(v@.len() as int) =~= v@);
    r
}

/// `name` unless `v` holds it.
fn contains_string(v: &Vec<String>, name: &str) -> (r: bool)
    ensures
        r == exists|k: int| 0 <= k < v@.len() && (#[trigger] v@[k])@ == name@,
{
    let mut i: usize = 0;
    while i < v.len()
        invariant
            i <= v@.len(),
            forall|k: int| 0 <= k < i ==> (#[trigger] v@[k])@ != name@,
        decreases v@.len() - i,
    {
        if crate::text::str_eq(v[i].as_str(), name) {
            return true;
        }
        i = i + 1;
    }
    false
}

impl Renamer {
    /// Give every renamable struct type a name and take it out of `pool` for
    /// good: no variable, parameter, function or field may be spelled like
    /// a type that is visible to the driver's lexer.
    fn reserve_type_names(&mut self, table: &mut SymbolTable, pool: &mut Vec<String>)
        requires
            old(self).lex.wf(),
            old(self).bigrams.wf(),
            forall|k: int| 0 <= k < old(pool)@.len() ==> good_new_name(#[trigger] old(pool)@[k]@, old(self).forbidden@, false),
        ensures
            final(self).lex == old(self).lex,
            final(self).forbidden == old(self).forbidden,
            forall|k: int| 0 <= k < final(pool)@.len() ==> good_new_name(#[trigger] final(pool)@[k]@, old(self).forbidden@, false),
            gives_good_names(*old(table), *final(table), old(self).forbidden@),
            forall|i: int|
                0 <= i < old(table).symbols@.len() && (#[trigger] old(table).symbols@[i]).kind != SymbolKind::StructType
                    ==> final(table).symbols@[i].new_name == old(table).symbols@[i].new_name,
            forall|k: int| 0 <= k < final(pool)@.len() ==> !type_spelling(*final(table), #[trigger] final(pool)@[k]@),
            final(self).bigrams.wf(),
            renames_only_unpinned(*old(table), *final(table)),
            forall|i: int|
                0 <= i < old(table).symbols@.len() && i < 0xFFFF_FFFF && (#[trigger] old(table).symbols@[i]).kind
                    == SymbolKind::StructType ==> symbol_named(*final(table), i as SymbolId),
            keeps_names(*old(table), *final(table)),
            names_apart(old(pool)@) ==> names_apart(final(pool)@),
            final(self).shadowing == old(self).shadowing,
    {
        let mut types: Vec<SymbolId> = Vec::new();
        let mut i: usize = 0;
        while i < table.symbols.len() && i < 0xFFFF_FFFF
            invariant
                *table == *old(table),
                i <= table.symbols@.len(),
                forall|k: int| 0 <= k < types@.len() ==> (#[trigger] types@[k]) < table.symbols@.len(),
                forall|k: int| 0 <= k < types@.len() ==> (#[trigger] types@[k]) < i,
                forall|a: int, b: int| 0 <= a < b < types@.len() ==> types@[a] < types@[b],
                forall|k: int| 0 <= k < types@.len() ==> renamed_type(*table, #[trigger] types@[k] as int),
                forall|j: int|
                    0 <= j < i && j < table.symbols@.len() && (#[trigger] table.symbols@[j]).kind == SymbolKind::StructType
                        && table.symbols@[j].pinned is None ==> exists|k: int| 0 <= k < types@.len() && types@[k] == j,
            decreases table.symbols@.len() - i,
        {
            let ghost before = types@;
            if table.symbols[i].kind == SymbolKind::StructType && table.symbols[i].pinned.is_none() {
                types.push(i as SymbolId);
                assert(types@[types@.len() - 1] == i);
            }
            proof {
                assert forall|j: int|
                    0 <= j < i && j < table.symbols@.len() && (#[trigger] table.symbols@[j]).kind == SymbolKind::StructType
                        && table.symbols@[j].pinned is None implies exists|k: int| 0 <= k < types@.len() && types@[k] == j by {
                    let k = choose|k: int| 0 <= k < before.len() && before[k] == j;
                    assert(types@[k] == before[k]);
                }
            }
            i = i + 1;
        }
        assert forall|j: int|
            0 <= j < table.symbols@.len() && j < 0xFFFF_FFFF && (#[trigger] table.symbols@[j]).kind == SymbolKind::StructType
                && table.symbols@[j].pinned is None implies exists|k: int| 0 <= k < types@.len() && types@[k] == j by {}
        if types.len() == 0 {
            assert forall|k: int| 0 <= k < pool@.len() implies !type_spelling(*table, #[trigger] pool@[k]@) by {
                if type_spelling(*table, pool@[k]@) {
                    let j = choose|j: int| renamed_type(*table, j) && #[trigger] printed_name(*table, j) == pool@[k]@;
                    assert(table.symbols@[j].kind == SymbolKind::StructType);
                }
            }
            return;
        }
        let ghost fset = self.forbidden@;
        // spellings that survive on struct members: a type must avoid them,
        // but they stay available to variables (a variable never lexes as a type)
        let mut kept_fields = table.pinned_field_names.clone();
        let mut i: usize = 0;
        while i < table.symbols.len()
            decreases table.symbols@.len() - i,
        {
            match table.symbols[i].kind {
                SymbolKind::Field(_) => {
                    if table.symbols[i].pinned.is_some() {
                        kept_fields.insert_str(table.symbols[i].name.as_str());
                    }
                },
                _ => {},
            }
            i = i + 1;
        }
        let mut type_pool: Vec<String> = Vec::new();
        let mut i: usize = 0;
        while i < pool.len()
            invariant
                pool@ == old(pool)@,
                forall|k: int| 0 <= k < old(pool)@.len() ==> good_new_name(#[trigger] old(pool)@[k]@, fset, false),
                forall|k: int| 0 <= k < type_pool@.len() ==> good_new_name(#[trigger] type_pool@[k]@, fset, false),
            decreases pool@.len() - i,
        {
            if !kept_fields.contains(pool[i].as_str()) {
                type_pool.push(pool[i].clone());
            }
            i = i + 1;
        }
        let mut chosen: Vec<String> = Vec::new();
        let mut t: usize = 0;
        while t < types.len()
            invariant
                self.lex == old(self).lex,
                self.lex.wf(),
                self.bigrams.wf(),
                self.shadowing == old(self).shadowing,
                renames_only_unpinned(*old(table), *table),
                forall|k: int| 0 <= k < types@.len() ==> (#[trigger] types@[k]) < old(table).symbols@.len(),
                forall|k: int| 0 <= k < t ==> symbol_named(*table, #[trigger] types@[k]),
                keeps_names(*old(table), *table),
                self.forbidden == old(self).forbidden,
                fset == self.forbidden@,
                pool@ == old(pool)@,
                forall|k: int| 0 <= k < old(pool)@.len() ==> good_new_name(#[trigger] old(pool)@[k]@, fset, false),
                forall|k: int| 0 <= k < type_pool@.len() ==> good_new_name(#[trigger] type_pool@[k]@, fset, false),
                gives_good_names(*old(table), *table, fset),
                chosen@.len() == t,
                t <= types@.len(),
                forall|a: int, b: int| 0 <= a < b < types@.len() ==> types@[a] < types@[b],
                forall|k: int| 0 <= k < types@.len() ==> renamed_type(*old(table), #[trigger] types@[k] as int),
                forall|j: int|
                    0 <= j < old(table).symbols@.len() && j < 0xFFFF_FFFF && (#[trigger] old(table).symbols@[j]).kind == SymbolKind::StructType
                        && old(table).symbols@[j].pinned is None ==> exists|k: int| 0 <= k < types@.len() && types@[k] == j,
                forall|k: int| 0 <= k < t ==> printed_name(*table, #[trigger] types@[k] as int) == chosen@[k]@,
                forall|i: int|
                    0 <= i < old(table).symbols@.len() && (#[trigger] old(table).symbols@[i]).kind != SymbolKind::StructType
                        ==> table.symbols@[i].new_name == old(table).symbols@[i].new_name,
            decreases types@.len() - t,
        {
            let sym = types[t];
            // the loop only repeats for a three-character name from `triple`
            let mut fuel: usize = 1000;
            let ghost tp0 = type_pool@;
            let mut name = self.choose_name(sym, &mut type_pool);
            proof {
                if tp0.len() > 0 {
                    let k = choose|k: int| 0 <= k < tp0.len() && name == tp0[k] && type_pool@ == tp0.remove(k);
                    assert(good_new_name(tp0[k]@, fset, false));
                    assert forall|j: int| 0 <= j < type_pool@.len() implies good_new_name(#[trigger] type_pool@[j]@, fset, false) by {
                        if j < k {
                            assert(type_pool@[j] == tp0[j]);
                        } else {
                            assert(type_pool@[j] == tp0[j + 1]);
                        }
                    }
                }
            }
            while kept_fields.contains(name.as_str()) && fuel > 0
                invariant
                    self.lex == old(self).lex,
                    self.lex.wf(),
                    self.bigrams.wf(),
                    self.forbidden == old(self).forbidden,
                    self.shadowing == old(self).shadowing,
                    fset == self.forbidden@,
                    good_new_name(name@, fset, false),
                    forall|k: int| 0 <= k < type_pool@.len() ==> good_new_name(#[trigger] type_pool@[k]@, fset, false),
                decreases fuel,
            {
                let ghost tp1 = type_pool@;
                name = self.choose_name(sym, &mut type_pool);
                proof {
                    if tp1.len() > 0 {
                        let k = choose|k: int| 0 <= k < tp1.len() && name == tp1[k] && type_pool@ == tp1.remove(k);
                        assert(good_new_name(tp1[k]@, fset, false));
                        assert forall|j: int| 0 <= j < type_pool@.len() implies good_new_name(#[trigger] type_pool@[j]@, fset, false) by {
                            if j < k {
                                assert(type_pool@[j] == tp1[j]);
                            } else {
                                assert(type_pool@[j] == tp1[j + 1]);
                            }
                        }
                    }
                }
                fuel = fuel - 1;
            }
            if (sym as usize) < table.symbols.len() && table.symbols[sym as usize].pinned.is_none() {
                let ghost tb = *table;
                table.symbols[sym as usize].new_name = Some(name.clone());
                proof {
                    assert(table.structs == tb.structs);
                    assert forall|i: int| 0 <= i < old(table).symbols@.len() && i < table.symbols@.len() implies {
                        let y = #[trigger] table.symbols@[i];
                        ||| y.new_name == old(table).symbols@[i].new_name
                        ||| y.new_name matches Some(n) && good_new_name(n@, fset, is_struct_field(*table, i))
                    } by {
                        let x = tb.symbols@[i];
                        lemma_struct_field_same(*table, tb, i);
                    }
                }
            }
            let ghost before_push = chosen@;
            chosen.push(name);
            proof {
                assert(renamed_type(*old(table), types@[t as int] as int));
                assert forall|k: int| 0 <= k < t + 1 implies printed_name(*table, #[trigger] types@[k] as int) == chosen@[k]@ by {
                    if k < t {
                        assert(types@[k] < types@[t as int]);
                        assert(chosen@[k] == before_push[k]);
                    }
                }
            }
            t = t + 1;
        }
        let mut rest: Vec<String> = Vec::new();
        let mut i: usize = 0;
        while i < pool.len()
            invariant
                pool@ == old(pool)@,
                forall|k: int| 0 <= k < old(pool)@.len() ==> good_new_name(#[trigger] old(pool)@[k]@, fset, false),
                forall|k: int| 0 <= k < rest@.len() ==> good_new_name(#[trigger] rest@[k]@, fset, false),
                forall|r: int, k: int| 0 <= r < rest@.len() && 0 <= k < chosen@.len() ==> #[trigger] chosen@[k]@ != #[trigger] rest@[r]@,
                i <= pool@.len(),
                forall|r: int| 0 <= r < rest@.len() ==> exists|j: int| 0 <= j < i && (#[trigger] rest@[r])@ == pool@[j]@,
                names_apart(old(pool)@) ==> names_apart(rest@),
            decreases pool@.len() - i,
        {
            if !contains_string(&chosen, pool[i].as_str()) {
                let ghost r0 = rest@;
                rest.push(pool[i].clone());
                proof {
                    assert(rest@[r0.len() as int]@ == pool@[i as int]@);
                    assert forall|r: int| 0 <= r < rest@.len() implies exists|j: int| 0 <= j < i + 1 && (#[trigger] rest@[r])@ == pool@[j]@ by {
                        if r < r0.len() {
                            assert(rest@[r] == r0[r]);
                            let j = choose|j: int| 0 <= j < i && (#[trigger] r0[r])@ == pool@[j]@;
                        }
                    }
                    if names_apart(old(pool)@) {
                        assert forall|a: int, b: int|
                            0 <= a < rest@.len() && 0 <= b < rest@.len() && a != b && !last_resort(rest@[a]@) implies rest@[a]@ != rest@[b]@ by {
                            if a < r0.len() && b < r0.len() {
                                assert(rest@[a] == r0[a] && rest@[b] == r0[b]);
                            } else if a < r0.len() {
                                assert(rest@[a] == r0[a]);
                                let j = choose|j: int| 0 <= j < i && (#[trigger] r0[a])@ == pool@[j]@;
                                assert(pool@[j] == pool@[j] && pool@[i as int] == pool@[i as int]);
                            } else {
                                assert(rest@[b] == r0[b]);
                                let j = choose|j: int| 0 <= j < i && (#[trigger] r0[b])@ == pool@[j]@;
                                assert(pool@[j] == pool@[j] && pool@[i as int] == pool@[i as int]);
                            }
                        }
                    }
                }
            }
            i = i + 1;
        }
        proof {
            assert forall|k: int| 0 <= k < rest@.len() implies !type_spelling(*table, #[trigger] rest@[k]@) by {
                if type_spelling(*table, rest@[k]@) {
                    let j = choose|j: int| renamed_type(*table, j) && #[trigger] printed_name(*table, j) == rest@[k]@;
                    let x = old(table).symbols@[j];
                    assert(renamed_type(*old(table), j));
                    let kk = choose|kk: int| 0 <= kk < types@.len() && types@[kk] == j;
                    assert(printed_name(*table, types@[kk] as int) == chosen@[kk]@);
                    assert(chosen@[kk]@ != rest@[k]@);
                }
            }
        }
        *pool = rest;
    }

    fn visit_scope(&mut self, table: &mut SymbolTable, scope: ScopeId, avail: Vec<String>, live: Vec<(SymbolId, String)>, depth: usize)
        requires
            old(self).lex.wf(),
            old(self).bigrams.wf(),
            forall|k: int| 0 <= k < avail@.len() ==> good_new_name(#[trigger] avail@[k]@, old(self).forbidden@, false),
            forall|k: int| 0 <= k < live@.len() ==> good_new_name(#[trigger] live@[k].1@, old(self).forbidden@, false),
            forall|k: int| 0 <= k < avail@.len() ==> untyped_name(*old(table), #[trigger] avail@[k]@),
            forall|k: int| 0 <= k < live@.len() ==> untyped_name(*old(table), #[trigger] live@[k].1@),
        ensures
            final(self).lex == old(self).lex,
            final(self).forbidden == old(self).forbidden,
            gives_good_names(*old(table), *final(table), old(self).forbidden@),
            same_types(*old(table), *final(table)),
            avoids_types(*old(table), *final(table)),
            final(self).bigrams.wf(),
            renames_only_unpinned(*old(table), *final(table)),
            keeps_names(*old(table), *final(table)),
            subtree_named(*final(table), scope, depth as nat),
            final(self).shadowing == old(self).shadowing,
            scope_order(*old(table)) ==> stays_below(*old(table), *final(table), scope as int),
            pool_apart(avail@, live@) && !old(self).shadowing ==> avoids_live_globals(*old(table), *final(table), live@),
            scope_order(*old(table)) ==> refs_below(*old(table), *final(table), scope as int),
            scope_order(*old(table)) && pool_apart(avail@, live@) ==> avoids_referenced(*old(table), *final(table), live@),
            scope == 0 && scope_order(*old(table)) && pool_apart(avail@, live@) ==> referenced_globals_apart(*old(table), *final(table)),
            scope == 0 && scope_order(*old(table)) && pool_apart(avail@, live@) ==> globals_apart(*old(table), *final(table)),
            scope == 0 && scope_order(*old(table)) && pool_apart(avail@, live@) && !old(self).shadowing ==> locals_avoid_globals(
                *old(table),
                *final(table),
            ),
        decreases depth,
    {
        let ghost fset = self.forbidden@;
        let ghost ord = scope_order(*old(table));
        let ghost apart = pool_apart(avail@, live@);
        let ghost noshadow = !self.shadowing;
        let ghost live_in = live@;
        let ghost av_in = avail@;
        let sc = scope as usize;
        if sc >= table.scopes.len() {
            return;
        }
        let ghost refs = old(table).scopes@[sc as int].referenced@;
        // names of outer symbols not referenced in this subtree are free here
        let mut freed: Vec<String> = Vec::new();
        let mut kept: Vec<(SymbolId, String)> = Vec::new();
        let ghost mut kidx: Seq<int> = Seq::empty();
        let ghost mut fidx: Seq<int> = Seq::empty();
        let mut i: usize = 0;
        while i < live.len()
            invariant
                sc < table.scopes@.len(),
                i <= live@.len(),
                live@ == live_in,
                self.shadowing == old(self).shadowing,
                noshadow == !self.shadowing,
                split_of(live_in, kept@, freed@, kidx, fidx, i as int, *old(table), self.shadowing, refs),
                refs == table.scopes@[sc as int].referenced@,
                forall|k: int| 0 <= k < live@.len() ==> good_new_name(#[trigger] live@[k].1@, fset, false),
                forall|k: int| 0 <= k < freed@.len() ==> good_new_name(#[trigger] freed@[k]@, fset, false),
                forall|k: int| 0 <= k < kept@.len() ==> good_new_name(#[trigger] kept@[k].1@, fset, false),
                *table == *old(table),
                forall|k: int| 0 <= k < live@.len() ==> untyped_name(*old(table), #[trigger] live@[k].1@),
                forall|k: int| 0 <= k < freed@.len() ==> untyped_name(*old(table), #[trigger] freed@[k]@),
                forall|k: int| 0 <= k < kept@.len() ==> untyped_name(*old(table), #[trigger] kept@[k].1@),
            decreases live@.len() - i,
        {
            let sym = live[i].0;
            let referenced = table.scopes[sc].referenced.contains(&sym);
            let global = (sym as usize) < table.symbols.len() && table.symbols[sym as usize].scope == 0;
            let ghost k0 = kept@;
            let ghost f0 = freed@;
            let ghost ki0 = kidx;
            let ghost fi0 = fidx;
            if referenced || (!self.shadowing && global) {
                kept.push((sym, live[i].1.clone()));
                proof {
                    kidx = kidx.push(i as int);
                    assert(kept@[k0.len() as int] == live_in[i as int]);
                }
            } else {
                freed.push(live[i].1.clone());
                proof {
                    fidx = fidx.push(i as int);
                    assert(freed@[f0.len() as int]@ == live_in[i as int].1@);
                    assert(is_global(*old(table), sym) == global);
                }
            }
            proof {
                assert forall|a: int| 0 <= a < kidx.len() implies 0 <= #[trigger] kidx[a] < i + 1 && kidx[a] < live_in.len() && kept@[a] == live_in[kidx[a]] by {
                    if a < ki0.len() {
                        assert(kidx[a] == ki0[a]);
                        assert(kept@[a] == k0[a]);
                    }
                }
                assert forall|b: int| 0 <= b < fidx.len() implies 0 <= #[trigger] fidx[b] < i + 1 && fidx[b] < live_in.len() && freed@[b]@ == live_in[fidx[b]].1@
                    && (self.shadowing || !is_global(*old(table), live_in[fidx[b]].0)) && !refs.contains(live_in[fidx[b]].0) by {
                    if b < fi0.len() {
                        assert(fidx[b] == fi0[b]);
                        assert(freed@[b] == f0[b]);
                    }
                }
                assert forall|a1: int, a2: int| #![trigger kidx[a1], kidx[a2]] 0 <= a1 < a2 < kidx.len() implies kidx[a1] < kidx[a2] by {
                    if a2 < ki0.len() {
                        assert(kidx[a1] == ki0[a1] && kidx[a2] == ki0[a2]);
                    } else {
                        assert(kidx[a1] == ki0[a1]);
                    }
                }
                assert forall|b1: int, b2: int| #![trigger fidx[b1], fidx[b2]] 0 <= b1 < b2 < fidx.len() implies fidx[b1] < fidx[b2] by {
                    if b2 < fi0.len() {
                        assert(fidx[b1] == fi0[b1] && fidx[b2] == fi0[b2]);
                    } else {
                        assert(fidx[b1] == fi0[b1]);
                    }
                }
                assert forall|a: int, b: int| #![trigger kidx[a], fidx[b]] 0 <= a < kidx.len() && 0 <= b < fidx.len() implies kidx[a] != fidx[b] by {
                    if a < ki0.len() && b < fi0.len() {
                        assert(kidx[a] == ki0[a] && fidx[b] == fi0[b]);
                    } else if a < ki0.len() {
                        assert(kidx[a] == ki0[a]);
                    } else {
                        assert(fidx[b] == fi0[b]);
                    }
                }
                assert forall|j: int| 0 <= j < i + 1 implies #[trigger] placed(kidx, fidx, j) by {
                    if j < i {
                        assert(placed(ki0, fi0, j));
                        if exists|a: int| 0 <= a < ki0.len() && #[trigger] ki0[a] == j {
                            let a = choose|a: int| 0 <= a < ki0.len() && #[trigger] ki0[a] == j;
                            assert(kidx[a] == j);
                        } else {
                            let b = choose|b: int| 0 <= b < fi0.len() && #[trigger] fi0[b] == j;
                            assert(fidx[b] == j);
                        }
                    } else if kidx.len() > ki0.len() {
                        assert(kidx[ki0.len() as int] == j);
                    } else {
                        assert(fidx[fi0.len() as int] == j);
                    }
                }
                assert forall|k: int| 0 <= k < kept@.len() implies good_new_name(#[trigger] kept@[k].1@, fset, false)
                    && untyped_name(*old(table), kept@[k].1@) by {
                    if k < k0.len() {
                        assert(kept@[k] == k0[k]);
                    }
                }
                assert forall|k: int| 0 <= k < freed@.len() implies good_new_name(#[trigger] freed@[k]@, fset, false)
                    && untyped_name(*old(table), freed@[k]@) by {
                    if k < f0.len() {
                        assert(freed@[k] == f0[k]);
                    }
                }
            }
            i = i + 1;
        }
        let ghost fr = freed@;
        proof {
            if apart {
                lemma_split_apart(live_in, kept@, fr, kidx, fidx, av_in, *old(table), self.shadowing, refs);
            }
        }
        let mut live = kept;
        let mut avail = if freed.len() > 0 {
            let mut f = freed;
            let mut k: usize = 0;
            while k < avail.len()
                invariant
                    avail@ == av_in,
                    k <= avail@.len(),
                    f@ == fr + av_in.take(k as int),
                    forall|j: int| 0 <= j < avail@.len() ==> good_new_name(#[trigger] avail@[j]@, fset, false),
                    forall|j: int| 0 <= j < f@.len() ==> good_new_name(#[trigger] f@[j]@, fset, false),
                    forall|j: int| 0 <= j < avail@.len() ==> untyped_name(*old(table), #[trigger] avail@[j]@),
                    forall|j: int| 0 <= j < f@.len() ==> untyped_name(*old(table), #[trigger] f@[j]@),
                decreases avail@.len() - k,
            {
                f.push(avail[k].clone());
                k = k + 1;
                assert(f@ =~= fr + av_in.take(k as int));
            }
            assert(av_in.take(avail@.len() as int) =~= av_in);
            f
        } else {
            assert(fr + av_in =~= av_in);
            avail
        };
        assert(avail@ == fr + av_in);
        let ghost kept_s = live@;
        let syms = table.scopes[sc].symbols.clone();
        assert(syms@ == old(table).scopes@[sc as int].symbols@);
        let mut i: usize = 0;
        while i < syms.len()
            invariant
                self.lex == old(self).lex,
                self.lex.wf(),
                self.bigrams.wf(),
                renames_only_unpinned(*old(table), *table),
                keeps_names(*old(table), *table),
                sc < old(table).scopes@.len(),
                syms@ == old(table).scopes@[sc as int].symbols@,
                forall|k: int| 0 <= k < i ==> {
                    let sym = #[trigger] syms@[k];
                    sym < table.symbols@.len() && scoped_kind(table.symbols@[sym as int].kind) ==> symbol_named(*table, sym)
                },
                self.forbidden == old(self).forbidden,
                fset == self.forbidden@,
                forall|k: int| 0 <= k < avail@.len() ==> good_new_name(#[trigger] avail@[k]@, fset, false),
                forall|k: int| 0 <= k < live@.len() ==> good_new_name(#[trigger] live@[k].1@, fset, false),
                gives_good_names(*old(table), *table, fset),
                forall|k: int| 0 <= k < avail@.len() ==> untyped_name(*old(table), #[trigger] avail@[k]@),
                forall|k: int| 0 <= k < live@.len() ==> untyped_name(*old(table), #[trigger] live@[k].1@),
                same_types(*old(table), *table),
                avoids_types(*old(table), *table),
                i <= syms@.len(),
                self.shadowing == old(self).shadowing,
                noshadow == !self.shadowing,
                apart ==> pool_apart(avail@, live@),
                apart && noshadow ==> avail_avoids_globals(avail@, live_in, *old(table)),
                apart && noshadow ==> globals_kept(live_in, live@, *old(table)),
                apart && noshadow ==> avoids_live_globals(*old(table), *table, live_in),
                ord == scope_order(*old(table)),
                refs == old(table).scopes@[sc as int].referenced@,
                apart ==> avail_avoids_refs(avail@, live_in, refs),
                apart ==> refs_kept(live_in, live@, refs),
                ord && apart ==> avoids_referenced(*old(table), *table, live_in),
                forall|x: int|
                    0 <= x < old(table).symbols@.len() && #[trigger] renamed_anew(*old(table), *table, x) ==> exists|j: int|
                        0 <= j < i && syms@[j] == x,
                forall|x: int|
                    0 <= x < old(table).symbols@.len() && #[trigger] renamed_anew(*old(table), *table, x) ==> exists|a: int|
                        0 <= a < live@.len() && live@[a].0 == x && live@[a].1@ == printed_name(*table, x),
            decreases syms@.len() - i,
        {
            let sym = syms[i];
            let ghost lv0 = live@;
            let ghost tb0 = *table;
            if (sym as usize) < table.symbols.len() {
                let skip = table.symbols[sym as usize].pinned.is_some() || match table.symbols[sym as usize].kind {
                    SymbolKind::Field(_) => true,
                    SymbolKind::StructType => true,
                    _ => false,
                };
                // types are pre-assigned and never enter `live`, so their
                // names can never be freed for reuse by an inner scope
                if !skip {
                    let ghost av0 = avail@;
                    let name = self.choose_name(sym, &mut avail);
                    proof {
                        if av0.len() > 0 {
                            let k = choose|k: int| 0 <= k < av0.len() && name == av0[k] && avail@ == av0.remove(k);
                            assert(good_new_name(av0[k]@, fset, false));
                            assert(untyped_name(*old(table), av0[k]@));
                            assert forall|j: int| 0 <= j < avail@.len() implies good_new_name(#[trigger] avail@[j]@, fset, false)
                                && untyped_name(*old(table), avail@[j]@) by {
                                if j < k {
                                    assert(avail@[j] == av0[j]);
                                } else {
                                    assert(avail@[j] == av0[j + 1]);
                                }
                            }
                        }
                    }
                    assert(untyped_name(*old(table), name@));
                    let ghost tb = *table;
                    table.symbols[sym as usize].new_name = Some(name.clone());
                    proof {
                        assert(tb.symbols@[sym as int].kind != SymbolKind::StructType);
                        assert forall|i: int| 0 <= i < old(table).symbols@.len() && i < table.symbols@.len() implies {
                            let y = #[trigger] table.symbols@[i];
                            ||| y.new_name == old(table).symbols@[i].new_name
                            ||| y.kind == SymbolKind::StructType
                            ||| y.new_name matches Some(n) && (last_resort(n@) || !type_spelling(*old(table), n@))
                        } by {
                            let x = tb.symbols@[i];
                        }
                        assert forall|i: int| 0 <= i < old(table).symbols@.len() implies {
                            &&& (#[trigger] table.symbols@[i]).kind == old(table).symbols@[i].kind
                            &&& table.symbols@[i].pinned == old(table).symbols@[i].pinned
                            &&& table.symbols@[i].name == old(table).symbols@[i].name
                            &&& old(table).symbols@[i].kind == SymbolKind::StructType ==> table.symbols@[i].new_name == old(table).symbols@[i].new_name
                        } by {
                            let x = tb.symbols@[i];
                        }
                        assert forall|i: int| 0 <= i < old(table).symbols@.len() && i < table.symbols@.len() implies {
                            let y = #[trigger] table.symbols@[i];
                            ||| y.new_name == old(table).symbols@[i].new_name
                            ||| y.new_name matches Some(n) && good_new_name(n@, fset, is_struct_field(*table, i))
                        } by {
                            let x = tb.symbols@[i];
                            lemma_struct_field_same(*table, tb, i);
                        }
                    }
                    let ghost nm = name;
                    live.push((sym, name));
                    proof {
                        assert(live@ == lv0.push((sym, nm)));
                        assert(printed_name(*table, sym as int) == nm@);
                        if apart {
                            if av0.len() > 0 {
                                let k = choose|k: int| 0 <= k < av0.len() && nm == av0[k] && avail@ == av0.remove(k);
                                lemma_apart_take(av0, lv0, k, sym);
                                if noshadow {
                                    assert forall|a: int, kk: int|
                                        #![trigger avail@[a], live_in[kk]]
                                        0 <= a < avail@.len() && 0 <= kk < live_in.len() && is_global(*old(table), live_in[kk].0) && !last_resort(avail@[a]@)
                                            implies avail@[a]@ != live_in[kk].1@ by {
                                        if a < k {
                                            assert(avail@[a] == av0[a]);
                                        } else {
                                            assert(avail@[a] == av0[a + 1]);
                                        }
                                    }
                                    assert forall|x: int, kk: int|
                                        #![trigger renamed_anew(*old(table), *table, x), live_in[kk]]
                                        0 <= x < old(table).symbols@.len() && 0 <= kk < live_in.len() && is_global(*old(table), live_in[kk].0)
                                            && renamed_anew(*old(table), *table, x) implies printed_name(*table, x) != live_in[kk].1@
                                            || last_resort(printed_name(*table, x)) by {
                                        if x != sym {
                                            assert(table.symbols@[x] == tb0.symbols@[x]);
                                            assert(renamed_anew(*old(table), tb0, x));
                                        } else {
                                            assert(av0[k] == av0[k]);
                                        }
                                    }
                                }
                            } else {
                                assert(avail@ =~= av0);
                                lemma_apart_push_resort(av0, lv0, sym, nm);
                                if noshadow {
                                    assert forall|x: int, kk: int|
                                        #![trigger renamed_anew(*old(table), *table, x), live_in[kk]]
                                        0 <= x < old(table).symbols@.len() && 0 <= kk < live_in.len() && is_global(*old(table), live_in[kk].0)
                                            && renamed_anew(*old(table), *table, x) implies printed_name(*table, x) != live_in[kk].1@
                                            || last_resort(printed_name(*table, x)) by {
                                        if x != sym {
                                            assert(table.symbols@[x] == tb0.symbols@[x]);
                                            assert(renamed_anew(*old(table), tb0, x));
                                        }
                                    }
                                }
                            }
                            if noshadow {
                                assert forall|kk: int| 0 <= kk < live_in.len() && is_global(*old(table), (#[trigger] live_in[kk]).0) implies exists|a: int|
                                    0 <= a < live@.len() && live@[a] == live_in[kk] by {
                                    let a = choose|a: int| 0 <= a < lv0.len() && lv0[a] == live_in[kk];
                                    assert(live@[a] == lv0[a]);
                                }
                            }
                            assert forall|kk: int| 0 <= kk < live_in.len() && refs.contains((#[trigger] live_in[kk]).0) implies exists|a: int|
                                0 <= a < live@.len() && live@[a] == live_in[kk] by {
                                let a = choose|a: int| 0 <= a < lv0.len() && lv0[a] == live_in[kk];
                                assert(live@[a] == lv0[a]);
                            }
                            if av0.len() > 0 {
                                let k = choose|k: int| 0 <= k < av0.len() && nm == av0[k] && avail@ == av0.remove(k);
                                assert forall|a: int, kk: int|
                                    #![trigger avail@[a], live_in[kk]]
                                    0 <= a < avail@.len() && 0 <= kk < live_in.len() && refs.contains(live_in[kk].0) && !last_resort(avail@[a]@)
                                        implies avail@[a]@ != live_in[kk].1@ by {
                                    if a < k {
                                        assert(avail@[a] == av0[a]);
                                    } else {
                                        assert(avail@[a] == av0[a + 1]);
                                    }
                                }
                                if ord {
                                    assert(old(table).scopes@[sc as int].symbols@[i as int] == sym);
                                    assert forall|x: int, kk: int|
                                        #![trigger renamed_anew(*old(table), *table, x), live_in[kk]]
                                        0 <= x < old(table).symbols@.len() && 0 <= kk < live_in.len() && renamed_anew(*old(table), *table, x)
                                            && old(table).symbols@[x].scope < old(table).scopes@.len()
                                            && old(table).scopes@[old(table).symbols@[x].scope as int].referenced@.contains(live_in[kk].0)
                                            implies printed_name(*table, x) != live_in[kk].1@ || last_resort(printed_name(*table, x)) by {
                                        if x != sym {
                                            assert(table.symbols@[x] == tb0.symbols@[x]);
                                            assert(renamed_anew(*old(table), tb0, x));
                                        } else {
                                            assert(av0[k] == av0[k]);
                                        }
                                    }
                                }
                            } else if ord {
                                assert forall|x: int, kk: int|
                                    #![trigger renamed_anew(*old(table), *table, x), live_in[kk]]
                                    0 <= x < old(table).symbols@.len() && 0 <= kk < live_in.len() && renamed_anew(*old(table), *table, x)
                                        && old(table).symbols@[x].scope < old(table).scopes@.len()
                                        && old(table).scopes@[old(table).symbols@[x].scope as int].referenced@.contains(live_in[kk].0)
                                        implies printed_name(*table, x) != live_in[kk].1@ || last_resort(printed_name(*table, x)) by {
                                    if x != sym {
                                        assert(table.symbols@[x] == tb0.symbols@[x]);
                                        assert(renamed_anew(*old(table), tb0, x));
                                    }
                                }
                            }
                        }
                        assert forall|x: int|
                            0 <= x < old(table).symbols@.len() && #[trigger] renamed_anew(*old(table), *table, x) implies exists|j: int|
                                0 <= j < i + 1 && syms@[j] == x by {
                            if x != sym {
                                assert(table.symbols@[x] == tb0.symbols@[x]);
                                assert(renamed_anew(*old(table), tb0, x));
                            } else {
                                assert(syms@[i as int] == x);
                            }
                        }
                        assert forall|x: int|
                            0 <= x < old(table).symbols@.len() && #[trigger] renamed_anew(*old(table), *table, x) implies exists|a: int|
                                0 <= a < live@.len() && live@[a].0 == x && live@[a].1@ == printed_name(*table, x) by {
                            if x != sym {
                                assert(table.symbols@[x] == tb0.symbols@[x]);
                                assert(renamed_anew(*old(table), tb0, x));
                                let a = choose|a: int| 0 <= a < lv0.len() && lv0[a].0 == x && lv0[a].1@ == printed_name(tb0, x);
                                assert(live@[a] == lv0[a]);
                            } else {
                                assert(live@[lv0.len() as int] == (sym, nm));
                            }
                        }
                        assert(good_new_name(nm@, fset, false));
                        assert forall|k: int| 0 <= k < live@.len() implies good_new_name(#[trigger] live@[k].1@, fset, false)
                            && untyped_name(*old(table), live@[k].1@) by {
                            if k < lv0.len() {
                                assert(live@[k] == lv0[k]);
                            }
                        }
                    }
                    assert(forall|k: int| 0 <= k < live@.len() ==> good_new_name(#[trigger] live@[k].1@, fset, false));
                } else {
                    assert(forall|k: int| 0 <= k < live@.len() ==> good_new_name(#[trigger] live@[k].1@, fset, false));
                }
            } else {
                assert(forall|k: int| 0 <= k < live@.len() ==> good_new_name(#[trigger] live@[k].1@, fset, false));
            }
            i = i + 1;
        }
        let ghost t_own = *table;
        let ghost live_own = live@;
        if depth == 0 || sc >= table.scopes.len() {
            proof {
                lemma_visit_end(*old(table), t_own, *table, live_in, live_own, syms@, sc as int, apart && noshadow);
                if ord {
                    lemma_own_scope(*old(table), t_own, syms@, sc as int);
                    lemma_visit_end_refs(*old(table), t_own, *table, live_in, live_own, avail@, sc as int, apart);
                }
            }
            return;
        }
        let children = table.scopes[sc].children.clone();
        assert(children@ == old(table).scopes@[sc as int].children@);
        let mut c: usize = 0;
        while c < children.len()
            invariant
                self.lex == old(self).lex,
                self.lex.wf(),
                self.bigrams.wf(),
                depth > 0,
                self.shadowing == old(self).shadowing,
                noshadow == !self.shadowing,
                ord == scope_order(*old(table)),
                apart ==> pool_apart(avail@, live_own),
                live@ == live_own,
                renames_only_unpinned(*old(table), t_own),
                renames_only_unpinned(t_own, *table),
                ord ==> stays_below(t_own, *table, sc + 1),
                apart && noshadow ==> avoids_live_globals(t_own, *table, live_own),
                refs == old(table).scopes@[sc as int].referenced@,
                ord ==> refs_below(t_own, *table, sc as int),
                ord && apart ==> avoids_referenced(t_own, *table, live_own),
                apart ==> refs_kept(live_in, live_own, refs),
                ord && apart ==> avoids_referenced(*old(table), t_own, live_in),
                apart && noshadow ==> avoids_live_globals(*old(table), t_own, live_in) && globals_kept(live_in, live_own, *old(table)),
                forall|x: int|
                    0 <= x < old(table).symbols@.len() && #[trigger] renamed_anew(*old(table), t_own, x) ==> exists|j: int|
                        0 <= j < syms@.len() && syms@[j] == x,
                forall|x: int|
                    0 <= x < old(table).symbols@.len() && #[trigger] renamed_anew(*old(table), t_own, x) ==> exists|a: int|
                        0 <= a < live_own.len() && live_own[a].0 == x && live_own[a].1@ == printed_name(t_own, x),
                renames_only_unpinned(*old(table), *table),
                renames_only_unpinned(*old(table), t_own),
                keeps_names(*old(table), *table),
                keeps_names(t_own, *table),
                sc < old(table).scopes@.len(),
                syms@ == old(table).scopes@[sc as int].symbols@,
                children@ == old(table).scopes@[sc as int].children@,
                forall|k: int| 0 <= k < syms@.len() ==> {
                    let sym = #[trigger] syms@[k];
                    sym < t_own.symbols@.len() && scoped_kind(t_own.symbols@[sym as int].kind) ==> symbol_named(t_own, sym)
                },
                forall|k: int| 0 <= k < c ==> subtree_named(*table, #[trigger] children@[k], (depth - 1) as nat),
                self.forbidden == old(self).forbidden,
                fset == self.forbidden@,
                forall|k: int| 0 <= k < avail@.len() ==> good_new_name(#[trigger] avail@[k]@, fset, false),
                forall|k: int| 0 <= k < live@.len() ==> good_new_name(#[trigger] live@[k].1@, fset, false),
                gives_good_names(*old(table), *table, fset),
                forall|k: int| 0 <= k < avail@.len() ==> untyped_name(*old(table), #[trigger] avail@[k]@),
                forall|k: int| 0 <= k < live@.len() ==> untyped_name(*old(table), #[trigger] live@[k].1@),
                same_types(*old(table), *table),
                avoids_types(*old(table), *table),
            decreases children@.len() - c,
        {
            let ghost t0 = *table;
            proof {
                assert forall|k: int| 0 <= k < avail@.len() implies untyped_name(*table, #[trigger] avail@[k]@) by {
                    lemma_same_types_spelling(*old(table), *table, avail@[k]@);
                }
                assert forall|k: int| 0 <= k < live@.len() implies untyped_name(*table, #[trigger] live@[k].1@) by {
                    lemma_same_types_spelling(*old(table), *table, live@[k].1@);
                }
            }
            let av_c = copy_names(&avail);
            let lv_c = copy_live(&live);
            self.visit_scope(table, children[c], av_c, lv_c, depth - 1);
            proof {
                lemma_renames_chain(t_own, t0, *table);
                if ord {
                    lemma_scope_order_keeps(*old(table), t0);
                    assert(sc < children@[c as int]);
                    lemma_stays_below_chain(t_own, t0, *table, sc + 1, children@[c as int] as int);
                    lemma_refs_below_chain(t_own, t0, *table, sc as int, children@[c as int] as int);
                    if apart {
                        lemma_referenced_chain(t_own, t0, *table, live_own);
                    }
                }
                if apart && noshadow {
                    lemma_live_globals_chain(t_own, t0, *table, live_own);
                }
                lemma_avoids_chain(*old(table), t0, *table);
                lemma_same_shape(*old(table), t0, *table);
                lemma_good_names_chain(*old(table), t0, *table, fset);
                assert forall|k: int| 0 <= k < c + 1 implies subtree_named(*table, #[trigger] children@[k], (depth - 1) as nat) by {
                    if k < c {
                        lemma_subtree_named_keeps(t0, *table, children@[k], (depth - 1) as nat);
                    }
                }
            }
            c = c + 1;
        }
        proof {
            lemma_visit_end(*old(table), t_own, *table, live_in, live_own, syms@, sc as int, apart && noshadow);
            if ord {
                lemma_own_scope(*old(table), t_own, syms@, sc as int);
                lemma_visit_end_refs(*old(table), t_own, *table, live_in, live_own, avail@, sc as int, apart);
            }
            lemma_same_shape(*old(table), t_own, *table);
            assert forall|k: int| 0 <= k < syms@.len() implies {
                let sym = #[trigger] syms@[k];
                sym < table.symbols@.len() && scoped_kind(table.symbols@[sym as int].kind) ==> symbol_named(*table, sym)
            } by {
                let sym = syms@[k];
                if sym < table.symbols@.len() {
                    assert(table.symbols@[sym as int].kind == t_own.symbols@[sym as int].kind);
                }
            }
        }
    }

    fn fields(&mut self, table: &mut SymbolTable)
        requires
            old(self).lex.wf(),
            old(self).bigrams.wf(),
        ensures
            final(self).lex == old(self).lex,
            final(self).forbidden == old(self).forbidden,
            gives_good_names(*old(table), *final(table), old(self).forbidden@),
            avoids_types(*old(table), *final(table)),
            members_are_fields(*old(table)) ==> same_types(*old(table), *final(table)),
            final(self).bigrams.wf(),
            renames_only_unpinned(*old(table), *final(table)),
            final(table).structs == old(table).structs,
            keeps_names(*old(table), *final(table)),
            forall|i: int|
                0 <= i < old(table).symbols@.len() && !is_struct_field(*old(table), i) ==> (#[trigger] final(table).symbols@[i]).new_name
                    == old(table).symbols@[i].new_name,
            forall|d: int, k: int|
                0 <= d < old(table).structs@.len() && 0 <= k < old(table).structs@[d].fields@.len() ==> symbol_named(
                    *final(table),
                    #[trigger] old(table).structs@[d].fields@[k],
                ),
    {
        let mut forbidden = table.pinned_field_names.clone();
        let mut i: usize = 0;
        while i < table.symbols.len()
            invariant
                *table == *old(table),
                forall|j: int|
                    0 <= j < i && j < table.symbols@.len() && (#[trigger] table.symbols@[j]).kind == SymbolKind::StructType
                        ==> forbidden@.contains(printed_name(*table, j)),
            decreases table.symbols@.len() - i,
        {
            match table.symbols[i].kind {
                SymbolKind::Field(_) => {
                    if table.symbols[i].pinned.is_some() {
                        forbidden.insert_str(table.symbols[i].name.as_str());
                    }
                },
                // `float t;` inside a struct would lex as a type if `t` names one
                SymbolKind::StructType => {
                    match &table.symbols[i].new_name {
                        Some(n) => forbidden.insert_str(n.as_str()),
                        None => forbidden.insert_str(table.symbols[i].name.as_str()),
                    }
                },
                _ => {},
            }
            i = i + 1;
        }
        let mut pool: Vec<String> = Vec::new();
        let second = self.second_chars();
        let mut i: usize = 0;
        while i < self.letters.len()
            invariant
                self.lex.wf(),
                self.bigrams.wf(),
            decreases self.letters@.len() - i,
        {
            let v: [char; 1] = [self.letters[i]];
            pool.push(name_of(v.as_slice()));
            i = i + 1;
        }
        let mut i: usize = 0;
        while i < self.letters.len()
            invariant
                self.lex.wf(),
                self.bigrams.wf(),
            decreases self.letters@.len() - i,
        {
            let mut j: usize = 0;
            while j < second.len()
                invariant
                    i < self.letters@.len(),
                decreases second@.len() - j,
            {
                let v: [char; 2] = [self.letters[i], second[j]];
                pool.push(name_of(v.as_slice()));
                j = j + 1;
            }
            i = i + 1;
        }
        let ghost fset = self.forbidden@;
        let mut usable: Vec<String> = Vec::new();
        let mut i: usize = 0;
        while i < pool.len()
            invariant
                self.lex.wf(),
                self.bigrams.wf(),
                forall|k: int| 0 <= k < usable@.len() ==> good_new_name(#[trigger] usable@[k]@, fset, true),
                forall|k: int| 0 <= k < usable@.len() ==> untyped_name(*old(table), #[trigger] usable@[k]@),
                *table == *old(table),
                forall|j: int|
                    0 <= j < table.symbols@.len() && (#[trigger] table.symbols@[j]).kind == SymbolKind::StructType
                        ==> forbidden@.contains(printed_name(*table, j)),
            decreases pool@.len() - i,
        {
            let c = chars_of(pool[i].as_str());
            if !self.lex.never_generate(c.as_slice()) && !swizzle(c.as_slice()) && !forbidden.contains(pool[i].as_str()) {
                proof {
                    let n = pool@[i as int]@;
                    if type_spelling(*table, n) {
                        let j = choose|j: int| renamed_type(*table, j) && #[trigger] printed_name(*table, j) == n;
                        assert(table.symbols@[j].kind == SymbolKind::StructType);
                        assert(forbidden@.contains(printed_name(*table, j)));
                    }
                }
                usable.push(pool[i].clone());
            }
            i = i + 1;
        }
        let mut next: usize = 0;
        let mut old_names: Vec<String> = Vec::new();
        let mut new_names: Vec<String> = Vec::new();
        let mut def: usize = 0;
        let ghost ns = table.structs@.len();
        while def < table.structs.len()
            invariant
                self.lex == old(self).lex,
                self.lex.wf(),
                self.bigrams.wf(),
                old_names@.len() == new_names@.len(),
                table.structs@.len() == ns,
                renames_only_unpinned(*old(table), *table),
                table.structs == old(table).structs,
                keeps_names(*old(table), *table),
                forall|d: int, k: int|
                    0 <= d < def && 0 <= k < old(table).structs@[d].fields@.len() ==> symbol_named(
                        *table,
                        #[trigger] old(table).structs@[d].fields@[k],
                    ),
                self.forbidden == old(self).forbidden,
                fset == self.forbidden@,
                forall|k: int| 0 <= k < usable@.len() ==> good_new_name(#[trigger] usable@[k]@, fset, true),
                forall|k: int| 0 <= k < new_names@.len() ==> good_new_name(#[trigger] new_names@[k]@, fset, true),
                gives_good_names(*old(table), *table, fset),
                forall|k: int| 0 <= k < usable@.len() ==> untyped_name(*old(table), #[trigger] usable@[k]@),
                forall|k: int| 0 <= k < new_names@.len() ==> untyped_name(*old(table), #[trigger] new_names@[k]@),
                avoids_types(*old(table), *table),
                members_are_fields(*old(table)) ==> same_types(*old(table), *table),
                forall|i: int|
                    0 <= i < old(table).symbols@.len() && !is_struct_field(*old(table), i) ==> (#[trigger] table.symbols@[i]).new_name
                        == old(table).symbols@[i].new_name,
            decreases table.structs@.len() - def,
        {
            let fields = table.structs[def].fields.clone();
            assert(fields@ == table.structs@[def as int].fields@);
            let mut f: usize = 0;
            while f < fields.len()
                invariant
                    self.lex == old(self).lex,
                    self.lex.wf(),
                    self.bigrams.wf(),
                    old_names@.len() == new_names@.len(),
                    table.structs@.len() == ns,
                    renames_only_unpinned(*old(table), *table),
                    table.structs == old(table).structs,
                    keeps_names(*old(table), *table),
                    def < ns,
                    fields@ == old(table).structs@[def as int].fields@,
                    forall|d: int, k: int|
                        0 <= d < def && 0 <= k < old(table).structs@[d].fields@.len() ==> symbol_named(
                            *table,
                            #[trigger] old(table).structs@[d].fields@[k],
                        ),
                    forall|k: int| 0 <= k < f ==> symbol_named(*table, #[trigger] fields@[k]),
                    self.forbidden == old(self).forbidden,
                    fset == self.forbidden@,
                    forall|k: int| 0 <= k < usable@.len() ==> good_new_name(#[trigger] usable@[k]@, fset, true),
                    forall|k: int| 0 <= k < new_names@.len() ==> good_new_name(#[trigger] new_names@[k]@, fset, true),
                    gives_good_names(*old(table), *table, fset),
                    forall|k: int| 0 <= k < usable@.len() ==> untyped_name(*old(table), #[trigger] usable@[k]@),
                    forall|k: int| 0 <= k < new_names@.len() ==> untyped_name(*old(table), #[trigger] new_names@[k]@),
                    avoids_types(*old(table), *table),
                    members_are_fields(*old(table)) ==> same_types(*old(table), *table),
                    forall|i: int|
                        0 <= i < old(table).symbols@.len() && !is_struct_field(*old(table), i) ==> (#[trigger] table.symbols@[i]).new_name
                            == old(table).symbols@[i].new_name,
                decreases fields@.len() - f,
            {
                let fs = fields[f] as usize;
                if fs < table.symbols.len() && table.symbols[fs].pinned.is_none() {
                    let name = table.symbols[fs].name.clone();
                    let mut found: Option<usize> = None;
                    let mut k: usize = 0;
                    while k < old_names.len()
                        invariant
                            found matches Some(x) ==> x < old_names@.len(),
                        decreases old_names@.len() - k,
                    {
                        if found.is_none() && crate::text::str_eq(old_names[k].as_str(), name.as_str()) {
                            found = Some(k);
                        }
                        k = k + 1;
                    }
                    let new = match found {
                        Some(x) => {
                            if x < new_names.len() {
                                new_names[x].clone()
                            } else {
                                self.triple()
                            }
                        },
                        None => {
                            let n = if next < usable.len() {
                                let n = usable[next].clone();
                                next = next + 1;
                                n
                            } else {
                                self.triple()
                            };
                            old_names.push(name);
                            new_names.push(n.clone());
                            n
                        },
                    };
                    assert(good_new_name(new@, fset, true));
                    assert(untyped_name(*old(table), new@));
                    let ghost tb = *table;
                    table.symbols[fs].new_name = Some(new);
                    proof {
                        assert(table.structs@[def as int].fields@[f as int] == fs);
                        assert(is_struct_field(*table, fs as int));
                        assert(is_struct_field(*old(table), fs as int));
                        assert forall|i: int|
                            0 <= i < old(table).symbols@.len() && !is_struct_field(*old(table), i) implies (#[trigger] table.symbols@[i]).new_name
                                == old(table).symbols@[i].new_name by {
                            let x = tb.symbols@[i];
                        }
                        assert forall|i: int| 0 <= i < old(table).symbols@.len() && i < table.symbols@.len() implies {
                            let y = #[trigger] table.symbols@[i];
                            ||| y.new_name == old(table).symbols@[i].new_name
                            ||| y.kind == SymbolKind::StructType
                            ||| y.new_name matches Some(n) && (last_resort(n@) || !type_spelling(*old(table), n@))
                        } by {
                            let x = tb.symbols@[i];
                        }
                        if members_are_fields(*old(table)) {
                            assert(old(table).symbols@[fs as int].kind is Field);
                            assert forall|i: int| 0 <= i < old(table).symbols@.len() implies {
                                &&& (#[trigger] table.symbols@[i]).kind == old(table).symbols@[i].kind
                                &&& table.symbols@[i].pinned == old(table).symbols@[i].pinned
                                &&& table.symbols@[i].name == old(table).symbols@[i].name
                                &&& old(table).symbols@[i].kind == SymbolKind::StructType ==> table.symbols@[i].new_name == old(table).symbols@[i].new_name
                            } by {
                                let x = tb.symbols@[i];
                            }
                        }
                        assert forall|i: int| 0 <= i < old(table).symbols@.len() && i < table.symbols@.len() implies {
                            let y = #[trigger] table.symbols@[i];
                            ||| y.new_name == old(table).symbols@[i].new_name
                            ||| y.new_name matches Some(n) && good_new_name(n@, fset, is_struct_field(*table, i))
                        } by {
                            let x = tb.symbols@[i];
                            lemma_struct_field_same(*table, tb, i);
                        }
                    }
                }
                f = f + 1;
            }
            def = def + 1;
        }
    }
}

/// Symbol `i` is listed as a member of one of the structs of `t`.
pub open spec fn is_struct_field(t: SymbolTable, i: int) -> bool {
    exists|d: int, k: int|
        0 <= d < t.structs@.len() && 0 <= k < t.structs@[d].fields@.len() && #[trigger] t.structs@[d].fields@[k] == i
}

proof fn lemma_struct_field_same(a: SymbolTable, b: SymbolTable, i: int)
    requires
        a.structs == b.structs,
    ensures
        is_struct_field(a, i) == is_struct_field(b, i),
{
    if is_struct_field(a, i) {
        let (d, k) = choose|d: int, k: int| 0 <= d < a.structs@.len() && 0 <= k < a.structs@[d].fields@.len() && #[trigger] a.structs@[d].fields@[k] == i;
        assert(b.structs@[d].fields@[k] == i);
    }
    if is_struct_field(b, i) {
        let (d, k) = choose|d: int, k: int| 0 <= d < b.structs@.len() && 0 <= k < b.structs@[d].fields@.len() && #[trigger] b.structs@[d].fields@[k] == i;
        assert(a.structs@[d].fields@[k] == i);
    }
}


/// A name the renamer gives: a three-character name of the last-resort
/// sequence, or one that is no keyword, reserved word, built-in function
/// or `main`, and (except for a struct member) not in `forbidden`.
pub open spec fn good_new_name(n: Seq<char>, forbidden: Set<Seq<char>>, member: bool) -> bool {
    overlong_words(forbidden) || (!spec_never_generate(n) && (member || !forbidden.contains(n)))
}

/// Some name of `f`, or some keyword or built-in function name, is as long
/// as the longest string the machine can index, so that no longer name can
/// be made.
pub open spec fn overlong_words(f: Set<Seq<char>>) -> bool {
    ||| exists|x: Seq<char>| #[trigger] f.contains(x) && x.len() >= usize::MAX
    ||| exists|k: int| 0 <= k < keyword_words().len() && (#[trigger] keyword_words()[k]).len() >= usize::MAX
    ||| exists|k: int| 0 <= k < function_words().len() && (#[trigger] function_words()[k]).len() >= usize::MAX
}

/// A name of the last-resort sequence: three characters, or a run of at
/// least five `z`.
pub open spec fn last_resort(n: Seq<char>) -> bool {
    n.len() == 3 || (n.len() >= 5 && forall|i: int| 0 <= i < n.len() ==> #[trigger] n[i] == 'z')
}

/// Every symbol whose new name `after` changed from `before` has a
/// `good_new_name`.
pub open spec fn gives_good_names(before: SymbolTable, after: SymbolTable, forbidden: Set<Seq<char>>) -> bool {
    forall|i: int|
        0 <= i < before.symbols@.len() && i < after.symbols@.len() ==> {
            let y = #[trigger] after.symbols@[i];
            ||| y.new_name == before.symbols@[i].new_name
            ||| y.new_name matches Some(n) && good_new_name(n@, forbidden, is_struct_field(after, i))
        }
}

proof fn lemma_good_names_chain(a: SymbolTable, b: SymbolTable, c: SymbolTable, f: Set<Seq<char>>)
    requires
        gives_good_names(a, b, f),
        gives_good_names(b, c, f),
        a.symbols@.len() == b.symbols@.len(),
        b.symbols@.len() == c.symbols@.len(),
        b.structs == c.structs,
    ensures
        gives_good_names(a, c, f),
{
    assert forall|i: int| 0 <= i < a.symbols@.len() && i < c.symbols@.len() implies {
        let y = #[trigger] c.symbols@[i];
        ||| y.new_name == a.symbols@[i].new_name
        ||| y.new_name matches Some(n) && good_new_name(n@, f, is_struct_field(c, i))
    } by {
        let x = b.symbols@[i];
        lemma_struct_field_same(b, c, i);
    }
}

/// Symbol `i` of `t` is a struct type that the renamer names.
pub open spec fn renamed_type(t: SymbolTable, i: int) -> bool {
    0 <= i < t.symbols@.len() && i < 0xFFFF_FFFF && t.symbols@[i].kind == SymbolKind::StructType
        && t.symbols@[i].pinned is None
}

/// `n` is the printed name of a struct type that the renamer names.
pub open spec fn type_spelling(t: SymbolTable, n: Seq<char>) -> bool {
    exists|i: int| renamed_type(t, i) && #[trigger] printed_name(t, i) == n
}

/// Every symbol a struct lists as a member is a field.
pub open spec fn members_are_fields(t: SymbolTable) -> bool {
    forall|i: int| 0 <= i < t.symbols@.len() && is_struct_field(t, i) ==> (#[trigger] t.symbols@[i]).kind is Field
}

/// `a` and `b` agree on every struct type: kind, pin and new name.
pub open spec fn same_types(a: SymbolTable, b: SymbolTable) -> bool {
    &&& a.symbols@.len() == b.symbols@.len()
    &&& forall|i: int|
        0 <= i < a.symbols@.len() ==> {
            &&& (#[trigger] b.symbols@[i]).kind == a.symbols@[i].kind
            &&& b.symbols@[i].pinned == a.symbols@[i].pinned
            &&& b.symbols@[i].name == a.symbols@[i].name
            &&& a.symbols@[i].kind == SymbolKind::StructType ==> b.symbols@[i].new_name == a.symbols@[i].new_name
        }
}

proof fn lemma_same_types_spelling(a: SymbolTable, b: SymbolTable, n: Seq<char>)
    requires
        same_types(a, b),
    ensures
        type_spelling(a, n) == type_spelling(b, n),
{
    if type_spelling(a, n) {
        let i = choose|i: int| renamed_type(a, i) && #[trigger] printed_name(a, i) == n;
        assert(b.symbols@[i].kind == a.symbols@[i].kind);
        assert(printed_name(b, i) == n);
    }
    if type_spelling(b, n) {
        let i = choose|i: int| renamed_type(b, i) && #[trigger] printed_name(b, i) == n;
        assert(b.symbols@[i].kind == a.symbols@[i].kind);
        assert(printed_name(a, i) == n);
    }
}

/// `n` is a three-character name of the last-resort sequence, or not the
/// printed name of a struct type of `t` that the renamer names.
pub open spec fn untyped_name(t: SymbolTable, n: Seq<char>) -> bool {
    last_resort(n) || !type_spelling(t, n)
}

/// Every symbol other than a struct type whose new name `after` changed
/// from `before` is printed unlike every struct type of `before` that the
/// renamer names, or has a three-character name of the last-resort
/// sequence.
pub open spec fn avoids_types(before: SymbolTable, after: SymbolTable) -> bool {
    forall|i: int|
        0 <= i < before.symbols@.len() && i < after.symbols@.len() ==> {
            let y = #[trigger] after.symbols@[i];
            ||| y.new_name == before.symbols@[i].new_name
            ||| y.kind == SymbolKind::StructType
            ||| y.new_name matches Some(n) && (last_resort(n@) || !type_spelling(before, n@))
        }
}

proof fn lemma_avoids_chain(a: SymbolTable, b: SymbolTable, c: SymbolTable)
    requires
        same_types(a, b),
        same_types(b, c),
        avoids_types(a, b),
        avoids_types(b, c),
    ensures
        same_types(a, c),
        avoids_types(a, c),
{
    assert forall|i: int| 0 <= i < a.symbols@.len() && i < c.symbols@.len() implies {
        let y = #[trigger] c.symbols@[i];
        ||| y.new_name == a.symbols@[i].new_name
        ||| y.kind == SymbolKind::StructType
        ||| y.new_name matches Some(n) && (last_resort(n@) || !type_spelling(a, n@))
    } by {
        let x = b.symbols@[i];
        let y = c.symbols@[i];
        if y.new_name != x.new_name && y.kind != SymbolKind::StructType {
            let n = y.new_name->0;
            lemma_same_types_spelling(a, b, n@);
        } else if y.new_name == x.new_name && x.new_name != a.symbols@[i].new_name && y.kind != SymbolKind::StructType {
            assert(x.kind == y.kind);
        }
    }
    assert forall|i: int| 0 <= i < a.symbols@.len() implies {
        &&& (#[trigger] c.symbols@[i]).kind == a.symbols@[i].kind
        &&& c.symbols@[i].pinned == a.symbols@[i].pinned
        &&& c.symbols@[i].name == a.symbols@[i].name
        &&& a.symbols@[i].kind == SymbolKind::StructType ==> c.symbols@[i].new_name == a.symbols@[i].new_name
    } by {
        let x = b.symbols@[i];
    }
}

/// Every symbol that has a new name in `a` still has one in `b`.
pub open spec fn keeps_names(a: SymbolTable, b: SymbolTable) -> bool {
    a.symbols@.len() == b.symbols@.len() && forall|i: int|
        0 <= i < a.symbols@.len() && (#[trigger] a.symbols@[i]).new_name is Some ==> b.symbols@[i].new_name is Some
}

/// A symbol that scope renaming covers: not a field or struct type.
pub open spec fn scoped_kind(k: SymbolKind) -> bool {
    !(k is Field || k is StructType)
}

/// Every variable, parameter, function and block instance declared in
/// `scope` and in its descendants (up to `depth` levels down) is named.
pub open spec fn subtree_named(t: SymbolTable, scope: ScopeId, depth: nat) -> bool
    decreases depth,
{
    scope < t.scopes@.len() ==> {
        &&& forall|k: int|
            0 <= k < t.scopes@[scope as int].symbols@.len() ==> {
                let sym = #[trigger] t.scopes@[scope as int].symbols@[k];
                sym < t.symbols@.len() && scoped_kind(t.symbols@[sym as int].kind) ==> symbol_named(t, sym)
            }
        &&& depth > 0 ==> forall|c: int|
            0 <= c < t.scopes@[scope as int].children@.len() ==> subtree_named(
                t,
                #[trigger] t.scopes@[scope as int].children@[c],
                (depth - 1) as nat,
            )
    }
}

proof fn lemma_same_shape(o: SymbolTable, a: SymbolTable, b: SymbolTable)
    requires
        renames_only_unpinned(o, a),
        renames_only_unpinned(o, b),
    ensures
        a.scopes == b.scopes,
        a.symbols@.len() == b.symbols@.len(),
        forall|i: int| 0 <= i < a.symbols@.len() ==> (#[trigger] b.symbols@[i]).kind == a.symbols@[i].kind && b.symbols@[i].pinned
            == a.symbols@[i].pinned,
{
    assert forall|i: int| 0 <= i < a.symbols@.len() implies (#[trigger] b.symbols@[i]).kind == a.symbols@[i].kind
        && b.symbols@[i].pinned == a.symbols@[i].pinned by {
        let x = o.symbols@[i];
    }
}

proof fn lemma_subtree_named_keeps(a: SymbolTable, b: SymbolTable, scope: ScopeId, depth: nat)
    requires
        subtree_named(a, scope, depth),
        keeps_names(a, b),
        a.scopes == b.scopes,
        forall|i: int| 0 <= i < a.symbols@.len() ==> (#[trigger] b.symbols@[i]).kind == a.symbols@[i].kind && b.symbols@[i].pinned
            == a.symbols@[i].pinned,
    ensures
        subtree_named(b, scope, depth),
    decreases depth,
{
    if scope < b.scopes@.len() {
        assert forall|k: int| 0 <= k < b.scopes@[scope as int].symbols@.len() implies {
            let sym = #[trigger] b.scopes@[scope as int].symbols@[k];
            sym < b.symbols@.len() && scoped_kind(b.symbols@[sym as int].kind) ==> symbol_named(b, sym)
        } by {
            let sym = a.scopes@[scope as int].symbols@[k];
            if sym < b.symbols@.len() {
                assert(b.symbols@[sym as int].kind == a.symbols@[sym as int].kind);
            }
        }
        if depth > 0 {
            assert forall|c: int| 0 <= c < b.scopes@[scope as int].children@.len() implies subtree_named(
                b,
                #[trigger] b.scopes@[scope as int].children@[c],
                (depth - 1) as nat,
            ) by {
                lemma_subtree_named_keeps(a, b, a.scopes@[scope as int].children@[c], (depth - 1) as nat);
            }
        }
    }
}

/// Symbol `fs` is named: where it is a symbol of the table, it is pinned or
/// has a new name.
pub open spec fn symbol_named(t: SymbolTable, fs: SymbolId) -> bool {
    fs < t.symbols@.len() ==> (t.symbols@[fs as int].pinned is Some || t.symbols@[fs as int].new_name is Some)
}

/// `n` is none of the names `t` keeps: no name of its pinned set and not
/// the name of a pinned symbol other than a struct member.
pub open spec fn avoids_pinned(t: SymbolTable, n: Seq<char>) -> bool {
    &&& !t.pinned_names@.contains(n)
    &&& forall|j: int|
        0 <= j < t.symbols@.len() && (#[trigger] t.symbols@[j]).pinned is Some && !(t.symbols@[j].kind is Field)
            ==> t.symbols@[j].name@ != n
}

/// Some name `t` keeps, or some keyword or built-in function name, is as
/// long as the longest string the machine can index.
pub open spec fn overlong_kept(t: SymbolTable) -> bool {
    ||| exists|x: Seq<char>| #[trigger] t.pinned_names@.contains(x) && x.len() >= usize::MAX
    ||| exists|j: int|
        0 <= j < t.symbols@.len() && (#[trigger] t.symbols@[j]).pinned is Some && !(t.symbols@[j].kind is Field)
            && t.symbols@[j].name@.len() >= usize::MAX
    ||| exists|k: int| 0 <= k < keyword_words().len() && (#[trigger] keyword_words()[k]).len() >= usize::MAX
    ||| exists|k: int| 0 <= k < function_words().len() && (#[trigger] function_words()[k]).len() >= usize::MAX
}

/// Every new name that `after` gives where `before` had another is no
/// keyword, reserved word, built-in function or `main`, and, but for a
/// struct member, none of the names `before` keeps. (Should a kept name or
/// a word of the language be as long as the machine allows, no such name
/// could be made.)
pub open spec fn new_names_avoid_kept(before: SymbolTable, after: SymbolTable) -> bool {
    forall|i: int|
        0 <= i < before.symbols@.len() && i < after.symbols@.len() ==> {
            let y = #[trigger] after.symbols@[i];
            ||| y.new_name == before.symbols@[i].new_name
            ||| overlong_kept(before)
            ||| y.new_name matches Some(n) && !spec_never_generate(n@) && (is_struct_field(before, i) || avoids_pinned(before, n@))
        }
}

/// No symbol other than a struct type that `after` names anew is printed
/// like a struct type that the renamer names, unless it has a
/// three-character name of the last-resort sequence.
pub open spec fn type_names_unshared(before: SymbolTable, after: SymbolTable) -> bool {
    forall|i: int, j: int|
        renamed_type(after, i) && 0 <= j < after.symbols@.len() && j < before.symbols@.len()
            && after.symbols@[j].kind != SymbolKind::StructType
            && #[trigger] after.symbols@[j].new_name != before.symbols@[j].new_name
            ==> #[trigger] printed_name(after, i) != printed_name(after, j) || last_resort(printed_name(after, j))
}

proof fn lemma_subtree_named_mono(t: SymbolTable, s: ScopeId, d1: nat, d2: nat)
    requires
        subtree_named(t, s, d1),
        d2 <= d1,
    ensures
        subtree_named(t, s, d2),
    decreases d2,
{
    if s < t.scopes@.len() && d2 > 0 {
        assert forall|c: int| 0 <= c < t.scopes@[s as int].children@.len() implies subtree_named(
            t,
            #[trigger] t.scopes@[s as int].children@[c],
            (d2 - 1) as nat,
        ) by {
            lemma_subtree_named_mono(t, t.scopes@[s as int].children@[c], (d1 - 1) as nat, (d2 - 1) as nat);
        }
    }
}

/// In a well-formed table every scope hangs below the global one: naming
/// the tree from the global scope `d` levels deep reaches scope `s` when
/// `s <= d`.
proof fn lemma_subtree_reach(t: SymbolTable, s: ScopeId, d: nat)
    requires
        symbol_table_wf(t),
        subtree_named(t, 0, d),
        s < t.scopes@.len(),
        s <= d,
    ensures
        subtree_named(t, s, (d - s) as nat),
    decreases s,
{
    if s > 0 {
        reveal(crate::scope::table_links);
        assert(crate::scope::parent_of(t, s as int) is Some);
        let p = t.scopes@[s as int].parent->0;
        assert(p < s);
        lemma_subtree_reach(t, p, d);
        assert(t.scopes@[p as int].children@.contains(s));
        let k = choose|k: int| 0 <= k < t.scopes@[p as int].children@.len() && t.scopes@[p as int].children@[k] == s;
        assert(subtree_named(t, t.scopes@[p as int].children@[k], (d - p - 1) as nat));
        lemma_subtree_named_mono(t, s, (d - p - 1) as nat, (d - s) as nat);
    }
}

/// On a well-formed table with no new names yet, a symbol other than a
/// struct member ends up pinned or renamed, never both.
pub open spec fn pinned_xor_renamed(before: SymbolTable, after: SymbolTable) -> bool {
    forall|i: int|
        0 <= i < before.symbols@.len() && i < 0xFFFF_FFFF && !((#[trigger] before.symbols@[i]).kind is Field) ==> (
        before.symbols@[i].pinned is Some <==> after.symbols@[i].new_name is None)
}

/// Symbol `x` of `t`'s scope `x.scope` may not hide the global symbol
/// `y`: shadowing is off, or that scope references `y`.
pub open spec fn must_not_hide(t: SymbolTable, x: int, y: int, shadowing: bool) -> bool {
    !shadowing || (t.symbols@[x].scope < t.scopes@.len() && t.scopes@[t.symbols@[x].scope as int].referenced@.contains(y as u32))
}

/// No variable, parameter, function or block instance outside the global
/// scope that `after` names anew is printed like a symbol of the global
/// scope other than a struct member that it may not hide (every one with
/// shadowing off, those its scope references with shadowing on), unless it
/// has a last-resort name. (Symbols are counted by `u32`, the last id
/// being left out; should a kept name or a word of the language be as long
/// as the machine allows, no name could be made.)
pub open spec fn globals_unshadowed(before: SymbolTable, after: SymbolTable, shadowing: bool) -> bool {
    forall|x: int, y: int|
        #![trigger before.symbols@[x], before.symbols@[y]]
        0 <= x < before.symbols@.len() && 0 <= y < before.symbols@.len() && scoped_kind(before.symbols@[x].kind)
            && before.symbols@[x].scope != 0 && renamed_anew(before, after, x) && before.symbols@[y].scope == 0
            && !(before.symbols@[y].kind is Field) && y < 0xFFFF_FFFF && must_not_hide(before, x, y, shadowing) ==> printed_name(after, x)
            != printed_name(after, y) || last_resort(printed_name(after, x)) || overlong_kept(before)
}

/// `globals_unshadowed` read off a finished table: no variable,
/// parameter, function or block instance outside the global scope that has
/// a new name is printed like a symbol of the global scope other than a
/// struct member that it may not hide, unless it has a last-resort name
/// (or no name could be made).
pub open spec fn table_unshadowed(t: SymbolTable, shadowing: bool) -> bool {
    forall|x: int, y: int|
        #![trigger t.symbols@[x], t.symbols@[y]]
        0 <= x < t.symbols@.len() && 0 <= y < t.symbols@.len() && scoped_kind(t.symbols@[x].kind) && t.symbols@[x].scope != 0
            && t.symbols@[x].new_name is Some && t.symbols@[y].scope == 0 && !(t.symbols@[y].kind is Field) && y < 0xFFFF_FFFF
            && must_not_hide(t, x, y, shadowing) ==> printed_name(t, x) != printed_name(t, y) || last_resort(printed_name(t, x))
            || overlong_kept(t)
}

/// No global variable, function or block instance that has a new name is
/// printed like another global symbol other than a struct member, unless
/// it has a last-resort name (or no name could be made).
pub open spec fn table_globals_distinct(t: SymbolTable) -> bool {
    forall|x: int, y: int|
        #![trigger t.symbols@[x], t.symbols@[y]]
        0 <= x < t.symbols@.len() && 0 <= y < t.symbols@.len() && x != y && scoped_kind(t.symbols@[x].kind) && t.symbols@[x].scope == 0
            && t.symbols@[x].new_name is Some && t.symbols@[y].scope == 0 && !(t.symbols@[y].kind is Field) && y < 0xFFFF_FFFF
            ==> printed_name(t, x) != printed_name(t, y) || last_resort(printed_name(t, x)) || overlong_kept(t)
}

proof fn lemma_table_unshadowed(before: SymbolTable, after: SymbolTable, shadowing: bool)
    requires
        unassigned(before),
        renames_only_unpinned(before, after),
        globals_unshadowed(before, after, shadowing),
        global_names_distinct(before, after),
    ensures
        table_unshadowed(after, shadowing),
        table_globals_distinct(after),
{
    if overlong_kept(before) {
        if exists|x: Seq<char>| #[trigger] before.pinned_names@.contains(x) && x.len() >= usize::MAX {
        } else if exists|j: int|
            0 <= j < before.symbols@.len() && (#[trigger] before.symbols@[j]).pinned is Some && !(before.symbols@[j].kind is Field)
                && before.symbols@[j].name@.len() >= usize::MAX {
            let j = choose|j: int|
                0 <= j < before.symbols@.len() && (#[trigger] before.symbols@[j]).pinned is Some && !(before.symbols@[j].kind is Field)
                    && before.symbols@[j].name@.len() >= usize::MAX;
            let a = after.symbols@[j];
        }
        assert(overlong_kept(after));
    }
    assert forall|x: int, y: int|
        #![trigger after.symbols@[x], after.symbols@[y]]
        0 <= x < after.symbols@.len() && 0 <= y < after.symbols@.len() && scoped_kind(after.symbols@[x].kind) && after.symbols@[x].scope != 0
            && after.symbols@[x].new_name is Some && after.symbols@[y].scope == 0 && !(after.symbols@[y].kind is Field) && y < 0xFFFF_FFFF
            && must_not_hide(after, x, y, shadowing) implies printed_name(after, x) != printed_name(after, y) || last_resort(printed_name(after, x))
            || overlong_kept(after) by {
        let bx = before.symbols@[x];
        let by_ = before.symbols@[y];
        assert(renamed_anew(before, after, x));
        assert(must_not_hide(before, x, y, shadowing));
    }
    assert forall|x: int, y: int|
        #![trigger after.symbols@[x], after.symbols@[y]]
        0 <= x < after.symbols@.len() && 0 <= y < after.symbols@.len() && x != y && scoped_kind(after.symbols@[x].kind)
            && after.symbols@[x].scope == 0 && after.symbols@[x].new_name is Some && after.symbols@[y].scope == 0 && !(
            after.symbols@[y].kind is Field) && y < 0xFFFF_FFFF implies printed_name(after, x) != printed_name(after, y) || last_resort(
            printed_name(after, x),
        ) || overlong_kept(after) by {
        let bx = before.symbols@[x];
        let by_ = before.symbols@[y];
        assert(renamed_anew(before, after, x));
    }
}

/// No global variable, function or block instance that `after` names anew
/// is printed like another global symbol other than a struct member,
/// unless it has a last-resort name. (Symbols are counted by `u32`, the
/// last id being left out; should a kept name or a word of the language be
/// as long as the machine allows, no name could be made.)
pub open spec fn global_names_distinct(before: SymbolTable, after: SymbolTable) -> bool {
    forall|x: int, y: int|
        #![trigger before.symbols@[x], before.symbols@[y]]
        0 <= x < before.symbols@.len() && 0 <= y < before.symbols@.len() && x != y && scoped_kind(before.symbols@[x].kind)
            && before.symbols@[x].scope == 0 && renamed_anew(before, after, x) && before.symbols@[y].scope == 0 && !(
            before.symbols@[y].kind is Field) && y < 0xFFFF_FFFF ==> printed_name(after, x) != printed_name(after, y) || last_resort(
            printed_name(after, x),
        ) || overlong_kept(before)
}

/// A well-formed table lists each symbol in its own scope, and children
/// after parents.
proof fn lemma_wf_scope_order(t: SymbolTable)
    requires
        symbol_table_wf(t),
    ensures
        scope_order(t),
{
    reveal(crate::scope::table_links);
    assert forall|s: int, j: int|
        0 <= s < t.scopes@.len() && 0 <= j < t.scopes@[s].symbols@.len() && (#[trigger] t.scopes@[s].symbols@[j]) < t.symbols@.len()
            implies t.symbols@[t.scopes@[s].symbols@[j] as int].scope == s by {
        assert(crate::scope::listed(t, s, j) == t.scopes@[s].symbols@[j]);
    }
    assert forall|s: int, j: int|
        0 <= s < t.scopes@.len() && 0 <= j < t.scopes@[s].children@.len() implies s < (#[trigger] t.scopes@[s].children@[j])
            && t.scopes@[s].children@[j] < t.scopes@.len() && t.scopes@[t.scopes@[s].children@[j] as int].referenced@.subset_of(
            t.scopes@[s].referenced@,
        ) by {
        let c = t.scopes@[s].children@[j] as int;
        assert(crate::scope::child_of(t, s, j) == c);
        assert(crate::scope::parent_of(t, c) == Some(s as u32));
        assert forall|x: u32| t.scopes@[c].referenced@.contains(x) implies t.scopes@[s].referenced@.contains(x) by {
            assert(crate::scope::parent_of(t, c) is Some);
        }
    }
}

/// Assign `new_name`s. `text` is the shader printed with placeholders: it
/// provides letter and bigram statistics.
pub fn assign(table: &mut SymbolTable, text: &str, scoring: Scoring, shadowing: bool)
    ensures
        renames_only_unpinned(*old(table), *final(table)),
        symbol_table_wf(*old(table)) ==> symbol_table_wf(*final(table)),
        subtree_named(*final(table), 0, old(table).scopes@.len() as nat),
        forall|d: int, k: int|
            0 <= d < old(table).structs@.len() && 0 <= k < old(table).structs@[d].fields@.len() ==> symbol_named(
                *final(table),
                #[trigger] old(table).structs@[d].fields@[k],
            ),
        forall|i: int|
            0 <= i < old(table).symbols@.len() && i < 0xFFFF_FFFF && (#[trigger] old(table).symbols@[i]).kind
                == SymbolKind::StructType ==> symbol_named(*final(table), i as SymbolId),
        new_names_avoid_kept(*old(table), *final(table)),
        members_declared_as_fields(*old(table)) ==> type_names_unshared(*old(table), *final(table)),
        symbol_table_wf(*old(table)) && unassigned(*old(table)) ==> pinned_xor_renamed(*old(table), *final(table)),
        symbol_table_wf(*old(table)) && unassigned(*old(table)) && members_declared_as_fields(*old(table)) ==> globals_unshadowed(
            *old(table),
            *final(table),
            shadowing,
        ),
        symbol_table_wf(*old(table)) && unassigned(*old(table)) && members_declared_as_fields(*old(table)) ==> table_unshadowed(
            *final(table),
            shadowing,
        ),
        symbol_table_wf(*old(table)) && unassigned(*old(table)) && members_declared_as_fields(*old(table)) ==> global_names_distinct(
            *old(table),
            *final(table),
        ),
        symbol_table_wf(*old(table)) && unassigned(*old(table)) && members_declared_as_fields(*old(table)) ==> table_globals_distinct(
            *final(table),
        ),
{
    let letters = letters_by_frequency(text);
    let mut forbidden = NameSet::new();
    forbidden.extend(&table.pinned_names);
    let mut i: usize = 0;
    while i < table.symbols.len()
        invariant
            *table == *old(table),
            table.pinned_names@.subset_of(forbidden@),
            forall|j: int|
                0 <= j < i && j < table.symbols@.len() && (#[trigger] table.symbols@[j]).pinned is Some && !(table.symbols@[j].kind is Field)
                    ==> forbidden@.contains(table.symbols@[j].name@),
            forall|x: Seq<char>| #[trigger] forbidden@.contains(x) ==> table.pinned_names@.contains(x) || exists|j: int|
                0 <= j < i && j < table.symbols@.len() && (#[trigger] table.symbols@[j]).pinned is Some && !(table.symbols@[j].kind is Field)
                    && table.symbols@[j].name@ == x,
        decreases table.symbols@.len() - i,
    {
        let is_field = match table.symbols[i].kind {
            SymbolKind::Field(_) => true,
            _ => false,
        };
        if table.symbols[i].pinned.is_some() && !is_field {
            forbidden.insert_str(table.symbols[i].name.as_str());
        }
        i = i + 1;
    }
    let mut r = Renamer {
        letters,
        forbidden,
        scoring,
        shadowing,
        next_triple: 0,
        bigrams: Bigrams::new(text),
        lex: Lexicon::new(),
    };
    let mut pool = r.initial_pool();
    proof {
        r.lemma_pool_good(pool@, (r.letters@.len() + r.letters@.len() * (r.letters@.len() + 10)) as int);
        lemma_letters_distinct(r.letters@);
        let n = (r.letters@.len() + r.letters@.len() * (r.letters@.len() + 10)) as int;
        r.lemma_pool_distinct(n);
        let m = pool@.map_values(|x: String| x@);
        assert forall|a: int, b: int|
            #![trigger pool@[a], pool@[b]]
            0 <= a < pool@.len() && 0 <= b < pool@.len() && a != b && !last_resort(pool@[a]@) implies pool@[a]@ != pool@[b]@ by {
            assert(m[a] == pool@[a]@);
            assert(m[b] == pool@[b]@);
        }
    }
    let ghost t0 = *table;
    r.reserve_type_names(table, &mut pool);
    let ghost t1 = *table;
    let depth = table.scopes.len();
    let no_live: Vec<(SymbolId, String)> = Vec::new();
    proof {
        if symbol_table_wf(t0) {
            lemma_wf_scope_order(t0);
            lemma_scope_order_keeps(t0, t1);
        }
        assert(pool_apart(pool@, no_live@));
    }
    r.visit_scope(table, 0, pool, no_live, depth);
    let ghost t2 = *table;
    r.fields(table);
    proof {
        lemma_same_shape(t1, t1, t2);
        lemma_same_shape(t2, t2, *table);
        lemma_subtree_named_keeps(t2, *table, 0, depth as nat);
        assert forall|i: int|
            0 <= i < t0.symbols@.len() && i < 0xFFFF_FFFF && (#[trigger] t0.symbols@[i]).kind == SymbolKind::StructType
                implies symbol_named(*table, i as SymbolId) by {
            assert(symbol_named(t1, i as SymbolId));
            assert(t1.symbols@[i].pinned == t2.symbols@[i].pinned);
            assert(t2.symbols@[i].pinned == table.symbols@[i].pinned);
        }
    }
    proof {
        if symbol_table_wf(*old(table)) {
            law_renaming_keeps_table_wf(*old(table), *table);
            if unassigned(*old(table)) {
                let t_old = *old(table);
                let t_new = *table;
                assert forall|i: int|
                    0 <= i < t_old.symbols@.len() && i < 0xFFFF_FFFF && !((#[trigger] t_old.symbols@[i]).kind is Field) implies (
                    t_old.symbols@[i].pinned is Some <==> t_new.symbols@[i].new_name is None) by {
                    let x = t_old.symbols@[i];
                    let y = t_new.symbols@[i];
                    assert(x.new_name is None);
                    if x.pinned is Some {
                        assert(y.new_name == x.new_name);
                    } else if x.kind == SymbolKind::StructType {
                        assert(symbol_named(t_new, i as SymbolId));
                    } else {
                        reveal(crate::scope::table_links);
                        let sc = x.scope;
                        assert(sc < t_old.scopes@.len());
                        let j = choose|j: int| 0 <= j < t_old.scopes@[sc as int].symbols@.len() && #[trigger] crate::scope::listed(t_old, sc as int, j) == i;
                        assert(t_new.scopes == t_old.scopes);
                        assert(sc <= t_old.scopes@.len());
                        lemma_subtree_reach(t_new, sc, t_old.scopes@.len() as nat);
                        assert(t_new.scopes@[sc as int].symbols@[j] == i);
                        assert(scoped_kind(t_new.symbols@[i].kind));
                        assert(symbol_named(t_new, i as SymbolId));
                    }
                }
            }
        }
        if members_declared_as_fields(t0) {
            assert forall|i: int| 0 <= i < t0.symbols@.len() && is_struct_field(t0, i) implies (#[trigger] t0.symbols@[i]).kind is Field by {
                let (d, k) = choose|d: int, k: int|
                    0 <= d < t0.structs@.len() && 0 <= k < t0.structs@[d].fields@.len() && #[trigger] t0.structs@[d].fields@[k] == i;
                assert(t0.symbols@[t0.structs@[d].fields@[k] as int].kind is Field);
            }
            assert(members_are_fields(t0));
            assert forall|i: int| 0 <= i < t2.symbols@.len() && is_struct_field(t2, i) implies (#[trigger] t2.symbols@[i]).kind is Field by {
                let x = t0.symbols@[i];
                let y = t1.symbols@[i];
                assert(is_struct_field(t0, i));
            }
            lemma_avoids_chain(t1, t2, *table);
            assert forall|i: int, j: int|
                renamed_type(*table, i) && 0 <= j < table.symbols@.len() && j < t0.symbols@.len()
                    && table.symbols@[j].kind != SymbolKind::StructType
                    && #[trigger] table.symbols@[j].new_name != t0.symbols@[j].new_name
                    implies #[trigger] printed_name(*table, i) != printed_name(*table, j) || last_resort(printed_name(*table, j)) by {
                let x0 = t0.symbols@[j];
                let x1 = t1.symbols@[j];
                let n = printed_name(*table, j);
                lemma_same_types_spelling(t1, *table, n);
                if printed_name(*table, i) == n {
                    assert(type_spelling(*table, n));
                }
            }
        }
        let fs = r.forbidden@;
        lemma_good_names_chain(t0, t1, t2, fs);
        lemma_good_names_chain(t0, t2, *table, fs);
        assert forall|i: int| 0 <= i < t0.symbols@.len() && i < table.symbols@.len() implies {
            let y = #[trigger] table.symbols@[i];
            ||| y.new_name == t0.symbols@[i].new_name
            ||| overlong_kept(t0)
            ||| y.new_name matches Some(n) && !spec_never_generate(n@) && (is_struct_field(t0, i) || avoids_pinned(t0, n@))
        } by {
            let y = table.symbols@[i];
            lemma_struct_field_same(t0, *table, i);
            if overlong_words(fs) {
                if exists|x: Seq<char>| #[trigger] fs.contains(x) && x.len() >= usize::MAX {
                    let x = choose|x: Seq<char>| #[trigger] fs.contains(x) && x.len() >= usize::MAX;
                    if !t0.pinned_names@.contains(x) {
                        let j = choose|j: int|
                            0 <= j < t0.symbols@.len() && (#[trigger] t0.symbols@[j]).pinned is Some && !(t0.symbols@[j].kind is Field)
                                && t0.symbols@[j].name@ == x;
                    }
                }
                assert(overlong_kept(t0));
            }
            if y.new_name != t0.symbols@[i].new_name && !overlong_words(fs) {
                let n = y.new_name->0;
                if !is_struct_field(t0, i) {
                    assert(!fs.contains(n@));
                    assert forall|j: int|
                        0 <= j < t0.symbols@.len() && (#[trigger] t0.symbols@[j]).pinned is Some && !(t0.symbols@[j].kind is Field)
                            implies t0.symbols@[j].name@ != n@ by {
                        assert(fs.contains(t0.symbols@[j].name@));
                    }
                }
            }
        }
    }
    proof {
        let t3 = *table;
        if symbol_table_wf(t0) && unassigned(t0) && members_declared_as_fields(t0) {
            assert(new_names_avoid_kept(t0, t3));
            assert(type_names_unshared(t0, t3));
            assert(pinned_xor_renamed(t0, t3));
            assert(!shadowing ==> locals_avoid_globals(t1, t2));
            assert(referenced_globals_apart(t1, t2));
            assert forall|x: int, y: int|
                #![trigger t0.symbols@[x], t0.symbols@[y]]
                0 <= x < t0.symbols@.len() && 0 <= y < t0.symbols@.len() && scoped_kind(t0.symbols@[x].kind)
                    && t0.symbols@[x].scope != 0 && renamed_anew(t0, t3, x) && t0.symbols@[y].scope == 0
                    && !(t0.symbols@[y].kind is Field) && y < 0xFFFF_FFFF && must_not_hide(t0, x, y, shadowing) implies printed_name(t3, x) != printed_name(t3, y) || last_resort(
                    printed_name(t3, x),
                ) || overlong_kept(t0) by {
                let x0 = t0.symbols@[x];
                let y0 = t0.symbols@[y];
                let x1 = t1.symbols@[x];
                let y1 = t1.symbols@[y];
                let x2 = t2.symbols@[x];
                let y2 = t2.symbols@[y];
                let x3 = t3.symbols@[x];
                let y3 = t3.symbols@[y];
                lemma_struct_field_same(t0, t2, x);
                lemma_struct_field_same(t0, t2, y);
                if is_struct_field(t0, x) {
                    let (d, k) = choose|d: int, k: int|
                        0 <= d < t0.structs@.len() && 0 <= k < t0.structs@[d].fields@.len() && #[trigger] t0.structs@[d].fields@[k] == x;
                    assert(t0.symbols@[t0.structs@[d].fields@[k] as int].kind is Field);
                }
                if is_struct_field(t0, y) {
                    let (d, k) = choose|d: int, k: int|
                        0 <= d < t0.structs@.len() && 0 <= k < t0.structs@[d].fields@.len() && #[trigger] t0.structs@[d].fields@[k] == y;
                    assert(t0.symbols@[t0.structs@[d].fields@[k] as int].kind is Field);
                }
                assert(x3.new_name == x2.new_name);
                assert(y3.new_name == y2.new_name);
                assert(x1.new_name == x0.new_name);
                if y0.pinned is Some {
                    assert(y3.new_name == y0.new_name);
                } else if y0.kind == SymbolKind::StructType {
                    assert(renamed_type(t3, y));
                    assert(t3.symbols@[x].new_name != t0.symbols@[x].new_name);
                } else {
                    assert(y1.new_name == y0.new_name);
                    assert(t3.symbols@[y].new_name is Some);
                    assert(renamed_anew(t1, t2, x));
                    assert(renamed_anew(t1, t2, y));
                    assert(t1.symbols@[x].scope != 0);
                    assert(t1.scopes == t0.scopes);
                }
            }
            assert(globals_apart(t1, t2));
            assert forall|x: int, y: int|
                #![trigger t0.symbols@[x], t0.symbols@[y]]
                0 <= x < t0.symbols@.len() && 0 <= y < t0.symbols@.len() && x != y && scoped_kind(t0.symbols@[x].kind)
                    && t0.symbols@[x].scope == 0 && renamed_anew(t0, t3, x) && t0.symbols@[y].scope == 0 && !(
                    t0.symbols@[y].kind is Field) && y < 0xFFFF_FFFF implies printed_name(t3, x) != printed_name(t3, y) || last_resort(
                    printed_name(t3, x),
                ) || overlong_kept(t0) by {
                let x0 = t0.symbols@[x];
                let y0 = t0.symbols@[y];
                let x1 = t1.symbols@[x];
                let y1 = t1.symbols@[y];
                let x2 = t2.symbols@[x];
                let y2 = t2.symbols@[y];
                let x3 = t3.symbols@[x];
                let y3 = t3.symbols@[y];
                lemma_struct_field_same(t0, t2, x);
                lemma_struct_field_same(t0, t2, y);
                if is_struct_field(t0, x) {
                    let (d, k) = choose|d: int, k: int|
                        0 <= d < t0.structs@.len() && 0 <= k < t0.structs@[d].fields@.len() && #[trigger] t0.structs@[d].fields@[k] == x;
                    assert(t0.symbols@[t0.structs@[d].fields@[k] as int].kind is Field);
                }
                if is_struct_field(t0, y) {
                    let (d, k) = choose|d: int, k: int|
                        0 <= d < t0.structs@.len() && 0 <= k < t0.structs@[d].fields@.len() && #[trigger] t0.structs@[d].fields@[k] == y;
                    assert(t0.symbols@[t0.structs@[d].fields@[k] as int].kind is Field);
                }
                assert(x3.new_name == x2.new_name);
                assert(y3.new_name == y2.new_name);
                assert(x1.new_name == x0.new_name);
                if y0.pinned is Some {
                    assert(y3.new_name == y0.new_name);
                } else if y0.kind == SymbolKind::StructType {
                    assert(renamed_type(t3, y));
                    assert(t3.symbols@[x].new_name != t0.symbols@[x].new_name);
                } else {
                    assert(y1.new_name == y0.new_name);
                    assert(t3.symbols@[y].new_name is Some);
                    assert(renamed_anew(t1, t2, x));
                    assert(renamed_anew(t1, t2, y));
                }
            }
            lemma_table_unshadowed(t0, t3, shadowing);
        }
    }
}

/// Replace every placeholder by the symbol's new name (or its original
/// name when it has none).
pub fn apply(tu: &mut TranslationUnit, table: &SymbolTable)
    ensures
        final(tu).0.0@.len() == old(tu).0.0@.len(),
        walked_unit(*old(tu), *final(tu), NameRel::Rename(Some((*table, false)))),
{
    let mut op = NameOp::Rename(table, false);
    walk_unit(tu, &mut op);
}

/// Replace only the placeholders of pinned symbols by their (unchanged)
/// names, so the text used for statistics shows them as they will be
/// printed.
pub fn apply_pinned(tu: &mut TranslationUnit, table: &SymbolTable)
    ensures
        final(tu).0.0@.len() == old(tu).0.0@.len(),
        walked_unit(*old(tu), *final(tu), NameRel::Rename(Some((*table, true)))),
{
    let mut op = NameOp::Rename(table, true);
    walk_unit(tu, &mut op);
}

} // verus!
