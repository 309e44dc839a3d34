//! Character-level pieces of the GLSL grammar: blanks and comments,
//! keywords, identifiers, number literals and directive text.
use vstd::prelude::*;
use crate::syntax::Decimal;
use vstd::arithmetic::power::pow;
use crate::text::{matches_str_at, string_of};

verus! {

/// A failed parse: where it happened, and whether it is final (`fatal`: the
/// grammar committed to the construct, so no alternative is tried).
#[derive(Debug, Clone, Copy, PartialEq, Eq)]
pub struct PErr {
    pub pos: usize,
    pub fatal: bool,
}

/// A successful parse result ends inside the input, at or after `i`.
pub open spec fn within<T>(r: Result<(T, usize), PErr>, i: usize, n: int) -> bool {
    r matches Ok(x) ==> i <= x.1 <= n
}

/// A successful parse result ends inside the input, after `i`.
pub open spec fn consumed<T>(r: Result<(T, usize), PErr>, i: usize, n: int) -> bool {
    r matches Ok(x) ==> i < x.1 <= n
}

pub(crate) fn soft(pos: usize) -> (e: PErr)
    ensures
        e.pos == pos,
        !e.fatal,
{
    PErr { pos, fatal: false }
}

pub(crate) fn hard(pos: usize) -> (e: PErr)
    ensures
        e.pos == pos,
        e.fatal,
{
    PErr { pos, fatal: true }
}

/// `cut`: a failure inside a committed construct is final.
pub(crate) fn cut(e: PErr) -> (r: PErr)
    ensures
        r.pos == e.pos,
        r.fatal,
{
    PErr { pos: e.pos, fatal: true }
}

/// Characters of identifiers and keywords: ASCII letters, digits, `_`.
pub open spec fn is_ident_char(c: char) -> bool {
    ('a' <= c && c <= 'z') || ('A' <= c && c <= 'Z') || ('0' <= c && c <= '9') || c == '_'
}

pub(crate) fn ident_char(c: char) -> (r: bool)
    ensures
        r == is_ident_char(c),
{
    ('a' <= c && c <= 'z') || ('A' <= c && c <= 'Z') || ('0' <= c && c <= '9') || c == '_'
}

pub open spec fn is_digit(c: char) -> bool {
    '0' <= c && c <= '9'
}

/// Whether `s` has character `c` at `i`.
pub(crate) fn at(s: &[char], i: usize, c: char) -> (r: bool)
    ensures
        r == (i < s@.len() && s@[i as int] == c),
        s@.len() <= usize::MAX,
{
    i < s.len() && s[i] == c
}

/// `tag`: the text `t` at `i`; the position after it.
pub(crate) fn tag(s: &[char], i: usize, t: &str) -> (r: Option<usize>)
    requires
        i <= s@.len(),
    ensures
        r matches Some(j) ==> j == i + t@.len() && i < j <= s@.len(),
        r is Some <==> (t@.len() > 0 && i + t@.len() <= s@.len() && s@.subrange(i as int, i + t@.len())
            == t@),
{
    let _len = s.len();
    let n = t.unicode_len();
    if n > 0 && matches_str_at(s, i, t) {
        Some(i + n)
    } else {
        None
    }
}

/// `keyword`: the word `kw` at `i`, not followed by an identifier character.
pub(crate) fn keyword(s: &[char], i: usize, kw: &str) -> (r: Option<usize>)
    requires
        i <= s@.len(),
    ensures
        r matches Some(j) ==> j == i + kw@.len() && i < j <= s@.len(),
        r is Some <==> (kw@.len() > 0 && i + kw@.len() <= s@.len() && s@.subrange(i as int, i + kw@.len()) == kw@
            && !(i + kw@.len() < s@.len() && is_ident_char(s@[i + kw@.len()]))),
{
    match tag(s, i, kw) {
        Some(j) => {
            if j < s.len() && ident_char(s[j]) {
                None
            } else {
                Some(j)
            }
        },
        None => None,
    }
}

/// Whitespace characters of the source.
pub open spec fn is_white(c: char) -> bool {
    c == ' ' || c == '\t' || c == '\r' || c == '\n'
}

/// A backslash-newline pair at `j`.
pub open spec fn continuation_at(s: Seq<char>, j: int) -> bool {
    0 <= j && j + 1 < s.len() && s[j] == '\\' && s[j + 1] == '\n'
}

/// Where the whitespace and backslash-newline pairs from `j` end.
pub open spec fn blank_space_end(s: Seq<char>, j: int) -> int
    decreases s.len() - j,
{
    if 0 <= j < s.len() && is_white(s[j]) {
        blank_space_end(s, j + 1)
    } else if continuation_at(s, j) {
        blank_space_end(s, j + 2)
    } else {
        j
    }
}

/// Where the spaces and tabs from `j` end.
pub open spec fn space0_end(s: Seq<char>, j: int) -> int
    decreases s.len() - j,
{
    if 0 <= j < s.len() && (s[j] == ' ' || s[j] == '\t') {
        space0_end(s, j + 1)
    } else {
        j
    }
}

/// Where the spaces, tabs and backslash-newline pairs from `j` end.
pub open spec fn pp_space0_end(s: Seq<char>, j: int) -> int
    decreases s.len() - j,
{
    if 0 <= j < s.len() && (s[j] == ' ' || s[j] == '\t') {
        pp_space0_end(s, j + 1)
    } else if continuation_at(s, j) {
        pp_space0_end(s, j + 2)
    } else {
        j
    }
}

/// `blank_space`: whitespace and backslash-newline pairs.
pub(crate) fn blank_space(s: &[char], i: usize) -> (r: usize)
    requires
        i <= s@.len(),
    ensures
        i <= r <= s@.len(),
        r == blank_space_end(s@, i as int),
{
    let mut j = i;
    while j < s.len()
        invariant
            i <= j <= s@.len(),
            blank_space_end(s@, j as int) == blank_space_end(s@, i as int),
        ensures
            i <= j <= s@.len(),
            blank_space_end(s@, j as int) == blank_space_end(s@, i as int),
            blank_space_end(s@, j as int) == j as int,
        decreases s@.len() - j,
    {
        let c = s[j];
        if c == ' ' || c == '\t' || c == '\r' || c == '\n' {
            j = j + 1;
        } else if c == '\\' && j + 1 < s.len() && s[j + 1] == '\n' {
            j = j + 2;
        } else {
            assert(blank_space_end(s@, j as int) == j as int);
            break;
        }
    }
    j
}

/// `space0`: spaces and tabs.
pub(crate) fn space0(s: &[char], i: usize) -> (r: usize)
    requires
        i <= s@.len(),
    ensures
        i <= r <= s@.len(),
        r == space0_end(s@, i as int),
{
    let mut j = i;
    while j < s.len() && (s[j] == ' ' || s[j] == '\t')
        invariant
            i <= j <= s@.len(),
            space0_end(s@, j as int) == space0_end(s@, i as int),
        decreases s@.len() - j,
    {
        j = j + 1;
    }
    j
}

/// `pp_space0`: spaces, tabs and backslash-newline pairs.
pub(crate) fn pp_space0(s: &[char], i: usize) -> (r: usize)
    requires
        i <= s@.len(),
    ensures
        i <= r <= s@.len(),
        r == pp_space0_end(s@, i as int),
{
    let mut j = i;
    while j < s.len()
        invariant
            i <= j <= s@.len(),
            pp_space0_end(s@, j as int) == pp_space0_end(s@, i as int),
        ensures
            i <= j <= s@.len(),
            pp_space0_end(s@, j as int) == pp_space0_end(s@, i as int),
            pp_space0_end(s@, j as int) == j as int,
        decreases s@.len() - j,
    {
        if s[j] == ' ' || s[j] == '\t' {
            j = j + 1;
        } else if s[j] == '\\' && j + 1 < s.len() && s[j + 1] == '\n' {
            j = j + 2;
        } else {
            assert(pp_space0_end(s@, j as int) == j as int);
            break;
        }
    }
    j
}

/// The position after the end of the input or a line ending at `i`.
pub open spec fn line_end(s: Seq<char>, i: int) -> Option<usize> {
    if i == s.len() {
        Some(i as usize)
    } else if 0 <= i < s.len() && s[i] == '\n' {
        Some((i + 1) as usize)
    } else if 0 <= i < s.len() && s[i] == '\r' && i + 1 < s.len() && s[i + 1] == '\n' {
        Some((i + 2) as usize)
    } else {
        None
    }
}

/// `eol`: the end of the input, or a line ending (`\n` or `\r\n`); the
/// position after it.
pub(crate) fn eol(s: &[char], i: usize) -> (r: Option<usize>)
    requires
        i <= s@.len(),
    ensures
        r matches Some(j) ==> i <= j <= s@.len(),
        r is None ==> i < s@.len(),
        r == line_end(s@, i as int),
        r == (if i == s@.len() {
            Some(i)
        } else if s@[i as int] == '\n' {
            Some((i + 1) as usize)
        } else if s@[i as int] == '\r' && i + 1 < s@.len() && s@[i + 1] == '\n' {
            Some((i + 2) as usize)
        } else {
            None::<usize>
        }),
{
    if i == s.len() {
        Some(i)
    } else if s[i] == '\n' {
        Some(i + 1)
    } else if s[i] == '\r' && i + 1 < s.len() && s[i + 1] == '\n' {
        Some(i + 2)
    } else {
        None
    }
}

/// `str_till_eol`: the text up to the end of the line (a backslash-newline
/// continues it). Returns where the text ends and where the next line
/// starts; the text keeps a `\r` of a `\r\n` ending.
pub(crate) fn str_till_eol(s: &[char], i: usize) -> (r: (usize, usize))
    requires
        i <= s@.len(),
    ensures
        i <= r.0 <= r.1 <= s@.len(),
{
    let mut j = i;
    loop
        invariant
            i <= j <= s@.len(),
        decreases s@.len() - j,
    {
        match eol(s, j) {
            Some(k) => {
                if k > j && s[k - 1] == '\n' {
                    return (k - 1, k);
                }
                return (k, k);
            },
            None => {},
        }
        if s[j] == '\\' && j + 1 < s.len() && s[j + 1] == '\n' {
            j = j + 2;
        } else {
            j = j + 1;
        }
    }
}

/// `take_until`: the position of the first occurrence of `c` at or after `i`.
pub(crate) fn take_until(s: &[char], i: usize, c: char) -> (r: Option<usize>)
    requires
        i <= s@.len(),
    ensures
        r matches Some(j) ==> i <= j < s@.len() && s@[j as int] == c && forall|k: int| i <= k < j ==> s@[k] != c,
        r is None ==> forall|k: int| i <= k < s@.len() ==> s@[k] != c,
{
    let mut j = i;
    while j < s.len()
        invariant
            i <= j <= s@.len(),
            forall|k: int| i <= k < j ==> s@[k] != c,
        decreases s@.len() - j,
    {
        if s[j] == c {
            return Some(j);
        }
        j = j + 1;
    }
    None
}

/// `blank`: whitespace, then any number of comments each followed by
/// whitespace. An unterminated `/*` comment is a final failure.
/// A comment starts at `j`.
pub open spec fn comment_at(s: Seq<char>, j: int) -> bool {
    0 <= j && j + 1 < s.len() && s[j] == '/' && (s[j + 1] == '/' || s[j + 1] == '*')
}

/// A `*/` stands at `k`.
pub open spec fn closes_at(s: Seq<char>, k: int) -> bool {
    0 <= k && k + 1 < s.len() && s[k] == '*' && s[k + 1] == '/'
}

/// A `/*` comment starts at `j` and no `*/` closes it.
pub open spec fn unterminated_comment_at(s: Seq<char>, j: int) -> bool {
    0 <= j && j + 1 < s.len() && s[j] == '/' && s[j + 1] == '*' && forall|k: int| j + 2 <= k ==> !#[trigger] closes_at(s, k)
}

proof fn lemma_blank_space_end(s: Seq<char>, j: int)
    requires
        0 <= j <= s.len(),
    ensures
        j <= blank_space_end(s, j) <= s.len(),
        !(blank_space_end(s, j) < s.len() && is_white(s[blank_space_end(s, j)])),
        !continuation_at(s, blank_space_end(s, j)),
    decreases s.len() - j,
{
    if j < s.len() && is_white(s[j]) {
        lemma_blank_space_end(s, j + 1);
    } else if continuation_at(s, j) {
        lemma_blank_space_end(s, j + 2);
    }
}

pub(crate) fn blank(s: &[char], i: usize) -> (r: Result<usize, PErr>)
    requires
        i <= s@.len(),
    ensures
        r matches Ok(j) ==> i <= j <= s@.len() && !(j < s@.len() && is_white(s@[j as int])) && !continuation_at(s@, j as int)
            && !comment_at(s@, j as int),
        r matches Err(e) ==> e.fatal && i <= e.pos && unterminated_comment_at(s@, e.pos as int),
{
    let mut j = blank_space(s, i);
    proof { lemma_blank_space_end(s@, i as int); }
    loop
        invariant
            i <= j <= s@.len(),
            !(j < s@.len() && is_white(s@[j as int])),
            !continuation_at(s@, j as int),
        decreases s@.len() - j,
    {
        if at(s, j, '/') && at(s, j + 1, '/') {
            let (_, next) = str_till_eol(s, j + 2);
            proof { lemma_blank_space_end(s@, next as int); }
            j = blank_space(s, next);
        } else if at(s, j, '/') && at(s, j + 1, '*') {
            let mut k = j + 2;
            loop
                invariant
                    j + 2 <= k <= s@.len(),
                    i <= j,
                    j + 1 < s@.len(),
                    s@[j as int] == '/' && s@[j + 1] == '*',
                    forall|m: int| j + 2 <= m < k ==> !#[trigger] closes_at(s@, m),
                ensures
                    k + 2 <= s@.len(),
                decreases s@.len() - k,
            {
                if k >= s.len() || k + 1 >= s.len() {
                    return Err(hard(j));
                }
                if s[k] == '*' && s[k + 1] == '/' {
                    break;
                }
                k = k + 1;
            }
            proof { lemma_blank_space_end(s@, k + 2); }
            j = blank_space(s, k + 2);
        } else {
            return Ok(j);
        }
    }
}

/// Where the identifier characters from `j` end.
pub open spec fn ident_end(s: Seq<char>, j: int) -> int
    decreases s.len() - j,
{
    if 0 <= j < s.len() && is_ident_char(s[j]) {
        ident_end(s, j + 1)
    } else {
        j
    }
}

/// `identifier_str`: identifier characters, at least one, the first not a
/// digit; the position after them.
pub(crate) fn identifier_end(s: &[char], i: usize) -> (r: Option<usize>)
    requires
        i <= s@.len(),
    ensures
        r matches Some(j) ==> i < j <= s@.len() && (forall|k: int| i <= k < j ==> is_ident_char(s@[k])) && !(j < s@.len()
            && is_ident_char(s@[j as int])),
        r is Some <==> (i < s@.len() && is_ident_char(s@[i as int]) && !is_digit(s@[i as int])),
        r matches Some(j) ==> j == ident_end(s@, i as int),
{
    let mut j = i;
    while j < s.len() && ident_char(s[j])
        invariant
            i <= j <= s@.len(),
            forall|k: int| i <= k < j ==> is_ident_char(s@[k]),
            ident_end(s@, j as int) == ident_end(s@, i as int),
        decreases s@.len() - j,
    {
        j = j + 1;
    }
    if j == i || ('0' <= s[i] && s[i] <= '9') {
        None
    } else {
        Some(j)
    }
}

/// The characters `s[a..b]` as a string.
pub(crate) fn slice_string(s: &[char], a: usize, b: usize) -> (r: String)
    requires
        a <= b <= s@.len(),
    ensures
        r@ == s@.subrange(a as int, b as int),
{
    let mut v: Vec<char> = Vec::new();
    let mut k = a;
    while k < b
        invariant
            a <= k <= b,
            b <= s@.len(),
            v@ == s@.subrange(a as int, k as int),
        decreases b - k,
    {
        v.push(s[k]);
        k = k + 1;
        assert(v@ =~= s@.subrange(a as int, k as int));
    }
    string_of(v.as_slice())
}

/// An identifier; the identifier and the position after it.
pub(crate) fn identifier(s: &[char], i: usize) -> (r: Result<(String, usize), PErr>)
    requires
        i <= s@.len(),
    ensures
        consumed(r, i, s@.len() as int),
        r matches Ok(x) ==> x.0@ == s@.subrange(i as int, x.1 as int) && (forall|k: int| i <= k < x.1 ==> is_ident_char(s@[k]))
            && !(x.1 < s@.len() && is_ident_char(s@[x.1 as int])),
        r is Ok <==> (i < s@.len() && is_ident_char(s@[i as int]) && !is_digit(s@[i as int])),
        r matches Ok(x) ==> x.1 == ident_end(s@, i as int),
        r matches Err(e) ==> e.pos == i && !e.fatal,
{
    match identifier_end(s, i) {
        Some(j) => Ok((slice_string(s, i, j), j)),
        None => Err(soft(i)),
    }
}

/// Where the digits from `j` end.
pub open spec fn digit_run_end(s: Seq<char>, j: int) -> int
    decreases s.len() - j,
{
    if 0 <= j < s.len() && is_digit(s[j]) {
        digit_run_end(s, j + 1)
    } else {
        j
    }
}

/// Digits `0-9` from `i`, at least one; the position after them.
pub(crate) fn digits_end(s: &[char], i: usize) -> (r: Option<usize>)
    requires
        i <= s@.len(),
    ensures
        r matches Some(j) ==> j == digit_run_end(s@, i as int),
        r matches Some(j) ==> i < j <= s@.len() && (forall|k: int| i <= k < j ==> is_digit(s@[k])) && !(j < s@.len()
            && is_digit(s@[j as int])),
        r is Some <==> (i < s@.len() && is_digit(s@[i as int])),
{
    let mut j = i;
    while j < s.len() && '0' <= s[j] && s[j] <= '9'
        invariant
            i <= j <= s@.len(),
            forall|k: int| i <= k < j ==> is_digit(s@[k]),
            digit_run_end(s@, j as int) == digit_run_end(s@, i as int),
        decreases s@.len() - j,
    {
        j = j + 1;
    }
    if j == i {
        None
    } else {
        Some(j)
    }
}

/// Value of the digit character `c` in base 16 (`None` for other characters).
pub open spec fn spec_hex_value(c: char) -> Option<u32> {
    if '0' <= c && c <= '9' {
        Some((c as u32 - '0' as u32) as u32)
    } else if 'a' <= c && c <= 'f' {
        Some((c as u32 - 'a' as u32 + 10) as u32)
    } else if 'A' <= c && c <= 'F' {
        Some((c as u32 - 'A' as u32 + 10) as u32)
    } else {
        None
    }
}

pub(crate) fn hex_value(c: char) -> (r: Option<u32>)
    ensures
        r matches Some(v) ==> v < 16,
        r == spec_hex_value(c),
{
    if '0' <= c && c <= '9' {
        Some((c as u32) - ('0' as u32))
    } else if 'a' <= c && c <= 'f' {
        Some((c as u32) - ('a' as u32) + 10)
    } else if 'A' <= c && c <= 'F' {
        Some((c as u32) - ('A' as u32) + 10)
    } else {
        None
    }
}

/// Every character of `s[a..b]` is a digit of `base`.
pub open spec fn all_digits_of(s: Seq<char>, a: int, b: int, base: int) -> bool {
    forall|k: int| a <= k < b ==> ((#[trigger] spec_hex_value(s[k])) matches Some(d) && d < base)
}

/// The number that the digits `s[a..b]` write in `base`.
pub open spec fn digits_value(s: Seq<char>, a: int, b: int, base: int) -> int
    decreases b - a,
{
    if b <= a {
        0
    } else {
        digits_value(s, a, b - 1, base) * base + (match spec_hex_value(s[b - 1]) {
            Some(d) => d as int,
            None => 0,
        })
    }
}

pub(crate) proof fn lemma_digits_value_grows(s: Seq<char>, a: int, k: int, b: int, base: int)
    requires
        a <= k <= b,
        base >= 1,
    ensures
        0 <= digits_value(s, a, k, base) <= digits_value(s, a, b, base),
    decreases b - a,
{
    if b > k {
        lemma_digits_value_grows(s, a, k, b - 1, base);
        let v = digits_value(s, a, b - 1, base);
        assert(v * base >= v) by (nonlinear_arith)
            requires
                v >= 0,
                base >= 1,
        ;
    } else if b > a {
        lemma_digits_value_grows(s, a, b - 1, b - 1, base);
        let v = digits_value(s, a, b - 1, base);
        assert(v * base >= 0) by (nonlinear_arith)
            requires
                v >= 0,
                base >= 1,
        ;
    }
}

/// The number written by `s[a..b]` in `base` (8, 10 or 16), or `None` when a
/// character is not a digit of the base or the value does not fit in 32 bits.
pub(crate) fn radix_value(s: &[char], a: usize, b: usize, base: u32) -> (r: Option<u32>)
    requires
        a <= b <= s@.len(),
        2 <= base <= 16,
    ensures
        r == (if all_digits_of(s@, a as int, b as int, base as int) && digits_value(s@, a as int, b as int, base as int)
            <= 0xFFFF_FFFF {
            Some(digits_value(s@, a as int, b as int, base as int) as u32)
        } else {
            None::<u32>
        }),
{
    let mut v: u64 = 0;
    let mut k = a;
    while k < b
        invariant
            a <= k <= b,
            b <= s@.len(),
            v <= 0xFFFF_FFFF,
            2 <= base <= 16,
            v == digits_value(s@, a as int, k as int, base as int),
            all_digits_of(s@, a as int, k as int, base as int),
        decreases b - k,
    {
        proof { lemma_digits_value_grows(s@, a as int, k as int + 1, b as int, base as int); }
        match hex_value(s[k]) {
            Some(d) => {
                if d >= base {
                    assert(!all_digits_of(s@, a as int, b as int, base as int)) by {
                        assert(spec_hex_value(s@[k as int]) == Some(d));
                    }
                    return None;
                }
                assert(v * (base as u64) <= 0xFFFF_FFFF * 16) by (nonlinear_arith)
                    requires
                        v <= 0xFFFF_FFFF,
                        base <= 16,
                ;
                v = v * (base as u64) + (d as u64);
                if v > 0xFFFF_FFFF {
                    return None;
                }
            },
            None => {
                assert(!all_digits_of(s@, a as int, b as int, base as int)) by {
                    assert(spec_hex_value(s@[k as int]) is None);
                }
                return None;
            },
        }
        k = k + 1;
        assert(all_digits_of(s@, a as int, k as int, base as int));
    }
    Some(v as u32)
}

/// Letters and digits other than `u`/`U` (what a hex or octal literal
/// may span).
pub open spec fn is_alnum_no_u(c: char) -> bool {
    (('a' <= c && c <= 'z') || ('A' <= c && c <= 'Z') || ('0' <= c && c <= '9')) && c != 'u' && c != 'U'
}

pub(crate) fn alnum_no_u(c: char) -> (r: bool)
    ensures
        r == is_alnum_no_u(c),
{
    (('a' <= c && c <= 'z') || ('A' <= c && c <= 'Z') || ('0' <= c && c <= '9')) && c != 'u'
        && c != 'U'
}

/// Where the letters and digits other than `u`/`U` from `j` end.
pub open spec fn alnum_end(s: Seq<char>, j: int) -> int
    decreases s.len() - j,
{
    if 0 <= j < s.len() && is_alnum_no_u(s[j]) {
        alnum_end(s, j + 1)
    } else {
        j
    }
}

/// `s[a..b]` are octal digits, at least one, the first `0`.
pub open spec fn octal_run(s: Seq<char>, a: int, b: int) -> bool {
    a < b && s[a] == '0' && forall|k: int| a <= k < b ==> '0' <= #[trigger] s[k] && s[k] <= '7'
}

/// `s[a..b]` are hexadecimal digits, at least one.
pub open spec fn hex_run(s: Seq<char>, a: int, b: int) -> bool {
    a < b && forall|k: int| a <= k < b ==> (#[trigger] spec_hex_value(s[k])) is Some
}

/// The literal value of the digits `s[a..b]` in `base`, negated for a
/// leading `-`; `None` when it does not fit in 32 bits.
pub open spec fn literal_value(s: Seq<char>, a: int, b: int, base: int, neg: bool) -> Option<i32> {
    if all_digits_of(s, a, b, base) && digits_value(s, a, b, base) <= 0xFFFF_FFFF {
        let x = (digits_value(s, a, b, base) as u32) as i32;
        Some(if neg && x != i32::MIN { (-x) as i32 } else { x })
    } else {
        None
    }
}

/// A literal at `i` has a leading `-`.
pub open spec fn lit_neg(s: Seq<char>, i: int) -> bool {
    0 <= i < s.len() && s[i] == '-'
}

/// Where the digits of a literal at `i` start.
pub open spec fn lit_start(s: Seq<char>, i: int) -> int {
    if lit_neg(s, i) {
        i + 1
    } else {
        i
    }
}

/// Whether a literal starts at `i0` (after any `-`): an octal run, a
/// `0x` hexadecimal literal, or decimal digits not starting with `0`.
pub open spec fn integral_form(s: Seq<char>, i0: int) -> bool {
    i0 < s.len() && is_digit(s[i0]) && (octal_run(s, i0, alnum_end(s, i0)) || s[i0] != '0' || (i0 + 1 < s.len() && (s[i0
        + 1] == 'x' || s[i0 + 1] == 'X') && hex_run(s, i0 + 2, alnum_end(s, i0 + 2))))
}

/// The literal at `i0`: its end and value (see `integral_form`).
pub open spec fn integral_result(s: Seq<char>, i0: int, neg: bool, end: int, v: Option<i32>) -> bool {
    end <= s.len() && if octal_run(s, i0, alnum_end(s, i0)) {
        end == alnum_end(s, i0) && v == literal_value(s, i0, end, 8, neg)
    } else if s[i0] == '0' {
        end == alnum_end(s, i0 + 2) && v == literal_value(s, i0 + 2, end, 16, neg)
    } else {
        i0 < end && (forall|k: int| i0 <= k < end ==> is_digit(#[trigger] s[k])) && !(end < s.len() && is_digit(s[end]))
            && v == literal_value(s, i0, end, 10, neg)
    }
}

/// `integral_lit_try`: an optional `-`, then an octal, hexadecimal or
/// decimal literal. `Ok(None)` when the digits overflow 32 bits.
pub(crate) fn integral_lit_try(s: &[char], i: usize) -> (r: Result<(Option<i32>, usize), PErr>)
    requires
        i <= s@.len(),
    ensures
        consumed(r, i, s@.len() as int),
        r is Ok <==> integral_form(s@, lit_start(s@, i as int)),
        r matches Ok((v, end)) ==> integral_result(s@, lit_start(s@, i as int),
            lit_neg(s@, i as int), end as int, v),
{
    let neg = at(s, i, '-');
    let i0 = if neg { i + 1 } else { i };
    let _len = s.len();
    // octal: alphanumerics without `u`, a leading `0` and only octal digits
    let mut j = i0;
    while j < s.len() && alnum_no_u(s[j])
        invariant
            i0 <= j <= s@.len(),
            alnum_end(s@, j as int) == alnum_end(s@, i0 as int),
        decreases s@.len() - j,
    {
        j = j + 1;
    }
    assert(j == alnum_end(s@, i0 as int));
    let mut octal = j > i0 && s[i0] == '0';
    let mut k = i0;
    while k < j
        invariant
            i0 <= k <= j,
            j <= s@.len(),
            octal ==> j > i0,
            octal == (j > i0 && s@[i0 as int] == '0' && forall|m: int| i0 <= m < k ==> '0' <= #[trigger] s@[m] && s@[m] <= '7'),
        decreases j - k,
    {
        if !('0' <= s[k] && s[k] <= '7') {
            octal = false;
        }
        k = k + 1;
    }
    assert(octal == octal_run(s@, i0 as int, j as int));
    let value: Option<u32>;
    let end: usize;
    if octal {
        value = radix_value(s, i0, j, 8);
        end = j;
    } else if at(s, i0, '0') {
        // hexadecimal: `0x` or `0X` is then required
        if !(at(s, i0 + 1, 'x') || at(s, i0 + 1, 'X')) {
            return Err(hard(i0 + 1));
        }
        let h = i0 + 2;
        let mut e = h;
        while e < s.len() && alnum_no_u(s[e])
            invariant
                h <= e <= s@.len(),
                alnum_end(s@, e as int) == alnum_end(s@, h as int),
            decreases s@.len() - e,
        {
            e = e + 1;
        }
        assert(e == alnum_end(s@, h as int));
        if e == h {
            return Err(hard(h));
        }
        let mut all_hex = true;
        let mut k = h;
        while k < e
            invariant
                h <= k <= e,
                e <= s@.len(),
                all_hex == forall|m: int| h <= m < k ==> (#[trigger] spec_hex_value(s@[m])) is Some,
            decreases e - k,
        {
            if hex_value(s[k]).is_none() {
                all_hex = false;
            }
            k = k + 1;
        }
        if !all_hex {
            return Err(hard(h));
        }
        value = radix_value(s, h, e, 16);
        end = e;
    } else {
        match digits_end(s, i0) {
            Some(e) => {
                value = radix_value(s, i0, e, 10);
                end = e;
            },
            None => return Err(soft(i0)),
        }
    }
    match value {
        Some(v) => {
            let x: i32 = #[verifier::truncate] (v as i32);
            let x: i32 = if neg && x != i32::MIN { -x } else { x };
            Ok((Some(x), end))
        },
        None => Ok((None, end)),
    }
}

/// `integral_lit`: a signed integer literal; an overflowing literal is a
/// final failure, any other failure is not.
pub(crate) fn integral_lit(s: &[char], i: usize) -> (r: Result<(i32, usize), PErr>)
    requires
        i <= s@.len(),
    ensures
        consumed(r, i, s@.len() as int),
        r matches Ok((v, end)) ==> integral_form(s@, lit_start(s@, i as int)) && integral_result(s@, lit_start(s@, i as int), lit_neg(s@, i as int), end as int, Some(v)),
        r matches Err(e) ==> (e.fatal <==> integral_form(s@, lit_start(s@, i as int)) && integral_result(s@, lit_start(s@, i as int), lit_neg(s@, i as int), e.pos as int, None)),
        r is Err ==> !integral_form(s@, lit_start(s@, i as int)) || forall|end: int, v: i32| #[trigger] integral_result(s@, lit_start(s@, i as int), lit_neg(s@, i as int), end, Some(v)) ==> false,
{
    match integral_lit_try(s, i) {
        Ok((Some(v), j)) => Ok((v, j)),
        Ok((None, j)) => {
            proof {
                assert forall|end: int, w: i32| #[trigger] integral_result(s@, lit_start(s@, i as int), lit_neg(s@, i as int), end, Some(w))
                    implies false by {
                    lemma_integral_result_unique(s@, lit_start(s@, i as int), lit_neg(s@, i as int), j as int, None, end, Some(w));
                }
            }
            Err(hard(j))
        },
        Err(e) => Err(soft(e.pos)),
    }
}

/// A literal has one end and one value.
proof fn lemma_integral_result_unique(s: Seq<char>, i0: int, neg: bool, e1: int, v1: Option<i32>, e2: int, v2: Option<i32>)
    requires
        0 <= i0 < s.len(),
        integral_result(s, i0, neg, e1, v1),
        integral_result(s, i0, neg, e2, v2),
    ensures
        e1 == e2,
        v1 == v2,
{
    if !octal_run(s, i0, alnum_end(s, i0)) && s[i0] != '0' {
        if e1 < e2 {
            assert(is_digit(s[e1]));
        }
        if e2 < e1 {
            assert(is_digit(s[e2]));
        }
    }
}

/// `unsigned_lit`: an integer literal followed by `u` or `U`; its bits as
/// an unsigned value.
pub(crate) fn unsigned_lit(s: &[char], i: usize) -> (r: Result<(u32, usize), PErr>)
    requires
        i <= s@.len(),
    ensures
        consumed(r, i, s@.len() as int),
        r matches Ok((u, j)) ==> integral_form(s@, lit_start(s@, i as int)) && (s@[j - 1] == 'u' || s@[j - 1] == 'U') && integral_result(
            s@, lit_start(s@, i as int), lit_neg(s@, i as int), j - 1, Some(u as i32)),
        r is Err ==> !integral_form(s@, lit_start(s@, i as int)) || forall|end: int, v: i32| #[trigger] integral_result(s@, lit_start(s@, i as int), lit_neg(s@, i as int), end, Some(v))
            ==> !(end < s@.len() && (s@[end] == 'u' || s@[end] == 'U')),
{
    let (v, j) = integral_lit(s, i)?;
    if at(s, j, 'u') || at(s, j, 'U') {
        let u: u32 = #[verifier::truncate] (v as u32);
        assert(u as i32 == v) by (bit_vector)
            requires
                u == v as u32,
        ;
        Ok((u, j + 1))
    } else {
        proof {
            assert forall|end: int, w: i32| #[trigger] integral_result(s@, lit_start(s@, i as int), lit_neg(s@, i as int), end, Some(w))
                implies !(end < s@.len() && (s@[end] == 'u' || s@[end] == 'U')) by {
                lemma_integral_result_unique(s@, lit_start(s@, i as int), lit_neg(s@, i as int), j as int, Some(v), end, Some(w));
            }
        }
        Err(soft(j))
    }
}

/// Where an exponent (`e`/`E`, an optional sign, digits) at `i` ends.
pub open spec fn exponent_end(s: Seq<char>, i: int) -> Option<int> {
    let j = if i + 1 < s.len() && (s[i + 1] == '+' || s[i + 1] == '-') {
        i + 2
    } else {
        i + 1
    };
    if 0 <= i < s.len() && (s[i] == 'e' || s[i] == 'E') && j < s.len() && is_digit(s[j]) {
        Some(digit_run_end(s, j))
    } else {
        None
    }
}

/// Where the fraction part of a floating literal at `i` (`.digits`,
/// `digits.` or `digits.digits`) ends.
pub open spec fn fraction_end(s: Seq<char>, i: int) -> Option<int> {
    if 0 <= i < s.len() && s[i] == '.' {
        if i + 1 < s.len() && is_digit(s[i + 1]) {
            Some(digit_run_end(s, i + 1))
        } else {
            None
        }
    } else if 0 <= i < s.len() && is_digit(s[i]) {
        let e = digit_run_end(s, i);
        if e < s.len() && s[e] == '.' {
            if e + 1 < s.len() && is_digit(s[e + 1]) {
                Some(digit_run_end(s, e + 1))
            } else {
                Some(e + 1)
            }
        } else {
            None
        }
    } else {
        None
    }
}

/// Where a floating literal (without sign or suffix) at `i` ends: a
/// fraction with an optional exponent, or digits not starting with `0` and
/// a required exponent.
pub open spec fn floating_end(s: Seq<char>, i: int) -> Option<int> {
    match fraction_end(s, i) {
        Some(e) => match exponent_end(s, e) {
            Some(de) => Some(de),
            None => Some(e),
        },
        None => if 0 <= i < s.len() && s[i] != '0' && is_digit(s[i]) {
            exponent_end(s, digit_run_end(s, i))
        } else {
            None
        },
    }
}

/// `floating_exponent`: `e`/`E`, an optional sign, digits; returns the
/// position after it and the sign and digit range.
pub(crate) fn floating_exponent(s: &[char], i: usize) -> (r: Option<(usize, bool, usize)>)
    requires
        i <= s@.len(),
    ensures
        r matches Some(x) ==> i < x.0 && x.0 < x.2 && x.2 <= s@.len() && x.0 == (if s@[i + 1] == '+' || s@[i + 1] == '-' {
            i + 2
        } else {
            i + 1
        }) && x.1 == (s@[i + 1] == '-') && (forall|k: int| x.0 <= k < x.2 ==> is_digit(s@[k])) && !(x.2 < s@.len()
            && is_digit(s@[x.2 as int])),
        r matches Some(x) ==> x.2 == digit_run_end(s@, x.0 as int),
        r matches Some(x) ==> exponent_end(s@, i as int) == Some(x.2 as int),
        r is None ==> exponent_end(s@, i as int) is None,
        r is Some <==> (i < s@.len() && (s@[i as int] == 'e' || s@[i as int] == 'E') && {
            let j = if i + 1 < s@.len() && (s@[i + 1] == '+' || s@[i + 1] == '-') {
                i + 2
            } else {
                i + 1
            };
            j < s@.len() && is_digit(s@[j])
        }),
{
    if !(at(s, i, 'e') || at(s, i, 'E')) {
        return None;
    }
    assert(i < s@.len());
    let mut j = i + 1;
    let mut neg = false;
    if at(s, j, '+') {
        j = j + 1;
    } else if at(s, j, '-') {
        j = j + 1;
        neg = true;
    }
    match digits_end(s, j) {
        Some(e) => Some((j, neg, e)),
        None => None,
    }
}

/// The value of the decimal digits `s[a..b]` (a character that is no digit
/// counts as `0`), where each step saturates at `cap`.
pub open spec fn saturated_digits(s: Seq<char>, a: int, b: int, cap: int) -> int
    decreases b - a,
{
    if b <= a {
        0
    } else {
        let w = saturated_digits(s, a, b - 1, cap) * 10 + (if is_digit(s[b - 1]) {
            s[b - 1] as int - '0' as int
        } else {
            0
        });
        if w > cap {
            cap
        } else {
            w
        }
    }
}

pub(crate) fn saturated_value(s: &[char], a: usize, b: usize, cap: i64) -> (r: i64)
    requires
        a <= b <= s@.len(),
        0 <= cap <= 0x1_0000_0000_0000,
    ensures
        0 <= r <= cap,
        r == saturated_digits(s@, a as int, b as int, cap as int),
{
    let mut v: i64 = 0;
    let mut k = a;
    while k < b
        invariant
            a <= k <= b,
            b <= s@.len(),
            0 <= v <= cap,
            cap <= 0x1_0000_0000_0000,
            v == saturated_digits(s@, a as int, k as int, cap as int),
        decreases b - k,
    {
        let d: i64 = if '0' <= s[k] && s[k] <= '9' { ((s[k] as u32) - ('0' as u32)) as i64 } else { 0 };
        assert(v * 10 <= 0x1_0000_0000_0000 * 10) by (nonlinear_arith)
            requires
                v <= 0x1_0000_0000_0000,
        ;
        let w = v * 10 + d;
        v = if w > cap { cap } else { w };
        k = k + 1;
    }
    v
}

/// The largest exponent a literal keeps: beyond it every literal is far
/// out of any float range, and the printer would only make it longer.
pub const EXPONENT_CAP: i64 = 1_000_000_000;

/// The values of the digits of `s[a..k]`, in order, without leading zeros.
pub open spec fn significant_digits(s: Seq<char>, a: int, k: int) -> Seq<u8>
    decreases k - a,
{
    if k <= a {
        seq![]
    } else {
        let p = significant_digits(s, a, k - 1);
        if is_digit(s[k - 1]) && !(p.len() == 0 && s[k - 1] == '0') {
            p.push((s[k - 1] as u32 - '0' as u32) as u8)
        } else {
            p
        }
    }
}

/// `v` without its trailing zeros.
pub open spec fn trim_zeros(v: Seq<u8>) -> Seq<u8>
    decreases v.len(),
{
    if v.len() > 0 && v.last() == 0 {
        trim_zeros(v.drop_last())
    } else {
        v
    }
}

/// The number of digits of `s[a..k]` after the first `.`, capped.
pub open spec fn fraction_digits(s: Seq<char>, a: int, k: int) -> int
    decreases k - a,
{
    if k <= a {
        0
    } else {
        let f = fraction_digits(s, a, k - 1);
        if is_digit(s[k - 1]) && (exists|m: int| a <= m < k - 1 && s[m] == '.') && f < EXPONENT_CAP {
            f + 1
        } else {
            f
        }
    }
}

/// The exact value of a floating literal's digits `s[a..b]` (a `.` among
/// them marks the fraction) times `10^exp`, normalized.
pub(crate) fn decimal_of(s: &[char], a: usize, b: usize, exp: i64, negative: bool) -> (r: Decimal)
    requires
        a <= b <= s@.len(),
        -EXPONENT_CAP <= exp <= EXPONENT_CAP,
    ensures
        r.digits@ == trim_zeros(significant_digits(s@, a as int, b as int)),
        r.negative == (negative && r.digits@.len() > 0),
        r.digits@.len() > 0 ==> r.exponent == (if exp - fraction_digits(s@, a as int, b as int) + (significant_digits(
            s@,
            a as int,
            b as int,
        ).len() - r.digits@.len()) < EXPONENT_CAP {
            exp - fraction_digits(s@, a as int, b as int) + (significant_digits(s@, a as int, b as int).len() - r.digits@.len())
        } else {
            EXPONENT_CAP as int
        }),
        r.digits@.len() > 0 ==> r.digits@[0] != 0 && r.digits@.last() != 0,
        r.digits@.len() == 0 ==> !r.negative && r.exponent == 0,
        forall|k: int| 0 <= k < r.digits@.len() ==> r.digits@[k] < 10,
{
    let mut digits: Vec<u8> = Vec::new();
    let mut frac: i64 = 0;
    let mut seen_dot = false;
    let mut k = a;
    while k < b
        invariant
            a <= k <= b,
            b <= s@.len(),
            0 <= frac <= EXPONENT_CAP,
            digits@.len() > 0 ==> digits@[0] != 0,
            forall|m: int| 0 <= m < digits@.len() ==> digits@[m] < 10,
            digits@ == significant_digits(s@, a as int, k as int),
            frac == fraction_digits(s@, a as int, k as int),
            seen_dot == exists|m: int| a <= m < k && s@[m] == '.',
        decreases b - k,
    {
        let c = s[k];
        if c == '.' {
            seen_dot = true;
        } else if '0' <= c && c <= '9' {
            let d = ((c as u32) - ('0' as u32)) as u8;
            if !(digits.len() == 0 && d == 0) {
                digits.push(d);
            }
            if seen_dot && frac < EXPONENT_CAP {
                frac = frac + 1;
            }
        }
        k = k + 1;
    }
    let mut exponent: i64 = exp - frac;
    let ghost sig = digits@;
    while digits.len() > 0 && digits[digits.len() - 1] == 0
        invariant
            -2 * EXPONENT_CAP <= exponent <= EXPONENT_CAP,
            digits@.len() > 0 ==> digits@[0] != 0,
            forall|m: int| 0 <= m < digits@.len() ==> digits@[m] < 10,
            trim_zeros(digits@) == trim_zeros(sig),
            digits@.len() <= sig.len(),
            exponent == (if exp - frac + (sig.len() - digits@.len()) < EXPONENT_CAP {
                exp - frac + (sig.len() - digits@.len())
            } else {
                EXPONENT_CAP as int
            }),
        decreases digits@.len(),
    {
        digits.pop();
        if exponent < EXPONENT_CAP {
            exponent = exponent + 1;
        }
    }
    assert(trim_zeros(digits@) == digits@);
    if digits.len() == 0 {
        Decimal { negative: false, digits, exponent: 0 }
    } else {
        Decimal { negative, digits, exponent }
    }
}

/// Where the digits and point of a floating literal at `i` end, before
/// its exponent.
pub open spec fn mantissa_end(s: Seq<char>, i: int) -> int {
    match fraction_end(s, i) {
        Some(e) => e,
        None => digit_run_end(s, i),
    }
}

/// The exponent written after the mantissa that ends at `m`, with its sign
/// (`0` when there is none); its digits saturate at `EXPONENT_CAP`.
pub open spec fn written_exponent(s: Seq<char>, m: int) -> int {
    match exponent_end(s, m) {
        Some(de) => {
            let negative = s[m + 1] == '-';
            let start = if s[m + 1] == '+' || negative { m + 2 } else { m + 1 };
            let v = saturated_digits(s, start, de, EXPONENT_CAP as int);
            if negative { -v } else { v }
        },
        None => 0,
    }
}

/// The number that the decimal digits `v` spell, most significant first.
pub open spec fn digits_number(v: Seq<u8>) -> int
    decreases v.len(),
{
    if v.len() == 0 {
        0
    } else {
        digits_number(v.drop_last()) * 10 + v.last() as int
    }
}

/// Dropping trailing zeros divides the number by ten for each zero.
pub proof fn lemma_trim_zeros_value(v: Seq<u8>)
    ensures
        trim_zeros(v).len() <= v.len(),
        digits_number(v) == digits_number(trim_zeros(v)) * pow(10, (v.len() - trim_zeros(v).len()) as nat),
    decreases v.len(),
{
    reveal(pow);
    if v.len() > 0 && v.last() == 0 {
        let w = v.drop_last();
        lemma_trim_zeros_value(w);
        let t = trim_zeros(w);
        let k = (w.len() - t.len()) as nat;
        assert(trim_zeros(v) == t);
        assert((v.len() - t.len()) as nat == k + 1);
        assert(pow(10, k + 1) == 10 * pow(10, k));
        assert(digits_number(v) == digits_number(w) * 10);
        assert(digits_number(t) * pow(10, k) * 10 == digits_number(t) * (10 * pow(10, k))) by (nonlinear_arith);
    } else {
        assert(trim_zeros(v) == v);
    }
}

/// The literal at `i` (`negative` when a `-` stood before it) has the
/// value `d`: `d`'s digits are the literal's significant digits without
/// trailing zeros, and, unless the exponent reached `EXPONENT_CAP`,
/// `sig * 10^(x - f) == digits * 10^exponent`, where `sig` is the number
/// its digits spell, `x` its written exponent with that exponent's sign and
/// `f` the number of its fraction digits.
pub open spec fn denotes_literal(d: Decimal, s: Seq<char>, i: int, negative: bool) -> bool {
    let m = mantissa_end(s, i);
    let sig = significant_digits(s, i, m);
    let shift = written_exponent(s, m) - fraction_digits(s, i, m);
    &&& d.digits@ == trim_zeros(sig)
    &&& d.negative == (negative && d.digits@.len() > 0)
    &&& d.digits@.len() == 0 ==> digits_number(sig) == 0 && d.exponent == 0
    &&& d.digits@.len() > 0 && d.exponent < EXPONENT_CAP ==> shift <= d.exponent
        && digits_number(sig) == digits_number(d.digits@) * pow(10, (d.exponent - shift) as nat)
}

/// `floating_middle`: `.digits`, `digits.` or `digits.digits`, each with an
/// optional exponent, or nonzero-leading digits with a required exponent.
/// Returns the position after it and the literal's exact value.
pub(crate) fn floating_middle(s: &[char], i: usize, negative: bool) -> (r: Option<(Decimal, usize)>)
    requires
        i <= s@.len(),
    ensures
        r matches Some(x) ==> i < x.1 <= s@.len(),
        r matches Some(x) ==> floating_end(s@, i as int) == Some(x.1 as int),
        r is None <==> floating_end(s@, i as int) is None,
        r matches Some(x) ==> denotes_literal(x.0, s@, i as int, negative),
{
    // floating_frac
    let mut frac_end: Option<usize> = None;
    let _len = s.len();
    if at(s, i, '.') {
        match digits_end(s, i + 1) {
            Some(e) => {
                frac_end = Some(e);
            },
            None => {},
        }
    } else {
        match digits_end(s, i) {
            Some(e) => {
                if at(s, e, '.') {
                    match digits_end(s, e + 1) {
                        Some(e2) => {
                            frac_end = Some(e2);
                        },
                        None => {
                            frac_end = Some(e + 1);
                        },
                    }
                }
            },
            None => {},
        }
    }
    match frac_end {
        Some(e) => {
            match floating_exponent(s, e) {
                Some((ds, neg, de)) => {
                    let v = saturated_value(s, ds, de, EXPONENT_CAP);
                    let x = if neg { -v } else { v };
                    let d = decimal_of(s, i, e, x, negative);
                    proof {
                        assert(mantissa_end(s@, i as int) == e);
                        assert(written_exponent(s@, e as int) == x);
                        lemma_trim_zeros_value(significant_digits(s@, i as int, e as int));
                    }
                    Some((d, de))
                },
                None => {
                    let d = decimal_of(s, i, e, 0, negative);
                    proof {
                        assert(mantissa_end(s@, i as int) == e);
                        assert(written_exponent(s@, e as int) == 0);
                        lemma_trim_zeros_value(significant_digits(s@, i as int, e as int));
                    }
                    Some((d, e))
                },
            }
        },
        None => {
            if at(s, i, '0') {
                return None;
            }
            match digits_end(s, i) {
                Some(e) => {
                    match floating_exponent(s, e) {
                        Some((ds, neg, de)) => {
                            let v = saturated_value(s, ds, de, EXPONENT_CAP);
                            let x = if neg { -v } else { v };
                            let d = decimal_of(s, i, e, x, negative);
                            proof {
                                assert(fraction_end(s@, i as int) is None);
                                assert(mantissa_end(s@, i as int) == e);
                                assert(written_exponent(s@, e as int) == x);
                                lemma_trim_zeros_value(significant_digits(s@, i as int, e as int));
                            }
                            Some((d, de))
                        },
                        None => None,
                    }
                },
                None => None,
            }
        },
    }
}

/// The word `w` at `j`, as `keyword` finds it.
pub open spec fn kw_at(s: Seq<char>, j: int, w: Seq<char>) -> bool {
    w.len() > 0 && j + w.len() <= s.len() && s.subrange(j, j + w.len()) == w && !(j + w.len() < s.len() && is_ident_char(
        s[j + w.len()],
    ))
}

/// The position after the suffix `a` or `b` at `j`, or `j`.
pub open spec fn suffix_end(s: Seq<char>, j: int, a: Seq<char>, b: Seq<char>) -> int {
    if kw_at(s, j, a) {
        j + a.len()
    } else if kw_at(s, j, b) {
        j + b.len()
    } else {
        j
    }
}

/// Where a float (or, for `double`, a double) literal at `i` ends, with
/// its sign and suffix.
pub open spec fn floating_lit_end(s: Seq<char>, i: int, double: bool) -> Option<int> {
    match floating_end(s, lit_start(s, i)) {
        Some(j) => if !double {
            let k = suffix_end(s, j, "f"@, "F"@);
            if kw_at(s, k, "lf"@) || kw_at(s, k, "LF"@) {
                None
            } else {
                Some(k)
            }
        } else {
            if kw_at(s, j, "f"@) || kw_at(s, j, "F"@) {
                None
            } else {
                Some(suffix_end(s, j, "lf"@, "LF"@))
            }
        },
        None => None,
    }
}

/// `float_lit` (`double == false`) and `double_lit` (`double == true`): an
/// optional `-`, a floating literal, and the suffix rules: a float takes an
/// optional `f`/`F` and must not end in `lf`/`LF`; a double must not take
/// `f`/`F` and takes an optional `lf`/`LF`.
pub(crate) fn floating_lit(s: &[char], i: usize, double: bool) -> (r: Result<(Decimal, usize), PErr>)
    requires
        i <= s@.len(),
    ensures
        consumed(r, i, s@.len() as int),
        r is Ok <==> floating_lit_end(s@, i as int, double) is Some,
        r matches Ok((_, k)) ==> floating_lit_end(s@, i as int, double) == Some(k as int),
        r matches Ok((d, _)) ==> denotes_literal(d, s@, lit_start(s@, i as int), lit_neg(s@, i as int)),
{
    let neg = at(s, i, '-');
    let i0 = if neg { i + 1 } else { i };
    match floating_middle(s, i0, neg) {
        Some((d, j)) => {
            let fsuf = match keyword(s, j, "f") {
                Some(k) => Some(k),
                None => keyword(s, j, "F"),
            };
            let dsuf = match keyword(s, j, "lf") {
                Some(k) => Some(k),
                None => keyword(s, j, "LF"),
            };
            if !double {
                let k = match fsuf {
                    Some(k) => k,
                    None => j,
                };
                let dsuf2 = match keyword(s, k, "lf") {
                    Some(m) => Some(m),
                    None => keyword(s, k, "LF"),
                };
                if dsuf2.is_some() {
                    return Err(soft(k));
                }
                Ok((d, k))
            } else {
                if fsuf.is_some() {
                    return Err(soft(j));
                }
                match dsuf {
                    Some(k) => Ok((d, k)),
                    None => Ok((d, j)),
                }
            }
        },
        None => Err(soft(i0)),
    }
}

} // verus!
