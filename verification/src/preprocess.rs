//! Text-level preparation that runs before the GLSL parser.
use vstd::prelude::*;
use crate::text::{chars_of, string_of, is_ws, trim_start, trim_end, end_without_ws, occurs_at, matches_str_at,
    ws};

verus! {

broadcast use vstd::string::group_string_axioms;

/// `s` with every `\r\n` and every remaining `\r` turned into `\n`.
pub open spec fn spec_normalize(s: Seq<char>) -> Seq<char>
    decreases s.len(),
{
    if s.len() == 0 {
        seq![]
    } else if s[0] == '\r' && s.len() > 1 && s[1] == '\n' {
        seq!['\n'] + spec_normalize(s.subrange(2, s.len() as int))
    } else if s[0] == '\r' {
        seq!['\n'] + spec_normalize(s.drop_first())
    } else {
        seq![s[0]] + spec_normalize(s.drop_first())
    }
}

/// `s` with every line feed written as CR LF.
pub open spec fn with_crlf(s: Seq<char>) -> Seq<char>
    decreases s.len(),
{
    if s.len() == 0 {
        seq![]
    } else if s[0] == '\n' {
        seq!['\r', '\n'] + with_crlf(s.drop_first())
    } else {
        seq![s[0]] + with_crlf(s.drop_first())
    }
}

/// `s` with every line feed written as a lone CR.
pub open spec fn with_cr(s: Seq<char>) -> Seq<char>
    decreases s.len(),
{
    if s.len() == 0 {
        seq![]
    } else if s[0] == '\n' {
        seq!['\r'] + with_cr(s.drop_first())
    } else {
        seq![s[0]] + with_cr(s.drop_first())
    }
}

/// How often `c` occurs in `s`.
pub open spec fn count_char(s: Seq<char>, c: char) -> nat
    decreases s.len(),
{
    if s.len() == 0 {
        0
    } else {
        (if s[0] == c { 1nat } else { 0nat }) + count_char(s.drop_first(), c)
    }
}

/// How often `\r\n` occurs in `s`.
pub open spec fn count_crlf(s: Seq<char>) -> nat
    decreases s.len(),
{
    if s.len() < 2 {
        0
    } else {
        (if s[0] == '\r' && s[1] == '\n' { 1nat } else { 0nat }) + count_crlf(s.drop_first())
    }
}

/// Normalizing leaves one line feed per line ending: the line feeds and
/// carriage returns of `s`, less its `\r\n` pairs.
pub proof fn law_normalize_line_feed_count(s: Seq<char>)
    ensures
        count_char(spec_normalize(s), '\n') + count_crlf(s) == count_char(s, '\n') + count_char(s, '\r'),
    decreases s.len(),
{
    if s.len() == 0 {
    } else if s[0] == '\r' && s.len() > 1 && s[1] == '\n' {
        let t = s.subrange(2, s.len() as int);
        law_normalize_line_feed_count(t);
        assert(s.drop_first().drop_first() =~= t);
        assert((seq!['\n'] + spec_normalize(t)).drop_first() =~= spec_normalize(t));
        if t.len() >= 1 {
            assert(count_crlf(s.drop_first()) == count_crlf(t));
        }
    } else {
        law_normalize_line_feed_count(s.drop_first());
        let u = spec_normalize(s.drop_first());
        if s[0] == '\r' {
            assert((seq!['\n'] + u).drop_first() =~= u);
        } else {
            assert((seq![s[0]] + u).drop_first() =~= u);
        }
    }
}

/// No carriage return is left after normalizing.
pub proof fn law_normalized_has_no_cr(s: Seq<char>)
    ensures
        forall|i: int| 0 <= i < spec_normalize(s).len() ==> spec_normalize(s)[i] != '\r',
    decreases s.len(),
{
    if s.len() > 0 {
        let rest = if s[0] == '\r' && s.len() > 1 && s[1] == '\n' {
            s.subrange(2, s.len() as int)
        } else {
            s.drop_first()
        };
        law_normalized_has_no_cr(rest);
        let n = spec_normalize(s);
        assert(n.drop_first() =~= spec_normalize(rest));
        assert forall|i: int| 0 <= i < n.len() implies n[i] != '\r' by {
            if i > 0 {
                assert(n[i] == n.drop_first()[i - 1]);
            }
        }
    }
}

/// Text with LF line endings only is left as it is.
pub proof fn law_lf_text_unchanged(s: Seq<char>)
    requires
        forall|i: int| 0 <= i < s.len() ==> s[i] != '\r',
    ensures
        spec_normalize(s) == s,
    decreases s.len(),
{
    if s.len() > 0 {
        law_lf_text_unchanged(s.drop_first());
        assert(seq![s[0]] + s.drop_first() =~= s);
    }
}

/// Normalizing twice is normalizing once.
pub proof fn law_normalize_idempotent(s: Seq<char>)
    ensures
        spec_normalize(spec_normalize(s)) == spec_normalize(s),
{
    law_normalized_has_no_cr(s);
    law_lf_text_unchanged(spec_normalize(s));
}

/// The same text written with CR LF or with CR line endings normalizes to
/// its LF form.
pub proof fn law_crlf_and_cr_normalize_to_lf(s: Seq<char>)
    requires
        forall|i: int| 0 <= i < s.len() ==> s[i] != '\r',
    ensures
        spec_normalize(with_crlf(s)) == s,
        spec_normalize(with_cr(s)) == s,
    decreases s.len(),
{
    if s.len() > 0 {
        let rest = s.drop_first();
        law_crlf_and_cr_normalize_to_lf(rest);
        let a = with_crlf(s);
        let b = with_cr(s);
        if s[0] == '\n' {
            assert(a.subrange(2, a.len() as int) =~= with_crlf(rest));
            assert(b.drop_first() =~= with_cr(rest));
        } else {
            assert(a.drop_first() =~= with_crlf(rest));
            assert(b.drop_first() =~= with_cr(rest));
        }
        assert(seq![s[0]] + rest =~= s);
    }
}

/// GLSL accepts CR, LF and CRLF as line terminators, but the parser's
/// directive lexer keeps a trailing `\r`. Normalize to LF up front; output is
/// always LF.
pub fn normalize_line_endings(src: &str) -> (r: String)
    ensures
        r@ == spec_normalize(src@),
{
    let s = chars_of(src);
    let n = s.len();
    let mut out: Vec<char> = Vec::new();
    let mut i: usize = 0;
    proof {
        assert(s@.subrange(0, n as int) =~= s@);
    }
    while i < n
        invariant
            n == s@.len(),
            s@ == src@,
            i <= n,
            out@ + spec_normalize(s@.subrange(i as int, n as int)) == spec_normalize(src@),
        decreases n - i,
    {
        let ghost rest = s@.subrange(i as int, n as int);
        let ghost before = out@;
        if s[i] == '\r' && i + 1 < n && s[i + 1] == '\n' {
            out.push('\n');
            proof {
                assert(rest.subrange(2, rest.len() as int) =~= s@.subrange(i + 2, n as int));
                assert(out@ + spec_normalize(s@.subrange(i + 2, n as int)) =~= before + spec_normalize(rest));
            }
            i = i + 2;
        } else {
            let c = if s[i] == '\r' { '\n' } else { s[i] };
            out.push(c);
            proof {
                assert(rest.drop_first() =~= s@.subrange(i + 1, n as int));
                assert(out@ + spec_normalize(s@.subrange(i + 1, n as int)) =~= before + spec_normalize(rest));
            }
            i = i + 1;
        }
    }
    proof {
        assert(out@ + spec_normalize(s@.subrange(i as int, n as int)) =~= out@);
    }
    string_of(out.as_slice())
}

/// Index of the first line feed at or after `j`, or the length of `s`.
pub open spec fn next_lf(s: Seq<char>, j: int) -> int
    decreases s.len() - j,
{
    if 0 <= j < s.len() && s[j] != '\n' {
        next_lf(s, j + 1)
    } else {
        j
    }
}

/// The lines of `s` as `str::lines` yields them: split at `\n`, a trailing
/// `\r` removed from each line, no empty line after a final `\n`.
pub open spec fn spec_lines(s: Seq<char>) -> Seq<Seq<char>>
    decreases s.len(),
{
    if s.len() == 0 {
        seq![]
    } else {
        let e = next_lf_from0(s);
        proof {
            lemma_next_lf(s, 0);
        }
        let raw = s.subrange(0, e);
        let line = if e < s.len() && raw.len() > 0 && raw.last() == '\r' { raw.drop_last() } else { raw };
        if e >= s.len() {
            seq![line]
        } else {
            seq![line] + spec_lines(s.subrange(e + 1, s.len() as int))
        }
    }
}

/// `next_lf(s, 0)`, bounded by the length of `s`.
pub open spec fn next_lf_from0(s: Seq<char>) -> int {
    next_lf(s, 0)
}

/// `next_lf` on a suffix of `s` is `next_lf` on `s`, shifted.
pub proof fn lemma_next_lf_shift(s: Seq<char>, i: int, n: int, k: int)
    requires
        0 <= i <= n,
        n == s.len(),
        0 <= k <= n - i,
    ensures
        next_lf(s.subrange(i, n), k) == next_lf(s, i + k) - i,
    decreases n - i - k,
{
    if k < n - i && s[i + k] != '\n' {
        lemma_next_lf_shift(s, i, n, k + 1);
    }
}

pub proof fn lemma_next_lf(s: Seq<char>, j: int)
    requires
        0 <= j <= s.len(),
    ensures
        j <= next_lf(s, j) <= s.len(),
        next_lf(s, j) < s.len() ==> s[next_lf(s, j)] == '\n',
        forall|k: int| j <= k < next_lf(s, j) ==> s[k] != '\n',
    decreases s.len() - j,
{
    if j < s.len() && s[j] != '\n' {
        lemma_next_lf(s, j + 1);
    }
}

/// Index of the first occurrence of `t` in `s` at or after `from`.
pub open spec fn find_from(s: Seq<char>, from: int, t: Seq<char>) -> Option<int>
    decreases s.len() + 1 - from,
{
    if from < 0 || from + t.len() > s.len() {
        None
    } else if occurs_at(s, from, t) {
        Some(from)
    } else {
        find_from(s, from + 1, t)
    }
}

pub proof fn lemma_find_from(s: Seq<char>, from: int, t: Seq<char>)
    requires
        0 <= from,
    ensures
        find_from(s, from, t) matches Some(k) ==> from <= k && k + t.len() <= s.len() && occurs_at(s, k, t),
    decreases s.len() + 1 - from,
{
    if from + t.len() > s.len() {
    } else if occurs_at(s, from, t) {
    } else {
        lemma_find_from(s, from + 1, t);
    }
}

/// First occurrence of `t` in `s` at or after `from`.
pub fn find_str_from(s: &[char], from: usize, t: &str) -> (r: Option<usize>)
    ensures
        match r {
            Some(k) => find_from(s@, from as int, t@) == Some(k as int) && from <= k && k + t@.len()
                <= s@.len(),
            None => find_from(s@, from as int, t@) == None::<int>,
        },
{
    proof {
        lemma_find_from(s@, from as int, t@);
    }
    let tl = chars_of(t).len();
    if tl == 0 {
        if from <= s.len() {
            proof {
                assert(s@.subrange(from as int, from as int) =~= t@);
            }
            return Some(from);
        }
        return None;
    }
    let mut k = from;
    while k <= s.len() && tl <= s.len() - k
        invariant
            tl == t@.len(),
            from <= k,
            find_from(s@, k as int, t@) == find_from(s@, from as int, t@),
            tl >= 1,
        decreases s@.len() + 1 - k,
    {
        if matches_str_at(s, k, t) {
            return Some(k);
        }
        k = k + 1;
    }
    None
}

/// Replace every `/* ... */` of a line (that closes on the line) by a space,
/// leftmost first; an unclosed `/*` and what follows it stay.
pub open spec fn strip_blocks(l: Seq<char>) -> Seq<char>
    decreases l.len(),
{
    match find_from(l, 0, "/*"@) {
        None => l,
        Some(start) => match find_from(l, start + 2, "*/"@) {
            None => l,
            Some(end) => {
                if 0 <= start && start + 2 <= end && end + 2 <= l.len() {
                    strip_blocks(l.subrange(0, start) + seq![' '] + l.subrange(end + 2, l.len() as int))
                } else {
                    l
                }
            },
        },
    }
}

/// A directive line without its `//` comment, its closed block comments and
/// its trailing whitespace.
pub open spec fn strip_directive_line(l: Seq<char>) -> Seq<char> {
    let cut = match find_from(l, 0, "//"@) {
        Some(p) => l.subrange(0, p),
        None => l,
    };
    trim_end(strip_blocks(cut))
}

/// Whether a line starts a directive: its first non-whitespace character
/// is `#`.
pub open spec fn is_directive_line(l: Seq<char>) -> bool {
    trim_start(l).len() > 0 && trim_start(l)[0] == '#'
}

/// The lines after processing, each followed by `\n`. `continued`: the
/// previous directive line ended with `\`.
pub open spec fn strip_lines(lines: Seq<Seq<char>>, continued: bool) -> Seq<char>
    decreases lines.len(),
{
    if lines.len() == 0 {
        seq![]
    } else {
        let l = lines[0];
        if continued || is_directive_line(l) {
            let t = strip_directive_line(l);
            t + seq!['\n'] + strip_lines(lines.drop_first(), t.len() > 0 && t.last() == '\\')
        } else {
            l + seq!['\n'] + strip_lines(lines.drop_first(), false)
        }
    }
}

/// The text `strip_directive_comments` returns for `s`.
pub open spec fn spec_strip_directive_comments(s: Seq<char>) -> Seq<char> {
    let out = strip_lines(spec_lines(s), false);
    if s.len() > 0 && s.last() != '\n' && out.len() > 0 {
        out.drop_last()
    } else {
        out
    }
}

fn strip_blocks_exec(l: Vec<char>) -> (r: Vec<char>)
    ensures
        r@ == strip_blocks(l@),
    decreases l@.len(),
{
    proof {
        reveal_strlit("/*");
        reveal_strlit("*/");
        assert("/*"@.len() == 2);
        assert("*/"@.len() == 2);
    }
    let ll = l.len();
    match find_str_from(l.as_slice(), 0, "/*") {
        None => l,
        Some(start) => {
            assert(start + 2 <= l@.len());
            proof {
                lemma_find_from(l@, start + 2, "*/"@);
            }
            match find_str_from(l.as_slice(), start + 2, "*/") {
                None => l,
                Some(end) => {
                    assert(end + 2 <= l@.len());
                    let mut next: Vec<char> = Vec::new();
                    let mut k: usize = 0;
                    while k < start
                        invariant
                            k <= start,
                            start <= l@.len(),
                            next@ == l@.subrange(0, k as int),
                        decreases start - k,
                    {
                        next.push(l[k]);
                        k = k + 1;
                        assert(next@ =~= l@.subrange(0, k as int));
                    }
                    next.push(' ');
                    let mut k = end + 2;
                    let ghost mid = next@;
                    while k < l.len()
                        invariant
                            end + 2 <= k <= l@.len(),
                            next@ == mid + l@.subrange(end + 2, k as int),
                        decreases l@.len() - k,
                    {
                        next.push(l[k]);
                        k = k + 1;
                        assert(next@ =~= mid + l@.subrange(end + 2, k as int));
                    }
                    proof {
                        assert(next@ =~= l@.subrange(0, start as int) + seq![' '] + l@.subrange(end + 2, l@.len() as int));
                    }
                    strip_blocks_exec(next)
                },
            }
        },
    }
}

/// `strip_directive_line` of `s[from..to]`.
fn strip_directive_exec(s: &[char], from: usize, to: usize) -> (r: Vec<char>)
    requires
        from <= to <= s@.len(),
    ensures
        r@ == strip_directive_line(s@.subrange(from as int, to as int)),
{
    let mut l: Vec<char> = Vec::new();
    let mut k = from;
    while k < to
        invariant
            from <= k <= to,
            to <= s@.len(),
            l@ == s@.subrange(from as int, k as int),
        decreases to - k,
    {
        l.push(s[k]);
        k = k + 1;
        assert(l@ =~= s@.subrange(from as int, k as int));
    }
    proof {
        reveal_strlit("//");
    }
    let cut = match find_str_from(l.as_slice(), 0, "//") {
        Some(p) => {
            let mut c: Vec<char> = Vec::new();
            let mut k: usize = 0;
            while k < p
                invariant
                    k <= p,
                    p <= l@.len(),
                    c@ == l@.subrange(0, k as int),
                decreases p - k,
            {
                c.push(l[k]);
                k = k + 1;
                assert(c@ =~= l@.subrange(0, k as int));
            }
            c
        },
        None => l,
    };
    let ghost l0 = s@.subrange(from as int, to as int);
    assert(l@ == l0);
    assert(cut@ == (match find_from(l0, 0, "//"@) {
        Some(p) => l0.subrange(0, p),
        None => l0,
    }));
    let b = strip_blocks_exec(cut);
    let e = end_without_ws(b.as_slice(), b.len());
    proof {
        assert(b@.subrange(0, b@.len() as int) =~= b@);
    }
    let mut r: Vec<char> = Vec::new();
    let mut k: usize = 0;
    while k < e
        invariant
            k <= e,
            e <= b@.len(),
            r@ == b@.subrange(0, k as int),
        decreases e - k,
    {
        r.push(b[k]);
        k = k + 1;
        assert(r@ =~= b@.subrange(0, k as int));
    }
    proof {
        assert(b@.subrange(0, b@.len() as int) =~= b@);
    }
    r
}

/// Process the line of `s` that starts at `i`: the text it becomes
/// (including its `\n`), whether the next line continues a directive, and
/// where the next line starts.
#[verifier::rlimit(40)]
fn strip_one_line(s: &[char], i: usize, continued: bool) -> (r: (Vec<char>, bool, usize))
    requires
        i < s@.len(),
    ensures
        i < r.2 <= s@.len(),
        r.0@ + strip_lines(spec_lines(s@.subrange(r.2 as int, s@.len() as int)), r.1)
            == strip_lines(spec_lines(s@.subrange(i as int, s@.len() as int)), continued),
{
    let n = s.len();
    let mut out: Vec<char> = Vec::new();
    let mut continued = continued;
    let ghost rest = s@.subrange(i as int, n as int);
    let ghost was = continued;
    proof {
        lemma_next_lf(s@, i as int);
        lemma_next_lf_shift(s@, i as int, n as int, 0);
    }
    let mut e = i;
    while e < n && s[e] != '\n'
        invariant
            n == s@.len(),
            i <= e <= n,
            next_lf(s@, e as int) == next_lf(s@, i as int),
        decreases n - e,
    {
        e = e + 1;
    }
    let line_end = if e < n && e > i && s[e - 1] == '\r' { e - 1 } else { e };
    let ghost line = s@.subrange(i as int, line_end as int);
    proof {
        assert(next_lf(s@, e as int) == e);
        assert(next_lf_from0(rest) == e - i);
        assert(rest.subrange(0, e - i) =~= s@.subrange(i as int, e as int));
        if e < n && e > i && s@[e - 1] == '\r' {
            assert(s@.subrange(i as int, e as int).drop_last() =~= line);
        }
        if e < n {
            assert(rest.subrange(e - i + 1, rest.len() as int) =~= s@.subrange(e + 1, n as int));
        }
    }
    let mut ls = i;
    while ls < line_end && crate::text::uws(s[ls])
        invariant
            i <= ls <= line_end,
            line_end <= n,
            n == s@.len(),
            trim_start(line) == trim_start(s@.subrange(ls as int, line_end as int)),
        decreases line_end - ls,
    {
        assert(s@.subrange(ls + 1, line_end as int) =~= s@.subrange(ls as int, line_end as int).drop_first());
        ls = ls + 1;
    }
    let directive = ls < line_end && s[ls] == '#';
    proof {
        if ls < line_end {
            assert(s@.subrange(ls as int, line_end as int)[0] == s@[ls as int]);
        } else {
            assert(s@.subrange(ls as int, line_end as int) =~= Seq::<char>::empty());
        }
        assert(directive == is_directive_line(line));
    }
    let ghost before = out@;
    assert(before =~= Seq::<char>::empty());
    let ghost t_spec = strip_directive_line(line);
    if continued || directive {
        let t = strip_directive_exec(s, i, line_end);
        let mut k: usize = 0;
        while k < t.len()
            invariant
                k <= t@.len(),
                out@ == before + t@.subrange(0, k as int),
            decreases t@.len() - k,
        {
            out.push(t[k]);
            k = k + 1;
            assert(out@ =~= before + t@.subrange(0, k as int));
        }
        out.push('\n');
        continued = t.len() > 0 && t[t.len() - 1] == '\\';
        proof {
            assert(t@.subrange(0, t@.len() as int) =~= t@);
            assert(out@ =~= before + t@ + seq!['\n']);
        }
    } else {
        let mut k = i;
        while k < line_end
            invariant
                i <= k <= line_end,
                line_end <= n,
                n == s@.len(),
                out@ == before + s@.subrange(i as int, k as int),
            decreases line_end - k,
        {
            out.push(s[k]);
            k = k + 1;
            assert(out@ =~= before + s@.subrange(i as int, k as int));
        }
        out.push('\n');
        continued = false;
    }
    proof {
        let lines = spec_lines(rest);
        assert(lines[0] == line);
        if e < n {
            assert(lines.drop_first() =~= spec_lines(s@.subrange(e + 1, n as int)));
        } else {
            assert(lines.drop_first() =~= Seq::<Seq<char>>::empty());
            assert(s@.subrange(n as int, n as int) =~= Seq::<char>::empty());
        }
        assert(strip_lines(lines, was) == (if was || is_directive_line(line) {
            t_spec + seq!['\n'] + strip_lines(lines.drop_first(), t_spec.len() > 0 && t_spec.last() == '\\')
        } else {
            line + seq!['\n'] + strip_lines(lines.drop_first(), false)
        }));
        assert(out@ + strip_lines(lines.drop_first(), continued) =~= before + strip_lines(lines, was));
    }
    let next = if e < n { e + 1 } else { n };
    proof {
        if e >= n {
            assert(s@.subrange(next as int, n as int) =~= Seq::<char>::empty());
            assert(spec_lines(s@.subrange(next as int, n as int)) =~= Seq::<Seq<char>>::empty());
            assert(spec_lines(rest).drop_first() =~= Seq::<Seq<char>>::empty());
        }
        assert(out@ =~= before + out@);
    }
    (out, continued, next)
}

/// Remove `// ...` and single-line `/* ... */` comments from preprocessor
/// directive lines (`#extension`, `#define`, `#pragma`, ...). Non-directive
/// lines are passed through untouched. A line continued with a trailing `\`
/// keeps the following line inside the directive. Re-emits `\n`.
pub fn strip_directive_comments(src: &str) -> (r: String)
    ensures
        r@ == spec_strip_directive_comments(src@),
{
    let s = chars_of(src);
    let n = s.len();
    let mut out: Vec<char> = Vec::new();
    let mut continued = false;
    let mut i: usize = 0;
    proof {
        assert(s@.subrange(0, n as int) =~= s@);
    }
    while i < n
        invariant
            n == s@.len(),
            s@ == src@,
            i <= n,
            out@ + strip_lines(spec_lines(s@.subrange(i as int, n as int)), continued)
                == strip_lines(spec_lines(src@), false),
        decreases n - i,
    {
        let ghost before = out@;
        let (piece, c, next) = strip_one_line(s.as_slice(), i, continued);
        let mut k: usize = 0;
        while k < piece.len()
            invariant
                k <= piece@.len(),
                out@ == before + piece@.subrange(0, k as int),
            decreases piece@.len() - k,
        {
            out.push(piece[k]);
            k = k + 1;
            assert(out@ =~= before + piece@.subrange(0, k as int));
        }
        proof {
            assert(piece@.subrange(0, piece@.len() as int) =~= piece@);
            assert(out@ + strip_lines(spec_lines(s@.subrange(next as int, n as int)), c)
                =~= before + (piece@ + strip_lines(spec_lines(s@.subrange(next as int, n as int)), c)));
        }
        continued = c;
        i = next;
    }
    let ghost full = strip_lines(spec_lines(src@), false);
    proof {
        assert(s@.subrange(i as int, n as int) =~= Seq::<char>::empty());
        assert(out@ =~= full);
    }
    if n > 0 && s[n - 1] != '\n' && out.len() > 0 {
        out.pop();
    }
    string_of(out.as_slice())
}

/// `s` holds no line feed.
pub open spec fn no_lf(s: Seq<char>) -> bool {
    forall|i: int| 0 <= i < s.len() ==> #[trigger] s[i] != '\n'
}

proof fn lemma_count_concat(a: Seq<char>, b: Seq<char>, c: char)
    ensures
        count_char(a + b, c) == count_char(a, c) + count_char(b, c),
    decreases a.len(),
{
    if a.len() > 0 {
        lemma_count_concat(a.drop_first(), b, c);
        assert((a + b).drop_first() =~= a.drop_first() + b);
    } else {
        assert(a + b =~= b);
    }
}

proof fn lemma_count_one(c: char)
    ensures
        count_char(seq![c], c) == 1,
{
    assert(seq![c].drop_first() =~= Seq::<char>::empty());
    assert(count_char(Seq::<char>::empty(), c) == 0);
}

proof fn lemma_count_no_lf(s: Seq<char>)
    requires
        no_lf(s),
    ensures
        count_char(s, '\n') == 0,
    decreases s.len(),
{
    if s.len() > 0 {
        assert(s[0] != '\n');
        lemma_count_no_lf(s.drop_first());
    }
}

proof fn lemma_strip_blocks_no_lf(l: Seq<char>)
    requires
        no_lf(l),
    ensures
        no_lf(strip_blocks(l)),
    decreases l.len(),
{
    reveal_strlit("/*");
    reveal_strlit("*/");
    match find_from(l, 0, "/*"@) {
        None => {},
        Some(start) => match find_from(l, start + 2, "*/"@) {
            None => {},
            Some(end) => {
                if 0 <= start && start + 2 <= end && end + 2 <= l.len() {
                    let m = l.subrange(0, start) + seq![' '] + l.subrange(end + 2, l.len() as int);
                    assert forall|i: int| 0 <= i < m.len() implies #[trigger] m[i] != '\n' by {
                        if i < start {
                            assert(m[i] == l[i]);
                        } else if i > start {
                            assert(m[i] == l[end + 2 + i - start - 1]);
                        }
                    }
                    lemma_strip_blocks_no_lf(m);
                }
            },
        },
    }
}

proof fn lemma_trim_end_no_lf(s: Seq<char>)
    requires
        no_lf(s),
    ensures
        no_lf(crate::text::trim_end(s)),
    decreases s.len(),
{
    if s.len() > 0 && crate::text::is_uws(s.last()) {
        assert forall|i: int| 0 <= i < s.drop_last().len() implies #[trigger] s.drop_last()[i] != '\n' by {
            assert(s.drop_last()[i] == s[i]);
        }
        lemma_trim_end_no_lf(s.drop_last());
    }
}

proof fn lemma_strip_line_no_lf(l: Seq<char>)
    requires
        no_lf(l),
    ensures
        no_lf(strip_directive_line(l)),
{
    let cut = match find_from(l, 0, "//"@) {
        Some(p) => l.subrange(0, p),
        None => l,
    };
    lemma_find_from(l, 0, "//"@);
    assert forall|i: int| 0 <= i < cut.len() implies #[trigger] cut[i] != '\n' by {
        assert(cut[i] == l[i]);
    }
    lemma_strip_blocks_no_lf(cut);
    lemma_trim_end_no_lf(strip_blocks(cut));
}

/// The lines of `s` hold no line feed, and there is one per line feed of
/// `s`, plus one for a last line without one.
proof fn lemma_lines_count(s: Seq<char>)
    ensures
        forall|k: int| 0 <= k < spec_lines(s).len() ==> no_lf(#[trigger] spec_lines(s)[k]),
        spec_lines(s).len() == count_char(s, '\n') + (if s.len() > 0 && s.last() != '\n' { 1int } else { 0int }),
    decreases s.len(),
{
    if s.len() > 0 {
        let e = next_lf_from0(s);
        lemma_next_lf(s, 0);
        let raw = s.subrange(0, e);
        let line = if e < s.len() && raw.len() > 0 && raw.last() == '\r' { raw.drop_last() } else { raw };
        assert forall|i: int| 0 <= i < line.len() implies #[trigger] line[i] != '\n' by {
            assert(line[i] == s[i]);
        }
        assert(no_lf(raw)) by {
            assert forall|i: int| 0 <= i < raw.len() implies #[trigger] raw[i] != '\n' by {
                assert(raw[i] == s[i]);
            }
        }
        lemma_count_no_lf(raw);
        if e >= s.len() {
            assert(raw =~= s);
            assert(spec_lines(s) == seq![line]);
        } else {
            let rest = s.subrange(e + 1, s.len() as int);
            lemma_lines_count(rest);
            assert(spec_lines(s) == seq![line] + spec_lines(rest));
            assert(s =~= raw + seq!['\n'] + rest);
            lemma_count_concat(raw + seq!['\n'], rest, '\n');
            lemma_count_concat(raw, seq!['\n'], '\n');
            lemma_count_one('\n');
            if rest.len() > 0 {
                assert(rest.last() == s.last());
            } else {
                assert(s.last() == '\n');
            }
            assert forall|k: int| 0 <= k < spec_lines(s).len() implies no_lf(#[trigger] spec_lines(s)[k]) by {
                if k > 0 {
                    assert(spec_lines(s)[k] == spec_lines(rest)[k - 1]);
                }
            }
        }
    }
}

/// Processing lines of no line feed emits one line feed per line.
proof fn lemma_strip_lines_count(lines: Seq<Seq<char>>, c: bool)
    requires
        forall|k: int| 0 <= k < lines.len() ==> no_lf(#[trigger] lines[k]),
    ensures
        count_char(strip_lines(lines, c), '\n') == lines.len(),
        lines.len() > 0 ==> strip_lines(lines, c).len() > 0 && strip_lines(lines, c).last() == '\n',
    decreases lines.len(),
{
    if lines.len() > 0 {
        let l = lines[0];
        let rest = lines.drop_first();
        assert(no_lf(l));
        assert forall|k: int| 0 <= k < rest.len() implies no_lf(#[trigger] rest[k]) by {
            assert(rest[k] == lines[k + 1]);
        }
        let t = if c || is_directive_line(l) { strip_directive_line(l) } else { l };
        let c2 = if c || is_directive_line(l) { t.len() > 0 && t.last() == '\\' } else { false };
        if c || is_directive_line(l) {
            lemma_strip_line_no_lf(l);
        }
        lemma_strip_lines_count(rest, c2);
        let tail = strip_lines(rest, c2);
        assert(strip_lines(lines, c) == t + seq!['\n'] + tail);
        lemma_count_no_lf(t);
        lemma_count_concat(t + seq!['\n'], tail, '\n');
        lemma_count_concat(t, seq!['\n'], '\n');
        lemma_count_one('\n');
        if rest.len() == 0 {
            assert(tail.len() == 0);
        }
    }
}

/// Stripping comments from directive lines keeps every line: the result
/// has as many line feeds as the input.
pub proof fn law_strip_keeps_line_count(s: Seq<char>)
    ensures
        count_char(spec_strip_directive_comments(s), '\n') == count_char(s, '\n'),
{
    lemma_lines_count(s);
    let lines = spec_lines(s);
    lemma_strip_lines_count(lines, false);
    let out = strip_lines(lines, false);
    if s.len() > 0 && s.last() != '\n' && out.len() > 0 {
        assert(out =~= out.drop_last() + seq![out.last()]);
        lemma_count_concat(out.drop_last(), seq![out.last()], '\n');
        lemma_count_one('\n');
    }
}

/// A line that is no directive and does not continue one comes out
/// unchanged, followed by its line feed.
pub proof fn law_plain_line_unchanged(lines: Seq<Seq<char>>)
    requires
        lines.len() > 0,
        !is_directive_line(lines[0]),
    ensures
        strip_lines(lines, false) == lines[0] + seq!['\n'] + strip_lines(lines.drop_first(), false),
{
}

} // verus!
