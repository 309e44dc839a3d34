//! A small GLSL tokenizer for the text the parser keeps opaque: `#define`
//! bodies and `#if` conditions. Used to find the identifiers in them and to
//! squeeze their whitespace without gluing tokens together.
use vstd::prelude::*;
use crate::text::{is_ws, is_alpha, is_alnum, is_digit, alpha, alnum, digit, ws, chars_of, push_chars, push_char, str_eq};

verus! {

broadcast use vstd::string::group_string_axioms;

/// Token kinds.
#[derive(Debug, Clone, Copy, PartialEq, Eq, Structural)]
pub enum TokKind {
    Ident,
    Number,
    Punct,
    Other,
}

/// A token: a slice of the tokenized text.
#[derive(Debug, Clone, Copy, PartialEq, Eq)]
pub enum Tok<'a> {
    Ident(&'a str),
    /// Preprocessing number: `1`, `1.5f`, `.5`, `1e-3`, `0x1F`.
    Number(&'a str),
    Punct(&'a str),
    /// Anything else (one character).
    Other(&'a str),
}

impl<'a> Tok<'a> {
    pub open spec fn kind(&self) -> TokKind {
        match *self {
            Tok::Ident(_) => TokKind::Ident,
            Tok::Number(_) => TokKind::Number,
            Tok::Punct(_) => TokKind::Punct,
            Tok::Other(_) => TokKind::Other,
        }
    }

    pub open spec fn spec_text(&self) -> Seq<char> {
        match *self {
            Tok::Ident(s) | Tok::Number(s) | Tok::Punct(s) | Tok::Other(s) => s@,
        }
    }

    /// The token's text.
    pub fn text(&self) -> (r: &'a str)
        ensures
            r@ == self.spec_text(),
    {
        match *self {
            Tok::Ident(s) | Tok::Number(s) | Tok::Punct(s) | Tok::Other(s) => s,
        }
    }
}

pub open spec fn is_ident_start_char(c: char) -> bool {
    is_alpha(c) || c == '_'
}

pub open spec fn is_ident_char_spec(c: char) -> bool {
    is_alnum(c) || c == '_'
}

fn is_ident_start(c: char) -> (r: bool)
    ensures
        r == is_ident_start_char(c),
{
    alpha(c) || c == '_'
}

fn is_ident_char(c: char) -> (r: bool)
    ensures
        r == is_ident_char_spec(c),
{
    alnum(c) || c == '_'
}

/// The two-character punctuators.
pub open spec fn is_punct2(a: char, b: char) -> bool {
    (a == '+' && b == '+') || (a == '-' && b == '-') || (a == '<' && b == '<') || (a == '>' && b == '>')
        || (a == '<' && b == '=') || (a == '>' && b == '=') || (a == '=' && b == '=') || (a == '!' && b == '=')
        || (a == '&' && b == '&') || (a == '|' && b == '|') || (a == '^' && b == '^') || (a == '+' && b == '=')
        || (a == '-' && b == '=') || (a == '*' && b == '=') || (a == '/' && b == '=') || (a == '%' && b == '=')
        || (a == '&' && b == '=') || (a == '|' && b == '=') || (a == '^' && b == '=') || (a == '#' && b == '#')
}

/// The single-character punctuators.
pub open spec fn is_punct1(c: char) -> bool {
    c == '+' || c == '-' || c == '*' || c == '/' || c == '%' || c == '<' || c == '>' || c == '='
        || c == '!' || c == '~' || c == '&' || c == '|' || c == '^' || c == '?' || c == ':'
        || c == ';' || c == ',' || c == '.' || c == '(' || c == ')' || c == '{' || c == '}'
        || c == '[' || c == ']' || c == '#'
}

fn punct2(a: char, b: char) -> (r: bool)
    ensures
        r == is_punct2(a, b),
{
    (a == '+' && b == '+') || (a == '-' && b == '-') || (a == '<' && b == '<') || (a == '>' && b == '>')
        || (a == '<' && b == '=') || (a == '>' && b == '=') || (a == '=' && b == '=') || (a == '!' && b == '=')
        || (a == '&' && b == '&') || (a == '|' && b == '|') || (a == '^' && b == '^') || (a == '+' && b == '=')
        || (a == '-' && b == '=') || (a == '*' && b == '=') || (a == '/' && b == '=') || (a == '%' && b == '=')
        || (a == '&' && b == '=') || (a == '|' && b == '=') || (a == '^' && b == '=') || (a == '#' && b == '#')
}

fn punct1(c: char) -> (r: bool)
    ensures
        r == is_punct1(c),
{
    c == '+' || c == '-' || c == '*' || c == '/' || c == '%' || c == '<' || c == '>' || c == '='
        || c == '!' || c == '~' || c == '&' || c == '|' || c == '^' || c == '?' || c == ':'
        || c == ';' || c == ',' || c == '.' || c == '(' || c == ')' || c == '{' || c == '}'
        || c == '[' || c == ']' || c == '#'
}

/// End of the identifier that continues at `j`.
pub open spec fn ident_end(s: Seq<char>, j: int) -> int
    decreases s.len() - j,
{
    if 0 <= j < s.len() && is_ident_char_spec(s[j]) {
        ident_end(s, j + 1)
    } else {
        j
    }
}

/// End of the preprocessing number that continues at `j` (`j >= 1`).
pub open spec fn number_end(s: Seq<char>, j: int) -> int
    decreases s.len() - j,
{
    if 1 <= j < s.len() && (is_ident_char_spec(s[j]) || s[j] == '.' || ((s[j] == '+' || s[j] == '-')
        && (s[j - 1] == 'e' || s[j - 1] == 'E'))) {
        number_end(s, j + 1)
    } else {
        j
    }
}

/// Index of the line feed ending a `//` comment that continues at `j`.
pub open spec fn line_end(s: Seq<char>, j: int) -> int
    decreases s.len() - j,
{
    if 0 <= j < s.len() && s[j] != '\n' {
        line_end(s, j + 1)
    } else {
        j
    }
}

/// Index after the `*/` closing a block comment whose body continues at
/// `j`, or the end of `s`.
pub open spec fn block_end(s: Seq<char>, j: int) -> int
    decreases s.len() - j,
{
    if j < 0 || j + 1 >= s.len() {
        s.len() as int
    } else if s[j] == '*' && s[j + 1] == '/' {
        j + 2
    } else {
        block_end(s, j + 1)
    }
}

/// The tokens of `s` from index `i` on: kind and text of each, in order.
/// Whitespace, `\`-newline continuations and comments are dropped.
pub open spec fn lex(s: Seq<char>, i: int) -> Seq<(TokKind, Seq<char>)>
    decreases s.len() - i,
{
    if i < 0 || i >= s.len() {
        seq![]
    } else {
        let c = s[i];
        if is_ws(c) {
            lex(s, i + 1)
        } else if c == '\\' && i + 1 < s.len() && s[i + 1] == '\n' {
            lex(s, i + 2)
        } else if c == '\\' && i + 2 < s.len() && s[i + 1] == '\r' && s[i + 2] == '\n' {
            lex(s, i + 3)
        } else if c == '/' && i + 1 < s.len() && s[i + 1] == '/' {
            proof {
                lemma_line_end(s, i + 2);
            }
            lex(s, line_end(s, i + 2))
        } else if c == '/' && i + 1 < s.len() && s[i + 1] == '*' {
            proof {
                lemma_block_end(s, i + 2);
            }
            lex(s, block_end(s, i + 2))
        } else if is_ident_start_char(c) {
            proof {
                lemma_ident_end(s, i + 1);
            }
            let e = ident_end(s, i + 1);
            seq![(TokKind::Ident, s.subrange(i, e))] + lex(s, e)
        } else if is_digit(c) || (c == '.' && i + 1 < s.len() && is_digit(s[i + 1])) {
            proof {
                lemma_number_end(s, i + 1);
            }
            let e = number_end(s, i + 1);
            seq![(TokKind::Number, s.subrange(i, e))] + lex(s, e)
        } else if i + 2 < s.len() && ((c == '<' && s[i + 1] == '<' && s[i + 2] == '=') || (c == '>'
            && s[i + 1] == '>' && s[i + 2] == '=')) {
            seq![(TokKind::Punct, s.subrange(i, i + 3))] + lex(s, i + 3)
        } else if i + 1 < s.len() && is_punct2(c, s[i + 1]) {
            seq![(TokKind::Punct, s.subrange(i, i + 2))] + lex(s, i + 2)
        } else if is_punct1(c) {
            seq![(TokKind::Punct, s.subrange(i, i + 1))] + lex(s, i + 1)
        } else {
            seq![(TokKind::Other, s.subrange(i, i + 1))] + lex(s, i + 1)
        }
    }
}

/// The tokens of `s`.
pub open spec fn spec_tokens(s: Seq<char>) -> Seq<(TokKind, Seq<char>)> {
    lex(s, 0)
}

/// Kind and text of each token.
pub open spec fn tok_views(t: Seq<Tok>) -> Seq<(TokKind, Seq<char>)> {
    t.map_values(|x: Tok| (x.kind(), x.spec_text()))
}

pub proof fn lemma_ident_end(s: Seq<char>, j: int)
    requires
        0 <= j <= s.len(),
    ensures
        j <= ident_end(s, j) <= s.len(),
    decreases s.len() - j,
{
    if j < s.len() && is_ident_char_spec(s[j]) {
        lemma_ident_end(s, j + 1);
    }
}

pub proof fn lemma_number_end(s: Seq<char>, j: int)
    requires
        1 <= j <= s.len(),
    ensures
        j <= number_end(s, j) <= s.len(),
    decreases s.len() - j,
{
    if j < s.len() && (is_ident_char_spec(s[j]) || s[j] == '.' || ((s[j] == '+' || s[j] == '-') && (s[j
        - 1] == 'e' || s[j - 1] == 'E'))) {
        lemma_number_end(s, j + 1);
    }
}

pub proof fn lemma_line_end(s: Seq<char>, j: int)
    requires
        0 <= j <= s.len(),
    ensures
        j <= line_end(s, j) <= s.len(),
    decreases s.len() - j,
{
    if j < s.len() && s[j] != '\n' {
        lemma_line_end(s, j + 1);
    }
}

pub proof fn lemma_block_end(s: Seq<char>, j: int)
    requires
        0 <= j <= s.len(),
    ensures
        j <= block_end(s, j) <= s.len(),
    decreases s.len() - j,
{
    if j + 1 >= s.len() {
    } else if s[j] == '*' && s[j + 1] == '/' {
    } else {
        lemma_block_end(s, j + 1);
    }
}

/// Split `src` into tokens. Whitespace, `\`-newline continuations and
/// comments are dropped.
pub fn tokenize(src: &str) -> (r: Vec<Tok<'_>>)
    ensures
        tok_views(r@) == spec_tokens(src@),
{
    let s = chars_of(src);
    let n = s.len();
    let mut out: Vec<Tok<'_>> = Vec::new();
    let mut i: usize = 0;
    proof {
        assert(tok_views(out@) =~= Seq::<(TokKind, Seq<char>)>::empty());
    }
    while i < n
        invariant
            s@ == src@,
            n == s@.len(),
            i <= n,
            tok_views(out@) + lex(s@, i as int) == spec_tokens(src@),
        decreases n - i,
    {
        let c = s[i];
        let ghost before = tok_views(out@);
        if ws(c) {
            i = i + 1;
            continue;
        }
        if c == '\\' {
            if i + 1 < n && s[i + 1] == '\n' {
                i = i + 2;
                continue;
            }
            if n - i > 2 && s[i + 1] == '\r' && s[i + 2] == '\n' {
                i = i + 3;
                continue;
            }
        }
        if c == '/' && i + 1 < n && s[i + 1] == '/' {
            proof {
                lemma_line_end(s@, i + 2);
            }
            let mut j = i + 2;
            while j < n && s[j] != '\n'
                invariant
                    n == s@.len(),
                    i + 2 <= j <= n,
                    line_end(s@, j as int) == line_end(s@, i + 2),
                decreases n - j,
            {
                j = j + 1;
            }
            i = j;
            continue;
        }
        if c == '/' && i + 1 < n && s[i + 1] == '*' {
            proof {
                lemma_block_end(s@, i + 2);
            }
            let mut j = i + 2;
            while j < n - 1 && !(s[j] == '*' && s[j + 1] == '/')
                invariant
                    n == s@.len(),
                    i + 2 <= j <= n,
                    block_end(s@, j as int) == block_end(s@, i + 2),
                decreases n - j,
            {
                j = j + 1;
            }
            let end = if j < n - 1 { j + 2 } else { n };
            i = end;
            continue;
        }
        if is_ident_start(c) {
            let start = i;
            let mut j = i + 1;
            proof {
                lemma_ident_end(s@, j as int);
            }
            while j < n && is_ident_char(s[j])
                invariant
                    n == s@.len(),
                    start < j <= n,
                    ident_end(s@, j as int) == ident_end(s@, start + 1),
                decreases n - j,
            {
                j = j + 1;
            }
            out.push(Tok::Ident(src.substring_char(start, j)));
            proof {
                assert(tok_views(out@) =~= before + seq![(TokKind::Ident, s@.subrange(start as int, j as int))]);
            }
            i = j;
            continue;
        }
        if digit(c) || (c == '.' && i + 1 < n && digit(s[i + 1])) {
            let start = i;
            let mut j = i + 1;
            proof {
                lemma_number_end(s@, j as int);
            }
            while j < n && (is_ident_char(s[j]) || s[j] == '.' || ((s[j] == '+' || s[j] == '-') && (s[j - 1]
                == 'e' || s[j - 1] == 'E')))
                invariant
                    n == s@.len(),
                    start < j <= n,
                    number_end(s@, j as int) == number_end(s@, start + 1),
                decreases n - j,
            {
                j = j + 1;
            }
            out.push(Tok::Number(src.substring_char(start, j)));
            proof {
                assert(tok_views(out@) =~= before + seq![(TokKind::Number, s@.subrange(start as int, j as int))]);
            }
            i = j;
            continue;
        }
        let w: usize;
        let kind: TokKind;
        if n - i > 2 && ((c == '<' && s[i + 1] == '<' && s[i + 2] == '=') || (c == '>' && s[i + 1] == '>'
            && s[i + 2] == '=')) {
            w = 3;
            kind = TokKind::Punct;
        } else if i + 1 < n && punct2(c, s[i + 1]) {
            w = 2;
            kind = TokKind::Punct;
        } else if punct1(c) {
            w = 1;
            kind = TokKind::Punct;
        } else {
            w = 1;
            kind = TokKind::Other;
        }
        let t = src.substring_char(i, i + w);
        match kind {
            TokKind::Punct => out.push(Tok::Punct(t)),
            _ => out.push(Tok::Other(t)),
        }
        proof {
            assert(tok_views(out@) =~= before + seq![(kind, s@.subrange(i as int, i + w))]);
        }
        i = i + w;
    }
    proof {
        assert(tok_views(out@) + lex(s@, i as int) =~= tok_views(out@));
    }
    out
}

/// The identifier texts among `t`, in order.
pub open spec fn ident_texts(t: Seq<(TokKind, Seq<char>)>) -> Seq<Seq<char>>
    decreases t.len(),
{
    if t.len() == 0 {
        seq![]
    } else if t[0].0 == TokKind::Ident {
        seq![t[0].1] + ident_texts(t.drop_first())
    } else {
        ident_texts(t.drop_first())
    }
}

proof fn lemma_ident_texts_push(t: Seq<(TokKind, Seq<char>)>, x: (TokKind, Seq<char>))
    ensures
        ident_texts(t.push(x)) == if x.0 == TokKind::Ident {
            ident_texts(t).push(x.1)
        } else {
            ident_texts(t)
        },
    decreases t.len(),
{
    if t.len() == 0 {
        assert(t.push(x).drop_first() =~= Seq::<(TokKind, Seq<char>)>::empty());
        assert(t.push(x)[0] == x);
        assert(ident_texts(Seq::<(TokKind, Seq<char>)>::empty()) == Seq::<Seq<char>>::empty());
        if x.0 == TokKind::Ident {
            assert(ident_texts(t.push(x)) =~= seq![x.1]);
        }
    } else {
        assert(t.push(x).drop_first() =~= t.drop_first().push(x));
        assert(t.push(x)[0] == t[0]);
        lemma_ident_texts_push(t.drop_first(), x);
        if t[0].0 == TokKind::Ident {
            assert(ident_texts(t.push(x)) == seq![t[0].1] + ident_texts(t.drop_first().push(x)));
            if x.0 == TokKind::Ident {
                assert(seq![t[0].1] + ident_texts(t.drop_first()).push(x.1) =~= (seq![t[0].1] + ident_texts(t.drop_first())).push(x.1));
            }
        }
    }
}

/// All identifier tokens of `s`, in order, with repeats.
pub fn identifiers(s: &str) -> (r: Vec<&str>)
    ensures
        r@.map_values(|x: &str| x@) == ident_texts(spec_tokens(s@)),
{
    let toks = tokenize(s);
    let mut out: Vec<&str> = Vec::new();
    let mut i: usize = 0;
    while i < toks.len()
        invariant
            i <= toks@.len(),
            tok_views(toks@) == spec_tokens(s@),
            out@.map_values(|x: &str| x@) == ident_texts(tok_views(toks@).subrange(0, i as int)),
        decreases toks@.len() - i,
    {
        let ghost prefix = tok_views(toks@).subrange(0, i as int);
        proof {
            assert(tok_views(toks@).subrange(0, i + 1) =~= prefix.push(tok_views(toks@)[i as int]));
            lemma_ident_texts_push(prefix, tok_views(toks@)[i as int]);
        }
        match toks[i] {
            Tok::Ident(x) => {
                let ghost before = out@;
                out.push(x);
                proof {
                    assert(out@.map_values(|x: &str| x@) =~= before.map_values(|x: &str| x@).push(x@));
                }
            },
            _ => {},
        }
        i = i + 1;
    }
    proof {
        assert(tok_views(toks@).subrange(0, i as int) =~= tok_views(toks@));
    }
    out
}

/// Whether the adjacent tokens `a` and `b` need a space between them to lex
/// as the same two tokens.
pub open spec fn spec_needs_space(a: Seq<char>, b: Seq<char>) -> bool {
    if a.len() == 0 || b.len() == 0 {
        false
    } else {
        let t = spec_tokens(a + b);
        !(t.len() == 2 && t[0].1 == a && t[1].1 == b)
    }
}

/// Whether the two adjacent tokens `a` and `b` need a space between them to
/// lex as the same two tokens.
pub fn needs_space(a: &str, b: &str) -> (r: bool)
    ensures
        r == spec_needs_space(a@, b@),
{
    if a.is_empty() || b.is_empty() {
        return false;
    }
    let mut joined = String::new();
    let ac = chars_of(a);
    let bc = chars_of(b);
    push_chars(&mut joined, ac.as_slice());
    push_chars(&mut joined, bc.as_slice());
    proof {
        assert(joined@ =~= a@ + b@);
    }
    let toks = tokenize(joined.as_str());
    if toks.len() != 2 {
        return true;
    }
    !(str_eq(toks[0].text(), a) && str_eq(toks[1].text(), b))
}

/// `toks` joined with a single space exactly where two neighbours would
/// otherwise lex differently; `prev` is the text already emitted before them.
pub open spec fn join_min(toks: Seq<(TokKind, Seq<char>)>) -> Seq<char>
    decreases toks.len(),
{
    if toks.len() == 0 {
        seq![]
    } else if toks.len() == 1 {
        toks[0].1
    } else {
        let init = toks.drop_last();
        let sep = if spec_needs_space(init.last().1, toks.last().1) { seq![' '] } else { seq![] };
        join_min(init) + sep + toks.last().1
    }
}

/// Re-join the tokens of `s` with the minimum whitespace: no comments, no
/// `\`-continuations, a single space only where two tokens would otherwise
/// merge.
pub fn squeeze(s: &str) -> (r: String)
    ensures
        r@ == join_min(spec_tokens(s@)),
        spec_tokens(r@) == spec_tokens(s@),
{
    let toks = tokenize(s);
    let mut out = String::new();
    let mut i: usize = 0;
    while i < toks.len()
        invariant
            i <= toks@.len(),
            tok_views(toks@) == spec_tokens(s@),
            out@ == join_min(tok_views(toks@).subrange(0, i as int)),
        decreases toks@.len() - i,
    {
        let text = toks[i].text();
        let ghost prefix = tok_views(toks@).subrange(0, i as int);
        let ghost next = tok_views(toks@).subrange(0, i + 1);
        proof {
            assert(next.drop_last() =~= prefix);
            assert(next.last() == tok_views(toks@)[i as int]);
        }
        if i > 0 {
            let p = toks[i - 1].text();
            proof {
                assert(prefix.last() == tok_views(toks@)[i - 1]);
            }
            if needs_space(p, text) {
                push_char(&mut out, ' ');
            }
        } else {
            proof {
                assert(next.len() == 1);
            }
        }
        let tc = chars_of(text);
        push_chars(&mut out, tc.as_slice());
        proof {
            if i > 0 {
                let sep = if spec_needs_space(prefix.last().1, next.last().1) { seq![' '] } else { seq![] };
                assert(join_min(next) == join_min(prefix) + sep + next.last().1);
            } else {
                assert(join_min(prefix) =~= Seq::<char>::empty());
            }
            assert(out@ =~= join_min(next));
        }
        i = i + 1;
    }
    proof {
        assert(tok_views(toks@).subrange(0, i as int) =~= tok_views(toks@));
        law_squeeze_keeps_tokens(s@);
    }
    out
}

// ------------------------------------------------------------ squeeze keeps the tokens

/// A token (not whitespace, a comment or a continuation) starts at `i`.
pub open spec fn starts_token(s: Seq<char>, i: int) -> bool {
    &&& 0 <= i < s.len()
    &&& !is_ws(s[i])
    &&& !(s[i] == '\\' && i + 1 < s.len() && s[i + 1] == '\n')
    &&& !(s[i] == '\\' && i + 2 < s.len() && s[i + 1] == '\r' && s[i + 2] == '\n')
    &&& !(s[i] == '/' && i + 1 < s.len() && (s[i + 1] == '/' || s[i + 1] == '*'))
}

/// The token starting at `i` is a number.
pub open spec fn number_at(s: Seq<char>, i: int) -> bool {
    is_digit(s[i]) || (s[i] == '.' && i + 1 < s.len() && is_digit(s[i + 1]))
}

/// The token starting at `i` is a three-character punctuator.
pub open spec fn punct3_at(s: Seq<char>, i: int) -> bool {
    i + 2 < s.len() && ((s[i] == '<' && s[i + 1] == '<' && s[i + 2] == '=') || (s[i] == '>' && s[i + 1] == '>'
        && s[i + 2] == '='))
}

/// The token starting at `i` is a two-character punctuator.
pub open spec fn punct2_at(s: Seq<char>, i: int) -> bool {
    i + 1 < s.len() && is_punct2(s[i], s[i + 1])
}

/// End of the token that starts at `i`.
pub open spec fn tok_end(s: Seq<char>, i: int) -> int {
    if is_ident_start_char(s[i]) {
        ident_end(s, i + 1)
    } else if number_at(s, i) {
        number_end(s, i + 1)
    } else if punct3_at(s, i) {
        i + 3
    } else if punct2_at(s, i) {
        i + 2
    } else {
        i + 1
    }
}

/// Kind of the token that starts at `i`.
pub open spec fn tok_kind(s: Seq<char>, i: int) -> TokKind {
    if is_ident_start_char(s[i]) {
        TokKind::Ident
    } else if number_at(s, i) {
        TokKind::Number
    } else if punct3_at(s, i) || punct2_at(s, i) || is_punct1(s[i]) {
        TokKind::Punct
    } else {
        TokKind::Other
    }
}

/// The kind a token with text `t` has.
pub open spec fn kind_of_text(t: Seq<char>) -> TokKind {
    if is_ident_start_char(t[0]) {
        TokKind::Ident
    } else if is_digit(t[0]) || (t[0] == '.' && t.len() >= 2) {
        TokKind::Number
    } else if t.len() >= 2 || is_punct1(t[0]) {
        TokKind::Punct
    } else {
        TokKind::Other
    }
}

/// A token that lexes back to itself on its own.
pub open spec fn good_token(x: (TokKind, Seq<char>)) -> bool {
    starts_token(x.1, 0) && tok_end(x.1, 0) == x.1.len() && x.0 == kind_of_text(x.1)
}

proof fn lemma_unfold(s: Seq<char>, i: int)
    requires
        starts_token(s, i),
    ensures
        i < tok_end(s, i) <= s.len(),
        lex(s, i) == seq![(tok_kind(s, i), s.subrange(i, tok_end(s, i)))] + lex(s, tok_end(s, i)),
{
    if is_ident_start_char(s[i]) {
        lemma_ident_end(s, i + 1);
    } else if number_at(s, i) {
        lemma_number_end(s, i + 1);
    }
}

proof fn lemma_ident_end_shift(p: Seq<char>, q: Seq<char>, j: int)
    requires
        0 <= j <= q.len(),
    ensures
        ident_end(p + q, p.len() + j) == p.len() + ident_end(q, j),
    decreases q.len() - j,
{
    if j < q.len() && is_ident_char_spec(q[j]) {
        assert((p + q)[p.len() + j] == q[j]);
        lemma_ident_end_shift(p, q, j + 1);
    }
}

proof fn lemma_number_end_shift(p: Seq<char>, q: Seq<char>, j: int)
    requires
        1 <= j <= q.len(),
    ensures
        number_end(p + q, p.len() + j) == p.len() + number_end(q, j),
    decreases q.len() - j,
{
    if j < q.len() {
        assert((p + q)[p.len() + j] == q[j]);
        assert((p + q)[p.len() + j - 1] == q[j - 1]);
        if is_ident_char_spec(q[j]) || q[j] == '.' || ((q[j] == '+' || q[j] == '-') && (q[j - 1] == 'e' || q[j
            - 1] == 'E')) {
            lemma_number_end_shift(p, q, j + 1);
        }
    }
}

proof fn lemma_line_end_shift(p: Seq<char>, q: Seq<char>, j: int)
    requires
        0 <= j <= q.len(),
    ensures
        line_end(p + q, p.len() + j) == p.len() + line_end(q, j),
    decreases q.len() - j,
{
    if j < q.len() {
        assert((p + q)[p.len() + j] == q[j]);
        if q[j] != '\n' {
            lemma_line_end_shift(p, q, j + 1);
        }
    }
}

proof fn lemma_block_end_shift(p: Seq<char>, q: Seq<char>, j: int)
    requires
        0 <= j <= q.len(),
    ensures
        block_end(p + q, p.len() + j) == p.len() + block_end(q, j),
    decreases q.len() - j,
{
    if j + 1 < q.len() {
        assert((p + q)[p.len() + j] == q[j]);
        assert((p + q)[p.len() + j + 1] == q[j + 1]);
        if !(q[j] == '*' && q[j + 1] == '/') {
            lemma_block_end_shift(p, q, j + 1);
        }
    }
}

/// Lexing after a prefix is lexing the rest.
proof fn lemma_lex_shift(p: Seq<char>, q: Seq<char>, i: int)
    requires
        0 <= i <= q.len(),
    ensures
        lex(p + q, p.len() + i) == lex(q, i),
        starts_token(p + q, p.len() + i) == starts_token(q, i),
        starts_token(q, i) ==> tok_end(p + q, p.len() + i) == p.len() + tok_end(q, i) && tok_kind(
            p + q,
            p.len() + i,
        ) == tok_kind(q, i),
    decreases q.len() - i,
{
    let s = p + q;
    let k = p.len() + i;
    if i < q.len() {
        assert(s[k] == q[i]);
        if i + 1 < q.len() {
            assert(s[k + 1] == q[i + 1]);
        }
        if i + 2 < q.len() {
            assert(s[k + 2] == q[i + 2]);
        }
        let c = q[i];
        if is_ws(c) {
            lemma_lex_shift(p, q, i + 1);
        } else if c == '\\' && i + 1 < q.len() && q[i + 1] == '\n' {
            lemma_lex_shift(p, q, i + 2);
        } else if c == '\\' && i + 2 < q.len() && q[i + 1] == '\r' && q[i + 2] == '\n' {
            lemma_lex_shift(p, q, i + 3);
        } else if c == '/' && i + 1 < q.len() && q[i + 1] == '/' {
            lemma_line_end_shift(p, q, i + 2);
            lemma_line_end(q, i + 2);
            lemma_lex_shift(p, q, line_end(q, i + 2));
        } else if c == '/' && i + 1 < q.len() && q[i + 1] == '*' {
            lemma_block_end_shift(p, q, i + 2);
            lemma_block_end(q, i + 2);
            lemma_lex_shift(p, q, block_end(q, i + 2));
        } else {
            lemma_unfold(q, i);
            lemma_unfold(s, k);
            if is_ident_start_char(c) {
                lemma_ident_end_shift(p, q, i + 1);
            } else if number_at(q, i) {
                lemma_number_end_shift(p, q, i + 1);
            }
            lemma_lex_shift(p, q, tok_end(q, i));
            assert(s.subrange(k, tok_end(s, k)) =~= q.subrange(i, tok_end(q, i)));
        }
    }
}

/// The kind of a token is a function of its text.
proof fn lemma_kind_of_text(s: Seq<char>, i: int)
    requires
        starts_token(s, i),
    ensures
        tok_kind(s, i) == kind_of_text(s.subrange(i, tok_end(s, i))),
{
    lemma_unfold(s, i);
    let t = s.subrange(i, tok_end(s, i));
    assert(t[0] == s[i]);
    if !is_ident_start_char(s[i]) && number_at(s, i) && !is_digit(s[i]) {
        assert(is_ident_char_spec(s[i + 1]));
        assert(number_end(s, i + 1) == number_end(s, i + 2));
        lemma_number_end(s, i + 2);
        assert(t.len() >= 2);
    }
}

/// The end of an identifier depends only on the text up to it and on the
/// character that stops it.
proof fn lemma_ident_end_agree(s: Seq<char>, u: Seq<char>, j: int, e: int)
    requires
        0 <= j <= e,
        e == ident_end(s, j),
        e <= s.len(),
        e <= u.len(),
        forall|m: int| 0 <= m < e ==> u[m] == s[m],
        e == u.len() || (e < s.len() && u[e] == s[e]) || (e < u.len() && u[e] == ' '),
    ensures
        ident_end(u, j) == e,
    decreases e - j,
{
    if j < e {
        assert(j < s.len() && is_ident_char_spec(s[j]));
        assert(u[j] == s[j]);
        assert(ident_end(s, j) == ident_end(s, j + 1));
        lemma_ident_end_agree(s, u, j + 1, e);
        assert(ident_end(u, j) == ident_end(u, j + 1));
    } else {
        if e < s.len() {
            lemma_ident_end(s, e + 1);
        }
    }
}

proof fn lemma_number_end_agree(s: Seq<char>, u: Seq<char>, j: int, e: int)
    requires
        1 <= j <= e,
        e == number_end(s, j),
        e <= s.len(),
        e <= u.len(),
        forall|m: int| 0 <= m < e ==> u[m] == s[m],
        e == u.len() || (e < s.len() && u[e] == s[e]) || (e < u.len() && u[e] == ' '),
    ensures
        number_end(u, j) == e,
    decreases e - j,
{
    assert(u[j - 1] == s[j - 1]);
    if j < e {
        assert(j < s.len());
        assert(u[j] == s[j]);
        assert(number_end(s, j) == number_end(s, j + 1));
        lemma_number_end_agree(s, u, j + 1, e);
        assert(number_end(u, j) == number_end(u, j + 1));
    } else {
        if e < s.len() {
            lemma_number_end(s, e + 1);
        }
    }
}

/// Two texts that agree on a token and on what stops it start with the
/// same token.
proof fn lemma_agree(s: Seq<char>, u: Seq<char>)
    requires
        starts_token(s, 0),
        tok_end(s, 0) <= u.len(),
        forall|m: int| 0 <= m < tok_end(s, 0) ==> u[m] == s[m],
        tok_end(s, 0) == u.len() || (tok_end(s, 0) < s.len() && u[tok_end(s, 0)] == s[tok_end(s, 0)]
            && s[tok_end(s, 0)] != '\r') || (tok_end(s, 0) < u.len() && u[tok_end(s, 0)] == ' '),
    ensures
        starts_token(u, 0),
        tok_end(u, 0) == tok_end(s, 0),
        tok_kind(u, 0) == tok_kind(s, 0),
{
    lemma_unfold(s, 0);
    let k = tok_end(s, 0);
    assert(u[0] == s[0]);
    if k >= 2 {
        assert(u[1] == s[1]);
    }
    if k >= 3 {
        assert(u[2] == s[2]);
    }
    if is_ident_start_char(s[0]) {
        lemma_ident_end(s, 1);
        lemma_ident_end_agree(s, u, 1, k);
    } else if number_at(s, 0) {
        lemma_number_end(s, 1);
        if !is_digit(s[0]) {
            assert(is_ident_char_spec(s[1]));
            assert(number_end(s, 1) == number_end(s, 2));
            lemma_number_end(s, 2);
        }
        lemma_number_end_agree(s, u, 1, k);
    }
}

/// Where lexing from `i` finds a token, one starts at some `p >= i` and
/// lexing from `i` is lexing from `p`.
proof fn lemma_first_start(s: Seq<char>, i: int)
    requires
        0 <= i,
        lex(s, i).len() > 0,
    ensures
        exists|p: int| i <= p && starts_token(s, p) && #[trigger] lex(s, p) == lex(s, i),
    decreases s.len() - i,
{
    if starts_token(s, i) {
        assert(lex(s, i) == lex(s, i));
    } else {
        let c = s[i];
        if is_ws(c) {
            lemma_first_start(s, i + 1);
        } else if c == '\\' && i + 1 < s.len() && s[i + 1] == '\n' {
            lemma_first_start(s, i + 2);
        } else if c == '\\' && i + 2 < s.len() && s[i + 1] == '\r' && s[i + 2] == '\n' {
            lemma_first_start(s, i + 3);
        } else if c == '/' && i + 1 < s.len() && s[i + 1] == '/' {
            lemma_line_end(s, i + 2);
            lemma_first_start(s, line_end(s, i + 2));
        } else {
            lemma_block_end(s, i + 2);
            lemma_first_start(s, block_end(s, i + 2));
        }
    }
}

/// The first token found from `i` on: where it starts and ends.
proof fn lemma_first_token(s: Seq<char>, i: int) -> (p: int)
    requires
        0 <= i,
        lex(s, i).len() > 0,
    ensures
        i <= p,
        starts_token(s, p),
        p < tok_end(s, p) <= s.len(),
        s.subrange(p, tok_end(s, p)) == lex(s, i)[0].1,
        lex(s, i).drop_first() == lex(s, tok_end(s, p)),
{
    lemma_first_start(s, i);
    let p = choose|p: int| i <= p && starts_token(s, p) && #[trigger] lex(s, p) == lex(s, i);
    lemma_unfold(s, p);
    let l = lex(s, p);
    assert(l.drop_first() == lex(s, tok_end(s, p)));
    p
}

/// A text that lexes as two tokens whose texts fill it: the first token
/// starts at the beginning.
proof fn lemma_two_tokens(s: Seq<char>, la: int, lb: int)
    requires
        lex(s, 0).len() == 2,
        lex(s, 0)[0].1.len() == la,
        lex(s, 0)[1].1.len() == lb,
        la + lb == s.len(),
    ensures
        starts_token(s, 0),
        tok_end(s, 0) == la,
{
    let p = lemma_first_token(s, 0);
    let e = tok_end(s, p);
    assert(lex(s, e).len() == 1);
    assert(lex(s, e)[0] == lex(s, 0)[1]);
    let p2 = lemma_first_token(s, e);
    let e2 = tok_end(s, p2);
    assert(la == e - p);
    assert(lb == e2 - p2);
}

/// Two texts that lex as themselves without a space in between: the first
/// one's token starts the pair and ends where the first text does.
proof fn lemma_no_space_pair(a: Seq<char>, b: Seq<char>)
    requires
        a.len() > 0,
        b.len() > 0,
        !spec_needs_space(a, b),
    ensures
        starts_token(a + b, 0),
        tok_end(a + b, 0) == a.len(),
{
    lemma_two_tokens(a + b, a.len() as int, b.len() as int);
}

/// Every token the lexer finds lexes back to itself on its own.
proof fn lemma_tokens_good(s: Seq<char>, i: int)
    requires
        0 <= i,
    ensures
        forall|j: int| 0 <= j < lex(s, i).len() ==> good_token(#[trigger] lex(s, i)[j]),
    decreases s.len() - i,
{
    if i < s.len() {
        let c = s[i];
        if is_ws(c) {
            lemma_tokens_good(s, i + 1);
            assert(lex(s, i) == lex(s, i + 1));
        } else if c == '\\' && i + 1 < s.len() && s[i + 1] == '\n' {
            lemma_tokens_good(s, i + 2);
            assert(lex(s, i) == lex(s, i + 2));
        } else if c == '\\' && i + 2 < s.len() && s[i + 1] == '\r' && s[i + 2] == '\n' {
            lemma_tokens_good(s, i + 3);
            assert(lex(s, i) == lex(s, i + 3));
        } else if c == '/' && i + 1 < s.len() && s[i + 1] == '/' {
            lemma_line_end(s, i + 2);
            lemma_tokens_good(s, line_end(s, i + 2));
            assert(lex(s, i) == lex(s, line_end(s, i + 2)));
        } else if c == '/' && i + 1 < s.len() && s[i + 1] == '*' {
            lemma_block_end(s, i + 2);
            lemma_tokens_good(s, block_end(s, i + 2));
            assert(lex(s, i) == lex(s, block_end(s, i + 2)));
        } else {
            lemma_unfold(s, i);
            let e = tok_end(s, i);
            lemma_tokens_good(s, e);
            let pre = s.subrange(0, i);
            let suf = s.subrange(i, s.len() as int);
            assert(pre + suf =~= s);
            lemma_lex_shift(pre, suf, 0);
            let t = s.subrange(i, e);
            assert(t =~= suf.subrange(0, e - i));
            lemma_agree(suf, t);
            lemma_kind_of_text(t, 0);
            assert(t.subrange(0, t.len() as int) =~= t);
            let x = (tok_kind(s, i), t);
            assert(good_token(x));
            let l = lex(s, i);
            assert forall|j: int| 0 <= j < l.len() implies good_token(#[trigger] l[j]) by {
                if j > 0 {
                    assert(l[j] == lex(s, e)[j - 1]);
                }
            }
        }
    }
}

/// The separator `squeeze` puts between `a` and `b`.
pub open spec fn sep(a: Seq<char>, b: Seq<char>) -> Seq<char> {
    if spec_needs_space(a, b) {
        seq![' ']
    } else {
        seq![]
    }
}

/// `join_min` read from the front.
proof fn lemma_join_front(t: Seq<(TokKind, Seq<char>)>)
    requires
        t.len() >= 2,
    ensures
        join_min(t) == t[0].1 + sep(t[0].1, t[1].1) + join_min(t.drop_first()),
    decreases t.len(),
{
    let init = t.drop_last();
    let r = t.drop_first();
    assert(join_min(t) == join_min(init) + sep(init.last().1, t.last().1) + t.last().1);
    if t.len() == 2 {
        assert(init.len() == 1);
        assert(join_min(init) == t[0].1);
        assert(r.len() == 1);
        assert(join_min(r) == t[1].1);
        assert(init.last() == t[0]);
        assert(t.last() == t[1]);
    } else {
        lemma_join_front(init);
        assert(r.drop_last() =~= init.drop_first());
        assert(r.drop_last().last() == init.last());
        assert(r.last() == t.last());
        assert(init.drop_first()[0] == t[1]);
        assert(init[0] == t[0]);
        assert(init[1] == t[1]);
        assert(join_min(r) == join_min(r.drop_last()) + sep(r.drop_last().last().1, r.last().1) + r.last().1);
        assert(join_min(t) =~= t[0].1 + sep(t[0].1, t[1].1) + join_min(r));
    }
}

/// `join_min` starts with the first token's text.
proof fn lemma_join_prefix(t: Seq<(TokKind, Seq<char>)>)
    requires
        t.len() >= 1,
    ensures
        join_min(t).len() >= t[0].1.len(),
        join_min(t).subrange(0, t[0].1.len() as int) == t[0].1,
{
    if t.len() == 1 {
        assert(join_min(t).subrange(0, t[0].1.len() as int) =~= t[0].1);
    } else {
        lemma_join_front(t);
        assert(join_min(t).subrange(0, t[0].1.len() as int) =~= t[0].1);
    }
}

/// Joining good tokens with `squeeze`'s separators lexes back to them.
#[verifier::rlimit(60)]
proof fn lemma_join_lexes_back(t: Seq<(TokKind, Seq<char>)>)
    requires
        forall|j: int| 0 <= j < t.len() ==> good_token(#[trigger] t[j]),
    ensures
        spec_tokens(join_min(t)) == t,
    decreases t.len(),
{
    if t.len() == 0 {
    } else if t.len() == 1 {
        let a = t[0].1;
        assert(good_token(t[0]));
        lemma_unfold(a, 0);
        lemma_kind_of_text(a, 0);
        assert(a.subrange(0, a.len() as int) =~= a);
        assert(spec_tokens(a) =~= t);
    } else {
        let a = t[0].1;
        let b = t[1].1;
        let r = t.drop_first();
        assert(good_token(t[0]));
        assert(good_token(t[1]));
        assert forall|j: int| 0 <= j < r.len() implies good_token(#[trigger] r[j]) by {
            assert(r[j] == t[j + 1]);
        }
        lemma_join_lexes_back(r);
        lemma_join_front(t);
        lemma_join_prefix(r);
        let jr = join_min(r);
        assert(r[0] == t[1]);
        assert(jr[0] == b[0]) by {
            assert(jr.subrange(0, b.len() as int)[0] == jr[0]);
        }
        if spec_needs_space(a, b) {
            let j = a + seq![' '] + jr;
            assert(join_min(t) == j);
            lemma_agree(a, j);
            lemma_kind_of_text(a, 0);
            assert(a.subrange(0, a.len() as int) =~= a);
            lemma_unfold(j, 0);
            assert(j.subrange(0, a.len() as int) =~= a);
            assert(j[a.len() as int] == ' ');
            assert(lex(j, a.len() as int) == lex(j, a.len() as int + 1));
            assert(j =~= (a + seq![' ']) + jr);
            lemma_lex_shift(a + seq![' '], jr, 0);
            assert(spec_tokens(j) =~= t);
        } else {
            let j = a + jr;
            assert(join_min(t) == j) by {
                assert(a + Seq::<char>::empty() + jr =~= j);
            }
            lemma_no_space_pair(a, b);
            let ab = a + b;
            assert(ab[a.len() as int] == b[0]);
            lemma_agree(ab, j);
            lemma_kind_of_text(ab, 0);
            assert(ab.subrange(0, a.len() as int) =~= a);
            lemma_unfold(j, 0);
            assert(j.subrange(0, a.len() as int) =~= a);
            lemma_lex_shift(a, jr, 0);
            assert(spec_tokens(j) =~= t);
        }
    }
}

/// Two tokens written with one space between them lex as exactly those two
/// tokens: a single space always keeps two tokens apart.
pub proof fn law_space_separates(x: (TokKind, Seq<char>), y: (TokKind, Seq<char>))
    requires
        good_token(x),
        good_token(y),
    ensures
        spec_tokens(x.1 + seq![' '] + y.1) == seq![x, y],
{
    let a = x.1;
    let b = y.1;
    lemma_join_lexes_back(seq![y]);
    assert(join_min(seq![y]) == b);
    let j = a + seq![' '] + b;
    lemma_agree(a, j);
    lemma_kind_of_text(a, 0);
    assert(a.subrange(0, a.len() as int) =~= a);
    lemma_unfold(j, 0);
    assert(j.subrange(0, a.len() as int) =~= a);
    assert(j[a.len() as int] == ' ');
    assert(lex(j, a.len() as int) == lex(j, a.len() as int + 1));
    assert(j =~= (a + seq![' ']) + b);
    lemma_lex_shift(a + seq![' '], b, 0);
    assert(spec_tokens(j) =~= seq![x, y]);
}

/// `gap` is a stretch the lexer skips: one whitespace character, a
/// `\`-newline continuation, a `/* */` comment or a `//` comment with its
/// line feed.
pub open spec fn skipped_gap(gap: Seq<char>) -> bool {
    ||| gap.len() == 1 && is_ws(gap[0])
    ||| gap == seq!['\\', '\n']
    ||| gap == seq!['\\', '\r', '\n']
    ||| gap.len() >= 4 && gap[0] == '/' && gap[1] == '*' && gap[gap.len() - 2] == '*' && gap[gap.len() - 1] == '/'
        && forall|m: int| 2 <= m < gap.len() - 2 ==> !(#[trigger] gap[m] == '*' && gap[m + 1] == '/')
    ||| gap.len() >= 3 && gap[0] == '/' && gap[1] == '/' && gap[gap.len() - 1] == '\n'
        && forall|m: int| 2 <= m < gap.len() - 1 ==> #[trigger] gap[m] != '\n'
}

proof fn lemma_block_skip(u: Seq<char>, e: int, j: int)
    requires
        2 <= j <= e - 2,
        e <= u.len(),
        u[e - 2] == '*',
        u[e - 1] == '/',
        forall|m: int| j <= m < e - 2 ==> !(#[trigger] u[m] == '*' && u[m + 1] == '/'),
    ensures
        block_end(u, j) == e,
    decreases e - j,
{
    if j < e - 2 {
        assert(!(u[j] == '*' && u[j + 1] == '/'));
        lemma_block_skip(u, e, j + 1);
    }
}

proof fn lemma_line_skip(u: Seq<char>, e: int, j: int)
    requires
        2 <= j <= e,
        e < u.len(),
        u[e] == '\n',
        forall|m: int| j <= m < e ==> #[trigger] u[m] != '\n',
    ensures
        line_end(u, j) == e,
    decreases e - j,
{
    if j < e {
        lemma_line_skip(u, e, j + 1);
    }
}

/// Whitespace, a `\`-newline continuation and a comment give no token:
/// putting one of them in front of a text leaves its tokens as they were.
pub proof fn law_skipped_text(gap: Seq<char>, s: Seq<char>)
    requires
        skipped_gap(gap),
    ensures
        spec_tokens(gap + s) == spec_tokens(s),
{
    lemma_lex_shift(gap, s, 0);
    let u = gap + s;
    assert(lex(u, gap.len() as int) == lex(s, 0));
    assert(u[0] == gap[0]);
    if gap.len() >= 4 && gap[0] == '/' && gap[1] == '*' && gap[gap.len() - 2] == '*' && gap[gap.len() - 1] == '/'
        && forall|m: int| 2 <= m < gap.len() - 2 ==> !(#[trigger] gap[m] == '*' && gap[m + 1] == '/') {
        assert forall|m: int| 2 <= m < gap.len() - 2 implies !(#[trigger] u[m] == '*' && u[m + 1] == '/') by {
            assert(u[m] == gap[m]);
            assert(u[m + 1] == gap[m + 1]);
            assert(!(gap[m] == '*' && gap[m + 1] == '/'));
        }
        assert(u[gap.len() - 2] == gap[gap.len() - 2]);
        assert(u[gap.len() - 1] == gap[gap.len() - 1]);
        lemma_block_skip(u, gap.len() as int, 2);
        assert(u[1] == gap[1]);
    } else if gap.len() >= 3 && gap[0] == '/' && gap[1] == '/' {
        let e = gap.len() - 1;
        assert forall|m: int| 2 <= m < e implies #[trigger] u[m] != '\n' by {
            assert(u[m] == gap[m]);
        }
        assert(u[e] == gap[e]);
        lemma_line_skip(u, e, 2);
        assert(u[1] == gap[1]);
        assert(lex(u, e) == lex(u, e + 1));
    } else if gap.len() >= 2 {
        assert(u[1] == gap[1]);
        if gap.len() == 3 {
            assert(u[2] == gap[2]);
        }
    }
}

/// What `squeeze` returns lexes as the same tokens as its input.
pub proof fn law_squeeze_keeps_tokens(s: Seq<char>)
    ensures
        spec_tokens(join_min(spec_tokens(s))) == spec_tokens(s),
{
    lemma_tokens_good(s, 0);
    lemma_join_lexes_back(spec_tokens(s));
}

} // verus!
