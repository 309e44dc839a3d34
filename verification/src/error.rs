//! Why a crush failed. A failed crush outputs the unchanged input
//! (passthrough); callers decide whether that is acceptable by `exit_code`.
use vstd::prelude::*;
use crate::text::{chars_of, decimal, decimal_chars, end_without_ws, extend_chars, extend_str, string_of, trim_end};

verus! {

/// Why crushing failed.
#[derive(Debug, Clone, PartialEq)]
pub enum CrushError {
    /// The parser rejected the input.
    Parse(String),
    /// The parser accepted a prefix of the input and stopped. `consumed` is
    /// the byte offset where parsing stopped, `rest` the beginning of the
    /// unparsed text.
    PartialParse { consumed: usize, rest: String },
    /// The crushed output does not parse again.
    Reparse(String),
    /// The crushed output parses to a different syntax tree than intended.
    AstMismatch(String),
    /// Re-resolving the crushed output binds identifiers differently.
    ScopeMismatch(String),
    /// The renamer gave one name to two symbols that must not share one.
    NameCollision(String),
    /// Valid GLSL the crusher does not handle.
    Unsupported(String),
    /// More symbols than the sentinel encoding can address.
    TooManySymbols(usize),
}

/// Process exit code of an error: 1 input problem, 2 self-check failure,
/// 3 unsupported input.
pub open spec fn spec_exit_code(e: CrushError) -> i32 {
    match e {
        CrushError::Parse(_) | CrushError::PartialParse { .. } => 1,
        CrushError::Reparse(_)
        | CrushError::AstMismatch(_)
        | CrushError::ScopeMismatch(_)
        | CrushError::NameCollision(_) => 2,
        CrushError::Unsupported(_) | CrushError::TooManySymbols(_) => 3,
    }
}


/// The lower-case hexadecimal digit for `d < 16`.
pub open spec fn lower_hex_digit(d: nat) -> char {
    if d < 10 {
        (('0' as nat) + d) as char
    } else {
        (('a' as nat) + (d - 10)) as char
    }
}

/// The lower-case hexadecimal digits of `n`, without leading zeros.
pub open spec fn hex_digits(n: nat) -> Seq<char>
    decreases n,
{
    if n < 16 {
        seq![lower_hex_digit(n)]
    } else {
        hex_digits(n / 16).push(lower_hex_digit(n % 16))
    }
}

/// The characters that a quoted string shows as `\u{..}`: the C0 and C1
/// control characters and DEL, the soft hyphen, the combining diacritical
/// marks, and the invisible format characters (the Arabic letter mark, the
/// Mongolian vowel separator, the zero-width and direction marks, the line
/// and paragraph separators, the embedding and isolate controls, the
/// invisible operators, the byte order mark and the interlinear
/// annotation characters).
pub open spec fn is_debug_escaped(u: u32) -> bool {
    u < 0x20 || (0x7F <= u && u <= 0x9F) || u == 0xAD || (0x300 <= u && u <= 0x36F) || u == 0x61C || u == 0x180E
        || (0x200B <= u && u <= 0x200F) || (0x2028 <= u && u <= 0x202E) || (0x2060 <= u && u <= 0x2064) || (0x2066 <= u
        && u <= 0x206F) || u == 0xFEFF || (0xFFF9 <= u && u <= 0xFFFB)
}

/// How a quoted string shows the character `c`: the escapes of Rust's
/// `Debug` for the backslash, the double quote, tab, line feed, carriage
/// return and NUL; `\u{..}` with its code in hexadecimal for the other
/// characters of `is_debug_escaped`.
pub open spec fn spec_escape_char(c: char) -> Seq<char> {
    if c == '\t' {
        seq!['\\', 't']
    } else if c == '\n' {
        seq!['\\', 'n']
    } else if c == '\r' {
        seq!['\\', 'r']
    } else if c == '\\' {
        seq!['\\', '\\']
    } else if c == '"' {
        seq!['\\', '"']
    } else if c == '\0' {
        seq!['\\', '0']
    } else if is_debug_escaped(c as u32) {
        seq!['\\', 'u', '{'] + hex_digits(c as nat) + seq!['}']
    } else {
        seq![c]
    }
}

/// The characters of `s`, each escaped as `spec_escape_char` says.
pub open spec fn spec_escape(s: Seq<char>) -> Seq<char>
    decreases s.len(),
{
    if s.len() == 0 {
        seq![]
    } else {
        spec_escape(s.drop_last()) + spec_escape_char(s.last())
    }
}

/// `s` in double quotes, escaped.
pub open spec fn spec_quoted(s: Seq<char>) -> Seq<char> {
    seq!['"'] + spec_escape(s) + seq!['"']
}

/// The one-line description of an error.
pub open spec fn spec_message(e: CrushError) -> Seq<char> {
    match e {
        CrushError::Parse(info) => "parse error: "@ + trim_end(info@),
        CrushError::PartialParse { consumed, rest } => "parse error: unparsed input at byte "@ + decimal(
            consumed as nat,
        ) + " (shader would have been truncated): "@ + spec_quoted(rest@),
        CrushError::Reparse(info) => "self-check: output does not parse: "@ + trim_end(info@),
        CrushError::AstMismatch(info) => "self-check: output parses differently: "@ + info@,
        CrushError::ScopeMismatch(info) => "self-check: identifiers resolve differently: "@ + info@,
        CrushError::NameCollision(info) => "self-check: renaming collision: "@ + info@,
        CrushError::Unsupported(info) => "unsupported: "@ + info@,
        CrushError::TooManySymbols(n) => "too many symbols ("@ + decimal(n as nat) + ")"@,
    }
}

fn lower_hex_digit_of(d: u32) -> (c: char)
    requires
        d < 16,
    ensures
        c == lower_hex_digit(d as nat),
{
    let v: u8 = if d < 10 { 48 + d as u8 } else { 87 + d as u8 };
    v as char
}

/// Append the hexadecimal digits of `n` to `v`.
fn push_hex(v: &mut Vec<char>, n: u32)
    ensures
        final(v)@ == old(v)@ + hex_digits(n as nat),
    decreases n,
{
    if n < 16 {
        v.push(lower_hex_digit_of(n));
    } else {
        push_hex(v, n / 16);
        v.push(lower_hex_digit_of(n % 16));
    }
    proof {
        assert(final(v)@ =~= old(v)@ + hex_digits(n as nat));
    }
}

/// Append `c`, escaped, to `v`.
fn push_escaped(v: &mut Vec<char>, c: char)
    ensures
        final(v)@ == old(v)@ + spec_escape_char(c),
{
    let u = c as u32;
    if c == '\t' {
        v.push('\\');
        v.push('t');
    } else if c == '\n' {
        v.push('\\');
        v.push('n');
    } else if c == '\r' {
        v.push('\\');
        v.push('r');
    } else if c == '\\' {
        v.push('\\');
        v.push('\\');
    } else if c == '"' {
        v.push('\\');
        v.push('"');
    } else if c == '\0' {
        v.push('\\');
        v.push('0');
    } else if u < 0x20 || (0x7F <= u && u <= 0x9F) || u == 0xAD || (0x300 <= u && u <= 0x36F) || u == 0x61C || u == 0x180E
        || (0x200B <= u && u <= 0x200F) || (0x2028 <= u && u <= 0x202E) || (0x2060 <= u && u <= 0x2064) || (0x2066 <= u
        && u <= 0x206F) || u == 0xFEFF || (0xFFF9 <= u && u <= 0xFFFB) {
        v.push('\\');
        v.push('u');
        v.push('{');
        push_hex(v, u);
        v.push('}');
    } else {
        v.push(c);
    }
    proof {
        assert(final(v)@ =~= old(v)@ + spec_escape_char(c));
    }
}

/// Append `s` in double quotes, escaped, to `v`.
fn push_quoted(v: &mut Vec<char>, s: &str)
    ensures
        final(v)@ == old(v)@ + spec_quoted(s@),
{
    let c = chars_of(s);
    v.push('"');
    let ghost start = v@;
    let mut i: usize = 0;
    while i < c.len()
        invariant
            i <= c@.len(),
            c@ == s@,
            start == old(v)@.push('"'),
            v@ == start + spec_escape(c@.subrange(0, i as int)),
        decreases c@.len() - i,
    {
        let ghost pre = c@.subrange(0, i as int);
        proof {
            assert(c@.subrange(0, i + 1).drop_last() =~= pre);
        }
        push_escaped(v, c[i]);
        i = i + 1;
        proof {
            assert(v@ =~= start + spec_escape(c@.subrange(0, i as int)));
        }
    }
    v.push('"');
    proof {
        assert(c@.subrange(0, c@.len() as int) =~= s@);
        assert(v@ =~= old(v)@ + spec_quoted(s@));
    }
}

/// Append `info` without its trailing whitespace to `v`.
fn push_trimmed(v: &mut Vec<char>, info: &str)
    ensures
        final(v)@ == old(v)@ + trim_end(info@),
{
    let c = chars_of(info);
    let n = end_without_ws(c.as_slice(), c.len());
    proof {
        assert(c@.subrange(0, c@.len() as int) =~= info@);
    }
    extend_chars(v, &c.as_slice()[0..n]);
    proof {
        assert(c@.subrange(0, n as int) == c@.subrange(0, n as int));
    }
}

impl CrushError {
    /// A copy of this error.
    pub fn duplicate(&self) -> (r: CrushError)
        ensures
            r == *self,
    {
        match self {
            CrushError::Parse(m) => CrushError::Parse(m.clone()),
            CrushError::PartialParse { consumed, rest } => CrushError::PartialParse { consumed: *consumed, rest: rest.clone() },
            CrushError::Reparse(m) => CrushError::Reparse(m.clone()),
            CrushError::AstMismatch(m) => CrushError::AstMismatch(m.clone()),
            CrushError::ScopeMismatch(m) => CrushError::ScopeMismatch(m.clone()),
            CrushError::NameCollision(m) => CrushError::NameCollision(m.clone()),
            CrushError::Unsupported(m) => CrushError::Unsupported(m.clone()),
            CrushError::TooManySymbols(n) => CrushError::TooManySymbols(*n),
        }
    }

    /// Process exit code for the CLI: 1 input problem, 2 self-check failure,
    /// 3 unsupported input.
    pub fn exit_code(&self) -> (r: i32)
        ensures
            r == spec_exit_code(*self),
            1 <= r <= 3,
    {
        match self {
            CrushError::Parse(_) | CrushError::PartialParse { .. } => 1,
            CrushError::Reparse(_)
            | CrushError::AstMismatch(_)
            | CrushError::ScopeMismatch(_)
            | CrushError::NameCollision(_) => 2,
            CrushError::Unsupported(_) | CrushError::TooManySymbols(_) => 3,
        }
    }
    /// The one-line description of the error, as the command line and the
    /// C interface report it.
    pub fn message(&self) -> (r: String)
        ensures
            r@ == spec_message(*self),
    {
        let mut v: Vec<char> = Vec::new();
        match self {
            CrushError::Parse(info) => {
                extend_str(&mut v, "parse error: ");
                push_trimmed(&mut v, info.as_str());
            },
            CrushError::PartialParse { consumed, rest } => {
                extend_str(&mut v, "parse error: unparsed input at byte ");
                let d = decimal_chars(*consumed as u64);
                extend_chars(&mut v, d.as_slice());
                extend_str(&mut v, " (shader would have been truncated): ");
                push_quoted(&mut v, rest.as_str());
            },
            CrushError::Reparse(info) => {
                extend_str(&mut v, "self-check: output does not parse: ");
                push_trimmed(&mut v, info.as_str());
            },
            CrushError::AstMismatch(info) => {
                extend_str(&mut v, "self-check: output parses differently: ");
                extend_str(&mut v, info.as_str());
            },
            CrushError::ScopeMismatch(info) => {
                extend_str(&mut v, "self-check: identifiers resolve differently: ");
                extend_str(&mut v, info.as_str());
            },
            CrushError::NameCollision(info) => {
                extend_str(&mut v, "self-check: renaming collision: ");
                extend_str(&mut v, info.as_str());
            },
            CrushError::Unsupported(info) => {
                extend_str(&mut v, "unsupported: ");
                extend_str(&mut v, info.as_str());
            },
            CrushError::TooManySymbols(n) => {
                extend_str(&mut v, "too many symbols (");
                let d = decimal_chars(*n as u64);
                extend_chars(&mut v, d.as_slice());
                extend_str(&mut v, ")");
            },
        }
        proof {
            assert(v@ =~= spec_message(*self));
        }
        string_of(v.as_slice())
    }
}

} // verus!
