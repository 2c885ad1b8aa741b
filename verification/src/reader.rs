//! Parses `.ralr` source text into [`OpCode`] instructions.
//!
//! Instructions are semicolon-delimited. Each instruction consists of a
//! keyword followed by whitespace-separated operands. Quoted strings are
//! kept as single tokens even when they contain spaces.
//!
//! Float literals are read by a function that the caller passes in (the
//! library does no floating-point arithmetic); it must give one answer per
//! text, as `str::parse::<f32>` followed by `f32::to_bits` does.
use vstd::prelude::*;

use crate::op_code::{Operand, OperandV};
use crate::register::Register;
use crate::variable::{Variable, VariableV};
use crate::scan::{lemma_quoted_end_bounds, quoted_end, scan_quoted};
use crate::text::{
    all_hex, char_from_code, digits_value, hex_digit, hex_val, is_ascii_ws, is_ascii_ws_char, is_hex,
    is_scalar, lemma_digits_value_prefix, lemma_trim_bounds, push_char, string_of, trim_span, trim_spec, all_digits,
    is_digit, parse_digits, span_eq,
};
use crate::value::{Value, ValueV};

verus! {

/// Why a source text could not be assembled.
#[derive(Debug, Clone, Copy, PartialEq, Eq, Structural)]
pub enum ParseError {
    /// "No value!": an instruction lacks an operand.
    NoValue,
    /// "empty token"
    EmptyToken,
    /// "invalid escape sequence"
    InvalidEscape,
    /// "unrecognized token"
    UnrecognizedToken,
    /// "unknown register"
    UnknownRegister,
    /// "expected register"
    ExpectedRegister,
    /// A string literal ends in a lone backslash at the end of the text.
    UnterminatedEscape,
    /// "unexpected end of expression"
    UnexpectedEnd,
    /// "expected closing ')'"
    ExpectedCloseParen,
    /// "empty expression"
    EmptyExpression,
    /// "unexpected token in expression"
    UnexpectedToken,
    /// A field access with an empty segment, such as `a..b`.
    MalformedFieldAccess,
    /// The negation of a literal that has no negative of its type, such as
    /// `-` applied to the `i128` minimum.
    NegationOverflow,
    /// An argument list with a `)` that closes nothing.
    UnbalancedParen,
    /// "io requires sub-command: write, writeln, read, readln"
    IoMissingSubcommand,
    /// "io write requires an operand"
    IoWriteMissingOperand,
    /// "io writeln requires an operand"
    IoWritelnMissingOperand,
    /// "io read requires a register"
    IoReadMissingRegister,
    /// "io readln requires a register"
    IoReadlnMissingRegister,
    /// "unknown io sub-command"
    UnknownIoSubcommand,
    /// "expected '=' in let statement"
    LetMissingEquals,
    /// "expected variable name in let statement"
    LetMissingName,
    /// "expected expression after '=' in let statement"
    LetMissingExpression,
    /// "expected '(' in function call"
    CallMissingOpenParen,
    /// "expected function name before '('"
    CallMissingName,
    /// "expected ')' in function call"
    CallMissingCloseParen,
    /// "expected '(' in new expression"
    NewMissingOpenParen,
    /// "expected class name after 'new'"
    NewMissingClass,
    /// "expected ')' in new expression"
    NewMissingCloseParen,
    /// "expected '(' in method call"
    MethodMissingOpenParen,
    /// "expected '.' in method call"
    MethodMissingDot,
    /// "malformed method call"
    MalformedMethodCall,
    /// "expected ')' in method call"
    MethodMissingCloseParen,
    /// "malformed field assignment"
    MalformedFieldAssignment,
    /// "malformed field in class (expected a field declaration)"
    MalformedClassField,
    /// "class body may only contain field declarations and methods"
    InvalidClassMember,
    /// "expected '{' after else if condition"
    ElseIfMissingBrace,
    /// "expected '{' or 'if' after else"
    ElseMissingBrace,
    /// "fn requires a name"
    FnMissingName,
    /// "expected '(' after function name"
    FnMissingOpenParen,
    /// "expected function name before '('"
    FnMissingNameBeforeParen,
    /// "expected ')' after parameters"
    FnMissingCloseParen,
    /// "expected '{' after function parameters"
    FnMissingBrace,
    /// "class requires a name"
    ClassMissingName,
    /// "expected '{' after class name"
    ClassMissingBrace,
    /// "while statement requires a condition"
    WhileMissingCondition,
    /// "expected '{' after while condition"
    WhileMissingBrace,
    /// "if statement requires a condition"
    IfMissingCondition,
    /// "expected '{' after if condition"
    IfMissingBrace,
}

// ── Float literals ──────────────────────────────────────────────────

/// `f` can be called on every text and gives one answer per text.
pub open spec fn reads_floats<F: Fn(&str) -> Option<u32>>(f: F) -> bool {
    &&& forall|s: &str| #[trigger] call_requires(f, (s,))
    &&& forall|s1: &str, s2: &str, r1: Option<u32>, r2: Option<u32>|
        #[trigger] call_ensures(f, (s1,), r1) && #[trigger] call_ensures(f, (s2,), r2) && s1@ == s2@
            ==> r1 == r2
}

/// `f` may answer `r` for the text `t`.
pub open spec fn answers<F: Fn(&str) -> Option<u32>>(f: F, t: Seq<char>, r: Option<u32>) -> bool {
    exists|s: &str| s@ == t && #[trigger] call_ensures(f, (s,), r)
}

/// What `f` answers for the text `t`.
pub open spec fn float_reading<F: Fn(&str) -> Option<u32>>(f: F, t: Seq<char>) -> Option<u32> {
    choose|r: Option<u32>| answers(f, t, r)
}

/// Calls `f` on `cs[start..end]`.
fn read_float<F: Fn(&str) -> Option<u32>>(f: &F, cs: &Vec<char>, start: usize, end: usize) -> (r: Option<u32>)
    requires
        reads_floats(*f),
        start <= end <= cs@.len(),
    ensures
        r == float_reading(*f, cs@.subrange(start as int, end as int)),
{
    let text = string_of(cs, start, end);
    let s = text.as_str();
    let r = f(s);
    proof {
        let t = cs@.subrange(start as int, end as int);
        assert(answers(*f, t, r));
        let r2 = float_reading(*f, t);
        let s2 = choose|s2: &str| s2@ == t && #[trigger] call_ensures(*f, (s2,), r2);
        assert(call_ensures(*f, (s2,), r2));
    }
    r
}

// ── Instruction tokenizer ───────────────────────────────────────────

/// End of the run of non-whitespace characters that starts at `i`.
pub open spec fn word_end(s: Seq<char>, i: int, end: int) -> int
    decreases end - i,
{
    if i < end && !is_ascii_ws(s[i]) {
        word_end(s, i + 1, end)
    } else {
        i
    }
}

pub proof fn lemma_word_end_bounds(s: Seq<char>, i: int, end: int)
    requires
        i <= end,
    ensures
        i <= word_end(s, i, end) <= end,
        i < end && !is_ascii_ws(s[i]) ==> i < word_end(s, i, end),
    decreases end - i,
{
    if i < end && !is_ascii_ws(s[i]) {
        lemma_word_end_bounds(s, i + 1, end);
    }
}

/// `Some(prefix + t)` for `Some(t)`, `None` for `None`.
pub open spec fn prepend_spans(prefix: Seq<(usize, usize)>, rest: Option<Seq<(usize, usize)>>) -> Option<Seq<(usize, usize)>> {
    match rest {
        Some(t) => Some(prefix + t),
        None => None,
    }
}

/// The tokens of `s[i..end]`: runs of non-whitespace characters, except that
/// a token that starts with a quote runs to the end of the string literal
/// (see [`quoted_end`]), spaces and all. `None` where a literal ends in a
/// lone backslash at `end`.
pub open spec fn tokens_spec(s: Seq<char>, i: int, end: int) -> Option<Seq<(usize, usize)>>
    decreases end - i,
{
    if i >= end {
        Some(seq![])
    } else if is_ascii_ws(s[i]) {
        tokens_spec(s, i + 1, end)
    } else if s[i] == '"' {
        let k = quoted_end(s, i + 1, end);
        if k > end {
            None
        } else {
            proof { lemma_quoted_end_bounds(s, i + 1, end); }
            prepend_spans(seq![(i as usize, k as usize)], tokens_spec(s, k, end))
        }
    } else {
        let k = word_end(s, i, end);
        proof { lemma_word_end_bounds(s, i, end); }
        prepend_spans(seq![(i as usize, k as usize)], tokens_spec(s, k, end))
    }
}

/// The tokens of an instruction: `cs[start..end]` trimmed, then split as
/// [`tokens_spec`] says.
pub open spec fn instruction_tokens(s: Seq<char>, start: int, end: int) -> Option<Seq<(usize, usize)>> {
    let (a, b) = trim_spec(s, start, end);
    tokens_spec(s, a, b)
}

/// Splits the instruction text `cs[start..end]` into tokens, returned as
/// spans of `cs`.
pub fn tokenize(cs: &Vec<char>, start: usize, end: usize) -> (r: Result<Vec<(usize, usize)>, ParseError>)
    requires
        start <= end <= cs@.len(),
        end < usize::MAX,
    ensures
        match instruction_tokens(cs@, start as int, end as int) {
            Some(t) => r matches Ok(v) && v@ == t,
            None => r == Err::<Vec<(usize, usize)>, ParseError>(ParseError::UnterminatedEscape),
        },
{
    let (a, b) = trim_span(cs, start, end);
    let mut out: Vec<(usize, usize)> = Vec::new();
    let mut i = a;
    while i < b
        invariant
            start <= a <= i <= b <= end <= cs@.len(),
            end < usize::MAX,
            (a as int, b as int) == trim_spec(cs@, start as int, end as int),
            instruction_tokens(cs@, start as int, end as int) == prepend_spans(out@, tokens_spec(cs@, i as int, b as int)),
        decreases b - i,
    {
        if is_ascii_ws_char(cs[i]) {
            i += 1;
        } else if cs[i] == '"' {
            let k = scan_quoted(cs, i + 1, b);
            proof { lemma_quoted_end_bounds(cs@, i + 1, b as int); }
            if k > b {
                return Err(ParseError::UnterminatedEscape);
            }
            proof {
                assert(out@ + (seq![(i, k)] + tokens_spec(cs@, k as int, b as int).unwrap_or(seq![])) == (out@ + seq![(i, k)]) + tokens_spec(cs@, k as int, b as int).unwrap_or(seq![]));
            }
            out.push((i, k));
            i = k;
        } else {
            proof { lemma_word_end_bounds(cs@, i as int, b as int); }
            let mut k = i;
            while k < b && !is_ascii_ws_char(cs[k])
                invariant
                    i <= k <= b <= cs@.len(),
                    word_end(cs@, k as int, b as int) == word_end(cs@, i as int, b as int),
                decreases b - k,
            {
                k += 1;
            }
            proof {
                assert(out@ + (seq![(i, k)] + tokens_spec(cs@, k as int, b as int).unwrap_or(seq![])) == (out@ + seq![(i, k)]) + tokens_spec(cs@, k as int, b as int).unwrap_or(seq![]));
            }
            out.push((i, k));
            i = k;
        }
    }
    proof {
        assert(out@ + seq![] == out@);
    }
    Ok(out)
}

/// Every token of `s[i..end]` is a non-empty span inside `[i, end)`.
pub open spec fn spans_in(t: Seq<(usize, usize)>, i: int, end: int) -> bool {
    forall|j: int| 0 <= j < t.len() ==> i <= #[trigger] t[j].0 < t[j].1 <= end
}

pub proof fn lemma_tokens_in(s: Seq<char>, i: int, end: int)
    requires
        0 <= i <= end <= s.len() <= usize::MAX,
    ensures
        tokens_spec(s, i, end) matches Some(t) ==> spans_in(t, i, end),
    decreases end - i,
{
    if i >= end {
    } else if is_ascii_ws(s[i]) {
        lemma_tokens_in(s, i + 1, end);
        if let Some(t) = tokens_spec(s, i + 1, end) {
            assert(spans_in(t, i, end));
        }
    } else {
        let k = if s[i] == '"' { quoted_end(s, i + 1, end) } else { word_end(s, i, end) };
        if s[i] == '"' {
            lemma_quoted_end_bounds(s, i + 1, end);
        } else {
            lemma_word_end_bounds(s, i, end);
        }
        if k <= end {
            lemma_tokens_in(s, k, end);
            if let Some(rest) = tokens_spec(s, k, end) {
                let t = seq![(i as usize, k as usize)] + rest;
                assert forall|j: int| 0 <= j < t.len() implies i <= #[trigger] t[j].0 < t[j].1 <= end by {
                    if j > 0 {
                        assert(t[j] == rest[j - 1]);
                    }
                }
            }
        }
    }
}

/// The tokens of an instruction lie within its text.
pub proof fn lemma_instruction_tokens_in(s: Seq<char>, a: int, b: int)
    requires
        0 <= a <= b <= s.len() <= usize::MAX,
    ensures
        instruction_tokens(s, a, b) matches Some(t) ==> spans_in(t, a, b),
{
    lemma_trim_bounds(s, a, b);
    let (x, y) = trim_spec(s, a, b);
    lemma_tokens_in(s, x, y);
}

// ── Escape sequences ────────────────────────────────────────────────

/// The character that a one-letter escape `\c` stands for.
pub open spec fn simple_escape(c: char) -> Option<char> {
    if c == 'n' {
        Some('\n')
    } else if c == 't' {
        Some('\t')
    } else if c == 'r' {
        Some('\r')
    } else if c == '\\' {
        Some('\\')
    } else if c == '"' {
        Some('"')
    } else if c == '\'' {
        Some('\'')
    } else if c == 'a' {
        Some('\x07')
    } else if c == 'b' {
        Some('\x08')
    } else if c == 'f' {
        Some('\x0C')
    } else if c == 'v' {
        Some('\x0B')
    } else if c == 'e' {
        Some('\x1B')
    } else if c == '0' {
        Some('\0')
    } else {
        None
    }
}

fn simple_escape_char(c: char) -> (r: Option<char>)
    ensures
        r == simple_escape(c),
{
    if c == 'n' {
        Some('\n')
    } else if c == 't' {
        Some('\t')
    } else if c == 'r' {
        Some('\r')
    } else if c == '\\' {
        Some('\\')
    } else if c == '"' {
        Some('"')
    } else if c == '\'' {
        Some('\'')
    } else if c == 'a' {
        Some('\x07')
    } else if c == 'b' {
        Some('\x08')
    } else if c == 'f' {
        Some('\x0C')
    } else if c == 'v' {
        Some('\x0B')
    } else if c == 'e' {
        Some('\x1B')
    } else if c == '0' {
        Some('\0')
    } else {
        None
    }
}

/// `Some(seq![c] + t)` for `Some(t)`.
pub open spec fn prepend_char(c: char, rest: Option<Seq<char>>) -> Option<Seq<char>> {
    match rest {
        Some(t) => Some(seq![c] + t),
        None => None,
    }
}

/// First index at or after `j` that holds `}` or a non-hex character, or
/// the length of `s`.
pub open spec fn brace_scan(s: Seq<char>, j: int) -> int
    decreases s.len() - j,
{
    if j < s.len() && s[j] != '}' && is_hex(s[j]) {
        brace_scan(s, j + 1)
    } else {
        j
    }
}

pub proof fn lemma_brace_scan(s: Seq<char>, j: int)
    requires
        0 <= j <= s.len(),
    ensures
        j <= brace_scan(s, j) <= s.len(),
        all_hex(s.subrange(j, brace_scan(s, j))),
        brace_scan(s, j) < s.len() ==> (s[brace_scan(s, j)] == '}' || !is_hex(s[brace_scan(s, j)])),
    decreases s.len() - j,
{
    if j < s.len() && s[j] != '}' && is_hex(s[j]) {
        lemma_brace_scan(s, j + 1);
        let k = brace_scan(s, j);
        assert forall|i: int| 0 <= i < k - j implies is_hex(#[trigger] s.subrange(j, k)[i]) by {
            if i > 0 {
                assert(s.subrange(j, k)[i] == s.subrange(j + 1, k)[i - 1]);
            }
        }
    }
}

/// The text that the string-literal body `s` stands for, once its escapes
/// `\n \t \r \\ \" \' \a \b \f \v \e \0 \xHH \u{H..}` are replaced; `None`
/// for any other or malformed escape, a `\u{` without its closing `}`
/// among them.
pub open spec fn unescape_spec(s: Seq<char>) -> Option<Seq<char>>
    decreases s.len(),
{
    if s.len() == 0 {
        Some(seq![])
    } else if s[0] != '\\' {
        prepend_char(s[0], unescape_spec(s.drop_first()))
    } else if s.len() < 2 {
        None
    } else if simple_escape(s[1]) is Some {
        prepend_char(simple_escape(s[1])->0, unescape_spec(s.skip(2)))
    } else if s[1] == 'x' {
        if s.len() >= 4 && is_hex(s[2]) && is_hex(s[3]) {
            prepend_char(((hex_val(s[2]) * 16 + hex_val(s[3])) as u8) as char, unescape_spec(s.skip(4)))
        } else {
            None
        }
    } else if s[1] == 'u' {
        if s.len() < 3 || s[2] != '{' {
            None
        } else {
            let j = brace_scan(s, 3);
            let hex = s.subrange(3, j);
            if j >= s.len() || s[j] != '}' {
                None
            } else if hex.len() == 0 || digits_value(hex, 16) > u32::MAX || !is_scalar(digits_value(hex, 16) as int) {
                None
            } else {
                proof { lemma_brace_scan(s, 3); }
                prepend_char((digits_value(hex, 16) as u32) as char, unescape_spec(s.skip(j + 1)))
            }
        }
    } else {
        None
    }
}

/// The escape sequence that writes `c` in a string literal: a backslash
/// and a quote are escaped, so are newline, tab and carriage return;
/// every other character stands for itself.
pub open spec fn escape_char(c: char) -> Seq<char> {
    if c == '\\' {
        seq!['\\', '\\']
    } else if c == '"' {
        seq!['\\', '"']
    } else if c == '\n' {
        seq!['\\', 'n']
    } else if c == '\t' {
        seq!['\\', 't']
    } else if c == '\r' {
        seq!['\\', 'r']
    } else {
        seq![c]
    }
}

/// `s` written as the body of a string literal.
pub open spec fn escape_spec(s: Seq<char>) -> Seq<char>
    decreases s.len(),
{
    if s.len() == 0 {
        seq![]
    } else {
        escape_char(s[0]) + escape_spec(s.drop_first())
    }
}

/// Unescaping undoes escaping: any text written as a string-literal body
/// reads back as itself.
pub proof fn lemma_unescape_escape(s: Seq<char>)
    ensures
        unescape_spec(escape_spec(s)) == Some(s),
    decreases s.len(),
{
    if s.len() > 0 {
        let c = s[0];
        let rest = s.drop_first();
        let e = escape_spec(s);
        lemma_unescape_escape(rest);
        assert(e == escape_char(c) + escape_spec(rest));
        if escape_char(c).len() == 1 {
            assert(e[0] == c);
            assert(e.drop_first() =~= escape_spec(rest));
        } else {
            assert(e[0] == '\\');
            assert(e[1] == escape_char(c)[1]);
            assert(e.skip(2) =~= escape_spec(rest));
        }
        assert(seq![c] + rest =~= s);
    }
}

/// A string-literal body without a backslash stands for itself.
pub proof fn lemma_unescape_plain(s: Seq<char>)
    requires
        !s.contains('\\'),
    ensures
        unescape_spec(s) == Some(s),
    decreases s.len(),
{
    if s.len() > 0 {
        assert(s[0] != '\\') by {
            if s[0] == '\\' {
                assert(s.contains('\\'));
            }
        }
        let rest = s.drop_first();
        assert(!rest.contains('\\')) by {
            if rest.contains('\\') {
                let i = choose|i: int| 0 <= i < rest.len() && rest[i] == '\\';
                assert(s[i + 1] == '\\');
            }
        }
        lemma_unescape_plain(rest);
        assert(seq![s[0]] + rest =~= s);
    }
}

/// Reads the hex digits `cs[start..end]` as a `u32`, as `u32::from_str_radix(_, 16)`.
fn parse_hex_u32(cs: &Vec<char>, start: usize, end: usize) -> (r: Option<u32>)
    requires
        start <= end <= cs@.len(),
        all_hex(cs@.subrange(start as int, end as int)),
    ensures
        ({
            let d = cs@.subrange(start as int, end as int);
            match r {
                Some(v) => d.len() > 0 && v == digits_value(d, 16),
                None => d.len() == 0 || digits_value(d, 16) > u32::MAX,
            }
        }),
{
    let ghost d = cs@.subrange(start as int, end as int);
    if start == end {
        return None;
    }
    let mut v: u32 = 0;
    let mut j = start;
    while j < end
        invariant
            start <= j <= end <= cs@.len(),
            d == cs@.subrange(start as int, end as int),
            all_hex(d),
            v == digits_value(d.take(j - start), 16),
        decreases end - j,
    {
        let ghost k = j - start;
        assert(d.take(k + 1).drop_last() =~= d.take(k));
        assert(d.take(k + 1).last() == cs@[j as int]);
        assert(is_hex(d[k]));
        let digit = match hex_digit(cs[j]) {
            Some(h) => h,
            None => { proof { assert(false); } 0 },
        };
        let next = match v.checked_mul(16) {
            Some(m) => m.checked_add(digit),
            None => None,
        };
        match next {
            Some(n) => {
                v = n;
            },
            None => {
                proof { lemma_digits_value_prefix(d, k + 1, 16); }
                return None;
            },
        }
        j += 1;
    }
    assert(d.take(d.len() as int) =~= d);
    Some(v)
}

/// Processes backslash escape sequences in `cs[start..end]`, the body of a
/// string literal. Returns `None` on any unrecognized or malformed escape.
#[verifier::rlimit(60)]
fn unescape_str(cs: &Vec<char>, start: usize, end: usize) -> (r: Option<String>)
    requires
        start <= end <= cs@.len(),
        end < usize::MAX,
    ensures
        match unescape_spec(cs@.subrange(start as int, end as int)) {
            Some(t) => r matches Some(s) && s@ == t,
            None => r is None,
        },
{
    let mut out = String::new();
    let mut i = start;
    while i < end
        invariant
            start <= i <= end <= cs@.len(),
            end < usize::MAX,
            unescape_spec(cs@.subrange(start as int, end as int)) == (match unescape_spec(cs@.subrange(i as int, end as int)) {
                Some(t) => Some(out@ + t),
                None => None::<Seq<char>>,
            }),
        decreases end - i,
    {
        let ghost s = cs@.subrange(i as int, end as int);
        let ghost old_out = out@;
        let c = cs[i];
        if c != '\\' {
            assert(s.drop_first() =~= cs@.subrange(i + 1, end as int));
            push_char(&mut out, c);
            proof {
                match unescape_spec(s.drop_first()) {
                    Some(t) => { assert(old_out + (seq![c] + t) =~= out@ + t); },
                    None => {},
                }
            }
            i += 1;
            continue;
        }
        if i + 1 >= end {
            return None;
        }
        let e = cs[i + 1];
        match simple_escape_char(e) {
            Some(x) => {
                assert(s.skip(2) =~= cs@.subrange(i + 2, end as int));
                push_char(&mut out, x);
                proof {
                    match unescape_spec(s.skip(2)) {
                        Some(t) => { assert(old_out + (seq![x] + t) =~= out@ + t); },
                        None => {},
                    }
                }
                i += 2;
                continue;
            },
            None => {},
        }
        if e == 'x' {
            if i + 3 >= end {
                return None;
            }
            let hi = match hex_digit(cs[i + 2]) {
                Some(h) => h,
                None => { return None; },
            };
            let lo = match hex_digit(cs[i + 3]) {
                Some(h) => h,
                None => { return None; },
            };
            let x = ((hi * 16 + lo) as u8) as char;
            assert(s.skip(4) =~= cs@.subrange(i + 4, end as int));
            push_char(&mut out, x);
            proof {
                match unescape_spec(s.skip(4)) {
                    Some(t) => { assert(old_out + (seq![x] + t) =~= out@ + t); },
                    None => {},
                }
            }
            i += 4;
            continue;
        }
        if e == 'u' {
            if i + 2 >= end || cs[i + 2] != '{' {
                return None;
            }
            let mut j = i + 3;
            while j < end && cs[j] != '}' && hex_digit(cs[j]).is_some()
                invariant
                    i + 3 <= j <= end <= cs@.len(),
                    s == cs@.subrange(i as int, end as int),
                    brace_scan(s, j - i) == brace_scan(s, 3),
                decreases end - j,
            {
                j += 1;
            }
            proof { lemma_brace_scan(s, 3); }
            assert(s.subrange(3, j - i) =~= cs@.subrange(i + 3, j as int));
            if j >= end || cs[j] != '}' {
                return None;
            }
            let cp = match parse_hex_u32(cs, i + 3, j) {
                Some(v) => v,
                None => { return None; },
            };
            let x = match char_from_code(cp) {
                Some(ch) => ch,
                None => { return None; },
            };
            let next = j + 1;
            assert(s.skip(next - i) =~= cs@.subrange(next as int, end as int));
            proof { vstd::utf8::char_u32_cast(x, cp); }
            push_char(&mut out, x);
            proof {
                match unescape_spec(s.skip(next - i)) {
                    Some(t) => { assert(old_out + (seq![x] + t) =~= out@ + t); },
                    None => {},
                }
            }
            i = next;
            continue;
        }
        return None;
    }
    proof {
        assert(cs@.subrange(i as int, end as int) =~= Seq::<char>::empty());
        assert(out@ + Seq::<char>::empty() =~= out@);
    }
    Some(out)
}

// ── Literals, registers and operands ────────────────────────────────

/// A token that reads as a string literal: a quote at each end.
pub open spec fn is_string_literal(t: Seq<char>) -> bool {
    t.len() >= 2 && t[0] == '"' && t[t.len() - 1] == '"'
}

/// Length of the sign that `str::parse` strips from an integer literal:
/// a `+`, or a `-` for a signed type.
pub open spec fn sign_len(t: Seq<char>, signed: bool) -> int {
    if t.len() > 0 && (t[0] == '+' || (signed && t[0] == '-')) {
        1
    } else {
        0
    }
}

/// What `str::parse` gives for an integer type that holds `lo..=hi`.
pub open spec fn parse_int_spec(t: Seq<char>, signed: bool, lo: int, hi: int) -> Option<int> {
    let k = sign_len(t, signed);
    let d = t.skip(k);
    if d.len() == 0 || !all_digits(d) {
        None
    } else {
        let v = if k == 1 && t[0] == '-' { -(digits_value(d, 10) as int) } else { digits_value(d, 10) as int };
        if lo <= v <= hi {
            Some(v)
        } else {
            None
        }
    }
}

/// The literal that token `t` denotes. Numbers take the first type among
/// `u8`, `u32`, `u128`, `i32`, `i128` that parses them, and otherwise are
/// read by `f` as an `f32`.
pub open spec fn to_value_spec<F: Fn(&str) -> Option<u32>>(f: F, t: Seq<char>) -> Result<ValueV, ParseError> {
    if is_string_literal(t) {
        match unescape_spec(t.subrange(1, t.len() - 1)) {
            Some(u) => Ok(ValueV::Str(u)),
            None => Err(ParseError::InvalidEscape),
        }
    } else if t == "true"@ {
        Ok(ValueV::Bool(true))
    } else if t == "false"@ {
        Ok(ValueV::Bool(false))
    } else if t.len() == 0 {
        Err(ParseError::EmptyToken)
    } else if parse_int_spec(t, false, 0, u8::MAX as int) is Some {
        Ok(ValueV::U8(parse_int_spec(t, false, 0, u8::MAX as int)->0 as u8))
    } else if parse_int_spec(t, false, 0, u32::MAX as int) is Some {
        Ok(ValueV::U32(parse_int_spec(t, false, 0, u32::MAX as int)->0 as u32))
    } else if parse_int_spec(t, false, 0, u128::MAX as int) is Some {
        Ok(ValueV::U128(parse_int_spec(t, false, 0, u128::MAX as int)->0 as u128))
    } else if parse_int_spec(t, true, i32::MIN as int, i32::MAX as int) is Some {
        Ok(ValueV::I32(parse_int_spec(t, true, i32::MIN as int, i32::MAX as int)->0 as i32))
    } else if parse_int_spec(t, true, i128::MIN as int, i128::MAX as int) is Some {
        Ok(ValueV::I128(parse_int_spec(t, true, i128::MIN as int, i128::MAX as int)->0 as i128))
    } else {
        match float_reading(f, t) {
            Some(b) => Ok(ValueV::F32(b)),
            None => Err(ParseError::UnrecognizedToken),
        }
    }
}

/// `r` is what `spec` describes, read back through views.
pub open spec fn value_result_matches(r: Result<Value, ParseError>, spec: Result<ValueV, ParseError>) -> bool {
    match spec {
        Ok(v) => r matches Ok(x) && x@ == v,
        Err(e) => r == Err::<Value, ParseError>(e),
    }
}

/// Reads the integer literal `cs[a..b]` along the type chain of
/// [`to_value_spec`]; `None` when no integer type parses it.
pub(crate) fn to_int_value(cs: &Vec<char>, a: usize, b: usize) -> (r: Option<Value>)
    requires
        a < b <= cs@.len(),
    ensures
        ({
            let t = cs@.subrange(a as int, b as int);
            if parse_int_spec(t, false, 0, u8::MAX as int) is Some {
                r matches Some(x) && x@ == ValueV::U8(parse_int_spec(t, false, 0, u8::MAX as int)->0 as u8)
            } else if parse_int_spec(t, false, 0, u32::MAX as int) is Some {
                r matches Some(x) && x@ == ValueV::U32(parse_int_spec(t, false, 0, u32::MAX as int)->0 as u32)
            } else if parse_int_spec(t, false, 0, u128::MAX as int) is Some {
                r matches Some(x) && x@ == ValueV::U128(parse_int_spec(t, false, 0, u128::MAX as int)->0 as u128)
            } else if parse_int_spec(t, true, i32::MIN as int, i32::MAX as int) is Some {
                r matches Some(x) && x@ == ValueV::I32(parse_int_spec(t, true, i32::MIN as int, i32::MAX as int)->0 as i32)
            } else if parse_int_spec(t, true, i128::MIN as int, i128::MAX as int) is Some {
                r matches Some(x) && x@ == ValueV::I128(parse_int_spec(t, true, i128::MIN as int, i128::MAX as int)->0 as i128)
            } else {
                r is None
            }
        }),
{
    let ghost t = cs@.subrange(a as int, b as int);
    let first = cs[a];
    let neg = first == '-';
    let ds = if first == '+' || first == '-' { a + 1 } else { a };
    let mag = parse_digits(cs, ds, b);
    proof {
        assert(t.skip(ds - a) =~= cs@.subrange(ds as int, b as int));
        assert(t.skip(0) =~= t);
        assert(t[0] == first);
        if neg {
            // an unsigned type does not take the minus sign, which is no digit
            assert(!is_digit(t[0]));
            assert(!all_digits(t));
        }
    }
    match mag {
        Some(v) => {
            if !neg {
                if v <= 255 {
                    Some(Value::U8(v as u8))
                } else if v <= 0xFFFF_FFFF {
                    Some(Value::U32(v as u32))
                } else {
                    Some(Value::U128(v))
                }
            } else if v <= 0x8000_0000 {
                let n: i128 = 0i128 - (v as i128);
                Some(Value::I32(n as i32))
            } else if v <= 0x8000_0000_0000_0000_0000_0000_0000_0000 {
                if v == 0x8000_0000_0000_0000_0000_0000_0000_0000 {
                    Some(Value::I128(i128::MIN))
                } else {
                    Some(Value::I128(0i128 - (v as i128)))
                }
            } else {
                None
            }
        },
        None => None,
    }
}

/// Converts the token `cs[a..b]` to a literal [`Value`]: a quoted string
/// (escapes processed), `true`/`false`, or a number (see [`to_value_spec`]).
pub fn to_value<F: Fn(&str) -> Option<u32>>(f: &F, cs: &Vec<char>, a: usize, b: usize) -> (r: Result<Value, ParseError>)
    requires
        reads_floats(*f),
        a <= b <= cs@.len(),
        b < usize::MAX,
    ensures
        value_result_matches(r, to_value_spec(*f, cs@.subrange(a as int, b as int))),
{
    let ghost t = cs@.subrange(a as int, b as int);
    if b - a >= 2 && cs[a] == '"' && cs[b - 1] == '"' {
        assert(t.subrange(1, t.len() - 1) =~= cs@.subrange(a + 1, b - 1));
        return match unescape_str(cs, a + 1, b - 1) {
            Some(s) => Ok(Value::String(s)),
            None => Err(ParseError::InvalidEscape),
        };
    }
    if span_eq(cs, a, b, "true") {
        return Ok(Value::Bool(true));
    }
    if span_eq(cs, a, b, "false") {
        return Ok(Value::Bool(false));
    }
    if a == b {
        return Err(ParseError::EmptyToken);
    }
    match to_int_value(cs, a, b) {
        Some(v) => Ok(v),
        None => match read_float(f, cs, a, b) {
            Some(bits) => Ok(Value::F32(bits)),
            None => Err(ParseError::UnrecognizedToken),
        },
    }
}

/// The register that token `t` (`$a1` to `$a5`) names.
pub open spec fn to_register_spec(t: Seq<char>) -> Result<Register, ParseError> {
    if t.len() == 0 || t[0] != '$' {
        Err(ParseError::ExpectedRegister)
    } else if t == "$a1"@ {
        Ok(Register::A1)
    } else if t == "$a2"@ {
        Ok(Register::A2)
    } else if t == "$a3"@ {
        Ok(Register::A3)
    } else if t == "$a4"@ {
        Ok(Register::A4)
    } else if t == "$a5"@ {
        Ok(Register::A5)
    } else {
        Err(ParseError::UnknownRegister)
    }
}

/// Converts a `$aN` token to a [`Register`]. A token that names no
/// register stops the assembler: it gives `UnknownRegister` (or
/// `ExpectedRegister` when it is not a `$` token at all).
pub fn to_register(cs: &Vec<char>, a: usize, b: usize) -> (r: Result<Register, ParseError>)
    requires
        a <= b <= cs@.len(),
    ensures
        r == to_register_spec(cs@.subrange(a as int, b as int)),
{
    if a == b || cs[a] != '$' {
        return Err(ParseError::ExpectedRegister);
    }
    if span_eq(cs, a, b, "$a1") {
        Ok(Register::A1)
    } else if span_eq(cs, a, b, "$a2") {
        Ok(Register::A2)
    } else if span_eq(cs, a, b, "$a3") {
        Ok(Register::A3)
    } else if span_eq(cs, a, b, "$a4") {
        Ok(Register::A4)
    } else if span_eq(cs, a, b, "$a5") {
        Ok(Register::A5)
    } else {
        Err(ParseError::UnknownRegister)
    }
}

/// A variable reference as the parser writes it: immutable, value `Nil`.
pub open spec fn variable_ref(name: Seq<char>) -> OperandV {
    OperandV::Variable(name, VariableV { is_mut: false, value: ValueV::Nil })
}

/// The operand that token `t` denotes: a register for `$..`, a literal for a
/// quoted string or for anything [`to_value_spec`] reads, else a variable.
pub open spec fn to_operand_spec<F: Fn(&str) -> Option<u32>>(f: F, t: Seq<char>) -> Result<OperandV, ParseError> {
    if t.len() > 0 && t[0] == '$' {
        match to_register_spec(t) {
            Ok(reg) => Ok(OperandV::Register(reg)),
            Err(e) => Err(e),
        }
    } else if t.len() > 0 && t[0] == '"' {
        match to_value_spec(f, t) {
            Ok(v) => Ok(OperandV::Literal(v)),
            Err(e) => Err(e),
        }
    } else {
        match to_value_spec(f, t) {
            Ok(v) => Ok(OperandV::Literal(v)),
            Err(_) => Ok(variable_ref(t)),
        }
    }
}

/// `r` is what `spec` describes, read back through views.
pub open spec fn operand_result_matches(r: Result<Operand, ParseError>, spec: Result<OperandV, ParseError>) -> bool {
    match spec {
        Ok(v) => r matches Ok(x) && x@ == v,
        Err(e) => r == Err::<Operand, ParseError>(e),
    }
}

/// Converts the token `cs[a..b]` to an [`Operand`].
pub fn to_operand<F: Fn(&str) -> Option<u32>>(f: &F, cs: &Vec<char>, a: usize, b: usize) -> (r: Result<Operand, ParseError>)
    requires
        reads_floats(*f),
        a <= b <= cs@.len(),
        b < usize::MAX,
    ensures
        operand_result_matches(r, to_operand_spec(*f, cs@.subrange(a as int, b as int))),
{
    if a < b && cs[a] == '$' {
        match to_register(cs, a, b) {
            Ok(reg) => Ok(Operand::Register(reg)),
            Err(e) => Err(e),
        }
    } else if a < b && cs[a] == '"' {
        match to_value(f, cs, a, b) {
            Ok(v) => Ok(Operand::Literal(v)),
            Err(e) => Err(e),
        }
    } else {
        match to_value(f, cs, a, b) {
            Ok(v) => Ok(Operand::Literal(v)),
            Err(_) => Ok(Operand::Variable(string_of(cs, a, b), Variable { is_mut: false, value: Value::Nil })),
        }
    }
}

} // verus!
