//! Parsing of single instructions: the text between two `;`, `{` or `}`
//! boundaries, already trimmed, becomes zero or more [`OpCode`]s.
use vstd::prelude::*;

use crate::expr::{Expr, ExprV};
use crate::expr_parser::{expr_matches, expr_text_spec, parse_expr_span, tok};
use crate::op_code::{
    exprs_view, lemma_ops_view_append, lemma_ops_view_push, ops_view, strings_view, IoOp, IoOpV,
    OpCode, OpCodeV, Operand, OperandV,
};
use crate::reader::{
    instruction_tokens, lemma_instruction_tokens_in, operand_result_matches, spans_in, reads_floats, to_operand, to_operand_spec,
    to_register, to_register_spec, to_value, to_value_spec, tokenize, ParseError,
};
use crate::register::Register;
use crate::text::{
    is_ascii_ws, is_ascii_ws_char, is_unicode_ws, is_unicode_ws_char, lemma_trim_bounds,
    span_eq, span_starts_with, span_starts_with_lit, string_of, trim_span, trim_spec,
    trim_start_spec,
};
use crate::value::{Value, ValueV};
use crate::variable::{Variable, VariableV};

verus! {

// ── Searching within a span ─────────────────────────────────────────

/// The first position of `c` in `s[a..b]`.
pub open spec fn find_first(s: Seq<char>, a: int, b: int, c: char) -> Option<int>
    decreases b - a,
{
    if a >= b {
        None
    } else if s[a] == c {
        Some(a)
    } else {
        find_first(s, a + 1, b, c)
    }
}

/// The last position of `c` in `s[a..b]`.
pub open spec fn find_last(s: Seq<char>, a: int, b: int, c: char) -> Option<int>
    decreases b - a,
{
    if a >= b {
        None
    } else if s[b - 1] == c {
        Some(b - 1)
    } else {
        find_last(s, a, b - 1, c)
    }
}

pub proof fn lemma_find_first(s: Seq<char>, a: int, b: int, c: char)
    ensures
        find_first(s, a, b, c) matches Some(k) ==> a <= k < b && s[k] == c,
    decreases b - a,
{
    if a < b && s[a] != c {
        lemma_find_first(s, a + 1, b, c);
    }
}

pub proof fn lemma_find_first_some(s: Seq<char>, a: int, b: int, c: char, k: int)
    requires
        a <= k < b,
        s[k] == c,
    ensures
        find_first(s, a, b, c) matches Some(j) && j <= k,
    decreases b - a,
{
    if s[a] != c {
        lemma_find_first_some(s, a + 1, b, c, k);
    }
}

pub proof fn lemma_find_last(s: Seq<char>, a: int, b: int, c: char)
    ensures
        find_last(s, a, b, c) matches Some(k) ==> a <= k < b && s[k] == c,
    decreases b - a,
{
    if a < b && s[b - 1] != c {
        lemma_find_last(s, a, b - 1, c);
    }
}

/// `str::find` for one character, on `cs[a..b]`.
pub fn find_char(cs: &Vec<char>, a: usize, b: usize, c: char) -> (r: Option<usize>)
    requires
        a <= b <= cs@.len(),
    ensures
        match r {
            Some(k) => find_first(cs@, a as int, b as int, c) == Some(k as int) && a <= k < b,
            None => find_first(cs@, a as int, b as int, c) is None,
        },
{
    proof { lemma_find_first(cs@, a as int, b as int, c); }
    let mut i = a;
    while i < b
        invariant
            a <= i <= b <= cs@.len(),
            find_first(cs@, i as int, b as int, c) == find_first(cs@, a as int, b as int, c),
        decreases b - i,
    {
        if cs[i] == c {
            return Some(i);
        }
        i += 1;
    }
    None
}

/// `str::rfind` for one character, on `cs[a..b]`.
pub fn rfind_char(cs: &Vec<char>, a: usize, b: usize, c: char) -> (r: Option<usize>)
    requires
        a <= b <= cs@.len(),
    ensures
        match r {
            Some(k) => find_last(cs@, a as int, b as int, c) == Some(k as int) && a <= k < b,
            None => find_last(cs@, a as int, b as int, c) is None,
        },
{
    proof { lemma_find_last(cs@, a as int, b as int, c); }
    let mut k = b;
    while k > a
        invariant
            a <= k <= b <= cs@.len(),
            find_last(cs@, a as int, k as int, c) == find_last(cs@, a as int, b as int, c),
        decreases k - a,
    {
        if cs[k - 1] == c {
            return Some(k - 1);
        }
        k -= 1;
    }
    None
}

/// `str::trim_start` on `cs[a..b]`: the new start.
pub fn trim_start_at(cs: &Vec<char>, a: usize, b: usize) -> (r: usize)
    requires
        a <= b <= cs@.len(),
    ensures
        r == trim_start_spec(cs@, a as int, b as int),
        a <= r <= b,
{
    proof { lemma_trim_bounds(cs@, a as int, b as int); }
    let mut i = a;
    while i < b && is_unicode_ws_char(cs[i])
        invariant
            a <= i <= b <= cs@.len(),
            trim_start_spec(cs@, i as int, b as int) == trim_start_spec(cs@, a as int, b as int),
        decreases b - i,
    {
        i += 1;
    }
    i
}

/// Does `s[a..b]` contain `c`?
pub open spec fn span_has(s: Seq<char>, a: int, b: int, c: char) -> bool {
    find_first(s, a, b, c) is Some
}

// ── Results ─────────────────────────────────────────────────────────

/// `r`, a list of instructions, is what `spec` describes.
pub open spec fn ops_matches(r: Result<Vec<OpCode>, ParseError>, spec: Result<Seq<OpCodeV>, ParseError>) -> bool {
    match spec {
        Ok(v) => r matches Ok(x) && ops_view(x@) == v,
        Err(e) => r == Err::<Vec<OpCode>, ParseError>(e),
    }
}

/// `r`, a list of expressions, is what `spec` describes.
pub open spec fn exprs_matches(r: Result<Vec<Expr>, ParseError>, spec: Result<Seq<ExprV>, ParseError>) -> bool {
    match spec {
        Ok(v) => r matches Ok(x) && exprs_view(x@) == v,
        Err(e) => r == Err::<Vec<Expr>, ParseError>(e),
    }
}

/// `Ok(p + x)` for `Ok(x)`.
pub open spec fn prepend_exprs(p: Seq<ExprV>, r: Result<Seq<ExprV>, ParseError>) -> Result<Seq<ExprV>, ParseError> {
    match r {
        Ok(x) => Ok(p + x),
        Err(e) => Err(e),
    }
}

/// The expression of the trimmed text `s[a..b]`.
pub open spec fn trimmed_expr<F: Fn(&str) -> Option<u32>>(f: F, s: Seq<char>, a: int, b: int) -> Result<ExprV, ParseError> {
    let (x, y) = trim_spec(s, a, b);
    expr_text_spec(f, s, x, y)
}

// ── Argument lists ──────────────────────────────────────────────────

/// Splits `s[i..b]` on the commas outside parentheses and parses each
/// part; `d` is the nesting depth and `st` the start of the current part.
pub open spec fn args_scan<F: Fn(&str) -> Option<u32>>(f: F, s: Seq<char>, st: int, i: int, b: int, d: int)
    -> Result<Seq<ExprV>, ParseError>
    decreases b - i,
{
    if i >= b {
        match trimmed_expr(f, s, st, b) {
            Ok(e) => Ok(seq![e]),
            Err(x) => Err(x),
        }
    } else if s[i] == '(' {
        if d >= u32::MAX {
            Err(ParseError::UnbalancedParen)
        } else {
            args_scan(f, s, st, i + 1, b, d + 1)
        }
    } else if s[i] == ')' {
        if d <= 0 {
            Err(ParseError::UnbalancedParen)
        } else {
            args_scan(f, s, st, i + 1, b, d - 1)
        }
    } else if s[i] == ',' && d == 0 {
        match trimmed_expr(f, s, st, i) {
            Ok(e) => prepend_exprs(seq![e], args_scan(f, s, i + 1, i + 1, b, d)),
            Err(x) => Err(x),
        }
    } else {
        args_scan(f, s, st, i + 1, b, d)
    }
}

/// The comma-separated argument list `s[a..b]` (already trimmed); empty
/// text is no argument.
pub open spec fn arg_list_spec<F: Fn(&str) -> Option<u32>>(f: F, s: Seq<char>, a: int, b: int) -> Result<Seq<ExprV>, ParseError> {
    if a >= b {
        Ok(seq![])
    } else {
        args_scan(f, s, a, a, b, 0)
    }
}

pub fn parse_trimmed_expr<F: Fn(&str) -> Option<u32>>(f: &F, cs: &Vec<char>, a: usize, b: usize) -> (r: Result<Expr, ParseError>)
    requires
        reads_floats(*f),
        a <= b <= cs@.len(),
        cs@.len() < usize::MAX,
    ensures
        expr_matches(r, trimmed_expr(*f, cs@, a as int, b as int)),
{
    let (x, y) = trim_span(cs, a, b);
    parse_expr_span(f, cs, x, y)
}

/// Parses a comma-separated argument list into expressions, splitting on
/// top-level commas only.
fn parse_arg_list<F: Fn(&str) -> Option<u32>>(f: &F, cs: &Vec<char>, a: usize, b: usize) -> (r: Result<Vec<Expr>, ParseError>)
    requires
        reads_floats(*f),
        a <= b <= cs@.len(),
        cs@.len() < usize::MAX,
    ensures
        exprs_matches(r, arg_list_spec(*f, cs@, a as int, b as int)),
{
    let mut out: Vec<Expr> = Vec::new();
    if a >= b {
        assert(exprs_view(out@) =~= seq![]);
        return Ok(out);
    }
    let mut depth: u32 = 0;
    let mut start = a;
    let mut i = a;
    while i < b
        invariant
            reads_floats(*f),
            a <= start <= i <= b <= cs@.len(),
            cs@.len() < usize::MAX,
            arg_list_spec(*f, cs@, a as int, b as int)
                == prepend_exprs(exprs_view(out@), args_scan(*f, cs@, start as int, i as int, b as int, depth as int)),
        decreases b - i,
    {
        let c = cs[i];
        if c == '(' {
            if depth == u32::MAX {
                return Err(ParseError::UnbalancedParen);
            }
            depth += 1;
        } else if c == ')' {
            if depth == 0 {
                return Err(ParseError::UnbalancedParen);
            }
            depth -= 1;
        } else if c == ',' && depth == 0 {
            let e = match parse_trimmed_expr(f, cs, start, i) {
                Ok(e) => e,
                Err(x) => return Err(x),
            };
            let ghost before = exprs_view(out@);
            let ghost ev = e@;
            out.push(e);
            proof {
                assert(exprs_view(out@) =~= before.push(ev));
                let rest = args_scan(*f, cs@, (i + 1) as int, (i + 1) as int, b as int, 0);
                match rest {
                    Ok(x) => { assert(before + (seq![ev] + x) =~= before.push(ev) + x); },
                    Err(_) => {},
                }
            }
            start = i + 1;
        }
        i += 1;
    }
    let e = match parse_trimmed_expr(f, cs, start, b) {
        Ok(e) => e,
        Err(x) => return Err(x),
    };
    let ghost before = exprs_view(out@);
    let ghost ev = e@;
    out.push(e);
    proof { assert(exprs_view(out@) =~= before + seq![ev]); }
    Ok(out)
}

// ── Calls, constructions and method calls ───────────────────────────

/// `r` is the instruction that `spec` describes.
pub open spec fn op_matches(r: Result<OpCode, ParseError>, spec: Result<OpCodeV, ParseError>) -> bool {
    match spec {
        Ok(v) => r matches Ok(x) && x@ == v,
        Err(e) => r == Err::<OpCode, ParseError>(e),
    }
}

/// The start of `s[a..b]` once its first `k` characters are dropped
/// (the whole span when it is shorter).
pub open spec fn after_n(a: int, b: int, k: int) -> int {
    if a + k <= b { a + k } else { b }
}

/// `call name(args)` in `s[a..b]`, its result written to `dest`.
pub open spec fn call_spec<F: Fn(&str) -> Option<u32>>(f: F, s: Seq<char>, a: int, b: int, dest: OperandV) -> Result<OpCodeV, ParseError> {
    let r = trim_start_spec(s, after_n(a, b, 4), b);
    match find_first(s, r, b, '(') {
        None => Err(ParseError::CallMissingOpenParen),
        Some(p) => {
            let (n0, n1) = trim_spec(s, r, p);
            if n0 >= n1 {
                Err(ParseError::CallMissingName)
            } else {
                match find_last(s, p + 1, b, ')') {
                    None => Err(ParseError::CallMissingCloseParen),
                    Some(c) => {
                        let (x, y) = trim_spec(s, p + 1, c);
                        match arg_list_spec(f, s, x, y) {
                            Ok(args) => Ok(OpCodeV::Call { name: s.subrange(n0, n1), args, dest }),
                            Err(e) => Err(e),
                        }
                    },
                }
            }
        },
    }
}

/// `new Class(args)` in `s[a..b]`, the object written to `dest`.
pub open spec fn new_spec<F: Fn(&str) -> Option<u32>>(f: F, s: Seq<char>, a: int, b: int, dest: OperandV) -> Result<OpCodeV, ParseError> {
    let r = trim_start_spec(s, after_n(a, b, 3), b);
    match find_first(s, r, b, '(') {
        None => Err(ParseError::NewMissingOpenParen),
        Some(p) => {
            let (n0, n1) = trim_spec(s, r, p);
            if n0 >= n1 {
                Err(ParseError::NewMissingClass)
            } else {
                match find_last(s, p + 1, b, ')') {
                    None => Err(ParseError::NewMissingCloseParen),
                    Some(c) => {
                        let (x, y) = trim_spec(s, p + 1, c);
                        match arg_list_spec(f, s, x, y) {
                            Ok(args) => Ok(OpCodeV::New { class: s.subrange(n0, n1), args, dest }),
                            Err(e) => Err(e),
                        }
                    },
                }
            }
        },
    }
}

/// `recv.method(args)` in `s[a..b]`, the method's result written to `dest`.
pub open spec fn method_spec<F: Fn(&str) -> Option<u32>>(f: F, s: Seq<char>, a: int, b: int, dest: OperandV) -> Result<OpCodeV, ParseError> {
    match find_first(s, a, b, '(') {
        None => Err(ParseError::MethodMissingOpenParen),
        Some(p) => {
            let (h0, h1) = trim_spec(s, a, p);
            match find_last(s, h0, h1, '.') {
                None => Err(ParseError::MethodMissingDot),
                Some(d) => {
                    let (r0, r1) = trim_spec(s, h0, d);
                    let (m0, m1) = trim_spec(s, d + 1, h1);
                    if r0 >= r1 || m0 >= m1 {
                        Err(ParseError::MalformedMethodCall)
                    } else {
                        match find_last(s, p + 1, b, ')') {
                            None => Err(ParseError::MethodMissingCloseParen),
                            Some(c) => {
                                let (x, y) = trim_spec(s, p + 1, c);
                                match arg_list_spec(f, s, x, y) {
                                    Ok(args) => Ok(OpCodeV::MethodCall {
                                        recv: s.subrange(r0, r1),
                                        method: s.subrange(m0, m1),
                                        args,
                                        dest,
                                    }),
                                    Err(e) => Err(e),
                                }
                            },
                        }
                    }
                },
            }
        },
    }
}

/// Does `s[a..b]` look like a method call: a `(` with a `.` before it?
pub open spec fn is_method_call_spec(s: Seq<char>, a: int, b: int) -> bool {
    match find_first(s, a, b, '(') {
        Some(p) => span_has(s, a, p, '.'),
        None => false,
    }
}

/// Parses `call name(args)` (the text starts with `call`) into an
/// [`OpCode::Call`] writing to `dest`.
fn push_call_opcode<F: Fn(&str) -> Option<u32>>(f: &F, cs: &Vec<char>, a: usize, b: usize, dest: Operand) -> (r: Result<OpCode, ParseError>)
    requires
        reads_floats(*f),
        a <= b <= cs@.len(),
        cs@.len() < usize::MAX,
    ensures
        op_matches(r, call_spec(*f, cs@, a as int, b as int, dest@)),
{
    let skip = if b - a >= 4 { a + 4 } else { b };
    let rest = trim_start_at(cs, skip, b);
    let paren = match find_char(cs, rest, b, '(') {
        Some(p) => p,
        None => return Err(ParseError::CallMissingOpenParen),
    };
    let (n0, n1) = trim_span(cs, rest, paren);
    if n0 >= n1 {
        return Err(ParseError::CallMissingName);
    }
    let close = match rfind_char(cs, paren + 1, b, ')') {
        Some(c) => c,
        None => return Err(ParseError::CallMissingCloseParen),
    };
    let (x, y) = trim_span(cs, paren + 1, close);
    let args = match parse_arg_list(f, cs, x, y) {
        Ok(v) => v,
        Err(e) => return Err(e),
    };
    Ok(OpCode::Call { name: string_of(cs, n0, n1), args, dest })
}

/// Parses `new Class(args)` into an [`OpCode::New`] writing to `dest`.
fn push_new_opcode<F: Fn(&str) -> Option<u32>>(f: &F, cs: &Vec<char>, a: usize, b: usize, dest: Operand) -> (r: Result<OpCode, ParseError>)
    requires
        reads_floats(*f),
        a <= b <= cs@.len(),
        cs@.len() < usize::MAX,
    ensures
        op_matches(r, new_spec(*f, cs@, a as int, b as int, dest@)),
{
    let skip = if b - a >= 3 { a + 3 } else { b };
    let rest = trim_start_at(cs, skip, b);
    let paren = match find_char(cs, rest, b, '(') {
        Some(p) => p,
        None => return Err(ParseError::NewMissingOpenParen),
    };
    let (n0, n1) = trim_span(cs, rest, paren);
    if n0 >= n1 {
        return Err(ParseError::NewMissingClass);
    }
    let close = match rfind_char(cs, paren + 1, b, ')') {
        Some(c) => c,
        None => return Err(ParseError::NewMissingCloseParen),
    };
    let (x, y) = trim_span(cs, paren + 1, close);
    let args = match parse_arg_list(f, cs, x, y) {
        Ok(v) => v,
        Err(e) => return Err(e),
    };
    Ok(OpCode::New { class: string_of(cs, n0, n1), args, dest })
}

/// Parses `recv.method(args)` into an [`OpCode::MethodCall`] writing to
/// `dest`. The receiver is everything before the last `.` of the head.
fn push_method_call_opcode<F: Fn(&str) -> Option<u32>>(f: &F, cs: &Vec<char>, a: usize, b: usize, dest: Operand) -> (r: Result<OpCode, ParseError>)
    requires
        reads_floats(*f),
        a <= b <= cs@.len(),
        cs@.len() < usize::MAX,
    ensures
        op_matches(r, method_spec(*f, cs@, a as int, b as int, dest@)),
{
    let paren = match find_char(cs, a, b, '(') {
        Some(p) => p,
        None => return Err(ParseError::MethodMissingOpenParen),
    };
    let (h0, h1) = trim_span(cs, a, paren);
    let dot = match rfind_char(cs, h0, h1, '.') {
        Some(d) => d,
        None => return Err(ParseError::MethodMissingDot),
    };
    let (r0, r1) = trim_span(cs, h0, dot);
    let (m0, m1) = trim_span(cs, dot + 1, h1);
    if r0 >= r1 || m0 >= m1 {
        return Err(ParseError::MalformedMethodCall);
    }
    let close = match rfind_char(cs, paren + 1, b, ')') {
        Some(c) => c,
        None => return Err(ParseError::MethodMissingCloseParen),
    };
    let (x, y) = trim_span(cs, paren + 1, close);
    let args = match parse_arg_list(f, cs, x, y) {
        Ok(v) => v,
        Err(e) => return Err(e),
    };
    Ok(OpCode::MethodCall { recv: string_of(cs, r0, r1), method: string_of(cs, m0, m1), args, dest })
}

/// True if `cs[a..b]` looks like a method call (`recv.method(...)`): it
/// has a `(` and the part before it has a `.`.
pub fn is_method_call_expr(cs: &Vec<char>, a: usize, b: usize) -> (r: bool)
    requires
        a <= b <= cs@.len(),
    ensures
        r == is_method_call_spec(cs@, a as int, b as int),
{
    match find_char(cs, a, b, '(') {
        Some(p) => find_char(cs, a, p, '.').is_some(),
        None => false,
    }
}

/// Does the text start with the keyword `kw` followed by a space, or is it
/// exactly `kw`?
pub open spec fn keyword_led(s: Seq<char>, a: int, b: int, kw: Seq<char>) -> bool {
    span_starts_with(s, a, b, kw + seq![' ']) || s.subrange(a, b) == kw
}

/// The right-hand side `s[a..b]` of an assignment, `let` or `return`:
/// a call, a construction, a method call, or an expression.
pub open spec fn rhs_spec<F: Fn(&str) -> Option<u32>>(f: F, s: Seq<char>, a: int, b: int, dest: OperandV) -> Result<OpCodeV, ParseError> {
    if keyword_led(s, a, b, "call"@) {
        call_spec(f, s, a, b, dest)
    } else if keyword_led(s, a, b, "new"@) {
        new_spec(f, s, a, b, dest)
    } else if is_method_call_spec(s, a, b) {
        method_spec(f, s, a, b, dest)
    } else {
        match expr_text_spec(f, s, a, b) {
            Ok(e) => Ok(OpCodeV::Expr(e, dest)),
            Err(x) => Err(x),
        }
    }
}

pub fn keyword_led_exec(cs: &Vec<char>, a: usize, b: usize, kw_space: &str, kw: &str) -> (r: bool)
    requires
        a <= b <= cs@.len(),
        kw_space@ == kw@ + seq![' '],
    ensures
        r == keyword_led(cs@, a as int, b as int, kw@),
{
    span_starts_with_lit(cs, a, b, kw_space) || span_eq(cs, a, b, kw)
}

/// Routes a right-hand-side text to the instruction that computes it into
/// `dest`.
fn push_rhs_opcode<F: Fn(&str) -> Option<u32>>(f: &F, cs: &Vec<char>, a: usize, b: usize, dest: Operand) -> (r: Result<OpCode, ParseError>)
    requires
        reads_floats(*f),
        a <= b <= cs@.len(),
        cs@.len() < usize::MAX,
    ensures
        op_matches(r, rhs_spec(*f, cs@, a as int, b as int, dest@)),
{
    proof {
        reveal_strlit("call ");
        reveal_strlit("call");
        reveal_strlit("new ");
        reveal_strlit("new");
        assert("call "@ =~= "call"@ + seq![' ']);
        assert("new "@ =~= "new"@ + seq![' ']);
    }
    if keyword_led_exec(cs, a, b, "call ", "call") {
        push_call_opcode(f, cs, a, b, dest)
    } else if keyword_led_exec(cs, a, b, "new ", "new") {
        push_new_opcode(f, cs, a, b, dest)
    } else if is_method_call_expr(cs, a, b) {
        push_method_call_opcode(f, cs, a, b, dest)
    } else {
        match parse_expr_span(f, cs, a, b) {
            Ok(e) => Ok(OpCode::Expr(e, dest)),
            Err(x) => Err(x),
        }
    }
}

// ── Output operands ─────────────────────────────────────────────────

/// The operand of an output instruction, with the instructions that must
/// run first: a field access such as `obj.field` is computed into
/// `SystemVarBuffer`, which then serves as the operand.
pub open spec fn io_operand_spec<F: Fn(&str) -> Option<u32>>(f: F, s: Seq<char>, a: int, b: int)
    -> Result<(Seq<OpCodeV>, OperandV), ParseError>
{
    let t = s.subrange(a, b);
    if !(t.len() > 0 && t[0] == '$') && !(t.len() > 0 && t[0] == '"') && span_has(s, a, b, '.')
        && to_value_spec(f, t) is Err {
        match expr_text_spec(f, s, a, b) {
            Ok(e) => Ok((
                seq![OpCodeV::Expr(e, OperandV::Register(Register::SystemVarBuffer))],
                OperandV::Register(Register::SystemVarBuffer),
            )),
            Err(x) => Err(x),
        }
    } else {
        match to_operand_spec(f, t) {
            Ok(o) => Ok((seq![], o)),
            Err(x) => Err(x),
        }
    }
}

/// `r` is what `spec` describes.
pub open spec fn io_operand_matches(r: Result<(Vec<OpCode>, Operand), ParseError>, spec: Result<(Seq<OpCodeV>, OperandV), ParseError>) -> bool {
    match spec {
        Ok((ops, o)) => r matches Ok((x, y)) && ops_view(x@) == ops && y@ == o,
        Err(e) => r == Err::<(Vec<OpCode>, Operand), ParseError>(e),
    }
}

/// Resolves the operand of an output instruction; see [`io_operand_spec`].
fn io_operand<F: Fn(&str) -> Option<u32>>(f: &F, cs: &Vec<char>, a: usize, b: usize) -> (r: Result<(Vec<OpCode>, Operand), ParseError>)
    requires
        reads_floats(*f),
        a <= b <= cs@.len(),
        cs@.len() < usize::MAX,
    ensures
        io_operand_matches(r, io_operand_spec(*f, cs@, a as int, b as int)),
{
    let mut ops: Vec<OpCode> = Vec::new();
    let lead_dollar = a < b && cs[a] == '$';
    let lead_quote = a < b && cs[a] == '"';
    if !lead_dollar && !lead_quote && find_char(cs, a, b, '.').is_some() && to_value(f, cs, a, b).is_err() {
        let e = match parse_expr_span(f, cs, a, b) {
            Ok(e) => e,
            Err(x) => return Err(x),
        };
        let ghost ev = e@;
        ops.push(OpCode::Expr(e, Operand::Register(Register::SystemVarBuffer)));
        proof {
            lemma_ops_view_push(seq![], ops@[0]);
            assert(ops@ =~= seq![].push(ops@[0]));
            assert(ops_view(seq![]) =~= seq![]);
        }
        Ok((ops, Operand::Register(Register::SystemVarBuffer)))
    } else {
        match to_operand(f, cs, a, b) {
            Ok(o) => {
                assert(ops_view(ops@) =~= seq![]);
                Ok((ops, o))
            },
            Err(x) => Err(x),
        }
    }
}

// ── Instructions ────────────────────────────────────────────────────

/// `Ok(seq![op])` for `Ok(op)`.
pub open spec fn one(r: Result<OpCodeV, ParseError>) -> Result<Seq<OpCodeV>, ParseError> {
    match r {
        Ok(op) => Ok(seq![op]),
        Err(e) => Err(e),
    }
}

/// The operands of `add`, `sub`, `mul` and `div`: two operands and a
/// destination register, tokens 1 to 3.
pub open spec fn arith_operands<F: Fn(&str) -> Option<u32>>(f: F, s: Seq<char>, t: Seq<(usize, usize)>)
    -> Result<(OperandV, OperandV, Register), ParseError>
{
    if t.len() < 2 {
        Err(ParseError::NoValue)
    } else {
        match to_operand_spec(f, tok(s, t, 1)) {
            Err(e) => Err(e),
            Ok(x) => if t.len() < 3 {
                Err(ParseError::NoValue)
            } else {
                match to_operand_spec(f, tok(s, t, 2)) {
                    Err(e) => Err(e),
                    Ok(y) => if t.len() < 4 {
                        Err(ParseError::NoValue)
                    } else {
                        match to_register_spec(tok(s, t, 3)) {
                            Err(e) => Err(e),
                            Ok(r) => Ok((x, y, r)),
                        }
                    },
                }
            },
        }
    }
}

/// `io write`, `io writeln`, `io read` and `io readln`.
pub open spec fn io_spec<F: Fn(&str) -> Option<u32>>(f: F, s: Seq<char>, t: Seq<(usize, usize)>) -> Result<Seq<OpCodeV>, ParseError> {
    if t.len() < 2 {
        Err(ParseError::IoMissingSubcommand)
    } else {
        let sub = tok(s, t, 1);
        if sub == "write"@ || sub == "writeln"@ {
            if t.len() < 3 {
                Err(if sub == "write"@ { ParseError::IoWriteMissingOperand } else { ParseError::IoWritelnMissingOperand })
            } else {
                match io_operand_spec(f, s, t[2].0 as int, t[2].1 as int) {
                    Ok((ops, o)) => Ok(ops.push(OpCodeV::IO(if sub == "write"@ { IoOpV::Write(o) } else { IoOpV::Writeln(o) }))),
                    Err(e) => Err(e),
                }
            }
        } else if sub == "read"@ || sub == "readln"@ {
            if t.len() < 3 {
                Err(if sub == "read"@ { ParseError::IoReadMissingRegister } else { ParseError::IoReadlnMissingRegister })
            } else {
                match to_register_spec(tok(s, t, 2)) {
                    Ok(r) => Ok(seq![OpCodeV::IO(if sub == "read"@ { IoOpV::Read(r) } else { IoOpV::Readln(r) })]),
                    Err(e) => Err(e),
                }
            }
        } else {
            Err(ParseError::UnknownIoSubcommand)
        }
    }
}

/// `let [mut] name = rhs`: the right-hand side computed into
/// `SystemVarBuffer`, then a variable declaration that takes it.
pub open spec fn let_spec<F: Fn(&str) -> Option<u32>>(f: F, s: Seq<char>, a: int, b: int) -> Result<Seq<OpCodeV>, ParseError> {
    let rest = trim_start_spec(s, after_n(a, b, 3), b);
    let mutable = span_starts_with(s, rest, b, "mut"@) && (b - rest == 3 || is_ascii_ws(s[rest + 3]));
    let kw_end = if mutable { trim_start_spec(s, rest + 3, b) } else { rest };
    match find_first(s, kw_end, b, '=') {
        None => Err(ParseError::LetMissingEquals),
        Some(eq) => {
            let (n0, n1) = trim_spec(s, kw_end, eq);
            let (e0, e1) = trim_spec(s, eq + 1, b);
            if n0 >= n1 {
                Err(ParseError::LetMissingName)
            } else if e0 >= e1 {
                Err(ParseError::LetMissingExpression)
            } else {
                match rhs_spec(f, s, e0, e1, OperandV::Register(Register::SystemVarBuffer)) {
                    Ok(op) => Ok(seq![
                        op,
                        OpCodeV::Variable(s.subrange(n0, n1), VariableV { is_mut: mutable, value: ValueV::Nil }),
                    ]),
                    Err(e) => Err(e),
                }
            }
        },
    }
}

/// `return [rhs]`: an empty return yields `Nil`; a call, construction or
/// method call leaves its result in `SystemVarBuffer` directly.
pub open spec fn return_spec<F: Fn(&str) -> Option<u32>>(f: F, s: Seq<char>, a: int, b: int) -> Result<Seq<OpCodeV>, ParseError> {
    let (e0, e1) = trim_spec(s, after_n(a, b, 6), b);
    if e0 >= e1 {
        Ok(seq![OpCodeV::Return(ExprV::Operand(OperandV::Literal(ValueV::Nil)))])
    } else if keyword_led(s, e0, e1, "call"@) || span_starts_with(s, e0, e1, "new "@) || is_method_call_spec(s, e0, e1) {
        one(rhs_spec(f, s, e0, e1, OperandV::Register(Register::SystemVarBuffer)))
    } else {
        match expr_text_spec(f, s, e0, e1) {
            Ok(e) => Ok(seq![OpCodeV::Return(e)]),
            Err(x) => Err(x),
        }
    }
}

/// The segments of `s[a..b]` between dots, as `str::split('.')` gives them.
pub open spec fn dot_segments(s: Seq<char>, a: int, b: int) -> Seq<(int, int)>
    decreases b - a,
{
    match find_first(s, a, b, '.') {
        None => seq![(a, b)],
        Some(d) => if d < a || d >= b {
            seq![(a, b)]
        } else {
            seq![(a, d)] + dot_segments(s, d + 1, b)
        },
    }
}

/// The trimmed texts of the dot-separated segments of `s[a..b]`.
pub open spec fn trimmed_segments(s: Seq<char>, a: int, b: int) -> Seq<Seq<char>> {
    dot_segments(s, a, b).map_values(|p: (int, int)| {
        let (x, y) = trim_spec(s, p.0, p.1);
        s.subrange(x, y)
    })
}

/// `base.f.g = expr`, with `eq` the position of the first `=`.
pub open spec fn set_field_spec<F: Fn(&str) -> Option<u32>>(f: F, s: Seq<char>, a: int, b: int, eq: int) -> Result<Seq<OpCodeV>, ParseError> {
    let (l0, l1) = trim_spec(s, a, eq);
    match trimmed_expr(f, s, eq + 1, b) {
        Err(x) => Err(x),
        Ok(value) => {
            let segs = trimmed_segments(s, l0, l1);
            if exists|i: int| 0 <= i < segs.len() && #[trigger] segs[i].len() == 0 {
                Err(ParseError::MalformedFieldAssignment)
            } else {
                Ok(seq![OpCodeV::SetField { base: segs[0], path: segs.skip(1), value }])
            }
        },
    }
}

/// Assignments and bare method calls: the forms an instruction can take
/// when its first token is no keyword.
pub open spec fn assignment_spec<F: Fn(&str) -> Option<u32>>(f: F, s: Seq<char>, a: int, b: int, t: Seq<(usize, usize)>) -> Result<Seq<OpCodeV>, ParseError> {
    let t0 = tok(s, t, 0);
    let assigns = t.len() >= 3 && tok(s, t, 1) == "="@;
    let eq = match find_first(s, a, b, '=') { Some(k) => k, None => b };
    let (r0, r1) = trim_spec(s, eq + 1, b);
    if assigns && span_has(s, t[0].0 as int, t[0].1 as int, '.') {
        set_field_spec(f, s, a, b, eq)
    } else if assigns && t.len() >= 4 && tok(s, t, 2) == "call"@ {
        match to_operand_spec(f, t0) {
            Ok(dest) => one(call_spec(f, s, r0, r1, dest)),
            Err(e) => Err(e),
        }
    } else if assigns && tok(s, t, 2) == "new"@ {
        match to_operand_spec(f, t0) {
            Ok(dest) => one(new_spec(f, s, r0, r1, dest)),
            Err(e) => Err(e),
        }
    } else if assigns && is_method_call_spec(s, r0, r1) {
        match to_operand_spec(f, t0) {
            Ok(dest) => one(method_spec(f, s, r0, r1, dest)),
            Err(e) => Err(e),
        }
    } else if span_has(s, t[0].0 as int, t[0].1 as int, '.') && span_has(s, a, b, '(')
        && !(t.len() >= 2 && tok(s, t, 1) == "="@) {
        one(method_spec(f, s, a, b, OperandV::Register(Register::SystemVarBuffer)))
    } else if assigns {
        match to_operand_spec(f, t0) {
            Ok(dest) => match expr_text_spec(f, s, r0, r1) {
                Ok(e) => Ok(seq![OpCodeV::Expr(e, dest)]),
                Err(x) => Err(x),
            },
            Err(e) => Err(e),
        }
    } else {
        Ok(seq![])
    }
}

/// The instructions that the text `s[a..b]` assembles to. An unknown
/// keyword yields none.
pub open spec fn instruction_spec<F: Fn(&str) -> Option<u32>>(f: F, s: Seq<char>, a: int, b: int) -> Result<Seq<OpCodeV>, ParseError> {
    match instruction_tokens(s, a, b) {
        None => Err(ParseError::UnterminatedEscape),
        Some(t) => if t.len() == 0 {
            Ok(seq![])
        } else {
            let t0 = tok(s, t, 0);
            if t0 == "add"@ || t0 == "sub"@ || t0 == "mul"@ || t0 == "div"@ {
                match arith_operands(f, s, t) {
                    Ok((x, y, r)) => Ok(seq![
                        if t0 == "add"@ {
                            OpCodeV::Add(x, y, r)
                        } else if t0 == "sub"@ {
                            OpCodeV::Sub(x, y, r)
                        } else if t0 == "mul"@ {
                            OpCodeV::Mul(x, y, r)
                        } else {
                            OpCodeV::Div(x, y, r)
                        },
                    ]),
                    Err(e) => Err(e),
                }
            } else if t0 == "_println"@ || t0 == "_print"@ {
                if t.len() < 2 {
                    Err(ParseError::NoValue)
                } else {
                    match io_operand_spec(f, s, t[1].0 as int, t[1].1 as int) {
                        Ok((ops, o)) => Ok(ops.push(if t0 == "_println"@ { OpCodeV::Println(o) } else { OpCodeV::Print(o) })),
                        Err(e) => Err(e),
                    }
                }
            } else if t0 == "io"@ {
                io_spec(f, s, t)
            } else if t0 == "let"@ {
                let_spec(f, s, a, b)
            } else if t0 == "call"@ {
                one(call_spec(f, s, a, b, OperandV::Register(Register::SystemVarBuffer)))
            } else if t0 == "return"@ {
                return_spec(f, s, a, b)
            } else {
                assignment_spec(f, s, a, b, t)
            }
        },
    }
}

fn span_at(toks: &Vec<(usize, usize)>, i: usize) -> (r: (usize, usize))
    requires
        i < toks@.len(),
    ensures
        r == toks@[i as int],
{
    toks[i]
}

fn tok_is(cs: &Vec<char>, toks: &Vec<(usize, usize)>, i: usize, lit: &str) -> (r: bool)
    requires
        i < toks@.len(),
        toks@[i as int].0 <= toks@[i as int].1 <= cs@.len(),
    ensures
        r == (tok(cs@, toks@, i as int) == lit@),
{
    let (x, y) = span_at(toks, i);
    span_eq(cs, x, y, lit)
}

fn arith_operands_exec<F: Fn(&str) -> Option<u32>>(f: &F, cs: &Vec<char>, toks: &Vec<(usize, usize)>)
    -> (r: Result<(Operand, Operand, Register), ParseError>)
    requires
        reads_floats(*f),
        cs@.len() < usize::MAX,
        forall|j: int| 0 <= j < toks@.len() ==> #[trigger] toks@[j].0 <= toks@[j].1 <= cs@.len(),
    ensures
        match arith_operands(*f, cs@, toks@) {
            Ok((x, y, reg)) => r matches Ok((p, q, g)) && p@ == x && q@ == y && g == reg,
            Err(e) => r == Err::<(Operand, Operand, Register), ParseError>(e),
        },
{
    if toks.len() < 2 {
        return Err(ParseError::NoValue);
    }
    let (x0, x1) = span_at(toks, 1);
    proof { assert(toks@[1].0 <= toks@[1].1 <= cs@.len()); }
    let x = match to_operand(f, cs, x0, x1) {
        Ok(o) => o,
        Err(e) => return Err(e),
    };
    if toks.len() < 3 {
        return Err(ParseError::NoValue);
    }
    let (y0, y1) = span_at(toks, 2);
    proof { assert(toks@[2].0 <= toks@[2].1 <= cs@.len()); }
    let y = match to_operand(f, cs, y0, y1) {
        Ok(o) => o,
        Err(e) => return Err(e),
    };
    if toks.len() < 4 {
        return Err(ParseError::NoValue);
    }
    let (d0, d1) = span_at(toks, 3);
    proof { assert(toks@[3].0 <= toks@[3].1 <= cs@.len()); }
    match to_register(cs, d0, d1) {
        Ok(reg) => Ok((x, y, reg)),
        Err(e) => Err(e),
    }
}

fn single(op: OpCode) -> (r: Vec<OpCode>)
    ensures
        ops_view(r@) == seq![op@],
{
    let mut v: Vec<OpCode> = Vec::new();
    let ghost ov = op@;
    v.push(op);
    proof {
        lemma_ops_view_push(seq![], v@[0]);
        assert(v@ =~= seq![].push(v@[0]));
        assert(ops_view(seq![]) =~= seq![]);
        assert(seq![].push(ov) =~= seq![ov]);
    }
    v
}

fn push_op(v: &mut Vec<OpCode>, op: OpCode)
    ensures
        ops_view(final(v)@) == ops_view(old(v)@).push(op@),
{
    let ghost old_v = v@;
    v.push(op);
    proof { lemma_ops_view_push(old_v, v@.last()); assert(v@ =~= old_v.push(v@.last())); }
}

fn io_exec<F: Fn(&str) -> Option<u32>>(f: &F, cs: &Vec<char>, toks: &Vec<(usize, usize)>) -> (r: Result<Vec<OpCode>, ParseError>)
    requires
        reads_floats(*f),
        cs@.len() < usize::MAX,
        forall|j: int| 0 <= j < toks@.len() ==> #[trigger] toks@[j].0 <= toks@[j].1 <= cs@.len(),
    ensures
        ops_matches(r, io_spec(*f, cs@, toks@)),
{
    if toks.len() < 2 {
        return Err(ParseError::IoMissingSubcommand);
    }
    proof { assert(toks@[1].0 <= toks@[1].1 <= cs@.len()); }
    let is_write = tok_is(cs, toks, 1, "write");
    let is_writeln = tok_is(cs, toks, 1, "writeln");
    let is_read = tok_is(cs, toks, 1, "read");
    let is_readln = tok_is(cs, toks, 1, "readln");
    if is_write || is_writeln {
        if toks.len() < 3 {
            return Err(if is_write { ParseError::IoWriteMissingOperand } else { ParseError::IoWritelnMissingOperand });
        }
        let (a, b) = span_at(toks, 2);
        proof { assert(toks@[2].0 <= toks@[2].1 <= cs@.len()); }
        let (mut ops, o) = match io_operand(f, cs, a, b) {
            Ok(v) => v,
            Err(e) => return Err(e),
        };
        push_op(&mut ops, OpCode::IO(if is_write { IoOp::Write(o) } else { IoOp::Writeln(o) }));
        Ok(ops)
    } else if is_read || is_readln {
        if toks.len() < 3 {
            return Err(if is_read { ParseError::IoReadMissingRegister } else { ParseError::IoReadlnMissingRegister });
        }
        let (a, b) = span_at(toks, 2);
        proof { assert(toks@[2].0 <= toks@[2].1 <= cs@.len()); }
        match to_register(cs, a, b) {
            Ok(reg) => Ok(single(OpCode::IO(if is_read { IoOp::Read(reg) } else { IoOp::Readln(reg) }))),
            Err(e) => Err(e),
        }
    } else {
        Err(ParseError::UnknownIoSubcommand)
    }
}

fn let_exec<F: Fn(&str) -> Option<u32>>(f: &F, cs: &Vec<char>, a: usize, b: usize) -> (r: Result<Vec<OpCode>, ParseError>)
    requires
        reads_floats(*f),
        a <= b <= cs@.len(),
        cs@.len() < usize::MAX,
    ensures
        ops_matches(r, let_spec(*f, cs@, a as int, b as int)),
{
    proof { reveal_strlit("mut"); }
    let skip = if b - a >= 3 { a + 3 } else { b };
    let rest = trim_start_at(cs, skip, b);
    let mutable = span_starts_with_lit(cs, rest, b, "mut") && (b - rest == 3 || is_ascii_ws_char(cs[rest + 3]));
    let kw_end = if mutable { trim_start_at(cs, rest + 3, b) } else { rest };
    let eq = match find_char(cs, kw_end, b, '=') {
        Some(e) => e,
        None => return Err(ParseError::LetMissingEquals),
    };
    let (n0, n1) = trim_span(cs, kw_end, eq);
    let (e0, e1) = trim_span(cs, eq + 1, b);
    if n0 >= n1 {
        return Err(ParseError::LetMissingName);
    }
    if e0 >= e1 {
        return Err(ParseError::LetMissingExpression);
    }
    let op = match push_rhs_opcode(f, cs, e0, e1, Operand::Register(Register::SystemVarBuffer)) {
        Ok(op) => op,
        Err(e) => return Err(e),
    };
    let ghost opv = op@;
    let mut ops = single(op);
    let var = OpCode::Variable(string_of(cs, n0, n1), Variable { is_mut: mutable, value: Value::Nil });
    let ghost varv = var@;
    push_op(&mut ops, var);
    assert(seq![opv].push(varv) =~= seq![opv, varv]);
    Ok(ops)
}

fn return_exec<F: Fn(&str) -> Option<u32>>(f: &F, cs: &Vec<char>, a: usize, b: usize) -> (r: Result<Vec<OpCode>, ParseError>)
    requires
        reads_floats(*f),
        a <= b <= cs@.len(),
        cs@.len() < usize::MAX,
    ensures
        ops_matches(r, return_spec(*f, cs@, a as int, b as int)),
{
    proof {
        reveal_strlit("call ");
        reveal_strlit("call");
        assert("call "@ =~= "call"@ + seq![' ']);
    }
    let skip = if b - a >= 6 { a + 6 } else { b };
    let (e0, e1) = trim_span(cs, skip, b);
    if e0 >= e1 {
        return Ok(single(OpCode::Return(Expr::Operand(Operand::Literal(Value::Nil)))));
    }
    if keyword_led_exec(cs, e0, e1, "call ", "call") || span_starts_with_lit(cs, e0, e1, "new ") || is_method_call_expr(cs, e0, e1) {
        match push_rhs_opcode(f, cs, e0, e1, Operand::Register(Register::SystemVarBuffer)) {
            Ok(op) => Ok(single(op)),
            Err(e) => Err(e),
        }
    } else {
        match parse_expr_span(f, cs, e0, e1) {
            Ok(e) => Ok(single(OpCode::Return(e))),
            Err(x) => Err(x),
        }
    }
}

fn set_field_exec<F: Fn(&str) -> Option<u32>>(f: &F, cs: &Vec<char>, a: usize, b: usize, eq: usize) -> (r: Result<Vec<OpCode>, ParseError>)
    requires
        reads_floats(*f),
        a <= eq < b <= cs@.len(),
        cs@.len() < usize::MAX,
    ensures
        ops_matches(r, set_field_spec(*f, cs@, a as int, b as int, eq as int)),
{
    let (l0, l1) = trim_span(cs, a, eq);
    let value = match parse_trimmed_expr(f, cs, eq + 1, b) {
        Ok(v) => v,
        Err(x) => return Err(x),
    };
    let ghost all = trimmed_segments(cs@, l0 as int, l1 as int);
    let mut segs: Vec<String> = Vec::new();
    let mut any_empty = false;
    let mut start = l0;
    loop
        invariant_except_break
            l0 <= start <= l1 <= cs@.len(),
            all == segs@.map_values(|x: String| x@) + trimmed_segments(cs@, start as int, l1 as int),
        invariant
            any_empty == exists|i: int| 0 <= i < segs@.len() && #[trigger] segs@[i]@.len() == 0,
        ensures
            all == segs@.map_values(|x: String| x@),
        decreases l1 - start,
    {
        let ghost before = segs@;
        match find_char(cs, start, l1, '.') {
            None => {
                let (x, y) = trim_span(cs, start, l1);
                if x >= y {
                    any_empty = true;
                }
                segs.push(string_of(cs, x, y));
                proof {
                    assert(dot_segments(cs@, start as int, l1 as int) == seq![(start as int, l1 as int)]);
                    assert(trimmed_segments(cs@, start as int, l1 as int) =~= seq![cs@.subrange(x as int, y as int)]);
                    assert(segs@.map_values(|x: String| x@) =~= before.map_values(|x: String| x@).push(cs@.subrange(x as int, y as int)));
                    if !any_empty {
                        assert forall|i: int| 0 <= i < segs@.len() implies #[trigger] segs@[i]@.len() != 0 by {
                            if i < before.len() {
                                assert(segs@[i] == before[i]);
                            }
                        }
                    } else {
                        if x >= y {
                            assert(segs@[before.len() as int]@.len() == 0);
                        } else {
                            let w = choose|i: int| 0 <= i < before.len() && #[trigger] before[i]@.len() == 0;
                            assert(segs@[w] == before[w]);
                        }
                    }
                }
                break;
            },
            Some(d) => {
                let (x, y) = trim_span(cs, start, d);
                if x >= y {
                    any_empty = true;
                }
                segs.push(string_of(cs, x, y));
                proof {
                    let rest = dot_segments(cs@, (d + 1) as int, l1 as int);
                    assert(dot_segments(cs@, start as int, l1 as int) == seq![(start as int, d as int)] + rest);
                    assert(trimmed_segments(cs@, start as int, l1 as int)
                        =~= seq![cs@.subrange(x as int, y as int)] + trimmed_segments(cs@, (d + 1) as int, l1 as int));
                    assert(segs@.map_values(|x: String| x@) =~= before.map_values(|x: String| x@).push(cs@.subrange(x as int, y as int)));
                    if !any_empty {
                        assert forall|i: int| 0 <= i < segs@.len() implies #[trigger] segs@[i]@.len() != 0 by {
                            if i < before.len() {
                                assert(segs@[i] == before[i]);
                            }
                        }
                    } else {
                        if x >= y {
                            assert(segs@[before.len() as int]@.len() == 0);
                        } else {
                            let w = choose|i: int| 0 <= i < before.len() && #[trigger] before[i]@.len() == 0;
                            assert(segs@[w] == before[w]);
                        }
                    }
                }
                start = d + 1;
            },
        }
    }
    if any_empty {
        proof {
            let w = choose|i: int| 0 <= i < segs@.len() && #[trigger] segs@[i]@.len() == 0;
            assert(all[w] == segs@[w]@);
        }
        return Err(ParseError::MalformedFieldAssignment);
    }
    proof {
        assert(all.len() == segs@.len());
        assert forall|i: int| 0 <= i < all.len() implies #[trigger] all[i].len() != 0 by {
            assert(all[i] == segs@[i]@);
        }
    }
    let ghost sv = segs@;
    let base = segs.remove(0);
    proof {
        assert(segs@ =~= sv.skip(1));
        assert(strings_view(segs@) =~= all.skip(1));
    }
    Ok(single(OpCode::SetField { base, path: segs, value }))
}

fn assignment_exec<F: Fn(&str) -> Option<u32>>(f: &F, cs: &Vec<char>, a: usize, b: usize, toks: &Vec<(usize, usize)>)
    -> (r: Result<Vec<OpCode>, ParseError>)
    requires
        reads_floats(*f),
        a <= b <= cs@.len(),
        cs@.len() < usize::MAX,
        toks@.len() > 0,
        spans_in(toks@, a as int, b as int),
    ensures
        ops_matches(r, assignment_spec(*f, cs@, a as int, b as int, toks@)),
{
    proof {
        reveal_strlit("=");
        assert(toks@[0].0 < toks@[0].1 <= b);
    }
    let (x0, x1) = span_at(toks, 0);
    let assigns = toks.len() >= 3 && tok_is(cs, toks, 1, "=");
    let dotted = find_char(cs, x0, x1, '.').is_some();
    if assigns {
        let (e0, _e1) = span_at(toks, 1);
        proof {
            assert(tok(cs@, toks@, 1)[0] == cs@[e0 as int]);
            lemma_find_first_some(cs@, a as int, b as int, '=', e0 as int);
        }
        let eq = match find_char(cs, a, b, '=') {
            Some(k) => k,
            None => b,
        };
        let (r0, r1) = trim_span(cs, eq + 1, b);
        if dotted {
            return set_field_exec(f, cs, a, b, eq);
        }
        let is_call = toks.len() >= 4 && tok_is(cs, toks, 2, "call");
        let is_new = tok_is(cs, toks, 2, "new");
        let is_method = is_method_call_expr(cs, r0, r1);
        if is_call || is_new || is_method {
            let dest = match to_operand(f, cs, x0, x1) {
                Ok(d) => d,
                Err(e) => return Err(e),
            };
            let op = if is_call {
                push_call_opcode(f, cs, r0, r1, dest)
            } else if is_new {
                push_new_opcode(f, cs, r0, r1, dest)
            } else {
                push_method_call_opcode(f, cs, r0, r1, dest)
            };
            return match op {
                Ok(op) => Ok(single(op)),
                Err(e) => Err(e),
            };
        }
        let dest = match to_operand(f, cs, x0, x1) {
            Ok(d) => d,
            Err(e) => return Err(e),
        };
        match parse_expr_span(f, cs, r0, r1) {
            Ok(e) => Ok(single(OpCode::Expr(e, dest))),
            Err(x) => Err(x),
        }
    } else {
        let eq_second = toks.len() >= 2 && tok_is(cs, toks, 1, "=");
        if dotted && find_char(cs, a, b, '(').is_some() && !eq_second {
            match push_method_call_opcode(f, cs, a, b, Operand::Register(Register::SystemVarBuffer)) {
                Ok(op) => Ok(single(op)),
                Err(e) => Err(e),
            }
        } else {
            let v: Vec<OpCode> = Vec::new();
            assert(ops_view(v@) =~= seq![]);
            Ok(v)
        }
    }
}

/// Parses one instruction, the text `cs[a..b]`, into the instructions it
/// assembles to; see [`instruction_spec`].
pub fn parse_instruction<F: Fn(&str) -> Option<u32>>(f: &F, cs: &Vec<char>, a: usize, b: usize) -> (r: Result<Vec<OpCode>, ParseError>)
    requires
        reads_floats(*f),
        a <= b <= cs@.len(),
        cs@.len() < usize::MAX,
    ensures
        ops_matches(r, instruction_spec(*f, cs@, a as int, b as int)),
{
    let toks = match tokenize(cs, a, b) {
        Ok(t) => t,
        Err(e) => return Err(e),
    };
    proof { lemma_instruction_tokens_in(cs@, a as int, b as int); }
    if toks.len() == 0 {
        let v: Vec<OpCode> = Vec::new();
        assert(ops_view(v@) =~= seq![]);
        return Ok(v);
    }
    proof {
        assert forall|j: int| 0 <= j < toks@.len() implies #[trigger] toks@[j].0 <= toks@[j].1 <= cs@.len() by {
            assert(a <= toks@[j].0 < toks@[j].1 <= b);
        }
    }
    let is_add = tok_is(cs, &toks, 0, "add");
    let is_sub = tok_is(cs, &toks, 0, "sub");
    let is_mul = tok_is(cs, &toks, 0, "mul");
    let is_div = tok_is(cs, &toks, 0, "div");
    if is_add || is_sub || is_mul || is_div {
        return match arith_operands_exec(f, cs, &toks) {
            Ok((x, y, reg)) => Ok(single(
                if is_add {
                    OpCode::Add(x, y, reg)
                } else if is_sub {
                    OpCode::Sub(x, y, reg)
                } else if is_mul {
                    OpCode::Mul(x, y, reg)
                } else {
                    OpCode::Div(x, y, reg)
                },
            )),
            Err(e) => Err(e),
        };
    }
    let is_println = tok_is(cs, &toks, 0, "_println");
    let is_print = tok_is(cs, &toks, 0, "_print");
    if is_println || is_print {
        if toks.len() < 2 {
            return Err(ParseError::NoValue);
        }
        let (x, y) = span_at(&toks, 1);
        let (mut ops, o) = match io_operand(f, cs, x, y) {
            Ok(v) => v,
            Err(e) => return Err(e),
        };
        push_op(&mut ops, if is_println { OpCode::Println(o) } else { OpCode::Print(o) });
        return Ok(ops);
    }
    if tok_is(cs, &toks, 0, "io") {
        return io_exec(f, cs, &toks);
    }
    if tok_is(cs, &toks, 0, "let") {
        return let_exec(f, cs, a, b);
    }
    if tok_is(cs, &toks, 0, "call") {
        return match push_call_opcode(f, cs, a, b, Operand::Register(Register::SystemVarBuffer)) {
            Ok(op) => Ok(single(op)),
            Err(e) => Err(e),
        };
    }
    if tok_is(cs, &toks, 0, "return") {
        return return_exec(f, cs, a, b);
    }
    assignment_exec(f, cs, a, b, &toks)
}

} // verus!
