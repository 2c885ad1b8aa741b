//! Expression parser: a tokenizer and a Pratt (precedence-climbing) parser.
use vstd::prelude::*;

use crate::expr::{BinOp, Expr, ExprV, UnOp};
use crate::op_code::{Operand, OperandV};
use crate::reader::{
    reads_floats, to_register, to_register_spec, to_value, to_value_spec, value_result_matches,
    variable_ref, ParseError,
};
use crate::scan::{lemma_quoted_end_bounds, quoted_end, scan_quoted};
use crate::text::{chars_of, is_ascii_ws, is_ascii_ws_char, span_eq, string_of};
use crate::value::{Value, ValueV};
use crate::variable::Variable;

verus! {

// ── Expression tokenizer ────────────────────────────────────────────

/// A character that is a token of its own: `+ - * / % < > & | ^ ! ~ ( ) =`.
pub open spec fn is_single(c: char) -> bool {
    c == '+' || c == '-' || c == '*' || c == '/' || c == '%' || c == '<' || c == '>' || c == '&'
        || c == '|' || c == '^' || c == '!' || c == '~' || c == '(' || c == ')' || c == '='
}

fn is_single_char(c: char) -> (r: bool)
    ensures
        r == is_single(c),
{
    c == '+' || c == '-' || c == '*' || c == '/' || c == '%' || c == '<' || c == '>' || c == '&'
        || c == '|' || c == '^' || c == '!' || c == '~' || c == '(' || c == ')' || c == '='
}

/// A two-character operator: `== != <= >= && || << >>`.
pub open spec fn is_multi(a: char, b: char) -> bool {
    (a == '=' && b == '=') || (a == '!' && b == '=') || (a == '<' && b == '=') || (a == '>' && b == '=')
        || (a == '&' && b == '&') || (a == '|' && b == '|') || (a == '<' && b == '<') || (a == '>' && b == '>')
}

fn is_multi_chars(a: char, b: char) -> (r: bool)
    ensures
        r == is_multi(a, b),
{
    (a == '=' && b == '=') || (a == '!' && b == '=') || (a == '<' && b == '=') || (a == '>' && b == '=')
        || (a == '&' && b == '&') || (a == '|' && b == '|') || (a == '<' && b == '<') || (a == '>' && b == '>')
}

/// End of the identifier, number or register that starts at `i`: the run
/// of characters that are neither whitespace nor one-character tokens.
pub open spec fn expr_word_end(s: Seq<char>, i: int, end: int) -> int
    decreases end - i,
{
    if i < end && !is_ascii_ws(s[i]) && !is_single(s[i]) {
        expr_word_end(s, i + 1, end)
    } else {
        i
    }
}

pub proof fn lemma_expr_word_end_bounds(s: Seq<char>, i: int, end: int)
    requires
        i <= end,
    ensures
        i <= expr_word_end(s, i, end) <= end,
        i < end && !is_ascii_ws(s[i]) && !is_single(s[i]) ==> i < expr_word_end(s, i, end),
    decreases end - i,
{
    if i < end && !is_ascii_ws(s[i]) && !is_single(s[i]) {
        lemma_expr_word_end_bounds(s, i + 1, end);
    }
}

/// `Some(prefix + t)` for `Some(t)`.
pub open spec fn prepend_spans(prefix: Seq<(usize, usize)>, rest: Option<Seq<(usize, usize)>>) -> Option<Seq<(usize, usize)>> {
    match rest {
        Some(t) => Some(prefix + t),
        None => None,
    }
}

/// The tokens of the expression text `s[i..end]`: two-character operators,
/// one-character tokens, string literals (see [`quoted_end`]) and the runs
/// in between, whitespace dropped. `None` where a literal ends in a lone
/// backslash at `end`.
pub open spec fn expr_tokens_spec(s: Seq<char>, i: int, end: int) -> Option<Seq<(usize, usize)>>
    decreases end - i,
{
    if i >= end {
        Some(seq![])
    } else if is_ascii_ws(s[i]) {
        expr_tokens_spec(s, i + 1, end)
    } else if i + 1 < end && is_multi(s[i], s[i + 1]) {
        prepend_spans(seq![(i as usize, (i + 2) as usize)], expr_tokens_spec(s, i + 2, end))
    } else if is_single(s[i]) {
        prepend_spans(seq![(i as usize, (i + 1) as usize)], expr_tokens_spec(s, i + 1, end))
    } else if s[i] == '"' {
        let k = quoted_end(s, i + 1, end);
        if k > end {
            None
        } else {
            proof { lemma_quoted_end_bounds(s, i + 1, end); }
            prepend_spans(seq![(i as usize, k as usize)], expr_tokens_spec(s, k, end))
        }
    } else {
        let k = expr_word_end(s, i, end);
        proof { lemma_expr_word_end_bounds(s, i, end); }
        prepend_spans(seq![(i as usize, k as usize)], expr_tokens_spec(s, k, end))
    }
}

/// Tokenizes the expression `cs[start..end]`, splitting on whitespace and
/// on operator boundaries, so that `!true`, `-5` and `(1+2)` come apart.
pub fn tokenize_expr(cs: &Vec<char>, start: usize, end: usize) -> (r: Result<Vec<(usize, usize)>, ParseError>)
    requires
        start <= end <= cs@.len(),
        end < usize::MAX,
    ensures
        match expr_tokens_spec(cs@, start as int, end as int) {
            Some(t) => r matches Ok(v) && v@ == t,
            None => r == Err::<Vec<(usize, usize)>, ParseError>(ParseError::UnterminatedEscape),
        },
{
    let mut out: Vec<(usize, usize)> = Vec::new();
    let mut i = start;
    while i < end
        invariant
            start <= i <= end <= cs@.len(),
            end < usize::MAX,
            expr_tokens_spec(cs@, start as int, end as int) == prepend_spans(out@, expr_tokens_spec(cs@, i as int, end as int)),
        decreases end - i,
    {
        let ghost rest_after = |k: int| expr_tokens_spec(cs@, k, end as int);
        if is_ascii_ws_char(cs[i]) {
            i += 1;
            continue;
        }
        let k: usize;
        if i + 1 < end && is_multi_chars(cs[i], cs[i + 1]) {
            k = i + 2;
        } else if is_single_char(cs[i]) {
            k = i + 1;
        } else if cs[i] == '"' {
            k = scan_quoted(cs, i + 1, end);
            proof { lemma_quoted_end_bounds(cs@, i + 1, end as int); }
            if k > end {
                return Err(ParseError::UnterminatedEscape);
            }
        } else {
            proof { lemma_expr_word_end_bounds(cs@, i as int, end as int); }
            let mut j = i;
            while j < end && !is_ascii_ws_char(cs[j]) && !is_single_char(cs[j])
                invariant
                    i <= j <= end <= cs@.len(),
                    expr_word_end(cs@, j as int, end as int) == expr_word_end(cs@, i as int, end as int),
                decreases end - j,
            {
                j += 1;
            }
            k = j;
        }
        proof {
            let t = expr_tokens_spec(cs@, k as int, end as int);
            match t {
                Some(tt) => { assert(out@ + (seq![(i, k)] + tt) == (out@ + seq![(i, k)]) + tt); },
                None => {},
            }
        }
        out.push((i, k));
        i = k;
    }
    proof {
        assert(out@ + seq![] == out@);
    }
    Ok(out)
}

// ── Operators ───────────────────────────────────────────────────────

/// The binary operator that token `t` spells, with its precedence level.
pub open spec fn infix_spec(t: Seq<char>) -> Option<(BinOp, u8)> {
    if t == "||"@ {
        Some((BinOp::Or, 2))
    } else if t == "&&"@ {
        Some((BinOp::And, 3))
    } else if t == "|"@ {
        Some((BinOp::BitOr, 4))
    } else if t == "^"@ {
        Some((BinOp::BitXor, 5))
    } else if t == "&"@ {
        Some((BinOp::BitAnd, 6))
    } else if t == "=="@ {
        Some((BinOp::Eq, 7))
    } else if t == "!="@ {
        Some((BinOp::Ne, 7))
    } else if t == "<"@ {
        Some((BinOp::Lt, 8))
    } else if t == ">"@ {
        Some((BinOp::Gt, 8))
    } else if t == "<="@ {
        Some((BinOp::Le, 8))
    } else if t == ">="@ {
        Some((BinOp::Ge, 8))
    } else if t == "<<"@ {
        Some((BinOp::Shl, 9))
    } else if t == ">>"@ {
        Some((BinOp::Shr, 9))
    } else if t == "+"@ {
        Some((BinOp::Add, 10))
    } else if t == "-"@ {
        Some((BinOp::Sub, 10))
    } else if t == "*"@ {
        Some((BinOp::Mul, 11))
    } else if t == "/"@ {
        Some((BinOp::Div, 11))
    } else if t == "%"@ {
        Some((BinOp::Rem, 11))
    } else {
        None
    }
}

/// Maps the infix operator token `cs[a..b]` to its [`BinOp`] and precedence.
fn infix_binding_power(cs: &Vec<char>, a: usize, b: usize) -> (r: Option<(BinOp, u8)>)
    requires
        a <= b <= cs@.len(),
    ensures
        r == infix_spec(cs@.subrange(a as int, b as int)),
{
    if span_eq(cs, a, b, "||") {
        Some((BinOp::Or, 2))
    } else if span_eq(cs, a, b, "&&") {
        Some((BinOp::And, 3))
    } else if span_eq(cs, a, b, "|") {
        Some((BinOp::BitOr, 4))
    } else if span_eq(cs, a, b, "^") {
        Some((BinOp::BitXor, 5))
    } else if span_eq(cs, a, b, "&") {
        Some((BinOp::BitAnd, 6))
    } else if span_eq(cs, a, b, "==") {
        Some((BinOp::Eq, 7))
    } else if span_eq(cs, a, b, "!=") {
        Some((BinOp::Ne, 7))
    } else if span_eq(cs, a, b, "<") {
        Some((BinOp::Lt, 8))
    } else if span_eq(cs, a, b, ">") {
        Some((BinOp::Gt, 8))
    } else if span_eq(cs, a, b, "<=") {
        Some((BinOp::Le, 8))
    } else if span_eq(cs, a, b, ">=") {
        Some((BinOp::Ge, 8))
    } else if span_eq(cs, a, b, "<<") {
        Some((BinOp::Shl, 9))
    } else if span_eq(cs, a, b, ">>") {
        Some((BinOp::Shr, 9))
    } else if span_eq(cs, a, b, "+") {
        Some((BinOp::Add, 10))
    } else if span_eq(cs, a, b, "-") {
        Some((BinOp::Sub, 10))
    } else if span_eq(cs, a, b, "*") {
        Some((BinOp::Mul, 11))
    } else if span_eq(cs, a, b, "/") {
        Some((BinOp::Div, 11))
    } else if span_eq(cs, a, b, "%") {
        Some((BinOp::Rem, 11))
    } else {
        None
    }
}

/// Compile-time negation of a literal: unsigned integers become negative
/// signed ones holding exactly the negative number (`-128` is `I32(-128)`,
/// not a runtime negation of `U8(128)`; `-170141183460469231731687303715884105728`
/// is `i128::MIN`). `None` for a literal that is not a number;
/// `Some(Err(()))` where the exact negative does not fit the signed type.
pub open spec fn negate_spec(v: ValueV) -> Option<Result<ValueV, ()>> {
    match v {
        ValueV::U8(n) => Some(Ok(ValueV::I32((0 - n) as i32))),
        ValueV::U32(n) => Some(Ok(ValueV::I128((0 - n) as i128))),
        ValueV::U128(n) => if n <= 0x8000_0000_0000_0000_0000_0000_0000_0000u128 {
            Some(Ok(ValueV::I128((0 - n) as i128)))
        } else {
            Some(Err(()))
        },
        ValueV::I32(n) => if n == i32::MIN { Some(Err(())) } else { Some(Ok(ValueV::I32((0 - n) as i32))) },
        ValueV::I128(n) => if n == i128::MIN { Some(Err(())) } else { Some(Ok(ValueV::I128((0 - n) as i128))) },
        ValueV::F32(b) => Some(Ok(ValueV::F32(b ^ 0x8000_0000u32))),
        ValueV::F64(b) => Some(Ok(ValueV::F64(b ^ 0x8000_0000_0000_0000u64))),
        _ => None,
    }
}

/// Tries to negate a literal value at compile time; see [`negate_spec`].
fn try_negate_value(v: &Value) -> (r: Option<Result<Value, ()>>)
    ensures
        match negate_spec(v@) {
            Some(Ok(x)) => r matches Some(Ok(y)) && y@ == x,
            Some(Err(())) => r == Some(Err::<Value, ()>(())),
            None => r is None,
        },
{
    match v {
        Value::U8(n) => Some(Ok(Value::I32(0i32 - (*n as i32)))),
        Value::U32(n) => Some(Ok(Value::I128(0i128 - (*n as i128)))),
        Value::U128(n) => if *n == 0x8000_0000_0000_0000_0000_0000_0000_0000u128 {
            Some(Ok(Value::I128(i128::MIN)))
        } else if *n < 0x8000_0000_0000_0000_0000_0000_0000_0000u128 {
            Some(Ok(Value::I128(0i128 - (*n as i128))))
        } else {
            Some(Err(()))
        },
        Value::I32(n) => if *n == i32::MIN { Some(Err(())) } else { Some(Ok(Value::I32(0i32 - *n))) },
        Value::I128(n) => if *n == i128::MIN { Some(Err(())) } else { Some(Ok(Value::I128(0i128 - *n))) },
        Value::F32(b) => Some(Ok(Value::F32(*b ^ 0x8000_0000u32))),
        Value::F64(b) => Some(Ok(Value::F64(*b ^ 0x8000_0000_0000_0000u64))),
        _ => None,
    }
}


// ── Atoms ───────────────────────────────────────────────────────────

/// Position of the last `.` in `s[a..b]`, or `a - 1` when there is none.
pub open spec fn last_dot(s: Seq<char>, a: int, b: int) -> int
    decreases b - a,
{
    if b <= a {
        a - 1
    } else if s[b - 1] == '.' {
        b - 1
    } else {
        last_dot(s, a, b - 1)
    }
}

pub proof fn lemma_last_dot_bounds(s: Seq<char>, a: int, b: int)
    requires
        a <= b,
    ensures
        a - 1 <= last_dot(s, a, b) < b,
        last_dot(s, a, b) >= a ==> s[last_dot(s, a, b)] == '.',
    decreases b - a,
{
    if b > a && s[b - 1] != '.' {
        lemma_last_dot_bounds(s, a, b - 1);
    }
}

/// A dotted name `v.f.g` read as the field `g` of the field `f` of the
/// variable `v`; every segment must be non-empty.
pub open spec fn field_chain_spec(s: Seq<char>, a: int, b: int) -> Result<ExprV, ParseError>
    decreases b - a,
{
    let d = last_dot(s, a, b);
    if d < a || d >= b {
        if a >= b {
            Err(ParseError::MalformedFieldAccess)
        } else {
            Ok(ExprV::Operand(variable_ref(s.subrange(a, b))))
        }
    } else if d + 1 == b {
        Err(ParseError::MalformedFieldAccess)
    } else {
        match field_chain_spec(s, a, d) {
            Ok(e) => Ok(ExprV::Field(Box::new(e), s.subrange(d + 1, b))),
            Err(x) => Err(x),
        }
    }
}

/// The leaf expression that token `t = s[a..b]` denotes: a register, a
/// literal, a field access such as `p.x`, or a variable.
pub open spec fn atom_spec<F: Fn(&str) -> Option<u32>>(f: F, s: Seq<char>, a: int, b: int) -> Result<ExprV, ParseError> {
    let t = s.subrange(a, b);
    if t.len() > 0 && t[0] == '$' {
        match to_register_spec(t) {
            Ok(r) => Ok(ExprV::Operand(OperandV::Register(r))),
            Err(e) => Err(e),
        }
    } else if t.len() > 0 && t[0] == '"' {
        match to_value_spec(f, t) {
            Ok(v) => Ok(ExprV::Operand(OperandV::Literal(v))),
            Err(e) => Err(e),
        }
    } else {
        match to_value_spec(f, t) {
            Ok(v) => Ok(ExprV::Operand(OperandV::Literal(v))),
            Err(_) => if t.contains('.') {
                field_chain_spec(s, a, b)
            } else {
                Ok(ExprV::Operand(variable_ref(t)))
            },
        }
    }
}

/// `r` is what `spec` describes, read back through views.
pub open spec fn expr_matches(r: Result<Expr, ParseError>, spec: Result<ExprV, ParseError>) -> bool {
    match spec {
        Ok(e) => r matches Ok(x) && x@ == e,
        Err(e) => r == Err::<Expr, ParseError>(e),
    }
}

fn last_dot_in(cs: &Vec<char>, a: usize, b: usize) -> (r: Option<usize>)
    requires
        a <= b <= cs@.len(),
    ensures
        match r {
            Some(d) => d as int == last_dot(cs@, a as int, b as int) && a <= d < b,
            None => last_dot(cs@, a as int, b as int) < a,
        },
{
    proof { lemma_last_dot_bounds(cs@, a as int, b as int); }
    let mut k = b;
    while k > a
        invariant
            a <= k <= b <= cs@.len(),
            last_dot(cs@, a as int, k as int) == last_dot(cs@, a as int, b as int),
        decreases k - a,
    {
        if cs[k - 1] == '.' {
            return Some(k - 1);
        }
        k -= 1;
    }
    None
}

fn field_chain(cs: &Vec<char>, a: usize, b: usize) -> (r: Result<Expr, ParseError>)
    requires
        a <= b <= cs@.len(),
    ensures
        expr_matches(r, field_chain_spec(cs@, a as int, b as int)),
    decreases b - a,
{
    match last_dot_in(cs, a, b) {
        None => {
            if a >= b {
                Err(ParseError::MalformedFieldAccess)
            } else {
                Ok(Expr::Operand(Operand::Variable(string_of(cs, a, b), Variable { is_mut: false, value: Value::Nil })))
            }
        },
        Some(d) => {
            if d + 1 == b {
                Err(ParseError::MalformedFieldAccess)
            } else {
                match field_chain(cs, a, d) {
                    Ok(e) => Ok(Expr::Field(Box::new(e), string_of(cs, d + 1, b))),
                    Err(x) => Err(x),
                }
            }
        },
    }
}

fn contains_dot(cs: &Vec<char>, a: usize, b: usize) -> (r: bool)
    requires
        a <= b <= cs@.len(),
    ensures
        r == cs@.subrange(a as int, b as int).contains('.'),
{
    let ghost t = cs@.subrange(a as int, b as int);
    let mut i = a;
    while i < b
        invariant
            a <= i <= b <= cs@.len(),
            t == cs@.subrange(a as int, b as int),
            forall|k: int| a <= k < i ==> cs@[k] != '.',
        decreases b - i,
    {
        if cs[i] == '.' {
            assert(t[i - a] == '.');
            return true;
        }
        i += 1;
    }
    assert forall|k: int| 0 <= k < t.len() implies t[k] != '.' by {
        assert(t[k] == cs@[a + k]);
    }
    false
}

/// Reads the leaf token `cs[a..b]`; see [`atom_spec`].
fn parse_atom<F: Fn(&str) -> Option<u32>>(f: &F, cs: &Vec<char>, a: usize, b: usize) -> (r: Result<Expr, ParseError>)
    requires
        reads_floats(*f),
        a <= b <= cs@.len(),
        b < usize::MAX,
    ensures
        expr_matches(r, atom_spec(*f, cs@, a as int, b as int)),
{
    if a < b && cs[a] == '$' {
        match to_register(cs, a, b) {
            Ok(reg) => Ok(Expr::Operand(Operand::Register(reg))),
            Err(e) => Err(e),
        }
    } else if a < b && cs[a] == '"' {
        match to_value(f, cs, a, b) {
            Ok(v) => Ok(Expr::Operand(Operand::Literal(v))),
            Err(e) => Err(e),
        }
    } else {
        match to_value(f, cs, a, b) {
            Ok(v) => Ok(Expr::Operand(Operand::Literal(v))),
            Err(_) => if contains_dot(cs, a, b) {
                field_chain(cs, a, b)
            } else {
                Ok(Expr::Operand(Operand::Variable(string_of(cs, a, b), Variable { is_mut: false, value: Value::Nil })))
            },
        }
    }
}

// ── Precedence climbing ─────────────────────────────────────────────

/// Every span of `toks` lies within `s`.
pub open spec fn spans_within(s: Seq<char>, toks: Seq<(usize, usize)>) -> bool {
    forall|i: int| 0 <= i < toks.len() ==> #[trigger] toks[i].0 <= toks[i].1 <= s.len()
}

/// The text of token `i`.
pub open spec fn tok(s: Seq<char>, toks: Seq<(usize, usize)>, i: int) -> Seq<char> {
    s.subrange(toks[i].0 as int, toks[i].1 as int)
}

/// The atom or prefix expression that starts at token `p`, with the
/// position of the first token after it.
pub open spec fn prefix_spec<F: Fn(&str) -> Option<u32>>(f: F, s: Seq<char>, toks: Seq<(usize, usize)>, p: int)
    -> Result<(ExprV, int), ParseError>
    decreases toks.len() - p, 1nat,
{
    if p < 0 || p >= toks.len() {
        Err(ParseError::UnexpectedEnd)
    } else {
        let t = tok(s, toks, p);
        if t == "("@ {
            match expression_spec(f, s, toks, p + 1, 0) {
                Ok((e, q)) => if q >= toks.len() || tok(s, toks, q) != ")"@ {
                    Err(ParseError::ExpectedCloseParen)
                } else {
                    Ok((e, q + 1))
                },
                Err(x) => Err(x),
            }
        } else if t == "-"@ {
            match expression_spec(f, s, toks, p + 1, 12) {
                Ok((e, q)) => match e {
                    ExprV::Operand(OperandV::Literal(v)) => match negate_spec(v) {
                        Some(Ok(w)) => Ok((ExprV::Operand(OperandV::Literal(w)), q)),
                        Some(Err(())) => Err(ParseError::NegationOverflow),
                        None => Ok((ExprV::Unary(UnOp::Neg, Box::new(e)), q)),
                    },
                    _ => Ok((ExprV::Unary(UnOp::Neg, Box::new(e)), q)),
                },
                Err(x) => Err(x),
            }
        } else if t == "!"@ {
            match expression_spec(f, s, toks, p + 1, 12) {
                Ok((e, q)) => Ok((ExprV::Unary(UnOp::Not, Box::new(e)), q)),
                Err(x) => Err(x),
            }
        } else if t == "~"@ {
            match expression_spec(f, s, toks, p + 1, 12) {
                Ok((e, q)) => Ok((ExprV::Unary(UnOp::BitNot, Box::new(e)), q)),
                Err(x) => Err(x),
            }
        } else {
            match atom_spec(f, s, toks[p].0 as int, toks[p].1 as int) {
                Ok(e) => Ok((e, p + 1)),
                Err(x) => Err(x),
            }
        }
    }
}

/// The expression that starts at token `p` and extends over every binary
/// operator of precedence at least `m`, with the position after it.
pub open spec fn expression_spec<F: Fn(&str) -> Option<u32>>(f: F, s: Seq<char>, toks: Seq<(usize, usize)>, p: int, m: int)
    -> Result<(ExprV, int), ParseError>
    decreases toks.len() - p, 2nat,
{
    match prefix_spec(f, s, toks, p) {
        Ok((lhs, q)) => if q <= p || q > toks.len() {
            Err(ParseError::UnexpectedEnd)
        } else {
            climb_spec(f, s, toks, lhs, q, m)
        },
        Err(x) => Err(x),
    }
}

/// Extends `lhs`, which ends before token `q`, with each following binary
/// operator of precedence at least `m` and its right operand.
pub open spec fn climb_spec<F: Fn(&str) -> Option<u32>>(f: F, s: Seq<char>, toks: Seq<(usize, usize)>, lhs: ExprV, q: int, m: int)
    -> Result<(ExprV, int), ParseError>
    decreases toks.len() - q, 0nat,
{
    if q < 0 || q >= toks.len() {
        Ok((lhs, q))
    } else {
        match infix_spec(tok(s, toks, q)) {
            None => Ok((lhs, q)),
            Some((op, prec)) => if prec < m {
                Ok((lhs, q))
            } else {
                match expression_spec(f, s, toks, q + 1, prec + 1) {
                    Ok((rhs, q2)) => if q2 <= q || q2 > toks.len() {
                        Err(ParseError::UnexpectedEnd)
                    } else {
                        climb_spec(f, s, toks, ExprV::Binary(Box::new(lhs), op, Box::new(rhs)), q2, m)
                    },
                    Err(x) => Err(x),
                }
            },
        }
    }
}

/// `r`, a tree and a count of tokens from `p`, is what `spec` describes.
pub open spec fn parsed_matches(r: Result<(Expr, usize), ParseError>, p: int, spec: Result<(ExprV, int), ParseError>) -> bool {
    match spec {
        Ok((e, q)) => r matches Ok((x, c)) && x@ == e && q == p + c,
        Err(e) => r == Err::<(Expr, usize), ParseError>(e),
    }
}

/// Parses an atom or unary prefix expression from the tokens at `pos`.
fn parse_prefix<F: Fn(&str) -> Option<u32>>(f: &F, cs: &Vec<char>, toks: &Vec<(usize, usize)>, pos: usize)
    -> (r: Result<(Expr, usize), ParseError>)
    requires
        reads_floats(*f),
        cs@.len() < usize::MAX,
        spans_within(cs@, toks@),
        pos <= toks@.len(),
    ensures
        parsed_matches(r, pos as int, prefix_spec(*f, cs@, toks@, pos as int)),
        r matches Ok((_, c)) ==> 1 <= c && pos + c <= toks@.len(),
    decreases toks@.len() - pos, 1nat,
{
    if pos >= toks.len() {
        return Err(ParseError::UnexpectedEnd);
    }
    let (a, b) = toks[pos];
    proof { assert(toks@[pos as int].0 <= toks@[pos as int].1 <= cs@.len()); }
    if span_eq(cs, a, b, "(") {
        match parse_expression(f, cs, toks, pos + 1, 0) {
            Ok((inner, consumed)) => {
                let next = pos + 1 + consumed;
                if next >= toks.len() {
                    return Err(ParseError::ExpectedCloseParen);
                }
                let (c, d) = toks[next];
                proof { assert(toks@[next as int].0 <= toks@[next as int].1 <= cs@.len()); }
                if !span_eq(cs, c, d, ")") {
                    return Err(ParseError::ExpectedCloseParen);
                }
                Ok((inner, consumed + 2))
            },
            Err(x) => Err(x),
        }
    } else if span_eq(cs, a, b, "-") {
        match parse_expression(f, cs, toks, pos + 1, 12) {
            Ok((inner, consumed)) => {
                let folded: Option<Result<Value, ()>> = match &inner {
                    Expr::Operand(Operand::Literal(v)) => try_negate_value(v),
                    _ => None,
                };
                match folded {
                    Some(Ok(w)) => Ok((Expr::Operand(Operand::Literal(w)), consumed + 1)),
                    Some(Err(())) => Err(ParseError::NegationOverflow),
                    None => Ok((Expr::Unary(UnOp::Neg, Box::new(inner)), consumed + 1)),
                }
            },
            Err(x) => Err(x),
        }
    } else if span_eq(cs, a, b, "!") {
        match parse_expression(f, cs, toks, pos + 1, 12) {
            Ok((inner, consumed)) => Ok((Expr::Unary(UnOp::Not, Box::new(inner)), consumed + 1)),
            Err(x) => Err(x),
        }
    } else if span_eq(cs, a, b, "~") {
        match parse_expression(f, cs, toks, pos + 1, 12) {
            Ok((inner, consumed)) => Ok((Expr::Unary(UnOp::BitNot, Box::new(inner)), consumed + 1)),
            Err(x) => Err(x),
        }
    } else {
        match parse_atom(f, cs, a, b) {
            Ok(e) => Ok((e, 1)),
            Err(x) => Err(x),
        }
    }
}

/// Pratt / precedence-climbing parser: parses the tokens from `pos` until
/// an operator of precedence below `min_prec`, returning the tree and the
/// number of tokens it spans.
fn parse_expression<F: Fn(&str) -> Option<u32>>(f: &F, cs: &Vec<char>, toks: &Vec<(usize, usize)>, pos: usize, min_prec: u8)
    -> (r: Result<(Expr, usize), ParseError>)
    requires
        reads_floats(*f),
        cs@.len() < usize::MAX,
        spans_within(cs@, toks@),
        pos <= toks@.len(),
    ensures
        parsed_matches(r, pos as int, expression_spec(*f, cs@, toks@, pos as int, min_prec as int)),
        r matches Ok((_, c)) ==> 1 <= c && pos + c <= toks@.len(),
    decreases toks@.len() - pos, 2nat,
{
    let (mut lhs, mut consumed) = match parse_prefix(f, cs, toks, pos) {
        Ok(v) => v,
        Err(x) => return Err(x),
    };
    loop
        invariant
            reads_floats(*f),
            cs@.len() < usize::MAX,
            spans_within(cs@, toks@),
            pos < pos + consumed <= toks.len(),
            expression_spec(*f, cs@, toks@, pos as int, min_prec as int)
                == climb_spec(*f, cs@, toks@, lhs@, pos + consumed, min_prec as int),
        decreases toks@.len() - pos - consumed,
    {
        let next = pos + consumed;
        if next >= toks.len() {
            return Ok((lhs, consumed));
        }
        let (a, b) = toks[next];
        proof { assert(toks@[next as int].0 <= toks@[next as int].1 <= cs@.len()); }
        let (op, prec) = match infix_binding_power(cs, a, b) {
            Some(v) => v,
            None => return Ok((lhs, consumed)),
        };
        if prec < min_prec {
            return Ok((lhs, consumed));
        }
        let (rhs, rhs_consumed) = match parse_expression(f, cs, toks, next + 1, prec + 1) {
            Ok(v) => v,
            Err(x) => return Err(x),
        };
        lhs = Expr::Binary(Box::new(lhs), op, Box::new(rhs));
        consumed = consumed + 1 + rhs_consumed;
    }
}

/// What [`parse_expr_span`] gives for the text `s[start..end]`.
pub open spec fn expr_text_spec<F: Fn(&str) -> Option<u32>>(f: F, s: Seq<char>, start: int, end: int) -> Result<ExprV, ParseError> {
    match expr_tokens_spec(s, start, end) {
        None => Err(ParseError::UnterminatedEscape),
        Some(t) => if t.len() == 0 {
            Err(ParseError::EmptyExpression)
        } else {
            match expression_spec(f, s, t, 0, 0) {
                Ok((e, q)) => if q != t.len() {
                    Err(ParseError::UnexpectedToken)
                } else {
                    Ok(e)
                },
                Err(x) => Err(x),
            }
        },
    }
}

proof fn lemma_prepend_within(s: Seq<char>, i: int, k: int, rest: Seq<(usize, usize)>)
    requires
        0 <= i <= k <= s.len() <= usize::MAX,
        spans_within(s, rest),
    ensures
        spans_within(s, seq![(i as usize, k as usize)] + rest),
{
    let t = seq![(i as usize, k as usize)] + rest;
    assert forall|j: int| 0 <= j < t.len() implies #[trigger] t[j].0 <= t[j].1 <= s.len() by {
        if j > 0 {
            assert(t[j] == rest[j - 1]);
        }
    }
}

proof fn lemma_expr_tokens_within(s: Seq<char>, i: int, end: int)
    requires
        0 <= i <= end <= s.len() <= usize::MAX,
    ensures
        expr_tokens_spec(s, i, end) matches Some(t) ==> spans_within(s, t),
    decreases end - i,
{
    if i >= end {
    } else if is_ascii_ws(s[i]) {
        lemma_expr_tokens_within(s, i + 1, end);
    } else if i + 1 < end && is_multi(s[i], s[i + 1]) {
        lemma_expr_tokens_within(s, i + 2, end);
        if let Some(rest) = expr_tokens_spec(s, i + 2, end) {
            lemma_prepend_within(s, i, i + 2, rest);
        }
    } else if is_single(s[i]) {
        lemma_expr_tokens_within(s, i + 1, end);
        if let Some(rest) = expr_tokens_spec(s, i + 1, end) {
            lemma_prepend_within(s, i, i + 1, rest);
        }
    } else if s[i] == '"' {
        lemma_quoted_end_bounds(s, i + 1, end);
        let k = quoted_end(s, i + 1, end);
        if k <= end {
            lemma_expr_tokens_within(s, k, end);
            if let Some(rest) = expr_tokens_spec(s, k, end) {
                lemma_prepend_within(s, i, k, rest);
            }
        }
    } else {
        lemma_expr_word_end_bounds(s, i, end);
        let k = expr_word_end(s, i, end);
        lemma_expr_tokens_within(s, k, end);
        if let Some(rest) = expr_tokens_spec(s, k, end) {
            lemma_prepend_within(s, i, k, rest);
        }
    }
}

/// Parses the expression text `cs[start..end]` into an [`Expr`] tree.
pub fn parse_expr_span<F: Fn(&str) -> Option<u32>>(f: &F, cs: &Vec<char>, start: usize, end: usize) -> (r: Result<Expr, ParseError>)
    requires
        reads_floats(*f),
        start <= end <= cs@.len(),
        cs@.len() < usize::MAX,
    ensures
        expr_matches(r, expr_text_spec(*f, cs@, start as int, end as int)),
{
    let toks = match tokenize_expr(cs, start, end) {
        Ok(t) => t,
        Err(x) => return Err(x),
    };
    proof { lemma_expr_tokens_within(cs@, start as int, end as int); }
    if toks.len() == 0 {
        return Err(ParseError::EmptyExpression);
    }
    let (expr, consumed) = match parse_expression(f, cs, &toks, 0, 0) {
        Ok(v) => v,
        Err(x) => return Err(x),
    };
    if consumed != toks.len() {
        return Err(ParseError::UnexpectedToken);
    }
    Ok(expr)
}

/// Parses a raw expression string into an [`Expr`] tree.
pub fn parse_expr_str<F: Fn(&str) -> Option<u32>>(f: &F, s: &str) -> (r: Result<Expr, ParseError>)
    requires
        reads_floats(*f),
        s@.len() < usize::MAX,
    ensures
        expr_matches(r, expr_text_spec(*f, s@, 0, s@.len() as int)),
{
    let cs = chars_of(s);
    parse_expr_span(f, &cs, 0, cs.len())
}

// ── Laws of the expression grammar ──────────────────────────────────

/// `>>` is one token, as `<<` is: wherever the tokenizer meets two `>` in a
/// row, they make a single two-character token, and that token is the
/// right-shift operator, binding as tightly as the left shift.
pub proof fn lemma_shift_right_is_one_token(s: Seq<char>, i: int, end: int)
    requires
        0 <= i,
        i + 1 < end <= s.len(),
        end < usize::MAX,
        s[i] == '>',
        s[i + 1] == '>',
    ensures
        expr_tokens_spec(s, i, end) matches Some(t) ==> t.len() > 0 && t[0].0 == i && t[0].1 == i + 2,
        s.subrange(i, i + 2) == ">>"@,
        infix_spec(">>"@) == Some((BinOp::Shr, 9u8)),
        infix_spec("<<"@) == Some((BinOp::Shl, 9u8)),
{
    reveal_strlit(">>");
    reveal_strlit("<<");
    reveal_strlit("||");
    reveal_strlit("&&");
    reveal_strlit("|");
    reveal_strlit("^");
    reveal_strlit("&");
    reveal_strlit("==");
    reveal_strlit("!=");
    reveal_strlit("<");
    reveal_strlit(">");
    reveal_strlit("<=");
    reveal_strlit(">=");
    assert(s.subrange(i, i + 2) =~= ">>"@);
    assert(is_multi(s[i], s[i + 1]));
    assert(!is_ascii_ws(s[i]));
    let t = ">>"@;
    assert(t.len() == 2 && t[0] == '>' && t[1] == '>');
    assert("||"@[0] == '|' && "&&"@[0] == '&' && "=="@[0] == '=' && "!="@[0] == '!' && "<="@[0] == '<');
    assert(">="@[1] == '=' && "<<"@[0] == '<');
    assert("|"@.len() == 1 && "^"@.len() == 1 && "&"@.len() == 1 && "<"@.len() == 1 && ">"@.len() == 1);
    assert(infix_spec(t) == Some((BinOp::Shr, 9u8)));
    let u = "<<"@;
    assert(u.len() == 2 && u[0] == '<' && u[1] == '<');
    assert("!="@[0] == '!' && "<="@[1] == '=' && ">="@[0] == '>');
    assert(infix_spec(u) == Some((BinOp::Shl, 9u8)));
}

/// A token that the prefix rules leave to the atom reader.
pub open spec fn plain_token(t: Seq<char>) -> bool {
    t != "("@ && t != "-"@ && t != "!"@ && t != "~"@
}

/// Binary operators of equal precedence associate to the left: the tokens
/// `a op1 b op2 c`, where `op1` and `op2` bind equally tightly and `a`, `b`,
/// `c` are atoms, parse as `(a op1 b) op2 c`.
pub proof fn lemma_left_associative<F: Fn(&str) -> Option<u32>>(
    f: F,
    s: Seq<char>,
    toks: Seq<(usize, usize)>,
    p: int,
    op1: BinOp,
    op2: BinOp,
    prec: u8,
)
    requires
        0 <= p,
        toks.len() == p + 5,
        plain_token(tok(s, toks, p)),
        plain_token(tok(s, toks, p + 2)),
        plain_token(tok(s, toks, p + 4)),
        atom_spec(f, s, toks[p].0 as int, toks[p].1 as int) is Ok,
        atom_spec(f, s, toks[p + 2].0 as int, toks[p + 2].1 as int) is Ok,
        atom_spec(f, s, toks[p + 4].0 as int, toks[p + 4].1 as int) is Ok,
        infix_spec(tok(s, toks, p + 1)) == Some((op1, prec)),
        infix_spec(tok(s, toks, p + 3)) == Some((op2, prec)),
    ensures
        ({
            let a = atom_spec(f, s, toks[p].0 as int, toks[p].1 as int)->Ok_0;
            let b = atom_spec(f, s, toks[p + 2].0 as int, toks[p + 2].1 as int)->Ok_0;
            let c = atom_spec(f, s, toks[p + 4].0 as int, toks[p + 4].1 as int)->Ok_0;
            expression_spec(f, s, toks, p, 0) == Ok::<(ExprV, int), ParseError>((
                ExprV::Binary(Box::new(ExprV::Binary(Box::new(a), op1, Box::new(b))), op2, Box::new(c)),
                p + 5,
            ))
        }),
{
    let a = atom_spec(f, s, toks[p].0 as int, toks[p].1 as int)->Ok_0;
    let b = atom_spec(f, s, toks[p + 2].0 as int, toks[p + 2].1 as int)->Ok_0;
    let c = atom_spec(f, s, toks[p + 4].0 as int, toks[p + 4].1 as int)->Ok_0;
    let m = prec + 1;
    assert(prefix_spec(f, s, toks, p) == Ok::<(ExprV, int), ParseError>((a, p + 1)));
    assert(prefix_spec(f, s, toks, p + 2) == Ok::<(ExprV, int), ParseError>((b, p + 3)));
    assert(prefix_spec(f, s, toks, p + 4) == Ok::<(ExprV, int), ParseError>((c, p + 5)));
    assert(climb_spec(f, s, toks, c, p + 5, m) == Ok::<(ExprV, int), ParseError>((c, p + 5)));
    assert(expression_spec(f, s, toks, p + 4, m) == Ok::<(ExprV, int), ParseError>((c, p + 5)));
    assert(climb_spec(f, s, toks, b, p + 3, m) == Ok::<(ExprV, int), ParseError>((b, p + 3)));
    assert(expression_spec(f, s, toks, p + 2, m) == Ok::<(ExprV, int), ParseError>((b, p + 3)));
    let ab = ExprV::Binary(Box::new(a), op1, Box::new(b));
    let abc = ExprV::Binary(Box::new(ab), op2, Box::new(c));
    assert(climb_spec(f, s, toks, abc, p + 5, 0) == Ok::<(ExprV, int), ParseError>((abc, p + 5)));
    assert(climb_spec(f, s, toks, ab, p + 3, 0) == Ok::<(ExprV, int), ParseError>((abc, p + 5)));
    assert(climb_spec(f, s, toks, a, p + 1, 0) == Ok::<(ExprV, int), ParseError>((abc, p + 5)));
}

} // verus!
