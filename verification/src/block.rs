//! The block parser: scans source text for instructions, comments, nested
//! `{ ... }` blocks, function, class, `while` and `if` statements.
use vstd::prelude::*;

use crate::class::ClassDef;
use crate::expr::ExprV;
use crate::expr_parser::{expr_text_spec, parse_expr_span};
use crate::function::FnDef;
use crate::instruction::{
    find_char, find_first, keyword_led, keyword_led_exec, lemma_find_first, ops_matches, parse_instruction,
    instruction_spec, parse_trimmed_expr, trimmed_expr,
};
use crate::op_code::{
    lemma_methods_view_index, lemma_methods_view_len, lemma_ops_view_append, lemma_ops_view_index, lemma_ops_view_len,
    lemma_ops_view_push, methods_view, ops_view, strings_view, class_fields_view, ClassDefV, FnDefV,
    OpCode, OpCodeV, Operand, OperandV,
};
use crate::reader::{reads_floats, ParseError};
use crate::register::Register;
use crate::scan::{lemma_quoted_end_bounds, lemma_skip_ws_bounds, quoted_end, scan_quoted, skip_ws, skip_ws_spec};
use crate::text::{lemma_trim_bounds, span_eq, span_starts_with_lit, string_of, trim_span, trim_spec};

verus! {

// ── Class bodies ────────────────────────────────────────────────────

/// The first position of a method named `k`.
pub open spec fn method_index(ms: Seq<(Seq<char>, FnDefV)>, k: Seq<char>, i: int) -> Option<int>
    decreases ms.len() - i,
{
    if i < 0 || i >= ms.len() {
        None
    } else if ms[i].0 == k {
        Some(i)
    } else {
        method_index(ms, k, i + 1)
    }
}

/// The method table with `k` bound to `v`: an existing entry is replaced
/// in place, a new one goes at the end.
pub open spec fn methods_insert(ms: Seq<(Seq<char>, FnDefV)>, k: Seq<char>, v: FnDefV) -> Seq<(Seq<char>, FnDefV)> {
    match method_index(ms, k, 0) {
        Some(i) => ms.update(i, (k, v)),
        None => ms.push((k, v)),
    }
}

proof fn lemma_method_index(ms: Seq<(Seq<char>, FnDefV)>, k: Seq<char>, i: int)
    requires
        0 <= i,
    ensures
        method_index(ms, k, i) matches Some(j) ==> i <= j < ms.len() && ms[j].0 == k,
        method_index(ms, k, i) is None ==> forall|j: int| i <= j < ms.len() ==> ms[j].0 != k,
    decreases ms.len() - i,
{
    if i < ms.len() && ms[i].0 != k {
        lemma_method_index(ms, k, i + 1);
    }
}

/// A class body: the `let` pairs (`Expr` into `SystemVarBuffer` followed by
/// a `Variable`) become fields, function definitions become methods.
pub open spec fn class_scan(body: Seq<OpCodeV>, i: int, fields: Seq<(Seq<char>, ExprV)>, methods: Seq<(Seq<char>, FnDefV)>)
    -> Result<ClassDefV, ParseError>
    decreases body.len() - i,
{
    if i < 0 || i >= body.len() {
        Ok(ClassDefV { fields, methods })
    } else {
        match body[i] {
            OpCodeV::FnDef { name, params, body: b } =>
                class_scan(body, i + 1, fields, methods_insert(methods, name, FnDefV { params, body: b })),
            OpCodeV::Expr(init, OperandV::Register(Register::SystemVarBuffer)) =>
                if i + 1 < body.len() && body[i + 1] is Variable {
                    class_scan(body, i + 2, fields.push((body[i + 1]->Variable_0, init)), methods)
                } else {
                    Err(ParseError::MalformedClassField)
                },
            _ => Err(ParseError::InvalidClassMember),
        }
    }
}

/// The class that a parsed class body defines.
pub open spec fn class_def_spec(body: Seq<OpCodeV>) -> Result<ClassDefV, ParseError> {
    class_scan(body, 0, seq![], seq![])
}

fn insert_method(methods: &mut Vec<(String, FnDef)>, k: String, v: FnDef)
    ensures
        methods_view(final(methods)@) == methods_insert(methods_view(old(methods)@), k@, v@),
{
    let ghost old_ms = methods_view(methods@);
    proof {
        lemma_methods_view_len(methods@);
        lemma_method_index(old_ms, k@, 0);
    }
    let mut i: usize = 0;
    while i < methods.len()
        invariant
            0 <= i <= methods@.len(),
            methods@ == old(methods)@,
            old_ms == methods_view(methods@),
            old_ms.len() == methods@.len(),
            method_index(old_ms, k@, 0) == method_index(old_ms, k@, i as int),
        decreases methods@.len() - i,
    {
        proof { lemma_methods_view_index(methods@, i as int); }
        if methods[i].0.eq(&k) {
            proof {
                assert(old_ms[i as int].0 == k@);
                assert(method_index(old_ms, k@, i as int) == Some(i as int));
            }
            let ghost before = methods@;
            let ghost kv = k@;
            let ghost vv = v@;
            methods.set(i, (k, v));
            proof {
                lemma_methods_view_len(methods@);
                assert forall|j: int| 0 <= j < methods@.len() implies methods_view(methods@)[j] == old_ms.update(i as int, (kv, vv))[j] by {
                    lemma_methods_view_index(methods@, j);
                    lemma_methods_view_index(before, j);
                }
                assert(methods_view(methods@) =~= old_ms.update(i as int, (kv, vv)));
            }
            return;
        }
        i += 1;
    }
    let ghost before = methods@;
    methods.push((k, v));
    proof {
        assert(methods@.drop_last() =~= before);
    }
}

fn build_class_def(name: String, members: Vec<OpCode>) -> (r: Result<OpCode, ParseError>)
    ensures
        match class_def_spec(ops_view(members@)) {
            Ok(cd) => r matches Ok(op) && op@ == OpCodeV::ClassDef { name: name@, def: cd },
            Err(e) => r == Err::<OpCode, ParseError>(e),
        },
{
    let ghost all = ops_view(members@);
    proof { lemma_ops_view_len(members@); }
    let mut body = members;
    let mut fields: Vec<(String, crate::expr::Expr)> = Vec::new();
    let mut methods: Vec<(String, FnDef)> = Vec::new();
    proof {
        assert(class_fields_view(fields@) =~= seq![]);
        assert(methods_view(methods@) =~= seq![]);
        assert(all.skip(0) =~= all);
    }
    while body.len() > 0
        invariant
            all == ops_view(members@),
            all.len() >= body@.len(),
            ops_view(body@) == all.skip(all.len() - body@.len()),
            class_def_spec(all) == class_scan(all, all.len() - body@.len(), class_fields_view(fields@), methods_view(methods@)),
        decreases body@.len(),
    {
        let ghost i = all.len() - body@.len();
        proof {
            lemma_ops_view_index(body@, 0);
            assert(all[i] == ops_view(body@)[0]);
            if body@.len() > 1 {
                lemma_ops_view_index(body@, 1);
                assert(all[i + 1] == ops_view(body@)[1]);
            }
        }
        let ghost old_body = body@;
        let ghost rest = body@.skip(1);
        let op = body.remove(0);
        proof {
            assert(body@ =~= rest);
            assert(ops_view(rest) =~= all.skip(i + 1)) by {
                lemma_ops_view_len(rest);
                lemma_ops_view_len(old_body);
                assert forall|j: int| 0 <= j < rest.len() implies ops_view(rest)[j] == all.skip(i + 1)[j] by {
                    lemma_ops_view_index(rest, j);
                    lemma_ops_view_index(old_body, j + 1);
                    assert(ops_view(old_body)[j + 1] == all.skip(i)[j + 1]);
                }
            }
            assert(op@ == all[i]);
        }
        match op {
            OpCode::FnDef { name: m_name, params, body: m_body } => {
                insert_method(&mut methods, m_name, FnDef { params, body: m_body });
            },
            OpCode::Expr(init, Operand::Register(Register::SystemVarBuffer)) => {
                if body.len() == 0 {
                    return Err(ParseError::MalformedClassField);
                }
                let is_var = match &body[0] {
                    OpCode::Variable(_, _) => true,
                    _ => false,
                };
                if !is_var {
                    return Err(ParseError::MalformedClassField);
                }
                let ghost rest2 = body@.skip(1);
                proof {
                    lemma_ops_view_index(rest, 0);
                    assert(all[i + 1] == rest[0]@);
                }
                let next = body.remove(0);
                proof {
                    assert(body@ =~= rest2);
                    assert(ops_view(rest2) =~= all.skip(i + 2)) by {
                        lemma_ops_view_len(rest2);
                        lemma_ops_view_len(rest);
                        assert forall|j: int| 0 <= j < rest2.len() implies ops_view(rest2)[j] == all.skip(i + 2)[j] by {
                            lemma_ops_view_index(rest2, j);
                            lemma_ops_view_index(rest, j + 1);
                            assert(ops_view(rest)[j + 1] == all.skip(i + 1)[j + 1]);
                        }
                    }
                    assert(next@ == all[i + 1]);
                }
                match next {
                    OpCode::Variable(field_name, _) => {
                        let ghost before = fields@;
                        fields.push((field_name, init));
                        proof {
                            assert(class_fields_view(fields@) =~= class_fields_view(before).push((fields@.last().0@, fields@.last().1@)));
                        }
                    },
                    _ => { proof { assert(false); } },
                }
            },
            _ => {
                proof {
                    assert(!(all[i] is FnDef));
                    assert(!(all[i] matches OpCodeV::Expr(_, OperandV::Register(Register::SystemVarBuffer))));
                    assert(class_scan(all, i, class_fields_view(fields@), methods_view(methods@)) == Err::<ClassDefV, ParseError>(ParseError::InvalidClassMember));
                }
                return Err(ParseError::InvalidClassMember);
            },
        }
    }
    Ok(OpCode::ClassDef { name, def: ClassDef { fields, methods } })
}

// ── Scanning ────────────────────────────────────────────────────────

/// An ASCII letter or digit, as `u8::is_ascii_alphanumeric` defines it.
pub open spec fn is_ascii_alnum(c: char) -> bool {
    ('0' <= c && c <= '9') || ('a' <= c && c <= 'z') || ('A' <= c && c <= 'Z')
}

fn is_ascii_alnum_char(c: char) -> (r: bool)
    ensures
        r == is_ascii_alnum(c),
{
    ('0' <= c && c <= '9') || ('a' <= c && c <= 'z') || ('A' <= c && c <= 'Z')
}

/// The position of the first `\n` at or after `i`, or `end`.
pub open spec fn line_end(s: Seq<char>, i: int, end: int) -> int
    decreases end - i,
{
    if i >= end || s[i] == '\n' {
        i
    } else {
        line_end(s, i + 1, end)
    }
}

/// Scanning from `i` for `*/`: the position just past it; when none
/// comes, the last position of the text (where the scan gives up).
pub open spec fn comment_end(s: Seq<char>, i: int, end: int) -> int
    decreases end - i,
{
    if i + 1 >= end {
        i
    } else if s[i] == '*' && s[i + 1] == '/' {
        i + 2
    } else {
        comment_end(s, i + 1, end)
    }
}

/// The end of the instruction text that starts at `i`: the first `;`, `{`
/// or `}` outside string literals, or `end`; `end + 1` when a literal ends
/// in a lone backslash.
pub open spec fn instr_end(s: Seq<char>, i: int, end: int) -> int
    decreases end + 1 - i,
{
    if i >= end {
        i
    } else if s[i] == ';' || s[i] == '{' || s[i] == '}' {
        i
    } else if s[i] == '"' {
        let k = quoted_end(s, i + 1, end);
        proof { lemma_quoted_end_bounds(s, i + 1, end); }
        instr_end(s, k, end)
    } else {
        instr_end(s, i + 1, end)
    }
}

/// The end of an `else if` condition that starts at `i`: the first `{`
/// outside string literals, or `end` (`end + 1` as for [`instr_end`]).
pub open spec fn cond_end(s: Seq<char>, i: int, end: int) -> int
    decreases end + 1 - i,
{
    if i >= end || s[i] == '{' {
        i
    } else if s[i] == '"' {
        let k = quoted_end(s, i + 1, end);
        proof { lemma_quoted_end_bounds(s, i + 1, end); }
        cond_end(s, k, end)
    } else {
        cond_end(s, i + 1, end)
    }
}

pub proof fn lemma_line_end(s: Seq<char>, i: int, end: int)
    requires
        i <= end,
    ensures
        i <= line_end(s, i, end) <= end,
    decreases end - i,
{
    if i < end && s[i] != '\n' {
        lemma_line_end(s, i + 1, end);
    }
}

pub proof fn lemma_comment_end(s: Seq<char>, i: int, end: int)
    requires
        i <= end,
    ensures
        i <= comment_end(s, i, end) <= end,
    decreases end - i,
{
    if i + 1 < end && !(s[i] == '*' && s[i + 1] == '/') {
        lemma_comment_end(s, i + 1, end);
    }
}

pub proof fn lemma_instr_end(s: Seq<char>, i: int, end: int)
    requires
        i <= end,
    ensures
        i <= instr_end(s, i, end) <= end + 1,
        i < end && s[i] != ';' && s[i] != '{' && s[i] != '}' ==> i < instr_end(s, i, end),
        instr_end(s, i, end) < end ==> (s[instr_end(s, i, end)] == ';' || s[instr_end(s, i, end)] == '{'
            || s[instr_end(s, i, end)] == '}'),
    decreases end + 1 - i,
{
    if i < end && s[i] != ';' && s[i] != '{' && s[i] != '}' {
        if s[i] == '"' {
            lemma_quoted_end_bounds(s, i + 1, end);
            let k = quoted_end(s, i + 1, end);
            if k <= end {
                lemma_instr_end(s, k, end);
            }
        } else {
            lemma_instr_end(s, i + 1, end);
        }
    }
}

pub proof fn lemma_cond_end(s: Seq<char>, i: int, end: int)
    requires
        i <= end,
    ensures
        i <= cond_end(s, i, end) <= end + 1,
    decreases end + 1 - i,
{
    if i < end && s[i] != '{' {
        if s[i] == '"' {
            lemma_quoted_end_bounds(s, i + 1, end);
            let k = quoted_end(s, i + 1, end);
            if k <= end {
                lemma_cond_end(s, k, end);
            }
        } else {
            lemma_cond_end(s, i + 1, end);
        }
    }
}

/// Past an optional `;` at `p`.
pub open spec fn skip_semicolon(s: Seq<char>, p: int) -> int {
    if 0 <= p < s.len() && s[p] == ';' { p + 1 } else { p }
}

/// Past whitespace and an optional `;` after a closing `}`.
pub open spec fn after_close(s: Seq<char>, p: int) -> int {
    skip_semicolon(s, skip_ws_spec(s, p, s.len() as int))
}

/// The trimmed text of `s[a..b]` as a one-element list, or no element when
/// it is empty.
pub open spec fn kept(s: Seq<char>, a: int, b: int) -> Seq<Seq<char>> {
    let (x, y) = trim_spec(s, a, b);
    if x < y { seq![s.subrange(x, y)] } else { seq![] }
}

/// The parameter names in `s[a..b]`: split on commas, trimmed, empty ones
/// dropped.
pub open spec fn comma_params(s: Seq<char>, a: int, b: int) -> Seq<Seq<char>>
    decreases b - a,
{
    match find_first(s, a, b, ',') {
        None => kept(s, a, b),
        Some(d) => if d < a || d >= b {
            kept(s, a, b)
        } else {
            kept(s, a, d) + comma_params(s, d + 1, b)
        },
    }
}

// ── Blocks ──────────────────────────────────────────────────────────

/// The instructions of the block that starts at `p`, appended to `acc`,
/// with the position after the block: the scan ends at the end of the
/// text or just past the `}` that closes the block.
pub open spec fn block_spec<F: Fn(&str) -> Option<u32>>(f: F, s: Seq<char>, p: int, acc: Seq<OpCodeV>)
    -> Result<(Seq<OpCodeV>, int), ParseError>
    decreases s.len() - p, 3nat,
{
    let len = s.len() as int;
    if p < 0 || p > len {
        Ok((acc, p))
    } else {
        let p1 = skip_ws_spec(s, p, len);
        proof { lemma_skip_ws_bounds(s, p, len); }
        if p1 >= len {
            Ok((acc, p1))
        } else if p1 + 1 < len && s[p1] == '/' && s[p1 + 1] == '/' {
            proof { lemma_line_end(s, p1 + 2, len); }
            block_spec(f, s, line_end(s, p1 + 2, len), acc)
        } else if p1 + 1 < len && s[p1] == '/' && s[p1 + 1] == '*' {
            proof { lemma_comment_end(s, p1 + 2, len); }
            block_spec(f, s, comment_end(s, p1 + 2, len), acc)
        } else if s[p1] == '{' {
            match block_spec(f, s, p1 + 1, seq![]) {
                Err(e) => Err(e),
                Ok((inner, e)) => if e <= p || e > len {
                    Err(ParseError::UnexpectedEnd)
                } else {
                    block_spec(f, s, e, acc.push(OpCodeV::Block(inner)))
                },
            }
        } else if s[p1] == '}' {
            Ok((acc, p1 + 1))
        } else if s[p1] == ';' {
            block_spec(f, s, p1 + 1, acc)
        } else {
            let q = instr_end(s, p1, len);
            proof { lemma_instr_end(s, p1, len); }
            if q > len {
                Err(ParseError::UnterminatedEscape)
            } else {
                let (t0, t1) = trim_spec(s, p1, q);
                if t0 >= t1 {
                    block_spec(f, s, skip_semicolon(s, q), acc)
                } else {
                    match text_spec(f, s, t0, t1, q, acc) {
                        Err(e) => Err(e),
                        Ok((acc2, e)) => if e <= p || e > len {
                            Err(ParseError::UnexpectedEnd)
                        } else {
                            block_spec(f, s, e, acc2)
                        },
                    }
                }
            }
        }
    }
}

/// A non-empty statement text `s[t0..t1]` whose scan stopped at `q`: first
/// a `fn`, `class` or `while` statement, then an `if` statement or a plain
/// instruction.
pub open spec fn text_spec<F: Fn(&str) -> Option<u32>>(f: F, s: Seq<char>, t0: int, t1: int, q: int, acc: Seq<OpCodeV>)
    -> Result<(Seq<OpCodeV>, int), ParseError>
    decreases s.len() - q, 2nat,
{
    match decl_spec(f, s, t0, t1, q, acc) {
        Err(e) => Err(e),
        Ok((acc2, q2)) => if q2 < q || q2 > s.len() {
            Err(ParseError::UnexpectedEnd)
        } else {
            tail_spec(f, s, t0, t1, q2, acc2)
        },
    }
}

/// `fn name(params) { body }`, `class Name { body }` or `while cond { body }`
/// (the text holds the part before `{`); any other text is left as it is.
pub open spec fn decl_spec<F: Fn(&str) -> Option<u32>>(f: F, s: Seq<char>, t0: int, t1: int, q: int, acc: Seq<OpCodeV>)
    -> Result<(Seq<OpCodeV>, int), ParseError>
    decreases s.len() - q, 1nat,
{
    let len = s.len() as int;
    if q < 0 || q > len {
        Ok((acc, q))
    } else {
        let w = skip_ws_spec(s, q, len);
        proof { lemma_skip_ws_bounds(s, q, len); }
        if keyword_led(s, t0, t1, "fn"@) {
            if t1 - t0 <= 2 {
                Err(ParseError::FnMissingName)
            } else {
                let (r0, r1) = trim_spec(s, t0 + 2, t1);
                match find_first(s, r0, r1, '(') {
                    None => Err(ParseError::FnMissingOpenParen),
                    Some(pp) => {
                        let (n0, n1) = trim_spec(s, r0, pp);
                        if n0 >= n1 {
                            Err(ParseError::FnMissingNameBeforeParen)
                        } else {
                            match find_first(s, pp + 1, r1, ')') {
                                None => Err(ParseError::FnMissingCloseParen),
                                Some(cp) => {
                                    let (x, y) = trim_spec(s, pp + 1, cp);
                                    let params = if x >= y { seq![] } else { comma_params(s, x, y) };
                                    if !(w < len && s[w] == '{') {
                                        Err(ParseError::FnMissingBrace)
                                    } else {
                                        match block_spec(f, s, w + 1, seq![]) {
                                            Err(e) => Err(e),
                                            Ok((body, e)) => Ok((
                                                acc.push(OpCodeV::FnDef { name: s.subrange(n0, n1), params, body }),
                                                after_close(s, e),
                                            )),
                                        }
                                    }
                                },
                            }
                        }
                    },
                }
            }
        } else if keyword_led(s, t0, t1, "class"@) {
            let (n0, n1) = trim_spec(s, t0 + 5, t1);
            if t1 - t0 <= 5 || n0 >= n1 {
                Err(ParseError::ClassMissingName)
            } else if !(w < len && s[w] == '{') {
                Err(ParseError::ClassMissingBrace)
            } else {
                match block_spec(f, s, w + 1, seq![]) {
                    Err(e) => Err(e),
                    Ok((body, e)) => match class_def_spec(body) {
                        Err(x) => Err(x),
                        Ok(cd) => Ok((acc.push(OpCodeV::ClassDef { name: s.subrange(n0, n1), def: cd }), after_close(s, e))),
                    },
                }
            }
        } else if keyword_led(s, t0, t1, "while"@) {
            if t1 - t0 <= 5 {
                Err(ParseError::WhileMissingCondition)
            } else {
                match trimmed_expr(f, s, t0 + 5, t1) {
                    Err(x) => Err(x),
                    Ok(cond) => if !(q < len && s[q] == '{') {
                        Err(ParseError::WhileMissingBrace)
                    } else {
                        match block_spec(f, s, q + 1, seq![]) {
                            Err(e) => Err(e),
                            Ok((body, e)) => Ok((acc.push(OpCodeV::While(cond, body)), after_close(s, e))),
                        }
                    },
                }
            }
        } else {
            Ok((acc, q))
        }
    }
}

/// `if cond { body } [else ...]`, or else a plain instruction (whose `;`
/// is consumed).
pub open spec fn tail_spec<F: Fn(&str) -> Option<u32>>(f: F, s: Seq<char>, t0: int, t1: int, q: int, acc: Seq<OpCodeV>)
    -> Result<(Seq<OpCodeV>, int), ParseError>
    decreases s.len() - q, 0nat,
{
    let len = s.len() as int;
    if q < 0 || q > len {
        Ok((acc, q))
    } else if keyword_led(s, t0, t1, "if"@) {
        if t1 - t0 <= 2 {
            Err(ParseError::IfMissingCondition)
        } else {
            match trimmed_expr(f, s, t0 + 2, t1) {
                Err(x) => Err(x),
                Ok(cond) => if !(q < len && s[q] == '{') {
                    Err(ParseError::IfMissingBrace)
                } else {
                    match block_spec(f, s, q + 1, seq![]) {
                        Err(e) => Err(e),
                        Ok((then_body, e1)) => if e1 <= q || e1 > len {
                            Err(ParseError::UnexpectedEnd)
                        } else {
                            match else_spec(f, s, e1) {
                                Err(e) => Err(e),
                                Ok((else_body, e2)) => Ok((acc.push(OpCodeV::If(cond, then_body, else_body)), after_close(s, e2))),
                            }
                        },
                    }
                },
            }
        }
    } else {
        match instruction_spec(f, s, t0, t1) {
            Err(e) => Err(e),
            Ok(ops) => Ok((acc + ops, skip_semicolon(s, q))),
        }
    }
}

/// The `else` tail of an `if` at `p`: nothing, `else { body }`, or
/// `else if cond { body } ...` (an `If` as the single instruction of the
/// else body). The position moves past the whitespace even when there is
/// no `else`.
pub open spec fn else_spec<F: Fn(&str) -> Option<u32>>(f: F, s: Seq<char>, p: int)
    -> Result<(Option<Seq<OpCodeV>>, int), ParseError>
    decreases s.len() - p, 0nat,
{
    let len = s.len() as int;
    if p < 0 || p > len {
        Ok((None, p))
    } else {
        let p1 = skip_ws_spec(s, p, len);
        proof { lemma_skip_ws_bounds(s, p, len); }
        if p1 + 4 > len || s.subrange(p1, p1 + 4) != "else"@ {
            Ok((None, p1))
        } else if p1 + 4 < len && is_ascii_alnum(s[p1 + 4]) {
            Ok((None, p1))
        } else {
            let p2 = skip_ws_spec(s, p1 + 4, len);
            proof { lemma_skip_ws_bounds(s, p1 + 4, len); }
            if p2 + 1 < len && s[p2] == 'i' && s[p2 + 1] == 'f' {
                let p3 = skip_ws_spec(s, p2 + 2, len);
                proof { lemma_skip_ws_bounds(s, p2 + 2, len); }
                let c = cond_end(s, p3, len);
                proof { lemma_cond_end(s, p3, len); }
                if c > len {
                    Err(ParseError::UnterminatedEscape)
                } else {
                    match trimmed_expr(f, s, p3, c) {
                        Err(x) => Err(x),
                        Ok(cond) => if c >= len || s[c] != '{' {
                            Err(ParseError::ElseIfMissingBrace)
                        } else {
                            match block_spec(f, s, c + 1, seq![]) {
                                Err(e) => Err(e),
                                Ok((then_body, e1)) => if e1 <= p || e1 > len {
                                    Err(ParseError::UnexpectedEnd)
                                } else {
                                    match else_spec(f, s, e1) {
                                        Err(e) => Err(e),
                                        Ok((else_body, e2)) => Ok((Some(seq![OpCodeV::If(cond, then_body, else_body)]), e2)),
                                    }
                                },
                            }
                        },
                    }
                }
            } else if p2 < len && s[p2] == '{' {
                match block_spec(f, s, p2 + 1, seq![]) {
                    Err(e) => Err(e),
                    Ok((body, e)) => Ok((Some(body), e)),
                }
            } else {
                Err(ParseError::ElseMissingBrace)
            }
        }
    }
}

/// What [`parse`] gives for the source text `s`.
pub open spec fn parse_spec<F: Fn(&str) -> Option<u32>>(f: F, s: Seq<char>) -> Result<Seq<OpCodeV>, ParseError> {
    match block_spec(f, s, 0, seq![]) {
        Ok((ops, _)) => Ok(ops),
        Err(e) => Err(e),
    }
}

// ── Executable scanning ─────────────────────────────────────────────

fn line_end_at(cs: &Vec<char>, i: usize, end: usize) -> (r: usize)
    requires
        i <= end <= cs@.len(),
    ensures
        r == line_end(cs@, i as int, end as int),
{
    proof { lemma_line_end(cs@, i as int, end as int); }
    let mut j = i;
    while j < end && cs[j] != '\n'
        invariant
            i <= j <= end <= cs@.len(),
            line_end(cs@, j as int, end as int) == line_end(cs@, i as int, end as int),
        decreases end - j,
    {
        j += 1;
    }
    j
}

fn comment_end_at(cs: &Vec<char>, i: usize, end: usize) -> (r: usize)
    requires
        i <= end <= cs@.len(),
        end < usize::MAX,
    ensures
        r == comment_end(cs@, i as int, end as int),
{
    proof { lemma_comment_end(cs@, i as int, end as int); }
    let mut j = i;
    while j + 1 < end
        invariant
            i <= j <= end <= cs@.len(),
            end < usize::MAX,
            comment_end(cs@, j as int, end as int) == comment_end(cs@, i as int, end as int),
        decreases end - j,
    {
        if cs[j] == '*' && cs[j + 1] == '/' {
            return j + 2;
        }
        j += 1;
    }
    j
}

fn instr_end_at(cs: &Vec<char>, i: usize, end: usize) -> (r: usize)
    requires
        i <= end <= cs@.len(),
        end < usize::MAX,
    ensures
        r == instr_end(cs@, i as int, end as int),
{
    proof { lemma_instr_end(cs@, i as int, end as int); }
    let mut j = i;
    while j < end
        invariant
            i <= j <= end + 1,
            end <= cs@.len(),
            end < usize::MAX,
            instr_end(cs@, j as int, end as int) == instr_end(cs@, i as int, end as int),
        decreases end + 1 - j,
    {
        let c = cs[j];
        if c == ';' || c == '{' || c == '}' {
            return j;
        }
        if c == '"' {
            proof { lemma_quoted_end_bounds(cs@, j + 1, end as int); }
            j = scan_quoted(cs, j + 1, end);
        } else {
            j += 1;
        }
    }
    j
}

fn cond_end_at(cs: &Vec<char>, i: usize, end: usize) -> (r: usize)
    requires
        i <= end <= cs@.len(),
        end < usize::MAX,
    ensures
        r == cond_end(cs@, i as int, end as int),
{
    proof { lemma_cond_end(cs@, i as int, end as int); }
    let mut j = i;
    while j < end && cs[j] != '{'
        invariant
            i <= j <= end + 1,
            end <= cs@.len(),
            end < usize::MAX,
            cond_end(cs@, j as int, end as int) == cond_end(cs@, i as int, end as int),
        decreases end + 1 - j,
    {
        if cs[j] == '"' {
            proof { lemma_quoted_end_bounds(cs@, j + 1, end as int); }
            j = scan_quoted(cs, j + 1, end);
        } else {
            j += 1;
        }
    }
    j
}

fn skip_semicolon_at(cs: &Vec<char>, p: usize) -> (r: usize)
    requires
        p <= cs@.len(),
        cs@.len() < usize::MAX,
    ensures
        r == skip_semicolon(cs@, p as int),
        p <= r <= cs@.len(),
{
    if p < cs.len() && cs[p] == ';' { p + 1 } else { p }
}

fn after_close_at(cs: &Vec<char>, p: usize) -> (r: usize)
    requires
        p <= cs@.len(),
        cs@.len() < usize::MAX,
    ensures
        r == after_close(cs@, p as int),
        p <= r <= cs@.len(),
{
    let w = skip_ws(cs, p, cs.len());
    skip_semicolon_at(cs, w)
}

fn kept_exec(cs: &Vec<char>, a: usize, b: usize, out: &mut Vec<String>)
    requires
        a <= b <= cs@.len(),
    ensures
        strings_view(final(out)@) == strings_view(old(out)@) + kept(cs@, a as int, b as int),
{
    let (x, y) = trim_span(cs, a, b);
    let ghost before = out@;
    if x < y {
        out.push(string_of(cs, x, y));
        assert(strings_view(out@) =~= strings_view(before) + kept(cs@, a as int, b as int));
    } else {
        assert(strings_view(out@) =~= strings_view(before) + kept(cs@, a as int, b as int));
    }
}

fn comma_params_exec(cs: &Vec<char>, a: usize, b: usize) -> (r: Vec<String>)
    requires
        a <= b <= cs@.len(),
    ensures
        strings_view(r@) == comma_params(cs@, a as int, b as int),
{
    let mut out: Vec<String> = Vec::new();
    let mut start = a;
    proof { assert(strings_view(out@) + comma_params(cs@, a as int, b as int) =~= comma_params(cs@, a as int, b as int)); }
    loop
        invariant_except_break
            a <= start <= b <= cs@.len(),
            comma_params(cs@, a as int, b as int) == strings_view(out@) + comma_params(cs@, start as int, b as int),
        ensures
            strings_view(out@) == comma_params(cs@, a as int, b as int),
        decreases b - start,
    {
        let ghost before = strings_view(out@);
        match find_char(cs, start, b, ',') {
            None => {
                kept_exec(cs, start, b, &mut out);
                break;
            },
            Some(d) => {
                kept_exec(cs, start, d, &mut out);
                proof {
                    let rest = comma_params(cs@, (d + 1) as int, b as int);
                    assert(before + (kept(cs@, start as int, d as int) + rest) =~= (before + kept(cs@, start as int, d as int)) + rest);
                }
                start = d + 1;
            },
        }
    }
    out
}

// ── Executable block parser ─────────────────────────────────────────

/// `r`, instructions and the position reached, is what `spec` describes.
pub open spec fn scan_matches(r: Result<(Vec<OpCode>, usize), ParseError>, spec: Result<(Seq<OpCodeV>, int), ParseError>) -> bool {
    match spec {
        Ok((ops, e)) => r matches Ok((v, p)) && ops_view(v@) == ops && p == e,
        Err(x) => r == Err::<(Vec<OpCode>, usize), ParseError>(x),
    }
}

/// `r`, an optional else body and the position reached, is what `spec`
/// describes.
pub open spec fn else_matches(r: Result<(Option<Vec<OpCode>>, usize), ParseError>, spec: Result<(Option<Seq<OpCodeV>>, int), ParseError>) -> bool {
    match spec {
        Ok((None, e)) => r matches Ok((None, p)) && p == e,
        Ok((Some(ops), e)) => r matches Ok((Some(v), p)) && ops_view(v@) == ops && p == e,
        Err(x) => r == Err::<(Option<Vec<OpCode>>, usize), ParseError>(x),
    }
}

fn push_opcode(v: &mut Vec<OpCode>, op: OpCode)
    ensures
        ops_view(final(v)@) == ops_view(old(v)@).push(op@),
{
    let ghost old_v = v@;
    v.push(op);
    proof { lemma_ops_view_push(old_v, v@.last()); assert(v@ =~= old_v.push(v@.last())); }
}

/// Recursive-descent parser for `{ ... }` blocks: scans from `pos`,
/// collecting instructions until the `}` that closes the block (or the end
/// of the text); see [`block_spec`].
fn parse_block<F: Fn(&str) -> Option<u32>>(f: &F, cs: &Vec<char>, pos: usize) -> (r: Result<(Vec<OpCode>, usize), ParseError>)
    requires
        reads_floats(*f),
        cs@.len() < usize::MAX,
        pos <= cs@.len(),
    ensures
        scan_matches(r, block_spec(*f, cs@, pos as int, seq![])),
        r matches Ok((_, e)) ==> pos <= e <= cs@.len(),
    decreases cs@.len() - pos, 3nat,
{
    let len = cs.len();
    let mut cmds: Vec<OpCode> = Vec::new();
    let mut p = pos;
    proof { assert(ops_view(cmds@) =~= seq![]); }
    loop
        invariant
            reads_floats(*f),
            len == cs@.len(),
            len < usize::MAX,
            pos <= p <= len,
            block_spec(*f, cs@, pos as int, seq![]) == block_spec(*f, cs@, p as int, ops_view(cmds@)),
        decreases len - p,
    {
        let p1 = skip_ws(cs, p, len);
        if p1 >= len {
            return Ok((cmds, p1));
        }
        if p1 + 1 < len && cs[p1] == '/' && cs[p1 + 1] == '/' {
            p = line_end_at(cs, p1 + 2, len);
            proof { lemma_line_end(cs@, p1 + 2, len as int); }
            continue;
        }
        if p1 + 1 < len && cs[p1] == '/' && cs[p1 + 1] == '*' {
            p = comment_end_at(cs, p1 + 2, len);
            proof { lemma_comment_end(cs@, p1 + 2, len as int); }
            continue;
        }
        let c = cs[p1];
        if c == '{' {
            let (inner, e) = match parse_block(f, cs, p1 + 1) {
                Ok(v) => v,
                Err(x) => return Err(x),
            };
            push_opcode(&mut cmds, OpCode::Block(inner));
            p = e;
            continue;
        }
        if c == '}' {
            return Ok((cmds, p1 + 1));
        }
        if c == ';' {
            p = p1 + 1;
            continue;
        }
        let q = instr_end_at(cs, p1, len);
        proof { lemma_instr_end(cs@, p1 as int, len as int); }
        if q > len {
            return Err(ParseError::UnterminatedEscape);
        }
        let (t0, t1) = trim_span(cs, p1, q);
        if t0 >= t1 {
            p = skip_semicolon_at(cs, q);
            continue;
        }
        let (next, e) = match handle_text(f, cs, t0, t1, q, cmds) {
            Ok(v) => v,
            Err(x) => return Err(x),
        };
        cmds = next;
        p = e;
    }
}

/// Handles the statement text `cs[t0..t1]`, whose scan stopped at `q`; see
/// [`text_spec`].
fn handle_text<F: Fn(&str) -> Option<u32>>(f: &F, cs: &Vec<char>, t0: usize, t1: usize, q: usize, cmds: Vec<OpCode>)
    -> (r: Result<(Vec<OpCode>, usize), ParseError>)
    requires
        reads_floats(*f),
        cs@.len() < usize::MAX,
        t0 <= t1 <= q <= cs@.len(),
    ensures
        scan_matches(r, text_spec(*f, cs@, t0 as int, t1 as int, q as int, ops_view(cmds@))),
        r matches Ok((_, e)) ==> q <= e <= cs@.len(),
    decreases cs@.len() - q, 2nat,
{
    let (next, q2) = match decl_exec(f, cs, t0, t1, q, cmds) {
        Ok(v) => v,
        Err(x) => return Err(x),
    };
    tail_exec(f, cs, t0, t1, q2, next)
}

fn decl_exec<F: Fn(&str) -> Option<u32>>(f: &F, cs: &Vec<char>, t0: usize, t1: usize, q: usize, cmds: Vec<OpCode>)
    -> (r: Result<(Vec<OpCode>, usize), ParseError>)
    requires
        reads_floats(*f),
        cs@.len() < usize::MAX,
        t0 <= t1 <= q <= cs@.len(),
    ensures
        scan_matches(r, decl_spec(*f, cs@, t0 as int, t1 as int, q as int, ops_view(cmds@))),
        r matches Ok((_, e)) ==> q <= e <= cs@.len(),
    decreases cs@.len() - q, 1nat,
{
    proof {
        reveal_strlit("fn ");
        reveal_strlit("fn");
        reveal_strlit("class ");
        reveal_strlit("class");
        reveal_strlit("while ");
        reveal_strlit("while");
        assert("fn "@ =~= "fn"@ + seq![' ']);
        assert("class "@ =~= "class"@ + seq![' ']);
        assert("while "@ =~= "while"@ + seq![' ']);
    }
    let len = cs.len();
    let mut cmds = cmds;
    let w = skip_ws(cs, q, len);
    if keyword_led_exec(cs, t0, t1, "fn ", "fn") {
        if t1 - t0 <= 2 {
            return Err(ParseError::FnMissingName);
        }
        let (r0, r1) = trim_span(cs, t0 + 2, t1);
        let pp = match find_char(cs, r0, r1, '(') {
            Some(k) => k,
            None => return Err(ParseError::FnMissingOpenParen),
        };
        let (n0, n1) = trim_span(cs, r0, pp);
        if n0 >= n1 {
            return Err(ParseError::FnMissingNameBeforeParen);
        }
        let cp = match find_char(cs, pp + 1, r1, ')') {
            Some(k) => k,
            None => return Err(ParseError::FnMissingCloseParen),
        };
        let (x, y) = trim_span(cs, pp + 1, cp);
        let params: Vec<String> = if x >= y {
            let v: Vec<String> = Vec::new();
            assert(strings_view(v@) =~= seq![]);
            v
        } else {
            comma_params_exec(cs, x, y)
        };
        if !(w < len && cs[w] == '{') {
            return Err(ParseError::FnMissingBrace);
        }
        let (body, e) = match parse_block(f, cs, w + 1) {
            Ok(v) => v,
            Err(x) => return Err(x),
        };
        push_opcode(&mut cmds, OpCode::FnDef { name: string_of(cs, n0, n1), params, body });
        let e2 = after_close_at(cs, e);
        Ok((cmds, e2))
    } else if keyword_led_exec(cs, t0, t1, "class ", "class") {
        if t1 - t0 <= 5 {
            return Err(ParseError::ClassMissingName);
        }
        let (n0, n1) = trim_span(cs, t0 + 5, t1);
        if n0 >= n1 {
            return Err(ParseError::ClassMissingName);
        }
        if !(w < len && cs[w] == '{') {
            return Err(ParseError::ClassMissingBrace);
        }
        let (body, e) = match parse_block(f, cs, w + 1) {
            Ok(v) => v,
            Err(x) => return Err(x),
        };
        let op = match build_class_def(string_of(cs, n0, n1), body) {
            Ok(op) => op,
            Err(x) => return Err(x),
        };
        push_opcode(&mut cmds, op);
        let e2 = after_close_at(cs, e);
        Ok((cmds, e2))
    } else if keyword_led_exec(cs, t0, t1, "while ", "while") {
        if t1 - t0 <= 5 {
            return Err(ParseError::WhileMissingCondition);
        }
        let cond = match parse_trimmed_expr(f, cs, t0 + 5, t1) {
            Ok(c) => c,
            Err(x) => return Err(x),
        };
        if !(q < len && cs[q] == '{') {
            return Err(ParseError::WhileMissingBrace);
        }
        let (body, e) = match parse_block(f, cs, q + 1) {
            Ok(v) => v,
            Err(x) => return Err(x),
        };
        push_opcode(&mut cmds, OpCode::While(cond, body));
        let e2 = after_close_at(cs, e);
        Ok((cmds, e2))
    } else {
        Ok((cmds, q))
    }
}

fn tail_exec<F: Fn(&str) -> Option<u32>>(f: &F, cs: &Vec<char>, t0: usize, t1: usize, q: usize, cmds: Vec<OpCode>)
    -> (r: Result<(Vec<OpCode>, usize), ParseError>)
    requires
        reads_floats(*f),
        cs@.len() < usize::MAX,
        t0 <= t1 <= cs@.len(),
        q <= cs@.len(),
    ensures
        scan_matches(r, tail_spec(*f, cs@, t0 as int, t1 as int, q as int, ops_view(cmds@))),
        r matches Ok((_, e)) ==> q <= e <= cs@.len(),
    decreases cs@.len() - q, 0nat,
{
    proof {
        reveal_strlit("if ");
        reveal_strlit("if");
        assert("if "@ =~= "if"@ + seq![' ']);
    }
    let len = cs.len();
    let mut cmds = cmds;
    if keyword_led_exec(cs, t0, t1, "if ", "if") {
        if t1 - t0 <= 2 {
            return Err(ParseError::IfMissingCondition);
        }
        let cond = match parse_trimmed_expr(f, cs, t0 + 2, t1) {
            Ok(c) => c,
            Err(x) => return Err(x),
        };
        if !(q < len && cs[q] == '{') {
            return Err(ParseError::IfMissingBrace);
        }
        let (then_body, e1) = match parse_block(f, cs, q + 1) {
            Ok(v) => v,
            Err(x) => return Err(x),
        };
        let (else_body, e2) = match parse_else_tail(f, cs, e1) {
            Ok(v) => v,
            Err(x) => return Err(x),
        };
        push_opcode(&mut cmds, OpCode::If(cond, then_body, else_body));
        let e3 = after_close_at(cs, e2);
        Ok((cmds, e3))
    } else {
        let mut ops = match parse_instruction(f, cs, t0, t1) {
            Ok(v) => v,
            Err(x) => return Err(x),
        };
        let ghost a = cmds@;
        let ghost b = ops@;
        cmds.append(&mut ops);
        proof { lemma_ops_view_append(a, b); }
        let e = skip_semicolon_at(cs, q);
        Ok((cmds, e))
    }
}

/// Parses the `else` tail of an `if` statement at `p`; see [`else_spec`].
fn parse_else_tail<F: Fn(&str) -> Option<u32>>(f: &F, cs: &Vec<char>, p: usize) -> (r: Result<(Option<Vec<OpCode>>, usize), ParseError>)
    requires
        reads_floats(*f),
        cs@.len() < usize::MAX,
        p <= cs@.len(),
    ensures
        else_matches(r, else_spec(*f, cs@, p as int)),
        r matches Ok((_, e)) ==> p <= e <= cs@.len(),
    decreases cs@.len() - p, 0nat,
{
    let len = cs.len();
    let p1 = skip_ws(cs, p, len);
    if len - p1 < 4 || !span_eq(cs, p1, p1 + 4, "else") {
        return Ok((None, p1));
    }
    if p1 + 4 < len && is_ascii_alnum_char(cs[p1 + 4]) {
        return Ok((None, p1));
    }
    let p2 = skip_ws(cs, p1 + 4, len);
    if p2 + 1 < len && cs[p2] == 'i' && cs[p2 + 1] == 'f' {
        let p3 = skip_ws(cs, p2 + 2, len);
        let c = cond_end_at(cs, p3, len);
        proof { lemma_cond_end(cs@, p3 as int, len as int); }
        if c > len {
            return Err(ParseError::UnterminatedEscape);
        }
        let cond = match parse_trimmed_expr(f, cs, p3, c) {
            Ok(e) => e,
            Err(x) => return Err(x),
        };
        if c >= len || cs[c] != '{' {
            return Err(ParseError::ElseIfMissingBrace);
        }
        let (then_body, e1) = match parse_block(f, cs, c + 1) {
            Ok(v) => v,
            Err(x) => return Err(x),
        };
        let (else_body, e2) = match parse_else_tail(f, cs, e1) {
            Ok(v) => v,
            Err(x) => return Err(x),
        };
        let only = OpCode::If(cond, then_body, else_body);
        let mut v: Vec<OpCode> = Vec::new();
        proof { assert(ops_view(v@) =~= seq![]); }
        let ghost ov = only@;
        push_opcode(&mut v, only);
        proof { assert(seq![].push(ov) =~= seq![ov]); }
        Ok((Some(v), e2))
    } else if p2 < len && cs[p2] == '{' {
        match parse_block(f, cs, p2 + 1) {
            Ok((body, e)) => Ok((Some(body), e)),
            Err(x) => Err(x),
        }
    } else {
        Err(ParseError::ElseMissingBrace)
    }
}

/// Parses a complete source text into its instructions; see
/// [`parse_spec`]. Float literals are read by `f`.
pub fn parse<F: Fn(&str) -> Option<u32>>(f: &F, source: &str) -> (r: Result<Vec<OpCode>, ParseError>)
    requires
        reads_floats(*f),
        source@.len() < usize::MAX,
    ensures
        ops_matches(r, parse_spec(*f, source@)),
{
    let cs = crate::text::chars_of(source);
    match parse_block(f, &cs, 0) {
        Ok((ops, _)) => Ok(ops),
        Err(x) => Err(x),
    }
}

} // verus!
