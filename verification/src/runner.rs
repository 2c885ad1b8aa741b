//! The execution loop: runs instructions against the register file, the
//! variable, function and class tables and a console.
//!
//! The meaning of a run is [`run_seq`]. Given the answers the host gave
//! (console lines, float results, float texts and float readings, each
//! recorded by the [`Console`] with its question), the result, the final
//! state and the text handed to the console are exactly what it says, and
//! the host was asked exactly the questions it says. Every run is bounded
//! by a step budget (`fuel`).
//!
//! Where a program cannot go on (a condition that is not a `Bool`, a call
//! with the wrong number of arguments or to an unknown function, an
//! assignment to an immutable variable, arguments to a class without
//! `init`, an unbound variable, a method without `self`), the run stops
//! with the [`ExecError`] that names the case, and the contracts say which.
use vstd::prelude::*;

use ahash::AHashMap;

use crate::block::method_index;
use crate::copy::{copy_class, copy_fndef, copy_ops, copy_strings, copy_value, copy_variable};
use crate::display::{push_value_text, text_of};
use crate::frames::{bind_params, remove_params, restore_params, values_view};
use crate::maps::{class_get, class_insert, fn_get, fn_insert, var_get, var_insert, var_remove};
use crate::op_code::{
    class_fields_view, exprs_view, lemma_methods_view_index, lemma_methods_view_len, lemma_ops_view_index, lemma_ops_view_len,
    methods_view, ops_view, strings_view, IoOp, IoOpV,
};
use crate::stdin::{line_body, stdin_known, stdin_value_spec, strip_line_end, trimmed};
use crate::value::{binary_value, fields_view, str_eq, Instance};
use crate::class::ClassDef;
use crate::eval::{eval_spec, float_answer, operand_spec, outcome_matches, resolve, ExecError};
use crate::expr::{BinOp, Expr, ExprV};
use crate::frames::{bound, eval_args, eval_list, lemma_restore_frame, overlay, removed, restored, saved_of};
use crate::function::FnDef;
use crate::host::{is_prefix, io_in, lemma_io_in_chain, lemma_io_in_one, lemma_io_in_same, written_text, Console, Host, HostEvent};
use crate::maps::{classes_of, functions_of, variables_of};
use crate::op_code::{ClassDefV, FnDefV, OpCode, OpCodeV, Operand, OperandV};
use crate::register::{Register, Registers};
use crate::value::{binary_spec, field_lookup, sorted_insert, Fault, Value, ValueV};
use crate::variable::{Variable, VariableV};

verus! {

/// The state of the VM: registers and the three tables.
pub struct VmState {
    pub regs: Seq<ValueV>,
    pub vars: Map<Seq<char>, VariableV>,
    pub fns: Map<Seq<char>, FnDefV>,
    pub classes: Map<Seq<char>, ClassDefV>,
    /// Everything written to the console so far.
    pub out: Seq<char>,
    /// The host's answers that the rest of the run will receive, in order:
    /// console lines, float results, float texts and float readings.
    pub input: Seq<HostEvent>,
}

/// The position of `SystemVarBuffer` in the register file.
pub open spec fn svb() -> int {
    Register::SystemVarBuffer.spec_index()
}

/// The state with `regs` replaced.
pub open spec fn with_regs(st: VmState, regs: Seq<ValueV>) -> VmState {
    VmState { regs, ..st }
}

/// The state with `vars` replaced.
pub open spec fn with_vars(st: VmState, vars: Map<Seq<char>, VariableV>) -> VmState {
    VmState { vars, ..st }
}

/// Writes `v` to a destination operand: a register, or a mutable variable
/// that exists. Gives the registers and variables after the write.
pub open spec fn write_dest_rv(dest: OperandV, v: ValueV, regs: Seq<ValueV>, vars: Map<Seq<char>, VariableV>)
    -> Result<(Seq<ValueV>, Map<Seq<char>, VariableV>), ExecError>
{
    match dest {
        OperandV::Register(r) => Ok((regs.update(r.spec_index(), v), vars)),
        OperandV::Variable(name, _) => if !vars.contains_key(name) {
            Err(ExecError::VariableNotFound)
        } else if !vars[name].is_mut {
            Err(ExecError::ImmutableVariable)
        } else {
            Ok((regs, vars.insert(name, VariableV { is_mut: true, value: v })))
        },
        OperandV::Literal(_) => Err(ExecError::AssignToLiteral),
    }
}

/// [`write_dest_rv`] on a whole state.
pub open spec fn write_dest_spec(dest: OperandV, v: ValueV, st: VmState) -> Result<VmState, ExecError> {
    match write_dest_rv(dest, v, st.regs, st.vars) {
        Ok((regs, vars)) => Ok(VmState { regs, vars, ..st }),
        Err(e) => Err(e),
    }
}

/// The first method named `name`.
pub open spec fn method_lookup(ms: Seq<(Seq<char>, FnDefV)>, name: Seq<char>) -> Option<FnDefV> {
    match method_index(ms, name, 0) {
        Some(i) => Some(ms[i].1),
        None => None,
    }
}

/// An object's fields initialized from the class's field initializers, in
/// declaration order, with the host answers `t` still to come.
pub open spec fn init_fields(fs: Seq<(Seq<char>, ExprV)>, regs: Seq<ValueV>, vars: Map<Seq<char>, VariableV>, acc: Seq<(Seq<char>, ValueV)>, t: Seq<HostEvent>)
    -> Option<(Result<Seq<(Seq<char>, ValueV)>, ExecError>, Seq<HostEvent>)>
    decreases fs.len(),
{
    if fs.len() == 0 {
        Some((Ok(acc), t))
    } else {
        match eval_spec(fs[0].1, regs, vars, t) {
            None => None,
            Some((Err(e), t1)) => Some((Err(e), t1)),
            Some((Ok(v), t1)) => init_fields(fs.skip(1), regs, vars, sorted_insert(acc, fs[0].0, v), t1),
        }
    }
}

/// Writes `nv` into the field at the end of `path`, starting from `v`.
pub open spec fn set_path_spec(v: ValueV, path: Seq<Seq<char>>, nv: ValueV) -> Result<ValueV, ExecError>
    decreases path.len(),
{
    if path.len() == 0 {
        Err(ExecError::EmptyFieldPath)
    } else {
        match v {
            ValueV::Object(c, f) => if path.len() == 1 {
                Ok(ValueV::Object(c, sorted_insert(f, path[0], nv)))
            } else {
                match field_lookup(f, path[0]) {
                    None => Err(ExecError::FieldNotFound),
                    Some(inner) => match set_path_spec(inner, path.skip(1), nv) {
                        Ok(ni) => Ok(ValueV::Object(c, sorted_insert(f, path[0], ni))),
                        Err(e) => Err(e),
                    },
                }
            },
            _ => Err(ExecError::NotAnObject),
        }
    }
}

/// A run of `cmds` from `st` with `fuel` steps of nesting left. `None`
/// only where `st.input` does not hold the host answer a step needs.
pub open spec fn run_seq(cmds: Seq<OpCodeV>, st: VmState, fuel: nat) -> Option<Result<VmState, ExecError>>
    decreases fuel, 4nat, 0nat,
{
    if fuel == 0 {
        Some(Err(ExecError::OutOfFuel))
    } else {
        run_from(cmds, 0, st, fuel)
    }
}

/// The run of `cmds[i..]`.
pub open spec fn run_from(cmds: Seq<OpCodeV>, i: int, st: VmState, fuel: nat) -> Option<Result<VmState, ExecError>>
    decreases fuel, 3nat, cmds.len() - i,
{
    if i < 0 || i >= cmds.len() {
        Some(Ok(st))
    } else {
        match step(cmds[i], st, fuel) {
            None => None,
            Some(Err(e)) => Some(Err(e)),
            Some(Ok(st2)) => run_from(cmds, i + 1, st2, fuel),
        }
    }
}

/// One instruction.
pub open spec fn step(op: OpCodeV, st: VmState, fuel: nat) -> Option<Result<VmState, ExecError>>
    decreases fuel, 2nat, 0nat,
{
    if fuel == 0 {
        Some(Err(ExecError::OutOfFuel))
    } else {
        match op {
            OpCodeV::Add(a, b, d) => arith_step(BinOp::Add, a, b, d, st),
            OpCodeV::Sub(a, b, d) => arith_step(BinOp::Sub, a, b, d, st),
            OpCodeV::Mul(a, b, d) => arith_step(BinOp::Mul, a, b, d, st),
            OpCodeV::Div(a, b, d) => arith_step(BinOp::Div, a, b, d, st),
            OpCodeV::Println(o) => output_step(o, true, st),
            OpCodeV::Print(o) => output_step(o, false, st),
            OpCodeV::IO(IoOpV::Write(o)) => output_step(o, false, st),
            OpCodeV::IO(IoOpV::Writeln(o)) => output_step(o, true, st),
            OpCodeV::IO(IoOpV::Read(reg)) => read_step(reg, st),
            OpCodeV::IO(IoOpV::Readln(reg)) => readln_step(reg, st),
            OpCodeV::Block(inner) => run_seq(inner, st, (fuel - 1) as nat),
            OpCodeV::Expr(e, dest) => match eval_spec(e, st.regs, st.vars, st.input) {
                None => None,
                Some((Err(x), _)) => Some(Err(x)),
                Some((Ok(v), t1)) => Some(write_dest_spec(dest, v, VmState { input: t1, ..st })),
            },
            OpCodeV::If(c, t, e) => match eval_spec(c, st.regs, st.vars, st.input) {
                None => None,
                Some((Err(x), _)) => Some(Err(x)),
                Some((Ok(ValueV::Bool(true)), t1)) => run_seq(t, VmState { input: t1, ..st }, (fuel - 1) as nat),
                Some((Ok(ValueV::Bool(false)), t1)) => match e {
                    Some(b) => run_seq(b, VmState { input: t1, ..st }, (fuel - 1) as nat),
                    None => Some(Ok(VmState { input: t1, ..st })),
                },
                Some((Ok(_), _)) => Some(Err(ExecError::NonBoolCondition)),
            },
            OpCodeV::While(c, body) => while_spec(c, body, st, fuel, fuel),
            OpCodeV::Variable(name, var) => Some(Ok(VmState {
                regs: st.regs.update(svb(), ValueV::Nil),
                vars: st.vars.insert(name, VariableV { is_mut: var.is_mut, value: st.regs[svb()] }),
                ..st
            })),
            OpCodeV::FnDef { name, params, body } => Some(Ok(VmState {
                fns: st.fns.insert(name, FnDefV { params, body }),
                ..st
            })),
            OpCodeV::Call { name, args, dest } => call_spec(name, args, dest, st, fuel),
            OpCodeV::Return(e) => match eval_spec(e, st.regs, st.vars, st.input) {
                None => None,
                Some((Err(x), _)) => Some(Err(x)),
                Some((Ok(v), t1)) => Some(Ok(VmState { regs: st.regs.update(svb(), v), input: t1, ..st })),
            },
            OpCodeV::ClassDef { name, def } => Some(Ok(VmState { classes: st.classes.insert(name, def), ..st })),
            OpCodeV::New { class, args, dest } => new_spec(class, args, dest, st, fuel),
            OpCodeV::MethodCall { recv, method, args, dest } => method_call_spec(recv, method, args, dest, st, fuel),
            OpCodeV::SetField { base, path, value } => match eval_spec(value, st.regs, st.vars, st.input) {
                None => None,
                Some((Err(x), _)) => Some(Err(x)),
                Some((Ok(v), t1)) => if !st.vars.contains_key(base) {
                    Some(Err(ExecError::VariableNotFound))
                } else {
                    match set_path_spec(st.vars[base].value, path, v) {
                        Ok(nv) => Some(Ok(VmState {
                            vars: st.vars.insert(base, VariableV { is_mut: st.vars[base].is_mut, value: nv }),
                            input: t1,
                            ..st
                        })),
                        Err(x) => Some(Err(x)),
                    }
                },
            },
        }
    }
}

/// `add`, `sub`, `mul`, `div`: both operands resolved, the result written
/// to the destination register. On two floats of one width the host is
/// asked, with the operator and the operands in order, and its answer is
/// the result.
pub open spec fn arith_step(op: BinOp, a: OperandV, b: OperandV, d: Register, st: VmState) -> Option<Result<VmState, ExecError>> {
    match operand_spec(a, st.regs, st.vars) {
        Err(e) => Some(Err(e)),
        Ok(x) => match operand_spec(b, st.regs, st.vars) {
            Err(e) => Some(Err(e)),
            Ok(y) => match binary_spec(op, x, y) {
                Some(Err(f)) => Some(Err(ExecError::Fault(f))),
                Some(Ok(v)) => Some(Ok(with_regs(st, st.regs.update(d.spec_index(), v)))),
                None => match float_answer(op, x, y, st.input) {
                    Some((Ok(v), t1)) => Some(Ok(VmState { regs: st.regs.update(d.spec_index(), v), input: t1, ..st })),
                    _ => None,
                },
            },
        },
    }
}

/// Output: the operand must resolve; its text (see [`text_of`]), with a
/// newline for `writeln`, is added to what the console has been given.
pub open spec fn output_step(o: OperandV, newline: bool, st: VmState) -> Option<Result<VmState, ExecError>> {
    match operand_spec(o, st.regs, st.vars) {
        Err(e) => Some(Err(e)),
        Ok(v) => match text_of(v, st.input) {
            Some((t, t1)) => Some(Ok(VmState { out: st.out + written_text(t, newline), input: t1, ..st })),
            None => None,
        },
    }
}

/// The value a console line gives `io read`, with the host answers `t`
/// after the line: [`stdin_value_spec`] where it gives one; else the host
/// is asked to read the trimmed line as an `f32`, and the line is that
/// float if it does, the trimmed string if not.
pub open spec fn read_value(line: Seq<char>, t: Seq<HostEvent>) -> Option<(ValueV, Seq<HostEvent>)> {
    match stdin_value_spec(line) {
        Some(v) => Some((v, t)),
        None => if t.len() == 0 {
            None
        } else {
            match t[0] {
                HostEvent::Bits(x, b) => if x == trimmed(line) {
                    Some((
                        match b {
                            Some(bits) => ValueV::F32(bits),
                            None => ValueV::Str(trimmed(line)),
                        },
                        t.drop_first(),
                    ))
                } else {
                    None
                },
                _ => None,
            }
        },
    }
}

/// `io read`: the next console line, read as [`read_value`] says, goes to
/// the register.
pub open spec fn read_step(reg: Register, st: VmState) -> Option<Result<VmState, ExecError>> {
    if st.input.len() == 0 {
        None
    } else {
        match st.input[0] {
            HostEvent::Line(line) => match read_value(line, st.input.drop_first()) {
                Some((v, t1)) => Some(Ok(VmState { regs: st.regs.update(reg.spec_index(), v), input: t1, ..st })),
                None => None,
            },
            _ => None,
        }
    }
}

/// `io readln`: the next console line, without its terminator, goes to
/// the register as a string.
pub open spec fn readln_step(reg: Register, st: VmState) -> Option<Result<VmState, ExecError>> {
    if st.input.len() == 0 {
        None
    } else {
        match st.input[0] {
            HostEvent::Line(line) => Some(Ok(VmState {
                regs: st.regs.update(reg.spec_index(), ValueV::Str(line_body(line))),
                input: st.input.drop_first(),
                ..st
            })),
            _ => None,
        }
    }
}

/// A `while` loop with `budget` iterations left.
pub open spec fn while_spec(c: ExprV, body: Seq<OpCodeV>, st: VmState, fuel: nat, budget: nat) -> Option<Result<VmState, ExecError>>
    decreases fuel, 1nat, budget,
{
    if fuel == 0 || budget == 0 {
        Some(Err(ExecError::OutOfFuel))
    } else {
        match eval_spec(c, st.regs, st.vars, st.input) {
            None => None,
            Some((Err(x), _)) => Some(Err(x)),
            Some((Ok(ValueV::Bool(true)), t1)) => match run_seq(body, VmState { input: t1, ..st }, (fuel - 1) as nat) {
                None => None,
                Some(Err(x)) => Some(Err(x)),
                Some(Ok(st2)) => while_spec(c, body, st2, fuel, (budget - 1) as nat),
            },
            Some((Ok(ValueV::Bool(false)), t1)) => Some(Ok(VmState { input: t1, ..st })),
            Some((Ok(_), _)) => Some(Err(ExecError::NonBoolCondition)),
        }
    }
}

/// A function call: arguments evaluated, parameters bound over the
/// variables they shadow, the body run, the shadowed variables restored,
/// and the value left in `SystemVarBuffer` written to `dest`.
pub open spec fn call_spec(name: Seq<char>, args: Seq<ExprV>, dest: OperandV, st: VmState, fuel: nat) -> Option<Result<VmState, ExecError>>
    decreases fuel, 1nat, 0nat,
{
    if fuel == 0 {
        Some(Err(ExecError::OutOfFuel))
    } else if !st.fns.contains_key(name) {
        Some(Err(ExecError::FunctionNotFound))
    } else {
        let d = st.fns[name];
        if d.params.len() != args.len() {
            Some(Err(ExecError::ArgumentCount))
        } else {
            match eval_list(args, st.regs, st.vars, st.input) {
                None => None,
                Some((Err(e), _)) => Some(Err(e)),
                Some((Ok(vals), t1)) => {
                    let saved = saved_of(st.vars, d.params);
                    let vars2 = bound(removed(st.vars, d.params), d.params, vals);
                    match run_seq(d.body, VmState { vars: vars2, input: t1, ..st }, (fuel - 1) as nat) {
                        None => None,
                        Some(Err(e)) => Some(Err(e)),
                        Some(Ok(st2)) => Some(write_dest_spec(dest, st2.regs[svb()], VmState {
                            regs: st2.regs.update(svb(), ValueV::Nil),
                            vars: restored(st2.vars, d.params, saved),
                            ..st2
                        })),
                    }
                },
            }
        }
    }
}

/// A method body run with `self` bound (mutably) to the receiver and the
/// other parameters to the arguments; gives the state after the shadowed
/// variables are restored, and the receiver as the body left it.
pub open spec fn call_method_spec(m: FnDefV, cls: Seq<char>, fields: Seq<(Seq<char>, ValueV)>, args: Seq<ExprV>, st: VmState, fuel: nat)
    -> Option<Result<(VmState, ValueV), ExecError>>
    decreases fuel, 0nat, 0nat,
{
    if fuel == 0 {
        Some(Err(ExecError::OutOfFuel))
    } else if m.params.len() == 0 {
        Some(Err(ExecError::MissingSelf))
    } else if m.params.len() - 1 != args.len() {
        Some(Err(ExecError::ArgumentCount))
    } else {
        let self_p = m.params[0];
        match eval_list(args, st.regs, st.vars, st.input) {
            None => None,
            Some((Err(e), _)) => Some(Err(e)),
            Some((Ok(vals), t1)) => {
                let saved = saved_of(st.vars, m.params);
                let vars1 = removed(st.vars, m.params);
                let vars2 = vars1.insert(self_p, VariableV { is_mut: true, value: ValueV::Object(cls, fields) });
                let vars3 = bound(vars2, m.params.skip(1), vals);
                match run_seq(m.body, VmState { vars: vars3, input: t1, ..st }, (fuel - 1) as nat) {
                    None => None,
                    Some(Err(e)) => Some(Err(e)),
                    Some(Ok(st2)) => if !st2.vars.contains_key(self_p) {
                        Some(Err(ExecError::SelfUnbound))
                    } else {
                        match st2.vars[self_p].value {
                            ValueV::Object(c, f) => Some(Ok((
                                with_vars(st2, restored(st2.vars.remove(self_p), m.params, saved)),
                                ValueV::Object(c, f),
                            ))),
                            _ => Some(Err(ExecError::SelfNotObject)),
                        }
                    },
                }
            },
        }
    }
}

/// `new Class(args)`: fields initialized, then `init` run if the class has
/// one; the object written to `dest`.
pub open spec fn new_spec(class: Seq<char>, args: Seq<ExprV>, dest: OperandV, st: VmState, fuel: nat) -> Option<Result<VmState, ExecError>>
    decreases fuel, 1nat, 0nat,
{
    if !st.classes.contains_key(class) {
        Some(Err(ExecError::ClassNotFound))
    } else {
        let cd = st.classes[class];
        match init_fields(cd.fields, st.regs, st.vars, seq![], st.input) {
            None => None,
            Some((Err(e), _)) => Some(Err(e)),
            Some((Ok(fields), t1)) => match method_lookup(cd.methods, "init"@) {
                Some(m) => match call_method_spec(m, class, fields, args, VmState { input: t1, ..st }, fuel) {
                    None => None,
                    Some(Err(e)) => Some(Err(e)),
                    Some(Ok((st2, obj))) => Some(write_dest_spec(dest, obj, with_regs(st2, st2.regs.update(svb(), ValueV::Nil)))),
                },
                None => if args.len() > 0 {
                    Some(Err(ExecError::InitArguments))
                } else {
                    Some(write_dest_spec(dest, ValueV::Object(class, fields), VmState { input: t1, ..st }))
                },
            },
        }
    }
}

/// `recv.method(args)`: the method of the receiver's class run on it, the
/// receiver variable updated with the object the method leaves, the value
/// in `SystemVarBuffer` written to `dest`.
pub open spec fn method_call_spec(recv: Seq<char>, method: Seq<char>, args: Seq<ExprV>, dest: OperandV, st: VmState, fuel: nat)
    -> Option<Result<VmState, ExecError>>
    decreases fuel, 1nat, 0nat,
{
    if !st.vars.contains_key(recv) {
        Some(Err(ExecError::VariableNotFound))
    } else {
        match st.vars[recv].value {
            ValueV::Object(c, f) => if !st.classes.contains_key(c) {
                Some(Err(ExecError::ClassNotFound))
            } else {
                match method_lookup(st.classes[c].methods, method) {
                    None => Some(Err(ExecError::MethodNotFound)),
                    Some(m) => match call_method_spec(m, c, f, args, st, fuel) {
                        None => None,
                        Some(Err(e)) => Some(Err(e)),
                        Some(Ok((st2, obj))) => {
                            let vars3 = if st2.vars.contains_key(recv) {
                                st2.vars.insert(recv, VariableV { is_mut: st2.vars[recv].is_mut, value: obj })
                            } else {
                                st2.vars
                            };
                            Some(write_dest_spec(dest, st2.regs[svb()], VmState {
                                regs: st2.regs.update(svb(), ValueV::Nil),
                                vars: vars3,
                                ..st2
                            }))
                        },
                    },
                }
            },
            _ => Some(Err(ExecError::NotAnObject)),
        }
    }
}

// ── Execution ───────────────────────────────────────────────────────

/// The state held by the register file and the three tables, with the
/// console's output so far and the lines still to be read.
pub open spec fn vm_state(
    regs: Registers,
    vars: AHashMap<String, Variable>,
    fns: AHashMap<String, FnDef>,
    classes: AHashMap<String, ClassDef>,
    out: Seq<char>,
    input: Seq<HostEvent>,
) -> VmState {
    VmState { regs: regs@, vars: variables_of(vars), fns: functions_of(fns), classes: classes_of(classes), out, input }
}

/// `r`, with the state `after` it left, is the outcome `out`.
pub open spec fn run_matches(r: Result<(), ExecError>, after: VmState, out: Result<VmState, ExecError>) -> bool {
    match out {
        Ok(s) => r is Ok && after == s,
        Err(e) => r == Err::<(), ExecError>(e),
    }
}

/// The position of the first method named `name`.
fn find_method(ms: &Vec<(String, FnDef)>, name: &str) -> (r: Option<usize>)
    ensures
        match r {
            Some(k) => k < ms@.len() && method_index(methods_view(ms@), name@, 0) == Some(k as int),
            None => method_index(methods_view(ms@), name@, 0) is None,
        },
{
    let ghost all = methods_view(ms@);
    proof { lemma_methods_view_len(ms@); }
    let mut i: usize = 0;
    while i < ms.len()
        invariant
            i <= ms@.len(),
            all == methods_view(ms@),
            all.len() == ms@.len(),
            method_index(all, name@, 0) == method_index(all, name@, i as int),
        decreases ms@.len() - i,
    {
        proof { lemma_methods_view_index(ms@, i as int); }
        if str_eq(ms[i].0.as_str(), name) {
            return Some(i);
        }
        i += 1;
    }
    None
}

/// The names after the first.
fn tail_strings(v: &Vec<String>) -> (r: Vec<String>)
    requires
        v@.len() > 0,
    ensures
        strings_view(r@) == strings_view(v@).skip(1),
{
    let mut out: Vec<String> = Vec::new();
    let mut i: usize = 1;
    while i < v.len()
        invariant
            1 <= i <= v@.len(),
            strings_view(out@) == strings_view(v@).subrange(1, i as int),
        decreases v@.len() - i,
    {
        let ghost before = out@;
        out.push(v[i].clone());
        proof {
            assert(strings_view(out@) =~= strings_view(before).push(v@[i as int]@));
            assert(strings_view(v@).subrange(1, i + 1) =~= strings_view(v@).subrange(1, i as int).push(v@[i as int]@));
        }
        i += 1;
    }
    proof { assert(strings_view(v@).subrange(1, v@.len() as int) =~= strings_view(v@).skip(1)); }
    out
}

/// Writes `val` to a destination: a register, or a mutable variable.
fn write_dest(dest: &Operand, val: Value, regs: &mut Registers, variables: &mut AHashMap<String, Variable>) -> (r: Result<(), ExecError>)
    ensures
        match write_dest_rv(dest@, val@, old(regs)@, variables_of(*old(variables))) {
            Ok((rg, vs)) => r is Ok && final(regs)@ == rg && variables_of(*final(variables)) == vs,
            Err(e) => r == Err::<(), ExecError>(e),
        },
{
    match dest {
        Operand::Register(reg) => {
            regs.write(*reg, val);
            Ok(())
        },
        Operand::Variable(name, _) => {
            let is_mut = match var_get(variables, name.as_str()) {
                Some(var) => var.is_mut,
                None => return Err(ExecError::VariableNotFound),
            };
            if !is_mut {
                return Err(ExecError::ImmutableVariable);
            }
            var_insert(variables, name.clone(), Variable { is_mut: true, value: val });
            Ok(())
        },
        Operand::Literal(_) => Err(ExecError::AssignToLiteral),
    }
}

/// Writes `nv` into the field at the end of `path[i..]`, starting from `v`.
fn set_path(v: Value, path: &Vec<String>, i: usize, nv: Value) -> (r: Result<Value, ExecError>)
    requires
        i <= path@.len(),
    ensures
        outcome_matches(r, set_path_spec(v@, strings_view(path@).skip(i as int), nv@)),
    decreases path@.len() - i,
{
    let ghost rest = strings_view(path@).skip(i as int);
    if i >= path.len() {
        return Err(ExecError::EmptyFieldPath);
    }
    proof {
        assert(rest[0] == path@[i as int]@);
        assert(rest.skip(1) =~= strings_view(path@).skip(i + 1));
    }
    match v {
        Value::Object(b) => {
            let mut inst = *b;
            if i + 1 == path.len() {
                inst.set_field(path[i].clone(), nv);
                Ok(Value::Object(Box::new(inst)))
            } else {
                let inner = match inst.get_field(path[i].as_str()) {
                    Some(x) => copy_value(x),
                    None => return Err(ExecError::FieldNotFound),
                };
                let ni = match set_path(inner, path, i + 1, nv) {
                    Ok(x) => x,
                    Err(e) => return Err(e),
                };
                inst.set_field(path[i].clone(), ni);
                Ok(Value::Object(Box::new(inst)))
            }
        },
        _ => Err(ExecError::NotAnObject),
    }
}

/// Executes a sequence of instructions against the register file, the
/// variable, function and class tables and the console, with at most
/// `fuel` levels of nesting and `fuel` iterations per loop; see
/// [`run_seq`]. For every continuation `rest`, running the program on the
/// host answers this call received followed by `rest` gives the outcome,
/// state and console text that the call produced, with `rest` left over.
#[verifier::rlimit(60)]
#[verifier::spinoff_prover]
pub fn runner<H: Host>(
    cmds: &[OpCode],
    regs: &mut Registers,
    variables: &mut AHashMap<String, Variable>,
    functions: &mut AHashMap<String, FnDef>,
    classes: &mut AHashMap<String, ClassDef>,
    console: &mut Console<H>,
    fuel: u64,
) -> (r: Result<(), ExecError>)
    ensures
        is_prefix(old(console).events(), final(console).events()),
        forall|rest: Seq<HostEvent>| #![trigger io_in(*old(console), *final(console), rest)]
            run_seq(ops_view(cmds@), vm_state(*old(regs), *old(variables), *old(functions), *old(classes), old(console).written(), io_in(*old(console), *final(console), rest)), fuel as nat) matches Some(out)
            && run_matches(r, vm_state(*final(regs), *final(variables), *final(functions), *final(classes), final(console).written(), rest), out),
    decreases fuel, 3nat,
{
    proof { lemma_io_in_same(*console); }
    if fuel == 0 {
        return Err(ExecError::OutOfFuel);
    }
    let ghost all = ops_view(cmds@);
    let ghost c0 = *console;
    proof {
        lemma_ops_view_len(cmds@);
        lemma_io_in_same(c0);
    }
    let mut i: usize = 0;
    while i < cmds.len()
        invariant
            i <= cmds@.len(),
            all == ops_view(cmds@),
            all.len() == cmds@.len(),
            fuel > 0,
            c0 == *old(console),
            is_prefix(c0.events(), console.events()),
            forall|rest: Seq<HostEvent>| #![trigger io_in(c0, *console, rest)]
                run_from(all, 0, vm_state(*old(regs), *old(variables), *old(functions), *old(classes), c0.written(), io_in(c0, *console, rest)), fuel as nat)
                    == run_from(all, i as int, vm_state(*regs, *variables, *functions, *classes, console.written(), rest), fuel as nat),
        decreases cmds@.len() - i,
    {
        proof { lemma_ops_view_index(cmds@, i as int); }
        let ghost c1 = *console;
        let ghost (r1, v1, f1, k1) = (*regs, *variables, *functions, *classes);
        let res = step_exec(&cmds[i], regs, variables, functions, classes, console, fuel);
        proof {
            lemma_io_in_chain(c0, c1, *console);
            assert forall|rest: Seq<HostEvent>| #![trigger io_in(c0, *console, rest)]
                run_from(all, 0, vm_state(*old(regs), *old(variables), *old(functions), *old(classes), c0.written(), io_in(c0, *console, rest)), fuel as nat)
                    == match res {
                        Ok(()) => run_from(all, i + 1, vm_state(*regs, *variables, *functions, *classes, console.written(), rest), fuel as nat),
                        Err(e) => Some(Err::<VmState, ExecError>(e)),
                    } by {
                let rest2 = io_in(c1, *console, rest);
                assert(io_in(c0, *console, rest) == io_in(c0, c1, rest2));
                let sti = vm_state(r1, v1, f1, k1, c1.written(), rest2);
                assert(run_from(all, i as int, sti, fuel as nat) == match step(all[i as int], sti, fuel as nat) {
                    None => None,
                    Some(Err(e)) => Some(Err(e)),
                    Some(Ok(st2)) => run_from(all, i + 1, st2, fuel as nat),
                });
            }
        }
        match res {
            Ok(()) => {},
            Err(e) => return Err(e),
        }
        i += 1;
    }
    Ok(())
}

/// Executes one instruction; see [`step`].
#[verifier::rlimit(100)]
#[verifier::spinoff_prover]
fn step_exec<H: Host>(
    op: &OpCode,
    regs: &mut Registers,
    variables: &mut AHashMap<String, Variable>,
    functions: &mut AHashMap<String, FnDef>,
    classes: &mut AHashMap<String, ClassDef>,
    console: &mut Console<H>,
    fuel: u64,
) -> (r: Result<(), ExecError>)
    ensures
        is_prefix(old(console).events(), final(console).events()),
        forall|rest: Seq<HostEvent>| #![trigger io_in(*old(console), *final(console), rest)]
            step(op@, vm_state(*old(regs), *old(variables), *old(functions), *old(classes), old(console).written(), io_in(*old(console), *final(console), rest)), fuel as nat) matches Some(out)
            && run_matches(r, vm_state(*final(regs), *final(variables), *final(functions), *final(classes), final(console).written(), rest), out),
    decreases fuel, 2nat,
{
    proof { lemma_io_in_same(*console); }
    if fuel == 0 {
        return Err(ExecError::OutOfFuel);
    }
    match op {
        OpCode::Add(a, b, d) => arith_exec(BinOp::Add, a, b, *d, regs, variables, functions, classes, console),
        OpCode::Sub(a, b, d) => arith_exec(BinOp::Sub, a, b, *d, regs, variables, functions, classes, console),
        OpCode::Mul(a, b, d) => arith_exec(BinOp::Mul, a, b, *d, regs, variables, functions, classes, console),
        OpCode::Div(a, b, d) => arith_exec(BinOp::Div, a, b, *d, regs, variables, functions, classes, console),
        OpCode::Println(o) => output_exec(o, true, regs, variables, functions, classes, console),
        OpCode::Print(o) => output_exec(o, false, regs, variables, functions, classes, console),
        OpCode::IO(IoOp::Write(o)) => output_exec(o, false, regs, variables, functions, classes, console),
        OpCode::IO(IoOp::Writeln(o)) => output_exec(o, true, regs, variables, functions, classes, console),
        OpCode::IO(IoOp::Read(reg)) => {
            let ghost c0 = *console;
            let line = console.read_line();
            let ghost c1 = *console;
            proof { lemma_io_in_one(c0, c1, HostEvent::Line(line@)); }
            let v = match stdin_known(line.as_str()) {
                Ok(v) => {
                    proof {
                        assert forall|rest: Seq<HostEvent>| #![trigger io_in(c0, *console, rest)]
                            read_value(line@, io_in(c0, *console, rest).drop_first()) == Some((v@, rest)) by {}
                    }
                    v
                },
                Err(text) => {
                    let b = console.float_bits(text.as_str());
                    proof {
                        lemma_io_in_one(c1, *console, HostEvent::Bits(text@, b));
                        lemma_io_in_chain(c0, c1, *console);
                        assert forall|rest: Seq<HostEvent>| #![trigger io_in(c0, *console, rest)]
                            io_in(c0, *console, rest)[0] == HostEvent::Line(line@)
                            && read_value(line@, io_in(c0, *console, rest).drop_first()) == Some((
                                match b { Some(bits) => ValueV::F32(bits), None => ValueV::Str(text@) }, rest)) by {
                            assert(io_in(c0, *console, rest) == io_in(c0, c1, io_in(c1, *console, rest)));
                        }
                    }
                    match b {
                        Some(bits) => Value::F32(bits),
                        None => Value::String(text),
                    }
                },
            };
            regs.write(*reg, v);
            Ok(())
        },
        OpCode::IO(IoOp::Readln(reg)) => {
            let ghost c0 = *console;
            let line = console.read_line();
            proof { lemma_io_in_one(c0, *console, HostEvent::Line(line@)); }
            let text = strip_line_end(line.as_str());
            regs.write(*reg, Value::String(text));
            Ok(())
        },
        OpCode::Block(inner) => runner(inner.as_slice(), regs, variables, functions, classes, console, fuel - 1),
        OpCode::Expr(e, dest) => {
            let v = match e.eval_expr(regs, variables, console) {
                Ok(v) => v,
                Err(x) => return Err(x),
            };
            write_dest(dest, v, regs, variables)
        },
        OpCode::If(c, t, e) => {
            let ghost c0 = *console;
            let v = match c.eval_expr(regs, variables, console) {
                Ok(v) => v,
                Err(x) => return Err(x),
            };
            let ghost c1 = *console;
            let ghost (r1, v1, f1, k1) = (*regs, *variables, *functions, *classes);
            let res = match v {
                Value::Bool(true) => runner(t.as_slice(), regs, variables, functions, classes, console, fuel - 1),
                Value::Bool(false) => match e {
                    Some(b) => runner(b.as_slice(), regs, variables, functions, classes, console, fuel - 1),
                    None => Ok(()),
                },
                _ => Err(ExecError::NonBoolCondition),
            };
            proof {
                lemma_io_in_same(c1);
                lemma_io_in_chain(c0, c1, *console);
                assert forall|rest: Seq<HostEvent>| #![trigger io_in(c0, *console, rest)]
                    io_in(c0, *console, rest) == io_in(c0, c1, io_in(c1, *console, rest)) by {}
            }
            res
        },
        OpCode::While(c, body) => exec_while(c, body, regs, variables, functions, classes, console, fuel),
        OpCode::Variable(name, var) => {
            let v = regs.take(Register::SystemVarBuffer);
            var_insert(variables, name.clone(), Variable { is_mut: var.is_mut, value: v });
            Ok(())
        },
        OpCode::FnDef { name, params, body } => {
            fn_insert(functions, name.clone(), FnDef { params: copy_strings(params), body: copy_ops(body) });
            Ok(())
        },
        OpCode::Call { name, args, dest } => exec_call(name, args, dest, regs, variables, functions, classes, console, fuel),
        OpCode::Return(e) => {
            let v = match e.eval_expr(regs, variables, console) {
                Ok(v) => v,
                Err(x) => return Err(x),
            };
            regs.write(Register::SystemVarBuffer, v);
            Ok(())
        },
        OpCode::ClassDef { name, def } => {
            class_insert(classes, name.clone(), copy_class(def));
            Ok(())
        },
        OpCode::New { class, args, dest } => exec_new(class, args, dest, regs, variables, functions, classes, console, fuel),
        OpCode::MethodCall { recv, method, args, dest } =>
            exec_method_call(recv, method, args, dest, regs, variables, functions, classes, console, fuel),
        OpCode::SetField { base, path, value } => {
            proof { reveal_with_fuel(set_path_spec, 1); }
            let nv = match value.eval_expr(regs, variables, console) {
                Ok(v) => v,
                Err(x) => return Err(x),
            };
            let var = match var_get(variables, base.as_str()) {
                Some(v) => copy_variable(v),
                None => return Err(ExecError::VariableNotFound),
            };
            proof { assert(strings_view(path@).skip(0) =~= strings_view(path@)); }
            let updated = match set_path(var.value, path, 0, nv) {
                Ok(v) => v,
                Err(x) => return Err(x),
            };
            var_insert(variables, base.clone(), Variable { is_mut: var.is_mut, value: updated });
            Ok(())
        },
    }
}

fn arith_exec<H: Host>(
    op: BinOp,
    a: &Operand,
    b: &Operand,
    d: Register,
    regs: &mut Registers,
    variables: &AHashMap<String, Variable>,
    functions: &AHashMap<String, FnDef>,
    classes: &AHashMap<String, ClassDef>,
    console: &mut Console<H>,
) -> (r: Result<(), ExecError>)
    requires
        op is Add || op is Sub || op is Mul || op is Div,
    ensures
        is_prefix(old(console).events(), final(console).events()),
        forall|rest: Seq<HostEvent>| #![trigger io_in(*old(console), *final(console), rest)]
            arith_step(op, a@, b@, d, vm_state(*old(regs), *variables, *functions, *classes, old(console).written(), io_in(*old(console), *final(console), rest))) matches Some(out)
            && run_matches(r, vm_state(*final(regs), *variables, *functions, *classes, final(console).written(), rest), out),
{
    proof { lemma_io_in_same(*console); }
    let x = match resolve(a, regs, variables) {
        Ok(v) => v,
        Err(e) => return Err(e),
    };
    let y = match resolve(b, regs, variables) {
        Ok(v) => v,
        Err(e) => return Err(e),
    };
    let v = match binary_value(op, &x, &y) {
        Some(Ok(v)) => v,
        Some(Err(f)) => return Err(ExecError::Fault(f)),
        None => {
            let ghost c0 = *console;
            let v = console.float_binary(op, &x, &y);
            proof { lemma_io_in_one(c0, *console, HostEvent::Float(op, x@, y@, v@)); }
            v
        },
    };
    regs.write(d, v);
    Ok(())
}

fn output_exec<H: Host>(
    o: &Operand,
    newline: bool,
    regs: &Registers,
    variables: &AHashMap<String, Variable>,
    functions: &AHashMap<String, FnDef>,
    classes: &AHashMap<String, ClassDef>,
    console: &mut Console<H>,
) -> (r: Result<(), ExecError>)
    ensures
        is_prefix(old(console).events(), final(console).events()),
        forall|rest: Seq<HostEvent>| #![trigger io_in(*old(console), *final(console), rest)]
            output_step(o@, newline, vm_state(*regs, *variables, *functions, *classes, old(console).written(), io_in(*old(console), *final(console), rest))) matches Some(out)
            && run_matches(r, vm_state(*regs, *variables, *functions, *classes, final(console).written(), rest), out),
{
    proof { lemma_io_in_same(*console); }
    let v = match resolve(o, regs, variables) {
        Ok(v) => v,
        Err(e) => return Err(e),
    };
    let mut text = String::new();
    let ghost c0 = *console;
    push_value_text(&mut text, &v, console);
    let ghost c1 = *console;
    console.write(text.as_str(), newline);
    proof {
        assert(console.events() == c1.events());
        assert forall|rest: Seq<HostEvent>| #![trigger io_in(c0, *console, rest)]
            io_in(c0, *console, rest) == io_in(c0, c1, rest) && (text_of(v@, io_in(c0, c1, rest)) matches Some((t, t2))
            && t2 == rest && text@ == t) by {
            let t = text_of(v@, io_in(c0, c1, rest))->Some_0.0;
            assert(seq![] + t =~= t);
        }
    }
    Ok(())
}

#[verifier::rlimit(60)]
#[verifier::spinoff_prover]
fn exec_while<H: Host>(
    c: &Expr,
    body: &Vec<OpCode>,
    regs: &mut Registers,
    variables: &mut AHashMap<String, Variable>,
    functions: &mut AHashMap<String, FnDef>,
    classes: &mut AHashMap<String, ClassDef>,
    console: &mut Console<H>,
    fuel: u64,
) -> (r: Result<(), ExecError>)
    ensures
        is_prefix(old(console).events(), final(console).events()),
        forall|rest: Seq<HostEvent>| #![trigger io_in(*old(console), *final(console), rest)]
            while_spec(c@, ops_view(body@), vm_state(*old(regs), *old(variables), *old(functions), *old(classes), old(console).written(), io_in(*old(console), *final(console), rest)), fuel as nat, fuel as nat) matches Some(out)
            && run_matches(r, vm_state(*final(regs), *final(variables), *final(functions), *final(classes), final(console).written(), rest), out),
    decreases fuel, 1nat,
{
    proof { lemma_io_in_same(*console); }
    let ghost cv = c@;
    let ghost bv = ops_view(body@);
    let ghost c0 = *console;
    proof { lemma_io_in_same(c0); }
    let mut budget = fuel;
    loop
        invariant
            budget <= fuel,
            cv == c@,
            bv == ops_view(body@),
            c0 == *old(console),
            is_prefix(c0.events(), console.events()),
            forall|rest: Seq<HostEvent>| #![trigger io_in(c0, *console, rest)]
                while_spec(cv, bv, vm_state(*old(regs), *old(variables), *old(functions), *old(classes), c0.written(), io_in(c0, *console, rest)), fuel as nat, fuel as nat)
                    == while_spec(cv, bv, vm_state(*regs, *variables, *functions, *classes, console.written(), rest), fuel as nat, budget as nat),
        decreases budget,
    {
        if fuel == 0 || budget == 0 {
            return Err(ExecError::OutOfFuel);
        }
        let ghost b1 = budget;
        budget -= 1;
        let ghost c1 = *console;
        let ghost (r1, v1, f1, k1) = (*regs, *variables, *functions, *classes);
        let res = c.eval_expr(regs, variables, console);
        let ghost c2 = *console;
        proof { lemma_io_in_chain(c0, c1, c2); }
        let v = match res {
            Ok(v) => v,
            Err(x) => {
                proof {
                    assert forall|rest: Seq<HostEvent>| #![trigger io_in(c0, *console, rest)]
                        while_spec(cv, bv, vm_state(*old(regs), *old(variables), *old(functions), *old(classes), c0.written(), io_in(c0, *console, rest)), fuel as nat, fuel as nat)
                            == Some(Err::<VmState, ExecError>(x)) by {
                        assert(io_in(c0, *console, rest) == io_in(c0, c1, io_in(c1, c2, rest)));
                    }
                }
                return Err(x);
            },
        };
        match v {
            Value::Bool(true) => {
                let res2 = runner(body.as_slice(), regs, variables, functions, classes, console, fuel - 1);
                proof {
                    lemma_io_in_chain(c1, c2, *console);
                    lemma_io_in_chain(c0, c1, *console);
                    assert forall|rest: Seq<HostEvent>| #![trigger io_in(c0, *console, rest)]
                        while_spec(cv, bv, vm_state(*old(regs), *old(variables), *old(functions), *old(classes), c0.written(), io_in(c0, *console, rest)), fuel as nat, fuel as nat)
                            == match res2 {
                                Ok(()) => while_spec(cv, bv, vm_state(*regs, *variables, *functions, *classes, console.written(), rest), fuel as nat, budget as nat),
                                Err(e) => Some(Err::<VmState, ExecError>(e)),
                            } by {
                        let rest3 = io_in(c2, *console, rest);
                        let rest2 = io_in(c1, c2, rest3);
                        assert(io_in(c1, *console, rest) == rest2);
                        assert(io_in(c0, *console, rest) == io_in(c0, c1, rest2));
                        let sti = vm_state(r1, v1, f1, k1, c1.written(), rest2);
                        assert(while_spec(cv, bv, sti, fuel as nat, b1 as nat) == match run_seq(bv, VmState { input: rest3, ..sti }, (fuel - 1) as nat) {
                            None => None,
                            Some(Err(x)) => Some(Err(x)),
                            Some(Ok(st2)) => while_spec(cv, bv, st2, fuel as nat, (b1 - 1) as nat),
                        });
                    }
                }
                match res2 {
                    Ok(()) => {},
                    Err(x) => return Err(x),
                }
            },
            Value::Bool(false) => {
                proof {
                    assert forall|rest: Seq<HostEvent>| #![trigger io_in(c0, *console, rest)]
                        while_spec(cv, bv, vm_state(*old(regs), *old(variables), *old(functions), *old(classes), c0.written(), io_in(c0, *console, rest)), fuel as nat, fuel as nat)
                            == Some(Ok::<VmState, ExecError>(vm_state(*regs, *variables, *functions, *classes, console.written(), rest))) by {
                        assert(io_in(c0, *console, rest) == io_in(c0, c1, io_in(c1, c2, rest)));
                    }
                }
                return Ok(());
            },
            _ => {
                proof {
                    assert forall|rest: Seq<HostEvent>| #![trigger io_in(c0, *console, rest)]
                        while_spec(cv, bv, vm_state(*old(regs), *old(variables), *old(functions), *old(classes), c0.written(), io_in(c0, *console, rest)), fuel as nat, fuel as nat)
                            == Some(Err::<VmState, ExecError>(ExecError::NonBoolCondition)) by {
                        assert(io_in(c0, *console, rest) == io_in(c0, c1, io_in(c1, c2, rest)));
                    }
                }
                return Err(ExecError::NonBoolCondition);
            },
        }
    }
}

#[verifier::rlimit(60)]
#[verifier::spinoff_prover]
fn exec_call<H: Host>(
    name: &String,
    args: &Vec<Expr>,
    dest: &Operand,
    regs: &mut Registers,
    variables: &mut AHashMap<String, Variable>,
    functions: &mut AHashMap<String, FnDef>,
    classes: &mut AHashMap<String, ClassDef>,
    console: &mut Console<H>,
    fuel: u64,
) -> (r: Result<(), ExecError>)
    ensures
        is_prefix(old(console).events(), final(console).events()),
        forall|rest: Seq<HostEvent>| #![trigger io_in(*old(console), *final(console), rest)]
            call_spec(name@, exprs_view(args@), dest@, vm_state(*old(regs), *old(variables), *old(functions), *old(classes), old(console).written(), io_in(*old(console), *final(console), rest)), fuel as nat) matches Some(out)
            && run_matches(r, vm_state(*final(regs), *final(variables), *final(functions), *final(classes), final(console).written(), rest), out),
    decreases fuel, 1nat,
{
    proof { lemma_io_in_same(*console); }
    if fuel == 0 {
        return Err(ExecError::OutOfFuel);
    }
    let fd = match fn_get(functions, name.as_str()) {
        Some(d) => copy_fndef(d),
        None => return Err(ExecError::FunctionNotFound),
    };
    proof {
        assert(strings_view(fd.params@).len() == fd.params@.len());
        assert(exprs_view(args@).len() == args@.len());
    }
    if fd.params.len() != args.len() {
        return Err(ExecError::ArgumentCount);
    }
    let ghost c0 = *console;
    let vals = match eval_args(args, regs, variables, console) {
        Ok(v) => v,
        Err(x) => return Err(x),
    };
    let ghost c1 = *console;
    let saved = remove_params(variables, &fd.params);
    bind_params(variables, &fd.params, vals);
    let res = runner(fd.body.as_slice(), regs, variables, functions, classes, console, fuel - 1);
    proof {
        lemma_io_in_chain(c0, c1, *console);
        assert forall|rest: Seq<HostEvent>| #![trigger io_in(c0, *console, rest)]
            io_in(c0, *console, rest) == io_in(c0, c1, io_in(c1, *console, rest)) by {}
    }
    match res {
        Ok(()) => {},
        Err(x) => return Err(x),
    }
    let ret = regs.take(Register::SystemVarBuffer);
    restore_params(variables, &fd.params, saved);
    write_dest(dest, ret, regs, variables)
}

/// Runs a method body with `receiver` bound to its first parameter
/// (`self`) and the arguments to the others; gives back the receiver as
/// the body left it. See [`call_method_spec`]: a method without `self`
/// gives `MissingSelf`, and a count of arguments other than its parameters
/// after `self` gives `ArgumentCount`, before any argument is evaluated.
#[verifier::rlimit(60)]
#[verifier::spinoff_prover]
fn call_method<H: Host>(
    method: &FnDef,
    receiver: Instance,
    args: &Vec<Expr>,
    regs: &mut Registers,
    variables: &mut AHashMap<String, Variable>,
    functions: &mut AHashMap<String, FnDef>,
    classes: &mut AHashMap<String, ClassDef>,
    console: &mut Console<H>,
    fuel: u64,
) -> (r: Result<Instance, ExecError>)
    ensures
        is_prefix(old(console).events(), final(console).events()),
        forall|rest: Seq<HostEvent>| #![trigger io_in(*old(console), *final(console), rest)]
            call_method_spec(method@, receiver.class@, fields_view(receiver.fields@), exprs_view(args@),
            vm_state(*old(regs), *old(variables), *old(functions), *old(classes), old(console).written(), io_in(*old(console), *final(console), rest)), fuel as nat) matches Some(out)
            && match out {
                Ok((s, obj)) => r matches Ok(inst) && ValueV::Object(inst.class@, fields_view(inst.fields@)) == obj
                    && vm_state(*final(regs), *final(variables), *final(functions), *final(classes), final(console).written(), rest) == s,
                Err(e) => r == Err::<Instance, ExecError>(e),
            },
    decreases fuel, 0nat,
{
    proof { lemma_io_in_same(*console); }
    if fuel == 0 {
        return Err(ExecError::OutOfFuel);
    }
    proof {
        assert(strings_view(method.params@).len() == method.params@.len());
        assert(exprs_view(args@).len() == args@.len());
    }
    if method.params.len() == 0 {
        return Err(ExecError::MissingSelf);
    }
    if method.params.len() - 1 != args.len() {
        return Err(ExecError::ArgumentCount);
    }
    let ghost c0 = *console;
    let vals = match eval_args(args, regs, variables, console) {
        Ok(v) => v,
        Err(x) => return Err(x),
    };
    let ghost c1 = *console;
    let saved = remove_params(variables, &method.params);
    let self_name = method.params[0].clone();
    var_insert(variables, self_name, Variable { is_mut: true, value: Value::Object(Box::new(receiver)) });
    let rest = tail_strings(&method.params);
    bind_params(variables, &rest, vals);
    let res = runner(method.body.as_slice(), regs, variables, functions, classes, console, fuel - 1);
    proof {
        lemma_io_in_chain(c0, c1, *console);
        assert forall|rest: Seq<HostEvent>| #![trigger io_in(c0, *console, rest)]
            io_in(c0, *console, rest) == io_in(c0, c1, io_in(c1, *console, rest)) by {}
    }
    match res {
        Ok(()) => {},
        Err(x) => return Err(x),
    }
    let self_var = match var_remove(variables, method.params[0].as_str()) {
        Some(v) => v,
        None => return Err(ExecError::SelfUnbound),
    };
    let new_receiver = match self_var.value {
        Value::Object(inst) => *inst,
        _ => return Err(ExecError::SelfNotObject),
    };
    restore_params(variables, &method.params, saved);
    Ok(new_receiver)
}

#[verifier::rlimit(60)]
#[verifier::spinoff_prover]
fn exec_new<H: Host>(
    class: &String,
    args: &Vec<Expr>,
    dest: &Operand,
    regs: &mut Registers,
    variables: &mut AHashMap<String, Variable>,
    functions: &mut AHashMap<String, FnDef>,
    classes: &mut AHashMap<String, ClassDef>,
    console: &mut Console<H>,
    fuel: u64,
) -> (r: Result<(), ExecError>)
    ensures
        is_prefix(old(console).events(), final(console).events()),
        forall|rest: Seq<HostEvent>| #![trigger io_in(*old(console), *final(console), rest)]
            new_spec(class@, exprs_view(args@), dest@, vm_state(*old(regs), *old(variables), *old(functions), *old(classes), old(console).written(), io_in(*old(console), *final(console), rest)), fuel as nat) matches Some(out)
            && run_matches(r, vm_state(*final(regs), *final(variables), *final(functions), *final(classes), final(console).written(), rest), out),
    decreases fuel, 1nat,
{
    proof { lemma_io_in_same(*console); }
    proof { reveal_strlit("init"); }
    let cd = match class_get(classes, class.as_str()) {
        Some(c) => copy_class(c),
        None => return Err(ExecError::ClassNotFound),
    };
    let ghost fs = class_fields_view(cd.fields@);
    let ghost c0 = *console;
    let ghost rv = regs@;
    let ghost vv = variables_of(*variables);
    let mut inst = Instance { class: class.clone(), fields: Vec::new() };
    proof {
        assert(fields_view(inst.fields@) =~= seq![]);
        assert(fs.skip(0) =~= fs);
        lemma_io_in_same(c0);
    }
    let mut i: usize = 0;
    while i < cd.fields.len()
        invariant
            i <= cd.fields@.len(),
            fs == class_fields_view(cd.fields@),
            inst.class@ == class@,
            *regs == *old(regs),
            *variables == *old(variables),
            *functions == *old(functions),
            *classes == *old(classes),
            rv == regs@,
            vv == variables_of(*variables),
            c0 == *old(console),
            is_prefix(c0.events(), console.events()),
            console.written() == c0.written(),
            classes_of(*classes).contains_key(class@),
            cd@ == classes_of(*classes)[class@],
            forall|rest: Seq<HostEvent>| #![trigger io_in(c0, *console, rest)]
                init_fields(fs, rv, vv, seq![], io_in(c0, *console, rest))
                    == init_fields(fs.skip(i as int), rv, vv, fields_view(inst.fields@), rest),
        decreases cd.fields@.len() - i,
    {
        proof {
            assert(fs.skip(i as int)[0] == (cd.fields@[i as int].0@, cd.fields@[i as int].1@));
            assert(fs.skip(i as int).skip(1) =~= fs.skip(i + 1));
        }
        let ghost c1 = *console;
        let res = cd.fields[i].1.eval_expr(regs, variables, console);
        proof {
            lemma_io_in_chain(c0, c1, *console);
            assert forall|rest: Seq<HostEvent>| #![trigger io_in(c0, *console, rest)]
                io_in(c0, *console, rest) == io_in(c0, c1, io_in(c1, *console, rest)) by {}
        }
        let v = match res {
            Ok(v) => v,
            Err(x) => {
                proof {
                    assert forall|rest: Seq<HostEvent>| #![trigger io_in(c0, *console, rest)]
                        init_fields(fs, rv, vv, seq![], io_in(c0, *console, rest)) == Some((Err::<Seq<(Seq<char>, ValueV)>, ExecError>(x), rest)) by {
                        let r2 = io_in(c1, *console, rest);
                        assert(init_fields(fs.skip(i as int), rv, vv, fields_view(inst.fields@), r2) == Some((Err::<Seq<(Seq<char>, ValueV)>, ExecError>(x), rest)));
                    }
                }
                return Err(x);
            },
        };
        let ghost before = fields_view(inst.fields@);
        inst.set_field(cd.fields[i].0.clone(), v);
        proof {
            assert forall|rest: Seq<HostEvent>| #![trigger io_in(c0, *console, rest)]
                init_fields(fs, rv, vv, seq![], io_in(c0, *console, rest))
                    == init_fields(fs.skip(i + 1), rv, vv, fields_view(inst.fields@), rest) by {
                let r2 = io_in(c1, *console, rest);
                assert(init_fields(fs.skip(i as int), rv, vv, before, r2)
                    == init_fields(fs.skip(i + 1), rv, vv, fields_view(inst.fields@), rest));
            }
        }
        i += 1;
    }
    proof { assert(fs.skip(i as int) =~= seq![]); }
    let ghost c2 = *console;
    match find_method(&cd.methods, "init") {
        Some(k) => {
            proof { lemma_methods_view_index(cd.methods@, k as int); }
            let res = call_method(&cd.methods[k].1, inst, args, regs, variables, functions, classes, console, fuel);
            proof {
                lemma_io_in_chain(c0, c2, *console);
                assert forall|rest: Seq<HostEvent>| #![trigger io_in(c0, *console, rest)]
                    io_in(c0, *console, rest) == io_in(c0, c2, io_in(c2, *console, rest)) by {}
            }
            let inst2 = match res {
                Ok(x) => x,
                Err(e) => return Err(e),
            };
            let _ = regs.take(Register::SystemVarBuffer);
            write_dest(dest, Value::Object(Box::new(inst2)), regs, variables)
        },
        None => {
            if args.len() > 0 {
                return Err(ExecError::InitArguments);
            }
            write_dest(dest, Value::Object(Box::new(inst)), regs, variables)
        },
    }
}

#[verifier::rlimit(60)]
#[verifier::spinoff_prover]
fn exec_method_call<H: Host>(
    recv: &String,
    method: &String,
    args: &Vec<Expr>,
    dest: &Operand,
    regs: &mut Registers,
    variables: &mut AHashMap<String, Variable>,
    functions: &mut AHashMap<String, FnDef>,
    classes: &mut AHashMap<String, ClassDef>,
    console: &mut Console<H>,
    fuel: u64,
) -> (r: Result<(), ExecError>)
    ensures
        is_prefix(old(console).events(), final(console).events()),
        forall|rest: Seq<HostEvent>| #![trigger io_in(*old(console), *final(console), rest)]
            method_call_spec(recv@, method@, exprs_view(args@), dest@, vm_state(*old(regs), *old(variables), *old(functions), *old(classes), old(console).written(), io_in(*old(console), *final(console), rest)), fuel as nat) matches Some(out)
            && run_matches(r, vm_state(*final(regs), *final(variables), *final(functions), *final(classes), final(console).written(), rest), out),
    decreases fuel, 1nat,
{
    proof { lemma_io_in_same(*console); }
    let obj = match var_get(variables, recv.as_str()) {
        Some(v) => copy_value(&v.value),
        None => return Err(ExecError::VariableNotFound),
    };
    let inst = match obj {
        Value::Object(b) => *b,
        _ => return Err(ExecError::NotAnObject),
    };
    let cd = match class_get(classes, inst.class.as_str()) {
        Some(c) => copy_class(c),
        None => return Err(ExecError::ClassNotFound),
    };
    let k = match find_method(&cd.methods, method.as_str()) {
        Some(k) => k,
        None => return Err(ExecError::MethodNotFound),
    };
    proof { lemma_methods_view_index(cd.methods@, k as int); }
    let new_inst = match call_method(&cd.methods[k].1, inst, args, regs, variables, functions, classes, console, fuel) {
        Ok(x) => x,
        Err(e) => return Err(e),
    };
    let still = match var_get(variables, recv.as_str()) {
        Some(v) => Some(v.is_mut),
        None => None,
    };
    match still {
        Some(is_mut) => {
            var_insert(variables, recv.clone(), Variable { is_mut, value: Value::Object(Box::new(new_inst)) });
        },
        None => {},
    }
    let ret = regs.take(Register::SystemVarBuffer);
    write_dest(dest, ret, regs, variables)
}

// ── Laws of a run ───────────────────────────────────────────────────

/// Running `a` then `b` is running `a + b`: a program runs its
/// instructions in order, and stops at the first that fails.
pub proof fn lemma_run_append(a: Seq<OpCodeV>, b: Seq<OpCodeV>, st: VmState, fuel: nat)
    ensures
        run_seq(a + b, st, fuel) == match run_seq(a, st, fuel) {
            Some(Ok(s2)) => run_seq(b, s2, fuel),
            other => other,
        },
{
    if fuel > 0 {
        lemma_run_from_append(a, b, 0, st, fuel);
    }
}

proof fn lemma_run_from_append(a: Seq<OpCodeV>, b: Seq<OpCodeV>, i: int, st: VmState, fuel: nat)
    requires
        0 <= i <= a.len(),
        fuel > 0,
    ensures
        run_from(a + b, i, st, fuel) == match run_from(a, i, st, fuel) {
            Some(Ok(s2)) => run_from(b, 0, s2, fuel),
            other => other,
        },
    decreases a.len() - i,
{
    if i == a.len() {
        lemma_run_from_shift(a, b, 0, st, fuel);
    } else {
        assert((a + b)[i] == a[i]);
        match step(a[i], st, fuel) {
            Some(Ok(st2)) => lemma_run_from_append(a, b, i + 1, st2, fuel),
            _ => {},
        }
    }
}

proof fn lemma_run_from_shift(a: Seq<OpCodeV>, b: Seq<OpCodeV>, j: int, st: VmState, fuel: nat)
    requires
        0 <= j <= b.len(),
    ensures
        run_from(a + b, a.len() + j, st, fuel) == run_from(b, j, st, fuel),
    decreases b.len() - j,
{
    if j < b.len() {
        assert((a + b)[a.len() + j] == b[j]);
        match step(b[j], st, fuel) {
            Some(Ok(st2)) => lemma_run_from_shift(a, b, j + 1, st2, fuel),
            _ => {},
        }
    }
}

/// A block runs like its contents, sharing the surrounding state and
/// console, one nesting level deeper; an empty program changes nothing.
pub proof fn lemma_block_runs_contents(v: Seq<OpCodeV>, st: VmState, fuel: nat)
    requires
        fuel > 0,
    ensures
        step(OpCodeV::Block(v), st, fuel) == run_seq(v, st, (fuel - 1) as nat),
        run_seq(seq![], st, fuel) == Some(Ok::<VmState, ExecError>(st)),
{
}

/// A loop that ends normally ends with its condition `false`: the last
/// evaluation of the condition gave `false` in the final registers and
/// variables.
#[verifier::rlimit(80)]
#[verifier::spinoff_prover]
pub proof fn lemma_while_ends_false(c: ExprV, body: Seq<OpCodeV>, st: VmState, fuel: nat, budget: nat)
    requires
        while_spec(c, body, st, fuel, budget) matches Some(Ok(_)),
    ensures
        ({
            let end = while_spec(c, body, st, fuel, budget)->Some_0->Ok_0;
            exists|t: Seq<HostEvent>| #[trigger] eval_spec(c, end.regs, end.vars, t) == Some((Ok::<ValueV, ExecError>(ValueV::Bool(false)), end.input))
        }),
    decreases budget,
{
    assert(fuel > 0 && budget > 0);
    match eval_spec(c, st.regs, st.vars, st.input) {
        Some((Ok(ValueV::Bool(true)), t1)) => match run_seq(body, VmState { input: t1, ..st }, (fuel - 1) as nat) {
            Some(Ok(st2)) => {
                assert(while_spec(c, body, st, fuel, budget) == while_spec(c, body, st2, fuel, (budget - 1) as nat));
                lemma_while_ends_false(c, body, st2, fuel, (budget - 1) as nat);
                let e1 = while_spec(c, body, st, fuel, budget)->Some_0->Ok_0;
                let e2 = while_spec(c, body, st2, fuel, (budget - 1) as nat)->Some_0->Ok_0;
                assert(e1 == e2);
                let t = choose|t: Seq<HostEvent>| #[trigger] eval_spec(c, e2.regs, e2.vars, t) == Some((Ok::<ValueV, ExecError>(ValueV::Bool(false)), e2.input));
                assert(eval_spec(c, e1.regs, e1.vars, t) == Some((Ok::<ValueV, ExecError>(ValueV::Bool(false)), e1.input)));
            },
            _ => { assert(false); },
        },
        Some((Ok(ValueV::Bool(false)), t1)) => {
            let end = VmState { input: t1, ..st };
            assert(while_spec(c, body, st, fuel, budget) == Some(Ok::<VmState, ExecError>(end)));
            let e1 = while_spec(c, body, st, fuel, budget)->Some_0->Ok_0;
            assert(e1 == end);
            assert(eval_spec(c, e1.regs, e1.vars, st.input) == Some((Ok::<ValueV, ExecError>(ValueV::Bool(false)), e1.input)));
        },
        _ => { assert(false); },
    }
}

/// `let` runs in two steps: the value is computed into `SystemVarBuffer`,
/// then the declaration moves it into the variable and clears the buffer.
pub proof fn lemma_let_binds(e: ExprV, name: Seq<char>, var: VariableV, st: VmState, fuel: nat)
    requires
        fuel > 0,
        svb() < st.regs.len(),
        eval_spec(e, st.regs, st.vars, st.input) matches Some((Ok(_), _)),
    ensures
        ({
            let (v, t1) = (eval_spec(e, st.regs, st.vars, st.input)->Some_0.0->Ok_0, eval_spec(e, st.regs, st.vars, st.input)->Some_0.1);
            run_seq(seq![OpCodeV::Expr(e, OperandV::Register(Register::SystemVarBuffer)), OpCodeV::Variable(name, var)], st, fuel)
                == Some(Ok::<VmState, ExecError>(VmState {
                    regs: st.regs.update(svb(), ValueV::Nil),
                    vars: st.vars.insert(name, VariableV { is_mut: var.is_mut, value: v }),
                    input: t1,
                    ..st
                }))
        }),
{
    let cmds = seq![OpCodeV::Expr(e, OperandV::Register(Register::SystemVarBuffer)), OpCodeV::Variable(name, var)];
    let v = eval_spec(e, st.regs, st.vars, st.input)->Some_0.0->Ok_0;
    let t1 = eval_spec(e, st.regs, st.vars, st.input)->Some_0.1;
    let st1 = VmState { regs: st.regs.update(svb(), v), input: t1, ..st };
    let st2 = VmState {
        regs: st1.regs.update(svb(), ValueV::Nil),
        vars: st1.vars.insert(name, VariableV { is_mut: var.is_mut, value: st1.regs[svb()] }),
        ..st1
    };
    assert(step(cmds[0], st, fuel) == Some(Ok::<VmState, ExecError>(st1)));
    assert(step(cmds[1], st1, fuel) == Some(Ok::<VmState, ExecError>(st2)));
    assert(run_from(cmds, 2, st2, fuel) == Some(Ok::<VmState, ExecError>(st2)));
    assert(run_from(cmds, 1, st1, fuel) == run_from(cmds, 2, st2, fuel));
    assert(run_from(cmds, 0, st, fuel) == run_from(cmds, 1, st1, fuel));
    assert(st2.regs =~= st.regs.update(svb(), ValueV::Nil));
}

/// A call leaves no trace of its frame: when its result goes to a
/// register, every parameter name is bound afterwards exactly as it was
/// before the call (or unbound, if it was).
pub proof fn lemma_call_restores(name: Seq<char>, args: Seq<ExprV>, r: Register, st: VmState, fuel: nat)
    requires
        st.fns.contains_key(name),
        st.fns[name].params.no_duplicates(),
        call_spec(name, args, OperandV::Register(r), st, fuel) matches Some(Ok(_)),
    ensures
        ({
            let after = call_spec(name, args, OperandV::Register(r), st, fuel)->Some_0->Ok_0;
            &&& forall|p: Seq<char>| #[trigger] st.fns[name].params.contains(p) ==>
                    after.vars.contains_key(p) == st.vars.contains_key(p)
                    && (st.vars.contains_key(p) ==> after.vars[p] == st.vars[p])
        }),
{
    let d = st.fns[name];
    let vals = eval_list(args, st.regs, st.vars, st.input)->Some_0.0->Ok_0;
    let t1 = eval_list(args, st.regs, st.vars, st.input)->Some_0.1;
    let saved = saved_of(st.vars, d.params);
    let vars2 = bound(removed(st.vars, d.params), d.params, vals);
    let st2 = run_seq(d.body, VmState { vars: vars2, input: t1, ..st }, (fuel - 1) as nat)->Some_0->Ok_0;
    lemma_restore_frame(st2.vars, st.vars, d.params);
    let vars3 = restored(st2.vars, d.params, saved);
    let regs3 = st2.regs.update(svb(), ValueV::Nil).update(r.spec_index(), st2.regs[svb()]);
    let after = call_spec(name, args, OperandV::Register(r), st, fuel)->Some_0->Ok_0;
    assert(after == VmState { regs: regs3, vars: vars3, ..st2 });
    assert forall|p: Seq<char>| #[trigger] d.params.contains(p) implies
        after.vars.contains_key(p) == st.vars.contains_key(p)
        && (st.vars.contains_key(p) ==> after.vars[p] == st.vars[p]) by {
        assert(vars3 == overlay(st2.vars, st.vars, d.params));
    }
    assert(forall|p: Seq<char>| #[trigger] st.fns[name].params.contains(p) ==> d.params.contains(p));
}

/// The number an unsigned integer value holds.
pub open spec fn unsigned_of(v: ValueV) -> Option<int> {
    match v {
        ValueV::U8(n) => Some(n as int),
        ValueV::U32(n) => Some(n as int),
        ValueV::U128(n) => Some(n as int),
        _ => None,
    }
}

/// The value of `v`'s unsigned type that holds `m`.
pub open spec fn unsigned_like(v: ValueV, m: int) -> ValueV {
    match v {
        ValueV::U8(_) => ValueV::U8(m as u8),
        ValueV::U32(_) => ValueV::U32(m as u32),
        _ => ValueV::U128(m as u128),
    }
}

/// Two unsigned values of one width.
pub open spec fn same_unsigned_width(a: ValueV, b: ValueV) -> bool {
    (a is U8 && b is U8) || (a is U32 && b is U32) || (a is U128 && b is U128)
}

/// The arithmetic instructions take their first operand as the left one:
/// on two unsigned operands of one width, `sub a b d` writes `a - b`
/// (where `a >= b`) and `div a b d` writes `a / b` (where `b != 0`) to the
/// register `d`, and change nothing else.
pub proof fn lemma_arith_operand_order(a: OperandV, b: OperandV, d: Register, st: VmState, fuel: nat)
    requires
        fuel > 0,
        operand_spec(a, st.regs, st.vars) is Ok,
        operand_spec(b, st.regs, st.vars) is Ok,
        same_unsigned_width(operand_spec(a, st.regs, st.vars)->Ok_0, operand_spec(b, st.regs, st.vars)->Ok_0),
    ensures
        ({
            let x = operand_spec(a, st.regs, st.vars)->Ok_0;
            let y = operand_spec(b, st.regs, st.vars)->Ok_0;
            let (n, k) = (unsigned_of(x)->Some_0, unsigned_of(y)->Some_0);
            &&& k != 0 ==> step(OpCodeV::Div(a, b, d), st, fuel)
                == Some(Ok::<VmState, ExecError>(VmState { regs: st.regs.update(d.spec_index(), unsigned_like(x, n / k)), ..st }))
            &&& n >= k ==> step(OpCodeV::Sub(a, b, d), st, fuel)
                == Some(Ok::<VmState, ExecError>(VmState { regs: st.regs.update(d.spec_index(), unsigned_like(x, n - k)), ..st }))
        }),
{
    let x = operand_spec(a, st.regs, st.vars)->Ok_0;
    let y = operand_spec(b, st.regs, st.vars)->Ok_0;
    match (x, y) {
        (ValueV::U8(p), ValueV::U8(q)) => {
            assert(q != 0 ==> (p / q) as int == (p as int) / (q as int)) by (nonlinear_arith);
        },
        (ValueV::U32(p), ValueV::U32(q)) => {
            assert(q != 0 ==> (p / q) as int == (p as int) / (q as int)) by (nonlinear_arith);
        },
        (ValueV::U128(p), ValueV::U128(q)) => {
            assert(q != 0 ==> (p / q) as int == (p as int) / (q as int)) by (nonlinear_arith);
        },
        _ => {},
    }
}

/// A remainder takes its left operand first: on two unsigned values of one
/// width, `a % b` (where `b != 0`) evaluates to the remainder of `a`
/// divided by `b`, with no host answer used.
pub proof fn lemma_rem_operand_order(x: ValueV, y: ValueV, regs: Seq<ValueV>, vars: Map<Seq<char>, VariableV>, t: Seq<HostEvent>)
    requires
        same_unsigned_width(x, y),
        unsigned_of(y)->Some_0 != 0,
    ensures
        eval_spec(
            ExprV::Binary(Box::new(ExprV::Operand(OperandV::Literal(x))), BinOp::Rem, Box::new(ExprV::Operand(OperandV::Literal(y)))),
            regs, vars, t,
        ) == Some((Ok::<ValueV, ExecError>(unsigned_like(x, unsigned_of(x)->Some_0 % unsigned_of(y)->Some_0)), t)),
{
    assert(eval_spec(ExprV::Operand(OperandV::Literal(x)), regs, vars, t) == Some((Ok::<ValueV, ExecError>(x), t)));
    assert(eval_spec(ExprV::Operand(OperandV::Literal(y)), regs, vars, t) == Some((Ok::<ValueV, ExecError>(y), t)));
    match (x, y) {
        (ValueV::U8(p), ValueV::U8(q)) => {
            assert((p % q) as int == (p as int) % (q as int)) by (nonlinear_arith) requires q != 0;
            assert(binary_spec(BinOp::Rem, x, y) == Some(Ok::<ValueV, Fault>(ValueV::U8(p % q))));
            assert(unsigned_like(x, (p as int) % (q as int)) == ValueV::U8(p % q));
        },
        (ValueV::U32(p), ValueV::U32(q)) => {
            assert((p % q) as int == (p as int) % (q as int)) by (nonlinear_arith) requires q != 0;
            assert(binary_spec(BinOp::Rem, x, y) == Some(Ok::<ValueV, Fault>(ValueV::U32(p % q))));
            assert(unsigned_like(x, (p as int) % (q as int)) == ValueV::U32(p % q));
        },
        (ValueV::U128(p), ValueV::U128(q)) => {
            assert((p % q) as int == (p as int) % (q as int)) by (nonlinear_arith) requires q != 0;
            assert(binary_spec(BinOp::Rem, x, y) == Some(Ok::<ValueV, Fault>(ValueV::U128(p % q))));
            assert(unsigned_like(x, (p as int) % (q as int)) == ValueV::U128(p % q));
        },
        _ => {},
    }
}

/// Output changes nothing but what the console has been given: printing an
/// operand whose value has a text adds that text (and a newline for
/// `println` and `writeln`), takes the host answers that text used, and
/// leaves registers and tables as they were.
pub proof fn lemma_output_keeps_state(o: OperandV, st: VmState, fuel: nat)
    requires
        fuel > 0,
        operand_spec(o, st.regs, st.vars) matches Ok(v) && text_of(v, st.input) is Some,
    ensures
        ({
            let (t, t1) = text_of(operand_spec(o, st.regs, st.vars)->Ok_0, st.input)->Some_0;
            &&& step(OpCodeV::Println(o), st, fuel) == Some(Ok::<VmState, ExecError>(VmState { out: st.out + t.push('\n'), input: t1, ..st }))
            &&& step(OpCodeV::Print(o), st, fuel) == Some(Ok::<VmState, ExecError>(VmState { out: st.out + t, input: t1, ..st }))
            &&& step(OpCodeV::IO(IoOpV::Write(o)), st, fuel) == Some(Ok::<VmState, ExecError>(VmState { out: st.out + t, input: t1, ..st }))
            &&& step(OpCodeV::IO(IoOpV::Writeln(o)), st, fuel) == Some(Ok::<VmState, ExecError>(VmState { out: st.out + t.push('\n'), input: t1, ..st }))
        }),
{
}

} // verus!
