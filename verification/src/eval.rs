//! Expression evaluation against the register file and the variables.
use vstd::prelude::*;

use ahash::AHashMap;

use crate::copy::copy_value;
use crate::expr::{BinOp, Expr, ExprV, UnOp};
use crate::host::{is_prefix, io_in, lemma_io_in_chain, lemma_io_in_one, lemma_io_in_same, Console, Host, HostEvent};
use crate::maps::{var_get, variables_of};
use crate::op_code::{Operand, OperandV};
use crate::register::{Register, Registers};
use crate::value::{
    binary_spec, binary_value, field_lookup, fields_view, unary_spec, unary_value, Fault, Value,
    ValueV,
};
use crate::variable::{Variable, VariableV};

verus! {

/// Why a run stopped; each variant is documented with the message the VM
/// reports for it.
#[derive(Debug, Clone, Copy, PartialEq, Eq, Structural)]
pub enum ExecError {
    /// An operator could not be applied.
    Fault(Fault),
    /// "variable not found"
    VariableNotFound,
    /// "cannot assign to immutable variable"
    ImmutableVariable,
    /// "cannot assign to a literal"
    AssignToLiteral,
    /// "condition must be Bool"
    NonBoolCondition,
    /// "function not found"
    FunctionNotFound,
    /// "expects N argument(s), got M"
    ArgumentCount,
    /// "class not found"
    ClassNotFound,
    /// "method not found on class"
    MethodNotFound,
    /// "is not an object" / "cannot access field on non-object"
    NotAnObject,
    /// "field not found"
    FieldNotFound,
    /// "method must take 'self' as its first parameter"
    MissingSelf,
    /// "'self' binding disappeared during method execution"
    SelfUnbound,
    /// "'self' was reassigned to a non-object"
    SelfNotObject,
    /// "class has no 'init' method but was constructed with arguments"
    InitArguments,
    /// "field path must be non-empty"
    EmptyFieldPath,
    /// The step budget given to the run was used up.
    OutOfFuel,
}

/// The value of an operand; `variables` maps names to variables.
pub open spec fn operand_spec(o: OperandV, regs: Seq<ValueV>, vars: Map<Seq<char>, VariableV>) -> Result<ValueV, ExecError> {
    match o {
        OperandV::Literal(v) => Ok(v),
        OperandV::Register(r) => Ok(regs[r.spec_index()]),
        OperandV::Variable(name, _) => if vars.contains_key(name) {
            Ok(vars[name].value)
        } else {
            Err(ExecError::VariableNotFound)
        },
    }
}

/// What the host answered to `float_binary(op, a, b)`, taken from the front
/// of `t`; `None` where the front of `t` is no such answer.
pub open spec fn float_answer(op: BinOp, a: ValueV, b: ValueV, t: Seq<HostEvent>) -> Option<(Result<ValueV, ExecError>, Seq<HostEvent>)> {
    if t.len() == 0 {
        None
    } else {
        match t[0] {
            HostEvent::Float(o, x, y, v) => if o == op && x == a && y == b {
                Some((Ok(v), t.drop_first()))
            } else {
                None
            },
            _ => None,
        }
    }
}

/// The value of an expression, with the host answers `t` still to come:
/// `Some((Ok(v), t2))` for a value, `Some((Err(e), t2))` where the
/// evaluation stops, with `t2` the answers left over. Operands are
/// evaluated left then right; an operator on two floats of one width is
/// asked of the host, whose answer is the next one in `t`. `None` where `t`
/// does not hold that answer.
pub open spec fn eval_spec(e: ExprV, regs: Seq<ValueV>, vars: Map<Seq<char>, VariableV>, t: Seq<HostEvent>)
    -> Option<(Result<ValueV, ExecError>, Seq<HostEvent>)>
    decreases e,
{
    match e {
        ExprV::Operand(o) => Some((operand_spec(o, regs, vars), t)),
        ExprV::Binary(l, op, r) => match eval_spec(*l, regs, vars, t) {
            None => None,
            Some((Err(x), t1)) => Some((Err(x), t1)),
            Some((Ok(a), t1)) => match eval_spec(*r, regs, vars, t1) {
                None => None,
                Some((Err(x), t2)) => Some((Err(x), t2)),
                Some((Ok(b), t2)) => match binary_spec(op, a, b) {
                    Some(Ok(v)) => Some((Ok(v), t2)),
                    Some(Err(f)) => Some((Err(ExecError::Fault(f)), t2)),
                    None => float_answer(op, a, b, t2),
                },
            },
        },
        ExprV::Unary(op, x) => match eval_spec(*x, regs, vars, t) {
            None => None,
            Some((Err(err), t1)) => Some((Err(err), t1)),
            Some((Ok(a), t1)) => match unary_spec(op, a) {
                Some(Ok(v)) => Some((Ok(v), t1)),
                Some(Err(f)) => Some((Err(ExecError::Fault(f)), t1)),
                None => None,
            },
        },
        ExprV::Field(x, name) => match eval_spec(*x, regs, vars, t) {
            None => None,
            Some((Err(err), t1)) => Some((Err(err), t1)),
            Some((Ok(ValueV::Object(_, fields)), t1)) => match field_lookup(fields, name) {
                Some(v) => Some((Ok(v), t1)),
                None => Some((Err(ExecError::FieldNotFound), t1)),
            },
            Some((Ok(_), t1)) => Some((Err(ExecError::NotAnObject), t1)),
        },
    }
}

/// A binary expression evaluates both operands, left first, and applies
/// the operator to their values; a fault of the operator stops the
/// evaluation, and the host is asked only where both are floats of one
/// width.
pub proof fn lemma_eval_binary(l: ExprV, op: BinOp, r: ExprV, regs: Seq<ValueV>, vars: Map<Seq<char>, VariableV>, t: Seq<HostEvent>)
    requires
        eval_spec(l, regs, vars, t) matches Some((Ok(_), _)),
        eval_spec(r, regs, vars, eval_spec(l, regs, vars, t)->Some_0.1) matches Some((Ok(_), _)),
    ensures
        ({
            let (a, t1) = (eval_spec(l, regs, vars, t)->Some_0.0->Ok_0, eval_spec(l, regs, vars, t)->Some_0.1);
            let (b, t2) = (eval_spec(r, regs, vars, t1)->Some_0.0->Ok_0, eval_spec(r, regs, vars, t1)->Some_0.1);
            eval_spec(ExprV::Binary(Box::new(l), op, Box::new(r)), regs, vars, t) == match binary_spec(op, a, b) {
                Some(Ok(v)) => Some((Ok(v), t2)),
                Some(Err(f)) => Some((Err(ExecError::Fault(f)), t2)),
                None => float_answer(op, a, b, t2),
            }
        }),
{
}

/// Negation negates the value of its operand, whatever the operand is:
/// `-e` where `e` evaluates to the integer `n` gives `-n` of the same type
/// (a fault only where `-n` does not fit), and `!e` where `e` evaluates to
/// a `Bool` gives its negation; the host answers used are those of `e`.
pub proof fn lemma_eval_negation(e: ExprV, regs: Seq<ValueV>, vars: Map<Seq<char>, VariableV>, t: Seq<HostEvent>)
    requires
        eval_spec(e, regs, vars, t) matches Some((Ok(_), _)),
    ensures
        ({
            let (v, t1) = (eval_spec(e, regs, vars, t)->Some_0.0->Ok_0, eval_spec(e, regs, vars, t)->Some_0.1);
            let neg = eval_spec(ExprV::Unary(UnOp::Neg, Box::new(e)), regs, vars, t);
            let not = eval_spec(ExprV::Unary(UnOp::Not, Box::new(e)), regs, vars, t);
            &&& (v matches ValueV::I32(n) ==> (n != i32::MIN ==>
                    (neg matches Some((Ok(ValueV::I32(m)), t2)) && m == -n && t2 == t1)))
            &&& (v matches ValueV::I32(n) && n == i32::MIN ==>
                    neg == Some((Err::<ValueV, ExecError>(ExecError::Fault(Fault::NegOverflow)), t1)))
            &&& (v matches ValueV::I128(n) ==> (n != i128::MIN ==>
                    (neg matches Some((Ok(ValueV::I128(m)), t2)) && m == -n && t2 == t1)))
            &&& (v matches ValueV::I128(n) && n == i128::MIN ==>
                    neg == Some((Err::<ValueV, ExecError>(ExecError::Fault(Fault::NegOverflow)), t1)))
            &&& (v matches ValueV::Bool(b) ==> not == Some((Ok::<ValueV, ExecError>(ValueV::Bool(!b)), t1)))
        }),
{
}

/// `r` is what `spec` describes, read back through views.
pub open spec fn outcome_matches(r: Result<Value, ExecError>, spec: Result<ValueV, ExecError>) -> bool {
    match spec {
        Ok(v) => r matches Ok(x) && x@ == v,
        Err(e) => r == Err::<Value, ExecError>(e),
    }
}

/// Resolves an operand to a value: literals are copied, registers and
/// variables read.
pub fn resolve(operand: &Operand, regs: &Registers, variables: &AHashMap<String, Variable>) -> (r: Result<Value, ExecError>)
    ensures
        outcome_matches(r, operand_spec(operand@, regs@, variables_of(*variables))),
{
    proof { regs.lemma_view(); }
    match operand {
        Operand::Literal(v) => Ok(copy_value(v)),
        Operand::Register(reg) => Ok(copy_value(regs.read(*reg))),
        Operand::Variable(name, _) => match var_get(variables, name.as_str()) {
            Some(var) => Ok(copy_value(&var.value)),
            None => Err(ExecError::VariableNotFound),
        },
    }
}

impl Expr {
    /// Recursively evaluates the expression against the register file and
    /// the variables; see [`eval_spec`]. Float arithmetic is asked of the
    /// console's host. An unbound variable gives `VariableNotFound`; an
    /// operator that cannot be applied gives its `Fault`.
    pub fn eval_expr<H: Host>(&self, regs: &Registers, variables: &AHashMap<String, Variable>, console: &mut Console<H>)
        -> (r: Result<Value, ExecError>)
        ensures
            is_prefix(old(console).events(), final(console).events()),
            final(console).written() == old(console).written(),
            forall|rest: Seq<HostEvent>| #![trigger io_in(*old(console), *final(console), rest)]
                eval_spec(self@, regs@, variables_of(*variables), io_in(*old(console), *final(console), rest)) matches Some((x, t2))
                && t2 == rest && outcome_matches(r, x),
        decreases self,
    {
        proof { lemma_io_in_same(*console); }
        match self {
            Expr::Operand(o) => resolve(o, regs, variables),
            Expr::Binary(lhs, op, rhs) => {
                let ghost c0 = *console;
                let a = match lhs.eval_expr(regs, variables, console) {
                    Ok(v) => v,
                    Err(x) => return Err(x),
                };
                let ghost c1 = *console;
                let b = match rhs.eval_expr(regs, variables, console) {
                    Ok(v) => v,
                    Err(x) => {
                        proof { lemma_io_in_chain(c0, c1, *console); }
                        return Err(x);
                    },
                };
                let ghost c2 = *console;
                proof { lemma_io_in_chain(c0, c1, c2); }
                match binary_value(*op, &a, &b) {
                    Some(Ok(v)) => Ok(v),
                    Some(Err(f)) => Err(ExecError::Fault(f)),
                    None => {
                        let v = console.float_binary(*op, &a, &b);
                        proof {
                            lemma_io_in_one(c2, *console, HostEvent::Float(*op, a@, b@, v@));
                            lemma_io_in_chain(c0, c2, *console);
                            assert forall|rest: Seq<HostEvent>| #![trigger io_in(c0, *console, rest)]
                                io_in(c0, *console, rest) == io_in(c0, c1, io_in(c1, c2, io_in(c2, *console, rest))) by {
                                lemma_io_in_chain(c0, c1, c2);
                            }
                        }
                        Ok(v)
                    },
                }
            },
            Expr::Unary(op, inner) => {
                let a = match inner.eval_expr(regs, variables, console) {
                    Ok(v) => v,
                    Err(x) => return Err(x),
                };
                match unary_value(*op, &a) {
                    Some(Ok(v)) => Ok(v),
                    Some(Err(f)) => Err(ExecError::Fault(f)),
                    None => vstd::pervasive::unreached(),
                }
            },
            Expr::Field(inner, name) => {
                let a = match inner.eval_expr(regs, variables, console) {
                    Ok(v) => v,
                    Err(x) => return Err(x),
                };
                match &a {
                    Value::Object(inst) => match inst.get_field(name.as_str()) {
                        Some(v) => Ok(copy_value(v)),
                        None => Err(ExecError::FieldNotFound),
                    },
                    _ => Err(ExecError::NotAnObject),
                }
            },
        }
    }
}

} // verus!
