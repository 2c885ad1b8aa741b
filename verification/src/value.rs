//! The [`Value`] type: a tagged union of every value the VM manipulates,
//! and the meaning of the operators on it.
//!
//! Floating-point values are carried as their IEEE-754 bit patterns; the
//! arithmetic on them is not performed here (see [`crate::host::Host`]).
use vstd::prelude::*;

use crate::expr::{BinOp, UnOp};

verus! {

/// A live object: the name of its class and the current value of each field.
///
/// `fields` is kept sorted by field name with no name twice, so that it
/// behaves as an ordered map.
#[derive(Debug, PartialEq)]
pub struct Instance {
    pub class: String,
    pub fields: Vec<(String, Value)>,
}

/// Tagged union of every value type the VM understands.
#[derive(Debug, PartialEq)]
pub enum Value {
    Nil,
    I32(i32),
    I128(i128),
    U8(u8),
    U32(u32),
    U128(u128),
    /// A 32-bit float, held as its bit pattern.
    F32(u32),
    /// A 64-bit float, held as its bit pattern.
    F64(u64),
    Bool(bool),
    String(String),
    Object(Box<Instance>),
}

/// Mathematical model of a [`Value`].
pub enum ValueV {
    Nil,
    I32(i32),
    I128(i128),
    U8(u8),
    U32(u32),
    U128(u128),
    F32(u32),
    F64(u64),
    Bool(bool),
    Str(Seq<char>),
    Object(Seq<char>, Seq<(Seq<char>, ValueV)>),
}

pub open spec fn value_view(v: Value) -> ValueV
    decreases v, 0nat,
{
    match v {
        Value::Nil => ValueV::Nil,
        Value::I32(n) => ValueV::I32(n),
        Value::I128(n) => ValueV::I128(n),
        Value::U8(n) => ValueV::U8(n),
        Value::U32(n) => ValueV::U32(n),
        Value::U128(n) => ValueV::U128(n),
        Value::F32(n) => ValueV::F32(n),
        Value::F64(n) => ValueV::F64(n),
        Value::Bool(b) => ValueV::Bool(b),
        Value::String(s) => ValueV::Str(s@),
        Value::Object(b) => ValueV::Object(b.class@, fields_view(b.fields@)),
    }
}

pub open spec fn fields_view(s: Seq<(String, Value)>) -> Seq<(Seq<char>, ValueV)>
    decreases s, s.len(),
{
    if s.len() == 0 {
        seq![]
    } else {
        fields_view(s.drop_last()).push((s.last().0@, value_view(s.last().1)))
    }
}

impl View for Value {
    type V = ValueV;

    open spec fn view(&self) -> ValueV {
        value_view(*self)
    }
}

/// Why an operator could not be applied; each variant is documented with
/// the message the VM reports for it.
#[derive(Debug, Clone, Copy, PartialEq, Eq, Structural)]
pub enum Fault {
    /// "cannot perform operation"
    ArithmeticMismatch,
    /// "type mismatch in comparison"
    ComparisonMismatch,
    /// "type mismatch in shift left"
    ShiftLeftMismatch,
    /// "type mismatch in shift right"
    ShiftRightMismatch,
    /// "negation requires signed integer or float operand"
    NegationMismatch,
    /// "logical NOT requires Bool operand"
    LogicalNotMismatch,
    /// "bitwise NOT requires integer operand"
    BitwiseNotMismatch,
    /// "logical AND requires Bool operands"
    LogicalAndMismatch,
    /// "logical OR requires Bool operands"
    LogicalOrMismatch,
    /// "attempt to add with overflow"
    AddOverflow,
    /// "attempt to subtract with overflow"
    SubOverflow,
    /// "attempt to multiply with overflow"
    MulOverflow,
    /// "attempt to divide by zero"
    DivByZero,
    /// "attempt to divide with overflow"
    DivOverflow,
    /// "attempt to calculate the remainder with a divisor of zero"
    RemByZero,
    /// "attempt to calculate the remainder with overflow"
    RemOverflow,
    /// "attempt to negate with overflow"
    NegOverflow,
}

/// `Some(r)` read as the value `r` of the given type, `None` as the fault.
pub open spec fn lift_i32(o: Option<i32>, f: Fault) -> Result<ValueV, Fault> {
    match o { Some(r) => Ok(ValueV::I32(r)), None => Err(f) }
}

pub open spec fn lift_i128(o: Option<i128>, f: Fault) -> Result<ValueV, Fault> {
    match o { Some(r) => Ok(ValueV::I128(r)), None => Err(f) }
}

pub open spec fn lift_u8(o: Option<u8>, f: Fault) -> Result<ValueV, Fault> {
    match o { Some(r) => Ok(ValueV::U8(r)), None => Err(f) }
}

pub open spec fn lift_u32(o: Option<u32>, f: Fault) -> Result<ValueV, Fault> {
    match o { Some(r) => Ok(ValueV::U32(r)), None => Err(f) }
}

pub open spec fn lift_u128(o: Option<u128>, f: Fault) -> Result<ValueV, Fault> {
    match o { Some(r) => Ok(ValueV::U128(r)), None => Err(f) }
}

/// The arithmetic operators (`+ - * / %`) on two values of one integer type,
/// as Rust's checked operations compute them; `None` when both are floats of
/// one width (the host decides).
pub open spec fn arith_spec(op: BinOp, a: ValueV, b: ValueV) -> Option<Result<ValueV, Fault>> {
    match (a, b) {
        (ValueV::I32(x), ValueV::I32(y)) => Some(
            match op {
                BinOp::Add => lift_i32(x.checked_add(y), Fault::AddOverflow),
                BinOp::Sub => lift_i32(x.checked_sub(y), Fault::SubOverflow),
                BinOp::Mul => lift_i32(x.checked_mul(y), Fault::MulOverflow),
                BinOp::Div => if y == 0 { Err(Fault::DivByZero) } else {
                    lift_i32(x.checked_div(y), Fault::DivOverflow)
                },
                _ => if y == 0 { Err(Fault::RemByZero) } else {
                    lift_i32(x.checked_rem(y), Fault::RemOverflow)
                },
            },
        ),
        (ValueV::I128(x), ValueV::I128(y)) => Some(
            match op {
                BinOp::Add => lift_i128(x.checked_add(y), Fault::AddOverflow),
                BinOp::Sub => lift_i128(x.checked_sub(y), Fault::SubOverflow),
                BinOp::Mul => lift_i128(x.checked_mul(y), Fault::MulOverflow),
                BinOp::Div => if y == 0 { Err(Fault::DivByZero) } else {
                    lift_i128(x.checked_div(y), Fault::DivOverflow)
                },
                _ => if y == 0 { Err(Fault::RemByZero) } else {
                    lift_i128(x.checked_rem(y), Fault::RemOverflow)
                },
            },
        ),
        (ValueV::U8(x), ValueV::U8(y)) => Some(
            match op {
                BinOp::Add => lift_u8(x.checked_add(y), Fault::AddOverflow),
                BinOp::Sub => lift_u8(x.checked_sub(y), Fault::SubOverflow),
                BinOp::Mul => lift_u8(x.checked_mul(y), Fault::MulOverflow),
                BinOp::Div => if y == 0 { Err(Fault::DivByZero) } else { Ok(ValueV::U8(x / y)) },
                _ => if y == 0 { Err(Fault::RemByZero) } else { Ok(ValueV::U8(x % y)) },
            },
        ),
        (ValueV::U32(x), ValueV::U32(y)) => Some(
            match op {
                BinOp::Add => lift_u32(x.checked_add(y), Fault::AddOverflow),
                BinOp::Sub => lift_u32(x.checked_sub(y), Fault::SubOverflow),
                BinOp::Mul => lift_u32(x.checked_mul(y), Fault::MulOverflow),
                BinOp::Div => if y == 0 { Err(Fault::DivByZero) } else { Ok(ValueV::U32(x / y)) },
                _ => if y == 0 { Err(Fault::RemByZero) } else { Ok(ValueV::U32(x % y)) },
            },
        ),
        (ValueV::U128(x), ValueV::U128(y)) => Some(
            match op {
                BinOp::Add => lift_u128(x.checked_add(y), Fault::AddOverflow),
                BinOp::Sub => lift_u128(x.checked_sub(y), Fault::SubOverflow),
                BinOp::Mul => lift_u128(x.checked_mul(y), Fault::MulOverflow),
                BinOp::Div => if y == 0 { Err(Fault::DivByZero) } else { Ok(ValueV::U128(x / y)) },
                _ => if y == 0 { Err(Fault::RemByZero) } else { Ok(ValueV::U128(x % y)) },
            },
        ),
        (ValueV::F32(_), ValueV::F32(_)) => None,
        (ValueV::F64(_), ValueV::F64(_)) => None,
        _ => Some(Err(Fault::ArithmeticMismatch)),
    }
}

/// `&`, `|`, `^` on two values of one integer type.
pub open spec fn bitwise_spec(op: BinOp, a: ValueV, b: ValueV) -> Result<ValueV, Fault> {
    match (a, b) {
        (ValueV::I32(x), ValueV::I32(y)) => Ok(ValueV::I32(
            match op { BinOp::BitAnd => x & y, BinOp::BitOr => x | y, _ => x ^ y },
        )),
        (ValueV::I128(x), ValueV::I128(y)) => Ok(ValueV::I128(
            match op { BinOp::BitAnd => x & y, BinOp::BitOr => x | y, _ => x ^ y },
        )),
        (ValueV::U8(x), ValueV::U8(y)) => Ok(ValueV::U8(
            match op { BinOp::BitAnd => x & y, BinOp::BitOr => x | y, _ => x ^ y },
        )),
        (ValueV::U32(x), ValueV::U32(y)) => Ok(ValueV::U32(
            match op { BinOp::BitAnd => x & y, BinOp::BitOr => x | y, _ => x ^ y },
        )),
        (ValueV::U128(x), ValueV::U128(y)) => Ok(ValueV::U128(
            match op { BinOp::BitAnd => x & y, BinOp::BitOr => x | y, _ => x ^ y },
        )),
        _ => Err(Fault::ArithmeticMismatch),
    }
}

/// `<<` (when `left`) or `>>` on two values of one integer type: Rust's
/// wrapping shifts, the amount taken `as u32`.
pub open spec fn shift_spec(left: bool, a: ValueV, b: ValueV) -> Result<ValueV, Fault> {
    match (a, b) {
        (ValueV::I32(x), ValueV::I32(y)) => Ok(ValueV::I32(
            if left { x.wrapping_shl(y as u32) } else { x.wrapping_shr(y as u32) },
        )),
        (ValueV::I128(x), ValueV::I128(y)) => Ok(ValueV::I128(
            if left { x.wrapping_shl(y as u32) } else { x.wrapping_shr(y as u32) },
        )),
        (ValueV::U8(x), ValueV::U8(y)) => Ok(ValueV::U8(
            if left { x.wrapping_shl(y as u32) } else { x.wrapping_shr(y as u32) },
        )),
        (ValueV::U32(x), ValueV::U32(y)) => Ok(ValueV::U32(
            if left { x.wrapping_shl(y) } else { x.wrapping_shr(y) },
        )),
        (ValueV::U128(x), ValueV::U128(y)) => Ok(ValueV::U128(
            if left { x.wrapping_shl(y as u32) } else { x.wrapping_shr(y as u32) },
        )),
        _ => Err(if left { Fault::ShiftLeftMismatch } else { Fault::ShiftRightMismatch }),
    }
}

/// `==` (when `eq`) or `!=` on two values of one type among the integers,
/// `Bool` and `String`; `None` for two floats of one width.
pub open spec fn equality_spec(eq: bool, a: ValueV, b: ValueV) -> Option<Result<ValueV, Fault>> {
    let same = match (a, b) {
        (ValueV::I32(x), ValueV::I32(y)) => Some(x == y),
        (ValueV::I128(x), ValueV::I128(y)) => Some(x == y),
        (ValueV::U8(x), ValueV::U8(y)) => Some(x == y),
        (ValueV::U32(x), ValueV::U32(y)) => Some(x == y),
        (ValueV::U128(x), ValueV::U128(y)) => Some(x == y),
        (ValueV::Bool(x), ValueV::Bool(y)) => Some(x == y),
        (ValueV::Str(x), ValueV::Str(y)) => Some(x == y),
        _ => None,
    };
    match same {
        Some(s) => Some(Ok(ValueV::Bool(if eq { s } else { !s }))),
        None => if (a is F32 && b is F32) || (a is F64 && b is F64) {
            None
        } else {
            Some(Err(Fault::ComparisonMismatch))
        },
    }
}

/// Does `x op y` hold, for an ordering operator?
pub open spec fn ordered(op: BinOp, x: int, y: int) -> bool {
    match op {
        BinOp::Lt => x < y,
        BinOp::Le => x <= y,
        BinOp::Gt => x > y,
        _ => x >= y,
    }
}

/// `< <= > >=` on two strings, in the lexicographic order of their
/// characters ([`seq_lt`]).
pub open spec fn str_ordered(op: BinOp, x: Seq<char>, y: Seq<char>) -> bool {
    match op {
        BinOp::Lt => seq_lt(x, y),
        BinOp::Le => seq_lt(x, y) || x == y,
        BinOp::Gt => seq_lt(y, x),
        _ => seq_lt(y, x) || x == y,
    }
}

/// `< <= > >=` on two values of one integer type or on two strings; `None`
/// for two floats of one width.
pub open spec fn ordering_spec(op: BinOp, a: ValueV, b: ValueV) -> Option<Result<ValueV, Fault>> {
    match (a, b) {
        (ValueV::Str(x), ValueV::Str(y)) => Some(Ok(ValueV::Bool(str_ordered(op, x, y)))),
        (ValueV::I32(x), ValueV::I32(y)) => Some(Ok(ValueV::Bool(ordered(op, x as int, y as int)))),
        (ValueV::I128(x), ValueV::I128(y)) => Some(Ok(ValueV::Bool(ordered(op, x as int, y as int)))),
        (ValueV::U8(x), ValueV::U8(y)) => Some(Ok(ValueV::Bool(ordered(op, x as int, y as int)))),
        (ValueV::U32(x), ValueV::U32(y)) => Some(Ok(ValueV::Bool(ordered(op, x as int, y as int)))),
        (ValueV::U128(x), ValueV::U128(y)) => Some(Ok(ValueV::Bool(ordered(op, x as int, y as int)))),
        (ValueV::F32(_), ValueV::F32(_)) => None,
        (ValueV::F64(_), ValueV::F64(_)) => None,
        _ => Some(Err(Fault::ComparisonMismatch)),
    }
}

/// The meaning of every binary operator: `Some(Ok(v))` for a result,
/// `Some(Err(f))` where the operator cannot be applied, `None` where the outcome is
/// floating-point arithmetic.
pub open spec fn binary_spec(op: BinOp, a: ValueV, b: ValueV) -> Option<Result<ValueV, Fault>> {
    match op {
        BinOp::Add | BinOp::Sub | BinOp::Mul | BinOp::Div | BinOp::Rem => arith_spec(op, a, b),
        BinOp::Eq => equality_spec(true, a, b),
        BinOp::Ne => equality_spec(false, a, b),
        BinOp::Lt | BinOp::Le | BinOp::Gt | BinOp::Ge => ordering_spec(op, a, b),
        BinOp::And => Some(
            match (a, b) {
                (ValueV::Bool(x), ValueV::Bool(y)) => Ok(ValueV::Bool(x && y)),
                _ => Err(Fault::LogicalAndMismatch),
            },
        ),
        BinOp::Or => Some(
            match (a, b) {
                (ValueV::Bool(x), ValueV::Bool(y)) => Ok(ValueV::Bool(x || y)),
                _ => Err(Fault::LogicalOrMismatch),
            },
        ),
        BinOp::BitAnd | BinOp::BitOr | BinOp::BitXor => Some(bitwise_spec(op, a, b)),
        BinOp::Shl => Some(shift_spec(true, a, b)),
        BinOp::Shr => Some(shift_spec(false, a, b)),
    }
}

/// The meaning of every unary operator, as [`binary_spec`]. Negating a
/// float flips its sign bit, as IEEE-754 negation does.
pub open spec fn unary_spec(op: UnOp, a: ValueV) -> Option<Result<ValueV, Fault>> {
    match op {
        UnOp::Neg => match a {
            ValueV::I32(x) => Some(lift_i32(0i32.checked_sub(x), Fault::NegOverflow)),
            ValueV::I128(x) => Some(lift_i128(0i128.checked_sub(x), Fault::NegOverflow)),
            ValueV::F32(b) => Some(Ok(ValueV::F32(b ^ 0x8000_0000u32))),
            ValueV::F64(b) => Some(Ok(ValueV::F64(b ^ 0x8000_0000_0000_0000u64))),
            _ => Some(Err(Fault::NegationMismatch)),
        },
        UnOp::Not => match a {
            ValueV::Bool(b) => Some(Ok(ValueV::Bool(!b))),
            _ => Some(Err(Fault::LogicalNotMismatch)),
        },
        UnOp::BitNot => match a {
            ValueV::I32(x) => Some(Ok(ValueV::I32((-1 - x) as i32))),
            ValueV::I128(x) => Some(Ok(ValueV::I128((-1 - x) as i128))),
            ValueV::U8(x) => Some(Ok(ValueV::U8(!x))),
            ValueV::U32(x) => Some(Ok(ValueV::U32(!x))),
            ValueV::U128(x) => Some(Ok(ValueV::U128(!x))),
            _ => Some(Err(Fault::BitwiseNotMismatch)),
        },
    }
}

/// `r` is what `spec` describes, read back through views.
pub open spec fn matches_outcome(r: Option<Result<Value, Fault>>, spec: Option<Result<ValueV, Fault>>) -> bool {
    match spec {
        Some(Ok(v)) => r matches Some(Ok(x)) && x@ == v,
        Some(Err(f)) => r == Some(Err::<Value, Fault>(f)),
        None => r is None,
    }
}

/// Applies an arithmetic operator to two integers of one type.
fn arith_value(op: BinOp, a: &Value, b: &Value) -> (r: Option<Result<Value, Fault>>)
    requires
        op is Add || op is Sub || op is Mul || op is Div || op is Rem,
    ensures
        matches_outcome(r, arith_spec(op, a@, b@)),
{
    match (a, b) {
        (Value::I32(x), Value::I32(y)) => {
            let (x, y) = (*x, *y);
            Some(match op {
                BinOp::Add => match x.checked_add(y) { Some(v) => Ok(Value::I32(v)), None => Err(Fault::AddOverflow) },
                BinOp::Sub => match x.checked_sub(y) { Some(v) => Ok(Value::I32(v)), None => Err(Fault::SubOverflow) },
                BinOp::Mul => match x.checked_mul(y) { Some(v) => Ok(Value::I32(v)), None => Err(Fault::MulOverflow) },
                BinOp::Div => if y == 0 { Err(Fault::DivByZero) } else {
                    match x.checked_div(y) { Some(v) => Ok(Value::I32(v)), None => Err(Fault::DivOverflow) }
                },
                _ => if y == 0 { Err(Fault::RemByZero) } else {
                    match x.checked_rem(y) { Some(v) => Ok(Value::I32(v)), None => Err(Fault::RemOverflow) }
                },
            })
        },
        (Value::I128(x), Value::I128(y)) => {
            let (x, y) = (*x, *y);
            Some(match op {
                BinOp::Add => match x.checked_add(y) { Some(v) => Ok(Value::I128(v)), None => Err(Fault::AddOverflow) },
                BinOp::Sub => match x.checked_sub(y) { Some(v) => Ok(Value::I128(v)), None => Err(Fault::SubOverflow) },
                BinOp::Mul => match x.checked_mul(y) { Some(v) => Ok(Value::I128(v)), None => Err(Fault::MulOverflow) },
                BinOp::Div => if y == 0 { Err(Fault::DivByZero) } else {
                    match x.checked_div(y) { Some(v) => Ok(Value::I128(v)), None => Err(Fault::DivOverflow) }
                },
                _ => if y == 0 { Err(Fault::RemByZero) } else {
                    match x.checked_rem(y) { Some(v) => Ok(Value::I128(v)), None => Err(Fault::RemOverflow) }
                },
            })
        },
        (Value::U8(x), Value::U8(y)) => {
            let (x, y) = (*x, *y);
            Some(match op {
                BinOp::Add => match x.checked_add(y) { Some(v) => Ok(Value::U8(v)), None => Err(Fault::AddOverflow) },
                BinOp::Sub => match x.checked_sub(y) { Some(v) => Ok(Value::U8(v)), None => Err(Fault::SubOverflow) },
                BinOp::Mul => match x.checked_mul(y) { Some(v) => Ok(Value::U8(v)), None => Err(Fault::MulOverflow) },
                BinOp::Div => if y == 0 { Err(Fault::DivByZero) } else { Ok(Value::U8(x / y)) },
                _ => if y == 0 { Err(Fault::RemByZero) } else { Ok(Value::U8(x % y)) },
            })
        },
        (Value::U32(x), Value::U32(y)) => {
            let (x, y) = (*x, *y);
            Some(match op {
                BinOp::Add => match x.checked_add(y) { Some(v) => Ok(Value::U32(v)), None => Err(Fault::AddOverflow) },
                BinOp::Sub => match x.checked_sub(y) { Some(v) => Ok(Value::U32(v)), None => Err(Fault::SubOverflow) },
                BinOp::Mul => match x.checked_mul(y) { Some(v) => Ok(Value::U32(v)), None => Err(Fault::MulOverflow) },
                BinOp::Div => if y == 0 { Err(Fault::DivByZero) } else { Ok(Value::U32(x / y)) },
                _ => if y == 0 { Err(Fault::RemByZero) } else { Ok(Value::U32(x % y)) },
            })
        },
        (Value::U128(x), Value::U128(y)) => {
            let (x, y) = (*x, *y);
            Some(match op {
                BinOp::Add => match x.checked_add(y) { Some(v) => Ok(Value::U128(v)), None => Err(Fault::AddOverflow) },
                BinOp::Sub => match x.checked_sub(y) { Some(v) => Ok(Value::U128(v)), None => Err(Fault::SubOverflow) },
                BinOp::Mul => match x.checked_mul(y) { Some(v) => Ok(Value::U128(v)), None => Err(Fault::MulOverflow) },
                BinOp::Div => if y == 0 { Err(Fault::DivByZero) } else { Ok(Value::U128(x / y)) },
                _ => if y == 0 { Err(Fault::RemByZero) } else { Ok(Value::U128(x % y)) },
            })
        },
        (Value::F32(_), Value::F32(_)) => None,
        (Value::F64(_), Value::F64(_)) => None,
        _ => Some(Err(Fault::ArithmeticMismatch)),
    }
}

fn bitwise_value(op: BinOp, a: &Value, b: &Value) -> (r: Result<Value, Fault>)
    requires
        op is BitAnd || op is BitOr || op is BitXor,
    ensures
        matches_outcome(Some(r), Some(bitwise_spec(op, a@, b@))),
{
    match (a, b) {
        (Value::I32(x), Value::I32(y)) => Ok(Value::I32(
            match op { BinOp::BitAnd => *x & *y, BinOp::BitOr => *x | *y, _ => *x ^ *y },
        )),
        (Value::I128(x), Value::I128(y)) => Ok(Value::I128(
            match op { BinOp::BitAnd => *x & *y, BinOp::BitOr => *x | *y, _ => *x ^ *y },
        )),
        (Value::U8(x), Value::U8(y)) => Ok(Value::U8(
            match op { BinOp::BitAnd => *x & *y, BinOp::BitOr => *x | *y, _ => *x ^ *y },
        )),
        (Value::U32(x), Value::U32(y)) => Ok(Value::U32(
            match op { BinOp::BitAnd => *x & *y, BinOp::BitOr => *x | *y, _ => *x ^ *y },
        )),
        (Value::U128(x), Value::U128(y)) => Ok(Value::U128(
            match op { BinOp::BitAnd => *x & *y, BinOp::BitOr => *x | *y, _ => *x ^ *y },
        )),
        _ => Err(Fault::ArithmeticMismatch),
    }
}

fn shift_value(left: bool, a: &Value, b: &Value) -> (r: Result<Value, Fault>)
    ensures
        matches_outcome(Some(r), Some(shift_spec(left, a@, b@))),
{
    match (a, b) {
        (Value::I32(x), Value::I32(y)) => Ok(Value::I32(
            if left { x.wrapping_shl(*y as u32) } else { x.wrapping_shr(*y as u32) },
        )),
        (Value::I128(x), Value::I128(y)) => Ok(Value::I128(
            if left { x.wrapping_shl(*y as u32) } else { x.wrapping_shr(*y as u32) },
        )),
        (Value::U8(x), Value::U8(y)) => Ok(Value::U8(
            if left { x.wrapping_shl(*y as u32) } else { x.wrapping_shr(*y as u32) },
        )),
        (Value::U32(x), Value::U32(y)) => Ok(Value::U32(
            if left { x.wrapping_shl(*y) } else { x.wrapping_shr(*y) },
        )),
        (Value::U128(x), Value::U128(y)) => Ok(Value::U128(
            if left { x.wrapping_shl(*y as u32) } else { x.wrapping_shr(*y as u32) },
        )),
        _ => Err(if left { Fault::ShiftLeftMismatch } else { Fault::ShiftRightMismatch }),
    }
}

fn equality_value(eq: bool, a: &Value, b: &Value) -> (r: Option<Result<Value, Fault>>)
    ensures
        matches_outcome(r, equality_spec(eq, a@, b@)),
{
    let same: Option<bool> = match (a, b) {
        (Value::I32(x), Value::I32(y)) => Some(*x == *y),
        (Value::I128(x), Value::I128(y)) => Some(*x == *y),
        (Value::U8(x), Value::U8(y)) => Some(*x == *y),
        (Value::U32(x), Value::U32(y)) => Some(*x == *y),
        (Value::U128(x), Value::U128(y)) => Some(*x == *y),
        (Value::Bool(x), Value::Bool(y)) => Some(*x == *y),
        (Value::String(x), Value::String(y)) => Some(x.eq(y)),
        _ => None,
    };
    match same {
        Some(s) => Some(Ok(Value::Bool(if eq { s } else { !s }))),
        None => match (a, b) {
            (Value::F32(_), Value::F32(_)) => None,
            (Value::F64(_), Value::F64(_)) => None,
            _ => Some(Err(Fault::ComparisonMismatch)),
        },
    }
}

fn ordering_value(op: BinOp, a: &Value, b: &Value) -> (r: Option<Result<Value, Fault>>)
    requires
        op is Lt || op is Le || op is Gt || op is Ge,
    ensures
        matches_outcome(r, ordering_spec(op, a@, b@)),
{
    match (a, b) {
        (Value::I32(x), Value::I32(y)) => Some(Ok(Value::Bool(match op {
            BinOp::Lt => *x < *y, BinOp::Le => *x <= *y, BinOp::Gt => *x > *y, _ => *x >= *y,
        }))),
        (Value::I128(x), Value::I128(y)) => Some(Ok(Value::Bool(match op {
            BinOp::Lt => *x < *y, BinOp::Le => *x <= *y, BinOp::Gt => *x > *y, _ => *x >= *y,
        }))),
        (Value::U8(x), Value::U8(y)) => Some(Ok(Value::Bool(match op {
            BinOp::Lt => *x < *y, BinOp::Le => *x <= *y, BinOp::Gt => *x > *y, _ => *x >= *y,
        }))),
        (Value::U32(x), Value::U32(y)) => Some(Ok(Value::Bool(match op {
            BinOp::Lt => *x < *y, BinOp::Le => *x <= *y, BinOp::Gt => *x > *y, _ => *x >= *y,
        }))),
        (Value::U128(x), Value::U128(y)) => Some(Ok(Value::Bool(match op {
            BinOp::Lt => *x < *y, BinOp::Le => *x <= *y, BinOp::Gt => *x > *y, _ => *x >= *y,
        }))),
        (Value::String(x), Value::String(y)) => Some(Ok(Value::Bool(match op {
            BinOp::Lt => str_lt(x.as_str(), y.as_str()),
            BinOp::Le => str_lt(x.as_str(), y.as_str()) || str_eq(x.as_str(), y.as_str()),
            BinOp::Gt => str_lt(y.as_str(), x.as_str()),
            _ => str_lt(y.as_str(), x.as_str()) || str_eq(x.as_str(), y.as_str()),
        }))),
        (Value::F32(_), Value::F32(_)) => None,
        (Value::F64(_), Value::F64(_)) => None,
        _ => Some(Err(Fault::ComparisonMismatch)),
    }
}

/// Applies a binary operator. `None` exactly where both operands are floats
/// of one width and the operator is not logical, bitwise or a shift.
pub fn binary_value(op: BinOp, a: &Value, b: &Value) -> (r: Option<Result<Value, Fault>>)
    ensures
        matches_outcome(r, binary_spec(op, a@, b@)),
{
    match op {
        BinOp::Add | BinOp::Sub | BinOp::Mul | BinOp::Div | BinOp::Rem => arith_value(op, a, b),
        BinOp::Eq => equality_value(true, a, b),
        BinOp::Ne => equality_value(false, a, b),
        BinOp::Lt | BinOp::Le | BinOp::Gt | BinOp::Ge => ordering_value(op, a, b),
        BinOp::And => Some(match (a, b) {
            (Value::Bool(x), Value::Bool(y)) => Ok(Value::Bool(*x && *y)),
            _ => Err(Fault::LogicalAndMismatch),
        }),
        BinOp::Or => Some(match (a, b) {
            (Value::Bool(x), Value::Bool(y)) => Ok(Value::Bool(*x || *y)),
            _ => Err(Fault::LogicalOrMismatch),
        }),
        BinOp::BitAnd | BinOp::BitOr | BinOp::BitXor => Some(bitwise_value(op, a, b)),
        BinOp::Shl => Some(shift_value(true, a, b)),
        BinOp::Shr => Some(shift_value(false, a, b)),
    }
}

/// Applies a unary operator, as [`binary_value`].
pub fn unary_value(op: UnOp, a: &Value) -> (r: Option<Result<Value, Fault>>)
    ensures
        matches_outcome(r, unary_spec(op, a@)),
{
    match op {
        UnOp::Neg => match a {
            Value::I32(x) => Some(match 0i32.checked_sub(*x) {
                Some(v) => Ok(Value::I32(v)),
                None => Err(Fault::NegOverflow),
            }),
            Value::I128(x) => Some(match 0i128.checked_sub(*x) {
                Some(v) => Ok(Value::I128(v)),
                None => Err(Fault::NegOverflow),
            }),
            Value::F32(b) => Some(Ok(Value::F32(*b ^ 0x8000_0000u32))),
            Value::F64(b) => Some(Ok(Value::F64(*b ^ 0x8000_0000_0000_0000u64))),
            _ => Some(Err(Fault::NegationMismatch)),
        },
        UnOp::Not => match a {
            Value::Bool(b) => Some(Ok(Value::Bool(!*b))),
            _ => Some(Err(Fault::LogicalNotMismatch)),
        },
        UnOp::BitNot => match a {
            Value::I32(x) => {
                let y = *x;
                assert(!y == -1 - y) by (bit_vector);
                Some(Ok(Value::I32(!y)))
            },
            Value::I128(x) => {
                let y = *x;
                assert(!y == -1 - y) by (bit_vector);
                Some(Ok(Value::I128(!y)))
            },
            Value::U8(x) => Some(Ok(Value::U8(!*x))),
            Value::U32(x) => Some(Ok(Value::U32(!*x))),
            Value::U128(x) => Some(Ok(Value::U128(!*x))),
            _ => Some(Err(Fault::BitwiseNotMismatch)),
        },
    }
}

/// The operator applies to these operands without a fault and without
/// floating-point arithmetic.
pub open spec fn binary_defined(op: BinOp, a: ValueV, b: ValueV) -> bool {
    binary_spec(op, a, b) matches Some(Ok(_))
}

/// The value `binary_spec` gives, where it gives one.
pub open spec fn binary_result(op: BinOp, a: ValueV, b: ValueV) -> ValueV {
    binary_spec(op, a, b)->Some_0->Ok_0
}

/// See [`binary_defined`].
pub open spec fn unary_defined(op: UnOp, a: ValueV) -> bool {
    unary_spec(op, a) matches Some(Ok(_))
}

pub open spec fn unary_result(op: UnOp, a: ValueV) -> ValueV {
    unary_spec(op, a)->Some_0->Ok_0
}

impl Value {
    fn apply(&self, op: BinOp, rhs: &Value) -> (r: Value)
        requires
            binary_defined(op, self@, rhs@),
        ensures
            r@ == binary_result(op, self@, rhs@),
    {
        match binary_value(op, self, rhs) {
            Some(Ok(v)) => v,
            _ => { proof { assert(false); } Value::Nil },
        }
    }

    fn apply_unary(&self, op: UnOp) -> (r: Value)
        requires
            unary_defined(op, self@),
        ensures
            r@ == unary_result(op, self@),
    {
        match unary_value(op, self) {
            Some(Ok(v)) => v,
            _ => { proof { assert(false); } Value::Nil },
        }
    }

    /// `+` on two values of one integer type, without overflow.
    pub fn add_val(&self, rhs: &Value) -> (r: Value)
        requires binary_defined(BinOp::Add, self@, rhs@),
        ensures r@ == binary_result(BinOp::Add, self@, rhs@),
    {
        self.apply(BinOp::Add, rhs)
    }

    /// `-` on two values of one integer type, without overflow.
    pub fn sub_val(&self, rhs: &Value) -> (r: Value)
        requires binary_defined(BinOp::Sub, self@, rhs@),
        ensures r@ == binary_result(BinOp::Sub, self@, rhs@),
    {
        self.apply(BinOp::Sub, rhs)
    }

    /// `*` on two values of one integer type, without overflow.
    pub fn mul_val(&self, rhs: &Value) -> (r: Value)
        requires binary_defined(BinOp::Mul, self@, rhs@),
        ensures r@ == binary_result(BinOp::Mul, self@, rhs@),
    {
        self.apply(BinOp::Mul, rhs)
    }

    /// `/` (truncating) on two values of one integer type.
    pub fn div_val(&self, rhs: &Value) -> (r: Value)
        requires binary_defined(BinOp::Div, self@, rhs@),
        ensures r@ == binary_result(BinOp::Div, self@, rhs@),
    {
        self.apply(BinOp::Div, rhs)
    }

    /// `%` (truncating) on two values of one integer type.
    pub fn rem_val(&self, rhs: &Value) -> (r: Value)
        requires binary_defined(BinOp::Rem, self@, rhs@),
        ensures r@ == binary_result(BinOp::Rem, self@, rhs@),
    {
        self.apply(BinOp::Rem, rhs)
    }

    /// `&` on two values of one integer type.
    pub fn bitand_val(&self, rhs: &Value) -> (r: Value)
        requires binary_defined(BinOp::BitAnd, self@, rhs@),
        ensures r@ == binary_result(BinOp::BitAnd, self@, rhs@),
    {
        self.apply(BinOp::BitAnd, rhs)
    }

    /// `|` on two values of one integer type.
    pub fn bitor_val(&self, rhs: &Value) -> (r: Value)
        requires binary_defined(BinOp::BitOr, self@, rhs@),
        ensures r@ == binary_result(BinOp::BitOr, self@, rhs@),
    {
        self.apply(BinOp::BitOr, rhs)
    }

    /// `^` on two values of one integer type.
    pub fn bitxor_val(&self, rhs: &Value) -> (r: Value)
        requires binary_defined(BinOp::BitXor, self@, rhs@),
        ensures r@ == binary_result(BinOp::BitXor, self@, rhs@),
    {
        self.apply(BinOp::BitXor, rhs)
    }

    /// Wrapping `<<` on two values of one integer type.
    pub fn shl_val(&self, rhs: &Value) -> (r: Value)
        requires binary_defined(BinOp::Shl, self@, rhs@),
        ensures r@ == binary_result(BinOp::Shl, self@, rhs@),
    {
        self.apply(BinOp::Shl, rhs)
    }

    /// Wrapping `>>` on two values of one integer type.
    pub fn shr_val(&self, rhs: &Value) -> (r: Value)
        requires binary_defined(BinOp::Shr, self@, rhs@),
        ensures r@ == binary_result(BinOp::Shr, self@, rhs@),
    {
        self.apply(BinOp::Shr, rhs)
    }

    /// Negation of a signed integer (without overflow) or of a float.
    pub fn neg_val(&self) -> (r: Value)
        requires unary_defined(UnOp::Neg, self@),
        ensures r@ == unary_result(UnOp::Neg, self@),
    {
        self.apply_unary(UnOp::Neg)
    }

    /// Equality comparison. Returns `Value::Bool(true)` or `Value::Bool(false)`.
    pub fn eq_val(&self, rhs: &Value) -> (r: Value)
        requires binary_defined(BinOp::Eq, self@, rhs@),
        ensures r@ == binary_result(BinOp::Eq, self@, rhs@),
    {
        self.apply(BinOp::Eq, rhs)
    }

    /// Inequality comparison. Returns `Value::Bool(true)` or `Value::Bool(false)`.
    pub fn ne_val(&self, rhs: &Value) -> (r: Value)
        requires binary_defined(BinOp::Ne, self@, rhs@),
        ensures r@ == binary_result(BinOp::Ne, self@, rhs@),
    {
        self.apply(BinOp::Ne, rhs)
    }

    /// Less-than comparison. Returns `Value::Bool(true)` or `Value::Bool(false)`.
    pub fn lt_val(&self, rhs: &Value) -> (r: Value)
        requires binary_defined(BinOp::Lt, self@, rhs@),
        ensures r@ == binary_result(BinOp::Lt, self@, rhs@),
    {
        self.apply(BinOp::Lt, rhs)
    }

    /// Less-or-equal comparison. Returns `Value::Bool(true)` or `Value::Bool(false)`.
    pub fn le_val(&self, rhs: &Value) -> (r: Value)
        requires binary_defined(BinOp::Le, self@, rhs@),
        ensures r@ == binary_result(BinOp::Le, self@, rhs@),
    {
        self.apply(BinOp::Le, rhs)
    }

    /// Greater-than comparison. Returns `Value::Bool(true)` or `Value::Bool(false)`.
    pub fn gt_val(&self, rhs: &Value) -> (r: Value)
        requires binary_defined(BinOp::Gt, self@, rhs@),
        ensures r@ == binary_result(BinOp::Gt, self@, rhs@),
    {
        self.apply(BinOp::Gt, rhs)
    }

    /// Greater-or-equal comparison. Returns `Value::Bool(true)` or `Value::Bool(false)`.
    pub fn ge_val(&self, rhs: &Value) -> (r: Value)
        requires binary_defined(BinOp::Ge, self@, rhs@),
        ensures r@ == binary_result(BinOp::Ge, self@, rhs@),
    {
        self.apply(BinOp::Ge, rhs)
    }

    /// Logical NOT (`!`) of a `Bool`.
    pub fn logical_not(&self) -> (r: Value)
        requires unary_defined(UnOp::Not, self@),
        ensures r@ == unary_result(UnOp::Not, self@),
    {
        self.apply_unary(UnOp::Not)
    }

    /// Bitwise NOT (`~`) of an integer.
    pub fn bitwise_not(&self) -> (r: Value)
        requires unary_defined(UnOp::BitNot, self@),
        ensures r@ == unary_result(UnOp::BitNot, self@),
    {
        self.apply_unary(UnOp::BitNot)
    }

    /// Logical AND (`&&`) of two `Bool`s; both sides are always evaluated.
    pub fn and_val(&self, rhs: &Value) -> (r: Value)
        requires binary_defined(BinOp::And, self@, rhs@),
        ensures r@ == binary_result(BinOp::And, self@, rhs@),
    {
        self.apply(BinOp::And, rhs)
    }

    /// Logical OR (`||`) of two `Bool`s; both sides are always evaluated.
    pub fn or_val(&self, rhs: &Value) -> (r: Value)
        requires binary_defined(BinOp::Or, self@, rhs@),
        ensures r@ == binary_result(BinOp::Or, self@, rhs@),
    {
        self.apply(BinOp::Or, rhs)
    }
}

// ── Object fields ───────────────────────────────────────────────────

/// Lexicographic order on character sequences, as `str`'s ordering (and
/// so a `BTreeMap` with `String` keys) has it.
pub open spec fn seq_lt(a: Seq<char>, b: Seq<char>) -> bool
    decreases a.len(),
{
    if a.len() == 0 {
        b.len() > 0
    } else if b.len() == 0 {
        false
    } else if a[0] != b[0] {
        (a[0] as int) < (b[0] as int)
    } else {
        seq_lt(a.skip(1), b.skip(1))
    }
}

/// The value of the first field named `k`.
pub open spec fn field_lookup(fs: Seq<(Seq<char>, ValueV)>, k: Seq<char>) -> Option<ValueV>
    decreases fs.len(),
{
    if fs.len() == 0 {
        None
    } else if fs[0].0 == k {
        Some(fs[0].1)
    } else {
        field_lookup(fs.skip(1), k)
    }
}

/// The fields with `k` bound to `v`: an existing field is replaced, a new
/// one goes before the first name that orders after it.
pub open spec fn sorted_insert(fs: Seq<(Seq<char>, ValueV)>, k: Seq<char>, v: ValueV) -> Seq<(Seq<char>, ValueV)>
    decreases fs.len(),
{
    if fs.len() == 0 {
        seq![(k, v)]
    } else if fs[0].0 == k {
        seq![(k, v)] + fs.skip(1)
    } else if seq_lt(k, fs[0].0) {
        seq![(k, v)] + fs
    } else {
        seq![fs[0]] + sorted_insert(fs.skip(1), k, v)
    }
}

/// Field names in strictly increasing order.
pub open spec fn fields_sorted(fs: Seq<(Seq<char>, ValueV)>) -> bool {
    forall|i: int, j: int| 0 <= i < j < fs.len() ==> seq_lt(#[trigger] fs[i].0, #[trigger] fs[j].0)
}

pub proof fn lemma_fields_view_index(s: Seq<(String, Value)>, i: int)
    requires
        0 <= i < s.len(),
    ensures
        fields_view(s).len() == s.len(),
        fields_view(s)[i] == (s[i].0@, s[i].1@),
    decreases s.len(),
{
    lemma_fields_view_len(s);
    if i < s.len() - 1 {
        lemma_fields_view_index(s.drop_last(), i);
    }
}

pub proof fn lemma_fields_view_len(s: Seq<(String, Value)>)
    ensures
        fields_view(s).len() == s.len(),
    decreases s.len(),
{
    if s.len() > 0 {
        lemma_fields_view_len(s.drop_last());
    }
}

/// `a < b` in the order of [`seq_lt`].
pub fn str_lt(a: &str, b: &str) -> (r: bool)
    ensures
        r == seq_lt(a@, b@),
{
    let n = a.unicode_len();
    let m = b.unicode_len();
    let mut i: usize = 0;
    proof {
        assert(a@.skip(0) =~= a@);
        assert(b@.skip(0) =~= b@);
    }
    while i < n && i < m
        invariant
            n == a@.len(),
            m == b@.len(),
            i <= n,
            i <= m,
            seq_lt(a@, b@) == seq_lt(a@.skip(i as int), b@.skip(i as int)),
        decreases n - i,
    {
        let x = a.get_char(i);
        let y = b.get_char(i);
        proof {
            assert(a@.skip(i as int)[0] == x);
            assert(b@.skip(i as int)[0] == y);
            assert(a@.skip(i as int).skip(1) =~= a@.skip(i + 1));
            assert(b@.skip(i as int).skip(1) =~= b@.skip(i + 1));
        }
        if x != y {
            return (x as u32) < (y as u32);
        }
        i += 1;
    }
    i == n && i < m
}

/// `a == b` on their characters.
pub fn str_eq(a: &str, b: &str) -> (r: bool)
    ensures
        r == (a@ == b@),
{
    let n = a.unicode_len();
    if n != b.unicode_len() {
        return false;
    }
    let mut i: usize = 0;
    while i < n
        invariant
            n == a@.len(),
            n == b@.len(),
            i <= n,
            forall|k: int| 0 <= k < i ==> a@[k] == b@[k],
        decreases n - i,
    {
        if a.get_char(i) != b.get_char(i) {
            return false;
        }
        i += 1;
    }
    assert(a@ =~= b@);
    true
}

impl Instance {
    /// The fields are ordered by name, each name once.
    pub open spec fn wf(&self) -> bool {
        fields_sorted(fields_view(self.fields@))
    }

    /// The value of the field `name`, if the object has one.
    pub fn get_field(&self, name: &str) -> (r: Option<&Value>)
        ensures
            match field_lookup(fields_view(self.fields@), name@) {
                Some(v) => r matches Some(x) && x@ == v,
                None => r is None,
            },
    {
        let ghost all = fields_view(self.fields@);
        proof { lemma_fields_view_len(self.fields@); assert(all.skip(0) =~= all); }
        let mut i: usize = 0;
        while i < self.fields.len()
            invariant
                i <= self.fields@.len(),
                all == fields_view(self.fields@),
                all.len() == self.fields@.len(),
                field_lookup(all, name@) == field_lookup(all.skip(i as int), name@),
            decreases self.fields@.len() - i,
        {
            proof {
                lemma_fields_view_index(self.fields@, i as int);
                assert(all.skip(i as int)[0] == all[i as int]);
                assert(all.skip(i as int).skip(1) =~= all.skip(i + 1));
            }
            if str_eq(self.fields[i].0.as_str(), name) {
                return Some(&self.fields[i].1);
            }
            i += 1;
        }
        None
    }

    /// Binds the field `name` to `v`, keeping the fields ordered by name.
    pub fn set_field(&mut self, name: String, v: Value)
        ensures
            final(self).class@ == old(self).class@,
            fields_view(final(self).fields@) == sorted_insert(fields_view(old(self).fields@), name@, v@),
            old(self).wf() ==> final(self).wf(),
    {
        proof {
            if self.wf() {
                lemma_insert_keeps_sorted(fields_view(self.fields@), name@, v@);
            }
        }
        let ghost all = fields_view(self.fields@);
        let ghost kv = name@;
        let ghost vv = v@;
        proof {
            lemma_fields_view_len(self.fields@);
            assert(all.skip(0) =~= all);
            assert(all.take(0) + sorted_insert(all, kv, vv) =~= sorted_insert(all, kv, vv));
        }
        let mut i: usize = 0;
        while i < self.fields.len()
            invariant
                i <= self.fields@.len(),
                all == fields_view(self.fields@),
                all.len() == self.fields@.len(),
                self.class@ == old(self).class@,
                all == fields_view(old(self).fields@),
                kv == name@,
                vv == v@,
                sorted_insert(all, kv, vv) == all.take(i as int) + sorted_insert(all.skip(i as int), kv, vv),
                old(self).wf() ==> fields_sorted(sorted_insert(all, kv, vv)),
            decreases self.fields@.len() - i,
        {
            proof {
                lemma_fields_view_index(self.fields@, i as int);
                assert(all.skip(i as int)[0] == all[i as int]);
                assert(all.skip(i as int).skip(1) =~= all.skip(i + 1));
            }
            let same = str_eq(self.fields[i].0.as_str(), name.as_str());
            if same {
                let ghost before = self.fields@;
                self.fields.set(i, (name, v));
                proof {
                    lemma_fields_view_len(self.fields@);
                    assert forall|j: int| 0 <= j < self.fields@.len() implies
                        fields_view(self.fields@)[j] == (all.take(i as int) + (seq![(kv, vv)] + all.skip(i + 1)))[j] by {
                        lemma_fields_view_index(self.fields@, j);
                        lemma_fields_view_index(before, j);
                    }
                    assert(fields_view(self.fields@) =~= all.take(i as int) + (seq![(kv, vv)] + all.skip(i + 1)));
                }
                return;
            }
            if str_lt(name.as_str(), self.fields[i].0.as_str()) {
                let ghost before = self.fields@;
                self.fields.insert(i, (name, v));
                proof {
                    lemma_fields_view_len(self.fields@);
                    assert forall|j: int| 0 <= j < self.fields@.len() implies
                        fields_view(self.fields@)[j] == (all.take(i as int) + (seq![(kv, vv)] + all.skip(i as int)))[j] by {
                        lemma_fields_view_index(self.fields@, j);
                        if j < i {
                            lemma_fields_view_index(before, j);
                        } else if j > i {
                            lemma_fields_view_index(before, j - 1);
                        }
                    }
                    assert(fields_view(self.fields@) =~= all.take(i as int) + (seq![(kv, vv)] + all.skip(i as int)));
                }
                return;
            }
            proof {
                assert(all.take(i as int) + (seq![all[i as int]] + sorted_insert(all.skip(i + 1), kv, vv))
                    =~= all.take(i + 1) + sorted_insert(all.skip(i + 1), kv, vv));
            }
            i += 1;
        }
        let ghost before = self.fields@;
        self.fields.push((name, v));
        proof {
            assert(self.fields@.drop_last() =~= before);
            assert(all.skip(i as int) =~= seq![]);
            assert(all.take(i as int) =~= all);
            assert(sorted_insert(all.skip(i as int), kv, vv) =~= seq![(kv, vv)]);
            assert(fields_view(self.fields@) =~= sorted_insert(all, kv, vv));
        }
    }
}

// ── Laws of the operators ───────────────────────────────────────────

/// `!=` is the negation of `==`: where `a == b` is defined, so is
/// `a != b`, and it gives the opposite `Bool`.
pub proof fn lemma_ne_is_not_eq(a: ValueV, b: ValueV)
    requires
        binary_defined(BinOp::Eq, a, b),
    ensures
        binary_defined(BinOp::Ne, a, b),
        binary_result(BinOp::Eq, a, b) matches ValueV::Bool(x)
            && binary_result(BinOp::Ne, a, b) == ValueV::Bool(!x),
{
}

/// `a < b` is `b > a`, and `a <= b` is `b >= a`.
pub proof fn lemma_ordering_swaps(a: ValueV, b: ValueV)
    requires
        binary_defined(BinOp::Lt, a, b),
    ensures
        binary_defined(BinOp::Gt, b, a),
        binary_result(BinOp::Lt, a, b) == binary_result(BinOp::Gt, b, a),
        binary_defined(BinOp::Le, a, b),
        binary_defined(BinOp::Ge, b, a),
        binary_result(BinOp::Le, a, b) == binary_result(BinOp::Ge, b, a),
{
}

/// Subtraction undoes an addition that did not overflow:
/// `(a + b) - b == a`.
pub proof fn lemma_sub_undoes_add(a: ValueV, b: ValueV)
    requires
        binary_defined(BinOp::Add, a, b),
    ensures
        binary_defined(BinOp::Sub, binary_result(BinOp::Add, a, b), b),
        binary_result(BinOp::Sub, binary_result(BinOp::Add, a, b), b) == a,
{
}

/// Logical NOT applied twice gives back the `Bool`.
pub proof fn lemma_not_not(a: ValueV)
    requires
        unary_defined(UnOp::Not, a),
    ensures
        unary_defined(UnOp::Not, unary_result(UnOp::Not, a)),
        unary_result(UnOp::Not, unary_result(UnOp::Not, a)) == a,
{
}

/// Bitwise NOT applied twice gives back the integer.
pub proof fn lemma_bitnot_bitnot(a: ValueV)
    requires
        unary_defined(UnOp::BitNot, a),
    ensures
        unary_defined(UnOp::BitNot, unary_result(UnOp::BitNot, a)),
        unary_result(UnOp::BitNot, unary_result(UnOp::BitNot, a)) == a,
{
    match a {
        ValueV::U8(x) => { assert(!(!x) == x) by (bit_vector); },
        ValueV::U32(x) => { assert(!(!x) == x) by (bit_vector); },
        ValueV::U128(x) => { assert(!(!x) == x) by (bit_vector); },
        _ => {},
    }
}

/// Negation applied twice gives back the value, where both negations are
/// defined (a float's sign bit flips back).
pub proof fn lemma_neg_neg(a: ValueV)
    requires
        unary_defined(UnOp::Neg, a),
        unary_defined(UnOp::Neg, unary_result(UnOp::Neg, a)),
    ensures
        unary_result(UnOp::Neg, unary_result(UnOp::Neg, a)) == a,
{
    match a {
        ValueV::F32(x) => { assert((x ^ 0x8000_0000u32) ^ 0x8000_0000u32 == x) by (bit_vector); },
        ValueV::F64(x) => { assert((x ^ 0x8000_0000_0000_0000u64) ^ 0x8000_0000_0000_0000u64 == x) by (bit_vector); },
        _ => {},
    }
}

/// After `k` is bound to `v`, looking `k` up gives `v`, and looking up
/// any other name gives what it gave before.
pub proof fn lemma_lookup_after_insert(fs: Seq<(Seq<char>, ValueV)>, k: Seq<char>, v: ValueV, other: Seq<char>)
    requires
        other != k,
    ensures
        field_lookup(sorted_insert(fs, k, v), k) == Some(v),
        field_lookup(sorted_insert(fs, k, v), other) == field_lookup(fs, other),
    decreases fs.len(),
{
    let r = sorted_insert(fs, k, v);
    if fs.len() == 0 {
        assert(r.skip(1) =~= seq![]);
        assert(field_lookup(r.skip(1), other) == None::<ValueV>);
        assert(field_lookup(r, other) == field_lookup(fs, other));
    } else if fs[0].0 == k {
        assert(r[0] == (k, v));
        assert(r.skip(1) =~= fs.skip(1));
        assert(field_lookup(r, other) == field_lookup(fs, other));
    } else if seq_lt(k, fs[0].0) {
        assert(r[0] == (k, v));
        assert(r.skip(1) =~= fs);
        assert(field_lookup(r, other) == field_lookup(fs, other));
    } else {
        lemma_lookup_after_insert(fs.skip(1), k, v, other);
        assert(r[0] == fs[0]);
        assert(r.skip(1) =~= sorted_insert(fs.skip(1), k, v));
        assert(field_lookup(r, other) == field_lookup(fs, other));
    }
}

proof fn lemma_seq_lt_transitive(a: Seq<char>, b: Seq<char>, c: Seq<char>)
    requires
        seq_lt(a, b),
        seq_lt(b, c),
    ensures
        seq_lt(a, c),
    decreases a.len(),
{
    if a.len() > 0 && b.len() > 0 && c.len() > 0 && a[0] == b[0] && b[0] == c[0] {
        lemma_seq_lt_transitive(a.skip(1), b.skip(1), c.skip(1));
    }
}

proof fn lemma_seq_lt_total(a: Seq<char>, b: Seq<char>)
    requires
        a != b,
    ensures
        seq_lt(a, b) || seq_lt(b, a),
    decreases a.len(),
{
    if a.len() > 0 && b.len() > 0 && a[0] == b[0] {
        if a.skip(1) == b.skip(1) {
            assert(a =~= seq![a[0]] + a.skip(1));
            assert(b =~= seq![b[0]] + b.skip(1));
        }
        lemma_seq_lt_total(a.skip(1), b.skip(1));
    } else if a.len() == 0 && b.len() == 0 {
        assert(a =~= b);
    }
}

/// Every name after `sorted_insert` orders after `lo` when `k` and every
/// name before it did.
proof fn lemma_insert_above(fs: Seq<(Seq<char>, ValueV)>, k: Seq<char>, v: ValueV, lo: Seq<char>)
    requires
        seq_lt(lo, k),
        forall|j: int| 0 <= j < fs.len() ==> seq_lt(lo, #[trigger] fs[j].0),
    ensures
        forall|i: int| 0 <= i < sorted_insert(fs, k, v).len() ==> seq_lt(lo, #[trigger] sorted_insert(fs, k, v)[i].0),
    decreases fs.len(),
{
    let r = sorted_insert(fs, k, v);
    if fs.len() == 0 {
    } else if fs[0].0 == k {
        assert forall|i: int| 0 <= i < r.len() implies seq_lt(lo, #[trigger] r[i].0) by {
            if i > 0 {
                assert(r[i] == fs[i]);
            }
        }
    } else if seq_lt(k, fs[0].0) {
        assert forall|i: int| 0 <= i < r.len() implies seq_lt(lo, #[trigger] r[i].0) by {
            if i > 0 {
                assert(r[i] == fs[i - 1]);
            }
        }
    } else {
        let rest = fs.skip(1);
        assert forall|j: int| 0 <= j < rest.len() implies seq_lt(lo, #[trigger] rest[j].0) by {
            assert(rest[j] == fs[j + 1]);
        }
        lemma_insert_above(rest, k, v, lo);
        assert forall|i: int| 0 <= i < r.len() implies seq_lt(lo, #[trigger] r[i].0) by {
            if i > 0 {
                assert(r[i] == sorted_insert(rest, k, v)[i - 1]);
            }
        }
    }
}

/// Binding a field keeps the fields ordered by name, each name once.
pub proof fn lemma_insert_keeps_sorted(fs: Seq<(Seq<char>, ValueV)>, k: Seq<char>, v: ValueV)
    requires
        fields_sorted(fs),
    ensures
        fields_sorted(sorted_insert(fs, k, v)),
    decreases fs.len(),
{
    let r = sorted_insert(fs, k, v);
    if fs.len() == 0 {
    } else if fs[0].0 == k {
        assert forall|i: int, j: int| 0 <= i < j < r.len() implies seq_lt(#[trigger] r[i].0, #[trigger] r[j].0) by {
            assert(r[j] == fs[j]);
            if i > 0 {
                assert(r[i] == fs[i]);
            }
        }
    } else if seq_lt(k, fs[0].0) {
        assert forall|i: int, j: int| 0 <= i < j < r.len() implies seq_lt(#[trigger] r[i].0, #[trigger] r[j].0) by {
            assert(r[j] == fs[j - 1]);
            if i > 0 {
                assert(r[i] == fs[i - 1]);
            } else if j - 1 > 0 {
                assert(seq_lt(fs[0].0, fs[j - 1].0));
                lemma_seq_lt_transitive(k, fs[0].0, fs[j - 1].0);
            }
        }
    } else {
        lemma_seq_lt_total(k, fs[0].0);
        let rest = fs.skip(1);
        assert forall|i: int, j: int| 0 <= i < j < rest.len() implies seq_lt(#[trigger] rest[i].0, #[trigger] rest[j].0) by {
            assert(rest[i] == fs[i + 1]);
            assert(rest[j] == fs[j + 1]);
        }
        lemma_insert_keeps_sorted(rest, k, v);
        assert forall|j: int| 0 <= j < rest.len() implies seq_lt(fs[0].0, #[trigger] rest[j].0) by {
            assert(rest[j] == fs[j + 1]);
        }
        lemma_insert_above(rest, k, v, fs[0].0);
        let ri = sorted_insert(rest, k, v);
        assert forall|i: int, j: int| 0 <= i < j < r.len() implies seq_lt(#[trigger] r[i].0, #[trigger] r[j].0) by {
            assert(r[j] == ri[j - 1]);
            if i > 0 {
                assert(r[i] == ri[i - 1]);
            }
        }
    }
}

} // verus!
