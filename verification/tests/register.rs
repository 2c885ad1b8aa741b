//! Register indices and the register file.

use ahash::AHashMap;
use ralr::block::parse as parse_source;
use ralr::class::ClassDef;
use ralr::copy::copy_value;
use ralr::display::value_text;
use ralr::eval::ExecError;
use ralr::expr::{BinOp, Expr, UnOp};
use ralr::function::FnDef;
use ralr::host::{Console, Host};
use ralr::op_code::{IoOp, OpCode, Operand};
use ralr::reader::ParseError;
use ralr::register::{Register, Registers};
use ralr::runner::runner;
use ralr::value::{binary_value, unary_value, Fault, Instance, Value};
use ralr::variable::Variable;

/// Reads a float literal as `str::parse::<f32>` does, as its bit pattern.
fn read_f32(s: &str) -> Option<u32> {
    s.parse::<f32>().ok().map(|x| x.to_bits())
}

fn parse(src: &str) -> Result<Vec<OpCode>, ParseError> {
    parse_source(&read_f32, src)
}

/// Console and float arithmetic for the tests: output is collected,
/// input comes from a list.
#[derive(Default)]
struct TestHost {
    out: String,
    input: Vec<String>,
}

fn f32_op(op: BinOp, x: f32, y: f32) -> Value {
    match op {
        BinOp::Add => Value::F32((x + y).to_bits()),
        BinOp::Sub => Value::F32((x - y).to_bits()),
        BinOp::Mul => Value::F32((x * y).to_bits()),
        BinOp::Div => Value::F32((x / y).to_bits()),
        BinOp::Rem => Value::F32((x % y).to_bits()),
        BinOp::Eq => Value::Bool(x == y),
        BinOp::Ne => Value::Bool(x != y),
        BinOp::Lt => Value::Bool(x < y),
        BinOp::Le => Value::Bool(x <= y),
        BinOp::Gt => Value::Bool(x > y),
        BinOp::Ge => Value::Bool(x >= y),
        _ => Value::Nil,
    }
}

fn f64_op(op: BinOp, x: f64, y: f64) -> Value {
    match op {
        BinOp::Add => Value::F64((x + y).to_bits()),
        BinOp::Sub => Value::F64((x - y).to_bits()),
        BinOp::Mul => Value::F64((x * y).to_bits()),
        BinOp::Div => Value::F64((x / y).to_bits()),
        BinOp::Rem => Value::F64((x % y).to_bits()),
        BinOp::Eq => Value::Bool(x == y),
        BinOp::Ne => Value::Bool(x != y),
        BinOp::Lt => Value::Bool(x < y),
        BinOp::Le => Value::Bool(x <= y),
        BinOp::Gt => Value::Bool(x > y),
        BinOp::Ge => Value::Bool(x >= y),
        _ => Value::Nil,
    }
}

impl Host for TestHost {
    fn write(&mut self, text: &str, newline: bool) {
        self.out.push_str(text);
        if newline {
            self.out.push('\n');
        }
    }

    fn read_line(&mut self) -> String {
        if self.input.is_empty() {
            String::new()
        } else {
            self.input.remove(0)
        }
    }

    fn float_binary(&self, op: BinOp, a: &Value, b: &Value) -> Value {
        match (a, b) {
            (Value::F32(x), Value::F32(y)) => f32_op(op, f32::from_bits(*x), f32::from_bits(*y)),
            (Value::F64(x), Value::F64(y)) => f64_op(op, f64::from_bits(*x), f64::from_bits(*y)),
            _ => Value::Nil,
        }
    }

    fn float_text(&self, v: &Value) -> String {
        match v {
            Value::F32(b) => format!("{}", f32::from_bits(*b)),
            Value::F64(b) => format!("{}", f64::from_bits(*b)),
            _ => String::new(),
        }
    }

    fn float_bits(&self, text: &str) -> Option<u32> {
        read_f32(text)
    }
}

/// Parses and runs a program on fresh tables; gives the outcome, the
/// registers, the variables and the host.
fn execute(source: &str) -> (Result<(), ExecError>, Registers, AHashMap<String, Variable>, TestHost) {
    let ops = parse(source).unwrap();
    let mut regs = Registers::new();
    let mut variables: AHashMap<String, Variable> = AHashMap::new();
    let mut functions: AHashMap<String, FnDef> = AHashMap::new();
    let mut classes: AHashMap<String, ClassDef> = AHashMap::new();
    let mut host = Console::new(TestHost::default());
    let r = runner(&ops, &mut regs, &mut variables, &mut functions, &mut classes, &mut host, u64::MAX);
    (r, regs, variables, host.into_host())
}

fn run(source: &str) -> Registers {
    let (r, regs, _, _) = execute(source);
    r.unwrap();
    regs
}

fn run_with_vars(source: &str) -> (Registers, AHashMap<String, Variable>) {
    let (r, regs, vars, _) = execute(source);
    r.unwrap();
    (regs, vars)
}

fn run_with_fns(source: &str) -> (Registers, AHashMap<String, Variable>) {
    run_with_vars(source)
}

fn try_run(source: &str) -> Result<(), ExecError> {
    execute(source).0
}

#[test]
fn registers_new_initializes_all_to_none() {
    let regs = Registers::new();
    assert!(matches!(regs.read(Register::A1), Value::Nil));
    assert!(matches!(regs.read(Register::A2), Value::Nil));
    assert!(matches!(regs.read(Register::A3), Value::Nil));
    assert!(matches!(regs.read(Register::A4), Value::Nil));
    assert!(matches!(regs.read(Register::A5), Value::Nil));
}

#[test]
fn registers_read_write_roundtrip() {
    let mut regs = Registers::new();
    regs.write(Register::A1, Value::I32(42));
    assert!(matches!(regs.read(Register::A1), Value::I32(42)));
    // Other registers unchanged
    assert!(matches!(regs.read(Register::A2), Value::Nil));
}

/// Register indices are the contract between the enum and the array layout.
#[test]
fn register_index_is_stable() {
    assert_eq!(Register::A1.index(), 0);
    assert_eq!(Register::A2.index(), 1);
    assert_eq!(Register::A3.index(), 2);
    assert_eq!(Register::A4.index(), 3);
    assert_eq!(Register::A5.index(), 4);
}

#[test]
fn registers_default_equals_new() {
    let new_regs = Registers::new();
    let default_regs = Registers::default();
    for reg in [
        Register::A1,
        Register::A2,
        Register::A3,
        Register::A4,
        Register::A5,
    ] {
        assert!(matches!(
            (new_regs.read(reg), default_regs.read(reg)),
            (Value::Nil, Value::Nil)
        ));
    }
}
