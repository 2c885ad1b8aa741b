//! Classes, fields, methods and `new`.

use ahash::AHashMap;
use ralr::block::parse as parse_source;
use ralr::class::ClassDef;
use ralr::copy::copy_value;
use ralr::display::value_text;
use ralr::eval::ExecError;
use ralr::expr::{BinOp, Expr, UnOp};
use ralr::function::FnDef;
use ralr::host::{Console, Host};
use ralr::op_code::{IoOp, OpCode, Operand};
use ralr::reader::ParseError;
use ralr::register::{Register, Registers};
use ralr::runner::runner;
use ralr::value::{binary_value, unary_value, Fault, Instance, Value};
use ralr::variable::Variable;

/// Reads a float literal as `str::parse::<f32>` does, as its bit pattern.
fn read_f32(s: &str) -> Option<u32> {
    s.parse::<f32>().ok().map(|x| x.to_bits())
}

fn parse(src: &str) -> Result<Vec<OpCode>, ParseError> {
    parse_source(&read_f32, src)
}

/// Console and float arithmetic for the tests: output is collected,
/// input comes from a list.
#[derive(Default)]
struct TestHost {
    out: String,
    input: Vec<String>,
}

fn f32_op(op: BinOp, x: f32, y: f32) -> Value {
    match op {
        BinOp::Add => Value::F32((x + y).to_bits()),
        BinOp::Sub => Value::F32((x - y).to_bits()),
        BinOp::Mul => Value::F32((x * y).to_bits()),
        BinOp::Div => Value::F32((x / y).to_bits()),
        BinOp::Rem => Value::F32((x % y).to_bits()),
        BinOp::Eq => Value::Bool(x == y),
        BinOp::Ne => Value::Bool(x != y),
        BinOp::Lt => Value::Bool(x < y),
        BinOp::Le => Value::Bool(x <= y),
        BinOp::Gt => Value::Bool(x > y),
        BinOp::Ge => Value::Bool(x >= y),
        _ => Value::Nil,
    }
}

fn f64_op(op: BinOp, x: f64, y: f64) -> Value {
    match op {
        BinOp::Add => Value::F64((x + y).to_bits()),
        BinOp::Sub => Value::F64((x - y).to_bits()),
        BinOp::Mul => Value::F64((x * y).to_bits()),
        BinOp::Div => Value::F64((x / y).to_bits()),
        BinOp::Rem => Value::F64((x % y).to_bits()),
        BinOp::Eq => Value::Bool(x == y),
        BinOp::Ne => Value::Bool(x != y),
        BinOp::Lt => Value::Bool(x < y),
        BinOp::Le => Value::Bool(x <= y),
        BinOp::Gt => Value::Bool(x > y),
        BinOp::Ge => Value::Bool(x >= y),
        _ => Value::Nil,
    }
}

impl Host for TestHost {
    fn write(&mut self, text: &str, newline: bool) {
        self.out.push_str(text);
        if newline {
            self.out.push('\n');
        }
    }

    fn read_line(&mut self) -> String {
        if self.input.is_empty() {
            String::new()
        } else {
            self.input.remove(0)
        }
    }

    fn float_binary(&self, op: BinOp, a: &Value, b: &Value) -> Value {
        match (a, b) {
            (Value::F32(x), Value::F32(y)) => f32_op(op, f32::from_bits(*x), f32::from_bits(*y)),
            (Value::F64(x), Value::F64(y)) => f64_op(op, f64::from_bits(*x), f64::from_bits(*y)),
            _ => Value::Nil,
        }
    }

    fn float_text(&self, v: &Value) -> String {
        match v {
            Value::F32(b) => format!("{}", f32::from_bits(*b)),
            Value::F64(b) => format!("{}", f64::from_bits(*b)),
            _ => String::new(),
        }
    }

    fn float_bits(&self, text: &str) -> Option<u32> {
        read_f32(text)
    }
}

/// Parses and runs a program on fresh tables; gives the outcome, the
/// registers, the variables and the host.
fn execute(source: &str) -> (Result<(), ExecError>, Registers, AHashMap<String, Variable>, TestHost) {
    let ops = parse(source).unwrap();
    let mut regs = Registers::new();
    let mut variables: AHashMap<String, Variable> = AHashMap::new();
    let mut functions: AHashMap<String, FnDef> = AHashMap::new();
    let mut classes: AHashMap<String, ClassDef> = AHashMap::new();
    let mut host = Console::new(TestHost::default());
    let r = runner(&ops, &mut regs, &mut variables, &mut functions, &mut classes, &mut host, u64::MAX);
    (r, regs, variables, host.into_host())
}

fn run(source: &str) -> Registers {
    let (r, regs, _, _) = execute(source);
    r.unwrap();
    regs
}

fn run_with_vars(source: &str) -> (Registers, AHashMap<String, Variable>) {
    let (r, regs, vars, _) = execute(source);
    r.unwrap();
    (regs, vars)
}

fn run_with_fns(source: &str) -> (Registers, AHashMap<String, Variable>) {
    run_with_vars(source)
}

fn try_run(source: &str) -> Result<(), ExecError> {
    execute(source).0
}

/// Reads a field of an object stored in a named variable.
fn field(vars: &AHashMap<String, Variable>, var: &str, f: &str) -> Value {
    match &vars.get(var).expect("variable not found").value {
        Value::Object(inst) => copy_value(inst.get_field(f).expect("field not found")),
        other => panic!("not an object: {other:?}"),
    }
}

#[test]
fn parse_class_fields_and_methods() {
    let ops = parse(
        "class Point { let x = 0; let y = 0; fn sum(self) { return self.x + self.y; } }",
    )
    .unwrap();
    assert_eq!(ops.len(), 1);
    match &ops[0] {
        OpCode::ClassDef { name, def } => {
            assert_eq!(name, "Point");
            assert_eq!(def.fields.len(), 2);
            assert_eq!(def.fields[0].0, "x");
            assert_eq!(def.fields[1].0, "y");
            assert!(def.methods.iter().any(|(k, _)| k == "sum"));
            let sum = &def.methods.iter().find(|(k, _)| k == "sum").unwrap().1;
            assert_eq!(sum.params, vec!["self".to_string()]);
        }
        other => panic!("expected ClassDef, got {other:?}"),
    }
}

#[test]
fn parse_new_assignment() {
    let ops = parse("$a1 = new Point(3, 4);").unwrap();
    assert_eq!(ops.len(), 1);
    match &ops[0] {
        OpCode::New { class, args, dest } => {
            assert_eq!(class, "Point");
            assert_eq!(args.len(), 2);
            assert_eq!(*dest, Operand::Register(Register::A1));
        }
        other => panic!("expected New, got {other:?}"),
    }
}

#[test]
fn parse_method_call_assignment() {
    let ops = parse("$a1 = p.sum();").unwrap();
    match &ops[0] {
        OpCode::MethodCall {
            recv,
            method,
            args,
            dest,
        } => {
            assert_eq!(recv, "p");
            assert_eq!(method, "sum");
            assert!(args.is_empty());
            assert_eq!(*dest, Operand::Register(Register::A1));
        }
        other => panic!("expected MethodCall, got {other:?}"),
    }
}

#[test]
fn parse_bare_method_call() {
    let ops = parse("p.shift(1, 2);").unwrap();
    match &ops[0] {
        OpCode::MethodCall {
            recv,
            method,
            args,
            dest,
        } => {
            assert_eq!(recv, "p");
            assert_eq!(method, "shift");
            assert_eq!(args.len(), 2);
            assert_eq!(*dest, Operand::Register(Register::SystemVarBuffer));
        }
        other => panic!("expected MethodCall, got {other:?}"),
    }
}

#[test]
fn parse_field_assignment() {
    let ops = parse("p.x = 42;").unwrap();
    match &ops[0] {
        OpCode::SetField { base, path, value } => {
            assert_eq!(base, "p");
            assert_eq!(path, &vec!["x".to_string()]);
            assert_eq!(*value, Expr::Operand(Operand::Literal(Value::U8(42))));
        }
        other => panic!("expected SetField, got {other:?}"),
    }
}

#[test]
fn parse_field_access_in_expression() {
    let ops = parse("$a1 = p.x + p.y;").unwrap();
    match &ops[0] {
        OpCode::Expr(Expr::Binary(lhs, _, rhs), _) => {
            assert!(matches!(**lhs, Expr::Field(_, ref f) if f == "x"));
            assert!(matches!(**rhs, Expr::Field(_, ref f) if f == "y"));
        }
        other => panic!("expected Expr(Binary), got {other:?}"),
    }
}

#[test]
fn float_literal_is_not_field_access() {
    // `2.5` must parse as a float literal, not a field access on `2`.
    let ops = parse("$a1 = 2.5;").unwrap();
    assert_eq!(
        ops[0],
        OpCode::Expr(
            Expr::Operand(Operand::Literal(Value::F32(2.5f32.to_bits()))),
            Operand::Register(Register::A1),
        )
    );
}

#[test]
fn object_display() {
    let mut inst = Instance { class: "Point".to_string(), fields: Vec::new() };
    inst.set_field("x".to_string(), Value::U8(1));
    inst.set_field("y".to_string(), Value::U8(2));
    let v = Value::Object(Box::new(inst));
    assert_eq!(value_text(&v, &mut Console::new(TestHost::default())), "Point { x: 1, y: 2 }");
}

#[test]
fn empty_object_display() {
    let v = Value::Object(Box::new(Instance { class: "Empty".to_string(), fields: Vec::new() }));
    assert_eq!(value_text(&v, &mut Console::new(TestHost::default())), "Empty {}");
}

#[test]
fn construct_and_read_fields() {
    let (_, vars) = run_with_vars(
        "class Point { let x = 0; let y = 0; fn init(self, x, y) { self.x = x; self.y = y; } } \
         let p = new Point(3, 4);",
    );
    assert_eq!(field(&vars, "p", "x"), Value::U8(3));
    assert_eq!(field(&vars, "p", "y"), Value::U8(4));
}

#[test]
fn method_returns_value() {
    let (regs, _) = run_with_vars(
        "class Point { let x = 0; let y = 0; fn init(self, x, y) { self.x = x; self.y = y; } \
         fn sum(self) { return self.x + self.y; } } \
         let p = new Point(3, 4); $a1 = p.sum();",
    );
    assert_eq!(regs.read(Register::A1), &Value::U8(7));
}

#[test]
fn method_mutation_persists() {
    let (regs, vars) = run_with_vars(
        "class Point { let x = 0; let y = 0; fn init(self, x, y) { self.x = x; self.y = y; } \
         fn shift(self, dx, dy) { self.x = self.x + dx; self.y = self.y + dy; } \
         fn sum(self) { return self.x + self.y; } } \
         let mut p = new Point(3, 4); p.shift(10, 20); $a1 = p.sum();",
    );
    assert_eq!(field(&vars, "p", "x"), Value::U8(13));
    assert_eq!(field(&vars, "p", "y"), Value::U8(24));
    assert_eq!(regs.read(Register::A1), &Value::U8(37));
}

#[test]
fn direct_field_assignment() {
    let (_, vars) = run_with_vars("class Point { let x = 0; let y = 0; } let mut p = new Point(); p.x = 99;");
    assert_eq!(field(&vars, "p", "x"), Value::U8(99));
    assert_eq!(field(&vars, "p", "y"), Value::U8(0));
}

#[test]
fn class_without_init_uses_defaults() {
    let (regs, _) = run_with_vars(
        "class Counter { let n = 5; fn get(self) { return self.n; } } \
         let c = new Counter(); $a1 = c.get();",
    );
    assert_eq!(regs.read(Register::A1), &Value::U8(5));
}

#[test]
fn method_mutates_then_reads_via_field_access() {
    let (regs, _) = run_with_vars(
        "class Counter { let n = 0; fn bump(self) { self.n = self.n + 1; } } \
         let mut c = new Counter(); c.bump(); c.bump(); c.bump(); $a1 = c.n;",
    );
    assert_eq!(regs.read(Register::A1), &Value::U8(3));
}

#[test]
fn field_used_in_condition() {
    let (regs, _) = run_with_vars("class Box { let v = 0; fn init(self, v) { self.v = v; } } \
         let b = new Box(10); if b.v > 5 { $a1 = 1; } else { $a1 = 0; }");
    assert_eq!(regs.read(Register::A1), &Value::U8(1));
}

#[test]
fn method_returning_new_object() {
    // A factory method that constructs and returns an object.
    let (regs, vars) = run_with_vars(
        "class Wrapper { let inner = 0; fn init(self, v) { self.inner = v; } } \
         fn make(v) { return new Wrapper(v); } \
         let w = call make(7); $a1 = w.inner;",
    );
    assert_eq!(regs.read(Register::A1), &Value::U8(7));
    assert_eq!(field(&vars, "w", "inner"), Value::U8(7));
}
