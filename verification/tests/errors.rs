//! One input for each error the assembler and the VM report.

use ahash::AHashMap;
use ralr::block::parse as parse_source;
use ralr::class::ClassDef;
use ralr::copy::copy_value;
use ralr::display::value_text;
use ralr::eval::ExecError;
use ralr::expr::{BinOp, Expr, UnOp};
use ralr::function::FnDef;
use ralr::host::{Console, Host};
use ralr::op_code::{IoOp, OpCode, Operand};
use ralr::reader::ParseError;
use ralr::register::{Register, Registers};
use ralr::runner::runner;
use ralr::value::{binary_value, unary_value, Fault, Instance, Value};
use ralr::variable::Variable;

/// Reads a float literal as `str::parse::<f32>` does, as its bit pattern.
fn read_f32(s: &str) -> Option<u32> {
    s.parse::<f32>().ok().map(|x| x.to_bits())
}

fn parse(src: &str) -> Result<Vec<OpCode>, ParseError> {
    parse_source(&read_f32, src)
}

/// Console and float arithmetic for the tests: output is collected,
/// input comes from a list.
#[derive(Default)]
struct TestHost {
    out: String,
    input: Vec<String>,
}

fn f32_op(op: BinOp, x: f32, y: f32) -> Value {
    match op {
        BinOp::Add => Value::F32((x + y).to_bits()),
        BinOp::Sub => Value::F32((x - y).to_bits()),
        BinOp::Mul => Value::F32((x * y).to_bits()),
        BinOp::Div => Value::F32((x / y).to_bits()),
        BinOp::Rem => Value::F32((x % y).to_bits()),
        BinOp::Eq => Value::Bool(x == y),
        BinOp::Ne => Value::Bool(x != y),
        BinOp::Lt => Value::Bool(x < y),
        BinOp::Le => Value::Bool(x <= y),
        BinOp::Gt => Value::Bool(x > y),
        BinOp::Ge => Value::Bool(x >= y),
        _ => Value::Nil,
    }
}

fn f64_op(op: BinOp, x: f64, y: f64) -> Value {
    match op {
        BinOp::Add => Value::F64((x + y).to_bits()),
        BinOp::Sub => Value::F64((x - y).to_bits()),
        BinOp::Mul => Value::F64((x * y).to_bits()),
        BinOp::Div => Value::F64((x / y).to_bits()),
        BinOp::Rem => Value::F64((x % y).to_bits()),
        BinOp::Eq => Value::Bool(x == y),
        BinOp::Ne => Value::Bool(x != y),
        BinOp::Lt => Value::Bool(x < y),
        BinOp::Le => Value::Bool(x <= y),
        BinOp::Gt => Value::Bool(x > y),
        BinOp::Ge => Value::Bool(x >= y),
        _ => Value::Nil,
    }
}

impl Host for TestHost {
    fn write(&mut self, text: &str, newline: bool) {
        self.out.push_str(text);
        if newline {
            self.out.push('\n');
        }
    }

    fn read_line(&mut self) -> String {
        if self.input.is_empty() {
            String::new()
        } else {
            self.input.remove(0)
        }
    }

    fn float_binary(&self, op: BinOp, a: &Value, b: &Value) -> Value {
        match (a, b) {
            (Value::F32(x), Value::F32(y)) => f32_op(op, f32::from_bits(*x), f32::from_bits(*y)),
            (Value::F64(x), Value::F64(y)) => f64_op(op, f64::from_bits(*x), f64::from_bits(*y)),
            _ => Value::Nil,
        }
    }

    fn float_text(&self, v: &Value) -> String {
        match v {
            Value::F32(b) => format!("{}", f32::from_bits(*b)),
            Value::F64(b) => format!("{}", f64::from_bits(*b)),
            _ => String::new(),
        }
    }

    fn float_bits(&self, text: &str) -> Option<u32> {
        read_f32(text)
    }
}

/// Parses and runs a program on fresh tables; gives the outcome, the
/// registers, the variables and the host.
fn execute(source: &str) -> (Result<(), ExecError>, Registers, AHashMap<String, Variable>, TestHost) {
    let ops = parse(source).unwrap();
    let mut regs = Registers::new();
    let mut variables: AHashMap<String, Variable> = AHashMap::new();
    let mut functions: AHashMap<String, FnDef> = AHashMap::new();
    let mut classes: AHashMap<String, ClassDef> = AHashMap::new();
    let mut host = Console::new(TestHost::default());
    let r = runner(&ops, &mut regs, &mut variables, &mut functions, &mut classes, &mut host, u64::MAX);
    (r, regs, variables, host.into_host())
}

fn run(source: &str) -> Registers {
    let (r, regs, _, _) = execute(source);
    r.unwrap();
    regs
}

fn run_with_vars(source: &str) -> (Registers, AHashMap<String, Variable>) {
    let (r, regs, vars, _) = execute(source);
    r.unwrap();
    (regs, vars)
}

fn run_with_fns(source: &str) -> (Registers, AHashMap<String, Variable>) {
    run_with_vars(source)
}

fn try_run(source: &str) -> Result<(), ExecError> {
    execute(source).0
}

fn parse_err(src: &str) -> ParseError {
    parse(src).unwrap_err()
}

#[test]
fn each_parse_error() {
    assert_eq!(parse_err("add 1;"), ParseError::NoValue);
    assert_eq!(parse_err("$a1 = \"\\w\";"), ParseError::InvalidEscape);
    assert_eq!(parse_err("$a1 = \"\\u{41\";"), ParseError::InvalidEscape);
    assert_eq!(parse_err("$a1 = $a9;"), ParseError::UnknownRegister);
    assert_eq!(parse_err("add 1 2 3;"), ParseError::ExpectedRegister);
    assert_eq!(parse_err("$a1 = \"abc\\"), ParseError::UnterminatedEscape);
    assert_eq!(parse_err("$a1 = 1 +;"), ParseError::UnexpectedEnd);
    assert_eq!(parse_err("$a1 = (1 + 2;"), ParseError::ExpectedCloseParen);
    assert_eq!(parse_err("$a1 = 1 2;"), ParseError::UnexpectedToken);
    assert_eq!(parse_err("$a1 = a..b;"), ParseError::MalformedFieldAccess);
    assert_eq!(parse_err("$a1 = -340282366920938463463374607431768211455;"), ParseError::NegationOverflow);
    assert_eq!(parse_err("$a1 = call f(1));"), ParseError::UnbalancedParen);
    assert_eq!(parse_err("io;"), ParseError::IoMissingSubcommand);
    assert_eq!(parse_err("io write;"), ParseError::IoWriteMissingOperand);
    assert_eq!(parse_err("io writeln;"), ParseError::IoWritelnMissingOperand);
    assert_eq!(parse_err("io read;"), ParseError::IoReadMissingRegister);
    assert_eq!(parse_err("io readln;"), ParseError::IoReadlnMissingRegister);
    assert_eq!(parse_err("io foo 1;"), ParseError::UnknownIoSubcommand);
    assert_eq!(parse_err("let x 1;"), ParseError::LetMissingEquals);
    assert_eq!(parse_err("let = 1;"), ParseError::LetMissingName);
    assert_eq!(parse_err("let x =;"), ParseError::LetMissingExpression);
    assert_eq!(parse_err("call f;"), ParseError::CallMissingOpenParen);
    assert_eq!(parse_err("call (1);"), ParseError::CallMissingName);
    assert_eq!(parse_err("call f(1;"), ParseError::CallMissingCloseParen);
    assert_eq!(parse_err("$a1 = new P;"), ParseError::NewMissingOpenParen);
    assert_eq!(parse_err("$a1 = new (1);"), ParseError::NewMissingClass);
    assert_eq!(parse_err("$a1 = new P(1;"), ParseError::NewMissingCloseParen);
    assert_eq!(parse_err("$a1 = .m();"), ParseError::MalformedMethodCall);
    assert_eq!(parse_err("$a1 = p.m(1;"), ParseError::MethodMissingCloseParen);
    assert_eq!(parse_err("p. = 1;"), ParseError::MalformedFieldAssignment);
    assert_eq!(parse_err("class C { io write p.x; }"), ParseError::MalformedClassField);
    assert_eq!(parse_err("class C { add 1 2 $a1; }"), ParseError::InvalidClassMember);
    assert_eq!(parse_err("if true { } else if true"), ParseError::ElseIfMissingBrace);
    assert_eq!(parse_err("if true { } else $a1 = 1;"), ParseError::ElseMissingBrace);
    assert_eq!(parse_err("fn { }"), ParseError::FnMissingName);
    assert_eq!(parse_err("fn f { }"), ParseError::FnMissingOpenParen);
    assert_eq!(parse_err("fn () { }"), ParseError::FnMissingNameBeforeParen);
    assert_eq!(parse_err("fn f( { }"), ParseError::FnMissingCloseParen);
    assert_eq!(parse_err("fn f() ;"), ParseError::FnMissingBrace);
    assert_eq!(parse_err("class { }"), ParseError::ClassMissingName);
    assert_eq!(parse_err("class C ;"), ParseError::ClassMissingBrace);
    assert_eq!(parse_err("while { }"), ParseError::WhileMissingCondition);
    assert_eq!(parse_err("while true ;"), ParseError::WhileMissingBrace);
    assert_eq!(parse_err("if { }"), ParseError::IfMissingCondition);
    assert_eq!(parse_err("if true ;"), ParseError::IfMissingBrace);
}

#[test]
fn each_run_error() {
    assert_eq!(try_run("$a1 = 200 + 100;"), Err(ExecError::Fault(Fault::AddOverflow)));
    assert_eq!(try_run("$a1 = nothing;"), Err(ExecError::VariableNotFound));
    assert_eq!(try_run("let x = 1; x = 2;"), Err(ExecError::ImmutableVariable));
    assert_eq!(try_run("1 = 2;"), Err(ExecError::AssignToLiteral));
    assert_eq!(try_run("if 1 { }"), Err(ExecError::NonBoolCondition));
    assert_eq!(try_run("call f();"), Err(ExecError::FunctionNotFound));
    assert_eq!(try_run("fn f(a) { } call f();"), Err(ExecError::ArgumentCount));
    assert_eq!(try_run("$a1 = new C();"), Err(ExecError::ClassNotFound));
    assert_eq!(try_run("class C { } let c = new C(); c.m();"), Err(ExecError::MethodNotFound));
    assert_eq!(try_run("let c = 1; c.m();"), Err(ExecError::NotAnObject));
    assert_eq!(try_run("class C { } let c = new C(); $a1 = c.x;"), Err(ExecError::FieldNotFound));
    assert_eq!(try_run("class C { fn m() { } } let c = new C(); c.m();"), Err(ExecError::MissingSelf));
    assert_eq!(try_run("class C { fn m(s) { s = 1; } } let c = new C(); c.m();"), Err(ExecError::SelfNotObject));
    assert_eq!(try_run("class C { fn m(s) { let s = 1; } } let c = new C(); c.m();"), Err(ExecError::SelfNotObject));
    assert_eq!(try_run("class C { } let c = new C(1);"), Err(ExecError::InitArguments));
}

#[test]
fn self_unbound_and_empty_path() {
    let ops = vec![
        OpCode::ClassDef {
            name: "C".into(),
            def: ClassDef {
                fields: vec![],
                methods: vec![("m".into(), FnDef {
                    params: vec!["s".into()],
                    body: vec![OpCode::Call { name: "drop".into(), args: vec![], dest: Operand::Register(Register::A1) }],
                })],
            },
        },
    ];
    let mut regs = Registers::new();
    let mut variables: AHashMap<String, Variable> = AHashMap::new();
    let mut functions: AHashMap<String, FnDef> = AHashMap::new();
    let mut classes: AHashMap<String, ClassDef> = AHashMap::new();
    let mut host = Console::new(TestHost::default());
    runner(&ops, &mut regs, &mut variables, &mut functions, &mut classes, &mut host, u64::MAX).unwrap();
    // `drop(s)` is a function whose parameter shadows `s`: restoring it after
    // the call removes the receiver's binding.
    functions.insert("drop".into(), FnDef { params: vec![], body: vec![] });
    let ops2 = vec![
        OpCode::FnDef {
            name: "drop".into(),
            params: vec!["s".into()],
            body: vec![],
        },
        OpCode::ClassDef {
            name: "D".into(),
            def: ClassDef {
                fields: vec![],
                methods: vec![("m".into(), FnDef {
                    params: vec!["s".into()],
                    body: vec![OpCode::Call {
                        name: "drop".into(),
                        args: vec![Expr::Operand(Operand::Literal(Value::U8(1)))],
                        dest: Operand::Register(Register::A1),
                    }],
                })],
            },
        },
        OpCode::New { class: "D".into(), args: vec![], dest: Operand::Register(Register::A2) },
    ];
    runner(&ops2, &mut regs, &mut variables, &mut functions, &mut classes, &mut host, u64::MAX).unwrap();
    let set = vec![OpCode::SetField {
        base: "v".into(),
        path: vec![],
        value: Expr::Operand(Operand::Literal(Value::U8(1))),
    }];
    variables.insert("v".into(), Variable { is_mut: true, value: Value::U8(0) });
    let r = runner(&set, &mut regs, &mut variables, &mut functions, &mut classes, &mut host, u64::MAX);
    assert_eq!(r, Err(ExecError::EmptyFieldPath));
}
