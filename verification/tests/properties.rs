//! Laws of the library on concrete values, and edge cases.

use ahash::AHashMap;
use ralr::block::parse as parse_source;
use ralr::class::ClassDef;
use ralr::copy::copy_value;
use ralr::display::value_text;
use ralr::eval::ExecError;
use ralr::expr::{BinOp, Expr, UnOp};
use ralr::function::FnDef;
use ralr::host::{Console, Host};
use ralr::op_code::{IoOp, OpCode, Operand};
use ralr::reader::ParseError;
use ralr::register::{Register, Registers};
use ralr::runner::runner;
use ralr::value::{binary_value, unary_value, Fault, Instance, Value};
use ralr::variable::Variable;

/// Reads a float literal as `str::parse::<f32>` does, as its bit pattern.
fn read_f32(s: &str) -> Option<u32> {
    s.parse::<f32>().ok().map(|x| x.to_bits())
}

fn parse(src: &str) -> Result<Vec<OpCode>, ParseError> {
    parse_source(&read_f32, src)
}

/// Console and float arithmetic for the tests: output is collected,
/// input comes from a list.
#[derive(Default)]
struct TestHost {
    out: String,
    input: Vec<String>,
}

fn f32_op(op: BinOp, x: f32, y: f32) -> Value {
    match op {
        BinOp::Add => Value::F32((x + y).to_bits()),
        BinOp::Sub => Value::F32((x - y).to_bits()),
        BinOp::Mul => Value::F32((x * y).to_bits()),
        BinOp::Div => Value::F32((x / y).to_bits()),
        BinOp::Rem => Value::F32((x % y).to_bits()),
        BinOp::Eq => Value::Bool(x == y),
        BinOp::Ne => Value::Bool(x != y),
        BinOp::Lt => Value::Bool(x < y),
        BinOp::Le => Value::Bool(x <= y),
        BinOp::Gt => Value::Bool(x > y),
        BinOp::Ge => Value::Bool(x >= y),
        _ => Value::Nil,
    }
}

fn f64_op(op: BinOp, x: f64, y: f64) -> Value {
    match op {
        BinOp::Add => Value::F64((x + y).to_bits()),
        BinOp::Sub => Value::F64((x - y).to_bits()),
        BinOp::Mul => Value::F64((x * y).to_bits()),
        BinOp::Div => Value::F64((x / y).to_bits()),
        BinOp::Rem => Value::F64((x % y).to_bits()),
        BinOp::Eq => Value::Bool(x == y),
        BinOp::Ne => Value::Bool(x != y),
        BinOp::Lt => Value::Bool(x < y),
        BinOp::Le => Value::Bool(x <= y),
        BinOp::Gt => Value::Bool(x > y),
        BinOp::Ge => Value::Bool(x >= y),
        _ => Value::Nil,
    }
}

impl Host for TestHost {
    fn write(&mut self, text: &str, newline: bool) {
        self.out.push_str(text);
        if newline {
            self.out.push('\n');
        }
    }

    fn read_line(&mut self) -> String {
        if self.input.is_empty() {
            String::new()
        } else {
            self.input.remove(0)
        }
    }

    fn float_binary(&self, op: BinOp, a: &Value, b: &Value) -> Value {
        match (a, b) {
            (Value::F32(x), Value::F32(y)) => f32_op(op, f32::from_bits(*x), f32::from_bits(*y)),
            (Value::F64(x), Value::F64(y)) => f64_op(op, f64::from_bits(*x), f64::from_bits(*y)),
            _ => Value::Nil,
        }
    }

    fn float_text(&self, v: &Value) -> String {
        match v {
            Value::F32(b) => format!("{}", f32::from_bits(*b)),
            Value::F64(b) => format!("{}", f64::from_bits(*b)),
            _ => String::new(),
        }
    }

    fn float_bits(&self, text: &str) -> Option<u32> {
        read_f32(text)
    }
}

/// Parses and runs a program on fresh tables; gives the outcome, the
/// registers, the variables and the host.
fn execute(source: &str) -> (Result<(), ExecError>, Registers, AHashMap<String, Variable>, TestHost) {
    let ops = parse(source).unwrap();
    let mut regs = Registers::new();
    let mut variables: AHashMap<String, Variable> = AHashMap::new();
    let mut functions: AHashMap<String, FnDef> = AHashMap::new();
    let mut classes: AHashMap<String, ClassDef> = AHashMap::new();
    let mut host = Console::new(TestHost::default());
    let r = runner(&ops, &mut regs, &mut variables, &mut functions, &mut classes, &mut host, u64::MAX);
    (r, regs, variables, host.into_host())
}

fn run(source: &str) -> Registers {
    let (r, regs, _, _) = execute(source);
    r.unwrap();
    regs
}

fn run_with_vars(source: &str) -> (Registers, AHashMap<String, Variable>) {
    let (r, regs, vars, _) = execute(source);
    r.unwrap();
    (regs, vars)
}

fn run_with_fns(source: &str) -> (Registers, AHashMap<String, Variable>) {
    run_with_vars(source)
}

fn try_run(source: &str) -> Result<(), ExecError> {
    execute(source).0
}
use ralr::reader::tokenize;
use ralr::stdin::{parse_stdin_value, strip_line_end};
use ralr::text::chars_of;

// ── Operator laws on concrete values ─────────────────────────────────

#[test]
fn ne_is_negation_of_eq() {
    assert_eq!(Value::I32(5).eq_val(&Value::I32(5)), Value::Bool(true));
    assert_eq!(Value::I32(5).ne_val(&Value::I32(5)), Value::Bool(false));
    assert_eq!(Value::String("a".into()).ne_val(&Value::String("b".into())), Value::Bool(true));
}

#[test]
fn lt_is_swapped_gt() {
    assert_eq!(Value::U8(1).lt_val(&Value::U8(2)), Value::U8(2).gt_val(&Value::U8(1)));
    assert_eq!(Value::I128(-3).le_val(&Value::I128(-3)), Value::I128(-3).ge_val(&Value::I128(-3)));
}

#[test]
fn sub_undoes_add() {
    let sum = Value::U8(200).add_val(&Value::U8(55));
    assert_eq!(sum, Value::U8(255));
    assert_eq!(sum.sub_val(&Value::U8(55)), Value::U8(200));
    let sum = Value::I32(-7).add_val(&Value::I32(3));
    assert_eq!(sum.sub_val(&Value::I32(3)), Value::I32(-7));
}

#[test]
fn not_not_and_bitnot_bitnot() {
    assert_eq!(Value::Bool(true).logical_not().logical_not(), Value::Bool(true));
    assert_eq!(Value::U32(0x1234).bitwise_not().bitwise_not(), Value::U32(0x1234));
    assert_eq!(Value::I128(-5).bitwise_not(), Value::I128(4));
}

#[test]
fn neg_neg_gives_back() {
    assert_eq!(Value::I32(7).neg_val().neg_val(), Value::I32(7));
    let x = Value::F32(1.5f32.to_bits());
    assert_eq!(x.neg_val(), Value::F32((-1.5f32).to_bits()));
    assert_eq!(Value::F32(1.5f32.to_bits()).neg_val().neg_val(), Value::F32(1.5f32.to_bits()));
}

#[test]
fn overflow_and_division_faults() {
    assert_eq!(binary_value(BinOp::Add, &Value::U8(200), &Value::U8(100)), Some(Err(Fault::AddOverflow)));
    assert_eq!(binary_value(BinOp::Sub, &Value::U8(0), &Value::U8(1)), Some(Err(Fault::SubOverflow)));
    assert_eq!(binary_value(BinOp::Mul, &Value::I32(1 << 20), &Value::I32(1 << 20)), Some(Err(Fault::MulOverflow)));
    assert_eq!(binary_value(BinOp::Div, &Value::I32(1), &Value::I32(0)), Some(Err(Fault::DivByZero)));
    assert_eq!(binary_value(BinOp::Div, &Value::I32(i32::MIN), &Value::I32(-1)), Some(Err(Fault::DivOverflow)));
    assert_eq!(binary_value(BinOp::Rem, &Value::U32(1), &Value::U32(0)), Some(Err(Fault::RemByZero)));
    assert_eq!(binary_value(BinOp::Rem, &Value::I128(i128::MIN), &Value::I128(-1)), Some(Err(Fault::RemOverflow)));
    assert_eq!(unary_value(UnOp::Neg, &Value::I32(i32::MIN)), Some(Err(Fault::NegOverflow)));
    assert_eq!(binary_value(BinOp::Lt, &Value::U8(1), &Value::I32(1)), Some(Err(Fault::ComparisonMismatch)));
    assert_eq!(binary_value(BinOp::Shl, &Value::U8(1), &Value::I32(1)), Some(Err(Fault::ShiftLeftMismatch)));
    assert_eq!(binary_value(BinOp::Shr, &Value::Bool(true), &Value::I32(1)), Some(Err(Fault::ShiftRightMismatch)));
    assert_eq!(binary_value(BinOp::Or, &Value::U8(1), &Value::Bool(true)), Some(Err(Fault::LogicalOrMismatch)));
    assert_eq!(binary_value(BinOp::BitAnd, &Value::Bool(true), &Value::Bool(true)), Some(Err(Fault::ArithmeticMismatch)));
}

#[test]
fn truncating_division_and_shifts() {
    assert_eq!(Value::I32(-7).div_val(&Value::I32(2)), Value::I32(-3));
    assert_eq!(Value::I32(-7).rem_val(&Value::I32(2)), Value::I32(-1));
    assert_eq!(Value::I32(-16).shr_val(&Value::I32(2)), Value::I32(-4));
    assert_eq!(Value::U32(1).shl_val(&Value::U32(33)), Value::U32(2));
}

#[test]
fn float_operands_go_to_the_host() {
    let a = Value::F64(1.0f64.to_bits());
    let b = Value::F64(2.0f64.to_bits());
    assert_eq!(binary_value(BinOp::Add, &a, &b), None);
    assert_eq!(binary_value(BinOp::Eq, &a, &b), None);
}

// ── Object fields ───────────────────────────────────────────────────

#[test]
fn fields_stay_ordered_and_read_back() {
    let mut inst = Instance { class: "P".to_string(), fields: Vec::new() };
    inst.set_field("y".to_string(), Value::U8(2));
    inst.set_field("x".to_string(), Value::U8(1));
    inst.set_field("z".to_string(), Value::U8(3));
    inst.set_field("y".to_string(), Value::U8(9));
    let names: Vec<&str> = inst.fields.iter().map(|(k, _)| k.as_str()).collect();
    assert_eq!(names, vec!["x", "y", "z"]);
    assert_eq!(inst.get_field("y"), Some(&Value::U8(9)));
    assert_eq!(inst.get_field("x"), Some(&Value::U8(1)));
    assert_eq!(inst.get_field("w"), None);
}

// ── Runs ────────────────────────────────────────────────────────────

#[test]
fn call_restores_shadowed_variables() {
    let (regs, vars) = run_with_vars("let x = 1; fn f(x) { return x + 1; } $a1 = call f(5);");
    assert_eq!(regs.read(Register::A1), &Value::U8(6));
    assert_eq!(vars.get("x").unwrap().value, Value::U8(1));
    let (_, vars) = run_with_vars("fn f(y) { return y; } $a1 = call f(1);");
    assert!(vars.get("y").is_none());
}

#[test]
fn body_changes_to_other_variables_persist() {
    let (_, vars) = run_with_vars("let mut g = 1; fn f(a) { g = a; return a; } $a1 = call f(7);");
    assert_eq!(vars.get("g").unwrap().value, Value::U8(7));
}

#[test]
fn running_in_two_parts_is_running_the_whole() {
    let whole = run("$a1 = 1; $a2 = $a1 + 1; $a3 = $a2 * 10;");
    let first = parse("$a1 = 1; $a2 = $a1 + 1;").unwrap();
    let second = parse("$a3 = $a2 * 10;").unwrap();
    let mut regs = Registers::new();
    let mut variables: AHashMap<String, Variable> = AHashMap::new();
    let mut functions: AHashMap<String, FnDef> = AHashMap::new();
    let mut classes: AHashMap<String, ClassDef> = AHashMap::new();
    let mut host = Console::new(TestHost::default());
    runner(&first, &mut regs, &mut variables, &mut functions, &mut classes, &mut host, u64::MAX).unwrap();
    runner(&second, &mut regs, &mut variables, &mut functions, &mut classes, &mut host, u64::MAX).unwrap();
    for r in [Register::A1, Register::A2, Register::A3] {
        assert_eq!(regs.read(r), whole.read(r));
    }
}

#[test]
fn output_changes_no_state() {
    let (r, regs, _, host) = execute("$a1 = 5; io writeln $a1; io write \"x\"; _println 42; _print true;");
    assert_eq!(r, Ok(()));
    assert_eq!(regs.read(Register::A1), &Value::U8(5));
    assert_eq!(host.out, "5\nx42\ntrue");
}

#[test]
fn return_does_not_leave_the_function() {
    // A `return` writes the result and the body goes on: the last one wins.
    let regs = run("fn max(a, b) { if a > b { return a; } return b; } $a1 = call max(7, 3);");
    assert_eq!(regs.read(Register::A1), &Value::U8(3));
}

#[test]
fn while_loop_counts() {
    let regs = run("$a1 = 0; while $a1 < 10 { $a1 = $a1 + 1; }");
    assert_eq!(regs.read(Register::A1), &Value::U8(10));
}

#[test]
fn fuel_bounds_a_run() {
    let ops = parse("while true { }").unwrap();
    let mut regs = Registers::new();
    let mut variables: AHashMap<String, Variable> = AHashMap::new();
    let mut functions: AHashMap<String, FnDef> = AHashMap::new();
    let mut classes: AHashMap<String, ClassDef> = AHashMap::new();
    let mut host = Console::new(TestHost::default());
    let r = runner(&ops, &mut regs, &mut variables, &mut functions, &mut classes, &mut host, 100);
    assert_eq!(r, Err(ExecError::OutOfFuel));
}

#[test]
fn input_is_read_and_typed() {
    let ops = parse("io read $a1; io read $a2; io readln $a3;").unwrap();
    let mut regs = Registers::new();
    let mut variables: AHashMap<String, Variable> = AHashMap::new();
    let mut functions: AHashMap<String, FnDef> = AHashMap::new();
    let mut classes: AHashMap<String, ClassDef> = AHashMap::new();
    let mut host = Console::new(TestHost {
        input: vec!["42\n".to_string(), "2.5\n".to_string(), "hi there\r\n".to_string()],
        ..TestHost::default()
    });
    runner(&ops, &mut regs, &mut variables, &mut functions, &mut classes, &mut host, u64::MAX).unwrap();
    assert_eq!(regs.read(Register::A1), &Value::U8(42));
    assert_eq!(regs.read(Register::A2), &Value::F32(2.5f32.to_bits()));
    assert_eq!(regs.read(Register::A3), &Value::String("hi there".to_string()));
}

#[test]
fn float_arithmetic_through_the_host() {
    let regs = run("$a1 = 1.5 + 2.25; $a2 = 1.5 < 2.5;");
    assert_eq!(regs.read(Register::A1), &Value::F32(3.75f32.to_bits()));
    assert_eq!(regs.read(Register::A2), &Value::Bool(true));
}

#[test]
fn nested_field_assignment() {
    let (_, vars) = run_with_vars(
        "class In { let v = 1; } class Out { let inner = 0; } \
         let mut o = new Out(); let i = new In(); o.inner = i; o.inner.v = 5; $a1 = o.inner.v;",
    );
    match &vars.get("o").unwrap().value {
        Value::Object(inst) => match inst.get_field("inner") {
            Some(Value::Object(inner)) => assert_eq!(inner.get_field("v"), Some(&Value::U8(5))),
            other => panic!("expected object, got {other:?}"),
        },
        other => panic!("expected object, got {other:?}"),
    }
}

// ── Parsing edge cases ──────────────────────────────────────────────

#[test]
fn plain_string_literal_is_itself() {
    let ops = parse("$a1 = \"plain text\";").unwrap();
    assert_eq!(
        ops[0],
        OpCode::Expr(Expr::Operand(Operand::Literal(Value::String("plain text".into()))), Operand::Register(Register::A1))
    );
}

#[test]
fn hex_and_unicode_escapes() {
    let ops = parse(r#"$a1 = "\x41\u{4e2d}";"#).unwrap();
    assert_eq!(
        ops[0],
        OpCode::Expr(Expr::Operand(Operand::Literal(Value::String("A\u{4e2d}".into()))), Operand::Register(Register::A1))
    );
}

#[test]
fn negative_literals_fold() {
    let ops = parse("$a1 = -128; $a2 = -300; $a3 = -2147483648;").unwrap();
    assert!(matches!(&ops[0], OpCode::Expr(Expr::Operand(Operand::Literal(Value::I32(-128))), _)));
    assert!(matches!(&ops[1], OpCode::Expr(Expr::Operand(Operand::Literal(Value::I128(-300))), _)));
    assert!(matches!(&ops[2], OpCode::Expr(Expr::Operand(Operand::Literal(Value::I128(-2147483648))), _)));
}

#[test]
fn comments_are_skipped() {
    let ops = parse("// a comment\n$a1 = 1; /* block\ncomment */ $a2 = 2;").unwrap();
    assert_eq!(ops.len(), 2);
}

#[test]
fn stray_close_brace_ends_the_program() {
    let ops = parse("$a1 = 1; } $a2 = 2;").unwrap();
    assert_eq!(ops.len(), 1);
}

#[test]
fn tokens_keep_quoted_spaces() {
    let cs = chars_of("  add 1 \"a b\" $a1  ");
    let toks = tokenize(&cs, 0, cs.len()).unwrap();
    assert_eq!(toks, vec![(2, 5), (6, 7), (8, 13), (14, 17)]);
}

#[test]
fn field_access_in_expression_parses() {
    let ops = parse("$a1 = a.b.c;").unwrap();
    match &ops[0] {
        OpCode::Expr(Expr::Field(inner, c), _) => {
            assert_eq!(c, "c");
            assert!(matches!(&**inner, Expr::Field(_, b) if b == "b"));
        }
        other => panic!("expected field access, got {other:?}"),
    }
}

// ── Console input and display ───────────────────────────────────────

#[test]
fn stdin_values() {
    assert_eq!(parse_stdin_value(&read_f32, " 42 \n"), Value::U8(42));
    assert_eq!(parse_stdin_value(&read_f32, "300"), Value::U32(300));
    assert_eq!(parse_stdin_value(&read_f32, "-1"), Value::I32(-1));
    assert_eq!(parse_stdin_value(&read_f32, "true"), Value::Bool(true));
    assert_eq!(parse_stdin_value(&read_f32, "\n"), Value::String(String::new()));
    assert_eq!(parse_stdin_value(&read_f32, "abc"), Value::String("abc".into()));
    assert_eq!(parse_stdin_value(&read_f32, "2.5"), Value::F32(2.5f32.to_bits()));
    assert_eq!(strip_line_end("abc\r\n"), "abc");
    assert_eq!(strip_line_end("abc"), "abc");
}

#[test]
fn display_texts() {
    let mut h = Console::new(TestHost::default());
    assert_eq!(value_text(&Value::Nil, &mut h), "None");
    assert_eq!(value_text(&Value::I32(i32::MIN), &mut h), "-2147483648");
    assert_eq!(value_text(&Value::I128(i128::MIN), &mut h), "-170141183460469231731687303715884105728");
    assert_eq!(value_text(&Value::U128(u128::MAX), &mut h), "340282366920938463463374607431768211455");
    assert_eq!(value_text(&Value::Bool(false), &mut h), "false");
    assert_eq!(value_text(&Value::String("s t".into()), &mut h), "s t");
    assert_eq!(value_text(&Value::F32(2.5f32.to_bits()), &mut h), "2.5");
    let mut inner = Instance { class: "In".to_string(), fields: Vec::new() };
    inner.set_field("v".to_string(), Value::U8(1));
    let mut outer = Instance { class: "Out".to_string(), fields: Vec::new() };
    outer.set_field("i".to_string(), Value::Object(Box::new(inner)));
    outer.set_field("a".to_string(), Value::String("x".into()));
    assert_eq!(value_text(&Value::Object(Box::new(outer)), &mut h), "Out { a: x, i: In { v: 1 } }");
}

#[test]
fn negating_unsigned_literals_folds_exactly() {
    let ops = parse("$a1 = -170141183460469231731687303715884105728; $a2 = -300; $a3 = -128;").unwrap();
    let lit = |i: usize| match &ops[i] {
        OpCode::Expr(Expr::Operand(Operand::Literal(v)), _) => copy_value(v),
        other => panic!("expected a literal, got {other:?}"),
    };
    assert_eq!(lit(0), Value::I128(i128::MIN));
    assert_eq!(lit(1), Value::I128(-300));
    assert_eq!(lit(2), Value::I32(-128));
    assert_eq!(parse("$a1 = -340282366920938463463374607431768211455;"), Err(ParseError::NegationOverflow));
}

#[test]
fn strings_compare_lexicographically() {
    let a = Value::String("apple".into());
    let b = Value::String("banana".into());
    let ab = Value::String("ab".into());
    assert_eq!(a.lt_val(&b), Value::Bool(true));
    assert_eq!(b.lt_val(&a), Value::Bool(false));
    assert_eq!(a.le_val(&copy_value(&a)), Value::Bool(true));
    assert_eq!(b.gt_val(&a), Value::Bool(true));
    assert_eq!(a.ge_val(&b), Value::Bool(false));
    assert_eq!(ab.lt_val(&a), Value::Bool(true));
    assert_eq!(Value::String("ap".into()).lt_val(&a), Value::Bool(true));
    let regs = run("$a1 = \"abc\" < \"abd\"; $a2 = \"b\" >= \"abc\";");
    assert_eq!(regs.read(Register::A1), &Value::Bool(true));
    assert_eq!(regs.read(Register::A2), &Value::Bool(true));
}

#[test]
fn loop_ends_with_condition_false() {
    let regs = run("$a1 = 0; while $a1 < 3 { $a1 = $a1 + 1; }");
    assert_eq!(regs.read(Register::A1), &Value::U8(3));
}

#[test]
fn call_restores_shadowed_parameter() {
    let (regs, vars) = run_with_vars("let x = 7; fn f(x) { return x + 1; } $a1 = call f(1);");
    assert_eq!(regs.read(Register::A1), &Value::U8(2));
    assert_eq!(vars.get("x").unwrap().value, Value::U8(7));
    assert_eq!(regs.read(Register::SystemVarBuffer), &Value::Nil);
}

#[test]
fn let_moves_value_out_of_the_buffer() {
    let (regs, vars) = run_with_vars("let mut y = 4 * 5;");
    assert_eq!(vars.get("y").unwrap().value, Value::U8(20));
    assert!(vars.get("y").unwrap().is_mut);
    assert_eq!(regs.read(Register::SystemVarBuffer), &Value::Nil);
}

#[test]
fn console_gets_each_written_text() {
    let (r, _, _, host) = execute("let s = \"a\"; io write s; io writeln 7; io writeln true; $a1 = -3; io write $a1;");
    r.unwrap();
    assert_eq!(host.out, "a7\ntrue\n-3");
}

#[test]
fn escaped_text_reads_back_as_itself() {
    let ops = parse(r#"$a1 = "x\\y\"z\n\tw";"#).unwrap();
    match &ops[0] {
        OpCode::Expr(Expr::Operand(Operand::Literal(Value::String(s))), _) => assert_eq!(s, "x\\y\"z\n\tw"),
        other => panic!("expected a string literal, got {other:?}"),
    }
}

#[test]
fn float_operands_reach_the_host_in_order() {
    let (r, regs, _, host) = execute("$a1 = 5.0 - 2.0; sub 1.0 4.0 $a2; $a3 = 8.0 / 2.0; io writeln $a1; io write 0.5;");
    r.unwrap();
    assert_eq!(regs.read(Register::A1), &Value::F32(3.0f32.to_bits()));
    assert_eq!(regs.read(Register::A2), &Value::F32((-3.0f32).to_bits()));
    assert_eq!(regs.read(Register::A3), &Value::F32(4.0f32.to_bits()));
    assert_eq!(host.out, "3\n0.5");
}
