//! Deep copies of the VM's data, each equal to its source.
use vstd::prelude::*;

use crate::class::ClassDef;
use crate::expr::Expr;
use crate::function::FnDef;
use crate::op_code::{
    class_fields_view, exprs_view, lemma_ops_view_push, methods_view, ops_view, strings_view, IoOp,
    OpCode, Operand,
};
use crate::value::{fields_view, Instance, Value};
use crate::variable::Variable;

verus! {

/// A copy of `v`.
pub fn copy_value(v: &Value) -> (r: Value)
    ensures
        r@ == v@,
    decreases v, 0nat,
{
    match v {
        Value::Nil => Value::Nil,
        Value::I32(n) => Value::I32(*n),
        Value::I128(n) => Value::I128(*n),
        Value::U8(n) => Value::U8(*n),
        Value::U32(n) => Value::U32(*n),
        Value::U128(n) => Value::U128(*n),
        Value::F32(n) => Value::F32(*n),
        Value::F64(n) => Value::F64(*n),
        Value::Bool(b) => Value::Bool(*b),
        Value::String(s) => Value::String(s.clone()),
        Value::Object(b) => {
            let fields = copy_fields(&b.fields);
            Value::Object(Box::new(Instance { class: b.class.clone(), fields }))
        },
    }
}

/// A copy of an object's fields.
pub fn copy_fields(fs: &Vec<(String, Value)>) -> (r: Vec<(String, Value)>)
    ensures
        fields_view(r@) == fields_view(fs@),
    decreases fs@, fs@.len(),
{
    let mut out: Vec<(String, Value)> = Vec::new();
    let mut i: usize = 0;
    while i < fs.len()
        invariant
            i <= fs@.len(),
            fields_view(out@) == fields_view(fs@.take(i as int)),
        decreases fs@.len() - i,
    {
        let ghost before = out@;
        let k = fs[i].0.clone();
        let v = copy_value(&fs[i].1);
        out.push((k, v));
        proof {
            assert(out@.drop_last() =~= before);
            assert(fs@.take(i + 1).drop_last() =~= fs@.take(i as int));
        }
        i += 1;
    }
    proof { assert(fs@.take(fs@.len() as int) =~= fs@); }
    out
}

pub fn copy_variable(v: &Variable) -> (r: Variable)
    ensures
        r@ == v@,
{
    Variable { is_mut: v.is_mut, value: copy_value(&v.value) }
}

pub fn copy_operand(o: &Operand) -> (r: Operand)
    ensures
        r@ == o@,
{
    match o {
        Operand::Literal(v) => Operand::Literal(copy_value(v)),
        Operand::Register(reg) => Operand::Register(*reg),
        Operand::Variable(n, v) => Operand::Variable(n.clone(), copy_variable(v)),
    }
}

pub fn copy_expr(e: &Expr) -> (r: Expr)
    ensures
        r@ == e@,
    decreases e,
{
    match e {
        Expr::Operand(o) => Expr::Operand(copy_operand(o)),
        Expr::Binary(l, op, r) => Expr::Binary(Box::new(copy_expr(l)), *op, Box::new(copy_expr(r))),
        Expr::Unary(op, x) => Expr::Unary(*op, Box::new(copy_expr(x))),
        Expr::Field(x, n) => Expr::Field(Box::new(copy_expr(x)), n.clone()),
    }
}

pub fn copy_exprs(es: &Vec<Expr>) -> (r: Vec<Expr>)
    ensures
        exprs_view(r@) == exprs_view(es@),
{
    let mut out: Vec<Expr> = Vec::new();
    let mut i: usize = 0;
    while i < es.len()
        invariant
            i <= es@.len(),
            exprs_view(out@) == exprs_view(es@.take(i as int)),
        decreases es@.len() - i,
    {
        let ghost before = out@;
        out.push(copy_expr(&es[i]));
        proof {
            assert(exprs_view(out@) =~= exprs_view(before).push(es@[i as int]@));
            assert(exprs_view(es@.take(i + 1)) =~= exprs_view(es@.take(i as int)).push(es@[i as int]@));
        }
        i += 1;
    }
    proof { assert(es@.take(es@.len() as int) =~= es@); }
    out
}

pub fn copy_strings(ss: &Vec<String>) -> (r: Vec<String>)
    ensures
        strings_view(r@) == strings_view(ss@),
{
    let mut out: Vec<String> = Vec::new();
    let mut i: usize = 0;
    while i < ss.len()
        invariant
            i <= ss@.len(),
            strings_view(out@) == strings_view(ss@.take(i as int)),
        decreases ss@.len() - i,
    {
        let ghost before = out@;
        out.push(ss[i].clone());
        proof {
            assert(strings_view(out@) =~= strings_view(before).push(ss@[i as int]@));
            assert(strings_view(ss@.take(i + 1)) =~= strings_view(ss@.take(i as int)).push(ss@[i as int]@));
        }
        i += 1;
    }
    proof { assert(ss@.take(ss@.len() as int) =~= ss@); }
    out
}

/// A copy of an instruction.
pub fn copy_opcode(o: &OpCode) -> (r: OpCode)
    ensures
        r@ == o@,
    decreases o, 0nat,
{
    match o {
        OpCode::Add(a, b, d) => OpCode::Add(copy_operand(a), copy_operand(b), *d),
        OpCode::Sub(a, b, d) => OpCode::Sub(copy_operand(a), copy_operand(b), *d),
        OpCode::Mul(a, b, d) => OpCode::Mul(copy_operand(a), copy_operand(b), *d),
        OpCode::Div(a, b, d) => OpCode::Div(copy_operand(a), copy_operand(b), *d),
        OpCode::Println(a) => OpCode::Println(copy_operand(a)),
        OpCode::Print(a) => OpCode::Print(copy_operand(a)),
        OpCode::Block(v) => OpCode::Block(copy_ops(v)),
        OpCode::Expr(e, d) => OpCode::Expr(copy_expr(e), copy_operand(d)),
        OpCode::If(c, t, e) => OpCode::If(copy_expr(c), copy_ops(t), match e {
            Some(v) => Some(copy_ops(v)),
            None => None,
        }),
        OpCode::IO(x) => OpCode::IO(match x {
            IoOp::Write(a) => IoOp::Write(copy_operand(a)),
            IoOp::Writeln(a) => IoOp::Writeln(copy_operand(a)),
            IoOp::Read(r) => IoOp::Read(*r),
            IoOp::Readln(r) => IoOp::Readln(*r),
        }),
        OpCode::While(c, b) => OpCode::While(copy_expr(c), copy_ops(b)),
        OpCode::Variable(n, v) => OpCode::Variable(n.clone(), copy_variable(v)),
        OpCode::FnDef { name, params, body } => OpCode::FnDef {
            name: name.clone(),
            params: copy_strings(params),
            body: copy_ops(body),
        },
        OpCode::Call { name, args, dest } => OpCode::Call { name: name.clone(), args: copy_exprs(args), dest: copy_operand(dest) },
        OpCode::Return(e) => OpCode::Return(copy_expr(e)),
        OpCode::ClassDef { name, def } => OpCode::ClassDef { name: name.clone(), def: copy_class(def) },
        OpCode::New { class, args, dest } => OpCode::New { class: class.clone(), args: copy_exprs(args), dest: copy_operand(dest) },
        OpCode::MethodCall { recv, method, args, dest } => OpCode::MethodCall {
            recv: recv.clone(),
            method: method.clone(),
            args: copy_exprs(args),
            dest: copy_operand(dest),
        },
        OpCode::SetField { base, path, value } => OpCode::SetField {
            base: base.clone(),
            path: copy_strings(path),
            value: copy_expr(value),
        },
    }
}

/// A copy of a list of instructions.
pub fn copy_ops(v: &Vec<OpCode>) -> (r: Vec<OpCode>)
    ensures
        ops_view(r@) == ops_view(v@),
    decreases v@, v@.len(),
{
    let mut out: Vec<OpCode> = Vec::new();
    let mut i: usize = 0;
    while i < v.len()
        invariant
            i <= v@.len(),
            ops_view(out@) == ops_view(v@.take(i as int)),
        decreases v@.len() - i,
    {
        let ghost before = out@;
        let c = copy_opcode(&v[i]);
        out.push(c);
        proof {
            lemma_ops_view_push(before, out@.last());
            assert(out@ =~= before.push(out@.last()));
            assert(v@.take(i + 1).drop_last() =~= v@.take(i as int));
        }
        i += 1;
    }
    proof { assert(v@.take(v@.len() as int) =~= v@); }
    out
}

/// A copy of a function definition.
pub fn copy_fndef(d: &FnDef) -> (r: FnDef)
    ensures
        r@ == d@,
    decreases d, 0nat,
{
    FnDef { params: copy_strings(&d.params), body: copy_ops(&d.body) }
}

/// A copy of a class definition.
pub fn copy_class(c: &ClassDef) -> (r: ClassDef)
    ensures
        r@ == c@,
    decreases c, 0nat,
{
    let mut fields: Vec<(String, Expr)> = Vec::new();
    let mut i: usize = 0;
    while i < c.fields.len()
        invariant
            i <= c.fields@.len(),
            class_fields_view(fields@) == class_fields_view(c.fields@.take(i as int)),
        decreases c.fields@.len() - i,
    {
        let ghost before = fields@;
        fields.push((c.fields[i].0.clone(), copy_expr(&c.fields[i].1)));
        proof {
            assert(class_fields_view(fields@) =~= class_fields_view(before).push((c.fields@[i as int].0@, c.fields@[i as int].1@)));
            assert(class_fields_view(c.fields@.take(i + 1)) =~= class_fields_view(c.fields@.take(i as int)).push((c.fields@[i as int].0@, c.fields@[i as int].1@)));
        }
        i += 1;
    }
    proof { assert(c.fields@.take(c.fields@.len() as int) =~= c.fields@); }
    let mut methods: Vec<(String, FnDef)> = Vec::new();
    let mut j: usize = 0;
    while j < c.methods.len()
        invariant
            j <= c.methods@.len(),
            methods_view(methods@) == methods_view(c.methods@.take(j as int)),
        decreases c.methods@.len() - j,
    {
        let ghost before = methods@;
        let d = copy_fndef(&c.methods[j].1);
        methods.push((c.methods[j].0.clone(), d));
        proof {
            assert(methods@.drop_last() =~= before);
            assert(c.methods@.take(j + 1).drop_last() =~= c.methods@.take(j as int));
        }
        j += 1;
    }
    proof { assert(c.methods@.take(c.methods@.len() as int) =~= c.methods@); }
    ClassDef { fields, methods }
}

} // verus!
