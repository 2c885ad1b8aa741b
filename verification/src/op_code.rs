//! Instruction definitions: [`OpCode`], [`Operand`] and [`IoOp`].
use vstd::prelude::*;

use crate::class::ClassDef;
use crate::expr::ExprV;
use crate::function::FnDef;
use crate::register::Register;
use crate::value::{Value, ValueV};
use crate::variable::{Variable, VariableV};
pub use crate::expr::{BinOp, Expr, UnOp};

verus! {

/// An operand: an immediate value, a register, or a named variable.
#[derive(Debug, PartialEq)]
pub enum Operand {
    Literal(Value),
    Register(Register),
    Variable(String, Variable),
}

/// Mathematical model of an [`Operand`].
pub enum OperandV {
    Literal(ValueV),
    Register(Register),
    Variable(Seq<char>, VariableV),
}

impl View for Operand {
    type V = OperandV;

    open spec fn view(&self) -> OperandV {
        match self {
            Operand::Literal(v) => OperandV::Literal(v@),
            Operand::Register(r) => OperandV::Register(*r),
            Operand::Variable(n, v) => OperandV::Variable(n@, v@),
        }
    }
}

/// Input/output operation kind.
#[derive(Debug, PartialEq)]
pub enum IoOp {
    /// Print the operand without a trailing newline (and flush).
    Write(Operand),
    /// Print the operand followed by a newline.
    Writeln(Operand),
    /// Read a line, infer its value type, store it in the register.
    Read(Register),
    /// Read a line, store it as a `String` in the register.
    Readln(Register),
}

/// A single VM instruction.
#[derive(Debug, PartialEq)]
pub enum OpCode {
    Add(Operand, Operand, Register),
    Sub(Operand, Operand, Register),
    Mul(Operand, Operand, Register),
    Div(Operand, Operand, Register),
    /// Prints the operand followed by a newline.
    Println(Operand),
    /// Prints the operand without a trailing newline (and flushes).
    Print(Operand),
    /// A nested sequence of instructions run in the enclosing context.
    Block(Vec<OpCode>),
    /// Evaluates the expression and writes the result to the destination.
    Expr(Expr, Operand),
    /// Conditional: runs the then-body on `Bool(true)`, the optional
    /// else-body on `Bool(false)`.
    If(Expr, Vec<OpCode>, Option<Vec<OpCode>>),
    /// Input or output.
    IO(IoOp),
    /// Runs the body while the condition evaluates to `Bool(true)`.
    While(Expr, Vec<OpCode>),
    /// Declares a variable holding the value left in `SystemVarBuffer`.
    Variable(String, Variable),
    /// Registers a function; the body is not run inline.
    FnDef { name: String, params: Vec<String>, body: Vec<OpCode> },
    /// Calls a function with the argument values, writing its return value
    /// to `dest`.
    Call { name: String, args: Vec<Expr>, dest: Operand },
    /// Writes the value of the expression to `SystemVarBuffer`.
    Return(Expr),
    /// Registers a class.
    ClassDef { name: String, def: ClassDef },
    /// Constructs an object: field initializers, then `init` if present.
    New { class: String, args: Vec<Expr>, dest: Operand },
    /// Calls a method on the object held by the variable `recv`.
    MethodCall { recv: String, method: String, args: Vec<Expr>, dest: Operand },
    /// Writes a value into the field at the end of a path from `base`.
    SetField { base: String, path: Vec<String>, value: Expr },
}

/// Mathematical model of an [`IoOp`].
pub enum IoOpV {
    Write(OperandV),
    Writeln(OperandV),
    Read(Register),
    Readln(Register),
}

/// Mathematical model of a [`FnDef`].
pub struct FnDefV {
    pub params: Seq<Seq<char>>,
    pub body: Seq<OpCodeV>,
}

/// Mathematical model of a [`ClassDef`].
pub struct ClassDefV {
    pub fields: Seq<(Seq<char>, ExprV)>,
    pub methods: Seq<(Seq<char>, FnDefV)>,
}

/// Mathematical model of an [`OpCode`].
pub enum OpCodeV {
    Add(OperandV, OperandV, Register),
    Sub(OperandV, OperandV, Register),
    Mul(OperandV, OperandV, Register),
    Div(OperandV, OperandV, Register),
    Println(OperandV),
    Print(OperandV),
    Block(Seq<OpCodeV>),
    Expr(ExprV, OperandV),
    If(ExprV, Seq<OpCodeV>, Option<Seq<OpCodeV>>),
    IO(IoOpV),
    While(ExprV, Seq<OpCodeV>),
    Variable(Seq<char>, VariableV),
    FnDef { name: Seq<char>, params: Seq<Seq<char>>, body: Seq<OpCodeV> },
    Call { name: Seq<char>, args: Seq<ExprV>, dest: OperandV },
    Return(ExprV),
    ClassDef { name: Seq<char>, def: ClassDefV },
    New { class: Seq<char>, args: Seq<ExprV>, dest: OperandV },
    MethodCall { recv: Seq<char>, method: Seq<char>, args: Seq<ExprV>, dest: OperandV },
    SetField { base: Seq<char>, path: Seq<Seq<char>>, value: ExprV },
}

pub open spec fn strings_view(s: Seq<String>) -> Seq<Seq<char>> {
    s.map_values(|x: String| x@)
}

pub open spec fn exprs_view(s: Seq<Expr>) -> Seq<ExprV> {
    s.map_values(|x: Expr| x@)
}

pub open spec fn class_fields_view(s: Seq<(String, Expr)>) -> Seq<(Seq<char>, ExprV)> {
    s.map_values(|x: (String, Expr)| (x.0@, x.1@))
}

pub open spec fn io_view(o: IoOp) -> IoOpV {
    match o {
        IoOp::Write(x) => IoOpV::Write(x@),
        IoOp::Writeln(x) => IoOpV::Writeln(x@),
        IoOp::Read(r) => IoOpV::Read(r),
        IoOp::Readln(r) => IoOpV::Readln(r),
    }
}

pub open spec fn opcode_view(o: OpCode) -> OpCodeV
    decreases o, 0nat,
{
    match o {
        OpCode::Add(a, b, r) => OpCodeV::Add(a@, b@, r),
        OpCode::Sub(a, b, r) => OpCodeV::Sub(a@, b@, r),
        OpCode::Mul(a, b, r) => OpCodeV::Mul(a@, b@, r),
        OpCode::Div(a, b, r) => OpCodeV::Div(a@, b@, r),
        OpCode::Println(a) => OpCodeV::Println(a@),
        OpCode::Print(a) => OpCodeV::Print(a@),
        OpCode::Block(v) => OpCodeV::Block(ops_view(v@)),
        OpCode::Expr(e, d) => OpCodeV::Expr(e@, d@),
        OpCode::If(c, t, e) => OpCodeV::If(c@, ops_view(t@), match e {
            Some(v) => Some(ops_view(v@)),
            None => None,
        }),
        OpCode::IO(x) => OpCodeV::IO(io_view(x)),
        OpCode::While(c, b) => OpCodeV::While(c@, ops_view(b@)),
        OpCode::Variable(n, v) => OpCodeV::Variable(n@, v@),
        OpCode::FnDef { name, params, body } => OpCodeV::FnDef {
            name: name@,
            params: strings_view(params@),
            body: ops_view(body@),
        },
        OpCode::Call { name, args, dest } => OpCodeV::Call { name: name@, args: exprs_view(args@), dest: dest@ },
        OpCode::Return(e) => OpCodeV::Return(e@),
        OpCode::ClassDef { name, def } => OpCodeV::ClassDef {
            name: name@,
            def: ClassDefV { fields: class_fields_view(def.fields@), methods: methods_view(def.methods@) },
        },
        OpCode::New { class, args, dest } => OpCodeV::New { class: class@, args: exprs_view(args@), dest: dest@ },
        OpCode::MethodCall { recv, method, args, dest } => OpCodeV::MethodCall {
            recv: recv@,
            method: method@,
            args: exprs_view(args@),
            dest: dest@,
        },
        OpCode::SetField { base, path, value } => OpCodeV::SetField {
            base: base@,
            path: strings_view(path@),
            value: value@,
        },
    }
}

pub open spec fn ops_view(s: Seq<OpCode>) -> Seq<OpCodeV>
    decreases s, s.len(),
{
    if s.len() == 0 {
        seq![]
    } else {
        ops_view(s.drop_last()).push(opcode_view(s.last()))
    }
}

pub open spec fn fndef_view(d: FnDef) -> FnDefV
    decreases d, 0nat,
{
    FnDefV { params: strings_view(d.params@), body: ops_view(d.body@) }
}

pub open spec fn methods_view(s: Seq<(String, FnDef)>) -> Seq<(Seq<char>, FnDefV)>
    decreases s, s.len(),
{
    if s.len() == 0 {
        seq![]
    } else {
        methods_view(s.drop_last()).push((s.last().0@, fndef_view(s.last().1)))
    }
}

impl View for IoOp {
    type V = IoOpV;

    open spec fn view(&self) -> IoOpV {
        io_view(*self)
    }
}

impl View for OpCode {
    type V = OpCodeV;

    open spec fn view(&self) -> OpCodeV {
        opcode_view(*self)
    }
}

impl View for FnDef {
    type V = FnDefV;

    open spec fn view(&self) -> FnDefV {
        fndef_view(*self)
    }
}

impl View for ClassDef {
    type V = ClassDefV;

    open spec fn view(&self) -> ClassDefV {
        ClassDefV { fields: class_fields_view(self.fields@), methods: methods_view(self.methods@) }
    }
}

pub proof fn lemma_ops_view_push(s: Seq<OpCode>, x: OpCode)
    ensures
        ops_view(s.push(x)) == ops_view(s).push(x@),
{
    assert(s.push(x).drop_last() =~= s);
}

pub proof fn lemma_ops_view_append(a: Seq<OpCode>, b: Seq<OpCode>)
    ensures
        ops_view(a + b) == ops_view(a) + ops_view(b),
    decreases b.len(),
{
    if b.len() == 0 {
        assert(a + b =~= a);
        assert(ops_view(a) + ops_view(b) =~= ops_view(a));
    } else {
        lemma_ops_view_append(a, b.drop_last());
        assert((a + b).drop_last() =~= a + b.drop_last());
        assert((a + b).last() == b.last());
        assert(ops_view(a) + ops_view(b) =~= (ops_view(a) + ops_view(b.drop_last())).push(b.last()@));
    }
}

pub proof fn lemma_ops_view_len(s: Seq<OpCode>)
    ensures
        ops_view(s).len() == s.len(),
    decreases s.len(),
{
    if s.len() > 0 {
        lemma_ops_view_len(s.drop_last());
    }
}

pub proof fn lemma_ops_view_index(s: Seq<OpCode>, i: int)
    requires
        0 <= i < s.len(),
    ensures
        ops_view(s).len() == s.len(),
        ops_view(s)[i] == s[i]@,
    decreases s.len(),
{
    lemma_ops_view_len(s);
    if i < s.len() - 1 {
        lemma_ops_view_index(s.drop_last(), i);
    }
}

pub proof fn lemma_methods_view_index(s: Seq<(String, FnDef)>, i: int)
    requires
        0 <= i < s.len(),
    ensures
        methods_view(s).len() == s.len(),
        methods_view(s)[i] == (s[i].0@, s[i].1@),
    decreases s.len(),
{
    lemma_methods_view_len(s);
    if i < s.len() - 1 {
        lemma_methods_view_index(s.drop_last(), i);
    }
}

pub proof fn lemma_methods_view_len(s: Seq<(String, FnDef)>)
    ensures
        methods_view(s).len() == s.len(),
    decreases s.len(),
{
    if s.len() > 0 {
        lemma_methods_view_len(s.drop_last());
    }
}

} // verus!
