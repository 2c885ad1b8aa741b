//! Register identifiers and the runtime register file.
use vstd::prelude::*;

use crate::value::{Value, ValueV};

verus! {

/// One of five general-purpose registers (A1–A5), or the internal buffer
/// through which `let`, calls and returns pass their values.
#[derive(Debug, Clone, Copy, PartialEq, Eq, Structural)]
pub enum Register {
    A1,
    A2,
    A3,
    A4,
    A5,
    SystemVarBuffer,
}

impl Register {
    /// The position of the register in the register file.
    pub open spec fn spec_index(self) -> int {
        match self {
            Register::A1 => 0,
            Register::A2 => 1,
            Register::A3 => 2,
            Register::A4 => 3,
            Register::A5 => 4,
            Register::SystemVarBuffer => 5,
        }
    }

    /// Maps the register to its position in the register file.
    pub fn index(self) -> (r: usize)
        ensures
            r == self.spec_index(),
    {
        match self {
            Register::A1 => 0,
            Register::A2 => 1,
            Register::A3 => 2,
            Register::A4 => 3,
            Register::A5 => 4,
            Register::SystemVarBuffer => 5,
        }
    }
}

/// Distinct registers occupy distinct slots of the register file.
pub proof fn lemma_index_injective(a: Register, b: Register)
    ensures
        a.spec_index() == b.spec_index() <==> a == b,
        0 <= a.spec_index() < 6,
{
}

/// The runtime register file: one value per register.
#[derive(Debug)]
pub struct Registers {
    inner: [Value; 6],
}

impl View for Registers {
    type V = Seq<ValueV>;

    /// The value held by each register, in index order.
    closed spec fn view(&self) -> Seq<ValueV> {
        Seq::new(6, |i: int| self.inner@[i]@)
    }
}

impl Registers {
    /// The value currently held by `reg`.
    pub closed spec fn value_of(&self, reg: Register) -> Value {
        self.inner@[reg.spec_index()]
    }

    pub proof fn lemma_view(&self)
        ensures
            self@.len() == 6,
            forall|r: Register| #[trigger] self@[r.spec_index()] == self.value_of(r)@,
    {
    }

    /// A register file with every register set to `Nil`.
    pub fn new() -> (r: Self)
        ensures
            forall|reg: Register| #[trigger] r.value_of(reg) == Value::Nil,
            r@ == Seq::new(6, |i: int| ValueV::Nil),
    {
        let r = Registers { inner: [Value::Nil, Value::Nil, Value::Nil, Value::Nil, Value::Nil, Value::Nil] };
        proof { assert(r@ =~= Seq::new(6, |i: int| ValueV::Nil)); }
        r
    }

    /// The value stored in `reg`.
    pub fn read(&self, reg: Register) -> (r: &Value)
        ensures
            *r == self.value_of(reg),
            r@ == self@[reg.spec_index()],
    {
        &self.inner[reg.index()]
    }

    /// Stores `value` in `reg`; every other register keeps its value.
    pub fn write(&mut self, reg: Register, value: Value)
        ensures
            final(self)@ == old(self)@.update(reg.spec_index(), value@),
            final(self).value_of(reg) == value,
            forall|other: Register| other != reg ==> #[trigger] final(self).value_of(other) == old(self).value_of(other),
    {
        let i = reg.index();
        self.inner[i] = value;
        proof { assert(self@ =~= old(self)@.update(reg.spec_index(), self.inner@[i as int]@)); }
    }

    /// Moves the value out of `reg`, leaving `Nil` there.
    pub fn take(&mut self, reg: Register) -> (r: Value)
        ensures
            r@ == old(self)@[reg.spec_index()],
            final(self)@ == old(self)@.update(reg.spec_index(), ValueV::Nil),
            r == old(self).value_of(reg),
            final(self).value_of(reg) == Value::Nil,
            forall|other: Register| other != reg ==> #[trigger] final(self).value_of(other) == old(self).value_of(other),
    {
        let i = reg.index();
        let mut out = Value::Nil;
        std::mem::swap(&mut out, &mut self.inner[i]);
        proof { assert(self@ =~= old(self)@.update(reg.spec_index(), ValueV::Nil)); }
        out
    }
}

impl Default for Registers {
    fn default() -> (r: Self)
        ensures
            forall|reg: Register| #[trigger] r.value_of(reg) == Value::Nil,
    {
        Self::new()
    }
}

} // verus!
