//! Named variables.
use vstd::prelude::*;

use crate::value::{Value, ValueV};

verus! {

/// A variable: whether it may be reassigned, and its current value.
#[derive(Debug, PartialEq)]
pub struct Variable {
    pub is_mut: bool,
    pub value: Value,
}

/// Mathematical model of a [`Variable`].
pub struct VariableV {
    pub is_mut: bool,
    pub value: ValueV,
}

impl View for Variable {
    type V = VariableV;

    open spec fn view(&self) -> VariableV {
        VariableV { is_mut: self.is_mut, value: self.value@ }
    }
}

} // verus!
