//! User-defined functions.
use vstd::prelude::*;

use crate::op_code::OpCode;

verus! {

/// Stored representation of a user-defined function: parameter names and
/// the body, registered at definition time and replayed on each call.
#[derive(Debug, PartialEq)]
pub struct FnDef {
    pub params: Vec<String>,
    pub body: Vec<OpCode>,
}

} // verus!
