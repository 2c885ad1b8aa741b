//! Class definitions.
use vstd::prelude::*;

use crate::expr::Expr;
use crate::function::FnDef;

verus! {

/// Stored representation of a user-defined class: field initializers in
/// declaration order (evaluated at construction) and the methods, each
/// name at most once. By convention a method's first parameter is `self`.
#[derive(Debug, PartialEq)]
pub struct ClassDef {
    pub fields: Vec<(String, Expr)>,
    pub methods: Vec<(String, FnDef)>,
}

} // verus!
