//! The tables the VM keeps by name: variables, functions and classes.
//! They are `ahash::AHashMap`s; what each holds is named below, and each
//! operation the VM uses is stated over those names.
use vstd::prelude::*;

use ahash::{AHashMap, RandomState};

use crate::class::ClassDef;
use crate::function::FnDef;
use crate::op_code::{ClassDefV, FnDefV};
use crate::variable::{Variable, VariableV};

verus! {

#[verifier::external_type_specification]
#[verifier::external_body]
#[verifier::reject_recursive_types(K)]
#[verifier::reject_recursive_types(V)]
#[verifier::reject_recursive_types(S)]
pub struct ExAHashMap<K, V, S>(AHashMap<K, V, S>);

#[verifier::external_type_specification]
#[verifier::external_body]
pub struct ExRandomState(RandomState);

/// The variables a table holds, by name.
pub uninterp spec fn variables_of(m: AHashMap<String, Variable>) -> Map<Seq<char>, VariableV>;

/// The functions a table holds, by name.
pub uninterp spec fn functions_of(m: AHashMap<String, FnDef>) -> Map<Seq<char>, FnDefV>;

/// The classes a table holds, by name.
pub uninterp spec fn classes_of(m: AHashMap<String, ClassDef>) -> Map<Seq<char>, ClassDefV>;

/// `AHashMap::get` on the variable table: the variable bound to `k`, if
/// any.
#[verifier::external_body]
pub(crate) fn var_get<'a>(m: &'a AHashMap<String, Variable>, k: &str) -> (r: Option<&'a Variable>)
    ensures
        match r {
            Some(v) => variables_of(*m).contains_key(k@) && v@ == variables_of(*m)[k@],
            None => !variables_of(*m).contains_key(k@),
        },
{
    m.get(k)
}

/// `AHashMap::insert` on the variable table: `k` is bound to `v`, every
/// other binding stays.
#[verifier::external_body]
pub(crate) fn var_insert(m: &mut AHashMap<String, Variable>, k: String, v: Variable)
    ensures
        variables_of(*final(m)) == variables_of(*old(m)).insert(k@, v@),
{
    m.insert(k, v);
}

/// `AHashMap::remove` on the variable table: the binding of `k` leaves and
/// is returned.
#[verifier::external_body]
pub(crate) fn var_remove(m: &mut AHashMap<String, Variable>, k: &str) -> (r: Option<Variable>)
    ensures
        variables_of(*final(m)) == variables_of(*old(m)).remove(k@),
        match r {
            Some(v) => variables_of(*old(m)).contains_key(k@) && v@ == variables_of(*old(m))[k@],
            None => !variables_of(*old(m)).contains_key(k@),
        },
{
    m.remove(k)
}

/// `AHashMap::get` on the function table.
#[verifier::external_body]
pub(crate) fn fn_get<'a>(m: &'a AHashMap<String, FnDef>, k: &str) -> (r: Option<&'a FnDef>)
    ensures
        match r {
            Some(v) => functions_of(*m).contains_key(k@) && v@ == functions_of(*m)[k@],
            None => !functions_of(*m).contains_key(k@),
        },
{
    m.get(k)
}

/// `AHashMap::insert` on the function table.
#[verifier::external_body]
pub(crate) fn fn_insert(m: &mut AHashMap<String, FnDef>, k: String, v: FnDef)
    ensures
        functions_of(*final(m)) == functions_of(*old(m)).insert(k@, v@),
{
    m.insert(k, v);
}

/// `AHashMap::get` on the class table.
#[verifier::external_body]
pub(crate) fn class_get<'a>(m: &'a AHashMap<String, ClassDef>, k: &str) -> (r: Option<&'a ClassDef>)
    ensures
        match r {
            Some(v) => classes_of(*m).contains_key(k@) && v@ == classes_of(*m)[k@],
            None => !classes_of(*m).contains_key(k@),
        },
{
    m.get(k)
}

/// `AHashMap::insert` on the class table.
#[verifier::external_body]
pub(crate) fn class_insert(m: &mut AHashMap<String, ClassDef>, k: String, v: ClassDef)
    ensures
        classes_of(*final(m)) == classes_of(*old(m)).insert(k@, v@),
{
    m.insert(k, v);
}

} // verus!
