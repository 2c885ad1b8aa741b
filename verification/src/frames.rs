//! Call frames: argument evaluation, and the variables that parameters
//! shadow during a call (removed, bound, then restored).
use vstd::prelude::*;

use ahash::AHashMap;

use crate::eval::{eval_spec, ExecError};
use crate::expr::{Expr, ExprV};
use crate::host::{is_prefix, io_in, lemma_io_in_chain, lemma_io_in_same, Console, Host, HostEvent};
use crate::maps::{var_insert, var_remove, variables_of};
use crate::op_code::{exprs_view, strings_view};
use crate::register::Registers;
use crate::value::{Value, ValueV};
use crate::variable::{Variable, VariableV};

verus! {

/// The values of the arguments, evaluated from the first to the last, with
/// the host answers `t` still to come; see [`eval_spec`].
pub open spec fn eval_list(args: Seq<ExprV>, regs: Seq<ValueV>, vars: Map<Seq<char>, VariableV>, t: Seq<HostEvent>)
    -> Option<(Result<Seq<ValueV>, ExecError>, Seq<HostEvent>)>
    decreases args.len(),
{
    if args.len() == 0 {
        Some((Ok(seq![]), t))
    } else {
        match eval_spec(args[0], regs, vars, t) {
            None => None,
            Some((Err(e), t1)) => Some((Err(e), t1)),
            Some((Ok(v), t1)) => match eval_list(args.skip(1), regs, vars, t1) {
                None => None,
                Some((Err(e), t2)) => Some((Err(e), t2)),
                Some((Ok(rest), t2)) => Some((Ok(seq![v] + rest), t2)),
            },
        }
    }
}

/// The variables once each of `names` is removed in turn.
pub open spec fn removed(vars: Map<Seq<char>, VariableV>, names: Seq<Seq<char>>) -> Map<Seq<char>, VariableV>
    decreases names.len(),
{
    if names.len() == 0 {
        vars
    } else {
        removed(vars.remove(names[0]), names.skip(1))
    }
}

/// What each removal in [`removed`] took out.
pub open spec fn saved_of(vars: Map<Seq<char>, VariableV>, names: Seq<Seq<char>>) -> Seq<Option<VariableV>>
    decreases names.len(),
{
    if names.len() == 0 {
        seq![]
    } else {
        seq![if vars.contains_key(names[0]) { Some(vars[names[0]]) } else { None }]
            + saved_of(vars.remove(names[0]), names.skip(1))
    }
}

/// The variables once each name is bound, in turn, to its value as an
/// immutable variable.
pub open spec fn bound(vars: Map<Seq<char>, VariableV>, names: Seq<Seq<char>>, vals: Seq<ValueV>) -> Map<Seq<char>, VariableV>
    decreases names.len(),
{
    if names.len() == 0 || vals.len() == 0 {
        vars
    } else {
        bound(vars.insert(names[0], VariableV { is_mut: false, value: vals[0] }), names.skip(1), vals.skip(1))
    }
}

/// The variables once each name gets back, in turn, what was saved for
/// it: re-bound if it had a variable, removed if it had none.
pub open spec fn restored(vars: Map<Seq<char>, VariableV>, names: Seq<Seq<char>>, saved: Seq<Option<VariableV>>) -> Map<Seq<char>, VariableV>
    decreases names.len(),
{
    if names.len() == 0 || saved.len() == 0 {
        vars
    } else {
        restored(
            match saved[0] {
                Some(v) => vars.insert(names[0], v),
                None => vars.remove(names[0]),
            },
            names.skip(1),
            saved.skip(1),
        )
    }
}

pub open spec fn values_view(v: Seq<Value>) -> Seq<ValueV> {
    v.map_values(|x: Value| x@)
}

pub open spec fn saved_view(v: Seq<Option<Variable>>) -> Seq<Option<VariableV>> {
    v.map_values(|x: Option<Variable>| match x { Some(y) => Some(y@), None => None })
}

/// Evaluates the arguments in order; see [`eval_list`].
pub fn eval_args<H: Host>(args: &Vec<Expr>, regs: &Registers, vars: &AHashMap<String, Variable>, console: &mut Console<H>)
    -> (r: Result<Vec<Value>, ExecError>)
    ensures
        is_prefix(old(console).events(), final(console).events()),
        final(console).written() == old(console).written(),
        forall|rest: Seq<HostEvent>| #![trigger io_in(*old(console), *final(console), rest)]
            eval_list(exprs_view(args@), regs@, variables_of(*vars), io_in(*old(console), *final(console), rest)) matches Some((x, t2))
            && t2 == rest && match x {
                Ok(vs) => r matches Ok(v) && values_view(v@) == vs,
                Err(e) => r == Err::<Vec<Value>, ExecError>(e),
            },
{
    let ghost all = exprs_view(args@);
    let ghost c0 = *console;
    let mut out: Vec<Value> = Vec::new();
    let mut i: usize = 0;
    proof {
        assert(all.skip(0) =~= all);
        lemma_io_in_same(c0);
        assert forall|rest: Seq<HostEvent>| #![trigger io_in(c0, c0, rest)]
            eval_list(all, regs@, variables_of(*vars), io_in(c0, c0, rest)) == match eval_list(all.skip(0), regs@, variables_of(*vars), rest) {
                Some((Ok(vs), t2)) => Some((Ok(values_view(out@) + vs), t2)),
                other => other,
            } by {
            match eval_list(all, regs@, variables_of(*vars), rest) {
                Some((Ok(vs), t2)) => { assert(values_view(out@) + vs =~= vs); },
                _ => {},
            }
        }
    }
    while i < args.len()
        invariant
            i <= args@.len(),
            all == exprs_view(args@),
            c0 == *old(console),
            is_prefix(c0.events(), console.events()),
            console.written() == c0.written(),
            forall|rest: Seq<HostEvent>| #![trigger io_in(c0, *console, rest)]
                eval_list(all, regs@, variables_of(*vars), io_in(c0, *console, rest)) == match eval_list(all.skip(i as int), regs@, variables_of(*vars), rest) {
                    Some((Ok(vs), t2)) => Some((Ok(values_view(out@) + vs), t2)),
                    other => other,
                },
        decreases args@.len() - i,
    {
        proof {
            assert(all.skip(i as int)[0] == args@[i as int]@);
            assert(all.skip(i as int).skip(1) =~= all.skip(i + 1));
        }
        let ghost c1 = *console;
        let res = args[i].eval_expr(regs, vars, console);
        proof { lemma_io_in_chain(c0, c1, *console); }
        let v = match res {
            Ok(v) => v,
            Err(x) => {
                proof {
                    assert forall|rest: Seq<HostEvent>| #![trigger io_in(c0, *console, rest)]
                        eval_list(all, regs@, variables_of(*vars), io_in(c0, *console, rest)) == Some((Err::<Seq<ValueV>, ExecError>(x), rest)) by {
                        let r2 = io_in(c1, *console, rest);
                        assert(io_in(c0, *console, rest) == io_in(c0, c1, r2));
                    }
                }
                return Err(x);
            },
        };
        let ghost before = out@;
        let ghost vv = v@;
        out.push(v);
        proof {
            assert(values_view(out@) =~= values_view(before).push(vv));
            assert forall|rest: Seq<HostEvent>| #![trigger io_in(c0, *console, rest)]
                eval_list(all, regs@, variables_of(*vars), io_in(c0, *console, rest)) == match eval_list(all.skip(i + 1), regs@, variables_of(*vars), rest) {
                    Some((Ok(vs), t2)) => Some((Ok(values_view(out@) + vs), t2)),
                    other => other,
                } by {
                let r2 = io_in(c1, *console, rest);
                assert(io_in(c0, *console, rest) == io_in(c0, c1, r2));
                match eval_list(all.skip(i + 1), regs@, variables_of(*vars), rest) {
                    Some((Ok(vs), t2)) => { assert(values_view(before) + (seq![vv] + vs) =~= values_view(out@) + vs); },
                    _ => {},
                }
            }
        }
        i += 1;
    }
    proof {
        assert(all.skip(i as int) =~= seq![]);
        assert(values_view(out@) + seq![] =~= values_view(out@));
    }
    Ok(out)
}

/// Removes each named variable in turn, returning what each removal took.
pub fn remove_params(vars: &mut AHashMap<String, Variable>, names: &Vec<String>) -> (r: Vec<Option<Variable>>)
    ensures
        variables_of(*final(vars)) == removed(variables_of(*old(vars)), strings_view(names@)),
        saved_view(r@) == saved_of(variables_of(*old(vars)), strings_view(names@)),
{
    let ghost all = strings_view(names@);
    let ghost m0 = variables_of(*vars);
    let mut out: Vec<Option<Variable>> = Vec::new();
    let mut i: usize = 0;
    proof { assert(all.skip(0) =~= all); assert(saved_view(out@) + saved_of(m0, all) =~= saved_of(m0, all)); }
    while i < names.len()
        invariant
            i <= names@.len(),
            all == strings_view(names@),
            m0 == variables_of(*old(vars)),
            removed(m0, all) == removed(variables_of(*vars), all.skip(i as int)),
            saved_of(m0, all) == saved_view(out@) + saved_of(variables_of(*vars), all.skip(i as int)),
        decreases names@.len() - i,
    {
        proof {
            assert(all.skip(i as int)[0] == names@[i as int]@);
            assert(all.skip(i as int).skip(1) =~= all.skip(i + 1));
        }
        let ghost cur = variables_of(*vars);
        let ghost before = out@;
        let old_var = var_remove(vars, names[i].as_str());
        out.push(old_var);
        proof {
            let sv = if cur.contains_key(all[i as int]) { Some(cur[all[i as int]]) } else { None };
            assert(saved_view(out@) =~= saved_view(before).push(sv));
            assert(saved_view(before) + (seq![sv] + saved_of(variables_of(*vars), all.skip(i + 1)))
                =~= saved_view(out@) + saved_of(variables_of(*vars), all.skip(i + 1)));
        }
        i += 1;
    }
    proof {
        assert(all.skip(i as int) =~= seq![]);
        assert(saved_view(out@) + seq![] =~= saved_view(out@));
    }
    out
}

/// Binds each name, in turn, to its value as an immutable variable.
pub fn bind_params(vars: &mut AHashMap<String, Variable>, names: &Vec<String>, vals: Vec<Value>)
    ensures
        variables_of(*final(vars)) == bound(variables_of(*old(vars)), strings_view(names@), values_view(vals@)),
{
    let ghost all = strings_view(names@);
    let ghost vs = values_view(vals@);
    let ghost m0 = variables_of(*vars);
    let mut vals = vals;
    let mut i: usize = 0;
    proof {
        assert(all.skip(0) =~= all);
        assert(vs.skip(0) =~= vs);
    }
    while i < names.len() && vals.len() > 0
        invariant
            i <= names@.len(),
            all == strings_view(names@),
            m0 == variables_of(*old(vars)),
            vals@.len() + i == vs.len(),
            values_view(vals@) == vs.skip(i as int),
            bound(m0, all, vs) == bound(variables_of(*vars), all.skip(i as int), vs.skip(i as int)),
        decreases names@.len() - i,
    {
        proof {
            assert(all.skip(i as int)[0] == names@[i as int]@);
            assert(all.skip(i as int).skip(1) =~= all.skip(i + 1));
            assert(values_view(vals@).len() == vals@.len());
            assert(vs.skip(i as int)[0] == values_view(vals@)[0]);
            assert(vs.skip(i as int).skip(1) =~= vs.skip(i + 1));
        }
        let ghost before = vals@;
        let v = vals.remove(0);
        proof {
            assert(values_view(vals@) =~= values_view(before).skip(1));
        }
        var_insert(vars, names[i].clone(), Variable { is_mut: false, value: v });
        i += 1;
    }
}

/// Gives each name, in turn, back what was saved for it.
pub fn restore_params(vars: &mut AHashMap<String, Variable>, names: &Vec<String>, saved: Vec<Option<Variable>>)
    ensures
        variables_of(*final(vars)) == restored(variables_of(*old(vars)), strings_view(names@), saved_view(saved@)),
{
    let ghost all = strings_view(names@);
    let ghost sv = saved_view(saved@);
    let ghost m0 = variables_of(*vars);
    let mut saved = saved;
    let mut i: usize = 0;
    proof {
        assert(all.skip(0) =~= all);
        assert(sv.skip(0) =~= sv);
    }
    while i < names.len() && saved.len() > 0
        invariant
            i <= names@.len(),
            all == strings_view(names@),
            m0 == variables_of(*old(vars)),
            saved@.len() + i == sv.len(),
            saved_view(saved@) == sv.skip(i as int),
            restored(m0, all, sv) == restored(variables_of(*vars), all.skip(i as int), sv.skip(i as int)),
        decreases names@.len() - i,
    {
        proof {
            assert(all.skip(i as int)[0] == names@[i as int]@);
            assert(all.skip(i as int).skip(1) =~= all.skip(i + 1));
            assert(saved_view(saved@).len() == saved@.len());
            assert(sv.skip(i as int)[0] == saved_view(saved@)[0]);
            assert(sv.skip(i as int).skip(1) =~= sv.skip(i + 1));
        }
        let ghost before = saved@;
        let o = saved.remove(0);
        proof {
            assert(saved_view(saved@) =~= saved_view(before).skip(1));
        }
        match o {
            Some(v) => {
                var_insert(vars, names[i].clone(), v);
            },
            None => {
                let _ = var_remove(vars, names[i].as_str());
            },
        }
        i += 1;
    }
}

/// `m` with each of `names` as it is in `v` (bound there, or absent).
pub open spec fn overlay(m: Map<Seq<char>, VariableV>, v: Map<Seq<char>, VariableV>, names: Seq<Seq<char>>) -> Map<Seq<char>, VariableV> {
    Map::new(
        |k: Seq<char>| if names.contains(k) { v.contains_key(k) } else { m.contains_key(k) },
        |k: Seq<char>| if names.contains(k) { v[k] } else { m[k] },
    )
}

/// A call's frame does not leak: restoring what was saved for distinct
/// parameter names gives each of them back what it held before the call
/// (or leaves it unbound, if it was), and leaves every other variable as
/// the call left it.
pub proof fn lemma_restore_frame(m: Map<Seq<char>, VariableV>, v: Map<Seq<char>, VariableV>, names: Seq<Seq<char>>)
    requires
        names.no_duplicates(),
    ensures
        restored(m, names, saved_of(v, names)) == overlay(m, v, names),
    decreases names.len(),
{
    if names.len() == 0 {
        assert(restored(m, names, saved_of(v, names)) =~= overlay(m, v, names));
    } else {
        let n0 = names[0];
        let rest = names.skip(1);
        let v1 = v.remove(n0);
        let m1 = if v.contains_key(n0) { m.insert(n0, v[n0]) } else { m.remove(n0) };
        let saved = saved_of(v, names);
        assert(saved.skip(1) =~= saved_of(v1, rest));
        assert(rest.no_duplicates()) by {
            assert forall|i: int, j: int| 0 <= i < rest.len() && 0 <= j < rest.len() && i != j implies rest[i] != rest[j] by {
                assert(rest[i] == names[i + 1]);
                assert(rest[j] == names[j + 1]);
            }
        }
        assert(!rest.contains(n0)) by {
            if rest.contains(n0) {
                let i = choose|i: int| 0 <= i < rest.len() && rest[i] == n0;
                assert(names[i + 1] == names[0]);
            }
        }
        lemma_restore_frame(m1, v1, rest);
        assert(restored(m, names, saved) == restored(m1, rest, saved.skip(1)));
        assert forall|k: Seq<char>| #[trigger] names.contains(k) == (k == n0 || rest.contains(k)) by {
            if names.contains(k) && k != n0 {
                let i = choose|i: int| 0 <= i < names.len() && names[i] == k;
                assert(i > 0);
                assert(rest[i - 1] == k);
            }
            if rest.contains(k) {
                let i = choose|i: int| 0 <= i < rest.len() && rest[i] == k;
                assert(names[i + 1] == k);
            }
            if k == n0 {
                assert(names[0] == k);
            }
        }
        assert(overlay(m1, v1, rest) =~= overlay(m, v, names));
    }
}

} // verus!
