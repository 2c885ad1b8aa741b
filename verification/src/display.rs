//! The text of a value, as the VM prints it.
use vstd::prelude::*;

use crate::host::{is_prefix, io_in, lemma_io_in_chain, lemma_io_in_one, lemma_io_in_same, Console, Host, HostEvent};
use crate::text::push_char;
use crate::value::{fields_view, lemma_fields_view_index, lemma_fields_view_len, Value, ValueV};

verus! {

broadcast use vstd::string::group_string_axioms;

/// The character of a decimal digit.
pub open spec fn digit_char(d: nat) -> char {
    if d == 0 { '0' } else if d == 1 { '1' } else if d == 2 { '2' } else if d == 3 { '3' } else if d == 4 { '4' }
    else if d == 5 { '5' } else if d == 6 { '6' } else if d == 7 { '7' } else if d == 8 { '8' } else { '9' }
}

/// The decimal text of `n`.
pub open spec fn decimal(n: nat) -> Seq<char>
    decreases n,
{
    if n < 10 {
        seq![digit_char(n)]
    } else {
        decimal(n / 10).push(digit_char(n % 10))
    }
}

/// The decimal text of `x`, with a `-` when negative.
pub open spec fn signed_decimal(x: int) -> Seq<char> {
    if x < 0 { seq!['-'] + decimal((-x) as nat) } else { decimal(x as nat) }
}

/// What the host answered to `float_text(v)`, taken from the front of `t`.
pub open spec fn float_text_answer(v: ValueV, t: Seq<HostEvent>) -> Option<(Seq<char>, Seq<HostEvent>)> {
    if t.len() == 0 {
        None
    } else {
        match t[0] {
            HostEvent::Text(x, s) => if x == v { Some((s, t.drop_first())) } else { None },
            _ => None,
        }
    }
}

/// The text of a value as `Display` writes it, with the host answers `t`
/// still to come: numbers in decimal, `true` or `false`, a string as it
/// is, `None` for no value, an object as `Class { a: 1, b: 2 }` (`Class {}`
/// without fields). The text of a float is asked of the host, and is the
/// next answer in `t`. Gives the text and the answers left over; `None`
/// where `t` does not hold an answer that is needed.
pub open spec fn text_of(v: ValueV, t: Seq<HostEvent>) -> Option<(Seq<char>, Seq<HostEvent>)>
    decreases v, 0nat,
{
    match v {
        ValueV::Nil => Some(("None"@, t)),
        ValueV::I32(n) => Some((signed_decimal(n as int), t)),
        ValueV::I128(n) => Some((signed_decimal(n as int), t)),
        ValueV::U8(n) => Some((decimal(n as nat), t)),
        ValueV::U32(n) => Some((decimal(n as nat), t)),
        ValueV::U128(n) => Some((decimal(n as nat), t)),
        ValueV::F32(_) => float_text_answer(v, t),
        ValueV::F64(_) => float_text_answer(v, t),
        ValueV::Bool(b) => Some((if b { "true"@ } else { "false"@ }, t)),
        ValueV::Str(s) => Some((s, t)),
        ValueV::Object(c, fs) => if fs.len() == 0 {
            Some((c + " {}"@, t))
        } else {
            match fields_text(fs, t) {
                Some((x, t2)) => Some((c + " { "@ + x + " }"@, t2)),
                None => None,
            }
        },
    }
}

/// `a: 1, b: 2` for the fields `a` and `b`, written first to last.
pub open spec fn fields_text(fs: Seq<(Seq<char>, ValueV)>, t: Seq<HostEvent>) -> Option<(Seq<char>, Seq<HostEvent>)>
    decreases fs, fs.len(),
{
    if fs.len() == 0 {
        Some((seq![], t))
    } else {
        match fields_text(fs.drop_last(), t) {
            Some((x, t1)) => match text_of(fs.last().1, t1) {
                Some((y, t2)) => Some((
                    (if fs.len() == 1 { seq![] } else { x + ", "@ }) + fs.last().0 + ": "@ + y,
                    t2,
                )),
                None => None,
            },
            None => None,
        }
    }
}

fn digit_of(d: u128) -> (c: char)
    requires
        d < 10,
    ensures
        c == digit_char(d as nat),
{
    if d == 0 { '0' } else if d == 1 { '1' } else if d == 2 { '2' } else if d == 3 { '3' } else if d == 4 { '4' }
    else if d == 5 { '5' } else if d == 6 { '6' } else if d == 7 { '7' } else if d == 8 { '8' } else { '9' }
}

/// Appends the decimal text of `n`.
pub fn push_decimal(s: &mut String, n: u128)
    ensures
        final(s)@ == old(s)@ + decimal(n as nat),
    decreases n,
{
    if n >= 10 {
        push_decimal(s, n / 10);
    }
    push_char(s, digit_of(n % 10));
    proof {
        if n < 10 {
            assert(old(s)@ + decimal(n as nat) =~= old(s)@.push(digit_char(n as nat)));
        } else {
            assert(old(s)@ + decimal(n as nat) =~= (old(s)@ + decimal((n / 10) as nat)).push(digit_char((n % 10) as nat)));
        }
    }
}

/// Appends the decimal text of `x`.
pub fn push_signed(s: &mut String, x: i128)
    ensures
        final(s)@ == old(s)@ + signed_decimal(x as int),
{
    if x < 0 {
        push_char(s, '-');
        let m: u128 = ((-(x + 1)) as u128) + 1;
        push_decimal(s, m);
        proof { assert(old(s)@.push('-') + decimal(m as nat) =~= old(s)@ + (seq!['-'] + decimal(m as nat))); }
    } else {
        push_decimal(s, x as u128);
    }
}

fn push_str_text(s: &mut String, t: &str)
    ensures
        final(s)@ == old(s)@ + t@,
{
    let n = t.unicode_len();
    let mut i: usize = 0;
    while i < n
        invariant
            n == t@.len(),
            i <= n,
            s@ == old(s)@ + t@.take(i as int),
        decreases n - i,
    {
        push_char(s, t.get_char(i));
        proof { assert(old(s)@ + t@.take(i + 1) =~= (old(s)@ + t@.take(i as int)).push(t@[i as int])); }
        i += 1;
    }
    proof { assert(t@.take(n as int) =~= t@); }
}

/// Appends the text of `v`; see [`text_of`]. The text of a float is asked
/// of the console's host.
pub fn push_value_text<H: Host>(s: &mut String, v: &Value, console: &mut Console<H>)
    ensures
        is_prefix(old(console).events(), final(console).events()),
        final(console).written() == old(console).written(),
        forall|rest: Seq<HostEvent>| #![trigger io_in(*old(console), *final(console), rest)]
            text_of(v@, io_in(*old(console), *final(console), rest)) matches Some((t, t2))
            && t2 == rest && final(s)@ == old(s)@ + t,
    decreases v, 0nat,
{
    proof {
        reveal_strlit("None"); reveal_strlit("true"); reveal_strlit("false"); reveal_strlit(" {}"); reveal_strlit(" { "); reveal_strlit(" }");
        lemma_io_in_same(*console);
    }
    match v {
        Value::Nil => push_str_text(s, "None"),
        Value::I32(n) => push_signed(s, *n as i128),
        Value::I128(n) => push_signed(s, *n),
        Value::U8(n) => push_decimal(s, *n as u128),
        Value::U32(n) => push_decimal(s, *n as u128),
        Value::U128(n) => push_decimal(s, *n),
        Value::F32(_) | Value::F64(_) => {
            let ghost c0 = *console;
            let t = console.float_text(v);
            proof { lemma_io_in_one(c0, *console, HostEvent::Text(v@, t@)); }
            push_str_text(s, t.as_str());
        },
        Value::Bool(b) => push_str_text(s, if *b { "true" } else { "false" }),
        Value::String(t) => push_str_text(s, t.as_str()),
        Value::Object(inst) => {
            push_str_text(s, inst.class.as_str());
            proof { lemma_fields_view_len(inst.fields@); }
            if inst.fields.len() == 0 {
                push_str_text(s, " {}");
                proof { assert(old(s)@ + (inst.class@ + " {}"@) =~= old(s)@ + inst.class@ + " {}"@); }
            } else {
                push_str_text(s, " { ");
                let ghost mid = s@;
                push_fields_text(s, &inst.fields, console);
                push_str_text(s, " }");
                proof {
                    assert forall|rest: Seq<HostEvent>| #![trigger io_in(*old(console), *console, rest)]
                        text_of(v@, io_in(*old(console), *console, rest)) matches Some((t, t2))
                        && t2 == rest && s@ == old(s)@ + t by {
                        let x = fields_text(fields_view(inst.fields@), io_in(*old(console), *console, rest))->Some_0.0;
                        assert(s@ =~= old(s)@ + (inst.class@ + " { "@ + x + " }"@));
                    }
                }
            }
        },
    }
}

/// Appends `a: 1, b: 2` for the fields; see [`fields_text`].
pub fn push_fields_text<H: Host>(s: &mut String, fs: &Vec<(String, Value)>, console: &mut Console<H>)
    ensures
        is_prefix(old(console).events(), final(console).events()),
        final(console).written() == old(console).written(),
        forall|rest: Seq<HostEvent>| #![trigger io_in(*old(console), *final(console), rest)]
            fields_text(fields_view(fs@), io_in(*old(console), *final(console), rest)) matches Some((t, t2))
            && t2 == rest && final(s)@ == old(s)@ + t,
    decreases fs@, fs@.len(),
{
    proof { reveal_strlit(", "); reveal_strlit(": "); }
    let ghost all = fields_view(fs@);
    let ghost c0 = *console;
    let mut i: usize = 0;
    proof {
        lemma_fields_view_len(fs@);
        lemma_io_in_same(c0);
        assert(fs@.take(0) =~= seq![]);
        assert(old(s)@ + seq![] =~= old(s)@);
    }
    while i < fs.len()
        invariant
            i <= fs@.len(),
            all == fields_view(fs@),
            all.len() == fs@.len(),
            c0 == *old(console),
            is_prefix(c0.events(), console.events()),
            console.written() == c0.written(),
            forall|rest: Seq<HostEvent>| #![trigger io_in(c0, *console, rest)]
                fields_text(fields_view(fs@.take(i as int)), io_in(c0, *console, rest)) matches Some((t, t2))
                && t2 == rest && s@ == old(s)@ + t,
        decreases fs@.len() - i,
    {
        let ghost before = s@;
        let ghost pre = fields_view(fs@.take(i as int));
        let ghost p = fields_view(fs@.take(i + 1));
        proof {
            assert(fs@.take(i + 1).drop_last() =~= fs@.take(i as int));
            assert(fs@.take(i + 1).last() == fs@[i as int]);
            assert(p == pre.push((fs@[i as int].0@, fs@[i as int].1@)));
            assert(p.drop_last() =~= pre);
            lemma_fields_view_len(fs@.take(i + 1));
        }
        if i > 0 {
            push_str_text(s, ", ");
        }
        push_str_text(s, fs[i].0.as_str());
        push_str_text(s, ": ");
        let ghost c1 = *console;
        let ghost s1 = s@;
        push_value_text(s, &fs[i].1, console);
        proof {
            lemma_io_in_chain(c0, c1, *console);
            assert forall|rest: Seq<HostEvent>| #![trigger io_in(c0, *console, rest)]
                fields_text(p, io_in(c0, *console, rest)) matches Some((t, t2))
                && t2 == rest && s@ == old(s)@ + t by {
                let r2 = io_in(c1, *console, rest);
                assert(io_in(c0, *console, rest) == io_in(c0, c1, r2));
                let t = fields_text(pre, io_in(c0, c1, r2))->Some_0.0;
                let y = text_of(fs@[i as int].1@, r2)->Some_0.0;
                if i == 0 {
                    assert(s@ =~= old(s)@ + (seq![] + fs@[i as int].0@ + ": "@ + y));
                } else {
                    assert(s@ =~= old(s)@ + (t + ", "@ + fs@[i as int].0@ + ": "@ + y));
                }
            }
        }
        i += 1;
    }
    proof { assert(fs@.take(fs@.len() as int) =~= fs@); }
}

/// The text of `v`, as `Display` writes it; see [`text_of`].
pub fn value_text<H: Host>(v: &Value, console: &mut Console<H>) -> (r: String)
    ensures
        is_prefix(old(console).events(), final(console).events()),
        final(console).written() == old(console).written(),
        forall|rest: Seq<HostEvent>| #![trigger io_in(*old(console), *final(console), rest)]
            text_of(v@, io_in(*old(console), *final(console), rest)) matches Some((t, t2))
            && t2 == rest && r@ == t,
{
    let mut s = String::new();
    push_value_text(&mut s, v, console);
    proof {
        assert forall|rest: Seq<HostEvent>| #![trigger io_in(*old(console), *console, rest)]
            text_of(v@, io_in(*old(console), *console, rest)) matches Some((t, t2)) && t2 == rest && s@ == t by {
            let t = text_of(v@, io_in(*old(console), *console, rest))->Some_0.0;
            assert(seq![] + t =~= t);
        }
    }
    s
}

} // verus!
