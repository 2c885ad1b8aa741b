//! Reading values typed at the console.
use vstd::prelude::*;

use crate::reader::{answers, parse_int_spec, to_int_value};
use crate::text::{span_eq, string_of, trim_span, trim_spec};
use crate::value::{Value, ValueV};

verus! {

/// The value of a line typed at the console, as far as it is not a float:
/// the line is trimmed; empty text is the empty string, `true`/`false` a
/// `Bool`, an integer takes the first of `u8`, `u32`, `u128`, `i32`, `i128`
/// that holds it. `None` for any other text: it is an `f32` if it reads as
/// one, and a `String` otherwise.
pub open spec fn stdin_value_spec(s: Seq<char>) -> Option<ValueV> {
    let (a, b) = trim_spec(s, 0, s.len() as int);
    let t = s.subrange(a, b);
    if t.len() == 0 {
        Some(ValueV::Str(seq![]))
    } else if t == "true"@ {
        Some(ValueV::Bool(true))
    } else if t == "false"@ {
        Some(ValueV::Bool(false))
    } else if parse_int_spec(t, false, 0, u8::MAX as int) is Some {
        Some(ValueV::U8(parse_int_spec(t, false, 0, u8::MAX as int)->0 as u8))
    } else if parse_int_spec(t, false, 0, u32::MAX as int) is Some {
        Some(ValueV::U32(parse_int_spec(t, false, 0, u32::MAX as int)->0 as u32))
    } else if parse_int_spec(t, false, 0, u128::MAX as int) is Some {
        Some(ValueV::U128(parse_int_spec(t, false, 0, u128::MAX as int)->0 as u128))
    } else if parse_int_spec(t, true, i32::MIN as int, i32::MAX as int) is Some {
        Some(ValueV::I32(parse_int_spec(t, true, i32::MIN as int, i32::MAX as int)->0 as i32))
    } else if parse_int_spec(t, true, i128::MIN as int, i128::MAX as int) is Some {
        Some(ValueV::I128(parse_int_spec(t, true, i128::MIN as int, i128::MAX as int)->0 as i128))
    } else {
        None
    }
}

/// The trimmed text of `s`.
pub open spec fn trimmed(s: Seq<char>) -> Seq<char> {
    let (a, b) = trim_spec(s, 0, s.len() as int);
    s.subrange(a, b)
}

/// Parses a line typed at the console into a [`Value`] (see
/// [`stdin_value_spec`]); `f` reads the text as an `f32` bit pattern when
/// no other reading applies. (`str::parse` accepts the same texts for
/// `f64` as for `f32`, so no text falls through to an `F64`.)
pub fn parse_stdin_value<F: Fn(&str) -> Option<u32>>(f: &F, s: &str) -> (r: Value)
    requires
        forall|x: &str| #[trigger] call_requires(*f, (x,)),
    ensures
        match stdin_value_spec(s@) {
            Some(v) => r@ == v,
            None => (exists|b: u32| r@ == ValueV::F32(b) && answers(*f, trimmed(s@), Some(b)))
                || (r@ == ValueV::Str(trimmed(s@)) && answers(*f, trimmed(s@), None)),
        },
{
    match stdin_known(s) {
        Ok(v) => v,
        Err(text) => match f(text.as_str()) {
            Some(bits) => {
                proof { assert(answers(*f, trimmed(s@), Some(bits))); }
                Value::F32(bits)
            },
            None => {
                proof { assert(answers(*f, trimmed(s@), None)); }
                Value::String(text)
            },
        },
    }
}

/// Reads a console line as far as no float reading is needed: the value of
/// [`stdin_value_spec`] where it gives one, else the trimmed text, which is
/// an `f32` if it reads as one and a `String` otherwise.
pub fn stdin_known(s: &str) -> (r: Result<Value, String>)
    ensures
        match stdin_value_spec(s@) {
            Some(v) => r matches Ok(x) && x@ == v,
            None => r matches Err(t) && t@ == trimmed(s@),
        },
{
    proof { reveal_strlit("true"); reveal_strlit("false"); }
    let cs = crate::text::chars_of(s);
    let (a, b) = trim_span(&cs, 0, cs.len());
    if a == b {
        return Ok(Value::String(String::new()));
    }
    if span_eq(&cs, a, b, "true") {
        return Ok(Value::Bool(true));
    }
    if span_eq(&cs, a, b, "false") {
        return Ok(Value::Bool(false));
    }
    match to_int_value(&cs, a, b) {
        Some(v) => Ok(v),
        None => Err(string_of(&cs, a, b)),
    }
}

/// The line without its terminator: a final `\n`, and then a `\r` before it.
pub open spec fn line_body(s: Seq<char>) -> Seq<char> {
    if s.len() > 0 && s.last() == '\n' {
        let t = s.drop_last();
        if t.len() > 0 && t.last() == '\r' { t.drop_last() } else { t }
    } else {
        s
    }
}

/// Strips the line terminator from a line read from the console.
pub fn strip_line_end(s: &str) -> (r: String)
    ensures
        r@ == line_body(s@),
{
    let cs = crate::text::chars_of(s);
    let n = cs.len();
    if n > 0 && cs[n - 1] == '\n' {
        if n > 1 && cs[n - 2] == '\r' {
            string_of(&cs, 0, n - 2)
        } else {
            string_of(&cs, 0, n - 1)
        }
    } else {
        string_of(&cs, 0, n)
    }
}

} // verus!
