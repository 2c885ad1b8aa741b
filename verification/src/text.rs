//! Character-level helpers shared by the assembler front end.
use vstd::prelude::*;

verus! {

broadcast use vstd::string::group_string_axioms;

/// ASCII whitespace as `u8::is_ascii_whitespace` defines it.
pub open spec fn is_ascii_ws(c: char) -> bool {
    c == ' ' || c == '\t' || c == '\n' || c == '\x0C' || c == '\r'
}

pub fn is_ascii_ws_char(c: char) -> (r: bool)
    ensures r == is_ascii_ws(c),
{
    c == ' ' || c == '\t' || c == '\n' || c == '\x0C' || c == '\r'
}

/// The characters of `s`, in order.
pub fn chars_of(s: &str) -> (r: Vec<char>)
    ensures r@ == s@,
{
    let mut r: Vec<char> = Vec::new();
    for c in iter: s.chars()
        invariant
            r@ == iter.seq().take(iter.index() as int),
            iter.seq() == s@,
    {
        r.push(c);
    }
    r
}

/// Appends one character to a string.
#[verifier::external_body]
pub(crate) fn push_char(s: &mut String, c: char)
    ensures final(s)@ == old(s)@.push(c),
{
    s.push(c);
}

/// The string made of `cs[start..end]`.
pub fn string_of(cs: &Vec<char>, start: usize, end: usize) -> (r: String)
    requires start <= end <= cs@.len(),
    ensures r@ == cs@.subrange(start as int, end as int),
{
    let mut r = String::new();
    let mut i = start;
    while i < end
        invariant
            start <= i <= end <= cs@.len(),
            r@ == cs@.subrange(start as int, i as int),
        decreases end - i,
    {
        push_char(&mut r, cs[i]);
        i += 1;
    }
    r
}

/// Whitespace as `char::is_whitespace` (the Unicode `White_Space`
/// property) defines it; `str::trim` removes these.
pub open spec fn is_unicode_ws(c: char) -> bool {
    let u = c as u32;
    (0x09 <= u <= 0x0D) || u == 0x20 || u == 0x85 || u == 0xA0 || u == 0x1680
        || (0x2000 <= u <= 0x200A) || u == 0x2028 || u == 0x2029 || u == 0x202F
        || u == 0x205F || u == 0x3000
}

pub fn is_unicode_ws_char(c: char) -> (r: bool)
    ensures r == is_unicode_ws(c),
{
    let u = c as u32;
    (0x09 <= u && u <= 0x0D) || u == 0x20 || u == 0x85 || u == 0xA0 || u == 0x1680
        || (0x2000 <= u && u <= 0x200A) || u == 0x2028 || u == 0x2029 || u == 0x202F
        || u == 0x205F || u == 0x3000
}

/// Start of `s[start..end]` once leading Unicode whitespace is removed.
pub open spec fn trim_start_spec(s: Seq<char>, start: int, end: int) -> int
    decreases end - start,
{
    if start < end && is_unicode_ws(s[start]) {
        trim_start_spec(s, start + 1, end)
    } else {
        start
    }
}

/// End of `s[start..end]` once trailing Unicode whitespace is removed.
pub open spec fn trim_end_spec(s: Seq<char>, start: int, end: int) -> int
    decreases end - start,
{
    if start < end && is_unicode_ws(s[end - 1]) {
        trim_end_spec(s, start, end - 1)
    } else {
        end
    }
}

/// The span that `str::trim` leaves of `s[start..end]`.
pub open spec fn trim_spec(s: Seq<char>, start: int, end: int) -> (int, int) {
    let a = trim_start_spec(s, start, end);
    (a, trim_end_spec(s, a, end))
}

pub proof fn lemma_trim_bounds(s: Seq<char>, start: int, end: int)
    requires
        start <= end,
    ensures
        start <= trim_start_spec(s, start, end) <= end,
        trim_start_spec(s, start, end) <= trim_end_spec(s, trim_start_spec(s, start, end), end) <= end,
    decreases end - start,
{
    if start < end && is_unicode_ws(s[start]) {
        lemma_trim_bounds(s, start + 1, end);
    }
    lemma_trim_end_bounds(s, trim_start_spec(s, start, end), end);
}

pub proof fn lemma_trim_end_bounds(s: Seq<char>, start: int, end: int)
    requires
        start <= end,
    ensures
        start <= trim_end_spec(s, start, end) <= end,
    decreases end - start,
{
    if start < end && is_unicode_ws(s[end - 1]) {
        lemma_trim_end_bounds(s, start, end - 1);
    }
}

/// `str::trim` on the span `cs[start..end]`.
pub fn trim_span(cs: &Vec<char>, start: usize, end: usize) -> (r: (usize, usize))
    requires
        start <= end <= cs@.len(),
    ensures
        r.0 == trim_spec(cs@, start as int, end as int).0,
        r.1 == trim_spec(cs@, start as int, end as int).1,
        start <= r.0 <= r.1 <= end,
{
    proof { lemma_trim_bounds(cs@, start as int, end as int); }
    let mut a = start;
    while a < end && is_unicode_ws_char(cs[a])
        invariant
            start <= a <= end <= cs@.len(),
            trim_start_spec(cs@, a as int, end as int) == trim_start_spec(cs@, start as int, end as int),
        decreases end - a,
    {
        a += 1;
    }
    let mut b = end;
    while b > a && is_unicode_ws_char(cs[b - 1])
        invariant
            start <= a <= b <= end <= cs@.len(),
            a == trim_start_spec(cs@, start as int, end as int),
            trim_end_spec(cs@, a as int, b as int) == trim_end_spec(cs@, a as int, end as int),
        decreases b - a,
    {
        b -= 1;
    }
    (a, b)
}

/// Compares `cs[start..end]` with `lit`.
pub fn span_eq(cs: &Vec<char>, start: usize, end: usize, lit: &str) -> (r: bool)
    requires
        start <= end <= cs@.len(),
    ensures
        r == (cs@.subrange(start as int, end as int) == lit@),
{
    let n = lit.unicode_len();
    if end - start != n {
        return false;
    }
    let mut i: usize = 0;
    while i < n
        invariant
            n == lit@.len(),
            end - start == n,
            start <= end <= cs@.len(),
            i <= n,
            forall|k: int| 0 <= k < i ==> cs@[start + k] == lit@[k],
        decreases n - i,
    {
        if cs[start + i] != lit.get_char(i) {
            assert(cs@.subrange(start as int, end as int)[i as int] != lit@[i as int]);
            return false;
        }
        i += 1;
    }
    assert(cs@.subrange(start as int, end as int) =~= lit@);
    true
}

/// Does `s[start..end]` begin with `lit`?
pub open spec fn span_starts_with(s: Seq<char>, start: int, end: int, lit: Seq<char>) -> bool {
    end - start >= lit.len() && s.subrange(start, start + lit.len()) == lit
}

pub fn span_starts_with_lit(cs: &Vec<char>, start: usize, end: usize, lit: &str) -> (r: bool)
    requires
        start <= end <= cs@.len(),
    ensures
        r == span_starts_with(cs@, start as int, end as int, lit@),
{
    let n = lit.unicode_len();
    if end - start < n {
        return false;
    }
    span_eq(cs, start, start + n, lit)
}

/// An ASCII decimal digit.
pub open spec fn is_digit(c: char) -> bool {
    '0' <= c <= '9'
}

/// An ASCII hexadecimal digit, as `char::to_digit(16)` accepts it.
pub open spec fn is_hex(c: char) -> bool {
    ('0' <= c <= '9') || ('a' <= c <= 'f') || ('A' <= c <= 'F')
}

/// The value of a hexadecimal digit.
pub open spec fn hex_val(c: char) -> nat {
    if '0' <= c <= '9' {
        (c as nat - '0' as nat) as nat
    } else if 'a' <= c <= 'f' {
        (c as nat - 'a' as nat + 10) as nat
    } else {
        (c as nat - 'A' as nat + 10) as nat
    }
}

pub fn hex_digit(c: char) -> (r: Option<u32>)
    ensures
        r is Some <==> is_hex(c),
        r matches Some(v) ==> v == hex_val(c) && v < 16,
{
    if '0' <= c && c <= '9' {
        Some((c as u32) - ('0' as u32))
    } else if 'a' <= c && c <= 'f' {
        Some((c as u32) - ('a' as u32) + 10)
    } else if 'A' <= c && c <= 'F' {
        Some((c as u32) - ('A' as u32) + 10)
    } else {
        None
    }
}

/// The number that the digits `s` spell in the given base (most significant first).
pub open spec fn digits_value(s: Seq<char>, base: nat) -> nat
    decreases s.len(),
{
    if s.len() == 0 {
        0
    } else {
        digits_value(s.drop_last(), base) * base + (if base == 16 { hex_val(s.last()) } else { (s.last() as nat - '0' as nat) as nat })
    }
}

/// Every character of `s` is a decimal digit.
pub open spec fn all_digits(s: Seq<char>) -> bool {
    forall|i: int| 0 <= i < s.len() ==> is_digit(#[trigger] s[i])
}

/// Every character of `s` is a hexadecimal digit.
pub open spec fn all_hex(s: Seq<char>) -> bool {
    forall|i: int| 0 <= i < s.len() ==> is_hex(#[trigger] s[i])
}

/// A longer run of digits never spells a smaller number than its prefix.
pub proof fn lemma_digits_value_prefix(s: Seq<char>, i: int, base: nat)
    requires
        0 <= i <= s.len(),
        base == 10 || base == 16,
    ensures
        digits_value(s.take(i), base) <= digits_value(s, base),
    decreases s.len() - i,
{
    if i < s.len() {
        lemma_digits_value_prefix(s, i + 1, base);
        assert(s.take(i + 1).drop_last() =~= s.take(i));
        let p = digits_value(s.take(i), base);
        assert(p <= p * base) by (nonlinear_arith) requires base >= 1;
    } else {
        assert(s.take(i) =~= s);
    }
}

/// Reads the decimal digits `cs[start..end]` as an unsigned number: `None`
/// when the span is empty, holds a non-digit, or spells a number above
/// `u128::MAX`.
pub fn parse_digits(cs: &Vec<char>, start: usize, end: usize) -> (r: Option<u128>)
    requires
        start <= end <= cs@.len(),
    ensures
        ({
            let d = cs@.subrange(start as int, end as int);
            match r {
                Some(v) => d.len() > 0 && all_digits(d) && v == digits_value(d, 10),
                None => d.len() == 0 || !all_digits(d) || digits_value(d, 10) > u128::MAX,
            }
        }),
{
    let ghost d = cs@.subrange(start as int, end as int);
    if start == end {
        return None;
    }
    let mut i = start;
    while i < end
        invariant
            start <= i <= end <= cs@.len(),
            d == cs@.subrange(start as int, end as int),
            forall|k: int| start <= k < i ==> is_digit(#[trigger] cs@[k]),
        decreases end - i,
    {
        if !('0' <= cs[i] && cs[i] <= '9') {
            assert(d[i - start] == cs@[i as int]);
            return None;
        }
        i += 1;
    }
    assert(all_digits(d)) by {
        assert forall|k: int| 0 <= k < d.len() implies is_digit(#[trigger] d[k]) by {
            assert(d[k] == cs@[start + k]);
        }
    }
    let mut v: u128 = 0;
    let mut j = start;
    while j < end
        invariant
            start <= j <= end <= cs@.len(),
            d == cs@.subrange(start as int, end as int),
            all_digits(d),
            v == digits_value(d.take(j - start), 10),
        decreases end - j,
    {
        let ghost k = j - start;
        assert(d.take(k + 1).drop_last() =~= d.take(k));
        assert(d.take(k + 1).last() == cs@[j as int]);
        assert(is_digit(d[k]));
        let digit = (cs[j] as u32 - '0' as u32) as u128;
        let next = match v.checked_mul(10) {
            Some(m) => m.checked_add(digit),
            None => None,
        };
        match next {
            Some(n) => {
                v = n;
            },
            None => {
                proof { lemma_digits_value_prefix(d, k + 1, 10); }
                return None;
            },
        }
        j += 1;
    }
    assert(d.take(d.len() as int) =~= d);
    Some(v)
}

/// A scalar value that `char::from_u32` accepts.
pub open spec fn is_scalar(cp: int) -> bool {
    (0 <= cp < 0xD800) || (0xE000 <= cp <= 0x10FFFF)
}

/// `char::from_u32`: the character with code point `cp`, where there is one.
#[verifier::external_body]
pub(crate) fn char_from_code(cp: u32) -> (r: Option<char>)
    ensures
        r is Some <==> is_scalar(cp as int),
        r matches Some(c) ==> c as u32 == cp,
{
    char::from_u32(cp)
}

} // verus!
