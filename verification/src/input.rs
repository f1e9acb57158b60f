//! What a line typed in answer to `input<...>` becomes.
use vstd::prelude::*;
use crate::value::{Value, ValueV};
use crate::text::{char_is_whitespace, is_whitespace, is_ascii_digit_spec, chars_of, string_of};
use crate::lexer::{digits_value, lemma_digits_value_nonneg};

verus! {

/// The first position from `i` on that holds no whitespace (or the end).
pub open spec fn lead_end(s: Seq<char>, i: int) -> int
    decreases s.len() - i,
{
    if i < 0 || i >= s.len() {
        s.len() as int
    } else if char_is_whitespace(s[i]) {
        lead_end(s, i + 1)
    } else {
        i
    }
}

/// The position after the last character before `j` that is no whitespace (or 0).
pub open spec fn trail_start(s: Seq<char>, j: int) -> int
    decreases j,
{
    if j <= 0 || j > s.len() {
        0
    } else if char_is_whitespace(s[j - 1]) {
        trail_start(s, j - 1)
    } else {
        j
    }
}

/// The text without leading and trailing whitespace, as `str::trim` gives it.
pub open spec fn trimmed(s: Seq<char>) -> Seq<char> {
    let a = lead_end(s, 0);
    let b = trail_start(s, s.len() as int);
    if a >= b {
        Seq::empty()
    } else {
        s.subrange(a, b)
    }
}

pub open spec fn all_digits(d: Seq<char>) -> bool {
    forall|i: int| 0 <= i < d.len() ==> is_ascii_digit_spec(#[trigger] d[i])
}

/// An optional sign, then the digits.
pub open spec fn sign_and_digits(t: Seq<char>) -> (bool, Seq<char>) {
    if t.len() > 0 && t[0] == '+' {
        (false, t.skip(1))
    } else if t.len() > 0 && t[0] == '-' {
        (true, t.skip(1))
    } else {
        (false, t)
    }
}

/// The integer a text denotes as `i64`'s `FromStr` reads it: an optional `+` or `-`, then
/// at least one decimal digit and nothing else, and a value within `i64`.
pub open spec fn parse_int(t: Seq<char>) -> Option<i64> {
    let (neg, ds) = sign_and_digits(t);
    if ds.len() == 0 || !all_digits(ds) {
        None
    } else {
        let v = if neg { -digits_value(ds) } else { digits_value(ds) };
        if i64::MIN <= v <= i64::MAX {
            Some(v as i64)
        } else {
            None
        }
    }
}

proof fn lemma_digits_take(ds: Seq<char>, k: int)
    requires
        0 <= k < ds.len(),
    ensures
        digits_value(ds.take(k + 1)) == digits_value(ds.take(k)) * 10 + (ds[k] as int - '0' as int),
{
    assert(ds.take(k + 1).drop_last() =~= ds.take(k));
}

proof fn lemma_digits_prefix_le(ds: Seq<char>, k: int)
    requires
        all_digits(ds),
        0 <= k <= ds.len(),
    ensures
        digits_value(ds.take(k)) <= digits_value(ds),
    decreases ds.len(),
{
    if k == ds.len() {
        assert(ds.take(k) =~= ds);
    } else {
        let d = ds.drop_last();
        assert(all_digits(d));
        lemma_digits_prefix_le(d, k);
        assert(d.take(k) =~= ds.take(k));
        lemma_digits_value_nonneg(d);
        assert(is_ascii_digit_spec(ds[ds.len() - 1]));
    }
}

/// Reads an integer the way `i64::from_str` does (see `parse_int`).
pub fn parse_integer(text: &str) -> (r: Option<i64>)
    ensures
        r == parse_int(text@),
{
    let cs = chars_of(text);
    let ghost t = text@;
    let n = cs.len();
    let mut start: usize = 0;
    let mut neg = false;
    if n > 0 && cs[0] == '+' {
        start = 1;
    } else if n > 0 && cs[0] == '-' {
        start = 1;
        neg = true;
    }
    let ghost ds = sign_and_digits(t).1;
    assert(ds =~= t.skip(start as int));
    assert(neg == sign_and_digits(t).0);
    if start >= n {
        return None;
    }
    let mut acc: i64 = 0;
    let mut k: usize = start;
    while k < n
        invariant
            start <= k <= n,
            n == cs@.len(),
            cs@ == t,
            t == text@,
            neg == sign_and_digits(t).0,
            ds == sign_and_digits(t).1,
            ds == t.skip(start as int),
            ds.len() == n - start,
            forall|j: int| 0 <= j < k - start ==> is_ascii_digit_spec(#[trigger] ds[j]),
            acc as int == if neg {
                -digits_value(ds.take(k - start))
            } else {
                digits_value(ds.take(k - start))
            },
        decreases n - k,
    {
        let c = cs[k];
        if !('0' <= c && c <= '9') {
            assert(!is_ascii_digit_spec(ds[k - start]));
            return None;
        }
        let d = (c as u32 - '0' as u32) as i64;
        proof {
            lemma_digits_take(ds, k - start);
        }
        let next = match acc.checked_mul(10) {
            Some(m) => if neg {
                m.checked_sub(d)
            } else {
                m.checked_add(d)
            },
            None => None,
        };
        match next {
            Some(v) => {
                acc = v;
            },
            None => {
                proof {
                    assert(is_ascii_digit_spec(ds[k - start]));
                    let p = ds.take(k - start + 1);
                    assert forall|j: int| 0 <= j < p.len() implies is_ascii_digit_spec(#[trigger] p[j]) by {
                        assert(p[j] == ds[j]);
                    }
                    lemma_digits_value_nonneg(ds.take(k - start));
                    if all_digits(ds) {
                        lemma_digits_prefix_le(ds, k - start + 1);
                        lemma_digits_value_nonneg(p);
                    }
                }
                return None;
            },
        }
        k = k + 1;
    }
    assert(ds.take(n - start) =~= ds);
    Some(acc)
}

/// The text without leading and trailing whitespace (`str::trim`).
pub fn trim_text(text: &str) -> (r: String)
    ensures
        r@ == trimmed(text@),
{
    let cs = chars_of(text);
    let n = cs.len();
    let mut a: usize = 0;
    while a < n && is_whitespace(cs[a])
        invariant
            a <= n,
            n == cs@.len(),
            cs@ == text@,
            lead_end(text@, 0) == lead_end(text@, a as int),
        decreases n - a,
    {
        a = a + 1;
    }
    let mut b: usize = n;
    while b > 0 && is_whitespace(cs[b - 1])
        invariant
            b <= n,
            n == cs@.len(),
            cs@ == text@,
            trail_start(text@, n as int) == trail_start(text@, b as int),
        decreases b,
    {
        b = b - 1;
    }
    let mut out: Vec<char> = Vec::new();
    if a < b {
        let mut i: usize = a;
        while i < b
            invariant
                a <= i <= b <= n,
                n == cs@.len(),
                out@ == cs@.subrange(a as int, i as int),
            decreases b - i,
        {
            out.push(cs[i]);
            i = i + 1;
        }
    }
    let r = string_of(&out);
    assert(r@ =~= trimmed(text@));
    r
}

pub open spec fn has_text(mask: u8) -> bool {
    mask & 1 != 0
}

pub open spec fn has_int(mask: u8) -> bool {
    mask & 2 != 0
}

pub open spec fn has_float(mask: u8) -> bool {
    mask & 4 != 0
}

/// The value a trimmed input line `t` gives for the kinds in `mask`, or `None` when it fits
/// none of them and must be asked again. `float` is what reading `t` as a float and
/// truncating it to an integer gave, `None` when `t` is no float.
pub open spec fn input_value(mask: u8, t: Seq<char>, float: Option<i64>) -> Option<ValueV> {
    if has_int(mask) && parse_int(t) is Some {
        Some(ValueV::Number(parse_int(t)->0))
    } else if has_float(mask) && parse_int(t) is None && float is Some {
        Some(ValueV::Number(float->0))
    } else if has_text(mask) && parse_int(t) is None && float is None {
        Some(ValueV::Str(t))
    } else {
        None
    }
}

/// Decides what a trimmed input line gives (see `input_value`).
pub fn decide_input(mask: u8, t: &str, float: Option<i64>) -> (r: Option<Value>)
    ensures
        match (r, input_value(mask, t@, float)) {
            (Some(v), Some(sv)) => v@ == sv,
            (None, None) => true,
            _ => false,
        },
{
    let as_int = parse_integer(t);
    if (mask & 2) != 0 && as_int.is_some() {
        return Some(Value::Number(as_int.unwrap()));
    }
    if (mask & 4) != 0 && as_int.is_none() {
        if let Some(f) = float {
            return Some(Value::Number(f));
        }
    }
    if (mask & 1) != 0 && as_int.is_none() && float.is_none() {
        return Some(Value::String(t.to_owned()));
    }
    None
}

/// The kinds in `mask`, as the retry message names them.
pub open spec fn expected_kinds(mask: u8) -> Seq<char> {
    let parts = (if has_text(mask) { seq!["string"@] } else { Seq::empty() }) + (if has_int(mask) {
        seq!["integer"@]
    } else {
        Seq::empty()
    }) + (if has_float(mask) { seq!["float"@] } else { Seq::empty() });
    joined(parts)
}

/// The parts separated by `" or "`.
pub open spec fn joined(parts: Seq<Seq<char>>) -> Seq<char>
    decreases parts.len(),
{
    if parts.len() == 0 {
        Seq::empty()
    } else if parts.len() == 1 {
        parts[0]
    } else {
        joined(parts.drop_last()) + " or "@ + parts.last()
    }
}

/// The kinds of input a mask accepts, separated by `" or "`.
pub fn expected_input(mask: u8) -> (r: String)
    ensures
        r@ == expected_kinds(mask),
{
    let mut out = String::new();
    let mut first = true;
    let ghost mut parts: Seq<Seq<char>> = Seq::empty();
    if (mask & 1) != 0 {
        out.append("string");
        first = false;
        proof {
            parts = parts.push("string"@);
        }
    }
    assert(out@ == joined(parts)) by {
        reveal_with_fuel(joined, 2);
    }
    if (mask & 2) != 0 {
        if !first {
            out.append(" or ");
        }
        out.append("integer");
        first = false;
        proof {
            let before = parts;
            parts = parts.push("integer"@);
            assert(parts.drop_last() =~= before);
        }
    }
    assert(out@ == joined(parts) && first == (parts.len() == 0)) by {
        reveal_with_fuel(joined, 2);
    }
    if (mask & 4) != 0 {
        if !first {
            out.append(" or ");
        }
        out.append("float");
        proof {
            let before = parts;
            parts = parts.push("float"@);
            assert(parts.drop_last() =~= before);
        }
    }
    assert(out@ == joined(parts)) by {
        reveal_with_fuel(joined, 2);
    }
    assert(parts =~= (if has_text(mask) { seq!["string"@] } else { Seq::empty() }) + (if has_int(
        mask,
    ) {
        seq!["integer"@]
    } else {
        Seq::empty()
    }) + (if has_float(mask) { seq!["float"@] } else { Seq::empty() }));
    out
}

} // verus!
