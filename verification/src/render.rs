//! Deep equality of values, and the two ways a value is written out: as `print` shows it
//! and as error messages show it.
//!
//! Arrays and objects can contain themselves, and following such a cycle never ends. Each
//! function here takes `fuel`, spent whenever it steps from a value into the array or object
//! it refers to; when the fuel runs out, or a value refers to a heap slot that does not exist,
//! the answer is `None`: there is no result to give.
use vstd::prelude::*;
use crate::heap::{Heap, HeapV, Fields, lookup, ArrayV};
use crate::value::{Value, ValueV, lemma_values_view_index};
use crate::show::{nat_text, int_text, str_debug_text, push_nat, int_to_string, digit_char, digit_of, debug_str};
use crate::text::push_char;

verus! {

// ---------------------------------------------------------------------------
// Deep equality.
// ---------------------------------------------------------------------------

/// Deep equality: numbers, strings and booleans by value, `null` with `null`, functions by
/// offset, parameter count and captured values, arrays element by element and objects field
/// by field whatever their order. Comparison of elements stops at the first difference.
pub open spec fn values_equal(h: HeapV, a: ValueV, b: ValueV, fuel: nat) -> Option<bool>
    decreases fuel, a, 0nat,
{
    match (a, b) {
        (ValueV::Number(x), ValueV::Number(y)) => Some(x == y),
        (ValueV::Str(x), ValueV::Str(y)) => Some(x == y),
        (ValueV::Boolean(x), ValueV::Boolean(y)) => Some(x == y),
        (ValueV::Null, ValueV::Null) => Some(true),
        (
            ValueV::Function { bytecode_offset: ao, num_params: ap, upvalues: au },
            ValueV::Function { bytecode_offset: bo, num_params: bp, upvalues: bu },
        ) => {
            if ao != bo || ap != bp || au.len() != bu.len() {
                Some(false)
            } else {
                list_equal(h, au, bu, 0, fuel)
            }
        },
        (ValueV::Array(x), ValueV::Array(y)) => {
            if fuel == 0 || x >= h.arrays.len() || y >= h.arrays.len() {
                None
            } else if h.arrays[x as int].elements.len() != h.arrays[y as int].elements.len() {
                Some(false)
            } else {
                list_equal(
                    h,
                    h.arrays[x as int].elements,
                    h.arrays[y as int].elements,
                    0,
                    (fuel - 1) as nat,
                )
            }
        },
        (ValueV::Object(x), ValueV::Object(y)) => {
            if fuel == 0 || x >= h.objects.len() || y >= h.objects.len() {
                None
            } else if h.objects[x as int].len() != h.objects[y as int].len() {
                Some(false)
            } else {
                fields_equal(h, h.objects[x as int], h.objects[y as int], 0, (fuel - 1) as nat)
            }
        },
        _ => Some(false),
    }
}

/// Pairwise equality of `xs` and `ys` from position `i` on, stopping at the first difference.
pub open spec fn list_equal(h: HeapV, xs: Seq<ValueV>, ys: Seq<ValueV>, i: nat, fuel: nat) -> Option<
    bool,
>
    decreases fuel, xs, xs.len() - i,
{
    if i >= xs.len() || i >= ys.len() {
        Some(true)
    } else {
        match values_equal(h, xs[i as int], ys[i as int], fuel) {
            Some(true) => list_equal(h, xs, ys, i + 1, fuel),
            r => r,
        }
    }
}

/// Each field of `fa` from position `i` on has an equal value under its key in `fb`.
pub open spec fn fields_equal(h: HeapV, fa: Fields, fb: Fields, i: nat, fuel: nat) -> Option<bool>
    decreases fuel, fa, fa.len() - i,
{
    if i >= fa.len() {
        Some(true)
    } else {
        proof {
            assert(decreases_to!(fa => fa[i as int]));
            assert(decreases_to!(fa[i as int] => fa[i as int].1));
        }
        match lookup(fb, fa[i as int].0) {
            None => Some(false),
            Some(bv) => match values_equal(h, fa[i as int].1, bv, fuel) {
                Some(true) => fields_equal(h, fa, fb, i + 1, fuel),
                r => r,
            },
        }
    }
}

/// Deep equality of two values; see `values_equal`.
pub fn equal_values(heap: &Heap, a: &Value, b: &Value, fuel: u64) -> (r: Option<bool>)
    ensures
        r == values_equal(heap@, a@, b@, fuel as nat),
    decreases fuel, a@, 0nat,
{
    proof {
        reveal_with_fuel(crate::value::value_view, 2);
    }
    match (a, b) {
        (Value::Number(x), Value::Number(y)) => Some(*x == *y),
        (Value::String(x), Value::String(y)) => Some(*x == *y),
        (Value::Boolean(x), Value::Boolean(y)) => Some(*x == *y),
        (Value::Null, Value::Null) => Some(true),
        (
            Value::Function { bytecode_offset: ao, num_params: ap, upvalues: au },
            Value::Function { bytecode_offset: bo, num_params: bp, upvalues: bu },
        ) => {
            proof {
                lemma_values_view_index(au@);
                lemma_values_view_index(bu@);
            }
            assert(a@->Function_upvalues == crate::value::values_view(au@));
            assert(b@->Function_upvalues == crate::value::values_view(bu@));
            if *ao != *bo || *ap != *bp || au.len() != bu.len() {
                Some(false)
            } else {
                equal_lists(heap, au, bu, 0, fuel)
            }
        },
        (Value::Array(x), Value::Array(y)) => {
            if fuel == 0 || *x >= heap.array_count() || *y >= heap.array_count() {
                None
            } else if heap.array_len(*x) != heap.array_len(*y) {
                Some(false)
            } else {
                let xs = heap.elements_of(*x);
                let ys = heap.elements_of(*y);
                equal_lists(heap, xs, ys, 0, fuel - 1)
            }
        },
        (Value::Object(x), Value::Object(y)) => {
            if fuel == 0 || *x >= heap.object_count() || *y >= heap.object_count() {
                None
            } else if heap.object_len(*x) != heap.object_len(*y) {
                Some(false)
            } else {
                equal_fields(heap, *x, *y, 0, fuel - 1)
            }
        },
        _ => Some(false),
    }
}

fn equal_lists(heap: &Heap, xs: &Vec<Value>, ys: &Vec<Value>, i: usize, fuel: u64) -> (r: Option<
    bool,
>)
    requires
        i <= xs@.len(),
    ensures
        r == list_equal(
            heap@,
            crate::value::values_view(xs@),
            crate::value::values_view(ys@),
            i as nat,
            fuel as nat,
        ),
    decreases fuel, crate::value::values_view(xs@), xs@.len() - i,
{
    proof {
        lemma_values_view_index(xs@);
        lemma_values_view_index(ys@);
    }
    if i >= xs.len() || i >= ys.len() {
        return Some(true);
    }
    proof {
        assert(decreases_to!(crate::value::values_view(xs@) => crate::value::values_view(xs@)[i as int]));
    }
    match equal_values(heap, &xs[i], &ys[i], fuel) {
        Some(true) => equal_lists(heap, xs, ys, i + 1, fuel),
        r => r,
    }
}

fn equal_fields(heap: &Heap, x: usize, y: usize, i: usize, fuel: u64) -> (r: Option<bool>)
    requires
        x < heap@.objects.len(),
        y < heap@.objects.len(),
        i <= heap@.objects[x as int].len(),
    ensures
        r == fields_equal(heap@, heap@.objects[x as int], heap@.objects[y as int], i as nat, fuel as nat),
    decreases fuel, heap@.objects[x as int], heap@.objects[x as int].len() - i,
{
    let n = heap.object_len(x);
    if i >= n {
        return Some(true);
    }
    let (k, v) = heap.object_entry(x, i);
    let ghost fa = heap@.objects[x as int];
    proof {
        assert(decreases_to!(fa => fa[i as int]));
        assert(decreases_to!(fa[i as int] => fa[i as int].1));
    }
    match heap.object_get(y, k.as_str()) {
        None => Some(false),
        Some(bv) => match equal_values(heap, &v, &bv, fuel) {
            Some(true) => equal_fields(heap, x, y, i + 1, fuel),
            r => r,
        },
    }
}

// ---------------------------------------------------------------------------
// Text.
// ---------------------------------------------------------------------------

pub open spec fn hex_digit(d: nat) -> char {
    if d < 10 {
        digit_char(d)
    } else if d == 10 {
        'a'
    } else if d == 11 {
        'b'
    } else if d == 12 {
        'c'
    } else if d == 13 {
        'd'
    } else if d == 14 {
        'e'
    } else {
        'f'
    }
}

/// Lower-case hexadecimal digits, as `{:x}` writes them.
pub open spec fn hex_text(n: nat) -> Seq<char>
    decreases n,
{
    if n < 16 {
        seq![hex_digit(n)]
    } else {
        hex_text(n / 16) + seq![hex_digit(n % 16)]
    }
}

fn hex_digit_of(d: u64) -> (c: char)
    requires
        d < 16,
    ensures
        c == hex_digit(d as nat),
{
    if d < 10 {
        digit_of(d)
    } else if d == 10 {
        'a'
    } else if d == 11 {
        'b'
    } else if d == 12 {
        'c'
    } else if d == 13 {
        'd'
    } else if d == 14 {
        'e'
    } else {
        'f'
    }
}

pub fn push_hex(out: &mut String, n: u64)
    ensures
        final(out)@ == old(out)@ + hex_text(n as nat),
    decreases n,
{
    if n < 16 {
        push_char(out, hex_digit_of(n));
    } else {
        push_hex(out, n / 16);
        push_char(out, hex_digit_of(n % 16));
    }
}

pub open spec fn bool_text(b: bool) -> Seq<char> {
    if b { "true"@ } else { "false"@ }
}

/// How `print` shows a value.
pub open spec fn show_value(h: HeapV, v: ValueV, fuel: nat) -> Option<Seq<char>>
    decreases fuel, v, 0nat,
{
    match v {
        ValueV::Number(n) => Some(int_text(n as int)),
        ValueV::Str(s) => Some(s),
        ValueV::Boolean(b) => Some(bool_text(b)),
        ValueV::Null => Some("null"@),
        ValueV::Function { bytecode_offset, num_params, upvalues } => Some(
            "<function at "@ + hex_text(bytecode_offset as nat) + "("@ + nat_text(num_params as nat)
                + " params, "@ + nat_text(upvalues.len()) + " upvalues)>"@,
        ),
        ValueV::Array(x) => {
            if fuel == 0 || x >= h.arrays.len() {
                None
            } else {
                match show_list(h, h.arrays[x as int].elements, 0, (fuel - 1) as nat) {
                    Some(body) => Some(
                        (if h.arrays[x as int].mutable { "["@ } else { "#["@ }) + body + "]"@,
                    ),
                    None => None,
                }
            }
        },
        ValueV::Object(x) => {
            if fuel == 0 || x >= h.objects.len() {
                None
            } else {
                match show_fields(h, h.objects[x as int], 0, (fuel - 1) as nat) {
                    Some(body) => Some("{"@ + body + "}"@),
                    None => None,
                }
            }
        },
    }
}

/// The elements of `xs` from position `i` on, shown and separated by `", "`.
pub open spec fn show_list(h: HeapV, xs: Seq<ValueV>, i: nat, fuel: nat) -> Option<Seq<char>>
    decreases fuel, xs, xs.len() - i,
{
    if i >= xs.len() {
        Some(Seq::empty())
    } else {
        match (show_value(h, xs[i as int], fuel), show_list(h, xs, i + 1, fuel)) {
            (Some(a), Some(rest)) => Some((if i > 0 { ", "@ } else { Seq::empty() }) + a + rest),
            _ => None,
        }
    }
}

/// The fields from position `i` on as `key: value`, separated by `", "`.
pub open spec fn show_fields(h: HeapV, fs: Fields, i: nat, fuel: nat) -> Option<Seq<char>>
    decreases fuel, fs, fs.len() - i,
{
    if i >= fs.len() {
        Some(Seq::empty())
    } else {
        proof {
            assert(decreases_to!(fs => fs[i as int]));
            assert(decreases_to!(fs[i as int] => fs[i as int].1));
        }
        match (show_value(h, fs[i as int].1, fuel), show_fields(h, fs, i + 1, fuel)) {
            (Some(a), Some(rest)) => Some(
                (if i > 0 { ", "@ } else { Seq::empty() }) + fs[i as int].0 + ": "@ + a + rest,
            ),
            _ => None,
        }
    }
}

/// How error messages show a value (the derived `Debug` layout of the runtime types).
pub open spec fn debug_value(h: HeapV, v: ValueV, fuel: nat) -> Option<Seq<char>>
    decreases fuel, v, 0nat,
{
    match v {
        ValueV::Number(n) => Some("Number("@ + int_text(n as int) + ")"@),
        ValueV::Str(s) => Some("String("@ + str_debug_text(s) + ")"@),
        ValueV::Boolean(b) => Some("Boolean("@ + bool_text(b) + ")"@),
        ValueV::Null => Some("Null"@),
        ValueV::Function { bytecode_offset, num_params, upvalues } => {
            match debug_list(h, upvalues, 0, fuel) {
                Some(body) => Some(
                    "Function { bytecode_offset: "@ + nat_text(bytecode_offset as nat)
                        + ", num_params: "@ + nat_text(num_params as nat) + ", upvalues: ["@ + body
                        + "] }"@,
                ),
                None => None,
            }
        },
        ValueV::Array(x) => {
            if fuel == 0 || x >= h.arrays.len() {
                None
            } else {
                match debug_list(h, h.arrays[x as int].elements, 0, (fuel - 1) as nat) {
                    Some(body) => Some(
                        "Array(ArrayData { mutable: "@ + bool_text(h.arrays[x as int].mutable)
                            + ", elements: RefCell { value: ["@ + body + "] } })"@,
                    ),
                    None => None,
                }
            }
        },
        ValueV::Object(x) => {
            if fuel == 0 || x >= h.objects.len() {
                None
            } else {
                match debug_fields(h, h.objects[x as int], 0, (fuel - 1) as nat) {
                    Some(body) => Some(
                        "Object(ObjectData { fields: RefCell { value: {"@ + body + "} } })"@,
                    ),
                    None => None,
                }
            }
        },
    }
}

pub open spec fn debug_list(h: HeapV, xs: Seq<ValueV>, i: nat, fuel: nat) -> Option<Seq<char>>
    decreases fuel, xs, xs.len() - i,
{
    if i >= xs.len() {
        Some(Seq::empty())
    } else {
        match (debug_value(h, xs[i as int], fuel), debug_list(h, xs, i + 1, fuel)) {
            (Some(a), Some(rest)) => Some((if i > 0 { ", "@ } else { Seq::empty() }) + a + rest),
            _ => None,
        }
    }
}

pub open spec fn debug_fields(h: HeapV, fs: Fields, i: nat, fuel: nat) -> Option<Seq<char>>
    decreases fuel, fs, fs.len() - i,
{
    if i >= fs.len() {
        Some(Seq::empty())
    } else {
        proof {
            assert(decreases_to!(fs => fs[i as int]));
            assert(decreases_to!(fs[i as int] => fs[i as int].1));
        }
        match (debug_value(h, fs[i as int].1, fuel), debug_fields(h, fs, i + 1, fuel)) {
            (Some(a), Some(rest)) => Some(
                (if i > 0 { ", "@ } else { Seq::empty() }) + str_debug_text(fs[i as int].0)
                    + ": "@ + a + rest,
            ),
            _ => None,
        }
    }
}

fn write_str(out: &mut String, s: &str)
    ensures
        final(out)@ == old(out)@ + s@,
{
    out.append(s);
}

fn write_bool(out: &mut String, b: bool)
    ensures
        final(out)@ == old(out)@ + bool_text(b),
{
    if b {
        write_str(out, "true");
    } else {
        write_str(out, "false");
    }
}

fn write_int(out: &mut String, n: i64)
    ensures
        final(out)@ == old(out)@ + int_text(n as int),
{
    let s = int_to_string(n);
    out.append(s.as_str());
}

/// Appends how `print` shows `v` (see `show_value`); false when there is nothing to show.
pub fn write_value(heap: &Heap, v: &Value, fuel: u64, out: &mut String) -> (ok: bool)
    ensures
        ok == show_value(heap@, v@, fuel as nat) is Some,
        ok ==> final(out)@ == old(out)@ + show_value(heap@, v@, fuel as nat)->0,
    decreases fuel, v@, 0nat,
{
    proof {
        reveal_with_fuel(crate::value::value_view, 2);
    }
    match v {
        Value::Number(n) => {
            write_int(out, *n);
            true
        },
        Value::String(s) => {
            write_str(out, s.as_str());
            true
        },
        Value::Boolean(b) => {
            write_bool(out, *b);
            true
        },
        Value::Null => {
            write_str(out, "null");
            true
        },
        Value::Function { bytecode_offset, num_params, upvalues } => {
            proof {
                lemma_values_view_index(upvalues@);
            }
            assert(v@->Function_upvalues == crate::value::values_view(upvalues@));
            write_str(out, "<function at ");
            push_hex(out, *bytecode_offset as u64);
            write_str(out, "(");
            push_nat(out, *num_params as u64);
            write_str(out, " params, ");
            push_nat(out, upvalues.len() as u64);
            write_str(out, " upvalues)>");
            true
        },
        Value::Array(x) => {
            if fuel == 0 || *x >= heap.array_count() {
                return false;
            }
            if heap.array_is_mutable(*x) {
                write_str(out, "[");
            } else {
                write_str(out, "#[");
            }
            let xs = heap.elements_of(*x);
            proof {
                lemma_values_view_index(xs@);
            }
            let ok = write_list(heap, xs, 0, fuel - 1, out);
            if !ok {
                return false;
            }
            write_str(out, "]");
            true
        },
        Value::Object(x) => {
            if fuel == 0 || *x >= heap.object_count() {
                return false;
            }
            write_str(out, "{");
            let ok = write_fields(heap, *x, 0, fuel - 1, out);
            if !ok {
                return false;
            }
            write_str(out, "}");
            true
        },
    }
}

fn write_list(heap: &Heap, xs: &Vec<Value>, i: usize, fuel: u64, out: &mut String) -> (ok: bool)
    requires
        i <= xs@.len(),
    ensures
        ok == show_list(heap@, crate::value::values_view(xs@), i as nat, fuel as nat) is Some,
        ok ==> final(out)@ == old(out)@ + show_list(
            heap@,
            crate::value::values_view(xs@),
            i as nat,
            fuel as nat,
        )->0,
    decreases fuel, crate::value::values_view(xs@), xs@.len() - i,
{
    proof {
        lemma_values_view_index(xs@);
    }
    if i >= xs.len() {
        return true;
    }
    proof {
        assert(decreases_to!(crate::value::values_view(xs@) => crate::value::values_view(xs@)[i as int]));
    }
    if i > 0 {
        write_str(out, ", ");
    }
    let ok = write_value(heap, &xs[i], fuel, out);
    if !ok {
        return false;
    }
    write_list(heap, xs, i + 1, fuel, out)
}

fn write_fields(heap: &Heap, x: usize, i: usize, fuel: u64, out: &mut String) -> (ok: bool)
    requires
        x < heap@.objects.len(),
        i <= heap@.objects[x as int].len(),
    ensures
        ok == show_fields(heap@, heap@.objects[x as int], i as nat, fuel as nat) is Some,
        ok ==> final(out)@ == old(out)@ + show_fields(
            heap@,
            heap@.objects[x as int],
            i as nat,
            fuel as nat,
        )->0,
    decreases fuel, heap@.objects[x as int], heap@.objects[x as int].len() - i,
{
    let n = heap.object_len(x);
    if i >= n {
        return true;
    }
    let (k, v) = heap.object_entry(x, i);
    let ghost fa = heap@.objects[x as int];
    proof {
        assert(decreases_to!(fa => fa[i as int]));
        assert(decreases_to!(fa[i as int] => fa[i as int].1));
    }
    if i > 0 {
        write_str(out, ", ");
    }
    write_str(out, k.as_str());
    write_str(out, ": ");
    let ok = write_value(heap, &v, fuel, out);
    if !ok {
        return false;
    }
    write_fields(heap, x, i + 1, fuel, out)
}

/// Appends how error messages show `v` (see `debug_value`); false when there is nothing to
/// show.
pub fn write_debug(heap: &Heap, v: &Value, fuel: u64, out: &mut String) -> (ok: bool)
    ensures
        ok == debug_value(heap@, v@, fuel as nat) is Some,
        ok ==> final(out)@ == old(out)@ + debug_value(heap@, v@, fuel as nat)->0,
    decreases fuel, v@, 0nat,
{
    proof {
        reveal_with_fuel(crate::value::value_view, 2);
    }
    match v {
        Value::Number(n) => {
            write_str(out, "Number(");
            write_int(out, *n);
            write_str(out, ")");
            true
        },
        Value::String(s) => {
            write_str(out, "String(");
            let d = debug_str(s);
            write_str(out, d.as_str());
            write_str(out, ")");
            true
        },
        Value::Boolean(b) => {
            write_str(out, "Boolean(");
            write_bool(out, *b);
            write_str(out, ")");
            true
        },
        Value::Null => {
            write_str(out, "Null");
            true
        },
        Value::Function { bytecode_offset, num_params, upvalues } => {
            proof {
                lemma_values_view_index(upvalues@);
            }
            assert(v@->Function_upvalues == crate::value::values_view(upvalues@));
            assert(decreases_to!(v@ => v@->Function_upvalues));
            write_str(out, "Function { bytecode_offset: ");
            push_nat(out, *bytecode_offset as u64);
            write_str(out, ", num_params: ");
            push_nat(out, *num_params as u64);
            write_str(out, ", upvalues: [");
            let ok = write_debug_list(heap, upvalues, 0, fuel, out);
            if !ok {
                return false;
            }
            write_str(out, "] }");
            true
        },
        Value::Array(x) => {
            if fuel == 0 || *x >= heap.array_count() {
                return false;
            }
            write_str(out, "Array(ArrayData { mutable: ");
            write_bool(out, heap.array_is_mutable(*x));
            write_str(out, ", elements: RefCell { value: [");
            let xs = heap.elements_of(*x);
            let ok = write_debug_list(heap, xs, 0, fuel - 1, out);
            if !ok {
                return false;
            }
            write_str(out, "] } })");
            true
        },
        Value::Object(x) => {
            if fuel == 0 || *x >= heap.object_count() {
                return false;
            }
            write_str(out, "Object(ObjectData { fields: RefCell { value: {");
            let ok = write_debug_fields(heap, *x, 0, fuel - 1, out);
            if !ok {
                return false;
            }
            write_str(out, "} } })");
            true
        },
    }
}

fn write_debug_list(heap: &Heap, xs: &Vec<Value>, i: usize, fuel: u64, out: &mut String) -> (ok:
    bool)
    requires
        i <= xs@.len(),
    ensures
        ok == debug_list(heap@, crate::value::values_view(xs@), i as nat, fuel as nat) is Some,
        ok ==> final(out)@ == old(out)@ + debug_list(
            heap@,
            crate::value::values_view(xs@),
            i as nat,
            fuel as nat,
        )->0,
    decreases fuel, crate::value::values_view(xs@), xs@.len() - i,
{
    proof {
        lemma_values_view_index(xs@);
    }
    if i >= xs.len() {
        return true;
    }
    proof {
        assert(decreases_to!(crate::value::values_view(xs@) => crate::value::values_view(xs@)[i as int]));
    }
    if i > 0 {
        write_str(out, ", ");
    }
    let ok = write_debug(heap, &xs[i], fuel, out);
    if !ok {
        return false;
    }
    write_debug_list(heap, xs, i + 1, fuel, out)
}

fn write_debug_fields(heap: &Heap, x: usize, i: usize, fuel: u64, out: &mut String) -> (ok: bool)
    requires
        x < heap@.objects.len(),
        i <= heap@.objects[x as int].len(),
    ensures
        ok == debug_fields(heap@, heap@.objects[x as int], i as nat, fuel as nat) is Some,
        ok ==> final(out)@ == old(out)@ + debug_fields(
            heap@,
            heap@.objects[x as int],
            i as nat,
            fuel as nat,
        )->0,
    decreases fuel, heap@.objects[x as int], heap@.objects[x as int].len() - i,
{
    let n = heap.object_len(x);
    if i >= n {
        return true;
    }
    let (k, v) = heap.object_entry(x, i);
    let ghost fa = heap@.objects[x as int];
    proof {
        assert(decreases_to!(fa => fa[i as int]));
        assert(decreases_to!(fa[i as int] => fa[i as int].1));
    }
    if i > 0 {
        write_str(out, ", ");
    }
    let d = debug_str(&k);
    write_str(out, d.as_str());
    write_str(out, ": ");
    let ok = write_debug(heap, &v, fuel, out);
    if !ok {
        return false;
    }
    write_debug_fields(heap, x, i + 1, fuel, out)
}

} // verus!
