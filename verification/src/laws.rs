//! Properties that hold across the library's operations.
use vstd::prelude::*;
use crate::bytecode::{u32_bytes, u32_at, first_index, lemma_u32_roundtrip};
use crate::value::ValueV;
use crate::compiler::CompilerV;
use crate::lexer::{tokens_from, tokenize_spec, digits_value, next_token_from};
use crate::vm::{VmV, EventV};
use crate::heap::ArrayV;
use crate::ops_heap::{index_set_spec, index_get_spec, array_push_spec, array_pop_spec, popn,
    object_set_spec, object_get_spec, object_delete_spec, key_of, object_fields, build_object_spec,
    get_or_create, get_or_create_step, get_or_create_const_spec, get_or_create_spec, const_key};
use crate::input::{parse_int, trimmed, lead_end, trail_start, all_digits, sign_and_digits};
use crate::show::{int_text, nat_text, digit_char};
use crate::text::{char_is_whitespace, is_ascii_digit_spec};
use crate::loader::{LoaderV, Phase, RequestV, resolved_spec, read_spec, scan, is_loaded, visiting,
    next_import};
use crate::project::ModuleV;
use crate::heap::{HeapV, Fields, lookup, lemma_key_index, key_index, insert_entry, remove_entry};
use crate::render::{values_equal, list_equal, fields_equal};
use crate::machine::{step_spec, run_spec};
use crate::ops_values::{binary_result, binary_spec};
use crate::compile_opt::fold_spec;
use crate::compile_spec::{binop_code, lit_value};
use crate::ast::BinaryOperator;
use crate::bytecode::{OP_STORE_GLOBAL, OP_LOAD_GLOBAL, OP_INDEX_SET, OP_BUILD_OBJECT, OP_OBJECT_SET,
    OP_OBJECT_DELETE, OP_OBJECT_GET_OR_CREATE_CONST, OP_OBJECT_GET_OR_CREATE};
use crate::ast::{StmtV, ExprV, LitV};
use crate::compile_opt::{member_uses_expr, member_uses_exprs, member_uses_stmts, member_uses_branches};
use crate::compiler::ExportsV;
use crate::compile_api::{cmodule, table_insert, first_key};

verus! {

/// A `u32` patched into code is what is read back at that position, and the bytes around it
/// stay as they were.
pub proof fn law_patch_then_read(code: Seq<u8>, pos: int, v: u32)
    requires
        0 <= pos,
        pos + 4 <= code.len(),
    ensures
        ({
            let patched = code.take(pos) + u32_bytes(v) + code.skip(pos + 4);
            &&& u32_at(patched, pos) == v
            &&& patched.len() == code.len()
            &&& forall|i: int| 0 <= i < code.len() && (i < pos || i >= pos + 4) ==> patched[i] == code[i]
        }),
{
    lemma_u32_roundtrip(code.take(pos), v, code.skip(pos + 4));
    assert(code.take(pos).len() == pos);
}

/// Adding a constant that is already in the pool gives its index again and leaves the pool
/// as it is; adding the same value twice gives the same index both times.
pub proof fn law_constant_once(c: CompilerV, v: ValueV)
    ensures
        ({
            let (c1, i1) = c.constant(v);
            let (c2, i2) = c1.constant(v);
            &&& c2 == c1
            &&& i2 == i1
        }),
{
    match first_index(c.consts, v) {
        Some(i) => {},
        None => {
            let pool = c.consts.push(v);
            let n = c.consts.len() as int;
            assert(pool[n] == v);
            assert forall|j: int| 0 <= j < n implies pool[j] != v by {
                assert(pool[j] == c.consts[j]);
                if c.consts[j] == v {
                    assert(exists|k: int| 0 <= k < c.consts.len() && c.consts[k] == v);
                }
            }
            let w = choose|k: int| 0 <= k < pool.len() && pool[k] == v && forall|j: int| 0 <= j < k ==> pool[j] != v;
            assert(0 <= w < pool.len() && pool[w] == v && forall|j: int| 0 <= j < w ==> pool[j] != v) by {
                assert(exists|k: int| 0 <= k < pool.len() && pool[k] == v && forall|j: int| 0 <= j < k ==> pool[j] != v) by {
                    assert(0 <= n < pool.len() && pool[n] == v && forall|j: int| 0 <= j < n ==> pool[j] != v);
                }
            }
            if w < n {
                assert(pool[w] != v);
            }
        },
    }
}

/// An immutable array cannot be changed: storing into it, pushing onto it and popping from
/// it all stop with an error and leave the heap as it was.
pub proof fn law_immutable_arrays(s: VmV, x: usize)
    requires
        x < s.heap.arrays.len(),
        !s.heap.arrays[x as int].mutable,
    ensures
        ({
            let n = s.stack.len();
            &&& n >= 3 && s.stack[n - 3] == ValueV::Array(x) ==> {
                let (s1, e) = index_set_spec(s);
                s1.heap == s.heap && e == EventV::Error("Cannot modify immutable array"@)
            }
            &&& n >= 2 && s.stack[n - 2] == ValueV::Array(x) ==> {
                let (s1, e) = array_push_spec(s);
                s1.heap == s.heap && e == EventV::Error("Cannot push to immutable array"@)
            }
            &&& n >= 1 && s.stack[n - 1] == ValueV::Array(x) ==> {
                let (s1, e) = array_pop_spec(s);
                s1.heap == s.heap && e == EventV::Error("Cannot pop from immutable array"@)
            }
        }),
{
    let n = s.stack.len();
    if n >= 3 {
        assert(popn(s, 3).1[0] == s.stack[n - 3]);
    }
    if n >= 2 {
        assert(popn(s, 2).1[0] == s.stack[n - 2]);
    }
}

/// The tokens of any text end with exactly one `Eof`, and it comes last.
pub proof fn law_tokens_end_with_eof(s: Seq<char>, pos: int)
    ensures
        tokens_from(s, pos).len() >= 1,
        tokens_from(s, pos).last() is Eof,
        forall|i: int| 0 <= i < tokens_from(s, pos).len() - 1 ==> !(tokens_from(s, pos)[i] is Eof),
    decreases s.len() - pos,
{
    let (t, e) = crate::lexer::next_token_from(s, pos);
    if t is Eof || e <= pos || e > s.len() {
    } else {
        law_tokens_end_with_eof(s, e);
        let rest = tokens_from(s, e);
        assert(tokens_from(s, pos) == seq![t] + rest);
        assert forall|i: int| 0 <= i < tokens_from(s, pos).len() - 1 implies !(tokens_from(
            s,
            pos,
        )[i] is Eof) by {
            if i > 0 {
                assert(tokens_from(s, pos)[i] == rest[i - 1]);
            }
        }
    }
}

/// The lexer stops only at the end: when it gives `Eof`, it has read the whole input.
pub proof fn law_eof_at_end(s: Seq<char>, pos: int)
    requires
        0 <= pos <= s.len(),
    ensures
        next_token_from(s, pos).0 is Eof ==> next_token_from(s, pos).1 == s.len(),
    decreases s.len() - pos,
{
    crate::lexer::lemma_skip_spaces_bounds(s, pos);
    let p = crate::lexer::skip_spaces_from(s, pos);
    if p < s.len() && s[p] == '/' && p + 1 < s.len() && s[p + 1] == '/' {
        crate::lexer::lemma_line_end_bounds(s, p + 2);
        law_eof_at_end(s, crate::lexer::line_end(s, p + 2));
    } else if p < s.len() {
        law_eof_at_end(s, p + 1);
    }
}

/// Every token but the last reads at least one character, so a text of `n` characters has
/// at most `n + 1` tokens.
pub proof fn law_token_count_bounded(s: Seq<char>, pos: int)
    requires
        0 <= pos <= s.len(),
    ensures
        tokens_from(s, pos).len() <= s.len() - pos + 1,
    decreases s.len() - pos,
{
    let (t, e) = crate::lexer::next_token_from(s, pos);
    if !(t is Eof || e <= pos || e > s.len()) {
        law_token_count_bounded(s, e);
    }
}

proof fn lemma_lead(s: Seq<char>, i: int)
    requires
        0 <= i <= s.len(),
    ensures
        i <= lead_end(s, i) <= s.len(),
        forall|j: int| i <= j < lead_end(s, i) ==> char_is_whitespace(#[trigger] s[j]),
        lead_end(s, i) < s.len() ==> !char_is_whitespace(s[lead_end(s, i)]),
    decreases s.len() - i,
{
    if i < s.len() && char_is_whitespace(s[i]) {
        lemma_lead(s, i + 1);
    }
}

proof fn lemma_trail(s: Seq<char>, j: int)
    requires
        0 <= j <= s.len(),
    ensures
        0 <= trail_start(s, j) <= j,
        forall|k: int| trail_start(s, j) <= k < j ==> char_is_whitespace(#[trigger] s[k]),
        trail_start(s, j) > 0 ==> !char_is_whitespace(s[trail_start(s, j) - 1]),
    decreases j,
{
    if j > 0 && char_is_whitespace(s[j - 1]) {
        lemma_trail(s, j - 1);
    }
}

/// Trimmed text neither starts nor ends with whitespace, and it is empty exactly when the
/// text is all whitespace.
pub proof fn law_trimmed(s: Seq<char>)
    ensures
        trimmed(s).len() > 0 ==> !char_is_whitespace(trimmed(s)[0]) && !char_is_whitespace(
            trimmed(s).last(),
        ),
        trimmed(s) == Seq::<char>::empty() <==> forall|i: int| 0 <= i < s.len() ==> char_is_whitespace(
            #[trigger] s[i],
        ),
{
    lemma_lead(s, 0);
    lemma_trail(s, s.len() as int);
    let a = lead_end(s, 0);
    let b = trail_start(s, s.len() as int);
    if a < b {
        assert(trimmed(s)[0] == s[a]);
        assert(trimmed(s).last() == s[b - 1]);
        assert(!(forall|i: int| 0 <= i < s.len() ==> char_is_whitespace(#[trigger] s[i])) ) by {
            assert(!char_is_whitespace(s[a]));
        }
    } else {
        assert forall|i: int| 0 <= i < s.len() implies char_is_whitespace(#[trigger] s[i]) by {
            if i >= a {
                if i >= b {
                } else {
                    assert(false);
                }
            }
        }
    }
}

proof fn lemma_digit(d: nat)
    requires
        d < 10,
    ensures
        digit_char(d) as int - '0' as int == d,
        is_ascii_digit_spec(digit_char(d)),
{
    assert('0' as int == 48 && '1' as int == 49 && '2' as int == 50 && '3' as int == 51 && '4' as int
        == 52 && '5' as int == 53 && '6' as int == 54 && '7' as int == 55 && '8' as int == 56 && '9' as int
        == 57);
}

proof fn lemma_nat_text(n: nat)
    ensures
        nat_text(n).len() >= 1,
        all_digits(nat_text(n)),
        digits_value(nat_text(n)) == n,
        nat_text(n)[0] != '+' && nat_text(n)[0] != '-',
    decreases n,
{
    if n < 10 {
        lemma_digit(n);
        assert(nat_text(n) == seq![digit_char(n)]);
        assert(seq![digit_char(n)].drop_last() =~= Seq::<char>::empty());
        assert(digits_value(Seq::<char>::empty()) == 0);
        assert(digits_value(seq![digit_char(n)]) == n);
    } else {
        lemma_digit(n % 10);
        lemma_nat_text(n / 10);
        let t = nat_text(n);
        assert(t == nat_text(n / 10) + seq![digit_char(n % 10)]);
        assert(t.drop_last() =~= nat_text(n / 10));
        assert(t.last() == digit_char(n % 10));
        assert(n / 10 * 10 + n % 10 == n) by (nonlinear_arith);
        assert(digits_value(t) == digits_value(nat_text(n / 10)) * 10 + (n % 10));
        assert(t[0] == nat_text(n / 10)[0]);
        assert forall|i: int| 0 <= i < t.len() implies is_ascii_digit_spec(#[trigger] t[i]) by {
            if i < t.len() - 1 {
                assert(t[i] == nat_text(n / 10)[i]);
            }
        }
    }
}

/// Reading back the decimal text of an integer gives the integer: input parsing inverts how
/// numbers are printed.
pub proof fn law_parse_printed_int(n: i64)
    ensures
        parse_int(int_text(n as int)) == Some(n),
{
    if n < 0 {
        let m = (-(n as int)) as nat;
        lemma_nat_text(m);
        let t = int_text(n as int);
        assert(t == seq!['-'] + nat_text(m));
        assert(t.skip(1) =~= nat_text(m));
        assert(sign_and_digits(t) == (true, nat_text(m)));
    } else {
        lemma_nat_text(n as nat);
        let t = int_text(n as int);
        assert(sign_and_digits(t) == (false, t));
    }
}

/// Circular imports are rejected: a module whose canonical path is still being loaded is not
/// visited again, and loading stops with an error naming it.
pub proof fn law_circular_import_rejected(l: LoaderV, p: Seq<char>)
    requires
        l.phase == Phase::Visit,
        !is_loaded(l, p),
        visiting(l, p),
    ensures
        resolved_spec(l, Ok(p)).1 == RequestV::Fail("Circular import detected involving "@ + p),
        resolved_spec(l, Ok(p)).0.phase == Phase::Finished,
{
}

/// A module that is already loaded is not read again: loading goes on with the module that
/// imported it.
pub proof fn law_loaded_once(l: LoaderV, p: Seq<char>)
    requires
        l.phase == Phase::Visit,
        is_loaded(l, p),
    ensures
        resolved_spec(l, Ok(p)) == scan(l),
{
}

/// No key occurs twice among an object's fields.
pub open spec fn fields_distinct(fs: Fields) -> bool {
    forall|i: int, j: int| 0 <= i < j < fs.len() ==> fs[i].0 != fs[j].0
}

/// Every object on the heap has each key once, as a map keeps it.
pub open spec fn heap_keys_distinct(h: HeapV) -> bool {
    forall|x: int| 0 <= x < h.objects.len() ==> fields_distinct(#[trigger] h.objects[x])
}

proof fn lemma_value_equal_itself(h: HeapV, v: ValueV, fuel: nat)
    requires
        heap_keys_distinct(h),
    ensures
        values_equal(h, v, v, fuel) != Some(false),
    decreases fuel, v, 0nat,
{
    match v {
        ValueV::Function { upvalues, .. } => {
            lemma_list_equal_itself(h, upvalues, 0, fuel);
        },
        ValueV::Array(x) => {
            if fuel > 0 && x < h.arrays.len() {
                lemma_list_equal_itself(h, h.arrays[x as int].elements, 0, (fuel - 1) as nat);
            }
        },
        ValueV::Object(x) => {
            if fuel > 0 && x < h.objects.len() {
                lemma_fields_equal_itself(h, h.objects[x as int], 0, (fuel - 1) as nat);
            }
        },
        _ => {},
    }
}

proof fn lemma_list_equal_itself(h: HeapV, xs: Seq<ValueV>, i: nat, fuel: nat)
    requires
        heap_keys_distinct(h),
    ensures
        list_equal(h, xs, xs, i, fuel) != Some(false),
    decreases fuel, xs, xs.len() - i,
{
    if i < xs.len() {
        lemma_value_equal_itself(h, xs[i as int], fuel);
        lemma_list_equal_itself(h, xs, i + 1, fuel);
    }
}

proof fn lemma_fields_equal_itself(h: HeapV, fs: Fields, i: nat, fuel: nat)
    requires
        heap_keys_distinct(h),
        fields_distinct(fs),
    ensures
        fields_equal(h, fs, fs, i, fuel) != Some(false),
    decreases fuel, fs, fs.len() - i,
{
    if i < fs.len() {
        assert(decreases_to!(fs => fs[i as int]));
        assert(decreases_to!(fs[i as int] => fs[i as int].1));
        lemma_key_index(fs, fs[i as int].0);
        assert(lookup(fs, fs[i as int].0) == Some(fs[i as int].1));
        lemma_value_equal_itself(h, fs[i as int].1, fuel);
        lemma_fields_equal_itself(h, fs, i + 1, fuel);
    }
}

/// Objects keep each key once: inserting a property and removing one both leave the keys
/// of an object distinct, as they are in an empty object.
pub proof fn law_keys_stay_distinct(fs: Fields, k: Seq<char>, v: ValueV)
    requires
        fields_distinct(fs),
    ensures
        fields_distinct(insert_entry(fs, k, v)),
        fields_distinct(remove_entry(fs, k)),
        fields_distinct(Seq::<(Seq<char>, ValueV)>::empty()),
{
    lemma_key_index(fs, k);
    let ins = insert_entry(fs, k, v);
    match key_index(fs, k) {
        Some(w) => {
            assert forall|i: int, j: int| 0 <= i < j < ins.len() implies ins[i].0 != ins[j].0 by {
                assert(ins[i].0 == fs[i].0);
                assert(ins[j].0 == fs[j].0);
            }
            let rem = remove_entry(fs, k);
            assert forall|i: int, j: int| 0 <= i < j < rem.len() implies rem[i].0 != rem[j].0 by {
                let a = if i < w { i } else { i + 1 };
                let b = if j < w { j } else { j + 1 };
                assert(rem[i] == fs[a]);
                assert(rem[j] == fs[b]);
            }
        },
        None => {
            assert forall|i: int, j: int| 0 <= i < j < ins.len() implies ins[i].0 != ins[j].0 by {
                if j == fs.len() {
                    assert(ins[j].0 == k);
                    assert(ins[i] == fs[i]);
                } else {
                    assert(ins[i] == fs[i]);
                    assert(ins[j] == fs[j]);
                }
            }
        },
    }
}

proof fn lemma_set_object(h: HeapV, x: int, fs: Fields)
    requires
        heap_keys_distinct(h),
        0 <= x < h.objects.len(),
        fields_distinct(fs),
    ensures
        heap_keys_distinct(HeapV { objects: h.objects.update(x, fs), ..h }),
{
    let h2 = HeapV { objects: h.objects.update(x, fs), ..h };
    assert forall|y: int| 0 <= y < h2.objects.len() implies fields_distinct(#[trigger] h2.objects[y]) by {
        if y != x {
            assert(h2.objects[y] == h.objects[y]);
        }
    }
}

proof fn lemma_add_object(h: HeapV, fs: Fields)
    requires
        heap_keys_distinct(h),
        fields_distinct(fs),
    ensures
        heap_keys_distinct(HeapV { objects: h.objects.push(fs), ..h }),
{
    let h2 = HeapV { objects: h.objects.push(fs), ..h };
    assert forall|y: int| 0 <= y < h2.objects.len() implies fields_distinct(#[trigger] h2.objects[y]) by {
        if y < h.objects.len() {
            assert(h2.objects[y] == h.objects[y]);
        }
    }
}

proof fn lemma_object_fields_distinct(
    code: Seq<u8>,
    consts: Seq<ValueV>,
    kpos: int,
    vals: Seq<ValueV>,
    i: nat,
    acc: Fields,
)
    requires
        fields_distinct(acc),
    ensures
        object_fields(code, consts, kpos, vals, i, acc) is Ok ==> fields_distinct(
            object_fields(code, consts, kpos, vals, i, acc)->Ok_0,
        ),
    decreases vals.len() - i,
{
    if i < vals.len() {
        let idx = u32_at(code, kpos + 4 * i) as int;
        if idx < consts.len() {
            match consts[idx] {
                ValueV::Str(k) => {
                    law_keys_stay_distinct(acc, k, vals[i as int]);
                    lemma_object_fields_distinct(code, consts, kpos, vals, i + 1, insert_entry(acc, k, vals[i as int]));
                },
                _ => {},
            }
        }
    }
}

proof fn lemma_index_set_keeps(s: VmV)
    requires
        heap_keys_distinct(s.heap),
    ensures
        heap_keys_distinct(index_set_spec(s).0.heap),
{
    if s.stack.len() >= 3 {
        let (s3, vs) = popn(s, 3);
        let h = s.heap;
        match (vs[0], key_of(h, vs[1])) {
            (ValueV::Object(x), Ok(k)) => if x < h.objects.len() {
                law_keys_stay_distinct(h.objects[x as int], k, vs[2]);
                lemma_set_object(h, x as int, insert_entry(h.objects[x as int], k, vs[2]));
            },
            _ => {},
        }
    }
}

proof fn lemma_object_set_keeps(s: VmV)
    requires
        heap_keys_distinct(s.heap),
    ensures
        heap_keys_distinct(object_set_spec(s).0.heap),
{
    if s.stack.len() >= 3 {
        let (s3, vs) = popn(s, 3);
        let h = s.heap;
        match (vs[0], key_of(h, vs[1])) {
            (ValueV::Object(x), Ok(k)) => if x < h.objects.len() {
                law_keys_stay_distinct(h.objects[x as int], k, vs[2]);
                lemma_set_object(h, x as int, insert_entry(h.objects[x as int], k, vs[2]));
            },
            _ => {},
        }
    }
}

proof fn lemma_object_delete_keeps(s: VmV)
    requires
        heap_keys_distinct(s.heap),
    ensures
        heap_keys_distinct(object_delete_spec(s).0.heap),
{
    if s.stack.len() >= 2 {
        let (s2, vs) = popn(s, 2);
        let h = s.heap;
        match (vs[0], key_of(h, vs[1])) {
            (ValueV::Object(x), Ok(k)) => if x < h.objects.len() {
                law_keys_stay_distinct(h.objects[x as int], k, ValueV::Null);
                lemma_set_object(h, x as int, remove_entry(h.objects[x as int], k));
            },
            _ => {},
        }
    }
}

proof fn lemma_build_object_keeps(s: VmV, code: Seq<u8>, consts: Seq<ValueV>)
    requires
        heap_keys_distinct(s.heap),
    ensures
        heap_keys_distinct(build_object_spec(s, code, consts).0.heap),
{
    if s.ip + 4 <= code.len() {
        let count = u32_at(code, s.ip) as nat;
        let s1 = s.with_ip(s.ip + 4 + 4 * count);
        if s.stack.len() >= count {
            let (s2, vals) = popn(s1, count);
            law_keys_stay_distinct(Seq::empty(), Seq::empty(), ValueV::Null);
            lemma_object_fields_distinct(code, consts, s.ip + 4, vals, 0, Seq::empty());
            match object_fields(code, consts, s.ip + 4, vals, 0, Seq::empty()) {
                Ok(fields) => lemma_add_object(s.heap, fields),
                Err(_) => {},
            }
        }
    }
}

proof fn lemma_get_or_create_keeps(s: VmV, obj: ValueV, key: Seq<char>)
    requires
        heap_keys_distinct(s.heap),
    ensures
        heap_keys_distinct(get_or_create_step(s, obj, key).0.heap),
{
    let h = s.heap;
    match obj {
        ValueV::Object(x) => if x < h.objects.len() {
            match lookup(h.objects[x as int], key) {
                None | Some(ValueV::Null) => {
                    let n = h.objects.len() as usize;
                    law_keys_stay_distinct(Seq::empty(), key, ValueV::Null);
                    lemma_add_object(h, Seq::empty());
                    let h1 = HeapV { objects: h.objects.push(Seq::empty()), ..h };
                    law_keys_stay_distinct(h.objects[x as int], key, ValueV::Object(n));
                    lemma_set_object(h1, x as int, insert_entry(h.objects[x as int], key, ValueV::Object(n)));
                    assert(h1.objects.update(x as int, insert_entry(h.objects[x as int], key, ValueV::Object(n)))
                        == h.objects.push(Seq::empty()).update(x as int, insert_entry(h.objects[x as int], key, ValueV::Object(n))));
                },
                _ => {},
            }
        },
        _ => {},
    }
}

/// Every instruction keeps each object's keys distinct: no step of the machine makes an
/// object with a key twice, whatever the code and the state.
pub proof fn law_step_keeps_keys_distinct(s: VmV, code: Seq<u8>, consts: Seq<ValueV>)
    requires
        heap_keys_distinct(s.heap),
    ensures
        heap_keys_distinct(step_spec(s, code, consts).0.heap),
{
    if 0 <= s.ip < code.len() {
        let op = code[s.ip];
        let s1 = s.with_ip(s.ip + 1);
        if op == OP_INDEX_SET {
            lemma_index_set_keeps(s1);
        } else if op == OP_BUILD_OBJECT {
            lemma_build_object_keeps(s1, code, consts);
        } else if op == OP_OBJECT_SET {
            lemma_object_set_keeps(s1);
        } else if op == OP_OBJECT_DELETE {
            lemma_object_delete_keeps(s1);
        } else if op == OP_OBJECT_GET_OR_CREATE_CONST {
            if s1.ip + 4 <= code.len() && const_key(s1, code, consts) is Ok && s1.stack.len() > 0 {
                let k = const_key(s1, code, consts)->Ok_0;
                lemma_get_or_create_keeps(s1.with_ip(s1.ip + 4).popped(), s1.top(), k);
            }
        } else if op == OP_OBJECT_GET_OR_CREATE {
            if s1.stack.len() >= 2 {
                let (s2, vs) = popn(s1, 2);
                if key_of(s1.heap, vs[1]) is Ok {
                    lemma_get_or_create_keeps(s2, vs[0], key_of(s1.heap, vs[1])->Ok_0);
                }
            }
        }
    }
}

/// Running the machine for any number of steps keeps each object's keys distinct; as the
/// machine starts with an empty heap, every heap it reaches has the property that the
/// equality laws ask for.
pub proof fn law_run_keeps_keys_distinct(s: VmV, code: Seq<u8>, consts: Seq<ValueV>, n: nat)
    requires
        heap_keys_distinct(s.heap),
    ensures
        heap_keys_distinct(run_spec(s, code, consts, n).0.heap),
        heap_keys_distinct(HeapV { arrays: Seq::empty(), objects: Seq::empty() }),
    decreases n,
{
    if n > 0 {
        law_step_keeps_keys_distinct(s, code, consts);
        let (s1, e) = step_spec(s, code, consts);
        if e is Continue {
            law_run_keeps_keys_distinct(s1, code, consts, (n - 1) as nat);
        }
    }
}

/// Deep equality is reflexive: a value never compares unequal to itself. (A value nested in
/// itself gives no answer at all once the fuel runs out.)
pub proof fn law_equality_reflexive(h: HeapV, v: ValueV, fuel: nat)
    requires
        heap_keys_distinct(h),
    ensures
        values_equal(h, v, v, fuel) != Some(false),
{
    lemma_value_equal_itself(h, v, fuel);
}

/// What a global is set to is what reading it gives back: after `STORE_GLOBAL g` and
/// `LOAD_GLOBAL g` the stack is as it was, global `g` holds the stored value, and nothing else
/// changed.
pub proof fn law_global_store_then_load(s: VmV, code: Seq<u8>, consts: Seq<ValueV>, g: u32)
    requires
        0 <= s.ip,
        s.ip + 10 <= code.len(),
        code[s.ip] == OP_STORE_GLOBAL,
        u32_at(code, s.ip + 1) == g,
        code[s.ip + 5] == OP_LOAD_GLOBAL,
        u32_at(code, s.ip + 6) == g,
        s.stack.len() > 0,
        g < s.globals.len(),
    ensures
        ({
            let (s1, e1) = step_spec(s, code, consts);
            let (s2, e2) = step_spec(s1, code, consts);
            &&& e1 == EventV::Continue
            &&& e2 == EventV::Continue
            &&& s2.stack == s.stack
            &&& s2.globals == s.globals.update(g as int, s.stack.last())
            &&& s2.ip == s.ip + 10
            &&& s2.heap == s.heap
            &&& s2.frames == s.frames
        }),
{
    let (s1, e1) = step_spec(s, code, consts);
    assert(s1.stack == s.stack.drop_last());
    assert(s1.globals == s.globals.update(g as int, s.stack.last()));
    assert(s1.ip == s.ip + 5);
    let (s2, e2) = step_spec(s1, code, consts);
    assert(s2.stack == s.stack.drop_last().push(s.stack.last()));
    assert(s.stack.drop_last().push(s.stack.last()) =~= s.stack);
}

/// Popping a mutable array right after pushing onto it gives back the pushed value and
/// leaves the heap as it was.
pub proof fn law_push_then_pop(s: VmV, x: usize, v: ValueV)
    requires
        x < s.heap.arrays.len(),
        s.heap.arrays[x as int].mutable,
    ensures
        ({
            let (s1, e1) = array_push_spec(s.push(ValueV::Array(x)).push(v));
            let (s2, e2) = array_pop_spec(s1.push(ValueV::Array(x)));
            &&& e1 == EventV::Continue
            &&& e2 == EventV::Continue
            &&& s2.heap == s.heap
            &&& s2.stack == s.stack.push(v)
        }),
{
    let t = s.push(ValueV::Array(x)).push(v);
    let n = t.stack.len();
    assert(popn(t, 2).1 =~= seq![ValueV::Array(x), v]);
    assert(popn(t, 2).0.stack =~= s.stack);
    let (s1, e1) = array_push_spec(t);
    let a = s.heap.arrays[x as int];
    assert(s1.heap.arrays[x as int].elements == a.elements.push(v));
    let (s2, e2) = array_pop_spec(s1.push(ValueV::Array(x)));
    assert(a.elements.push(v).drop_last() =~= a.elements);
    assert(s2.heap.arrays =~= s.heap.arrays);
}

/// Whether one of the first `n` statements defines a function named `k` with `export`.
pub open spec fn exports_function(ss: Seq<StmtV>, k: Seq<char>, n: int) -> bool {
    exists|j: int|
        0 <= j < n && #[trigger] ss[j] is FunctionDef && ss[j]->FunctionDef_name == k
            && ss[j]->FunctionDef_exported
}

/// Whether an export table has an entry for `k`.
pub open spec fn has_export(t: ExportsV, k: Seq<char>) -> bool {
    exists|i: int| 0 <= i < t.len() && #[trigger] t[i].0 == k
}

proof fn lemma_first_key(t: ExportsV, k: Seq<char>, i: int)
    requires
        0 <= i,
    ensures
        match first_key(t, k, i) {
            Some(w) => i <= w < t.len() && t[w].0 == k,
            None => forall|j: int| i <= j < t.len() ==> t[j].0 != k,
        },
    decreases t.len() - i,
{
    if i < t.len() && t[i].0 != k {
        lemma_first_key(t, k, i + 1);
    }
}

proof fn lemma_table_insert_keys(t: ExportsV, name: Seq<char>, g: usize, k: Seq<char>)
    ensures
        has_export(table_insert(t, name, g), k) <==> (has_export(t, k) || k == name),
{
    lemma_first_key(t, name, 0);
    let t2 = table_insert(t, name, g);
    match first_key(t, name, 0) {
        Some(w) => {
            if has_export(t, k) {
                let i = choose|i: int| 0 <= i < t.len() && #[trigger] t[i].0 == k;
                if i == w {
                    assert(t2[w].0 == k);
                } else {
                    assert(t2[i].0 == k);
                }
            }
            if k == name {
                assert(t2[w].0 == k);
            }
            if has_export(t2, k) {
                let i = choose|i: int| 0 <= i < t2.len() && #[trigger] t2[i].0 == k;
                if i != w {
                    assert(t[i].0 == k);
                }
            }
        },
        None => {
            if has_export(t, k) {
                let i = choose|i: int| 0 <= i < t.len() && #[trigger] t[i].0 == k;
                assert(t2[i].0 == k);
            }
            if k == name {
                assert(t2[t.len() as int].0 == k);
            }
            if has_export(t2, k) {
                let i = choose|i: int| 0 <= i < t2.len() && #[trigger] t2[i].0 == k;
                if i < t.len() {
                    assert(t[i].0 == k);
                }
            }
        },
    }
}

proof fn lemma_module_exports(c: CompilerV, ss: Seq<StmtV>, i: int, ex: ExportsV)
    requires
        0 <= i <= ss.len(),
        forall|k: Seq<char>| has_export(ex, k) <==> exports_function(ss, k, i),
    ensures
        match cmodule(c, ss, i, ex).1 {
            Ok(ex2) => forall|k: Seq<char>| has_export(ex2, k) <==> exports_function(ss, k, ss.len() as int),
            Err(_) => true,
        },
    decreases ss.len() - i,
{
    if i < ss.len() {
        let s = ss[i];
        assert forall|k: Seq<char>|
            exports_function(ss, k, i + 1) <==> (exports_function(ss, k, i) || (s is FunctionDef
                && s->FunctionDef_name == k && s->FunctionDef_exported)) by {
            if exports_function(ss, k, i + 1) {
                let j = choose|j: int|
                    0 <= j < i + 1 && #[trigger] ss[j] is FunctionDef && ss[j]->FunctionDef_name == k
                        && ss[j]->FunctionDef_exported;
                if j < i {
                    assert(exports_function(ss, k, i));
                }
            }
            if exports_function(ss, k, i) {
                let j = choose|j: int|
                    0 <= j < i && #[trigger] ss[j] is FunctionDef && ss[j]->FunctionDef_name == k
                        && ss[j]->FunctionDef_exported;
                assert(0 <= j < i + 1 && ss[j] is FunctionDef);
            }
            if s is FunctionDef && s->FunctionDef_name == k && s->FunctionDef_exported {
                assert(0 <= i < i + 1 && ss[i] is FunctionDef);
            }
        }
        match s {
            StmtV::FunctionDef { name, params, body, exported } => {
                match crate::compile_spec::cfunction(c, params, body) {
                    (c1, Err(_)) => {},
                    (c1, Ok((offset, nparams, caps))) => {
                        let (c2, g) = c1.global(name);
                        let c3 = c2.make_closure(offset, nparams, caps).op4(OP_STORE_GLOBAL, g as u32);
                        let ex2 = if exported { table_insert(ex, name, g) } else { ex };
                        assert forall|k: Seq<char>| has_export(ex2, k) <==> exports_function(ss, k, i + 1) by {
                            if exported {
                                lemma_table_insert_keys(ex, name, g, k);
                            }
                        }
                        lemma_module_exports(c3, ss, i + 1, ex2);
                    },
                }
            },
            StmtV::Import { .. } => {
                lemma_module_exports(c, ss, i + 1, ex);
            },
            _ => {
                match crate::compile_spec::cstmt(c, s, false) {
                    (c1, Some(_)) => {},
                    (c1, None) => {
                        lemma_module_exports(c1, ss, i + 1, ex);
                    },
                }
            },
        }
    }
}

/// Only functions marked for export are visible to importers: the export table of a module
/// that compiles has an entry for exactly the names of the functions it defines with `export`.
pub proof fn law_exports_are_exported_functions(c: CompilerV, ss: Seq<StmtV>)
    ensures
        match cmodule(c, ss, 0, Seq::empty()).1 {
            Ok(ex) => forall|k: Seq<char>| has_export(ex, k) <==> exports_function(ss, k, ss.len() as int),
            Err(_) => true,
        },
{
    lemma_module_exports(c, ss, 0, Seq::empty());
}

/// Every module comes after the modules its imports name: each of its dependencies is the
/// path of a module at an earlier position.
pub open spec fn modules_ordered(ms: Seq<ModuleV>) -> bool {
    forall|k: int, q: int|
        0 <= k < ms.len() && 0 <= q < ms[k].deps.len() ==> #[trigger] dep_found_before(ms, k, q)
}

/// The `q`-th dependency of module `k` is the path of a module before it.
pub open spec fn dep_found_before(ms: Seq<ModuleV>, k: int, q: int) -> bool {
    exists|j: int| 0 <= j < k && #[trigger] ms[j].path == ms[k].deps[q]
}

/// The imports that a module being loaded has handled: all but the last name loaded modules,
/// and below the innermost module the last one is the module loaded on top of it.
pub open spec fn frame_deps_ok(l: LoaderV, fi: int) -> bool {
    let f = l.frames[fi];
    &&& forall|q: int| 0 <= q < f.deps.len() - 1 ==> is_loaded(l, #[trigger] f.deps[q])
    &&& fi < l.frames.len() - 1 ==> f.deps.len() > 0 && f.deps.last() == l.frames[fi + 1].path
}

/// No two modules of `ms` have the same path.
pub open spec fn paths_distinct(ms: Seq<ModuleV>) -> bool {
    forall|i: int, j: int| 0 <= i < j < ms.len() ==> #[trigger] ms[i].path != #[trigger] ms[j].path
}

/// The shape of what the loader holds: each module is loaded once, a module being loaded is
/// neither loaded yet nor being loaded twice, and the outermost module being loaded is the
/// entry module.
pub open spec fn loader_shape(l: LoaderV) -> bool {
    &&& paths_distinct(l.loaded)
    &&& forall|fi: int, i: int|
        0 <= fi < l.frames.len() && 0 <= i < l.loaded.len() ==> #[trigger] l.frames[fi].path
            != #[trigger] l.loaded[i].path
    &&& forall|fi: int, fj: int|
        0 <= fi < fj < l.frames.len() ==> #[trigger] l.frames[fi].path != #[trigger] l.frames[fj].path
    &&& l.frames.len() > 0 ==> l.frames[0].path == l.entry
}

/// What the loader keeps between requests while it is loading: the loaded modules are in
/// order and have the shape of `loader_shape`, the imports of the modules being loaded name
/// loaded modules, the module on top of them, or (while it is being visited or read) the
/// module being looked at; the module about to be read is neither loaded nor being loaded,
/// and before the entry module is read nothing is loaded.
pub open spec fn loader_ok(l: LoaderV) -> bool {
    l.phase == Phase::Finished || {
        &&& modules_ordered(l.loaded)
        &&& loader_shape(l)
        &&& l.phase == Phase::Reading ==> !is_loaded(l, l.target) && !visiting(l, l.target)
        &&& l.frames.len() == 0 ==> l.loaded.len() == 0
        &&& l.frames.len() == 0 && (l.phase == Phase::Visit || l.phase == Phase::Reading) ==> l.target
            == l.entry
        &&& forall|fi: int| 0 <= fi < l.frames.len() ==> #[trigger] frame_deps_ok(l, fi)
        &&& l.phase == Phase::Entry ==> l.frames.len() == 0
        &&& l.phase == Phase::Import ==> l.frames.len() > 0
        &&& l.frames.len() > 0 ==> {
            let f = l.frames.last();
            if l.phase == Phase::Visit || l.phase == Phase::Reading {
                f.deps.len() > 0 && f.deps.last() == l.target
            } else {
                f.deps.len() > 0 ==> is_loaded(l, f.deps.last())
            }
        }
    }
}

/// Where the loader goes on with the innermost module: everything `loader_ok` asks, and the
/// innermost module's imports all name loaded modules.
pub open spec fn scan_ok(l: LoaderV) -> bool {
    &&& modules_ordered(l.loaded)
    &&& loader_shape(l)
    &&& l.frames.len() == 0 ==> l.loaded.len() > 0 && l.loaded.last().path == l.entry
    &&& forall|fi: int| 0 <= fi < l.frames.len() ==> #[trigger] frame_deps_ok(l, fi)
    &&& l.frames.len() > 0 ==> (l.frames.last().deps.len() > 0 ==> is_loaded(
        l,
        l.frames.last().deps.last(),
    ))
}

/// What the loader answers keeps `loader_ok`, and a module graph it gives is in order, has
/// each path once, and ends with the entry module, whose position it gives.
pub open spec fn answer_ok(l2: LoaderV, q: RequestV) -> bool {
    &&& loader_ok(l2)
    &&& q matches RequestV::Done(ms, e) ==> {
        &&& modules_ordered(ms)
        &&& paths_distinct(ms)
        &&& ms.len() > 0
        &&& e == ms.len() - 1
    }
}

proof fn lemma_entry_found_last(ms: Seq<ModuleV>, p: Seq<char>, i: int)
    requires
        paths_distinct(ms),
        ms.len() > 0,
        ms.last().path == p,
        0 <= i < ms.len(),
    ensures
        crate::loader::loaded_index(ms, p, i) == Some(ms.len() - 1),
    decreases ms.len() - i,
{
    if i < ms.len() - 1 {
        assert(ms[i].path != ms[ms.len() - 1].path);
        lemma_entry_found_last(ms, p, i + 1);
    }
}

proof fn lemma_loaded_kept(l: LoaderV, l2: LoaderV, p: Seq<char>)
    requires
        is_loaded(l, p),
        l.loaded.len() <= l2.loaded.len(),
        forall|j: int| 0 <= j < l.loaded.len() ==> l2.loaded[j] == l.loaded[j],
    ensures
        is_loaded(l2, p),
{
    let j = choose|j: int| 0 <= j < l.loaded.len() && #[trigger] l.loaded[j].path == p;
    assert(l2.loaded[j].path == p);
}

proof fn lemma_ordered_push(l: LoaderV, m: ModuleV)
    requires
        modules_ordered(l.loaded),
        forall|q: int| 0 <= q < m.deps.len() ==> #[trigger] is_loaded(l, m.deps[q]),
    ensures
        modules_ordered(l.loaded.push(m)),
{
    let ms = l.loaded.push(m);
    let n = l.loaded.len() as int;
    assert forall|k: int, q: int| 0 <= k < ms.len() && 0 <= q < ms[k].deps.len() implies #[trigger] dep_found_before(ms, k, q) by {
        if k < n {
            assert(ms[k] == l.loaded[k]);
            assert(dep_found_before(l.loaded, k, q));
            let j = choose|j: int| 0 <= j < k && #[trigger] l.loaded[j].path == l.loaded[k].deps[q];
            assert(ms[j] == l.loaded[j]);
        } else {
            assert(ms[k] == m);
            assert(is_loaded(l, m.deps[q]));
            let j = choose|j: int| 0 <= j < l.loaded.len() && #[trigger] l.loaded[j].path == m.deps[q];
            assert(ms[j] == l.loaded[j]);
        }
    }
}

proof fn lemma_scan_order(l: LoaderV)
    requires
        scan_ok(l),
    ensures
        answer_ok(scan(l).0, scan(l).1),
    decreases l.frames.len(),
{
    if l.frames.len() > 0 {
        let f = l.frames.last();
        let k = l.frames.len() - 1;
        match next_import(f.statements, f.next) {
            Some(j) => {
                let path = f.statements[j]->Import_path;
                let l2 = LoaderV { frames: l.frames.update(k, crate::loader::FrameV { next: j + 1, ..f }), ..l };
                if crate::modules::import_error(path) is None {
                    let t = crate::modules::import_target(f.path, path);
                    let l3 = LoaderV { phase: Phase::Import, target: t, ..l2 };
                    assert(scan(l).0 == l3);
                    assert forall|fi: int| 0 <= fi < l3.frames.len() implies #[trigger] frame_deps_ok(l3, fi) by {
                        assert(frame_deps_ok(l, fi));
                        assert forall|q: int| 0 <= q < l3.frames[fi].deps.len() - 1 implies is_loaded(l3, #[trigger] l3.frames[fi].deps[q]) by {
                            assert(is_loaded(l, l.frames[fi].deps[q]));
                            lemma_loaded_kept(l, l3, l.frames[fi].deps[q]);
                        }
                    }
                    if f.deps.len() > 0 {
                        assert(is_loaded(l, f.deps.last()));
                        lemma_loaded_kept(l, l3, f.deps.last());
                    }
                    assert forall|fi: int| 0 <= fi < l3.frames.len() implies #[trigger] l3.frames[fi].path
                        == l.frames[fi].path by {}
                }
            },
            None => {
                let m = ModuleV { path: f.path, statements: f.statements, deps: f.deps };
                let l2 = LoaderV { frames: l.frames.drop_last(), loaded: l.loaded.push(m), ..l };
                assert(scan(l) == scan(l2));
                // The finished module's imports all name modules loaded before it.
                assert forall|q: int| 0 <= q < f.deps.len() implies #[trigger] is_loaded(l, f.deps[q]) by {
                    assert(frame_deps_ok(l, k));
                    if q < f.deps.len() - 1 {
                        assert(is_loaded(l, f.deps[q]));
                    } else {
                        assert(is_loaded(l, f.deps.last()));
                    }
                }
                let n = l.loaded.len() as int;
                lemma_ordered_push(l, m);
                assert(is_loaded(l2, f.path)) by {
                    assert(l2.loaded[n] == m);
                    assert(l2.loaded[n].path == f.path);
                }
                assert forall|fi: int| 0 <= fi < l2.frames.len() implies #[trigger] frame_deps_ok(l2, fi) by {
                    assert(frame_deps_ok(l, fi));
                    assert(l2.frames[fi] == l.frames[fi]);
                    assert forall|q: int| 0 <= q < l2.frames[fi].deps.len() - 1 implies is_loaded(l2, #[trigger] l2.frames[fi].deps[q]) by {
                        assert(is_loaded(l, l.frames[fi].deps[q]));
                        lemma_loaded_kept(l, l2, l.frames[fi].deps[q]);
                    }
                    if fi < l2.frames.len() - 1 {
                        assert(l2.frames[fi + 1] == l.frames[fi + 1]);
                    }
                }
                if l2.frames.len() > 0 {
                    let g = l2.frames.last();
                    let gi = l2.frames.len() - 1;
                    assert(g == l.frames[gi]);
                    assert(frame_deps_ok(l, gi));
                    assert(g.deps.last() == f.path);
                }
                // The finished module was neither loaded nor among the others being loaded.
                assert forall|i: int, j: int| 0 <= i < j < l2.loaded.len() implies #[trigger] l2.loaded[i].path
                    != #[trigger] l2.loaded[j].path by {
                    if j == n {
                        assert(l.frames[k].path != l.loaded[i].path);
                    } else {
                        assert(l.loaded[i].path != l.loaded[j].path);
                    }
                }
                assert forall|fi: int, i: int| 0 <= fi < l2.frames.len() && 0 <= i < l2.loaded.len() implies #[trigger] l2.frames[fi].path
                    != #[trigger] l2.loaded[i].path by {
                    assert(l2.frames[fi] == l.frames[fi]);
                    if i == n {
                        assert(l.frames[fi].path != l.frames[k].path);
                    } else {
                        assert(l.frames[fi].path != l.loaded[i].path);
                    }
                }
                assert forall|fi: int, fj: int| 0 <= fi < fj < l2.frames.len() implies #[trigger] l2.frames[fi].path
                    != #[trigger] l2.frames[fj].path by {
                    assert(l.frames[fi].path != l.frames[fj].path);
                }
                if l2.frames.len() == 0 {
                    assert(l2.loaded.last() == m);
                }
                lemma_scan_order(l2);
            },
        }
    } else {
        lemma_entry_found_last(l.loaded, l.entry, 0);
    }
}

/// The loader starts in order: with nothing loaded and no module being loaded, `loader_ok`
/// holds.
pub proof fn law_loader_starts_in_order(l: LoaderV)
    requires
        l.phase == Phase::Entry,
        l.frames.len() == 0,
        l.loaded.len() == 0,
    ensures
        loader_ok(l),
{
}

/// Modules load in order after a canonical path: a graph the loader gives has each module
/// once, after the modules its imports name, and the entry module last. This holds when canonicalizing a path that is
/// already canonical gives it back, as the visit of a module asks.
pub proof fn law_loader_resolved_in_order(l: LoaderV, r: Result<Seq<char>, Seq<char>>)
    requires
        loader_ok(l),
        l.phase == Phase::Entry || l.phase == Phase::Visit || l.phase == Phase::Import,
        l.phase == Phase::Visit && r is Ok ==> r->Ok_0 == l.target,
    ensures
        answer_ok(resolved_spec(l, r).0, resolved_spec(l, r).1),
{
    if l.phase == Phase::Import {
        if let Ok(p) = r {
            let k = l.frames.len() - 1;
            let f = l.frames[k];
            let l2 = resolved_spec(l, r).0;
            assert(l2.frames[k].deps == f.deps.push(p));
            assert forall|fi: int| 0 <= fi < l2.frames.len() implies #[trigger] frame_deps_ok(l2, fi) by {
                assert(frame_deps_ok(l, fi));
                if fi == k {
                    assert forall|q: int| 0 <= q < l2.frames[fi].deps.len() - 1 implies is_loaded(l2, #[trigger] l2.frames[fi].deps[q]) by {
                        assert(l2.frames[fi].deps[q] == f.deps[q]);
                        if q < f.deps.len() - 1 {
                            assert(is_loaded(l, f.deps[q]));
                        } else {
                            assert(is_loaded(l, f.deps.last()));
                        }
                        lemma_loaded_kept(l, l2, f.deps[q]);
                    }
                } else {
                    assert(l2.frames[fi] == l.frames[fi]);
                    assert forall|q: int| 0 <= q < l2.frames[fi].deps.len() - 1 implies is_loaded(l2, #[trigger] l2.frames[fi].deps[q]) by {
                        assert(is_loaded(l, l.frames[fi].deps[q]));
                        lemma_loaded_kept(l, l2, l.frames[fi].deps[q]);
                    }
                    if fi < k {
                        assert(l2.frames[fi + 1].path == l.frames[fi + 1].path);
                    }
                }
            }
        }
    } else if l.phase == Phase::Visit {
        if let Ok(p) = r {
            if is_loaded(l, p) {
                if l.frames.len() > 0 {
                    assert(frame_deps_ok(l, l.frames.len() - 1));
                }
                lemma_scan_order(l);
            } else if !visiting(l, p) {
                let l2 = resolved_spec(l, r).0;
                assert forall|fi: int| 0 <= fi < l2.frames.len() implies #[trigger] frame_deps_ok(l2, fi) by {
                    assert(frame_deps_ok(l, fi));
                    assert forall|q: int| 0 <= q < l2.frames[fi].deps.len() - 1 implies is_loaded(l2, #[trigger] l2.frames[fi].deps[q]) by {
                        assert(is_loaded(l, l.frames[fi].deps[q]));
                        lemma_loaded_kept(l, l2, l.frames[fi].deps[q]);
                    }
                }
            }
        }
    }
}

/// Modules load in order after a file is read: a graph the loader gives has each module
/// once, after the modules its imports name, and the entry module last.
pub proof fn law_loader_read_in_order(l: LoaderV, r: Result<Seq<char>, Seq<char>>)
    requires
        loader_ok(l),
        l.phase == Phase::Reading,
    ensures
        answer_ok(read_spec(l, r).0, read_spec(l, r).1),
{
    if let Ok(source) = r {
        if let Ok(ss) = crate::parser::parse_spec(crate::lexer::tokenize_spec(source)) {
            let nf = crate::loader::FrameV { path: l.target, statements: ss, deps: Seq::empty(), next: 0 };
            let l2 = LoaderV { frames: l.frames.push(nf), ..l };
            assert(read_spec(l, r) == scan(l2));
            assert forall|fi: int| 0 <= fi < l2.frames.len() implies #[trigger] frame_deps_ok(l2, fi) by {
                if fi < l.frames.len() {
                    assert(frame_deps_ok(l, fi));
                    assert(l2.frames[fi] == l.frames[fi]);
                    assert forall|q: int| 0 <= q < l2.frames[fi].deps.len() - 1 implies is_loaded(l2, #[trigger] l2.frames[fi].deps[q]) by {
                        assert(is_loaded(l, l.frames[fi].deps[q]));
                        lemma_loaded_kept(l, l2, l.frames[fi].deps[q]);
                    }
                    if fi == l.frames.len() - 1 {
                        assert(l2.frames[fi + 1] == nf);
                    } else {
                        assert(l2.frames[fi + 1] == l.frames[fi + 1]);
                    }
                } else {
                    assert(l2.frames[fi] == nf);
                }
            }
            lemma_scan_order(l2);
        }
    }
}

proof fn lemma_lookup_inserted(fs: Fields, k: Seq<char>, v: ValueV)
    ensures
        lookup(insert_entry(fs, k, v), k) == Some(v),
{
    lemma_key_index(fs, k);
    let fs2 = insert_entry(fs, k, v);
    lemma_key_index(fs2, k);
    match key_index(fs, k) {
        Some(w) => {
            assert(fs2[w].0 == k);
            match key_index(fs2, k) {
                Some(w2) => {
                    if w2 < w {
                        assert(fs2[w2] == fs[w2]);
                    }
                    if w < w2 {
                        assert(fs2[w].0 != k);
                    }
                },
                None => {},
            }
        },
        None => {
            assert(fs2[fs.len() as int].0 == k);
            match key_index(fs2, k) {
                Some(w2) => {
                    if w2 < fs.len() {
                        assert(fs2[w2] == fs[w2]);
                    }
                },
                None => {},
            }
        },
    }
}

proof fn lemma_lookup_removed(fs: Fields, k: Seq<char>)
    requires
        fields_distinct(fs),
    ensures
        lookup(remove_entry(fs, k), k) is None,
{
    lemma_key_index(fs, k);
    let fs2 = remove_entry(fs, k);
    lemma_key_index(fs2, k);
    match key_index(fs, k) {
        Some(w) => {
            match key_index(fs2, k) {
                Some(w2) => {
                    if w2 < w {
                        assert(fs2[w2] == fs[w2]);
                    } else {
                        assert(fs2[w2] == fs[w2 + 1]);
                        assert(fs[w].0 == fs[w2 + 1].0);
                    }
                },
                None => {},
            }
        },
        None => {},
    }
}

/// An array element that is written is what reading it gives back.
pub proof fn law_element_write_then_read(s: VmV, x: usize, i: usize, v: ValueV)
    requires
        x < s.heap.arrays.len(),
        s.heap.arrays[x as int].mutable,
        i < s.heap.arrays[x as int].elements.len(),
        i <= i64::MAX,
    ensures
        ({
            let at = ValueV::Number(i as i64);
            let (s1, e1) = index_set_spec(s.push(ValueV::Array(x)).push(at).push(v));
            let (s2, e2) = index_get_spec(s1.push(ValueV::Array(x)).push(at));
            &&& e1 == EventV::Continue
            &&& e2 == EventV::Continue
            &&& s1.stack == s.stack
            &&& s2.stack == s.stack.push(v)
        }),
{
    let at = ValueV::Number(i as i64);
    let w = s.push(ValueV::Array(x)).push(at).push(v);
    assert(popn(w, 3).1 =~= seq![ValueV::Array(x), at, v]);
    assert(popn(w, 3).0.stack =~= s.stack);
    let (s1, e1) = index_set_spec(w);
    let r = s1.push(ValueV::Array(x)).push(at);
    assert(popn(r, 2).1 =~= seq![ValueV::Array(x), at]);
    assert(popn(r, 2).0.stack =~= s.stack);
}

/// A property that is set is what reading it gives back.
pub proof fn law_property_write_then_read(s: VmV, x: usize, k: Seq<char>, v: ValueV)
    requires
        x < s.heap.objects.len(),
    ensures
        ({
            let key = ValueV::Str(k);
            let (s1, e1) = object_set_spec(s.push(ValueV::Object(x)).push(key).push(v));
            let (s2, e2) = object_get_spec(s1.push(ValueV::Object(x)).push(key));
            &&& e1 == EventV::Continue
            &&& e2 == EventV::Continue
            &&& s1.stack == s.stack
            &&& s2.stack == s.stack.push(v)
        }),
{
    let key = ValueV::Str(k);
    let w = s.push(ValueV::Object(x)).push(key).push(v);
    assert(popn(w, 3).1 =~= seq![ValueV::Object(x), key, v]);
    assert(popn(w, 3).0.stack =~= s.stack);
    let (s1, e1) = object_set_spec(w);
    lemma_lookup_inserted(s.heap.objects[x as int], k, v);
    let r = s1.push(ValueV::Object(x)).push(key);
    assert(popn(r, 2).1 =~= seq![ValueV::Object(x), key]);
    assert(popn(r, 2).0.stack =~= s.stack);
}

/// A property that is removed reads as `null` afterwards.
pub proof fn law_property_delete_then_read(s: VmV, x: usize, k: Seq<char>)
    requires
        x < s.heap.objects.len(),
        fields_distinct(s.heap.objects[x as int]),
    ensures
        ({
            let key = ValueV::Str(k);
            let (s1, e1) = object_delete_spec(s.push(ValueV::Object(x)).push(key));
            let (s2, e2) = object_get_spec(s1.push(ValueV::Object(x)).push(key));
            &&& e1 == EventV::Continue
            &&& e2 == EventV::Continue
            &&& s1.stack == s.stack
            &&& s2.stack == s.stack.push(ValueV::Null)
        }),
{
    let key = ValueV::Str(k);
    let w = s.push(ValueV::Object(x)).push(key);
    assert(popn(w, 2).1 =~= seq![ValueV::Object(x), key]);
    assert(popn(w, 2).0.stack =~= s.stack);
    let (s1, e1) = object_delete_spec(w);
    lemma_lookup_removed(s.heap.objects[x as int], k);
    let r = s1.push(ValueV::Object(x)).push(key);
    assert(popn(r, 2).1 =~= seq![ValueV::Object(x), key]);
    assert(popn(r, 2).0.stack =~= s.stack);
}

/// The keys of an object's fields, in order.
pub open spec fn field_keys(fs: Fields) -> Seq<Seq<char>> {
    fs.map_values(|e: (Seq<char>, ValueV)| e.0)
}

proof fn lemma_fields_forward(h: HeapV, fa: Fields, fb: Fields, i: nat, fuel: nat)
    requires
        fields_equal(h, fa, fb, i, fuel) == Some(true),
    ensures
        forall|j: int|
            i <= j < fa.len() ==> lookup(fb, #[trigger] fa[j].0) is Some && values_equal(
                h,
                fa[j].1,
                lookup(fb, fa[j].0)->0,
                fuel,
            ) == Some(true),
    decreases fa.len() - i,
{
    if i < fa.len() {
        lemma_fields_forward(h, fa, fb, i + 1, fuel);
    }
}

proof fn lemma_keys_distinct(fs: Fields)
    requires
        fields_distinct(fs),
    ensures
        field_keys(fs).to_set().len() == fs.len(),
        field_keys(fs).to_set().finite(),
{
    let ks = field_keys(fs);
    assert forall|i: int, j: int| 0 <= i < ks.len() && 0 <= j < ks.len() && i != j implies ks[i] != ks[j] by {
        if i < j {
            assert(fs[i].0 != fs[j].0);
        } else {
            assert(fs[j].0 != fs[i].0);
        }
    }
    assert(ks.no_duplicates());
    ks.unique_seq_to_set();
    vstd::seq_lib::seq_to_set_is_finite(ks);
}

proof fn lemma_fields_back(h: HeapV, fa: Fields, fb: Fields, j: nat, fuel: nat)
    requires
        heap_keys_distinct(h),
        fields_distinct(fa),
        fields_distinct(fb),
        forall|i: int|
            0 <= i < fa.len() ==> lookup(fb, #[trigger] fa[i].0) is Some && values_equal(
                h,
                fa[i].1,
                lookup(fb, fa[i].0)->0,
                fuel,
            ) == Some(true),
        forall|jj: int| j <= jj < fb.len() ==> exists|i: int| 0 <= i < fa.len() && #[trigger] fa[i].0 == #[trigger] fb[jj].0,
    ensures
        fields_equal(h, fb, fa, j, fuel) == Some(true),
    decreases fuel, fa, fb.len() - j,
{
    if j < fb.len() {
        let key = fb[j as int].0;
        let i = choose|i: int| 0 <= i < fa.len() && #[trigger] fa[i].0 == #[trigger] fb[j as int].0;
        lemma_key_index(fa, key);
        lemma_key_index(fb, key);
        assert(lookup(fa, key) == Some(fa[i].1));
        assert(lookup(fb, fa[i].0) == Some(fb[j as int].1));
        assert(decreases_to!(fa => fa[i]));
        assert(decreases_to!(fa[i] => fa[i].1));
        lemma_equal_symmetric(h, fa[i].1, fb[j as int].1, fuel);
        lemma_fields_back(h, fa, fb, j + 1, fuel);
    }
}

proof fn lemma_list_symmetric(h: HeapV, xs: Seq<ValueV>, ys: Seq<ValueV>, i: nat, fuel: nat)
    requires
        heap_keys_distinct(h),
        list_equal(h, xs, ys, i, fuel) == Some(true),
        xs.len() == ys.len(),
    ensures
        list_equal(h, ys, xs, i, fuel) == Some(true),
    decreases fuel, xs, xs.len() - i,
{
    if i < xs.len() {
        lemma_equal_symmetric(h, xs[i as int], ys[i as int], fuel);
        lemma_list_symmetric(h, xs, ys, i + 1, fuel);
    }
}

proof fn lemma_equal_symmetric(h: HeapV, a: ValueV, b: ValueV, fuel: nat)
    requires
        heap_keys_distinct(h),
        values_equal(h, a, b, fuel) == Some(true),
    ensures
        values_equal(h, b, a, fuel) == Some(true),
    decreases fuel, a, 0nat,
{
    match (a, b) {
        (ValueV::Function { upvalues: au, .. }, ValueV::Function { upvalues: bu, .. }) => {
            lemma_list_symmetric(h, au, bu, 0, fuel);
        },
        (ValueV::Array(x), ValueV::Array(y)) => {
            lemma_list_symmetric(h, h.arrays[x as int].elements, h.arrays[y as int].elements, 0, (fuel - 1) as nat);
        },
        (ValueV::Object(x), ValueV::Object(y)) => {
            let fa = h.objects[x as int];
            let fb = h.objects[y as int];
            let f1 = (fuel - 1) as nat;
            assert(fields_distinct(fa));
            assert(fields_distinct(fb));
            lemma_fields_forward(h, fa, fb, 0, f1);
            let ka = field_keys(fa).to_set();
            let kb = field_keys(fb).to_set();
            lemma_keys_distinct(fa);
            lemma_keys_distinct(fb);
            assert forall|k: Seq<char>| ka.contains(k) implies kb.contains(k) by {
                let i = choose|i: int| 0 <= i < field_keys(fa).len() && field_keys(fa)[i] == k;
                assert(fa[i].0 == k);
                lemma_key_index(fb, k);
                let w = key_index(fb, k)->0;
                assert(field_keys(fb)[w] == k);
            }
            vstd::set_lib::lemma_subset_equality(ka, kb);
            assert forall|jj: int| 0 <= jj < fb.len() implies exists|i: int| 0 <= i < fa.len() && #[trigger] fa[i].0 == #[trigger] fb[jj].0 by {
                let k = fb[jj].0;
                assert(field_keys(fb)[jj] == k);
                assert(kb.contains(k));
                assert(ka.contains(k));
                let i = choose|i: int| 0 <= i < field_keys(fa).len() && field_keys(fa)[i] == k;
                assert(fa[i].0 == fb[jj].0);
            }
            lemma_fields_back(h, fa, fb, 0, f1);
        },
        _ => {},
    }
}

proof fn lemma_fields_transitive(h: HeapV, fa: Fields, fb: Fields, fc: Fields, i: nat, fuel: nat)
    requires
        forall|j: int|
            0 <= j < fa.len() ==> lookup(fb, #[trigger] fa[j].0) is Some && values_equal(
                h,
                fa[j].1,
                lookup(fb, fa[j].0)->0,
                fuel,
            ) == Some(true),
        forall|j: int|
            0 <= j < fb.len() ==> lookup(fc, #[trigger] fb[j].0) is Some && values_equal(
                h,
                fb[j].1,
                lookup(fc, fb[j].0)->0,
                fuel,
            ) == Some(true),
    ensures
        fields_equal(h, fa, fc, i, fuel) == Some(true),
    decreases fuel, fa, fa.len() - i,
{
    if i < fa.len() {
        let k = fa[i as int].0;
        lemma_key_index(fb, k);
        let w = key_index(fb, k)->0;
        assert(fb[w].0 == k);
        let bv = fb[w].1;
        let cv = lookup(fc, fb[w].0)->0;
        assert(decreases_to!(fa => fa[i as int]));
        assert(decreases_to!(fa[i as int] => fa[i as int].1));
        lemma_equal_transitive(h, fa[i as int].1, bv, cv, fuel);
        lemma_fields_transitive(h, fa, fb, fc, i + 1, fuel);
    }
}

proof fn lemma_list_transitive(h: HeapV, xs: Seq<ValueV>, ys: Seq<ValueV>, zs: Seq<ValueV>, i: nat, fuel: nat)
    requires
        list_equal(h, xs, ys, i, fuel) == Some(true),
        list_equal(h, ys, zs, i, fuel) == Some(true),
        xs.len() == ys.len(),
        ys.len() == zs.len(),
    ensures
        list_equal(h, xs, zs, i, fuel) == Some(true),
    decreases fuel, xs, xs.len() - i,
{
    if i < xs.len() {
        lemma_equal_transitive(h, xs[i as int], ys[i as int], zs[i as int], fuel);
        lemma_list_transitive(h, xs, ys, zs, i + 1, fuel);
    }
}

proof fn lemma_equal_transitive(h: HeapV, a: ValueV, b: ValueV, c: ValueV, fuel: nat)
    requires
        values_equal(h, a, b, fuel) == Some(true),
        values_equal(h, b, c, fuel) == Some(true),
    ensures
        values_equal(h, a, c, fuel) == Some(true),
    decreases fuel, a, 0nat,
{
    match (a, b, c) {
        (
            ValueV::Function { upvalues: au, .. },
            ValueV::Function { upvalues: bu, .. },
            ValueV::Function { upvalues: cu, .. },
        ) => {
            lemma_list_transitive(h, au, bu, cu, 0, fuel);
        },
        (ValueV::Array(x), ValueV::Array(y), ValueV::Array(z)) => {
            lemma_list_transitive(
                h,
                h.arrays[x as int].elements,
                h.arrays[y as int].elements,
                h.arrays[z as int].elements,
                0,
                (fuel - 1) as nat,
            );
        },
        (ValueV::Object(x), ValueV::Object(y), ValueV::Object(z)) => {
            let f1 = (fuel - 1) as nat;
            lemma_fields_forward(h, h.objects[x as int], h.objects[y as int], 0, f1);
            lemma_fields_forward(h, h.objects[y as int], h.objects[z as int], 0, f1);
            lemma_fields_transitive(h, h.objects[x as int], h.objects[y as int], h.objects[z as int], 0, f1);
        },
        _ => {},
    }
}

/// Deep equality is transitive: when `a` equals `b` and `b` equals `c`, `a` equals `c`.
pub proof fn law_equality_transitive(h: HeapV, a: ValueV, b: ValueV, c: ValueV, fuel: nat)
    requires
        values_equal(h, a, b, fuel) == Some(true),
        values_equal(h, b, c, fuel) == Some(true),
    ensures
        values_equal(h, a, c, fuel) == Some(true),
{
    lemma_equal_transitive(h, a, b, c, fuel);
}

/// Deep equality is symmetric: when `a` equals `b`, `b` equals `a`.
pub proof fn law_equality_symmetric(h: HeapV, a: ValueV, b: ValueV, fuel: nat)
    requires
        heap_keys_distinct(h),
        values_equal(h, a, b, fuel) == Some(true),
    ensures
        values_equal(h, b, a, fuel) == Some(true),
{
    lemma_equal_symmetric(h, a, b, fuel);
}

/// No pair names an object among `a`.
pub open spec fn objects_outside(xs: Seq<crate::compile_opt::NamePair>, a: Set<Seq<char>>) -> bool {
    forall|i: int| 0 <= i < xs.len() ==> !a.contains(#[trigger] xs[i].0)
}

proof fn lemma_outside_concat(xs: Seq<crate::compile_opt::NamePair>, ys: Seq<crate::compile_opt::NamePair>, a: Set<Seq<char>>)
    requires
        objects_outside(xs, a),
        objects_outside(ys, a),
    ensures
        objects_outside(xs + ys, a),
{
    assert forall|i: int| 0 <= i < (xs + ys).len() implies !a.contains(#[trigger] (xs + ys)[i].0) by {
        if i < xs.len() {
            assert((xs + ys)[i] == xs[i]);
        } else {
            assert((xs + ys)[i] == ys[i - xs.len()]);
        }
    }
}

proof fn lemma_uses_expr_outside(e: ExprV, a: Set<Seq<char>>)
    ensures
        objects_outside(crate::compile_opt::member_uses_expr(e, a), a),
    decreases e,
{
    match e {
        ExprV::MemberAccess { object, member } => {
            lemma_uses_expr_outside(*object, a);
            let head = match *object {
                ExprV::Identifier(o) => if a.contains(o) { Seq::empty() } else { seq![(o, member)] },
                _ => Seq::<crate::compile_opt::NamePair>::empty(),
            };
            assert(objects_outside(head, a));
            lemma_outside_concat(head, member_uses_expr(*object, a), a);
        },
        ExprV::BinaryOp { left, right, .. } => {
            lemma_uses_expr_outside(*left, a);
            lemma_uses_expr_outside(*right, a);
            lemma_outside_concat(member_uses_expr(*left, a), member_uses_expr(*right, a), a);
        },
        ExprV::UnaryOp { expr, .. } => {
            lemma_uses_expr_outside(*expr, a);
        },
        ExprV::Index { object, index } => {
            lemma_uses_expr_outside(*object, a);
            lemma_uses_expr_outside(*index, a);
            lemma_outside_concat(member_uses_expr(*object, a), member_uses_expr(*index, a), a);
        },
        ExprV::FunctionCall { args, .. } => {
            lemma_uses_exprs_outside(args, a);
        },
        ExprV::Call { callee, args } => {
            lemma_uses_expr_outside(*callee, a);
            lemma_uses_exprs_outside(args, a);
            lemma_outside_concat(member_uses_expr(*callee, a), member_uses_exprs(args, a), a);
        },
        ExprV::FunctionExpr { body, .. } => {
            lemma_uses_stmts_outside(body, a);
        },
        ExprV::Input { prompt, .. } => {
            lemma_uses_expr_outside(*prompt, a);
        },
        ExprV::Literal(LitV::Array { elements, .. }) => {
            lemma_uses_exprs_outside(elements, a);
        },
        ExprV::Literal(LitV::Object { fields }) => {
            lemma_uses_fields_outside(fields, a);
        },
        _ => {},
    }
}

proof fn lemma_uses_fields_outside(fs: Seq<(Seq<char>, ExprV)>, a: Set<Seq<char>>)
    ensures
        objects_outside(crate::compile_opt::member_uses_fields(fs, a), a),
    decreases fs,
{
    if fs.len() > 0 {
        assert(decreases_to!(fs => fs[0]));
        lemma_uses_expr_outside(fs[0].1, a);
        lemma_uses_fields_outside(fs.drop_first(), a);
        lemma_outside_concat(
            member_uses_expr(fs[0].1, a),
            crate::compile_opt::member_uses_fields(fs.drop_first(), a),
            a,
        );
    }
}

proof fn lemma_uses_exprs_outside(es: Seq<ExprV>, a: Set<Seq<char>>)
    ensures
        objects_outside(crate::compile_opt::member_uses_exprs(es, a), a),
    decreases es,
{
    if es.len() > 0 {
        lemma_uses_expr_outside(es[0], a);
        lemma_uses_exprs_outside(es.drop_first(), a);
        lemma_outside_concat(
            crate::compile_opt::member_uses_expr(es[0], a),
            crate::compile_opt::member_uses_exprs(es.drop_first(), a),
            a,
        );
    }
}

proof fn lemma_uses_stmt_outside(st: StmtV, a: Set<Seq<char>>)
    ensures
        objects_outside(crate::compile_opt::member_uses_stmt(st, a), a),
    decreases st,
{
    match st {
        StmtV::Assignment { value, .. } => lemma_uses_expr_outside(value, a),
        StmtV::Print(value) => lemma_uses_expr_outside(value, a),
        StmtV::Return(Some(value)) => lemma_uses_expr_outside(value, a),
        StmtV::Expression(value) => lemma_uses_expr_outside(value, a),
        StmtV::If { branches, else_branch } => {
            lemma_uses_branches_outside(branches, a);
            let rest = match else_branch {
                Some(b) => member_uses_stmts(b, a),
                None => Seq::empty(),
            };
            match else_branch {
                Some(b) => lemma_uses_stmts_outside(b, a),
                None => {},
            }
            lemma_outside_concat(member_uses_branches(branches, a), rest, a);
        },
        StmtV::While { condition, body } => {
            lemma_uses_expr_outside(condition, a);
            lemma_uses_stmts_outside(body, a);
            lemma_outside_concat(member_uses_expr(condition, a), member_uses_stmts(body, a), a);
        },
        StmtV::ForIn { iterable, body, .. } => {
            lemma_uses_expr_outside(iterable, a);
            lemma_uses_stmts_outside(body, a);
            lemma_outside_concat(member_uses_expr(iterable, a), member_uses_stmts(body, a), a);
        },
        StmtV::IndexAssign { object, index, value } => {
            lemma_uses_expr_outside(object, a);
            lemma_uses_expr_outside(index, a);
            lemma_uses_expr_outside(value, a);
            lemma_outside_concat(member_uses_expr(object, a), member_uses_expr(index, a), a);
            lemma_outside_concat(
                member_uses_expr(object, a) + member_uses_expr(index, a),
                member_uses_expr(value, a),
                a,
            );
        },
        StmtV::PropertyAssign { target, value } => {
            let first = match target {
                ExprV::MemberAccess { object, .. } => member_uses_expr(*object, a),
                _ => member_uses_expr(target, a),
            };
            match target {
                ExprV::MemberAccess { object, .. } => lemma_uses_expr_outside(*object, a),
                _ => lemma_uses_expr_outside(target, a),
            }
            lemma_uses_expr_outside(value, a);
            lemma_outside_concat(first, member_uses_expr(value, a), a);
        },
        StmtV::FunctionDef { body, .. } => {
            lemma_uses_stmts_outside(body, a);
        },
        _ => {},
    }
}

proof fn lemma_uses_stmts_outside(ss: Seq<StmtV>, a: Set<Seq<char>>)
    ensures
        objects_outside(crate::compile_opt::member_uses_stmts(ss, a), a),
    decreases ss,
{
    if ss.len() > 0 {
        lemma_uses_stmt_outside(ss[0], a);
        lemma_uses_stmts_outside(ss.drop_first(), a);
        lemma_outside_concat(
            crate::compile_opt::member_uses_stmt(ss[0], a),
            crate::compile_opt::member_uses_stmts(ss.drop_first(), a),
            a,
        );
    }
}

proof fn lemma_uses_branches_outside(bs: Seq<(ExprV, Seq<StmtV>)>, a: Set<Seq<char>>)
    ensures
        objects_outside(crate::compile_opt::member_uses_branches(bs, a), a),
    decreases bs,
{
    if bs.len() > 0 {
        assert(decreases_to!(bs => bs[0]));
        lemma_uses_expr_outside(bs[0].0, a);
        lemma_uses_stmts_outside(bs[0].1, a);
        lemma_uses_branches_outside(bs.drop_first(), a);
        lemma_outside_concat(member_uses_expr(bs[0].0, a), member_uses_stmts(bs[0].1, a), a);
        lemma_outside_concat(
            member_uses_expr(bs[0].0, a) + member_uses_stmts(bs[0].1, a),
            member_uses_branches(bs.drop_first(), a),
            a,
        );
    }
}

proof fn lemma_add_new_outside(acc: Seq<crate::compile_opt::NamePair>, xs: Seq<crate::compile_opt::NamePair>, a: Set<Seq<char>>)
    requires
        objects_outside(acc, a),
        objects_outside(xs, a),
    ensures
        objects_outside(crate::compile_opt::add_new(acc, xs), a),
    decreases xs.len(),
{
    if xs.len() > 0 {
        let acc2 = if acc.contains(xs[0]) { acc } else { acc.push(xs[0]) };
        assert(!a.contains(xs[0].0));
        assert(objects_outside(acc2, a)) by {
            assert forall|i: int| 0 <= i < acc2.len() implies !a.contains(#[trigger] acc2[i].0) by {
                if i < acc.len() {
                    assert(acc2[i] == acc[i]);
                }
            }
        }
        assert forall|i: int| 0 <= i < xs.drop_first().len() implies !a.contains(#[trigger] xs.drop_first()[i].0) by {
            assert(xs.drop_first()[i] == xs[i + 1]);
        }
        lemma_add_new_outside(acc2, xs.drop_first(), a);
    }
}

/// The names assigned in two bodies run one after the other are those assigned in either.
pub proof fn law_assigned_concat(xs: Seq<StmtV>, ys: Seq<StmtV>)
    ensures
        crate::compile_opt::assigned_list(xs + ys) == crate::compile_opt::assigned_list(xs)
            + crate::compile_opt::assigned_list(ys),
    decreases xs.len(),
{
    if xs.len() == 0 {
        assert(xs + ys =~= ys);
        assert(crate::compile_opt::assigned_list(ys) =~= Set::<Seq<char>>::empty()
            + crate::compile_opt::assigned_list(ys));
    } else {
        assert((xs + ys)[0] == xs[0]);
        assert((xs + ys).drop_first() =~= xs.drop_first() + ys);
        law_assigned_concat(xs.drop_first(), ys);
        assert(crate::compile_opt::assigned_list(xs + ys) =~= crate::compile_opt::assigned_list(xs)
            + crate::compile_opt::assigned_list(ys));
    }
}

/// Only objects that the body never assigns are hoisted: no pair that a body's member reads
/// give names an object that the body assigns.
pub proof fn law_hoisted_objects_unassigned(body: Seq<StmtV>)
    ensures
        ({
            let a = crate::compile_opt::assigned_list(body);
            objects_outside(crate::compile_opt::add_new(Seq::empty(), crate::compile_opt::member_uses_stmts(body, a)), a)
        }),
{
    let a = crate::compile_opt::assigned_list(body);
    lemma_uses_stmts_outside(body, a);
    lemma_add_new_outside(Seq::empty(), crate::compile_opt::member_uses_stmts(body, a), a);
}

/// Folding agrees with the machine: where two literals are folded at compile time, the
/// instruction of the operator, run on the same two values, pushes the folded value and goes
/// on, on any heap.
pub proof fn law_fold_matches_machine(s: VmV, l: LitV, op: BinaryOperator, r: LitV)
    requires
        fold_spec(ExprV::Literal(l), op, ExprV::Literal(r)) is Some,
    ensures
        binary_result(s.heap, binop_code(op), lit_value(l), lit_value(r)) == Ok::<ValueV, EventV>(
            fold_spec(ExprV::Literal(l), op, ExprV::Literal(r))->0,
        ),
        binary_spec(s.push(lit_value(l)).push(lit_value(r)), binop_code(op)) == (
            s.push(fold_spec(ExprV::Literal(l), op, ExprV::Literal(r))->0),
            EventV::Continue,
        ),
{
    let st = s.push(lit_value(l)).push(lit_value(r));
    assert(st.stack.take(st.stack.len() - 2) =~= s.stack);
    assert(st.with_stack(s.stack) == s.with_stack(s.stack));
}

} // verus!
