//! Instructions on arrays and objects.
use vstd::prelude::*;
use crate::value::{Value, ValueV, values_view, copy_value, lemma_values_view_index,
    lemma_values_view_push};
use crate::heap::{HeapV, ArrayV, Fields, lookup, insert_entry, remove_entry};
use crate::bytecode::{Bytecode, u32_at, OP_OBJECT_GET_OR_CREATE_CONST};
use crate::show::{nat_text, push_nat};
use crate::vm::{VM, VmV, Event, EventV, underflow, truncated, bad_constant, error_with};
use crate::ops_values::{operand_u32, fault, error, dangling};

verus! {

impl VmV {
    pub open spec fn with_heap(self, heap: HeapV) -> VmV {
        VmV { heap, ..self }
    }
}

/// An array index: a non-negative number.
pub open spec fn index_of(h: HeapV, v: ValueV) -> Result<usize, EventV> {
    match v {
        ValueV::Number(n) => if n >= 0 {
            Ok(n as usize)
        } else {
            Err(EventV::Error("Array index must be non-negative"@))
        },
        _ => Err(error_with(h, "Array index must be a number, found "@, v)),
    }
}

/// An object key: a string.
pub open spec fn key_of(h: HeapV, v: ValueV) -> Result<Seq<char>, EventV> {
    match v {
        ValueV::Str(s) => Ok(s),
        _ => Err(error_with(h, "Object key must be a string, found "@, v)),
    }
}

/// Reading a property: `null` for a missing key, and for anything that is not an object.
pub open spec fn property_of(h: HeapV, obj: ValueV, key: Seq<char>) -> Result<ValueV, EventV> {
    match obj {
        ValueV::Object(x) => if x >= h.objects.len() {
            Err(dangling())
        } else {
            match lookup(h.objects[x as int], key) {
                Some(v) => Ok(v),
                None => Ok(ValueV::Null),
            }
        },
        _ => Ok(ValueV::Null),
    }
}

pub open spec fn out_of_bounds(i: usize) -> EventV {
    EventV::Error("Array index "@ + nat_text(i as nat) + " out of bounds"@)
}

/// The state after popping `k` values, with the popped values in stack order.
pub open spec fn popn(s: VmV, k: nat) -> (VmV, Seq<ValueV>) {
    (s.with_stack(s.stack.take(s.stack.len() - k)), s.stack.skip(s.stack.len() - k))
}

/// `BUILD_ARRAY count mutable`: the top `count` values become a new array.
pub open spec fn build_array_spec(s: VmV, code: Seq<u8>) -> (VmV, EventV) {
    if s.ip + 5 > code.len() {
        (s, truncated())
    } else {
        let count = u32_at(code, s.ip) as nat;
        let mutable = code[s.ip + 4] != 0;
        let s1 = s.with_ip(s.ip + 5);
        if s.stack.len() < count {
            (s1.with_stack(Seq::empty()), underflow())
        } else {
            let (s2, elems) = popn(s1, count);
            let h = s.heap;
            let heap = HeapV { arrays: h.arrays.push(ArrayV { mutable, elements: elems }), ..h };
            (s2.with_heap(heap).push(ValueV::Array(h.arrays.len() as usize)), EventV::Continue)
        }
    }
}

/// `INDEX_GET`: an array element, or an object property.
pub open spec fn index_get_spec(s: VmV) -> (VmV, EventV) {
    let n = s.stack.len();
    if n < 2 {
        (s.with_stack(Seq::empty()), underflow())
    } else {
        let (s2, vs) = popn(s, 2);
        let container = vs[0];
        let index = vs[1];
        let h = s.heap;
        match container {
            ValueV::Array(x) => if x >= h.arrays.len() {
                (s2, dangling())
            } else {
                match index_of(h, index) {
                    Err(e) => (s2, e),
                    Ok(i) => if i >= h.arrays[x as int].elements.len() {
                        (s2, out_of_bounds(i))
                    } else {
                        (s2.push(h.arrays[x as int].elements[i as int]), EventV::Continue)
                    },
                }
            },
            ValueV::Object(_) | ValueV::Null => match key_of(h, index) {
                Err(e) => (s2, e),
                Ok(k) => match property_of(h, container, k) {
                    Ok(v) => (s2.push(v), EventV::Continue),
                    Err(e) => (s2, e),
                },
            },
            _ => (s2, error_with(h, "Cannot index into "@, container)),
        }
    }
}

/// `INDEX_SET`: stores into an array element or an object property.
pub open spec fn index_set_spec(s: VmV) -> (VmV, EventV) {
    let n = s.stack.len();
    if n < 3 {
        (s.with_stack(Seq::empty()), underflow())
    } else {
        let (s3, vs) = popn(s, 3);
        let container = vs[0];
        let index = vs[1];
        let value = vs[2];
        let h = s.heap;
        match container {
            ValueV::Array(x) => if x >= h.arrays.len() {
                (s3, dangling())
            } else if !h.arrays[x as int].mutable {
                (s3, EventV::Error("Cannot modify immutable array"@))
            } else {
                match index_of(h, index) {
                    Err(e) => (s3, e),
                    Ok(i) => if i >= h.arrays[x as int].elements.len() {
                        (s3, out_of_bounds(i))
                    } else {
                        let a = h.arrays[x as int];
                        let heap = HeapV {
                            arrays: h.arrays.update(
                                x as int,
                                ArrayV { elements: a.elements.update(i as int, value), ..a },
                            ),
                            ..h
                        };
                        (s3.with_heap(heap), EventV::Continue)
                    },
                }
            },
            ValueV::Object(x) => match key_of(h, index) {
                Err(e) => (s3, e),
                Ok(k) => if x >= h.objects.len() {
                    (s3, dangling())
                } else {
                    let heap = HeapV {
                        objects: h.objects.update(x as int, insert_entry(h.objects[x as int], k, value)),
                        ..h
                    };
                    (s3.with_heap(heap), EventV::Continue)
                },
            },
            ValueV::Null => (s3, EventV::Error("Cannot set property on null"@)),
            _ => (s3, error_with(h, "Cannot index into "@, container)),
        }
    }
}

/// An array operand: its heap index.
pub open spec fn array_of(h: HeapV, v: ValueV) -> Result<usize, EventV> {
    match v {
        ValueV::Array(x) => if x >= h.arrays.len() {
            Err(dangling())
        } else {
            Ok(x)
        },
        _ => Err(error_with(h, "Expected array, found "@, v)),
    }
}

/// `ARRAY_LEN`: the number of elements.
pub open spec fn array_len_spec(s: VmV) -> (VmV, EventV) {
    if s.stack.len() == 0 {
        (s, underflow())
    } else {
        let s1 = s.popped();
        match array_of(s.heap, s.top()) {
            Err(e) => (s1, e),
            Ok(x) => (
                s1.push(ValueV::Number(s.heap.arrays[x as int].elements.len() as i64)),
                EventV::Continue,
            ),
        }
    }
}

/// `ARRAY_PUSH`: appends to a mutable array.
pub open spec fn array_push_spec(s: VmV) -> (VmV, EventV) {
    if s.stack.len() < 2 {
        (s.with_stack(Seq::empty()), underflow())
    } else {
        let (s2, vs) = popn(s, 2);
        let h = s.heap;
        match array_of(h, vs[0]) {
            Err(e) => (s2, e),
            Ok(x) => if !h.arrays[x as int].mutable {
                (s2, EventV::Error("Cannot push to immutable array"@))
            } else {
                let a = h.arrays[x as int];
                let heap = HeapV {
                    arrays: h.arrays.update(x as int, ArrayV { elements: a.elements.push(vs[1]), ..a }),
                    ..h
                };
                (s2.with_heap(heap), EventV::Continue)
            },
        }
    }
}

/// `ARRAY_POP`: removes the last element of a mutable array and pushes it.
pub open spec fn array_pop_spec(s: VmV) -> (VmV, EventV) {
    if s.stack.len() == 0 {
        (s, underflow())
    } else {
        let s1 = s.popped();
        let h = s.heap;
        match array_of(h, s.top()) {
            Err(e) => (s1, e),
            Ok(x) => {
                let a = h.arrays[x as int];
                if !a.mutable {
                    (s1, EventV::Error("Cannot pop from immutable array"@))
                } else if a.elements.len() == 0 {
                    (s1, EventV::Error("Cannot pop from empty array"@))
                } else {
                    let heap = HeapV {
                        arrays: h.arrays.update(x as int, ArrayV { elements: a.elements.drop_last(), ..a }),
                        ..h
                    };
                    (s1.with_heap(heap).push(a.elements.last()), EventV::Continue)
                }
            },
        }
    }
}

/// The fields of `BUILD_OBJECT`: key `i` is the string constant named at `kpos + 4 i`, value
/// `i` is `vals[i]`; later keys overwrite earlier equal ones.
pub open spec fn object_fields(
    code: Seq<u8>,
    consts: Seq<ValueV>,
    kpos: int,
    vals: Seq<ValueV>,
    i: nat,
    acc: Fields,
) -> Result<Fields, EventV>
    decreases vals.len() - i,
{
    if i >= vals.len() {
        Ok(acc)
    } else {
        let idx = u32_at(code, kpos + 4 * i) as int;
        if idx >= consts.len() {
            Err(bad_constant())
        } else {
            match consts[idx] {
                ValueV::Str(k) => object_fields(
                    code,
                    consts,
                    kpos,
                    vals,
                    i + 1,
                    insert_entry(acc, k, vals[i as int]),
                ),
                _ => Err(EventV::Error("Object key must be a string constant"@)),
            }
        }
    }
}

/// `BUILD_OBJECT count key*`: the top `count` values become the fields of a new object.
pub open spec fn build_object_spec(s: VmV, code: Seq<u8>, consts: Seq<ValueV>) -> (VmV, EventV) {
    if s.ip + 4 > code.len() {
        (s, truncated())
    } else {
        let count = u32_at(code, s.ip) as nat;
        if s.ip + 4 + 4 * count > code.len() {
            (s, truncated())
        } else {
            let s1 = s.with_ip(s.ip + 4 + 4 * count);
            if s.stack.len() < count {
                (s1.with_stack(Seq::empty()), underflow())
            } else {
                let (s2, vals) = popn(s1, count);
                match object_fields(code, consts, s.ip + 4, vals, 0, Seq::empty()) {
                    Err(e) => (s2, e),
                    Ok(fields) => {
                        let h = s.heap;
                        let heap = HeapV { objects: h.objects.push(fields), ..h };
                        (s2.with_heap(heap).push(ValueV::Object(h.objects.len() as usize)), EventV::Continue)
                    },
                }
            }
        }
    }
}

/// The string constant named by the operand at `s.ip`, for the `*_CONST` instructions.
pub open spec fn const_key(s: VmV, code: Seq<u8>, consts: Seq<ValueV>) -> Result<Seq<char>, EventV> {
    let idx = u32_at(code, s.ip) as int;
    if idx >= consts.len() {
        Err(bad_constant())
    } else {
        match consts[idx] {
            ValueV::Str(k) => Ok(k),
            _ => Err(EventV::Error("Object key must be a string constant"@)),
        }
    }
}

/// `OBJECT_GET_CONST key`: reads a property named by a constant.
pub open spec fn object_get_const_spec(s: VmV, code: Seq<u8>, consts: Seq<ValueV>) -> (VmV, EventV) {
    if s.ip + 4 > code.len() {
        (s, truncated())
    } else {
        let s1 = s.with_ip(s.ip + 4);
        match const_key(s, code, consts) {
            Err(e) => (s1, e),
            Ok(k) => if s.stack.len() == 0 {
                (s1, underflow())
            } else {
                match property_of(s.heap, s.top(), k) {
                    Ok(v) => (s1.popped().push(v), EventV::Continue),
                    Err(e) => (s1.popped(), e),
                }
            },
        }
    }
}

/// `OBJECT_GET`: reads a property named by a string on the stack.
pub open spec fn object_get_spec(s: VmV) -> (VmV, EventV) {
    if s.stack.len() < 2 {
        (s.with_stack(Seq::empty()), underflow())
    } else {
        let (s2, vs) = popn(s, 2);
        match key_of(s.heap, vs[1]) {
            Err(e) => (s2, e),
            Ok(k) => match property_of(s.heap, vs[0], k) {
                Ok(v) => (s2.push(v), EventV::Continue),
                Err(e) => (s2, e),
            },
        }
    }
}

/// `OBJECT_SET`: sets a property of an object.
pub open spec fn object_set_spec(s: VmV) -> (VmV, EventV) {
    if s.stack.len() < 3 {
        (s.with_stack(Seq::empty()), underflow())
    } else {
        let (s3, vs) = popn(s, 3);
        let h = s.heap;
        match key_of(h, vs[1]) {
            Err(e) => (s3, e),
            Ok(k) => match vs[0] {
                ValueV::Object(x) => if x >= h.objects.len() {
                    (s3, dangling())
                } else {
                    let heap = HeapV {
                        objects: h.objects.update(x as int, insert_entry(h.objects[x as int], k, vs[2])),
                        ..h
                    };
                    (s3.with_heap(heap), EventV::Continue)
                },
                ValueV::Null => (s3, EventV::Error("Cannot set property on null"@)),
                other => (s3, error_with(h, "Expected object, found "@, other)),
            },
        }
    }
}

/// `OBJECT_DELETE`: removes a property; on `null` nothing happens.
pub open spec fn object_delete_spec(s: VmV) -> (VmV, EventV) {
    if s.stack.len() < 2 {
        (s.with_stack(Seq::empty()), underflow())
    } else {
        let (s2, vs) = popn(s, 2);
        let h = s.heap;
        match key_of(h, vs[1]) {
            Err(e) => (s2, e),
            Ok(k) => match vs[0] {
                ValueV::Object(x) => if x >= h.objects.len() {
                    (s2, dangling())
                } else {
                    let heap = HeapV {
                        objects: h.objects.update(x as int, remove_entry(h.objects[x as int], k)),
                        ..h
                    };
                    (s2.with_heap(heap), EventV::Continue)
                },
                ValueV::Null => (s2, EventV::Continue),
                other => (s2, error_with(h, "Expected object, found "@, other)),
            },
        }
    }
}

/// The object under `key` in object `x`, made (and stored) when the key is missing or `null`.
pub open spec fn get_or_create(h: HeapV, x: usize, key: Seq<char>) -> Result<(HeapV, ValueV), EventV> {
    if x >= h.objects.len() {
        Err(dangling())
    } else {
        match lookup(h.objects[x as int], key) {
            None | Some(ValueV::Null) => {
                let n = h.objects.len() as usize;
                let objects = h.objects.push(Seq::empty());
                Ok((
                    HeapV {
                        objects: objects.update(x as int, insert_entry(h.objects[x as int], key, ValueV::Object(n))),
                        ..h
                    },
                    ValueV::Object(n),
                ))
            },
            Some(ValueV::Object(y)) => Ok((h, ValueV::Object(y))),
            Some(_) => Err(
                EventV::Error("Cannot traverse through non-object property '"@ + key + "'"@),
            ),
        }
    }
}

/// The common end of both `OBJECT_GET_OR_CREATE` forms, once the key is known and the object
/// popped into state `s`.
pub open spec fn get_or_create_step(s: VmV, obj: ValueV, key: Seq<char>) -> (VmV, EventV) {
    match obj {
        ValueV::Object(x) => match get_or_create(s.heap, x, key) {
            Ok((heap, v)) => (s.with_heap(heap).push(v), EventV::Continue),
            Err(e) => (s, e),
        },
        ValueV::Null => (s, EventV::Error("Cannot set nested property on null"@)),
        other => (s, error_with(s.heap, "Expected object, found "@, other)),
    }
}

/// `OBJECT_GET_OR_CREATE_CONST key`.
pub open spec fn get_or_create_const_spec(s: VmV, code: Seq<u8>, consts: Seq<ValueV>) -> (VmV, EventV) {
    if s.ip + 4 > code.len() {
        (s, truncated())
    } else {
        let s1 = s.with_ip(s.ip + 4);
        match const_key(s, code, consts) {
            Err(e) => (s1, e),
            Ok(k) => if s.stack.len() == 0 {
                (s1, underflow())
            } else {
                get_or_create_step(s1.popped(), s.top(), k)
            },
        }
    }
}

/// `OBJECT_GET_OR_CREATE` with the key on the stack.
pub open spec fn get_or_create_spec(s: VmV) -> (VmV, EventV) {
    if s.stack.len() < 2 {
        (s.with_stack(Seq::empty()), underflow())
    } else {
        let (s2, vs) = popn(s, 2);
        match key_of(s.heap, vs[1]) {
            Err(e) => (s2, e),
            Ok(k) => get_or_create_step(s2, vs[0], k),
        }
    }
}

/// The keys of a field list as string values.
pub open spec fn key_values(fs: Fields) -> Seq<ValueV> {
    fs.map_values(|e: (Seq<char>, ValueV)| ValueV::Str(e.0))
}

/// `OBJECT_KEYS`: a new mutable array of the keys of an object (empty for `null`).
pub open spec fn object_keys_spec(s: VmV) -> (VmV, EventV) {
    if s.stack.len() == 0 {
        (s, underflow())
    } else {
        let s1 = s.popped();
        let h = s.heap;
        let fresh = |elems: Seq<ValueV>| (
            s1.with_heap(HeapV { arrays: h.arrays.push(ArrayV { mutable: true, elements: elems }), ..h }).push(
                ValueV::Array(h.arrays.len() as usize),
            ),
            EventV::Continue,
        );
        match s.top() {
            ValueV::Object(x) => if x >= h.objects.len() {
                (s1, dangling())
            } else {
                fresh(key_values(h.objects[x as int]))
            },
            ValueV::Null => fresh(Seq::empty()),
            other => (s1, error_with(h, "Expected object for keys(), found "@, other)),
        }
    }
}


/// The fields after inserting the first `j` key/value pairs, in order, into an empty list.
pub open spec fn fold_fields(keys: Seq<Seq<char>>, vals: Seq<ValueV>, j: nat) -> Fields
    decreases j,
{
    if j == 0 {
        Seq::empty()
    } else {
        insert_entry(
            fold_fields(keys, vals, (j - 1) as nat),
            keys[j - 1],
            vals[j - 1],
        )
    }
}

pub(crate) fn out_of_bounds_error(i: usize) -> (e: Event)
    ensures
        e@ == out_of_bounds(i),
{
    let mut msg = "Array index ".to_owned();
    push_nat(&mut msg, i as u64);
    msg.append(" out of bounds");
    Event::Error(msg)
}

impl VM {
    pub(crate) fn pop3(&mut self) -> (r: Option<(Value, Value, Value)>)
        ensures
            ({
                let s = old(self)@;
                let n = s.stack.len();
                if n < 3 {
                    r is None && final(self)@ == s.with_stack(Seq::empty())
                } else {
                    match r {
                        Some((a, b, c)) => a@ == s.stack[n - 3] && b@ == s.stack[n - 2] && c@
                            == s.stack[n - 1] && final(self)@ == s.with_stack(s.stack.take(n - 3)),
                        None => false,
                    }
                }
            }),
    {
        let c = self.pop();
        match c {
            None => {
                assert(self@.stack =~= Seq::<ValueV>::empty());
                None
            },
            Some(c) => match self.pop2() {
                None => None,
                Some((a, b)) => {
                    assert(self@.stack =~= old(self)@.stack.take(old(self)@.stack.len() - 3));
                    Some((a, b, c))
                },
            },
        }
    }

    fn index_of(&self, v: &Value) -> (r: Result<usize, Event>)
        ensures
            match (r, index_of(self@.heap, v@)) {
                (Ok(i), Ok(si)) => i == si,
                (Err(e), Err(se)) => e@ == se,
                _ => false,
            },
    {
        proof {
            reveal_with_fuel(crate::value::value_view, 2);
        }
        match v {
            Value::Number(n) => if *n >= 0 {
                Ok(#[verifier::truncate] (*n as usize))
            } else {
                Err(error("Array index must be non-negative"))
            },
            _ => Err(self.error_with("Array index must be a number, found ", v)),
        }
    }

    fn key_of(&self, v: &Value) -> (r: Result<String, Event>)
        ensures
            match (r, key_of(self@.heap, v@)) {
                (Ok(k), Ok(sk)) => k@ == sk,
                (Err(e), Err(se)) => e@ == se,
                _ => false,
            },
    {
        proof {
            reveal_with_fuel(crate::value::value_view, 2);
        }
        match v {
            Value::String(s) => Ok(s.clone()),
            _ => Err(self.error_with("Object key must be a string, found ", v)),
        }
    }

    fn property_of(&self, obj: &Value, key: &str) -> (r: Result<Value, Event>)
        ensures
            match (r, property_of(self@.heap, obj@, key@)) {
                (Ok(v), Ok(sv)) => v@ == sv,
                (Err(e), Err(se)) => e@ == se,
                _ => false,
            },
    {
        proof {
            reveal_with_fuel(crate::value::value_view, 2);
        }
        match obj {
            Value::Object(x) => {
                if *x >= self.heap.object_count() {
                    return Err(fault("value refers to a heap slot that does not exist"));
                }
                match self.heap.object_get(*x, key) {
                    Some(v) => Ok(v),
                    None => Ok(Value::Null),
                }
            },
            _ => Ok(Value::Null),
        }
    }

    fn array_of(&self, v: &Value) -> (r: Result<usize, Event>)
        ensures
            match (r, array_of(self@.heap, v@)) {
                (Ok(i), Ok(si)) => i == si,
                (Err(e), Err(se)) => e@ == se,
                _ => false,
            },
    {
        proof {
            reveal_with_fuel(crate::value::value_view, 2);
        }
        match v {
            Value::Array(x) => if *x >= self.heap.array_count() {
                Err(fault("value refers to a heap slot that does not exist"))
            } else {
                Ok(*x)
            },
            _ => Err(self.error_with("Expected array, found ", v)),
        }
    }

    pub fn op_build_array(&mut self, code: &Vec<u8>) -> (e: Event)
        ensures
            (final(self)@, e@) == build_array_spec(old(self)@, code@),
    {
        if self.ip > code.len() || code.len() - self.ip < 5 {
            return fault("operand runs past the end of the code");
        }
        let count = Bytecode::read_u32(code.as_slice(), self.ip);
        let mutable = code[self.ip + 4] != 0;
        self.ip = self.ip + 5;
        if self.stack_len() < count as usize {
            self.clear_stack();
            return error("Stack underflow");
        }
        let elems = self.pop_many(count as usize);
        let h = self.heap.alloc_array(mutable, elems);
        self.push(Value::Array(h));
        Event::Continue
    }

    pub fn op_index_get(&mut self) -> (e: Event)
        ensures
            (final(self)@, e@) == index_get_spec(old(self)@),
    {
        proof {
            reveal_with_fuel(crate::value::value_view, 2);
        }
        match self.pop2() {
            None => error("Stack underflow"),
            Some((container, index)) => match container {
                Value::Array(x) => {
                    if x >= self.heap.array_count() {
                        return fault("value refers to a heap slot that does not exist");
                    }
                    match self.index_of(&index) {
                        Err(e) => e,
                        Ok(i) => if i >= self.heap.array_len(x) {
                            out_of_bounds_error(i)
                        } else {
                            let v = self.heap.array_get(x, i);
                            self.push(v);
                            Event::Continue
                        },
                    }
                },
                Value::Object(_) | Value::Null => match self.key_of(&index) {
                    Err(e) => e,
                    Ok(k) => match self.property_of(&container, k.as_str()) {
                        Ok(v) => {
                            self.push(v);
                            Event::Continue
                        },
                        Err(e) => e,
                    },
                },
                _ => self.error_with("Cannot index into ", &container),
            },
        }
    }

    pub fn op_index_set(&mut self) -> (e: Event)
        ensures
            (final(self)@, e@) == index_set_spec(old(self)@),
    {
        proof {
            reveal_with_fuel(crate::value::value_view, 2);
        }
        match self.pop3() {
            None => error("Stack underflow"),
            Some((container, index, value)) => match container {
                Value::Array(x) => {
                    if x >= self.heap.array_count() {
                        return fault("value refers to a heap slot that does not exist");
                    }
                    if !self.heap.array_is_mutable(x) {
                        return error("Cannot modify immutable array");
                    }
                    match self.index_of(&index) {
                        Err(e) => e,
                        Ok(i) => if i >= self.heap.array_len(x) {
                            out_of_bounds_error(i)
                        } else {
                            self.heap.array_set(x, i, value);
                            Event::Continue
                        },
                    }
                },
                Value::Object(x) => match self.key_of(&index) {
                    Err(e) => e,
                    Ok(k) => {
                        if x >= self.heap.object_count() {
                            return fault("value refers to a heap slot that does not exist");
                        }
                        self.heap.object_insert(x, k, value);
                        Event::Continue
                    },
                },
                Value::Null => error("Cannot set property on null"),
                _ => self.error_with("Cannot index into ", &container),
            },
        }
    }

    pub fn op_array_len(&mut self) -> (e: Event)
        ensures
            (final(self)@, e@) == array_len_spec(old(self)@),
    {
        match self.pop() {
            None => error("Stack underflow"),
            Some(v) => match self.array_of(&v) {
                Err(e) => e,
                Ok(x) => {
                    let n = self.heap.array_len(x);
                    self.push(Value::Number(#[verifier::truncate] (n as i64)));
                    Event::Continue
                },
            },
        }
    }

    pub fn op_array_push(&mut self) -> (e: Event)
        ensures
            (final(self)@, e@) == array_push_spec(old(self)@),
    {
        match self.pop2() {
            None => error("Stack underflow"),
            Some((arr, v)) => match self.array_of(&arr) {
                Err(e) => e,
                Ok(x) => if !self.heap.array_is_mutable(x) {
                    error("Cannot push to immutable array")
                } else {
                    self.heap.array_push(x, v);
                    Event::Continue
                },
            },
        }
    }

    pub fn op_array_pop(&mut self) -> (e: Event)
        ensures
            (final(self)@, e@) == array_pop_spec(old(self)@),
    {
        match self.pop() {
            None => error("Stack underflow"),
            Some(arr) => match self.array_of(&arr) {
                Err(e) => e,
                Ok(x) => if !self.heap.array_is_mutable(x) {
                    error("Cannot pop from immutable array")
                } else if self.heap.array_len(x) == 0 {
                    error("Cannot pop from empty array")
                } else {
                    let v = self.heap.array_pop(x);
                    self.push(v);
                    Event::Continue
                },
            },
        }
    }

    fn const_key(code: &Vec<u8>, consts: &Vec<Value>, p: usize) -> (r: Result<String, Event>)
        requires
            p + 4 <= code@.len(),
        ensures
            match (r, const_key(VmV { ip: p as int, ..arbitrary() }, code@, values_view(consts@))) {
                (Ok(k), Ok(sk)) => k@ == sk,
                (Err(e), Err(se)) => e@ == se,
                _ => false,
            },
    {
        proof {
            reveal_with_fuel(crate::value::value_view, 2);
            lemma_values_view_index(consts@);
        }
        let idx = Bytecode::read_u32(code.as_slice(), p);
        if idx as usize >= consts.len() {
            return Err(fault("constant index out of range"));
        }
        match &consts[idx as usize] {
            Value::String(k) => Ok(k.clone()),
            _ => Err(error("Object key must be a string constant")),
        }
    }

    pub fn op_build_object(&mut self, code: &Vec<u8>, consts: &Vec<Value>) -> (e: Event)
        ensures
            (final(self)@, e@) == build_object_spec(old(self)@, code@, values_view(consts@)),
    {
        proof {
            reveal_with_fuel(crate::value::value_view, 2);
            lemma_values_view_index(consts@);
        }
        if self.ip > code.len() || code.len() - self.ip < 4 {
            return fault("operand runs past the end of the code");
        }
        let count = Bytecode::read_u32(code.as_slice(), self.ip);
        let kpos = self.ip + 4;
        let rem = code.len() - kpos;
        let ghost c = count as int;
        if count as usize > rem / 4 {
            assert(4 * c > rem) by (nonlinear_arith)
                requires
                    c > rem / 4,
                    rem >= 0,
            ;
            return fault("operand runs past the end of the code");
        }
        assert(4 * c <= rem) by (nonlinear_arith)
            requires
                c <= rem / 4,
                rem >= 0,
        ;
        let ghost s = old(self)@;
        self.ip = kpos + 4 * (count as usize);
        if self.stack_len() < count as usize {
            self.clear_stack();
            return error("Stack underflow");
        }
        let ghost s1 = self@;
        let vals = self.pop_many(count as usize);
        let ghost s2 = self@;
        let ghost vv = values_view(vals@);
        assert(s1 == s.with_ip(kpos + 4 * count));
        assert(s2 == popn(s1, count as nat).0);
        assert(vv == popn(s1, count as nat).1);
        proof {
            lemma_values_view_index(vals@);
        }
        let ghost whole = object_fields(code@, values_view(consts@), kpos as int, vv, 0, Seq::empty());
        let mut keys: Vec<String> = Vec::new();
        let mut i: usize = 0;
        while i < count as usize
            invariant
                i <= count,
                vals@.len() == count,
                vv == values_view(vals@),
                vv.len() == count,
                kpos + 4 * count <= code@.len(),
                keys@.len() == i,
                whole == object_fields(
                    code@,
                    values_view(consts@),
                    kpos as int,
                    vv,
                    i as nat,
                    fold_fields(keys@.map_values(|k: String| k@), vv, i as nat),
                ),
                values_view(consts@).len() == consts@.len(),
                forall|j: int| 0 <= j < consts@.len() ==> #[trigger] values_view(consts@)[j] == consts@[j]@,
                code@.len() <= usize::MAX,
                self@ == s2,
                s == old(self)@,
                s2 == popn(s1, count as nat).0,
                vv == popn(s1, count as nat).1,
                s1 == s.with_ip(kpos + 4 * count),
                s.ip + 4 == kpos,
                count == u32_at(code@, s.ip),
                s.stack.len() >= count,
                whole == object_fields(code@, values_view(consts@), kpos as int, vv, 0, Seq::empty()),
            decreases count - i,
        {
            assert(kpos + 4 * i + 4 <= code@.len()) by (nonlinear_arith)
                requires
                    i < count,
                    kpos + 4 * count <= code@.len(),
            ;
            let idx = Bytecode::read_u32(code.as_slice(), kpos + 4 * i);
            if idx as usize >= consts.len() {
                assert(whole == Err::<Fields, EventV>(bad_constant()));
                assert(build_object_spec(s, code@, values_view(consts@)) == (s2, bad_constant()));
                return fault("constant index out of range");
            }
            match &consts[idx as usize] {
                Value::String(k) => {
                    let ghost before = keys@;
                    keys.push(k.clone());
                    proof {
                        assert(keys@.map_values(|k: String| k@) =~= before.map_values(|k: String| k@).push(k@));
                        assert(keys@.map_values(|k: String| k@).take(i as int) =~= before.map_values(|k: String| k@));
                        assert(fold_fields(keys@.map_values(|k: String| k@), vv, (i + 1) as nat)
                            =~= insert_entry(fold_fields(before.map_values(|k: String| k@), vv, i as nat), k@, vv[i as int])) by {
                            lemma_fold_prefix(before.map_values(|k: String| k@), keys@.map_values(|k: String| k@), vv, i as nat);
                        }
                    }
                },
                _ => {
                    assert(whole == Err::<Fields, EventV>(EventV::Error("Object key must be a string constant"@)));
                    assert(build_object_spec(s, code@, values_view(consts@)) == (s2, EventV::Error("Object key must be a string constant"@)));
                    return error("Object key must be a string constant");
                },
            }
            i = i + 1;
        }
        let ghost kv = keys@.map_values(|k: String| k@);
        assert(whole == Ok::<Fields, EventV>(fold_fields(kv, vv, count as nat)));
        let h = self.heap.alloc_object();
        let mut j: usize = 0;
        while j < count as usize
            invariant
                j <= count,
                keys@.len() == count,
                vals@.len() == count,
                vv == values_view(vals@),
                vv.len() == count,
                kv == keys@.map_values(|k: String| k@),
                h < self@.heap.objects.len(),
                self@.heap.objects[h as int] == fold_fields(kv, vv, j as nat),
                forall|t: int| 0 <= t < vals@.len() ==> #[trigger] vv[t] == vals@[t]@,
                self@.stack == s.stack.take(s.stack.len() - count),
                self@.globals == s.globals,
                self@.frames == s.frames,
                self@.ip == kpos + 4 * count,
                self@.heap.arrays == s.heap.arrays,
                self@.heap.objects.len() == s.heap.objects.len() + 1,
                forall|t: int| 0 <= t < s.heap.objects.len() ==> self@.heap.objects[t] == s.heap.objects[t],
                h == s.heap.objects.len(),
            decreases count - j,
        {
            let k = keys[j].clone();
            let v = copy_value(&vals[j]);
            self.heap.object_insert(h, k, v);
            j = j + 1;
        }
        assert(self@.heap.objects =~= s.heap.objects.push(fold_fields(kv, vv, count as nat)));
        self.push(Value::Object(h));
        Event::Continue
    }

    pub fn op_object_get_const(&mut self, code: &Vec<u8>, consts: &Vec<Value>) -> (e: Event)
        ensures
            (final(self)@, e@) == object_get_const_spec(old(self)@, code@, values_view(consts@)),
    {
        match operand_u32(code, self.ip) {
            None => fault("operand runs past the end of the code"),
            Some(_) => {
                let key = Self::const_key(code, consts, self.ip);
                self.ip = self.ip + 4;
                match key {
                    Err(e) => e,
                    Ok(k) => match self.pop() {
                        None => error("Stack underflow"),
                        Some(obj) => match self.property_of(&obj, k.as_str()) {
                            Ok(v) => {
                                self.push(v);
                                Event::Continue
                            },
                            Err(e) => e,
                        },
                    },
                }
            },
        }
    }

    pub fn op_object_get(&mut self) -> (e: Event)
        ensures
            (final(self)@, e@) == object_get_spec(old(self)@),
    {
        match self.pop2() {
            None => error("Stack underflow"),
            Some((obj, key)) => match self.key_of(&key) {
                Err(e) => e,
                Ok(k) => match self.property_of(&obj, k.as_str()) {
                    Ok(v) => {
                        self.push(v);
                        Event::Continue
                    },
                    Err(e) => e,
                },
            },
        }
    }

    pub fn op_object_set(&mut self) -> (e: Event)
        ensures
            (final(self)@, e@) == object_set_spec(old(self)@),
    {
        proof {
            reveal_with_fuel(crate::value::value_view, 2);
        }
        match self.pop3() {
            None => error("Stack underflow"),
            Some((obj, key, value)) => match self.key_of(&key) {
                Err(e) => e,
                Ok(k) => match obj {
                    Value::Object(x) => {
                        if x >= self.heap.object_count() {
                            return fault("value refers to a heap slot that does not exist");
                        }
                        self.heap.object_insert(x, k, value);
                        Event::Continue
                    },
                    Value::Null => error("Cannot set property on null"),
                    _ => self.error_with("Expected object, found ", &obj),
                },
            },
        }
    }

    pub fn op_object_delete(&mut self) -> (e: Event)
        ensures
            (final(self)@, e@) == object_delete_spec(old(self)@),
    {
        proof {
            reveal_with_fuel(crate::value::value_view, 2);
        }
        match self.pop2() {
            None => error("Stack underflow"),
            Some((obj, key)) => match self.key_of(&key) {
                Err(e) => e,
                Ok(k) => match obj {
                    Value::Object(x) => {
                        if x >= self.heap.object_count() {
                            return fault("value refers to a heap slot that does not exist");
                        }
                        self.heap.object_remove(x, k.as_str());
                        Event::Continue
                    },
                    Value::Null => Event::Continue,
                    _ => self.error_with("Expected object, found ", &obj),
                },
            },
        }
    }

    fn get_or_create_step(&mut self, obj: Value, key: String) -> (e: Event)
        ensures
            (final(self)@, e@) == get_or_create_step(old(self)@, obj@, key@),
    {
        proof {
            reveal_with_fuel(crate::value::value_view, 2);
        }
        match obj {
            Value::Object(x) => {
                if x >= self.heap.object_count() {
                    return fault("value refers to a heap slot that does not exist");
                }
                match self.heap.object_get(x, key.as_str()) {
                    None | Some(Value::Null) => {
                        let n = self.heap.alloc_object();
                        self.heap.object_insert(x, key, Value::Object(n));
                        self.push(Value::Object(n));
                        Event::Continue
                    },
                    Some(Value::Object(y)) => {
                        self.push(Value::Object(y));
                        Event::Continue
                    },
                    Some(_) => {
                        let mut msg = "Cannot traverse through non-object property '".to_owned();
                        msg.append(key.as_str());
                        msg.append("'");
                        Event::Error(msg)
                    },
                }
            },
            Value::Null => error("Cannot set nested property on null"),
            _ => self.error_with("Expected object, found ", &obj),
        }
    }

    pub fn op_get_or_create_const(&mut self, code: &Vec<u8>, consts: &Vec<Value>) -> (e: Event)
        ensures
            (final(self)@, e@) == get_or_create_const_spec(old(self)@, code@, values_view(consts@)),
    {
        match operand_u32(code, self.ip) {
            None => fault("operand runs past the end of the code"),
            Some(_) => {
                let key = Self::const_key(code, consts, self.ip);
                self.ip = self.ip + 4;
                match key {
                    Err(e) => e,
                    Ok(k) => match self.pop() {
                        None => error("Stack underflow"),
                        Some(obj) => self.get_or_create_step(obj, k),
                    },
                }
            },
        }
    }

    pub fn op_get_or_create(&mut self) -> (e: Event)
        ensures
            (final(self)@, e@) == get_or_create_spec(old(self)@),
    {
        match self.pop2() {
            None => error("Stack underflow"),
            Some((obj, key)) => match self.key_of(&key) {
                Err(e) => e,
                Ok(k) => self.get_or_create_step(obj, k),
            },
        }
    }

    pub fn op_object_keys(&mut self) -> (e: Event)
        ensures
            (final(self)@, e@) == object_keys_spec(old(self)@),
    {
        proof {
            reveal_with_fuel(crate::value::value_view, 2);
        }
        match self.pop() {
            None => error("Stack underflow"),
            Some(Value::Object(x)) => {
                if x >= self.heap.object_count() {
                    return fault("value refers to a heap slot that does not exist");
                }
                let n = self.heap.object_len(x);
                let ghost fs = self@.heap.objects[x as int];
                let mut keys: Vec<Value> = Vec::new();
                let mut i: usize = 0;
                while i < n
                    invariant
                        i <= n,
                        n == fs.len(),
                        x < self@.heap.objects.len(),
                        fs == self@.heap.objects[x as int],
                        keys@.len() == i,
                        forall|j: int| 0 <= j < i ==> #[trigger] keys@[j]@ == ValueV::Str(fs[j].0),
                    decreases n - i,
                {
                    let (k, _) = self.heap.object_entry(x, i);
                    keys.push(Value::String(k));
                    i = i + 1;
                }
                proof {
                    lemma_values_view_index(keys@);
                    assert forall|j: int| 0 <= j < n implies values_view(keys@)[j] == key_values(fs)[j] by {
                        assert(keys@[j]@ == ValueV::Str(fs[j].0));
                    }
                    assert(values_view(keys@) =~= key_values(fs));
                }
                let h = self.heap.alloc_array(true, keys);
                self.push(Value::Array(h));
                Event::Continue
            },
            Some(Value::Null) => {
                let keys: Vec<Value> = Vec::new();
                proof {
                    assert(values_view(keys@) =~= Seq::<ValueV>::empty());
                }
                let h = self.heap.alloc_array(true, keys);
                self.push(Value::Array(h));
                Event::Continue
            },
            Some(other) => self.error_with("Expected object for keys(), found ", &other),
        }
    }
}

proof fn lemma_fold_prefix(k1: Seq<Seq<char>>, k2: Seq<Seq<char>>, vals: Seq<ValueV>, i: nat)
    requires
        k1.len() == i,
        k2.len() == i + 1,
        k2.take(i as int) == k1,
    ensures
        fold_fields(k2, vals, i + 1) == insert_entry(fold_fields(k1, vals, i), k2[i as int], vals[i as int]),
{
    lemma_fold_same(k1, k2, vals, i);
}

proof fn lemma_fold_same(k1: Seq<Seq<char>>, k2: Seq<Seq<char>>, vals: Seq<ValueV>, j: nat)
    requires
        j <= k1.len(),
        j <= k2.len(),
        forall|t: int| 0 <= t < j ==> k1[t] == k2[t],
    ensures
        fold_fields(k1, vals, j) == fold_fields(k2, vals, j),
    decreases j,
{
    if j > 0 {
        lemma_fold_same(k1, k2, vals, (j - 1) as nat);
    }
}

} // verus!
