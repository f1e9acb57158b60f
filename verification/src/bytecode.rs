//! Bytecode: instruction encoding and the constant pool.
use vstd::prelude::*;
use crate::value::{Value, ValueV, value_view, values_view};

verus! {

pub const OP_CONSTANT: u8 = 0;
pub const OP_LOAD_GLOBAL: u8 = 1;
pub const OP_STORE_GLOBAL: u8 = 2;
pub const OP_ADD: u8 = 3;
pub const OP_SUBTRACT: u8 = 4;
pub const OP_MULTIPLY: u8 = 5;
pub const OP_DIVIDE: u8 = 6;
pub const OP_EQUALS: u8 = 7;
pub const OP_NOT_EQUALS: u8 = 8;
pub const OP_GREATER: u8 = 9;
pub const OP_LESS: u8 = 10;
pub const OP_GREATER_EQUAL: u8 = 11;
pub const OP_LESS_EQUAL: u8 = 12;
pub const OP_AND: u8 = 13;
pub const OP_OR: u8 = 14;
pub const OP_NOT: u8 = 15;
pub const OP_PRINT: u8 = 16;
pub const OP_POP: u8 = 17;
pub const OP_JUMP: u8 = 18;
pub const OP_JUMP_IF_FALSE: u8 = 19;
pub const OP_INC_GLOBAL: u8 = 20;
pub const OP_ADD_GLOBAL: u8 = 21;
/// Load a global, compare it with a constant, and jump when it is not smaller.
pub const OP_LESS_CONST_JUMP_IF_FALSE: u8 = 22;
/// Increment a global and jump back while it is below a limit (a whole loop tick).
pub const OP_LOOP_INC_LESS: u8 = 23;
pub const OP_NULL: u8 = 24;
/// offset, number of parameters, number of captures, then `(kind, index)` per capture.
pub const OP_MAKE_CLOSURE: u8 = 25;
pub const OP_CALL_FUNCTION: u8 = 26;
pub const OP_RETURN: u8 = 27;
pub const OP_LOAD_LOCAL: u8 = 28;
pub const OP_STORE_LOCAL: u8 = 29;
/// Read input; the operand is a mask: bit 0 string, bit 1 integer, bit 2 float.
pub const OP_INPUT: u8 = 30;
pub const OP_LOAD_UPVALUE: u8 = 31;
pub const OP_STORE_UPVALUE: u8 = 32;
/// u32 element count, then a byte that is 1 for a mutable array.
pub const OP_BUILD_ARRAY: u8 = 33;
pub const OP_INDEX_GET: u8 = 34;
pub const OP_INDEX_SET: u8 = 35;
pub const OP_ARRAY_LEN: u8 = 36;
pub const OP_ARRAY_PUSH: u8 = 37;
pub const OP_ARRAY_POP: u8 = 38;
/// u32 field count, then the constant index of each key.
pub const OP_BUILD_OBJECT: u8 = 39;
pub const OP_OBJECT_GET_CONST: u8 = 40;
pub const OP_OBJECT_GET: u8 = 41;
pub const OP_OBJECT_SET: u8 = 42;
pub const OP_OBJECT_DELETE: u8 = 43;
pub const OP_OBJECT_GET_OR_CREATE_CONST: u8 = 44;
pub const OP_OBJECT_GET_OR_CREATE: u8 = 45;
pub const OP_OBJECT_KEYS: u8 = 46;
pub const OP_IS_ARRAY: u8 = 47;
pub const OP_IS_OBJECT: u8 = 48;
pub const OP_MEMBER_LENGTH: u8 = 49;

pub const CAPTURE_LOCAL: u8 = 0;
pub const CAPTURE_UPVALUE: u8 = 1;

// ---------------------------------------------------------------------------
// Little-endian operands.
// ---------------------------------------------------------------------------

/// The four little-endian bytes of a `u32`.
pub open spec fn u32_bytes(v: u32) -> Seq<u8> {
    seq![v as u8, (v >> 8u32) as u8, (v >> 16u32) as u8, (v >> 24u32) as u8]
}

/// The `u32` stored little-endian at `i`.
pub open spec fn u32_at(code: Seq<u8>, i: int) -> u32 {
    (code[i] as u32) | ((code[i + 1] as u32) << 8u32) | ((code[i + 2] as u32) << 16u32) | ((
    code[i + 3] as u32) << 24u32)
}

/// The eight little-endian bytes of a `u64`.
pub open spec fn u64_bytes(v: u64) -> Seq<u8> {
    seq![
        v as u8,
        (v >> 8u64) as u8,
        (v >> 16u64) as u8,
        (v >> 24u64) as u8,
        (v >> 32u64) as u8,
        (v >> 40u64) as u8,
        (v >> 48u64) as u8,
        (v >> 56u64) as u8,
    ]
}

pub open spec fn u64_at(code: Seq<u8>, i: int) -> u64 {
    (code[i] as u64) | ((code[i + 1] as u64) << 8u64) | ((code[i + 2] as u64) << 16u64) | ((code[i
        + 3] as u64) << 24u64) | ((code[i + 4] as u64) << 32u64) | ((code[i + 5] as u64) << 40u64)
        | ((code[i + 6] as u64) << 48u64) | ((code[i + 7] as u64) << 56u64)
}

/// The eight little-endian bytes of an `i64` (its two's complement bits).
pub open spec fn i64_bytes(v: i64) -> Seq<u8> {
    u64_bytes(v as u64)
}

pub open spec fn i64_at(code: Seq<u8>, i: int) -> i64 {
    u64_at(code, i) as i64
}

/// Reading back a written `u32` gives the value written.
pub proof fn lemma_u32_roundtrip(prefix: Seq<u8>, v: u32, suffix: Seq<u8>)
    ensures
        u32_at(prefix + u32_bytes(v) + suffix, prefix.len() as int) == v,
{
    let s = prefix + u32_bytes(v) + suffix;
    let i = prefix.len() as int;
    assert(s[i] == v as u8 && s[i + 1] == (v >> 8u32) as u8 && s[i + 2] == (v >> 16u32) as u8
        && s[i + 3] == (v >> 24u32) as u8);
    assert(((v as u8) as u32) | ((((v >> 8u32) as u8) as u32) << 8u32) | ((((v >> 16u32) as u8)
        as u32) << 16u32) | ((((v >> 24u32) as u8) as u32) << 24u32) == v) by (bit_vector);
}

/// Reading back a written `i64` gives the value written.
pub proof fn lemma_i64_roundtrip(prefix: Seq<u8>, v: i64, suffix: Seq<u8>)
    ensures
        i64_at(prefix + i64_bytes(v) + suffix, prefix.len() as int) == v,
{
    let s = prefix + i64_bytes(v) + suffix;
    let i = prefix.len() as int;
    let u = v as u64;
    assert(s[i] == u as u8 && s[i + 1] == (u >> 8u64) as u8 && s[i + 2] == (u >> 16u64) as u8
        && s[i + 3] == (u >> 24u64) as u8 && s[i + 4] == (u >> 32u64) as u8 && s[i + 5] == (u
        >> 40u64) as u8 && s[i + 6] == (u >> 48u64) as u8 && s[i + 7] == (u >> 56u64) as u8);
    assert(((u as u8) as u64) | ((((u >> 8u64) as u8) as u64) << 8u64) | ((((u >> 16u64) as u8)
        as u64) << 16u64) | ((((u >> 24u64) as u8) as u64) << 24u64) | ((((u >> 32u64) as u8)
        as u64) << 32u64) | ((((u >> 40u64) as u8) as u64) << 40u64) | ((((u >> 48u64) as u8)
        as u64) << 48u64) | ((((u >> 56u64) as u8) as u64) << 56u64) == u) by (bit_vector);
    assert((v as u64) as i64 == v) by (bit_vector);
}

// ---------------------------------------------------------------------------
// Constants.
// ---------------------------------------------------------------------------

/// Whether two values are the same constant: same variant and same contents (arrays and
/// objects by their heap index).
pub fn same_value(a: &Value, b: &Value) -> (r: bool)
    ensures
        r == (a@ == b@),
    decreases a,
{
    proof {
        reveal_with_fuel(value_view, 2);
    }
    match (a, b) {
        (Value::Number(x), Value::Number(y)) => *x == *y,
        (Value::String(x), Value::String(y)) => *x == *y,
        (Value::Boolean(x), Value::Boolean(y)) => *x == *y,
        (Value::Null, Value::Null) => true,
        (Value::Array(x), Value::Array(y)) => *x == *y,
        (Value::Object(x), Value::Object(y)) => *x == *y,
        (
            Value::Function { bytecode_offset: ao, num_params: ap, upvalues: au },
            Value::Function { bytecode_offset: bo, num_params: bp, upvalues: bu },
        ) => {
            if *ao != *bo || *ap != *bp || au.len() != bu.len() {
                assert(values_view(au@).len() == au@.len()) by {
                    crate::value::lemma_values_view_index(au@);
                }
                assert(values_view(bu@).len() == bu@.len()) by {
                    crate::value::lemma_values_view_index(bu@);
                }
                assert(a@ == value_view(*a));
                assert(a@->Function_upvalues == values_view(au@));
                assert(b@->Function_upvalues == values_view(bu@));
                return false;
            }
            proof {
                crate::value::lemma_values_view_index(au@);
                crate::value::lemma_values_view_index(bu@);
            }
            assert(a@->Function_upvalues == values_view(au@));
            assert(b@->Function_upvalues == values_view(bu@));
            let mut i: usize = 0;
            while i < au.len()
                invariant
                    i <= au.len(),
                    au.len() == bu.len(),
                    values_view(au@).len() == au@.len(),
                    values_view(bu@).len() == bu@.len(),
                    forall|j: int| 0 <= j < au@.len() ==> #[trigger] values_view(au@)[j] == value_view(au@[j]),
                    forall|j: int| 0 <= j < bu@.len() ==> #[trigger] values_view(bu@)[j] == value_view(bu@[j]),
                    forall|j: int| 0 <= j < i ==> values_view(au@)[j] == values_view(bu@)[j],
                    decreases_to!(*a => *au),
                    a@->Function_upvalues == values_view(au@),
                    b@->Function_upvalues == values_view(bu@),
                decreases au.len() - i,
            {
                proof {
                    assert(decreases_to!(*au => au@[i as int]));
                }
                if !same_value(&au[i], &bu[i]) {
                    assert(values_view(au@)[i as int] != values_view(bu@)[i as int]);
                    return false;
                }
                i = i + 1;
            }
            assert(values_view(au@) =~= values_view(bu@));
            true
        },
        _ => false,
    }
}

/// A compiled program: instructions, constants, and the number of global slots.
pub struct Bytecode {
    pub code: Vec<u8>,
    pub constants: Vec<Value>,
    pub num_globals: usize,
}

impl Bytecode {
    pub fn new() -> (b: Bytecode)
        ensures
            b.code@ == Seq::<u8>::empty(),
            b.constants@ == Seq::<Value>::empty(),
            b.num_globals == 0,
    {
        Bytecode { code: Vec::new(), constants: Vec::new(), num_globals: 0 }
    }

    /// Appends one byte and returns its position.
    pub fn emit_byte(&mut self, byte: u8) -> (pos: usize)
        ensures
            final(self).code@ == old(self).code@.push(byte),
            final(self).constants == old(self).constants,
            final(self).num_globals == old(self).num_globals,
            pos == old(self).code@.len(),
    {
        let pos = self.code.len();
        self.code.push(byte);
        pos
    }

    /// Appends a `u32` in little-endian order and returns the position of its first byte.
    pub fn emit_u32(&mut self, value: u32) -> (pos: usize)
        ensures
            final(self).code@ == old(self).code@ + u32_bytes(value),
            final(self).constants == old(self).constants,
            final(self).num_globals == old(self).num_globals,
            pos == old(self).code@.len(),
    {
        let pos = self.code.len();
        self.code.push(value as u8);
        self.code.push((value >> 8u32) as u8);
        self.code.push((value >> 16u32) as u8);
        self.code.push((value >> 24u32) as u8);
        assert(self.code@ =~= old(self).code@ + u32_bytes(value));
        pos
    }

    /// Appends an `i64` in little-endian order and returns the position of its first byte.
    pub fn emit_i64(&mut self, value: i64) -> (pos: usize)
        ensures
            final(self).code@ == old(self).code@ + i64_bytes(value),
            final(self).constants == old(self).constants,
            final(self).num_globals == old(self).num_globals,
            pos == old(self).code@.len(),
    {
        let pos = self.code.len();
        let u = value as u64;
        self.code.push(u as u8);
        self.code.push((u >> 8u64) as u8);
        self.code.push((u >> 16u64) as u8);
        self.code.push((u >> 24u64) as u8);
        self.code.push((u >> 32u64) as u8);
        self.code.push((u >> 40u64) as u8);
        self.code.push((u >> 48u64) as u8);
        self.code.push((u >> 56u64) as u8);
        assert(self.code@ =~= old(self).code@ + i64_bytes(value));
        pos
    }

    /// The `u32` stored at `ip`.
    pub fn read_u32(code: &[u8], ip: usize) -> (r: u32)
        requires
            ip + 4 <= code@.len(),
        ensures
            r == u32_at(code@, ip as int),
    {
        (code[ip] as u32) | ((code[ip + 1] as u32) << 8u32) | ((code[ip + 2] as u32) << 16u32) | ((
        code[ip + 3] as u32) << 24u32)
    }

    /// The `i64` stored at `ip`.
    pub fn read_i64(code: &[u8], ip: usize) -> (r: i64)
        requires
            ip + 8 <= code@.len(),
        ensures
            r == i64_at(code@, ip as int),
    {
        let u: u64 = (code[ip] as u64) | ((code[ip + 1] as u64) << 8u64) | ((code[ip + 2] as u64)
            << 16u64) | ((code[ip + 3] as u64) << 24u64) | ((code[ip + 4] as u64) << 32u64) | ((
        code[ip + 5] as u64) << 40u64) | ((code[ip + 6] as u64) << 48u64) | ((code[ip + 7] as u64)
            << 56u64);
        u as i64
    }

    /// Overwrites the four bytes at `pos` with `value` in little-endian order.
    pub fn patch_u32(&mut self, pos: usize, value: u32)
        requires
            pos + 4 <= old(self).code@.len(),
        ensures
            final(self).code@ == old(self).code@.subrange(0, pos as int) + u32_bytes(value)
                + old(self).code@.subrange(pos + 4, old(self).code@.len() as int),
            final(self).constants == old(self).constants,
            final(self).num_globals == old(self).num_globals,
    {
        let n = self.code.len();
        assert(pos + 4 <= n);
        let p1 = pos + 1;
        let p2 = pos + 2;
        let p3 = pos + 3;
        self.code.set(pos, value as u8);
        self.code.set(p1, (value >> 8u32) as u8);
        self.code.set(p2, (value >> 16u32) as u8);
        self.code.set(p3, (value >> 24u32) as u8);
        assert(self.code@ =~= old(self).code@.subrange(0, pos as int) + u32_bytes(value)
            + old(self).code@.subrange(pos + 4, old(self).code@.len() as int));
    }

    /// The index of a constant equal to `value`, adding it at the end if there is none.
    /// The index is reported as a `u32` operand, wrapping past `u32::MAX`.
    pub fn add_constant(&mut self, value: Value) -> (idx: u32)
        ensures
            final(self).code == old(self).code,
            final(self).num_globals == old(self).num_globals,
            ({
                let pool = values_view(old(self).constants@);
                match first_index(pool, value@) {
                    Some(i) => final(self).constants@ == old(self).constants@ && idx == i as u32,
                    None => values_view(final(self).constants@) == pool.push(value@)
                        && final(self).constants@ == old(self).constants@.push(value)
                        && idx == old(self).constants@.len() as u32,
                }
            }),
    {
        let ghost pool = values_view(self.constants@);
        proof {
            crate::value::lemma_values_view_index(self.constants@);
        }
        let mut i: usize = 0;
        while i < self.constants.len()
            invariant
                i <= self.constants.len(),
                self.constants == old(self).constants,
                pool == values_view(self.constants@),
                pool.len() == self.constants@.len(),
                forall|j: int| 0 <= j < pool.len() ==> #[trigger] pool[j] == value_view(self.constants@[j]),
                forall|j: int| 0 <= j < i ==> pool[j] != value@,
            decreases self.constants.len() - i,
        {
            if same_value(&self.constants[i], &value) {
                proof {
                    lemma_first_index(pool, value@, i as int);
                }
                let found = #[verifier::truncate] (i as u32);
                return found;
            }
            i = i + 1;
        }
        proof {
            lemma_first_index_none(pool, value@);
        }
        let idx = #[verifier::truncate] (self.constants.len() as u32);
        self.constants.push(value);
        proof {
            crate::value::lemma_values_view_push(old(self).constants@, value);
        }
        idx
    }
}

/// The first position of `v` in `s`.
pub open spec fn first_index(s: Seq<ValueV>, v: ValueV) -> Option<int> {
    if exists|i: int| 0 <= i < s.len() && s[i] == v {
        Some(choose|i: int| 0 <= i < s.len() && s[i] == v && forall|j: int| 0 <= j < i ==> s[j] != v)
    } else {
        None
    }
}

proof fn lemma_first_index(s: Seq<ValueV>, v: ValueV, i: int)
    requires
        0 <= i < s.len(),
        s[i] == v,
        forall|j: int| 0 <= j < i ==> s[j] != v,
    ensures
        first_index(s, v) == Some(i),
{
    assert(exists|k: int| 0 <= k < s.len() && s[k] == v);
    let k = choose|k: int| 0 <= k < s.len() && s[k] == v && forall|j: int| 0 <= j < k ==> s[j] != v;
    assert(0 <= k < s.len() && s[k] == v && forall|j: int| 0 <= j < k ==> s[j] != v);
    if k < i {
        assert(s[k] != v);
    } else if k > i {
        assert(s[i] != v);
    }
}

proof fn lemma_first_index_none(s: Seq<ValueV>, v: ValueV)
    requires
        forall|j: int| 0 <= j < s.len() ==> s[j] != v,
    ensures
        first_index(s, v) is None,
{
}

} // verus!
