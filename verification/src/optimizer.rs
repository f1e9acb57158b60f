//! Peephole clean-up of emitted bytecode.
//!
//! The pass reads the code instruction by instruction. It drops a load of a plain constant
//! that is popped at once, and a jump to the very next instruction. Every position that an
//! instruction holds (a jump target or a function's entry) is moved back by the bytes
//! dropped before it, so that it names the same instruction afterwards.
use vstd::prelude::*;
use crate::bytecode::{Bytecode, OP_CONSTANT, OP_JUMP, OP_POP, OP_LOAD_GLOBAL, OP_STORE_GLOBAL,
    OP_JUMP_IF_FALSE, OP_INC_GLOBAL, OP_CALL_FUNCTION, OP_LOAD_LOCAL, OP_STORE_LOCAL,
    OP_LOAD_UPVALUE, OP_STORE_UPVALUE, OP_OBJECT_GET_CONST, OP_OBJECT_GET_OR_CREATE_CONST,
    OP_NULL, OP_RETURN, OP_ADD_GLOBAL, OP_LOOP_INC_LESS, OP_LESS_CONST_JUMP_IF_FALSE, OP_INPUT,
    OP_BUILD_ARRAY, OP_MAKE_CLOSURE, OP_BUILD_OBJECT, u32_at, u32_bytes};
use crate::value::{Value, ValueV, values_view, lemma_values_view_index};

verus! {

// ---------------------------------------------------------------------------
// Instructions.
// ---------------------------------------------------------------------------

/// An opcode whose one operand is a `u32`.
pub open spec fn has_u32_operand(op: u8) -> bool {
    op == OP_CONSTANT || op == OP_LOAD_GLOBAL || op == OP_STORE_GLOBAL || op == OP_JUMP || op
        == OP_JUMP_IF_FALSE || op == OP_INC_GLOBAL || op == OP_CALL_FUNCTION || op == OP_LOAD_LOCAL
        || op == OP_STORE_LOCAL || op == OP_LOAD_UPVALUE || op == OP_STORE_UPVALUE || op
        == OP_OBJECT_GET_CONST || op == OP_OBJECT_GET_OR_CREATE_CONST
}

/// An opcode without operands: the arithmetic, comparison and logic operators (3 to 17),
/// `NULL`, `RETURN`, and the heap operations that take their operands from the stack.
pub open spec fn has_no_operand(op: u8) -> bool {
    (3 <= op <= 17) || op == OP_NULL || op == OP_RETURN || (34 <= op <= 38) || (41 <= op <= 43) || (
    45 <= op <= 49)
}

/// The length in bytes of the instruction at `i`, opcode and operands together; 0 when
/// `code[i]` is no opcode, or the operand count of `MAKE_CLOSURE` or `BUILD_OBJECT` does not
/// fit in the code.
#[verifier::opaque]
pub open spec fn instr_len(code: Seq<u8>, i: int) -> int {
    let op = code[i];
    if has_u32_operand(op) {
        5
    } else if has_no_operand(op) {
        1
    } else if op == OP_ADD_GLOBAL || op == OP_LOOP_INC_LESS {
        13
    } else if op == OP_LESS_CONST_JUMP_IF_FALSE {
        17
    } else if op == OP_INPUT {
        2
    } else if op == OP_BUILD_ARRAY {
        6
    } else if op == OP_MAKE_CLOSURE {
        if i + 13 <= code.len() {
            13 + 5 * u32_at(code, i + 9)
        } else {
            0
        }
    } else if op == OP_BUILD_OBJECT {
        if i + 5 <= code.len() {
            5 + 4 * u32_at(code, i + 1)
        } else {
            0
        }
    } else {
        0
    }
}

/// Where an instruction holds an absolute code position (a jump target, or a function's
/// entry for `MAKE_CLOSURE`), as an offset from its opcode; 0 when it holds none.
pub open spec fn target_offset(op: u8) -> int {
    if op == OP_JUMP || op == OP_JUMP_IF_FALSE || op == OP_MAKE_CLOSURE {
        1
    } else if op == OP_LESS_CONST_JUMP_IF_FALSE {
        13
    } else {
        0
    }
}

/// The positions where the instructions start, reading from `i` to the end of the code;
/// `None` when some byte is no opcode or an instruction runs past the end.
pub open spec fn decode_from(code: Seq<u8>, i: int) -> Option<Seq<int>>
    decreases code.len() - i,
{
    if i < 0 || i > code.len() {
        None
    } else if i == code.len() {
        Some(Seq::empty())
    } else {
        let n = instr_len(code, i);
        if n <= 0 || i + n > code.len() {
            None
        } else {
            match decode_from(code, i + n) {
                Some(r) => Some(seq![i] + r),
                None => None,
            }
        }
    }
}

// ---------------------------------------------------------------------------
// What the pass removes, and where positions go.
// ---------------------------------------------------------------------------

/// Whether a constant can be dropped when nothing uses it.
pub open spec fn is_plain_literal(v: ValueV) -> bool {
    v is Number || v is Boolean || v is Null || v is Str
}

/// The position held by the instruction starting at `s`.
pub open spec fn target_of(code: Seq<u8>, s: int) -> int {
    u32_at(code, s + target_offset(code[s])) as int
}

/// Whether some instruction holds position `p`.
pub open spec fn targeted(code: Seq<u8>, ss: Seq<int>, p: int) -> bool {
    exists|j: int|
        0 <= j < ss.len() && target_offset(code[ss[j]]) > 0 && #[trigger] target_of(code, ss[j]) == p
}

/// Instruction `k` loads a plain constant and instruction `k + 1` pops it, and nothing jumps
/// to the pop.
pub open spec fn dead_pair(code: Seq<u8>, consts: Seq<ValueV>, ss: Seq<int>, k: int) -> bool {
    &&& 0 <= k
    &&& k + 1 < ss.len()
    &&& code[ss[k]] == OP_CONSTANT
    &&& code[ss[k + 1]] == OP_POP
    &&& (u32_at(code, ss[k] + 1) as int) < consts.len()
    &&& is_plain_literal(consts[u32_at(code, ss[k] + 1) as int])
    &&& !targeted(code, ss, ss[k + 1])
}

/// The instruction starting at `s` jumps to the instruction right after it.
pub open spec fn jump_to_next(code: Seq<u8>, s: int) -> bool {
    code[s] == OP_JUMP && u32_at(code, s + 1) as int == s + 5
}

/// Whether instruction `k` is dropped.
pub open spec fn dropped(code: Seq<u8>, consts: Seq<ValueV>, ss: Seq<int>, k: int) -> bool {
    dead_pair(code, consts, ss, k) || dead_pair(code, consts, ss, k - 1) || jump_to_next(code, ss[k])
}

/// The bytes dropped among the first `k` instructions that start before position `t`.
pub open spec fn dropped_before(code: Seq<u8>, consts: Seq<ValueV>, ss: Seq<int>, t: int, k: int) -> int
    decreases k,
{
    if k <= 0 {
        0
    } else {
        dropped_before(code, consts, ss, t, k - 1) + if ss[k - 1] < t && dropped(code, consts, ss, k - 1) {
            instr_len(code, ss[k - 1])
        } else {
            0
        }
    }
}

/// Where position `t` lies after the pass: the bytes dropped before it are taken off.
pub open spec fn new_position(code: Seq<u8>, consts: Seq<ValueV>, ss: Seq<int>, t: int) -> int {
    let r = dropped_before(code, consts, ss, t, ss.len() as int);
    if r > t {
        0
    } else {
        t - r
    }
}

/// Instruction `k` as the pass writes it: its own bytes, with the position it holds moved.
pub open spec fn instr_out(code: Seq<u8>, consts: Seq<ValueV>, ss: Seq<int>, k: int) -> Seq<u8> {
    let s = ss[k];
    let n = instr_len(code, s);
    let off = target_offset(code[s]);
    if off > 0 {
        code.subrange(s, s + off) + u32_bytes(new_position(code, consts, ss, target_of(code, s)) as u32)
            + code.subrange(s + off + 4, s + n)
    } else {
        code.subrange(s, s + n)
    }
}

/// The instructions from the `k`-th on, each dropped or written out.
pub open spec fn emit_from(code: Seq<u8>, consts: Seq<ValueV>, ss: Seq<int>, k: int) -> Seq<u8>
    decreases ss.len() - k,
{
    if k < 0 || k >= ss.len() {
        Seq::empty()
    } else {
        (if dropped(code, consts, ss, k) {
            Seq::empty()
        } else {
            instr_out(code, consts, ss, k)
        }) + emit_from(code, consts, ss, k + 1)
    }
}

/// Whether the constant pool holds a function value, whose entry position the pass would
/// have to move too.
pub open spec fn pool_has_function(consts: Seq<ValueV>) -> bool {
    exists|i: int| 0 <= i < consts.len() && #[trigger] consts[i] is Function
}

/// The code after the pass. Code that does not read as a sequence of instructions, and
/// programs with a function in the constant pool, are left as they are.
pub open spec fn optimized(code: Seq<u8>, consts: Seq<ValueV>) -> Seq<u8> {
    if pool_has_function(consts) {
        code
    } else {
        match decode_from(code, 0) {
            Some(ss) => emit_from(code, consts, ss, 0),
            None => code,
        }
    }
}

// ---------------------------------------------------------------------------
// Where the kept instructions go.
// ---------------------------------------------------------------------------

/// The bytes dropped among the first `k` instructions.
pub open spec fn dropped_upto(code: Seq<u8>, consts: Seq<ValueV>, ss: Seq<int>, k: int) -> int
    decreases k,
{
    if k <= 0 {
        0
    } else {
        dropped_upto(code, consts, ss, k - 1) + if dropped(code, consts, ss, k - 1) {
            instr_len(code, ss[k - 1])
        } else {
            0
        }
    }
}

/// What the pass writes for instruction `k`: nothing when it is dropped.
pub open spec fn piece(code: Seq<u8>, consts: Seq<ValueV>, ss: Seq<int>, k: int) -> Seq<u8> {
    if dropped(code, consts, ss, k) {
        Seq::empty()
    } else {
        instr_out(code, consts, ss, k)
    }
}

/// The boundaries that `decode_from` finds: in increasing order, each instruction ending
/// where the next begins, and the last one at the end of the code.
proof fn lemma_decode_from(code: Seq<u8>, i: int)
    requires
        decode_from(code, i) is Some,
    ensures
        ({
            let r = decode_from(code, i)->0;
            &&& 0 <= i <= code.len()
            &&& r.len() > 0 ==> r[0] == i
            &&& r.len() == 0 ==> i == code.len()
            &&& forall|j: int| 0 <= j < r.len() ==> i <= #[trigger] r[j]
            &&& forall|a: int, b: int| 0 <= a < b < r.len() ==> #[trigger] r[a] < #[trigger] r[b]
            &&& forall|j: int|
                0 <= j < r.len() ==> 0 < #[trigger] instr_len(code, r[j]) && r[j] + instr_len(code, r[j])
                    == if j + 1 < r.len() {
                    r[j + 1]
                } else {
                    code.len() as int
                }
        }),
    decreases code.len() - i,
{
    if i < code.len() {
        let n = instr_len(code, i);
        lemma_decode_from(code, i + n);
        let r = decode_from(code, i)->0;
        let r2 = decode_from(code, i + n)->0;
        assert(r == seq![i] + r2);
        assert forall|j: int| 0 <= j < r.len() implies 0 < #[trigger] instr_len(code, r[j]) && r[j]
            + instr_len(code, r[j]) == if j + 1 < r.len() {
            r[j + 1]
        } else {
            code.len() as int
        } by {
            if j > 0 {
                assert(r[j] == r2[j - 1]);
                if j + 1 < r.len() {
                    assert(r[j + 1] == r2[j]);
                }
            } else if r2.len() > 0 {
                assert(r[1] == r2[0]);
            }
        }
        assert forall|a: int, b: int| 0 <= a < b < r.len() implies #[trigger] r[a] < #[trigger] r[b] by {
            assert(r[b] == r2[b - 1]);
            if a > 0 {
                assert(r[a] == r2[a - 1]);
            }
        }
        assert forall|j: int| 0 <= j < r.len() implies i <= #[trigger] r[j] by {
            if j > 0 {
                assert(r[j] == r2[j - 1]);
            }
        }
    }
}

/// Counting the dropped bytes before position `ss[k]` counts those of the first `k`
/// instructions.
proof fn lemma_dropped_before(code: Seq<u8>, consts: Seq<ValueV>, ss: Seq<int>, t: int, k: int, m: int)
    requires
        0 <= m <= ss.len(),
        0 <= k <= ss.len(),
        forall|j: int| 0 <= j < ss.len() ==> (#[trigger] ss[j] < t <==> j < k),
    ensures
        dropped_before(code, consts, ss, t, m) == dropped_upto(code, consts, ss, if m < k { m } else { k }),
    decreases m,
{
    if m > 0 {
        lemma_dropped_before(code, consts, ss, t, k, m - 1);
    }
}

proof fn lemma_piece_len(code: Seq<u8>, consts: Seq<ValueV>, ss: Seq<int>, k: int)
    requires
        0 <= k < ss.len(),
        0 <= ss[k],
        0 < instr_len(code, ss[k]),
        ss[k] + instr_len(code, ss[k]) <= code.len(),
    ensures
        piece(code, consts, ss, k).len() == if dropped(code, consts, ss, k) {
            0
        } else {
            instr_len(code, ss[k])
        },
{
    reveal(instr_len);
}

proof fn lemma_emit_split(code: Seq<u8>, consts: Seq<ValueV>, ss: Seq<int>, k: int)
    requires
        decode_from(code, 0) == Some(ss),
        0 <= k <= ss.len(),
    ensures
        ({
            let out = emit_from(code, consts, ss, 0);
            let at = (if k < ss.len() { ss[k] } else { code.len() as int }) - dropped_upto(code, consts, ss, k);
            &&& 0 <= at <= out.len()
            &&& out == out.take(at) + emit_from(code, consts, ss, k)
        }),
    decreases k,
{
    lemma_decode_from(code, 0);
    lemma_dropped_upto_bound(code, consts, ss, k);
    let out = emit_from(code, consts, ss, 0);
    if k == 0 {
        assert(out.take(0) + out =~= out);
    } else {
        lemma_emit_split(code, consts, ss, k - 1);
        let j = k - 1;
        lemma_piece_len(code, consts, ss, j);
        let at0 = ss[j] - dropped_upto(code, consts, ss, j);
        let at = (if k < ss.len() { ss[k] } else { code.len() as int }) - dropped_upto(code, consts, ss, k);
        assert(emit_from(code, consts, ss, j) == piece(code, consts, ss, j) + emit_from(code, consts, ss, k));
        assert(at == at0 + piece(code, consts, ss, j).len());
        assert(out.take(at) =~= out.take(at0) + piece(code, consts, ss, j));
        assert(out =~= out.take(at) + emit_from(code, consts, ss, k));
    }
}

/// The pass keeps instruction boundaries and jump targets: each instruction it keeps is
/// written, with the position it holds moved by `new_position`, at `new_position` of where it
/// stood. So a jump to a kept instruction lands on that instruction after the pass.
pub proof fn law_optimized_keeps_instructions(code: Seq<u8>, consts: Seq<ValueV>, k: int)
    requires
        !pool_has_function(consts),
        decode_from(code, 0) is Some,
        0 <= k < decode_from(code, 0)->0.len(),
        !dropped(code, consts, decode_from(code, 0)->0, k),
    ensures
        ({
            let ss = decode_from(code, 0)->0;
            let p = new_position(code, consts, ss, ss[k]);
            let out = optimized(code, consts);
            &&& p == ss[k] - dropped_upto(code, consts, ss, k)
            &&& p + instr_len(code, ss[k]) <= out.len()
            &&& out.subrange(p, p + instr_len(code, ss[k])) == instr_out(code, consts, ss, k)
        }),
{
    let ss = decode_from(code, 0)->0;
    lemma_decode_from(code, 0);
    lemma_emit_split(code, consts, ss, k);
    lemma_dropped_before(code, consts, ss, ss[k], k, ss.len() as int);
    lemma_dropped_upto_bound(code, consts, ss, k);
    lemma_piece_len(code, consts, ss, k);
    let out = emit_from(code, consts, ss, 0);
    let p = ss[k] - dropped_upto(code, consts, ss, k);
    let n = instr_len(code, ss[k]);
    assert(emit_from(code, consts, ss, k) == instr_out(code, consts, ss, k) + emit_from(code, consts, ss, k + 1));
    assert(out.subrange(p, p + n) =~= instr_out(code, consts, ss, k));
}

proof fn lemma_dropped_upto_bound(code: Seq<u8>, consts: Seq<ValueV>, ss: Seq<int>, k: int)
    requires
        decode_from(code, 0) == Some(ss),
        0 <= k <= ss.len(),
    ensures
        0 <= dropped_upto(code, consts, ss, k) <= if k < ss.len() {
            ss[k]
        } else {
            code.len() as int
        },
    decreases k,
{
    lemma_decode_from(code, 0);
    if k > 0 {
        lemma_dropped_upto_bound(code, consts, ss, k - 1);
        assert(0 < instr_len(code, ss[k - 1]));
    }
}

// ---------------------------------------------------------------------------
// The pass.
// ---------------------------------------------------------------------------

pub open spec fn ints(v: Seq<usize>) -> Seq<int> {
    v.map_values(|x: usize| x as int)
}

/// The instruction boundaries as found: starts, lengths, each instruction ending where the
/// next begins and the last one at the end of the code.
pub open spec fn well_decoded(code: Seq<u8>, st: Seq<usize>, ln: Seq<usize>) -> bool {
    &&& st.len() == ln.len()
    &&& st.len() > 0 ==> st[0] == 0
    &&& forall|j: int| 0 <= j < st.len() ==> #[trigger] ln[j] == instr_len(code, st[j] as int)
    &&& forall|j: int|
        #![trigger ln[j]]
        0 <= j < st.len() ==> st[j] + ln[j] == if j + 1 < st.len() {
            st[j + 1] as int
        } else {
            code.len() as int
        }
    &&& forall|j: int| 0 <= j < st.len() ==> 0 < #[trigger] ln[j]
    &&& forall|j: int| 0 <= j < st.len() ==> st[j] + #[trigger] ln[j] <= code.len()
}

/// An instruction with one `u32` operand is five bytes long.
pub proof fn lemma_jump_len(code: Seq<u8>, i: int)
    requires
        0 <= i < code.len(),
        has_u32_operand(code[i]),
    ensures
        instr_len(code, i) == 5,
{
    reveal(instr_len);
}

fn instr_len_at(code: &Vec<u8>, i: usize) -> (n: u64)
    requires
        i < code@.len(),
    ensures
        n as int == instr_len(code@, i as int),
{
    reveal(instr_len);
    let op = code[i];
    if op == OP_CONSTANT || op == OP_LOAD_GLOBAL || op == OP_STORE_GLOBAL || op == OP_JUMP || op
        == OP_JUMP_IF_FALSE || op == OP_INC_GLOBAL || op == OP_CALL_FUNCTION || op == OP_LOAD_LOCAL
        || op == OP_STORE_LOCAL || op == OP_LOAD_UPVALUE || op == OP_STORE_UPVALUE || op
        == OP_OBJECT_GET_CONST || op == OP_OBJECT_GET_OR_CREATE_CONST {
        5
    } else if (3 <= op && op <= 17) || op == OP_NULL || op == OP_RETURN || (34 <= op && op <= 38)
        || (41 <= op && op <= 43) || (45 <= op && op <= 49) {
        1
    } else if op == OP_ADD_GLOBAL || op == OP_LOOP_INC_LESS {
        13
    } else if op == OP_LESS_CONST_JUMP_IF_FALSE {
        17
    } else if op == OP_INPUT {
        2
    } else if op == OP_BUILD_ARRAY {
        6
    } else if op == OP_MAKE_CLOSURE {
        if code.len() - i >= 13 {
            13 + 5 * (Bytecode::read_u32(code.as_slice(), i + 9) as u64)
        } else {
            0
        }
    } else if op == OP_BUILD_OBJECT {
        if code.len() - i >= 5 {
            5 + 4 * (Bytecode::read_u32(code.as_slice(), i + 1) as u64)
        } else {
            0
        }
    } else {
        0
    }
}

/// Reads the instruction boundaries (see `decode_from`).
fn decode(code: &Vec<u8>) -> (r: Option<(Vec<usize>, Vec<usize>)>)
    ensures
        match (r, decode_from(code@, 0)) {
            (Some((st, ln)), Some(ss)) => ints(st@) == ss && well_decoded(code@, st@, ln@),
            (None, None) => true,
            _ => false,
        },
{
    let mut st: Vec<usize> = Vec::new();
    let mut ln: Vec<usize> = Vec::new();
    let mut i: usize = 0;
    assert(ints(st@) =~= Seq::<int>::empty());
    proof {
        match decode_from(code@, 0) {
            Some(r) => {
                assert(Seq::<int>::empty() + r =~= r);
            },
            None => {},
        }
    }
    while i < code.len()
        invariant
            i <= code@.len(),
            st@.len() == ln@.len(),
            match decode_from(code@, i as int) {
                Some(r) => decode_from(code@, 0) == Some(ints(st@) + r),
                None => decode_from(code@, 0) is None,
            },
            st@.len() > 0 ==> st@[0] == 0,
            st@.len() == 0 ==> i == 0,
            forall|j: int| 0 <= j < st@.len() ==> #[trigger] ln@[j] == instr_len(code@, st@[j] as int),
            forall|j: int|
                #![trigger ln@[j]]
                0 <= j < st@.len() ==> st@[j] + ln@[j] == if j + 1 < st@.len() {
                    st@[j + 1] as int
                } else {
                    i as int
                },
            forall|j: int| 0 <= j < st@.len() ==> 0 < #[trigger] ln@[j],
            forall|j: int| 0 <= j < st@.len() ==> st@[j] + #[trigger] ln@[j] <= i,
        decreases code@.len() - i,
    {
        let n = instr_len_at(code, i);
        if n == 0 || n > (code.len() - i) as u64 {
            return None;
        }
        let ghost before = st@;
        proof {
            let rest = decode_from(code@, i + n);
            match rest {
                Some(r) => {
                    assert(ints(before.push(i)) =~= ints(before).push(i as int));
                    assert(ints(before) + (seq![i as int] + r) =~= ints(before).push(i as int) + r);
                },
                None => {},
            }
        }
        st.push(i);
        ln.push(n as usize);
        i = i + n as usize;
    }
    proof {
        assert(ints(st@) + Seq::<int>::empty() =~= ints(st@));
    }
    Some((st, ln))
}

/// Whether the value is a plain literal.
fn plain(v: &Value) -> (r: bool)
    ensures
        r == is_plain_literal(v@),
{
    match v {
        Value::Number(_) | Value::Boolean(_) | Value::Null | Value::String(_) => true,
        _ => false,
    }
}

/// The position held by the instruction at `s`.
fn target_at(code: &Vec<u8>, s: usize, n: usize) -> (t: u32)
    requires
        s < code@.len(),
        0 < n,
        s + n <= code@.len(),
        n == instr_len(code@, s as int),
        target_offset(code@[s as int]) > 0,
    ensures
        t as int == target_of(code@, s as int),
        target_offset(code@[s as int]) + 4 <= n,
{
    let _len: usize = code.len();
    reveal(instr_len);
    let op = code[s];
    if op == OP_LESS_CONST_JUMP_IF_FALSE {
        assert(n == 17);
        Bytecode::read_u32(code.as_slice(), s + 13)
    } else {
        assert(op == OP_JUMP || op == OP_JUMP_IF_FALSE || op == OP_MAKE_CLOSURE);
        assert(n >= 5);
        Bytecode::read_u32(code.as_slice(), s + 1)
    }
}

fn holds_target(code: &Vec<u8>, s: usize) -> (r: bool)
    requires
        s < code@.len(),
    ensures
        r == (target_offset(code@[s as int]) > 0),
{
    let op = code[s];
    op == OP_JUMP || op == OP_JUMP_IF_FALSE || op == OP_MAKE_CLOSURE || op == OP_LESS_CONST_JUMP_IF_FALSE
}

/// Whether some instruction holds position `p` (see `targeted`).
fn is_targeted(code: &Vec<u8>, st: &Vec<usize>, ln: &Vec<usize>, p: usize) -> (r: bool)
    requires
        well_decoded(code@, st@, ln@),
    ensures
        r == targeted(code@, ints(st@), p as int),
{
    let ghost ss = ints(st@);
    let mut j: usize = 0;
    while j < st.len()
        invariant
            j <= st@.len(),
            well_decoded(code@, st@, ln@),
            ss == ints(st@),
            forall|k: int|
                0 <= k < j ==> !(target_offset(code@[ss[k]]) > 0 && #[trigger] target_of(code@, ss[k])
                    == p as int),
        decreases st@.len() - j,
    {
        proof {
            assert(st@[j as int] + ln@[j as int] <= code@.len());
            assert(ss[j as int] == st@[j as int] as int);
        }
        if holds_target(code, st[j]) {
            let t = target_at(code, st[j], ln[j]);
            if t as usize == p {
                return true;
            }
        }
        j = j + 1;
    }
    proof {
        if targeted(code@, ss, p as int) {
            let k = choose|k: int|
                0 <= k < ss.len() && target_offset(code@[ss[k]]) > 0 && #[trigger] target_of(code@, ss[k])
                    == p as int;
            assert(target_of(code@, ss[k]) == p as int);
        }
    }
    false
}

fn is_dead_pair(code: &Vec<u8>, consts: &Vec<Value>, st: &Vec<usize>, ln: &Vec<usize>, k: usize) -> (r: bool)
    requires
        well_decoded(code@, st@, ln@),
        k < st@.len(),
    ensures
        r == dead_pair(code@, values_view(consts@), ints(st@), k as int),
{
    let _len: usize = code.len();
    let _count: usize = st.len();
    proof {
        lemma_values_view_index(consts@);
        assert(st@[k as int] + ln@[k as int] <= code@.len());
    }
    if k + 1 >= st.len() {
        return false;
    }
    let s = st[k];
    proof {
        assert(0 < ln@[k + 1] && st@[k + 1] + ln@[k + 1] <= code@.len());
    }
    if code[s] != OP_CONSTANT || code[st[k + 1]] != OP_POP {
        return false;
    }
    proof {
        lemma_jump_len(code@, s as int);
    }
    let idx = Bytecode::read_u32(code.as_slice(), s + 1) as usize;
    if idx >= consts.len() || !plain(&consts[idx]) {
        return false;
    }
    !is_targeted(code, st, ln, st[k + 1])
}

fn is_dropped(code: &Vec<u8>, consts: &Vec<Value>, st: &Vec<usize>, ln: &Vec<usize>, k: usize) -> (r: bool)
    requires
        well_decoded(code@, st@, ln@),
        k < st@.len(),
    ensures
        r == dropped(code@, values_view(consts@), ints(st@), k as int),
{
    let _len: usize = code.len();
    let _count: usize = st.len();
    proof {
        assert(st@[k as int] + ln@[k as int] <= code@.len());
    }
    let s = st[k];
    let mut jumps_next = false;
    if code[s] == OP_JUMP {
        proof {
            lemma_jump_len(code@, s as int);
        }
        jumps_next = Bytecode::read_u32(code.as_slice(), s + 1) as usize == s + 5;
    }
    is_dead_pair(code, consts, st, ln, k) || (k > 0 && is_dead_pair(code, consts, st, ln, k - 1)) || jumps_next
}

/// Where position `t` lies after the pass (see `new_position`).
fn moved(code: &Vec<u8>, consts: &Vec<Value>, st: &Vec<usize>, ln: &Vec<usize>, drop: &Vec<bool>, t: u32) -> (r: u32)
    requires
        well_decoded(code@, st@, ln@),
        drop@.len() == st@.len(),
        forall|k: int| 0 <= k < st@.len() ==> #[trigger] drop@[k] == dropped(code@, values_view(consts@), ints(st@), k),
    ensures
        r as int == new_position(code@, values_view(consts@), ints(st@), t as int),
{
    let _len: usize = code.len();
    let _count: usize = st.len();
    let ghost ss = ints(st@);
    let ghost cs = values_view(consts@);
    let mut removed: usize = 0;
    let mut k: usize = 0;
    while k < st.len()
        invariant
            k <= st@.len(),
            well_decoded(code@, st@, ln@),
            drop@.len() == st@.len(),
            forall|q: int| 0 <= q < st@.len() ==> #[trigger] drop@[q] == dropped(code@, cs, ss, q),
            ss == ints(st@),
            cs == values_view(consts@),
            removed as int == dropped_before(code@, cs, ss, t as int, k as int),
            code@.len() <= usize::MAX,
            removed <= if k < st@.len() { st@[k as int] as int } else { code@.len() as int },
        decreases st@.len() - k,
    {
        proof {
            assert(ss[k as int] == st@[k as int] as int);
            assert(st@[k as int] + ln@[k as int] == if k + 1 < st@.len() { st@[k + 1] as int } else { code@.len() as int });
            assert(st@[k as int] + ln@[k as int] <= code@.len());
        }
        if st[k] < t as usize && drop[k] {
            removed = removed + ln[k];
        }
        k = k + 1;
    }
    if removed > t as usize {
        0
    } else {
        (t as usize - removed) as u32
    }
}

/// Appends `code[from..to]`.
fn copy_range(out: &mut Bytecode, code: &Vec<u8>, from: usize, to: usize)
    requires
        from <= to <= code@.len(),
    ensures
        final(out).code@ == old(out).code@ + code@.subrange(from as int, to as int),
{
    let mut b = from;
    while b < to
        invariant
            from <= b <= to <= code@.len(),
            out.code@ == old(out).code@ + code@.subrange(from as int, b as int),
        decreases to - b,
    {
        out.emit_byte(code[b]);
        assert(code@.subrange(from as int, b + 1) =~= code@.subrange(from as int, b as int).push(code@[b as int]));
        b = b + 1;
    }
}

fn has_function(consts: &Vec<Value>) -> (r: bool)
    ensures
        r == pool_has_function(values_view(consts@)),
{
    proof {
        lemma_values_view_index(consts@);
    }
    let mut i: usize = 0;
    while i < consts.len()
        invariant
            i <= consts@.len(),
            values_view(consts@).len() == consts@.len(),
            forall|j: int| 0 <= j < consts@.len() ==> #[trigger] values_view(consts@)[j] == consts@[j]@,
            forall|j: int| 0 <= j < i ==> !(values_view(consts@)[j] is Function),
        decreases consts@.len() - i,
    {
        match &consts[i] {
            Value::Function { .. } => {
                assert(values_view(consts@)[i as int] is Function);
                return true;
            },
            _ => {},
        }
        i = i + 1;
    }
    false
}

/// Writes instruction `k` unless it is dropped.
fn emit_one(out: &mut Bytecode, code: &Vec<u8>, consts: &Vec<Value>, st: &Vec<usize>, ln: &Vec<usize>, drop: &Vec<bool>, k: usize)
    requires
        well_decoded(code@, st@, ln@),
        k < st@.len(),
        drop@.len() == st@.len(),
        forall|q: int| 0 <= q < st@.len() ==> #[trigger] drop@[q] == dropped(code@, values_view(consts@), ints(st@), q),
    ensures
        final(out).code@ == old(out).code@ + if dropped(code@, values_view(consts@), ints(st@), k as int) {
            Seq::<u8>::empty()
        } else {
            instr_out(code@, values_view(consts@), ints(st@), k as int)
        },
{
    let _len: usize = code.len();
    let _count: usize = st.len();
    let ghost ss = ints(st@);
    let ghost cs = values_view(consts@);
    let s = st[k];
    let len = ln[k];
    proof {
        assert(ss[k as int] == s as int);
        assert(s + len == if k + 1 < st@.len() { st@[k + 1] as int } else { code@.len() as int });
        assert(0 < len);
        assert(s + len <= code@.len());
    }
    let ghost before = out.code@;
    if drop[k] {
        assert(out.code@ =~= before + Seq::<u8>::empty());
        return;
    }
    if holds_target(code, s) {
        let off: usize = if code[s] == OP_LESS_CONST_JUMP_IF_FALSE { 13 } else { 1 };
        assert(off as int == target_offset(code@[s as int]));
        let t = target_at(code, s, len);
        let m = moved(code, consts, st, ln, drop, t);
        copy_range(out, code, s, s + off);
        out.emit_u32(m);
        copy_range(out, code, s + off + 4, s + len);
        assert(out.code@ =~= before + instr_out(code@, cs, ss, k as int));
    } else {
        copy_range(out, code, s, s + len);
        assert(out.code@ =~= before + instr_out(code@, cs, ss, k as int));
    }
}

/// Runs the peephole pass over the whole program (see `optimized`): dead constant loads and
/// jumps to the next instruction go, and every jump target and function entry is moved with
/// the instruction it names (see `law_optimized_keeps_instructions`). The constants and the
/// global count stay as they are.
pub fn optimize(bytecode: Bytecode) -> (r: Bytecode)
    ensures
        r.code@ == optimized(bytecode.code@, values_view(bytecode.constants@)),
        r.constants@ == bytecode.constants@,
        r.num_globals == bytecode.num_globals,
{
    let ghost code = bytecode.code@;
    let ghost cs = values_view(bytecode.constants@);
    if has_function(&bytecode.constants) {
        return bytecode;
    }
    let (st, ln) = match decode(&bytecode.code) {
        Some(d) => d,
        None => {
            return bytecode;
        },
    };
    let ghost ss = ints(st@);
    let n = st.len();
    let mut drop: Vec<bool> = Vec::new();
    let mut k: usize = 0;
    while k < n
        invariant
            k <= n,
            n == st@.len(),
            well_decoded(code, st@, ln@),
            code == bytecode.code@,
            cs == values_view(bytecode.constants@),
            ss == ints(st@),
            drop@.len() == k,
            forall|q: int| 0 <= q < k ==> #[trigger] drop@[q] == dropped(code, cs, ss, q),
        decreases n - k,
    {
        let d = is_dropped(&bytecode.code, &bytecode.constants, &st, &ln, k);
        drop.push(d);
        k = k + 1;
    }
    let mut out = Bytecode::new();
    let mut k: usize = 0;
    assert(out.code@ + emit_from(code, cs, ss, 0) =~= emit_from(code, cs, ss, 0));
    while k < n
        invariant
            k <= n,
            n == st@.len(),
            well_decoded(code, st@, ln@),
            code == bytecode.code@,
            cs == values_view(bytecode.constants@),
            ss == ints(st@),
            drop@.len() == n,
            forall|q: int| 0 <= q < n ==> #[trigger] drop@[q] == dropped(code, cs, ss, q),
            out.code@ + emit_from(code, cs, ss, k as int) == emit_from(code, cs, ss, 0),
        decreases n - k,
    {
        let ghost before = out.code@;
        emit_one(&mut out, &bytecode.code, &bytecode.constants, &st, &ln, &drop, k);
        proof {
            let piece = if dropped(code, cs, ss, k as int) {
                Seq::<u8>::empty()
            } else {
                instr_out(code, cs, ss, k as int)
            };
            assert(emit_from(code, cs, ss, k as int) == piece + emit_from(code, cs, ss, k + 1));
            assert(before + (piece + emit_from(code, cs, ss, k + 1)) =~= (before + piece) + emit_from(
                code,
                cs,
                ss,
                k + 1,
            ));
        }
        k = k + 1;
    }
    proof {
        assert(out.code@ + Seq::<u8>::empty() =~= out.code@);
    }
    Bytecode { code: out.code, constants: bytecode.constants, num_globals: bytecode.num_globals }
}

} // verus!
