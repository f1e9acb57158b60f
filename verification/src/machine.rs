//! One instruction of the machine, and runs of them.
use vstd::prelude::*;
use crate::value::{Value, ValueV, values_view};
use crate::bytecode::{Bytecode, OP_CONSTANT, OP_LOAD_GLOBAL, OP_STORE_GLOBAL, OP_NOT, OP_PRINT,
    OP_POP, OP_JUMP, OP_JUMP_IF_FALSE, OP_INC_GLOBAL, OP_ADD_GLOBAL, OP_LESS_CONST_JUMP_IF_FALSE,
    OP_LOOP_INC_LESS, OP_NULL, OP_MAKE_CLOSURE, OP_CALL_FUNCTION, OP_RETURN, OP_LOAD_LOCAL,
    OP_STORE_LOCAL, OP_INPUT, OP_LOAD_UPVALUE, OP_STORE_UPVALUE, OP_BUILD_ARRAY, OP_INDEX_GET,
    OP_INDEX_SET, OP_ARRAY_LEN, OP_ARRAY_PUSH, OP_ARRAY_POP, OP_BUILD_OBJECT, OP_OBJECT_GET_CONST,
    OP_OBJECT_GET, OP_OBJECT_SET, OP_OBJECT_DELETE, OP_OBJECT_GET_OR_CREATE_CONST,
    OP_OBJECT_GET_OR_CREATE, OP_OBJECT_KEYS, OP_IS_ARRAY, OP_IS_OBJECT, OP_MEMBER_LENGTH, OP_ADD, OP_OR};
use crate::show::{nat_text, push_nat};
use crate::vm::{VM, VmV, Event, EventV};
use crate::ops_values::{is_binary_op, binary_spec, not_spec, print_spec, pop_spec, constant_spec,
    inspect_spec};
use crate::ops_vars::{load_global_spec, store_global_spec, inc_global_spec, add_global_spec,
    loop_inc_less_spec, less_const_jump_spec, jump_spec, jump_if_false_spec, return_spec,
    load_local_spec, store_local_spec, load_upvalue_spec, store_upvalue_spec, call_spec,
    make_closure_spec, input_spec};
use crate::ops_heap::{build_array_spec, index_get_spec, index_set_spec, array_len_spec,
    array_push_spec, array_pop_spec, build_object_spec, object_get_const_spec, object_get_spec,
    object_set_spec, object_delete_spec, get_or_create_const_spec, get_or_create_spec,
    object_keys_spec};

verus! {

/// What the instruction at `s.ip` does. Past the end of the code the program has finished.
pub open spec fn step_spec(s: VmV, code: Seq<u8>, consts: Seq<ValueV>) -> (VmV, EventV) {
    if s.ip < 0 || s.ip >= code.len() {
        (s, EventV::Halt)
    } else {
        let op = code[s.ip];
        let s1 = s.with_ip(s.ip + 1);
        if op == OP_RETURN {
            return_spec(s1)
        } else if op == OP_LOAD_LOCAL {
            load_local_spec(s1, code)
        } else if op == OP_STORE_LOCAL {
            store_local_spec(s1, code)
        } else if op == OP_MAKE_CLOSURE {
            make_closure_spec(s1, code)
        } else if op == OP_CALL_FUNCTION {
            call_spec(s1, code)
        } else if op == OP_LOAD_UPVALUE {
            load_upvalue_spec(s1, code)
        } else if op == OP_STORE_UPVALUE {
            store_upvalue_spec(s1, code)
        } else if op == OP_LOOP_INC_LESS {
            loop_inc_less_spec(s1, code)
        } else if op == OP_LESS_CONST_JUMP_IF_FALSE {
            less_const_jump_spec(s1, code)
        } else if op == OP_ADD_GLOBAL {
            add_global_spec(s1, code)
        } else if op == OP_INC_GLOBAL {
            inc_global_spec(s1, code)
        } else if op == OP_LOAD_GLOBAL {
            load_global_spec(s1, code)
        } else if op == OP_STORE_GLOBAL {
            store_global_spec(s1, code)
        } else if op == OP_JUMP {
            jump_spec(s1, code)
        } else if op == OP_JUMP_IF_FALSE {
            jump_if_false_spec(s1, code)
        } else if op == OP_CONSTANT {
            constant_spec(s1, code, consts)
        } else if op == OP_NULL {
            (s1.push(ValueV::Null), EventV::Continue)
        } else if is_binary_op(op) {
            binary_spec(s1, op)
        } else if op == OP_NOT {
            not_spec(s1)
        } else if op == OP_PRINT {
            print_spec(s1)
        } else if op == OP_POP {
            pop_spec(s1)
        } else if op == OP_BUILD_ARRAY {
            build_array_spec(s1, code)
        } else if op == OP_INDEX_GET {
            index_get_spec(s1)
        } else if op == OP_INDEX_SET {
            index_set_spec(s1)
        } else if op == OP_ARRAY_LEN {
            array_len_spec(s1)
        } else if op == OP_ARRAY_PUSH {
            array_push_spec(s1)
        } else if op == OP_ARRAY_POP {
            array_pop_spec(s1)
        } else if op == OP_BUILD_OBJECT {
            build_object_spec(s1, code, consts)
        } else if op == OP_OBJECT_GET_CONST {
            object_get_const_spec(s1, code, consts)
        } else if op == OP_OBJECT_GET {
            object_get_spec(s1)
        } else if op == OP_OBJECT_SET {
            object_set_spec(s1)
        } else if op == OP_OBJECT_DELETE {
            object_delete_spec(s1)
        } else if op == OP_OBJECT_GET_OR_CREATE_CONST {
            get_or_create_const_spec(s1, code, consts)
        } else if op == OP_IS_ARRAY || op == OP_IS_OBJECT || op == OP_MEMBER_LENGTH {
            inspect_spec(s1, op)
        } else if op == OP_OBJECT_GET_OR_CREATE {
            get_or_create_spec(s1)
        } else if op == OP_OBJECT_KEYS {
            object_keys_spec(s1)
        } else if op == OP_INPUT {
            input_spec(s1, code)
        } else {
            (s1, EventV::Error("Unknown opcode: "@ + nat_text(op as nat)))
        }
    }
}

/// Up to `n` instructions, stopping at the first one that asks for more than going on.
pub open spec fn run_spec(s: VmV, code: Seq<u8>, consts: Seq<ValueV>, n: nat) -> (VmV, EventV)
    decreases n,
{
    if n == 0 {
        (s, EventV::Continue)
    } else {
        let (s1, e) = step_spec(s, code, consts);
        if e is Continue {
            run_spec(s1, code, consts, (n - 1) as nat)
        } else {
            (s1, e)
        }
    }
}

impl VM {
    /// Carries out the instruction at `ip` (see `step_spec`).
    #[verifier::rlimit(40)]
    pub fn step(&mut self, bc: &Bytecode) -> (e: Event)
        ensures
            (final(self)@, e@) == step_spec(old(self)@, bc.code@, values_view(bc.constants@)),
    {
        let code = &bc.code;
        if self.ip >= code.len() {
            return Event::Halt;
        }
        let op = code[self.ip];
        self.ip = self.ip + 1;
        if op == OP_RETURN {
            self.op_return()
        } else if op == OP_LOAD_LOCAL {
            self.op_load_local(code)
        } else if op == OP_STORE_LOCAL {
            self.op_store_local(code)
        } else if op == OP_MAKE_CLOSURE {
            self.op_make_closure(code)
        } else if op == OP_CALL_FUNCTION {
            self.op_call(code)
        } else if op == OP_LOAD_UPVALUE {
            self.op_load_upvalue(code)
        } else if op == OP_STORE_UPVALUE {
            self.op_store_upvalue(code)
        } else if op == OP_LOOP_INC_LESS {
            self.op_loop_inc_less(code)
        } else if op == OP_LESS_CONST_JUMP_IF_FALSE {
            self.op_less_const_jump(code)
        } else if op == OP_ADD_GLOBAL {
            self.op_add_global(code)
        } else if op == OP_INC_GLOBAL {
            self.op_inc_global(code)
        } else if op == OP_LOAD_GLOBAL {
            self.op_load_global(code)
        } else if op == OP_STORE_GLOBAL {
            self.op_store_global(code)
        } else if op == OP_JUMP {
            self.op_jump(code)
        } else if op == OP_JUMP_IF_FALSE {
            self.op_jump_if_false(code)
        } else if op == OP_CONSTANT {
            self.op_constant(bc)
        } else if op == OP_NULL {
            self.push(Value::Null);
            Event::Continue
        } else if OP_ADD <= op && op <= OP_OR {
            self.op_binary(op)
        } else if op == OP_NOT {
            self.op_not()
        } else if op == OP_PRINT {
            self.op_print()
        } else if op == OP_POP {
            self.op_pop()
        } else {
            self.step_data(bc, op)
        }
    }

    #[verifier::rlimit(40)]
    fn step_data(&mut self, bc: &Bytecode, op: u8) -> (e: Event)
        requires
            old(self)@.ip >= 1,
            old(self)@.ip - 1 < bc.code@.len(),
            bc.code@[old(self)@.ip - 1] == op,
            !(op == OP_RETURN || op == OP_LOAD_LOCAL || op == OP_STORE_LOCAL || op == OP_MAKE_CLOSURE
                || op == OP_CALL_FUNCTION || op == OP_LOAD_UPVALUE || op == OP_STORE_UPVALUE || op
                == OP_LOOP_INC_LESS || op == OP_LESS_CONST_JUMP_IF_FALSE || op == OP_ADD_GLOBAL
                || op == OP_INC_GLOBAL || op == OP_LOAD_GLOBAL || op == OP_STORE_GLOBAL || op
                == OP_JUMP || op == OP_JUMP_IF_FALSE || op == OP_CONSTANT || op == OP_NULL
                || is_binary_op(op) || op == OP_NOT || op == OP_PRINT || op == OP_POP),
        ensures
            (final(self)@, e@) == step_spec(
                old(self)@.with_ip(old(self)@.ip - 1),
                bc.code@,
                values_view(bc.constants@),
            ),
    {
        let code = &bc.code;
        if op == OP_BUILD_ARRAY {
            self.op_build_array(code)
        } else if op == OP_INDEX_GET {
            self.op_index_get()
        } else if op == OP_INDEX_SET {
            self.op_index_set()
        } else if op == OP_ARRAY_LEN {
            self.op_array_len()
        } else if op == OP_ARRAY_PUSH {
            self.op_array_push()
        } else if op == OP_ARRAY_POP {
            self.op_array_pop()
        } else if op == OP_BUILD_OBJECT {
            self.op_build_object(code, &bc.constants)
        } else if op == OP_OBJECT_GET_CONST {
            self.op_object_get_const(code, &bc.constants)
        } else if op == OP_OBJECT_GET {
            self.op_object_get()
        } else if op == OP_OBJECT_SET {
            self.op_object_set()
        } else if op == OP_OBJECT_DELETE {
            self.op_object_delete()
        } else if op == OP_OBJECT_GET_OR_CREATE_CONST {
            self.op_get_or_create_const(code, &bc.constants)
        } else if op == OP_IS_ARRAY || op == OP_IS_OBJECT || op == OP_MEMBER_LENGTH {
            self.op_inspect(op)
        } else if op == OP_OBJECT_GET_OR_CREATE {
            self.op_get_or_create()
        } else if op == OP_OBJECT_KEYS {
            self.op_object_keys()
        } else if op == OP_INPUT {
            self.op_input(code)
        } else {
            let mut msg = "Unknown opcode: ".to_owned();
            push_nat(&mut msg, op as u64);
            Event::Error(msg)
        }
    }

    /// Runs at most `max_steps` instructions and reports the first event other than going on
    /// (or going on, when the steps ran out).
    pub fn run(&mut self, bc: &Bytecode, max_steps: u64) -> (e: Event)
        ensures
            (final(self)@, e@) == run_spec(
                old(self)@,
                bc.code@,
                values_view(bc.constants@),
                max_steps as nat,
            ),
    {
        let ghost code = bc.code@;
        let ghost consts = values_view(bc.constants@);
        let ghost whole = run_spec(old(self)@, code, consts, max_steps as nat);
        let mut left = max_steps;
        while left > 0
            invariant
                whole == run_spec(self@, code, consts, left as nat),
                whole == run_spec(old(self)@, code, consts, max_steps as nat),
                code == bc.code@,
                consts == values_view(bc.constants@),
            decreases left,
        {
            let ghost before = self@;
            let e = self.step(bc);
            assert(run_spec(before, code, consts, left as nat) == if e@ is Continue {
                run_spec(self@, code, consts, (left - 1) as nat)
            } else {
                (self@, e@)
            });
            match e {
                Event::Continue => {
                    left = left - 1;
                },
                _ => {
                    return e;
                },
            }
        }
        Event::Continue
    }

    /// Puts a value read as input on the stack.
    pub fn provide_input(&mut self, v: Value)
        ensures
            final(self)@ == old(self)@.push(v@),
    {
        self.push(v);
    }

    /// Prepares a run of `bc` from `ip`: the globals are resized to the program's count.
    pub fn start(&mut self, bc: &Bytecode, ip: usize)
        ensures
            final(self)@.stack == old(self)@.stack,
            final(self)@.frames == old(self)@.frames,
            final(self)@.heap == old(self)@.heap,
            final(self)@.ip == ip,
            final(self)@.globals.len() == bc.num_globals,
            forall|i: int|
                0 <= i < bc.num_globals ==> #[trigger] final(self)@.globals[i] == if i < old(
                    self,
                )@.globals.len() {
                    old(self)@.globals[i]
                } else {
                    ValueV::Null
                },
    {
        self.resize_globals(bc.num_globals);
        self.ip = ip;
    }
}

} // verus!
