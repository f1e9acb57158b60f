//! Instructions on variables and control: globals, locals, captured values, jumps, calls.
use vstd::prelude::*;
use crate::value::{Value, ValueV, values_view, copy_value, copy_values, lemma_values_view_index,
    lemma_values_view_push};
use crate::bytecode::{Bytecode, u32_at, i64_at, CAPTURE_LOCAL, CAPTURE_UPVALUE};
use crate::show::{nat_text, push_nat};
use crate::vm::{VM, VmV, FrameV, CallFrame, frame_view, Event, EventV, underflow, truncated,
    overflow, bad_global};
use crate::ops_values::{operand_u32, operand_i64, fault, error};

verus! {

impl VmV {
    pub open spec fn with_globals(self, globals: Seq<ValueV>) -> VmV {
        VmV { globals, ..self }
    }

    pub open spec fn with_frames(self, frames: Seq<FrameV>) -> VmV {
        VmV { frames, ..self }
    }
}

/// `LOAD_GLOBAL idx`. In every `*_spec` of this file `s.ip` is already past the opcode.
pub open spec fn load_global_spec(s: VmV, code: Seq<u8>) -> (VmV, EventV) {
    if s.ip + 4 > code.len() {
        (s, truncated())
    } else {
        let idx = u32_at(code, s.ip) as int;
        let s1 = s.with_ip(s.ip + 4);
        if idx >= s.globals.len() {
            (s1, bad_global())
        } else {
            (s1.push(s.globals[idx]), EventV::Continue)
        }
    }
}

/// `STORE_GLOBAL idx`: pops into a global.
pub open spec fn store_global_spec(s: VmV, code: Seq<u8>) -> (VmV, EventV) {
    if s.ip + 4 > code.len() {
        (s, truncated())
    } else {
        let idx = u32_at(code, s.ip) as int;
        let s1 = s.with_ip(s.ip + 4);
        if s.stack.len() == 0 {
            (s1, underflow())
        } else {
            let s2 = s1.popped();
            if idx >= s.globals.len() {
                (s2, bad_global())
            } else {
                (s2.with_globals(s.globals.update(idx, s.top())), EventV::Continue)
            }
        }
    }
}

/// `INC_GLOBAL idx`: adds one to a numeric global.
pub open spec fn inc_global_spec(s: VmV, code: Seq<u8>) -> (VmV, EventV) {
    if s.ip + 4 > code.len() {
        (s, truncated())
    } else {
        let idx = u32_at(code, s.ip) as int;
        let s1 = s.with_ip(s.ip + 4);
        if idx >= s.globals.len() {
            (s1, bad_global())
        } else {
            match s.globals[idx] {
                ValueV::Number(n) => match n.checked_add(1) {
                    Some(m) => (s1.with_globals(s.globals.update(idx, ValueV::Number(m))), EventV::Continue),
                    None => (s1, overflow()),
                },
                _ => (s1, EventV::Error("IncGlobal expects number"@)),
            }
        }
    }
}

/// `ADD_GLOBAL idx rhs`: adds a constant to a numeric global.
pub open spec fn add_global_spec(s: VmV, code: Seq<u8>) -> (VmV, EventV) {
    if s.ip + 12 > code.len() {
        (s, truncated())
    } else {
        let idx = u32_at(code, s.ip) as int;
        let rhs = i64_at(code, s.ip + 4);
        let s1 = s.with_ip(s.ip + 12);
        if idx >= s.globals.len() {
            (s1, bad_global())
        } else {
            match s.globals[idx] {
                ValueV::Number(n) => match n.checked_add(rhs) {
                    Some(m) => (s1.with_globals(s.globals.update(idx, ValueV::Number(m))), EventV::Continue),
                    None => (s1, overflow()),
                },
                _ => (s1, EventV::Error("AddGlobal expects number"@)),
            }
        }
    }
}

/// `LOOP_INC_LESS idx limit`: while the global is below `limit`, add one to it and run this
/// instruction again.
pub open spec fn loop_inc_less_spec(s: VmV, code: Seq<u8>) -> (VmV, EventV) {
    if s.ip + 12 > code.len() {
        (s, truncated())
    } else {
        let idx = u32_at(code, s.ip) as int;
        let limit = i64_at(code, s.ip + 4);
        let s1 = s.with_ip(s.ip + 12);
        if idx >= s.globals.len() {
            (s1, bad_global())
        } else {
            match s.globals[idx] {
                ValueV::Number(n) => if n < limit {
                    (
                        s1.with_globals(s.globals.update(idx, ValueV::Number((n + 1) as i64))).with_ip(
                            s.ip - 1,
                        ),
                        EventV::Continue,
                    )
                } else {
                    (s1, EventV::Continue)
                },
                _ => (s1, EventV::Error("LoopIncLess expects number"@)),
            }
        }
    }
}

/// `LESS_CONST_JUMP_IF_FALSE idx limit target`: jumps when the global is not below `limit`.
pub open spec fn less_const_jump_spec(s: VmV, code: Seq<u8>) -> (VmV, EventV) {
    if s.ip + 16 > code.len() {
        (s, truncated())
    } else {
        let idx = u32_at(code, s.ip) as int;
        let limit = i64_at(code, s.ip + 4);
        let target = u32_at(code, s.ip + 12) as int;
        let s1 = s.with_ip(s.ip + 16);
        if idx >= s.globals.len() {
            (s1, bad_global())
        } else {
            match s.globals[idx] {
                ValueV::Number(n) => if n >= limit {
                    (s1.with_ip(target), EventV::Continue)
                } else {
                    (s1, EventV::Continue)
                },
                _ => (s1, EventV::Error("LessConstJumpIfFalse expects number"@)),
            }
        }
    }
}

/// `JUMP target`.
pub open spec fn jump_spec(s: VmV, code: Seq<u8>) -> (VmV, EventV) {
    if s.ip + 4 > code.len() {
        (s, truncated())
    } else {
        (s.with_ip(u32_at(code, s.ip) as int), EventV::Continue)
    }
}

/// `JUMP_IF_FALSE target`: pops a boolean and jumps when it is false.
pub open spec fn jump_if_false_spec(s: VmV, code: Seq<u8>) -> (VmV, EventV) {
    if s.ip + 4 > code.len() {
        (s, truncated())
    } else {
        let target = u32_at(code, s.ip) as int;
        let s1 = s.with_ip(s.ip + 4);
        if s.stack.len() == 0 {
            (s1, underflow())
        } else {
            let s2 = s1.popped();
            match s.top() {
                ValueV::Boolean(b) => if !b {
                    (s2.with_ip(target), EventV::Continue)
                } else {
                    (s2, EventV::Continue)
                },
                _ => (s2, EventV::Error("JumpIfFalse expects boolean"@)),
            }
        }
    }
}

/// `RETURN`: leaves the current function with the value on top of the stack; at top level
/// the program ends.
pub open spec fn return_spec(s: VmV) -> (VmV, EventV) {
    if s.frames.len() == 0 {
        (s, EventV::Halt)
    } else {
        let f = s.frames.last();
        let s1 = s.with_frames(s.frames.drop_last());
        if s.stack.len() == 0 {
            (s1, underflow())
        } else {
            (s1.popped().push(s.top()).with_ip(f.return_addr as int), EventV::Continue)
        }
    }
}

/// `LOAD_LOCAL offset`: pushes a local of the current function.
pub open spec fn load_local_spec(s: VmV, code: Seq<u8>) -> (VmV, EventV) {
    if s.ip + 4 > code.len() {
        (s, truncated())
    } else {
        let off = u32_at(code, s.ip) as int;
        let s1 = s.with_ip(s.ip + 4);
        if s.frames.len() == 0 {
            (s1, EventV::Error("Load local outside function context"@))
        } else {
            let idx = s.frames.last().locals_start + off;
            if idx > usize::MAX {
                (s1, overflow())
            } else if idx < s.stack.len() {
                (s1.push(s.stack[idx]), EventV::Continue)
            } else {
                (s1, EventV::Error("Local variable out of bounds"@))
            }
        }
    }
}

/// `STORE_LOCAL offset`: pops into a local of the current function.
pub open spec fn store_local_spec(s: VmV, code: Seq<u8>) -> (VmV, EventV) {
    if s.ip + 4 > code.len() {
        (s, truncated())
    } else {
        let off = u32_at(code, s.ip) as int;
        let s1 = s.with_ip(s.ip + 4);
        if s.stack.len() == 0 {
            (s1, underflow())
        } else {
            let v = s.top();
            let s2 = s1.popped();
            if s.frames.len() == 0 {
                (s2, EventV::Error("Store local outside function context"@))
            } else {
                let idx = s.frames.last().locals_start + off;
                if idx > usize::MAX {
                    (s2, overflow())
                } else if idx < s2.stack.len() {
                    (s2.with_stack(s2.stack.update(idx, v)), EventV::Continue)
                } else {
                    (s2, EventV::Error("Local variable out of bounds"@))
                }
            }
        }
    }
}

/// `LOAD_UPVALUE index`: pushes a value captured by the current function.
pub open spec fn load_upvalue_spec(s: VmV, code: Seq<u8>) -> (VmV, EventV) {
    if s.ip + 4 > code.len() {
        (s, truncated())
    } else {
        let idx = u32_at(code, s.ip) as int;
        let s1 = s.with_ip(s.ip + 4);
        if s.frames.len() == 0 {
            (s1, EventV::Error("Load upvalue outside function context"@))
        } else if idx < s.frames.last().upvalues.len() {
            (s1.push(s.frames.last().upvalues[idx]), EventV::Continue)
        } else {
            (s1, EventV::Error("Upvalue index out of bounds"@))
        }
    }
}

/// `STORE_UPVALUE index`: pops into the current function's own copy of a captured value.
pub open spec fn store_upvalue_spec(s: VmV, code: Seq<u8>) -> (VmV, EventV) {
    if s.ip + 4 > code.len() {
        (s, truncated())
    } else {
        let idx = u32_at(code, s.ip) as int;
        let s1 = s.with_ip(s.ip + 4);
        if s.stack.len() == 0 {
            (s1, underflow())
        } else {
            let v = s.top();
            let s2 = s1.popped();
            if s.frames.len() == 0 {
                (s2, EventV::Error("Store upvalue outside function context"@))
            } else {
                let f = s.frames.last();
                if idx < f.upvalues.len() {
                    (
                        s2.with_frames(
                            s.frames.update(
                                s.frames.len() - 1,
                                FrameV { upvalues: f.upvalues.update(idx, v), ..f },
                            ),
                        ),
                        EventV::Continue,
                    )
                } else {
                    (s2, EventV::Error("Upvalue index out of bounds"@))
                }
            }
        }
    }
}

/// `CALL_FUNCTION nargs`: pops the callee; its arguments stay on the stack as its first
/// locals.
pub open spec fn call_spec(s: VmV, code: Seq<u8>) -> (VmV, EventV) {
    if s.ip + 4 > code.len() {
        (s, truncated())
    } else {
        let nargs = u32_at(code, s.ip);
        let s1 = s.with_ip(s.ip + 4);
        if s.stack.len() == 0 {
            (s1, underflow())
        } else {
            let s2 = s1.popped();
            match s.top() {
                ValueV::Function { bytecode_offset, num_params, upvalues } => {
                    if num_params != nargs {
                        (
                            s2,
                            EventV::Error(
                                "Function expects "@ + nat_text(num_params as nat) + " arguments, got "@
                                    + nat_text(nargs as nat),
                            ),
                        )
                    } else if s2.stack.len() < nargs {
                        (s2, overflow())
                    } else {
                        let frame = FrameV {
                            return_addr: (s.ip + 4) as usize,
                            locals_start: (s2.stack.len() - nargs) as usize,
                            upvalues,
                        };
                        (
                            s2.with_frames(s.frames.push(frame)).with_ip(bytecode_offset as int),
                            EventV::Continue,
                        )
                    }
                },
                _ => (s2, EventV::Error("Attempted to call non-function value"@)),
            }
        }
    }
}

/// The value one capture of `MAKE_CLOSURE` takes: `kind` 0 a local of the running function,
/// 1 one of its own captured values.
pub open spec fn capture_value(s: VmV, kind: u8, index: int) -> Result<ValueV, EventV> {
    if kind == CAPTURE_LOCAL {
        if s.frames.len() == 0 {
            Err(EventV::Error("Closure capture requires active call frame"@))
        } else {
            let idx = s.frames.last().locals_start + index;
            if idx > usize::MAX {
                Err(overflow())
            } else if idx >= s.stack.len() {
                Err(EventV::Error("Closure local capture out of bounds"@))
            } else {
                Ok(s.stack[idx])
            }
        }
    } else if kind == CAPTURE_UPVALUE {
        if s.frames.len() == 0 {
            Err(EventV::Error("Closure capture requires active call frame"@))
        } else if index < s.frames.last().upvalues.len() {
            Ok(s.frames.last().upvalues[index])
        } else {
            Err(EventV::Error("Closure upvalue capture out of bounds"@))
        }
    } else {
        Err(EventV::Error("Unknown capture kind: "@ + nat_text(kind as nat)))
    }
}

/// The captured values of `MAKE_CLOSURE`, read from `q` on: `left` more `(kind, index)`
/// pairs follow; `acc` holds those taken so far. Gives the values and the position after them.
pub open spec fn captures_from(s: VmV, code: Seq<u8>, q: int, left: nat, acc: Seq<ValueV>) -> Result<
    (Seq<ValueV>, int),
    EventV,
>
    decreases left,
{
    if left == 0 {
        Ok((acc, q))
    } else if q + 5 > code.len() {
        Err(truncated())
    } else {
        match capture_value(s, code[q], u32_at(code, q + 1) as int) {
            Ok(v) => captures_from(s, code, q + 5, (left - 1) as nat, acc.push(v)),
            Err(e) => Err(e),
        }
    }
}

/// `MAKE_CLOSURE offset nparams ncaptures (kind index)*`: pushes a function value whose
/// captured values are copied now.
pub open spec fn make_closure_spec(s: VmV, code: Seq<u8>) -> (VmV, EventV) {
    if s.ip + 12 > code.len() {
        (s, truncated())
    } else {
        let offset = u32_at(code, s.ip);
        let nparams = u32_at(code, s.ip + 4);
        let n = u32_at(code, s.ip + 8);
        let s1 = s.with_ip(s.ip + 12);
        match captures_from(s, code, s.ip + 12, n as nat, Seq::empty()) {
            Ok((ups, end)) => (
                s1.push(
                    ValueV::Function { bytecode_offset: offset as usize, num_params: nparams, upvalues: ups },
                ).with_ip(end),
                EventV::Continue,
            ),
            Err(e) => (s1, e),
        }
    }
}

/// `INPUT mask`: pops the prompt and asks for a line of input.
pub open spec fn input_spec(s: VmV, code: Seq<u8>) -> (VmV, EventV) {
    if s.ip + 1 > code.len() {
        (s, truncated())
    } else {
        let mask = code[s.ip];
        let s1 = s.with_ip(s.ip + 1);
        if s.stack.len() == 0 {
            (s1, underflow())
        } else {
            match s.top() {
                ValueV::Str(t) => (s1.popped(), EventV::Input { mask, prompt: t }),
                _ => (s1.popped(), EventV::Error("Input prompt must be a string"@)),
            }
        }
    }
}

impl VM {
    fn set_global(&mut self, idx: usize, v: Value)
        requires
            idx < old(self)@.globals.len(),
        ensures
            final(self)@ == old(self)@.with_globals(old(self)@.globals.update(idx as int, v@)),
    {
        proof {
            lemma_values_view_index(self.globals@);
        }
        let ghost vv = v@;
        self.globals.set(idx, v);
        proof {
            lemma_values_view_index(self.globals@);
            assert(values_view(self.globals@) =~= values_view(old(self).globals@).update(idx as int, vv));
        }
    }

    fn global(&self, idx: usize) -> (v: Value)
        requires
            idx < self@.globals.len(),
        ensures
            v@ == self@.globals[idx as int],
    {
        proof {
            lemma_values_view_index(self.globals@);
        }
        copy_value(&self.globals[idx])
    }

    fn global_count(&self) -> (n: usize)
        ensures
            n == self@.globals.len(),
    {
        proof {
            lemma_values_view_index(self.globals@);
        }
        self.globals.len()
    }

    pub fn op_load_global(&mut self, code: &Vec<u8>) -> (e: Event)
        ensures
            (final(self)@, e@) == load_global_spec(old(self)@, code@),
    {
        match operand_u32(code, self.ip) {
            None => fault("operand runs past the end of the code"),
            Some(idx) => {
                self.ip = self.ip + 4;
                if idx as usize >= self.global_count() {
                    fault("global index out of range")
                } else {
                    let v = self.global(idx as usize);
                    self.push(v);
                    Event::Continue
                }
            },
        }
    }

    pub fn op_store_global(&mut self, code: &Vec<u8>) -> (e: Event)
        ensures
            (final(self)@, e@) == store_global_spec(old(self)@, code@),
    {
        match operand_u32(code, self.ip) {
            None => fault("operand runs past the end of the code"),
            Some(idx) => {
                self.ip = self.ip + 4;
                match self.pop() {
                    None => error("Stack underflow"),
                    Some(v) => {
                        if idx as usize >= self.global_count() {
                            fault("global index out of range")
                        } else {
                            self.set_global(idx as usize, v);
                            Event::Continue
                        }
                    },
                }
            },
        }
    }

    pub fn op_inc_global(&mut self, code: &Vec<u8>) -> (e: Event)
        ensures
            (final(self)@, e@) == inc_global_spec(old(self)@, code@),
    {
        proof {
            reveal_with_fuel(crate::value::value_view, 2);
        }
        match operand_u32(code, self.ip) {
            None => fault("operand runs past the end of the code"),
            Some(idx) => {
                self.ip = self.ip + 4;
                if idx as usize >= self.global_count() {
                    return fault("global index out of range");
                }
                match self.global(idx as usize) {
                    Value::Number(n) => match n.checked_add(1) {
                        Some(m) => {
                            self.set_global(idx as usize, Value::Number(m));
                            Event::Continue
                        },
                        None => fault("integer overflow"),
                    },
                    _ => error("IncGlobal expects number"),
                }
            },
        }
    }

    pub fn op_add_global(&mut self, code: &Vec<u8>) -> (e: Event)
        ensures
            (final(self)@, e@) == add_global_spec(old(self)@, code@),
    {
        proof {
            reveal_with_fuel(crate::value::value_view, 2);
        }
        if self.ip > code.len() || code.len() - self.ip < 12 {
            return fault("operand runs past the end of the code");
        }
        let idx = Bytecode::read_u32(code.as_slice(), self.ip);
        let rhs = Bytecode::read_i64(code.as_slice(), self.ip + 4);
        self.ip = self.ip + 12;
        if idx as usize >= self.global_count() {
            return fault("global index out of range");
        }
        match self.global(idx as usize) {
            Value::Number(n) => match n.checked_add(rhs) {
                Some(m) => {
                    self.set_global(idx as usize, Value::Number(m));
                    Event::Continue
                },
                None => fault("integer overflow"),
            },
            _ => error("AddGlobal expects number"),
        }
    }

    pub fn op_loop_inc_less(&mut self, code: &Vec<u8>) -> (e: Event)
        requires
            old(self)@.ip >= 1,
        ensures
            (final(self)@, e@) == loop_inc_less_spec(old(self)@, code@),
    {
        proof {
            reveal_with_fuel(crate::value::value_view, 2);
        }
        if self.ip > code.len() || code.len() - self.ip < 12 {
            return fault("operand runs past the end of the code");
        }
        let start = self.ip - 1;
        let idx = Bytecode::read_u32(code.as_slice(), self.ip);
        let limit = Bytecode::read_i64(code.as_slice(), self.ip + 4);
        self.ip = self.ip + 12;
        if idx as usize >= self.global_count() {
            return fault("global index out of range");
        }
        match self.global(idx as usize) {
            Value::Number(n) => {
                if n < limit {
                    self.set_global(idx as usize, Value::Number(n + 1));
                    self.ip = start;
                }
                Event::Continue
            },
            _ => error("LoopIncLess expects number"),
        }
    }

    pub fn op_less_const_jump(&mut self, code: &Vec<u8>) -> (e: Event)
        ensures
            (final(self)@, e@) == less_const_jump_spec(old(self)@, code@),
    {
        proof {
            reveal_with_fuel(crate::value::value_view, 2);
        }
        if self.ip > code.len() || code.len() - self.ip < 16 {
            return fault("operand runs past the end of the code");
        }
        let idx = Bytecode::read_u32(code.as_slice(), self.ip);
        let limit = Bytecode::read_i64(code.as_slice(), self.ip + 4);
        let target = Bytecode::read_u32(code.as_slice(), self.ip + 12);
        self.ip = self.ip + 16;
        if idx as usize >= self.global_count() {
            return fault("global index out of range");
        }
        match self.global(idx as usize) {
            Value::Number(n) => {
                if n >= limit {
                    self.ip = target as usize;
                }
                Event::Continue
            },
            _ => error("LessConstJumpIfFalse expects number"),
        }
    }

    pub fn op_jump(&mut self, code: &Vec<u8>) -> (e: Event)
        ensures
            (final(self)@, e@) == jump_spec(old(self)@, code@),
    {
        match operand_u32(code, self.ip) {
            None => fault("operand runs past the end of the code"),
            Some(target) => {
                self.ip = target as usize;
                Event::Continue
            },
        }
    }

    pub fn op_jump_if_false(&mut self, code: &Vec<u8>) -> (e: Event)
        ensures
            (final(self)@, e@) == jump_if_false_spec(old(self)@, code@),
    {
        proof {
            reveal_with_fuel(crate::value::value_view, 2);
        }
        match operand_u32(code, self.ip) {
            None => fault("operand runs past the end of the code"),
            Some(target) => {
                self.ip = self.ip + 4;
                match self.pop() {
                    None => error("Stack underflow"),
                    Some(Value::Boolean(b)) => {
                        if !b {
                            self.ip = target as usize;
                        }
                        Event::Continue
                    },
                    Some(_) => error("JumpIfFalse expects boolean"),
                }
            },
        }
    }

    pub fn op_return(&mut self) -> (e: Event)
        ensures
            (final(self)@, e@) == return_spec(old(self)@),
    {
        match self.call_stack.pop() {
            None => {
                assert(old(self)@.frames.len() == 0);
                Event::Halt
            },
            Some(frame) => {
                assert(old(self).call_stack@ =~= self.call_stack@.push(frame));
                assert(self@.frames =~= old(self)@.frames.drop_last());
                match self.pop() {
                    None => error("Stack underflow"),
                    Some(v) => {
                        self.ip = frame.return_addr;
                        self.push(v);
                        Event::Continue
                    },
                }
            },
        }
    }

    pub fn op_load_local(&mut self, code: &Vec<u8>) -> (e: Event)
        ensures
            (final(self)@, e@) == load_local_spec(old(self)@, code@),
    {
        match operand_u32(code, self.ip) {
            None => fault("operand runs past the end of the code"),
            Some(off) => {
                self.ip = self.ip + 4;
                let n = self.call_stack.len();
                if n == 0 {
                    return error("Load local outside function context");
                }
                let start = self.call_stack[n - 1].locals_start;
                if start > usize::MAX - off as usize {
                    return fault("integer overflow");
                }
                let idx = start + off as usize;
                if idx < self.stack_len() {
                    proof {
                        lemma_values_view_index(self.stack@);
                    }
                    let v = copy_value(&self.stack[idx]);
                    self.push(v);
                    Event::Continue
                } else {
                    error("Local variable out of bounds")
                }
            },
        }
    }

    pub fn op_store_local(&mut self, code: &Vec<u8>) -> (e: Event)
        ensures
            (final(self)@, e@) == store_local_spec(old(self)@, code@),
    {
        match operand_u32(code, self.ip) {
            None => fault("operand runs past the end of the code"),
            Some(off) => {
                self.ip = self.ip + 4;
                match self.pop() {
                    None => error("Stack underflow"),
                    Some(v) => {
                        let n = self.call_stack.len();
                        if n == 0 {
                            return error("Store local outside function context");
                        }
                        let start = self.call_stack[n - 1].locals_start;
                        if start > usize::MAX - off as usize {
                            return fault("integer overflow");
                        }
                        let idx = start + off as usize;
                        if idx < self.stack_len() {
                            proof {
                                lemma_values_view_index(self.stack@);
                            }
                            let ghost before = self.stack@;
                            let ghost vv = v@;
                            self.stack.set(idx, v);
                            proof {
                                lemma_values_view_index(self.stack@);
                                assert(values_view(self.stack@) =~= values_view(before).update(
                                    idx as int,
                                    vv,
                                ));
                            }
                            Event::Continue
                        } else {
                            error("Local variable out of bounds")
                        }
                    },
                }
            },
        }
    }

    pub fn op_load_upvalue(&mut self, code: &Vec<u8>) -> (e: Event)
        ensures
            (final(self)@, e@) == load_upvalue_spec(old(self)@, code@),
    {
        match operand_u32(code, self.ip) {
            None => fault("operand runs past the end of the code"),
            Some(idx) => {
                self.ip = self.ip + 4;
                let n = self.call_stack.len();
                if n == 0 {
                    return error("Load upvalue outside function context");
                }
                proof {
                    lemma_values_view_index(self.call_stack@[n - 1].upvalues@);
                }
                if (idx as usize) < self.call_stack[n - 1].upvalues.len() {
                    let v = copy_value(&self.call_stack[n - 1].upvalues[idx as usize]);
                    self.push(v);
                    Event::Continue
                } else {
                    error("Upvalue index out of bounds")
                }
            },
        }
    }

    pub fn op_store_upvalue(&mut self, code: &Vec<u8>) -> (e: Event)
        ensures
            (final(self)@, e@) == store_upvalue_spec(old(self)@, code@),
    {
        match operand_u32(code, self.ip) {
            None => fault("operand runs past the end of the code"),
            Some(idx) => {
                self.ip = self.ip + 4;
                match self.pop() {
                    None => error("Stack underflow"),
                    Some(v) => {
                        let n = self.call_stack.len();
                        if n == 0 {
                            return error("Store upvalue outside function context");
                        }
                        proof {
                            lemma_values_view_index(self.call_stack@[n - 1].upvalues@);
                        }
                        if (idx as usize) < self.call_stack[n - 1].upvalues.len() {
                            let ghost before = self@;
                            let ghost vv = v@;
                            let mut frame = self.call_stack.pop().unwrap();
                            let ghost ups = frame.upvalues@;
                            frame.upvalues.set(idx as usize, v);
                            proof {
                                lemma_values_view_index(frame.upvalues@);
                                assert(values_view(frame.upvalues@) =~= values_view(ups).update(
                                    idx as int,
                                    vv,
                                ));
                            }
                            self.call_stack.push(frame);
                            assert(self@.frames =~= before.frames.update(
                                n - 1,
                                FrameV { upvalues: before.frames.last().upvalues.update(idx as int, vv), ..before.frames.last() },
                            ));
                            Event::Continue
                        } else {
                            error("Upvalue index out of bounds")
                        }
                    },
                }
            },
        }
    }

    pub fn op_call(&mut self, code: &Vec<u8>) -> (e: Event)
        ensures
            (final(self)@, e@) == call_spec(old(self)@, code@),
    {
        proof {
            reveal_with_fuel(crate::value::value_view, 2);
        }
        match operand_u32(code, self.ip) {
            None => fault("operand runs past the end of the code"),
            Some(nargs) => {
                self.ip = self.ip + 4;
                match self.pop() {
                    None => error("Stack underflow"),
                    Some(Value::Function { bytecode_offset, num_params, upvalues }) => {
                        if num_params != nargs {
                            let mut msg = "Function expects ".to_owned();
                            push_nat(&mut msg, num_params as u64);
                            msg.append(" arguments, got ");
                            push_nat(&mut msg, nargs as u64);
                            return Event::Error(msg);
                        }
                        let len = self.stack_len();
                        if len < nargs as usize {
                            return fault("integer overflow");
                        }
                        let frame = CallFrame {
                            return_addr: self.ip,
                            locals_start: len - nargs as usize,
                            upvalues,
                        };
                        let ghost fv = frame_view(frame);
                        let ghost before = self@;
                        self.call_stack.push(frame);
                        assert(self@.frames =~= before.frames.push(fv));
                        self.ip = bytecode_offset;
                        Event::Continue
                    },
                    Some(_) => error("Attempted to call non-function value"),
                }
            },
        }
    }

    fn capture_value(&self, kind: u8, index: u32) -> (r: Result<Value, Event>)
        ensures
            match (r, capture_value(self@, kind, index as int)) {
                (Ok(v), Ok(sv)) => v@ == sv,
                (Err(e), Err(se)) => e@ == se,
                _ => false,
            },
    {
        let n = self.call_stack.len();
        if kind == CAPTURE_LOCAL {
            if n == 0 {
                return Err(error("Closure capture requires active call frame"));
            }
            let start = self.call_stack[n - 1].locals_start;
            if start > usize::MAX - index as usize {
                return Err(fault("integer overflow"));
            }
            let idx = start + index as usize;
            if idx >= self.stack_len() {
                return Err(error("Closure local capture out of bounds"));
            }
            proof {
                lemma_values_view_index(self.stack@);
            }
            Ok(copy_value(&self.stack[idx]))
        } else if kind == CAPTURE_UPVALUE {
            if n == 0 {
                return Err(error("Closure capture requires active call frame"));
            }
            proof {
                lemma_values_view_index(self.call_stack@[n - 1].upvalues@);
            }
            if (index as usize) < self.call_stack[n - 1].upvalues.len() {
                Ok(copy_value(&self.call_stack[n - 1].upvalues[index as usize]))
            } else {
                Err(error("Closure upvalue capture out of bounds"))
            }
        } else {
            let mut msg = "Unknown capture kind: ".to_owned();
            push_nat(&mut msg, kind as u64);
            Err(Event::Error(msg))
        }
    }

    pub fn op_make_closure(&mut self, code: &Vec<u8>) -> (e: Event)
        ensures
            (final(self)@, e@) == make_closure_spec(old(self)@, code@),
    {
        proof {
            reveal_with_fuel(crate::value::value_view, 2);
        }
        if self.ip > code.len() || code.len() - self.ip < 12 {
            return fault("operand runs past the end of the code");
        }
        let offset = Bytecode::read_u32(code.as_slice(), self.ip);
        let nparams = Bytecode::read_u32(code.as_slice(), self.ip + 4);
        let n = Bytecode::read_u32(code.as_slice(), self.ip + 8);
        let ghost s = self@;
        proof {
            assert(values_view(Seq::<Value>::empty()) =~= Seq::<ValueV>::empty());
        }
        let mut q: usize = self.ip + 12;
        let mut ups: Vec<Value> = Vec::new();
        let mut k: u32 = 0;
        let mut failure: Option<Event> = None;
        let ghost whole = captures_from(s, code@, s.ip + 12, n as nat, Seq::empty());
        while k < n && failure.is_none()
            invariant
                self@ == s,
                q <= code@.len(),
                k <= n,
                match failure {
                    None => whole == captures_from(s, code@, q as int, (n - k) as nat, values_view(ups@)),
                    Some(e) => whole == Err::<(Seq<ValueV>, int), EventV>(e@),
                },
            decreases n - k, if failure is None { 1int } else { 0int },
        {
            if code.len() - q < 5 {
                failure = Some(fault("operand runs past the end of the code"));
            } else {
                let kind = code[q];
                let index = Bytecode::read_u32(code.as_slice(), q + 1);
                match self.capture_value(kind, index) {
                    Ok(v) => {
                        let ghost before = ups@;
                        ups.push(v);
                        proof {
                            lemma_values_view_push(before, ups@.last());
                            assert(ups@ =~= before.push(ups@.last()));
                        }
                        q = q + 5;
                        k = k + 1;
                    },
                    Err(e) => {
                        failure = Some(e);
                    },
                }
            }
        }
        self.ip = self.ip + 12;
        match failure {
            Some(e) => e,
            None => {
                self.push(Value::Function { bytecode_offset: offset as usize, num_params: nparams, upvalues: ups });
                self.ip = q;
                Event::Continue
            },
        }
    }

    pub fn op_input(&mut self, code: &Vec<u8>) -> (e: Event)
        ensures
            (final(self)@, e@) == input_spec(old(self)@, code@),
    {
        proof {
            reveal_with_fuel(crate::value::value_view, 2);
        }
        if self.ip >= code.len() {
            return fault("operand runs past the end of the code");
        }
        let mask = code[self.ip];
        self.ip = self.ip + 1;
        match self.pop() {
            None => error("Stack underflow"),
            Some(Value::String(t)) => Event::Input { mask, prompt: t },
            Some(_) => error("Input prompt must be a string"),
        }
    }
}

} // verus!
