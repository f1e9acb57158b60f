//! Instructions on values: arithmetic, comparison, logic, constants, printing.
use vstd::prelude::*;
use crate::value::{Value, ValueV, values_view, copy_value, lemma_values_view_index};
use crate::heap::HeapV;
use crate::bytecode::{Bytecode, u32_at, i64_at, OP_ADD, OP_SUBTRACT, OP_MULTIPLY, OP_DIVIDE,
    OP_EQUALS, OP_NOT_EQUALS, OP_GREATER, OP_LESS, OP_GREATER_EQUAL, OP_LESS_EQUAL, OP_AND, OP_OR,
    OP_IS_ARRAY, OP_IS_OBJECT};
use crate::render::{values_equal, equal_values, show_value, write_value};
use crate::vm::{VM, VmV, Event, EventV, underflow, truncated, overflow, endless, bad_constant,
    error_with, error_with2, show_fuel, eq_fuel};

verus! {

/// The result of a two-operand instruction on `l` and `r`, or the event that stops it.
pub open spec fn binary_result(h: HeapV, op: u8, l: ValueV, r: ValueV) -> Result<ValueV, EventV> {
    if op == OP_ADD {
        match (l, r) {
            (ValueV::Number(a), ValueV::Number(b)) => match a.checked_add(b) {
                Some(c) => Ok(ValueV::Number(c)),
                None => Err(overflow()),
            },
            (ValueV::Str(a), ValueV::Str(b)) => Ok(ValueV::Str(a + b)),
            _ => Err(error_with2(h, "Add requires two numbers or two strings, found "@, l, r)),
        }
    } else if op == OP_SUBTRACT {
        match (l, r) {
            (ValueV::Number(a), ValueV::Number(b)) => match a.checked_sub(b) {
                Some(c) => Ok(ValueV::Number(c)),
                None => Err(overflow()),
            },
            _ => Err(error_with2(h, "Subtract requires two numbers, found "@, l, r)),
        }
    } else if op == OP_MULTIPLY {
        match (l, r) {
            (ValueV::Number(a), ValueV::Number(b)) => match a.checked_mul(b) {
                Some(c) => Ok(ValueV::Number(c)),
                None => Err(overflow()),
            },
            _ => Err(error_with2(h, "Multiply requires two numbers, found "@, l, r)),
        }
    } else if op == OP_DIVIDE {
        match (l, r) {
            (ValueV::Number(a), ValueV::Number(b)) => if b == 0 {
                Err(EventV::Error("Division by zero"@))
            } else {
                match a.checked_div(b) {
                    Some(c) => Ok(ValueV::Number(c)),
                    None => Err(overflow()),
                }
            },
            _ => Err(error_with2(h, "Divide requires two numbers, found "@, l, r)),
        }
    } else if op == OP_EQUALS || op == OP_NOT_EQUALS {
        match values_equal(h, l, r, eq_fuel(h)) {
            Some(b) => Ok(ValueV::Boolean(if op == OP_EQUALS { b } else { !b })),
            None => Err(endless()),
        }
    } else if op == OP_GREATER {
        match (l, r) {
            (ValueV::Number(a), ValueV::Number(b)) => Ok(ValueV::Boolean(a > b)),
            _ => Err(error_with2(h, "Greater requires numbers, found "@, l, r)),
        }
    } else if op == OP_LESS {
        match (l, r) {
            (ValueV::Number(a), ValueV::Number(b)) => Ok(ValueV::Boolean(a < b)),
            _ => Err(error_with2(h, "Less requires numbers, found "@, l, r)),
        }
    } else if op == OP_GREATER_EQUAL {
        match (l, r) {
            (ValueV::Number(a), ValueV::Number(b)) => Ok(ValueV::Boolean(a >= b)),
            _ => Err(error_with2(h, "GreaterEqual requires numbers, found "@, l, r)),
        }
    } else if op == OP_LESS_EQUAL {
        match (l, r) {
            (ValueV::Number(a), ValueV::Number(b)) => Ok(ValueV::Boolean(a <= b)),
            _ => Err(error_with2(h, "LessEqual requires numbers, found "@, l, r)),
        }
    } else if op == OP_AND {
        match (l, r) {
            (ValueV::Boolean(a), ValueV::Boolean(b)) => Ok(ValueV::Boolean(a && b)),
            _ => Err(error_with2(h, "And requires booleans, found "@, l, r)),
        }
    } else {
        match (l, r) {
            (ValueV::Boolean(a), ValueV::Boolean(b)) => Ok(ValueV::Boolean(a || b)),
            _ => Err(error_with2(h, "Or requires booleans, found "@, l, r)),
        }
    }
}

/// The instructions that take two operands from the stack and push one result.
pub open spec fn is_binary_op(op: u8) -> bool {
    OP_ADD <= op <= OP_OR
}

/// A two-operand instruction: pop the right operand, then the left one, push the result.
pub open spec fn binary_spec(s: VmV, op: u8) -> (VmV, EventV) {
    let n = s.stack.len();
    if n < 2 {
        (s.with_stack(Seq::empty()), underflow())
    } else {
        let l = s.stack[n - 2];
        let r = s.stack[n - 1];
        let s2 = s.with_stack(s.stack.take(n - 2));
        match binary_result(s.heap, op, l, r) {
            Ok(v) => (s2.push(v), EventV::Continue),
            Err(e) => (s2, e),
        }
    }
}

/// `NOT`: negates a boolean.
pub open spec fn not_spec(s: VmV) -> (VmV, EventV) {
    if s.stack.len() == 0 {
        (s, underflow())
    } else {
        let s1 = s.popped();
        match s.top() {
            ValueV::Boolean(b) => (s1.push(ValueV::Boolean(!b)), EventV::Continue),
            v => (s1, error_with(s.heap, "Not requires boolean, found "@, v)),
        }
    }
}

/// `PRINT`: pops a value and asks for it to be printed.
pub open spec fn print_spec(s: VmV) -> (VmV, EventV) {
    if s.stack.len() == 0 {
        (s, underflow())
    } else {
        match show_value(s.heap, s.top(), show_fuel(s.heap)) {
            Some(t) => (s.popped(), EventV::Print(t)),
            None => (s.popped(), endless()),
        }
    }
}

/// `POP`: drops the top of the stack.
pub open spec fn pop_spec(s: VmV) -> (VmV, EventV) {
    if s.stack.len() == 0 {
        (s, underflow())
    } else {
        (s.popped(), EventV::Continue)
    }
}

/// `CONSTANT idx`: pushes constant `idx`. `s.ip` is already past the opcode.
pub open spec fn constant_spec(s: VmV, code: Seq<u8>, consts: Seq<ValueV>) -> (VmV, EventV) {
    if s.ip + 4 > code.len() {
        (s, truncated())
    } else {
        let idx = u32_at(code, s.ip);
        let s1 = s.with_ip(s.ip + 4);
        if idx >= consts.len() {
            (s1, bad_constant())
        } else {
            (s1.push(consts[idx as int]), EventV::Continue)
        }
    }
}

/// `IS_ARRAY`, `IS_OBJECT`, `MEMBER_LENGTH`: questions about the top value.
pub open spec fn inspect_spec(s: VmV, op: u8) -> (VmV, EventV) {
    if s.stack.len() == 0 {
        (s, underflow())
    } else {
        let s1 = s.popped();
        let v = s.top();
        if op == OP_IS_ARRAY {
            (s1.push(ValueV::Boolean(v is Array)), EventV::Continue)
        } else if op == OP_IS_OBJECT {
            (s1.push(ValueV::Boolean(v is Object)), EventV::Continue)
        } else {
            match v {
                ValueV::Array(h) => if h >= s.heap.arrays.len() {
                    (s1, dangling())
                } else {
                    (
                        s1.push(ValueV::Number(s.heap.arrays[h as int].elements.len() as i64)),
                        EventV::Continue,
                    )
                },
                _ => (s1.push(ValueV::Null), EventV::Continue),
            }
        }
    }
}

pub open spec fn dangling() -> EventV {
    EventV::Fault("value refers to a heap slot that does not exist"@)
}

/// The `u32` operand at `p`, when it lies within the code.
pub fn operand_u32(code: &Vec<u8>, p: usize) -> (r: Option<u32>)
    ensures
        match r {
            Some(x) => p + 4 <= code@.len() <= usize::MAX && x == u32_at(code@, p as int),
            None => p + 4 > code@.len(),
        },
{
    if p <= code.len() && code.len() - p >= 4 {
        Some(Bytecode::read_u32(code.as_slice(), p))
    } else {
        None
    }
}

/// The `i64` operand at `p`, when it lies within the code.
pub fn operand_i64(code: &Vec<u8>, p: usize) -> (r: Option<i64>)
    ensures
        match r {
            Some(x) => p + 8 <= code@.len() <= usize::MAX && x == i64_at(code@, p as int),
            None => p + 8 > code@.len(),
        },
{
    if p <= code.len() && code.len() - p >= 8 {
        Some(Bytecode::read_i64(code.as_slice(), p))
    } else {
        None
    }
}

pub(crate) fn fault(msg: &str) -> (e: Event)
    ensures
        e@ == EventV::Fault(msg@),
{
    Event::Fault(msg.to_owned())
}

pub(crate) fn error(msg: &str) -> (e: Event)
    ensures
        e@ == EventV::Error(msg@),
{
    Event::Error(msg.to_owned())
}

impl VM {
    pub(crate) fn pop2(&mut self) -> (r: Option<(Value, Value)>)
        ensures
            ({
                let s = old(self)@;
                let n = s.stack.len();
                if n < 2 {
                    r is None && final(self)@ == s.with_stack(Seq::empty())
                } else {
                    match r {
                        Some((l, x)) => l@ == s.stack[n - 2] && x@ == s.stack[n - 1]
                            && final(self)@ == s.with_stack(s.stack.take(n - 2)),
                        None => false,
                    }
                }
            }),
    {
        let right = self.pop();
        match right {
            None => {
                assert(self@.stack =~= Seq::<ValueV>::empty());
                None
            },
            Some(r) => {
                let left = self.pop();
                match left {
                    None => {
                        assert(self@.stack =~= Seq::<ValueV>::empty());
                        None
                    },
                    Some(l) => {
                        assert(self@.stack =~= old(self)@.stack.take(old(self)@.stack.len() - 2));
                        Some((l, r))
                    },
                }
            },
        }
    }

    fn binary_result(&self, op: u8, l: Value, r: Value) -> (res: Result<Value, Event>)
        requires
            is_binary_op(op),
        ensures
            match (res, binary_result(self@.heap, op, l@, r@)) {
                (Ok(v), Ok(sv)) => v@ == sv,
                (Err(e), Err(se)) => e@ == se,
                _ => false,
            },
    {
        proof {
            reveal_with_fuel(crate::value::value_view, 2);
        }
        if op == OP_ADD {
            match (&l, &r) {
                (Value::Number(a), Value::Number(b)) => match a.checked_add(*b) {
                    Some(c) => Ok(Value::Number(c)),
                    None => Err(fault("integer overflow")),
                },
                (Value::String(a), Value::String(b)) => {
                    let mut c = a.clone();
                    c.append(b.as_str());
                    Ok(Value::String(c))
                },
                _ => Err(self.error_with2("Add requires two numbers or two strings, found ", &l, &r)),
            }
        } else if op == OP_SUBTRACT {
            match (&l, &r) {
                (Value::Number(a), Value::Number(b)) => match a.checked_sub(*b) {
                    Some(c) => Ok(Value::Number(c)),
                    None => Err(fault("integer overflow")),
                },
                _ => Err(self.error_with2("Subtract requires two numbers, found ", &l, &r)),
            }
        } else if op == OP_MULTIPLY {
            match (&l, &r) {
                (Value::Number(a), Value::Number(b)) => match a.checked_mul(*b) {
                    Some(c) => Ok(Value::Number(c)),
                    None => Err(fault("integer overflow")),
                },
                _ => Err(self.error_with2("Multiply requires two numbers, found ", &l, &r)),
            }
        } else if op == OP_DIVIDE {
            match (&l, &r) {
                (Value::Number(a), Value::Number(b)) => if *b == 0 {
                    Err(error("Division by zero"))
                } else {
                    match a.checked_div(*b) {
                        Some(c) => Ok(Value::Number(c)),
                        None => Err(fault("integer overflow")),
                    }
                },
                _ => Err(self.error_with2("Divide requires two numbers, found ", &l, &r)),
            }
        } else if op == OP_EQUALS || op == OP_NOT_EQUALS {
            let fuel = self.eq_fuel();
            match equal_values(&self.heap, &l, &r, fuel) {
                Some(b) => Ok(Value::Boolean(if op == OP_EQUALS { b } else { !b })),
                None => Err(fault("value contains itself; the operation does not end")),
            }
        } else if op == OP_GREATER {
            match (&l, &r) {
                (Value::Number(a), Value::Number(b)) => Ok(Value::Boolean(*a > *b)),
                _ => Err(self.error_with2("Greater requires numbers, found ", &l, &r)),
            }
        } else if op == OP_LESS {
            match (&l, &r) {
                (Value::Number(a), Value::Number(b)) => Ok(Value::Boolean(*a < *b)),
                _ => Err(self.error_with2("Less requires numbers, found ", &l, &r)),
            }
        } else if op == OP_GREATER_EQUAL {
            match (&l, &r) {
                (Value::Number(a), Value::Number(b)) => Ok(Value::Boolean(*a >= *b)),
                _ => Err(self.error_with2("GreaterEqual requires numbers, found ", &l, &r)),
            }
        } else if op == OP_LESS_EQUAL {
            match (&l, &r) {
                (Value::Number(a), Value::Number(b)) => Ok(Value::Boolean(*a <= *b)),
                _ => Err(self.error_with2("LessEqual requires numbers, found ", &l, &r)),
            }
        } else if op == OP_AND {
            match (&l, &r) {
                (Value::Boolean(a), Value::Boolean(b)) => Ok(Value::Boolean(*a && *b)),
                _ => Err(self.error_with2("And requires booleans, found ", &l, &r)),
            }
        } else {
            match (&l, &r) {
                (Value::Boolean(a), Value::Boolean(b)) => Ok(Value::Boolean(*a || *b)),
                _ => Err(self.error_with2("Or requires booleans, found ", &l, &r)),
            }
        }
    }

    /// A two-operand instruction (see `binary_spec`).
    pub fn op_binary(&mut self, op: u8) -> (e: Event)
        requires
            is_binary_op(op),
        ensures
            (final(self)@, e@) == binary_spec(old(self)@, op),
    {
        match self.pop2() {
            None => error("Stack underflow"),
            Some((l, r)) => match self.binary_result(op, l, r) {
                Ok(v) => {
                    self.push(v);
                    Event::Continue
                },
                Err(e) => e,
            },
        }
    }

    pub fn op_not(&mut self) -> (e: Event)
        ensures
            (final(self)@, e@) == not_spec(old(self)@),
    {
        proof {
            reveal_with_fuel(crate::value::value_view, 2);
        }
        match self.pop() {
            None => error("Stack underflow"),
            Some(v) => match v {
                Value::Boolean(b) => {
                    self.push(Value::Boolean(!b));
                    Event::Continue
                },
                _ => self.error_with("Not requires boolean, found ", &v),
            },
        }
    }

    pub fn op_print(&mut self) -> (e: Event)
        ensures
            (final(self)@, e@) == print_spec(old(self)@),
    {
        match self.pop() {
            None => error("Stack underflow"),
            Some(v) => {
                let mut out = String::new();
                let fuel = self.show_fuel();
                if write_value(&self.heap, &v, fuel, &mut out) {
                    Event::Print(out)
                } else {
                    fault("value contains itself; the operation does not end")
                }
            },
        }
    }

    pub fn op_pop(&mut self) -> (e: Event)
        ensures
            (final(self)@, e@) == pop_spec(old(self)@),
    {
        match self.pop() {
            None => error("Stack underflow"),
            Some(_) => Event::Continue,
        }
    }

    pub fn op_constant(&mut self, bc: &Bytecode) -> (e: Event)
        ensures
            (final(self)@, e@) == constant_spec(old(self)@, bc.code@, values_view(bc.constants@)),
    {
        proof {
            lemma_values_view_index(bc.constants@);
        }
        match operand_u32(&bc.code, self.ip) {
            None => fault("operand runs past the end of the code"),
            Some(idx) => {
                self.ip = self.ip + 4;
                if idx as usize >= bc.constants.len() {
                    fault("constant index out of range")
                } else {
                    let v = copy_value(&bc.constants[idx as usize]);
                    self.push(v);
                    Event::Continue
                }
            },
        }
    }

    pub fn op_inspect(&mut self, op: u8) -> (e: Event)
        ensures
            (final(self)@, e@) == inspect_spec(old(self)@, op),
    {
        proof {
            reveal_with_fuel(crate::value::value_view, 2);
        }
        match self.pop() {
            None => error("Stack underflow"),
            Some(v) => {
                if op == OP_IS_ARRAY {
                    let b = match v {
                        Value::Array(_) => true,
                        _ => false,
                    };
                    self.push(Value::Boolean(b));
                    Event::Continue
                } else if op == OP_IS_OBJECT {
                    let b = match v {
                        Value::Object(_) => true,
                        _ => false,
                    };
                    self.push(Value::Boolean(b));
                    Event::Continue
                } else {
                    match v {
                        Value::Array(h) => {
                            if h >= self.heap.array_count() {
                                fault("value refers to a heap slot that does not exist")
                            } else {
                                let n = self.heap.array_len(h);
                                self.push(Value::Number(n as i64));
                                Event::Continue
                            }
                        },
                        _ => {
                            self.push(Value::Null);
                            Event::Continue
                        },
                    }
                }
            },
        }
    }
}

} // verus!
