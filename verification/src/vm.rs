//! The stack machine: its state, one instruction at a time.
//!
//! `step` carries out the instruction at `ip` and reports what the outside world has to do
//! next: nothing, print a line, read input, stop, or report an error. The caller loops.
use vstd::prelude::*;
use crate::value::{Value, ValueV, values_view, copy_value, lemma_values_view_index,
    lemma_values_view_push};
use crate::heap::{Heap, HeapV};
use crate::bytecode::{Bytecode, u32_at, i64_at};
use crate::render::{debug_value, write_debug};

verus! {

/// A function activation: where to go back to, where its locals start on the stack, and the
/// values its closure captured.
pub struct CallFrame {
    pub return_addr: usize,
    pub locals_start: usize,
    pub upvalues: Vec<Value>,
}

pub struct FrameV {
    pub return_addr: usize,
    pub locals_start: usize,
    pub upvalues: Seq<ValueV>,
}

pub open spec fn frame_view(f: CallFrame) -> FrameV {
    FrameV { return_addr: f.return_addr, locals_start: f.locals_start, upvalues: values_view(f.upvalues@) }
}

/// The machine state as values.
pub struct VmV {
    pub stack: Seq<ValueV>,
    pub globals: Seq<ValueV>,
    pub frames: Seq<FrameV>,
    pub heap: HeapV,
    pub ip: int,
}

/// What the machine asks of its caller after an instruction.
pub enum Event {
    /// Nothing: go on.
    Continue,
    /// Print this line.
    Print(String),
    /// Read a line of input of one of the kinds in `mask` (bit 0 text, bit 1 integer, bit 2
    /// float) after showing `prompt`, and hand the value back with `provide_input`.
    Input { mask: u8, prompt: String },
    /// The program has finished.
    Halt,
    /// The program stopped with this error.
    Error(String),
    /// The instruction cannot be carried out at all: the bytecode is malformed, an integer
    /// operation overflows, or a value is nested in itself so that showing or comparing it
    /// never ends.
    Fault(String),
}

pub enum EventV {
    Continue,
    Print(Seq<char>),
    Input { mask: u8, prompt: Seq<char> },
    Halt,
    Error(Seq<char>),
    Fault(Seq<char>),
}

impl View for Event {
    type V = EventV;

    open spec fn view(&self) -> EventV {
        match self {
            Event::Continue => EventV::Continue,
            Event::Print(s) => EventV::Print(s@),
            Event::Input { mask, prompt } => EventV::Input { mask: *mask, prompt: prompt@ },
            Event::Halt => EventV::Halt,
            Event::Error(s) => EventV::Error(s@),
            Event::Fault(s) => EventV::Fault(s@),
        }
    }
}

pub struct VM {
    pub stack: Vec<Value>,
    pub globals: Vec<Value>,
    pub call_stack: Vec<CallFrame>,
    pub heap: Heap,
    pub ip: usize,
}

impl View for VM {
    type V = VmV;

    open spec fn view(&self) -> VmV {
        VmV {
            stack: values_view(self.stack@),
            globals: values_view(self.globals@),
            frames: self.call_stack@.map_values(|f: CallFrame| frame_view(f)),
            heap: self.heap@,
            ip: self.ip as int,
        }
    }
}

// ---------------------------------------------------------------------------
// Small pieces of the specification.
// ---------------------------------------------------------------------------

pub open spec fn underflow() -> EventV {
    EventV::Error("Stack underflow"@)
}

pub open spec fn truncated() -> EventV {
    EventV::Fault("operand runs past the end of the code"@)
}

pub open spec fn overflow() -> EventV {
    EventV::Fault("integer overflow"@)
}

pub open spec fn endless() -> EventV {
    EventV::Fault("value contains itself; the operation does not end"@)
}

pub open spec fn bad_global() -> EventV {
    EventV::Fault("global index out of range"@)
}

pub open spec fn bad_constant() -> EventV {
    EventV::Fault("constant index out of range"@)
}

/// The number of heap cells plus one: every chain of references within an acyclic heap is
/// shorter.
pub open spec fn cells(h: HeapV) -> nat {
    h.arrays.len() + h.objects.len() + 1
}

pub open spec fn cap(n: nat) -> nat {
    if n > u64::MAX { u64::MAX as nat } else { n }
}

/// How deep showing a value may go.
pub open spec fn show_fuel(h: HeapV) -> nat {
    cap(cells(h))
}

/// How deep comparing two values may go: pairs of cells.
pub open spec fn eq_fuel(h: HeapV) -> nat {
    cap(cells(h) * cells(h))
}

/// The error message for `prefix` followed by the shown operand(s).
pub open spec fn error_with(h: HeapV, prefix: Seq<char>, v: ValueV) -> EventV {
    match debug_value(h, v, show_fuel(h)) {
        Some(d) => EventV::Error(prefix + d),
        None => endless(),
    }
}

pub open spec fn error_with2(h: HeapV, prefix: Seq<char>, l: ValueV, r: ValueV) -> EventV {
    match (debug_value(h, l, show_fuel(h)), debug_value(h, r, show_fuel(h))) {
        (Some(a), Some(b)) => EventV::Error(prefix + a + " and "@ + b),
        _ => endless(),
    }
}

impl VmV {
    pub open spec fn with_stack(self, stack: Seq<ValueV>) -> VmV {
        VmV { stack, ..self }
    }

    pub open spec fn with_ip(self, ip: int) -> VmV {
        VmV { ip, ..self }
    }

    pub open spec fn push(self, v: ValueV) -> VmV {
        VmV { stack: self.stack.push(v), ..self }
    }

    pub open spec fn popped(self) -> VmV {
        VmV { stack: self.stack.drop_last(), ..self }
    }

    pub open spec fn top(self) -> ValueV {
        self.stack.last()
    }
}

impl VM {
    pub fn new() -> (vm: VM)
        ensures
            vm@.stack == Seq::<ValueV>::empty(),
            vm@.globals == Seq::<ValueV>::empty(),
            vm@.frames == Seq::<FrameV>::empty(),
            vm@.heap.arrays.len() == 0,
            vm@.heap.objects.len() == 0,
            vm@.ip == 0,
    {
        let vm = VM {
            stack: Vec::new(),
            globals: Vec::new(),
            call_stack: Vec::new(),
            heap: Heap::new(),
            ip: 0,
        };
        proof {
            assert(values_view(vm.stack@) =~= Seq::<ValueV>::empty());
            assert(values_view(vm.globals@) =~= Seq::<ValueV>::empty());
            assert(vm@.frames =~= Seq::<FrameV>::empty());
        }
        vm
    }

    /// The position of the next instruction.
    pub fn ip(&self) -> (r: usize)
        ensures
            r == self@.ip,
    {
        self.ip
    }

    /// Continues at `ip`.
    pub fn set_ip(&mut self, ip: usize)
        ensures
            final(self)@ == old(self)@.with_ip(ip as int),
    {
        self.ip = ip;
    }

    /// Makes room for `n` globals: new slots hold `null`, extra slots go.
    pub fn resize_globals(&mut self, n: usize)
        ensures
            final(self)@ == (VmV {
                globals: if n <= old(self)@.globals.len() {
                    old(self)@.globals.take(n as int)
                } else {
                    old(self)@.globals + Seq::new((n - old(self)@.globals.len()) as nat, |i: int| ValueV::Null)
                },
                ..old(self)@
            }),
    {
        proof {
            lemma_values_view_index(self.globals@);
        }
        if n <= self.globals.len() {
            self.globals.truncate(n);
            proof {
                lemma_values_view_index(self.globals@);
                assert(values_view(self.globals@) =~= values_view(old(self).globals@).take(n as int));
            }
        } else {
            let ghost start = self.globals@.len();
            while self.globals.len() < n
                invariant
                    start == old(self).globals@.len(),
                    start <= self.globals@.len() <= n,
                    forall|j: int| 0 <= j < start ==> self.globals@[j] == old(self).globals@[j],
                    forall|j: int| start <= j < self.globals@.len() ==> self.globals@[j] == Value::Null,
                    self.stack == old(self).stack,
                    self.call_stack == old(self).call_stack,
                    self.heap == old(self).heap,
                    self.ip == old(self).ip,
                decreases n - self.globals@.len(),
            {
                self.globals.push(Value::Null);
            }
            proof {
                lemma_values_view_index(self.globals@);
                lemma_values_view_index(old(self).globals@);
                assert(values_view(self.globals@) =~= values_view(old(self).globals@) + Seq::new(
                    (n - old(self)@.globals.len()) as nat,
                    |i: int| ValueV::Null,
                ));
            }
        }
    }

    // -----------------------------------------------------------------------
    // Stack.
    // -----------------------------------------------------------------------

    pub(crate) fn stack_len(&self) -> (n: usize)
        ensures
            n == self@.stack.len(),
    {
        proof {
            lemma_values_view_index(self.stack@);
        }
        self.stack.len()
    }

    /// Pops the top `k` values, in stack order.
    pub(crate) fn pop_many(&mut self, k: usize) -> (r: Vec<Value>)
        requires
            k <= old(self)@.stack.len(),
        ensures
            final(self)@ == old(self)@.with_stack(old(self)@.stack.take(old(self)@.stack.len() - k)),
            values_view(r@) == old(self)@.stack.skip(old(self)@.stack.len() - k),
    {
        proof {
            lemma_values_view_index(self.stack@);
        }
        let n = self.stack.len();
        let ghost before = self.stack@;
        let r = self.stack.split_off(n - k);
        proof {
            lemma_values_view_index(self.stack@);
            lemma_values_view_index(r@);
            assert(values_view(self.stack@) =~= values_view(before).take(n - k));
            assert(values_view(r@) =~= values_view(before).skip(n - k));
        }
        r
    }

    /// Empties the stack.
    pub(crate) fn clear_stack(&mut self)
        ensures
            final(self)@ == old(self)@.with_stack(Seq::empty()),
    {
        self.stack.clear();
        assert(values_view(self.stack@) =~= Seq::<ValueV>::empty());
    }

    pub(crate) fn push(&mut self, v: Value)
        ensures
            final(self)@ == old(self)@.push(v@),
    {
        let ghost vv = v@;
        self.stack.push(v);
        proof {
            lemma_values_view_push(old(self).stack@, self.stack@.last());
            assert(self.stack@ =~= old(self).stack@.push(self.stack@.last()));
        }
    }

    pub(crate) fn pop(&mut self) -> (r: Option<Value>)
        ensures
            old(self)@.stack.len() == 0 ==> r is None && final(self)@ == old(self)@,
            old(self)@.stack.len() > 0 ==> r is Some && r->0@ == old(self)@.top() && final(self)@
                == old(self)@.popped(),
    {
        proof {
            lemma_values_view_index(self.stack@);
        }
        match self.stack.pop() {
            Some(v) => {
                proof {
                    assert(old(self).stack@ =~= self.stack@.push(v));
                    lemma_values_view_push(self.stack@, v);
                    assert(values_view(old(self).stack@).drop_last() =~= values_view(self.stack@));
                }
                Some(v)
            },
            None => None,
        }
    }

    // -----------------------------------------------------------------------
    // Fuel and messages.
    // -----------------------------------------------------------------------

    pub(crate) fn show_fuel(&self) -> (f: u64)
        ensures
            f == show_fuel(self@.heap),
    {
        let a = self.heap.array_count() as u64;
        let b = self.heap.object_count() as u64;
        if b >= u64::MAX - a {
            u64::MAX
        } else {
            a + b + 1
        }
    }

    pub(crate) fn eq_fuel(&self) -> (f: u64)
        ensures
            f == eq_fuel(self@.heap),
    {
        let a = self.heap.array_count() as u64;
        let b = self.heap.object_count() as u64;
        if b >= u64::MAX - a {
            assert(cells(self@.heap) * cells(self@.heap) >= cells(self@.heap)) by (nonlinear_arith)
                requires
                    cells(self@.heap) >= 1,
            ;
            u64::MAX
        } else {
            let c = a + b + 1;
            match c.checked_mul(c) {
                Some(x) => x,
                None => u64::MAX,
            }
        }
    }

    /// `prefix` followed by the operand as error messages show it.
    pub(crate) fn error_with(&self, prefix: &str, v: &Value) -> (e: Event)
        ensures
            e@ == error_with(self@.heap, prefix@, v@),
    {
        let mut out = prefix.to_owned();
        let fuel = self.show_fuel();
        if write_debug(&self.heap, v, fuel, &mut out) {
            Event::Error(out)
        } else {
            Event::Fault("value contains itself; the operation does not end".to_owned())
        }
    }

    pub(crate) fn error_with2(&self, prefix: &str, l: &Value, r: &Value) -> (e: Event)
        ensures
            e@ == error_with2(self@.heap, prefix@, l@, r@),
    {
        let mut out = prefix.to_owned();
        let fuel = self.show_fuel();
        if !write_debug(&self.heap, l, fuel, &mut out) {
            return Event::Fault("value contains itself; the operation does not end".to_owned());
        }
        out.append(" and ");
        if write_debug(&self.heap, r, fuel, &mut out) {
            Event::Error(out)
        } else {
            Event::Fault("value contains itself; the operation does not end".to_owned())
        }
    }
}

} // verus!
