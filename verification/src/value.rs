//! Runtime values of the virtual machine.
use vstd::prelude::*;

verus! {

/// A runtime value. Arrays and objects live in the machine's heap and are referred to by
/// their index there, so that every copy of the value sees the same contents.
#[derive(Debug)]
pub enum Value {
    Number(i64),
    String(String),
    Boolean(bool),
    Null,
    Function { bytecode_offset: usize, num_params: u32, upvalues: Vec<Value> },
    Array(usize),
    Object(usize),
}

/// A value with text as a character sequence.
pub enum ValueV {
    Number(i64),
    Str(Seq<char>),
    Boolean(bool),
    Null,
    Function { bytecode_offset: usize, num_params: u32, upvalues: Seq<ValueV> },
    Array(usize),
    Object(usize),
}

pub open spec fn value_view(v: Value) -> ValueV
    decreases v,
{
    match v {
        Value::Number(n) => ValueV::Number(n),
        Value::String(s) => ValueV::Str(s@),
        Value::Boolean(b) => ValueV::Boolean(b),
        Value::Null => ValueV::Null,
        Value::Function { bytecode_offset, num_params, upvalues } => ValueV::Function {
            bytecode_offset,
            num_params,
            upvalues: values_view(upvalues@),
        },
        Value::Array(h) => ValueV::Array(h),
        Value::Object(h) => ValueV::Object(h),
    }
}

pub open spec fn values_view(vs: Seq<Value>) -> Seq<ValueV>
    decreases vs,
{
    if vs.len() == 0 {
        Seq::empty()
    } else {
        seq![value_view(vs[0])] + values_view(vs.drop_first())
    }
}

/// A copy of a value: the same variant with the same contents.
pub fn copy_value(v: &Value) -> (r: Value)
    ensures
        r@ == v@,
    decreases v,
{
    match v {
        Value::Number(n) => Value::Number(*n),
        Value::String(s) => Value::String(s.clone()),
        Value::Boolean(b) => Value::Boolean(*b),
        Value::Null => Value::Null,
        Value::Function { bytecode_offset, num_params, upvalues } => {
            let ups = copy_values(upvalues);
            Value::Function { bytecode_offset: *bytecode_offset, num_params: *num_params, upvalues: ups }
        },
        Value::Array(h) => Value::Array(*h),
        Value::Object(h) => Value::Object(*h),
    }
}

/// A copy of a list of values.
pub fn copy_values(vs: &Vec<Value>) -> (r: Vec<Value>)
    ensures
        values_view(r@) == values_view(vs@),
        r@.len() == vs@.len(),
        forall|i: int| 0 <= i < vs@.len() ==> #[trigger] r@[i]@ == vs@[i]@,
    decreases vs,
{
    let mut out: Vec<Value> = Vec::new();
    let mut i: usize = 0;
    while i < vs.len()
        invariant
            i <= vs.len(),
            out@.len() == i,
            forall|j: int| 0 <= j < i ==> #[trigger] out@[j]@ == vs@[j]@,
        decreases vs.len() - i,
    {
        proof {
            assert(decreases_to!(*vs => vs@[i as int]));
        }
        let c = copy_value(&vs[i]);
        out.push(c);
        i = i + 1;
    }
    proof {
        lemma_values_view_index(out@);
        lemma_values_view_index(vs@);
        assert forall|j: int| 0 <= j < vs@.len() implies values_view(out@)[j] == values_view(
            vs@,
        )[j] by {
            assert(out@[j]@ == vs@[j]@);
            assert(value_view(out@[j]) == out@[j]@);
            assert(value_view(vs@[j]) == vs@[j]@);
        }
        assert(values_view(out@) =~= values_view(vs@));
    }
    out
}

impl Clone for Value {
    fn clone(&self) -> (r: Self)
        ensures
            r@ == self@,
    {
        copy_value(self)
    }
}

impl View for Value {
    type V = ValueV;

    open spec fn view(&self) -> ValueV {
        value_view(*self)
    }
}


pub proof fn lemma_values_view_index(vs: Seq<Value>)
    ensures
        values_view(vs).len() == vs.len(),
        forall|i: int| 0 <= i < vs.len() ==> #[trigger] values_view(vs)[i] == value_view(vs[i]),
    decreases vs.len(),
{
    if vs.len() > 0 {
        lemma_values_view_index(vs.drop_first());
        assert forall|i: int| 0 <= i < vs.len() implies #[trigger] values_view(vs)[i] == value_view(
            vs[i],
        ) by {
            if i > 0 {
                assert(values_view(vs)[i] == values_view(vs.drop_first())[i - 1]);
            }
        }
    }
}

pub proof fn lemma_values_view_push(vs: Seq<Value>, x: Value)
    ensures
        values_view(vs.push(x)) == values_view(vs).push(value_view(x)),
    decreases vs.len(),
{
    if vs.len() == 0 {
        assert(vs.push(x).drop_first() =~= Seq::<Value>::empty());
        assert(vs.push(x)[0] == x);
        assert(values_view(Seq::<Value>::empty()) =~= Seq::<ValueV>::empty());
        assert(values_view(vs.push(x)) =~= seq![value_view(x)]);
    } else {
        assert(vs.push(x).drop_first() =~= vs.drop_first().push(x));
        lemma_values_view_push(vs.drop_first(), x);
        assert(values_view(vs.push(x)) =~= values_view(vs).push(value_view(x)));
    }
}

} // verus!
