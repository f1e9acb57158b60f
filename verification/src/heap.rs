//! The machine's heap: arrays, and objects whose fields keep insertion order.
use vstd::prelude::*;
use indexmap::IndexMap;
use crate::value::{Value, ValueV, values_view, copy_value, copy_values, lemma_values_view_index};

verus! {

#[verifier::external_type_specification]
#[verifier::external_body]
#[verifier::reject_recursive_types(K)]
#[verifier::reject_recursive_types(V)]
#[verifier::reject_recursive_types(S)]
pub struct ExIndexMap<K, V, S>(IndexMap<K, V, S>);

/// A field list: key text and value, in the map's order.
pub type Fields = Seq<(Seq<char>, ValueV)>;

/// The entries of an object's field map, in its iteration order.
pub uninterp spec fn map_entries(m: IndexMap<String, Value>) -> Seq<(Seq<char>, ValueV)>;

/// The position of the first entry with key `k`, looking from `i` on.
pub open spec fn key_index_from(es: Fields, k: Seq<char>, i: int) -> Option<int>
    decreases es.len() - i,
{
    if i < 0 || i >= es.len() {
        None
    } else if es[i].0 == k {
        Some(i)
    } else {
        key_index_from(es, k, i + 1)
    }
}

/// The position of the first entry with key `k`.
pub open spec fn key_index(es: Fields, k: Seq<char>) -> Option<int> {
    key_index_from(es, k, 0)
}

/// The value stored under `k`.
pub open spec fn lookup(es: Fields, k: Seq<char>) -> Option<ValueV> {
    match key_index(es, k) {
        Some(i) => Some(es[i].1),
        None => None,
    }
}

/// Insertion: an existing key keeps its place and gets the new value; a new key goes last.
pub open spec fn insert_entry(es: Fields, k: Seq<char>, v: ValueV) -> Fields {
    match key_index(es, k) {
        Some(i) => es.update(i, (k, v)),
        None => es.push((k, v)),
    }
}

/// Removal that keeps the order of the remaining entries.
pub open spec fn remove_entry(es: Fields, k: Seq<char>) -> Fields {
    match key_index(es, k) {
        Some(i) => es.remove(i),
        None => es,
    }
}

proof fn lemma_key_index_from(es: Fields, k: Seq<char>, i: int)
    requires
        0 <= i,
    ensures
        match key_index_from(es, k, i) {
            Some(w) => i <= w < es.len() && es[w].0 == k && forall|j: int| i <= j < w ==> es[j].0 != k,
            None => forall|j: int| i <= j < es.len() ==> es[j].0 != k,
        },
    decreases es.len() - i,
{
    if i < es.len() && es[i].0 != k {
        lemma_key_index_from(es, k, i + 1);
    }
}

/// What `key_index` finds: the first entry with the key, or none when no entry has it.
pub proof fn lemma_key_index(es: Fields, k: Seq<char>)
    ensures
        match key_index(es, k) {
            Some(w) => 0 <= w < es.len() && es[w].0 == k && forall|j: int| 0 <= j < w ==> es[j].0 != k,
            None => forall|j: int| 0 <= j < es.len() ==> es[j].0 != k,
        },
{
    lemma_key_index_from(es, k, 0);
}

/// `IndexMap::new`: a map with no entries.
#[verifier::external_body]
fn map_new() -> (m: IndexMap<String, Value>)
    ensures
        map_entries(m) == Seq::<(Seq<char>, ValueV)>::empty(),
{
    IndexMap::new()
}

/// `IndexMap::get`: the value stored under the key.
#[verifier::external_body]
fn map_get<'a>(m: &'a IndexMap<String, Value>, key: &str) -> (r: Option<&'a Value>)
    ensures
        match r {
            Some(v) => lookup(map_entries(*m), key@) == Some(v@),
            None => lookup(map_entries(*m), key@) is None,
        },
{
    m.get(key)
}

/// `IndexMap::insert`: an existing key keeps its position and takes the new value; otherwise
/// the pair is appended.
#[verifier::external_body]
fn map_insert(m: &mut IndexMap<String, Value>, key: String, value: Value)
    ensures
        map_entries(*final(m)) == insert_entry(map_entries(*old(m)), key@, value@),
{
    m.insert(key, value);
}

/// `IndexMap::shift_remove`: the entry goes and the others keep their order.
#[verifier::external_body]
fn map_shift_remove(m: &mut IndexMap<String, Value>, key: &str)
    ensures
        map_entries(*final(m)) == remove_entry(map_entries(*old(m)), key@),
{
    m.shift_remove(key);
}

/// `IndexMap::len`: the number of entries.
#[verifier::external_body]
fn map_len(m: &IndexMap<String, Value>) -> (n: usize)
    ensures
        n == map_entries(*m).len(),
{
    m.len()
}

/// `IndexMap::get_index`: the key and value at a position.
#[verifier::external_body]
fn map_get_index<'a>(m: &'a IndexMap<String, Value>, i: usize) -> (r: Option<(&'a String, &'a Value)>)
    ensures
        match r {
            Some(kv) => i < map_entries(*m).len() && map_entries(*m)[i as int] == (kv.0@, kv.1@),
            None => i >= map_entries(*m).len(),
        },
{
    m.get_index(i)
}

/// An array on the heap.
pub struct ArrayData {
    pub mutable: bool,
    pub elements: Vec<Value>,
}

pub struct ArrayV {
    pub mutable: bool,
    pub elements: Seq<ValueV>,
}

/// An object on the heap: its fields in insertion order.
pub struct ObjectData {
    pub fields: IndexMap<String, Value>,
}

/// The arrays and objects that values refer to by index.
pub struct Heap {
    pub arrays: Vec<ArrayData>,
    pub objects: Vec<ObjectData>,
}

pub struct HeapV {
    pub arrays: Seq<ArrayV>,
    pub objects: Seq<Fields>,
}

pub open spec fn array_view(a: ArrayData) -> ArrayV {
    ArrayV { mutable: a.mutable, elements: values_view(a.elements@) }
}

impl View for Heap {
    type V = HeapV;

    open spec fn view(&self) -> HeapV {
        HeapV {
            arrays: self.arrays@.map_values(|a: ArrayData| array_view(a)),
            objects: self.objects@.map_values(|o: ObjectData| map_entries(o.fields)),
        }
    }
}

impl Heap {
    pub fn new() -> (h: Heap)
        ensures
            h@.arrays == Seq::<ArrayV>::empty(),
            h@.objects == Seq::<Fields>::empty(),
    {
        let h = Heap { arrays: Vec::new(), objects: Vec::new() };
        assert(h@.arrays =~= Seq::<ArrayV>::empty());
        assert(h@.objects =~= Seq::<Fields>::empty());
        h
    }

    /// Adds an array and returns its index.
    pub fn alloc_array(&mut self, mutable: bool, elements: Vec<Value>) -> (h: usize)
        ensures
            h == old(self)@.arrays.len(),
            final(self)@.arrays == old(self)@.arrays.push(
                ArrayV { mutable, elements: values_view(elements@) },
            ),
            final(self)@.objects == old(self)@.objects,
    {
        let h = self.arrays.len();
        self.arrays.push(ArrayData { mutable, elements });
        assert(self@.arrays =~= old(self)@.arrays.push(
            ArrayV { mutable, elements: values_view(elements@) },
        ));
        assert(self@.objects =~= old(self)@.objects);
        h
    }

    /// Adds an object with no fields and returns its index.
    pub fn alloc_object(&mut self) -> (h: usize)
        ensures
            h == old(self)@.objects.len(),
            final(self)@.objects == old(self)@.objects.push(Seq::empty()),
            final(self)@.arrays == old(self)@.arrays,
    {
        let h = self.objects.len();
        let fields = map_new();
        self.objects.push(ObjectData { fields });
        assert(self@.objects =~= old(self)@.objects.push(Seq::empty()));
        assert(self@.arrays =~= old(self)@.arrays);
        h
    }

    pub fn array_count(&self) -> (n: usize)
        ensures
            n == self@.arrays.len(),
    {
        self.arrays.len()
    }

    pub fn object_count(&self) -> (n: usize)
        ensures
            n == self@.objects.len(),
    {
        self.objects.len()
    }

    pub fn array_is_mutable(&self, h: usize) -> (b: bool)
        requires
            h < self@.arrays.len(),
        ensures
            b == self@.arrays[h as int].mutable,
    {
        self.arrays[h].mutable
    }

    pub fn array_len(&self, h: usize) -> (n: usize)
        requires
            h < self@.arrays.len(),
        ensures
            n == self@.arrays[h as int].elements.len(),
    {
        proof {
            lemma_values_view_index(self.arrays@[h as int].elements@);
        }
        self.arrays[h].elements.len()
    }

    pub fn array_get(&self, h: usize, i: usize) -> (v: Value)
        requires
            h < self@.arrays.len(),
            i < self@.arrays[h as int].elements.len(),
        ensures
            v@ == self@.arrays[h as int].elements[i as int],
    {
        proof {
            lemma_values_view_index(self.arrays@[h as int].elements@);
        }
        copy_value(&self.arrays[h].elements[i])
    }

    /// The elements of array `h`.
    pub fn elements_of(&self, h: usize) -> (r: &Vec<Value>)
        requires
            h < self@.arrays.len(),
        ensures
            values_view(r@) == self@.arrays[h as int].elements,
    {
        &self.arrays[h].elements
    }

    /// A copy of the elements of array `h`.
    pub fn array_elements(&self, h: usize) -> (vs: Vec<Value>)
        requires
            h < self@.arrays.len(),
        ensures
            values_view(vs@) == self@.arrays[h as int].elements,
    {
        copy_values(&self.arrays[h].elements)
    }

    /// Replaces element `i` of array `h`.
    pub fn array_set(&mut self, h: usize, i: usize, v: Value)
        requires
            h < old(self)@.arrays.len(),
            i < old(self)@.arrays[h as int].elements.len(),
        ensures
            final(self)@.arrays == old(self)@.arrays.update(
                h as int,
                ArrayV {
                    mutable: old(self)@.arrays[h as int].mutable,
                    elements: old(self)@.arrays[h as int].elements.update(i as int, v@),
                },
            ),
            final(self)@.objects == old(self)@.objects,
    {
        proof {
            lemma_values_view_index(self.arrays@[h as int].elements@);
        }
        let ghost vv = v@;
        let ghost old_elems = self.arrays@[h as int].elements@;
        let mut a = self.arrays.remove(h);
        a.elements.set(i, v);
        proof {
            lemma_values_view_index(a.elements@);
            assert(values_view(a.elements@) =~= values_view(old_elems).update(i as int, vv));
        }
        self.arrays.insert(h, a);
        assert(self@.arrays =~= old(self)@.arrays.update(
            h as int,
            ArrayV {
                mutable: old(self)@.arrays[h as int].mutable,
                elements: old(self)@.arrays[h as int].elements.update(i as int, vv),
            },
        ));
        assert(self@.objects =~= old(self)@.objects);
    }

    /// Appends `v` to array `h`.
    pub fn array_push(&mut self, h: usize, v: Value)
        requires
            h < old(self)@.arrays.len(),
        ensures
            final(self)@.arrays == old(self)@.arrays.update(
                h as int,
                ArrayV {
                    mutable: old(self)@.arrays[h as int].mutable,
                    elements: old(self)@.arrays[h as int].elements.push(v@),
                },
            ),
            final(self)@.objects == old(self)@.objects,
    {
        let ghost vv = v@;
        let ghost old_elems = self.arrays@[h as int].elements@;
        let mut a = self.arrays.remove(h);
        a.elements.push(v);
        proof {
            crate::value::lemma_values_view_push(old_elems, a.elements@.last());
            assert(a.elements@ =~= old_elems.push(a.elements@.last()));
        }
        self.arrays.insert(h, a);
        assert(self@.arrays =~= old(self)@.arrays.update(
            h as int,
            ArrayV {
                mutable: old(self)@.arrays[h as int].mutable,
                elements: old(self)@.arrays[h as int].elements.push(vv),
            },
        ));
        assert(self@.objects =~= old(self)@.objects);
    }

    /// Removes and returns the last element of array `h`.
    pub fn array_pop(&mut self, h: usize) -> (v: Value)
        requires
            h < old(self)@.arrays.len(),
            old(self)@.arrays[h as int].elements.len() > 0,
        ensures
            v@ == old(self)@.arrays[h as int].elements.last(),
            final(self)@.arrays == old(self)@.arrays.update(
                h as int,
                ArrayV {
                    mutable: old(self)@.arrays[h as int].mutable,
                    elements: old(self)@.arrays[h as int].elements.drop_last(),
                },
            ),
            final(self)@.objects == old(self)@.objects,
    {
        let ghost old_elems = self.arrays@[h as int].elements@;
        proof {
            lemma_values_view_index(old_elems);
        }
        let mut a = self.arrays.remove(h);
        let v = a.elements.pop().unwrap();
        proof {
            assert(old_elems =~= a.elements@.push(v));
            crate::value::lemma_values_view_push(a.elements@, v);
            assert(values_view(old_elems).drop_last() =~= values_view(a.elements@));
        }
        self.arrays.insert(h, a);
        assert(self@.arrays =~= old(self)@.arrays.update(
            h as int,
            ArrayV {
                mutable: old(self)@.arrays[h as int].mutable,
                elements: old(self)@.arrays[h as int].elements.drop_last(),
            },
        ));
        assert(self@.objects =~= old(self)@.objects);
        v
    }

    /// The number of fields of object `h`.
    pub fn object_len(&self, h: usize) -> (n: usize)
        requires
            h < self@.objects.len(),
        ensures
            n == self@.objects[h as int].len(),
    {
        map_len(&self.objects[h].fields)
    }

    /// The value under `key` in object `h`.
    pub fn object_get(&self, h: usize, key: &str) -> (r: Option<Value>)
        requires
            h < self@.objects.len(),
        ensures
            match r {
                Some(v) => lookup(self@.objects[h as int], key@) == Some(v@),
                None => lookup(self@.objects[h as int], key@) is None,
            },
    {
        match map_get(&self.objects[h].fields, key) {
            Some(v) => Some(copy_value(v)),
            None => None,
        }
    }

    /// Field `i` of object `h`, in order.
    pub fn object_entry(&self, h: usize, i: usize) -> (r: (String, Value))
        requires
            h < self@.objects.len(),
            i < self@.objects[h as int].len(),
        ensures
            (r.0@, r.1@) == self@.objects[h as int][i as int],
    {
        match map_get_index(&self.objects[h].fields, i) {
            Some((k, v)) => (k.clone(), copy_value(v)),
            None => {
                assert(false);
                (String::new(), Value::Null)
            },
        }
    }

    /// Sets `key` to `v` in object `h`.
    pub fn object_insert(&mut self, h: usize, key: String, v: Value)
        requires
            h < old(self)@.objects.len(),
        ensures
            final(self)@.objects == old(self)@.objects.update(
                h as int,
                insert_entry(old(self)@.objects[h as int], key@, v@),
            ),
            final(self)@.arrays == old(self)@.arrays,
    {
        let ghost k = key@;
        let ghost vv = v@;
        let mut o = self.objects.remove(h);
        map_insert(&mut o.fields, key, v);
        self.objects.insert(h, o);
        assert(self@.objects =~= old(self)@.objects.update(
            h as int,
            insert_entry(old(self)@.objects[h as int], k, vv),
        ));
        assert(self@.arrays =~= old(self)@.arrays);
    }

    /// Removes `key` from object `h`.
    pub fn object_remove(&mut self, h: usize, key: &str)
        requires
            h < old(self)@.objects.len(),
        ensures
            final(self)@.objects == old(self)@.objects.update(
                h as int,
                remove_entry(old(self)@.objects[h as int], key@),
            ),
            final(self)@.arrays == old(self)@.arrays,
    {
        let mut o = self.objects.remove(h);
        map_shift_remove(&mut o.fields, key);
        self.objects.insert(h, o);
        assert(self@.objects =~= old(self)@.objects.update(
            h as int,
            remove_entry(old(self)@.objects[h as int], key@),
        ));
        assert(self@.arrays =~= old(self)@.arrays);
    }
}

} // verus!
