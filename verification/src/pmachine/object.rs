//! Object instances: the live objects, classes and clones that scripts send
//! messages to.

use super::register::{Id, Register};
use std::collections::HashMap;
use vstd::prelude::*;

verus! {

broadcast use vstd::std_specs::hash::group_hash_axioms;

/// What an object definition describes, from its info word.
#[derive(Clone, Copy, Debug, PartialEq, Eq, Structural)]
pub enum ObjectType {
    Object,
    Clone,
    Class,
}

impl ObjectType {
    /// The object type of info word `v`: 0 an object, 1 a clone, 0x8000 a class.
    pub fn from_u16(v: u16) -> (t: Option<ObjectType>)
        ensures
            t == (if v == 0 {
                Some(ObjectType::Object)
            } else if v == 1 {
                Some(ObjectType::Clone)
            } else if v == 0x8000 {
                Some(ObjectType::Class)
            } else {
                None
            }),
    {
        if v == 0 {
            Some(ObjectType::Object)
        } else if v == 1 {
            Some(ObjectType::Clone)
        } else if v == 0x8000 {
            Some(ObjectType::Class)
        } else {
            None
        }
    }
}

/// The script space that clones are numbered in.
pub const CLONE_SPACE: u16 = 1000;

/// A live object.
pub struct ObjectInstance {
    pub id: Id,
    pub name: String,
    pub species: u16,
    pub object_type: ObjectType,
    /// The values of the object's properties, in the order of its selectors.
    pub variables: Vec<Register>,
    pub var_selectors: Vec<u16>,
    /// For each method selector, the script and code offset of the method.
    pub func_selectors: HashMap<u16, (u16, u16)>,
}

/// The content of an object.
pub struct ObjectView {
    pub id: Id,
    pub name: Seq<char>,
    pub species: u16,
    pub object_type: ObjectType,
    pub variables: Seq<Register>,
    pub var_selectors: Seq<u16>,
    pub func_selectors: Map<u16, (u16, u16)>,
}

impl View for ObjectInstance {
    type V = ObjectView;

    open spec fn view(&self) -> ObjectView {
        ObjectView {
            id: self.id,
            name: self.name@,
            species: self.species,
            object_type: self.object_type,
            variables: self.variables@,
            var_selectors: self.var_selectors@,
            func_selectors: self.func_selectors@,
        }
    }
}

/// The position of the first `sel` in `sels` from `i` on; the length where there is
/// none.
pub open spec fn first_index_from(sels: Seq<u16>, sel: u16, i: int) -> int
    decreases sels.len() - i,
{
    if i < 0 || i >= sels.len() {
        sels.len() as int
    } else if sels[i] == sel {
        i
    } else {
        first_index_from(sels, sel, i + 1)
    }
}

/// The position of the first `sel` in `sels`; the length where there is none.
pub open spec fn selector_index(sels: Seq<u16>, sel: u16) -> int {
    first_index_from(sels, sel, 0)
}

proof fn lemma_first_index_from(sels: Seq<u16>, sel: u16, i: int)
    requires
        0 <= i <= sels.len(),
    ensures
        i <= first_index_from(sels, sel, i) <= sels.len(),
        first_index_from(sels, sel, i) < sels.len() ==> sels[first_index_from(sels, sel, i)] == sel,
        forall|j: int| i <= j < first_index_from(sels, sel, i) ==> sels[j] != sel,
    decreases sels.len() - i,
{
    if i < sels.len() && sels[i] != sel {
        lemma_first_index_from(sels, sel, i + 1);
    }
}

/// What `selector_index` is: the first position of `sel`, or the length.
pub proof fn lemma_selector_index(sels: Seq<u16>, sel: u16)
    ensures
        0 <= selector_index(sels, sel) <= sels.len(),
        selector_index(sels, sel) < sels.len() <==> sels.contains(sel),
        selector_index(sels, sel) < sels.len() ==> sels[selector_index(sels, sel)] == sel,
        forall|j: int| 0 <= j < selector_index(sels, sel) ==> sels[j] != sel,
{
    lemma_first_index_from(sels, sel, 0);
    if sels.contains(sel) {
        let k = choose|k: int| 0 <= k < sels.len() && sels[k] == sel;
        assert(k >= selector_index(sels, sel));
    }
}

/// Whether the object has a property with selector `sel`, with a value.
pub open spec fn has_property(o: ObjectView, sel: u16) -> bool {
    &&& selector_index(o.var_selectors, sel) < o.var_selectors.len()
    &&& selector_index(o.var_selectors, sel) < o.variables.len()
}

/// The value of the property with selector `sel`.
pub open spec fn spec_get_property(o: ObjectView, sel: u16) -> Register {
    o.variables[selector_index(o.var_selectors, sel)]
}

/// The object with the property with selector `sel` set to `value`.
pub open spec fn spec_set_property(o: ObjectView, sel: u16, value: Register) -> ObjectView {
    ObjectView { variables: o.variables.update(selector_index(o.var_selectors, sel), value), ..o }
}

/// The position in `v` of the first `x`, if any.
fn find_u16(v: &Vec<u16>, x: u16) -> (k: usize)
    ensures
        k == selector_index(v@, x),
{
    proof {
        lemma_selector_index(v@, x);
    }
    let mut i: usize = 0;
    while i < v.len()
        invariant
            i <= v@.len(),
            first_index_from(v@, x, 0) == first_index_from(v@, x, i as int),
        decreases v@.len() - i,
    {
        if v[i] == x {
            return i;
        }
        i = i + 1;
    }
    i
}

/// A copy of a vector of plain values.
pub fn copy_vec<T: Copy>(v: &Vec<T>) -> (c: Vec<T>)
    ensures
        c@ == v@,
{
    let mut c: Vec<T> = Vec::new();
    let mut i: usize = 0;
    while i < v.len()
        invariant
            i <= v@.len(),
            c@ == v@.subrange(0, i as int),
        decreases v@.len() - i,
    {
        c.push(v[i]);
        i = i + 1;
        assert(c@ =~= v@.subrange(0, i as int));
    }
    assert(c@ =~= v@);
    c
}

impl ObjectInstance {
    /// The script and code offset of the method with selector `selector`.
    pub fn get_func_selector(&self, selector: u16) -> (f: (u16, u16))
        requires
            self.func_selectors@.contains_key(selector),
        ensures
            f == self.func_selectors@[selector],
    {
        match self.func_selectors.get(&selector) {
            Some(f) => *f,
            None => (0, 0),
        }
    }

    /// Whether `selector` names a property of the object.
    pub fn has_var_selector(&self, selector: u16) -> (b: bool)
        ensures
            b == self.var_selectors@.contains(selector),
    {
        proof {
            lemma_selector_index(self.var_selectors@, selector);
        }
        find_u16(&self.var_selectors, selector) < self.var_selectors.len()
    }

    /// Whether the object has a property with selector `selector`, with a value.
    pub fn has_property_value(&self, selector: u16) -> (b: bool)
        ensures
            b == has_property(self@, selector),
    {
        let idx = find_u16(&self.var_selectors, selector);
        idx < self.var_selectors.len() && idx < self.variables.len()
    }

    /// The property stored at byte offset `offset` (two bytes a property).
    pub fn get_property_by_offset(&self, offset: u8) -> (v: Register)
        requires
            offset / 2 < self.variables@.len(),
        ensures
            v == self.variables@[(offset / 2) as int],
    {
        self.variables[offset as usize / 2]
    }

    /// Sets the property stored at byte offset `offset`.
    pub fn set_property_by_offset(&mut self, offset: u8, value: Register)
        requires
            offset / 2 < old(self).variables@.len(),
        ensures
            final(self)@ == (ObjectView {
                variables: old(self)@.variables.update((offset / 2) as int, value),
                ..old(self)@
            }),
    {
        self.variables.set(offset as usize / 2, value);
    }

    /// The property with selector `selector`.
    pub fn get_property(&self, selector: u16) -> (v: Register)
        requires
            has_property(self@, selector),
        ensures
            v == spec_get_property(self@, selector),
    {
        let idx = find_u16(&self.var_selectors, selector);
        self.variables[idx]
    }

    /// Sets the property with selector `selector`.
    pub fn set_property(&mut self, selector: u16, value: Register)
        requires
            has_property(old(self)@, selector),
        ensures
            final(self)@ == spec_set_property(old(self)@, selector, value),
    {
        let idx = find_u16(&self.var_selectors, selector);
        self.variables.set(idx, value);
    }

    /// A clone of the object, numbered `number` in the clone space.
    pub fn kernel_clone(&self, number: usize) -> (c: ObjectInstance)
        ensures
            c@ == (ObjectView {
                id: Id { script_number: CLONE_SPACE, offset: number },
                object_type: ObjectType::Clone,
                ..self@
            }),
    {
        ObjectInstance {
            id: Id::new(CLONE_SPACE, number),
            name: self.name.clone(),
            object_type: ObjectType::Clone,
            species: self.species,
            variables: copy_vec(&self.variables),
            var_selectors: copy_vec(&self.var_selectors),
            func_selectors: self.func_selectors.clone(),
        }
    }
}

/// Reading a property gives what was last written to it, and writing one property
/// leaves the others as they were.
pub proof fn lemma_get_after_set(o: ObjectView, sel: u16, value: Register, other: u16)
    requires
        has_property(o, sel),
        has_property(o, other),
    ensures
        has_property(spec_set_property(o, sel, value), sel),
        spec_get_property(spec_set_property(o, sel, value), sel) == value,
        other != sel ==> spec_get_property(spec_set_property(o, sel, value), other)
            == spec_get_property(o, other),
{
    lemma_selector_index(o.var_selectors, sel);
    lemma_selector_index(o.var_selectors, other);
}

} // verus!
