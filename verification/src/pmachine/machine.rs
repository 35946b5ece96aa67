//! The p-machine's state: the scripts it has loaded, the objects it has made, its
//! stack, heap and registers.

use super::heap::Heap;
use super::object::{copy_vec, ObjectInstance, ObjectType, ObjectView};
use super::register::{Id, Register};
use crate::resource::{get_resource, spec_resource_key, Resource, ResourceType};
use crate::script::{class_views, ClassView, Script, ScriptView, spec_script};
use std::collections::HashMap;
use vstd::prelude::*;

verus! {

broadcast use vstd::std_specs::hash::group_hash_axioms;

/// The picture that the game last asked for.
#[derive(Clone, Copy, Debug, PartialEq, Eq, Structural)]
pub struct BackgroundState {
    pub pic_number: u16,
    pub animation: i16,
    pub clear: bool,
    pub pic_not_valid: i16,
}

impl BackgroundState {
    /// No picture yet.
    pub fn new() -> (b: BackgroundState)
        ensures
            b == (BackgroundState { pic_number: 0, animation: 0, clear: false, pic_not_valid: 0 }),
    {
        BackgroundState { pic_number: 0, animation: 0, clear: false, pic_not_valid: 0 }
    }
}

/// The script with number `number`, as its resource holds it.
pub open spec fn spec_loaded_script(resources: Map<u16, Resource>, number: u16) -> Option<ScriptView> {
    let key = spec_resource_key(ResourceType::Script, number);
    if resources.contains_key(key) {
        spec_script(resources[key].resource_number, resources[key].resource_data@)
    } else {
        None
    }
}

/// The first class of species `species` among `classes` from `i` on.
pub open spec fn class_of_species(classes: Seq<ClassView>, species: u16, i: int) -> Option<ClassView>
    decreases classes.len() - i,
{
    if i < 0 || i >= classes.len() {
        None
    } else if classes[i].species == species {
        Some(classes[i])
    } else {
        class_of_species(classes, species, i + 1)
    }
}

/// The definition of class `class_num`: in the script that the class table names
/// for it, the first class of that species.
pub open spec fn spec_class_definition_of(
    resources: Map<u16, Resource>,
    class_scripts: Map<u16, u16>,
    class_num: u16,
) -> Option<ClassView> {
    if !class_scripts.contains_key(class_num) {
        None
    } else {
        match spec_loaded_script(resources, class_scripts[class_num]) {
            Some(s) => class_of_species(s.classes, class_num, 0),
            None => None,
        }
    }
}

/// The methods that a class definition lists itself, each under its selector and
/// with the definition's script: a later entry for a selector wins.
pub open spec fn own_functions(class: ClassView, n: int) -> Map<u16, (u16, u16)>
    decreases n,
{
    if n <= 0 {
        Map::empty()
    } else {
        own_functions(class, n - 1).insert(
            class.function_selectors[n - 1].0,
            (class.script_number, class.function_selectors[n - 1].1),
        )
    }
}

/// The methods of a class definition with those it inherits, following at most
/// `fuel` super classes; its own methods win over inherited ones.
pub open spec fn spec_functions(
    resources: Map<u16, Resource>,
    class_scripts: Map<u16, u16>,
    class: ClassView,
    fuel: nat,
) -> Option<Map<u16, (u16, u16)>>
    decreases fuel,
{
    let own = own_functions(class, class.function_selectors.len() as int);
    if class.super_class == 0xffff {
        Some(own)
    } else if fuel == 0 {
        None
    } else {
        match spec_class_definition_of(resources, class_scripts, class.super_class) {
            Some(sup) => match spec_functions(resources, class_scripts, sup, (fuel - 1) as nat) {
                Some(inherited) => Some(inherited.union_prefer_right(own)),
                None => None,
            },
            None => None,
        }
    }
}

/// The property selectors of an object definition: a class lists its own, an
/// object takes its super class's.
pub open spec fn spec_var_selectors(
    resources: Map<u16, Resource>,
    class_scripts: Map<u16, u16>,
    class: ClassView,
) -> Option<Seq<u16>> {
    if class.info == 0x8000 {
        Some(class.variable_selectors)
    } else {
        match spec_class_definition_of(resources, class_scripts, class.super_class) {
            Some(sup) => Some(sup.variable_selectors),
            None => None,
        }
    }
}

/// The object type named by an info word, whose bit 0x4 is ignored.
pub open spec fn spec_object_type(info: u16) -> Option<ObjectType> {
    let t = info & 0xfffb;
    if t == 0 {
        Some(ObjectType::Object)
    } else if t == 1 {
        Some(ObjectType::Clone)
    } else if t == 0x8000 {
        Some(ObjectType::Class)
    } else {
        None
    }
}

/// The identifier of a class definition.
pub open spec fn class_id(class: ClassView) -> Id {
    Id { script_number: class.script_number, offset: class.offset as usize }
}

/// The live object made from a definition.
pub open spec fn spec_instance(
    resources: Map<u16, Resource>,
    class_scripts: Map<u16, u16>,
    class: ClassView,
) -> Option<ObjectView> {
    match (
        spec_var_selectors(resources, class_scripts, class),
        spec_object_type(class.info),
        spec_functions(resources, class_scripts, class, CHAIN_LIMIT as nat),
    ) {
        (Some(sels), Some(t), Some(funcs)) => Some(
            ObjectView {
                id: class_id(class),
                name: class.name,
                species: class.species,
                object_type: t,
                variables: class.variables.map_values(|v: u16| Register::Value(v as i16)),
                var_selectors: sels,
                func_selectors: funcs,
            },
        ),
        _ => None,
    }
}

/// The position of the first object with identifier `id` from `i` on; the length
/// where there is none.
pub open spec fn object_index_from(objects: Seq<ObjectView>, id: Id, i: int) -> int
    decreases objects.len() - i,
{
    if i < 0 || i >= objects.len() {
        objects.len() as int
    } else if objects[i].id == id {
        i
    } else {
        object_index_from(objects, id, i + 1)
    }
}

/// The views of a list of objects.
pub open spec fn object_views(objects: Seq<ObjectInstance>) -> Seq<ObjectView> {
    objects.map_values(|o: ObjectInstance| o@)
}

/// The p-machine. Its caches of scripts and objects are owned maps that grow and
/// change through `&mut self`: a cache that fills through a shared reference could
/// not carry a contract, since what it holds would change while the reference
/// to it stays the same value.
pub struct Machine<'a> {
    pub resources: &'a HashMap<u16, Resource>,
    /// The script that defines each class.
    pub class_scripts: HashMap<u16, u16>,
    pub play_selector: u16,
    pub doit_selector: u16,
    /// The scripts loaded so far, by number.
    pub scripts: HashMap<u16, Script>,
    /// The objects made so far.
    pub objects: Vec<ObjectInstance>,
    /// The number that the next clone gets.
    pub clone_counter: usize,
    pub stack: Vec<Register>,
    pub heap: Heap,
    /// The accumulator.
    pub ax: Register,
    /// How many parameters a `&rest` added to the next call.
    pub rest_modifier: usize,
    pub background: BackgroundState,
}

impl<'a> Machine<'a> {
    /// Every loaded script is what its resource holds.
    pub open spec fn scripts_loaded(&self) -> bool {
        forall|n: u16| #[trigger]
            self.scripts@.contains_key(n) ==> spec_loaded_script(self.resources@, n) == Some(
                self.scripts@[n]@,
            )
    }

    /// Only the scripts may differ between the two machines.
    pub open spec fn same_but_scripts(&self, other: &Machine<'a>) -> bool {
        &&& self.resources == other.resources
        &&& self.class_scripts@ == other.class_scripts@
        &&& self.play_selector == other.play_selector
        &&& self.doit_selector == other.doit_selector
        &&& object_views(self.objects@) == object_views(other.objects@)
        &&& self.clone_counter == other.clone_counter
        &&& self.stack@ == other.stack@
        &&& self.heap@ == other.heap@
        &&& self.ax == other.ax
        &&& self.rest_modifier == other.rest_modifier
        &&& self.background == other.background
    }

    /// Only the scripts, the objects and the heap may differ between the two
    /// machines; the objects made before are kept.
    pub open spec fn same_but_scripts_and_heap(&self, other: &Machine<'a>) -> bool {
        &&& self.resources == other.resources
        &&& self.class_scripts@ == other.class_scripts@
        &&& self.play_selector == other.play_selector
        &&& self.doit_selector == other.doit_selector
        &&& self.clone_counter == other.clone_counter
        &&& self.stack@ == other.stack@
        &&& self.ax == other.ax
        &&& self.rest_modifier == other.rest_modifier
        &&& self.background == other.background
    }

    /// The later machine only has more scripts loaded.
    pub open spec fn loads_scripts(&self, later: &Machine<'a>) -> bool {
        &&& self.same_but_scripts(later)
        &&& later.scripts_loaded()
        &&& forall|n: u16| #[trigger]
            self.scripts@.contains_key(n) ==> later.scripts@.contains_key(n)
    }

    /// Loads script `number` into the cache, if it is not there; `false` where its
    /// resource is missing or malformed.
    pub fn initialise_script(&mut self, number: u16) -> (loaded: bool)
        requires
            old(self).scripts_loaded(),
        ensures
            old(self).loads_scripts(final(self)),
            loaded <==> final(self).scripts@.contains_key(number),
            loaded <==> spec_loaded_script(old(self).resources@, number) is Some,
    {
        if self.scripts.contains_key(&number) {
            return true;
        }
        let resource = match get_resource(self.resources, ResourceType::Script, number) {
            Some(r) => r,
            None => return false,
        };
        match Script::load(resource) {
            Some(script) => {
                self.scripts.insert(number, script);
                true
            },
            None => false,
        }
    }
}

/// How many definitions are followed up a chain of super classes at most: one
/// more than there are class numbers, so that only a chain that loops runs out.
pub const CHAIN_LIMIT: usize = 65537;

/// A copy of a class definition.
pub fn copy_class(c: &crate::script::ClassDefinition) -> (d: crate::script::ClassDefinition)
    ensures
        d@ == c@,
{
    crate::script::ClassDefinition {
        script_number: c.script_number,
        offset: c.offset,
        species: c.species,
        super_class: c.super_class,
        info: c.info,
        name: c.name.clone(),
        variables: copy_vec(&c.variables),
        variable_selectors: copy_vec(&c.variable_selectors),
        function_selectors: copy_vec(&c.function_selectors),
    }
}

/// The first class of the given species, copied.
fn find_class(classes: &Vec<crate::script::ClassDefinition>, species: u16) -> (c: Option<
    crate::script::ClassDefinition,
>)
    ensures
        match c {
            Some(c) => class_of_species(class_views(classes@), species, 0) == Some(c@),
            None => class_of_species(class_views(classes@), species, 0) is None,
        },
{
    let ghost cs = class_views(classes@);
    let mut i: usize = 0;
    while i < classes.len()
        invariant
            i <= classes@.len(),
            cs == class_views(classes@),
            class_of_species(cs, species, 0) == class_of_species(cs, species, i as int),
        decreases classes@.len() - i,
    {
        if classes[i].species == species {
            return Some(copy_class(&classes[i]));
        }
        i = i + 1;
    }
    None
}

impl<'a> Machine<'a> {
    /// The definition of class `class_num`, loading the script that holds it.
    pub fn get_class_definition(&mut self, class_num: u16) -> (c: Option<
        crate::script::ClassDefinition,
    >)
        requires
            old(self).scripts_loaded(),
        ensures
            old(self).loads_scripts(final(self)),
            match c {
                Some(c) => spec_class_definition_of(
                    old(self).resources@,
                    old(self).class_scripts@,
                    class_num,
                ) == Some(c@),
                None => spec_class_definition_of(
                    old(self).resources@,
                    old(self).class_scripts@,
                    class_num,
                ) is None,
            },
    {
        let script_number = match self.class_scripts.get(&class_num) {
            Some(n) => *n,
            None => return None,
        };
        if !self.initialise_script(script_number) {
            return None;
        }
        match self.scripts.get(&script_number) {
            Some(script) => find_class(&script.classes, class_num),
            None => None,
        }
    }

    /// The methods of a definition with those it inherits.
    pub fn get_inherited_functions(
        &mut self,
        class: &crate::script::ClassDefinition,
        fuel: usize,
    ) -> (funcs: Option<HashMap<u16, (u16, u16)>>)
        requires
            old(self).scripts_loaded(),
        ensures
            old(self).loads_scripts(final(self)),
            match funcs {
                Some(f) => spec_functions(
                    old(self).resources@,
                    old(self).class_scripts@,
                    class@,
                    fuel as nat,
                ) == Some(f@),
                None => spec_functions(
                    old(self).resources@,
                    old(self).class_scripts@,
                    class@,
                    fuel as nat,
                ) is None,
            },
        decreases fuel,
    {
        let ghost c = class@;
        let mut funcs: HashMap<u16, (u16, u16)> = HashMap::new();
        let ghost inherited: Map<u16, (u16, u16)> = Map::empty();
        if class.super_class != 0xffff {
            if fuel == 0 {
                return None;
            }
            let sup = match self.get_class_definition(class.super_class) {
                Some(s) => s,
                None => return None,
            };
            funcs = match self.get_inherited_functions(&sup, fuel - 1) {
                Some(f) => f,
                None => return None,
            };
            proof {
                inherited = funcs@;
            }
        }
        assert(inherited.union_prefer_right(own_functions(c, 0)) =~= inherited);
        let n = class.function_selectors.len();
        let mut i: usize = 0;
        while i < n
            invariant
                i <= n,
                n == c.function_selectors.len(),
                c == class@,
                funcs@ == inherited.union_prefer_right(own_functions(c, i as int)),
            decreases n - i,
        {
            let (selector, offset) = class.function_selectors[i];
            funcs.insert(selector, (class.script_number, offset));
            i = i + 1;
            assert(funcs@ =~= inherited.union_prefer_right(own_functions(c, i as int)));
        }
        Some(funcs)
    }
}

/// The position of the first object with identifier `id`; the length where there
/// is none.
pub open spec fn object_index(objects: Seq<ObjectView>, id: Id) -> int {
    object_index_from(objects, id, 0)
}

proof fn lemma_object_index_from(objects: Seq<ObjectView>, id: Id, i: int)
    requires
        0 <= i <= objects.len(),
    ensures
        i <= object_index_from(objects, id, i) <= objects.len(),
        object_index_from(objects, id, i) < objects.len() ==> objects[object_index_from(
            objects,
            id,
            i,
        )].id == id,
    decreases objects.len() - i,
{
    if i < objects.len() && objects[i].id != id {
        lemma_object_index_from(objects, id, i + 1);
    }
}

/// What `object_index` is: a position holding the identifier, or the length.
pub proof fn lemma_object_index(objects: Seq<ObjectView>, id: Id)
    ensures
        0 <= object_index(objects, id) <= objects.len(),
        object_index(objects, id) < objects.len() ==> objects[object_index(objects, id)].id == id,
{
    lemma_object_index_from(objects, id, 0);
}

proof fn lemma_object_index_from_push(objects: Seq<ObjectView>, x: ObjectView, id: Id, i: int)
    requires
        0 <= i <= objects.len(),
    ensures
        object_index_from(objects, id, i) < objects.len() ==> object_index_from(objects.push(x), id, i)
            == object_index_from(objects, id, i),
        object_index_from(objects, id, i) >= objects.len() ==> object_index_from(objects.push(x), id, i)
            == if x.id == id {
            objects.len() as int
        } else {
            objects.len() + 1int
        },
    decreases objects.len() - i,
{
    if i < objects.len() {
        assert(objects.push(x)[i] == objects[i]);
        if objects[i].id != id {
            lemma_object_index_from_push(objects, x, id, i + 1);
        }
    } else {
        assert(objects.push(x)[i] == x);
        assert(object_index_from(objects.push(x), id, i + 1) == objects.len() + 1);
    }
}

/// Adding an object keeps the positions of those before it, and finds it where
/// its identifier was not there yet.
pub proof fn lemma_object_index_push(objects: Seq<ObjectView>, x: ObjectView, id: Id)
    ensures
        object_index(objects, id) < objects.len() ==> object_index(objects.push(x), id) == object_index(
            objects,
            id,
        ),
        object_index(objects, id) >= objects.len() && x.id == id ==> object_index(objects.push(x), id)
            == objects.len(),
{
    lemma_object_index_from_push(objects, x, id, 0);
}

/// The variables of a definition as registers.
fn registers_of(values: &Vec<u16>) -> (r: Vec<Register>)
    ensures
        r@ == values@.map_values(|v: u16| Register::Value(v as i16)),
{
    let mut r: Vec<Register> = Vec::new();
    let mut i: usize = 0;
    while i < values.len()
        invariant
            i <= values@.len(),
            r@ == values@.subrange(0, i as int).map_values(|v: u16| Register::Value(v as i16)),
        decreases values@.len() - i,
    {
        r.push(Register::Value(values[i] as i16));
        i = i + 1;
        assert(r@ =~= values@.subrange(0, i as int).map_values(|v: u16| Register::Value(v as i16)));
    }
    assert(values@.subrange(0, values@.len() as int) =~= values@);
    r
}

impl<'a> Machine<'a> {
    /// Only scripts and objects may differ between the two machines.
    pub open spec fn same_but_scripts_and_objects(&self, other: &Machine<'a>) -> bool {
        &&& self.resources == other.resources
        &&& self.class_scripts@ == other.class_scripts@
        &&& self.play_selector == other.play_selector
        &&& self.doit_selector == other.doit_selector
        &&& self.clone_counter == other.clone_counter
        &&& self.stack@ == other.stack@
        &&& self.heap@ == other.heap@
        &&& self.ax == other.ax
        &&& self.rest_modifier == other.rest_modifier
        &&& self.background == other.background
    }

    /// The later machine has more scripts loaded and may have made the object of
    /// `class`: the objects before it are kept.
    pub open spec fn makes_object(&self, later: &Machine<'a>, class: ClassView) -> bool {
        &&& self.same_but_scripts_and_objects(later)
        &&& later.scripts_loaded()
        &&& forall|n: u16| #[trigger]
            self.scripts@.contains_key(n) ==> later.scripts@.contains_key(n)
        &&& if object_index(object_views(self.objects@), class_id(class)) < self.objects@.len() {
            object_views(later.objects@) == object_views(self.objects@)
        } else {
            match spec_instance(self.resources@, self.class_scripts@, class) {
                Some(o) => object_views(later.objects@) == object_views(self.objects@).push(o),
                None => object_views(later.objects@) == object_views(self.objects@),
            }
        }
    }

    /// The position of the object with identifier `id`, if it has been made.
    pub fn find_object(&self, id: Id) -> (k: Option<usize>)
        ensures
            match k {
                Some(k) => k == object_index(object_views(self.objects@), id) && k
                    < self.objects@.len(),
                None => object_index(object_views(self.objects@), id) == self.objects@.len(),
            },
    {
        let ghost objs = object_views(self.objects@);
        let mut i: usize = 0;
        while i < self.objects.len()
            invariant
                i <= self.objects@.len(),
                objs == object_views(self.objects@),
                object_index_from(objs, id, 0) == object_index_from(objs, id, i as int),
            decreases self.objects@.len() - i,
        {
            if self.objects[i].id == id {
                return Some(i);
            }
            i = i + 1;
        }
        None
    }

    /// Makes the live object of a definition, unless it is made already, and gives
    /// its identifier; `None` where its super class, its type or its methods cannot
    /// be had.
    pub fn initialise_object(&mut self, class: &crate::script::ClassDefinition) -> (id: Option<Id>)
        requires
            old(self).scripts_loaded(),
        ensures
            old(self).makes_object(final(self), class@),
            id is Some <==> object_index(object_views(old(self).objects@), class_id(class@))
                < old(self).objects@.len() || spec_instance(
                old(self).resources@,
                old(self).class_scripts@,
                class@,
            ) is Some,
            id matches Some(i) ==> i == class_id(class@),
    {
        let id = Id { script_number: class.script_number, offset: class.offset };
        if self.find_object(id).is_some() {
            return Some(id);
        }
        let var_selectors = if class.info == 0x8000 {
            copy_vec(&class.variable_selectors)
        } else {
            match self.get_class_definition(class.super_class) {
                Some(sup) => sup.variable_selectors,
                None => return None,
            }
        };
        assert((class.info & 0xfffb) == (class.info & !4u16)) by (bit_vector);
        let object_type = match ObjectType::from_u16(class.info & !4u16) {
            Some(t) => t,
            None => return None,
        };
        let func_selectors = match self.get_inherited_functions(class, CHAIN_LIMIT) {
            Some(f) => f,
            None => return None,
        };
        let instance = ObjectInstance {
            id,
            name: class.name.clone(),
            species: class.species,
            object_type,
            variables: registers_of(&class.variables),
            var_selectors,
            func_selectors,
        };
        self.objects.push(instance);
        proof {
            assert(object_views(self.objects@) =~= object_views(old(self).objects@).push(instance@));
        }
        Some(id)
    }
}

} // verus!
