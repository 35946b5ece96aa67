//! Starting a game on the p-machine and running it until it asks for outside work.

use super::calls::{ops_views, spec_background, spec_cast_cels};
use super::engine::{
    code_step_done, first_at_offset, pushed_one, spec_method, Action, AnimateFrame, Engine, Frame,
    Pending, SendFrame,
};
use super::heap::Heap;
use super::interpret::{has_local, set_local};
use super::machine::{
    class_id, object_index, object_views, spec_class_definition_of, spec_instance, spec_loaded_script,
    BackgroundState, Machine,
};
use super::register::{Id, Register};
use super::vocab::{
    find_selector, load_vocab_class_scripts, load_vocab_opcode_names, load_vocab_selector_names,
    spec_class_scripts, spec_opcode_names, spec_selector_names,
};
use crate::resource::{get_resource, spec_resource_key, Resource, ResourceType};
use super::object::ObjectView;
use crate::script::{ClassView, Script};
use std::collections::HashMap;
use vstd::prelude::*;

verus! {

broadcast use vstd::std_specs::hash::group_hash_axioms;

/// The script variables of a script, each word taken as a signed value.
pub fn init_script_local_variables(script: &Script) -> (vars: Vec<Register>)
    ensures
        vars@ == script.variables@.map_values(|v: u16| Register::Value(v as i16)),
{
    let mut vars: Vec<Register> = Vec::new();
    let mut i: usize = 0;
    while i < script.variables.len()
        invariant
            i <= script.variables@.len(),
            vars@ == script.variables@.subrange(0, i as int).map_values(
                |v: u16| Register::Value(v as i16),
            ),
        decreases script.variables@.len() - i,
    {
        vars.push(Register::Value(script.variables[i] as i16));
        i = i + 1;
        assert(vars@ =~= script.variables@.subrange(0, i as int).map_values(
            |v: u16| Register::Value(v as i16),
        ));
    }
    assert(script.variables@.subrange(0, script.variables@.len() as int) =~= script.variables@);
    vars
}

/// The resource key of vocabulary resource `n`.
pub open spec fn vocab_key(n: u16) -> u16 {
    spec_resource_key(ResourceType::Vocab, n)
}

/// The smallest selector number whose name is `name`, if any has it.
pub open spec fn first_selector_named(names: Map<u16, Seq<char>>, name: Seq<char>, k: u16) -> bool {
    &&& names.contains_key(k)
    &&& names[k] == name
    &&& forall|j: u16| j < k && #[trigger] names.contains_key(j) ==> names[j] != name
}

/// Whether a machine can be made for the resources: the class table (vocabulary
/// 996, at most 0xffff bytes, all its segments 0), the selector names (vocabulary
/// 997, naming `play` and `doit`) and the opcode names (vocabulary 998) are there
/// and well formed.
pub open spec fn machine_can_start(resources: Map<u16, Resource>) -> bool {
    &&& resources.contains_key(vocab_key(996))
    &&& resources[vocab_key(996)].resource_data@.len() <= 0xffff
    &&& spec_class_scripts(resources[vocab_key(996)].resource_data@) is Some
    &&& resources.contains_key(vocab_key(997))
    &&& spec_selector_names(resources[vocab_key(997)].resource_data@) matches Some(names) && (exists|
        k: u16,
    | #[trigger] names.contains_key(k) && names[k] == "play"@) && (exists|k: u16|
        #[trigger] names.contains_key(k) && names[k] == "doit"@)
    &&& resources.contains_key(vocab_key(998))
    &&& spec_opcode_names(resources[vocab_key(998)].resource_data@) is Some
}

impl<'a> Machine<'a> {
    /// A machine for the game whose resources are `resources`: it reads the class
    /// table, the selector names (to find `play` and `doit`) and the opcode names;
    /// `None` where one of them is missing or malformed.
    pub fn init(resources: &'a HashMap<u16, Resource>) -> (m: Option<Machine<'a>>)
        ensures
            m is Some <==> machine_can_start(resources@),
            m matches Some(m) ==> {
                &&& m.scripts_loaded()
                &&& m.resources == resources
                &&& m.class_scripts@ == spec_class_scripts(
                    resources@[vocab_key(996)].resource_data@,
                ).unwrap()
                &&& first_selector_named(
                    spec_selector_names(resources@[vocab_key(997)].resource_data@).unwrap(),
                    "play"@,
                    m.play_selector,
                )
                &&& first_selector_named(
                    spec_selector_names(resources@[vocab_key(997)].resource_data@).unwrap(),
                    "doit"@,
                    m.doit_selector,
                )
                &&& m.scripts@.len() == 0
                &&& m.objects@.len() == 0
                &&& m.stack@.len() == 0
                &&& m.clone_counter == 1
                &&& m.heap@.lists.len() == 0
                &&& m.heap@.locals.len() == 0
                &&& m.heap@.next_list == 1
                &&& m.ax == Register::Undefined
                &&& m.rest_modifier == 0
                &&& m.background == (BackgroundState {
                    pic_number: 0,
                    animation: 0,
                    clear: false,
                    pic_not_valid: 0,
                })
            },
    {
        let class_res = match get_resource(resources, ResourceType::Vocab, 996) {
            Some(r) => r,
            None => return None,
        };
        if class_res.resource_data.len() > 0xffff {
            return None;
        }
        let class_scripts = match load_vocab_class_scripts(class_res) {
            Some(c) => c,
            None => return None,
        };
        let names_res = match get_resource(resources, ResourceType::Vocab, 997) {
            Some(r) => r,
            None => return None,
        };
        let names = match load_vocab_selector_names(names_res) {
            Some(n) => n,
            None => return None,
        };
        let ghost nm = spec_selector_names(names_res.resource_data@).unwrap();
        assert(nm =~= names@.map_values(|s: String| s@));
        let play = "play".to_owned();
        let doit = "doit".to_owned();
        let play_selector = match find_selector(&names, &play) {
            Some(k) => k,
            None => {
                proof {
                    if exists|k: u16| #[trigger] nm.contains_key(k) && nm[k] == "play"@ {
                        let k = choose|k: u16| #[trigger] nm.contains_key(k) && nm[k] == "play"@;
                        assert(names@.contains_key(k));
                    }
                }
                return None;
            },
        };
        let doit_selector = match find_selector(&names, &doit) {
            Some(k) => k,
            None => {
                proof {
                    if exists|k: u16| #[trigger] nm.contains_key(k) && nm[k] == "doit"@ {
                        let k = choose|k: u16| #[trigger] nm.contains_key(k) && nm[k] == "doit"@;
                        assert(names@.contains_key(k));
                    }
                }
                return None;
            },
        };
        assert(nm.contains_key(play_selector) && nm[play_selector] == "play"@);
        assert(nm.contains_key(doit_selector) && nm[doit_selector] == "doit"@);
        let ops_res = match get_resource(resources, ResourceType::Vocab, 998) {
            Some(r) => r,
            None => return None,
        };
        if load_vocab_opcode_names(ops_res).is_none() {
            return None;
        }
        let m = Machine {
            resources,
            class_scripts,
            play_selector,
            doit_selector,
            scripts: HashMap::new(),
            objects: Vec::new(),
            clone_counter: 1,
            stack: Vec::new(),
            heap: Heap::new(),
            ax: Register::Undefined,
            rest_modifier: 0,
            background: BackgroundState::new(),
        };
        Some(m)
    }
}

/// Every script of the resources is loaded and its variables are in the heap.
pub open spec fn scripts_preloaded<'a>(m: &Machine<'a>) -> bool {
    forall|n: u16|
        n < 2048 && #[trigger] spec_loaded_script(m.resources@, n) is Some ==> {
            &&& m.scripts@.contains_key(n)
            &&& m.heap@.locals.contains_key(n)
            &&& m.heap@.locals[n] == spec_loaded_script(m.resources@, n)->Some_0.variables.map_values(
                |v: u16| Register::Value(v as i16),
            )
        }
}

/// The object of every class whose instance can be built has been made.
pub open spec fn classes_made<'a>(m: &Machine<'a>) -> bool {
    forall|c: u16|
        #![trigger spec_class_definition_of(m.resources@, m.class_scripts@, c)]
        m.class_scripts@.contains_key(c) && spec_class_definition_of(m.resources@, m.class_scripts@, c) is Some
            && spec_instance(
            m.resources@,
            m.class_scripts@,
            spec_class_definition_of(m.resources@, m.class_scripts@, c)->Some_0,
        ) is Some ==> object_index(
            object_views(m.objects@),
            class_id(spec_class_definition_of(m.resources@, m.class_scripts@, c)->Some_0),
        ) < m.objects@.len()
}

/// Every object made in `before` is still there in `after`.
pub open spec fn objects_kept(before: Seq<ObjectView>, after: Seq<ObjectView>) -> bool {
    forall|id: Id| object_index(before, id) < before.len() ==> #[trigger] object_index(after, id) < after.len()
}

/// The game object's definition: the object at the offset that the first export
/// of script 0 gives.
pub open spec fn game_definition(resources: Map<u16, Resource>) -> Option<ClassView> {
    match spec_loaded_script(resources, 0) {
        Some(sv) => match sv.main_object_offset {
            Some(offset) => first_at_offset(sv.objects, offset, 0),
            None => None,
        },
        None => None,
    }
}

/// What the next selector of the send frame `sf`, taken off the frame stack of
/// `e`, does: with none left the send ends and its parameters leave the stack;
/// else the frame goes back with the selector counted, and the selector is sent.
pub open spec fn send_step_done<'a>(e: &Engine<'a>, later: &Engine<'a>, sf: SendFrame, r: Option<Action>) -> bool {
    if sf.next >= sf.offsets@.len() {
        &&& r is None
        &&& later.frames@ == e.frames@
        &&& later.m == (Machine { stack: later.m.stack, ..e.m })
        &&& later.m.stack@ == truncated(e.m.stack@, sf.start)
        &&& later.pending == e.pending
    } else {
        let off = sf.offsets@[sf.next as int];
        let at = sf.start + off;
        if e.m.stack@.len() != sf.end || sf.start >= sf.end || off >= sf.end - sf.start || !(
        e.m.stack@[at] is Value) || e.m.stack@[at]->Value_0 < 0 {
            r matches Some(Action::Fault)
        } else {
            &&& (r is None || r matches Some(Action::Fault))
            &&& exists|mid: Engine<'a>|
                mid.m == e.m && mid.pending == e.pending && pushed_one(e.frames@, mid.frames@) && (
                mid.frames@.last() matches Frame::Send(f) && f.obj == sf.obj && f.send_obj == sf.send_obj
                    && f.start == sf.start && f.end == sf.end && f.offsets@ == sf.offsets@ && f.next == sf.next
                    + 1) && #[trigger] super::engine::selector_sent(
                    &mid,
                    later,
                    sf.obj,
                    sf.send_obj,
                    e.m.stack@[at]->Value_0 as u16,
                    (at + 1) as usize,
                    r is None,
                )
        }
    }
}

/// What the next step of the animation frame `af`, taken off the frame stack of
/// `e`, does: the next cast member is sent `doit`, the frame going back with it
/// counted; with none left, the background and the cast's cels are drawn and the
/// kernel call's parameters leave the stack.
pub open spec fn animate_step_done<'a>(e: &Engine<'a>, later: &Engine<'a>, af: AnimateFrame, r: Option<Action>) -> bool {
    if af.next < af.cast@.len() {
        let member = af.cast@[af.next as int];
        &&& (r is None || r matches Some(Action::Fault))
        &&& exists|mid: Engine<'a>|
            mid.m == e.m && mid.pending == e.pending && pushed_one(e.frames@, mid.frames@) && (
            mid.frames@.last() matches Frame::Animate(f) && f.cast@ == af.cast@ && f.next == af.next + 1
                && f.stack_params == af.stack_params && f.kernel_start == af.kernel_start)
                && #[trigger] super::engine::method_started(
                &mid,
                later,
                member,
                member,
                e.m.doit_selector,
                af.stack_params,
                r is None,
            )
    } else if spec_background(&e.m) is Some && spec_cast_cels(&e.m, af.cast@) is Some {
        &&& r matches Some(Action::Draw { picture, cels }) && Some(picture@) == spec_background(&e.m)
            && Some(ops_views(cels@)) == spec_cast_cels(&e.m, af.cast@)
        &&& later.frames@ == e.frames@
        &&& later.m == (Machine { stack: later.m.stack, ..e.m })
        &&& later.m.stack@ == truncated(truncated(e.m.stack@, af.stack_params), af.kernel_start)
        &&& later.pending == e.pending
    } else {
        r matches Some(Action::Fault)
    }
}

/// What one unit of work does to `e`, giving `later` and the answer `r`: with no
/// frames the game has finished; else the top frame is taken off and run.
pub open spec fn step_done<'a>(e: &Engine<'a>, later: &Engine<'a>, r: Option<Action>) -> bool {
    &&& (r matches Some(Action::Finished)) <==> e.frames@.len() == 0
    &&& (r matches Some(Action::Finished)) ==> later.frames@.len() == 0
    &&& e.frames@.len() > 0 ==> match e.frames@.last() {
        Frame::Code(ctx) => exists|f: Engine<'a>|
            f.m == e.m && f.pending == e.pending && f.frames@ == e.frames@.drop_last() && #[trigger] code_step_done(
                &f,
                later,
                ctx,
                r,
            ),
        Frame::Send(sf) => exists|f: Engine<'a>|
            f.m == e.m && f.pending == e.pending && f.frames@ == e.frames@.drop_last() && #[trigger] send_step_done(
                &f,
                later,
                sf,
                r,
            ),
        Frame::Animate(af) => exists|f: Engine<'a>|
            f.m == e.m && f.pending == e.pending && f.frames@ == e.frames@.drop_last()
                && #[trigger] animate_step_done(&f, later, af, r),
    }
}

/// What running at most `budget` units of work does to `e`: units are done one
/// after the other while none answers; the first answer is the result, and with
/// the budget used up the answer is `Yield`.
pub open spec fn ran<'a>(e: &Engine<'a>, later: &Engine<'a>, budget: nat, r: Action) -> bool
    decreases budget,
{
    if budget == 0 {
        r == Action::Yield && *later == *e
    } else {
        exists|mid: Engine<'a>, a: Option<Action>|
            #[trigger] step_done(e, &mid, a) && match a {
                Some(x) => r == x && *later == mid,
                None => ran(&mid, later, (budget - 1) as nat, r),
            }
    }
}

impl<'a> Engine<'a> {
    /// Makes the game object, defined in script 0; `None` where it cannot be had.
    fn load_game_object(&mut self) -> (game: Option<Id>)
        requires
            old(self).wf(),
        ensures
            final(self).wf(),
            final(self).frames@ == old(self).frames@,
            final(self).pending == old(self).pending,
            final(self).m.same_but_scripts_and_heap(&old(self).m),
            final(self).m.heap@ == old(self).m.heap@,
            objects_kept(object_views(old(self).m.objects@), object_views(final(self).m.objects@)),
            match game {
                Some(id) => game_definition(old(self).m.resources@) is Some && id == class_id(
                    game_definition(old(self).m.resources@)->Some_0,
                ) && object_index(object_views(final(self).m.objects@), id) < final(self).m.objects@.len(),
                None => game_definition(old(self).m.resources@) is None || object_index(
                    object_views(final(self).m.objects@),
                    class_id(game_definition(old(self).m.resources@)->Some_0),
                ) >= final(self).m.objects@.len(),
            },
    {
        if !self.m.initialise_script(0) {
            return None;
        }
        let def = match self.m.scripts.get(&0) {
            Some(script) => match script.main_object_offset {
                Some(offset) => match script.get_object_by_offset(offset) {
                    Some(o) => {
                        proof {
                            let k = choose|k: int|
                                0 <= k < script.objects@.len() && *o == #[trigger] script.objects@[k] && o.offset
                                    == offset && forall|j: int| 0 <= j < k ==> #[trigger] script.objects@[j].offset != offset;
                            super::engine::lemma_first_at_offset(script@.objects, offset as int, 0, k);
                        }
                        super::machine::copy_class(o)
                    },
                    None => {
                        proof {
                            super::engine::lemma_first_at_offset(
                                script@.objects,
                                offset as int,
                                0,
                                script@.objects.len() as int,
                            );
                        }
                        return None;
                    },
                },
                None => return None,
            },
            None => return None,
        };
        let ghost before = object_views(self.m.objects@);
        let r = self.m.initialise_object(&def);
        proof {
            let after = object_views(self.m.objects@);
            super::machine::lemma_object_index(before, class_id(def@));
            super::machine::lemma_object_index(after, class_id(def@));
            assert forall|id: Id| object_index(before, id) < before.len() implies #[trigger] object_index(after, id)
                < after.len() by {
                if after != before {
                    let o = spec_instance(self.m.resources@, self.m.class_scripts@, def@)->Some_0;
                    super::machine::lemma_object_index_push(before, o, id);
                }
            }
            if after != before {
                let o = spec_instance(self.m.resources@, self.m.class_scripts@, def@)->Some_0;
                super::machine::lemma_object_index_push(before, o, class_id(def@));
            }
        }
        r
    }

    /// Loads every script of the resources and puts its variables in the heap.
    fn preload_scripts(&mut self)
        requires
            old(self).wf(),
        ensures
            final(self).wf(),
            final(self).frames@ == old(self).frames@,
            final(self).pending == old(self).pending,
            final(self).m.same_but_scripts_and_heap(&old(self).m),
            object_views(final(self).m.objects@) == object_views(old(self).m.objects@),
            scripts_preloaded(&final(self).m),
    {
        let mut n: u16 = 0;
        while n < 2048
            invariant
                self.wf(),
                self.frames@ == old(self).frames@,
                self.pending == old(self).pending,
                self.m.same_but_scripts_and_heap(&old(self).m),
                object_views(self.m.objects@) == object_views(old(self).m.objects@),
                n <= 2048,
                forall|k: u16|
                    k < n && #[trigger] spec_loaded_script(self.m.resources@, k) is Some ==> {
                        &&& self.m.scripts@.contains_key(k)
                        &&& self.m.heap@.locals.contains_key(k)
                        &&& self.m.heap@.locals[k] == spec_loaded_script(self.m.resources@, k)->Some_0.variables.map_values(
                            |v: u16| Register::Value(v as i16),
                        )
                    },
            decreases 2048 - n,
        {
            if get_resource(self.m.resources, ResourceType::Script, n).is_some() {
                if self.m.initialise_script(n) {
                    let vars = match self.m.scripts.get(&n) {
                        Some(script) => init_script_local_variables(script),
                        None => Vec::new(),
                    };
                    let ghost before = self.m.heap;
                    self.m.heap.script_local_variables.insert(n, vars);
                    assert(self.m.heap@.locals =~= before@.locals.insert(n, vars@));
                }
            }
            n = n + 1;
        }
    }

    /// Makes the object of every class whose instance can be built.
    fn make_class_objects(&mut self)
        requires
            old(self).wf(),
            scripts_preloaded(&old(self).m),
        ensures
            final(self).wf(),
            final(self).frames@ == old(self).frames@,
            final(self).pending == old(self).pending,
            final(self).m.same_but_scripts_and_heap(&old(self).m),
            final(self).m.heap@ == old(self).m.heap@,
            forall|n: u16| #[trigger] old(self).m.scripts@.contains_key(n) ==> final(self).m.scripts@.contains_key(n),
            scripts_preloaded(&final(self).m),
            classes_made(&final(self).m),
            objects_kept(object_views(old(self).m.objects@), object_views(final(self).m.objects@)),
    {
        let mut c: u32 = 0;
        while c < 65536
            invariant
                self.wf(),
                self.frames@ == old(self).frames@,
                self.pending == old(self).pending,
                self.m.same_but_scripts_and_heap(&old(self).m),
                self.m.heap@ == old(self).m.heap@,
                forall|n: u16| #[trigger] old(self).m.scripts@.contains_key(n) ==> self.m.scripts@.contains_key(n),
                scripts_preloaded(&self.m),
                objects_kept(object_views(old(self).m.objects@), object_views(self.m.objects@)),
                c <= 65536,
                forall|k: u16|
                    #![trigger spec_class_definition_of(self.m.resources@, self.m.class_scripts@, k)]
                    k < c && self.m.class_scripts@.contains_key(k) && spec_class_definition_of(
                        self.m.resources@,
                        self.m.class_scripts@,
                        k,
                    ) is Some && spec_instance(
                        self.m.resources@,
                        self.m.class_scripts@,
                        spec_class_definition_of(self.m.resources@, self.m.class_scripts@, k)->Some_0,
                    ) is Some ==> object_index(
                        object_views(self.m.objects@),
                        class_id(spec_class_definition_of(self.m.resources@, self.m.class_scripts@, k)->Some_0),
                    ) < self.m.objects@.len(),
            decreases 65536 - c,
        {
            if self.m.class_scripts.contains_key(&(c as u16)) {
                if let Some(def) = self.m.get_class_definition(c as u16) {
                    let ghost before = object_views(self.m.objects@);
                    self.m.initialise_object(&def);
                    proof {
                        let after = object_views(self.m.objects@);
                        assert forall|k: u16|
                            #![trigger spec_class_definition_of(self.m.resources@, self.m.class_scripts@, k)]
                            k <= c && self.m.class_scripts@.contains_key(k) && spec_class_definition_of(
                                self.m.resources@,
                                self.m.class_scripts@,
                                k,
                            ) is Some && spec_instance(
                                self.m.resources@,
                                self.m.class_scripts@,
                                spec_class_definition_of(self.m.resources@, self.m.class_scripts@, k)->Some_0,
                            ) is Some implies object_index(
                                after,
                                class_id(spec_class_definition_of(self.m.resources@, self.m.class_scripts@, k)->Some_0),
                            ) < after.len() by {
                            let id = class_id(spec_class_definition_of(self.m.resources@, self.m.class_scripts@, k)->Some_0);
                            super::machine::lemma_object_index(before, id);
                            if after != before {
                                let o = spec_instance(self.m.resources@, self.m.class_scripts@, def@)->Some_0;
                                super::machine::lemma_object_index_push(before, o, id);
                            }
                        }
                        assert forall|id: Id| object_index(before, id) < before.len() implies #[trigger] object_index(
                            after,
                            id,
                        ) < after.len() by {
                            if after != before {
                                let o = spec_instance(self.m.resources@, self.m.class_scripts@, def@)->Some_0;
                                super::machine::lemma_object_index_push(before, o, id);
                            }
                        }
                    }
                }
            }
            c = c + 1;
        }
    }

    /// Gets the game ready to run its play method: makes the game object (the
    /// object at the offset that script 0's first export gives), loads every script
    /// and puts its variables in the heap, makes the object of every class, and
    /// starts the game object's `play`; `false` where the game object or its `play`
    /// method cannot be had.
    pub fn start(&mut self) -> (ok: bool)
        requires
            old(self).wf(),
        ensures
            final(self).wf(),
            final(self).m.resources == old(self).m.resources,
            final(self).m.class_scripts@ == old(self).m.class_scripts@,
            final(self).m.play_selector == old(self).m.play_selector,
            final(self).m.doit_selector == old(self).m.doit_selector,
            final(self).m.stack@ == old(self).m.stack@,
            final(self).m.ax == old(self).m.ax,
            final(self).m.rest_modifier == old(self).m.rest_modifier,
            final(self).m.clone_counter == old(self).m.clone_counter,
            final(self).m.background == old(self).m.background,
            final(self).pending == old(self).pending,
            ok ==> scripts_preloaded(&final(self).m),
            ok ==> classes_made(&final(self).m),
            ok <==> game_definition(old(self).m.resources@) is Some && object_index(
                object_views(final(self).m.objects@),
                class_id(game_definition(old(self).m.resources@)->Some_0),
            ) < final(self).m.objects@.len() && spec_method(
                &final(self).m,
                class_id(game_definition(old(self).m.resources@)->Some_0),
                final(self).m.play_selector,
            ) is Some,
            ok ==> {
                let game = class_id(game_definition(old(self).m.resources@)->Some_0);
                let (script, offset) = spec_method(&final(self).m, game, final(self).m.play_selector)->Some_0;
                &&& pushed_one(old(self).frames@, final(self).frames@)
                &&& final(self).frames@.last() matches Frame::Code(c) && c.current_obj == game && c.script
                    == script && c.ip == offset && c.code@ == final(self).m.scripts@[script].data@
                    && c.stack_params == 0 && c.stack_temps == final(self).m.stack@.len() && c.stack_unwind
                    == final(self).m.stack@.len()
            },
            !ok ==> final(self).frames@ == old(self).frames@,
    {
        let game = match self.load_game_object() {
            Some(id) => id,
            None => return false,
        };
        self.preload_scripts();
        self.make_class_objects();
        let play = self.m.play_selector;
        self.send_selector(game, game, play, 0)
    }

    /// Does the next unit of work: an instruction of the top method, a selector of
    /// the top send, or a step of the top animation; `None` to go on.
    pub fn step(&mut self) -> (r: Option<Action>)
        requires
            old(self).wf(),
        ensures
            final(self).wf(),
            step_done(old(self), final(self), r),
    {
        let frame = match self.frames.pop() {
            Some(f) => f,
            None => return Some(Action::Finished),
        };
        assert(self.frames@ == old(self).frames@.drop_last());
        let ghost popped = *self;
        match frame {
            Frame::Code(ctx) => {
                let r = self.step_code(ctx);
                assert(code_step_done(&popped, self, ctx, r));
                r
            },
            Frame::Send(sf) => {
                let r = self.step_send(sf);
                assert(send_step_done(&popped, self, sf, r));
                r
            },
            Frame::Animate(af) => {
                let r = self.step_animate(af);
                assert(animate_step_done(&popped, self, af, r));
                r
            },
        }
    }

    /// The next selector of a send, or, when none is left, the end of the send.
    fn step_send(&mut self, sf: SendFrame) -> (r: Option<Action>)
        requires
            old(self).wf(),
        ensures
            final(self).wf(),
            !(r matches Some(Action::Finished)),
            send_step_done(old(self), final(self), sf, r),
    {
        let mut sf = sf;
        let ghost sf0 = sf;
        if sf.next >= sf.offsets.len() {
            self.m.stack.truncate(sf.start);
            assert(self.m.stack@ =~= truncated(old(self).m.stack@, sf.start));
            assert(self.m == (Machine { stack: self.m.stack, ..old(self).m }));
            return None;
        }
        let off = sf.offsets[sf.next];
        sf.next = sf.next + 1;
        let (obj, send_obj, start, end) = (sf.obj, sf.send_obj, sf.start, sf.end);
        self.frames.push(Frame::Send(sf));
        assert(self.frames@.subrange(0, old(self).frames@.len() as int) =~= old(self).frames@);
        let ghost mid = *self;
        if self.m.stack.len() != end || start >= end || off >= end - start {
            return Some(Action::Fault);
        }
        let at = start + off;
        let selector = match self.m.stack[at] {
            Register::Value(v) => {
                if v < 0 {
                    return Some(Action::Fault);
                }
                v as u16
            },
            _ => return Some(Action::Fault),
        };
        let ok = self.send_to_selector(obj, send_obj, selector, at + 1);
        let r = if ok { None } else { Some(Action::Fault) };
        assert(super::engine::selector_sent(&mid, self, obj, send_obj, selector, (at + 1) as usize, r is None));
        r
    }

    /// The next cast member's `doit`, or, when none is left, the drawing.
    fn step_animate(&mut self, af: AnimateFrame) -> (r: Option<Action>)
        requires
            old(self).wf(),
        ensures
            final(self).wf(),
            !(r matches Some(Action::Finished)),
            animate_step_done(old(self), final(self), af, r),
    {
        let mut af = af;
        if af.next < af.cast.len() {
            let member = af.cast[af.next];
            af.next = af.next + 1;
            let stack_params = af.stack_params;
            self.frames.push(Frame::Animate(af));
            assert(self.frames@.subrange(0, old(self).frames@.len() as int) =~= old(self).frames@);
            let ghost mid = *self;
            let doit = self.m.doit_selector;
            let ok = self.send_selector(member, member, doit, stack_params);
            let r = if ok { None } else { Some(Action::Fault) };
            assert(super::engine::method_started(&mid, self, member, member, doit, stack_params, r is None));
            return r;
        }
        self.show_cast(af)
    }

    /// The end of an animation: the `doit` sends' stack is dropped, then the
    /// background and the cast's cels are drawn and the kernel call's parameters
    /// leave the stack.
    fn show_cast(&mut self, af: AnimateFrame) -> (r: Option<Action>)
        requires
            old(self).wf(),
        ensures
            final(self).wf(),
            !(r matches Some(Action::Finished)),
            if spec_background(&old(self).m) is Some && spec_cast_cels(&old(self).m, af.cast@) is Some {
                &&& r matches Some(Action::Draw { picture, cels }) && Some(picture@) == spec_background(&old(self).m)
                    && Some(ops_views(cels@)) == spec_cast_cels(&old(self).m, af.cast@)
                &&& final(self).frames@ == old(self).frames@
                &&& final(self).m == (Machine { stack: final(self).m.stack, ..old(self).m })
                &&& final(self).m.stack@ == truncated(truncated(old(self).m.stack@, af.stack_params), af.kernel_start)
                &&& final(self).pending == old(self).pending
            } else {
                r matches Some(Action::Fault)
            },
    {
        self.m.stack.truncate(af.stack_params);
        assert(self.m.stack@ =~= truncated(old(self).m.stack@, af.stack_params));
        proof {
            super::calls::lemma_cast_cels_same(&self.m, &old(self).m, af.cast@);
        }
        let ghost st = self.m.stack@;
        let action = match self.draw_cast(&af.cast) {
            Some(a) => a,
            None => return Some(Action::Fault),
        };
        self.m.stack.truncate(af.kernel_start);
        assert(self.m.stack@ =~= truncated(st, af.kernel_start));
        assert(self.m == (Machine { stack: self.m.stack, ..old(self).m }));
        Some(action)
    }

    /// Runs until the game asks for outside work, stops, or `budget` units of work
    /// are done.
    pub fn run(&mut self, budget: u64) -> (r: Action)
        requires
            old(self).wf(),
        ensures
            final(self).wf(),
            r matches Action::Finished ==> final(self).frames@.len() == 0,
            budget == 0 ==> r matches Action::Yield,
            ran(old(self), final(self), budget as nat, r),
    {
        let mut left = budget;
        while left > 0
            invariant
                self.wf(),
                left <= budget,
                forall|fin: Engine<'a>, x: Action|
                    #[trigger] ran(self, &fin, left as nat, x) ==> ran(old(self), &fin, budget as nat, x),
            decreases left,
        {
            let ghost prev = *self;
            let r = self.step();
            match r {
                Some(a) => {
                    assert(step_done(&prev, self, r));
                    assert(ran(&prev, self, left as nat, a));
                    return a;
                },
                None => {},
            }
            let ghost before = left;
            left = left - 1;
            proof {
                assert forall|fin: Engine<'a>, x: Action|
                    #[trigger] ran(self, &fin, left as nat, x) implies ran(old(self), &fin, budget as nat, x) by {
                    assert(step_done(&prev, self, r));
                    assert(ran(&prev, &fin, before as nat, x));
                }
            }
        }
        assert(ran(self, self, 0, Action::Yield));
        Action::Yield
    }

    /// Answers a Wait: the ticks since the last wait go into the accumulator, a
    /// request to quit sets global variable 4, and the call's parameters leave the
    /// stack; `false`, with nothing changed, where no Wait is pending or there is no
    /// global 4 to set.
    pub fn resume_wait(&mut self, elapsed: i16, quit: bool) -> (ok: bool)
        requires
            old(self).wf(),
        ensures
            final(self).wf(),
            ok <==> old(self).pending is Wait && (quit ==> has_local(old(self).m.heap@.locals, 0, 4)),
            final(self).frames@ == old(self).frames@,
            ok ==> {
                &&& final(self).pending is Nothing
                &&& final(self).m.ax == Register::Value(elapsed)
                &&& final(self).m.stack@ == truncated(old(self).m.stack@, old(self).pending->Wait_0)
                &&& final(self).m.heap@.locals == if quit {
                    set_local(old(self).m.heap@.locals, 0, 4, Register::Value(1))
                } else {
                    old(self).m.heap@.locals
                }
                &&& final(self).m.heap@.lists == old(self).m.heap@.lists
                &&& object_views(final(self).m.objects@) == object_views(old(self).m.objects@)
            },
            !ok ==> final(self).m.ax == old(self).m.ax && final(self).m.stack@ == old(self).m.stack@
                && final(self).m.heap@ == old(self).m.heap@,
    {
        let start = match self.pending {
            Pending::Wait(s) => s,
            _ => return false,
        };
        if quit {
            let has_global = match self.m.heap.script_local_variables.get(&0) {
                Some(vs) => vs.len() > 4,
                None => false,
            };
            if !has_global {
                return false;
            }
            self.m.heap.set_local(0, 4, Register::Value(1));
        }
        self.pending = Pending::Nothing;
        self.m.ax = Register::Value(elapsed);
        self.m.stack.truncate(start);
        true
    }

    /// Answers a GetTime: the time goes into the accumulator and the call's
    /// parameters leave the stack; `false`, with nothing changed, where no GetTime is
    /// pending.
    pub fn resume_time(&mut self, value: i16) -> (ok: bool)
        requires
            old(self).wf(),
        ensures
            final(self).wf(),
            ok <==> old(self).pending is Time,
            final(self).frames@ == old(self).frames@,
            final(self).m.heap@ == old(self).m.heap@,
            ok ==> {
                &&& final(self).pending is Nothing
                &&& final(self).m.ax == Register::Value(value)
                &&& final(self).m.stack@ == truncated(old(self).m.stack@, old(self).pending->Time_0)
            },
            !ok ==> final(self).m.ax == old(self).m.ax && final(self).m.stack@ == old(self).m.stack@,
    {
        let start = match self.pending {
            Pending::Time(s) => s,
            _ => return false,
        };
        self.pending = Pending::Nothing;
        self.m.ax = Register::Value(value);
        self.m.stack.truncate(start);
        true
    }
}

/// The stack cut back to its first `n` values, if it has more.
pub open spec fn truncated(s: Seq<Register>, n: usize) -> Seq<Register> {
    if n < s.len() {
        s.subrange(0, n as int)
    } else {
        s
    }
}

} // verus!
