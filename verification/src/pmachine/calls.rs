//! The kernel calls: the services that scripts ask of the interpreter.

use super::engine::{
    first_at_offset, lemma_first_at_offset, lemma_first_string_at, object_made, pushed_one,
    spec_string_value, Action, AnimateFrame, Engine, Frame, Pending,
};
use super::heap::{placed, spec_delete_key, spec_find_key, HeapView};
use super::kernel::{
    compare, compare_bytes, do_bresen, init_bresen, kernel_random, spec_do_bresen, spec_init_bresen,
    spec_text_string, text_string, BresenInit,
};
use super::machine::{
    class_id, copy_class, object_index, object_views, spec_loaded_script, BackgroundState, Machine,
};
use super::object::{
    has_property, spec_get_property, spec_set_property, ObjectType, ObjectView, CLONE_SPACE,
};
use super::register::{DblListNode, Id, Register};
use crate::graphics::DrawOp;
use crate::picture::spec_draw_picture;
use crate::resource::{get_resource, spec_resource_key, Resource, ResourceType};
use crate::view::{cel_drawable, cel_ops, spec_load_view};
use vstd::prelude::*;
use vstd::string::StringSliceAdditionalSpecFns;
use vstd::utf8::is_char_boundary;

verus! {

broadcast use vstd::std_specs::hash::group_hash_axioms;

impl<'a> Engine<'a> {
    /// Parameter `i` of a kernel call whose parameters start at `start`.
    fn param(&self, start: usize, i: usize) -> (r: Option<Register>)
        ensures
            match r {
                Some(v) => start + i < self.m.stack@.len() && v == self.m.stack@[start + i],
                None => start + i >= self.m.stack@.len(),
            },
    {
        let n = self.m.stack.len();
        if start >= n || i >= n - start {
            return None;
        }
        Some(self.m.stack[start + i])
    }

    /// A value parameter.
    fn value_param(&self, start: usize, i: usize) -> (r: Option<i16>)
        ensures
            r matches Some(v) ==> start + i < self.m.stack@.len() && self.m.stack@[start + i]
                == Register::Value(v),
            r is None ==> start + i >= self.m.stack@.len() || !(self.m.stack@[start + i] is Value),
    {
        match self.param(start, i) {
            Some(Register::Value(v)) => Some(v),
            _ => None,
        }
    }

    /// A value parameter that is not negative.
    fn u16_param(&self, start: usize, i: usize) -> (r: Option<u16>)
        ensures
            r matches Some(v) ==> start + i < self.m.stack@.len() && self.m.stack@[start + i]
                == Register::Value(v as i16) && v <= 0x7fff,
            r is None ==> start + i >= self.m.stack@.len() || !is_u16_value(self.m.stack@[start + i]),
    {
        match self.value_param(start, i) {
            Some(v) => if v >= 0 { Some(v as u16) } else { None },
            None => None,
        }
    }

    /// An object parameter.
    fn obj_param(&self, start: usize, i: usize) -> (r: Option<Id>)
        ensures
            r matches Some(id) ==> start + i < self.m.stack@.len() && self.m.stack@[start + i]
                == Register::Object(id),
            r is None ==> start + i >= self.m.stack@.len() || !(self.m.stack@[start + i] is Object),
    {
        match self.param(start, i) {
            Some(Register::Object(id)) => Some(id),
            _ => None,
        }
    }

    /// A list parameter.
    fn list_param(&self, start: usize, i: usize) -> (r: Option<usize>)
        ensures
            r matches Some(l) ==> start + i < self.m.stack@.len() && self.m.stack@[start + i]
                == Register::DblList(l),
            r is None ==> start + i >= self.m.stack@.len() || !(self.m.stack@[start + i] is DblList),
    {
        match self.param(start, i) {
            Some(Register::DblList(l)) => Some(l),
            _ => None,
        }
    }

    /// A node parameter.
    fn node_param(&self, start: usize, i: usize) -> (r: Option<DblListNode>)
        ensures
            r matches Some(n) ==> start + i < self.m.stack@.len() && self.m.stack@[start + i]
                == Register::Node(n),
            r is None ==> start + i >= self.m.stack@.len() || !(self.m.stack@[start + i] is Node),
    {
        match self.param(start, i) {
            Some(Register::Node(n)) => Some(n),
            _ => None,
        }
    }

    /// The value of property `sel` of the object at position `k`.
    fn prop_value(&self, k: usize, sel: u16) -> (r: Option<i16>)
        requires
            k < self.m.objects@.len(),
        ensures
            r == prop_value_of(self.m.objects@[k as int]@, sel),
    {
        if !self.m.objects[k].has_property_value(sel) {
            return None;
        }
        match self.m.objects[k].get_property(sel) {
            Register::Value(v) => Some(v),
            _ => None,
        }
    }

    /// The object of property `sel` of the object at position `k`.
    fn prop_obj(&self, k: usize, sel: u16) -> (r: Option<Id>)
        requires
            k < self.m.objects@.len(),
        ensures
            r == prop_obj_of(self.m.objects@[k as int]@, sel),
    {
        if !self.m.objects[k].has_property_value(sel) {
            return None;
        }
        match self.m.objects[k].get_property(sel) {
            Register::Object(id) => Some(id),
            _ => None,
        }
    }

    /// Sets property `sel` of the object at position `k`, which must have it.
    fn set_prop(&mut self, k: usize, sel: u16, v: Register) -> (ok: bool)
        requires
            old(self).wf(),
        ensures
            final(self).wf(),
            final(self).frames@ == old(self).frames@,
            final(self).pending == old(self).pending,
            final(self).m == (Machine { objects: final(self).m.objects, ..old(self).m }),
            final(self).m.objects@.len() == old(self).m.objects@.len(),
            ok == (k < old(self).m.objects@.len() && has_property(old(self).m.objects@[k as int]@, sel)),
            object_views(final(self).m.objects@) == if ok {
                object_views(old(self).m.objects@).update(
                    k as int,
                    spec_set_property(old(self).m.objects@[k as int]@, sel, v),
                )
            } else {
                object_views(old(self).m.objects@)
            },
    {
        if k >= self.m.objects.len() || !self.m.objects[k].has_property_value(sel) {
            return false;
        }
        let ghost before = self.m.objects@;
        self.m.objects[k].set_property(sel, v);
        assert(object_views(self.m.objects@) =~= object_views(before).update(
            k as int,
            spec_set_property(before[k as int]@, sel, v),
        ));
        true
    }

    /// The string that a string register names, from its offset on: a string of a
    /// loaded script, cut at a character boundary.
    fn string_value(&self, r: Register) -> (s: Option<&str>)
        ensures
            match s {
                Some(s) => spec_string_value(self.m.scripts@, r) == Some(s.spec_bytes()),
                None => spec_string_value(self.m.scripts@, r) is None,
            },
    {
        let (id, off) = match r {
            Register::String(id, off) => (id, off),
            _ => return None,
        };
        let script = match self.m.scripts.get(&id.script_number) {
            Some(s) => s,
            None => return None,
        };
        let def = match script.get_string_by_offset(id.offset) {
            Some(d) => {
                proof {
                    let k = choose|k: int|
                        0 <= k < script.strings@.len() && *d == #[trigger] script.strings@[k]
                            && d.offset == id.offset && forall|j: int|
                            0 <= j < k ==> #[trigger] script.strings@[j].offset != id.offset;
                    assert forall|j: int| 0 <= j < k implies #[trigger] script@.strings[j].0 != id.offset as int by {
                        assert(script.strings@[j].offset != id.offset);
                    }
                    lemma_first_string_at(script@.strings, id.offset as int, 0, k);
                }
                d
            },
            None => {
                proof {
                    assert forall|j: int| 0 <= j < script@.strings.len() implies #[trigger] script@.strings[j].0 != id.offset as int by {
                        assert(script.strings@[j].offset != id.offset);
                    }
                    lemma_first_string_at(script@.strings, id.offset as int, 0, script@.strings.len() as int);
                }
                return None;
            },
        };
        let text = def.string.as_str();
        if !text.is_char_boundary(off) {
            return None;
        }
        let (_, rest) = text.split_at(off);
        Some(rest)
    }

    /// The drawing of cast member `id`'s cel; `Some(None)` where it is hidden.
    fn draw_member(&self, id: Id) -> (d: Option<Option<Vec<DrawOp>>>)
        ensures
            match d {
                Some(Some(ops)) => spec_member_cel(&self.m, id) == Some(Some(ops@)),
                Some(None) => spec_member_cel(&self.m, id) == Some(None::<Seq<DrawOp>>),
                None => spec_member_cel(&self.m, id) is None,
            },
    {
        let k = match self.m.find_object(id) {
            Some(k) => k,
            None => return None,
        };
        let _x = self.prop_value(k, 4)?;
        let _y = self.prop_value(k, 3)?;
        let _z = self.prop_value(k, 0x55)?;
        let view_num = self.prop_value(k, 5)?;
        if view_num < 0 {
            return None;
        }
        let loop_num = self.prop_value(k, 6)?;
        let cel = self.prop_value(k, 7)?;
        let signal = self.prop_value(k, 0x11)?;
        if cel >= 0 && signal & 8 == 0 {
            let res = match get_resource(self.m.resources, ResourceType::View, view_num as u16) {
                Some(r) => r,
                None => return None,
            };
            let view = match crate::view::load_view(res) {
                Some(v) => v,
                None => return None,
            };
            if loop_num < 0 || !crate::view::can_draw(&view, loop_num as usize, cel as usize) {
                return None;
            }
            return Some(Some(crate::view::draw_image(&view, loop_num as usize, cel as usize)));
        }
        Some(None)
    }

    /// The drawing of an animation frame: the background picture, then each cast
    /// member's cel that is shown; `None` where one cannot be had or drawn.
    pub(crate) fn draw_cast(&self, cast: &Vec<Id>) -> (a: Option<Action>)
        ensures
            match a {
                Some(Action::Draw { picture, cels }) => spec_background(&self.m) == Some(picture@)
                    && spec_cast_cels(&self.m, cast@) == Some(ops_views(cels@)),
                Some(_) => false,
                None => spec_background(&self.m) is None || spec_cast_cels(&self.m, cast@) is None,
            },
    {
        let pic = match get_resource(self.m.resources, ResourceType::Pic, self.m.background.pic_number) {
            Some(r) => r,
            None => return None,
        };
        if pic.resource_data.len() > 0xffff {
            return None;
        }
        let picture = match crate::picture::draw_image(pic.resource_data.as_slice()) {
            Some(p) => p,
            None => return None,
        };
        let mut cels: Vec<Vec<DrawOp>> = Vec::new();
        let mut i: usize = 0;
        assert(cast@.subrange(0, 0) =~= Seq::<Id>::empty());
        while i < cast.len()
            invariant
                i <= cast@.len(),
                spec_background(&self.m) == Some(picture@),
                spec_cast_cels(&self.m, cast@.subrange(0, i as int)) == Some(ops_views(cels@)),
            decreases cast@.len() - i,
        {
            proof {
                assert(cast@.subrange(0, i + 1).drop_last() =~= cast@.subrange(0, i as int));
                assert(cast@.subrange(0, i + 1).last() == cast@[i as int]);
            }
            let drawn = self.draw_member(cast[i]);
            match drawn {
                Some(Some(ops)) => {
                    let ghost before = cels@;
                    cels.push(ops);
                    assert(ops_views(cels@) =~= ops_views(before).push(cels@.last()@));
                },
                Some(None) => {},
                None => {
                    proof {
                        lemma_cast_cels_fail(&self.m, cast@, i + 1);
                    }
                    return None;
                },
            }
            i = i + 1;
        }
        assert(cast@.subrange(0, cast@.len() as int) =~= cast@);
        Some(Action::Draw { picture, cels })
    }
}

/// The ticks since the start that GetTime answers, from the milliseconds since the
/// start: sixty a second, taken as an `i16` (it wraps after a few minutes).
pub fn ticks_from_millis(millis: u64) -> (t: i16)
    ensures
        t == #[verifier::truncate] ((millis as int * 60 / 1000) as i16),
{
    let ticks = (millis / 1000) * 60 + (millis % 1000) * 60 / 1000;
    assert(ticks == millis as int * 60 / 1000) by (nonlinear_arith)
        requires
            ticks == (millis / 1000) * 60 + (millis % 1000) * 60 / 1000,
    ;
    #[verifier::truncate] (ticks as i16)
}

/// The time of day that GetTime answers: the hour on a twelve-hour clock in the
/// top bits, then the minutes and the seconds, taken as an `i16`.
pub fn time_of_day(hour12: u32, minute: u32, second: u32) -> (t: i16)
    requires
        1 <= hour12 <= 12,
        minute < 60,
        second < 60,
    ensures
        t == #[verifier::truncate] ((hour12 * 4096 + minute * 64 + second) as i16),
{
    let v = hour12 << 12 | minute << 6 | second;
    assert(v == hour12 * 4096 + minute * 64 + second) by (bit_vector)
        requires
            v == hour12 << 12 | minute << 6 | second,
            1 <= hour12 <= 12,
            minute < 60,
            second < 60,
    ;
    #[verifier::truncate] (v as i16)
}

/// The nanoseconds of one tick: a sixtieth of a second.
pub const TICK_NANOS: u32 = 16666666;

/// How long Wait sleeps for `ticks` ticks; `None` for negative ticks or where the
/// product leaves the range of `u32`.
pub fn wait_nanos(ticks: i16) -> (n: Option<u32>)
    ensures
        n is Some <==> 0 <= ticks && ticks * 16666666 <= u32::MAX,
        n matches Some(v) ==> v == ticks * 16666666,
{
    if ticks < 0 || ticks > 257 {
        return None;
    }
    Some(ticks as u32 * TICK_NANOS)
}

/// The ticks between two waits, from the nanoseconds between them, taken as an
/// `i16`.
pub fn ticks_from_nanos(nanos: u64) -> (t: i16)
    ensures
        t == #[verifier::truncate] ((nanos / 16666666) as i16),
{
    #[verifier::truncate] ((nanos / 16666666) as i16)
}

/// What a kernel call comes to, where it depends on its parameters alone: an
/// answer (a value for the accumulator, or none), a failure, or something that
/// depends on more.
pub enum KernelOutcome {
    Answer(Option<Register>),
    Fault,
    Other,
}

/// What kernel function `k_func` does to the engine `e`, its parameters from
/// `start` on, giving `later` and the answer `r`.
pub open spec fn kernel_done<'a>(e: &Engine<'a>, later: &Engine<'a>, k_func: u8, start: usize, r: Option<Action>) -> bool {
    let n = e.m.stack@.len();
    &&& start < n ==> match spec_simple_kernel(k_func, e.m.stack@.subrange(start as int, n as int)) {
        KernelOutcome::Answer(v) => {
            &&& r is None
            &&& later.m.ax == (match v {
                Some(a) => a,
                None => e.m.ax,
            })
            &&& later.m.stack@ == e.m.stack@.subrange(0, start as int)
            &&& later.m.heap@ == e.m.heap@
            &&& later.frames@ == e.frames@
            &&& object_views(later.m.objects@) == object_views(e.m.objects@)
            &&& kept_but(&e.m, &later.m, true, false, false, false)
            &&& later.pending == e.pending
        },
        KernelOutcome::Fault => r matches Some(Action::Fault),
        KernelOutcome::Other => true,
    }
    &&& kernel_machine_done(e, later, k_func, start, r)
    &&& start >= n ==> (r matches Some(Action::Fault))
    &&& start < n && is_list_call(k_func) && e.m.stack@[start as int] is Value ==> match spec_list_call(
        k_func,
        e.m.stack@.subrange(start as int, n as int),
        e.m.heap@,
    ) {
        Some((v, h)) => {
            &&& r is None
            &&& later.m.ax == (match v {
                Some(a) => a,
                None => e.m.ax,
            })
            &&& later.m.heap@ == h
            &&& later.m.stack@ == e.m.stack@.subrange(0, start as int)
            &&& later.frames@ == e.frames@
            &&& later.m == (Machine { ax: later.m.ax, stack: later.m.stack, heap: later.m.heap, ..e.m })
            &&& later.pending == e.pending
        },
        None => r matches Some(Action::Fault),
    }
}

/// The value of property `sel` of `o`, where it has it and it holds a value.
pub open spec fn prop_value_of(o: ObjectView, sel: u16) -> Option<i16> {
    if has_property(o, sel) && spec_get_property(o, sel) is Value {
        Some(spec_get_property(o, sel)->Value_0)
    } else {
        None
    }
}

/// The object of property `sel` of `o`, where it has it and it holds an object.
pub open spec fn prop_obj_of(o: ObjectView, sel: u16) -> Option<Id> {
    if has_property(o, sel) && spec_get_property(o, sel) is Object {
        Some(spec_get_property(o, sel)->Object_0)
    } else {
        None
    }
}

/// String `k` of text resource `n`, where there is one.
pub open spec fn resource_text(resources: Map<u16, Resource>, n: u16, k: u16) -> Option<Seq<char>> {
    let key = spec_resource_key(ResourceType::Text, n);
    if resources.contains_key(key) {
        spec_text_string(resources[key].resource_data@, k as nat)
    } else {
        None
    }
}

/// The number of cels in loop `l` of view resource `v`, where there is one.
pub open spec fn view_loop_cels(resources: Map<u16, Resource>, v: i16, l: i16) -> Option<nat> {
    let key = spec_resource_key(ResourceType::View, v as u16);
    if v >= 0 && l >= 0 && resources.contains_key(key) {
        match spec_load_view(resources[key].resource_data@) {
            Some(groups) => if l < groups.len() {
                Some(groups[l as int].len())
            } else {
                None
            },
            None => None,
        }
    } else {
        None
    }
}

/// The background picture's drawing, where its resource can be had and drawn.
pub open spec fn spec_background<'a>(m: &Machine<'a>) -> Option<Seq<DrawOp>> {
    let key = spec_resource_key(ResourceType::Pic, m.background.pic_number);
    if m.resources@.contains_key(key) && m.resources@[key].resource_data@.len() <= 0xffff {
        spec_draw_picture(m.resources@[key].resource_data@)
    } else {
        None
    }
}

/// The drawing of cast member `id`: `Some(None)` where its cel is hidden (a
/// negative cel, or bit 3 of its signal set), `None` where the member, one of its
/// position, view, loop, cel and signal properties, or its cel cannot be had.
pub open spec fn spec_member_cel<'a>(m: &Machine<'a>, id: Id) -> Option<Option<Seq<DrawOp>>> {
    let objs = object_views(m.objects@);
    let i = object_index(objs, id);
    if i >= objs.len() {
        None
    } else {
        let o = objs[i];
        if prop_value_of(o, 4) is Some && prop_value_of(o, 3) is Some && prop_value_of(o, 0x55) is Some
            && prop_value_of(o, 5) is Some && prop_value_of(o, 5)->Some_0 >= 0 && prop_value_of(o, 6) is Some
            && prop_value_of(o, 7) is Some && prop_value_of(o, 0x11) is Some {
            let v = prop_value_of(o, 5)->Some_0;
            let l = prop_value_of(o, 6)->Some_0;
            let c = prop_value_of(o, 7)->Some_0;
            if c >= 0 && prop_value_of(o, 0x11)->Some_0 & 8 == 0 {
                let key = spec_resource_key(ResourceType::View, v as u16);
                if m.resources@.contains_key(key) {
                    match spec_load_view(m.resources@[key].resource_data@) {
                        Some(g) => if 0 <= l < g.len() && c < g[l as int].len() && cel_drawable(g[l as int][c as int]) {
                            let cel = g[l as int][c as int];
                            Some(Some(cel_ops(cel, cel.size_x * cel.size_y)))
                        } else {
                            None
                        },
                        None => None,
                    }
                } else {
                    None
                }
            } else {
                Some(None)
            }
        } else {
            None
        }
    }
}

/// The drawings of the shown cels of the cast, in order; `None` where a member's
/// cannot be had.
pub open spec fn spec_cast_cels<'a>(m: &Machine<'a>, cast: Seq<Id>) -> Option<Seq<Seq<DrawOp>>>
    decreases cast.len(),
{
    if cast.len() == 0 {
        Some(Seq::empty())
    } else {
        match spec_cast_cels(m, cast.drop_last()) {
            Some(prev) => match spec_member_cel(m, cast.last()) {
                Some(Some(ops)) => Some(prev.push(ops)),
                Some(None) => Some(prev),
                None => None,
            },
            None => None,
        }
    }
}

proof fn lemma_cast_cels_fail<'a>(m: &Machine<'a>, cast: Seq<Id>, i: int)
    requires
        0 <= i <= cast.len(),
        spec_cast_cels(m, cast.subrange(0, i)) is None,
    ensures
        spec_cast_cels(m, cast) is None,
    decreases cast.len() - i,
{
    if i < cast.len() {
        assert(cast.subrange(0, i + 1).drop_last() =~= cast.subrange(0, i));
        lemma_cast_cels_fail(m, cast, i + 1);
    } else {
        assert(cast.subrange(0, i) =~= cast);
    }
}

/// The drawings of a cast read only the resources and the objects of a machine.
pub proof fn lemma_cast_cels_same<'a>(m1: &Machine<'a>, m2: &Machine<'a>, cast: Seq<Id>)
    requires
        m1.resources == m2.resources,
        m1.objects@ == m2.objects@,
        m1.background == m2.background,
    ensures
        spec_cast_cels(m1, cast) == spec_cast_cels(m2, cast),
        spec_background(m1) == spec_background(m2),
    decreases cast.len(),
{
    if cast.len() > 0 {
        lemma_cast_cels_same(m1, m2, cast.drop_last());
        assert(spec_member_cel(m1, cast.last()) == spec_member_cel(m2, cast.last()));
    }
}

/// The views of a list of drawings.
pub open spec fn ops_views(v: Seq<Vec<DrawOp>>) -> Seq<Seq<DrawOp>> {
    v.map_values(|c: Vec<DrawOp>| c@)
}

/// The machine `later` is `m` with its stack changed and, where the flags say so,
/// its accumulator, its objects, its clone counter or its background; every other
/// field is as it was.
pub open spec fn kept_but<'a>(
    m: &Machine<'a>,
    later: &Machine<'a>,
    ax: bool,
    objects: bool,
    clone_counter: bool,
    background: bool,
) -> bool {
    *later == Machine {
        ax: if ax { later.ax } else { m.ax },
        stack: later.stack,
        objects: if objects { later.objects } else { m.objects },
        clone_counter: if clone_counter { later.clone_counter } else { m.clone_counter },
        background: if background { later.background } else { m.background },
        ..*m
    }
}

/// The kernel call answered: nothing is asked of the outside, its parameters are
/// dropped, and the heap, the frames and the objects are as they were.
pub open spec fn kernel_returned<'a>(e: &Engine<'a>, later: &Engine<'a>, start: usize, r: Option<Action>) -> bool {
    &&& r is None
    &&& later.m.stack@ == e.m.stack@.subrange(0, start as int)
    &&& later.m.heap@ == e.m.heap@
    &&& later.frames@ == e.frames@
    &&& later.pending == e.pending
}

/// What the kernel calls that read or change the machine, or ask the outside for
/// work, do: ScriptID, Clone, DrawPic, Animate, NumCels, Display, GetEvent,
/// Random, StrCmp, Format, Wait, GetTime, InitBresen and DoBresen.
pub open spec fn kernel_machine_done<'a>(e: &Engine<'a>, later: &Engine<'a>, k: u8, start: usize, r: Option<Action>) -> bool {
    let n = e.m.stack@.len();
    start < n && e.m.stack@[start as int] is Value ==> {
        &&& k == 0x04 ==> clone_done(e, later, start, r)
        &&& k == 0x08 ==> draw_pic_done(e, later, start, r)
        &&& k == 0x1c ==> get_event_done(e, later, start, r)
        &&& k == 0x40 ==> random_done(e, later, start, r)
        &&& k == 0x49 ==> string_order_done(e, later, start, r)
        &&& k == 0x02 ==> script_id_done(e, later, start, r)
        &&& k == 0x0b ==> animate_done(e, later, start, r)
        &&& k == 0x0e ==> num_cels_done(e, later, start, r)
        &&& k == 0x1b ==> display_done(e, later, start, r)
        &&& k == 0x4c ==> format_done(e, later, start, r)
        &&& k == 0x45 ==> wait_done(e, later, start, r)
        &&& k == 0x46 ==> get_time_done(e, later, start, r)
        &&& k == 0x53 ==> init_bresen_done(e, later, start, r)
        &&& k == 0x54 ==> do_bresen_done(e, later, start, r)
    }
}

/// Clone: a copy of an object, numbered by the clone counter, joins the objects.
pub open spec fn clone_done<'a>(e: &Engine<'a>, later: &Engine<'a>, start: usize, r: Option<Action>) -> bool {
    let n = e.m.stack@.len();
    let p = e.m.stack@.subrange(start as int, n as int);
    let p1 = if p.len() > 1 { p[1] } else { Register::Undefined };
    let p2 = if p.len() > 2 { p[2] } else { Register::Undefined };
    let p3 = if p.len() > 3 { p[3] } else { Register::Undefined };
    let objs = object_views(e.m.objects@);
    match p1 {
        Register::Object(id) => {
            let i = object_index(objs, id);
            let c = e.m.clone_counter;
            let cid = Id { script_number: CLONE_SPACE, offset: c };
            if i < objs.len() && c < usize::MAX && object_index(objs, cid) == objs.len() {
                &&& kernel_returned(e, later, start, r)
                &&& kept_but(&e.m, &later.m, true, true, true, false)
                &&& later.m.ax == Register::Object(cid)
                &&& later.m.clone_counter == c + 1
                &&& object_views(later.m.objects@) == objs.push(
                    ObjectView { id: cid, object_type: ObjectType::Clone, ..objs[i] },
                )
            } else {
                r matches Some(Action::Fault)
            }
        },
        _ => r matches Some(Action::Fault),
    }
}

/// DrawPic: the background picture, its animation and whether to clear are set.
pub open spec fn draw_pic_done<'a>(e: &Engine<'a>, later: &Engine<'a>, start: usize, r: Option<Action>) -> bool {
    let n = e.m.stack@.len();
    let p = e.m.stack@.subrange(start as int, n as int);
    let p1 = if p.len() > 1 { p[1] } else { Register::Undefined };
    let p2 = if p.len() > 2 { p[2] } else { Register::Undefined };
    let p3 = if p.len() > 3 { p[3] } else { Register::Undefined };
    let objs = object_views(e.m.objects@);
    {
        let num = p[0]->Value_0;
        if is_u16_value(p1) && (num >= 2 ==> p2 is Value) && (num >= 3 ==> p3 is Value) {
            &&& kernel_returned(e, later, start, r)
            &&& kept_but(&e.m, &later.m, false, false, false, true)
            &&& later.m.ax == e.m.ax
            &&& object_views(later.m.objects@) == objs
            &&& later.m.background == (BackgroundState {
                pic_number: p1->Value_0 as u16,
                animation: if num >= 2 { p2->Value_0 } else { -1i16 },
                clear: (if num >= 3 { p3->Value_0 } else { 1i16 }) != 0,
                pic_not_valid: 1,
            })
        } else {
            r matches Some(Action::Fault)
        }
    }
}

/// GetEvent: no event is ever waiting.
pub open spec fn get_event_done<'a>(e: &Engine<'a>, later: &Engine<'a>, start: usize, r: Option<Action>) -> bool {
    let n = e.m.stack@.len();
    let p = e.m.stack@.subrange(start as int, n as int);
    let p1 = if p.len() > 1 { p[1] } else { Register::Undefined };
    let p2 = if p.len() > 2 { p[2] } else { Register::Undefined };
    let p3 = if p.len() > 3 { p[3] } else { Register::Undefined };
    let objs = object_views(e.m.objects@);
    if p1 is Value && (p2 matches Register::Object(id) && object_index(objs, id) < objs.len()) {
        &&& kernel_returned(e, later, start, r)
        &&& kept_but(&e.m, &later.m, true, false, false, false)
        &&& later.m.ax == Register::Value(0)
        &&& object_views(later.m.objects@) == objs
    } else {
        r matches Some(Action::Fault)
    }
}

/// Random: a number between the two bounds.
pub open spec fn random_done<'a>(e: &Engine<'a>, later: &Engine<'a>, start: usize, r: Option<Action>) -> bool {
    let n = e.m.stack@.len();
    let p = e.m.stack@.subrange(start as int, n as int);
    let p1 = if p.len() > 1 { p[1] } else { Register::Undefined };
    let p2 = if p.len() > 2 { p[2] } else { Register::Undefined };
    let p3 = if p.len() > 3 { p[3] } else { Register::Undefined };
    let objs = object_views(e.m.objects@);
    match (p1, p2) {
        (Register::Value(min), Register::Value(max)) => if min <= max {
            &&& kernel_returned(e, later, start, r)
            &&& kept_but(&e.m, &later.m, true, false, false, false)
            &&& later.m.ax matches Register::Value(v) && min <= v <= max
            &&& object_views(later.m.objects@) == objs
        } else {
            r matches Some(Action::Fault)
        },
        _ => r matches Some(Action::Fault),
    }
}

/// StrCmp: the order of two strings, or of their first bytes up to a length.
pub open spec fn string_order_done<'a>(e: &Engine<'a>, later: &Engine<'a>, start: usize, r: Option<Action>) -> bool {
    let n = e.m.stack@.len();
    let p = e.m.stack@.subrange(start as int, n as int);
    let p1 = if p.len() > 1 { p[1] } else { Register::Undefined };
    let p2 = if p.len() > 2 { p[2] } else { Register::Undefined };
    let p3 = if p.len() > 3 { p[3] } else { Register::Undefined };
    let objs = object_views(e.m.objects@);
    match (spec_string_value(e.m.scripts@, p1), spec_string_value(e.m.scripts@, p2)) {
        (Some(a), Some(b)) => if p.len() <= 3 {
            &&& kernel_returned(e, later, start, r)
            &&& kept_but(&e.m, &later.m, true, false, false, false)
            &&& later.m.ax == Register::Value(compare_bytes(a, b) as i16)
            &&& object_views(later.m.objects@) == objs
        } else if p3 is Value && p3->Value_0 >= 0 && is_char_boundary(a, p3->Value_0 as int) && is_char_boundary(b, p3->Value_0 as int) {
            let l = p3->Value_0 as int;
            &&& kernel_returned(e, later, start, r)
            &&& kept_but(&e.m, &later.m, true, false, false, false)
            &&& later.m.ax == Register::Value(compare_bytes(a.subrange(0, l), b.subrange(0, l)) as i16)
            &&& object_views(later.m.objects@) == objs
        } else {
            r matches Some(Action::Fault)
        },
        _ => r matches Some(Action::Fault),
    }
}

/// ScriptID: the object, or else the address, at an entry of a script's exports.
pub open spec fn script_id_done<'a>(e: &Engine<'a>, later: &Engine<'a>, start: usize, r: Option<Action>) -> bool {
    let n = e.m.stack@.len();
    let p = e.m.stack@.subrange(start as int, n as int);
    let p1 = if p.len() > 1 { p[1] } else { Register::Undefined };
    let p2 = if p.len() > 2 { p[2] } else { Register::Undefined };
    let p3 = if p.len() > 3 { p[3] } else { Register::Undefined };
    let objs = object_views(e.m.objects@);
    if is_u16_value(p1) && (p.len() > 2 ==> is_u16_value(p2)) {
        let n = p1->Value_0 as u16;
        let d = if p.len() > 2 { p2->Value_0 as int } else { 0 };
        match spec_loaded_script(e.m.resources@, n) {
            Some(sv) => if d < sv.exports.len() {
                let addr = sv.exports[d];
                match first_at_offset(sv.objects, addr as int, 0) {
                    Some(o) => if object_made(&e.m, o) {
                        &&& kernel_returned(e, later, start, r)
                        &&& later.m.ax == Register::Object(class_id(o))
                        &&& e.m.makes_object(&Machine { ax: e.m.ax, stack: e.m.stack, ..later.m }, o)
                    } else {
                        r matches Some(Action::Fault)
                    },
                    None => {
                        &&& kernel_returned(e, later, start, r)
                        &&& e.m.loads_scripts(&Machine { ax: e.m.ax, stack: e.m.stack, ..later.m })
                        &&& later.m.ax == Register::Address(n, addr as usize)
                        &&& object_views(later.m.objects@) == objs
                    },
                }
            } else {
                r matches Some(Action::Fault)
            },
            None => r matches Some(Action::Fault),
        }
    } else {
        r matches Some(Action::Fault)
    }
}

proof fn lemma_set_keeps_properties(o: ObjectView, sel: u16, v: Register)
    requires
        has_property(o, sel),
    ensures
        forall|t: u16| #[trigger] has_property(spec_set_property(o, sel, v), t) == has_property(o, t),
{
    super::object::lemma_selector_index(o.var_selectors, sel);
    assert(spec_set_property(o, sel, v).variables.len() == o.variables.len());
}

/// The mover `o` with the walk `w` stored in its properties.
pub open spec fn with_walk(o: ObjectView, w: BresenInit) -> ObjectView {
    let o1 = spec_set_property(o, 0x2e, Register::Value(w.step_dx));
    let o2 = spec_set_property(o1, 0x2f, Register::Value(w.step_dy));
    let o3 = spec_set_property(o2, 0x31, Register::Value(w.i1));
    let o4 = spec_set_property(o3, 0x32, Register::Value(w.i2));
    let o5 = spec_set_property(o4, 0x33, Register::Value(w.di));
    let o6 = spec_set_property(o5, 0x34, Register::Value(if w.x_axis { 1 } else { 0 }));
    spec_set_property(o6, 0x35, Register::Value(w.minor_axis_incr))
}

/// Whether the mover `o` has the properties that hold a walk.
pub open spec fn has_walk(o: ObjectView) -> bool {
    &&& has_property(o, 0x2e)
    &&& has_property(o, 0x2f)
    &&& has_property(o, 0x31)
    &&& has_property(o, 0x32)
    &&& has_property(o, 0x33)
    &&& has_property(o, 0x34)
    &&& has_property(o, 0x35)
}

/// The walk stored in the properties of the mover `o`, where they hold values.
pub open spec fn walk_of(o: ObjectView) -> Option<BresenInit> {
    if prop_value_of(o, 0x2e) is Some && prop_value_of(o, 0x2f) is Some && prop_value_of(o, 0x31) is Some
        && prop_value_of(o, 0x32) is Some && prop_value_of(o, 0x33) is Some && prop_value_of(o, 0x34) is Some
        && prop_value_of(o, 0x35) is Some {
        Some(
            BresenInit {
                step_dx: prop_value_of(o, 0x2e)->Some_0,
                step_dy: prop_value_of(o, 0x2f)->Some_0,
                i1: prop_value_of(o, 0x31)->Some_0,
                i2: prop_value_of(o, 0x32)->Some_0,
                di: prop_value_of(o, 0x33)->Some_0,
                x_axis: prop_value_of(o, 0x34)->Some_0 != 0,
                minor_axis_incr: prop_value_of(o, 0x35)->Some_0,
            },
        )
    } else {
        None
    }
}

/// The position of an object, from its x (selector 4) and y (selector 3)
/// properties.
pub open spec fn position_of(o: ObjectView) -> Option<(i16, i16)> {
    if prop_value_of(o, 4) is Some && prop_value_of(o, 3) is Some {
        Some((prop_value_of(o, 4)->Some_0, prop_value_of(o, 3)->Some_0))
    } else {
        None
    }
}

/// InitBresen: the walk of the mover's client (property 0x2d) toward the mover's
/// position, its step sizes (0x36, 0x37) scaled by the step factor given or 1, is
/// stored in the mover.
pub open spec fn init_bresen_done<'a>(e: &Engine<'a>, later: &Engine<'a>, start: usize, r: Option<Action>) -> bool {
    let n = e.m.stack@.len();
    let p = e.m.stack@.subrange(start as int, n as int);
    let p1 = if p.len() > 1 { p[1] } else { Register::Undefined };
    let p2 = if p.len() > 2 { p[2] } else { Register::Undefined };
    let objs = object_views(e.m.objects@);
    let km = object_index(objs, p1->Object_0);
    let sf = if p.len() > 2 { p2->Value_0 } else { 1i16 };
    if p1 is Object && (p.len() > 2 ==> p2 is Value) && km < objs.len() && prop_obj_of(objs[km], 0x2d) is Some
        && object_index(objs, prop_obj_of(objs[km], 0x2d)->Some_0) < objs.len() {
        let mover = objs[km];
        let client = objs[object_index(objs, prop_obj_of(mover, 0x2d)->Some_0)];
        if position_of(mover) is Some && position_of(client) is Some && prop_value_of(client, 0x36) is Some
            && prop_value_of(client, 0x37) is Some && spec_init_bresen(
            position_of(mover)->Some_0.0,
            position_of(mover)->Some_0.1,
            position_of(client)->Some_0.0,
            position_of(client)->Some_0.1,
            prop_value_of(client, 0x36)->Some_0,
            prop_value_of(client, 0x37)->Some_0,
            sf,
        ) is Some && has_walk(mover) {
            let w = spec_init_bresen(
                position_of(mover)->Some_0.0,
                position_of(mover)->Some_0.1,
                position_of(client)->Some_0.0,
                position_of(client)->Some_0.1,
                prop_value_of(client, 0x36)->Some_0,
                prop_value_of(client, 0x37)->Some_0,
                sf,
            )->Some_0;
            &&& kernel_returned(e, later, start, r)
            &&& kept_but(&e.m, &later.m, false, true, false, false)
            &&& later.m.ax == e.m.ax
            &&& object_views(later.m.objects@) == objs.update(km, with_walk(mover, w))
        } else {
            r matches Some(Action::Fault)
        }
    } else {
        r matches Some(Action::Fault)
    }
}

/// DoBresen: the mover's client takes one step of the walk stored in the mover,
/// and the mover keeps the walk's error term.
pub open spec fn do_bresen_done<'a>(e: &Engine<'a>, later: &Engine<'a>, start: usize, r: Option<Action>) -> bool {
    let n = e.m.stack@.len();
    let p = e.m.stack@.subrange(start as int, n as int);
    let p1 = if p.len() > 1 { p[1] } else { Register::Undefined };
    let objs = object_views(e.m.objects@);
    let km = object_index(objs, p1->Object_0);
    if p1 is Object && km < objs.len() && position_of(objs[km]) is Some && prop_obj_of(objs[km], 0x2d) is Some
        && object_index(objs, prop_obj_of(objs[km], 0x2d)->Some_0) < objs.len() {
        let mover = objs[km];
        let kc = object_index(objs, prop_obj_of(mover, 0x2d)->Some_0);
        let client = objs[kc];
        if position_of(client) is Some && walk_of(mover) is Some && spec_do_bresen(
            position_of(mover)->Some_0.0,
            position_of(mover)->Some_0.1,
            position_of(client)->Some_0.0,
            position_of(client)->Some_0.1,
            walk_of(mover)->Some_0,
        ) is Some {
            let w = walk_of(mover)->Some_0;
            let st = spec_do_bresen(
                position_of(mover)->Some_0.0,
                position_of(mover)->Some_0.1,
                position_of(client)->Some_0.0,
                position_of(client)->Some_0.1,
                w,
            )->Some_0;
            let moved = objs.update(
                kc,
                spec_set_property(
                    spec_set_property(client, 4, Register::Value(st.client_x)),
                    3,
                    Register::Value(st.client_y),
                ),
            );
            let o1 = spec_set_property(moved[km], 0x31, Register::Value(w.i1));
            let o2 = spec_set_property(o1, 0x32, Register::Value(w.i2));
            &&& kernel_returned(e, later, start, r)
            &&& kept_but(&e.m, &later.m, false, true, false, false)
            &&& later.m.ax == e.m.ax
            &&& object_views(later.m.objects@) == moved.update(km, spec_set_property(o2, 0x33, Register::Value(st.di)))
        } else {
            r matches Some(Action::Fault)
        }
    } else {
        r matches Some(Action::Fault)
    }
}

/// Whether the object that each node holds has been made.
pub open spec fn members_exist(objs: Seq<ObjectView>, nodes: Seq<DblListNode>) -> bool {
    forall|j: int| 0 <= j < nodes.len() ==> object_index(objs, #[trigger] nodes[j].value) < objs.len()
}

/// Animate: with no cast the screen is cleared; with a cast, each member is sent
/// `doit` first where asked, else the background and the cast's cels are drawn.
pub open spec fn animate_done<'a>(e: &Engine<'a>, later: &Engine<'a>, start: usize, r: Option<Action>) -> bool {
    let n = e.m.stack@.len();
    let p = e.m.stack@.subrange(start as int, n as int);
    let p1 = if p.len() > 1 { p[1] } else { Register::Undefined };
    let p2 = if p.len() > 2 { p[2] } else { Register::Undefined };
    let p3 = if p.len() > 3 { p[3] } else { Register::Undefined };
    let objs = object_views(e.m.objects@);
    {
        let list_reg = if p.len() > 1 { p1 } else { Register::Value(0) };
        if p.len() > 2 && !(p2 is Value) {
            r matches Some(Action::Fault)
        } else if list_reg == Register::Value(0) || list_reg == Register::DblList(0) {
            &&& r == Some(Action::Clear)
            &&& later.m == (Machine { stack: later.m.stack, ..e.m })
            &&& later.m.stack@ == e.m.stack@.subrange(0, start as int)
            &&& later.frames@ == e.frames@
            &&& later.pending == e.pending
        } else if list_reg is DblList && e.m.heap@.lists.contains_key(list_reg->DblList_0) && members_exist(
            objs,
            e.m.heap@.lists[list_reg->DblList_0],
        ) {
            let cast = e.m.heap@.lists[list_reg->DblList_0].map_values(|x: DblListNode| x.value);
            if p.len() > 2 && p2->Value_0 != 0 {
                &&& r == Some(Action::Clear)
                &&& later.m == (Machine { stack: later.m.stack, ..e.m })
                &&& later.m.stack@ == e.m.stack@.push(Register::Value(0))
                &&& later.pending == e.pending
                &&& pushed_one(e.frames@, later.frames@)
                &&& later.frames@.last() matches Frame::Animate(f) && f.cast@ == cast && f.next == 0
                    && f.stack_params == n && f.kernel_start == start
            } else if spec_background(&e.m) is Some && spec_cast_cels(&e.m, cast) is Some {
                &&& r matches Some(Action::Draw { picture, cels }) && Some(picture@) == spec_background(&e.m)
                    && Some(ops_views(cels@)) == spec_cast_cels(&e.m, cast)
                &&& later.m == (Machine { stack: later.m.stack, ..e.m })
                &&& later.m.stack@ == e.m.stack@.subrange(0, start as int)
                &&& later.frames@ == e.frames@
                &&& later.pending == e.pending
            } else {
                r matches Some(Action::Fault)
            }
        } else {
            r matches Some(Action::Fault)
        }
    }
}

/// NumCels: the number of cels in the loop of an object's view.
pub open spec fn num_cels_done<'a>(e: &Engine<'a>, later: &Engine<'a>, start: usize, r: Option<Action>) -> bool {
    let n = e.m.stack@.len();
    let p = e.m.stack@.subrange(start as int, n as int);
    let p1 = if p.len() > 1 { p[1] } else { Register::Undefined };
    let p2 = if p.len() > 2 { p[2] } else { Register::Undefined };
    let p3 = if p.len() > 3 { p[3] } else { Register::Undefined };
    let objs = object_views(e.m.objects@);
    match p1 {
        Register::Object(id) => {
            let i = object_index(objs, id);
            if i < objs.len() && prop_value_of(objs[i], 5) is Some && prop_value_of(objs[i], 6) is Some
                && view_loop_cels(
                e.m.resources@,
                prop_value_of(objs[i], 5)->Some_0,
                prop_value_of(objs[i], 6)->Some_0,
            ) is Some {
                let cels = view_loop_cels(
                    e.m.resources@,
                    prop_value_of(objs[i], 5)->Some_0,
                    prop_value_of(objs[i], 6)->Some_0,
                )->Some_0;
                &&& kernel_returned(e, later, start, r)
                &&& kept_but(&e.m, &later.m, true, false, false, false)
                &&& later.m.ax == Register::Value(#[verifier::truncate] (cels as i16))
                &&& object_views(later.m.objects@) == objs
            } else {
                r matches Some(Action::Fault)
            }
        },
        _ => r matches Some(Action::Fault),
    }
}

/// Display: a string of a script or of a text resource must be there.
pub open spec fn display_done<'a>(e: &Engine<'a>, later: &Engine<'a>, start: usize, r: Option<Action>) -> bool {
    let n = e.m.stack@.len();
    let p = e.m.stack@.subrange(start as int, n as int);
    let p1 = if p.len() > 1 { p[1] } else { Register::Undefined };
    let p2 = if p.len() > 2 { p[2] } else { Register::Undefined };
    let p3 = if p.len() > 3 { p[3] } else { Register::Undefined };
    let objs = object_views(e.m.objects@);
    if (p1 is String && spec_string_value(e.m.scripts@, p1) is Some) || (p1 is Value
        && is_u16_value(p2) && resource_text(
        e.m.resources@,
        #[verifier::truncate] (p1->Value_0 as u16),
        p2->Value_0 as u16,
    ) is Some) {
        &&& kernel_returned(e, later, start, r)
        &&& kept_but(&e.m, &later.m, false, false, false, false)
        &&& later.m.ax == e.m.ax
        &&& object_views(later.m.objects@) == objs
    } else {
        r matches Some(Action::Fault)
    }
}

/// Format: the text resource string must be there; a fixed string is answered.
pub open spec fn format_done<'a>(e: &Engine<'a>, later: &Engine<'a>, start: usize, r: Option<Action>) -> bool {
    let n = e.m.stack@.len();
    let p = e.m.stack@.subrange(start as int, n as int);
    let p1 = if p.len() > 1 { p[1] } else { Register::Undefined };
    let p2 = if p.len() > 2 { p[2] } else { Register::Undefined };
    let p3 = if p.len() > 3 { p[3] } else { Register::Undefined };
    let objs = object_views(e.m.objects@);
    if is_u16_value(p2) && is_u16_value(p3) && resource_text(
        e.m.resources@,
        p2->Value_0 as u16,
        p3->Value_0 as u16,
    ) is Some {
        &&& kernel_returned(e, later, start, r)
        &&& kept_but(&e.m, &later.m, true, false, false, false)
        &&& later.m.ax == Register::String(Id { script_number: 99, offset: 449 }, 0)
        &&& object_views(later.m.objects@) == objs
    } else {
        r matches Some(Action::Fault)
    }
}

/// Wait: the outside is asked to wait the ticks given.
pub open spec fn wait_done<'a>(e: &Engine<'a>, later: &Engine<'a>, start: usize, r: Option<Action>) -> bool {
    let n = e.m.stack@.len();
    let p = e.m.stack@.subrange(start as int, n as int);
    let p1 = if p.len() > 1 { p[1] } else { Register::Undefined };
    let p2 = if p.len() > 2 { p[2] } else { Register::Undefined };
    let p3 = if p.len() > 3 { p[3] } else { Register::Undefined };
    let objs = object_views(e.m.objects@);
    match p1 {
        Register::Value(t) => if 0 <= t && t * 16666666 <= u32::MAX {
            &&& r == Some(Action::Wait(t))
            &&& later.pending == Pending::Wait(start)
            &&& later.m == e.m
            &&& later.frames@ == e.frames@
        } else {
            r matches Some(Action::Fault)
        },
        _ => r matches Some(Action::Fault),
    }
}

/// GetTime: the outside is asked for the time.
pub open spec fn get_time_done<'a>(e: &Engine<'a>, later: &Engine<'a>, start: usize, r: Option<Action>) -> bool {
    let n = e.m.stack@.len();
    let p = e.m.stack@.subrange(start as int, n as int);
    let p1 = if p.len() > 1 { p[1] } else { Register::Undefined };
    let p2 = if p.len() > 2 { p[2] } else { Register::Undefined };
    let p3 = if p.len() > 3 { p[3] } else { Register::Undefined };
    let objs = object_views(e.m.objects@);
    {
        &&& r == Some(Action::GetTime(p.len() > 1))
        &&& later.pending == Pending::Time(start)
        &&& later.m == e.m
        &&& later.frames@ == e.frames@
    }
}

/// A node made by NewNode from a value `v` and a key `k` holds `v` as its value and
/// `k` as its key; NodeValue of any node answers the object in its value field,
/// which for a new node is the `v` it was made from, never its key.
pub proof fn lemma_node_value_after_new_node(v: Id, k: Id, n: DblListNode)
    ensures
        spec_simple_kernel(0x34, seq![Register::Value(2), Register::Object(v), Register::Object(k)])
            matches KernelOutcome::Answer(Some(Register::Node(made))) && made.value == v && made.key == k
            && spec_simple_kernel(0x3a, seq![Register::Value(1), Register::Node(made)])
            == KernelOutcome::Answer(Some(Register::Object(v))),
        spec_simple_kernel(0x3a, seq![Register::Value(1), Register::Node(n)]) == KernelOutcome::Answer(
            Some(Register::Object(n.value)),
        ),
        n.key != n.value ==> spec_simple_kernel(0x3a, seq![Register::Value(1), Register::Node(n)])
            != KernelOutcome::Answer(Some(Register::Object(n.key))),
{
}

/// Whether `r` is a value register that is not negative.
pub open spec fn is_u16_value(r: Register) -> bool {
    r matches Register::Value(v) && v >= 0
}

/// The outcome of kernel function `k` on the parameters `p` (their count first),
/// for the calls that need nothing but their parameters: Load, DisposeScript,
/// DisposeClone, IsObject, DrawMenuBar, AddMenu, SetSynonyms, HaveMouse, SetCursor,
/// GameIsRestarting, DoSound, NewNode, NodeValue, GetAngle, BaseSetter, DirLoop,
/// CanBeHere, SetMenu, GetCWD, GetSaveDir, FlushResources and Graph; a function
/// that the machine does not know fails.
pub open spec fn spec_simple_kernel(k: u8, p: Seq<Register>) -> KernelOutcome {
    if p.len() == 0 || !(p[0] is Value) {
        KernelOutcome::Fault
    } else if k == 0x22 || k == 0x26 || k == 0x4f || k == 0x50 || k == 0x60 {
        KernelOutcome::Answer(None)
    } else if k == 0x27 || k == 0x30 || k == 0x31 || k == 0x43 || k == 0x6b || k == 0x70 {
        KernelOutcome::Answer(Some(Register::Value(0)))
    } else if k == 0x68 {
        KernelOutcome::Answer(Some(Register::Undefined))
    } else if k == 0x00 {
        if p.len() > 2 && p[1] is Value && p[2] is Value {
            KernelOutcome::Answer(None)
        } else {
            KernelOutcome::Fault
        }
    } else if k == 0x03 || k == 0x20 || k == 0x05 || k == 0x51 || k == 0x06 || k == 0x62 || k
        == 0x3a {
        if p.len() < 2 {
            KernelOutcome::Fault
        } else if k == 0x03 || k == 0x20 {
            if p[1] is Value { KernelOutcome::Answer(None) } else { KernelOutcome::Fault }
        } else if k == 0x05 {
            if p[1] is Object { KernelOutcome::Answer(None) } else { KernelOutcome::Fault }
        } else if k == 0x51 {
            if p[1] is Object {
                KernelOutcome::Answer(Some(Register::Value(1)))
            } else {
                KernelOutcome::Fault
            }
        } else if k == 0x06 {
            KernelOutcome::Answer(Some(Register::Value(if p[1] is Object { 1 } else { 0 })))
        } else if k == 0x62 {
            KernelOutcome::Answer(Some(p[1]))
        } else {
            match p[1] {
                Register::Node(n) => KernelOutcome::Answer(Some(Register::Object(n.value))),
                _ => KernelOutcome::Fault,
            }
        }
    } else if k == 0x28 {
        if p.len() > 2 && is_u16_value(p[1]) && super::register::has_zero_form(p[2]) {
            KernelOutcome::Answer(None)
        } else {
            KernelOutcome::Fault
        }
    } else if k == 0x34 {
        match (if p.len() > 1 { p[1] } else { Register::Undefined }, if p.len() > 2 {
            p[2]
        } else {
            Register::Undefined
        }) {
            (Register::Object(value), Register::Object(key)) => KernelOutcome::Answer(
                Some(Register::Node(DblListNode { key, value, list_id: 0, list_index: 0 })),
            ),
            _ => KernelOutcome::Fault,
        }
    } else if k == 0x02 || k == 0x04 || k == 0x08 || k == 0x0b || k == 0x0e || k == 0x1b || k
        == 0x1c || k == 0x32 || k == 0x33 || k == 0x35 || k == 0x38 || k == 0x3c || k == 0x3d
        || k == 0x3e || k == 0x3f || k == 0x40 || k == 0x45 || k == 0x46 || k == 0x49 || k == 0x4c
        || k == 0x53 || k == 0x54 {
        KernelOutcome::Other
    } else {
        KernelOutcome::Fault
    }
}

/// Whether `k` is one of the list kernel calls that work on the heap's lists.
pub open spec fn is_list_call(k: u8) -> bool {
    k == 0x32 || k == 0x33 || k == 0x35 || k == 0x38 || (0x3c <= k <= 0x3f)
}

/// What a list kernel call answers and leaves of the heap, its parameters `p`;
/// `None` where it fails: NewList makes the next list, DisposeList drops one,
/// FirstNode and NextNode walk a list, AddToFront and AddToEnd add a node, FindKey
/// and DeleteKey find or drop the first node with a key. The null list answers 0.
pub open spec fn spec_list_call(k: u8, p: Seq<Register>, h: HeapView) -> Option<(Option<Register>, HeapView)> {
    let p1 = if p.len() > 1 { p[1] } else { Register::Undefined };
    let p2 = if p.len() > 2 { p[2] } else { Register::Undefined };
    if k == 0x32 {
        if h.next_list < usize::MAX {
            Some(
                (
                    Some(Register::DblList(h.next_list)),
                    HeapView {
                        lists: h.lists.insert(h.next_list, Seq::empty()),
                        next_list: (h.next_list + 1) as usize,
                        ..h
                    },
                ),
            )
        } else {
            None
        }
    } else if k == 0x38 {
        match p1 {
            Register::Node(n) => if h.lists.contains_key(n.list_id) && n.list_index < usize::MAX {
                Some(
                    (
                        Some(
                            if n.list_index + 1 < h.lists[n.list_id].len() {
                                Register::Node(h.lists[n.list_id][n.list_index + 1])
                            } else {
                                Register::Value(0)
                            },
                        ),
                        h,
                    ),
                )
            } else {
                None
            },
            _ => None,
        }
    } else {
        match p1 {
            Register::DblList(l) => if k == 0x33 {
                Some((None, HeapView { lists: h.lists.remove(l), ..h }))
            } else if l == 0 {
                Some((Some(Register::Value(0)), h))
            } else if k == 0x35 {
                if h.lists.contains_key(l) {
                    Some(
                        (
                            Some(
                                if h.lists[l].len() == 0 {
                                    Register::Value(0)
                                } else {
                                    Register::Node(h.lists[l][0])
                                },
                            ),
                            h,
                        ),
                    )
                } else {
                    None
                }
            } else if k == 0x3c || k == 0x3d {
                match p2 {
                    Register::Node(n) => if h.lists.contains_key(l) {
                        Some(
                            (
                                None,
                                HeapView {
                                    lists: h.lists.insert(
                                        l,
                                        if k == 0x3c {
                                            seq![placed(n, l, 0)] + h.lists[l]
                                        } else {
                                            h.lists[l].push(placed(n, l, h.lists[l].len() as usize))
                                        },
                                    ),
                                    ..h
                                },
                            ),
                        )
                    } else {
                        None
                    },
                    _ => None,
                }
            } else {
                match p2 {
                    Register::Object(key) => if h.lists.contains_key(l) {
                        if k == 0x3e {
                            Some((Some(spec_find_key(h.lists[l], key)), h))
                        } else {
                            Some(
                                (
                                    None,
                                    HeapView {
                                        lists: h.lists.insert(l, spec_delete_key(h.lists[l], key)),
                                        ..h
                                    },
                                ),
                            )
                        }
                    } else {
                        None
                    },
                    _ => None,
                }
            },
            _ => None,
        }
    }
}

impl<'a> Engine<'a> {
    /// Finishes a kernel call: its answer, if any, goes into the accumulator and
    /// its parameters leave the stack.
    fn finish_kernel(&mut self, start: usize, value: Option<Register>) -> (r: Option<Action>)
        requires
            old(self).wf(),
        ensures
            final(self).wf(),
            r is None,
            final(self).m.ax == (match value {
                Some(a) => a,
                None => old(self).m.ax,
            }),
            final(self).m.stack@ == super::run::truncated(old(self).m.stack@, start),
            final(self).m.heap@ == old(self).m.heap@,
            final(self).frames@ == old(self).frames@,
            object_views(final(self).m.objects@) == object_views(old(self).m.objects@),
            final(self).pending == old(self).pending,
            final(self).m.clone_counter == old(self).m.clone_counter,
            final(self).m.background == old(self).m.background,
            final(self).m == (Machine { ax: final(self).m.ax, stack: final(self).m.stack, ..old(self).m }),
    {
        if let Some(v) = value {
            self.m.ax = v;
        }
        self.m.stack.truncate(start);
        None
    }

    /// ScriptID: the object or address of an entry of a script's exports.
    fn script_id(&mut self, start: usize, count: usize) -> (r: Option<Action>)
        requires
            old(self).wf(),
            start < old(self).m.stack@.len(),
            count == old(self).m.stack@.len() - start,
            old(self).m.stack@[start as int] is Value,
        ensures
            final(self).wf(),
            !(r matches Some(Action::Finished)),
            script_id_done(old(self), final(self), start, r),
    {
        let script_number = match self.u16_param(start, 1) {
            Some(v) => v,
            None => return Some(Action::Fault),
        };
        let dispatch = if count > 2 {
            match self.u16_param(start, 2) {
                Some(v) => v,
                None => return Some(Action::Fault),
            }
        } else {
            0
        };
        if !self.m.initialise_script(script_number) {
            return Some(Action::Fault);
        }
        let found = match self.m.scripts.get(&script_number) {
            Some(script) => {
                if dispatch as usize >= script.exports.len() {
                    return Some(Action::Fault);
                }
                let addr = script.exports[dispatch as usize] as usize;
                match script.get_object_by_offset(addr) {
                    Some(o) => {
                        proof {
                            let k = choose|k: int|
                                0 <= k < script.objects@.len() && *o == #[trigger] script.objects@[k] && o.offset
                                    == addr && forall|j: int| 0 <= j < k ==> #[trigger] script.objects@[j].offset != addr;
                            lemma_first_at_offset(script@.objects, addr as int, 0, k);
                        }
                        (addr, Some(copy_class(o)))
                    },
                    None => {
                        proof {
                            lemma_first_at_offset(script@.objects, addr as int, 0, script@.objects.len() as int);
                        }
                        (addr, None)
                    },
                }
            },
            None => return Some(Action::Fault),
        };
        let value = match found {
            (_, Some(def)) => match self.m.initialise_object(&def) {
                Some(id) => Register::Object(id),
                None => return Some(Action::Fault),
            },
            (addr, None) => Register::Address(script_number, addr),
        };
        self.finish_kernel(start, Some(value))
    }

    /// Runs kernel function `k_func` on the parameters from `start` on (their count
    /// first): a value, a change of the machine, or outside work to ask for.
    #[verifier::spinoff_prover]
    #[verifier::rlimit(60)]
    pub fn kernel(&mut self, k_func: u8, start: usize) -> (r: Option<Action>)
        requires
            old(self).wf(),
        ensures
            final(self).wf(),
            !(r matches Some(Action::Finished)),
            kernel_done(old(self), final(self), k_func, start, r),
    {
        let n = self.m.stack.len();
        if start >= n {
            return Some(Action::Fault);
        }
        let count = n - start;
        let num_params = match self.value_param(start, 0) {
            Some(v) => v,
            None => return Some(Action::Fault),
        };
        let value: Option<Register> = if k_func == 0x00 {
            if self.value_param(start, 1).is_none() || self.value_param(start, 2).is_none() {
                return Some(Action::Fault);
            }
            None
        } else if k_func == 0x02 {
            return self.script_id(start, count);
        } else if k_func == 0x03 || k_func == 0x20 {
            if self.value_param(start, 1).is_none() {
                return Some(Action::Fault);
            }
            None
        } else if k_func == 0x04 {
            let id = match self.obj_param(start, 1) {
                Some(id) => id,
                None => return Some(Action::Fault),
            };
            let k = match self.m.find_object(id) {
                Some(k) => k,
                None => return Some(Action::Fault),
            };
            let number = self.m.clone_counter;
            if number == usize::MAX {
                return Some(Action::Fault);
            }
            let clone = self.m.objects[k].kernel_clone(number);
            if self.m.find_object(clone.id).is_some() {
                return Some(Action::Fault);
            }
            self.m.clone_counter = number + 1;
            let cid = clone.id;
            let ghost before = self.m.objects@;
            self.m.objects.push(clone);
            assert(object_views(self.m.objects@) =~= object_views(before).push(clone@));
            Some(Register::Object(cid))
        } else if k_func == 0x05 || k_func == 0x51 {
            if self.obj_param(start, 1).is_none() {
                return Some(Action::Fault);
            }
            if k_func == 0x51 {
                Some(Register::Value(1))
            } else {
                None
            }
        } else if k_func == 0x06 {
            let p = match self.param(start, 1) {
                Some(p) => p,
                None => return Some(Action::Fault),
            };
            Some(Register::Value(if p.is_obj() { 1 } else { 0 }))
        } else if k_func == 0x08 {
            let pic_number = match self.u16_param(start, 1) {
                Some(v) => v,
                None => return Some(Action::Fault),
            };
            let animation = if num_params >= 2 {
                match self.value_param(start, 2) {
                    Some(v) => v,
                    None => return Some(Action::Fault),
                }
            } else {
                -1
            };
            let flags = if num_params >= 3 {
                match self.value_param(start, 3) {
                    Some(v) => v,
                    None => return Some(Action::Fault),
                }
            } else {
                1
            };
            self.m.background = BackgroundState { pic_number, animation, clear: flags != 0, pic_not_valid: 1 };
            None
        } else if k_func == 0x0b {
            return self.animate(start, count);
        } else if k_func == 0x0e {
            let id = match self.obj_param(start, 1) {
                Some(id) => id,
                None => return Some(Action::Fault),
            };
            let k = match self.m.find_object(id) {
                Some(k) => k,
                None => return Some(Action::Fault),
            };
            let view_num = match self.prop_value(k, 5) {
                Some(v) => v,
                None => return Some(Action::Fault),
            };
            let loop_num = match self.prop_value(k, 6) {
                Some(v) => v,
                None => return Some(Action::Fault),
            };
            if view_num < 0 || loop_num < 0 {
                return Some(Action::Fault);
            }
            let res = match get_resource(self.m.resources, ResourceType::View, view_num as u16) {
                Some(r) => r,
                None => return Some(Action::Fault),
            };
            let view = match crate::view::load_view(res) {
                Some(v) => v,
                None => return Some(Action::Fault),
            };
            if loop_num as usize >= view.len() {
                return Some(Action::Fault);
            }
            Some(Register::Value(#[verifier::truncate] (view[loop_num as usize].len() as i16)))
        } else if k_func == 0x1b {
            let p = match self.param(start, 1) {
                Some(p) => p,
                None => return Some(Action::Fault),
            };
            match p {
                Register::String(_, _) => {
                    if self.string_value(p).is_none() {
                        return Some(Action::Fault);
                    }
                },
                Register::Value(res_num) => {
                    let str_num = match self.u16_param(start, 2) {
                        Some(v) => v,
                        None => return Some(Action::Fault),
                    };
                    let res = match get_resource(self.m.resources, ResourceType::Text, #[verifier::truncate] (res_num as u16)) {
                        Some(r) => r,
                        None => return Some(Action::Fault),
                    };
                    if text_string(res.resource_data.as_slice(), str_num).is_none() {
                        return Some(Action::Fault);
                    }
                },
                _ => return Some(Action::Fault),
            }
            None
        } else if k_func == 0x1c {
            if self.value_param(start, 1).is_none() {
                return Some(Action::Fault);
            }
            let id = match self.obj_param(start, 2) {
                Some(id) => id,
                None => return Some(Action::Fault),
            };
            if self.m.find_object(id).is_none() {
                return Some(Action::Fault);
            }
            Some(Register::Value(0))
        } else if k_func == 0x22 || k_func == 0x26 || k_func == 0x4f || k_func == 0x50 || k_func
            == 0x60 {
            None
        } else if k_func == 0x27 || k_func == 0x30 || k_func == 0x31 || k_func == 0x43 || k_func
            == 0x6b || k_func == 0x70 {
            Some(Register::Value(0))
        } else if k_func == 0x28 {
            if self.u16_param(start, 1).is_none() {
                return Some(Action::Fault);
            }
            match self.param(start, 2) {
                Some(Register::Value(_)) | Some(Register::Object(_)) | Some(Register::DblList(_))
                | Some(Register::Node(_)) => {},
                _ => return Some(Action::Fault),
            }
            None
        } else if k_func == 0x34 {
            let value = match self.obj_param(start, 1) {
                Some(v) => v,
                None => return Some(Action::Fault),
            };
            let key = match self.obj_param(start, 2) {
                Some(v) => v,
                None => return Some(Action::Fault),
            };
            Some(Register::Node(DblListNode { key, value, list_id: 0, list_index: 0 }))
        } else if k_func == 0x3a {
            match self.node_param(start, 1) {
                Some(n) => Some(Register::Object(n.value)),
                None => return Some(Action::Fault),
            }
        } else if k_func == 0x32 || k_func == 0x33 || k_func == 0x35 || k_func == 0x38 || (0x3c
            <= k_func && k_func <= 0x3f) {
            return self.list_call(k_func, start);
        } else if k_func == 0x40 {
            let min = match self.value_param(start, 1) {
                Some(v) => v,
                None => return Some(Action::Fault),
            };
            let max = match self.value_param(start, 2) {
                Some(v) => v,
                None => return Some(Action::Fault),
            };
            match kernel_random(min, max) {
                Some(v) => Some(Register::Value(v)),
                None => return Some(Action::Fault),
            }
        } else if k_func == 0x45 {
            let ticks = match self.value_param(start, 1) {
                Some(v) => v,
                None => return Some(Action::Fault),
            };
            if wait_nanos(ticks).is_none() {
                return Some(Action::Fault);
            }
            self.pending = Pending::Wait(start);
            return Some(Action::Wait(ticks));
        } else if k_func == 0x46 {
            self.pending = Pending::Time(start);
            return Some(Action::GetTime(count > 1));
        } else if k_func == 0x49 {
            let p1 = match self.param(start, 1) {
                Some(p) => p,
                None => return Some(Action::Fault),
            };
            let p2 = match self.param(start, 2) {
                Some(p) => p,
                None => return Some(Action::Fault),
            };
            let limit = if count > 3 {
                match self.value_param(start, 3) {
                    // A negative length reaches past the end of both strings.
                    Some(v) => if v < 0 {
                        return Some(Action::Fault);
                    } else {
                        Some(v as usize)
                    },
                    None => return Some(Action::Fault),
                }
            } else {
                None
            };
            let ord = match (self.string_value(p1), self.string_value(p2)) {
                (Some(s1), Some(s2)) => match limit {
                    Some(l) => {
                        if !s1.is_char_boundary(l) || !s2.is_char_boundary(l) {
                            return Some(Action::Fault);
                        }
                        let (a, _) = s1.split_at(l);
                        let (b, _) = s2.split_at(l);
                        compare(a.as_bytes(), b.as_bytes())
                    },
                    None => compare(s1.as_bytes(), s2.as_bytes()),
                },
                _ => return Some(Action::Fault),
            };
            Some(Register::Value(ord))
        } else if k_func == 0x4c {
            let res_num = match self.u16_param(start, 2) {
                Some(v) => v,
                None => return Some(Action::Fault),
            };
            let res = match get_resource(self.m.resources, ResourceType::Text, res_num) {
                Some(r) => r,
                None => return Some(Action::Fault),
            };
            let str_num = match self.u16_param(start, 3) {
                Some(v) => v,
                None => return Some(Action::Fault),
            };
            if text_string(res.resource_data.as_slice(), str_num).is_none() {
                return Some(Action::Fault);
            }
            Some(Register::String(Id { script_number: 99, offset: 449 }, 0))
        } else if k_func == 0x53 {
            return self.init_bresen_call(start, count);
        } else if k_func == 0x54 {
            return self.do_bresen_call(start);
        } else if k_func == 0x62 {
            match self.param(start, 1) {
                Some(p) => Some(p),
                None => return Some(Action::Fault),
            }
        } else if k_func == 0x68 {
            Some(Register::Undefined)
        } else {
            return Some(Action::Fault);
        };
        self.finish_kernel(start, value)
    }
}

impl<'a> Engine<'a> {
    /// The list kernel calls: NewList, DisposeList, NewNode, FirstNode, NextNode,
    /// NodeValue, AddToFront, AddToEnd, FindKey and DeleteKey.
    fn list_call(&mut self, k_func: u8, start: usize) -> (r: Option<Action>)
        requires
            old(self).wf(),
            is_list_call(k_func),
            start < old(self).m.stack@.len(),
        ensures
            final(self).wf(),
            !(r matches Some(Action::Finished)),
            match spec_list_call(
                k_func,
                old(self).m.stack@.subrange(start as int, old(self).m.stack@.len() as int),
                old(self).m.heap@,
            ) {
                Some((v, h)) => {
                    &&& r is None
                    &&& final(self).m.ax == (match v {
                        Some(a) => a,
                        None => old(self).m.ax,
                    })
                    &&& final(self).m.heap@ == h
                    &&& final(self).m.stack@ == old(self).m.stack@.subrange(0, start as int)
                    &&& final(self).frames@ == old(self).frames@
                    &&& object_views(final(self).m.objects@) == object_views(old(self).m.objects@)
                    &&& final(self).m == (Machine {
                        ax: final(self).m.ax,
                        stack: final(self).m.stack,
                        heap: final(self).m.heap,
                        ..old(self).m
                    })
                    &&& final(self).pending == old(self).pending
                },
                None => r matches Some(Action::Fault),
            },
    {
        let value: Option<Register> = if k_func == 0x32 {
            if self.m.heap.next_list == usize::MAX {
                return Some(Action::Fault);
            }
            let id = self.m.heap.new_list();
            Some(Register::DblList(id))
        } else if k_func == 0x33 {
            let list = match self.list_param(start, 1) {
                Some(l) => l,
                None => return Some(Action::Fault),
            };
            self.m.heap.dispose_list(list);
            None
        } else if k_func == 0x35 {
            let list = match self.list_param(start, 1) {
                Some(l) => l,
                None => return Some(Action::Fault),
            };
            if list != 0 && !self.m.heap.dbllist_cache.contains_key(&list) {
                return Some(Action::Fault);
            }
            Some(self.m.heap.first_node(list))
        } else if k_func == 0x38 {
            let node = match self.node_param(start, 1) {
                Some(n) => n,
                None => return Some(Action::Fault),
            };
            if !self.m.heap.dbllist_cache.contains_key(&node.list_id) || node.list_index
                == usize::MAX {
                return Some(Action::Fault);
            }
            Some(self.m.heap.next_node(node))
        } else if k_func == 0x3c || k_func == 0x3d || k_func == 0x3e || k_func == 0x3f {
            let list = match self.list_param(start, 1) {
                Some(l) => l,
                None => return Some(Action::Fault),
            };
            if list == 0 {
                Some(Register::Value(0))
            } else if k_func == 0x3c || k_func == 0x3d {
                let node = match self.node_param(start, 2) {
                    Some(n) => n,
                    None => return Some(Action::Fault),
                };
                if !self.m.heap.dbllist_cache.contains_key(&list) {
                    return Some(Action::Fault);
                }
                if k_func == 0x3c {
                    self.m.heap.add_to_front(list, node)
                } else {
                    self.m.heap.add_to_end(list, node)
                }
            } else {
                let key = match self.obj_param(start, 2) {
                    Some(k) => k,
                    None => return Some(Action::Fault),
                };
                if !self.m.heap.dbllist_cache.contains_key(&list) {
                    return Some(Action::Fault);
                }
                if k_func == 0x3e {
                    Some(self.m.heap.find_key(list, key))
                } else {
                    self.m.heap.delete_key(list, key)
                }
            }
        } else {
            return Some(Action::Fault);
        };
        self.finish_kernel(start, value)
    }

    /// The Animate kernel call: with a cast list, each member is sent `doit` when
    /// asked, then the picture and the members' cels are drawn.
    #[verifier::rlimit(40)]
    fn animate(&mut self, start: usize, count: usize) -> (r: Option<Action>)
        requires
            old(self).wf(),
            start < old(self).m.stack@.len(),
            count == old(self).m.stack@.len() - start,
            old(self).m.stack@[start as int] is Value,
        ensures
            final(self).wf(),
            !(r matches Some(Action::Finished)),
            animate_done(old(self), final(self), start, r),
    {
        let list_reg = if count > 1 {
            match self.param(start, 1) {
                Some(p) => p,
                None => return Some(Action::Fault),
            }
        } else {
            Register::Value(0)
        };
        let cycle = if count > 2 {
            match self.value_param(start, 2) {
                Some(v) => v != 0,
                None => return Some(Action::Fault),
            }
        } else {
            false
        };
        let list = match list_reg {
            Register::Value(v) => {
                if v == 0 {
                    self.m.stack.truncate(start);
                    return Some(Action::Clear);
                }
                return Some(Action::Fault);
            },
            Register::DblList(l) => {
                if l == 0 {
                    self.m.stack.truncate(start);
                    return Some(Action::Clear);
                }
                l
            },
            _ => return Some(Action::Fault),
        };
        let mut cast: Vec<Id> = Vec::new();
        let ghost objs = object_views(self.m.objects@);
        match self.m.heap.dbllist_cache.get(&list) {
            Some(nodes) => {
                let ghost ns = self.m.heap@.lists[list];
                assert(nodes@ == ns);
                let mut i: usize = 0;
                #[verifier::loop_isolation(false)]
                while i < nodes.len()
                    invariant
                        nodes@ == ns,
                        objs == object_views(self.m.objects@),
                        i <= ns.len(),
                        cast@ == ns.subrange(0, i as int).map_values(|x: DblListNode| x.value),
                        members_exist(objs, ns.subrange(0, i as int)),
                    decreases nodes@.len() - i,
                {
                    let id = nodes[i].value;
                    if self.m.find_object(id).is_none() {
                        assert(!members_exist(objs, ns));
                        return Some(Action::Fault);
                    }
                    cast.push(id);
                    assert(cast@ =~= ns.subrange(0, i + 1).map_values(|x: DblListNode| x.value));
                    i = i + 1;
                }
                assert(ns.subrange(0, ns.len() as int) =~= ns);
            },
            None => return Some(Action::Fault),
        }
        if cycle {
            let stack_params = self.m.stack.len();
            self.m.stack.push(Register::Value(0));
            self.frames.push(
                Frame::Animate(AnimateFrame { cast, next: 0, stack_params, kernel_start: start }),
            );
            assert(self.frames@.subrange(0, old(self).frames@.len() as int) =~= old(self).frames@);
            return Some(Action::Clear);
        }
        let action = match self.draw_cast(&cast) {
            Some(a) => a,
            None => return Some(Action::Fault),
        };
        self.m.stack.truncate(start);
        Some(action)
    }

    /// The InitBresen kernel call: sets up the mover's walk of its client toward
    /// the mover's target.
    fn init_bresen_call(&mut self, start: usize, count: usize) -> (r: Option<Action>)
        requires
            old(self).wf(),
            start < old(self).m.stack@.len(),
            count == old(self).m.stack@.len() - start,
        ensures
            final(self).wf(),
            !(r matches Some(Action::Finished)),
            init_bresen_done(old(self), final(self), start, r),
    {
        let obj = match self.obj_param(start, 1) {
            Some(o) => o,
            None => return Some(Action::Fault),
        };
        let sf = if count > 2 {
            match self.value_param(start, 2) {
                Some(v) => v,
                None => return Some(Action::Fault),
            }
        } else {
            1
        };
        let km = match self.m.find_object(obj) {
            Some(k) => k,
            None => return Some(Action::Fault),
        };
        let client = match self.prop_obj(km, 0x2d) {
            Some(c) => c,
            None => return Some(Action::Fault),
        };
        let kc = match self.m.find_object(client) {
            Some(k) => k,
            None => return Some(Action::Fault),
        };
        let mx = match self.prop_value(km, 4) { Some(v) => v, None => return Some(Action::Fault) };
        let my = match self.prop_value(km, 3) { Some(v) => v, None => return Some(Action::Fault) };
        let cx = match self.prop_value(kc, 4) { Some(v) => v, None => return Some(Action::Fault) };
        let cy = match self.prop_value(kc, 3) { Some(v) => v, None => return Some(Action::Fault) };
        let xs = match self.prop_value(kc, 0x36) { Some(v) => v, None => return Some(Action::Fault) };
        let ys = match self.prop_value(kc, 0x37) { Some(v) => v, None => return Some(Action::Fault) };
        let w = match init_bresen(mx, my, cx, cy, xs, ys, sf) {
            Some(w) => w,
            None => return Some(Action::Fault),
        };
        let ghost objs = object_views(self.m.objects@);
        let ghost mover = objs[km as int];
        let ghost o1 = spec_set_property(mover, 0x2e, Register::Value(w.step_dx));
        let ghost o2 = spec_set_property(o1, 0x2f, Register::Value(w.step_dy));
        let ghost o3 = spec_set_property(o2, 0x31, Register::Value(w.i1));
        let ghost o4 = spec_set_property(o3, 0x32, Register::Value(w.i2));
        let ghost o5 = spec_set_property(o4, 0x33, Register::Value(w.di));
        let ghost o6 = spec_set_property(o5, 0x34, Register::Value(if w.x_axis { 1 } else { 0 }));
        assert(self.m.objects@[km as int]@ == object_views(self.m.objects@)[km as int]);
        if !self.set_prop(km, 0x2e, Register::Value(w.step_dx)) {
            return Some(Action::Fault);
        }
        proof { lemma_set_keeps_properties(mover, 0x2e, Register::Value(w.step_dx)); }
        assert(self.m.objects@[km as int]@ == object_views(self.m.objects@)[km as int]);
        if !self.set_prop(km, 0x2f, Register::Value(w.step_dy)) {
            return Some(Action::Fault);
        }
        proof { lemma_set_keeps_properties(o1, 0x2f, Register::Value(w.step_dy)); }
        assert(self.m.objects@[km as int]@ == object_views(self.m.objects@)[km as int]);
        if !self.set_prop(km, 0x31, Register::Value(w.i1)) {
            return Some(Action::Fault);
        }
        proof { lemma_set_keeps_properties(o2, 0x31, Register::Value(w.i1)); }
        assert(self.m.objects@[km as int]@ == object_views(self.m.objects@)[km as int]);
        if !self.set_prop(km, 0x32, Register::Value(w.i2)) {
            return Some(Action::Fault);
        }
        proof { lemma_set_keeps_properties(o3, 0x32, Register::Value(w.i2)); }
        assert(self.m.objects@[km as int]@ == object_views(self.m.objects@)[km as int]);
        if !self.set_prop(km, 0x33, Register::Value(w.di)) {
            return Some(Action::Fault);
        }
        proof { lemma_set_keeps_properties(o4, 0x33, Register::Value(w.di)); }
        assert(self.m.objects@[km as int]@ == object_views(self.m.objects@)[km as int]);
        if !self.set_prop(km, 0x34, Register::Value(if w.x_axis { 1 } else { 0 })) {
            return Some(Action::Fault);
        }
        proof { lemma_set_keeps_properties(o5, 0x34, Register::Value(if w.x_axis { 1 } else { 0 })); }
        assert(self.m.objects@[km as int]@ == object_views(self.m.objects@)[km as int]);
        if !self.set_prop(km, 0x35, Register::Value(w.minor_axis_incr)) {
            return Some(Action::Fault);
        }
        assert(object_views(self.m.objects@) =~= objs.update(km as int, with_walk(mover, w)));
        self.finish_kernel(start, None)
    }

    /// The DoBresen kernel call: moves the client one step of its walk.
    fn do_bresen_call(&mut self, start: usize) -> (r: Option<Action>)
        requires
            old(self).wf(),
            start < old(self).m.stack@.len(),
        ensures
            final(self).wf(),
            !(r matches Some(Action::Finished)),
            do_bresen_done(old(self), final(self), start, r),
    {
        let obj = match self.obj_param(start, 1) {
            Some(o) => o,
            None => return Some(Action::Fault),
        };
        let km = match self.m.find_object(obj) {
            Some(k) => k,
            None => return Some(Action::Fault),
        };
        let mx = match self.prop_value(km, 4) { Some(v) => v, None => return Some(Action::Fault) };
        let my = match self.prop_value(km, 3) { Some(v) => v, None => return Some(Action::Fault) };
        let client = match self.prop_obj(km, 0x2d) {
            Some(c) => c,
            None => return Some(Action::Fault),
        };
        let kc = match self.m.find_object(client) {
            Some(k) => k,
            None => return Some(Action::Fault),
        };
        let cx = match self.prop_value(kc, 4) { Some(v) => v, None => return Some(Action::Fault) };
        let cy = match self.prop_value(kc, 3) { Some(v) => v, None => return Some(Action::Fault) };
        let step_dx = match self.prop_value(km, 0x2e) { Some(v) => v, None => return Some(Action::Fault) };
        let step_dy = match self.prop_value(km, 0x2f) { Some(v) => v, None => return Some(Action::Fault) };
        let i1 = match self.prop_value(km, 0x31) { Some(v) => v, None => return Some(Action::Fault) };
        let i2 = match self.prop_value(km, 0x32) { Some(v) => v, None => return Some(Action::Fault) };
        let di = match self.prop_value(km, 0x33) { Some(v) => v, None => return Some(Action::Fault) };
        let x_axis = match self.prop_value(km, 0x34) { Some(v) => v != 0, None => return Some(Action::Fault) };
        let minor_axis_incr = match self.prop_value(km, 0x35) { Some(v) => v, None => return Some(Action::Fault) };
        let w = BresenInit { step_dx, step_dy, i1, i2, di, x_axis, minor_axis_incr };
        let st = match do_bresen(mx, my, cx, cy, w) {
            Some(s) => s,
            None => return Some(Action::Fault),
        };
        let ghost objs = object_views(self.m.objects@);
        let ghost c1 = spec_set_property(objs[kc as int], 4, Register::Value(st.client_x));
        let ghost c2 = spec_set_property(c1, 3, Register::Value(st.client_y));
        let ghost moved = objs.update(kc as int, c2);
        let ghost m1 = spec_set_property(moved[km as int], 0x31, Register::Value(i1));
        let ghost m2 = spec_set_property(m1, 0x32, Register::Value(i2));
        assert(self.m.objects@[kc as int]@ == objs[kc as int]);
        if !self.set_prop(kc, 4, Register::Value(st.client_x)) {
            return Some(Action::Fault);
        }
        proof { lemma_set_keeps_properties(objs[kc as int], 4, Register::Value(st.client_x)); }
        assert(self.m.objects@[kc as int]@ == object_views(self.m.objects@)[kc as int]);
        if !self.set_prop(kc, 3, Register::Value(st.client_y)) {
            return Some(Action::Fault);
        }
        proof {
            lemma_set_keeps_properties(c1, 3, Register::Value(st.client_y));
            assert(object_views(self.m.objects@) =~= moved);
        }
        assert(self.m.objects@[km as int]@ == moved[km as int]);
        if !self.set_prop(km, 0x31, Register::Value(i1)) {
            return Some(Action::Fault);
        }
        proof {
            lemma_set_keeps_properties(moved[km as int], 0x31, Register::Value(i1));
            assert(object_views(self.m.objects@) =~= moved.update(km as int, m1));
        }
        assert(self.m.objects@[km as int]@ == object_views(self.m.objects@)[km as int]);
        if !self.set_prop(km, 0x32, Register::Value(i2)) {
            return Some(Action::Fault);
        }
        proof {
            lemma_set_keeps_properties(m1, 0x32, Register::Value(i2));
            assert(object_views(self.m.objects@) =~= moved.update(km as int, m2));
        }
        assert(self.m.objects@[km as int]@ == object_views(self.m.objects@)[km as int]);
        if !self.set_prop(km, 0x33, Register::Value(st.di)) {
            return Some(Action::Fault);
        }
        assert(object_views(self.m.objects@) =~= moved.update(
            km as int,
            spec_set_property(m2, 0x33, Register::Value(st.di)),
        ));
        assert(walk_of(objs[km as int]) == Some(w));
        self.finish_kernel(start, None)
    }
}

} // verus!
