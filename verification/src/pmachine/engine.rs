//! The p-machine's run loop: methods, sends and kernel calls as a stack of frames,
//! stopping for the outside work that a game asks for (drawing, waiting, the time).

use super::context::ExecutionContext;
use super::interpret::{
    frame_view, is_local, is_alu_exec, is_flow_exec, is_var_op_exec, same_frame,
    same_machine_frame, spec_local, vm_state, LocalStep,
};
use super::machine::{class_id, object_index, object_views, spec_instance, Machine};
use super::object::{copy_vec, has_property, spec_get_property, spec_set_property};
use super::register::{Id, Register};
use crate::bytes::le_u16_at;
use crate::script::ClassView;
use crate::graphics::DrawOp;
use vstd::prelude::*;

verus! {

/// What is left to do of a send instruction: its selectors, each at an offset from
/// the start of its stack frame, from `next` on.
pub struct SendFrame {
    pub obj: Id,
    pub send_obj: Id,
    pub start: usize,
    pub end: usize,
    pub offsets: Vec<usize>,
    pub next: usize,
}

/// What is left to do of an Animate call: the cast members still to be sent
/// `doit`, from `next` on, then the drawing.
pub struct AnimateFrame {
    pub cast: Vec<Id>,
    pub next: usize,
    /// Where the `doit` sends' parameters start.
    pub stack_params: usize,
    /// Where the kernel call's parameters start.
    pub kernel_start: usize,
}

/// A unit of work on the machine's frame stack.
pub enum Frame {
    Code(ExecutionContext),
    Send(SendFrame),
    Animate(AnimateFrame),
}

/// What the machine asks of the program that runs it.
#[derive(Debug)]
pub enum Action {
    /// The game's play method has returned.
    Finished,
    /// The machine stopped where the game's code or data is not what the machine
    /// supports.
    Fault,
    /// The step budget is used up; run again to go on.
    Yield,
    /// Clear the screen.
    Clear,
    /// Clear the screen, draw the picture and the cels, and show the result.
    Draw { picture: Vec<DrawOp>, cels: Vec<Vec<DrawOp>> },
    /// Sleep this many ticks (a sixtieth of a second), then answer with the ticks
    /// since the last wait and whether the player asked to quit.
    Wait(i16),
    /// Answer with the time: in ticks since the start, or, when `true`, the time of
    /// day.
    GetTime(bool),
}

/// What a kernel call left for its answer to finish.
pub enum Pending {
    Nothing,
    /// A Wait, whose parameters start at this stack position.
    Wait(usize),
    /// A GetTime, whose parameters start at this stack position.
    Time(usize),
}

/// The running machine: its state and its frames.
pub struct Engine<'a> {
    pub m: Machine<'a>,
    pub frames: Vec<Frame>,
    pub pending: Pending,
}

impl<'a> Engine<'a> {
    /// The machine's scripts are those of its resources.
    pub open spec fn wf(&self) -> bool {
        self.m.scripts_loaded()
    }

    /// A machine with no frames.
    pub fn new(m: Machine<'a>) -> (e: Engine<'a>)
        requires
            m.scripts_loaded(),
        ensures
            e.wf(),
            e.m == m,
            e.frames@.len() == 0,
    {
        Engine { m, frames: Vec::new(), pending: Pending::Nothing }
    }

    /// Starts method `selector` of `send_obj` on `obj`, its parameters at
    /// `stack_params`: pushes a frame for it.
    pub(crate) fn send_selector(&mut self, obj: Id, send_obj: Id, selector: u16, stack_params: usize) -> (ok: bool)
        requires
            old(self).wf(),
        ensures
            final(self).wf(),
            method_started(old(self), final(self), obj, send_obj, selector, stack_params, ok),
    {
        let k = match self.m.find_object(send_obj) {
            Some(k) => k,
            None => return false,
        };
        assert(object_views(self.m.objects@)[k as int] == self.m.objects@[k as int]@);
        if !self.m.objects[k].func_selectors.contains_key(&selector) {
            return false;
        }
        let (script_number, code_offset) = self.m.objects[k].get_func_selector(selector);
        let code = match self.m.scripts.get(&script_number) {
            Some(s) => copy_vec(&s.data),
            None => return false,
        };
        let len = self.m.stack.len();
        let ctx = ExecutionContext {
            current_obj: obj,
            script: script_number,
            ip: code_offset as usize,
            code,
            stack_params,
            stack_temps: len,
            stack_unwind: len,
        };
        self.frames.push(Frame::Code(ctx));
        assert(self.frames@.subrange(0, old(self).frames@.len() as int) =~= old(self).frames@);
        true
    }
}

/// The script and code offset of method `selector` of `send_obj`, where the
/// object has been made, has the method, and its script is loaded.
pub open spec fn spec_method<'a>(m: &Machine<'a>, send_obj: Id, selector: u16) -> Option<(u16, u16)> {
    let objs = object_views(m.objects@);
    let i = object_index(objs, send_obj);
    if i < objs.len() && objs[i].func_selectors.contains_key(selector) && m.scripts@.contains_key(
        objs[i].func_selectors[selector].0,
    ) {
        Some(objs[i].func_selectors[selector])
    } else {
        None
    }
}

/// `later` is `e` with method `selector` of `send_obj` started on `obj`, its
/// parameters at `stack_params`, answered `ok`; or, where there is no such method,
/// `e` unchanged and `ok` false.
pub open spec fn method_started<'a>(
    e: &Engine<'a>,
    later: &Engine<'a>,
    obj: Id,
    send_obj: Id,
    selector: u16,
    stack_params: usize,
    ok: bool,
) -> bool {
    &&& later.m == e.m
    &&& later.pending == e.pending
    &&& match spec_method(&e.m, send_obj, selector) {
        Some((script, offset)) => {
            &&& ok
            &&& pushed_one(e.frames@, later.frames@)
            &&& later.frames@.last() matches Frame::Code(c) && c.current_obj == obj && c.script == script
                && c.ip == offset && c.code@ == e.m.scripts@[script].data@ && c.stack_params == stack_params
                && c.stack_temps == e.m.stack@.len() && c.stack_unwind == e.m.stack@.len()
        },
        None => !ok && later.frames@ == e.frames@,
    }
}

/// `later` is `e` after selector `selector` was sent to `obj`, its methods looked
/// up in `send_obj`, the count of parameters at `stack_params`, answered `ok`: a
/// property is read into the accumulator with no parameters and set to the first
/// parameter with some; a method is started where its parameters are on the stack.
pub open spec fn selector_sent<'a>(
    e: &Engine<'a>,
    later: &Engine<'a>,
    obj: Id,
    send_obj: Id,
    selector: u16,
    stack_params: usize,
    ok: bool,
) -> bool {
    let objs = object_views(e.m.objects@);
    let k = object_index(objs, obj);
    let n = e.m.stack@.len();
    if k < objs.len() && stack_params < n && e.m.stack@[stack_params as int] is Value
        && e.m.stack@[stack_params as int]->Value_0 >= 0 {
        let np = e.m.stack@[stack_params as int]->Value_0 as int;
        if objs[k].var_selectors.contains(selector) {
            if !has_property(objs[k], selector) {
                !ok
            } else if np == 0 {
                &&& ok
                &&& later.m == (Machine { ax: spec_get_property(objs[k], selector), ..e.m })
                &&& later.frames@ == e.frames@
                &&& later.pending == e.pending
            } else if stack_params + 1 < n {
                &&& ok
                &&& later.m == (Machine { objects: later.m.objects, ..e.m })
                &&& object_views(later.m.objects@) == objs.update(
                    k,
                    spec_set_property(objs[k], selector, e.m.stack@[stack_params + 1]),
                )
                &&& later.frames@ == e.frames@
                &&& later.pending == e.pending
            } else {
                !ok
            }
        } else if np < n - stack_params {
            method_started(e, later, obj, send_obj, selector, stack_params, ok)
        } else {
            !ok
        }
    } else {
        !ok
    }
}

/// Where a call's stack frame starts on a stack of `n` values: `words` words and
/// the `&rest` count below the top; `None` where the stack is shorter.
pub open spec fn spec_frame_start(n: nat, words: int, rest: int) -> Option<usize> {
    if words > n || rest > n - words {
        None
    } else {
        Some((n - words - rest) as usize)
    }
}

/// The stack with the `&rest` count added to the parameter count at `at`, where a
/// `&rest` is pending; `None` where that count is not a value or the sum leaves the
/// range of `i16`.
pub open spec fn spec_add_rest(stack: Seq<Register>, rest: usize, at: int) -> Option<Seq<Register>> {
    if rest == 0 {
        Some(stack)
    } else if at < 0 || at >= stack.len() {
        None
    } else {
        match stack[at] {
            Register::Value(v) => {
                let r = #[verifier::truncate] (rest as i16);
                if i16::MIN <= v + r <= i16::MAX {
                    Some(stack.update(at, Register::Value((v + r) as i16)))
                } else {
                    None
                }
            },
            _ => None,
        }
    }
}

/// Where a `call` instruction at `ctx.ip` (its opcode already read, its operands
/// at `ip1`) leads: the start of the callee's stack frame, the stack once the
/// `&rest` count is added, and the callee's instruction pointer; `None` where the
/// operands are cut short, the stack is too short, the `&rest` count cannot be
/// added, or the target leaves the range of `i16`.
pub open spec fn spec_call(code: Seq<u8>, ip1: int, stack: Seq<Register>, rest: usize) -> Option<(usize, Seq<Register>, usize)> {
    if ip1 + 3 > code.len() {
        None
    } else {
        let rel = super::interpret::word_at(code, ip1);
        let size = code[ip1 + 2];
        let ip2 = ip1 + 3;
        match spec_frame_start(stack.len(), size / 2 + 1, rest as int) {
            Some(start) => match spec_add_rest(stack, rest, start as int) {
                Some(st) => if ip2 <= i16::MAX && i16::MIN <= ip2 + rel <= i16::MAX {
                    Some((start, st, ((ip2 + rel) as i16) as usize))
                } else {
                    None
                },
                None => None,
            },
            None => None,
        }
    }
}

/// Where a call of entry `dispatch` of script `script_num`'s exports, with `size`
/// bytes of parameters, leads: the start of the callee's stack frame, the stack
/// once the `&rest` count is added, the callee's instruction pointer and code;
/// `None` where the stack is too short, the `&rest` count cannot be added, or the
/// script is not loaded or has no such entry.
pub open spec fn spec_dispatch(
    scripts: Map<u16, crate::script::Script>,
    stack: Seq<Register>,
    rest: usize,
    script_num: u16,
    dispatch: u16,
    size: u8,
) -> Option<(usize, Seq<Register>, usize, Seq<u8>)> {
    match spec_frame_start(stack.len(), size / 2 + 1, rest as int) {
        Some(start) => match spec_add_rest(stack, rest, start as int) {
            Some(st) => if scripts.contains_key(script_num) && dispatch < scripts[script_num].exports@.len() {
                Some(
                    (
                        start,
                        st,
                        scripts[script_num].exports@[dispatch as int] as usize,
                        scripts[script_num].data@,
                    ),
                )
            } else {
                None
            },
            None => None,
        },
        None => None,
    }
}

/// The engine `later` is `e` after a call of entry `dispatch` of script
/// `script_num` from the method `ctx`, answered `r`: the caller and the callee are
/// pushed, or the call fails.
pub open spec fn dispatched<'a>(
    e: &Engine<'a>,
    later: &Engine<'a>,
    ctx: ExecutionContext,
    r: Option<Action>,
    script_num: u16,
    dispatch: u16,
    size: u8,
) -> bool {
    match spec_dispatch(e.m.scripts@, e.m.stack@, e.m.rest_modifier, script_num, dispatch, size) {
        Some((start, st, ip, code)) => {
            let n = e.frames@.len();
            &&& r is None
            &&& later.frames@.len() == n + 2
            &&& later.frames@.subrange(0, n as int) == e.frames@
            &&& later.frames@[n as int] == Frame::Code(ctx)
            &&& later.frames@[n as int + 1] matches Frame::Code(c) && c.ip == ip && c.code@ == code
                && c.current_obj == ctx.current_obj && c.script == script_num && c.stack_params == start
                && c.stack_unwind == start && c.stack_temps == e.m.stack@.len()
            &&& later.m.stack@ == st
            &&& later.m.rest_modifier == 0
            &&& later.m.ax == e.m.ax
            &&& later.m.heap@ == e.m.heap@
        },
        None => r matches Some(Action::Fault),
    }
}

/// Whether the frames `later` are `frames` with one more pushed.
pub open spec fn pushed_one(frames: Seq<Frame>, later: Seq<Frame>) -> bool {
    later.len() == frames.len() + 1 && later.subrange(0, frames.len() as int) == frames
}

/// Where a `callk` instruction (its opcode already read, its operands at `ip1`)
/// leads: the kernel function, the start of its parameters, and the stack once the
/// `&rest` count is added; `None` where the parameter count on the stack is not the
/// one that the instruction gives.
pub open spec fn spec_callk(code: Seq<u8>, ip1: int, stack: Seq<Register>, rest: usize) -> Option<(u8, usize, Seq<Register>)> {
    if ip1 + 2 > code.len() {
        None
    } else {
        let kp = code[ip1 + 1] / 2;
        match spec_frame_start(stack.len(), kp + 1, rest as int) {
            Some(start) => match spec_add_rest(stack, rest, start as int) {
                Some(st) => if start < st.len() && st[start as int] == Register::Value(kp as i16) {
                    Some((code[ip1], start, st))
                } else {
                    None
                },
                None => None,
            },
            None => None,
        }
    }
}

/// What a `callk` instruction at `ctx.ip` does: the caller is pushed back, its
/// instruction pointer past the operands, the `&rest` count is added, and then the
/// kernel function runs as `kernel_done` says.
pub open spec fn callk_done<'a>(e: &Engine<'a>, later: &Engine<'a>, ctx: ExecutionContext, r: Option<Action>) -> bool {
    match spec_callk(ctx.code@, ctx.ip + 1, e.m.stack@, e.m.rest_modifier) {
        Some((k, start, st)) => exists|mid: Engine<'a>|
            #[trigger] super::calls::kernel_done(&mid, later, k, start, r) && mid.m == (Machine {
                stack: mid.m.stack,
                rest_modifier: 0,
                ..e.m
            }) && mid.m.stack@ == st && mid.pending == e.pending && pushed_one(e.frames@, mid.frames@)
                && (mid.frames@.last() matches Frame::Code(c) && same_frame(&ctx, &c) && c.ip == ctx.ip + 3),
        None => r matches Some(Action::Fault),
    }
}

/// The object that a send, self or super instruction at `ctx.ip` sends to, the
/// object whose methods answer, and the position of its frame-size operand;
/// `None` where the running object, the class or the receiver is not there.
pub open spec fn spec_send_objects<'a>(m: &Machine<'a>, ctx: &ExecutionContext) -> Option<(Id, Id, int)> {
    let cmd = ctx.code@[ctx.ip as int];
    let objs = object_views(m.objects@);
    let cur = ctx.current_obj;
    if object_index(objs, cur) >= objs.len() {
        None
    } else if cmd == 0x54 || cmd == 0x55 {
        Some((cur, cur, ctx.ip + 1))
    } else if cmd == 0x57 {
        if ctx.ip + 2 > ctx.code@.len() {
            None
        } else {
            match super::machine::spec_class_definition_of(m.resources@, m.class_scripts@, ctx.code@[ctx.ip + 1] as u16) {
                Some(def) => if object_index(objs, class_id(def)) < objs.len() {
                    Some((cur, class_id(def), ctx.ip + 2))
                } else {
                    None
                },
                None => None,
            }
        }
    } else {
        match m.ax {
            Register::Object(id) => if object_index(objs, id) < objs.len() {
                Some((id, id, ctx.ip + 1))
            } else {
                None
            },
            _ => None,
        }
    }
}

/// The offsets, from `idx` on, of the selectors in the `span` values of a send
/// frame at `start`: each selector is followed by its parameter count and its
/// parameters. With a `&rest` count pending, the selector at `idx` must take
/// exactly the rest of the frame beside that count. `None` where a count is
/// missing, is not a value, or is negative.
pub open spec fn spec_send_offsets(stack: Seq<Register>, start: int, span: int, idx: int, rest: usize) -> Option<Seq<usize>>
    decreases span - idx,
{
    if idx < 0 || idx >= span {
        Some(Seq::empty())
    } else if idx + 1 >= span {
        None
    } else {
        match stack[start + idx + 1] {
            Register::Value(np) => if np < 0 {
                None
            } else {
                let step = np + 2;
                let remaining = span - idx;
                if rest > 0 {
                    if step > remaining || rest != remaining - step {
                        None
                    } else {
                        Some(seq![idx as usize])
                    }
                } else if step >= remaining {
                    Some(seq![idx as usize])
                } else {
                    match spec_send_offsets(stack, start, span, idx + step, rest) {
                        Some(o) => Some(seq![idx as usize] + o),
                        None => None,
                    }
                }
            },
            _ => None,
        }
    }
}

/// What a send, self or super instruction at `ctx.ip` does: the caller is pushed
/// back past its operands, then a send frame for the selectors on the stack;
/// a pending `&rest` count is added to the selector's parameter count. Only the
/// stack, the `&rest` count and the loaded scripts change in the machine.
pub open spec fn send_done<'a>(e: &Engine<'a>, later: &Engine<'a>, ctx: ExecutionContext, r: Option<Action>) -> bool {
    let n = e.m.stack@.len();
    let rest = e.m.rest_modifier;
    match spec_send_objects(&e.m, &ctx) {
        Some((obj, send_obj, ip1)) => if ip1 < ctx.code@.len() {
            match spec_frame_start(n, (ctx.code@[ip1] / 2) as int, rest as int) {
                Some(start) => match spec_send_offsets(e.m.stack@, start as int, n - start, 0, rest) {
                    Some(offsets) => match (if start < n {
                        spec_add_rest(e.m.stack@, rest, start + 1)
                    } else {
                        Some(e.m.stack@)
                    }) {
                        Some(st) => {
                            let nf = e.frames@.len();
                            &&& r is None
                            &&& later.frames@.len() == nf + 2
                            &&& later.frames@.subrange(0, nf as int) == e.frames@
                            &&& later.frames@[nf as int] matches Frame::Code(c) && same_frame(&ctx, &c) && c.ip == ip1 + 1
                            &&& later.frames@[nf as int + 1] matches Frame::Send(f) && f.obj == obj && f.send_obj == send_obj
                                && f.start == start && f.end == n && f.offsets@ == offsets && f.next == 0
                            &&& later.m.stack@ == st
                            &&& later.m.rest_modifier == (if start < n { 0 } else { rest })
                            &&& e.m.loads_scripts(&Machine { stack: e.m.stack, rest_modifier: rest, ..later.m })
                        },
                        None => r matches Some(Action::Fault),
                    },
                    None => r matches Some(Action::Fault),
                },
                None => r matches Some(Action::Fault),
            }
        } else {
            r matches Some(Action::Fault)
        },
        None => r matches Some(Action::Fault),
    }
}

/// Whether the engine runs instruction `cmd`: those that touch only the running
/// method, and the calls, returns, sends and loads.
pub open spec fn is_engine_op(cmd: u8) -> bool {
    is_local(cmd) || cmd == 0x40 || cmd == 0x43 || cmd == 0x45 || cmd == 0x46 || cmd == 0x48 || cmd == 0x49
        || cmd == 0x4a || cmd == 0x4b || cmd == 0x51 || cmd == 0x54 || cmd == 0x55 || cmd == 0x57 || cmd == 0x72
}

/// The offset that a `lofsa` instruction at `ctx.ip` names: the position after it
/// plus its signed operand, where both fit a non-negative 16-bit signed value.
pub open spec fn lofsa_target(ctx: &ExecutionContext) -> Option<int> {
    if ctx.ip + 3 <= ctx.code@.len() && ctx.ip + 3 <= 32767 {
        let t = ctx.ip + 3 + (#[verifier::truncate] (le_u16_at(ctx.code@, ctx.ip + 1) as i16)) as int;
        if 0 <= t <= 32767 {
            Some(t)
        } else {
            None
        }
    } else {
        None
    }
}

/// The first object definition at offset `t`, from position `from` on.
pub open spec fn first_at_offset(objects: Seq<ClassView>, t: int, from: int) -> Option<ClassView>
    decreases objects.len() - from,
{
    if from < 0 || from >= objects.len() {
        None
    } else if objects[from].offset == t {
        Some(objects[from])
    } else {
        first_at_offset(objects, t, from + 1)
    }
}

pub(crate) proof fn lemma_first_at_offset(objects: Seq<ClassView>, t: int, from: int, k: int)
    requires
        0 <= from,
        forall|j: int| from <= j < k ==> #[trigger] objects[j].offset != t,
        k == objects.len() || (k < objects.len() && objects[k].offset == t),
        from <= k,
    ensures
        first_at_offset(objects, t, from) == if k < objects.len() {
            Some(objects[k])
        } else {
            None::<ClassView>
        },
    decreases objects.len() - from,
{
    if from < k {
        lemma_first_at_offset(objects, t, from + 1, k);
    }
}

/// The first string definition at offset `t`, from position `from` on.
pub open spec fn first_string_at(strings: Seq<(int, Seq<char>)>, t: int, from: int) -> Option<Seq<char>>
    decreases strings.len() - from,
{
    if from < 0 || from >= strings.len() {
        None
    } else if strings[from].0 == t {
        Some(strings[from].1)
    } else {
        first_string_at(strings, t, from + 1)
    }
}

pub(crate) proof fn lemma_first_string_at(strings: Seq<(int, Seq<char>)>, t: int, from: int, k: int)
    requires
        0 <= from <= k,
        forall|j: int| from <= j < k ==> #[trigger] strings[j].0 != t,
        k == strings.len() || (k < strings.len() && strings[k].0 == t),
    ensures
        first_string_at(strings, t, from) == if k < strings.len() {
            Some(strings[k].1)
        } else {
            None::<Seq<char>>
        },
    decreases strings.len() - from,
{
    if from < k {
        lemma_first_string_at(strings, t, from + 1, k);
    }
}

/// The bytes that a string register names: those of the first string defined at
/// its offset in its loaded script, from its byte offset on, which must fall on a
/// character boundary.
pub open spec fn spec_string_value(scripts: Map<u16, crate::script::Script>, r: Register) -> Option<Seq<u8>> {
    match r {
        Register::String(id, off) => if scripts.contains_key(id.script_number) {
            match first_string_at(scripts[id.script_number]@.strings, id.offset as int, 0) {
                Some(chars) => {
                    let bytes = vstd::utf8::encode_utf8(chars);
                    if vstd::utf8::is_char_boundary(bytes, off as int) {
                        Some(bytes.subrange(off as int, bytes.len() as int))
                    } else {
                        None
                    }
                },
                None => None,
            }
        } else {
            None
        },
        _ => None,
    }
}

/// Whether an object can be had for `class`: it was made already, or its instance
/// can be built.
pub open spec fn object_made<'a>(m: &Machine<'a>, class: ClassView) -> bool {
    object_index(object_views(m.objects@), class_id(class)) < m.objects@.len()
        || spec_instance(m.resources@, m.class_scripts@, class) is Some
}

/// What a `lofsa` instruction at `ctx.ip` does: the object defined at its target
/// in the running script is made and loaded into the accumulator, or else a
/// string defined there is; anything else faults.
pub open spec fn lofsa_done<'a>(e: &Engine<'a>, later: &Engine<'a>, ctx: ExecutionContext, r: Option<Action>) -> bool {
    match lofsa_target(&ctx) {
        Some(t) => if e.m.scripts@.contains_key(ctx.script) {
            let s = e.m.scripts@[ctx.script]@;
            match first_at_offset(s.objects, t, 0) {
                Some(o) => if object_made(&e.m, o) {
                    &&& r is None
                    &&& later.m.ax == Register::Object(class_id(o))
                    &&& e.m.makes_object(&Machine { ax: e.m.ax, ..later.m }, o)
                    &&& pushed_one(e.frames@, later.frames@)
                    &&& later.frames@.last() matches Frame::Code(c) && same_frame(&ctx, &c)
                        && c.ip == ctx.ip + 3
                } else {
                    r matches Some(Action::Fault)
                },
                None => if exists|k: int| 0 <= k < s.strings.len() && #[trigger] s.strings[k].0 == t {
                    &&& r is None
                    &&& later.m == (Machine { ax: Register::String(Id { script_number: ctx.script, offset: t as usize }, 0), ..e.m })
                    &&& pushed_one(e.frames@, later.frames@)
                    &&& later.frames@.last() matches Frame::Code(c) && same_frame(&ctx, &c)
                        && c.ip == ctx.ip + 3
                } else {
                    r matches Some(Action::Fault)
                },
            }
        } else {
            r matches Some(Action::Fault)
        },
        None => r matches Some(Action::Fault),
    }
}

impl<'a> Engine<'a> {
    /// Sends `selector` to `obj`, its methods looked up in `send_obj`, the count of
    /// parameters at `stack_params`: with no parameters a property is read into the
    /// accumulator, with some it is set to the first; a method is started.
    pub(crate) fn send_to_selector(&mut self, obj: Id, send_obj: Id, selector: u16, stack_params: usize) -> (ok: bool)
        requires
            old(self).wf(),
        ensures
            final(self).wf(),
            final(self).frames@ == old(self).frames@ || (ok && pushed_one(
                old(self).frames@,
                final(self).frames@,
            )),
            selector_sent(old(self), final(self), obj, send_obj, selector, stack_params, ok),
    {
        let k = match self.m.find_object(obj) {
            Some(k) => k,
            None => return false,
        };
        let n = self.m.stack.len();
        if stack_params >= n {
            return false;
        }
        let np = match self.m.stack[stack_params] {
            Register::Value(v) => v,
            _ => return false,
        };
        if np < 0 {
            return false;
        }
        let np = np as usize;
        assert(object_views(self.m.objects@)[k as int] == self.m.objects@[k as int]@);
        if self.m.objects[k].has_var_selector(selector) {
            if !self.m.objects[k].has_property_value(selector) {
                return false;
            }
            if np == 0 {
                self.m.ax = self.m.objects[k].get_property(selector);
                assert(self.m == (Machine { ax: self.m.ax, ..old(self).m }));
            } else {
                if stack_params + 1 >= n {
                    return false;
                }
                let value = self.m.stack[stack_params + 1];
                let ghost before = self.m.objects@;
                self.m.objects[k].set_property(selector, value);
                assert(object_views(self.m.objects@) =~= object_views(before).update(
                    k as int,
                    spec_set_property(before[k as int]@, selector, value),
                ));
                assert(self.m == (Machine { objects: self.m.objects, ..old(self).m }));
            }
            return true;
        }
        if np >= n - stack_params {
            return false;
        }
        self.send_selector(obj, send_obj, selector, stack_params)
    }

    /// Adds the `&rest` count to the parameter count at `at` and clears it.
    fn add_rest(&mut self, at: usize) -> (ok: bool)
        requires
            old(self).wf(),
        ensures
            final(self).wf(),
            final(self).frames@ == old(self).frames@,
            final(self).pending == old(self).pending,
            final(self).m == (Machine { stack: final(self).m.stack, rest_modifier: final(self).m.rest_modifier, ..old(self).m }),
            final(self).m.stack@.len() == old(self).m.stack@.len(),
            final(self).m.ax == old(self).m.ax,
            final(self).m.heap@ == old(self).m.heap@,
            final(self).m.scripts@ == old(self).m.scripts@,
            object_views(final(self).m.objects@) == object_views(old(self).m.objects@),
            match spec_add_rest(old(self).m.stack@, old(self).m.rest_modifier, at as int) {
                Some(st) => ok && final(self).m.stack@ == st && final(self).m.rest_modifier == 0,
                None => !ok,
            },
    {
        if self.m.rest_modifier == 0 {
            return true;
        }
        if at >= self.m.stack.len() {
            return false;
        }
        let r = #[verifier::truncate] (self.m.rest_modifier as i16);
        let v = match self.m.stack[at] {
            Register::Value(v) => v,
            _ => return false,
        };
        if (v as i32) + (r as i32) > 32767 || (v as i32) + (r as i32) < -32768 {
            return false;
        }
        self.m.stack.set(at, Register::Value(v + r));
        self.m.rest_modifier = 0;
        true
    }

    /// Where a call's stack frame starts: `words` words and the `&rest` count
    /// below the top.
    fn frame_start(&self, words: usize) -> (start: Option<usize>)
        ensures
            start == spec_frame_start(self.m.stack@.len(), words as int, self.m.rest_modifier as int),
    {
        let end = self.m.stack.len();
        if words > end || self.m.rest_modifier > end - words {
            return None;
        }
        Some(end - words - self.m.rest_modifier)
    }

    /// Calls entry `dispatch` of script `script_num`'s exports, with a stack frame
    /// of `size` bytes of parameters.
    fn call_dispatch(&mut self, ctx: ExecutionContext, script_num: u16, dispatch: u16, size: u8) -> (r: Option<Action>)
        requires
            old(self).wf(),
        ensures
            final(self).wf(),
            !(r matches Some(Action::Finished)),
            dispatched(old(self), final(self), ctx, r, script_num, dispatch, size),
    {
        let start = match self.frame_start(size as usize / 2 + 1) {
            Some(s) => s,
            None => return Some(Action::Fault),
        };
        if !self.add_rest(start) {
            return Some(Action::Fault);
        }
        let (ip, code) = match self.m.scripts.get(&script_num) {
            Some(script) => {
                if dispatch as usize >= script.exports.len() {
                    return Some(Action::Fault);
                }
                (script.exports[dispatch as usize] as usize, copy_vec(&script.data))
            },
            None => return Some(Action::Fault),
        };
        let call = ExecutionContext {
            current_obj: ctx.current_obj,
            script: script_num,
            ip,
            code,
            stack_params: start,
            stack_temps: self.m.stack.len(),
            stack_unwind: start,
        };
        self.frames.push(Frame::Code(ctx));
        self.frames.push(Frame::Code(call));
        assert(self.frames@.subrange(0, old(self).frames@.len() as int) =~= old(self).frames@);
        None
    }
}

/// Whether at least `n` bytes of code follow the instruction pointer.
fn has_bytes(ctx: &ExecutionContext, n: usize) -> (b: bool)
    ensures
        b == (ctx.ip + n <= ctx.code@.len()),
{
    ctx.ip <= ctx.code.len() && n <= ctx.code.len() - ctx.ip
}

/// What running the next instruction of the method `ctx`, taken off the frame
/// stack of `e`, does: the result `later` and the answer `r`.
pub open spec fn code_step_done<'a>(e: &Engine<'a>, later: &Engine<'a>, ctx: ExecutionContext, r: Option<Action>) -> bool {
    &&& (ctx.ip < ctx.code@.len() && (ctx.code@[ctx.ip as int] == 0x48 || ctx.code@[ctx.ip as int]
        == 0x49) ==> {
        &&& r is None
        &&& later.frames@ == e.frames@
        &&& later.m.stack@ == crate::pmachine::run::truncated(
            e.m.stack@,
            ctx.stack_unwind,
        )
        &&& later.m.ax == e.m.ax
        &&& later.m.heap@ == e.m.heap@
    })
    &&& (ctx.ip >= ctx.code@.len() ==> r matches Some(Action::Fault))
    &&& (ctx.ip < ctx.code@.len() && ctx.code@[ctx.ip as int] == 0x45 ==> if ctx.ip + 3
        <= ctx.code@.len() {
        exists|c: ExecutionContext|
            same_frame(&ctx, &c) && c.ip == ctx.ip + 3 && #[trigger] dispatched(
                e,
                later,
                c,
                r,
                0,
                ctx.code@[ctx.ip + 1] as u16,
                ctx.code@[ctx.ip + 2],
            )
    } else {
        r matches Some(Action::Fault)
    })
    &&& (ctx.ip < ctx.code@.len() && ctx.code@[ctx.ip as int] == 0x46 ==> if ctx.ip + 6
        <= ctx.code@.len() && le_u16_at(ctx.code@, ctx.ip + 1) <= 0x7fff && le_u16_at(
        ctx.code@,
        ctx.ip + 3,
    ) <= 0x7fff {
        exists|c: ExecutionContext|
            same_frame(&ctx, &c) && c.ip == ctx.ip + 6 && #[trigger] dispatched(
                e,
                later,
                c,
                r,
                le_u16_at(ctx.code@, ctx.ip + 1),
                le_u16_at(ctx.code@, ctx.ip + 3),
                ctx.code@[ctx.ip + 5],
            )
    } else {
        r matches Some(Action::Fault)
    })
    &&& (ctx.ip < ctx.code@.len() && ctx.code@[ctx.ip as int] == 0x51 ==> if ctx.ip + 2
        <= ctx.code@.len() {
        match super::machine::spec_class_definition_of(
            e.m.resources@,
            e.m.class_scripts@,
            ctx.code@[ctx.ip + 1] as u16,
        ) {
            Some(def) => if super::machine::object_index(
                object_views(e.m.objects@),
                class_id(def),
            ) < e.m.objects@.len() {
                &&& r is None
                &&& later.m.ax == Register::Object(class_id(def))
                &&& pushed_one(e.frames@, later.frames@)
                &&& later.frames@.last() matches Frame::Code(c) && same_frame(&ctx, &c)
                    && c.ip == ctx.ip + 2
                &&& later.m.stack@ == e.m.stack@
            } else {
                r matches Some(Action::Fault)
            },
            None => r matches Some(Action::Fault),
        }
    } else {
        r matches Some(Action::Fault)
    })
    &&& (ctx.ip < ctx.code@.len() && ctx.code@[ctx.ip as int] == 0x40 ==> match spec_call(
        ctx.code@,
        ctx.ip + 1,
        e.m.stack@,
        e.m.rest_modifier,
    ) {
        Some((start, st, ip)) => {
            let n = e.frames@.len();
            &&& r is None
            &&& later.frames@.len() == n + 2
            &&& later.frames@.subrange(0, n as int) == e.frames@
            &&& later.frames@[n as int] matches Frame::Code(c) && same_frame(&ctx, &c)
                && c.ip == ctx.ip + 4
            &&& later.frames@[n as int + 1] matches Frame::Code(c) && c.ip == ip && c.code@
                == ctx.code@ && c.current_obj == ctx.current_obj && c.script == ctx.script
                && c.stack_params == start && c.stack_unwind == start && c.stack_temps
                == e.m.stack@.len()
            &&& later.m.stack@ == st
            &&& later.m.rest_modifier == 0
            &&& later.m.ax == e.m.ax
            &&& later.m.heap@ == e.m.heap@
        },
        None => r matches Some(Action::Fault),
    })
    &&& (ctx.ip < ctx.code@.len() && is_local(ctx.code@[ctx.ip as int]) ==> match spec_local(
        frame_view(&ctx),
        vm_state(&e.m, ctx.ip + 1),
        ctx.code@[ctx.ip as int],
    ) {
        LocalStep::Next(st) => {
            &&& r is None
            &&& pushed_one(e.frames@, later.frames@)
            &&& later.frames@.last() matches Frame::Code(c) && same_frame(&ctx, &c)
                && vm_state(&later.m, c.ip as int) == st
            &&& same_machine_frame(&e.m, &later.m)
        },
        _ => r matches Some(Action::Fault),
    })
    &&& (ctx.ip < ctx.code@.len() && ctx.code@[ctx.ip as int] == 0x43 ==> callk_done(e, later, ctx, r))
    &&& (ctx.ip < ctx.code@.len() && (ctx.code@[ctx.ip as int] == 0x4a || ctx.code@[ctx.ip as int] == 0x4b
        || ctx.code@[ctx.ip as int] == 0x54 || ctx.code@[ctx.ip as int] == 0x55 || ctx.code@[ctx.ip as int]
        == 0x57) ==> send_done(e, later, ctx, r))
    &&& (ctx.ip < ctx.code@.len() && ctx.code@[ctx.ip as int] == 0x72 ==> lofsa_done(e, later, ctx, r))
    &&& (ctx.ip < ctx.code@.len() && !is_engine_op(ctx.code@[ctx.ip as int]) ==> (r matches Some(Action::Fault))
        && *later == *e)
}

impl<'a> Engine<'a> {
    /// Runs the next instruction of the method `ctx`, which has been taken off the
    /// frame stack: the frames it leaves are pushed back. An instruction that the
    /// machine does not know answers a fault and leaves the machine as it was.
    pub fn step_code(&mut self, ctx: ExecutionContext) -> (r: Option<Action>)
        requires
            old(self).wf(),
        ensures
            final(self).wf(),
            !(r matches Some(Action::Finished)),
            code_step_done(old(self), final(self), ctx, r),
    {
        let ghost ctx0 = ctx;
        let mut ctx = ctx;
        if ctx.ip >= ctx.code.len() {
            return Some(Action::Fault);
        }
        let cmd = ctx.read_u8();
        if is_alu_exec(cmd) || is_flow_exec(cmd) || is_var_op_exec(cmd) {
            if !self.m.local(&mut ctx, cmd) {
                return Some(Action::Fault);
            }
            self.frames.push(Frame::Code(ctx));
            assert(self.frames@.subrange(0, old(self).frames@.len() as int) =~= old(self).frames@);
            return None;
        }
        if cmd == 0x40 {
            if !has_bytes(&ctx, 3) {
                return Some(Action::Fault);
            }
            let rel_pos = ctx.read_i16();
            let size = ctx.read_u8();
            let start = match self.frame_start(size as usize / 2 + 1) {
                Some(s) => s,
                None => return Some(Action::Fault),
            };
            if !self.add_rest(start) {
                return Some(Action::Fault);
            }
            if ctx.ip > 32767 || (ctx.ip as i32) + (rel_pos as i32) > 32767 || (ctx.ip as i32) + (
            rel_pos as i32) < -32768 {
                return Some(Action::Fault);
            }
            let mut call = ExecutionContext {
                current_obj: ctx.current_obj,
                script: ctx.script,
                ip: ctx.ip,
                code: copy_vec(&ctx.code),
                stack_params: start,
                stack_temps: self.m.stack.len(),
                stack_unwind: start,
            };
            call.jump(rel_pos);
            self.frames.push(Frame::Code(ctx));
            self.frames.push(Frame::Code(call));
            assert(self.frames@.subrange(0, old(self).frames@.len() as int) =~= old(self).frames@);
            return None;
        }
        if cmd == 0x43 {
            return self.call_kernel(ctx, Ghost(ctx0));
        }
        if cmd == 0x45 {
            if !has_bytes(&ctx, 2) {
                return Some(Action::Fault);
            }
            let dispatch = ctx.read_u8() as u16;
            let size = ctx.read_u8();
            let ghost c = ctx;
            let r = self.call_dispatch(ctx, 0, dispatch, size);
            assert(same_frame(&ctx0, &c) && c.ip == ctx0.ip + 3);
            assert(dispatch == ctx0.code@[ctx0.ip + 1] as u16 && size == ctx0.code@[ctx0.ip + 2]);
            assert(dispatched(old(self), self, c, r, 0, ctx0.code@[ctx0.ip + 1] as u16, ctx0.code@[ctx0.ip + 2]));
            return r;
        }
        if cmd == 0x46 {
            if !has_bytes(&ctx, 5) {
                return Some(Action::Fault);
            }
            if crate::bytes::read_le_u16(ctx.code.as_slice(), ctx.ip) > 0x7fff {
                return Some(Action::Fault);
            }
            let script_num = ctx.read_u16();
            if crate::bytes::read_le_u16(ctx.code.as_slice(), ctx.ip) > 0x7fff {
                return Some(Action::Fault);
            }
            let dispatch = ctx.read_u16();
            let size = ctx.read_u8();
            let ghost c = ctx;
            let r = self.call_dispatch(ctx, script_num, dispatch, size);
            assert(same_frame(&ctx0, &c) && c.ip == ctx0.ip + 6);
            assert(script_num == le_u16_at(ctx0.code@, ctx0.ip + 1) && dispatch == le_u16_at(ctx0.code@, ctx0.ip + 3)
                && size == ctx0.code@[ctx0.ip + 5]);
            assert(dispatched(old(self), self, c, r, le_u16_at(ctx0.code@, ctx0.ip + 1), le_u16_at(ctx0.code@, ctx0.ip + 3), ctx0.code@[ctx0.ip + 5]));
            return r;
        }
        if cmd == 0x48 || cmd == 0x49 {
            self.m.stack.truncate(ctx.stack_unwind);
            assert(self.m.stack@ == crate::pmachine::run::truncated(old(self).m.stack@, ctx.stack_unwind));
            assert(!is_local(cmd));
            return None;
        }
        if cmd == 0x4a || cmd == 0x4b || cmd == 0x54 || cmd == 0x55 || cmd == 0x57 {
            return self.send(ctx, cmd, Ghost(ctx0));
        }
        if cmd == 0x51 {
            if !has_bytes(&ctx, 1) {
                return Some(Action::Fault);
            }
            let class_num = ctx.read_u8() as u16;
            let def = match self.m.get_class_definition(class_num) {
                Some(d) => d,
                None => return Some(Action::Fault),
            };
            let id = Id { script_number: def.script_number, offset: def.offset };
            if self.m.find_object(id).is_none() {
                return Some(Action::Fault);
            }
            self.m.ax = Register::Object(id);
            self.frames.push(Frame::Code(ctx));
            assert(self.frames@.subrange(0, old(self).frames@.len() as int) =~= old(self).frames@);
            return None;
        }
        if cmd == 0x72 {
            return self.load_offset(ctx, Ghost(ctx0));
        }
        Some(Action::Fault)
    }

    /// The `callk` instruction, its opcode read already.
    fn call_kernel(&mut self, ctx: ExecutionContext, Ghost(ctx0): Ghost<ExecutionContext>) -> (r: Option<Action>)
        requires
            old(self).wf(),
            ctx0.ip < ctx0.code@.len(),
            ctx0.code@[ctx0.ip as int] == 0x43,
            same_frame(&ctx0, &ctx),
            ctx.ip == ctx0.ip + 1,
            ctx.code@ == ctx0.code@,
        ensures
            final(self).wf(),
            !(r matches Some(Action::Finished)),
            callk_done(old(self), final(self), ctx0, r),
    {
        let mut ctx = ctx;
        if !has_bytes(&ctx, 2) {
            return Some(Action::Fault);
        }
        let k_func = ctx.read_u8();
        let k_params = ctx.read_u8() / 2;
        let start = match self.frame_start(k_params as usize + 1) {
            Some(s) => s,
            None => return Some(Action::Fault),
        };
        if !self.add_rest(start) {
            return Some(Action::Fault);
        }
        if start >= self.m.stack.len() {
            return Some(Action::Fault);
        }
        match self.m.stack[start] {
            Register::Value(v) => {
                if v != k_params as i16 {
                    return Some(Action::Fault);
                }
            },
            _ => return Some(Action::Fault),
        }
        let ghost st = self.m.stack@;
        self.frames.push(Frame::Code(ctx));
        let ghost mid = *self;
        assert(self.frames@.subrange(0, old(self).frames@.len() as int) =~= old(self).frames@);
        assert(spec_callk(ctx0.code@, ctx0.ip + 1, old(self).m.stack@, old(self).m.rest_modifier) == Some((k_func, start, st)));
        assert(mid.m == (Machine { stack: mid.m.stack, rest_modifier: 0, ..old(self).m }));
        assert(pushed_one(old(self).frames@, mid.frames@));
        let r = self.kernel(k_func, start);
        proof {
            let res = spec_callk(ctx0.code@, ctx0.ip + 1, old(self).m.stack@, old(self).m.rest_modifier);
            assert(super::calls::kernel_done(&mid, self, res.unwrap().0, res.unwrap().1, r));
        }
        r
    }

    /// The `lofsa` instruction, its opcode read already.
    fn load_offset(&mut self, ctx: ExecutionContext, Ghost(ctx0): Ghost<ExecutionContext>) -> (r: Option<Action>)
        requires
            old(self).wf(),
            ctx0.ip < ctx0.code@.len(),
            ctx0.code@[ctx0.ip as int] == 0x72,
            same_frame(&ctx0, &ctx),
            ctx.ip == ctx0.ip + 1,
        ensures
            final(self).wf(),
            lofsa_done(old(self), final(self), ctx0, r),
    {
        let mut ctx = ctx;
        if !has_bytes(&ctx, 2) {
            return Some(Action::Fault);
        }
        let offset = ctx.read_i16();
        // A target before the start of the script names nothing in it.
        if ctx.ip > 32767 || (ctx.ip as i32) + (offset as i32) > 32767 || (ctx.ip as i32) + (
        offset as i32) < 0 {
            return Some(Action::Fault);
        }
        let v = ((ctx.ip as i32) + (offset as i32)) as usize;
        assert(lofsa_target(&ctx0) == Some(v as int));
        let found = match self.m.scripts.get(&ctx.script) {
            Some(script) => match script.get_object_by_offset(v) {
                Some(o) => {
                    proof {
                        let k = choose|k: int|
                            0 <= k < script.objects@.len() && *o == #[trigger] script.objects@[k] && o.offset == v
                                && forall|j: int| 0 <= j < k ==> #[trigger] script.objects@[j].offset != v;
                        lemma_first_at_offset(script@.objects, v as int, 0, k);
                    }
                    Some(super::machine::copy_class(o))
                },
                None => {
                    proof {
                        lemma_first_at_offset(script@.objects, v as int, 0, script@.objects.len() as int);
                    }
                    match script.get_string_by_offset(v) {
                        Some(sd) => {
                            proof {
                                let k = choose|k: int|
                                    0 <= k < script.strings@.len() && *sd == #[trigger] script.strings@[k]
                                        && sd.offset == v && forall|j: int|
                                        0 <= j < k ==> #[trigger] script.strings@[j].offset != v;
                                assert(script@.strings[k].0 == v as int);
                            }
                            None
                        },
                        None => {
                            proof {
                                assert forall|k: int| 0 <= k < script@.strings.len() implies #[trigger] script@.strings[k].0 != v as int by {
                                    assert(script.strings@[k].offset != v);
                                }
                            }
                            return Some(Action::Fault);
                        },
                    }
                },
            },
            None => return Some(Action::Fault),
        };
        match found {
            Some(def) => {
                match self.m.initialise_object(&def) {
                    Some(id) => {
                        let ghost mid = self.m;
                        self.m.ax = Register::Object(id);
                        assert(mid == (Machine { ax: old(self).m.ax, ..self.m }));
                    },
                    None => return Some(Action::Fault),
                }
            },
            None => {
                self.m.ax = Register::String(Id { script_number: ctx.script, offset: v }, 0);
                assert(self.m == (Machine { ax: self.m.ax, ..old(self).m }));
            },
        }
        self.frames.push(Frame::Code(ctx));
        assert(self.frames@.subrange(0, old(self).frames@.len() as int) =~= old(self).frames@);
        return None;
    }

    /// A send, self or super instruction, its opcode `cmd` read already: the
    /// selectors and their parameters on the stack become a send frame.
    fn send(&mut self, ctx: ExecutionContext, cmd: u8, Ghost(ctx0): Ghost<ExecutionContext>) -> (r: Option<Action>)
        requires
            old(self).wf(),
            ctx0.ip < ctx0.code@.len(),
            ctx0.code@[ctx0.ip as int] == cmd,
            cmd == 0x4a || cmd == 0x4b || cmd == 0x54 || cmd == 0x55 || cmd == 0x57,
            same_frame(&ctx0, &ctx),
            ctx.ip == ctx0.ip + 1,
        ensures
            final(self).wf(),
            !(r matches Some(Action::Finished)),
            send_done(old(self), final(self), ctx0, r),
    {
        let mut ctx = ctx;
        let cur = ctx.current_obj;
        if self.m.find_object(cur).is_none() {
            return Some(Action::Fault);
        }
        let (obj, send_obj) = if cmd == 0x54 || cmd == 0x55 {
            (cur, cur)
        } else if cmd == 0x57 {
            if !has_bytes(&ctx, 1) {
                return Some(Action::Fault);
            }
            let class_num = ctx.read_u8() as u16;
            let def = match self.m.get_class_definition(class_num) {
                Some(d) => d,
                None => return Some(Action::Fault),
            };
            let id = Id { script_number: def.script_number, offset: def.offset };
            if self.m.find_object(id).is_none() {
                return Some(Action::Fault);
            }
            (cur, id)
        } else {
            let id = match self.m.ax {
                Register::Object(id) => id,
                _ => return Some(Action::Fault),
            };
            if self.m.find_object(id).is_none() {
                return Some(Action::Fault);
            }
            (id, id)
        };
        assert(spec_send_objects(&old(self).m, &ctx0) == Some((obj, send_obj, ctx.ip as int)));
        if !has_bytes(&ctx, 1) {
            return Some(Action::Fault);
        }
        let size = ctx.read_u8();
        let end = self.m.stack.len();
        let start = match self.frame_start(size as usize / 2) {
            Some(s) => s,
            None => return Some(Action::Fault),
        };
        let span = end - start;
        let rest = self.m.rest_modifier;
        let ghost stack = self.m.stack@;
        let mut offsets: Vec<usize> = Vec::new();
        let mut idx: usize = 0;
        #[verifier::loop_isolation(false)]
        while idx < span
            invariant
                self.m.stack@ == stack,
                end == stack.len(),
                start + span == end,
                idx <= span,
                spec_send_offsets(stack, start as int, span as int, 0, rest) == match spec_send_offsets(
                    stack,
                    start as int,
                    span as int,
                    idx as int,
                    rest,
                ) {
                    Some(o) => Some(offsets@ + o),
                    None => None,
                },
            decreases span - idx,
        {
            if idx + 1 >= span {
                return Some(Action::Fault);
            }
            let np = match self.m.stack[start + idx + 1] {
                Register::Value(v) => v,
                _ => return Some(Action::Fault),
            };
            if np < 0 {
                return Some(Action::Fault);
            }
            let ghost before = offsets@;
            offsets.push(idx);
            let remaining = span - idx;
            let step = np as usize + 2;
            if rest > 0 {
                // Only a single selector may take the `&rest` parameters.
                if step > remaining || rest != remaining - step {
                    return Some(Action::Fault);
                }
                assert(before + seq![idx] =~= offsets@ + Seq::<usize>::empty());
                idx = span;
            } else if step >= remaining {
                assert(before + seq![idx] =~= offsets@ + Seq::<usize>::empty());
                idx = span;
            } else {
                proof {
                    match spec_send_offsets(stack, start as int, span as int, (idx + step) as int, rest) {
                        Some(o) => {
                            assert(before + (seq![idx] + o) =~= offsets@ + o);
                        },
                        None => {},
                    }
                }
                idx = idx + step;
            }
        }
        if start < end && !self.add_rest(start + 1) {
            return Some(Action::Fault);
        }
        self.frames.push(Frame::Code(ctx));
        self.frames.push(Frame::Send(SendFrame { obj, send_obj, start, end, offsets, next: 0 }));
        assert(self.frames@.subrange(0, old(self).frames@.len() as int) =~= old(self).frames@);
        None
    }

}

} // verus!
