//! One instruction of the p-machine, for the instructions that work on the
//! registers, the stack, the variables and the current object alone.

use super::context::ExecutionContext;
use super::machine::{object_index, object_views, Machine};
use super::object::ObjectView;
use super::register::{
    can_add_reg, has_zero_form, spec_add_reg, spec_is_zero_or_null, Id, Register, VariableType,
};
use crate::bytes::le_u16_at;
use vstd::prelude::*;

verus! {

/// What an instruction may change: the accumulator, the `&rest` count, the stack,
/// the script variables, the objects and the instruction pointer.
pub struct VmState {
    pub ax: Register,
    pub rest_modifier: usize,
    pub stack: Seq<Register>,
    pub locals: Map<u16, Seq<Register>>,
    pub objects: Seq<ObjectView>,
    pub ip: int,
}

/// What an instruction reads of its method: the code, the script, the current
/// object and where the parameters and temporaries start.
pub struct FrameView {
    pub code: Seq<u8>,
    pub script: u16,
    pub current_obj: Id,
    pub params: int,
    pub temps: int,
}

/// The outcome of an instruction: a fault (an operand or the stack is not what the
/// instruction needs), an instruction not handled here, or the next state.
pub enum LocalStep {
    Fault,
    NotLocal,
    Next(VmState),
}

/// The quotient of `a` by `b`, rounded toward zero as Rust's `/` does.
pub open spec fn trunc_div(a: int, b: int) -> int {
    let q = abs(a) / abs(b);
    if (a < 0) != (b < 0) {
        -q
    } else {
        q
    }
}

/// The remainder of `a` by `b`, with the sign of `a` as Rust's `%` gives it.
pub open spec fn trunc_rem(a: int, b: int) -> int {
    let r = abs(a) % abs(b);
    if a < 0 {
        -r
    } else {
        r
    }
}

/// The absolute value.
pub open spec fn abs(a: int) -> int {
    if a < 0 {
        -a
    } else {
        a
    }
}

/// The result of a binary operation on two values, `a` from the stack and `b` in
/// the accumulator; `None` where Rust's operation fails (overflow, division by
/// zero, a shift out of range).
pub open spec fn spec_arith(cmd: u8, a: i16, b: i16) -> Option<i16> {
    let c = cmd / 2;
    if c == 2 {
        if i16::MIN <= a - b <= i16::MAX { Some((a - b) as i16) } else { None }
    } else if c == 3 {
        if i16::MIN <= a * b <= i16::MAX { Some((a * b) as i16) } else { None }
    } else if c == 4 {
        if b == 0 || (a == i16::MIN && b == -1) { None } else { Some(trunc_div(a as int, b as int) as i16) }
    } else if c == 6 {
        if 0 <= b < 16 { Some(a >> b) } else { None }
    } else if c == 9 {
        Some(a & b)
    } else if c == 10 {
        Some(a | b)
    } else if c == 15 {
        Some(if a > b { 1 } else { 0 })
    } else if c == 16 {
        Some(if a >= b { 1 } else { 0 })
    } else if c == 17 {
        Some(if a < b { 1 } else { 0 })
    } else {
        Some(if a <= b { 1 } else { 0 })
    }
}

/// Whether `cmd` is one of the arithmetic, logic and comparison instructions.
pub open spec fn is_alu(cmd: u8) -> bool {
    let c = cmd / 2;
    (1 <= c <= 6) || c == 9 || c == 10 || (12 <= c <= 18)
}

/// An arithmetic, logic or comparison instruction: `not` and `mod` look at the
/// accumulator first, the others pop their left operand.
pub open spec fn spec_alu(s: VmState, cmd: u8) -> LocalStep {
    let c = cmd / 2;
    let n = s.stack.len();
    if c == 12 {
        if has_zero_form(s.ax) {
            LocalStep::Next(
                VmState {
                    ax: Register::Value(if spec_is_zero_or_null(s.ax) { 1 } else { 0 }),
                    ..s
                },
            )
        } else {
            LocalStep::Fault
        }
    } else if c == 5 && has_zero_form(s.ax) && spec_is_zero_or_null(s.ax) {
        LocalStep::Next(s)
    } else if c == 5 && !has_zero_form(s.ax) {
        LocalStep::Fault
    } else if n == 0 {
        LocalStep::Fault
    } else {
        let top = s.stack[n - 1];
        let rest = s.stack.drop_last();
        if c == 1 {
            if can_add_reg(s.ax, top) {
                LocalStep::Next(VmState { ax: spec_add_reg(s.ax, top), stack: rest, ..s })
            } else {
                LocalStep::Fault
            }
        } else if c == 13 {
            LocalStep::Next(
                VmState { ax: Register::Value(if s.ax == top { 1 } else { 0 }), stack: rest, ..s },
            )
        } else if c == 14 {
            LocalStep::Next(
                VmState { ax: Register::Value(if s.ax != top { 1 } else { 0 }), stack: rest, ..s },
            )
        } else {
            match (top, s.ax) {
                (Register::Value(a), Register::Value(b)) => if c == 5 {
                    if a == i16::MIN && b == -1 {
                        LocalStep::Fault
                    } else {
                        LocalStep::Next(
                            VmState {
                                ax: Register::Value(trunc_rem(a as int, b as int) as i16),
                                stack: rest,
                                ..s
                            },
                        )
                    }
                } else {
                    match spec_arith(cmd, a, b) {
                        Some(v) => LocalStep::Next(
                            VmState { ax: Register::Value(v), stack: rest, ..s },
                        ),
                        None => LocalStep::Fault,
                    }
                },
                _ => LocalStep::Fault,
            }
        }
    }
}

/// Division rounded toward zero.
fn div_trunc(a: i16, b: i16) -> (q: i16)
    requires
        b != 0,
        !(a == i16::MIN && b == -1),
    ensures
        q == trunc_div(a as int, b as int),
{
    let ua: u32 = if a < 0 { (0 - (a as i32)) as u32 } else { a as u32 };
    let ub: u32 = if b < 0 { (0 - (b as i32)) as u32 } else { b as u32 };
    let uq = ua / ub;
    assert(uq <= ua) by (nonlinear_arith)
        requires
            ub >= 1,
            uq == ua / ub,
    ;
    if (a < 0) != (b < 0) {
        (0 - (uq as i32)) as i16
    } else {
        assert(uq <= 32767) by (nonlinear_arith)
            requires
                ub >= 1,
                uq == ua / ub,
                ua <= 32768,
                ua == 32768 ==> ub >= 2,
        ;
        uq as i16
    }
}

/// Division rounded toward zero, as Rust's `/` on `i16` computes it.
pub fn div_trunc_pub(a: i16, b: i16) -> (q: i16)
    requires
        b != 0,
        !(a == i16::MIN && b == -1),
    ensures
        q == trunc_div(a as int, b as int),
{
    div_trunc(a, b)
}

/// Remainder with the sign of the dividend.
fn rem_trunc(a: i16, b: i16) -> (r: i16)
    requires
        b != 0,
    ensures
        r == trunc_rem(a as int, b as int),
{
    let ua: u32 = if a < 0 { (0 - (a as i32)) as u32 } else { a as u32 };
    let ub: u32 = if b < 0 { (0 - (b as i32)) as u32 } else { b as u32 };
    let ur = ua % ub;
    assert(ur < ub);
    if a < 0 {
        (0 - (ur as i32)) as i16
    } else {
        ur as i16
    }
}

/// The view of the machine that instructions work on, with the instruction
/// pointer `ip`.
pub open spec fn vm_state(m: &Machine, ip: int) -> VmState {
    VmState {
        ax: m.ax,
        rest_modifier: m.rest_modifier,
        stack: m.stack@,
        locals: m.heap@.locals,
        objects: object_views(m.objects@),
        ip,
    }
}

/// What an instruction may not change.
pub open spec fn same_machine_frame<'a>(m: &Machine<'a>, later: &Machine<'a>) -> bool {
    &&& m.resources == later.resources
    &&& m.class_scripts@ == later.class_scripts@
    &&& m.play_selector == later.play_selector
    &&& m.doit_selector == later.doit_selector
    &&& m.scripts@ == later.scripts@
    &&& m.clone_counter == later.clone_counter
    &&& m.heap@.lists == later.heap@.lists
    &&& m.heap@.next_list == later.heap@.next_list
    &&& m.background == later.background
}

impl<'a> Machine<'a> {
    /// Runs an arithmetic, logic or comparison instruction.
    pub fn alu(&mut self, cmd: u8, Ghost(ip): Ghost<int>) -> (ok: bool)
        requires
            is_alu(cmd),
        ensures
            same_machine_frame(old(self), final(self)),
            final(self).objects@ == old(self).objects@,
            final(self).heap@ == old(self).heap@,
            match spec_alu(vm_state(old(self), ip), cmd) {
                LocalStep::Next(s) => ok && vm_state(final(self), ip) == s,
                _ => !ok,
            },
    {
        let c = cmd / 2;
        if c == 12 {
            if !has_zero_form_exec(&self.ax) {
                return false;
            }
            self.ax = Register::Value(if self.ax.is_zero_or_null() { 1 } else { 0 });
            return true;
        }
        if c == 5 {
            if !has_zero_form_exec(&self.ax) {
                return false;
            }
            if self.ax.is_zero_or_null() {
                return true;
            }
        }
        let top = match self.stack.pop() {
            Some(t) => t,
            None => return false,
        };
        if c == 1 {
            if !can_add_reg_exec(&self.ax, &top) {
                return false;
            }
            self.ax.add_reg(top);
            return true;
        }
        if c == 13 {
            self.ax = Register::Value(if self.ax == top { 1 } else { 0 });
            return true;
        }
        if c == 14 {
            self.ax = Register::Value(if self.ax != top { 1 } else { 0 });
            return true;
        }
        let (a, b) = match (top, self.ax) {
            (Register::Value(a), Register::Value(b)) => (a, b),
            _ => return false,
        };
        let v: i16 = if c == 2 {
            if (a as i32) - (b as i32) < -32768 || (a as i32) - (b as i32) > 32767 {
                return false;
            }
            a - b
        } else if c == 3 {
            assert(-32768 * 32768 <= (a as i32) * (b as i32) <= 32768 * 32768) by (nonlinear_arith)
                requires
                    -32768 <= a <= 32767,
                    -32768 <= b <= 32767,
            ;
            let p = (a as i32) * (b as i32);
            if p < -32768 || p > 32767 {
                return false;
            }
            a * b
        } else if c == 4 {
            if b == 0 || (a == i16::MIN && b == -1) {
                return false;
            }
            div_trunc(a, b)
        } else if c == 5 {
            if a == i16::MIN && b == -1 {
                return false;
            }
            rem_trunc(a, b)
        } else if c == 6 {
            if b < 0 || b >= 16 {
                return false;
            }
            a >> b
        } else if c == 9 {
            a & b
        } else if c == 10 {
            a | b
        } else if c == 15 {
            if a > b { 1 } else { 0 }
        } else if c == 16 {
            if a >= b { 1 } else { 0 }
        } else if c == 17 {
            if a < b { 1 } else { 0 }
        } else {
            if a <= b { 1 } else { 0 }
        };
        self.ax = Register::Value(v);
        true
    }
}

/// Whether a register has a zero or null form, computed.
fn has_zero_form_exec(r: &Register) -> (b: bool)
    ensures
        b == has_zero_form(*r),
{
    match r {
        Register::Value(_) | Register::Object(_) | Register::DblList(_) | Register::Node(_) => true,
        _ => false,
    }
}

/// Whether `inc` can be added to `r`, computed.
fn can_add_reg_exec(r: &Register, inc: &Register) -> (b: bool)
    ensures
        b == can_add_reg(*r, *inc),
{
    match (r, inc) {
        (Register::Value(v), Register::Value(v2)) => {
            let s = (*v as i32) + (*v2 as i32);
            -32768 <= s && s <= 32767
        },
        (Register::Value(v), Register::String(_, offset)) => {
            let d = *v as usize;
            *offset <= usize::MAX - d
        },
        _ => false,
    }
}

/// The signed word at `i`.
pub open spec fn word_at(code: Seq<u8>, i: int) -> i16 {
    le_u16_at(code, i) as i16
}

/// The variable type numbered `n` (0 to 3).
pub open spec fn variable_type_of(n: int) -> VariableType {
    if n == 0 {
        VariableType::Global
    } else if n == 1 {
        VariableType::Local
    } else if n == 2 {
        VariableType::Temporary
    } else {
        VariableType::Parameter
    }
}

/// The state after a jump by `pos` from `ip`: the sum is taken as an `i16` and then
/// as a `usize`.
pub open spec fn jumped(s: VmState, ip: int, pos: i16) -> LocalStep {
    if ip <= i16::MAX && i16::MIN <= ip + pos <= i16::MAX {
        LocalStep::Next(VmState { ip: ((ip + pos) as i16) as usize as int, ..s })
    } else {
        LocalStep::Fault
    }
}

/// Whether `cmd` is a branch, stack or immediate instruction.
pub open spec fn is_flow(cmd: u8) -> bool {
    cmd == 0x2e || cmd == 0x30 || cmd == 0x32 || cmd == 0x34 || cmd == 0x35 || cmd == 0x36
        || cmd == 0x38 || cmd == 0x39 || cmd == 0x3a || cmd == 0x3b || cmd == 0x3c || cmd == 0x3d
        || cmd == 0x3f || cmd == 0x59 || cmd == 0x5b || cmd == 0x5c || cmd == 0x5d || (0x76
        <= cmd <= 0x7c)
}

/// A branch, stack or immediate instruction, its operands at `s.ip`.
pub open spec fn spec_flow(f: FrameView, s: VmState, cmd: u8) -> LocalStep {
    let code = f.code;
    let ip = s.ip;
    let n = s.stack.len();
    if cmd == 0x2e || cmd == 0x30 || cmd == 0x32 {
        if ip + 2 > code.len() {
            LocalStep::Fault
        } else if cmd == 0x2e && !(s.ax is Value) {
            LocalStep::Fault
        } else if cmd == 0x30 && !has_zero_form(s.ax) {
            LocalStep::Fault
        } else {
            let take = cmd == 0x32 || (cmd == 0x2e && s.ax->Value_0 != 0) || (cmd == 0x30
                && spec_is_zero_or_null(s.ax));
            if take {
                jumped(s, ip + 2, word_at(code, ip))
            } else {
                LocalStep::Next(VmState { ip: ip + 2, ..s })
            }
        }
    } else if cmd == 0x34 || cmd == 0x38 {
        if ip + 2 > code.len() {
            LocalStep::Fault
        } else if cmd == 0x34 {
            LocalStep::Next(VmState { ax: Register::Value(word_at(code, ip)), ip: ip + 2, ..s })
        } else {
            LocalStep::Next(
                VmState { stack: s.stack.push(Register::Value(word_at(code, ip))), ip: ip + 2, ..s },
            )
        }
    } else if cmd == 0x35 || cmd == 0x39 || cmd == 0x3f || cmd == 0x59 {
        if ip + 1 > code.len() {
            LocalStep::Fault
        } else {
            let b = code[ip];
            if cmd == 0x35 {
                LocalStep::Next(
                    VmState { ax: Register::Value(#[verifier::truncate] (b as i8) as i16), ip: ip + 1, ..s },
                )
            } else if cmd == 0x39 {
                LocalStep::Next(
                    VmState {
                        stack: s.stack.push(Register::Value(#[verifier::truncate] (b as i8) as i16)),
                        ip: ip + 1,
                        ..s
                    },
                )
            } else if cmd == 0x3f {
                LocalStep::Next(
                    VmState {
                        stack: s.stack + Seq::new(b as nat, |i: int| Register::Undefined),
                        ip: ip + 1,
                        ..s
                    },
                )
            } else {
                let start = f.params + b;
                if start <= f.temps && f.temps <= n {
                    LocalStep::Next(
                        VmState {
                            rest_modifier: (f.temps - start) as usize,
                            stack: s.stack + s.stack.subrange(start, f.temps),
                            ip: ip + 1,
                            ..s
                        },
                    )
                } else {
                    LocalStep::Fault
                }
            }
        }
    } else if cmd == 0x5b {
        if ip + 2 > code.len() {
            LocalStep::Fault
        } else {
            let t = code[ip];
            let vi = code[ip + 1] as int;
            let use_acc = (t & 0x10) != 0;
            let vt = variable_type_of((t & 3) as int);
            if !use_acc {
                LocalStep::Next(VmState { ax: Register::Variable(vt, vi as i16), ip: ip + 2, ..s })
            } else {
                match s.ax {
                    Register::Value(a) => if vi + a <= i16::MAX && vi + a >= 0 {
                        LocalStep::Next(
                            VmState {
                                ax: Register::Variable(vt, (vi + a) as i16),
                                ip: ip + 2,
                                ..s
                            },
                        )
                    } else {
                        LocalStep::Fault
                    },
                    _ => LocalStep::Fault,
                }
            }
        }
    } else if cmd == 0x36 {
        LocalStep::Next(VmState { stack: s.stack.push(s.ax), ..s })
    } else if cmd == 0x3a || cmd == 0x3b {
        LocalStep::Next(VmState { stack: if n == 0 { s.stack } else { s.stack.drop_last() }, ..s })
    } else if cmd == 0x3c || cmd == 0x3d {
        if n == 0 {
            LocalStep::Fault
        } else {
            LocalStep::Next(VmState { stack: s.stack.push(s.stack[n - 1]), ..s })
        }
    } else if cmd == 0x5c || cmd == 0x5d {
        LocalStep::Next(VmState { ax: Register::Object(f.current_obj), ..s })
    } else if cmd == 0x7c {
        LocalStep::Next(VmState { stack: s.stack.push(Register::Object(f.current_obj)), ..s })
    } else {
        LocalStep::Next(
            VmState { stack: s.stack.push(Register::Value(((cmd - 0x76) / 2) as i16)), ..s },
        )
    }
}

/// The view of a method's context.
pub open spec fn frame_view(ctx: &ExecutionContext) -> FrameView {
    FrameView {
        code: ctx.code@,
        script: ctx.script,
        current_obj: ctx.current_obj,
        params: ctx.stack_params as int,
        temps: ctx.stack_temps as int,
    }
}

/// The context is the same method, with its instruction pointer at `ip`.
pub open spec fn same_frame(ctx: &ExecutionContext, later: &ExecutionContext) -> bool {
    &&& later.current_obj == ctx.current_obj
    &&& later.script == ctx.script
    &&& later.code@ == ctx.code@
    &&& later.stack_params == ctx.stack_params
    &&& later.stack_temps == ctx.stack_temps
    &&& later.stack_unwind == ctx.stack_unwind
}

/// Pushes `n` undefined values.
fn push_undefined(stack: &mut Vec<Register>, n: u8)
    ensures
        final(stack)@ == old(stack)@ + Seq::new(n as nat, |i: int| Register::Undefined),
{
    let ghost start = stack@;
    let mut i: u8 = 0;
    while i < n
        invariant
            i <= n,
            stack@ == start + Seq::new(i as nat, |k: int| Register::Undefined),
        decreases n - i,
    {
        stack.push(Register::Undefined);
        i = i + 1;
        assert(stack@ =~= start + Seq::new(i as nat, |k: int| Register::Undefined));
    }
}

/// Appends a copy of `stack[start..end]` to the stack.
fn push_copy(stack: &mut Vec<Register>, start: usize, end: usize)
    requires
        start <= end <= old(stack)@.len(),
    ensures
        final(stack)@ == old(stack)@ + old(stack)@.subrange(start as int, end as int),
{
    let ghost before = stack@;
    let mut i = start;
    while i < end
        invariant
            start <= i <= end,
            end <= before.len(),
            stack@ == before + before.subrange(start as int, i as int),
        decreases end - i,
    {
        let v = stack[i];
        stack.push(v);
        i = i + 1;
        assert(stack@ =~= before + before.subrange(start as int, i as int));
    }
}

impl<'a> Machine<'a> {
    /// Runs a branch, stack or immediate instruction, its operands at the context's
    /// instruction pointer.
    pub fn flow(&mut self, ctx: &mut ExecutionContext, cmd: u8) -> (ok: bool)
        requires
            is_flow(cmd),
        ensures
            same_machine_frame(old(self), final(self)),
            final(self).heap@ == old(self).heap@,
            object_views(final(self).objects@) == object_views(old(self).objects@),
            same_frame(old(ctx), final(ctx)),
            match spec_flow(frame_view(old(ctx)), vm_state(old(self), old(ctx).ip as int), cmd) {
                LocalStep::Next(s) => ok && vm_state(final(self), final(ctx).ip as int) == s,
                _ => !ok,
            },
    {
        if cmd == 0x2e || cmd == 0x30 || cmd == 0x32 {
            if ctx.ip > ctx.code.len() || ctx.code.len() - ctx.ip < 2 {
                return false;
            }
            if cmd == 0x2e && !matches!(self.ax, Register::Value(_)) {
                return false;
            }
            if cmd == 0x30 && !has_zero_form_exec(&self.ax) {
                return false;
            }
            let pos = ctx.read_i16();
            let take = cmd == 0x32 || (cmd == 0x2e && self.ax.to_i16() != 0) || (cmd == 0x30
                && self.ax.is_zero_or_null());
            if take {
                if ctx.ip > 32767 || (ctx.ip as i32) + (pos as i32) > 32767 || (ctx.ip as i32) + (
                pos as i32) < -32768 {
                    return false;
                }
                ctx.jump(pos);
            }
            return true;
        }
        if cmd == 0x34 || cmd == 0x38 {
            if ctx.ip > ctx.code.len() || ctx.code.len() - ctx.ip < 2 {
                return false;
            }
            let v = ctx.read_i16();
            if cmd == 0x34 {
                self.ax = Register::Value(v);
            } else {
                self.stack.push(Register::Value(v));
            }
            return true;
        }
        if cmd == 0x35 || cmd == 0x39 || cmd == 0x3f || cmd == 0x59 {
            if ctx.ip >= ctx.code.len() {
                return false;
            }
            let b = ctx.read_u8();
            if cmd == 0x35 {
                self.ax = Register::Value(#[verifier::truncate] (b as i8) as i16);
            } else if cmd == 0x39 {
                self.stack.push(Register::Value(#[verifier::truncate] (b as i8) as i16));
            } else if cmd == 0x3f {
                push_undefined(&mut self.stack, b);
            } else {
                let temps = ctx.stack_temps;
                if ctx.stack_params > temps || (b as usize) > temps - ctx.stack_params || temps
                    > self.stack.len() {
                    return false;
                }
                let start = ctx.stack_params + b as usize;
                self.rest_modifier = temps - start;
                push_copy(&mut self.stack, start, temps);
            }
            return true;
        }
        if cmd == 0x5b {
            if ctx.ip > ctx.code.len() || ctx.code.len() - ctx.ip < 2 {
                return false;
            }
            let t = ctx.read_u8();
            let vi = ctx.read_u8() as i16;
            let use_acc = (t & 0x10) != 0;
            assert((t & 3) <= 3) by (bit_vector);
            let vt = match VariableType::from_u16((t & 3) as u16) {
                Some(v) => v,
                None => return false,
            };
            let mut index = vi;
            if use_acc {
                let a = match self.ax {
                    Register::Value(a) => a,
                    _ => return false,
                };
                if (vi as i32) + (a as i32) > 32767 || (vi as i32) + (a as i32) < 0 {
                    return false;
                }
                index = vi + a;
            }
            self.ax = Register::Variable(vt, index);
            return true;
        }
        if cmd == 0x36 {
            self.stack.push(self.ax);
        } else if cmd == 0x3a || cmd == 0x3b {
            self.stack.pop();
        } else if cmd == 0x3c || cmd == 0x3d {
            let n = self.stack.len();
            if n == 0 {
                return false;
            }
            let top = self.stack[n - 1];
            self.stack.push(top);
        } else if cmd == 0x5c || cmd == 0x5d {
            self.ax = Register::Object(ctx.current_obj);
        } else if cmd == 0x7c {
            self.stack.push(Register::Object(ctx.current_obj));
        } else {
            self.stack.push(Register::Value(((cmd - 0x76) / 2) as i16));
        }
        true
    }
}

/// Whether script `script` has a variable `i`.
pub open spec fn has_local(l: Map<u16, Seq<Register>>, script: u16, i: int) -> bool {
    l.contains_key(script) && 0 <= i < l[script].len()
}

/// The variables with variable `i` of script `script` set to `v`.
pub open spec fn set_local(l: Map<u16, Seq<Register>>, script: u16, i: int, v: Register) -> Map<
    u16,
    Seq<Register>,
> {
    l.insert(script, l[script].update(i, v))
}

/// Whether `cmd` reads a word operand (an even opcode of a family that also has a
/// byte form).
pub open spec fn has_word_operand(cmd: u8) -> bool {
    cmd == 0x98 || cmd == 0xa0 || cmd == 0xb0 || cmd == 0xb2
}

/// Whether `cmd` is a variable or property instruction.
pub open spec fn is_var_op(cmd: u8) -> bool {
    cmd == 0x63 || cmd == 0x65 || cmd == 0x67 || cmd == 0x6b || cmd == 0x6d || cmd == 0x81
        || cmd == 0x85 || cmd == 0x87 || cmd == 0x89 || cmd == 0x8b || cmd == 0x8d || cmd == 0x8f
        || cmd == 0x97 || cmd == 0x98 || cmd == 0x99 || cmd == 0x9f || cmd == 0xa0 || cmd == 0xa1
        || cmd == 0xa3 || cmd == 0xa5 || cmd == 0xa7 || cmd == 0xb0 || cmd == 0xb1 || cmd == 0xb2
        || cmd == 0xb3 || cmd == 0xc1 || cmd == 0xc5 || cmd == 0xc9 || cmd == 0xe1 || cmd == 0xe5
        || cmd == 0xe7
}

/// The value `x` moved by one, up for the increment instructions, down for the
/// decrement ones; `None` out of range.
pub open spec fn stepped(cmd: u8, r: Register) -> Option<Register> {
    match r {
        Register::Value(x) => if cmd < 0xe0 {
            if x < i16::MAX { Some(Register::Value((x + 1) as i16)) } else { None }
        } else {
            if x > i16::MIN { Some(Register::Value((x - 1) as i16)) } else { None }
        },
        _ => None,
    }
}

/// The instruction `cmd` with operand `v`, its operands ending at `ip`.
pub open spec fn spec_var_op(f: FrameView, s: VmState, cmd: u8, v: int, ip: int) -> LocalStep {
    let n = s.stack.len();
    let l = s.locals;
    if cmd == 0x63 || cmd == 0x65 || cmd == 0x67 || cmd == 0x6b || cmd == 0x6d {
        let k = object_index(s.objects, f.current_obj);
        if k >= s.objects.len() || v / 2 >= s.objects[k].variables.len() {
            LocalStep::Fault
        } else {
            let o = s.objects[k];
            let p = o.variables[v / 2];
            if cmd == 0x63 {
                LocalStep::Next(VmState { ax: p, ip, ..s })
            } else if cmd == 0x67 {
                LocalStep::Next(VmState { stack: s.stack.push(p), ip, ..s })
            } else {
                let value = if cmd == 0x65 { Some(s.ax) } else { stepped(if cmd == 0x6b { 0xc1 } else { 0xe1 }, p) };
                match value {
                    Some(w) => LocalStep::Next(
                        VmState {
                            ax: w,
                            objects: s.objects.update(
                                k,
                                ObjectView { variables: o.variables.update(v / 2, w), ..o },
                            ),
                            ip,
                            ..s
                        },
                    ),
                    None => LocalStep::Fault,
                }
            }
        }
    } else if cmd == 0x81 || cmd == 0x89 || cmd == 0x8b {
        let sc: u16 = if cmd == 0x8b { f.script } else { 0 };
        if !has_local(l, sc, v) {
            LocalStep::Fault
        } else if cmd == 0x81 {
            LocalStep::Next(VmState { ax: l[sc][v], ip, ..s })
        } else {
            LocalStep::Next(VmState { stack: s.stack.push(l[sc][v]), ip, ..s })
        }
    } else if cmd == 0x85 || cmd == 0x8d {
        if f.temps + v >= n {
            LocalStep::Fault
        } else if cmd == 0x85 {
            LocalStep::Next(VmState { ax: s.stack[f.temps + v], ip, ..s })
        } else {
            LocalStep::Next(VmState { stack: s.stack.push(s.stack[f.temps + v]), ip, ..s })
        }
    } else if cmd == 0x87 || cmd == 0x8f || cmd == 0x97 || cmd == 0x98 || cmd == 0x99 || cmd
        == 0x9f || cmd == 0xb0 || cmd == 0xb1 || cmd == 0xb2 || cmd == 0xb3 {
        let indexed = cmd != 0x87 && cmd != 0x8f;
        if indexed && !(s.ax matches Register::Value(a) && a >= 0 && v + a <= 0xffff) {
            LocalStep::Fault
        } else {
            let var = if indexed { v + s.ax->Value_0 } else { v };
            if cmd == 0x98 || cmd == 0x99 {
                if has_local(l, 0, var) {
                    LocalStep::Next(VmState { stack: s.stack.push(l[0][var]), ip, ..s })
                } else {
                    LocalStep::Fault
                }
            } else if cmd == 0xb0 || cmd == 0xb1 || cmd == 0xb2 || cmd == 0xb3 {
                let sc: u16 = if cmd >= 0xb2 { f.script } else { 0 };
                if has_local(l, sc, var) {
                    LocalStep::Next(VmState { locals: set_local(l, sc, var, s.ax), ip, ..s })
                } else {
                    LocalStep::Fault
                }
            } else if cmd == 0x9f {
                if f.params + var < n {
                    LocalStep::Next(VmState { stack: s.stack.push(s.stack[f.params + var]), ip, ..s })
                } else {
                    LocalStep::Fault
                }
            } else if f.params > f.temps {
                LocalStep::Fault
            } else if var > ((f.temps - f.params) as u16) {
                LocalStep::Next(VmState { ip, ..s })
            } else if f.params + var >= n {
                LocalStep::Fault
            } else if cmd == 0x8f {
                LocalStep::Next(VmState { stack: s.stack.push(s.stack[f.params + var]), ip, ..s })
            } else {
                LocalStep::Next(VmState { ax: s.stack[f.params + var], ip, ..s })
            }
        }
    } else if cmd == 0xa0 || cmd == 0xa1 || cmd == 0xa3 {
        let sc: u16 = if cmd == 0xa3 { f.script } else { 0 };
        if cmd != 0xa3 && v == 223 && !has_zero_form(s.ax) {
            LocalStep::Fault
        } else if !has_local(l, sc, v) {
            LocalStep::Fault
        } else {
            let value = if cmd != 0xa3 && v == 223 && spec_is_zero_or_null(s.ax) {
                Register::Value(2)
            } else {
                s.ax
            };
            LocalStep::Next(VmState { locals: set_local(l, sc, v, value), ip, ..s })
        }
    } else if cmd == 0xa5 || cmd == 0xa7 {
        let i = if cmd == 0xa5 { f.temps + v } else { f.params + v };
        if i >= n {
            LocalStep::Fault
        } else {
            LocalStep::Next(VmState { stack: s.stack.update(i, s.ax), ip, ..s })
        }
    } else if cmd == 0xc1 || cmd == 0xc9 || cmd == 0xe1 {
        if !has_local(l, 0, v) {
            LocalStep::Fault
        } else {
            match stepped(cmd, l[0][v]) {
                Some(w) => if cmd == 0xc9 {
                    LocalStep::Next(
                        VmState { locals: set_local(l, 0, v, w), stack: s.stack.push(w), ip, ..s },
                    )
                } else {
                    LocalStep::Next(VmState { locals: set_local(l, 0, v, w), ax: w, ip, ..s })
                },
                None => LocalStep::Fault,
            }
        }
    } else {
        let i = if cmd == 0xe7 { f.params + v } else { f.temps + v };
        if i >= n {
            LocalStep::Fault
        } else {
            match stepped(cmd, s.stack[i]) {
                Some(w) => LocalStep::Next(VmState { stack: s.stack.update(i, w), ax: w, ip, ..s }),
                None => LocalStep::Fault,
            }
        }
    }
}

/// A variable or property instruction: a word operand for the even forms that
/// have one (which must not be negative), a byte operand otherwise.
pub open spec fn spec_vars(f: FrameView, s: VmState, cmd: u8) -> LocalStep {
    if has_word_operand(cmd) {
        if s.ip + 2 > f.code.len() || le_u16_at(f.code, s.ip) > 0x7fff {
            LocalStep::Fault
        } else {
            spec_var_op(f, s, cmd, le_u16_at(f.code, s.ip) as int, s.ip + 2)
        }
    } else {
        if s.ip + 1 > f.code.len() {
            LocalStep::Fault
        } else {
            spec_var_op(f, s, cmd, f.code[s.ip] as int, s.ip + 1)
        }
    }
}

/// Whether script `script` has a variable `i`, computed.
fn has_local_exec(heap: &super::heap::Heap, script: u16, i: usize) -> (b: bool)
    ensures
        b == has_local(heap@.locals, script, i as int),
{
    match heap.script_local_variables.get(&script) {
        Some(vs) => i < vs.len(),
        None => false,
    }
}

/// The value moved by one, computed.
fn stepped_exec(cmd: u8, r: Register) -> (w: Option<Register>)
    ensures
        w == stepped(cmd, r),
{
    match r {
        Register::Value(x) => if cmd < 0xe0 {
            if x < i16::MAX { Some(Register::Value(x + 1)) } else { None }
        } else {
            if x > i16::MIN { Some(Register::Value(x - 1)) } else { None }
        },
        _ => None,
    }
}

impl<'a> Machine<'a> {
    /// The property instructions on the current object.
    fn prop_op(&mut self, ctx: &ExecutionContext, cmd: u8, v: usize, Ghost(ip): Ghost<int>) -> (ok: bool)
        requires
            cmd == 0x63 || cmd == 0x65 || cmd == 0x67 || cmd == 0x6b || cmd == 0x6d,
            v < 256,
        ensures
            same_machine_frame(old(self), final(self)),
            final(self).heap@ == old(self).heap@,
            match spec_var_op(frame_view(ctx), vm_state(old(self), ip), cmd, v as int, ip) {
                LocalStep::Next(s) => ok && vm_state(final(self), ip) == s,
                _ => !ok,
            },
    {
        let k = match self.find_object(ctx.current_obj) {
            Some(k) => k,
            None => return false,
        };
        let o = v as u8;
        if o as usize / 2 >= self.objects[k].variables.len() {
            return false;
        }
        let p = self.objects[k].get_property_by_offset(o);
        if cmd == 0x63 {
            self.ax = p;
            return true;
        }
        if cmd == 0x67 {
            self.stack.push(p);
            return true;
        }
        let w = if cmd == 0x65 {
            self.ax
        } else {
            match stepped_exec(if cmd == 0x6b { 0xc1 } else { 0xe1 }, p) {
                Some(w) => w,
                None => return false,
            }
        };
        self.ax = w;
        let ghost before = object_views(self.objects@);
        self.objects[k].set_property_by_offset(o, w);
        proof {
            assert(object_views(self.objects@) =~= before.update(
                k as int,
                ObjectView { variables: before[k as int].variables.update((v / 2) as int, w), ..before[k as int] },
            ));
        }
        true
    }
}

impl<'a> Machine<'a> {
    /// The instructions that load a variable or a parameter.
    fn load_op(&mut self, ctx: &ExecutionContext, cmd: u8, v: usize, Ghost(ip): Ghost<int>) -> (ok: bool)
        requires
            cmd == 0x81 || cmd == 0x85 || cmd == 0x87 || cmd == 0x89 || cmd == 0x8b || cmd == 0x8d
                || cmd == 0x8f || cmd == 0x97 || cmd == 0x98 || cmd == 0x99 || cmd == 0x9f,
            v <= 0xffff,
        ensures
            same_machine_frame(old(self), final(self)),
            final(self).heap@ == old(self).heap@,
            object_views(final(self).objects@) == object_views(old(self).objects@),
            match spec_var_op(frame_view(ctx), vm_state(old(self), ip), cmd, v as int, ip) {
                LocalStep::Next(s) => ok && vm_state(final(self), ip) == s,
                _ => !ok,
            },
    {
        let n = self.stack.len();
        if cmd == 0x81 || cmd == 0x89 || cmd == 0x8b {
            let sc: u16 = if cmd == 0x8b { ctx.script } else { 0 };
            if !has_local_exec(&self.heap, sc, v) {
                return false;
            }
            let r = self.heap.get_local(sc, v);
            if cmd == 0x81 {
                self.ax = r;
            } else {
                self.stack.push(r);
            }
            return true;
        }
        if cmd == 0x85 || cmd == 0x8d {
            if ctx.stack_temps >= n || v >= n - ctx.stack_temps {
                return false;
            }
            let r = self.stack[ctx.stack_temps + v];
            if cmd == 0x85 {
                self.ax = r;
            } else {
                self.stack.push(r);
            }
            return true;
        }
        let indexed = cmd != 0x87 && cmd != 0x8f;
        let mut var = v;
        if indexed {
            let a = match self.ax {
                Register::Value(a) => a,
                _ => return false,
            };
            if a < 0 || v + (a as usize) > 0xffff {
                return false;
            }
            var = v + a as usize;
        }
        if cmd == 0x98 || cmd == 0x99 {
            if !has_local_exec(&self.heap, 0, var) {
                return false;
            }
            let r = self.heap.get_local(0, var);
            self.stack.push(r);
            return true;
        }
        if cmd == 0x9f {
            if ctx.stack_params >= n || var >= n - ctx.stack_params {
                return false;
            }
            let r = self.stack[ctx.stack_params + var];
            self.stack.push(r);
            return true;
        }
        if ctx.stack_params > ctx.stack_temps {
            return false;
        }
        if var > ctx.num_params() as usize {
            return true;
        }
        if ctx.stack_params >= n || var >= n - ctx.stack_params {
            return false;
        }
        let r = self.stack[ctx.stack_params + var];
        if cmd == 0x8f {
            self.stack.push(r);
        } else {
            self.ax = r;
        }
        true
    }

    /// The instructions that store the accumulator in a variable or a parameter.
    fn store_op(&mut self, ctx: &ExecutionContext, cmd: u8, v: usize, Ghost(ip): Ghost<int>) -> (ok: bool)
        requires
            cmd == 0xa0 || cmd == 0xa1 || cmd == 0xa3 || cmd == 0xa5 || cmd == 0xa7 || cmd == 0xb0
                || cmd == 0xb1 || cmd == 0xb2 || cmd == 0xb3,
            v <= 0xffff,
        ensures
            same_machine_frame(old(self), final(self)),
            object_views(final(self).objects@) == object_views(old(self).objects@),
            match spec_var_op(frame_view(ctx), vm_state(old(self), ip), cmd, v as int, ip) {
                LocalStep::Next(s) => ok && vm_state(final(self), ip) == s,
                _ => !ok,
            },
    {
        let n = self.stack.len();
        if cmd == 0xa0 || cmd == 0xa1 || cmd == 0xa3 {
            let sc: u16 = if cmd == 0xa3 { ctx.script } else { 0 };
            let mut value = self.ax;
            if cmd != 0xa3 && v == 223 {
                if !has_zero_form_exec(&self.ax) {
                    return false;
                }
                if self.ax.is_zero_or_null() {
                    value = Register::Value(2);
                }
            }
            if !has_local_exec(&self.heap, sc, v) {
                return false;
            }
            self.heap.set_local(sc, v, value);
            return true;
        }
        if cmd == 0xa5 || cmd == 0xa7 {
            let base = if cmd == 0xa5 { ctx.stack_temps } else { ctx.stack_params };
            if base >= n || v >= n - base {
                return false;
            }
            self.stack.set(base + v, self.ax);
            return true;
        }
        let a = match self.ax {
            Register::Value(a) => a,
            _ => return false,
        };
        if a < 0 || v + (a as usize) > 0xffff {
            return false;
        }
        let var = v + a as usize;
        let sc: u16 = if cmd >= 0xb2 { ctx.script } else { 0 };
        if !has_local_exec(&self.heap, sc, var) {
            return false;
        }
        self.heap.set_local(sc, var, self.ax);
        true
    }

    /// The instructions that step a variable or a parameter by one.
    fn step_op(&mut self, ctx: &ExecutionContext, cmd: u8, v: usize, Ghost(ip): Ghost<int>) -> (ok: bool)
        requires
            cmd == 0xc1 || cmd == 0xc5 || cmd == 0xc9 || cmd == 0xe1 || cmd == 0xe5 || cmd == 0xe7,
            v <= 0xffff,
        ensures
            same_machine_frame(old(self), final(self)),
            object_views(final(self).objects@) == object_views(old(self).objects@),
            match spec_var_op(frame_view(ctx), vm_state(old(self), ip), cmd, v as int, ip) {
                LocalStep::Next(s) => ok && vm_state(final(self), ip) == s,
                _ => !ok,
            },
    {
        let n = self.stack.len();
        if cmd == 0xc1 || cmd == 0xc9 || cmd == 0xe1 {
            if !has_local_exec(&self.heap, 0, v) {
                return false;
            }
            let w = match stepped_exec(cmd, self.heap.get_local(0, v)) {
                Some(w) => w,
                None => return false,
            };
            self.heap.set_local(0, v, w);
            if cmd == 0xc9 {
                self.stack.push(w);
            } else {
                self.ax = w;
            }
            return true;
        }
        let base = if cmd == 0xe7 { ctx.stack_params } else { ctx.stack_temps };
        if base >= n || v >= n - base {
            return false;
        }
        let w = match stepped_exec(cmd, self.stack[base + v]) {
            Some(w) => w,
            None => return false,
        };
        self.stack.set(base + v, w);
        self.ax = w;
        true
    }

    /// Runs a variable or property instruction, its operand at the context's
    /// instruction pointer.
    pub fn vars(&mut self, ctx: &mut ExecutionContext, cmd: u8) -> (ok: bool)
        requires
            is_var_op(cmd),
        ensures
            same_machine_frame(old(self), final(self)),
            same_frame(old(ctx), final(ctx)),
            match spec_vars(frame_view(old(ctx)), vm_state(old(self), old(ctx).ip as int), cmd) {
                LocalStep::Next(s) => ok && vm_state(final(self), final(ctx).ip as int) == s,
                _ => !ok,
            },
    {
        let v: usize = if cmd == 0x98 || cmd == 0xa0 || cmd == 0xb0 || cmd == 0xb2 {
            if ctx.ip > ctx.code.len() || ctx.code.len() - ctx.ip < 2 {
                return false;
            }
            if crate::bytes::read_le_u16(ctx.code.as_slice(), ctx.ip) > 0x7fff {
                return false;
            }
            ctx.read_u16() as usize
        } else {
            if ctx.ip >= ctx.code.len() {
                return false;
            }
            ctx.read_u8() as usize
        };
        let ghost ip = ctx.ip as int;
        if cmd == 0x63 || cmd == 0x65 || cmd == 0x67 || cmd == 0x6b || cmd == 0x6d {
            self.prop_op(ctx, cmd, v, Ghost(ip))
        } else if cmd == 0xa0 || cmd == 0xa1 || cmd == 0xa3 || cmd == 0xa5 || cmd == 0xa7 || cmd
            == 0xb0 || cmd == 0xb1 || cmd == 0xb2 || cmd == 0xb3 {
            self.store_op(ctx, cmd, v, Ghost(ip))
        } else if cmd == 0xc1 || cmd == 0xc5 || cmd == 0xc9 || cmd == 0xe1 || cmd == 0xe5 || cmd
            == 0xe7 {
            self.step_op(ctx, cmd, v, Ghost(ip))
        } else {
            self.load_op(ctx, cmd, v, Ghost(ip))
        }
    }
}

/// Whether `cmd` is an instruction that works on the registers, the stack, the
/// variables and the current object alone.
pub open spec fn is_local(cmd: u8) -> bool {
    is_alu(cmd) || is_flow(cmd) || is_var_op(cmd)
}

/// What such an instruction does.
pub open spec fn spec_local(f: FrameView, s: VmState, cmd: u8) -> LocalStep {
    if is_alu(cmd) {
        spec_alu(s, cmd)
    } else if is_flow(cmd) {
        spec_flow(f, s, cmd)
    } else if is_var_op(cmd) {
        spec_vars(f, s, cmd)
    } else {
        LocalStep::NotLocal
    }
}

/// Whether `cmd` is an arithmetic, logic or comparison instruction, computed.
pub fn is_alu_exec(cmd: u8) -> (b: bool)
    ensures
        b == is_alu(cmd),
{
    let c = cmd / 2;
    (1 <= c && c <= 6) || c == 9 || c == 10 || (12 <= c && c <= 18)
}

/// Whether `cmd` is a branch, stack or immediate instruction, computed.
pub fn is_flow_exec(cmd: u8) -> (b: bool)
    ensures
        b == is_flow(cmd),
{
    cmd == 0x2e || cmd == 0x30 || cmd == 0x32 || cmd == 0x34 || cmd == 0x35 || cmd == 0x36
        || cmd == 0x38 || cmd == 0x39 || cmd == 0x3a || cmd == 0x3b || cmd == 0x3c || cmd == 0x3d
        || cmd == 0x3f || cmd == 0x59 || cmd == 0x5b || cmd == 0x5c || cmd == 0x5d || (0x76 <= cmd
        && cmd <= 0x7c)
}

/// Whether `cmd` is a variable or property instruction, computed.
pub fn is_var_op_exec(cmd: u8) -> (b: bool)
    ensures
        b == is_var_op(cmd),
{
    cmd == 0x63 || cmd == 0x65 || cmd == 0x67 || cmd == 0x6b || cmd == 0x6d || cmd == 0x81
        || cmd == 0x85 || cmd == 0x87 || cmd == 0x89 || cmd == 0x8b || cmd == 0x8d || cmd == 0x8f
        || cmd == 0x97 || cmd == 0x98 || cmd == 0x99 || cmd == 0x9f || cmd == 0xa0 || cmd == 0xa1
        || cmd == 0xa3 || cmd == 0xa5 || cmd == 0xa7 || cmd == 0xb0 || cmd == 0xb1 || cmd == 0xb2
        || cmd == 0xb3 || cmd == 0xc1 || cmd == 0xc5 || cmd == 0xc9 || cmd == 0xe1 || cmd == 0xe5
        || cmd == 0xe7
}

impl<'a> Machine<'a> {
    /// Runs an instruction that works on the registers, the stack, the variables and
    /// the current object alone, its operands at the context's instruction pointer.
    pub fn local(&mut self, ctx: &mut ExecutionContext, cmd: u8) -> (ok: bool)
        requires
            is_local(cmd),
        ensures
            same_machine_frame(old(self), final(self)),
            same_frame(old(ctx), final(ctx)),
            match spec_local(frame_view(old(ctx)), vm_state(old(self), old(ctx).ip as int), cmd) {
                LocalStep::Next(s) => ok && vm_state(final(self), final(ctx).ip as int) == s,
                _ => !ok,
            },
    {
        if is_alu_exec(cmd) {
            self.alu(cmd, Ghost(ctx.ip as int))
        } else if is_flow_exec(cmd) {
            self.flow(ctx, cmd)
        } else {
            self.vars(ctx, cmd)
        }
    }
}

/// Pushing the accumulator and then tossing the top of the stack leaves the state
/// as it was.
pub proof fn lemma_push_then_toss(f: FrameView, s: VmState)
    ensures
        spec_flow(f, s, 0x36) matches LocalStep::Next(s1) && spec_flow(f, s1, 0x3a) == LocalStep::Next(
            s,
        ),
{
    let s1 = VmState { stack: s.stack.push(s.ax), ..s };
    assert(s1.stack.drop_last() =~= s.stack);
}

/// `eq?` and `ne?` on the same state answer opposite values.
pub proof fn lemma_eq_ne_opposite(s: VmState)
    requires
        s.stack.len() > 0,
    ensures
        spec_alu(s, 0x1a) matches LocalStep::Next(a) && spec_alu(s, 0x1c) matches LocalStep::Next(b)
            && (a.ax == Register::Value(1) <==> b.ax == Register::Value(0)),
{
}

proof fn lemma_trunc_div_rem(a: int, b: int)
    requires
        b != 0,
    ensures
        trunc_div(a, b) * b + trunc_rem(a, b) == a,
        abs(trunc_rem(a, b)) < abs(b),
        trunc_rem(a, b) == 0 || (trunc_rem(a, b) < 0) == (a < 0),
{
    let q = abs(a) / abs(b);
    let r = abs(a) % abs(b);
    assert(abs(a) == q * abs(b) + r && 0 <= r < abs(b)) by (nonlinear_arith)
        requires
            abs(b) > 0,
            abs(a) >= 0,
            q == abs(a) / abs(b),
            r == abs(a) % abs(b),
    ;
    if a < 0 && b < 0 {
        assert(q * b == -(q * abs(b))) by (nonlinear_arith)
            requires
                abs(b) == -b,
        ;
    } else if a < 0 {
        assert(-q * b == -(q * abs(b))) by (nonlinear_arith)
            requires
                abs(b) == b,
        ;
    } else if b < 0 {
        assert(-q * b == q * abs(b)) by (nonlinear_arith)
            requires
                abs(b) == -b,
        ;
    } else {
        assert(q * b == q * abs(b));
    }
}

/// The arithmetic instructions on two values pop the left operand `a` and combine
/// it with the accumulator `b`: `add` gives the sum and `sub` the difference where
/// they fit an `i16`, `mul` the product where it fits; `div` and `mod` give a
/// quotient `q` and a remainder `r` with `q * b + r == a`, the remainder smaller
/// than `b` in size and never of the opposite sign to `a`.
pub proof fn lemma_arithmetic_instructions(s: VmState, a: i16, b: i16)
    requires
        s.stack.len() > 0,
        s.stack.last() == Register::Value(a),
        s.ax == Register::Value(b),
    ensures
        i16::MIN <= a + b <= i16::MAX ==> spec_alu(s, 0x02) == LocalStep::Next(
            VmState { ax: Register::Value((a + b) as i16), stack: s.stack.drop_last(), ..s },
        ),
        i16::MIN <= a - b <= i16::MAX ==> spec_alu(s, 0x04) == LocalStep::Next(
            VmState { ax: Register::Value((a - b) as i16), stack: s.stack.drop_last(), ..s },
        ),
        i16::MIN <= a * b <= i16::MAX ==> spec_alu(s, 0x06) == LocalStep::Next(
            VmState { ax: Register::Value((a * b) as i16), stack: s.stack.drop_last(), ..s },
        ),
        b != 0 && !(a == i16::MIN && b == -1) ==> ({
            let t1 = spec_alu(s, 0x08);
            let t2 = spec_alu(s, 0x0a);
            &&& t1 is Next && t2 is Next
            &&& t1->Next_0.stack == s.stack.drop_last() && t2->Next_0.stack == s.stack.drop_last()
            &&& t1->Next_0.ax is Value && t2->Next_0.ax is Value
            &&& ({
                let q = t1->Next_0.ax->Value_0 as int;
                let r = t2->Next_0.ax->Value_0 as int;
                &&& q * b + r == a
                &&& abs(r) < abs(b as int)
                &&& r == 0 || (r < 0) == (a < 0)
            })
        }),
        b == 0 ==> spec_alu(s, 0x08) is Fault,
{
    if b != 0 {
        lemma_trunc_div_rem(a as int, b as int);
        if !(a == i16::MIN && b == -1) {
            let q = trunc_div(a as int, b as int);
            let r = trunc_rem(a as int, b as int);
            assert(abs(r) < abs(b as int) <= 32768);
            assert(i16::MIN <= q <= i16::MAX) by (nonlinear_arith)
                requires
                    q * (b as int) + r == a as int,
                    abs(r) < abs(b as int),
                    b != 0,
                    -32768 <= a <= 32767,
                    -32768 <= b <= 32767,
                    !(a == -32768 && b == -1),
                    r == 0 || (r < 0) == (a < 0),
            ;
        }
    }
}

/// The ordering instructions `gt?`, `ge?`, `lt?` and `le?` (both forms of each) on
/// two values pop the left operand `a` off the stack and compare it with the
/// accumulator `b`: the accumulator becomes 1 where the relation holds of (`a`,
/// `b`) and 0 where it does not, and nothing else but the stack changes. Swapping
/// the operands turns `gt?` into `lt?` and `ge?` into `le?`.
pub proof fn lemma_ordering_instructions(s: VmState, cmd: u8, a: i16, b: i16)
    requires
        0x1e <= cmd <= 0x25,
        s.stack.len() > 0,
        s.stack.last() == Register::Value(a),
        s.ax == Register::Value(b),
    ensures
        spec_alu(s, cmd) matches LocalStep::Next(t) && {
            &&& t.stack == s.stack.drop_last()
            &&& t.locals == s.locals && t.objects == s.objects && t.rest_modifier == s.rest_modifier
            &&& t.ip == s.ip
            &&& (t.ax == Register::Value(1) || t.ax == Register::Value(0))
            &&& (cmd == 0x1e || cmd == 0x1f) ==> (t.ax == Register::Value(1) <==> a > b)
            &&& (cmd == 0x20 || cmd == 0x21) ==> (t.ax == Register::Value(1) <==> a >= b)
            &&& (cmd == 0x22 || cmd == 0x23) ==> (t.ax == Register::Value(1) <==> a < b)
            &&& (cmd == 0x24 || cmd == 0x25) ==> (t.ax == Register::Value(1) <==> a <= b)
        },
        spec_arith(0x1e, a, b) == spec_arith(0x22, b, a),
        spec_arith(0x20, a, b) == spec_arith(0x24, b, a),
{
}

/// Storing into a script variable and reading it back gives the value stored, and
/// leaves the other variables as they were.
pub proof fn lemma_local_after_set(
    l: Map<u16, Seq<Register>>,
    script: u16,
    i: int,
    v: Register,
    other_script: u16,
    j: int,
)
    requires
        has_local(l, script, i),
        has_local(l, other_script, j),
    ensures
        has_local(set_local(l, script, i, v), script, i),
        set_local(l, script, i, v)[script][i] == v,
        (other_script != script || j != i) ==> set_local(l, script, i, v)[other_script][j]
            == l[other_script][j],
{
}

} // verus!
