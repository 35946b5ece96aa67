//! Where the p-machine is in a method: the code, the instruction pointer and the
//! stack frame.

use super::register::Id;
use crate::bytes::{le_u16_at, read_le_u16};
use vstd::prelude::*;

verus! {

/// The state of one running method.
pub struct ExecutionContext {
    pub current_obj: Id,
    /// The script whose code runs, which may differ from the current object's.
    pub script: u16,
    pub ip: usize,
    pub code: Vec<u8>,
    /// Where the parameters start on the stack (at the count of parameters).
    pub stack_params: usize,
    /// Where the temporaries start on the stack.
    pub stack_temps: usize,
    /// Where the stack is cut back to on return.
    pub stack_unwind: usize,
}

/// The same context with another instruction pointer.
pub open spec fn moved_to(old_ctx: ExecutionContext, new_ctx: ExecutionContext, ip: int) -> bool {
    &&& new_ctx.ip == ip
    &&& new_ctx.current_obj == old_ctx.current_obj
    &&& new_ctx.script == old_ctx.script
    &&& new_ctx.code@ == old_ctx.code@
    &&& new_ctx.stack_params == old_ctx.stack_params
    &&& new_ctx.stack_temps == old_ctx.stack_temps
    &&& new_ctx.stack_unwind == old_ctx.stack_unwind
}

impl ExecutionContext {
    /// Reads the byte at the instruction pointer.
    pub fn read_u8(&mut self) -> (v: u8)
        requires
            old(self).ip < old(self).code.len(),
        ensures
            v == old(self).code@[old(self).ip as int],
            moved_to(*old(self), *final(self), old(self).ip + 1),
    {
        let v = self.code[self.ip];
        self.ip = self.ip + 1;
        v
    }

    /// Reads the signed byte at the instruction pointer.
    pub fn read_i8(&mut self) -> (v: i8)
        requires
            old(self).ip < old(self).code.len(),
        ensures
            v == old(self).code@[old(self).ip as int] as i8,
            moved_to(*old(self), *final(self), old(self).ip + 1),
    {
        let v = self.code[self.ip] as i8;
        self.ip = self.ip + 1;
        v
    }

    /// Reads the little-endian signed word at the instruction pointer.
    pub fn read_i16(&mut self) -> (v: i16)
        requires
            old(self).ip + 2 <= old(self).code.len(),
        ensures
            v == #[verifier::truncate] (le_u16_at(old(self).code@, old(self).ip as int) as i16),
            moved_to(*old(self), *final(self), old(self).ip + 2),
    {
        let v = #[verifier::truncate] (read_le_u16(self.code.as_slice(), self.ip) as i16);
        self.ip = self.ip + 2;
        v
    }

    /// Moves the instruction pointer by `pos`; a position before the start of the
    /// code wraps round to a huge one, as the signed sum is taken as a `usize`.
    pub fn jump(&mut self, pos: i16)
        requires
            old(self).ip <= i16::MAX,
            i16::MIN <= old(self).ip + pos <= i16::MAX,
        ensures
            moved_to(*old(self), *final(self), ((old(self).ip + pos) as i16) as usize as int),
    {
        let ip = self.ip as i16;
        let ip = ip + pos;
        self.ip = ip as usize;
    }

    /// Reads the word at the instruction pointer, which must not be negative.
    pub fn read_u16(&mut self) -> (v: u16)
        requires
            old(self).ip + 2 <= old(self).code.len(),
            le_u16_at(old(self).code@, old(self).ip as int) <= i16::MAX,
        ensures
            v == le_u16_at(old(self).code@, old(self).ip as int),
            moved_to(*old(self), *final(self), old(self).ip + 2),
    {
        let ghost w: u16 = le_u16_at(self.code@, self.ip as int);
        let v = self.read_i16();
        assert(v as u16 == w) by (bit_vector)
            requires
                v == w as i16,
                w <= 0x7fff,
        ;
        v as u16
    }

    /// The number of parameters of the method: the words between its parameters
    /// and its temporaries, as a 16-bit count.
    pub fn num_params(&self) -> (n: u16)
        requires
            self.stack_params <= self.stack_temps,
        ensures
            n == (self.stack_temps - self.stack_params) as u16,
    {
        (self.stack_temps - self.stack_params) as u16
    }

    /// Reads a word for an even opcode, a byte for an odd one.
    pub fn read_u16_or_u8(&mut self, cmd: u8) -> (v: u16)
        requires
            cmd % 2 == 0 ==> old(self).ip + 2 <= old(self).code.len() && le_u16_at(
                old(self).code@,
                old(self).ip as int,
            ) <= i16::MAX,
            cmd % 2 == 1 ==> old(self).ip < old(self).code.len(),
        ensures
            cmd % 2 == 0 ==> v == le_u16_at(old(self).code@, old(self).ip as int) && moved_to(
                *old(self),
                *final(self),
                old(self).ip + 2,
            ),
            cmd % 2 == 1 ==> v == old(self).code@[old(self).ip as int] && moved_to(
                *old(self),
                *final(self),
                old(self).ip + 1,
            ),
    {
        assert(cmd & 1 == cmd % 2) by (bit_vector);
        if cmd & 1 == 0 {
            self.read_u16()
        } else {
            self.read_u8() as u16
        }
    }
}

/// How a stack dump marks a stack position: where the temporaries start, where the
/// parameters start, both, or neither.
#[derive(Clone, Copy, Debug, PartialEq, Eq, Structural)]
pub enum StackMarker {
    Temps,
    ParamsAndTemps,
    Params,
    Plain,
}

/// The marker of stack position `i` in a dump of the stack of method `ctx`.
pub fn stack_marker(i: usize, ctx: &ExecutionContext) -> (m: StackMarker)
    ensures
        m == (if i == ctx.stack_temps {
            if i != ctx.stack_params {
                StackMarker::Temps
            } else {
                StackMarker::ParamsAndTemps
            }
        } else if i == ctx.stack_params {
            StackMarker::Params
        } else {
            StackMarker::Plain
        }),
{
    if i == ctx.stack_temps {
        if i != ctx.stack_params {
            StackMarker::Temps
        } else {
            StackMarker::ParamsAndTemps
        }
    } else if i == ctx.stack_params {
        StackMarker::Params
    } else {
        StackMarker::Plain
    }
}

} // verus!
