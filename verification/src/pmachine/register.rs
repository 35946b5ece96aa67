//! The values that the p-machine computes with.

use vstd::prelude::*;

verus! {

/// An object of a script: the script's number and where the object starts in its
/// data. Clones live in a script space of their own.
#[derive(Clone, Copy, Debug, PartialEq, Eq, Structural)]
pub struct Id {
    pub script_number: u16,
    pub offset: usize,
}

impl Id {
    /// The object at `offset` in script `script_number`.
    pub fn new(script_number: u16, offset: usize) -> (id: Id)
        ensures
            id == (Id { script_number, offset }),
    {
        Id { script_number, offset }
    }
}

/// The kinds of variables that an instruction may address.
#[derive(Clone, Copy, Debug, PartialEq, Eq, Structural)]
pub enum VariableType {
    Global,
    Local,
    Temporary,
    Parameter,
}

impl VariableType {
    /// The variable type with number `v` (0 to 3).
    pub fn from_u16(v: u16) -> (t: Option<VariableType>)
        ensures
            t is Some <==> v <= 3,
            t matches Some(t) ==> t.spec_number() == v,
    {
        match v {
            0 => Some(VariableType::Global),
            1 => Some(VariableType::Local),
            2 => Some(VariableType::Temporary),
            3 => Some(VariableType::Parameter),
            _ => None,
        }
    }

    /// The number of this variable type.
    pub open spec fn spec_number(self) -> u16 {
        match self {
            VariableType::Global => 0,
            VariableType::Local => 1,
            VariableType::Temporary => 2,
            VariableType::Parameter => 3,
        }
    }
}

/// A node of a list: the objects it holds as key and value, and where it was
/// placed when it was added.
#[derive(Clone, Copy, Debug, PartialEq, Eq, Structural)]
pub struct DblListNode {
    pub key: Id,
    pub value: Id,
    pub list_id: usize,
    pub list_index: usize,
}

/// A register or stack value.
#[derive(Clone, Copy, Debug, PartialEq, Eq, Structural)]
pub enum Register {
    Value(i16),
    Object(Id),
    Variable(VariableType, i16),
    /// A string and an offset into it.
    String(Id, usize),
    /// An address in a script.
    Address(u16, usize),
    DblList(usize),
    Node(DblListNode),
    Undefined,
}

/// Whether a register has a zero or null form to test.
pub open spec fn has_zero_form(r: Register) -> bool {
    r is Value || r is Object || r is DblList || r is Node
}

/// Whether a register is zero or null.
pub open spec fn spec_is_zero_or_null(r: Register) -> bool {
    match r {
        Register::Value(v) => v == 0,
        Register::DblList(v) => v == 0,
        _ => false,
    }
}

/// Whether `inc` can be added to the value register `r`: a value to a value without
/// leaving the range of `i16`, or a value to a string's offset (the value taken as a
/// `usize`) without leaving the range of `usize`.
pub open spec fn can_add_reg(r: Register, inc: Register) -> bool {
    match (r, inc) {
        (Register::Value(v), Register::Value(v2)) => i16::MIN <= v + v2 <= i16::MAX,
        (Register::Value(v), Register::String(_, offset)) => offset + (v as usize) <= usize::MAX,
        _ => false,
    }
}

/// The sum of the value register `r` and `inc`.
pub open spec fn spec_add_reg(r: Register, inc: Register) -> Register {
    match (r, inc) {
        (Register::Value(v), Register::Value(v2)) => Register::Value((v + v2) as i16),
        (Register::Value(v), Register::String(id, offset)) => Register::String(
            id,
            (offset + (v as usize)) as usize,
        ),
        _ => r,
    }
}

impl Register {
    /// The value of a value register.
    pub fn to_i16(&self) -> (v: i16)
        requires
            *self is Value,
        ensures
            *self == Register::Value(v),
    {
        match *self {
            Register::Value(v) => v,
            _ => 0,
        }
    }

    /// The object of an object register.
    pub fn to_obj(&self) -> (id: Id)
        requires
            *self is Object,
        ensures
            *self == Register::Object(id),
    {
        match *self {
            Register::Object(v) => v,
            _ => Id { script_number: 0, offset: 0 },
        }
    }

    /// Whether this is an object register.
    pub fn is_obj(&self) -> (b: bool)
        ensures
            b == (*self is Object),
    {
        match *self {
            Register::Object(_) => true,
            _ => false,
        }
    }

    /// The list of a list register.
    pub fn to_dbllist(&self) -> (list: usize)
        requires
            *self is DblList,
        ensures
            *self == Register::DblList(list),
    {
        match *self {
            Register::DblList(v) => v,
            _ => 0,
        }
    }

    /// The node of a node register.
    pub fn to_node(&self) -> (node: DblListNode)
        requires
            *self is Node,
        ensures
            *self == Register::Node(node),
    {
        match *self {
            Register::Node(n) => n,
            _ => DblListNode {
                key: Id { script_number: 0, offset: 0 },
                value: Id { script_number: 0, offset: 0 },
                list_id: 0,
                list_index: 0,
            },
        }
    }

    /// The value of a value register that is not negative.
    pub fn to_u16(&self) -> (v: u16)
        requires
            *self matches Register::Value(v) && v >= 0,
        ensures
            *self == Register::Value(v as i16),
    {
        let v = self.to_i16();
        v as u16
    }

    /// The string and offset of a string register.
    pub fn to_string(&self) -> (s: (Id, usize))
        requires
            *self is String,
        ensures
            *self == Register::String(s.0, s.1),
    {
        match *self {
            Register::String(id, offset) => (id, offset),
            _ => (Id { script_number: 0, offset: 0 }, 0),
        }
    }

    /// Whether a value or list register is zero, for registers that have a zero
    /// form; objects and nodes are never null.
    pub fn is_zero_or_null(&self) -> (b: bool)
        requires
            has_zero_form(*self),
        ensures
            b == spec_is_zero_or_null(*self),
    {
        match *self {
            Register::Value(v) => v == 0,
            Register::DblList(v) => v == 0,
            _ => false,
        }
    }

    /// Adds a value, or moves a string's offset, by this value register.
    pub fn add_reg(&mut self, inc: Register)
        requires
            can_add_reg(*old(self), inc),
        ensures
            *final(self) == spec_add_reg(*old(self), inc),
    {
        let r = match *self {
            Register::Value(v) => match inc {
                Register::Value(v2) => Register::Value(v + v2),
                Register::String(v2, offset) => Register::String(v2, offset + v as usize),
                _ => *self,
            },
            _ => *self,
        };
        *self = r;
    }

    /// Adds `inc` to a value register.
    pub fn add(&mut self, inc: i16)
        requires
            *old(self) matches Register::Value(v) && i16::MIN <= v + inc <= i16::MAX,
        ensures
            *final(self) == spec_add_value(*old(self), inc),
    {
        let r = match *self {
            Register::Value(v) => Register::Value(v + inc),
            _ => *self,
        };
        *self = r;
    }

    /// Subtracts `dec` from a value register.
    pub fn sub(&mut self, dec: i16)
        requires
            *old(self) matches Register::Value(v) && i16::MIN <= v - dec <= i16::MAX,
        ensures
            *final(self) == spec_sub_value(*old(self), dec),
    {
        let r = match *self {
            Register::Value(v) => Register::Value(v - dec),
            _ => *self,
        };
        *self = r;
    }
}

/// A value register with `n` added.
pub open spec fn spec_add_value(r: Register, n: i16) -> Register {
    Register::Value((r->Value_0 + n) as i16)
}

/// A value register with `n` subtracted.
pub open spec fn spec_sub_value(r: Register, n: i16) -> Register {
    Register::Value((r->Value_0 - n) as i16)
}

/// Adding a number to a value register and then subtracting it again gives the
/// register back, and each step stays in range.
pub proof fn lemma_add_then_sub(r: Register, n: i16)
    requires
        r matches Register::Value(v) && i16::MIN <= v + n <= i16::MAX,
    ensures
        spec_add_value(r, n) matches Register::Value(w) && i16::MIN <= w - n <= i16::MAX,
        spec_sub_value(spec_add_value(r, n), n) == r,
{
}

} // verus!
