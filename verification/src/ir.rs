//! The slice of the intermediate representation that diversion tracking
//! reads: value references, value locations, stack slots, and the shape of
//! the instructions that move values between locations.

use vstd::prelude::*;
use crate::isa::RegUnit;

verus! {

/// A reference to an SSA value, numbered by the function's value table.
#[derive(Clone, Copy, Debug, PartialEq, Eq, Structural)]
pub struct Value(pub u32);

impl Value {
    /// Create a value reference from its table index.
    pub fn new(index: u32) -> (v: Value)
        ensures
            v == Value(index),
    {
        Value(index)
    }
}

/// A reference to a stack slot, numbered by the function's stack frame layout.
#[derive(Clone, Copy, Debug, PartialEq, Eq, Structural)]
pub struct StackSlot(pub u32);

impl StackSlot {
    /// Create a stack slot reference from its index.
    pub fn new(index: u32) -> (s: StackSlot)
        ensures
            s == StackSlot(index),
    {
        StackSlot(index)
    }
}

/// The location assigned to a value: a register unit, a stack slot, or not
/// yet assigned. Two locations are equal only if they have the same kind and
/// the same identifier.
#[derive(Clone, Copy, Debug, PartialEq, Eq, Structural)]
pub enum ValueLoc {
    /// The value has not been assigned a location yet.
    Unassigned,
    /// The value lives in a register unit.
    Reg(RegUnit),
    /// The value lives in a stack slot.
    Stack(StackSlot),
}

impl ValueLoc {
    /// Whether this location has been finalized by the register allocator.
    pub open spec fn spec_is_assigned(self) -> bool {
        !(self is Unassigned)
    }

    /// Whether this location has been finalized by the register allocator.
    #[verifier::when_used_as_spec(spec_is_assigned)]
    pub fn is_assigned(self) -> (r: bool)
        ensures
            r == self.spec_is_assigned(),
    {
        match self {
            ValueLoc::Unassigned => false,
            _ => true,
        }
    }

    /// The register unit of a register location.
    pub fn unwrap_reg(self) -> (r: RegUnit)
        requires
            self is Reg,
        ensures
            self == ValueLoc::Reg(r),
    {
        match self {
            ValueLoc::Reg(unit) => unit,
            _ => unreached(),
        }
    }

    /// The stack slot of a stack location.
    pub fn unwrap_stack(self) -> (s: StackSlot)
        requires
            self is Stack,
        ensures
            self == ValueLoc::Stack(s),
    {
        match self {
            ValueLoc::Stack(slot) => slot,
            _ => unreached(),
        }
    }
}

/// The static value-to-location assignment map produced by the register
/// allocator. It is indexed by a value's table number; values outside the
/// map are unassigned, exactly as if the allocator never reached them.
pub struct ValueLocations {
    locs: Vec<ValueLoc>,
}

impl ValueLocations {
    /// The location recorded for `value`: entry `value.0` of the map, or
    /// `Unassigned` for values past its end.
    pub closed spec fn spec_get(&self, value: Value) -> ValueLoc {
        if value.0 < self.locs@.len() {
            self.locs@[value.0 as int]
        } else {
            ValueLoc::Unassigned
        }
    }

    /// Create an empty assignment map.
    pub fn new() -> (r: ValueLocations)
        ensures
            forall|v: Value| r.spec_get(v) == ValueLoc::Unassigned,
    {
        ValueLocations { locs: Vec::new() }
    }

    /// Record `loc` as the assigned location of `value`, growing the map with
    /// unassigned entries as needed.
    pub fn set(&mut self, value: Value, loc: ValueLoc)
        ensures
            final(self).spec_get(value) == loc,
            forall|v: Value|
                v != value ==> final(self).spec_get(v) == old(self).spec_get(v),
    {
        while self.locs.len() <= value.0 as usize
            invariant
                old(self).locs@.len() <= self.locs@.len(),
                forall|i: int|
                    0 <= i < old(self).locs@.len() ==> self.locs@[i] == old(self).locs@[i],
                forall|i: int|
                    old(self).locs@.len() <= i < self.locs@.len() ==> self.locs@[i]
                        == ValueLoc::Unassigned,
            decreases value.0 as int + 1 - self.locs.len() as int,
        {
            self.locs.push(ValueLoc::Unassigned);
        }
        self.locs[value.0 as usize] = loc;
        proof {
            assert forall|v: Value| v != value implies self.spec_get(v) == old(self).spec_get(
                v,
            ) by {
                assert(v.0 != value.0);
            }
        }
    }

    /// Look up the assigned location of `value`.
    pub fn get(&self, value: Value) -> (r: ValueLoc)
        ensures
            r == self.spec_get(value),
    {
        if (value.0 as usize) < self.locs.len() {
            self.locs[value.0 as usize]
        } else {
            ValueLoc::Unassigned
        }
    }
}

/// An instruction opcode. Only the three diversion opcodes are meaningful to
/// the tracker; every other opcode leaves it untouched.
#[derive(Clone, Copy, Debug, PartialEq, Eq, Structural)]
pub enum Opcode {
    /// Temporarily move a value to a different register.
    Regmove,
    /// Temporarily spill a register value to a stack slot.
    Regspill,
    /// Fill a temporarily spilled value back into a register.
    Regfill,
    /// Copy a value into a fresh value.
    Copy,
    /// Permanently spill a value to a stack slot.
    Spill,
    /// Permanently fill a spilled value into a register.
    Fill,
    /// Integer addition.
    Iadd,
    /// Return from the function.
    Return,
}

/// The decoded form of an instruction, as far as diversion tracking needs to
/// see it: the register-move shapes carry the moved value and its source and
/// destination locations; all remaining shapes carry only their opcode and
/// operands that the tracker ignores.
#[derive(Clone, Copy, Debug, PartialEq, Eq, Structural)]
#[allow(inconsistent_fields)]
pub enum InstructionData {
    /// A register-to-register move.
    RegMove {
        /// The instruction's opcode.
        opcode: Opcode,
        /// The moved value.
        arg: Value,
        /// The register the value currently occupies.
        src: RegUnit,
        /// The register the value is moved to.
        dst: RegUnit,
    },
    /// A register-to-stack move.
    RegSpill {
        /// The instruction's opcode.
        opcode: Opcode,
        /// The spilled value.
        arg: Value,
        /// The register the value currently occupies.
        src: RegUnit,
        /// The stack slot the value is spilled to.
        dst: StackSlot,
    },
    /// A stack-to-register move.
    RegFill {
        /// The instruction's opcode.
        opcode: Opcode,
        /// The filled value.
        arg: Value,
        /// The stack slot the value currently occupies.
        src: StackSlot,
        /// The register the value is filled into.
        dst: RegUnit,
    },
    /// An instruction with one value operand and no location payload.
    Unary {
        /// The instruction's opcode.
        opcode: Opcode,
        /// The operand.
        arg: Value,
    },
    /// An instruction with two value operands and no location payload.
    Binary {
        /// The instruction's opcode.
        opcode: Opcode,
        /// The first operand.
        arg0: Value,
        /// The second operand.
        arg1: Value,
    },
    /// An instruction with no value operands.
    Nullary {
        /// The instruction's opcode.
        opcode: Opcode,
    },
}

} // verus!
