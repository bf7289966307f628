//! Target-specific naming for register units.
//!
//! The register allocator works with flat register-unit numbers. For
//! diagnostics a target can supply a table of human-readable names, one per
//! unit; units beyond the table fall back to their raw number.

use vstd::prelude::*;

verus! {

/// A register unit number on the target machine.
pub type RegUnit = u16;

/// A table of display names for register units.
///
/// Unit `u` is named by entry `u` of the table; units past the end of the
/// table have no name and are displayed by number.
pub struct RegNames {
    names: Vec<String>,
}

impl RegNames {
    /// The table as a sequence of names, indexed by register unit.
    pub closed spec fn view(&self) -> Seq<Seq<char>> {
        self.names@.map_values(|s: String| s@)
    }

    /// Create an empty name table.
    pub fn new() -> (r: RegNames)
        ensures
            r@ == Seq::<Seq<char>>::empty(),
    {
        RegNames { names: Vec::new() }
    }

    /// Append the name for the next register unit.
    pub fn push(&mut self, name: String)
        ensures
            final(self)@ == old(self)@.push(name@),
    {
        self.names.push(name);
        proof {
            assert(self@ =~= old(self)@.push(name@));
        }
    }

    /// The name for `unit`, or `None` if the table has no entry for it.
    pub fn name(&self, unit: RegUnit) -> (r: Option<String>)
        ensures
            match r {
                Some(s) => unit < self@.len() && s@ == self@[unit as int],
                None => unit >= self@.len(),
            },
    {
        if (unit as usize) < self.names.len() {
            Some(self.names[unit as usize].clone())
        } else {
            None
        }
    }
}

} // verus!
