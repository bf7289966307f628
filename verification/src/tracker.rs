//! Register diversions.
//!
//! Normally, a value is assigned to a single register or stack location by
//! the register allocator. Sometimes, it is necessary to move register values
//! to a different register or stack location in order to satisfy instruction
//! constraints.
//!
//! These register diversions are local to a basic block. No values can be
//! diverted when entering a new block.
//!
//! The tracker maintains two invariants over its record list: every value has
//! at most one active record, and every recorded location is assigned. The
//! update rule collapses chains of moves, so a record always reads "original
//! location -> current location", and a value that returns to its original
//! location has its record dropped.

use vstd::prelude::*;
use crate::ir::{InstructionData, Opcode, StackSlot, Value, ValueLoc, ValueLocations};
use crate::isa::{RegNames, RegUnit};

verus! {

/// A diversion of a value from its original location to a new register or
/// stack location.
///
/// When tracking diversions, the `from` field is the original assigned value
/// location, and `to` is the current one.
#[derive(Clone, Copy, Debug, PartialEq, Eq, Structural)]
pub struct Diversion {
    /// The value that is diverted.
    pub value: Value,
    /// The original value location.
    pub from: ValueLoc,
    /// The current value location.
    pub to: ValueLoc,
}

impl Diversion {
    /// Make a new diversion. Both locations must be assigned.
    pub fn new(value: Value, from: ValueLoc, to: ValueLoc) -> (d: Diversion)
        requires
            from.is_assigned(),
            to.is_assigned(),
        ensures
            d == (Diversion { value, from, to }),
    {
        Diversion { value, from, to }
    }
}

/// Whether some record in `s` diverts `value`.
pub open spec fn contains_value(s: Seq<Diversion>, value: Value) -> bool {
    exists|i: int| 0 <= i < s.len() && s[i].value == value
}

/// The index of the record for `value`. Meaningful only when `s` contains
/// such a record and records have unique values.
pub open spec fn index_of(s: Seq<Diversion>, value: Value) -> int {
    choose|i: int| 0 <= i < s.len() && s[i].value == value
}

/// The record for `value` in `s`, if any. Meaningful as "the" record only
/// when records have unique values.
pub open spec fn diversion_of(s: Seq<Diversion>, value: Value) -> Option<Diversion> {
    if contains_value(s, value) {
        Some(s[index_of(s, value)])
    } else {
        None
    }
}

/// No two records divert the same value.
pub open spec fn unique_values(s: Seq<Diversion>) -> bool {
    forall|i: int, j: int|
        0 <= i < s.len() && 0 <= j < s.len() && i != j ==> s[i].value != s[j].value
}

/// Every recorded location is assigned.
pub open spec fn all_assigned(s: Seq<Diversion>) -> bool {
    forall|i: int|
        0 <= i < s.len() ==> (#[trigger] s[i]).from.is_assigned() && s[i].to.is_assigned()
}

/// The record list after recording a move of `value` from `from` to `to`:
/// a fresh record for an undiverted value; for a diverted value, either the
/// record's removal (the value moved back to its original location) or an
/// in-place update of its current location.
pub open spec fn spec_divert(
    s: Seq<Diversion>,
    value: Value,
    from: ValueLoc,
    to: ValueLoc,
) -> Seq<Diversion> {
    if contains_value(s, value) {
        let i = index_of(s, value);
        if s[i].from == to {
            s.update(i, s.last()).drop_last()
        } else {
            s.update(i, Diversion { value, from: s[i].from, to })
        }
    } else {
        s.push(Diversion { value, from, to })
    }
}

/// Everything a recorded move does to the record list: `post` is the
/// collapsed list, the moved value's record steps through its state machine
/// (fresh record; in-place retarget; or removal when the move returns the
/// value to its original location), every other value's record is untouched,
/// and the length changes accordingly.
pub open spec fn divert_effect(
    pre: Seq<Diversion>,
    post: Seq<Diversion>,
    value: Value,
    from: ValueLoc,
    to: ValueLoc,
) -> bool {
    &&& post == spec_divert(pre, value, from, to)
    &&& diversion_of(post, value) == (match diversion_of(pre, value) {
        None => Some(Diversion { value, from, to }),
        Some(d) => if d.from == to {
            None
        } else {
            Some(Diversion { value, from: d.from, to })
        },
    })
    &&& forall|w: Value| w != value ==> diversion_of(post, w) == diversion_of(pre, w)
    &&& post.len() == (match diversion_of(pre, value) {
        None => pre.len() as int + 1,
        Some(d) => if d.from == to {
            pre.len() as int - 1
        } else {
            pre.len() as int
        },
    })
}

/// The record list after dropping any record for `value`.
pub open spec fn spec_remove(s: Seq<Diversion>, value: Value) -> Seq<Diversion> {
    if contains_value(s, value) {
        s.update(index_of(s, value), s.last()).drop_last()
    } else {
        s
    }
}

/// The move recorded by `inst`, if `inst` is one of the three diversion
/// instructions: the moved value and its source and destination locations.
pub open spec fn spec_move_of(inst: InstructionData) -> Option<(Value, ValueLoc, ValueLoc)> {
    match inst {
        InstructionData::RegMove { opcode: Opcode::Regmove, arg, src, dst } => Some(
            (arg, ValueLoc::Reg(src), ValueLoc::Reg(dst)),
        ),
        InstructionData::RegSpill { opcode: Opcode::Regspill, arg, src, dst } => Some(
            (arg, ValueLoc::Reg(src), ValueLoc::Stack(dst)),
        ),
        InstructionData::RegFill { opcode: Opcode::Regfill, arg, src, dst } => Some(
            (arg, ValueLoc::Stack(src), ValueLoc::Reg(dst)),
        ),
        _ => None,
    }
}

/// The record list after applying `inst`: a divert for the three diversion
/// instructions, unchanged for every other instruction.
pub open spec fn spec_apply(s: Seq<Diversion>, inst: InstructionData) -> Seq<Diversion> {
    match spec_move_of(inst) {
        Some((value, from, to)) => spec_divert(s, value, from, to),
        None => s,
    }
}

/// With unique values, the record index for `value` is the only index whose
/// record diverts `value`.
pub proof fn lemma_index_of_unique(s: Seq<Diversion>, value: Value, i: int)
    requires
        unique_values(s),
        0 <= i < s.len(),
        s[i].value == value,
    ensures
        contains_value(s, value),
        index_of(s, value) == i,
{
    assert(contains_value(s, value));
    let j = index_of(s, value);
    assert(0 <= j < s.len() && s[j].value == value);
}

/// Keep track of diversions in a basic block.
pub struct RegDiversions {
    current: Vec<Diversion>,
}

impl RegDiversions {
    /// The active records, in storage order.
    pub closed spec fn view(&self) -> Seq<Diversion> {
        self.current@
    }

    /// The tracker's invariant: one record per value, assigned locations only.
    pub open spec fn wf(&self) -> bool {
        unique_values(self@) && all_assigned(self@)
    }

    /// Whether `value` is currently diverted.
    pub open spec fn diverted(&self, value: Value) -> bool {
        contains_value(self@, value)
    }

    /// The active record for `value`, if any.
    pub open spec fn spec_diversion(&self, value: Value) -> Option<Diversion> {
        diversion_of(self@, value)
    }

    /// The current location of `value`: its diversion's `to` if one is
    /// active, its static assignment otherwise.
    pub open spec fn spec_get(&self, value: Value, locations: &ValueLocations) -> ValueLoc {
        match self.spec_diversion(value) {
            Some(d) => d.to,
            None => locations.spec_get(value),
        }
    }

    /// Create a new empty diversion tracker.
    pub fn new() -> (r: RegDiversions)
        ensures
            r@ == Seq::<Diversion>::empty(),
            r.wf(),
    {
        RegDiversions { current: Vec::new() }
    }

    /// Clear the tracker, preparing for a new block.
    pub fn clear(&mut self)
        ensures
            final(self)@ == Seq::<Diversion>::empty(),
            final(self).wf(),
    {
        self.current.clear()
    }

    /// Are there any diversions?
    pub fn is_empty(&self) -> (r: bool)
        ensures
            r == (self@.len() == 0),
            r <==> (forall|v: Value| !self.diverted(v)),
    {
        proof {
            if self@.len() > 0 {
                assert(self.diverted(self@[0].value));
            } else {
                assert forall|v: Value| !self.diverted(v) by {}
            }
        }
        self.current.is_empty()
    }

    /// The position of the record for `value` in the backing storage, if any.
    fn position(&self, value: Value) -> (r: Option<usize>)
        requires
            self.wf(),
        ensures
            match r {
                Some(i) => {
                    &&& i < self@.len()
                    &&& self@[i as int].value == value
                    &&& index_of(self@, value) == i
                    &&& contains_value(self@, value)
                },
                None => !contains_value(self@, value),
            },
    {
        let mut i: usize = 0;
        while i < self.current.len()
            invariant
                self.wf(),
                i <= self@.len(),
                forall|j: int| 0 <= j < i ==> self@[j].value != value,
            decreases self@.len() - i,
        {
            if self.current[i].value == value {
                proof {
                    lemma_index_of_unique(self@, value, i as int);
                }
                return Some(i);
            }
            i += 1;
        }
        None
    }

    /// Get the current diversion of `value`, if any.
    pub fn diversion(&self, value: Value) -> (r: Option<&Diversion>)
        requires
            self.wf(),
        ensures
            match r {
                Some(d) => self.spec_diversion(value) == Some(*d),
                None => self.spec_diversion(value) is None,
            },
    {
        match self.position(value) {
            Some(i) => Some(&self.current[i]),
            None => None,
        }
    }

    /// Get all current diversions.
    pub fn all(&self) -> (r: &[Diversion])
        ensures
            r@ == self@,
    {
        self.current.as_slice()
    }

    /// Get the current location for `value`. Fall back to the assignment map
    /// for non-diverted values.
    ///
    /// A value that is neither diverted nor assigned is unknown to both
    /// tables; asking for it is an upstream logic error, so it is excluded by
    /// precondition rather than answered.
    pub fn get(&self, value: Value, locations: &ValueLocations) -> (r: ValueLoc)
        requires
            self.wf(),
            self.diverted(value) || locations.spec_get(value).is_assigned(),
        ensures
            r == self.spec_get(value, locations),
            r.is_assigned(),
    {
        match self.diversion(value) {
            Some(d) => d.to,
            None => locations.get(value),
        }
    }

    /// Get the current register location for `value`, which must currently
    /// live in a register.
    pub fn reg(&self, value: Value, locations: &ValueLocations) -> (r: RegUnit)
        requires
            self.wf(),
            self.spec_get(value, locations) is Reg,
        ensures
            ValueLoc::Reg(r) == self.spec_get(value, locations),
    {
        self.get(value, locations).unwrap_reg()
    }

    /// Get the current stack location for `value`, which must currently live
    /// in a stack slot.
    pub fn stack(&self, value: Value, locations: &ValueLocations) -> (r: StackSlot)
        requires
            self.wf(),
            self.spec_get(value, locations) is Stack,
        ensures
            ValueLoc::Stack(r) == self.spec_get(value, locations),
    {
        self.get(value, locations).unwrap_stack()
    }

    /// Record any kind of move.
    ///
    /// Both locations must be assigned, and the `from` location must match an
    /// existing `to` location, if any: the move has to start where the value
    /// currently lives, else the caller's move sequence is corrupted.
    pub fn divert(&mut self, value: Value, from: ValueLoc, to: ValueLoc)
        requires
            old(self).wf(),
            from.is_assigned(),
            to.is_assigned(),
            old(self).diverted(value) ==> old(self).spec_diversion(value).unwrap().to == from,
        ensures
            final(self).wf(),
            divert_effect(old(self)@, final(self)@, value, from, to),
    {
        proof {
            lemma_divert_effect(old(self)@, value, from, to);
        }
        match self.position(value) {
            Some(i) => {
                let d = self.current[i];
                if d.from != to {
                    self.current[i] = Diversion { value: d.value, from: d.from, to };
                    proof {
                        lemma_update_to_wf(old(self)@, i as int, to);
                        assert(self@[i as int].value == value);
                    }
                } else {
                    self.current.swap_remove(i);
                    proof {
                        lemma_swap_remove_wf(old(self)@, i as int);
                    }
                }
            },
            None => {
                self.current.push(Diversion::new(value, from, to));
                proof {
                    lemma_push_wf(old(self)@, Diversion { value, from, to });
                }
            },
        }
    }

    /// Record a register-to-register move.
    pub fn regmove(&mut self, value: Value, from: RegUnit, to: RegUnit)
        requires
            old(self).wf(),
            old(self).diverted(value) ==> old(self).spec_diversion(value).unwrap().to
                == ValueLoc::Reg(from),
        ensures
            final(self).wf(),
            divert_effect(old(self)@, final(self)@, value, ValueLoc::Reg(from), ValueLoc::Reg(to)),
    {
        self.divert(value, ValueLoc::Reg(from), ValueLoc::Reg(to));
    }

    /// Record a register-to-stack move.
    pub fn regspill(&mut self, value: Value, from: RegUnit, to: StackSlot)
        requires
            old(self).wf(),
            old(self).diverted(value) ==> old(self).spec_diversion(value).unwrap().to
                == ValueLoc::Reg(from),
        ensures
            final(self).wf(),
            divert_effect(
                old(self)@,
                final(self)@,
                value,
                ValueLoc::Reg(from),
                ValueLoc::Stack(to),
            ),
    {
        self.divert(value, ValueLoc::Reg(from), ValueLoc::Stack(to));
    }

    /// Record a stack-to-register move.
    pub fn regfill(&mut self, value: Value, from: StackSlot, to: RegUnit)
        requires
            old(self).wf(),
            old(self).diverted(value) ==> old(self).spec_diversion(value).unwrap().to
                == ValueLoc::Stack(from),
        ensures
            final(self).wf(),
            divert_effect(
                old(self)@,
                final(self)@,
                value,
                ValueLoc::Stack(from),
                ValueLoc::Reg(to),
            ),
    {
        self.divert(value, ValueLoc::Stack(from), ValueLoc::Reg(to));
    }

    /// Apply the effect of `inst`.
    ///
    /// If `inst` is a register-move, register-spill, or register-fill
    /// instruction, update the diversions to match; every other instruction
    /// leaves the tracker unchanged.
    pub fn apply(&mut self, inst: &InstructionData)
        requires
            old(self).wf(),
            match spec_move_of(*inst) {
                Some((value, from, _)) => old(self).diverted(value) ==> old(
                    self,
                ).spec_diversion(value).unwrap().to == from,
                None => true,
            },
        ensures
            final(self).wf(),
            final(self)@ == spec_apply(old(self)@, *inst),
            match spec_move_of(*inst) {
                Some((value, from, to)) => divert_effect(
                    old(self)@,
                    final(self)@,
                    value,
                    from,
                    to,
                ),
                None => final(self)@ == old(self)@,
            },
    {
        match *inst {
            InstructionData::RegMove { opcode: Opcode::Regmove, arg, src, dst } => {
                self.regmove(arg, src, dst)
            },
            InstructionData::RegSpill { opcode: Opcode::Regspill, arg, src, dst } => {
                self.regspill(arg, src, dst)
            },
            InstructionData::RegFill { opcode: Opcode::Regfill, arg, src, dst } => {
                self.regfill(arg, src, dst)
            },
            _ => {},
        }
    }

    /// Drop any recorded move for `value`.
    ///
    /// Returns the `to` location of the removed diversion, if one existed.
    pub fn remove(&mut self, value: Value) -> (r: Option<ValueLoc>)
        requires
            old(self).wf(),
        ensures
            final(self).wf(),
            final(self)@ == spec_remove(old(self)@, value),
            r == (match old(self).spec_diversion(value) {
                Some(d) => Some(d.to),
                None => None::<ValueLoc>,
            }),
            final(self).spec_diversion(value) is None,
            forall|w: Value|
                w != value ==> final(self).spec_diversion(w) == old(self).spec_diversion(w),
    {
        proof {
            assert forall|w: Value|
                w != value implies diversion_of(spec_remove(old(self)@, value), w)
                == diversion_of(old(self)@, w) by {
                lemma_remove_preserves_others(old(self)@, value, w);
            }
        }
        match self.position(value) {
            Some(i) => {
                let d = self.current.swap_remove(i);
                proof {
                    lemma_swap_remove_wf(old(self)@, i as int);
                }
                Some(d.to)
            },
            None => None,
        }
    }

    /// Return an object that can display the diversions, using `regs` to name
    /// register units when it is present.
    pub fn display<'a>(&'a self, regs: Option<&'a RegNames>) -> (d: DisplayDiversions<'a>)
        ensures
            d.divs@ == self@,
            d.regs == regs,
    {
        DisplayDiversions { divs: self, regs }
    }
}

/// Pushing a record for a value that has no record keeps values unique.
proof fn lemma_push_unique(s: Seq<Diversion>, d: Diversion)
    requires
        unique_values(s),
        !contains_value(s, d.value),
    ensures
        unique_values(s.push(d)),
{
    let t = s.push(d);
    assert forall|i: int, j: int|
        0 <= i < t.len() && 0 <= j < t.len() && i != j implies t[i].value != t[j].value by {
        if i < s.len() && j < s.len() {
        } else if i < s.len() {
            assert(s[i].value != d.value);
        } else {
            assert(s[j].value != d.value);
        }
    }
}

/// Pushing a record for a value that has no record keeps the invariant.
proof fn lemma_push_wf(s: Seq<Diversion>, d: Diversion)
    requires
        unique_values(s),
        all_assigned(s),
        !contains_value(s, d.value),
        d.from.is_assigned(),
        d.to.is_assigned(),
    ensures
        unique_values(s.push(d)),
        all_assigned(s.push(d)),
{
    lemma_push_unique(s, d);
}

/// Replacing a record with one for the same value keeps values unique.
proof fn lemma_update_unique(s: Seq<Diversion>, i: int, d: Diversion)
    requires
        unique_values(s),
        0 <= i < s.len(),
        d.value == s[i].value,
    ensures
        unique_values(s.update(i, d)),
{
    let t = s.update(i, d);
    assert(forall|k: int| 0 <= k < t.len() ==> t[k].value == s[k].value);
}

/// Updating a record's `to` location in place keeps the invariant.
proof fn lemma_update_to_wf(s: Seq<Diversion>, i: int, to: ValueLoc)
    requires
        unique_values(s),
        all_assigned(s),
        0 <= i < s.len(),
        to.is_assigned(),
    ensures
        unique_values(s.update(i, Diversion { value: s[i].value, from: s[i].from, to })),
        all_assigned(s.update(i, Diversion { value: s[i].value, from: s[i].from, to })),
{
    lemma_update_unique(s, i, Diversion { value: s[i].value, from: s[i].from, to });
}

/// Removing a record by swapping in the last one keeps values unique and
/// leaves no record for the removed value.
proof fn lemma_swap_remove_unique(s: Seq<Diversion>, i: int)
    requires
        unique_values(s),
        0 <= i < s.len(),
    ensures
        unique_values(s.update(i, s.last()).drop_last()),
        !contains_value(s.update(i, s.last()).drop_last(), s[i].value),
{
    let t = s.update(i, s.last()).drop_last();
    assert forall|k1: int, k2: int|
        0 <= k1 < t.len() && 0 <= k2 < t.len() && k1 != k2 implies t[k1].value != t[k2].value by {
        assert(t[k1] == (if k1 == i { s.last() } else { s[k1] }));
        assert(t[k2] == (if k2 == i { s.last() } else { s[k2] }));
    }
    assert forall|k: int| 0 <= k < t.len() implies t[k].value != s[i].value by {
        assert(t[k] == (if k == i { s.last() } else { s[k] }));
    }
}

/// Removing a record by swapping in the last one keeps the invariant.
proof fn lemma_swap_remove_wf(s: Seq<Diversion>, i: int)
    requires
        unique_values(s),
        all_assigned(s),
        0 <= i < s.len(),
    ensures
        unique_values(s.update(i, s.last()).drop_last()),
        all_assigned(s.update(i, s.last()).drop_last()),
        !contains_value(s.update(i, s.last()).drop_last(), s[i].value),
{
    lemma_swap_remove_unique(s, i);
    let t = s.update(i, s.last()).drop_last();
    assert forall|k: int| 0 <= k < t.len() implies (#[trigger] t[k]).from.is_assigned()
        && t[k].to.is_assigned() by {
        assert(t[k] == (if k == i { s.last() } else { s[k] }));
    }
}

/// Removing record `i` by swapping in the last record does not change which
/// record any other value has.
proof fn lemma_swap_remove_preserves_others(s: Seq<Diversion>, i: int, other: Value)
    requires
        unique_values(s),
        0 <= i < s.len(),
        s[i].value != other,
    ensures
        diversion_of(s.update(i, s.last()).drop_last(), other) == diversion_of(s, other),
{
    let t = s.update(i, s.last()).drop_last();
    lemma_swap_remove_unique(s, i);
    if contains_value(s, other) {
        let j = index_of(s, other);
        assert(0 <= j < s.len() && s[j].value == other);
        if j < s.len() - 1 {
            assert(t[j] == (if j == i {
                s.last()
            } else {
                s[j]
            }));
            lemma_index_of_unique(t, other, j);
        } else {
            // the record for `other` is the last one; it moves to slot `i`
            assert(t[i] == s.last());
            lemma_index_of_unique(t, other, i);
        }
    } else {
        assert forall|k: int| 0 <= k < t.len() implies t[k].value != other by {
            assert(t[k] == (if k == i {
                s.last()
            } else {
                s[k]
            }));
        }
    }
}

/// Recording a move for one value leaves every other value's record
/// unchanged.
pub proof fn lemma_divert_preserves_others(
    s: Seq<Diversion>,
    value: Value,
    from: ValueLoc,
    to: ValueLoc,
    other: Value,
)
    requires
        unique_values(s),
        other != value,
    ensures
        diversion_of(spec_divert(s, value, from, to), other) == diversion_of(s, other),
{
    if contains_value(s, value) {
        let i = index_of(s, value);
        assert(0 <= i < s.len() && s[i].value == value);
        if s[i].from == to {
            lemma_swap_remove_preserves_others(s, i, other);
        } else {
            let t = s.update(i, Diversion { value, from: s[i].from, to });
            lemma_update_unique(s, i, Diversion { value, from: s[i].from, to });
            if contains_value(s, other) {
                let j = index_of(s, other);
                assert(t[j] == s[j]);
                lemma_index_of_unique(t, other, j);
            } else {
                assert(forall|k: int| 0 <= k < t.len() ==> t[k].value == s[k].value);
            }
        }
    } else {
        let d = Diversion { value, from, to };
        let t = s.push(d);
        lemma_push_unique(s, d);
        if contains_value(s, other) {
            let j = index_of(s, other);
            assert(t[j] == s[j]);
            lemma_index_of_unique(t, other, j);
        } else {
            assert forall|k: int| 0 <= k < t.len() implies t[k].value != other by {
                if k < s.len() {
                } else {
                    assert(t[k] == d);
                }
            }
        }
    }
}

/// Recording a move has exactly the effect `divert_effect` describes.
pub proof fn lemma_divert_effect(s: Seq<Diversion>, value: Value, from: ValueLoc, to: ValueLoc)
    requires
        unique_values(s),
    ensures
        divert_effect(s, spec_divert(s, value, from, to), value, from, to),
{
    let t = spec_divert(s, value, from, to);
    assert forall|w: Value| w != value implies diversion_of(t, w) == diversion_of(s, w) by {
        lemma_divert_preserves_others(s, value, from, to, w);
    }
    if contains_value(s, value) {
        let i = index_of(s, value);
        assert(0 <= i < s.len() && s[i].value == value);
        if s[i].from == to {
            lemma_swap_remove_unique(s, i);
        } else {
            let d = Diversion { value, from: s[i].from, to };
            lemma_update_unique(s, i, d);
            lemma_index_of_unique(t, value, i);
        }
    } else {
        let d = Diversion { value, from, to };
        lemma_push_unique(s, d);
        lemma_index_of_unique(t, value, s.len() as int);
    }
}

/// Dropping one value's record leaves every other value's record unchanged.
pub proof fn lemma_remove_preserves_others(s: Seq<Diversion>, value: Value, other: Value)
    requires
        unique_values(s),
        other != value,
    ensures
        diversion_of(spec_remove(s, value), other) == diversion_of(s, other),
{
    if contains_value(s, value) {
        let i = index_of(s, value);
        assert(0 <= i < s.len() && s[i].value == value);
        lemma_swap_remove_preserves_others(s, i, other);
    }
}

/// A move and its inverse, recorded back to back for a value with no active
/// diversion, cancel exactly: the tracker's records return to precisely what
/// they were, so the value is not diverted afterwards, and a tracker that
/// was empty is empty again.
pub proof fn lemma_divert_round_trip(s: Seq<Diversion>, value: Value, a: ValueLoc, b: ValueLoc)
    requires
        unique_values(s),
        !contains_value(s, value),
    ensures
        spec_divert(spec_divert(s, value, a, b), value, b, a) == s,
        diversion_of(spec_divert(spec_divert(s, value, a, b), value, b, a), value) is None,
        s.len() == 0 ==> spec_divert(spec_divert(s, value, a, b), value, b, a).len() == 0,
{
    let d = Diversion { value, from: a, to: b };
    let t1 = s.push(d);
    lemma_push_unique(s, d);
    lemma_index_of_unique(t1, value, s.len() as int);
    // the second move ends at `a`, the record's original location, so the
    // record is dropped, and dropping the freshly pushed last record
    // restores the original list
    assert(t1[index_of(t1, value)].from == a);
    assert(t1.update(s.len() as int, t1.last()) =~= t1);
    assert(t1.drop_last() =~= s);
    assert(spec_divert(t1, value, b, a) == s);
}

/// A move chain: each hop starts where the previous hop ended.
pub open spec fn chained(hops: Seq<(ValueLoc, ValueLoc)>) -> bool {
    forall|k: int| 1 <= k < hops.len() ==> (#[trigger] hops[k]).0 == hops[k - 1].1
}

/// No hop of the chain moves a location onto itself.
pub open spec fn no_self_moves(hops: Seq<(ValueLoc, ValueLoc)>) -> bool {
    forall|k: int| 0 <= k < hops.len() ==> (#[trigger] hops[k]).0 != hops[k].1
}

/// The records after diverting `value` along every hop of `hops` in turn.
pub open spec fn spec_divert_all(
    s: Seq<Diversion>,
    value: Value,
    hops: Seq<(ValueLoc, ValueLoc)>,
) -> Seq<Diversion>
    decreases hops.len(),
{
    if hops.len() == 0 {
        s
    } else {
        spec_divert(
            spec_divert_all(s, value, hops.drop_last()),
            value,
            hops.last().0,
            hops.last().1,
        )
    }
}

/// A chain of moves for one value collapses to a single record that reads
/// "very first `from` -> most recent `to`": whenever the value is still
/// diverted after the chain, that is what its record says, and it is always
/// still diverted unless the chain has returned to where it started. When no
/// hop is a self-move, returning to the start always removes the record.
pub proof fn lemma_chain_tracks_ends(
    s: Seq<Diversion>,
    value: Value,
    hops: Seq<(ValueLoc, ValueLoc)>,
)
    requires
        unique_values(s),
        !contains_value(s, value),
        hops.len() > 0,
        chained(hops),
    ensures
        unique_values(spec_divert_all(s, value, hops)),
        diversion_of(spec_divert_all(s, value, hops), value) matches Some(d) ==> d == (Diversion {
            value,
            from: hops[0].0,
            to: hops.last().1,
        }),
        hops.last().1 != hops[0].0 ==> diversion_of(spec_divert_all(s, value, hops), value)
            is Some,
        no_self_moves(hops) && hops.last().1 == hops[0].0 ==> diversion_of(
            spec_divert_all(s, value, hops),
            value,
        ) is None,
    decreases hops.len(),
{
    let origin = hops[0].0;
    let hop = hops.last();
    if hops.len() == 1 {
        // the first hop pushes a fresh record
        let d = Diversion { value, from: hop.0, to: hop.1 };
        let t = s.push(d);
        lemma_push_unique(s, d);
        lemma_index_of_unique(t, value, s.len() as int);
    } else {
        let rest = hops.drop_last();
        assert(rest[0] == hops[0]);
        lemma_chain_tracks_ends(s, value, rest);
        let pre = spec_divert_all(s, value, rest);
        let cur = rest.last().1;
        assert(hop.0 == cur);
        if contains_value(pre, value) {
            // the value is diverted as origin -> cur; this hop either closes
            // the chain or retargets the record in place
            let i = index_of(pre, value);
            assert(pre[i] == (Diversion { value, from: origin, to: cur }));
            if hop.1 == origin {
                lemma_swap_remove_unique(pre, i);
            } else {
                let d = Diversion { value, from: origin, to: hop.1 };
                lemma_update_unique(pre, i, d);
                let t = pre.update(i, d);
                lemma_index_of_unique(t, value, i);
            }
        } else {
            // the chain can only have shed its record by returning to the
            // origin, so this hop starts a fresh record from the origin
            assert(cur == origin);
            let d = Diversion { value, from: hop.0, to: hop.1 };
            let t = pre.push(d);
            lemma_push_unique(pre, d);
            lemma_index_of_unique(t, value, pre.len() as int);
        }
    }
}

/// Object that displays register diversions.
pub struct DisplayDiversions<'a> {
    /// The tracker being displayed.
    pub divs: &'a RegDiversions,
    /// The optional register-unit name table.
    pub regs: Option<&'a RegNames>,
}

impl DisplayDiversions<'_> {
    /// The diversions as text: space-separated `value: from -> to` entries
    /// enclosed in braces, `{ }` when there are none.
    pub fn text(&self) -> (s: String)
        ensures
            s@ == crate::text::spec_diversions_text(
                self.divs@,
                crate::text::names_of(self.regs),
            ),
    {
        crate::text::diversions_string(self.divs.all(), self.regs)
    }
}

} // verus!
