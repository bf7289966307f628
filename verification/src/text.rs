//! Deterministic textual rendering of diversions for diagnostics.
//!
//! Values render as `v7`, register units as `%10` or their table name, stack
//! slots as `ss2`, and a record list as `{ v7: %10 -> %12 }` — space-separated
//! `value: from -> to` entries enclosed in braces, an empty list as `{ }`.

use vstd::prelude::*;
use crate::tracker::Diversion;
use crate::ir::{Value, ValueLoc};
use crate::isa::{RegNames, RegUnit};

verus! {

/// The decimal digit character for `d`.
pub open spec fn digit_char(d: nat) -> char
    recommends
        d < 10,
{
    if d == 0 {
        '0'
    } else if d == 1 {
        '1'
    } else if d == 2 {
        '2'
    } else if d == 3 {
        '3'
    } else if d == 4 {
        '4'
    } else if d == 5 {
        '5'
    } else if d == 6 {
        '6'
    } else if d == 7 {
        '7'
    } else if d == 8 {
        '8'
    } else {
        '9'
    }
}

/// The decimal rendering of `n`, most significant digit first, no leading
/// zeros except for zero itself.
pub open spec fn spec_dec(n: nat) -> Seq<char>
    decreases n,
{
    if n < 10 {
        seq![digit_char(n)]
    } else {
        spec_dec(n / 10) + seq![digit_char(n % 10)]
    }
}

/// The one-character string for the decimal digit `d`.
fn digit_str(d: u32) -> (s: &'static str)
    requires
        d < 10,
    ensures
        s@ == seq![digit_char(d as nat)],
{
    proof {
        reveal_strlit("0");
        reveal_strlit("1");
        reveal_strlit("2");
        reveal_strlit("3");
        reveal_strlit("4");
        reveal_strlit("5");
        reveal_strlit("6");
        reveal_strlit("7");
        reveal_strlit("8");
        reveal_strlit("9");
    }
    let s: &'static str = match d {
        0 => "0",
        1 => "1",
        2 => "2",
        3 => "3",
        4 => "4",
        5 => "5",
        6 => "6",
        7 => "7",
        8 => "8",
        _ => "9",
    };
    proof {
        assert(s@ =~= seq![digit_char(d as nat)]);
    }
    s
}

/// The decimal rendering of `n`.
pub fn u32_string(n: u32) -> (s: String)
    ensures
        s@ == spec_dec(n as nat),
    decreases n,
{
    if n < 10 {
        String::from_str(digit_str(n))
    } else {
        let mut s = u32_string(n / 10);
        s.append(digit_str(n % 10));
        s
    }
}

/// The register-unit name table carried by an optional `RegNames`: its view
/// when one is supplied, nothing otherwise.
pub open spec fn names_of(regs: Option<&RegNames>) -> Option<Seq<Seq<char>>> {
    match regs {
        Some(table) => Some(table@),
        None => None,
    }
}

/// The rendering of a value reference: `v` and its number.
pub open spec fn spec_value_text(value: Value) -> Seq<char> {
    seq!['v'] + spec_dec(value.0 as nat)
}

/// The rendering of a register unit: its table name when the table has one,
/// else `%` and its number.
pub open spec fn spec_reg_text(unit: RegUnit, names: Option<Seq<Seq<char>>>) -> Seq<char> {
    match names {
        Some(table) => if (unit as int) < table.len() {
            table[unit as int]
        } else {
            seq!['%'] + spec_dec(unit as nat)
        },
        None => seq!['%'] + spec_dec(unit as nat),
    }
}

/// The rendering of a location: a named or numbered register, `ss` and the
/// slot number, or `-` for an unassigned location.
pub open spec fn spec_loc_text(loc: ValueLoc, names: Option<Seq<Seq<char>>>) -> Seq<char> {
    match loc {
        ValueLoc::Unassigned => seq!['-'],
        ValueLoc::Reg(unit) => spec_reg_text(unit, names),
        ValueLoc::Stack(slot) => seq!['s', 's'] + spec_dec(slot.0 as nat),
    }
}

/// The rendering of one record: ` value: from -> to`.
pub open spec fn spec_entry_text(d: Diversion, names: Option<Seq<Seq<char>>>) -> Seq<char> {
    seq![' '] + spec_value_text(d.value) + seq![':', ' '] + spec_loc_text(d.from, names) + seq![
        ' ',
        '-',
        '>',
        ' ',
    ] + spec_loc_text(d.to, names)
}

/// The renderings of all records, in order.
pub open spec fn spec_entries_text(s: Seq<Diversion>, names: Option<Seq<Seq<char>>>) -> Seq<char>
    decreases s.len(),
{
    if s.len() == 0 {
        Seq::<char>::empty()
    } else {
        spec_entries_text(s.drop_last(), names) + spec_entry_text(s.last(), names)
    }
}

/// The rendering of a whole record list, enclosed in braces.
pub open spec fn spec_diversions_text(s: Seq<Diversion>, names: Option<Seq<Seq<char>>>) -> Seq<
    char,
> {
    seq!['{'] + spec_entries_text(s, names) + seq![' ', '}']
}

/// The rendering of a value reference.
pub fn value_string(value: Value) -> (s: String)
    ensures
        s@ == spec_value_text(value),
{
    proof {
        reveal_strlit("v");
    }
    let mut s = String::from_str("v");
    s.append(u32_string(value.0).as_str());
    proof {
        assert(s@ =~= spec_value_text(value));
    }
    s
}

/// The rendering of a register unit, through the name table when one is
/// supplied and it has an entry for the unit.
pub fn reg_string(unit: RegUnit, regs: Option<&RegNames>) -> (s: String)
    ensures
        s@ == spec_reg_text(unit, names_of(regs)),
{
    if let Some(table) = regs {
        if let Some(name) = table.name(unit) {
            return name;
        }
    }
    proof {
        reveal_strlit("%");
    }
    let mut s = String::from_str("%");
    s.append(u32_string(unit as u32).as_str());
    proof {
        assert(s@ =~= seq!['%'] + spec_dec(unit as nat));
    }
    s
}

/// The rendering of a location.
pub fn loc_string(loc: ValueLoc, regs: Option<&RegNames>) -> (s: String)
    ensures
        s@ == spec_loc_text(loc, names_of(regs)),
{
    match loc {
        ValueLoc::Unassigned => {
            proof {
                reveal_strlit("-");
            }
            let s = String::from_str("-");
            proof {
                assert(s@ =~= seq!['-']);
            }
            s
        },
        ValueLoc::Reg(unit) => reg_string(unit, regs),
        ValueLoc::Stack(slot) => {
            proof {
                reveal_strlit("ss");
            }
            let mut s = String::from_str("ss");
            s.append(u32_string(slot.0).as_str());
            proof {
                assert(s@ =~= seq!['s', 's'] + spec_dec(slot.0 as nat));
            }
            s
        },
    }
}

/// The rendering of a whole record list.
pub fn diversions_string(divs: &[Diversion], regs: Option<&RegNames>) -> (s: String)
    ensures
        s@ == spec_diversions_text(divs@, names_of(regs)),
{
    proof {
        reveal_strlit("{");
        reveal_strlit(" ");
        reveal_strlit(": ");
        reveal_strlit(" -> ");
        reveal_strlit(" }");
    }
    let ghost names = names_of(regs);
    let mut s = String::from_str("{");
    proof {
        assert(divs@.take(0) =~= Seq::<Diversion>::empty());
        assert(s@ =~= seq!['{'] + spec_entries_text(divs@.take(0), names));
    }
    let mut i: usize = 0;
    while i < divs.len()
        invariant
            i <= divs@.len(),
            names == names_of(regs),
            s@ == seq!['{'] + spec_entries_text(divs@.take(i as int), names),
        decreases divs@.len() - i,
    {
        let d = divs[i];
        s.append(" ");
        s.append(value_string(d.value).as_str());
        s.append(": ");
        s.append(loc_string(d.from, regs).as_str());
        s.append(" -> ");
        s.append(loc_string(d.to, regs).as_str());
        proof {
            reveal_strlit(" ");
            reveal_strlit(": ");
            reveal_strlit(" -> ");
            assert(divs@.take(i as int + 1).drop_last() =~= divs@.take(i as int));
            assert(divs@.take(i as int + 1).last() == divs@[i as int]);
            assert(s@ =~= seq!['{'] + spec_entries_text(divs@.take(i as int + 1), names));
        }
        i += 1;
    }
    s.append(" }");
    proof {
        assert(divs@.take(divs@.len() as int) =~= divs@);
        assert(s@ =~= spec_diversions_text(divs@, names));
    }
    s
}

} // verus!
