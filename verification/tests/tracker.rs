use diversion::ir::{InstructionData, Opcode, StackSlot, Value, ValueLoc, ValueLocations};
use diversion::{Diversion, RegDiversions};

#[test]
fn inserts() {
    let mut divs = RegDiversions::new();
    let v1 = Value::new(1);
    let v2 = Value::new(2);

    divs.regmove(v1, 10, 12);
    assert_eq!(
        divs.diversion(v1),
        Some(&Diversion {
            value: v1,
            from: ValueLoc::Reg(10),
            to: ValueLoc::Reg(12),
        })
    );
    assert_eq!(divs.diversion(v2), None);

    divs.regmove(v1, 12, 11);
    assert_eq!(divs.diversion(v1).unwrap().to, ValueLoc::Reg(11));
    divs.regmove(v1, 11, 10);
    assert_eq!(divs.diversion(v1), None);
}

#[test]
fn regmove_chain_collapses_to_empty() {
    let mut divs = RegDiversions::new();
    let v1 = Value::new(1);
    let v2 = Value::new(2);
    assert!(divs.is_empty());

    divs.regmove(v1, 10, 12);
    assert_eq!(
        divs.diversion(v1),
        Some(&Diversion {
            value: v1,
            from: ValueLoc::Reg(10),
            to: ValueLoc::Reg(12),
        })
    );
    assert_eq!(divs.diversion(v2), None);
    assert!(!divs.is_empty());

    divs.regmove(v1, 12, 11);
    assert_eq!(divs.diversion(v1).unwrap().to, ValueLoc::Reg(11));
    assert_eq!(divs.diversion(v1).unwrap().from, ValueLoc::Reg(10));

    divs.regmove(v1, 11, 10);
    assert_eq!(divs.diversion(v1), None);
    assert!(divs.is_empty());
}

#[test]
fn spill_fill_round_trip() {
    let mut divs = RegDiversions::new();
    let v1 = Value::new(1);

    divs.regspill(v1, 5, StackSlot::new(2));
    assert_eq!(
        divs.diversion(v1),
        Some(&Diversion {
            value: v1,
            from: ValueLoc::Reg(5),
            to: ValueLoc::Stack(StackSlot::new(2)),
        })
    );

    divs.regfill(v1, StackSlot::new(2), 5);
    assert_eq!(divs.diversion(v1), None);
    assert!(divs.is_empty());
}

#[test]
fn divert_round_trip() {
    let mut divs = RegDiversions::new();
    let v7 = Value::new(7);
    let a = ValueLoc::Stack(StackSlot::new(3));
    let b = ValueLoc::Reg(1);

    divs.divert(v7, a, b);
    assert_eq!(divs.diversion(v7), Some(&Diversion { value: v7, from: a, to: b }));
    divs.divert(v7, b, a);
    assert_eq!(divs.diversion(v7), None);
    assert!(divs.is_empty());
}

#[test]
fn chain_keeps_original_from() {
    let mut divs = RegDiversions::new();
    let v1 = Value::new(1);

    divs.regmove(v1, 10, 11);
    divs.regspill(v1, 11, StackSlot::new(0));
    divs.regfill(v1, StackSlot::new(0), 12);

    let d = divs.diversion(v1).unwrap();
    assert_eq!(d.from, ValueLoc::Reg(10));
    assert_eq!(d.to, ValueLoc::Reg(12));
    assert_eq!(divs.all().len(), 1);
}

#[test]
fn independent_values() {
    let mut divs = RegDiversions::new();
    let v1 = Value::new(1);
    let v2 = Value::new(2);

    divs.regmove(v1, 10, 11);
    divs.regspill(v2, 3, StackSlot::new(4));
    assert_eq!(divs.all().len(), 2);
    assert_eq!(divs.diversion(v1).unwrap().to, ValueLoc::Reg(11));
    assert_eq!(divs.diversion(v2).unwrap().to, ValueLoc::Stack(StackSlot::new(4)));

    assert_eq!(divs.remove(v1), Some(ValueLoc::Reg(11)));
    assert_eq!(divs.diversion(v1), None);
    let remaining = divs.all();
    assert_eq!(remaining.len(), 1);
    assert_eq!(
        remaining[0],
        Diversion {
            value: v2,
            from: ValueLoc::Reg(3),
            to: ValueLoc::Stack(StackSlot::new(4)),
        }
    );
}

#[test]
fn remove_returns_last_to() {
    let mut divs = RegDiversions::new();
    let v1 = Value::new(1);
    let v2 = Value::new(2);

    divs.regmove(v1, 10, 11);
    divs.regmove(v1, 11, 12);
    assert_eq!(divs.remove(v1), Some(ValueLoc::Reg(12)));
    assert!(divs.is_empty());

    // removing an untracked value returns nothing and changes nothing
    divs.regmove(v1, 10, 11);
    assert_eq!(divs.remove(v2), None);
    assert_eq!(divs.all().len(), 1);
    assert_eq!(divs.diversion(v1).unwrap().to, ValueLoc::Reg(11));
}

#[test]
fn get_falls_back_to_assignments() {
    let mut locations = ValueLocations::new();
    let v1 = Value::new(1);
    let v2 = Value::new(2);
    locations.set(v1, ValueLoc::Reg(10));
    locations.set(v2, ValueLoc::Stack(StackSlot::new(7)));

    let mut divs = RegDiversions::new();
    assert_eq!(divs.get(v1, &locations), ValueLoc::Reg(10));
    assert_eq!(divs.get(v2, &locations), ValueLoc::Stack(StackSlot::new(7)));
    assert_eq!(divs.reg(v1, &locations), 10);
    assert_eq!(divs.stack(v2, &locations), StackSlot::new(7));

    divs.regmove(v1, 10, 12);
    assert_eq!(divs.get(v1, &locations), ValueLoc::Reg(12));
    assert_eq!(divs.reg(v1, &locations), 12);
    // the other value still resolves through the static assignment
    assert_eq!(divs.get(v2, &locations), ValueLoc::Stack(StackSlot::new(7)));

    divs.regspill(v1, 12, StackSlot::new(0));
    assert_eq!(divs.stack(v1, &locations), StackSlot::new(0));
}

#[test]
fn apply_updates_diversions() {
    let mut divs = RegDiversions::new();
    let v1 = Value::new(1);

    divs.apply(&InstructionData::RegMove {
        opcode: Opcode::Regmove,
        arg: v1,
        src: 10,
        dst: 12,
    });
    assert_eq!(
        divs.diversion(v1),
        Some(&Diversion {
            value: v1,
            from: ValueLoc::Reg(10),
            to: ValueLoc::Reg(12),
        })
    );

    divs.apply(&InstructionData::RegSpill {
        opcode: Opcode::Regspill,
        arg: v1,
        src: 12,
        dst: StackSlot::new(3),
    });
    assert_eq!(divs.diversion(v1).unwrap().to, ValueLoc::Stack(StackSlot::new(3)));

    divs.apply(&InstructionData::RegFill {
        opcode: Opcode::Regfill,
        arg: v1,
        src: StackSlot::new(3),
        dst: 10,
    });
    // the fill brings the value home, closing the chain
    assert_eq!(divs.diversion(v1), None);
    assert!(divs.is_empty());
}

#[test]
fn apply_ignores_other_instructions() {
    let mut divs = RegDiversions::new();
    let v1 = Value::new(1);
    divs.regmove(v1, 10, 12);

    divs.apply(&InstructionData::Unary { opcode: Opcode::Copy, arg: v1 });
    divs.apply(&InstructionData::Binary {
        opcode: Opcode::Iadd,
        arg0: v1,
        arg1: Value::new(2),
    });
    divs.apply(&InstructionData::Nullary { opcode: Opcode::Return });
    // a register-move shape whose opcode is not `regmove` is ignored too
    divs.apply(&InstructionData::RegMove {
        opcode: Opcode::Copy,
        arg: Value::new(3),
        src: 1,
        dst: 2,
    });

    assert_eq!(divs.all().len(), 1);
    assert_eq!(
        divs.diversion(v1),
        Some(&Diversion {
            value: v1,
            from: ValueLoc::Reg(10),
            to: ValueLoc::Reg(12),
        })
    );
}

#[test]
fn clear_empties_the_tracker() {
    let mut divs = RegDiversions::new();
    divs.regmove(Value::new(1), 10, 11);
    divs.regmove(Value::new(2), 3, 4);
    assert!(!divs.is_empty());
    divs.clear();
    assert!(divs.is_empty());
    assert_eq!(divs.all().len(), 0);
    assert_eq!(divs.diversion(Value::new(1)), None);
}

#[test]
fn value_numbers_at_bounds() {
    let mut divs = RegDiversions::new();
    let big = Value::new(u32::MAX);
    divs.regmove(big, 0, 1);
    assert_eq!(divs.diversion(big).unwrap().to, ValueLoc::Reg(1));
    assert_eq!(divs.remove(big), Some(ValueLoc::Reg(1)));
}

#[test]
fn assignment_map_updates() {
    let mut locations = ValueLocations::new();
    let v3 = Value::new(3);
    assert_eq!(locations.get(v3), ValueLoc::Unassigned);
    locations.set(v3, ValueLoc::Reg(9));
    assert_eq!(locations.get(v3), ValueLoc::Reg(9));
    // values the allocator never reached stay unassigned
    assert_eq!(locations.get(Value::new(0)), ValueLoc::Unassigned);
    locations.set(v3, ValueLoc::Stack(StackSlot::new(1)));
    assert_eq!(locations.get(v3), ValueLoc::Stack(StackSlot::new(1)));
}
