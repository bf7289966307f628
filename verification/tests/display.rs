use diversion::ir::{StackSlot, Value, ValueLoc};
use diversion::isa::RegNames;
use diversion::text::{loc_string, u32_string, value_string};
use diversion::RegDiversions;

#[test]
fn decimal_rendering() {
    assert_eq!(u32_string(0), "0");
    assert_eq!(u32_string(7), "7");
    assert_eq!(u32_string(10), "10");
    assert_eq!(u32_string(305), "305");
    assert_eq!(u32_string(u32::MAX), "4294967295");
}

#[test]
fn value_and_loc_rendering() {
    assert_eq!(value_string(Value::new(3)), "v3");
    assert_eq!(loc_string(ValueLoc::Reg(12), None), "%12");
    assert_eq!(loc_string(ValueLoc::Stack(StackSlot::new(1)), None), "ss1");
    assert_eq!(loc_string(ValueLoc::Unassigned, None), "-");
}

#[test]
fn display_empty() {
    let divs = RegDiversions::new();
    assert_eq!(divs.display(None).text(), "{ }");
}

#[test]
fn display_plain() {
    let mut divs = RegDiversions::new();
    divs.regmove(Value::new(1), 10, 12);
    assert_eq!(divs.display(None).text(), "{ v1: %10 -> %12 }");

    divs.regspill(Value::new(7), 3, StackSlot::new(1));
    assert_eq!(divs.display(None).text(), "{ v1: %10 -> %12 v7: %3 -> ss1 }");
}

#[test]
fn display_with_reg_names() {
    let mut names = RegNames::new();
    names.push(String::from("%rax"));
    names.push(String::from("%rcx"));
    names.push(String::from("%rdx"));

    let mut divs = RegDiversions::new();
    divs.regmove(Value::new(3), 0, 2);
    assert_eq!(divs.display(Some(&names)).text(), "{ v3: %rax -> %rdx }");

    // units past the end of the table fall back to their number
    divs.regmove(Value::new(4), 10, 1);
    assert_eq!(
        divs.display(Some(&names)).text(),
        "{ v3: %rax -> %rdx v4: %10 -> %rcx }"
    );
}
