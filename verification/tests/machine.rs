//! Tests of the virtual machine on hand-built opcode sequences, and of
//! the numeric model's exact values.

use vernacular::errors::Error;
use vernacular::num::Num;
use vernacular::opcode::OpCode;
use vernacular::runtime::Runtime;
use vernacular::value::{render_num, render_value, Type, Value};

fn num(millionths: u128) -> Num {
    Num::make(false, millionths).unwrap()
}

fn neg_num(millionths: u128) -> Num {
    Num::make(true, millionths).unwrap()
}

#[test]
fn concat_joins_two_texts_without_separator() {
    let mut rt = Runtime::new();
    let prog = vec![
        OpCode::Push(Value::Text("ab".to_string())),
        OpCode::Push(Value::Text("cd".to_string())),
        OpCode::Concat,
        OpCode::Show,
    ];
    let mut out = Vec::new();
    assert!(rt.execute_bytecode(&prog, &mut out).is_ok());
    assert_eq!(out, vec!["abcd".to_string()]);
}

#[test]
fn concat_rejects_a_non_text_operand() {
    let mut rt = Runtime::new();
    let prog = vec![
        OpCode::Push(Value::Text("ab".to_string())),
        OpCode::Push(Value::Number(num(1_000_000))),
        OpCode::Concat,
    ];
    let mut out = Vec::new();
    let r = rt.execute_bytecode(&prog, &mut out);
    assert!(matches!(r, Err(Error::TypeMismatch { .. })));
}

#[test]
fn interpolate_three_parts_in_source_order() {
    let mut rt = Runtime::new();
    let prog = vec![
        OpCode::Push(Value::Number(num(1_000_000))),
        OpCode::Push(Value::Text("-".to_string())),
        OpCode::Push(Value::Truth(true)),
        OpCode::Interpolate(3),
        OpCode::Show,
    ];
    let mut out = Vec::new();
    assert!(rt.execute_bytecode(&prog, &mut out).is_ok());
    assert_eq!(out, vec!["1-true".to_string()]);
}

#[test]
fn cast_of_negative_number_to_whole_floors_toward_negative_infinity() {
    let mut rt = Runtime::new();
    let prog = vec![
        OpCode::Push(Value::Number(neg_num(7_900_000))),
        OpCode::Cast(Type::Whole),
        OpCode::Show,
    ];
    let mut out = Vec::new();
    assert!(rt.execute_bytecode(&prog, &mut out).is_ok());
    assert_eq!(out, vec!["-8".to_string()]);
}

#[test]
fn cast_between_unrelated_shapes_fails() {
    let mut rt = Runtime::new();
    let prog = vec![OpCode::Push(Value::Truth(true)), OpCode::Cast(Type::Whole)];
    let mut out = Vec::new();
    let r = rt.execute_bytecode(&prog, &mut out);
    assert!(matches!(r, Err(Error::CastError { .. })));
}

#[test]
fn show_on_empty_stack_underflows() {
    let mut rt = Runtime::new();
    let prog = vec![OpCode::Show];
    let mut out = Vec::new();
    let r = rt.execute_bytecode(&prog, &mut out);
    assert!(matches!(r, Err(Error::StackUnderflow)));
}

#[test]
fn object_construction_is_recognized_but_unimplemented() {
    let mut rt = Runtime::new();
    let prog = vec![OpCode::NewObject("Point".to_string())];
    let mut out = Vec::new();
    let r = rt.execute_bytecode(&prog, &mut out);
    assert!(matches!(r, Err(Error::Unimplemented(_))));
}

#[test]
fn property_access_is_recognized_but_unimplemented() {
    let mut rt = Runtime::new();
    let prog = vec![
        OpCode::Push(Value::Nothing),
        OpCode::GetProperty("x".to_string()),
    ];
    let mut out = Vec::new();
    let r = rt.execute_bytecode(&prog, &mut out);
    assert!(matches!(r, Err(Error::Unimplemented(_))));
}

#[test]
fn return_halts_before_later_instructions() {
    let mut rt = Runtime::new();
    let prog = vec![
        OpCode::Push(Value::Number(num(1_000_000))),
        OpCode::Show,
        OpCode::Return,
        OpCode::Push(Value::Number(num(2_000_000))),
        OpCode::Show,
    ];
    let mut out = Vec::new();
    assert!(rt.execute_bytecode(&prog, &mut out).is_ok());
    assert_eq!(out, vec!["1".to_string()]);
}

#[test]
fn conditional_jump_peeks_without_popping() {
    // The condition value stays on the stack on both paths; the display
    // afterwards sees it.
    let mut rt = Runtime::new();
    let prog = vec![OpCode::Push(Value::Truth(false)), OpCode::JumpIfFalse(2), OpCode::Show];
    let mut out = Vec::new();
    assert!(rt.execute_bytecode(&prog, &mut out).is_ok());
    assert_eq!(out, vec!["false".to_string()]);
}

#[test]
fn convert_to_string_uses_the_canonical_form() {
    let mut rt = Runtime::new();
    let prog = vec![
        OpCode::Push(Value::Nothing),
        OpCode::ConvertToString,
        OpCode::Push(Value::Text("!".to_string())),
        OpCode::Concat,
        OpCode::Show,
    ];
    let mut out = Vec::new();
    assert!(rt.execute_bytecode(&prog, &mut out).is_ok());
    assert_eq!(out, vec!["nothing!".to_string()]);
}

#[test]
fn numbers_render_in_natural_decimal_form() {
    assert_eq!(render_num(&num(3_000_000)), "3".to_string());
    assert_eq!(render_num(&num(3_500_000)), "3.5".to_string());
    assert_eq!(render_num(&num(5_000)), "0.005".to_string());
    assert_eq!(render_num(&num(0)), "0".to_string());
    assert_eq!(render_num(&neg_num(1_250_000)), "-1.25".to_string());
    assert_eq!(render_num(&num(1_000_001)), "1.000001".to_string());
}

#[test]
fn values_render_their_canonical_forms() {
    assert_eq!(render_value(&Value::Text("hi".to_string())), "hi".to_string());
    assert_eq!(render_value(&Value::Truth(true)), "true".to_string());
    assert_eq!(render_value(&Value::Nothing), "nothing".to_string());
}

#[test]
fn saturating_arithmetic_is_exact_within_range() {
    let a = num(2_500_000);
    let b = num(4_000_000);
    assert_eq!(render_num(&a.add(b)), "6.5".to_string());
    assert_eq!(render_num(&a.sub(b)), "-1.5".to_string());
    assert_eq!(render_num(&a.mul(b)), "10".to_string());
    assert_eq!(render_num(&b.div(a)), "1.6".to_string());
}

#[test]
fn division_by_zero_saturates() {
    let a = num(1_000_000);
    let z = num(0);
    let r = a.div(z);
    assert_eq!(render_num(&r), "1000000000000".to_string());
    assert_eq!(render_num(&z.div(z)), "0".to_string());
}

#[test]
fn errors_carry_readable_messages() {
    let e = Error::UndefinedVariable("x".to_string());
    assert_eq!(e.message(), "Undefined variable: x".to_string());
    let e = Error::UnknownFunction("foo".to_string());
    assert_eq!(e.message(), "Unknown function: foo".to_string());
}

#[test]
fn type_marker_binds_to_the_next_store() {
    let mut rt = Runtime::new();
    // The marker records Whole for x before the store runs, so storing a
    // fractional number fails.
    let prog = vec![
        OpCode::Push(Value::Number(num(3_500_000))),
        OpCode::CheckType(Type::Whole),
        OpCode::StoreVar("x".to_string()),
    ];
    let mut out = Vec::new();
    let r = rt.execute_bytecode(&prog, &mut out);
    assert!(matches!(r, Err(Error::TypeMismatch { .. })));
    // The recorded type persists: a later whole-valued store succeeds.
    let prog = vec![
        OpCode::Push(Value::Number(num(3_000_000))),
        OpCode::StoreVar("x".to_string()),
        OpCode::LoadVar("x".to_string()),
        OpCode::Show,
    ];
    let mut out = Vec::new();
    assert!(rt.execute_bytecode(&prog, &mut out).is_ok());
    assert_eq!(out, vec!["3".to_string()]);
}

#[test]
fn next_var_name_scans_forward_to_the_first_store() {
    let rt = Runtime::new();
    let ops = vec![
        OpCode::Push(Value::Nothing),
        OpCode::Pop,
        OpCode::StoreVar("target".to_string()),
        OpCode::StoreVar("other".to_string()),
    ];
    assert_eq!(rt.get_next_var_name(&ops), Some("target".to_string()));
    let ops = vec![OpCode::Push(Value::Nothing), OpCode::Pop];
    assert_eq!(rt.get_next_var_name(&ops), None);
}

#[test]
fn reassignment_check_guards_the_upcoming_store() {
    let mut rt = Runtime::new();
    // Declare x as Whole.
    let prog = vec![
        OpCode::Push(Value::Number(num(1_000_000))),
        OpCode::CheckType(Type::Whole),
        OpCode::StoreVar("x".to_string()),
    ];
    let mut out = Vec::new();
    assert!(rt.execute_bytecode(&prog, &mut out).is_ok());
    // The reassignment check pops the old value, inspects the new one,
    // and rejects a fractional number for the Whole-typed target.
    let prog = vec![
        OpCode::Push(Value::Number(num(3_500_000))),
        OpCode::Push(Value::Number(num(1_000_000))),
        OpCode::CheckAssignmentType,
        OpCode::StoreVar("x".to_string()),
    ];
    let mut out = Vec::new();
    let r = rt.execute_bytecode(&prog, &mut out);
    assert!(matches!(r, Err(Error::TypeMismatch { .. })));
}
