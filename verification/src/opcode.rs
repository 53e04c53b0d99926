//! The bytecode instruction set: a flat, indexable sequence of opcodes
//! whose jump targets are absolute indices resolved once at generation
//! time.

use vstd::prelude::*;
use crate::value::{Value, ValV, Type};

verus! {

/// A bytecode instruction.
#[derive(Debug)]
pub enum OpCode {
    /// Push a constant.
    Push(Value),
    /// Discard the top of the stack, if any.
    Pop,
    /// Push a copy of the top of the stack, if any.
    Duplicate,
    /// Pop a value and write it into the named variable, after the
    /// declared-type check.
    StoreVar(String),
    /// Push a copy of the named variable's current value.
    LoadVar(String),
    Add,
    Subtract,
    Multiply,
    Divide,
    /// Continue at an absolute instruction index.
    Jump(usize),
    /// Continue at an absolute index when the top of the stack is the
    /// truth value false; the condition is inspected, never popped.
    JumpIfFalse(usize),
    /// Pop a value and push its canonical textual form.
    ConvertToString,
    /// Call a named function with a fixed argument count.
    Call(String, usize),
    /// Terminate execution immediately.
    Return,
    NewObject(String),
    GetProperty(String),
    SetProperty(String),
    /// Record the declared type for the next store's target variable.
    CheckType(Type),
    /// Pop a value and cast it to the named type.
    Cast(Type),
    /// Pop two text values and push their concatenation.
    Concat,
    /// Pop N values and push the concatenation of their textual forms in
    /// source order.
    Interpolate(usize),
    /// Check a reassignment against the target's declared type.
    CheckAssignmentType,
    /// Pop a value and print its canonical textual form.
    Show,
}

/// The mathematical model of an instruction.
pub ghost enum OpV {
    Push(ValV),
    Pop,
    Duplicate,
    StoreVar(Seq<char>),
    LoadVar(Seq<char>),
    Add,
    Subtract,
    Multiply,
    Divide,
    Jump(int),
    JumpIfFalse(int),
    ConvertToString,
    Call(Seq<char>, int),
    Return,
    NewObject(Seq<char>),
    GetProperty(Seq<char>),
    SetProperty(Seq<char>),
    CheckType(Type),
    Cast(Type),
    Concat,
    Interpolate(int),
    CheckAssignmentType,
    Show,
}

impl View for OpCode {
    type V = OpV;

    open spec fn view(&self) -> OpV {
        match self {
            OpCode::Push(v) => OpV::Push(v@),
            OpCode::Pop => OpV::Pop,
            OpCode::Duplicate => OpV::Duplicate,
            OpCode::StoreVar(n) => OpV::StoreVar(n@),
            OpCode::LoadVar(n) => OpV::LoadVar(n@),
            OpCode::Add => OpV::Add,
            OpCode::Subtract => OpV::Subtract,
            OpCode::Multiply => OpV::Multiply,
            OpCode::Divide => OpV::Divide,
            OpCode::Jump(t) => OpV::Jump(*t as int),
            OpCode::JumpIfFalse(t) => OpV::JumpIfFalse(*t as int),
            OpCode::ConvertToString => OpV::ConvertToString,
            OpCode::Call(n, c) => OpV::Call(n@, *c as int),
            OpCode::Return => OpV::Return,
            OpCode::NewObject(n) => OpV::NewObject(n@),
            OpCode::GetProperty(n) => OpV::GetProperty(n@),
            OpCode::SetProperty(n) => OpV::SetProperty(n@),
            OpCode::CheckType(t) => OpV::CheckType(*t),
            OpCode::Cast(t) => OpV::Cast(*t),
            OpCode::Concat => OpV::Concat,
            OpCode::Interpolate(c) => OpV::Interpolate(*c as int),
            OpCode::CheckAssignmentType => OpV::CheckAssignmentType,
            OpCode::Show => OpV::Show,
        }
    }
}

impl DeepView for OpCode {
    type V = OpV;

    open spec fn deep_view(&self) -> OpV {
        self.view()
    }
}

} // verus!
