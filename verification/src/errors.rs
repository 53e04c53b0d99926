//! Failure values.  Every stage aborts a fragment on its first error; the
//! taxonomy below is the complete set of failure kinds.

use vstd::prelude::*;
use vstd::string::StringExecFns;
use crate::value::{Type, describe_type};

verus! {

/// Where a runtime type mismatch arose, for diagnostics.
#[derive(Clone, Copy, Debug, PartialEq, Eq, Structural)]
pub enum MismatchWhen {
    /// Storing a value into a typed variable.
    Storing,
    /// Using a value as an arithmetic operand.
    Operand,
    /// Concatenating a non-text value.
    Joining,
}

/// A failure from any stage of the pipeline.
#[derive(Debug)]
pub enum Error {
    /// The tokenizer met text it cannot lex.
    LexError(String),
    /// The parser met a token it did not expect.
    ParseError(String),
    /// The analyzer found a statically ill-typed declaration or assignment.
    TypeError { expected: Type, found: Type },
    /// The generator could not lower the tree.
    GenError(String),
    /// An instruction needed more operands than the stack holds.
    StackUnderflow,
    /// A variable was loaded before it was ever stored.
    UndefinedVariable(String),
    /// A value's runtime type disagreed with a declared or required type.
    TypeMismatch { when: MismatchWhen, expected: Type, found: Type },
    /// A call named a function that is not built in.
    UnknownFunction(String),
    /// A cast between shapes that no cast supports.
    CastError { target: Type },
    /// A recognized operation whose behaviour is unimplemented surface.
    Unimplemented(String),
    /// The executable step budget ran out: a machine limit of the bounded
    /// execution loop, not part of the language's own semantics.
    StepLimit,
}

/// The mathematical model of a failure.
pub ghost enum ErrV {
    Lex(Seq<char>),
    Parse(Seq<char>),
    TypeErr(Type, Type),
    Gen(Seq<char>),
    StackUnderflow,
    UndefinedVariable(Seq<char>),
    TypeMismatch(MismatchWhen, Type, Type),
    UnknownFunction(Seq<char>),
    CastError(Type),
    Unimplemented(Seq<char>),
    StepLimit,
}

impl View for Error {
    type V = ErrV;

    open spec fn view(&self) -> ErrV {
        match self {
            Error::LexError(m) => ErrV::Lex(m@),
            Error::ParseError(m) => ErrV::Parse(m@),
            Error::TypeError { expected, found } => ErrV::TypeErr(*expected, *found),
            Error::GenError(m) => ErrV::Gen(m@),
            Error::StackUnderflow => ErrV::StackUnderflow,
            Error::UndefinedVariable(n) => ErrV::UndefinedVariable(n@),
            Error::TypeMismatch { when, expected, found } => ErrV::TypeMismatch(
                *when,
                *expected,
                *found,
            ),
            Error::UnknownFunction(n) => ErrV::UnknownFunction(n@),
            Error::CastError { target } => ErrV::CastError(*target),
            Error::Unimplemented(op) => ErrV::Unimplemented(op@),
            Error::StepLimit => ErrV::StepLimit,
        }
    }
}

impl DeepView for Error {
    type V = ErrV;

    open spec fn deep_view(&self) -> ErrV {
        self.view()
    }
}

impl Error {
    /// A human-readable description of the failure.
    pub fn message(&self) -> String {
        match self {
            Error::LexError(m) => {
                let mut s = "Lex error: ".to_owned();
                s.append(m.as_str());
                s
            },
            Error::ParseError(m) => {
                let mut s = "Parse error: ".to_owned();
                s.append(m.as_str());
                s
            },
            Error::TypeError { expected, found } => {
                let mut s = "Type error: expected ".to_owned();
                s.append(describe_type(expected).as_str());
                s.append(", found ");
                s.append(describe_type(found).as_str());
                s
            },
            Error::GenError(m) => {
                let mut s = "Generation error: ".to_owned();
                s.append(m.as_str());
                s
            },
            Error::StackUnderflow => "Stack underflow".to_owned(),
            Error::UndefinedVariable(n) => {
                let mut s = "Undefined variable: ".to_owned();
                s.append(n.as_str());
                s
            },
            Error::TypeMismatch { when, expected, found } => {
                let mut s = match when {
                    MismatchWhen::Storing => "Type mismatch: cannot assign ".to_owned(),
                    MismatchWhen::Operand => "Type mismatch: cannot operate on ".to_owned(),
                    MismatchWhen::Joining => "Type mismatch: cannot concatenate ".to_owned(),
                };
                s.append(describe_type(found).as_str());
                match when {
                    MismatchWhen::Storing => s.append(" to variable of type "),
                    MismatchWhen::Operand => s.append(" where "),
                    MismatchWhen::Joining => s.append(" with "),
                }
                s.append(describe_type(expected).as_str());
                s
            },
            Error::UnknownFunction(n) => {
                let mut s = "Unknown function: ".to_owned();
                s.append(n.as_str());
                s
            },
            Error::CastError { target } => {
                let mut s = "Cannot cast to ".to_owned();
                s.append(describe_type(target).as_str());
                s
            },
            Error::StepLimit => "Execution step budget exhausted".to_owned(),
            Error::Unimplemented(op) => {
                let mut s = op.clone();
                s.append(" not implemented yet");
                s
            },
        }
    }
}

} // verus!
