//! The virtual machine and the session object.
//!
//! A `Runtime` owns the persistent variable environment and the parallel
//! declared-type mapping.  `execute_bytecode` runs a flat opcode sequence
//! against an operand stack, and is proved to follow the small-step
//! semantics given by `step`: the executable loop halts exactly when some
//! number of specification steps halts, with the same environment, output
//! and failure.

use vstd::prelude::*;
use crate::num::{SCALE, MAX_MAG, clip, tdiv};
use crate::value::{Value, ValV, Type, runtime_type_of, runtime_type, type_eq, type_dup,
    display_of, render_value};
use crate::errors::{Error, ErrV, MismatchWhen};
use crate::env::StrMap;
use crate::opcode::{OpCode, OpV};
use crate::ast::{BinOp, Stmt};
use crate::strings::{push_char, str_eq};
use crate::token::Token;
use crate::tokenizer::Tokenizer;
use crate::parser::Parser;
use crate::analyzer::Analyzer;
use crate::generator::BytecodeGenerator;

verus! {

/// The full state of one specification-level execution.
pub ghost struct VmState {
    pub stack: Seq<ValV>,
    pub vars: Map<Seq<char>, ValV>,
    pub types: Map<Seq<char>, Type>,
    pub out: Seq<Seq<char>>,
    pub ip: int,
}

/// The outcome of one specification step.
pub ghost enum StepOut {
    /// Execution continues in the new state.
    Next(VmState),
    /// Execution terminates without failure.
    Halt(VmState),
    /// Execution aborts with a failure.
    Fail(ErrV, VmState),
}

/// The outcome of a bounded number of specification steps.
pub ghost enum RunOut {
    Running(VmState),
    Halted(VmState, Option<ErrV>),
}

/// The state at the start of a fragment's execution.
pub open spec fn init_state(vars: Map<Seq<char>, ValV>, types: Map<Seq<char>, Type>) -> VmState {
    VmState { stack: Seq::empty(), vars, types, out: Seq::empty(), ip: 0 }
}

/// A state with a new stack, advanced to the next instruction.
pub open spec fn adv(st: VmState, stack: Seq<ValV>) -> VmState {
    VmState { stack, vars: st.vars, types: st.types, out: st.out, ip: st.ip + 1 }
}

/// A state with a new stack and variable environment, advanced.
pub open spec fn adv_vars(st: VmState, stack: Seq<ValV>, vars: Map<Seq<char>, ValV>) -> VmState {
    VmState { stack, vars, types: st.types, out: st.out, ip: st.ip + 1 }
}

/// A state with a new stack and type mapping, advanced.
pub open spec fn adv_types(st: VmState, types: Map<Seq<char>, Type>) -> VmState {
    VmState { stack: st.stack, vars: st.vars, types, out: st.out, ip: st.ip + 1 }
}

/// A state with a new stack and an output line appended, advanced.
pub open spec fn adv_out(st: VmState, stack: Seq<ValV>, line: Seq<char>) -> VmState {
    VmState { stack, vars: st.vars, types: st.types, out: st.out.push(line), ip: st.ip + 1 }
}

/// A state continuing at an absolute jump target.
pub open spec fn jumped(st: VmState, target: int) -> VmState {
    VmState { stack: st.stack, vars: st.vars, types: st.types, out: st.out, ip: target }
}

/// A state whose stack changed where execution then aborts.
pub open spec fn failing(st: VmState, stack: Seq<ValV>) -> VmState {
    VmState { stack, vars: st.vars, types: st.types, out: st.out, ip: st.ip }
}

/// Trimming only shortens a line: every kept character is the original.
proof fn lemma_trim_prefix(s: Seq<char>)
    ensures
        trim_end_spec(s).len() <= s.len(),
        forall|j: int| 0 <= j < trim_end_spec(s).len() ==> trim_end_spec(s)[j] == s[j],
    decreases s.len(),
{
    if s.len() > 0 && is_trail_ws(s.last()) {
        lemma_trim_prefix(s.drop_last());
        assert forall|j: int| 0 <= j < trim_end_spec(s).len() implies trim_end_spec(s)[j]
            == s[j] by {
            assert(trim_end_spec(s) == trim_end_spec(s.drop_last()));
            assert(trim_end_spec(s.drop_last())[j] == s.drop_last()[j]);
            assert(s.drop_last()[j] == s[j]);
        }
    }
}

/// Preprocessing blank text yields blank text: joining adds only spaces
/// and line breaks, and a blank line cannot end in a backslash.
proof fn lemma_preprocess_blank(s: Seq<char>)
    requires
        forall|q: int| 0 <= q < s.len() ==> crate::tokenizer::is_blank(#[trigger] s[q]),
    ensures
        forall|q: int|
            0 <= q < preprocess_spec(s).len() ==> crate::tokenizer::is_blank(
                #[trigger] preprocess_spec(s)[q],
            ),
    decreases s.len(),
{
    if s.len() > 0 {
        let jb = line_break(s, 0);
        let j = if jb < 0 {
            0
        } else if jb > s.len() {
            s.len() as int
        } else {
            jb
        };
        let line = trim_end_spec(s.subrange(0, j));
        lemma_trim_prefix(s.subrange(0, j));
        assert forall|q: int| 0 <= q < line.len() implies crate::tokenizer::is_blank(
            #[trigger] line[q],
        ) by {
            assert(line[q] == s.subrange(0, j)[q]);
            assert(s.subrange(0, j)[q] == s[q]);
        }
        assert(!(line.len() > 0 && line.last() == '\\'));
        if j < s.len() - 1 {
            assert forall|q: int| 0 <= q < s.subrange(j + 1, s.len() as int).len()
                implies crate::tokenizer::is_blank(
                #[trigger] s.subrange(j + 1, s.len() as int)[q],
            ) by {
                assert(s.subrange(j + 1, s.len() as int)[q] == s[j + 1 + q]);
            }
            lemma_preprocess_blank(s.subrange(j + 1, s.len() as int));
            assert forall|q: int| 0 <= q < preprocess_spec(s).len()
                implies crate::tokenizer::is_blank(#[trigger] preprocess_spec(s)[q]) by {
                let rest = preprocess_spec(s.subrange(j + 1, s.len() as int));
                if q < line.len() {
                    assert(preprocess_spec(s)[q] == line[q]);
                } else if q == line.len() {
                    assert(preprocess_spec(s)[q] == '\n');
                } else {
                    assert(preprocess_spec(s)[q] == rest[q - line.len() - 1]);
                }
            }
        } else {
            assert(preprocess_spec(s) == line);
            assert forall|q: int| 0 <= q < preprocess_spec(s).len()
                implies crate::tokenizer::is_blank(#[trigger] preprocess_spec(s)[q]) by {
                assert(preprocess_spec(s)[q] == line[q]);
            }
        }
    }
}

/// The target variable of the next store instruction at or after `i`.
pub open spec fn next_store_name(prog: Seq<OpV>, i: int) -> Option<Seq<char>>
    decreases (if i < prog.len() { prog.len() - i } else { 0int }),
{
    if i < 0 || i >= prog.len() {
        None
    } else {
        match prog[i] {
            OpV::StoreVar(n) => Some(n),
            _ => next_store_name(prog, i + 1),
        }
    }
}

/// The scaled result of one arithmetic instruction on scaled operands.
pub open spec fn arith_result(op: BinOp, x: int, y: int) -> int {
    match op {
        BinOp::Add => clip(x + y),
        BinOp::Subtract => clip(x - y),
        BinOp::Multiply => clip(tdiv(x * y, SCALE as int)),
        BinOp::Divide => if y != 0 {
            clip(tdiv(x * SCALE as int, y))
        } else if x == 0 {
            0
        } else if x > 0 {
            MAX_MAG as int
        } else {
            -(MAX_MAG as int)
        },
    }
}

/// The arithmetic operator an opcode denotes, if any.
pub open spec fn arith_op_of(op: OpV) -> Option<BinOp> {
    match op {
        OpV::Add => Some(BinOp::Add),
        OpV::Subtract => Some(BinOp::Subtract),
        OpV::Multiply => Some(BinOp::Multiply),
        OpV::Divide => Some(BinOp::Divide),
        _ => None,
    }
}

/// The concatenation of the canonical textual forms of a value sequence,
/// in order.
pub open spec fn join_displays(vs: Seq<ValV>) -> Seq<char>
    decreases vs.len(),
{
    if vs.len() == 0 {
        Seq::empty()
    } else {
        join_displays(vs.drop_last()) + display_of(vs.last())
    }
}

/// The type-mismatch failure for an arithmetic instruction: the first
/// non-numeric operand is named.
pub open spec fn operand_mismatch(a: ValV, b: ValV) -> ErrV {
    ErrV::TypeMismatch(
        MismatchWhen::Operand,
        Type::Decimal,
        if !(a is Number) {
            runtime_type_of(a)
        } else {
            runtime_type_of(b)
        },
    )
}

/// The type-mismatch failure for concatenation: the first non-text
/// operand is named.
pub open spec fn joining_mismatch(a: ValV, b: ValV) -> ErrV {
    ErrV::TypeMismatch(
        MismatchWhen::Joining,
        Type::Text,
        if !(a is Text) {
            runtime_type_of(a)
        } else {
            runtime_type_of(b)
        },
    )
}

/// One step of the virtual machine at `st.ip`.
pub open spec fn step(prog: Seq<OpV>, st: VmState) -> StepOut
    recommends
        0 <= st.ip < prog.len(),
{
    let len = st.stack.len() as int;
    match prog[st.ip] {
        OpV::Push(v) => StepOut::Next(adv(st, st.stack.push(v))),
        OpV::Pop => StepOut::Next(
            adv(
                st,
                if len > 0 {
                    st.stack.drop_last()
                } else {
                    st.stack
                },
            ),
        ),
        OpV::Duplicate => StepOut::Next(
            adv(
                st,
                if len > 0 {
                    st.stack.push(st.stack.last())
                } else {
                    st.stack
                },
            ),
        ),
        OpV::StoreVar(name) => if len == 0 {
            StepOut::Fail(ErrV::StackUnderflow, st)
        } else {
            let v = st.stack.last();
            let rest = st.stack.drop_last();
            if st.types.contains_key(name) && !(v is Nothing) {
                let rt = runtime_type_of(v);
                if rt == st.types[name] {
                    StepOut::Next(adv_vars(st, rest, st.vars.insert(name, v)))
                } else {
                    StepOut::Fail(
                        ErrV::TypeMismatch(MismatchWhen::Storing, st.types[name], rt),
                        failing(st, rest),
                    )
                }
            } else {
                StepOut::Next(adv_vars(st, rest, st.vars.insert(name, v)))
            }
        },
        OpV::LoadVar(name) => if st.vars.contains_key(name) {
            StepOut::Next(adv(st, st.stack.push(st.vars[name])))
        } else {
            StepOut::Fail(ErrV::UndefinedVariable(name), st)
        },
        OpV::Add | OpV::Subtract | OpV::Multiply | OpV::Divide => if len < 2 {
            StepOut::Fail(
                ErrV::StackUnderflow,
                failing(
                    st,
                    if len > 0 {
                        st.stack.drop_last()
                    } else {
                        st.stack
                    },
                ),
            )
        } else {
            let b = st.stack.last();
            let a = st.stack[len - 2];
            let rest = st.stack.drop_last().drop_last();
            match (a, b) {
                (ValV::Number(x), ValV::Number(y)) => StepOut::Next(
                    adv(
                        st,
                        rest.push(
                            ValV::Number(arith_result(arith_op_of(prog[st.ip]).unwrap(), x, y)),
                        ),
                    ),
                ),
                _ => StepOut::Fail(operand_mismatch(a, b), failing(st, rest)),
            }
        },
        OpV::Jump(t) => StepOut::Next(jumped(st, t)),
        OpV::JumpIfFalse(t) => if len > 0 && st.stack.last() == ValV::Truth(false) {
            StepOut::Next(jumped(st, t))
        } else {
            StepOut::Next(adv(st, st.stack))
        },
        OpV::ConvertToString => if len == 0 {
            StepOut::Fail(ErrV::StackUnderflow, st)
        } else {
            StepOut::Next(
                adv(st, st.stack.drop_last().push(ValV::Text(display_of(st.stack.last())))),
            )
        },
        OpV::Call(name, argc) => {
            let m = if argc <= len {
                argc
            } else {
                len
            };
            let args = st.stack.subrange(len - m, len);
            let rest = st.stack.subrange(0, len - m);
            if name == "show"@ {
                if m > 0 {
                    StepOut::Next(adv_out(st, rest.push(ValV::Nothing), display_of(args[0])))
                } else {
                    StepOut::Next(adv(st, rest.push(ValV::Nothing)))
                }
            } else {
                StepOut::Fail(ErrV::UnknownFunction(name), failing(st, rest))
            }
        },
        OpV::Return => StepOut::Halt(st),
        OpV::NewObject(_) => StepOut::Fail(ErrV::Unimplemented("Object creation"@), st),
        OpV::GetProperty(_) => StepOut::Fail(ErrV::Unimplemented("Property access"@), st),
        OpV::SetProperty(_) => StepOut::Fail(ErrV::Unimplemented("Property setting"@), st),
        OpV::CheckType(t) => match next_store_name(prog, st.ip + 1) {
            Some(n) => StepOut::Next(adv_types(st, st.types.insert(n, t))),
            None => StepOut::Next(adv(st, st.stack)),
        },
        OpV::Cast(t) => if len == 0 {
            StepOut::Next(adv(st, st.stack))
        } else {
            let v = st.stack.last();
            let rest = st.stack.drop_last();
            match (v, t) {
                (ValV::Number(x), Type::Whole) => StepOut::Next(
                    adv(st, rest.push(ValV::Number(SCALE as int * (x / (SCALE as int))))),
                ),
                (ValV::Number(x), Type::Decimal) => StepOut::Next(
                    adv(st, rest.push(ValV::Number(x))),
                ),
                (ValV::Text(s), Type::Text) => StepOut::Next(adv(st, rest.push(ValV::Text(s)))),
                (ValV::Truth(b), Type::Truth) => StepOut::Next(adv(st, rest.push(ValV::Truth(b)))),
                _ => StepOut::Fail(ErrV::CastError(t), failing(st, rest)),
            }
        },
        OpV::Concat => if len < 2 {
            StepOut::Fail(
                ErrV::StackUnderflow,
                failing(
                    st,
                    if len > 0 {
                        st.stack.drop_last()
                    } else {
                        st.stack
                    },
                ),
            )
        } else {
            let b = st.stack.last();
            let a = st.stack[len - 2];
            let rest = st.stack.drop_last().drop_last();
            match (a, b) {
                (ValV::Text(s1), ValV::Text(s2)) => StepOut::Next(
                    adv(st, rest.push(ValV::Text(s1 + s2))),
                ),
                _ => StepOut::Fail(joining_mismatch(a, b), failing(st, rest)),
            }
        },
        OpV::Interpolate(cnt) => {
            let m = if cnt <= len {
                cnt
            } else {
                len
            };
            let parts = st.stack.subrange(len - m, len);
            let rest = st.stack.subrange(0, len - m);
            StepOut::Next(adv(st, rest.push(ValV::Text(join_displays(parts)))))
        },
        OpV::CheckAssignmentType => if len == 0 {
            StepOut::Fail(ErrV::StackUnderflow, st)
        } else {
            let rest = st.stack.drop_last();
            if rest.len() == 0 {
                StepOut::Fail(ErrV::StackUnderflow, failing(st, rest))
            } else {
                let nv = rest.last();
                match next_store_name(prog, st.ip + 1) {
                    Some(n) => if st.types.contains_key(n) {
                        let rt = runtime_type_of(nv);
                        if rt == st.types[n] {
                            StepOut::Next(adv(st, rest))
                        } else {
                            StepOut::Fail(
                                ErrV::TypeMismatch(MismatchWhen::Storing, st.types[n], rt),
                                failing(st, rest),
                            )
                        }
                    } else {
                        StepOut::Next(adv(st, rest))
                    },
                    None => StepOut::Next(adv(st, rest)),
                }
            }
        },
        OpV::Show => if len == 0 {
            StepOut::Fail(ErrV::StackUnderflow, st)
        } else {
            StepOut::Next(adv_out(st, st.stack.drop_last(), display_of(st.stack.last())))
        },
    }
}

/// `n` specification steps from `st`, halting at the end of the program,
/// at a `Return`, or at a failure.
pub open spec fn run_n(prog: Seq<OpV>, st: VmState, n: nat) -> RunOut
    decreases n,
{
    if n == 0 {
        RunOut::Running(st)
    } else {
        match run_n(prog, st, (n - 1) as nat) {
            RunOut::Running(s) => if !(0 <= s.ip < prog.len()) {
                RunOut::Halted(s, None)
            } else {
                match step(prog, s) {
                    StepOut::Next(s2) => RunOut::Running(s2),
                    StepOut::Halt(s2) => RunOut::Halted(s2, None),
                    StepOut::Fail(e, s2) => RunOut::Halted(s2, Some(e)),
                }
            },
            h => h,
        }
    }
}

/// Whether some number of steps from `init` halts in state `fs` with
/// outcome `e`.
pub open spec fn runs_to(prog: Seq<OpV>, init: VmState, fs: VmState, e: Option<ErrV>) -> bool {
    exists|k: nat| run_n(prog, init, k) == RunOut::Halted(fs, e)
}

/// Steps the executable loop is willing to take for one fragment: a
/// machine limit of the bounded loop, not part of the language's own
/// semantics.
pub const STEP_BUDGET: u64 = 18_446_744_073_709_551_615;

/// Whether the whole step budget leaves the machine still running, in
/// state `fs`.  For every program that halts within the budget this is
/// false, so a step-budget failure cannot stand in for a real outcome.
pub open spec fn budget_exhausted(prog: Seq<OpV>, init: VmState, fs: VmState) -> bool {
    run_n(prog, init, STEP_BUDGET as nat) == RunOut::Running(fs)
}

/// Whether some number of steps from `init` halts without failure, in a
/// state with exactly the given environment, type mapping and output.
pub open spec fn halts_clean(
    prog: Seq<OpV>,
    init: VmState,
    vars: Map<Seq<char>, ValV>,
    types: Map<Seq<char>, Type>,
    out: Seq<Seq<char>>,
) -> bool {
    exists|fs: VmState|
        #[trigger] runs_to(prog, init, fs, None::<ErrV>) && vars == fs.vars && types == fs.types
            && out == fs.out
}

/// Whether some number of steps from `init` halts with the given failure,
/// in a state with exactly the given environment, type mapping and output.
pub open spec fn halts_failing(
    prog: Seq<OpV>,
    init: VmState,
    e: ErrV,
    vars: Map<Seq<char>, ValV>,
    types: Map<Seq<char>, Type>,
    out: Seq<Seq<char>>,
) -> bool {
    exists|fs: VmState|
        #[trigger] runs_to(prog, init, fs, Some(e)) && vars == fs.vars && types == fs.types
            && out == fs.out
}

/// Whether the whole step budget leaves the machine still running, in a
/// state with exactly the given environment, type mapping and output.
pub open spec fn still_running(
    prog: Seq<OpV>,
    init: VmState,
    vars: Map<Seq<char>, ValV>,
    types: Map<Seq<char>, Type>,
    out: Seq<Seq<char>>,
) -> bool {
    exists|fs: VmState|
        #[trigger] budget_exhausted(prog, init, fs) && vars == fs.vars && types == fs.types && out
            == fs.out
}



/// The models of a sequence of instructions.
pub open spec fn ops_view(ops: Seq<OpCode>) -> Seq<OpV> {
    Seq::new(ops.len(), |i: int| ops[i]@)
}

/// The models of a sequence of values.
pub open spec fn vals_view(s: Seq<Value>) -> Seq<ValV> {
    Seq::new(s.len(), |i: int| s[i]@)
}

/// The models of a sequence of output lines.
pub open spec fn lines_view(s: Seq<String>) -> Seq<Seq<char>> {
    Seq::new(s.len(), |i: int| s[i]@)
}

/// A character that counts as trailing whitespace on a physical line:
/// the Unicode white-space characters.
pub open spec fn is_trail_ws(c: char) -> bool {
    ||| c == '\u{0009}'
    ||| c == '\u{000A}'
    ||| c == '\u{000B}'
    ||| c == '\u{000C}'
    ||| c == '\u{000D}'
    ||| c == ' '
    ||| c == '\u{0085}'
    ||| c == '\u{00A0}'
    ||| c == '\u{1680}'
    ||| ('\u{2000}' <= c && c <= '\u{200A}')
    ||| c == '\u{2028}'
    ||| c == '\u{2029}'
    ||| c == '\u{202F}'
    ||| c == '\u{205F}'
    ||| c == '\u{3000}'
}

/// A line with its trailing whitespace removed.
pub open spec fn trim_end_spec(s: Seq<char>) -> Seq<char>
    decreases s.len(),
{
    if s.len() == 0 {
        s
    } else if is_trail_ws(s.last()) {
        trim_end_spec(s.drop_last())
    } else {
        s
    }
}

/// The index of the first line break at or after `i`, or the length.
pub open spec fn line_break(s: Seq<char>, i: int) -> int
    decreases (if i < s.len() { s.len() - i } else { 0int }),
{
    if i < 0 || i >= s.len() {
        s.len() as int
    } else if s[i] == '\n' {
        i
    } else {
        line_break(s, i + 1)
    }
}

/// The preprocessed form of a fragment: a physical line whose trimmed
/// form ends in a backslash loses the backslash and is joined to the next
/// line by a single space; every other line keeps its line break, omitted
/// after the final line.
pub open spec fn preprocess_spec(s: Seq<char>) -> Seq<char>
    decreases s.len(),
{
    if s.len() == 0 {
        Seq::empty()
    } else {
        let jb = line_break(s, 0);
        let j = if jb < 0 {
            0
        } else if jb > s.len() {
            s.len() as int
        } else {
            jb
        };
        let line = trim_end_spec(s.subrange(0, j));
        if line.len() > 0 && line.last() == '\\' {
            if j >= s.len() {
                line.drop_last() + seq![' ']
            } else {
                line.drop_last() + seq![' '] + preprocess_spec(s.subrange(j + 1, s.len() as int))
            }
        } else if j >= s.len() - 1 {
            line
        } else {
            line + seq!['\n'] + preprocess_spec(s.subrange(j + 1, s.len() as int))
        }
    }
}

proof fn lemma_line_break_at(s: Seq<char>, i: int, k: int)
    requires
        0 <= i <= k <= s.len(),
        forall|q: int| i <= q < k ==> s[q] != '\n',
        k == s.len() || s[k] == '\n',
    ensures
        line_break(s, i) == k,
    decreases k - i,
{
    if i < k {
        lemma_line_break_at(s, i + 1, k);
    }
}

/// The target variable of the next store instruction in `upcoming_ops`.
fn next_store_from(bytecode: &Vec<OpCode>, start: usize) -> (r: Option<String>)
    ensures
        match r {
            Some(s) => next_store_name(ops_view(bytecode@), start as int) == Some(s@),
            None => next_store_name(ops_view(bytecode@), start as int) is None,
        },
{
    let ghost prog = ops_view(bytecode@);
    let n = bytecode.len();
    let mut i: usize = start;
    while i < n
        invariant
            n == bytecode@.len(),
            prog == ops_view(bytecode@),
            start <= i,
            next_store_name(prog, start as int) == next_store_name(prog, i as int),
        decreases n - i,
    {
        match &bytecode[i] {
            OpCode::StoreVar(nm) => {
                return Some(nm.clone());
            },
            _ => {
                proof {
                    assert(next_store_name(prog, i as int) == next_store_name(prog, i as int + 1));
                }
            },
        }
        i = i + 1;
    }
    None
}

/// Pushing one line onto the output vector appends its characters to the
/// output model.
proof fn lemma_lines_push(prev: Seq<String>, cur: Seq<String>, line: Seq<char>, base: Seq<Seq<char>>, outs: Seq<Seq<char>>)
    requires
        lines_view(prev) == base + outs,
        cur.len() == prev.len() + 1,
        forall|i: int| 0 <= i < prev.len() ==> cur[i] == prev[i],
        cur[cur.len() - 1]@ == line,
    ensures
        lines_view(cur) =~= base + outs.push(line),
{
    assert(lines_view(prev).len() == prev.len());
    assert(prev.len() == base.len() + outs.len());
    assert forall|i: int| 0 <= i < cur.len() implies lines_view(cur)[i] == (base + outs.push(
        line,
    ))[i] by {
        if i < prev.len() {
            assert(lines_view(prev)[i] == (base + outs)[i]);
            assert(lines_view(cur)[i] == cur[i]@);
            assert(cur[i]@ == prev[i]@);
            if i >= base.len() {
                assert((base + outs.push(line))[i] == outs.push(line)[i - base.len()]);
                assert(outs.push(line)[i - base.len()] == outs[i - base.len()]);
                assert((base + outs)[i] == outs[i - base.len()]);
            } else {
                assert((base + outs.push(line))[i] == base[i]);
                assert((base + outs)[i] == base[i]);
            }
        } else {
            assert(lines_view(cur)[i] == cur[i]@);
            assert((base + outs.push(line))[i] == line);
        }
    }
}

/// The outcome of one fragment: a compilation-stage failure leaves the
/// environment untouched; an executed fragment carries the full token,
/// tree and opcode trace, the display output, and any runtime failure.
pub enum FragmentOutcome {
    CompileFailed(Error),
    Executed {
        tokens: Vec<Token>,
        ast: Vec<Stmt>,
        bytecode: Vec<OpCode>,
        output: Vec<String>,
        error: Option<Error>,
    },
}

/// The session object: the tokenizer instance reused across fragments, the
/// persistent variable environment, and the declared-type mapping.
pub struct Runtime {
    tokenizer: Tokenizer,
    variables: StrMap<Value>,
    variable_types: StrMap<Type>,
}

impl Runtime {
    /// Well-formedness of the session's environments.
    pub closed spec fn wf(self) -> bool {
        self.variables.wf() && self.variable_types.wf()
    }

    /// The variable environment's model.
    pub closed spec fn env(self) -> Map<Seq<char>, ValV> {
        self.variables@
    }

    /// The declared-type mapping's model.
    pub closed spec fn types_map(self) -> Map<Seq<char>, Type> {
        self.variable_types@
    }

    /// The characters the session's tokenizer is loaded with.
    pub closed spec fn loaded_source(self) -> Seq<char> {
        self.tokenizer.src()
    }

    /// A fresh session with an empty environment.
    pub fn new() -> (r: Runtime)
        ensures
            r.wf(),
            r.env() == Map::<Seq<char>, ValV>::empty(),
            r.types_map() == Map::<Seq<char>, Type>::empty(),
    {
        Runtime {
            tokenizer: Tokenizer::new(""),
            variables: StrMap::new(),
            variable_types: StrMap::new(),
        }
    }

    /// The target variable of the next store instruction among the given
    /// upcoming instructions.
    pub fn get_next_var_name(&self, upcoming_ops: &[OpCode]) -> (r: Option<String>)
        ensures
            match r {
                Some(s) => next_store_name(ops_view(upcoming_ops@), 0) == Some(s@),
                None => next_store_name(ops_view(upcoming_ops@), 0) is None,
            },
    {
        let ghost prog = ops_view(upcoming_ops@);
        let n = upcoming_ops.len();
        let mut i: usize = 0;
        while i < n
            invariant
                n == upcoming_ops@.len(),
                prog == ops_view(upcoming_ops@),
                i <= n,
                next_store_name(prog, 0) == next_store_name(prog, i as int),
            decreases n - i,
        {
            match vstd::slice::slice_index_get(upcoming_ops, i) {
                OpCode::StoreVar(nm) => {
                    return Some(nm.clone());
                },
                _ => {
                    proof {
                        assert(next_store_name(prog, i as int) == next_store_name(
                            prog,
                            i as int + 1,
                        ));
                    }
                },
            }
            i = i + 1;
        }
        None
    }

    /// Apply one arithmetic operator: both operands must be numbers.
    pub fn binary_op(&self, a: Value, b: Value, op: BinOp) -> (r: Result<Value, Error>)
        ensures
            match (a@, b@) {
                (ValV::Number(x), ValV::Number(y)) => r matches Ok(v) && v@ == ValV::Number(
                    arith_result(op, x, y),
                ),
                _ => r matches Err(e) && e@ == operand_mismatch(a@, b@),
            },
    {
        match (a, b) {
            (Value::Number(x), Value::Number(y)) => {
                let res = match op {
                    BinOp::Add => x.add(y),
                    BinOp::Subtract => x.sub(y),
                    BinOp::Multiply => x.mul(y),
                    BinOp::Divide => x.div(y),
                };
                Ok(Value::Number(res))
            },
            (av, bv) => {
                let found = if !(matches!(av, Value::Number(_))) {
                    runtime_type(&av)
                } else {
                    runtime_type(&bv)
                };
                Err(Error::TypeMismatch { when: MismatchWhen::Operand, expected: Type::Decimal, found })
            },
        }
    }

    /// Concatenate two values: both must be text, with no implicit
    /// stringification.
    pub fn concat_values(&self, a: Value, b: Value) -> (r: Result<Value, Error>)
        ensures
            match (a@, b@) {
                (ValV::Text(s1), ValV::Text(s2)) => r matches Ok(v) && v@ == ValV::Text(s1 + s2),
                _ => r matches Err(e) && e@ == joining_mismatch(a@, b@),
            },
    {
        match (a, b) {
            (Value::Text(s1), Value::Text(s2)) => Ok(Value::Text(s1.concat(s2.as_str()))),
            (av, bv) => {
                let found = if !(matches!(av, Value::Text(_))) {
                    runtime_type(&av)
                } else {
                    runtime_type(&bv)
                };
                Err(Error::TypeMismatch { when: MismatchWhen::Joining, expected: Type::Text, found })
            },
        }
    }

    /// Execute a bytecode sequence to completion against the session's
    /// persistent environment, appending each displayed line to `out`.
    /// The result, the final environment, the final type mapping and the
    /// output are exactly those in which some number of specification
    /// steps halts; on failure the environment keeps every effect of the
    /// instructions already executed.
    #[verifier::rlimit(100)]
    pub fn execute_bytecode(&mut self, bytecode: &Vec<OpCode>, out: &mut Vec<String>) -> (r:
        Result<(), Error>)
        requires
            old(self).wf(),
        ensures
            final(self).wf(),
            final(self).loaded_source() == old(self).loaded_source(),
            ({
                let prog = ops_view(bytecode@);
                let init = init_state(old(self).env(), old(self).types_map());
                &&& (r is Ok ==> exists|fs: VmState|
                    {
                        &&& #[trigger] runs_to(prog, init, fs, None::<ErrV>)
                        &&& final(self).env() == fs.vars
                        &&& final(self).types_map() == fs.types
                        &&& lines_view(final(out)@) == lines_view(old(out)@) + fs.out
                    })
                &&& (r matches Err(e) ==> (exists|fs: VmState|
                    {
                        &&& #[trigger] runs_to(prog, init, fs, Some(e@))
                        &&& final(self).env() == fs.vars
                        &&& final(self).types_map() == fs.types
                        &&& lines_view(final(out)@) == lines_view(old(out)@) + fs.out
                    }) || (e@ == ErrV::StepLimit && exists|fs: VmState|
                    {
                        &&& #[trigger] budget_exhausted(prog, init, fs)
                        &&& final(self).env() == fs.vars
                        &&& final(self).types_map() == fs.types
                        &&& lines_view(final(out)@) == lines_view(old(out)@) + fs.out
                    }))
            }),
    {
        let ghost prog = ops_view(bytecode@);
        let ghost init = init_state(old(self).env(), old(self).types_map());
        let ghost outbase = lines_view(old(out)@);
        let mut stack: Vec<Value> = Vec::new();
        let mut ip: usize = 0;
        let mut budget: u64 = STEP_BUDGET;
        let ghost mut n: nat = 0;
        let ghost mut gst = init;
        proof {
            assert(vals_view(stack@) =~= init.stack);
            assert(lines_view(out@) =~= outbase + init.out);
        }
        while ip < bytecode.len() && budget > 0
            invariant
                self.wf(),
                self.loaded_source() == old(self).loaded_source(),
                prog == ops_view(bytecode@),
                init == init_state(old(self).env(), old(self).types_map()),
                outbase == lines_view(old(out)@),
                run_n(prog, init, n) == RunOut::Running(gst),
                n == STEP_BUDGET - budget,
                gst.ip == ip as int,
                gst.stack == vals_view(stack@),
                gst.vars == self.env(),
                gst.types == self.types_map(),
                lines_view(out@) == outbase + gst.out,
            decreases budget,
        {
            budget = budget - 1;
            proof {
                assert(prog[ip as int] == bytecode@[ip as int]@);
            }
            match &bytecode[ip] {
                OpCode::Push(v) => {
                    let d = v.duplicate();
                    stack.push(d);
                    proof {
                        let s2 = adv(gst, gst.stack.push(v@));
                        assert(step(prog, gst) == StepOut::Next(s2));
                        assert(vals_view(stack@) =~= s2.stack);
                        assert(run_n(prog, init, (n + 1) as nat) == RunOut::Running(s2));
                        gst = s2;
                        n = (n + 1) as nat;
                    }
                    ip = ip + 1;
                },
                OpCode::Pop => {
                    let _discard = stack.pop();
                    proof {
                        let s2 = adv(
                            gst,
                            if gst.stack.len() as int > 0 {
                                gst.stack.drop_last()
                            } else {
                                gst.stack
                            },
                        );
                        assert(step(prog, gst) == StepOut::Next(s2));
                        assert(vals_view(stack@) =~= s2.stack);
                        assert(run_n(prog, init, (n + 1) as nat) == RunOut::Running(s2));
                        gst = s2;
                        n = (n + 1) as nat;
                    }
                    ip = ip + 1;
                },
                OpCode::Duplicate => {
                    if stack.len() > 0 {
                        let d = stack[stack.len() - 1].duplicate();
                        stack.push(d);
                    }
                    proof {
                        let s2 = adv(
                            gst,
                            if gst.stack.len() as int > 0 {
                                gst.stack.push(gst.stack.last())
                            } else {
                                gst.stack
                            },
                        );
                        assert(step(prog, gst) == StepOut::Next(s2));
                        assert(vals_view(stack@) =~= s2.stack);
                        assert(run_n(prog, init, (n + 1) as nat) == RunOut::Running(s2));
                        gst = s2;
                        n = (n + 1) as nat;
                    }
                    ip = ip + 1;
                },
                OpCode::StoreVar(name) => {
                    match stack.pop() {
                        None => {
                            proof {
                                assert(step(prog, gst) == StepOut::Fail(ErrV::StackUnderflow, gst));
                                assert(run_n(prog, init, (n + 1) as nat) == RunOut::Halted(
                                    gst,
                                    Some(ErrV::StackUnderflow),
                                ));
                                assert(runs_to(prog, init, gst, Some(ErrV::StackUnderflow)));
                            }
                            return Err(Error::StackUnderflow);
                        },
                        Some(v) => {
                            let ghost vv = v@;
                            let ghost rest = gst.stack.drop_last();
                            proof {
                                assert(vals_view(stack@) =~= rest);
                                assert(vv == gst.stack.last());
                            }
                            let declared = match self.variable_types.get(name.as_str()) {
                                Some(t) => Some(type_dup(t)),
                                None => None,
                            };
                            match declared {
                                Some(dt) => {
                                    if !(matches!(v, Value::Nothing)) {
                                        let rt = runtime_type(&v);
                                        if !type_eq(&dt, &rt) {
                                            proof {
                                                let ev = ErrV::TypeMismatch(
                                                    MismatchWhen::Storing,
                                                    gst.types[name@],
                                                    runtime_type_of(vv),
                                                );
                                                let s2 = failing(gst, rest);
                                                assert(step(prog, gst) == StepOut::Fail(ev, s2));
                                                assert(run_n(prog, init, (n + 1) as nat)
                                                    == RunOut::Halted(s2, Some(ev)));
                                                assert(runs_to(prog, init, s2, Some(ev)));
                                            }
                                            return Err(
                                                Error::TypeMismatch {
                                                    when: MismatchWhen::Storing,
                                                    expected: dt,
                                                    found: rt,
                                                },
                                            );
                                        }
                                    }
                                },
                                None => {},
                            }
                            self.variables.insert(name.clone(), v);
                            proof {
                                let s2 = adv_vars(gst, rest, gst.vars.insert(name@, vv));
                                assert(step(prog, gst) == StepOut::Next(s2));
                                assert(run_n(prog, init, (n + 1) as nat) == RunOut::Running(s2));
                                gst = s2;
                                n = (n + 1) as nat;
                            }
                            ip = ip + 1;
                        },
                    }
                },
                OpCode::LoadVar(name) => {
                    match self.variables.get(name.as_str()) {
                        Some(v) => {
                            let d = v.duplicate();
                            stack.push(d);
                            proof {
                                let s2 = adv(gst, gst.stack.push(gst.vars[name@]));
                                assert(step(prog, gst) == StepOut::Next(s2));
                                assert(vals_view(stack@) =~= s2.stack);
                                assert(run_n(prog, init, (n + 1) as nat) == RunOut::Running(s2));
                                gst = s2;
                                n = (n + 1) as nat;
                            }
                            ip = ip + 1;
                        },
                        None => {
                            proof {
                                let ev = ErrV::UndefinedVariable(name@);
                                assert(step(prog, gst) == StepOut::Fail(ev, gst));
                                assert(run_n(prog, init, (n + 1) as nat) == RunOut::Halted(
                                    gst,
                                    Some(ev),
                                ));
                                assert(runs_to(prog, init, gst, Some(ev)));
                            }
                            return Err(Error::UndefinedVariable(name.clone()));
                        },
                    }
                },
                OpCode::Add | OpCode::Subtract | OpCode::Multiply | OpCode::Divide => {
                    let bop = match &bytecode[ip] {
                        OpCode::Add => BinOp::Add,
                        OpCode::Subtract => BinOp::Subtract,
                        OpCode::Multiply => BinOp::Multiply,
                        _ => BinOp::Divide,
                    };
                    proof {
                        assert(arith_op_of(prog[gst.ip]) == Some(bop));
                    }
                    let b = match stack.pop() {
                        Some(x) => x,
                        None => {
                            proof {
                                let s2 = failing(gst, gst.stack);
                                assert(step(prog, gst) == StepOut::Fail(ErrV::StackUnderflow, s2));
                                assert(run_n(prog, init, (n + 1) as nat) == RunOut::Halted(
                                    s2,
                                    Some(ErrV::StackUnderflow),
                                ));
                                assert(runs_to(prog, init, s2, Some(ErrV::StackUnderflow)));
                            }
                            return Err(Error::StackUnderflow);
                        },
                    };
                    let a = match stack.pop() {
                        Some(x) => x,
                        None => {
                            proof {
                                let s2 = failing(gst, gst.stack.drop_last());
                                assert(step(prog, gst) == StepOut::Fail(ErrV::StackUnderflow, s2));
                                assert(vals_view(stack@) =~= s2.stack);
                                assert(run_n(prog, init, (n + 1) as nat) == RunOut::Halted(
                                    s2,
                                    Some(ErrV::StackUnderflow),
                                ));
                                assert(runs_to(prog, init, s2, Some(ErrV::StackUnderflow)));
                            }
                            return Err(Error::StackUnderflow);
                        },
                    };
                    let ghost av = a@;
                    let ghost bv = b@;
                    let ghost rest = gst.stack.drop_last().drop_last();
                    proof {
                        assert(bv == gst.stack.last());
                        assert(av == gst.stack[gst.stack.len() - 2]);
                        assert(vals_view(stack@) =~= rest);
                    }
                    match self.binary_op(a, b, bop) {
                        Ok(v) => {
                            let ghost rv = v@;
                            stack.push(v);
                            proof {
                                let s2 = adv(gst, rest.push(rv));
                                assert(step(prog, gst) == StepOut::Next(s2));
                                assert(vals_view(stack@) =~= s2.stack);
                                assert(run_n(prog, init, (n + 1) as nat) == RunOut::Running(s2));
                                gst = s2;
                                n = (n + 1) as nat;
                            }
                            ip = ip + 1;
                        },
                        Err(e) => {
                            proof {
                                let ev = operand_mismatch(av, bv);
                                let s2 = failing(gst, rest);
                                assert(step(prog, gst) == StepOut::Fail(ev, s2));
                                assert(run_n(prog, init, (n + 1) as nat) == RunOut::Halted(
                                    s2,
                                    Some(ev),
                                ));
                                assert(runs_to(prog, init, s2, Some(ev)));
                            }
                            return Err(e);
                        },
                    }
                },
                OpCode::Jump(t) => {
                    let target = *t;
                    proof {
                        let s2 = jumped(gst, target as int);
                        assert(step(prog, gst) == StepOut::Next(s2));
                        assert(run_n(prog, init, (n + 1) as nat) == RunOut::Running(s2));
                        gst = s2;
                        n = (n + 1) as nat;
                    }
                    ip = target;
                },
                OpCode::JumpIfFalse(t) => {
                    let target = *t;
                    let cond_false = if stack.len() > 0 {
                        matches!(&stack[stack.len() - 1], Value::Truth(false))
                    } else {
                        false
                    };
                    proof {
                        assert(cond_false == (gst.stack.len() > 0 && gst.stack.last()
                            == ValV::Truth(false)));
                    }
                    if cond_false {
                        proof {
                            let s2 = jumped(gst, target as int);
                            assert(step(prog, gst) == StepOut::Next(s2));
                            assert(run_n(prog, init, (n + 1) as nat) == RunOut::Running(s2));
                            gst = s2;
                            n = (n + 1) as nat;
                        }
                        ip = target;
                    } else {
                        proof {
                            let s2 = adv(gst, gst.stack);
                            assert(step(prog, gst) == StepOut::Next(s2));
                            assert(run_n(prog, init, (n + 1) as nat) == RunOut::Running(s2));
                            gst = s2;
                            n = (n + 1) as nat;
                        }
                        ip = ip + 1;
                    }
                },
                OpCode::ConvertToString => {
                    match stack.pop() {
                        None => {
                            proof {
                                assert(step(prog, gst) == StepOut::Fail(ErrV::StackUnderflow, gst));
                                assert(run_n(prog, init, (n + 1) as nat) == RunOut::Halted(
                                    gst,
                                    Some(ErrV::StackUnderflow),
                                ));
                                assert(runs_to(prog, init, gst, Some(ErrV::StackUnderflow)));
                            }
                            return Err(Error::StackUnderflow);
                        },
                        Some(v) => {
                            let text = render_value(&v);
                            stack.push(Value::Text(text));
                            proof {
                                let s2 = adv(
                                    gst,
                                    gst.stack.drop_last().push(
                                        ValV::Text(display_of(gst.stack.last())),
                                    ),
                                );
                                assert(step(prog, gst) == StepOut::Next(s2));
                                assert(vals_view(stack@) =~= s2.stack);
                                assert(run_n(prog, init, (n + 1) as nat) == RunOut::Running(s2));
                                gst = s2;
                                n = (n + 1) as nat;
                            }
                            ip = ip + 1;
                        },
                    }
                },
                OpCode::Call(fname, argc) => {
                    let m = if *argc <= stack.len() {
                        *argc
                    } else {
                        stack.len()
                    };
                    let ghost orig = gst.stack;
                    let ghost olen = orig.len() as int;
                    let ghost margs = orig.subrange(olen - m as int, olen);
                    let ghost mrest = orig.subrange(0, olen - m as int);
                    let mut args_rev: Vec<Value> = Vec::new();
                    let mut j: usize = 0;
                    while j < m
                        invariant
                            self.wf(),
                            self.loaded_source() == old(self).loaded_source(),
                            gst.vars == self.env(),
                            gst.types == self.types_map(),
                            lines_view(out@) == outbase + gst.out,
                            j <= m,
                            m as int <= olen,
                            olen == orig.len(),
                            vals_view(stack@) == orig.subrange(0, olen - j as int),
                            args_rev@.len() == j,
                            forall|q: int|
                                0 <= q < j ==> (#[trigger] args_rev@[q])@ == orig[olen - 1 - q],
                        decreases m - j,
                    {
                        proof {
                            assert(vals_view(stack@).len() == stack@.len());
                            assert(orig.subrange(0, olen - j as int).len() == olen - j);
                            assert(stack@.len() == olen - j);
                        }
                        let v = stack.pop().unwrap();
                        proof {
                            assert(v@ == orig.subrange(0, olen - j as int).last());
                            assert(vals_view(stack@) =~= orig.subrange(0, olen - (j + 1) as int));
                        }
                        args_rev.push(v);
                        j = j + 1;
                    }
                    proof {
                        assert(vals_view(stack@) =~= mrest);
                    }
                    if str_eq(fname.as_str(), "show") {
                        if m > 0 {
                            let line = render_value(&args_rev[m - 1]);
                            proof {
                                assert(args_rev@[m - 1]@ == orig[olen - m as int]);
                                assert(margs[0] == orig[olen - m as int]);
                            }
                            let ghost outprev = out@;
                            let ghost linev = line@;
                            out.push(line);
                            stack.push(Value::Nothing);
                            proof {
                                let s2 = adv_out(
                                    gst,
                                    mrest.push(ValV::Nothing),
                                    display_of(margs[0]),
                                );
                                assert(step(prog, gst) == StepOut::Next(s2));
                                assert(vals_view(stack@) =~= s2.stack);
                                lemma_lines_push(outprev, out@, linev, outbase, gst.out);
                                assert(lines_view(out@) =~= outbase + s2.out);
                                assert(run_n(prog, init, (n + 1) as nat) == RunOut::Running(s2));
                                gst = s2;
                                n = (n + 1) as nat;
                            }
                            ip = ip + 1;
                        } else {
                            stack.push(Value::Nothing);
                            proof {
                                let s2 = adv(gst, mrest.push(ValV::Nothing));
                                assert(step(prog, gst) == StepOut::Next(s2));
                                assert(vals_view(stack@) =~= s2.stack);
                                assert(run_n(prog, init, (n + 1) as nat) == RunOut::Running(s2));
                                gst = s2;
                                n = (n + 1) as nat;
                            }
                            ip = ip + 1;
                        }
                    } else {
                        proof {
                            let ev = ErrV::UnknownFunction(fname@);
                            let s2 = failing(gst, mrest);
                            assert(step(prog, gst) == StepOut::Fail(ev, s2));
                            assert(run_n(prog, init, (n + 1) as nat) == RunOut::Halted(
                                s2,
                                Some(ev),
                            ));
                            assert(runs_to(prog, init, s2, Some(ev)));
                        }
                        return Err(Error::UnknownFunction(fname.clone()));
                    }
                },
                OpCode::Return => {
                    proof {
                        assert(step(prog, gst) == StepOut::Halt(gst));
                        assert(run_n(prog, init, (n + 1) as nat) == RunOut::Halted(
                            gst,
                            None::<ErrV>,
                        ));
                        assert(runs_to(prog, init, gst, None::<ErrV>));
                    }
                    return Ok(());
                },
                OpCode::NewObject(_class_name) => {
                    proof {
                        let ev = ErrV::Unimplemented("Object creation"@);
                        assert(step(prog, gst) == StepOut::Fail(ev, gst));
                        assert(run_n(prog, init, (n + 1) as nat) == RunOut::Halted(gst, Some(ev)));
                        assert(runs_to(prog, init, gst, Some(ev)));
                    }
                    return Err(Error::Unimplemented("Object creation".to_owned()));
                },
                OpCode::GetProperty(_name) => {
                    proof {
                        let ev = ErrV::Unimplemented("Property access"@);
                        assert(step(prog, gst) == StepOut::Fail(ev, gst));
                        assert(run_n(prog, init, (n + 1) as nat) == RunOut::Halted(gst, Some(ev)));
                        assert(runs_to(prog, init, gst, Some(ev)));
                    }
                    return Err(Error::Unimplemented("Property access".to_owned()));
                },
                OpCode::SetProperty(_name) => {
                    proof {
                        let ev = ErrV::Unimplemented("Property setting"@);
                        assert(step(prog, gst) == StepOut::Fail(ev, gst));
                        assert(run_n(prog, init, (n + 1) as nat) == RunOut::Halted(gst, Some(ev)));
                        assert(runs_to(prog, init, gst, Some(ev)));
                    }
                    return Err(Error::Unimplemented("Property setting".to_owned()));
                },
                OpCode::CheckType(t) => {
                    match next_store_from(bytecode, ip + 1) {
                        Some(var_name) => {
                            let ghost nm = var_name@;
                            let tc = type_dup(t);
                            self.variable_types.insert(var_name, tc);
                            proof {
                                let s2 = adv_types(gst, gst.types.insert(nm, *t));
                                assert(step(prog, gst) == StepOut::Next(s2));
                                assert(run_n(prog, init, (n + 1) as nat) == RunOut::Running(s2));
                                gst = s2;
                                n = (n + 1) as nat;
                            }
                            ip = ip + 1;
                        },
                        None => {
                            proof {
                                let s2 = adv(gst, gst.stack);
                                assert(step(prog, gst) == StepOut::Next(s2));
                                assert(run_n(prog, init, (n + 1) as nat) == RunOut::Running(s2));
                                gst = s2;
                                n = (n + 1) as nat;
                            }
                            ip = ip + 1;
                        },
                    }
                },
                OpCode::Cast(t) => {
                    match stack.pop() {
                        None => {
                            proof {
                                let s2 = adv(gst, gst.stack);
                                assert(step(prog, gst) == StepOut::Next(s2));
                                assert(run_n(prog, init, (n + 1) as nat) == RunOut::Running(s2));
                                gst = s2;
                                n = (n + 1) as nat;
                            }
                            ip = ip + 1;
                        },
                        Some(v) => {
                            let ghost vv = v@;
                            let ghost rest = gst.stack.drop_last();
                            proof {
                                assert(vv == gst.stack.last());
                                assert(vals_view(stack@) =~= rest);
                            }
                            match (v, t) {
                                (Value::Number(x), Type::Whole) => {
                                    let f = x.floor();
                                    stack.push(Value::Number(f));
                                    proof {
                                        let s2 = adv(
                                            gst,
                                            rest.push(
                                                ValV::Number(SCALE as int * (x@ / (SCALE as int))),
                                            ),
                                        );
                                        assert(step(prog, gst) == StepOut::Next(s2));
                                        assert(vals_view(stack@) =~= s2.stack);
                                        assert(run_n(prog, init, (n + 1) as nat)
                                            == RunOut::Running(s2));
                                        gst = s2;
                                        n = (n + 1) as nat;
                                    }
                                    ip = ip + 1;
                                },
                                (Value::Number(x), Type::Decimal) => {
                                    stack.push(Value::Number(x));
                                    proof {
                                        let s2 = adv(gst, rest.push(ValV::Number(x@)));
                                        assert(step(prog, gst) == StepOut::Next(s2));
                                        assert(vals_view(stack@) =~= s2.stack);
                                        assert(run_n(prog, init, (n + 1) as nat)
                                            == RunOut::Running(s2));
                                        gst = s2;
                                        n = (n + 1) as nat;
                                    }
                                    ip = ip + 1;
                                },
                                (Value::Text(txt), Type::Text) => {
                                    let ghost tv = txt@;
                                    stack.push(Value::Text(txt));
                                    proof {
                                        let s2 = adv(gst, rest.push(ValV::Text(tv)));
                                        assert(step(prog, gst) == StepOut::Next(s2));
                                        assert(vals_view(stack@) =~= s2.stack);
                                        assert(run_n(prog, init, (n + 1) as nat)
                                            == RunOut::Running(s2));
                                        gst = s2;
                                        n = (n + 1) as nat;
                                    }
                                    ip = ip + 1;
                                },
                                (Value::Truth(b), Type::Truth) => {
                                    stack.push(Value::Truth(b));
                                    proof {
                                        let s2 = adv(gst, rest.push(ValV::Truth(b)));
                                        assert(step(prog, gst) == StepOut::Next(s2));
                                        assert(vals_view(stack@) =~= s2.stack);
                                        assert(run_n(prog, init, (n + 1) as nat)
                                            == RunOut::Running(s2));
                                        gst = s2;
                                        n = (n + 1) as nat;
                                    }
                                    ip = ip + 1;
                                },
                                (_other, _) => {
                                    proof {
                                        let ev = ErrV::CastError(*t);
                                        let s2 = failing(gst, rest);
                                        assert(step(prog, gst) == StepOut::Fail(ev, s2));
                                        assert(run_n(prog, init, (n + 1) as nat) == RunOut::Halted(
                                            s2,
                                            Some(ev),
                                        ));
                                        assert(runs_to(prog, init, s2, Some(ev)));
                                    }
                                    return Err(Error::CastError { target: type_dup(t) });
                                },
                            }
                        },
                    }
                },
                OpCode::Concat => {
                    let b = match stack.pop() {
                        Some(x) => x,
                        None => {
                            proof {
                                let s2 = failing(gst, gst.stack);
                                assert(step(prog, gst) == StepOut::Fail(ErrV::StackUnderflow, s2));
                                assert(run_n(prog, init, (n + 1) as nat) == RunOut::Halted(
                                    s2,
                                    Some(ErrV::StackUnderflow),
                                ));
                                assert(runs_to(prog, init, s2, Some(ErrV::StackUnderflow)));
                            }
                            return Err(Error::StackUnderflow);
                        },
                    };
                    let a = match stack.pop() {
                        Some(x) => x,
                        None => {
                            proof {
                                let s2 = failing(gst, gst.stack.drop_last());
                                assert(step(prog, gst) == StepOut::Fail(ErrV::StackUnderflow, s2));
                                assert(vals_view(stack@) =~= s2.stack);
                                assert(run_n(prog, init, (n + 1) as nat) == RunOut::Halted(
                                    s2,
                                    Some(ErrV::StackUnderflow),
                                ));
                                assert(runs_to(prog, init, s2, Some(ErrV::StackUnderflow)));
                            }
                            return Err(Error::StackUnderflow);
                        },
                    };
                    let ghost av = a@;
                    let ghost bv = b@;
                    let ghost rest = gst.stack.drop_last().drop_last();
                    proof {
                        assert(bv == gst.stack.last());
                        assert(av == gst.stack[gst.stack.len() - 2]);
                        assert(vals_view(stack@) =~= rest);
                    }
                    match self.concat_values(a, b) {
                        Ok(v) => {
                            let ghost rv = v@;
                            stack.push(v);
                            proof {
                                let s2 = adv(gst, rest.push(rv));
                                assert(step(prog, gst) == StepOut::Next(s2));
                                assert(vals_view(stack@) =~= s2.stack);
                                assert(run_n(prog, init, (n + 1) as nat) == RunOut::Running(s2));
                                gst = s2;
                                n = (n + 1) as nat;
                            }
                            ip = ip + 1;
                        },
                        Err(e) => {
                            proof {
                                let ev = joining_mismatch(av, bv);
                                let s2 = failing(gst, rest);
                                assert(step(prog, gst) == StepOut::Fail(ev, s2));
                                assert(run_n(prog, init, (n + 1) as nat) == RunOut::Halted(
                                    s2,
                                    Some(ev),
                                ));
                                assert(runs_to(prog, init, s2, Some(ev)));
                            }
                            return Err(e);
                        },
                    }
                },
                OpCode::Interpolate(cnt) => {
                    let m = if *cnt <= stack.len() {
                        *cnt
                    } else {
                        stack.len()
                    };
                    let ghost orig = gst.stack;
                    let ghost olen = orig.len() as int;
                    let ghost parts = orig.subrange(olen - m as int, olen);
                    let ghost mrest = orig.subrange(0, olen - m as int);
                    let mut parts_rev: Vec<String> = Vec::new();
                    let mut j: usize = 0;
                    while j < m
                        invariant
                            self.wf(),
                            self.loaded_source() == old(self).loaded_source(),
                            gst.vars == self.env(),
                            gst.types == self.types_map(),
                            lines_view(out@) == outbase + gst.out,
                            j <= m,
                            m as int <= olen,
                            olen == orig.len(),
                            vals_view(stack@) == orig.subrange(0, olen - j as int),
                            parts_rev@.len() == j,
                            forall|q: int|
                                0 <= q < j ==> (#[trigger] parts_rev@[q])@ == display_of(
                                    orig[olen - 1 - q],
                                ),
                        decreases m - j,
                    {
                        proof {
                            assert(vals_view(stack@).len() == stack@.len());
                            assert(orig.subrange(0, olen - j as int).len() == olen - j);
                            assert(stack@.len() == olen - j);
                        }
                        let v = stack.pop().unwrap();
                        proof {
                            assert(v@ == orig.subrange(0, olen - j as int).last());
                            assert(vals_view(stack@) =~= orig.subrange(0, olen - (j + 1) as int));
                        }
                        let line = render_value(&v);
                        parts_rev.push(line);
                        j = j + 1;
                    }
                    proof {
                        assert(vals_view(stack@) =~= mrest);
                    }
                    let mut joined = String::new();
                    let mut q: usize = 0;
                    proof {
                        assert(joined@ =~= join_displays(parts.take(0)));
                    }
                    while q < m
                        invariant
                            self.wf(),
                            self.loaded_source() == old(self).loaded_source(),
                            self.loaded_source() == old(self).loaded_source(),
                            gst.vars == self.env(),
                            gst.types == self.types_map(),
                            lines_view(out@) == outbase + gst.out,
                            vals_view(stack@) == mrest,
                            q <= m,
                            m as int <= olen,
                            olen == orig.len(),
                            parts == orig.subrange(olen - m as int, olen),
                            parts_rev@.len() == m,
                            forall|i: int|
                                0 <= i < m ==> (#[trigger] parts_rev@[i])@ == display_of(
                                    orig[olen - 1 - i],
                                ),
                            joined@ == join_displays(parts.take(q as int)),
                        decreases m - q,
                    {
                        joined.append(parts_rev[m - 1 - q].as_str());
                        proof {
                            assert(parts.take(q as int + 1).drop_last() =~= parts.take(q as int));
                            assert(parts.take(q as int + 1).last() == parts[q as int]);
                            assert(parts[q as int] == orig[olen - m as int + q]);
                            assert(parts_rev@[m - 1 - q]@ == display_of(orig[olen - m as int + q]));
                            assert(joined@ == join_displays(parts.take(q as int + 1)));
                        }
                        q = q + 1;
                    }
                    proof {
                        assert(parts.take(m as int) =~= parts);
                    }
                    stack.push(Value::Text(joined));
                    proof {
                        let s2 = adv(gst, mrest.push(ValV::Text(join_displays(parts))));
                        assert(step(prog, gst) == StepOut::Next(s2));
                        assert(vals_view(stack@) =~= s2.stack);
                        assert(run_n(prog, init, (n + 1) as nat) == RunOut::Running(s2));
                        gst = s2;
                        n = (n + 1) as nat;
                    }
                    ip = ip + 1;
                },
                OpCode::CheckAssignmentType => {
                    match stack.pop() {
                        None => {
                            proof {
                                assert(step(prog, gst) == StepOut::Fail(ErrV::StackUnderflow, gst));
                                assert(run_n(prog, init, (n + 1) as nat) == RunOut::Halted(
                                    gst,
                                    Some(ErrV::StackUnderflow),
                                ));
                                assert(runs_to(prog, init, gst, Some(ErrV::StackUnderflow)));
                            }
                            return Err(Error::StackUnderflow);
                        },
                        Some(_assigned) => {
                            let ghost rest = gst.stack.drop_last();
                            proof {
                                assert(vals_view(stack@) =~= rest);
                            }
                            if stack.len() == 0 {
                                proof {
                                    let s2 = failing(gst, rest);
                                    assert(step(prog, gst) == StepOut::Fail(
                                        ErrV::StackUnderflow,
                                        s2,
                                    ));
                                    assert(run_n(prog, init, (n + 1) as nat) == RunOut::Halted(
                                        s2,
                                        Some(ErrV::StackUnderflow),
                                    ));
                                    assert(runs_to(prog, init, s2, Some(ErrV::StackUnderflow)));
                                }
                                return Err(Error::StackUnderflow);
                            }
                            let mut fail_types: Option<(Type, Type)> = None;
                            match next_store_from(bytecode, ip + 1) {
                                Some(var_name) => {
                                    let declared = match self.variable_types.get(
                                        var_name.as_str(),
                                    ) {
                                        Some(tt) => Some(type_dup(tt)),
                                        None => None,
                                    };
                                    match declared {
                                        Some(dt) => {
                                            let rt = runtime_type(&stack[stack.len() - 1]);
                                            if !type_eq(&dt, &rt) {
                                                fail_types = Some((dt, rt));
                                            }
                                        },
                                        None => {},
                                    }
                                },
                                None => {},
                            }
                            match fail_types {
                                Some((dt, rt)) => {
                                    proof {
                                        let ev = ErrV::TypeMismatch(MismatchWhen::Storing, dt, rt);
                                        let s2 = failing(gst, rest);
                                        assert(rest.last() == vals_view(stack@).last());
                                        assert(step(prog, gst) == StepOut::Fail(ev, s2));
                                        assert(run_n(prog, init, (n + 1) as nat) == RunOut::Halted(
                                            s2,
                                            Some(ev),
                                        ));
                                        assert(runs_to(prog, init, s2, Some(ev)));
                                    }
                                    return Err(
                                        Error::TypeMismatch {
                                            when: MismatchWhen::Storing,
                                            expected: dt,
                                            found: rt,
                                        },
                                    );
                                },
                                None => {
                                    proof {
                                        let s2 = adv(gst, rest);
                                        assert(step(prog, gst) == StepOut::Next(s2));
                                        assert(run_n(prog, init, (n + 1) as nat)
                                            == RunOut::Running(s2));
                                        gst = s2;
                                        n = (n + 1) as nat;
                                    }
                                    ip = ip + 1;
                                },
                            }
                        },
                    }
                },
                OpCode::Show => {
                    match stack.pop() {
                        None => {
                            proof {
                                assert(step(prog, gst) == StepOut::Fail(ErrV::StackUnderflow, gst));
                                assert(run_n(prog, init, (n + 1) as nat) == RunOut::Halted(
                                    gst,
                                    Some(ErrV::StackUnderflow),
                                ));
                                assert(runs_to(prog, init, gst, Some(ErrV::StackUnderflow)));
                            }
                            return Err(Error::StackUnderflow);
                        },
                        Some(v) => {
                            let line = render_value(&v);
                            let ghost outprev = out@;
                            let ghost linev = line@;
                            out.push(line);
                            proof {
                                let s2 = adv_out(
                                    gst,
                                    gst.stack.drop_last(),
                                    display_of(gst.stack.last()),
                                );
                                assert(step(prog, gst) == StepOut::Next(s2));
                                assert(vals_view(stack@) =~= s2.stack);
                                lemma_lines_push(outprev, out@, linev, outbase, gst.out);
                                assert(lines_view(out@) =~= outbase + s2.out);
                                assert(run_n(prog, init, (n + 1) as nat) == RunOut::Running(s2));
                                gst = s2;
                                n = (n + 1) as nat;
                            }
                            ip = ip + 1;
                        },
                    }
                },
            }
        }
        if ip < bytecode.len() {
            proof {
                assert(n == STEP_BUDGET as nat);
                assert(budget_exhausted(prog, init, gst));
            }
            return Err(Error::StepLimit);
        }
        proof {
            assert(run_n(prog, init, (n + 1) as nat) == RunOut::Halted(gst, None::<ErrV>));
            assert(runs_to(prog, init, gst, None::<ErrV>));
        }
        Ok(())
    }
}

/// Whether a character is trailing whitespace.
fn is_ws_exec(c: char) -> (r: bool)
    ensures
        r == is_trail_ws(c),
{
    c == '\u{0009}' || c == '\u{000A}' || c == '\u{000B}' || c == '\u{000C}' || c == '\u{000D}'
        || c == ' ' || c == '\u{0085}' || c == '\u{00A0}' || c == '\u{1680}' || ('\u{2000}' <= c
        && c <= '\u{200A}') || c == '\u{2028}' || c == '\u{2029}' || c == '\u{202F}' || c
        == '\u{205F}' || c == '\u{3000}'
}

/// Append the characters of `src` between `a` and `b`.
fn append_range(out: &mut String, src: &str, a: usize, b: usize)
    requires
        a <= b,
        b as int <= old(out)@.len() + src@.len(),
        b as int <= src@.len(),
    ensures
        final(out)@ == old(out)@ + src@.subrange(a as int, b as int),
{
    let mut k = a;
    proof {
        assert(out@ =~= old(out)@ + src@.subrange(a as int, a as int));
    }
    while k < b
        invariant
            a <= k <= b,
            b as int <= src@.len(),
            out@ == old(out)@ + src@.subrange(a as int, k as int),
        decreases b - k,
    {
        push_char(out, src.get_char(k));
        proof {
            assert(out@ =~= old(out)@ + src@.subrange(a as int, (k + 1) as int));
        }
        k = k + 1;
    }
}

impl Runtime {
    /// Join continuation lines: a physical line whose trimmed form ends in
    /// a backslash loses the backslash and is joined to the next physical
    /// line by a single space; other lines keep their line break, omitted
    /// after the final line.
    pub fn preprocess_input(&self, input: &str) -> (r: Result<String, Error>)
        ensures
            r matches Ok(p) && p@ == preprocess_spec(input@),
    {
        let n = input.unicode_len();
        let mut out = String::new();
        let mut pos: usize = 0;
        proof {
            assert(input@.subrange(0, n as int) =~= input@);
            assert(out@ + preprocess_spec(input@.subrange(0, n as int)) =~= preprocess_spec(
                input@,
            ));
        }
        while pos < n
            invariant
                n == input@.len(),
                pos <= n,
                preprocess_spec(input@) == out@ + preprocess_spec(
                    input@.subrange(pos as int, n as int),
                ),
            decreases n - pos,
        {
            let ghost out0 = out@;
            let ghost sub = input@.subrange(pos as int, n as int);
            let mut j = pos;
            while j < n && input.get_char(j) != '\n'
                invariant
                    n == input@.len(),
                    pos <= j <= n,
                    forall|q: int| pos <= q < j ==> input@[q] != '\n',
                decreases n - j,
            {
                j = j + 1;
            }
            proof {
                assert forall|q: int| 0 <= q < j - pos implies sub[q] != '\n' by {
                    assert(sub[q] == input@[pos + q]);
                }
                lemma_line_break_at(sub, 0, j - pos);
            }
            let mut t = j;
            while t > pos && is_ws_exec(input.get_char(t - 1))
                invariant
                    n == input@.len(),
                    pos <= t <= j <= n,
                    sub == input@.subrange(pos as int, n as int),
                    trim_end_spec(sub.subrange(0, (j - pos) as int)) == trim_end_spec(
                        sub.subrange(0, (t - pos) as int),
                    ),
                decreases t,
            {
                proof {
                    let cur = sub.subrange(0, (t - pos) as int);
                    assert(cur.last() == input@[t - 1]);
                    assert(cur.drop_last() =~= sub.subrange(0, (t - 1 - pos) as int));
                }
                t = t - 1;
            }
            let ghost line = trim_end_spec(sub.subrange(0, (j - pos) as int));
            proof {
                let cur = sub.subrange(0, (t - pos) as int);
                if t > pos {
                    assert(cur.last() == input@[t - 1]);
                }
                assert(trim_end_spec(cur) == cur);
                assert(line == sub.subrange(0, (t - pos) as int));
                assert(line.len() == t - pos);
                if t > pos {
                    assert(line.last() == input@[t - 1]);
                }
            }
            let has_bs = t > pos && input.get_char(t - 1) == '\\';
            if has_bs {
                append_range(&mut out, input, pos, t - 1);
                push_char(&mut out, ' ');
                proof {
                    assert(line.drop_last() =~= input@.subrange(pos as int, (t - 1) as int));
                    assert(out@ =~= out0 + (line.drop_last() + seq![' ']));
                }
                if j >= n {
                    proof {
                        assert(preprocess_spec(sub) == line.drop_last() + seq![' ']);
                        assert(preprocess_spec(input@.subrange(n as int, n as int)) =~= Seq::<
                            char,
                        >::empty());
                        assert(out@ + preprocess_spec(input@.subrange(n as int, n as int)) =~= out0
                            + preprocess_spec(sub));
                    }
                    pos = n;
                } else {
                    proof {
                        let rest = input@.subrange((j + 1) as int, n as int);
                        assert(sub.subrange((j - pos + 1) as int, sub.len() as int) =~= rest);
                        assert(preprocess_spec(sub) == line.drop_last() + seq![' ']
                            + preprocess_spec(rest));
                        assert(out@ + preprocess_spec(rest) =~= out0 + preprocess_spec(sub));
                    }
                    pos = j + 1;
                }
            } else {
                append_range(&mut out, input, pos, t);
                proof {
                    assert(line =~= input@.subrange(pos as int, t as int));
                    assert(out@ =~= out0 + line);
                }
                if j >= n - 1 {
                    proof {
                        assert(preprocess_spec(sub) == line);
                        assert(preprocess_spec(input@.subrange(n as int, n as int)) =~= Seq::<
                            char,
                        >::empty());
                        assert(out@ + preprocess_spec(input@.subrange(n as int, n as int)) =~= out0
                            + preprocess_spec(sub));
                    }
                    pos = n;
                } else {
                    push_char(&mut out, '\n');
                    proof {
                        let rest = input@.subrange((j + 1) as int, n as int);
                        assert(sub.subrange((j - pos + 1) as int, sub.len() as int) =~= rest);
                        assert(preprocess_spec(sub) == line + seq!['\n'] + preprocess_spec(rest));
                        assert(out@ =~= out0 + (line + seq!['\n']));
                        assert(out@ + preprocess_spec(rest) =~= out0 + preprocess_spec(sub));
                    }
                    pos = j + 1;
                }
            }
        }
        proof {
            assert(preprocess_spec(input@.subrange(n as int, n as int)) =~= Seq::<char>::empty());
            assert(out@ =~= preprocess_spec(input@));
        }
        Ok(out)
    }

    /// Run one fragment through the full pipeline: preprocess, tokenize,
    /// parse, analyze, generate, execute.  A compilation-stage failure
    /// leaves the environment untouched; an executed fragment's output,
    /// environment and failure are exactly those of the specification
    /// semantics of its generated bytecode.
    #[verifier::rlimit(100)]
    pub fn process_input(&mut self, input: &str) -> (r: FragmentOutcome)
        requires
            old(self).wf(),
        ensures
            final(self).wf(),
            r matches FragmentOutcome::CompileFailed(e) ==> {
                &&& final(self).env() == old(self).env()
                &&& final(self).types_map() == old(self).types_map()
                &&& (e@ is Lex || e@ is Parse || e@ is TypeErr || e@ is Gen)
            },
            (forall|q: int|
                0 <= q < input@.len() ==> crate::tokenizer::is_blank(#[trigger] input@[q]))
                ==> r is Executed,
            r matches FragmentOutcome::Executed { ast, bytecode, .. } ==> (
            ops_view(bytecode@) == crate::generator::compile_stmts(ast@, 0)
                && final(self).loaded_source() == preprocess_spec(input@)),
            r matches FragmentOutcome::Executed { bytecode, output, error, .. } ==> ({
                let prog = ops_view(bytecode@);
                let init = init_state(old(self).env(), old(self).types_map());
                let vars = final(self).env();
                let types = final(self).types_map();
                let out = lines_view(output@);
                &&& (error is None ==> halts_clean(prog, init, vars, types, out))
                &&& (error matches Some(e) ==> (halts_failing(prog, init, e@, vars, types, out)
                    || (e@ == ErrV::StepLimit && still_running(prog, init, vars, types, out))))
            }),
    {
        let processed = match self.preprocess_input(input) {
            Ok(p) => p,
            Err(e) => {
                return FragmentOutcome::CompileFailed(e);
            },
        };
        self.tokenizer = Tokenizer::new(processed.as_str());
        let tokens = match self.tokenizer.tokenize() {
            Ok(t) => t,
            Err(e) => {
                proof {
                    if forall|q: int|
                        0 <= q < input@.len() ==> crate::tokenizer::is_blank(
                            #[trigger] input@[q],
                        ) {
                        lemma_preprocess_blank(input@);
                    }
                }
                return FragmentOutcome::CompileFailed(e);
            },
        };
        let trace_tokens = tokens.clone();
        let parser = Parser::new(tokens);
        let ast = match parser.parse() {
            Ok(a) => a,
            Err(e) => {
                proof {
                    if forall|q: int|
                        0 <= q < input@.len() ==> crate::tokenizer::is_blank(
                            #[trigger] input@[q],
                        ) {
                        lemma_preprocess_blank(input@);
                    }
                }
                return FragmentOutcome::CompileFailed(e);
            },
        };
        // Seed the analyzer with the declared types of variables that
        // exist in the environment.
        let mut analyzer = Analyzer::new();
        let names = self.variable_types.entries();
        let mut k: usize = 0;
        while k < names.len()
            invariant
                self.wf(),
                analyzer.wf(),
                self.loaded_source() == preprocess_spec(input@),
                self.env() == old(self).env(),
                self.types_map() == old(self).types_map(),
                k <= names@.len(),
                forall|q: int|
                    0 <= q < names@.len() ==> self.types_map().contains_key((#[trigger] names@[q])@),
            decreases names@.len() - k,
        {
            let nm = &names[k];
            if self.variables.contains(nm.as_str()) {
                match self.variable_types.get(nm.as_str()) {
                    Some(t) => {
                        analyzer.declare(nm.clone(), type_dup(t));
                    },
                    None => {},
                }
            }
            k = k + 1;
        }
        match analyzer.analyze(&ast) {
            Ok(()) => {},
            Err(e) => {
                proof {
                    if forall|q: int|
                        0 <= q < input@.len() ==> crate::tokenizer::is_blank(
                            #[trigger] input@[q],
                        ) {
                        lemma_preprocess_blank(input@);
                        assert(ast@ =~= Seq::<Stmt>::empty());
                        assert(crate::analyzer::check_stmts_spec(analyzer.table(), ast@)
                            is Pass);
                    }
                }
                return FragmentOutcome::CompileFailed(e);
            },
        }
        let mut generator = BytecodeGenerator::new();
        let bytecode = match generator.generate(&ast) {
            Ok(b) => b,
            Err(e) => {
                return FragmentOutcome::CompileFailed(e);
            },
        };
        let mut output: Vec<String> = Vec::new();
        let ghost pre_lines = lines_view(output@);
        proof {
            assert(pre_lines =~= Seq::<Seq<char>>::empty());
        }
        let result = self.execute_bytecode(&bytecode, &mut output);
        proof {
            let prog2 = ops_view(bytecode@);
            let init2 = init_state(old(self).env(), old(self).types_map());
            match &result {
                Ok(_) => {
                    let fs = choose|fs: VmState|
                        #[trigger] runs_to(prog2, init2, fs, None::<ErrV>) && self.env() == fs.vars
                            && self.types_map() == fs.types && lines_view(output@) == pre_lines
                            + fs.out;
                    assert(lines_view(output@) =~= fs.out);
                    assert(halts_clean(
                        prog2,
                        init2,
                        self.env(),
                        self.types_map(),
                        lines_view(output@),
                    ));
                },
                Err(e) => {
                    if exists|fs: VmState|
                        #[trigger] runs_to(prog2, init2, fs, Some(e@)) && self.env() == fs.vars
                            && self.types_map() == fs.types && lines_view(output@) == pre_lines
                            + fs.out {
                        let fs = choose|fs: VmState|
                            #[trigger] runs_to(prog2, init2, fs, Some(e@)) && self.env() == fs.vars
                                && self.types_map() == fs.types && lines_view(output@) == pre_lines
                                + fs.out;
                        assert(lines_view(output@) =~= fs.out);
                        assert(halts_failing(
                            prog2,
                            init2,
                            e@,
                            self.env(),
                            self.types_map(),
                            lines_view(output@),
                        ));
                    } else {
                        let fs = choose|fs: VmState|
                            #[trigger] budget_exhausted(prog2, init2, fs) && self.env() == fs.vars
                                && self.types_map() == fs.types && lines_view(output@) == pre_lines
                                + fs.out;
                        assert(lines_view(output@) =~= fs.out);
                        assert(e@ == ErrV::StepLimit);
                        assert(still_running(
                            prog2,
                            init2,
                            self.env(),
                            self.types_map(),
                            lines_view(output@),
                        ));
                    }
                },
            }
        }
        match result {
            Ok(()) => FragmentOutcome::Executed {
                tokens: trace_tokens,
                ast,
                bytecode,
                output,
                error: None,
            },
            Err(e) => FragmentOutcome::Executed {
                tokens: trace_tokens,
                ast,
                bytecode,
                output,
                error: Some(e),
            },
        }
    }
}

} // verus!
