//! The bytecode generator: the validated statement sequence to a flat
//! opcode sequence.  Operands are emitted before operators; structured
//! control flow is resolved into absolute jump targets, backpatched once.
//! The conditional jump inspects its condition without popping it, so the
//! generator emits a dedicated pop on both paths, uniformly.
//!
//! `compile_stmts` is the specification-level compiler; `generate` is
//! proved to emit exactly its program.

use vstd::prelude::*;
use crate::ast::{BinOp, Expr, Stmt};
use crate::errors::Error;
use crate::opcode::{OpCode, OpV};
use crate::runtime::ops_view;
use crate::value::{ValV, Value, type_dup};

verus! {

/// The instruction of one arithmetic operator.
pub open spec fn arith_opv(op: BinOp) -> OpV {
    match op {
        BinOp::Add => OpV::Add,
        BinOp::Subtract => OpV::Subtract,
        BinOp::Multiply => OpV::Multiply,
        BinOp::Divide => OpV::Divide,
    }
}

/// The instructions of one expression: operands before operators, in
/// post-order; expressions hold no jumps, so they are position-free.
pub open spec fn compile_expr(e: Expr) -> Seq<OpV>
    decreases e,
{
    match e {
        Expr::NumberLit(n) => seq![OpV::Push(ValV::Number(n@))],
        Expr::TextLit(s) => seq![OpV::Push(ValV::Text(s@))],
        Expr::TruthLit(b) => seq![OpV::Push(ValV::Truth(b))],
        Expr::NothingLit => seq![OpV::Push(ValV::Nothing)],
        Expr::Variable(name) => seq![OpV::LoadVar(name@)],
        Expr::Binary(op, lhs, rhs) => compile_expr(*lhs) + compile_expr(*rhs) + seq![
            arith_opv(op),
        ],
        Expr::CallExpr(name, args) => compile_exprs(args@) + seq![
            OpV::Call(name@, args@.len() as int),
        ],
        Expr::CastExpr(inner, t) => compile_expr(*inner) + seq![OpV::Cast(t)],
        Expr::Interpolate(parts) => compile_exprs(parts@) + seq![
            OpV::Interpolate(parts@.len() as int),
        ],
    }
}

/// The instructions of an expression list, in order.
pub open spec fn compile_exprs(list: Seq<Expr>) -> Seq<OpV>
    decreases list,
{
    if list.len() == 0 {
        Seq::empty()
    } else {
        compile_exprs(list.drop_last()) + compile_expr(list.last())
    }
}

/// The instructions of one statement placed at absolute index `base`.
/// A conditional or loop emits its condition, a conditional jump past the
/// body, and the body; the condition value is popped by a dedicated pop
/// on each path.
pub open spec fn compile_stmt(s: Stmt, base: int) -> Seq<OpV>
    decreases s,
{
    match s {
        Stmt::Declare { name, declared, init } => match declared {
            Some(t) => compile_expr(init) + seq![OpV::CheckType(t), OpV::StoreVar(name@)],
            None => compile_expr(init) + seq![OpV::StoreVar(name@)],
        },
        Stmt::Assign { name, value } => compile_expr(value) + seq![OpV::StoreVar(name@)],
        Stmt::ExprStmt(e) => compile_expr(e) + seq![OpV::Pop],
        Stmt::IfStmt { cond, body } => {
            let cc = compile_expr(cond);
            let bb = compile_stmts(body@, base + cc.len() + 2);
            let jmp_at = base + cc.len() + 2 + bb.len();
            cc + seq![OpV::JumpIfFalse(jmp_at + 1), OpV::Pop] + bb + seq![
                OpV::Jump(jmp_at + 2),
                OpV::Pop,
            ]
        },
        Stmt::WhileStmt { cond, body } => {
            let cc = compile_expr(cond);
            let bb = compile_stmts(body@, base + cc.len() + 2);
            let jmp_at = base + cc.len() + 2 + bb.len();
            cc + seq![OpV::JumpIfFalse(jmp_at + 1), OpV::Pop] + bb + seq![
                OpV::Jump(base),
                OpV::Pop,
            ]
        },
    }
}

/// The instructions of a statement list placed at absolute index `base`.
pub open spec fn compile_stmts(list: Seq<Stmt>, base: int) -> Seq<OpV>
    decreases list,
{
    if list.len() == 0 {
        Seq::empty()
    } else {
        let c0 = compile_stmt(list[0], base);
        c0 + compile_stmts(list.subrange(1, list.len() as int), base + c0.len())
    }
}

fn gen_expr(code: &mut Vec<OpCode>, e: &Expr)
    ensures
        ops_view(final(code)@) == ops_view(old(code)@) + compile_expr(*e),
    decreases e,
{
    let ghost a0 = ops_view(code@);
    match e {
        Expr::NumberLit(num) => {
            code.push(OpCode::Push(Value::Number(*num)));
            proof {
                assert(ops_view(code@) =~= a0 + compile_expr(*e));
            }
        },
        Expr::TextLit(s) => {
            code.push(OpCode::Push(Value::Text(s.clone())));
            proof {
                assert(ops_view(code@) =~= a0 + compile_expr(*e));
            }
        },
        Expr::TruthLit(b) => {
            code.push(OpCode::Push(Value::Truth(*b)));
            proof {
                assert(ops_view(code@) =~= a0 + compile_expr(*e));
            }
        },
        Expr::NothingLit => {
            code.push(OpCode::Push(Value::Nothing));
            proof {
                assert(ops_view(code@) =~= a0 + compile_expr(*e));
            }
        },
        Expr::Variable(name) => {
            code.push(OpCode::LoadVar(name.clone()));
            proof {
                assert(ops_view(code@) =~= a0 + compile_expr(*e));
            }
        },
        Expr::Binary(op, lhs, rhs) => {
            gen_expr(code, lhs);
            gen_expr(code, rhs);
            let ghost a2 = ops_view(code@);
            match op {
                BinOp::Add => code.push(OpCode::Add),
                BinOp::Subtract => code.push(OpCode::Subtract),
                BinOp::Multiply => code.push(OpCode::Multiply),
                BinOp::Divide => code.push(OpCode::Divide),
            }
            proof {
                assert(ops_view(code@) =~= a2.push(arith_opv(*op)));
                assert(a2.push(arith_opv(*op)) =~= a0 + (compile_expr(**lhs) + compile_expr(
                    **rhs,
                ) + seq![arith_opv(*op)]));
                assert(ops_view(code@) == a0 + compile_expr(*e));
            }
        },
        Expr::CallExpr(name, args) => {
            gen_expr_list(code, args);
            let ghost a1 = ops_view(code@);
            code.push(OpCode::Call(name.clone(), args.len()));
            proof {
                assert(ops_view(code@) =~= a1.push(OpV::Call(name@, args@.len() as int)));
                assert(a1.push(OpV::Call(name@, args@.len() as int)) =~= a0 + (compile_exprs(args@)
                    + seq![OpV::Call(name@, args@.len() as int)]));
                assert(ops_view(code@) == a0 + compile_expr(*e));
            }
        },
        Expr::CastExpr(inner, t) => {
            gen_expr(code, inner);
            let ghost a1 = ops_view(code@);
            code.push(OpCode::Cast(type_dup(t)));
            proof {
                assert(ops_view(code@) =~= a1.push(OpV::Cast(*t)));
                assert(a1.push(OpV::Cast(*t)) =~= a0 + (compile_expr(**inner) + seq![
                    OpV::Cast(*t),
                ]));
                assert(ops_view(code@) == a0 + compile_expr(*e));
            }
        },
        Expr::Interpolate(parts) => {
            gen_expr_list(code, parts);
            let ghost a1 = ops_view(code@);
            code.push(OpCode::Interpolate(parts.len()));
            proof {
                assert(ops_view(code@) =~= a1.push(OpV::Interpolate(parts@.len() as int)));
                assert(a1.push(OpV::Interpolate(parts@.len() as int)) =~= a0 + (compile_exprs(
                    parts@,
                ) + seq![OpV::Interpolate(parts@.len() as int)]));
                assert(ops_view(code@) == a0 + compile_expr(*e));
            }
        },
    }
}

fn gen_expr_list(code: &mut Vec<OpCode>, list: &Vec<Expr>)
    ensures
        ops_view(final(code)@) == ops_view(old(code)@) + compile_exprs(list@),
    decreases list,
{
    let mut k: usize = 0;
    proof {
        assert(list@.take(0) =~= Seq::<Expr>::empty());
        assert(ops_view(code@) =~= ops_view(old(code)@) + compile_exprs(list@.take(0)));
    }
    while k < list.len()
        invariant
            k <= list@.len(),
            ops_view(code@) == ops_view(old(code)@) + compile_exprs(list@.take(k as int)),
        decreases list@.len() - k,
    {
        gen_expr(code, &list[k]);
        proof {
            assert(list@.take(k + 1 as int).drop_last() =~= list@.take(k as int));
            assert(list@.take(k + 1 as int).last() == list@[k as int]);
            assert(ops_view(code@) =~= ops_view(old(code)@) + compile_exprs(
                list@.take(k + 1 as int),
            ));
        }
        k = k + 1;
    }
    proof {
        assert(list@.take(list@.len() as int) =~= list@);
    }
}

#[verifier::rlimit(100)]
fn gen_stmt(code: &mut Vec<OpCode>, s: &Stmt)
    ensures
        ops_view(final(code)@) == ops_view(old(code)@) + compile_stmt(
            *s,
            old(code)@.len() as int,
        ),
    decreases s,
{
    let ghost a0 = ops_view(code@);
    let ghost base = code@.len() as int;
    proof {
        assert(a0.len() == base);
    }
    match s {
        Stmt::Declare { name, declared, init } => {
            gen_expr(code, init);
            let ghost a1 = ops_view(code@);
            match declared {
                Some(t) => {
                    // The type-declaration marker immediately precedes the
                    // corresponding store instruction.
                    code.push(OpCode::CheckType(type_dup(t)));
                    let ghost a2 = ops_view(code@);
                    code.push(OpCode::StoreVar(name.clone()));
                    proof {
                        assert(a2 =~= a1.push(OpV::CheckType(*t)));
                        assert(ops_view(code@) =~= a2.push(OpV::StoreVar(name@)));
                        assert(a1.push(OpV::CheckType(*t)).push(OpV::StoreVar(name@)) =~= a0 + (
                        compile_expr(*init) + seq![OpV::CheckType(*t), OpV::StoreVar(name@)]
                        ));
                        assert(ops_view(code@) == a0 + compile_stmt(*s, base));
                    }
                },
                None => {
                    code.push(OpCode::StoreVar(name.clone()));
                    proof {
                        assert(ops_view(code@) =~= a1.push(OpV::StoreVar(name@)));
                        assert(a1.push(OpV::StoreVar(name@)) =~= a0 + (compile_expr(*init) + seq![
                            OpV::StoreVar(name@),
                        ]));
                        assert(ops_view(code@) == a0 + compile_stmt(*s, base));
                    }
                },
            }
        },
        Stmt::Assign { name, value } => {
            gen_expr(code, value);
            let ghost a1 = ops_view(code@);
            code.push(OpCode::StoreVar(name.clone()));
            proof {
                assert(ops_view(code@) =~= a1.push(OpV::StoreVar(name@)));
                assert(a1.push(OpV::StoreVar(name@)) =~= a0 + (compile_expr(*value) + seq![
                    OpV::StoreVar(name@),
                ]));
                assert(ops_view(code@) == a0 + compile_stmt(*s, base));
            }
        },
        Stmt::ExprStmt(e) => {
            gen_expr(code, e);
            let ghost a1 = ops_view(code@);
            code.push(OpCode::Pop);
            proof {
                assert(ops_view(code@) =~= a1.push(OpV::Pop));
                assert(a1.push(OpV::Pop) =~= a0 + (compile_expr(*e) + seq![OpV::Pop]));
                assert(ops_view(code@) == a0 + compile_stmt(*s, base));
            }
        },
        Stmt::IfStmt { cond, body } => {
            gen_expr(code, cond);
            let ghost cc = compile_expr(*cond);
            proof {
                assert(ops_view(code@).len() == code@.len());
                assert(code@.len() as int == base + cc.len());
            }
            let jif_at = code.len();
            code.push(OpCode::JumpIfFalse(0));
            code.push(OpCode::Pop);
            let ghost aP = ops_view(code@);
            proof {
                assert(aP =~= (a0 + cc).push(OpV::JumpIfFalse(0)).push(OpV::Pop));
                assert(code@.len() as int == base + cc.len() + 2);
            }
            gen_stmts(code, body);
            let ghost bb = compile_stmts(body@, base + cc.len() + 2);
            proof {
                assert(ops_view(code@) == aP + bb);
                assert(ops_view(code@).len() == code@.len());
                assert(aP.len() == base + cc.len() + 2);
            }
            let jmp_at = code.len();
            code.push(OpCode::Jump(0));
            code.push(OpCode::Pop);
            let ghost aE = ops_view(code@);
            let endlen = code.len();
            proof {
                assert(aE =~= (aP + bb).push(OpV::Jump(0)).push(OpV::Pop));
                assert(endlen == jmp_at + 2);
            }
            code.set(jif_at, OpCode::JumpIfFalse(jmp_at + 1));
            code.set(jmp_at, OpCode::Jump(jmp_at + 2));
            proof {
                let jm = jmp_at as int;
                let target = a0 + cc + seq![OpV::JumpIfFalse(jm + 1), OpV::Pop] + bb + seq![
                    OpV::Jump(jm + 2),
                    OpV::Pop,
                ];
                assert(ops_view(code@) =~= aE.update(jif_at as int, OpV::JumpIfFalse(jm + 1))
                    .update(jm, OpV::Jump(jm + 2)));
                assert(aE.update(jif_at as int, OpV::JumpIfFalse(jm + 1)).update(
                    jm,
                    OpV::Jump(jm + 2),
                ) =~= target);
                assert(jm == base + cc.len() + 2 + bb.len());
                assert(ops_view(code@) == a0 + compile_stmt(*s, base));
            }
        },
        Stmt::WhileStmt { cond, body } => {
            let top = code.len();
            proof {
                assert(top as int == base);
            }
            gen_expr(code, cond);
            let ghost cc = compile_expr(*cond);
            proof {
                assert(ops_view(code@).len() == code@.len());
                assert(code@.len() as int == base + cc.len());
            }
            let jif_at = code.len();
            code.push(OpCode::JumpIfFalse(0));
            code.push(OpCode::Pop);
            let ghost aP = ops_view(code@);
            proof {
                assert(aP =~= (a0 + cc).push(OpV::JumpIfFalse(0)).push(OpV::Pop));
                assert(code@.len() as int == base + cc.len() + 2);
            }
            gen_stmts(code, body);
            let ghost bb = compile_stmts(body@, base + cc.len() + 2);
            proof {
                assert(ops_view(code@) == aP + bb);
                assert(ops_view(code@).len() == code@.len());
                assert(aP.len() == base + cc.len() + 2);
            }
            let jmp_at = code.len();
            code.push(OpCode::Jump(top));
            code.push(OpCode::Pop);
            let ghost aE = ops_view(code@);
            let endlen = code.len();
            proof {
                assert(aE =~= (aP + bb).push(OpV::Jump(base)).push(OpV::Pop));
                assert(endlen == jmp_at + 2);
            }
            code.set(jif_at, OpCode::JumpIfFalse(jmp_at + 1));
            proof {
                let jm = jmp_at as int;
                let target = a0 + cc + seq![OpV::JumpIfFalse(jm + 1), OpV::Pop] + bb + seq![
                    OpV::Jump(base),
                    OpV::Pop,
                ];
                assert(ops_view(code@) =~= aE.update(jif_at as int, OpV::JumpIfFalse(jm + 1)));
                assert(aE.update(jif_at as int, OpV::JumpIfFalse(jm + 1)) =~= target);
                assert(jm == base + cc.len() + 2 + bb.len());
                assert(ops_view(code@) == a0 + compile_stmt(*s, base));
            }
        },
    }
}

fn gen_stmts(code: &mut Vec<OpCode>, stmts: &Vec<Stmt>)
    ensures
        ops_view(final(code)@) == ops_view(old(code)@) + compile_stmts(
            stmts@,
            old(code)@.len() as int,
        ),
    decreases stmts,
{
    let mut k: usize = 0;
    proof {
        assert(stmts@.skip(0) =~= stmts@);
    }
    while k < stmts.len()
        invariant
            k <= stmts@.len(),
            ops_view(old(code)@) + compile_stmts(stmts@, old(code)@.len() as int) == ops_view(
                code@,
            ) + compile_stmts(stmts@.skip(k as int), code@.len() as int),
        decreases stmts@.len() - k,
    {
        let ghost before = code@;
        proof {
            assert(stmts@.skip(k as int)[0] == stmts@[k as int]);
        }
        gen_stmt(code, &stmts[k]);
        proof {
            let rest = stmts@.skip(k as int);
            let c0 = compile_stmt(stmts@[k as int], before.len() as int);
            assert(rest.subrange(1, rest.len() as int) =~= stmts@.skip(k + 1 as int));
            assert(compile_stmts(rest, before.len() as int) == c0 + compile_stmts(
                stmts@.skip(k + 1 as int),
                before.len() as int + c0.len(),
            ));
            assert(code@.len() as int == before.len() as int + c0.len()) by {
                assert(ops_view(code@).len() == code@.len());
                assert(ops_view(before).len() == before.len());
            }
            assert(ops_view(before) + compile_stmts(rest, before.len() as int) =~= ops_view(
                code@,
            ) + compile_stmts(stmts@.skip(k + 1 as int), code@.len() as int));
        }
        k = k + 1;
    }
    proof {
        assert(stmts@.skip(stmts@.len() as int) =~= Seq::<Stmt>::empty());
        assert(ops_view(code@) + compile_stmts(
            stmts@.skip(stmts@.len() as int),
            code@.len() as int,
        ) =~= ops_view(code@));
    }
}

/// One generator instance per fragment.
#[derive(Debug)]
pub struct BytecodeGenerator {
}

impl BytecodeGenerator {
    /// A fresh generator.
    pub fn new() -> (r: BytecodeGenerator) {
        BytecodeGenerator {  }
    }

    /// Lower the statement sequence into a flat opcode sequence: exactly
    /// the program of the specification compiler, placed at index zero.
    /// Every validated statement sequence lowers successfully.
    pub fn generate(&mut self, ast: &Vec<Stmt>) -> (r: Result<Vec<OpCode>, Error>)
        ensures
            r matches Ok(code) && ops_view(code@) == compile_stmts(ast@, 0),
    {
        let mut code: Vec<OpCode> = Vec::new();
        proof {
            assert(ops_view(code@) =~= Seq::<OpV>::empty());
        }
        gen_stmts(&mut code, ast);
        proof {
            assert(ops_view(code@) =~= compile_stmts(ast@, 0));
        }
        Ok(code)
    }
}

} // verus!
