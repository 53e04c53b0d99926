//! The analyzer: a single static pass over the statement sequence that
//! checks declared-type consistency, seeded with the declared types of
//! variables carried over from previous runs.  `Whole` and `Decimal` are
//! statically one numeric kind: their separation is a runtime property,
//! enforced at store time.
//!
//! `check_stmts_spec` is the specification-level pass; `analyze` is
//! proved to return exactly its verdict and, on failure, its error.

use vstd::prelude::*;
use crate::ast::{Expr, Stmt};
use crate::env::StrMap;
use crate::errors::{Error, ErrV};
use crate::num::SCALE;
use crate::value::{Type, type_dup};

verus! {

/// The verdict of the static pass: the updated table, or the declared and
/// inferred types of the first inconsistency.
pub ghost enum ACheck {
    Pass(Map<Seq<char>, Type>),
    Fail(Type, Type),
}

/// Whether a value of inferred static type `found` may initialize or be
/// assigned to a variable of declared type `declared`.  The two numeric
/// types are statically compatible; null is accepted, as the store-time
/// check also skips null values.
pub open spec fn compat_spec(declared: Type, found: Type) -> bool {
    match (declared, found) {
        (Type::Any, _) => true,
        (_, Type::Any) => true,
        (_, Type::Nothing) => true,
        (Type::Whole, Type::Whole) => true,
        (Type::Whole, Type::Decimal) => true,
        (Type::Decimal, Type::Whole) => true,
        (Type::Decimal, Type::Decimal) => true,
        (Type::Text, Type::Text) => true,
        (Type::Truth, Type::Truth) => true,
        (Type::Object, Type::Object) => true,
        (Type::ListOf(_), Type::ListOf(_)) => true,
        (Type::MappingOf(_, _), Type::MappingOf(_, _)) => true,
        (Type::PromiseOf(_), Type::PromiseOf(_)) => true,
        _ => false,
    }
}

/// The static type inferred for an expression under a table.  Arithmetic
/// yields a number and a call an unchecked value; whether a number is
/// whole is only known at run time.
pub open spec fn infer_spec(table: Map<Seq<char>, Type>, e: Expr) -> Type {
    match e {
        Expr::NumberLit(n) => if n@ % (SCALE as int) == 0 {
            Type::Whole
        } else {
            Type::Decimal
        },
        Expr::TextLit(_) => Type::Text,
        Expr::TruthLit(_) => Type::Truth,
        Expr::NothingLit => Type::Nothing,
        Expr::Variable(name) => if table.contains_key(name@) {
            table[name@]
        } else {
            Type::Any
        },
        Expr::Binary(_, _, _) => Type::Decimal,
        Expr::CallExpr(_, _) => Type::Any,
        Expr::CastExpr(_, t) => t,
        Expr::Interpolate(_) => Type::Text,
    }
}

/// The verdict for one statement under a table.
pub open spec fn check_stmt_spec(table: Map<Seq<char>, Type>, s: Stmt) -> ACheck
    decreases s,
{
    match s {
        Stmt::Declare { name, declared, init } => {
            let it = infer_spec(table, init);
            match declared {
                Some(dt) => if !compat_spec(dt, it) {
                    ACheck::Fail(dt, it)
                } else {
                    ACheck::Pass(table.insert(name@, dt))
                },
                None => ACheck::Pass(table.insert(name@, Type::Any)),
            }
        },
        Stmt::Assign { name, value } => {
            let it = infer_spec(table, value);
            if table.contains_key(name@) {
                if !compat_spec(table[name@], it) {
                    ACheck::Fail(table[name@], it)
                } else {
                    ACheck::Pass(table)
                }
            } else {
                ACheck::Pass(table.insert(name@, Type::Any))
            }
        },
        Stmt::IfStmt { cond: _, body } => check_stmts_spec(table, body@),
        Stmt::WhileStmt { cond: _, body } => check_stmts_spec(table, body@),
        Stmt::ExprStmt(_) => ACheck::Pass(table),
    }
}

/// The verdict for a statement sequence under a table: the first
/// inconsistency wins.
pub open spec fn check_stmts_spec(table: Map<Seq<char>, Type>, list: Seq<Stmt>) -> ACheck
    decreases list,
{
    if list.len() == 0 {
        ACheck::Pass(table)
    } else {
        match check_stmt_spec(table, list[0]) {
            ACheck::Pass(t2) => check_stmts_spec(t2, list.subrange(1, list.len() as int)),
            f => f,
        }
    }
}

/// The static analyzer; its variable-type table is seeded by the caller
/// and discarded after the pass.
pub struct Analyzer {
    variables: StrMap<Type>,
}

fn statically_compatible(declared: &Type, found: &Type) -> (r: bool)
    ensures
        r == compat_spec(*declared, *found),
{
    match (declared, found) {
        (Type::Any, _) => true,
        (_, Type::Any) => true,
        (_, Type::Nothing) => true,
        (Type::Whole, Type::Whole) => true,
        (Type::Whole, Type::Decimal) => true,
        (Type::Decimal, Type::Whole) => true,
        (Type::Decimal, Type::Decimal) => true,
        (Type::Text, Type::Text) => true,
        (Type::Truth, Type::Truth) => true,
        (Type::Object, Type::Object) => true,
        (Type::ListOf(_), Type::ListOf(_)) => true,
        (Type::MappingOf(_, _), Type::MappingOf(_, _)) => true,
        (Type::PromiseOf(_), Type::PromiseOf(_)) => true,
        _ => false,
    }
}

fn infer_expr(table: &StrMap<Type>, e: &Expr) -> (t: Type)
    requires
        table.wf(),
    ensures
        t == infer_spec(table@, *e),
{
    match e {
        Expr::NumberLit(num) => {
            if num.is_whole() {
                Type::Whole
            } else {
                Type::Decimal
            }
        },
        Expr::TextLit(_) => Type::Text,
        Expr::TruthLit(_) => Type::Truth,
        Expr::NothingLit => Type::Nothing,
        Expr::Variable(name) => {
            match table.get(name.as_str()) {
                Some(t) => type_dup(t),
                None => Type::Any,
            }
        },
        Expr::Binary(_, _, _) => Type::Decimal,
        Expr::CallExpr(_, _) => Type::Any,
        Expr::CastExpr(_, t) => type_dup(t),
        Expr::Interpolate(_) => Type::Text,
    }
}

impl Analyzer {
    /// A fresh analyzer with an empty table.
    pub fn new() -> (r: Analyzer)
        ensures
            r.wf(),
            r.table() == Map::<Seq<char>, Type>::empty(),
    {
        Analyzer { variables: StrMap::new() }
    }

    /// Well-formedness of the seeded table.
    pub closed spec fn wf(self) -> bool {
        self.variables.wf()
    }

    /// The seeded table's model.
    pub closed spec fn table(self) -> Map<Seq<char>, Type> {
        self.variables@
    }

    /// Seed the table with a variable's declared type carried over from a
    /// previous run.
    pub fn declare(&mut self, name: String, t: Type)
        requires
            old(self).wf(),
        ensures
            final(self).wf(),
            final(self).table() == old(self).table().insert(name@, t),
    {
        self.variables.insert(name, t);
    }

    fn check_stmts(&mut self, stmts: &Vec<Stmt>) -> (r: Result<(), Error>)
        requires
            old(self).wf(),
        ensures
            final(self).wf(),
            check_stmts_spec(old(self).table(), stmts@) matches ACheck::Pass(t2) ==> (r is Ok
                && final(self).table() == t2),
            check_stmts_spec(old(self).table(), stmts@) matches ACheck::Fail(d, f) ==> (
            r matches Err(e) && e@ == ErrV::TypeErr(d, f)),
        decreases stmts,
    {
        let mut k: usize = 0;
        proof {
            assert(stmts@.skip(0) =~= stmts@);
        }
        while k < stmts.len()
            invariant
                self.wf(),
                k <= stmts@.len(),
                check_stmts_spec(old(self).table(), stmts@) == check_stmts_spec(
                    self.table(),
                    stmts@.skip(k as int),
                ),
            decreases stmts@.len() - k,
        {
            let ghost tbl = self.table();
            proof {
                assert(stmts@.skip(k as int)[0] == stmts@[k as int]);
                assert(stmts@.skip(k as int).subrange(1, stmts@.skip(k as int).len() as int)
                    =~= stmts@.skip(k + 1 as int));
            }
            match self.check_stmt(&stmts[k]) {
                Ok(()) => {},
                Err(e) => {
                    return Err(e);
                },
            }
            k = k + 1;
        }
        proof {
            assert(stmts@.skip(stmts@.len() as int) =~= Seq::<Stmt>::empty());
        }
        Ok(())
    }

    fn check_stmt(&mut self, s: &Stmt) -> (r: Result<(), Error>)
        requires
            old(self).wf(),
        ensures
            final(self).wf(),
            check_stmt_spec(old(self).table(), *s) matches ACheck::Pass(t2) ==> (r is Ok
                && final(self).table() == t2),
            check_stmt_spec(old(self).table(), *s) matches ACheck::Fail(d, f) ==> (
            r matches Err(e) && e@ == ErrV::TypeErr(d, f)),
        decreases s,
    {
        match s {
            Stmt::Declare { name, declared, init } => {
                let it = infer_expr(&self.variables, init);
                match declared {
                    Some(dt) => {
                        if !statically_compatible(dt, &it) {
                            return Err(Error::TypeError { expected: type_dup(dt), found: it });
                        }
                        self.variables.insert(name.clone(), type_dup(dt));
                    },
                    None => {
                        self.variables.insert(name.clone(), Type::Any);
                    },
                }
                Ok(())
            },
            Stmt::Assign { name, value } => {
                let it = infer_expr(&self.variables, value);
                let declared = match self.variables.get(name.as_str()) {
                    Some(t) => Some(type_dup(t)),
                    None => None,
                };
                match declared {
                    Some(dt) => {
                        if !statically_compatible(&dt, &it) {
                            return Err(Error::TypeError { expected: dt, found: it });
                        }
                    },
                    None => {
                        self.variables.insert(name.clone(), Type::Any);
                    },
                }
                Ok(())
            },
            Stmt::IfStmt { cond: _, body } => self.check_stmts(body),
            Stmt::WhileStmt { cond: _, body } => self.check_stmts(body),
            Stmt::ExprStmt(_) => Ok(()),
        }
    }

    /// Validate the statement sequence against the seeded table: the pass
    /// succeeds exactly when the specification pass does, and a failure
    /// carries the first inconsistency's declared and inferred types.
    pub fn analyze(&mut self, ast: &Vec<Stmt>) -> (r: Result<(), Error>)
        requires
            old(self).wf(),
        ensures
            final(self).wf(),
            r is Ok <==> check_stmts_spec(old(self).table(), ast@) is Pass,
            check_stmts_spec(old(self).table(), ast@) matches ACheck::Fail(d, f) ==> (
            r matches Err(e) && e@ == ErrV::TypeErr(d, f)),
    {
        self.check_stmts(ast)
    }
}

} // verus!
