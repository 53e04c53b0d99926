//! The parser: an ordered token sequence to a sequence of top-level
//! statement nodes, or a `ParseError` naming the construct expected.

use vstd::prelude::*;
use vstd::string::StringExecFns;
use crate::ast::{Expr, Stmt, BinOp};
use crate::errors::Error;
use crate::num::Num;
use crate::strings::str_eq;
use crate::token::{Token, TextPart};
use crate::value::Type;

verus! {

/// A description of a token, for diagnostics.
fn token_desc(t: &Token) -> (s: String) {
    match t {
        Token::Ident(_) => "an identifier".to_owned(),
        Token::Number(_) => "a number".to_owned(),
        Token::TextLit(_) => "a text literal".to_owned(),
        Token::KwLet => "'let'".to_owned(),
        Token::KwIf => "'if'".to_owned(),
        Token::KwWhile => "'while'".to_owned(),
        Token::KwAs => "'as'".to_owned(),
        Token::KwTrue => "'true'".to_owned(),
        Token::KwFalse => "'false'".to_owned(),
        Token::KwNothing => "'nothing'".to_owned(),
        Token::Colon => "':'".to_owned(),
        Token::Assign => "'='".to_owned(),
        Token::Plus => "'+'".to_owned(),
        Token::Minus => "'-'".to_owned(),
        Token::Star => "'*'".to_owned(),
        Token::Slash => "'/'".to_owned(),
        Token::LParen => "'('".to_owned(),
        Token::RParen => "')'".to_owned(),
        Token::LBrace => "'{'".to_owned(),
        Token::RBrace => "'}'".to_owned(),
        Token::Comma => "','".to_owned(),
        Token::Newline => "end of line".to_owned(),
    }
}

fn expected_err(what: &str, toks: &Vec<Token>, pos: usize) -> (r: Error)
    ensures
        r@ is Parse,
{
    let mut msg = "expected ".to_owned();
    msg.append(what);
    if pos < toks.len() {
        msg.append(", found ");
        msg.append(token_desc(&toks[pos]).as_str());
    } else {
        msg.append(", found end of input");
    }
    Error::ParseError(msg)
}

/// The static type a written type name denotes; an unknown name is
/// unchecked.
pub open spec fn type_of_name(name: Seq<char>) -> Type {
    if name == "Whole"@ {
        Type::Whole
    } else if name == "Decimal"@ {
        Type::Decimal
    } else if name == "Text"@ {
        Type::Text
    } else if name == "Truth"@ {
        Type::Truth
    } else if name == "Nothing"@ {
        Type::Nothing
    } else if name == "Object"@ {
        Type::Object
    } else {
        Type::Any
    }
}

/// The static type a written type name denotes; an unknown name is
/// unchecked.
pub fn type_from_name(name: &str) -> (t: Type)
    ensures
        t == type_of_name(name@),
{
    if str_eq(name, "Whole") {
        Type::Whole
    } else if str_eq(name, "Decimal") {
        Type::Decimal
    } else if str_eq(name, "Text") {
        Type::Text
    } else if str_eq(name, "Truth") {
        Type::Truth
    } else if str_eq(name, "Nothing") {
        Type::Nothing
    } else if str_eq(name, "Object") {
        Type::Object
    } else {
        Type::Any
    }
}

fn parse_primary(toks: &Vec<Token>, pos: usize) -> (r: Result<(Expr, usize), Error>)
    requires
        pos <= toks@.len(),
    ensures
        r matches Ok(t) ==> pos < t.1 <= toks@.len(),
        r matches Err(e) ==> e@ is Parse,
    decreases toks@.len() - pos, 0int,
{
    if pos >= toks.len() {
        return Err(expected_err("an expression", toks, pos));
    }
    match &toks[pos] {
        Token::Number(num) => Ok((Expr::NumberLit(*num), pos + 1)),
        Token::KwTrue => Ok((Expr::TruthLit(true), pos + 1)),
        Token::KwFalse => Ok((Expr::TruthLit(false), pos + 1)),
        Token::KwNothing => Ok((Expr::NothingLit, pos + 1)),
        Token::TextLit(parts) => {
            if parts.len() == 1 {
                match &parts[0] {
                    TextPart::Lit(s) => {
                        return Ok((Expr::TextLit(s.clone()), pos + 1));
                    },
                    TextPart::Interp(_) => {},
                }
            }
            let mut exprs: Vec<Expr> = Vec::new();
            let mut k: usize = 0;
            while k < parts.len()
                decreases parts@.len() - k,
            {
                match &parts[k] {
                    TextPart::Lit(s) => {
                        exprs.push(Expr::TextLit(s.clone()));
                    },
                    TextPart::Interp(nm) => {
                        exprs.push(Expr::Variable(nm.clone()));
                    },
                }
                k = k + 1;
            }
            Ok((Expr::Interpolate(exprs), pos + 1))
        },
        Token::Ident(name) => {
            if pos + 1 < toks.len() && matches!(&toks[pos + 1], Token::LParen) {
                // A function call with a fixed argument count.
                let mut args: Vec<Expr> = Vec::new();
                let mut cur: usize = pos + 2;
                if cur < toks.len() && matches!(&toks[cur], Token::RParen) {
                    return Ok((Expr::CallExpr(name.clone(), args), cur + 1));
                }
                loop
                    invariant
                        pos + 2 <= cur <= toks@.len(),
                    decreases toks@.len() - cur,
                {
                    match parse_expr(toks, cur) {
                        Ok((e, p2)) => {
                            args.push(e);
                            if p2 < toks.len() && matches!(&toks[p2], Token::Comma) {
                                cur = p2 + 1;
                            } else if p2 < toks.len() && matches!(&toks[p2], Token::RParen) {
                                return Ok((Expr::CallExpr(name.clone(), args), p2 + 1));
                            } else {
                                return Err(expected_err("',' or ')'", toks, p2));
                            }
                        },
                        Err(e) => {
                            return Err(e);
                        },
                    }
                }
            } else {
                Ok((Expr::Variable(name.clone()), pos + 1))
            }
        },
        Token::LParen => {
            match parse_expr(toks, pos + 1) {
                Ok((e, p2)) => {
                    if p2 < toks.len() && matches!(&toks[p2], Token::RParen) {
                        Ok((e, p2 + 1))
                    } else {
                        Err(expected_err("')'", toks, p2))
                    }
                },
                Err(e) => Err(e),
            }
        },
        _ => Err(expected_err("an expression", toks, pos)),
    }
}

fn parse_factor(toks: &Vec<Token>, pos: usize) -> (r: Result<(Expr, usize), Error>)
    requires
        pos <= toks@.len(),
    ensures
        r matches Ok(t) ==> pos < t.1 <= toks@.len(),
        r matches Err(e) ==> e@ is Parse,
    decreases toks@.len() - pos, 1int,
{
    if pos < toks.len() && matches!(&toks[pos], Token::Minus) {
        // Unary negation reads as zero minus the operand.
        match parse_factor(toks, pos + 1) {
            Ok((e, p2)) => {
                return Ok(
                    (
                        Expr::Binary(
                            BinOp::Subtract,
                            Box::new(Expr::NumberLit(Num::zero())),
                            Box::new(e),
                        ),
                        p2,
                    ),
                );
            },
            Err(e) => {
                return Err(e);
            },
        }
    }
    let first = parse_primary(toks, pos);
    match first {
        Ok((e0, p0)) => {
            let mut e = e0;
            let mut cur = p0;
            while cur < toks.len() && matches!(&toks[cur], Token::KwAs)
                invariant
                    pos < cur <= toks@.len(),
                decreases toks@.len() - cur,
            {
                if cur + 1 < toks.len() {
                    match &toks[cur + 1] {
                        Token::Ident(tn) => {
                            e = Expr::CastExpr(Box::new(e), type_from_name(tn.as_str()));
                            cur = cur + 2;
                        },
                        _ => {
                            return Err(expected_err("a type name", toks, cur + 1));
                        },
                    }
                } else {
                    return Err(expected_err("a type name", toks, cur + 1));
                }
            }
            Ok((e, cur))
        },
        Err(e) => Err(e),
    }
}

fn parse_term(toks: &Vec<Token>, pos: usize) -> (r: Result<(Expr, usize), Error>)
    requires
        pos <= toks@.len(),
    ensures
        r matches Ok(t) ==> pos < t.1 <= toks@.len(),
        r matches Err(e) ==> e@ is Parse,
    decreases toks@.len() - pos, 2int,
{
    let first = parse_factor(toks, pos);
    match first {
        Ok((e0, p0)) => {
            let mut e = e0;
            let mut cur = p0;
            while cur < toks.len() && (matches!(&toks[cur], Token::Star) || matches!(
                &toks[cur],
                Token::Slash,
            ))
                invariant
                    pos < cur <= toks@.len(),
                decreases toks@.len() - cur,
            {
                let op = if matches!(&toks[cur], Token::Star) {
                    BinOp::Multiply
                } else {
                    BinOp::Divide
                };
                match parse_factor(toks, cur + 1) {
                    Ok((e2, p2)) => {
                        e = Expr::Binary(op, Box::new(e), Box::new(e2));
                        cur = p2;
                    },
                    Err(e2) => {
                        return Err(e2);
                    },
                }
            }
            Ok((e, cur))
        },
        Err(e) => Err(e),
    }
}

fn parse_expr(toks: &Vec<Token>, pos: usize) -> (r: Result<(Expr, usize), Error>)
    requires
        pos <= toks@.len(),
    ensures
        r matches Ok(t) ==> pos < t.1 <= toks@.len(),
        r matches Err(e) ==> e@ is Parse,
    decreases toks@.len() - pos, 3int,
{
    let first = parse_term(toks, pos);
    match first {
        Ok((e0, p0)) => {
            let mut e = e0;
            let mut cur = p0;
            while cur < toks.len() && (matches!(&toks[cur], Token::Plus) || matches!(
                &toks[cur],
                Token::Minus,
            ))
                invariant
                    pos < cur <= toks@.len(),
                decreases toks@.len() - cur,
            {
                let op = if matches!(&toks[cur], Token::Plus) {
                    BinOp::Add
                } else {
                    BinOp::Subtract
                };
                match parse_term(toks, cur + 1) {
                    Ok((e2, p2)) => {
                        e = Expr::Binary(op, Box::new(e), Box::new(e2));
                        cur = p2;
                    },
                    Err(e2) => {
                        return Err(e2);
                    },
                }
            }
            Ok((e, cur))
        },
        Err(e) => Err(e),
    }
}

fn parse_block(toks: &Vec<Token>, pos: usize) -> (r: Result<(Vec<Stmt>, usize), Error>)
    requires
        pos <= toks@.len(),
    ensures
        r matches Ok(t) ==> pos < t.1 <= toks@.len(),
        r matches Err(e) ==> e@ is Parse,
    decreases toks@.len() - pos, 5int,
{
    if !(pos < toks.len() && matches!(&toks[pos], Token::LBrace)) {
        return Err(expected_err("'{'", toks, pos));
    }
    let mut body: Vec<Stmt> = Vec::new();
    let mut cur = pos + 1;
    loop
        invariant
            pos < cur <= toks@.len(),
        decreases toks@.len() - cur,
    {
        if cur >= toks.len() {
            return Err(expected_err("'}'", toks, cur));
        }
        if matches!(&toks[cur], Token::Newline) {
            cur = cur + 1;
        } else if matches!(&toks[cur], Token::RBrace) {
            return Ok((body, cur + 1));
        } else {
            match parse_stmt(toks, cur) {
                Ok((s, p2)) => {
                    body.push(s);
                    if p2 < toks.len() && (matches!(&toks[p2], Token::Newline) || matches!(
                        &toks[p2],
                        Token::RBrace,
                    )) {
                        cur = p2;
                    } else {
                        return Err(expected_err("end of statement", toks, p2));
                    }
                },
                Err(e) => {
                    return Err(e);
                },
            }
        }
    }
}

fn parse_stmt(toks: &Vec<Token>, pos: usize) -> (r: Result<(Stmt, usize), Error>)
    requires
        pos <= toks@.len(),
    ensures
        r matches Ok(t) ==> pos < t.1 <= toks@.len(),
        r matches Err(e) ==> e@ is Parse,
    decreases toks@.len() - pos, 4int,
{
    if pos >= toks.len() {
        return Err(expected_err("a statement", toks, pos));
    }
    match &toks[pos] {
        Token::KwLet => {
            if !(pos + 1 < toks.len()) {
                return Err(expected_err("a variable name", toks, pos + 1));
            }
            let name = match &toks[pos + 1] {
                Token::Ident(nm) => nm.clone(),
                _ => {
                    return Err(expected_err("a variable name", toks, pos + 1));
                },
            };
            let mut cur = pos + 2;
            let mut declared: Option<Type> = None;
            if cur < toks.len() && matches!(&toks[cur], Token::Colon) {
                if cur + 1 < toks.len() {
                    match &toks[cur + 1] {
                        Token::Ident(tn) => {
                            declared = Some(type_from_name(tn.as_str()));
                            cur = cur + 2;
                        },
                        _ => {
                            return Err(expected_err("a type name", toks, cur + 1));
                        },
                    }
                } else {
                    return Err(expected_err("a type name", toks, cur + 1));
                }
            }
            if !(cur < toks.len() && matches!(&toks[cur], Token::Assign)) {
                return Err(expected_err("'='", toks, cur));
            }
            match parse_expr(toks, cur + 1) {
                Ok((e, p2)) => Ok((Stmt::Declare { name, declared, init: e }, p2)),
                Err(e) => Err(e),
            }
        },
        Token::KwIf => {
            match parse_expr(toks, pos + 1) {
                Ok((cond, p2)) => {
                    match parse_block(toks, p2) {
                        Ok((body, p3)) => Ok((Stmt::IfStmt { cond, body }, p3)),
                        Err(e) => Err(e),
                    }
                },
                Err(e) => Err(e),
            }
        },
        Token::KwWhile => {
            match parse_expr(toks, pos + 1) {
                Ok((cond, p2)) => {
                    match parse_block(toks, p2) {
                        Ok((body, p3)) => Ok((Stmt::WhileStmt { cond, body }, p3)),
                        Err(e) => Err(e),
                    }
                },
                Err(e) => Err(e),
            }
        },
        Token::Ident(name) => {
            if pos + 1 < toks.len() && matches!(&toks[pos + 1], Token::Assign) {
                match parse_expr(toks, pos + 2) {
                    Ok((e, p2)) => Ok((Stmt::Assign { name: name.clone(), value: e }, p2)),
                    Err(e) => Err(e),
                }
            } else {
                match parse_expr(toks, pos) {
                    Ok((e, p2)) => Ok((Stmt::ExprStmt(e), p2)),
                    Err(e) => Err(e),
                }
            }
        },
        _ => {
            match parse_expr(toks, pos) {
                Ok((e, p2)) => Ok((Stmt::ExprStmt(e), p2)),
                Err(e) => Err(e),
            }
        },
    }
}

/// One parser instance per fragment.
#[derive(Debug)]
pub struct Parser {
    tokens: Vec<Token>,
}

impl Parser {
    /// The loaded token sequence.
    pub closed spec fn toks(self) -> Seq<Token> {
        self.tokens@
    }

    /// A parser over the given token sequence.
    pub fn new(tokens: Vec<Token>) -> (r: Parser)
        ensures
            r.toks() == tokens@,
    {
        Parser { tokens }
    }

    /// Produce the ordered sequence of top-level statements, or fail with
    /// a parse error.  Statements are separated by line breaks.
    pub fn parse(&self) -> (r: Result<Vec<Stmt>, Error>)
        ensures
            r matches Err(e) ==> e@ is Parse,
            (forall|q: int|
                0 <= q < self.toks().len() ==> (#[trigger] self.toks()[q]) is Newline) ==> (
            r matches Ok(ss) && ss@.len() == 0),
            (exists|q: int|
                0 <= q < self.toks().len() && !((#[trigger] self.toks()[q]) is Newline)) ==> (
            r matches Ok(ss) ==> ss@.len() > 0),
    {
        let n = self.tokens.len();
        let mut stmts: Vec<Stmt> = Vec::new();
        let mut pos: usize = 0;
        while pos < n
            invariant
                n == self.tokens@.len(),
                pos <= n,
                (forall|q: int| 0 <= q < n ==> (#[trigger] self.toks()[q]) is Newline)
                    ==> stmts@.len() == 0,
                (exists|q: int| 0 <= q < pos && !((#[trigger] self.toks()[q]) is Newline))
                    ==> stmts@.len() > 0,
            decreases n - pos,
        {
            proof {
                if forall|q: int|
                    0 <= q < self.toks().len() ==> (#[trigger] self.toks()[q]) is Newline {
                    assert(self.toks()[pos as int] is Newline);
                }
            }
            if matches!(&self.tokens[pos], Token::Newline) {
                pos = pos + 1;
            } else {
                match parse_stmt(&self.tokens, pos) {
                    Ok((s, p2)) => {
                        stmts.push(s);
                        if p2 < n && !matches!(&self.tokens[p2], Token::Newline) {
                            return Err(expected_err("end of statement", &self.tokens, p2));
                        }
                        pos = p2;
                    },
                    Err(e) => {
                        return Err(e);
                    },
                }
            }
        }
        Ok(stmts)
    }
}

} // verus!
