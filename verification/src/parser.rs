//! The parser: tokens to the surface AST.
//!
//! Recursive descent with the usual precedence: application binds tighter
//! than `*`, which binds tighter than `+`, then `<`, then `==`; `+` groups
//! to the right; `.` projects from an atom. The program ends with `;;`.
//! Two static checks are the parser's own: `recur` may stand only in tail
//! position of the nearest enclosing `loop` body — the result is guaranteed
//! to satisfy `recur_ok` — and the right-hand side of a `let rec` must be a
//! `fun`.

use vstd::prelude::*;
use crate::names::Id;
use crate::ast::{Ast, AstV, Bintype};
use crate::lexer::{TokenType, TokenSet};

verus! {

/// The parse error: the offending token's index, an unexpected end, a
/// `recur` outside tail position, or a `let rec` not binding a `fun`.
#[derive(Debug, PartialEq)]
pub enum ParseError {
    Unexpected(usize),
    Eof,
    RecurPosition,
    RecNotFun,
}

/// Whether every `recur` stands in tail position of the nearest enclosing
/// `loop` body; `endpos` says whether the expression itself stands there.
/// Tail position passes from a loop body through `let`/`let rec` scopes and
/// `if` branches; operands, conditions, bound expressions, arguments and
/// function bodies are not tail positions.
pub open spec fn recur_ok(a: AstV, endpos: bool) -> bool
    decreases a,
{
    match a {
        AstV::ILit(_) => true,
        AstV::BLit(_) => true,
        AstV::Var(_) => true,
        AstV::Binop(_, a1, a2) => recur_ok(*a1, false) && recur_ok(*a2, false),
        AstV::If(a1, a2, a3) => recur_ok(*a1, false) && recur_ok(*a2, endpos) && recur_ok(
            *a3,
            endpos,
        ),
        AstV::Fun(_, a1) => recur_ok(*a1, false),
        AstV::Let(_, a1, a2) => recur_ok(*a1, false) && recur_ok(*a2, endpos),
        AstV::Rec(_, _, a1, a2) => recur_ok(*a1, false) && recur_ok(*a2, endpos),
        AstV::Loop(_, a1, a2) => recur_ok(*a1, false) && recur_ok(*a2, true),
        AstV::Recur(a1) => endpos && recur_ok(*a1, false),
        AstV::App(a1, a2) => recur_ok(*a1, false) && recur_ok(*a2, false),
        AstV::Tuple(a1, a2) => recur_ok(*a1, false) && recur_ok(*a2, false),
        AstV::Proj(a1, _) => recur_ok(*a1, false),
    }
}

/// Checks the placement of every `recur`.
fn recur_check(ast: &Ast, endpos: bool) -> (r: bool)
    ensures
        r == recur_ok(ast@, endpos),
    decreases *ast,
{
    match ast {
        Ast::ILit(_) => true,
        Ast::BLit(_) => true,
        Ast::Var(_) => true,
        Ast::Binop(_, a1, a2) => recur_check(a1, false) && recur_check(a2, false),
        Ast::If(a1, a2, a3) => recur_check(a1, false) && recur_check(a2, endpos) && recur_check(
            a3,
            endpos,
        ),
        Ast::Fun(_, a1) => recur_check(a1, false),
        Ast::Let(_, a1, a2) => recur_check(a1, false) && recur_check(a2, endpos),
        Ast::Rec(_, _, a1, a2) => recur_check(a1, false) && recur_check(a2, endpos),
        Ast::Loop(_, a1, a2) => recur_check(a1, false) && recur_check(a2, true),
        Ast::Recur(a1) => endpos && recur_check(a1, false),
        Ast::App(a1, a2) => recur_check(a1, false) && recur_check(a2, false),
        Ast::Tuple(a1, a2) => recur_check(a1, false) && recur_check(a2, false),
        Ast::Proj(a1, _) => recur_check(a1, false),
    }
}

/// The operator tag of an operator token.
fn ttype2btype(ttype: TokenType) -> (r: Bintype)
    requires
        ttype == TokenType::Plus || ttype == TokenType::Mult || ttype == TokenType::Lt || ttype
            == TokenType::Eq,
    ensures
        ttype == TokenType::Plus ==> r == Bintype::Plus,
        ttype == TokenType::Mult ==> r == Bintype::Mult,
        ttype == TokenType::Lt ==> r == Bintype::Lt,
        ttype == TokenType::Eq ==> r == Bintype::Eq,
{
    match ttype {
        TokenType::Plus => Bintype::Plus,
        TokenType::Mult => Bintype::Mult,
        TokenType::Lt => Bintype::Lt,
        _ => Bintype::Eq,
    }
}

/// The kind of the token under the cursor, if any.
fn peek(ts: &TokenSet) -> (r: Option<TokenType>)
    ensures
        r is Some <==> ts.pos < ts.tokens@.len(),
        r is Some ==> r->0 == ts.tokens@[ts.pos as int].tokentype,
{
    if ts.pos < ts.tokens.len() {
        Some(ts.curtype())
    } else {
        None
    }
}

/// Consumes the current token when it has the asked kind; never moves past
/// the end.
fn consume_tt(ts: &mut TokenSet, ttype: TokenType) -> (r: bool)
    requires
        old(ts).pos <= old(ts).tokens@.len(),
    ensures
        final(ts).tokens == old(ts).tokens,
        old(ts).pos <= final(ts).pos <= final(ts).tokens@.len(),
        r ==> final(ts).pos == old(ts).pos + 1,
        !r ==> final(ts).pos == old(ts).pos,
{
    if ts.pos < ts.tokens.len() {
        ts.consume_ttype(ttype)
    } else {
        false
    }
}

/// Demands the current token's kind and consumes it.
fn expect_ttype(ts: &mut TokenSet, ttype: TokenType) -> (r: Result<(), ParseError>)
    requires
        old(ts).pos <= old(ts).tokens@.len(),
    ensures
        final(ts).tokens == old(ts).tokens,
        old(ts).pos <= final(ts).pos <= final(ts).tokens@.len(),
        r is Ok ==> final(ts).pos == old(ts).pos + 1,
{
    if consume_tt(ts, ttype) {
        Ok(())
    } else {
        Err(ParseError::Unexpected(ts.pos))
    }
}

/// Demands an identifier and consumes it.
fn identify(ts: &mut TokenSet) -> (r: Result<Id, ParseError>)
    requires
        old(ts).pos <= old(ts).tokens@.len(),
    ensures
        final(ts).tokens == old(ts).tokens,
        old(ts).pos <= final(ts).pos <= final(ts).tokens@.len(),
        r is Ok ==> final(ts).pos == old(ts).pos + 1,
{
    if ts.pos < ts.tokens.len() {
        match ts.curid() {
            Some(id) => {
                ts.pos = ts.pos + 1;
                Ok(id)
            },
            None => Err(ParseError::Unexpected(ts.pos)),
        }
    } else {
        Err(ParseError::Eof)
    }
}

/// Wraps an atom in the `.k` projections that follow it.
fn proj(ts: &mut TokenSet, ast: Ast) -> (r: Result<Ast, ParseError>)
    requires
        old(ts).pos <= old(ts).tokens@.len(),
    ensures
        final(ts).tokens == old(ts).tokens,
        old(ts).pos <= final(ts).pos <= final(ts).tokens@.len(),
    decreases ts.tokens@.len() - ts.pos, 0nat,
{
    let mut ast = ast;
    while consume_tt(ts, TokenType::Dot)
        invariant
            ts.tokens == old(ts).tokens,
            old(ts).pos <= ts.pos <= ts.tokens@.len(),
        decreases ts.tokens@.len() - ts.pos,
    {
        let num = aexpr(ts)?;
        match num {
            Some(Ast::ILit(v)) => {
                ast = Ast::Proj(Box::new(ast), v);
            },
            _ => {
                return Err(ParseError::Unexpected(ts.pos));
            },
        }
    }
    Ok(ast)
}

/// An atom: a literal, a variable, `true`, `false`, or a parenthesized
/// expression or pair, each with its projections. `None` when the cursor
/// does not start an atom.
fn aexpr(ts: &mut TokenSet) -> (r: Result<Option<Ast>, ParseError>)
    requires
        old(ts).pos <= old(ts).tokens@.len(),
    ensures
        final(ts).tokens == old(ts).tokens,
        old(ts).pos <= final(ts).pos <= final(ts).tokens@.len(),
        r matches Ok(a) && a is Some ==> final(ts).pos > old(ts).pos,
        r matches Ok(a) && a is None ==> final(ts).pos == old(ts).pos,
    decreases ts.tokens@.len() - ts.pos, 1nat,
{
    let n = ts.tokens.len();
    match peek(ts) {
        None => Ok(None),
        Some(TokenType::ILit) => {
            let num = ts.curnum();
            ts.pos = ts.pos + 1;
            Ok(Some(Ast::ILit(num)))
        },
        Some(TokenType::Id) => {
            match ts.curid() {
                Some(var) => {
                    ts.pos = ts.pos + 1;
                    let a = proj(ts, Ast::Var(var))?;
                    Ok(Some(a))
                },
                None => Err(ParseError::Unexpected(ts.pos)),
            }
        },
        Some(TokenType::True) => {
            ts.pos = ts.pos + 1;
            Ok(Some(Ast::BLit(true)))
        },
        Some(TokenType::False) => {
            ts.pos = ts.pos + 1;
            Ok(Some(Ast::BLit(false)))
        },
        Some(TokenType::Lbrac) => {
            ts.pos = ts.pos + 1;
            let mut ast = expr(ts)?;
            if consume_tt(ts, TokenType::Comma) {
                ast = Ast::Tuple(Box::new(ast), Box::new(expr(ts)?));
            }
            expect_ttype(ts, TokenType::Rbrac)?;
            let a = proj(ts, ast)?;
            Ok(Some(a))
        },
        Some(_) => Ok(None),
    }
}

/// Applications: `recur e`, or an atom applied to the atoms that follow it.
fn appexpr(ts: &mut TokenSet) -> (r: Result<Ast, ParseError>)
    requires
        old(ts).pos <= old(ts).tokens@.len(),
    ensures
        final(ts).tokens == old(ts).tokens,
        old(ts).pos <= final(ts).pos <= final(ts).tokens@.len(),
    decreases ts.tokens@.len() - ts.pos, 2nat,
{
    if consume_tt(ts, TokenType::Recur) {
        match aexpr(ts)? {
            Some(a) => {
                return Ok(Ast::Recur(Box::new(a)));
            },
            None => {
                return Err(ParseError::Unexpected(ts.pos));
            },
        }
    }
    let mut ast = match aexpr(ts)? {
        Some(a) => a,
        None => {
            return Err(ParseError::Unexpected(ts.pos));
        },
    };
    loop
        invariant
            ts.tokens == old(ts).tokens,
            old(ts).pos <= ts.pos <= ts.tokens@.len(),
        decreases ts.tokens@.len() - ts.pos,
    {
        let ast1 = aexpr(ts)?;
        match ast1 {
            None => {
                break ;
            },
            Some(a1) => {
                ast = Ast::App(Box::new(ast), Box::new(a1));
            },
        }
    }
    Ok(ast)
}

/// Products.
fn mexpr(ts: &mut TokenSet) -> (r: Result<Ast, ParseError>)
    requires
        old(ts).pos <= old(ts).tokens@.len(),
    ensures
        final(ts).tokens == old(ts).tokens,
        old(ts).pos <= final(ts).pos <= final(ts).tokens@.len(),
    decreases ts.tokens@.len() - ts.pos, 3nat,
{
    let mut ast = appexpr(ts)?;
    while consume_tt(ts, TokenType::Mult)
        invariant
            ts.tokens == old(ts).tokens,
            old(ts).pos <= ts.pos <= ts.tokens@.len(),
        decreases ts.tokens@.len() - ts.pos,
    {
        match aexpr(ts)? {
            Some(a1) => {
                ast = Ast::Binop(ttype2btype(TokenType::Mult), Box::new(ast), Box::new(a1));
            },
            None => {
                return Err(ParseError::Unexpected(ts.pos));
            },
        }
    }
    Ok(ast)
}

/// Sums; `+` groups to the right.
fn pexpr(ts: &mut TokenSet) -> (r: Result<Ast, ParseError>)
    requires
        old(ts).pos <= old(ts).tokens@.len(),
    ensures
        final(ts).tokens == old(ts).tokens,
        old(ts).pos <= final(ts).pos <= final(ts).tokens@.len(),
    decreases ts.tokens@.len() - ts.pos, 4nat,
{
    let mut ast = mexpr(ts)?;
    while consume_tt(ts, TokenType::Plus)
        invariant
            ts.tokens == old(ts).tokens,
            old(ts).pos <= ts.pos <= ts.tokens@.len(),
        decreases ts.tokens@.len() - ts.pos,
    {
        let rhs = pexpr(ts)?;
        ast = Ast::Binop(ttype2btype(TokenType::Plus), Box::new(ast), Box::new(rhs));
    }
    Ok(ast)
}

/// Comparisons.
fn ltexpr(ts: &mut TokenSet) -> (r: Result<Ast, ParseError>)
    requires
        old(ts).pos <= old(ts).tokens@.len(),
    ensures
        final(ts).tokens == old(ts).tokens,
        old(ts).pos <= final(ts).pos <= final(ts).tokens@.len(),
    decreases ts.tokens@.len() - ts.pos, 5nat,
{
    let last = pexpr(ts)?;
    if consume_tt(ts, TokenType::Lt) {
        let rast = pexpr(ts)?;
        return Ok(Ast::Binop(ttype2btype(TokenType::Lt), Box::new(last), Box::new(rast)));
    }
    Ok(last)
}

/// Equalities.
fn eqexpr(ts: &mut TokenSet) -> (r: Result<Ast, ParseError>)
    requires
        old(ts).pos <= old(ts).tokens@.len(),
    ensures
        final(ts).tokens == old(ts).tokens,
        old(ts).pos <= final(ts).pos <= final(ts).tokens@.len(),
    decreases ts.tokens@.len() - ts.pos, 6nat,
{
    let lhs = ltexpr(ts)?;
    if consume_tt(ts, TokenType::Eq) {
        let rhs = ltexpr(ts)?;
        return Ok(Ast::Binop(ttype2btype(TokenType::Eq), Box::new(lhs), Box::new(rhs)));
    }
    Ok(lhs)
}

/// Expressions: `if`, `fun`, `let`, `let rec`, `loop`, or an operator
/// expression.
fn expr(ts: &mut TokenSet) -> (r: Result<Ast, ParseError>)
    requires
        old(ts).pos <= old(ts).tokens@.len(),
    ensures
        final(ts).tokens == old(ts).tokens,
        old(ts).pos <= final(ts).pos <= final(ts).tokens@.len(),
    decreases ts.tokens@.len() - ts.pos, 7nat,
{
    let n = ts.tokens.len();
    match peek(ts) {
        Some(TokenType::If) => {
            ts.pos = ts.pos + 1;
            let cond = expr(ts)?;
            expect_ttype(ts, TokenType::Then)?;
            let then = expr(ts)?;
            expect_ttype(ts, TokenType::Else)?;
            let els = expr(ts)?;
            Ok(Ast::If(Box::new(cond), Box::new(then), Box::new(els)))
        },
        Some(TokenType::Fun) => {
            ts.pos = ts.pos + 1;
            let id = identify(ts)?;
            expect_ttype(ts, TokenType::Arrow)?;
            let body = expr(ts)?;
            Ok(Ast::Fun(id, Box::new(body)))
        },
        Some(TokenType::Let) => {
            ts.pos = ts.pos + 1;
            if consume_tt(ts, TokenType::Rec) {
                let id = identify(ts)?;
                expect_ttype(ts, TokenType::Assign)?;
                let funast = expr(ts)?;
                match funast {
                    Ast::Fun(funid, body) => {
                        expect_ttype(ts, TokenType::In)?;
                        let cont = expr(ts)?;
                        Ok(Ast::Rec(id, funid, body, Box::new(cont)))
                    },
                    _ => Err(ParseError::RecNotFun),
                }
            } else {
                let id = identify(ts)?;
                expect_ttype(ts, TokenType::Assign)?;
                let ast1 = expr(ts)?;
                expect_ttype(ts, TokenType::In)?;
                let ast2 = expr(ts)?;
                Ok(Ast::Let(id, Box::new(ast1), Box::new(ast2)))
            }
        },
        Some(TokenType::Loop) => {
            ts.pos = ts.pos + 1;
            let id = identify(ts)?;
            expect_ttype(ts, TokenType::Assign)?;
            let ast1 = expr(ts)?;
            expect_ttype(ts, TokenType::In)?;
            let ast2 = expr(ts)?;
            Ok(Ast::Loop(id, Box::new(ast1), Box::new(ast2)))
        },
        _ => eqexpr(ts),
    }
}

/// The parser: one expression ended by `;;`, with every `recur` in tail
/// position of its nearest enclosing `loop` body.
pub fn parse(tokenset: TokenSet) -> (r: Result<Ast, ParseError>)
    requires
        tokenset.pos <= tokenset.tokens@.len(),
    ensures
        r matches Ok(a) ==> recur_ok(a@, false),
{
    let mut ts = tokenset;
    let ast = expr(&mut ts)?;
    expect_ttype(&mut ts, TokenType::Semisemi)?;
    if recur_check(&ast, false) {
        Ok(ast)
    } else {
        Err(ParseError::RecurPosition)
    }
}

} // verus!
