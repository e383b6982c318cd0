//! The surface abstract syntax tree, input of the pipeline.

use vstd::prelude::*;
use crate::names::Id;

verus! {

/// Binary operator tag. `Lt` and `Eq` evaluate to the integer 0 or 1.
#[derive(Clone, Copy, Debug, PartialEq, Eq, Structural)]
pub enum Bintype {
    Plus,
    Mult,
    Lt,
    Eq,
}

/// Surface AST. `Rec` binds a recursive unary function; `Loop`/`Recur` form
/// the tail-recursive looping construct; `Tuple` is binary at this level.
#[derive(Debug, PartialEq)]
pub enum Ast {
    ILit(i32),
    BLit(bool),
    Var(Id),
    Binop(Bintype, Box<Ast>, Box<Ast>),
    If(Box<Ast>, Box<Ast>, Box<Ast>),
    Fun(Id, Box<Ast>),
    Let(Id, Box<Ast>, Box<Ast>),
    Rec(Id, Id, Box<Ast>, Box<Ast>),
    Loop(Id, Box<Ast>, Box<Ast>),
    Recur(Box<Ast>),
    App(Box<Ast>, Box<Ast>),
    Tuple(Box<Ast>, Box<Ast>),
    Proj(Box<Ast>, i32),
}

/// Mathematical model of an `Ast`: identifiers become character sequences.
pub enum AstV {
    ILit(int),
    BLit(bool),
    Var(Seq<char>),
    Binop(Bintype, Box<AstV>, Box<AstV>),
    If(Box<AstV>, Box<AstV>, Box<AstV>),
    Fun(Seq<char>, Box<AstV>),
    Let(Seq<char>, Box<AstV>, Box<AstV>),
    Rec(Seq<char>, Seq<char>, Box<AstV>, Box<AstV>),
    Loop(Seq<char>, Box<AstV>, Box<AstV>),
    Recur(Box<AstV>),
    App(Box<AstV>, Box<AstV>),
    Tuple(Box<AstV>, Box<AstV>),
    Proj(Box<AstV>, int),
}

pub open spec fn ast_view(a: Ast) -> AstV
    decreases a,
{
    match a {
        Ast::ILit(v) => AstV::ILit(v as int),
        Ast::BLit(v) => AstV::BLit(v),
        Ast::Var(id) => AstV::Var(id@),
        Ast::Binop(op, a1, a2) => AstV::Binop(op, Box::new(ast_view(*a1)), Box::new(ast_view(*a2))),
        Ast::If(a1, a2, a3) => AstV::If(
            Box::new(ast_view(*a1)),
            Box::new(ast_view(*a2)),
            Box::new(ast_view(*a3)),
        ),
        Ast::Fun(id, a1) => AstV::Fun(id@, Box::new(ast_view(*a1))),
        Ast::Let(id, a1, a2) => AstV::Let(id@, Box::new(ast_view(*a1)), Box::new(ast_view(*a2))),
        Ast::Rec(f, p, a1, a2) => AstV::Rec(
            f@,
            p@,
            Box::new(ast_view(*a1)),
            Box::new(ast_view(*a2)),
        ),
        Ast::Loop(id, a1, a2) => AstV::Loop(id@, Box::new(ast_view(*a1)), Box::new(ast_view(*a2))),
        Ast::Recur(a1) => AstV::Recur(Box::new(ast_view(*a1))),
        Ast::App(a1, a2) => AstV::App(Box::new(ast_view(*a1)), Box::new(ast_view(*a2))),
        Ast::Tuple(a1, a2) => AstV::Tuple(Box::new(ast_view(*a1)), Box::new(ast_view(*a2))),
        Ast::Proj(a1, k) => AstV::Proj(Box::new(ast_view(*a1)), k as int),
    }
}

impl View for Ast {
    type V = AstV;

    open spec fn view(&self) -> AstV {
        ast_view(*self)
    }
}

/// Number of nodes of an AST; bounds how many fresh names normalization
/// can draw.
pub open spec fn ast_size(a: AstV) -> nat
    decreases a,
{
    match a {
        AstV::ILit(_) => 1,
        AstV::BLit(_) => 1,
        AstV::Var(_) => 1,
        AstV::Binop(_, a1, a2) => 1 + ast_size(*a1) + ast_size(*a2),
        AstV::If(a1, a2, a3) => 1 + ast_size(*a1) + ast_size(*a2) + ast_size(*a3),
        AstV::Fun(_, a1) => 1 + ast_size(*a1),
        AstV::Let(_, a1, a2) => 1 + ast_size(*a1) + ast_size(*a2),
        AstV::Rec(_, _, a1, a2) => 1 + ast_size(*a1) + ast_size(*a2),
        AstV::Loop(_, a1, a2) => 1 + ast_size(*a1) + ast_size(*a2),
        AstV::Recur(a1) => 1 + ast_size(*a1),
        AstV::App(a1, a2) => 1 + ast_size(*a1) + ast_size(*a2),
        AstV::Tuple(a1, a2) => 1 + ast_size(*a1) + ast_size(*a2),
        AstV::Proj(a1, _) => 1 + ast_size(*a1),
    }
}

} // verus!
