//! Normalization: AST to A-normal form (N-IR).
//!
//! Every subcomputation is forced into a named `Let` binding so that every
//! operand of a computation expression is atomic (a variable or an integer).
//! The pass is a continuation-passing transformation; the pending context
//! ("what to do with the produced computation") is rendered as the small
//! descriptor `NCtx`. The executable pass is pinned to the spec-level model
//! `norm_spec`.
//!
//! Atomicity of the result (every operand of `Binop`, `App`, `Tuple`, `Proj`
//! and `Recur` is a `Value`, never a compound expression) holds by
//! construction: the `Cexp` type admits only `Value` operands.

use vstd::prelude::*;
use vstd::string::StringExecFns;
use crate::names::{Id, norm_name, make_norm_name, i32_dec};
use crate::ast::{Ast, AstV, ast_size, Bintype};

verus! {

/// Atomic value: a variable or an integer literal.
#[derive(Hash, Eq, PartialEq, Clone, Debug)]
pub enum Value {
    Var(Id),
    Intv(i32),
}

/// Computation expression of N-IR. All operands are atomic by construction.
#[derive(Debug, PartialEq)]
pub enum Cexp {
    Val(Value),
    Binop(Bintype, Value, Value),
    App(Value, Value),
    If(Value, Box<Exp>, Box<Exp>),
    Tuple(Value, Value),
    Proj(Value, i32),
}

/// Expression of N-IR: a computation, a binder around one, or `Recur`.
#[derive(Debug, PartialEq)]
pub enum Exp {
    Compexp(Box<Cexp>),
    Let(Id, Box<Cexp>, Box<Exp>),
    Loop(Id, Box<Cexp>, Box<Exp>),
    Letrec(Id, Id, Box<Exp>, Box<Exp>),
    Recur(Value),
}

/// Model of a `Value`.
pub enum ValueV {
    Var(Seq<char>),
    Intv(int),
}

/// Model of a `Cexp`.
pub enum CexpV {
    Val(ValueV),
    Binop(Bintype, ValueV, ValueV),
    App(ValueV, ValueV),
    If(ValueV, Box<ExpV>, Box<ExpV>),
    Tuple(ValueV, ValueV),
    Proj(ValueV, int),
}

/// Model of an `Exp`.
pub enum ExpV {
    Compexp(Box<CexpV>),
    Let(Seq<char>, Box<CexpV>, Box<ExpV>),
    Loop(Seq<char>, Box<CexpV>, Box<ExpV>),
    Letrec(Seq<char>, Seq<char>, Box<ExpV>, Box<ExpV>),
    Recur(ValueV),
}

pub open spec fn value_view(v: Value) -> ValueV {
    match v {
        Value::Var(id) => ValueV::Var(id@),
        Value::Intv(n) => ValueV::Intv(n as int),
    }
}

impl View for Value {
    type V = ValueV;

    open spec fn view(&self) -> ValueV {
        value_view(*self)
    }
}

pub open spec fn cexp_view(c: Cexp) -> CexpV
    decreases c,
{
    match c {
        Cexp::Val(v) => CexpV::Val(value_view(v)),
        Cexp::Binop(op, v1, v2) => CexpV::Binop(op, value_view(v1), value_view(v2)),
        Cexp::App(v1, v2) => CexpV::App(value_view(v1), value_view(v2)),
        Cexp::If(v, e1, e2) => CexpV::If(
            value_view(v),
            Box::new(exp_view(*e1)),
            Box::new(exp_view(*e2)),
        ),
        Cexp::Tuple(v1, v2) => CexpV::Tuple(value_view(v1), value_view(v2)),
        Cexp::Proj(v, k) => CexpV::Proj(value_view(v), k as int),
    }
}

pub open spec fn exp_view(e: Exp) -> ExpV
    decreases e,
{
    match e {
        Exp::Compexp(c) => ExpV::Compexp(Box::new(cexp_view(*c))),
        Exp::Let(id, c, e1) => ExpV::Let(id@, Box::new(cexp_view(*c)), Box::new(exp_view(*e1))),
        Exp::Loop(id, c, e1) => ExpV::Loop(id@, Box::new(cexp_view(*c)), Box::new(exp_view(*e1))),
        Exp::Letrec(f, p, e1, e2) => ExpV::Letrec(
            f@,
            p@,
            Box::new(exp_view(*e1)),
            Box::new(exp_view(*e2)),
        ),
        Exp::Recur(v) => ExpV::Recur(value_view(v)),
    }
}

impl View for Cexp {
    type V = CexpV;

    open spec fn view(&self) -> CexpV {
        cexp_view(*self)
    }
}

impl View for Exp {
    type V = ExpV;

    open spec fn view(&self) -> ExpV {
        exp_view(*self)
    }
}

/// Number of nodes of an N-IR computation expression.
pub open spec fn cexp_size(c: CexpV) -> nat
    decreases c,
{
    match c {
        CexpV::If(_, e1, e2) => 1 + exp_size(*e1) + exp_size(*e2),
        _ => 1,
    }
}

/// Number of nodes of an N-IR expression.
pub open spec fn exp_size(e: ExpV) -> nat
    decreases e,
{
    match e {
        ExpV::Compexp(c) => 1 + cexp_size(*c),
        ExpV::Let(_, c, e1) => 1 + cexp_size(*c) + exp_size(*e1),
        ExpV::Loop(_, c, e1) => 1 + cexp_size(*c) + exp_size(*e1),
        ExpV::Letrec(_, _, e1, e2) => 1 + exp_size(*e1) + exp_size(*e2),
        ExpV::Recur(_) => 1,
    }
}

/// Pending context of the transformation: apply to a produced computation
/// to wrap it in the deferred binder (or in nothing, `Ef`).
enum NCtx {
    Ef,
    LetC(Id, Exp),
    LoopC(Id, Exp),
}

/// Model of an `NCtx`.
pub enum NCtxV {
    Ef,
    LetC(Seq<char>, ExpV),
    LoopC(Seq<char>, ExpV),
}

spec fn nctx_view(k: NCtx) -> NCtxV {
    match k {
        NCtx::Ef => NCtxV::Ef,
        NCtx::LetC(id, e) => NCtxV::LetC(id@, exp_view(e)),
        NCtx::LoopC(id, e) => NCtxV::LoopC(id@, exp_view(e)),
    }
}

/// Wraps a computation in the pending binder.
pub open spec fn apply_nctx(k: NCtxV, ce: CexpV) -> ExpV {
    match k {
        NCtxV::Ef => ExpV::Compexp(Box::new(ce)),
        NCtxV::LetC(id, e) => ExpV::Let(id, Box::new(ce), Box::new(e)),
        NCtxV::LoopC(id, e) => ExpV::Loop(id, Box::new(ce), Box::new(e)),
    }
}

/// The atomic value denoted by an AST leaf, if it is one. `true` maps to 1,
/// `false` to 0.
pub open spec fn atomic_of(a: AstV) -> Option<ValueV> {
    match a {
        AstV::ILit(v) => Some(ValueV::Intv(v)),
        AstV::BLit(b) => Some(ValueV::Intv(if b { 1int } else { 0int })),
        AstV::Var(id) => Some(ValueV::Var(id)),
        _ => None,
    }
}

/// Model of normalization. Takes the AST, the pending context and the next
/// fresh-name number; returns the normalized expression and the advanced
/// counter. The left operand is evaluated before the right one, which fixes
/// the order of the emitted `Let` bindings and of the drawn names.
pub open spec fn norm_spec(a: AstV, k: NCtxV, c: nat) -> (ExpV, nat)
    decreases a,
{
    match a {
        AstV::ILit(v) => (apply_nctx(k, CexpV::Val(ValueV::Intv(v))), c),
        AstV::BLit(b) => (
            apply_nctx(k, CexpV::Val(ValueV::Intv(if b { 1int } else { 0int }))),
            c,
        ),
        AstV::Var(id) => (apply_nctx(k, CexpV::Val(ValueV::Var(id))), c),
        AstV::Binop(op, a1, a2) => match (atomic_of(*a1), atomic_of(*a2)) {
            (Some(v1), Some(v2)) => (apply_nctx(k, CexpV::Binop(op, v1, v2)), c),
            (Some(v1), None) => {
                let nv2 = norm_name(c);
                let inner = apply_nctx(k, CexpV::Binop(op, v1, ValueV::Var(nv2)));
                norm_spec(*a2, NCtxV::LetC(nv2, inner), c + 1)
            },
            (None, Some(v2)) => {
                let nv1 = norm_name(c);
                let inner = apply_nctx(k, CexpV::Binop(op, ValueV::Var(nv1), v2));
                norm_spec(*a1, NCtxV::LetC(nv1, inner), c + 1)
            },
            (None, None) => {
                let nv1 = norm_name(c);
                let nv2 = norm_name(c + 1);
                let inner = apply_nctx(k, CexpV::Binop(op, ValueV::Var(nv1), ValueV::Var(nv2)));
                let r2 = norm_spec(*a2, NCtxV::LetC(nv2, inner), c + 2);
                norm_spec(*a1, NCtxV::LetC(nv1, r2.0), r2.1)
            },
        },
        AstV::If(a1, a2, a3) => {
            let nv = norm_name(c);
            let rt = norm_spec(*a2, NCtxV::Ef, c + 1);
            let re = norm_spec(*a3, NCtxV::Ef, rt.1);
            let inner = apply_nctx(
                k,
                CexpV::If(ValueV::Var(nv), Box::new(rt.0), Box::new(re.0)),
            );
            norm_spec(*a1, NCtxV::LetC(nv, inner), re.1)
        },
        AstV::Fun(p, body) => {
            let nv = norm_name(c);
            let rb = norm_spec(*body, NCtxV::Ef, c + 1);
            (
                ExpV::Letrec(
                    nv,
                    p,
                    Box::new(rb.0),
                    Box::new(apply_nctx(k, CexpV::Val(ValueV::Var(nv)))),
                ),
                rb.1,
            )
        },
        AstV::Let(id, a1, a2) => match atomic_of(*a1) {
            Some(v1) => {
                let rb = norm_spec(*a2, k, c);
                (ExpV::Let(id, Box::new(CexpV::Val(v1)), Box::new(rb.0)), rb.1)
            },
            None => {
                let rb = norm_spec(*a2, k, c);
                norm_spec(*a1, NCtxV::LetC(id, rb.0), rb.1)
            },
        },
        AstV::Rec(f, p, a1, a2) => {
            let rb = norm_spec(*a1, NCtxV::Ef, c);
            let rc = norm_spec(*a2, k, rb.1);
            (ExpV::Letrec(f, p, Box::new(rb.0), Box::new(rc.0)), rc.1)
        },
        AstV::Loop(id, a1, a2) => match atomic_of(*a1) {
            Some(v1) => {
                let rb = norm_spec(*a2, k, c);
                (ExpV::Loop(id, Box::new(CexpV::Val(v1)), Box::new(rb.0)), rb.1)
            },
            None => {
                let rb = norm_spec(*a2, k, c);
                norm_spec(*a1, NCtxV::LoopC(id, rb.0), rb.1)
            },
        },
        AstV::Recur(a1) => match atomic_of(*a1) {
            Some(v1) => (ExpV::Recur(v1), c),
            None => {
                let nv = norm_name(c);
                norm_spec(*a1, NCtxV::LetC(nv, ExpV::Recur(ValueV::Var(nv))), c + 1)
            },
        },
        AstV::App(a1, a2) => match (atomic_of(*a1), atomic_of(*a2)) {
            (Some(v1), Some(v2)) => (apply_nctx(k, CexpV::App(v1, v2)), c),
            (Some(v1), None) => {
                let nv2 = norm_name(c);
                let inner = apply_nctx(k, CexpV::App(v1, ValueV::Var(nv2)));
                norm_spec(*a2, NCtxV::LetC(nv2, inner), c + 1)
            },
            (None, Some(v2)) => {
                let nv1 = norm_name(c);
                let inner = apply_nctx(k, CexpV::App(ValueV::Var(nv1), v2));
                norm_spec(*a1, NCtxV::LetC(nv1, inner), c + 1)
            },
            (None, None) => {
                let nv1 = norm_name(c);
                let nv2 = norm_name(c + 1);
                let inner = apply_nctx(k, CexpV::App(ValueV::Var(nv1), ValueV::Var(nv2)));
                let r2 = norm_spec(*a2, NCtxV::LetC(nv2, inner), c + 2);
                norm_spec(*a1, NCtxV::LetC(nv1, r2.0), r2.1)
            },
        },
        AstV::Tuple(a1, a2) => match (atomic_of(*a1), atomic_of(*a2)) {
            (Some(v1), Some(v2)) => (apply_nctx(k, CexpV::Tuple(v1, v2)), c),
            (Some(v1), None) => {
                let nv2 = norm_name(c);
                let inner = apply_nctx(k, CexpV::Tuple(v1, ValueV::Var(nv2)));
                norm_spec(*a2, NCtxV::LetC(nv2, inner), c + 1)
            },
            (None, Some(v2)) => {
                let nv1 = norm_name(c);
                let inner = apply_nctx(k, CexpV::Tuple(ValueV::Var(nv1), v2));
                norm_spec(*a1, NCtxV::LetC(nv1, inner), c + 1)
            },
            (None, None) => {
                let nv1 = norm_name(c);
                let nv2 = norm_name(c + 1);
                let inner = apply_nctx(k, CexpV::Tuple(ValueV::Var(nv1), ValueV::Var(nv2)));
                let r2 = norm_spec(*a2, NCtxV::LetC(nv2, inner), c + 2);
                norm_spec(*a1, NCtxV::LetC(nv1, r2.0), r2.1)
            },
        },
        AstV::Proj(a1, idx) => {
            let nv = norm_name(c);
            let inner = apply_nctx(k, CexpV::Proj(ValueV::Var(nv), idx));
            norm_spec(*a1, NCtxV::LetC(nv, inner), c + 1)
        },
    }
}

/// Normalization draws at most two fresh names per AST node.
pub proof fn lemma_norm_spec_count(a: AstV, k: NCtxV, c: nat)
    ensures
        norm_spec(a, k, c).1 <= c + 2 * ast_size(a),
    decreases a,
{
    match a {
        AstV::ILit(_) => {},
        AstV::BLit(_) => {},
        AstV::Var(_) => {},
        AstV::Binop(op, a1, a2) => match (atomic_of(*a1), atomic_of(*a2)) {
            (Some(v1), Some(v2)) => {},
            (Some(v1), None) => {
                let nv2 = norm_name(c);
                let inner = apply_nctx(k, CexpV::Binop(op, v1, ValueV::Var(nv2)));
                lemma_norm_spec_count(*a2, NCtxV::LetC(nv2, inner), c + 1);
            },
            (None, Some(v2)) => {
                let nv1 = norm_name(c);
                let inner = apply_nctx(k, CexpV::Binop(op, ValueV::Var(nv1), v2));
                lemma_norm_spec_count(*a1, NCtxV::LetC(nv1, inner), c + 1);
            },
            (None, None) => {
                let nv1 = norm_name(c);
                let nv2 = norm_name(c + 1);
                let inner = apply_nctx(k, CexpV::Binop(op, ValueV::Var(nv1), ValueV::Var(nv2)));
                let r2 = norm_spec(*a2, NCtxV::LetC(nv2, inner), c + 2);
                lemma_norm_spec_count(*a2, NCtxV::LetC(nv2, inner), c + 2);
                lemma_norm_spec_count(*a1, NCtxV::LetC(nv1, r2.0), r2.1);
            },
        },
        AstV::If(a1, a2, a3) => {
            let nv = norm_name(c);
            let rt = norm_spec(*a2, NCtxV::Ef, c + 1);
            let re = norm_spec(*a3, NCtxV::Ef, rt.1);
            let inner = apply_nctx(
                k,
                CexpV::If(ValueV::Var(nv), Box::new(rt.0), Box::new(re.0)),
            );
            lemma_norm_spec_count(*a2, NCtxV::Ef, c + 1);
            lemma_norm_spec_count(*a3, NCtxV::Ef, rt.1);
            lemma_norm_spec_count(*a1, NCtxV::LetC(nv, inner), re.1);
        },
        AstV::Fun(p, body) => {
            lemma_norm_spec_count(*body, NCtxV::Ef, c + 1);
        },
        AstV::Let(id, a1, a2) => match atomic_of(*a1) {
            Some(v1) => {
                lemma_norm_spec_count(*a2, k, c);
            },
            None => {
                let rb = norm_spec(*a2, k, c);
                lemma_norm_spec_count(*a2, k, c);
                lemma_norm_spec_count(*a1, NCtxV::LetC(id, rb.0), rb.1);
            },
        },
        AstV::Rec(f, p, a1, a2) => {
            let rb = norm_spec(*a1, NCtxV::Ef, c);
            lemma_norm_spec_count(*a1, NCtxV::Ef, c);
            lemma_norm_spec_count(*a2, k, rb.1);
        },
        AstV::Loop(id, a1, a2) => match atomic_of(*a1) {
            Some(v1) => {
                lemma_norm_spec_count(*a2, k, c);
            },
            None => {
                let rb = norm_spec(*a2, k, c);
                lemma_norm_spec_count(*a2, k, c);
                lemma_norm_spec_count(*a1, NCtxV::LoopC(id, rb.0), rb.1);
            },
        },
        AstV::Recur(a1) => match atomic_of(*a1) {
            Some(v1) => {},
            None => {
                let nv = norm_name(c);
                lemma_norm_spec_count(*a1, NCtxV::LetC(nv, ExpV::Recur(ValueV::Var(nv))), c + 1);
            },
        },
        AstV::App(a1, a2) => match (atomic_of(*a1), atomic_of(*a2)) {
            (Some(v1), Some(v2)) => {},
            (Some(v1), None) => {
                let nv2 = norm_name(c);
                let inner = apply_nctx(k, CexpV::App(v1, ValueV::Var(nv2)));
                lemma_norm_spec_count(*a2, NCtxV::LetC(nv2, inner), c + 1);
            },
            (None, Some(v2)) => {
                let nv1 = norm_name(c);
                let inner = apply_nctx(k, CexpV::App(ValueV::Var(nv1), v2));
                lemma_norm_spec_count(*a1, NCtxV::LetC(nv1, inner), c + 1);
            },
            (None, None) => {
                let nv1 = norm_name(c);
                let nv2 = norm_name(c + 1);
                let inner = apply_nctx(k, CexpV::App(ValueV::Var(nv1), ValueV::Var(nv2)));
                let r2 = norm_spec(*a2, NCtxV::LetC(nv2, inner), c + 2);
                lemma_norm_spec_count(*a2, NCtxV::LetC(nv2, inner), c + 2);
                lemma_norm_spec_count(*a1, NCtxV::LetC(nv1, r2.0), r2.1);
            },
        },
        AstV::Tuple(a1, a2) => match (atomic_of(*a1), atomic_of(*a2)) {
            (Some(v1), Some(v2)) => {},
            (Some(v1), None) => {
                let nv2 = norm_name(c);
                let inner = apply_nctx(k, CexpV::Tuple(v1, ValueV::Var(nv2)));
                lemma_norm_spec_count(*a2, NCtxV::LetC(nv2, inner), c + 1);
            },
            (None, Some(v2)) => {
                let nv1 = norm_name(c);
                let inner = apply_nctx(k, CexpV::Tuple(ValueV::Var(nv1), v2));
                lemma_norm_spec_count(*a1, NCtxV::LetC(nv1, inner), c + 1);
            },
            (None, None) => {
                let nv1 = norm_name(c);
                let nv2 = norm_name(c + 1);
                let inner = apply_nctx(k, CexpV::Tuple(ValueV::Var(nv1), ValueV::Var(nv2)));
                let r2 = norm_spec(*a2, NCtxV::LetC(nv2, inner), c + 2);
                lemma_norm_spec_count(*a2, NCtxV::LetC(nv2, inner), c + 2);
                lemma_norm_spec_count(*a1, NCtxV::LetC(nv1, r2.0), r2.1);
            },
        },
        AstV::Proj(a1, idx) => {
            let nv = norm_name(c);
            let inner = apply_nctx(k, CexpV::Proj(ValueV::Var(nv), idx));
            lemma_norm_spec_count(*a1, NCtxV::LetC(nv, inner), c + 1);
        },
    }
}

impl Bintype {
    /// The operator's source character.
    pub fn bintype_signal(self) -> (r: char)
        ensures
            self == Bintype::Plus ==> r == '+',
            self == Bintype::Mult ==> r == '*',
            self == Bintype::Lt ==> r == '<',
            self == Bintype::Eq ==> r == '=',
    {
        match self {
            Bintype::Plus => '+',
            Bintype::Mult => '*',
            Bintype::Lt => '<',
            Bintype::Eq => '=',
        }
    }
}

/// Returns an equal copy of a fresh variable's name (`@v<n>`).
pub fn duplicate_var(nv: String) -> (r: String)
    ensures
        r@ == nv@,
{
    nv
}

spec fn opt_value_view(r: Option<Value>) -> Option<ValueV> {
    match r {
        Some(v) => Some(value_view(v)),
        None => None,
    }
}

impl Value {
    /// The atomic value denoted by an AST leaf, if any.
    fn ast2value(ast: &Ast) -> (r: Option<Value>)
        ensures
            opt_value_view(r) == atomic_of(ast@),
    {
        match ast {
            Ast::ILit(v) => Some(Value::Intv(*v)),
            Ast::BLit(v) => Some(Value::Intv(if *v { 1 } else { 0 })),
            Ast::Var(id) => Some(Value::Var(id.clone())),
            _ => None,
        }
    }
}

fn get_fresh_var(count: &mut u64) -> (s: String)
    requires
        *old(count) < u64::MAX,
    ensures
        s@ == norm_name(*old(count) as nat),
        *final(count) == *old(count) + 1,
{
    let s = make_norm_name(*count);
    *count = *count + 1;
    s
}

fn apply_ctx(k: NCtx, ce: Cexp) -> (e: Exp)
    ensures
        e@ == apply_nctx(nctx_view(k), ce@),
{
    match k {
        NCtx::Ef => Exp::Compexp(Box::new(ce)),
        NCtx::LetC(id, e1) => Exp::Let(id, Box::new(ce), Box::new(e1)),
        NCtx::LoopC(id, e1) => Exp::Loop(id, Box::new(ce), Box::new(e1)),
    }
}

spec fn binop_ast(op: Bintype, a1: AstV, a2: AstV) -> AstV {
    AstV::Binop(op, Box::new(a1), Box::new(a2))
}

#[verifier::spinoff_prover]
fn norm_binop(op: Bintype, a1: Box<Ast>, a2: Box<Ast>, k: NCtx, count: &mut u64) -> (e: Exp)
    requires
        *old(count) + 2 * ast_size(binop_ast(op, a1@, a2@)) <= u64::MAX,
    ensures
        e@ == norm_spec(binop_ast(op, a1@, a2@), nctx_view(k), *old(count) as nat).0,
        *final(count) as nat == norm_spec(binop_ast(op, a1@, a2@), nctx_view(k), *old(count) as nat).1,
    decreases 1 + ast_size(a1@) + ast_size(a2@), 0nat,
{
    let v1 = Value::ast2value(&a1);
    let v2 = Value::ast2value(&a2);
    match (v1, v2) {
        (Some(v1), Some(v2)) => apply_ctx(k, Cexp::Binop(op, v1, v2)),
        (Some(v1), None) => {
            let nv2 = get_fresh_var(count);
            let inner = apply_ctx(k, Cexp::Binop(op, v1, Value::Var(duplicate_var(nv2.clone()))));
            norm_exp(*a2, NCtx::LetC(nv2, inner), count)
        },
        (None, Some(v2)) => {
            let nv1 = get_fresh_var(count);
            let inner = apply_ctx(k, Cexp::Binop(op, Value::Var(duplicate_var(nv1.clone())), v2));
            norm_exp(*a1, NCtx::LetC(nv1, inner), count)
        },
        (None, None) => {
            let nv1 = get_fresh_var(count);
            let nv2 = get_fresh_var(count);
            let inner = apply_ctx(
                k,
                Cexp::Binop(
                    op,
                    Value::Var(duplicate_var(nv1.clone())),
                    Value::Var(duplicate_var(nv2.clone())),
                ),
            );
            proof {
                lemma_norm_spec_count(a2@, NCtxV::LetC(nv2@, inner@), *count as nat);
            }
            let mid = norm_exp(*a2, NCtx::LetC(nv2, inner), count);
            norm_exp(*a1, NCtx::LetC(nv1, mid), count)
        },
    }
}

spec fn app_ast(a1: AstV, a2: AstV) -> AstV {
    AstV::App(Box::new(a1), Box::new(a2))
}

#[verifier::spinoff_prover]
fn norm_app(a1: Box<Ast>, a2: Box<Ast>, k: NCtx, count: &mut u64) -> (e: Exp)
    requires
        *old(count) + 2 * ast_size(app_ast(a1@, a2@)) <= u64::MAX,
    ensures
        e@ == norm_spec(app_ast(a1@, a2@), nctx_view(k), *old(count) as nat).0,
        *final(count) as nat == norm_spec(app_ast(a1@, a2@), nctx_view(k), *old(count) as nat).1,
    decreases 1 + ast_size(a1@) + ast_size(a2@), 0nat,
{
    let v1 = Value::ast2value(&a1);
    let v2 = Value::ast2value(&a2);
    match (v1, v2) {
        (Some(v1), Some(v2)) => apply_ctx(k, Cexp::App(v1, v2)),
        (Some(v1), None) => {
            let nv2 = get_fresh_var(count);
            let inner = apply_ctx(k, Cexp::App(v1, Value::Var(duplicate_var(nv2.clone()))));
            norm_exp(*a2, NCtx::LetC(nv2, inner), count)
        },
        (None, Some(v2)) => {
            let nv1 = get_fresh_var(count);
            let inner = apply_ctx(k, Cexp::App(Value::Var(duplicate_var(nv1.clone())), v2));
            norm_exp(*a1, NCtx::LetC(nv1, inner), count)
        },
        (None, None) => {
            let nv1 = get_fresh_var(count);
            let nv2 = get_fresh_var(count);
            let inner = apply_ctx(
                k,
                Cexp::App(
                    Value::Var(duplicate_var(nv1.clone())),
                    Value::Var(duplicate_var(nv2.clone())),
                ),
            );
            proof {
                lemma_norm_spec_count(a2@, NCtxV::LetC(nv2@, inner@), *count as nat);
            }
            let mid = norm_exp(*a2, NCtx::LetC(nv2, inner), count);
            norm_exp(*a1, NCtx::LetC(nv1, mid), count)
        },
    }
}

spec fn tuple_ast(a1: AstV, a2: AstV) -> AstV {
    AstV::Tuple(Box::new(a1), Box::new(a2))
}

#[verifier::spinoff_prover]
fn norm_tuple(a1: Box<Ast>, a2: Box<Ast>, k: NCtx, count: &mut u64) -> (e: Exp)
    requires
        *old(count) + 2 * ast_size(tuple_ast(a1@, a2@)) <= u64::MAX,
    ensures
        e@ == norm_spec(tuple_ast(a1@, a2@), nctx_view(k), *old(count) as nat).0,
        *final(count) as nat == norm_spec(tuple_ast(a1@, a2@), nctx_view(k), *old(count) as nat).1,
    decreases 1 + ast_size(a1@) + ast_size(a2@), 0nat,
{
    let v1 = Value::ast2value(&a1);
    let v2 = Value::ast2value(&a2);
    match (v1, v2) {
        (Some(v1), Some(v2)) => apply_ctx(k, Cexp::Tuple(v1, v2)),
        (Some(v1), None) => {
            let nv2 = get_fresh_var(count);
            let inner = apply_ctx(k, Cexp::Tuple(v1, Value::Var(duplicate_var(nv2.clone()))));
            norm_exp(*a2, NCtx::LetC(nv2, inner), count)
        },
        (None, Some(v2)) => {
            let nv1 = get_fresh_var(count);
            let inner = apply_ctx(k, Cexp::Tuple(Value::Var(duplicate_var(nv1.clone())), v2));
            norm_exp(*a1, NCtx::LetC(nv1, inner), count)
        },
        (None, None) => {
            let nv1 = get_fresh_var(count);
            let nv2 = get_fresh_var(count);
            let inner = apply_ctx(
                k,
                Cexp::Tuple(
                    Value::Var(duplicate_var(nv1.clone())),
                    Value::Var(duplicate_var(nv2.clone())),
                ),
            );
            proof {
                lemma_norm_spec_count(a2@, NCtxV::LetC(nv2@, inner@), *count as nat);
            }
            let mid = norm_exp(*a2, NCtx::LetC(nv2, inner), count);
            norm_exp(*a1, NCtx::LetC(nv1, mid), count)
        },
    }
}

spec fn if_ast(a1: AstV, a2: AstV, a3: AstV) -> AstV {
    AstV::If(Box::new(a1), Box::new(a2), Box::new(a3))
}

#[verifier::spinoff_prover]
fn norm_if(a1: Box<Ast>, a2: Box<Ast>, a3: Box<Ast>, k: NCtx, count: &mut u64) -> (e: Exp)
    requires
        *old(count) + 2 * ast_size(if_ast(a1@, a2@, a3@)) <= u64::MAX,
    ensures
        e@ == norm_spec(if_ast(a1@, a2@, a3@), nctx_view(k), *old(count) as nat).0,
        *final(count) as nat == norm_spec(if_ast(a1@, a2@, a3@), nctx_view(k), *old(count) as nat).1,
    decreases 1 + ast_size(a1@) + ast_size(a2@) + ast_size(a3@), 0nat,
{
    let nv = get_fresh_var(count);
    proof {
        lemma_norm_spec_count(a2@, NCtxV::Ef, *count as nat);
        lemma_norm_spec_count(a3@, NCtxV::Ef, norm_spec(a2@, NCtxV::Ef, *count as nat).1);
    }
    let rt = norm_exp(*a2, NCtx::Ef, count);
    let re = norm_exp(*a3, NCtx::Ef, count);
    let inner = apply_ctx(
        k,
        Cexp::If(Value::Var(duplicate_var(nv.clone())), Box::new(rt), Box::new(re)),
    );
    norm_exp(*a1, NCtx::LetC(nv, inner), count)
}

spec fn fun_ast(p: Seq<char>, body: AstV) -> AstV {
    AstV::Fun(p, Box::new(body))
}

#[verifier::spinoff_prover]
fn norm_fun(p: Id, body: Box<Ast>, k: NCtx, count: &mut u64) -> (e: Exp)
    requires
        *old(count) + 2 * ast_size(fun_ast(p@, body@)) <= u64::MAX,
    ensures
        ({
            let r = norm_spec(fun_ast(p@, body@), nctx_view(k), *old(count) as nat);
            e@ == r.0 && *final(count) as nat == r.1
        }),
    decreases 1 + ast_size(body@), 0nat,
{
    let nv = get_fresh_var(count);
    let rb = norm_exp(*body, NCtx::Ef, count);
    let cont = apply_ctx(k, Cexp::Val(Value::Var(duplicate_var(nv.clone()))));
    Exp::Letrec(nv, p, Box::new(rb), Box::new(cont))
}

spec fn let_ast(id: Seq<char>, a1: AstV, a2: AstV) -> AstV {
    AstV::Let(id, Box::new(a1), Box::new(a2))
}

#[verifier::spinoff_prover]
fn norm_let(id: Id, a1: Box<Ast>, a2: Box<Ast>, k: NCtx, count: &mut u64) -> (e: Exp)
    requires
        *old(count) + 2 * ast_size(let_ast(id@, a1@, a2@)) <= u64::MAX,
    ensures
        ({
            let r = norm_spec(let_ast(id@, a1@, a2@), nctx_view(k), *old(count) as nat);
            e@ == r.0 && *final(count) as nat == r.1
        }),
    decreases 1 + ast_size(a1@) + ast_size(a2@), 0nat,
{
    let v1 = Value::ast2value(&a1);
    match v1 {
        Some(v1) => {
            let rb = norm_exp(*a2, k, count);
            proof {
                reveal_with_fuel(exp_view, 2);
            }
            Exp::Let(id, Box::new(Cexp::Val(v1)), Box::new(rb))
        },
        None => {
            proof {
                lemma_norm_spec_count(a2@, nctx_view(k), *count as nat);
            }
            let rb = norm_exp(*a2, k, count);
            norm_exp(*a1, NCtx::LetC(id, rb), count)
        },
    }
}

spec fn rec_ast(f: Seq<char>, p: Seq<char>, a1: AstV, a2: AstV) -> AstV {
    AstV::Rec(f, p, Box::new(a1), Box::new(a2))
}

#[verifier::spinoff_prover]
fn norm_rec(f: Id, p: Id, a1: Box<Ast>, a2: Box<Ast>, k: NCtx, count: &mut u64) -> (e: Exp)
    requires
        *old(count) + 2 * ast_size(rec_ast(f@, p@, a1@, a2@)) <= u64::MAX,
    ensures
        ({
            let r = norm_spec(rec_ast(f@, p@, a1@, a2@), nctx_view(k), *old(count) as nat);
            e@ == r.0 && *final(count) as nat == r.1
        }),
    decreases 1 + ast_size(a1@) + ast_size(a2@), 0nat,
{
    proof {
        lemma_norm_spec_count(a1@, NCtxV::Ef, *count as nat);
    }
    let rb = norm_exp(*a1, NCtx::Ef, count);
    let rc = norm_exp(*a2, k, count);
    Exp::Letrec(f, p, Box::new(rb), Box::new(rc))
}

spec fn loop_ast(id: Seq<char>, a1: AstV, a2: AstV) -> AstV {
    AstV::Loop(id, Box::new(a1), Box::new(a2))
}

#[verifier::spinoff_prover]
fn norm_loop(id: Id, a1: Box<Ast>, a2: Box<Ast>, k: NCtx, count: &mut u64) -> (e: Exp)
    requires
        *old(count) + 2 * ast_size(loop_ast(id@, a1@, a2@)) <= u64::MAX,
    ensures
        ({
            let r = norm_spec(loop_ast(id@, a1@, a2@), nctx_view(k), *old(count) as nat);
            e@ == r.0 && *final(count) as nat == r.1
        }),
    decreases 1 + ast_size(a1@) + ast_size(a2@), 0nat,
{
    let v1 = Value::ast2value(&a1);
    match v1 {
        Some(v1) => {
            let rb = norm_exp(*a2, k, count);
            proof {
                reveal_with_fuel(exp_view, 2);
            }
            Exp::Loop(id, Box::new(Cexp::Val(v1)), Box::new(rb))
        },
        None => {
            proof {
                lemma_norm_spec_count(a2@, nctx_view(k), *count as nat);
            }
            let rb = norm_exp(*a2, k, count);
            norm_exp(*a1, NCtx::LoopC(id, rb), count)
        },
    }
}

spec fn recur_ast(a1: AstV) -> AstV {
    AstV::Recur(Box::new(a1))
}

#[verifier::spinoff_prover]
fn norm_recur(a1: Box<Ast>, k: NCtx, count: &mut u64) -> (e: Exp)
    requires
        *old(count) + 2 * ast_size(recur_ast(a1@)) <= u64::MAX,
    ensures
        ({
            let r = norm_spec(recur_ast(a1@), nctx_view(k), *old(count) as nat);
            e@ == r.0 && *final(count) as nat == r.1
        }),
    decreases 1 + ast_size(a1@), 0nat,
{
    let v1 = Value::ast2value(&a1);
    match v1 {
        Some(v1) => Exp::Recur(v1),
        None => {
            let nv = get_fresh_var(count);
            let inner = Exp::Recur(Value::Var(duplicate_var(nv.clone())));
            norm_exp(*a1, NCtx::LetC(nv, inner), count)
        },
    }
}

spec fn proj_ast(a1: AstV, idx: int) -> AstV {
    AstV::Proj(Box::new(a1), idx)
}

#[verifier::spinoff_prover]
fn norm_proj(a1: Box<Ast>, idx: i32, k: NCtx, count: &mut u64) -> (e: Exp)
    requires
        *old(count) + 2 * ast_size(proj_ast(a1@, idx as int)) <= u64::MAX,
    ensures
        ({
            let r = norm_spec(proj_ast(a1@, idx as int), nctx_view(k), *old(count) as nat);
            e@ == r.0 && *final(count) as nat == r.1
        }),
    decreases 1 + ast_size(a1@), 0nat,
{
    let nv = get_fresh_var(count);
    let inner = apply_ctx(k, Cexp::Proj(Value::Var(duplicate_var(nv.clone())), idx));
    norm_exp(*a1, NCtx::LetC(nv, inner), count)
}

#[verifier::spinoff_prover]
fn norm_leaf(v: Value, k: NCtx) -> (e: Exp)
    ensures
        e@ == apply_nctx(nctx_view(k), CexpV::Val(value_view(v))),
{
    apply_ctx(k, Cexp::Val(v))
}

#[verifier::spinoff_prover]
fn norm_exp(ast: Ast, k: NCtx, count: &mut u64) -> (e: Exp)
    requires
        *old(count) + 2 * ast_size(ast@) <= u64::MAX,
    ensures
        ({
            let r = norm_spec(ast@, nctx_view(k), *old(count) as nat);
            e@ == r.0 && *final(count) as nat == r.1
        }),
    decreases ast_size(ast@), 1nat,
{
    match ast {
        Ast::ILit(v) => norm_leaf(Value::Intv(v), k),
        Ast::BLit(v) => norm_leaf(Value::Intv(if v { 1 } else { 0 }), k),
        Ast::Var(id) => norm_leaf(Value::Var(id), k),
        Ast::Binop(op, a1, a2) => norm_binop(op, a1, a2, k, count),
        Ast::If(a1, a2, a3) => norm_if(a1, a2, a3, k, count),
        Ast::Fun(p, body) => norm_fun(p, body, k, count),
        Ast::Let(id, a1, a2) => norm_let(id, a1, a2, k, count),
        Ast::Rec(f, p, a1, a2) => norm_rec(f, p, a1, a2, k, count),
        Ast::Loop(id, a1, a2) => norm_loop(id, a1, a2, k, count),
        Ast::Recur(a1) => norm_recur(a1, k, count),
        Ast::App(a1, a2) => norm_app(a1, a2, k, count),
        Ast::Tuple(a1, a2) => norm_tuple(a1, a2, k, count),
        Ast::Proj(a1, idx) => norm_proj(a1, idx, k, count),
    }
}

/// Normalization: produces the A-normal form of `ast`, drawing fresh names
/// `@v0`, `@v1`, ... in order. The result equals the model `norm_spec`
/// applied under the empty context with the counter at zero.
pub fn normalize(ast: Ast) -> (e: Exp)
    requires
        2 * ast_size(ast@) <= u64::MAX,
    ensures
        e@ == norm_spec(ast@, NCtxV::Ef, 0).0,
{
    let mut count: u64 = 0;
    norm_exp(ast, NCtx::Ef, &mut count)
}

// ----------------------------------------------------------------------
// Rendering, for inspection of intermediate results.

/// The value's source text.
fn value_text(v: &Value) -> String {
    match v {
        Value::Var(id) => id.clone(),
        Value::Intv(n) => i32_dec(*n),
    }
}

impl Cexp {
    /// The computation's source-like text, for inspection.
    pub fn program_display(&self) -> String
        decreases *self,
    {
        match self {
            Cexp::Val(v) => value_text(v),
            Cexp::Binop(tty, v1, v2) => {
                let mut s = value_text(v1);
                s.push((*tty).bintype_signal());
                s.append(value_text(v2).as_str());
                s
            },
            Cexp::App(v1, v2) => {
                let mut s = value_text(v1);
                s.append(" ");
                s.append(value_text(v2).as_str());
                s
            },
            Cexp::If(v, e1, e2) => {
                let mut s = "if ".to_owned();
                s.append(value_text(v).as_str());
                s.append(" then ");
                s.append(e1.program_display().as_str());
                s.append(" else ");
                s.append(e2.program_display().as_str());
                s
            },
            Cexp::Tuple(v1, v2) => {
                let mut s = "(".to_owned();
                s.append(value_text(v1).as_str());
                s.append(", ");
                s.append(value_text(v2).as_str());
                s.append(")");
                s
            },
            Cexp::Proj(v, i) => {
                let mut s = value_text(v);
                s.append(".");
                s.append(i32_dec(*i).as_str());
                s
            },
        }
    }
}

impl Exp {
    /// The expression's source-like text, for inspection.
    pub fn program_display(&self) -> String
        decreases *self,
    {
        match self {
            Exp::Compexp(cexp) => cexp.program_display(),
            Exp::Let(id, cexp, exp) => {
                let mut s = "let ".to_owned();
                s.append(id.as_str());
                s.append(" = ");
                s.append(cexp.program_display().as_str());
                s.append(" in\n");
                s.append(exp.program_display().as_str());
                s
            },
            Exp::Loop(id, cexp, exp) => {
                let mut s = "loop ".to_owned();
                s.append(id.as_str());
                s.append(" = ");
                s.append(cexp.program_display().as_str());
                s.append(" in\n");
                s.append(exp.program_display().as_str());
                s
            },
            Exp::Letrec(id1, id2, exp1, exp2) => {
                let mut s = "let rec ".to_owned();
                s.append(id1.as_str());
                s.append(" = fun ");
                s.append(id2.as_str());
                s.append(" -> ");
                match &**exp1 {
                    Exp::Compexp(_) => {},
                    Exp::Recur(_) => {},
                    _ => {
                        s.append("\n");
                    },
                }
                s.append(exp1.program_display().as_str());
                s.append(" in\n");
                s.append(exp2.program_display().as_str());
                s
            },
            Exp::Recur(v) => {
                let mut s = "recur ".to_owned();
                s.append(value_text(v).as_str());
                s
            },
        }
    }
}

} // verus!
