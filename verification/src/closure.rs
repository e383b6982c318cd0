//! Closure conversion: N-IR to C-IR.
//!
//! Each `Letrec(f, p, body, cont)` becomes a lifted function `$b_f<n>` of
//! two formals `[f, p]` — the closure itself, re-passed as a hidden first
//! parameter, and the original parameter. The free variables of the body are
//! re-bound at its top from slots 1.. of the closure tuple; in the original
//! scope, `f` is bound to the tuple `(Var $b_f<n>, y1, ..., yk)` whose slot 0
//! is the code pointer. Every application through a variable is rewritten to
//! an indirect call `$r_g<n>` through slot 0 of the callee's closure.
//!
//! The executable pass is pinned to the spec-level model `conv_spec`.

use vstd::prelude::*;
use vstd::string::StringExecFns;
use crate::names::{Id, fun_name, make_fun_name, i32_dec};
use crate::ast::Bintype;
use crate::normal;
use crate::normal::{Value, ValueV, value_view, exp_size, cexp_size};

verus! {

/// Computation expression of C-IR: `App` carries an explicit argument list,
/// `Tuple` is n-ary.
#[derive(Debug, PartialEq)]
pub enum Cexp {
    Val(Value),
    Binop(Bintype, Value, Value),
    App(Value, Vec<Value>),
    If(Value, Box<Exp>, Box<Exp>),
    Tuple(Vec<Value>),
    Proj(Value, i32),
}

/// Expression of C-IR. `Letrec` carries a flat formal list.
#[derive(Debug, PartialEq)]
pub enum Exp {
    Compexp(Box<Cexp>),
    Let(Id, Box<Cexp>, Box<Exp>),
    Loop(Id, Box<Cexp>, Box<Exp>),
    Letrec(Id, Vec<Id>, Box<Exp>, Box<Exp>),
    Recur(Value),
}

/// Model of a list of values.
pub open spec fn values_view(vs: Seq<Value>) -> Seq<ValueV> {
    vs.map_values(|v: Value| value_view(v))
}

/// Model of a list of identifiers.
pub open spec fn ids_view(ids: Seq<Id>) -> Seq<Seq<char>> {
    ids.map_values(|x: Id| x@)
}

/// Model of a C-IR `Cexp`.
pub enum CexpV {
    Val(ValueV),
    Binop(Bintype, ValueV, ValueV),
    App(ValueV, Seq<ValueV>),
    If(ValueV, Box<ExpV>, Box<ExpV>),
    Tuple(Seq<ValueV>),
    Proj(ValueV, int),
}

/// Model of a C-IR `Exp`.
pub enum ExpV {
    Compexp(Box<CexpV>),
    Let(Seq<char>, Box<CexpV>, Box<ExpV>),
    Loop(Seq<char>, Box<CexpV>, Box<ExpV>),
    Letrec(Seq<char>, Seq<Seq<char>>, Box<ExpV>, Box<ExpV>),
    Recur(ValueV),
}

pub open spec fn cexp_view(c: Cexp) -> CexpV
    decreases c,
{
    match c {
        Cexp::Val(v) => CexpV::Val(value_view(v)),
        Cexp::Binop(op, v1, v2) => CexpV::Binop(op, value_view(v1), value_view(v2)),
        Cexp::App(v, vs) => CexpV::App(value_view(v), values_view(vs@)),
        Cexp::If(v, e1, e2) => CexpV::If(
            value_view(v),
            Box::new(exp_view(*e1)),
            Box::new(exp_view(*e2)),
        ),
        Cexp::Tuple(vs) => CexpV::Tuple(values_view(vs@)),
        Cexp::Proj(v, k) => CexpV::Proj(value_view(v), k as int),
    }
}

pub open spec fn exp_view(e: Exp) -> ExpV
    decreases e,
{
    match e {
        Exp::Compexp(c) => ExpV::Compexp(Box::new(cexp_view(*c))),
        Exp::Let(id, c, e1) => ExpV::Let(id@, Box::new(cexp_view(*c)), Box::new(exp_view(*e1))),
        Exp::Loop(id, c, e1) => ExpV::Loop(id@, Box::new(cexp_view(*c)), Box::new(exp_view(*e1))),
        Exp::Letrec(f, formals, e1, e2) => ExpV::Letrec(
            f@,
            ids_view(formals@),
            Box::new(exp_view(*e1)),
            Box::new(exp_view(*e2)),
        ),
        Exp::Recur(v) => ExpV::Recur(value_view(v)),
    }
}

impl View for Cexp {
    type V = CexpV;

    open spec fn view(&self) -> CexpV {
        cexp_view(*self)
    }
}

impl View for Exp {
    type V = ExpV;

    open spec fn view(&self) -> ExpV {
        exp_view(*self)
    }
}

/// Number of nodes of a C-IR computation expression.
pub open spec fn cexp_csize(c: CexpV) -> nat
    decreases c,
{
    match c {
        CexpV::If(_, e1, e2) => 1 + exp_csize(*e1) + exp_csize(*e2),
        _ => 1,
    }
}

/// Number of nodes of a C-IR expression.
pub open spec fn exp_csize(e: ExpV) -> nat
    decreases e,
{
    match e {
        ExpV::Compexp(c) => 1 + cexp_csize(*c),
        ExpV::Let(_, c, e1) => 1 + cexp_csize(*c) + exp_csize(*e1),
        ExpV::Loop(_, c, e1) => 1 + cexp_csize(*c) + exp_csize(*e1),
        ExpV::Letrec(_, _, e1, e2) => 1 + exp_csize(*e1) + exp_csize(*e2),
        ExpV::Recur(_) => 1,
    }
}

// ----------------------------------------------------------------------
// Free variables.
//
// The ordered list of variables referenced in a function's body but bound
// outside it. Order is left-to-right first occurrence; duplicates are kept
// out, deterministically. Scoping is lexical: a binder reaches its own
// scope and nothing else — not a sibling branch, not its own right-hand
// side, and a function parameter not the surrounding continuation.

/// One atomic value: record it as free when it is a variable bound nowhere.
pub open spec fn fv_val(v: ValueV, asv: Seq<Seq<char>>, acc: Seq<Seq<char>>) -> Seq<Seq<char>> {
    match v {
        ValueV::Var(x) => if !asv.contains(x) && !acc.contains(x) {
            acc.push(x)
        } else {
            acc
        },
        ValueV::Intv(_) => acc,
    }
}

/// The free variables of an N-IR computation expression under the bound
/// names `asv`, appended to `acc`.
pub open spec fn fv_cexp(c: normal::CexpV, asv: Seq<Seq<char>>, acc: Seq<Seq<char>>) -> Seq<
    Seq<char>,
>
    decreases c,
{
    match c {
        normal::CexpV::Val(v) => fv_val(v, asv, acc),
        normal::CexpV::Binop(_, v1, v2) => fv_val(v2, asv, fv_val(v1, asv, acc)),
        normal::CexpV::App(v1, v2) => fv_val(v2, asv, fv_val(v1, asv, acc)),
        normal::CexpV::Tuple(v1, v2) => fv_val(v2, asv, fv_val(v1, asv, acc)),
        normal::CexpV::If(v, e1, e2) => fv_exp(*e2, asv, fv_exp(*e1, asv, fv_val(v, asv, acc))),
        normal::CexpV::Proj(v, _) => fv_val(v, asv, acc),
    }
}

/// The free variables of an N-IR expression under the bound names `asv`,
/// appended to `acc`. A `Let` or `Loop` binds its name in its scope only,
/// not in its own right-hand side; a `Letrec` binds the function's name in
/// body and continuation, the parameter in the body alone.
pub open spec fn fv_exp(e: normal::ExpV, asv: Seq<Seq<char>>, acc: Seq<Seq<char>>) -> Seq<
    Seq<char>,
>
    decreases e,
{
    match e {
        normal::ExpV::Compexp(c) => fv_cexp(*c, asv, acc),
        normal::ExpV::Let(id, c, rest) => fv_exp(*rest, asv.push(id), fv_cexp(*c, asv, acc)),
        normal::ExpV::Loop(id, c, rest) => fv_exp(*rest, asv.push(id), fv_cexp(*c, asv, acc)),
        normal::ExpV::Letrec(f, p, body, cont) => fv_exp(
            *cont,
            asv.push(f),
            fv_exp(*body, asv.push(f).push(p), acc),
        ),
        normal::ExpV::Recur(v) => fv_val(v, asv, acc),
    }
}

/// The free-variable accumulator grows by at most two names per node.
pub proof fn lemma_fv_cexp_len(c: normal::CexpV, asv: Seq<Seq<char>>, acc: Seq<Seq<char>>)
    ensures
        fv_cexp(c, asv, acc).len() <= acc.len() + 2 * cexp_size(c),
    decreases c,
{
    match c {
        normal::CexpV::If(v, e1, e2) => {
            let acc1 = fv_val(v, asv, acc);
            lemma_fv_exp_len(*e1, asv, acc1);
            lemma_fv_exp_len(*e2, asv, fv_exp(*e1, asv, acc1));
        },
        _ => {},
    }
}

/// The free-variable accumulator grows by at most two names per node.
pub proof fn lemma_fv_exp_len(e: normal::ExpV, asv: Seq<Seq<char>>, acc: Seq<Seq<char>>)
    ensures
        fv_exp(e, asv, acc).len() <= acc.len() + 2 * exp_size(e),
    decreases e,
{
    match e {
        normal::ExpV::Compexp(c) => {
            lemma_fv_cexp_len(*c, asv, acc);
        },
        normal::ExpV::Let(id, c, rest) => {
            lemma_fv_cexp_len(*c, asv, acc);
            lemma_fv_exp_len(*rest, asv.push(id), fv_cexp(*c, asv, acc));
        },
        normal::ExpV::Loop(id, c, rest) => {
            lemma_fv_cexp_len(*c, asv, acc);
            lemma_fv_exp_len(*rest, asv.push(id), fv_cexp(*c, asv, acc));
        },
        normal::ExpV::Letrec(f, p, body, cont) => {
            lemma_fv_exp_len(*body, asv.push(f).push(p), acc);
            lemma_fv_exp_len(*cont, asv.push(f), fv_exp(*body, asv.push(f).push(p), acc));
        },
        normal::ExpV::Recur(_) => {},
    }
}

/// Membership of an identifier in a list, by text.
fn contains_id(v: &Vec<Id>, x: &Id) -> (r: bool)
    ensures
        r == ids_view(v@).contains(x@),
{
    let mut i: usize = 0;
    while i < v.len()
        invariant
            0 <= i <= v.len(),
            forall|j: int| 0 <= j < i ==> ids_view(v@)[j] != x@,
        decreases v.len() - i,
    {
        if v[i].eq(x) {
            assert(ids_view(v@)[i as int] == x@);
            return true;
        }
        i += 1;
    }
    assert(forall|j: int| 0 <= j < v@.len() ==> ids_view(v@)[j] != x@);
    false
}

/// Records `val` in `fv` when it is a variable that is bound in neither list.
fn extract_v(asv: &Vec<Id>, val: &Value, fv: &mut Vec<Id>)
    ensures
        ids_view(final(fv)@) == fv_val(value_view(*val), ids_view(asv@), ids_view(old(fv)@)),
{
    match val {
        Value::Var(x) => {
            if !contains_id(asv, x) && !contains_id(fv, x) {
                fv.push(x.clone());
                assert(ids_view(final(fv)@) =~= ids_view(old(fv)@).push(x@));
            }
        },
        Value::Intv(_) => {},
    }
}

/// Free variables of a computation expression; appends discoveries to `fv`
/// and leaves the bound list as it found it.
fn sub_find_fv(nmce: &normal::Cexp, asv: &mut Vec<Id>, fv: &mut Vec<Id>)
    ensures
        final(asv)@ == old(asv)@,
        ids_view(final(fv)@) == fv_cexp(nmce@, ids_view(old(asv)@), ids_view(old(fv)@)),
    decreases *nmce,
{
    match nmce {
        normal::Cexp::Val(val) => extract_v(asv, val, fv),
        normal::Cexp::Binop(_, val1, val2) => {
            extract_v(asv, val1, fv);
            extract_v(asv, val2, fv);
        },
        normal::Cexp::App(val1, val2) => {
            extract_v(asv, val1, fv);
            extract_v(asv, val2, fv);
        },
        normal::Cexp::Tuple(val1, val2) => {
            extract_v(asv, val1, fv);
            extract_v(asv, val2, fv);
        },
        normal::Cexp::If(val, exp1, exp2) => {
            extract_v(asv, val, fv);
            find_fv(exp1, asv, fv);
            find_fv(exp2, asv, fv);
        },
        normal::Cexp::Proj(val1, _) => extract_v(asv, val1, fv),
    }
}

/// Free variables of an expression under the bound list `asv`: binders are
/// pushed for their scope and popped again, so the list comes back as it
/// went in.
fn find_fv(normexp: &normal::Exp, asv: &mut Vec<Id>, fv: &mut Vec<Id>)
    ensures
        final(asv)@ == old(asv)@,
        ids_view(final(fv)@) == fv_exp(normexp@, ids_view(old(asv)@), ids_view(old(fv)@)),
    decreases *normexp,
{
    match normexp {
        normal::Exp::Compexp(nmce) => sub_find_fv(nmce, asv, fv),
        normal::Exp::Let(id, nmce, nme) => {
            sub_find_fv(nmce, asv, fv);
            asv.push(id.clone());
            proof {
                assert(ids_view(asv@) =~= ids_view(old(asv)@).push(id@));
            }
            find_fv(nme, asv, fv);
            asv.pop();
            proof {
                assert(asv@ =~= old(asv)@);
            }
        },
        normal::Exp::Loop(id, nmce, nme) => {
            sub_find_fv(nmce, asv, fv);
            asv.push(id.clone());
            proof {
                assert(ids_view(asv@) =~= ids_view(old(asv)@).push(id@));
            }
            find_fv(nme, asv, fv);
            asv.pop();
            proof {
                assert(asv@ =~= old(asv)@);
            }
        },
        normal::Exp::Letrec(id1, id2, nme1, nme2) => {
            asv.push(id1.clone());
            asv.push(id2.clone());
            proof {
                assert(ids_view(asv@) =~= ids_view(old(asv)@).push(id1@).push(id2@));
            }
            find_fv(nme1, asv, fv);
            asv.pop();
            proof {
                assert(asv@ =~= old(asv)@.push(asv@[old(asv)@.len() as int]));
                assert(ids_view(asv@) =~= ids_view(old(asv)@).push(id1@));
            }
            find_fv(nme2, asv, fv);
            asv.pop();
            proof {
                assert(asv@ =~= old(asv)@);
            }
        },
        normal::Exp::Recur(val) => extract_v(asv, val, fv),
    }
}

// ----------------------------------------------------------------------
// Conversion.

/// Pending context: the deferred enclosing binder, applied at the point
/// where the rewritten computation is produced.
enum CCtx {
    Ef,
    LetC(Id, Exp),
    LoopC(Id, Exp),
}

/// Model of a `CCtx`.
pub enum CCtxV {
    Ef,
    LetC(Seq<char>, ExpV),
    LoopC(Seq<char>, ExpV),
}

spec fn cctx_view(k: CCtx) -> CCtxV {
    match k {
        CCtx::Ef => CCtxV::Ef,
        CCtx::LetC(id, e) => CCtxV::LetC(id@, exp_view(e)),
        CCtx::LoopC(id, e) => CCtxV::LoopC(id@, exp_view(e)),
    }
}

/// Wraps a rewritten computation in the pending binder.
pub open spec fn apply_cctx(k: CCtxV, ce: CexpV) -> ExpV {
    match k {
        CCtxV::Ef => ExpV::Compexp(Box::new(ce)),
        CCtxV::LetC(id, e) => ExpV::Let(id, Box::new(ce), Box::new(e)),
        CCtxV::LoopC(id, e) => ExpV::Loop(id, Box::new(ce), Box::new(e)),
    }
}

/// Direct translation of a computation expression that needs no rewriting:
/// `App` becomes unary-argument-list `App`, `Tuple` becomes binary n-ary
/// `Tuple`. Never applied to `If`, which the conversion handles itself.
pub open spec fn cce_of(ce: normal::CexpV) -> CexpV {
    match ce {
        normal::CexpV::Val(val) => CexpV::Val(val),
        normal::CexpV::Binop(btype, val1, val2) => CexpV::Binop(btype, val1, val2),
        normal::CexpV::App(val1, val2) => CexpV::App(val1, seq![val2]),
        normal::CexpV::Tuple(val1, val2) => CexpV::Tuple(seq![val1, val2]),
        normal::CexpV::Proj(val, c) => CexpV::Proj(val, c),
        normal::CexpV::If(_, _, _) => vstd::pervasive::arbitrary(),
    }
}

/// The projection bindings re-binding a lifted function's free variables
/// `fvs[i..]` from slots `i+1..` of its closure parameter `f`, wrapped
/// around `body`.
pub open spec fn wrap_projs(fvs: Seq<Seq<char>>, f: Seq<char>, i: int, body: ExpV) -> ExpV
    decreases fvs.len() - i,
{
    if i < 0 || i >= fvs.len() {
        body
    } else {
        ExpV::Let(
            fvs[i],
            Box::new(CexpV::Proj(ValueV::Var(f), i + 1)),
            Box::new(wrap_projs(fvs, f, i + 1, body)),
        )
    }
}

/// Model of closure conversion. Takes the N-IR expression, the pending
/// context and the next fresh-name number; returns the C-IR expression and
/// the advanced counter.
pub open spec fn conv_spec(e: normal::ExpV, k: CCtxV, c: nat) -> (ExpV, nat)
    decreases e,
{
    match e {
        normal::ExpV::Compexp(c0) => match *c0 {
            normal::CexpV::If(val, e1, e2) => {
                let r1 = conv_spec(*e1, CCtxV::Ef, c);
                let r2 = conv_spec(*e2, CCtxV::Ef, r1.1);
                (apply_cctx(k, CexpV::If(val, Box::new(r1.0), Box::new(r2.0))), r2.1)
            },
            normal::CexpV::App(ValueV::Var(v), val2) => {
                let appv = fun_name('r', v, c);
                (
                    ExpV::Let(
                        appv,
                        Box::new(CexpV::Proj(ValueV::Var(v), 0)),
                        Box::new(
                            apply_cctx(
                                k,
                                CexpV::App(
                                    ValueV::Var(appv),
                                    seq![ValueV::Var(v), val2],
                                ),
                            ),
                        ),
                    ),
                    c + 1,
                )
            },
            ce => (apply_cctx(k, cce_of(ce)), c),
        },
        normal::ExpV::Let(id, c0, rest) => match *c0 {
            normal::CexpV::If(val, e1, e2) => {
                let r1 = conv_spec(*e1, CCtxV::Ef, c);
                let r2 = conv_spec(*e2, CCtxV::Ef, r1.1);
                let rr = conv_spec(*rest, k, r2.1);
                (
                    ExpV::Let(
                        id,
                        Box::new(CexpV::If(val, Box::new(r1.0), Box::new(r2.0))),
                        Box::new(rr.0),
                    ),
                    rr.1,
                )
            },
            normal::CexpV::App(ValueV::Var(v), val2) => {
                let rr = conv_spec(*rest, k, c);
                let appv = fun_name('r', v, rr.1);
                (
                    ExpV::Let(
                        appv,
                        Box::new(CexpV::Proj(ValueV::Var(v), 0)),
                        Box::new(
                            ExpV::Let(
                                id,
                                Box::new(
                                    CexpV::App(
                                        ValueV::Var(appv),
                                        seq![ValueV::Var(v), val2],
                                    ),
                                ),
                                Box::new(rr.0),
                            ),
                        ),
                    ),
                    rr.1 + 1,
                )
            },
            ce => {
                let rr = conv_spec(*rest, k, c);
                (ExpV::Let(id, Box::new(cce_of(ce)), Box::new(rr.0)), rr.1)
            },
        },
        normal::ExpV::Loop(id, c0, rest) => match *c0 {
            normal::CexpV::If(val, e1, e2) => {
                let r1 = conv_spec(*e1, CCtxV::Ef, c);
                let r2 = conv_spec(*e2, CCtxV::Ef, r1.1);
                let rr = conv_spec(*rest, k, r2.1);
                (
                    ExpV::Loop(
                        id,
                        Box::new(CexpV::If(val, Box::new(r1.0), Box::new(r2.0))),
                        Box::new(rr.0),
                    ),
                    rr.1,
                )
            },
            normal::CexpV::App(ValueV::Var(v), val2) => {
                let rr = conv_spec(*rest, k, c);
                let appv = fun_name('r', v, rr.1);
                (
                    ExpV::Let(
                        appv,
                        Box::new(CexpV::Proj(ValueV::Var(v), 0)),
                        Box::new(
                            ExpV::Loop(
                                id,
                                Box::new(
                                    CexpV::App(
                                        ValueV::Var(appv),
                                        seq![ValueV::Var(v), val2],
                                    ),
                                ),
                                Box::new(rr.0),
                            ),
                        ),
                    ),
                    rr.1 + 1,
                )
            },
            ce => {
                let rr = conv_spec(*rest, k, c);
                (ExpV::Loop(id, Box::new(cce_of(ce)), Box::new(rr.0)), rr.1)
            },
        },
        normal::ExpV::Letrec(f, p, body, cont) => {
            let fvs = fv_exp(*body, seq![f, p], Seq::empty());
            let rb = conv_spec(*body, CCtxV::Ef, c);
            let wrapped = wrap_projs(fvs, f, 0, rb.0);
            let ffv = fun_name('b', f, rb.1);
            let rc = conv_spec(*cont, k, rb.1 + 1);
            let tuple_vals = seq![ValueV::Var(ffv)] + fvs.map_values(|y: Seq<char>| ValueV::Var(y));
            (
                ExpV::Letrec(
                    ffv,
                    seq![f, p],
                    Box::new(wrapped),
                    Box::new(
                        ExpV::Let(f, Box::new(CexpV::Tuple(tuple_vals)), Box::new(rc.0)),
                    ),
                ),
                rc.1,
            )
        },
        normal::ExpV::Recur(val) => (ExpV::Recur(val), c),
    }
}

/// Closure conversion draws at most one fresh name per node.
pub proof fn lemma_conv_count(e: normal::ExpV, k: CCtxV, c: nat)
    ensures
        conv_spec(e, k, c).1 <= c + exp_size(e),
    decreases e,
{
    reveal_with_fuel(exp_size, 3);
    reveal_with_fuel(cexp_size, 3);
    match e {
        normal::ExpV::Compexp(c0) => match *c0 {
            normal::CexpV::If(val, e1, e2) => {
                let r1 = conv_spec(*e1, CCtxV::Ef, c);
                lemma_conv_count(*e1, CCtxV::Ef, c);
                lemma_conv_count(*e2, CCtxV::Ef, r1.1);
            },
            _ => {},
        },
        normal::ExpV::Let(id, c0, rest) => match *c0 {
            normal::CexpV::If(val, e1, e2) => {
                let r1 = conv_spec(*e1, CCtxV::Ef, c);
                let r2 = conv_spec(*e2, CCtxV::Ef, r1.1);
                lemma_conv_count(*e1, CCtxV::Ef, c);
                lemma_conv_count(*e2, CCtxV::Ef, r1.1);
                lemma_conv_count(*rest, k, r2.1);
            },
            _ => {
                lemma_conv_count(*rest, k, c);
            },
        },
        normal::ExpV::Loop(id, c0, rest) => match *c0 {
            normal::CexpV::If(val, e1, e2) => {
                let r1 = conv_spec(*e1, CCtxV::Ef, c);
                let r2 = conv_spec(*e2, CCtxV::Ef, r1.1);
                lemma_conv_count(*e1, CCtxV::Ef, c);
                lemma_conv_count(*e2, CCtxV::Ef, r1.1);
                lemma_conv_count(*rest, k, r2.1);
            },
            _ => {
                lemma_conv_count(*rest, k, c);
            },
        },
        normal::ExpV::Letrec(f, p, body, cont) => {
            let rb = conv_spec(*body, CCtxV::Ef, c);
            lemma_conv_count(*body, CCtxV::Ef, c);
            lemma_conv_count(*cont, k, rb.1 + 1);
        },
        normal::ExpV::Recur(_) => {},
    }
}

/// Returns an equal copy of a fresh variable's name (`@v<n>`).
pub fn duplicate_var(nv: String) -> (r: String)
    ensures
        r@ == nv@,
{
    nv
}

fn get_fresh_function_var(s: &String, fresh_char: char, count: &mut u64) -> (r: String)
    requires
        *old(count) < u64::MAX,
        fresh_char == 'r' || fresh_char == 'b',
    ensures
        r@ == fun_name(fresh_char, s@, *old(count) as nat),
        *final(count) == *old(count) + 1,
{
    let r = make_fun_name(fresh_char, s.as_str(), *count);
    *count = *count + 1;
    r
}

fn apply_ctx(k: CCtx, ce: Cexp) -> (e: Exp)
    ensures
        e@ == apply_cctx(cctx_view(k), ce@),
{
    match k {
        CCtx::Ef => Exp::Compexp(Box::new(ce)),
        CCtx::LetC(id, e1) => Exp::Let(id, Box::new(ce), Box::new(e1)),
        CCtx::LoopC(id, e1) => Exp::Loop(id, Box::new(ce), Box::new(e1)),
    }
}

/// Direct translation of a computation expression that needs no rewriting.
fn nce2cce(nce: normal::Cexp) -> (r: Cexp)
    requires
        !(nce@ is If),
    ensures
        r@ == cce_of(nce@),
{
    match nce {
        normal::Cexp::Val(val) => Cexp::Val(val),
        normal::Cexp::Binop(btype, val1, val2) => Cexp::Binop(btype, val1, val2),
        normal::Cexp::App(val1, val2) => {
            let r = Cexp::App(val1, vec![val2]);
            proof {
                reveal_with_fuel(cexp_view, 2);
                assert(values_view(r->App_1@) =~= seq![value_view(r->App_1@[0])]);
            }
            r
        },
        normal::Cexp::Tuple(val1, val2) => {
            let r = Cexp::Tuple(vec![val1, val2]);
            proof {
                reveal_with_fuel(cexp_view, 2);
                assert(values_view(r->Tuple_0@) =~= seq![
                    value_view(r->Tuple_0@[0]),
                    value_view(r->Tuple_0@[1]),
                ]);
            }
            r
        },
        normal::Cexp::Proj(val, c) => Cexp::Proj(val, c),
        normal::Cexp::If(val, e1, e2) => {
            proof {
                assert(false);
            }
            Cexp::Val(val)
        },
    }
}

spec fn compexp_nexp(c0: normal::CexpV) -> normal::ExpV {
    normal::ExpV::Compexp(Box::new(c0))
}

#[verifier::spinoff_prover]
fn conv_compexp(c0: Box<normal::Cexp>, k: CCtx, count: &mut u64) -> (e: Exp)
    requires
        *old(count) + exp_size(compexp_nexp(c0@)) <= u64::MAX,
        exp_size(compexp_nexp(c0@)) <= 0x3fff_ffff,
    ensures
        ({
            let r = conv_spec(compexp_nexp(c0@), cctx_view(k), *old(count) as nat);
            e@ == r.0 && *final(count) as nat == r.1
        }),
    decreases 1 + cexp_size(c0@), 0nat,
{
    proof {
        reveal_with_fuel(exp_size, 3);
        reveal_with_fuel(cexp_size, 3);
    }
    match *c0 {
        normal::Cexp::If(val, e1, e2) => {
            proof {
                lemma_conv_count(e1@, CCtxV::Ef, *count as nat);
            }
            let r1 = convert(*e1, CCtx::Ef, count);
            let r2 = convert(*e2, CCtx::Ef, count);
            apply_ctx(k, Cexp::If(val, Box::new(r1), Box::new(r2)))
        },
        normal::Cexp::App(Value::Var(v), val2) => {
            let appv = get_fresh_function_var(&v, 'r', count);
            let mut args: Vec<Value> = Vec::new();
            args.push(Value::Var(v.clone()));
            args.push(val2);
            proof {
                assert(values_view(args@) =~= seq![ValueV::Var(v@), value_view(args@[1])]);
            }
            let inner = apply_ctx(k, Cexp::App(Value::Var(duplicate_var(appv.clone())), args));
            let e = Exp::Let(appv, Box::new(Cexp::Proj(Value::Var(v), 0)), Box::new(inner));
            proof {
                reveal_with_fuel(exp_view, 3);
            }
            e
        },
        ce => apply_ctx(k, nce2cce(ce)),
    }
}

spec fn let_nexp(id: Seq<char>, c0: normal::CexpV, rest: normal::ExpV) -> normal::ExpV {
    normal::ExpV::Let(id, Box::new(c0), Box::new(rest))
}

#[verifier::spinoff_prover]
fn conv_let(id: Id, c0: Box<normal::Cexp>, rest: Box<normal::Exp>, k: CCtx, count: &mut u64) -> (e:
    Exp)
    requires
        *old(count) + exp_size(let_nexp(id@, c0@, rest@)) <= u64::MAX,
        exp_size(let_nexp(id@, c0@, rest@)) <= 0x3fff_ffff,
    ensures
        ({
            let r = conv_spec(let_nexp(id@, c0@, rest@), cctx_view(k), *old(count) as nat);
            e@ == r.0 && *final(count) as nat == r.1
        }),
    decreases 1 + cexp_size(c0@) + exp_size(rest@), 0nat,
{
    proof {
        reveal_with_fuel(exp_size, 3);
        reveal_with_fuel(cexp_size, 3);
    }
    match *c0 {
        normal::Cexp::If(val, e1, e2) => {
            proof {
                lemma_conv_count(e1@, CCtxV::Ef, *count as nat);
                lemma_conv_count(
                    e2@,
                    CCtxV::Ef,
                    conv_spec(e1@, CCtxV::Ef, *count as nat).1,
                );
            }
            let r1 = convert(*e1, CCtx::Ef, count);
            let r2 = convert(*e2, CCtx::Ef, count);
            let rr = convert(*rest, k, count);
            let e = Exp::Let(
                id,
                Box::new(Cexp::If(val, Box::new(r1), Box::new(r2))),
                Box::new(rr),
            );
            proof {
                reveal_with_fuel(exp_view, 3);
            }
            e
        },
        normal::Cexp::App(Value::Var(v), val2) => {
            proof {
                lemma_conv_count(rest@, cctx_view(k), *count as nat);
            }
            let rr = convert(*rest, k, count);
            let appv = get_fresh_function_var(&v, 'r', count);
            let mut args: Vec<Value> = Vec::new();
            args.push(Value::Var(v.clone()));
            args.push(val2);
            proof {
                assert(values_view(args@) =~= seq![ValueV::Var(v@), value_view(args@[1])]);
            }
            let e = Exp::Let(
                appv.clone(),
                Box::new(Cexp::Proj(Value::Var(v), 0)),
                Box::new(
                    Exp::Let(
                        id,
                        Box::new(Cexp::App(Value::Var(duplicate_var(appv)), args)),
                        Box::new(rr),
                    ),
                ),
            );
            proof {
                reveal_with_fuel(exp_view, 4);
            }
            e
        },
        ce => {
            let fce = nce2cce(ce);
            let rr = convert(*rest, k, count);
            Exp::Let(id, Box::new(fce), Box::new(rr))
        },
    }
}

spec fn loop_nexp(id: Seq<char>, c0: normal::CexpV, rest: normal::ExpV) -> normal::ExpV {
    normal::ExpV::Loop(id, Box::new(c0), Box::new(rest))
}

#[verifier::spinoff_prover]
fn conv_loop(id: Id, c0: Box<normal::Cexp>, rest: Box<normal::Exp>, k: CCtx, count: &mut u64) -> (e:
    Exp)
    requires
        *old(count) + exp_size(loop_nexp(id@, c0@, rest@)) <= u64::MAX,
        exp_size(loop_nexp(id@, c0@, rest@)) <= 0x3fff_ffff,
    ensures
        ({
            let r = conv_spec(loop_nexp(id@, c0@, rest@), cctx_view(k), *old(count) as nat);
            e@ == r.0 && *final(count) as nat == r.1
        }),
    decreases 1 + cexp_size(c0@) + exp_size(rest@), 0nat,
{
    proof {
        reveal_with_fuel(exp_size, 3);
        reveal_with_fuel(cexp_size, 3);
    }
    match *c0 {
        normal::Cexp::If(val, e1, e2) => {
            proof {
                lemma_conv_count(e1@, CCtxV::Ef, *count as nat);
                lemma_conv_count(
                    e2@,
                    CCtxV::Ef,
                    conv_spec(e1@, CCtxV::Ef, *count as nat).1,
                );
            }
            let r1 = convert(*e1, CCtx::Ef, count);
            let r2 = convert(*e2, CCtx::Ef, count);
            let rr = convert(*rest, k, count);
            let e = Exp::Loop(
                id,
                Box::new(Cexp::If(val, Box::new(r1), Box::new(r2))),
                Box::new(rr),
            );
            proof {
                reveal_with_fuel(exp_view, 3);
            }
            e
        },
        normal::Cexp::App(Value::Var(v), val2) => {
            proof {
                lemma_conv_count(rest@, cctx_view(k), *count as nat);
            }
            let rr = convert(*rest, k, count);
            let appv = get_fresh_function_var(&v, 'r', count);
            let mut args: Vec<Value> = Vec::new();
            args.push(Value::Var(v.clone()));
            args.push(val2);
            proof {
                assert(values_view(args@) =~= seq![ValueV::Var(v@), value_view(args@[1])]);
            }
            let e = Exp::Let(
                appv.clone(),
                Box::new(Cexp::Proj(Value::Var(v), 0)),
                Box::new(
                    Exp::Loop(
                        id,
                        Box::new(Cexp::App(Value::Var(duplicate_var(appv)), args)),
                        Box::new(rr),
                    ),
                ),
            );
            proof {
                reveal_with_fuel(exp_view, 4);
            }
            e
        },
        ce => {
            let fce = nce2cce(ce);
            let rr = convert(*rest, k, count);
            Exp::Loop(id, Box::new(fce), Box::new(rr))
        },
    }
}

spec fn letrec_nexp(f: Seq<char>, p: Seq<char>, body: normal::ExpV, cont: normal::ExpV) -> normal::ExpV {
    normal::ExpV::Letrec(f, p, Box::new(body), Box::new(cont))
}

#[verifier::spinoff_prover]
#[verifier::rlimit(40)]
fn conv_letrec(
    id1: Id,
    id2: Id,
    body: Box<normal::Exp>,
    cont: Box<normal::Exp>,
    k: CCtx,
    count: &mut u64,
) -> (e: Exp)
    requires
        *old(count) + exp_size(letrec_nexp(id1@, id2@, body@, cont@)) <= u64::MAX,
        exp_size(letrec_nexp(id1@, id2@, body@, cont@)) <= 0x3fff_ffff,
    ensures
        ({
            let r = conv_spec(
                letrec_nexp(id1@, id2@, body@, cont@),
                cctx_view(k),
                *old(count) as nat,
            );
            e@ == r.0 && *final(count) as nat == r.1
        }),
    decreases 1 + exp_size(body@) + exp_size(cont@), 0nat,
{
    proof {
        reveal_with_fuel(exp_size, 3);
        reveal_with_fuel(cexp_size, 3);
    }
    let ghost fvs_spec = fv_exp(body@, seq![id1@, id2@], Seq::empty());
    let mut asv: Vec<Id> = Vec::new();
    asv.push(id1.clone());
    asv.push(id2.clone());
    let mut fvs: Vec<Id> = Vec::new();
    proof {
        assert(ids_view(asv@) =~= seq![id1@, id2@]);
        assert(ids_view(fvs@) =~= Seq::<Seq<char>>::empty());
        lemma_fv_exp_len(body@, seq![id1@, id2@], Seq::empty());
        lemma_conv_count(body@, CCtxV::Ef, *count as nat);
    }
    find_fv(&body, &mut asv, &mut fvs);
    let rb = convert(*body, CCtx::Ef, count);
    let ghost rb_v = rb@;
    let mut wrapped = rb;
    let mut j: usize = fvs.len();
    while j > 0
        invariant
            j <= fvs.len(),
            ids_view(fvs@) == fvs_spec,
            fvs.len() <= 0x7fff_fffe,
            exp_view(wrapped) == wrap_projs(fvs_spec, id1@, j as int, rb_v),
        decreases j,
    {
        j -= 1;
        wrapped = Exp::Let(
            fvs[j].clone(),
            Box::new(Cexp::Proj(Value::Var(id1.clone()), (j as i32) + 1)),
            Box::new(wrapped),
        );
        proof {
            reveal_with_fuel(exp_view, 2);
            assert(ids_view(fvs@)[j as int] == fvs@[j as int]@);
        }
    }
    let ffv = get_fresh_function_var(&id1, 'b', count);
    proof {
        lemma_conv_count(cont@, cctx_view(k), *count as nat);
    }
    let rc = convert(*cont, k, count);
    let ghost tuple_spec = seq![ValueV::Var(ffv@)] + fvs_spec.map_values(
        |y: Seq<char>| ValueV::Var(y),
    );
    let mut cs_varset: Vec<Value> = Vec::new();
    cs_varset.push(Value::Var(duplicate_var(ffv.clone())));
    let mut i: usize = 0;
    while i < fvs.len()
        invariant
            i <= fvs.len(),
            ids_view(fvs@) == fvs_spec,
            cs_varset.len() == 1 + i,
            values_view(cs_varset@)[0] == ValueV::Var(ffv@),
            forall|n: int|
                0 <= n < i ==> values_view(cs_varset@)[n + 1] == ValueV::Var(fvs_spec[n]),
        decreases fvs.len() - i,
    {
        cs_varset.push(Value::Var(fvs[i].clone()));
        proof {
            assert(ids_view(fvs@)[i as int] == fvs@[i as int]@);
            assert(values_view(cs_varset@)[i + 1] == ValueV::Var(fvs_spec[i as int]));
        }
        i += 1;
    }
    proof {
        assert(values_view(cs_varset@) =~= tuple_spec);
    }
    let mut formals: Vec<Id> = Vec::new();
    formals.push(id1.clone());
    formals.push(id2);
    let e = Exp::Letrec(
        ffv,
        formals,
        Box::new(wrapped),
        Box::new(Exp::Let(id1, Box::new(Cexp::Tuple(cs_varset)), Box::new(rc))),
    );
    proof {
        reveal_with_fuel(exp_view, 4);
        assert(ids_view(formals@) =~= seq![id1@, id2@]);
    }
    e
}

#[verifier::spinoff_prover]
fn convert(normexp: normal::Exp, k: CCtx, count: &mut u64) -> (e: Exp)
    requires
        *old(count) + exp_size(normexp@) <= u64::MAX,
        exp_size(normexp@) <= 0x3fff_ffff,
    ensures
        ({
            let r = conv_spec(normexp@, cctx_view(k), *old(count) as nat);
            e@ == r.0 && *final(count) as nat == r.1
        }),
    decreases exp_size(normexp@), 1nat,
{
    proof {
        reveal_with_fuel(exp_size, 3);
        reveal_with_fuel(cexp_size, 3);
    }
    match normexp {
        normal::Exp::Compexp(c0) => conv_compexp(c0, k, count),
        normal::Exp::Let(id, c0, rest) => conv_let(id, c0, rest, k, count),
        normal::Exp::Loop(id, c0, rest) => conv_loop(id, c0, rest, k, count),
        normal::Exp::Letrec(id1, id2, body, cont) => conv_letrec(id1, id2, body, cont, k, count),
        normal::Exp::Recur(val) => Exp::Recur(val),
    }
}

/// Closure conversion: eliminates free variables by packing them into
/// explicit environment tuples and lifts every application to an indirect
/// call through slot 0 of the callee's closure. Fresh names are drawn from
/// a counter starting at zero. The result equals the model `conv_spec`.
pub fn closure(normexp: normal::Exp) -> (e: Exp)
    requires
        exp_size(normexp@) <= 0x3fff_ffff,
    ensures
        e@ == conv_spec(normexp@, CCtxV::Ef, 0).0,
{
    let mut count: u64 = 0;
    convert(normexp, CCtx::Ef, &mut count)
}


// ----------------------------------------------------------------------
// Closure uniformity.

/// Well-formedness of the pass's input: every application's callee is a
/// variable. (An integer in callee position can be written in the surface
/// language but denotes no call.)
pub open spec fn napps_var_cexp(c: normal::CexpV) -> bool
    decreases c,
{
    match c {
        normal::CexpV::App(v, _) => v is Var,
        normal::CexpV::If(_, e1, e2) => napps_var_exp(*e1) && napps_var_exp(*e2),
        _ => true,
    }
}

/// Well-formedness of the pass's input, on expressions.
pub open spec fn napps_var_exp(e: normal::ExpV) -> bool
    decreases e,
{
    match e {
        normal::ExpV::Compexp(c) => napps_var_cexp(*c),
        normal::ExpV::Let(_, c, r) => napps_var_cexp(*c) && napps_var_exp(*r),
        normal::ExpV::Loop(_, c, r) => napps_var_cexp(*c) && napps_var_exp(*r),
        normal::ExpV::Letrec(_, _, b, cont) => napps_var_exp(*b) && napps_var_exp(*cont),
        normal::ExpV::Recur(_) => true,
    }
}

/// Uniformity of converted computation expressions: every `App` carries
/// exactly two arguments (the callee's closure and the original argument).
pub open spec fn uniform_cexp(c: CexpV) -> bool
    decreases c,
{
    match c {
        CexpV::App(_, args) => args.len() == 2,
        CexpV::If(_, e1, e2) => uniform_exp(*e1) && uniform_exp(*e2),
        _ => true,
    }
}

/// Uniformity of converted expressions: every `App` has exactly two
/// arguments, every `Letrec` has exactly two formals, and each `Letrec`
/// binds its source name to a closure tuple whose slot 0 holds the lifted
/// label.
pub open spec fn uniform_exp(e: ExpV) -> bool
    decreases e,
{
    match e {
        ExpV::Compexp(c) => uniform_cexp(*c),
        ExpV::Let(_, c, r) => uniform_cexp(*c) && uniform_exp(*r),
        ExpV::Loop(_, c, r) => uniform_cexp(*c) && uniform_exp(*r),
        ExpV::Letrec(lbl, formals, body, cont) => formals.len() == 2 && uniform_exp(*body)
            && uniform_exp(*cont) && closure_binding(lbl, *cont),
        ExpV::Recur(_) => true,
    }
}

/// Immediately under a `Letrec`, the converted scope binds the source name
/// to the closure tuple: slot 0 holds the lifted label.
pub open spec fn closure_binding(lbl: Seq<char>, cont: ExpV) -> bool {
    match cont {
        ExpV::Let(_, c, _) => match *c {
            CexpV::Tuple(vs) => vs.len() >= 1 && vs[0] == ValueV::Var(lbl),
            _ => false,
        },
        _ => false,
    }
}

/// Uniformity of the expression stored in a pending context.
pub open spec fn uniform_cctx(k: CCtxV) -> bool {
    match k {
        CCtxV::Ef => true,
        CCtxV::LetC(_, e) => uniform_exp(e),
        CCtxV::LoopC(_, e) => uniform_exp(e),
    }
}

proof fn lemma_wrap_projs_uniform(fvs: Seq<Seq<char>>, f: Seq<char>, i: int, body: ExpV)
    requires
        uniform_exp(body),
    ensures
        uniform_exp(wrap_projs(fvs, f, i, body)),
    decreases fvs.len() - i,
{
    reveal_with_fuel(uniform_exp, 3);
    reveal_with_fuel(uniform_cexp, 3);
    if 0 <= i < fvs.len() {
        lemma_wrap_projs_uniform(fvs, f, i + 1, body);
    }
}

/// Closure uniformity, the law of this pass: for every input whose `App`
/// callees are variables, the conversion's result is uniform — every `App`
/// has exactly two arguments (the callee closure first), every `Letrec` has
/// exactly two formals, and slot 0 of every closure tuple holds the lifted
/// function's label.
pub proof fn lemma_closure_uniform(e: normal::ExpV, k: CCtxV, c: nat)
    requires
        napps_var_exp(e),
        uniform_cctx(k),
    ensures
        uniform_exp(conv_spec(e, k, c).0),
    decreases e,
{
    reveal_with_fuel(uniform_exp, 4);
    reveal_with_fuel(uniform_cexp, 4);
    reveal_with_fuel(napps_var_exp, 3);
    reveal_with_fuel(napps_var_cexp, 3);
    match e {
        normal::ExpV::Compexp(c0) => match *c0 {
            normal::CexpV::If(val, e1, e2) => {
                let r1 = conv_spec(*e1, CCtxV::Ef, c);
                lemma_closure_uniform(*e1, CCtxV::Ef, c);
                lemma_closure_uniform(*e2, CCtxV::Ef, r1.1);
            },
            _ => {},
        },
        normal::ExpV::Let(id, c0, rest) => match *c0 {
            normal::CexpV::If(val, e1, e2) => {
                let r1 = conv_spec(*e1, CCtxV::Ef, c);
                let r2 = conv_spec(*e2, CCtxV::Ef, r1.1);
                lemma_closure_uniform(*e1, CCtxV::Ef, c);
                lemma_closure_uniform(*e2, CCtxV::Ef, r1.1);
                lemma_closure_uniform(*rest, k, r2.1);
            },
            _ => {
                lemma_closure_uniform(*rest, k, c);
            },
        },
        normal::ExpV::Loop(id, c0, rest) => match *c0 {
            normal::CexpV::If(val, e1, e2) => {
                let r1 = conv_spec(*e1, CCtxV::Ef, c);
                let r2 = conv_spec(*e2, CCtxV::Ef, r1.1);
                lemma_closure_uniform(*e1, CCtxV::Ef, c);
                lemma_closure_uniform(*e2, CCtxV::Ef, r1.1);
                lemma_closure_uniform(*rest, k, r2.1);
            },
            _ => {
                lemma_closure_uniform(*rest, k, c);
            },
        },
        normal::ExpV::Letrec(f, p, body, cont) => {
            let fvs = fv_exp(*body, seq![f, p], Seq::empty());
            let rb = conv_spec(*body, CCtxV::Ef, c);
            lemma_closure_uniform(*body, CCtxV::Ef, c);
            lemma_wrap_projs_uniform(fvs, f, 0, rb.0);
            lemma_closure_uniform(*cont, k, rb.1 + 1);
        },
        normal::ExpV::Recur(_) => {},
    }
}

// ----------------------------------------------------------------------
// Rendering, for inspection of intermediate results.

/// The value's source text.
fn value_text(v: &Value) -> String {
    match v {
        Value::Var(id) => id.clone(),
        Value::Intv(n) => i32_dec(*n),
    }
}

/// The values as a parenthesized, comma-separated list.
fn values_text(vs: &Vec<Value>) -> String {
    let mut s = "(".to_owned();
    let mut i: usize = 0;
    while i < vs.len()
        invariant
            i <= vs@.len(),
        decreases vs@.len() - i,
    {
        if i > 0 {
            s.append(", ");
        }
        s.append(value_text(&vs[i]).as_str());
        i += 1;
    }
    s.append(")");
    s
}

/// The identifiers as a parenthesized, comma-separated list.
fn ids_text(ids: &Vec<Id>) -> String {
    let mut s = "(".to_owned();
    let mut i: usize = 0;
    while i < ids.len()
        invariant
            i <= ids@.len(),
        decreases ids@.len() - i,
    {
        if i > 0 {
            s.append(", ");
        }
        s.append(ids[i].as_str());
        i += 1;
    }
    s.append(")");
    s
}

impl Cexp {
    /// The computation's source-like text, for inspection.
    pub fn program_display(&self) -> String
        decreases *self,
    {
        match self {
            Cexp::Val(v) => value_text(v),
            Cexp::Binop(tty, v1, v2) => {
                let mut s = value_text(v1);
                s.push((*tty).bintype_signal());
                s.append(value_text(v2).as_str());
                s
            },
            Cexp::App(v1, vs) => {
                let mut s = value_text(v1);
                s.append(" ");
                s.append(values_text(vs).as_str());
                s
            },
            Cexp::If(v, e1, e2) => {
                let mut s = "if ".to_owned();
                s.append(value_text(v).as_str());
                s.append(" then ");
                s.append(e1.program_display().as_str());
                s.append(" else ");
                s.append(e2.program_display().as_str());
                s
            },
            Cexp::Tuple(vs) => values_text(vs),
            Cexp::Proj(v, i) => {
                let mut s = value_text(v);
                s.append(".");
                s.append(i32_dec(*i).as_str());
                s
            },
        }
    }
}

impl Exp {
    /// The expression's source-like text, for inspection.
    pub fn program_display(&self) -> String
        decreases *self,
    {
        match self {
            Exp::Compexp(cexp) => cexp.program_display(),
            Exp::Let(id, cexp, exp) => {
                let mut s = "let ".to_owned();
                s.append(id.as_str());
                s.append(" = ");
                s.append(cexp.program_display().as_str());
                s.append(" in\n");
                s.append(exp.program_display().as_str());
                s
            },
            Exp::Loop(id, cexp, exp) => {
                let mut s = "loop ".to_owned();
                s.append(id.as_str());
                s.append(" = ");
                s.append(cexp.program_display().as_str());
                s.append(" in\n");
                s.append(exp.program_display().as_str());
                s
            },
            Exp::Letrec(id1, idls, exp1, exp2) => {
                let mut s = "let rec ".to_owned();
                s.append(id1.as_str());
                s.append(" = fun ");
                s.append(ids_text(idls).as_str());
                s.append(" -> ");
                match &**exp1 {
                    Exp::Compexp(_) => {},
                    Exp::Recur(_) => {},
                    _ => {
                        s.append("\n");
                    },
                }
                s.append(exp1.program_display().as_str());
                s.append(" in\n");
                s.append(exp2.program_display().as_str());
                s
            },
            Exp::Recur(v) => {
                let mut s = "recur ".to_owned();
                s.append(value_text(v).as_str());
                s
            },
        }
    }
}

} // verus!
