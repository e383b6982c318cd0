//! Flattening / hoisting: C-IR to F-IR.
//!
//! Removes `Letrec` by emitting each lifted function as a top-level
//! `Recdecl` and replaces references to lifted names by `Value::Fun(label)`;
//! ordinary variables stay `Value::Var`. A scoped environment maps each
//! source name to the flag that decides between the two. The outermost
//! expression becomes the last declaration, labeled `main`, with no formals.
//!
//! The executable pass is pinned to the spec-level model `flat_exp_spec`;
//! a variable bound nowhere is the one input error.

use vstd::prelude::*;
use vstd::string::StringExecFns;
use crate::names::{Id, i32_dec};
use crate::ast::Bintype;
use crate::normal;
use crate::closure;
use crate::closure::ids_view;

verus! {

/// Atomic value of F-IR: `Fun` is a direct reference to a top-level label.
#[derive(Hash, Eq, PartialEq, Clone, Debug)]
pub enum Value {
    Var(Id),
    Fun(Id),
    Intv(i32),
}

/// Computation expression of F-IR.
#[derive(Debug, PartialEq)]
pub enum Cexp {
    Val(Value),
    Binop(Bintype, Value, Value),
    App(Value, Vec<Value>),
    If(Value, Box<Exp>, Box<Exp>),
    Tuple(Vec<Value>),
    Proj(Value, i32),
}

/// Expression of F-IR: no `Letrec` remains, by construction.
#[derive(Debug, PartialEq)]
pub enum Exp {
    Compexp(Box<Cexp>),
    Let(Id, Box<Cexp>, Box<Exp>),
    Loop(Id, Box<Cexp>, Box<Exp>),
    Recur(Value),
}

/// A top-level declaration: label, formals, body.
#[derive(Debug, PartialEq)]
pub struct Recdecl(pub Id, pub Vec<Id>, pub Box<Exp>);

/// The flat program: every function, the `main` entry last.
#[derive(Debug, PartialEq)]
pub struct Program {
    pub recs: Vec<Recdecl>,
}

/// Model of an F-IR value.
pub enum ValueV {
    Var(Seq<char>),
    Fun(Seq<char>),
    Intv(int),
}

/// Model of an F-IR computation expression.
pub enum CexpV {
    Val(ValueV),
    Binop(Bintype, ValueV, ValueV),
    App(ValueV, Seq<ValueV>),
    If(ValueV, Box<ExpV>, Box<ExpV>),
    Tuple(Seq<ValueV>),
    Proj(ValueV, int),
}

/// Model of an F-IR expression.
pub enum ExpV {
    Compexp(Box<CexpV>),
    Let(Seq<char>, Box<CexpV>, Box<ExpV>),
    Loop(Seq<char>, Box<CexpV>, Box<ExpV>),
    Recur(ValueV),
}

/// Model of a declaration.
pub struct RecdeclV {
    pub name: Seq<char>,
    pub formals: Seq<Seq<char>>,
    pub body: ExpV,
}

pub open spec fn value_view(v: Value) -> ValueV {
    match v {
        Value::Var(x) => ValueV::Var(x@),
        Value::Fun(x) => ValueV::Fun(x@),
        Value::Intv(n) => ValueV::Intv(n as int),
    }
}

impl View for Value {
    type V = ValueV;

    open spec fn view(&self) -> ValueV {
        value_view(*self)
    }
}

pub open spec fn values_view(vs: Seq<Value>) -> Seq<ValueV> {
    vs.map_values(|v: Value| value_view(v))
}

pub open spec fn cexp_view(c: Cexp) -> CexpV
    decreases c,
{
    match c {
        Cexp::Val(v) => CexpV::Val(value_view(v)),
        Cexp::Binop(op, v1, v2) => CexpV::Binop(op, value_view(v1), value_view(v2)),
        Cexp::App(v, vs) => CexpV::App(value_view(v), values_view(vs@)),
        Cexp::If(v, e1, e2) => CexpV::If(
            value_view(v),
            Box::new(exp_view(*e1)),
            Box::new(exp_view(*e2)),
        ),
        Cexp::Tuple(vs) => CexpV::Tuple(values_view(vs@)),
        Cexp::Proj(v, k) => CexpV::Proj(value_view(v), k as int),
    }
}

pub open spec fn exp_view(e: Exp) -> ExpV
    decreases e,
{
    match e {
        Exp::Compexp(c) => ExpV::Compexp(Box::new(cexp_view(*c))),
        Exp::Let(id, c, e1) => ExpV::Let(id@, Box::new(cexp_view(*c)), Box::new(exp_view(*e1))),
        Exp::Loop(id, c, e1) => ExpV::Loop(id@, Box::new(cexp_view(*c)), Box::new(exp_view(*e1))),
        Exp::Recur(v) => ExpV::Recur(value_view(v)),
    }
}

impl View for Cexp {
    type V = CexpV;

    open spec fn view(&self) -> CexpV {
        cexp_view(*self)
    }
}

impl View for Exp {
    type V = ExpV;

    open spec fn view(&self) -> ExpV {
        exp_view(*self)
    }
}

impl View for Recdecl {
    type V = RecdeclV;

    open spec fn view(&self) -> RecdeclV {
        RecdeclV { name: self.0@, formals: ids_view(self.1@), body: exp_view(*self.2) }
    }
}

pub open spec fn recs_view(rs: Seq<Recdecl>) -> Seq<RecdeclV> {
    rs.map_values(|r: Recdecl| r@)
}

impl View for Program {
    type V = Seq<RecdeclV>;

    open spec fn view(&self) -> Seq<RecdeclV> {
        recs_view(self.recs@)
    }
}

// ----------------------------------------------------------------------
// The scoped environment: a stack of frames, each a list of bindings from
// a source name to the flag "ordinary variable" (`true`) or "lifted
// function" (`false`). Lookup walks frames from top to bottom, and within
// a frame the latest binding wins.

/// Model of one environment frame.
pub type FrameV = Seq<(Seq<char>, bool)>;

/// Model of the whole environment.
pub type EnvV = Seq<FrameV>;

/// Lookup within one frame: the latest binding of `x` wins.
pub open spec fn frame_find(f: FrameV, x: Seq<char>) -> Option<bool>
    decreases f.len(),
{
    if f.len() == 0 {
        None
    } else if f.last().0 == x {
        Some(f.last().1)
    } else {
        frame_find(f.drop_last(), x)
    }
}

/// Lookup across frames, from the top of the stack down.
pub open spec fn env_find(env: EnvV, x: Seq<char>) -> Option<bool>
    decreases env.len(),
{
    if env.len() == 0 {
        None
    } else {
        match frame_find(env.last(), x) {
            Some(b) => Some(b),
            None => env_find(env.drop_last(), x),
        }
    }
}

/// Binds `x` in the top frame.
pub open spec fn env_add(env: EnvV, x: Seq<char>, b: bool) -> EnvV {
    env.update(env.len() - 1, env.last().push((x, b)))
}

/// The scoped environment.
pub struct FlatEnv {
    frames: Vec<Vec<(Id, bool)>>,
}

pub open spec fn frame_view(f: Seq<(Id, bool)>) -> FrameV {
    f.map_values(|p: (Id, bool)| (p.0@, p.1))
}

pub open spec fn fenv_view(fr: Seq<Vec<(Id, bool)>>) -> EnvV {
    fr.map_values(|f: Vec<(Id, bool)>| frame_view(f@))
}

impl View for FlatEnv {
    type V = EnvV;

    closed spec fn view(&self) -> EnvV {
        fenv_view(self.frames@)
    }
}

fn find_in_frame(f: &Vec<(Id, bool)>, j: usize, x: &Id) -> (r: Option<bool>)
    requires
        j <= f@.len(),
    ensures
        r == frame_find(frame_view(f@).take(j as int), x@),
    decreases j,
{
    if j == 0 {
        assert(frame_view(f@).take(0).len() == 0);
        None
    } else {
        proof {
            assert(frame_view(f@).take(j as int).last() == (f@[j - 1].0@, f@[j - 1].1));
            assert(frame_view(f@).take(j as int).drop_last() =~= frame_view(f@).take(
                j as int - 1,
            ));
        }
        if f[j - 1].0.eq(x) {
            Some(f[j - 1].1)
        } else {
            find_in_frame(f, j - 1, x)
        }
    }
}

fn find_in_env(fr: &Vec<Vec<(Id, bool)>>, i: usize, x: &Id) -> (r: Option<bool>)
    requires
        i <= fr@.len(),
    ensures
        r == env_find(fenv_view(fr@).take(i as int), x@),
    decreases i,
{
    if i == 0 {
        assert(fenv_view(fr@).take(0).len() == 0);
        None
    } else {
        proof {
            assert(fenv_view(fr@).take(i as int).last() == frame_view(fr@[i - 1]@));
            assert(fenv_view(fr@).take(i as int).drop_last() =~= fenv_view(fr@).take(
                i as int - 1,
            ));
        }
        let f = &fr[i - 1];
        let within = find_in_frame(f, f.len(), x);
        proof {
            assert(frame_view(f@).take(f@.len() as int) =~= frame_view(f@));
        }
        match within {
            Some(b) => Some(b),
            None => find_in_env(fr, i - 1, x),
        }
    }
}

impl FlatEnv {
    /// An environment of one empty frame.
    fn new() -> (r: FlatEnv)
        ensures
            r@ =~~= seq![Seq::<(Seq<char>, bool)>::empty()],
    {
        let mut frames: Vec<Vec<(Id, bool)>> = Vec::new();
        frames.push(Vec::new());
        let r = FlatEnv { frames };
        proof {
            assert(r@ =~~= seq![frame_view(r.frames@[0]@)]);
            assert(frame_view(r.frames@[0]@) =~= Seq::<(Seq<char>, bool)>::empty());
        }
        r
    }

    /// Pushes an empty frame.
    fn inc(&mut self)
        ensures
            final(self)@ =~~= old(self)@.push(Seq::empty()),
    {
        self.frames.push(Vec::new());
        proof {
            assert(fenv_view(self.frames@) =~~= fenv_view(old(self).frames@).push(Seq::empty()));
        }
    }

    /// Pops the top frame.
    fn dec(&mut self)
        requires
            old(self)@.len() >= 1,
        ensures
            final(self)@ =~~= old(self)@.drop_last(),
    {
        self.frames.pop();
        proof {
            assert(fenv_view(self.frames@) =~~= fenv_view(old(self).frames@).drop_last());
        }
    }

    /// Binds `key` in the top frame.
    fn addval(&mut self, key: Id, value: bool)
        requires
            old(self)@.len() >= 1,
        ensures
            final(self)@ =~~= env_add(old(self)@, key@, value),
    {
        let mut top = match self.frames.pop() {
            Some(t) => t,
            None => Vec::new(),
        };
        let ghost keyv = key@;
        top.push((key, value));
        self.frames.push(top);
        proof {
            assert(frame_view(top@) =~~= frame_view(old(self).frames@.last()@).push(
                (keyv, value),
            ));
            assert(fenv_view(self.frames@) =~~= env_add(fenv_view(old(self).frames@), keyv, value));
        }
    }

    /// Lookup, top frame first; within a frame the latest binding wins.
    fn find(&self, x: &Id) -> (r: Option<bool>)
        ensures
            r == env_find(self@, x@),
    {
        let r = find_in_env(&self.frames, self.frames.len(), x);
        proof {
            assert(fenv_view(self.frames@).take(self.frames@.len() as int) =~= fenv_view(
                self.frames@,
            ));
        }
        r
    }
}

// ----------------------------------------------------------------------
// Flattening.

/// The input error of this pass: a variable bound nowhere.
#[derive(Debug, PartialEq)]
pub enum FlatError {
    Unbound(Id),
}

/// Model of a `FlatError`: the unbound name.
pub open spec fn err_view(e: FlatError) -> Seq<char> {
    match e {
        FlatError::Unbound(x) => x@,
    }
}

/// Chooses the flat representation of a C-IR value: an ordinary variable
/// (`valf`) stays a variable, a lifted name becomes a `Fun` reference.
pub open spec fn nval2fval_of(v: normal::ValueV, valf: bool) -> ValueV {
    match v {
        normal::ValueV::Var(s) => if valf {
            ValueV::Var(s)
        } else {
            ValueV::Fun(s)
        },
        normal::ValueV::Intv(n) => ValueV::Intv(n),
    }
}

/// Lookup of one atomic value. Integers bypass the environment; a variable
/// bound nowhere is the error, reported by name.
pub open spec fn tval(env: EnvV, v: normal::ValueV) -> Result<ValueV, Seq<char>> {
    match v {
        normal::ValueV::Intv(n) => Ok(ValueV::Intv(n)),
        normal::ValueV::Var(x) => match env_find(env, x) {
            Some(b) => Ok(nval2fval_of(v, b)),
            None => Err(x),
        },
    }
}

/// Lookup of a list of values; the first unbound name is the error.
pub open spec fn tvals(env: EnvV, vs: Seq<normal::ValueV>) -> Result<Seq<ValueV>, Seq<char>>
    decreases vs.len(),
{
    if vs.len() == 0 {
        Ok(Seq::empty())
    } else {
        match tval(env, vs[0]) {
            Err(x) => Err(x),
            Ok(fv) => match tvals(env, vs.skip(1)) {
                Err(x) => Err(x),
                Ok(rest) => Ok(seq![fv] + rest),
            },
        }
    }
}

/// Direct translation of a computation expression; arguments are looked up
/// before the callee. Never applied to `If`, which flattening handles
/// itself.
pub open spec fn fce_of(env: EnvV, ce: closure::CexpV) -> Result<CexpV, Seq<char>> {
    match ce {
        closure::CexpV::Val(v) => match tval(env, v) {
            Err(x) => Err(x),
            Ok(fv) => Ok(CexpV::Val(fv)),
        },
        closure::CexpV::Binop(op, v1, v2) => match tval(env, v1) {
            Err(x) => Err(x),
            Ok(f1) => match tval(env, v2) {
                Err(x) => Err(x),
                Ok(f2) => Ok(CexpV::Binop(op, f1, f2)),
            },
        },
        closure::CexpV::App(v, args) => match tvals(env, args) {
            Err(x) => Err(x),
            Ok(fargs) => match tval(env, v) {
                Err(x) => Err(x),
                Ok(fv) => Ok(CexpV::App(fv, fargs)),
            },
        },
        closure::CexpV::Tuple(vs) => match tvals(env, vs) {
            Err(x) => Err(x),
            Ok(fvs) => Ok(CexpV::Tuple(fvs)),
        },
        closure::CexpV::Proj(v, k) => match tval(env, v) {
            Err(x) => Err(x),
            Ok(fv) => Ok(CexpV::Proj(fv, k)),
        },
        closure::CexpV::If(_, _, _) => vstd::pervasive::arbitrary(),
    }
}

/// Binds each formal, in order, as an ordinary variable in the top frame.
pub open spec fn add_formals(env: EnvV, formals: Seq<Seq<char>>, i: int) -> EnvV
    decreases formals.len() - i,
{
    if i < 0 || i >= formals.len() {
        env
    } else {
        add_formals(env_add(env, formals[i], true), formals, i + 1)
    }
}

/// Model of flattening one computation expression: `If` recurses into both
/// branches, threading the environment and the program.
pub open spec fn flat_cexp_spec(c: closure::CexpV, env: EnvV, prog: Seq<RecdeclV>) -> Result<
    (CexpV, EnvV, Seq<RecdeclV>),
    Seq<char>,
>
    decreases c,
{
    match c {
        closure::CexpV::If(val, e1, e2) => match tval(env, val) {
            Err(x) => Err(x),
            Ok(fv) => match flat_exp_spec(*e1, env, prog) {
                Err(x) => Err(x),
                Ok((fe1, env1, prog1)) => match flat_exp_spec(*e2, env1, prog1) {
                    Err(x) => Err(x),
                    Ok((fe2, env2, prog2)) => Ok(
                        (CexpV::If(fv, Box::new(fe1), Box::new(fe2)), env2, prog2),
                    ),
                },
            },
        },
        _ => match fce_of(env, c) {
            Err(x) => Err(x),
            Ok(fc) => Ok((fc, env, prog)),
        },
    }
}

/// Model of flattening. Threads the scoped environment and the list of
/// declarations emitted so far; each `Letrec` emits its declaration before
/// its scope is flattened, and binds its name as a lifted function.
pub open spec fn flat_exp_spec(e: closure::ExpV, env: EnvV, prog: Seq<RecdeclV>) -> Result<
    (ExpV, EnvV, Seq<RecdeclV>),
    Seq<char>,
>
    decreases e,
{
    match e {
        closure::ExpV::Compexp(c) => match flat_cexp_spec(*c, env, prog) {
            Err(x) => Err(x),
            Ok((fc, env1, prog1)) => Ok((ExpV::Compexp(Box::new(fc)), env1, prog1)),
        },
        closure::ExpV::Let(id, c, rest) => match flat_cexp_spec(
            *c,
            env.push(Seq::empty()),
            prog,
        ) {
            Err(x) => Err(x),
            Ok((fc, env1, prog1)) => {
                let env2 = env_add(env1.drop_last(), id, true);
                match flat_exp_spec(*rest, env2, prog1) {
                    Err(x) => Err(x),
                    Ok((fe, env3, prog3)) => Ok(
                        (ExpV::Let(id, Box::new(fc), Box::new(fe)), env3, prog3),
                    ),
                }
            },
        },
        closure::ExpV::Loop(id, c, rest) => match flat_cexp_spec(
            *c,
            env.push(Seq::empty()),
            prog,
        ) {
            Err(x) => Err(x),
            Ok((fc, env1, prog1)) => {
                let env2 = env_add(env1.drop_last(), id, true);
                match flat_exp_spec(*rest, env2, prog1) {
                    Err(x) => Err(x),
                    Ok((fe, env3, prog3)) => Ok(
                        (ExpV::Loop(id, Box::new(fc), Box::new(fe)), env3, prog3),
                    ),
                }
            },
        },
        closure::ExpV::Letrec(f, formals, body, cont) => {
            let env1 = add_formals(env.push(Seq::empty()), formals, 0);
            match flat_exp_spec(*body, env1, prog) {
                Err(x) => Err(x),
                Ok((fbody, env2, prog2)) => {
                    let prog3 = prog2.push(RecdeclV { name: f, formals, body: fbody });
                    let env3 = env_add(env2.drop_last(), f, false);
                    flat_exp_spec(*cont, env3, prog3)
                },
            }
        },
        closure::ExpV::Recur(v) => match tval(env, v) {
            Err(x) => Err(x),
            Ok(fv) => Ok((ExpV::Recur(fv), env, prog)),
        },
    }
}

/// Model of the whole pass: flatten the top-level expression in an
/// environment of one empty frame, then append it as the declaration
/// labeled `main` with no formals.
pub open spec fn flat_spec(e: closure::ExpV) -> Result<Seq<RecdeclV>, Seq<char>> {
    match flat_exp_spec(e, seq![Seq::empty()], Seq::empty()) {
        Err(x) => Err(x),
        Ok((top, _, prog)) => Ok(
            prog.push(RecdeclV { name: "main"@, formals: Seq::empty(), body: top }),
        ),
    }
}

impl Value {
    /// Chooses the flat representation of a C-IR value.
    pub fn nval2fval(nval: normal::Value, valf: bool) -> (v: Value)
        ensures
            v@ == nval2fval_of(nval@, valf),
    {
        match nval {
            normal::Value::Var(s) => if valf {
                Value::Var(s)
            } else {
                Value::Fun(s)
            },
            normal::Value::Intv(n) => Value::Intv(n),
        }
    }
}

fn env_value(env: &FlatEnv, val: &normal::Value) -> (r: Result<Value, FlatError>)
    ensures
        ({
            let s = tval(env@, val@);
            match r {
                Ok(fv) => s == Ok::<ValueV, Seq<char>>(fv@),
                Err(e) => s == Err::<ValueV, Seq<char>>(err_view(e)),
            }
        }),
{
    match val {
        normal::Value::Intv(n) => Ok(Value::Intv(*n)),
        normal::Value::Var(x) => match env.find(x) {
            Some(b) => Ok(Value::nval2fval(normal::Value::Var(x.clone()), b)),
            None => Err(FlatError::Unbound(x.clone())),
        },
    }
}

fn env_values(env: &FlatEnv, vals: &Vec<normal::Value>, i: usize) -> (r: Result<
    Vec<Value>,
    FlatError,
>)
    requires
        i <= vals@.len(),
    ensures
        ({
            let s = tvals(env@, normal_values_view(vals@).skip(i as int));
            match r {
                Ok(fvs) => s == Ok::<Seq<ValueV>, Seq<char>>(values_view(fvs@)),
                Err(e) => s == Err::<Seq<ValueV>, Seq<char>>(err_view(e)),
            }
        }),
    decreases vals@.len() - i,
{
    if i == vals.len() {
        let r: Vec<Value> = Vec::new();
        proof {
            assert(normal_values_view(vals@).skip(i as int) =~= Seq::<normal::ValueV>::empty());
            assert(values_view(r@) =~= Seq::<ValueV>::empty());
        }
        Ok(r)
    } else {
        proof {
            assert(normal_values_view(vals@).skip(i as int)[0] == vals@[i as int]@);
            assert(normal_values_view(vals@).skip(i as int).skip(1) =~= normal_values_view(
                vals@,
            ).skip(i as int + 1));
        }
        let fv = env_value(env, &vals[i])?;
        let ghost fvv = fv@;
        let mut rest = env_values(env, vals, i + 1)?;
        let ghost rest0 = rest@;
        rest.insert(0, fv);
        proof {
            assert(values_view(rest@) =~= seq![fvv] + values_view(rest0));
        }
        Ok(rest)
    }
}

/// Model of a list of C-IR values.
pub open spec fn normal_values_view(vs: Seq<normal::Value>) -> Seq<normal::ValueV> {
    vs.map_values(|v: normal::Value| normal::value_view(v))
}

/// Binding each formal keeps the number of frames.
pub proof fn lemma_add_formals_len(env: EnvV, formals: Seq<Seq<char>>, i: int)
    requires
        env.len() >= 1,
    ensures
        add_formals(env, formals, i).len() == env.len(),
    decreases formals.len() - i,
{
    if 0 <= i < formals.len() {
        lemma_add_formals_len(env_add(env, formals[i], true), formals, i + 1);
    }
}

/// Flattening a computation expression keeps the number of frames.
pub proof fn lemma_flat_cexp_env_len(c: closure::CexpV, env: EnvV, prog: Seq<RecdeclV>)
    requires
        env.len() >= 1,
    ensures
        match flat_cexp_spec(c, env, prog) {
            Ok(r) => r.1.len() == env.len(),
            Err(_) => true,
        },
    decreases c,
{
    match c {
        closure::CexpV::If(val, e1, e2) => {
            if tval(env, val) is Ok {
                lemma_flat_exp_env_len(*e1, env, prog);
                match flat_exp_spec(*e1, env, prog) {
                    Ok(r1) => {
                        lemma_flat_exp_env_len(*e2, r1.1, r1.2);
                    },
                    Err(_) => {},
                }
            }
        },
        _ => {},
    }
}

/// Flattening an expression keeps the number of frames.
pub proof fn lemma_flat_exp_env_len(e: closure::ExpV, env: EnvV, prog: Seq<RecdeclV>)
    requires
        env.len() >= 1,
    ensures
        match flat_exp_spec(e, env, prog) {
            Ok(r) => r.1.len() == env.len(),
            Err(_) => true,
        },
    decreases e,
{
    match e {
        closure::ExpV::Compexp(c) => {
            lemma_flat_cexp_env_len(*c, env, prog);
        },
        closure::ExpV::Let(id, c, rest) => {
            lemma_flat_cexp_env_len(*c, env.push(Seq::empty()), prog);
            match flat_cexp_spec(*c, env.push(Seq::empty()), prog) {
                Ok(r1) => {
                    lemma_flat_exp_env_len(*rest, env_add(r1.1.drop_last(), id, true), r1.2);
                },
                Err(_) => {},
            }
        },
        closure::ExpV::Loop(id, c, rest) => {
            lemma_flat_cexp_env_len(*c, env.push(Seq::empty()), prog);
            match flat_cexp_spec(*c, env.push(Seq::empty()), prog) {
                Ok(r1) => {
                    lemma_flat_exp_env_len(*rest, env_add(r1.1.drop_last(), id, true), r1.2);
                },
                Err(_) => {},
            }
        },
        closure::ExpV::Letrec(f, formals, body, cont) => {
            let env1 = add_formals(env.push(Seq::empty()), formals, 0);
            lemma_add_formals_len(env.push(Seq::empty()), formals, 0);
            lemma_flat_exp_env_len(*body, env1, prog);
            match flat_exp_spec(*body, env1, prog) {
                Ok(r1) => {
                    let prog3 = r1.2.push(RecdeclV { name: f, formals, body: r1.0 });
                    lemma_flat_exp_env_len(*cont, env_add(r1.1.drop_last(), f, false), prog3);
                },
                Err(_) => {},
            }
        },
        closure::ExpV::Recur(_) => {},
    }
}

/// Direct translation of a computation expression that is not an `If`.
fn cce2fce(ccexp: closure::Cexp, env: &FlatEnv) -> (r: Result<Cexp, FlatError>)
    requires
        !(ccexp@ is If),
    ensures
        ({
            let s = fce_of(env@, ccexp@);
            match r {
                Ok(fc) => s == Ok::<CexpV, Seq<char>>(fc@),
                Err(e) => s == Err::<CexpV, Seq<char>>(err_view(e)),
            }
        }),
{
    match ccexp {
        closure::Cexp::Val(val) => Ok(Cexp::Val(env_value(env, &val)?)),
        closure::Cexp::Binop(btype, val1, val2) => {
            let f1 = env_value(env, &val1)?;
            let f2 = env_value(env, &val2)?;
            Ok(Cexp::Binop(btype, f1, f2))
        },
        closure::Cexp::App(val1, vals) => {
            proof {
                assert(normal_values_view(vals@).skip(0) =~= normal_values_view(vals@));
            }
            let fargs = env_values(env, &vals, 0)?;
            let fv = env_value(env, &val1)?;
            Ok(Cexp::App(fv, fargs))
        },
        closure::Cexp::Tuple(vals) => {
            proof {
                assert(normal_values_view(vals@).skip(0) =~= normal_values_view(vals@));
            }
            let fvs = env_values(env, &vals, 0)?;
            Ok(Cexp::Tuple(fvs))
        },
        closure::Cexp::Proj(val, c) => Ok(Cexp::Proj(env_value(env, &val)?, c)),
        closure::Cexp::If(_, _, _) => {
            proof {
                assert(false);
            }
            Err(FlatError::Unbound(String::new()))
        },
    }
}

/// Flattens one computation expression; `If` recurses into both branches.
fn sub_flatten(ccexp: closure::Cexp, env: &mut FlatEnv, prog: &mut Program) -> (r: Result<
    Cexp,
    FlatError,
>)
    requires
        old(env)@.len() >= 1,
    ensures
        ({
            let s = flat_cexp_spec(ccexp@, old(env)@, old(prog)@);
            match r {
                Ok(fc) => s == Ok::<(CexpV, EnvV, Seq<RecdeclV>), Seq<char>>(
                    (fc@, final(env)@, final(prog)@),
                ) && final(env)@.len() == old(env)@.len(),
                Err(e) => match s {
                    Err(x) => x == err_view(e),
                    Ok(_) => false,
                },
            }
        }),
    decreases closure::cexp_csize(ccexp@), 0nat,
{
    proof {
        lemma_flat_cexp_env_len(ccexp@, old(env)@, old(prog)@);
    }
    match ccexp {
        closure::Cexp::If(val, exp1, exp2) => {
            let fv = env_value(env, &val)?;
            proof {
                lemma_flat_exp_env_len(exp1@, env@, prog@);
            }
            let fe1 = flatten(*exp1, env, prog)?;
            proof {
                lemma_flat_exp_env_len(exp2@, env@, prog@);
            }
            let fe2 = flatten(*exp2, env, prog)?;
            let fc = Cexp::If(fv, Box::new(fe1), Box::new(fe2));
            proof {
                reveal_with_fuel(cexp_view, 2);
            }
            Ok(fc)
        },
        other => cce2fce(other, env),
    }
}

spec fn let_cexp(id: Seq<char>, c: closure::CexpV, rest: closure::ExpV) -> closure::ExpV {
    closure::ExpV::Let(id, Box::new(c), Box::new(rest))
}

spec fn loop_cexp(id: Seq<char>, c: closure::CexpV, rest: closure::ExpV) -> closure::ExpV {
    closure::ExpV::Loop(id, Box::new(c), Box::new(rest))
}

spec fn letrec_cexp(
    f: Seq<char>,
    formals: Seq<Seq<char>>,
    body: closure::ExpV,
    cont: closure::ExpV,
) -> closure::ExpV {
    closure::ExpV::Letrec(f, formals, Box::new(body), Box::new(cont))
}

#[verifier::spinoff_prover]
fn flat_let(
    id: Id,
    c0: Box<closure::Cexp>,
    rest: Box<closure::Exp>,
    env: &mut FlatEnv,
    prog: &mut Program,
) -> (r: Result<Exp, FlatError>)
    requires
        old(env)@.len() >= 1,
    ensures
        ({
            let s = flat_exp_spec(let_cexp(id@, c0@, rest@), old(env)@, old(prog)@);
            match r {
                Ok(fe) => s == Ok::<(ExpV, EnvV, Seq<RecdeclV>), Seq<char>>(
                    (fe@, final(env)@, final(prog)@),
                ) && final(env)@.len() == old(env)@.len(),
                Err(e) => match s {
                    Err(x) => x == err_view(e),
                    Ok(_) => false,
                },
            }
        }),
    decreases 1 + closure::cexp_csize(c0@) + closure::exp_csize(rest@), 0nat,
{
    env.inc();
    let fc = sub_flatten(*c0, env, prog)?;
    env.dec();
    env.addval(id.clone(), true);
    proof {
        lemma_flat_exp_env_len(rest@, env@, prog@);
    }
    let fe = flatten(*rest, env, prog)?;
    let e = Exp::Let(id, Box::new(fc), Box::new(fe));
    proof {
        reveal_with_fuel(exp_view, 2);
    }
    Ok(e)
}

#[verifier::spinoff_prover]
fn flat_loop(
    id: Id,
    c0: Box<closure::Cexp>,
    rest: Box<closure::Exp>,
    env: &mut FlatEnv,
    prog: &mut Program,
) -> (r: Result<Exp, FlatError>)
    requires
        old(env)@.len() >= 1,
    ensures
        ({
            let s = flat_exp_spec(loop_cexp(id@, c0@, rest@), old(env)@, old(prog)@);
            match r {
                Ok(fe) => s == Ok::<(ExpV, EnvV, Seq<RecdeclV>), Seq<char>>(
                    (fe@, final(env)@, final(prog)@),
                ) && final(env)@.len() == old(env)@.len(),
                Err(e) => match s {
                    Err(x) => x == err_view(e),
                    Ok(_) => false,
                },
            }
        }),
    decreases 1 + closure::cexp_csize(c0@) + closure::exp_csize(rest@), 0nat,
{
    env.inc();
    let fc = sub_flatten(*c0, env, prog)?;
    env.dec();
    env.addval(id.clone(), true);
    proof {
        lemma_flat_exp_env_len(rest@, env@, prog@);
    }
    let fe = flatten(*rest, env, prog)?;
    let e = Exp::Loop(id, Box::new(fc), Box::new(fe));
    proof {
        reveal_with_fuel(exp_view, 2);
    }
    Ok(e)
}

#[verifier::spinoff_prover]
fn flat_letrec(
    id1: Id,
    args: Vec<Id>,
    body: Box<closure::Exp>,
    cont: Box<closure::Exp>,
    env: &mut FlatEnv,
    prog: &mut Program,
) -> (r: Result<Exp, FlatError>)
    requires
        old(env)@.len() >= 1,
    ensures
        ({
            let s = flat_exp_spec(
                letrec_cexp(id1@, ids_view(args@), body@, cont@),
                old(env)@,
                old(prog)@,
            );
            match r {
                Ok(fe) => s == Ok::<(ExpV, EnvV, Seq<RecdeclV>), Seq<char>>(
                    (fe@, final(env)@, final(prog)@),
                ) && final(env)@.len() == old(env)@.len(),
                Err(e) => match s {
                    Err(x) => x == err_view(e),
                    Ok(_) => false,
                },
            }
        }),
    decreases 1 + closure::exp_csize(body@) + closure::exp_csize(cont@), 0nat,
{
    let ghost formals_v = ids_view(args@);
    env.inc();
    let ghost envp = env@;
    let mut i: usize = 0;
    while i < args.len()
        invariant
            i <= args.len(),
            ids_view(args@) == formals_v,
            env@.len() == envp.len(),
            envp.len() >= 1,
            add_formals(env@, formals_v, i as int) == add_formals(envp, formals_v, 0),
        decreases args.len() - i,
    {
        proof {
            assert(ids_view(args@)[i as int] == args@[i as int]@);
        }
        env.addval(args[i].clone(), true);
        i += 1;
    }
    proof {
        assert(add_formals(env@, formals_v, i as int) == env@);
        lemma_add_formals_len(envp, formals_v, 0);
        lemma_flat_exp_env_len(body@, env@, prog@);
    }
    let fbody = flatten(*body, env, prog)?;
    env.dec();
    prog.add(Recdecl(id1.clone(), args, Box::new(fbody)));
    env.addval(id1.clone(), false);
    proof {
        lemma_flat_exp_env_len(cont@, env@, prog@);
    }
    flatten(*cont, env, prog)
}

/// Flattens an expression, emitting every lifted function into `prog` and
/// resolving every name through the scoped environment.
fn flatten(clexp: closure::Exp, env: &mut FlatEnv, prog: &mut Program) -> (r: Result<
    Exp,
    FlatError,
>)
    requires
        old(env)@.len() >= 1,
    ensures
        ({
            let s = flat_exp_spec(clexp@, old(env)@, old(prog)@);
            match r {
                Ok(fe) => s == Ok::<(ExpV, EnvV, Seq<RecdeclV>), Seq<char>>(
                    (fe@, final(env)@, final(prog)@),
                ) && final(env)@.len() == old(env)@.len(),
                Err(e) => match s {
                    Err(x) => x == err_view(e),
                    Ok(_) => false,
                },
            }
        }),
    decreases closure::exp_csize(clexp@), 1nat,
{
    proof {
        lemma_flat_exp_env_len(clexp@, old(env)@, old(prog)@);
    }
    match clexp {
        closure::Exp::Compexp(ccexp) => {
            let fc = sub_flatten(*ccexp, env, prog)?;
            Ok(Exp::Compexp(Box::new(fc)))
        },
        closure::Exp::Let(id, ccexp, rest) => flat_let(id, ccexp, rest, env, prog),
        closure::Exp::Loop(id, ccexp, rest) => flat_loop(id, ccexp, rest, env, prog),
        closure::Exp::Letrec(id1, args, body, cont) => flat_letrec(
            id1,
            args,
            body,
            cont,
            env,
            prog,
        ),
        closure::Exp::Recur(val) => Ok(Exp::Recur(env_value(env, &val)?)),
    }
}

impl Program {
    fn add(&mut self, decl: Recdecl)
        ensures
            final(self)@ =~= old(self)@.push(decl@),
    {
        let ghost dv = decl@;
        self.recs.push(decl);
        proof {
            assert(recs_view(self.recs@) =~= recs_view(old(self).recs@).push(dv));
        }
    }
}

/// Flattening: every lifted function becomes a top-level declaration, in
/// the order the `Letrec`s close, and the top-level expression becomes the
/// final declaration, labeled `main`, with no formals. A variable bound
/// nowhere is the error, reported by name. The result equals the model
/// `flat_spec`.
pub fn flat(clexp: closure::Exp) -> (r: Result<Program, FlatError>)
    ensures
        ({
            let s = flat_spec(clexp@);
            match r {
                Ok(p) => s == Ok::<Seq<RecdeclV>, Seq<char>>(p@),
                Err(e) => match s {
                    Err(x) => x == err_view(e),
                    Ok(_) => false,
                },
            }
        }),
{
    let mut env = FlatEnv::new();
    let mut prog = Program { recs: Vec::new() };
    proof {
        assert(prog@ =~= Seq::<RecdeclV>::empty());
        assert(env@ =~~= seq![Seq::<(Seq<char>, bool)>::empty()]);
    }
    let toplevel = match flatten(clexp, &mut env, &mut prog) {
        Ok(t) => t,
        Err(e) => {
            return Err(e);
        },
    };
    let main_decl = Recdecl(String::from_str("main"), Vec::new(), Box::new(toplevel));
    proof {
        assert(main_decl@.formals =~= Seq::<Seq<char>>::empty());
    }
    prog.add(main_decl);
    Ok(prog)
}

// ----------------------------------------------------------------------
// Flatness: every `Fun` reference names a declared label.

/// The labels a flat program declares.
pub open spec fn prog_labels(p: Seq<RecdeclV>) -> Set<Seq<char>> {
    Set::new(|l: Seq<char>| exists|i: int| 0 <= i < p.len() && p[i].name == l)
}

/// The label of a `Fun` value, as a set.
pub open spec fn funs_val(v: ValueV) -> Set<Seq<char>> {
    match v {
        ValueV::Fun(x) => set![x],
        _ => Set::empty(),
    }
}

/// The labels the `Fun` values of a list carry.
pub open spec fn funs_vals(vs: Seq<ValueV>) -> Set<Seq<char>>
    decreases vs.len(),
{
    if vs.len() == 0 {
        Set::empty()
    } else {
        funs_val(vs[0]) + funs_vals(vs.skip(1))
    }
}

/// The labels a computation expression refers to.
pub open spec fn funs_cexp(c: CexpV) -> Set<Seq<char>>
    decreases c,
{
    match c {
        CexpV::Val(v) => funs_val(v),
        CexpV::Binop(_, v1, v2) => funs_val(v1) + funs_val(v2),
        CexpV::App(v, args) => funs_val(v) + funs_vals(args),
        CexpV::If(v, e1, e2) => funs_val(v) + funs_exp(*e1) + funs_exp(*e2),
        CexpV::Tuple(vs) => funs_vals(vs),
        CexpV::Proj(v, _) => funs_val(v),
    }
}

/// The labels an expression refers to.
pub open spec fn funs_exp(e: ExpV) -> Set<Seq<char>>
    decreases e,
{
    match e {
        ExpV::Compexp(c) => funs_cexp(*c),
        ExpV::Let(_, c, r) => funs_cexp(*c) + funs_exp(*r),
        ExpV::Loop(_, c, r) => funs_cexp(*c) + funs_exp(*r),
        ExpV::Recur(v) => funs_val(v),
    }
}

/// Every declaration's body refers only to declared labels.
pub open spec fn labels_declared(p: Seq<RecdeclV>) -> bool {
    forall|i: int| 0 <= i < p.len() ==> #[trigger] funs_exp(p[i].body) <= prog_labels(p)
}

/// The names that some entry of the environment marks as lifted, whether
/// visible or shadowed.
pub open spec fn env_false_names(env: EnvV) -> Set<Seq<char>> {
    Set::new(
        |x: Seq<char>|
            exists|i: int, j: int|
                0 <= i < env.len() && 0 <= j < env[i].len() && env[i][j] == (x, false),
    )
}

proof fn lemma_frame_find_false(f: FrameV, x: Seq<char>)
    requires
        frame_find(f, x) == Some(false),
    ensures
        exists|j: int| 0 <= j < f.len() && f[j] == (x, false),
    decreases f.len(),
{
    if f.len() > 0 {
        if f.last().0 == x {
            assert(f[f.len() - 1] == (x, false));
        } else {
            lemma_frame_find_false(f.drop_last(), x);
            let j = choose|j: int| 0 <= j < f.drop_last().len() && f.drop_last()[j] == (x, false);
            assert(f[j] == (x, false));
        }
    }
}

proof fn lemma_env_find_false(env: EnvV, x: Seq<char>)
    requires
        env_find(env, x) == Some(false),
    ensures
        env_false_names(env).contains(x),
    decreases env.len(),
{
    if env.len() > 0 {
        match frame_find(env.last(), x) {
            Some(b) => {
                lemma_frame_find_false(env.last(), x);
                let j = choose|j: int|
                    0 <= j < env.last().len() && env.last()[j] == (x, false);
                assert(env[env.len() - 1][j] == (x, false));
            },
            None => {
                lemma_env_find_false(env.drop_last(), x);
                let (i, j) = choose|i: int, j: int|
                    0 <= i < env.drop_last().len() && 0 <= j < env.drop_last()[i].len()
                        && env.drop_last()[i][j] == (x, false);
                assert(env[i][j] == (x, false));
            },
        }
    }
}

proof fn lemma_false_names_push_empty(env: EnvV)
    ensures
        env_false_names(env.push(Seq::empty())) =~= env_false_names(env),
{
    assert forall|x: Seq<char>| env_false_names(env.push(Seq::empty())).contains(x) implies
        env_false_names(env).contains(x) by {
        let (i, j) = choose|i: int, j: int|
            0 <= i < env.push(Seq::empty()).len() && 0 <= j < env.push(Seq::empty())[i].len()
                && env.push(Seq::empty())[i][j] == (x, false);
        assert(i < env.len());
        assert(env[i][j] == (x, false));
    }
    assert forall|x: Seq<char>| env_false_names(env).contains(x) implies env_false_names(
        env.push(Seq::empty()),
    ).contains(x) by {
        let (i, j) = choose|i: int, j: int|
            0 <= i < env.len() && 0 <= j < env[i].len() && env[i][j] == (x, false);
        assert(env.push(Seq::empty())[i][j] == (x, false));
    }
}

proof fn lemma_false_names_drop_last(env: EnvV)
    requires
        env.len() >= 1,
    ensures
        env_false_names(env.drop_last()) <= env_false_names(env),
{
    assert forall|x: Seq<char>| env_false_names(env.drop_last()).contains(x) implies
        env_false_names(env).contains(x) by {
        let (i, j) = choose|i: int, j: int|
            0 <= i < env.drop_last().len() && 0 <= j < env.drop_last()[i].len()
                && env.drop_last()[i][j] == (x, false);
        assert(env[i][j] == (x, false));
    }
}

proof fn lemma_false_names_add(env: EnvV, y: Seq<char>, b: bool)
    requires
        env.len() >= 1,
    ensures
        b ==> env_false_names(env_add(env, y, b)) <= env_false_names(env),
        !b ==> env_false_names(env_add(env, y, b)) <= env_false_names(env).insert(y),
{
    let env2 = env_add(env, y, b);
    assert forall|x: Seq<char>| env_false_names(env2).contains(x) implies (env_false_names(
        env,
    ).contains(x) || (!b && x == y)) by {
        let (i, j) = choose|i: int, j: int|
            0 <= i < env2.len() && 0 <= j < env2[i].len() && env2[i][j] == (x, false);
        if i == env.len() - 1 {
            if j < env[i].len() {
                assert(env[i][j] == (x, false));
            } else {
                assert(env2[i][j] == (y, b));
            }
        } else {
            assert(env[i][j] == (x, false));
        }
    }
}

proof fn lemma_false_names_add_formals(env: EnvV, formals: Seq<Seq<char>>, i: int)
    requires
        env.len() >= 1,
    ensures
        env_false_names(add_formals(env, formals, i)) <= env_false_names(env),
    decreases formals.len() - i,
{
    if 0 <= i < formals.len() {
        lemma_false_names_add(env, formals[i], true);
        lemma_false_names_add_formals(env_add(env, formals[i], true), formals, i + 1);
    }
}

proof fn lemma_prog_labels_push(p: Seq<RecdeclV>, d: RecdeclV)
    ensures
        prog_labels(p.push(d)) =~= prog_labels(p).insert(d.name),
{
    assert forall|l: Seq<char>| prog_labels(p.push(d)).contains(l) implies prog_labels(
        p,
    ).insert(d.name).contains(l) by {
        let i = choose|i: int| 0 <= i < p.push(d).len() && p.push(d)[i].name == l;
        if i < p.len() {
            assert(p[i].name == l);
        }
    }
    assert forall|l: Seq<char>| prog_labels(p).insert(d.name).contains(l) implies prog_labels(
        p.push(d),
    ).contains(l) by {
        if prog_labels(p).contains(l) {
            let i = choose|i: int| 0 <= i < p.len() && p[i].name == l;
            assert(p.push(d)[i].name == l);
        } else {
            assert(p.push(d)[p.len() as int].name == l);
        }
    }
}

proof fn lemma_tval_funs(env: EnvV, v: normal::ValueV)
    ensures
        match tval(env, v) {
            Ok(fv) => funs_val(fv) <= env_false_names(env),
            Err(_) => true,
        },
{
    match v {
        normal::ValueV::Var(x) => {
            match env_find(env, x) {
                Some(b) => {
                    if !b {
                        lemma_env_find_false(env, x);
                    }
                },
                None => {},
            }
        },
        normal::ValueV::Intv(_) => {},
    }
}

proof fn lemma_tvals_funs(env: EnvV, vs: Seq<normal::ValueV>)
    ensures
        match tvals(env, vs) {
            Ok(fvs) => funs_vals(fvs) <= env_false_names(env),
            Err(_) => true,
        },
    decreases vs.len(),
{
    if vs.len() > 0 {
        lemma_tval_funs(env, vs[0]);
        match tval(env, vs[0]) {
            Ok(fv) => {
                lemma_tvals_funs(env, vs.skip(1));
                match tvals(env, vs.skip(1)) {
                    Ok(rest) => {
                        assert((seq![fv] + rest)[0] == fv);
                        assert((seq![fv] + rest).skip(1) =~= rest);
                    },
                    Err(_) => {},
                }
            },
            Err(_) => {},
        }
    }
}

proof fn lemma_fce_funs(env: EnvV, ce: closure::CexpV)
    requires
        !(ce is If),
    ensures
        match fce_of(env, ce) {
            Ok(fc) => funs_cexp(fc) <= env_false_names(env),
            Err(_) => true,
        },
{
    match ce {
        closure::CexpV::Val(v) => {
            lemma_tval_funs(env, v);
        },
        closure::CexpV::Binop(_, v1, v2) => {
            lemma_tval_funs(env, v1);
            lemma_tval_funs(env, v2);
        },
        closure::CexpV::App(v, args) => {
            lemma_tvals_funs(env, args);
            lemma_tval_funs(env, v);
        },
        closure::CexpV::Tuple(vs) => {
            lemma_tvals_funs(env, vs);
        },
        closure::CexpV::Proj(v, _) => {
            lemma_tval_funs(env, v);
        },
        closure::CexpV::If(_, _, _) => {},
    }
}

proof fn lemma_flat_cexp_funs(c: closure::CexpV, env: EnvV, prog: Seq<RecdeclV>)
    requires
        env.len() >= 1,
        env_false_names(env) <= prog_labels(prog),
        labels_declared(prog),
    ensures
        match flat_cexp_spec(c, env, prog) {
            Ok(r) => prog_labels(prog) <= prog_labels(r.2) && env_false_names(r.1) <= prog_labels(
                r.2,
            ) && labels_declared(r.2) && funs_cexp(r.0) <= prog_labels(r.2),
            Err(_) => true,
        },
    decreases c,
{
    match c {
        closure::CexpV::If(val, e1, e2) => {
            lemma_tval_funs(env, val);
            match tval(env, val) {
                Ok(fv) => {
                    lemma_flat_exp_funs(*e1, env, prog);
                    lemma_flat_exp_env_len(*e1, env, prog);
                    match flat_exp_spec(*e1, env, prog) {
                        Ok(r1) => {
                            lemma_flat_exp_funs(*e2, r1.1, r1.2);
                        },
                        Err(_) => {},
                    }
                },
                Err(_) => {},
            }
        },
        _ => {
            lemma_fce_funs(env, c);
        },
    }
}

proof fn lemma_flat_exp_funs(e: closure::ExpV, env: EnvV, prog: Seq<RecdeclV>)
    requires
        env.len() >= 1,
        env_false_names(env) <= prog_labels(prog),
        labels_declared(prog),
    ensures
        match flat_exp_spec(e, env, prog) {
            Ok(r) => prog_labels(prog) <= prog_labels(r.2) && env_false_names(r.1) <= prog_labels(
                r.2,
            ) && labels_declared(r.2) && funs_exp(r.0) <= prog_labels(r.2),
            Err(_) => true,
        },
    decreases e,
{
    match e {
        closure::ExpV::Compexp(c) => {
            lemma_flat_cexp_funs(*c, env, prog);
        },
        closure::ExpV::Let(id, c, rest) => {
            let env1 = env.push(Seq::empty());
            lemma_false_names_push_empty(env);
            lemma_flat_cexp_funs(*c, env1, prog);
            lemma_flat_cexp_env_len(*c, env1, prog);
            match flat_cexp_spec(*c, env1, prog) {
                Ok(r1) => {
                    lemma_false_names_drop_last(r1.1);
                    lemma_false_names_add(r1.1.drop_last(), id, true);
                    let env2 = env_add(r1.1.drop_last(), id, true);
                    lemma_flat_exp_funs(*rest, env2, r1.2);
                },
                Err(_) => {},
            }
        },
        closure::ExpV::Loop(id, c, rest) => {
            let env1 = env.push(Seq::empty());
            lemma_false_names_push_empty(env);
            lemma_flat_cexp_funs(*c, env1, prog);
            lemma_flat_cexp_env_len(*c, env1, prog);
            match flat_cexp_spec(*c, env1, prog) {
                Ok(r1) => {
                    lemma_false_names_drop_last(r1.1);
                    lemma_false_names_add(r1.1.drop_last(), id, true);
                    let env2 = env_add(r1.1.drop_last(), id, true);
                    lemma_flat_exp_funs(*rest, env2, r1.2);
                },
                Err(_) => {},
            }
        },
        closure::ExpV::Letrec(f, formals, body, cont) => {
            let env1 = add_formals(env.push(Seq::empty()), formals, 0);
            lemma_false_names_push_empty(env);
            lemma_false_names_add_formals(env.push(Seq::empty()), formals, 0);
            lemma_add_formals_len(env.push(Seq::empty()), formals, 0);
            lemma_flat_exp_funs(*body, env1, prog);
            lemma_flat_exp_env_len(*body, env1, prog);
            match flat_exp_spec(*body, env1, prog) {
                Ok(r1) => {
                    let d = RecdeclV { name: f, formals, body: r1.0 };
                    let prog3 = r1.2.push(d);
                    lemma_prog_labels_push(r1.2, d);
                    assert forall|i: int| 0 <= i < prog3.len() implies #[trigger] funs_exp(
                        prog3[i].body,
                    ) <= prog_labels(prog3) by {
                        if i < r1.2.len() {
                            assert(funs_exp(r1.2[i].body) <= prog_labels(r1.2));
                        } else {
                            assert(prog3[i].body == r1.0);
                        }
                    }
                    lemma_false_names_drop_last(r1.1);
                    lemma_false_names_add(r1.1.drop_last(), f, false);
                    let env3 = env_add(r1.1.drop_last(), f, false);
                    lemma_flat_exp_funs(*cont, env3, prog3);
                },
                Err(_) => {},
            }
        },
        closure::ExpV::Recur(v) => {
            lemma_tval_funs(env, v);
        },
    }
}

/// Flatness, the law of this pass: in the flat program, every
/// `Value::Fun(label)` of every declaration's body references a declared
/// label. (That no `Letrec` remains holds by the type of the flat `Exp`.)
pub proof fn lemma_flat_labels_declared(e: closure::ExpV)
    ensures
        match flat_spec(e) {
            Ok(p) => labels_declared(p),
            Err(_) => true,
        },
{
    let env0: EnvV = seq![Seq::empty()];
    assert(env_false_names(env0) =~= Set::<Seq<char>>::empty()) by {
        assert forall|x: Seq<char>| !env_false_names(env0).contains(x) by {
            assert(env0[0].len() == 0);
        }
    }
    assert(labels_declared(Seq::<RecdeclV>::empty()));
    lemma_flat_exp_funs(e, env0, Seq::empty());
    match flat_exp_spec(e, env0, Seq::empty()) {
        Ok((top, env2, prog)) => {
            let main_d = RecdeclV { name: "main"@, formals: Seq::empty(), body: top };
            let fullp = prog.push(main_d);
            lemma_prog_labels_push(prog, main_d);
            assert forall|i: int| 0 <= i < fullp.len() implies #[trigger] funs_exp(fullp[i].body)
                <= prog_labels(fullp) by {
                if i < prog.len() {
                    assert(funs_exp(prog[i].body) <= prog_labels(prog));
                } else {
                    assert(fullp[i].body == top);
                }
            }
        },
        Err(_) => {},
    }
}

// ----------------------------------------------------------------------
// Rendering, for inspection of intermediate results.

/// The value's source text.
fn value_text(v: &Value) -> String {
    match v {
        Value::Var(id) => id.clone(),
        Value::Fun(id) => id.clone(),
        Value::Intv(n) => i32_dec(*n),
    }
}

/// The values as a parenthesized, comma-separated list.
fn values_text(vs: &Vec<Value>) -> String {
    let mut s = "(".to_owned();
    let mut i: usize = 0;
    while i < vs.len()
        invariant
            i <= vs@.len(),
        decreases vs@.len() - i,
    {
        if i > 0 {
            s.append(", ");
        }
        s.append(value_text(&vs[i]).as_str());
        i += 1;
    }
    s.append(")");
    s
}

impl Cexp {
    /// The computation's source-like text, for inspection.
    pub fn program_display(&self) -> String
        decreases *self,
    {
        match self {
            Cexp::Val(v) => value_text(v),
            Cexp::Binop(tty, v1, v2) => {
                let mut s = value_text(v1);
                s.push((*tty).bintype_signal());
                s.append(value_text(v2).as_str());
                s
            },
            Cexp::App(v1, vs) => {
                let mut s = value_text(v1);
                s.append(" ");
                s.append(values_text(vs).as_str());
                s
            },
            Cexp::If(v, e1, e2) => {
                let mut s = "if ".to_owned();
                s.append(value_text(v).as_str());
                s.append(" then ");
                s.append(e1.program_display().as_str());
                s.append(" else ");
                s.append(e2.program_display().as_str());
                s
            },
            Cexp::Tuple(vs) => values_text(vs),
            Cexp::Proj(v, i) => {
                let mut s = value_text(v);
                s.append(".");
                s.append(i32_dec(*i).as_str());
                s
            },
        }
    }
}

impl Exp {
    /// The expression's source-like text, for inspection.
    pub fn program_display(&self) -> String
        decreases *self,
    {
        match self {
            Exp::Compexp(cexp) => cexp.program_display(),
            Exp::Let(id, cexp, exp) => {
                let mut s = "let ".to_owned();
                s.append(id.as_str());
                s.append(" = ");
                s.append(cexp.program_display().as_str());
                s.append(" in\n");
                s.append(exp.program_display().as_str());
                s
            },
            Exp::Loop(id, cexp, exp) => {
                let mut s = "loop ".to_owned();
                s.append(id.as_str());
                s.append(" = ");
                s.append(cexp.program_display().as_str());
                s.append(" in\n");
                s.append(exp.program_display().as_str());
                s
            },
            Exp::Recur(v) => {
                let mut s = "recur ".to_owned();
                s.append(value_text(v).as_str());
                s
            },
        }
    }
}

impl Recdecl {
    /// The declaration's source-like text, for inspection.
    pub fn program_display(&self) -> String {
        let mut s = "let rec ".to_owned();
        s.append(self.0.as_str());
        s.append(" (");
        let mut i: usize = 0;
        while i < self.1.len()
            invariant
                i <= self.1@.len(),
            decreases self.1@.len() - i,
        {
            if i > 0 {
                s.append(", ");
            }
            s.append(self.1[i].as_str());
            i += 1;
        }
        s.append(") = ");
        match &*self.2 {
            Exp::Let(_, _, _) => {
                s.append("\n");
            },
            Exp::Loop(_, _, _) => {
                s.append("\n");
            },
            _ => {},
        }
        s.append(self.2.program_display().as_str());
        s
    }
}

impl Program {
    /// The program's source-like text, declarations joined as nested
    /// definitions, for inspection.
    pub fn program_display(&self) -> String {
        let mut s = String::new();
        let mut i: usize = 0;
        while i < self.recs.len()
            invariant
                i <= self.recs@.len(),
            decreases self.recs@.len() - i,
        {
            if i > 0 {
                s.append(" in\n");
            }
            s.append(self.recs[i].program_display().as_str());
            i += 1;
        }
        s
    }
}

} // verus!
