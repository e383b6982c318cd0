//! Virtualization: F-IR to V-IR.
//!
//! Linearizes each declaration into three-address instructions over virtual
//! registers (`vm` numbers drawn from a shared counter; `rm` stays -1 until
//! register allocation) and stack slots. The stack grows in 4-byte units; an
//! 8-byte slot takes two. The slot counter restarts at each declaration; label
//! and register counters run on. Tuples become `Malloc` over 8-byte-wide
//! fields (every heap slot is a machine word); projections read at the sum
//! of the preceding field widths, taken from a side table keyed by the
//! variable that produced the block, or at word offsets when the block came
//! in as a parameter. `Kill` marks the last use of a register for the
//! allocator. The executable pass is pinned to the model `trans_pg_spec`.

use vstd::prelude::*;
use vstd::string::StringExecFns;
use crate::names::{Id, i32_dec, i64_dec, u64_dec};
use crate::ast::Bintype;
use crate::flat;

verus! {

/// Stack offset, in 4-byte units.
pub type Ofs = u64;

/// Width of a value in bytes: 4 or 8.
pub type Byte = u64;

/// A virtual register: `vm` is the virtual number, `rm` the physical index
/// (-1 until allocated), `byte` the width.
#[derive(Clone, Copy, Debug, PartialEq, Eq, Structural)]
pub struct Reg {
    pub vm: u64,
    pub rm: i64,
    pub byte: u64,
}

/// An instruction operand.
#[derive(Debug, PartialEq)]
pub enum Operand {
    Param(u64),
    Local(Ofs, Byte),
    Proc(Id),
    Intv(i32),
}

/// A three-address instruction. Control labels are numbers, printed as
/// `.L<n>`; `Loadf` refers to a declaration by name.
#[derive(Debug, PartialEq)]
pub enum Instr {
    Move(Reg, Operand),
    Mover(Reg, Reg),
    Store(Ofs, Reg),
    Load(Reg, Ofs),
    Loadf(Reg, Id),
    Argst(Ofs, Operand),
    Binop(Bintype, Reg, Reg),
    Label(u64),
    Br(Reg, u64),
    Gt(u64),
    Call(Reg, Vec<Reg>),
    Ret(Reg, Reg),
    Malloc(Reg, Vec<Reg>),
    Read(Reg, (Ofs, Byte)),
    Begin(u64),
    End(u64),
    Kill(Reg),
    Dummy,
}

/// One linearized declaration: label, stack slots consumed, instructions,
/// and whether the body performs a call (decides the frame-pointer save).
#[derive(Debug, PartialEq)]
pub struct Decl {
    pub funlb: Id,
    pub vc: u64,
    pub instrs: Vec<Instr>,
    pub haveapp: bool,
}

/// The linearized program.
#[derive(Debug, PartialEq)]
pub struct Program {
    pub decls: Vec<Decl>,
}

/// Model of an operand.
pub enum OperandV {
    Param(u64),
    Local(Ofs, Byte),
    Proc(Seq<char>),
    Intv(int),
}

/// Model of an instruction.
pub enum InstrV {
    Move(Reg, OperandV),
    Mover(Reg, Reg),
    Store(Ofs, Reg),
    Load(Reg, Ofs),
    Loadf(Reg, Seq<char>),
    Argst(Ofs, OperandV),
    Binop(Bintype, Reg, Reg),
    Label(u64),
    Br(Reg, u64),
    Gt(u64),
    Call(Reg, Seq<Reg>),
    Ret(Reg, Reg),
    Malloc(Reg, Seq<Reg>),
    Read(Reg, (Ofs, Byte)),
    Begin(u64),
    End(u64),
    Kill(Reg),
    Dummy,
}

/// Model of a declaration.
pub struct DeclV {
    pub funlb: Seq<char>,
    pub vc: u64,
    pub instrs: Seq<InstrV>,
    pub haveapp: bool,
}

pub open spec fn operand_view(o: Operand) -> OperandV {
    match o {
        Operand::Param(n) => OperandV::Param(n),
        Operand::Local(ofs, b) => OperandV::Local(ofs, b),
        Operand::Proc(l) => OperandV::Proc(l@),
        Operand::Intv(n) => OperandV::Intv(n as int),
    }
}

impl View for Operand {
    type V = OperandV;

    open spec fn view(&self) -> OperandV {
        operand_view(*self)
    }
}

pub open spec fn instr_view(i: Instr) -> InstrV {
    match i {
        Instr::Move(r, o) => InstrV::Move(r, operand_view(o)),
        Instr::Mover(r1, r2) => InstrV::Mover(r1, r2),
        Instr::Store(ofs, r) => InstrV::Store(ofs, r),
        Instr::Load(r, ofs) => InstrV::Load(r, ofs),
        Instr::Loadf(r, l) => InstrV::Loadf(r, l@),
        Instr::Argst(ofs, o) => InstrV::Argst(ofs, operand_view(o)),
        Instr::Binop(op, r1, r2) => InstrV::Binop(op, r1, r2),
        Instr::Label(l) => InstrV::Label(l),
        Instr::Br(r, l) => InstrV::Br(r, l),
        Instr::Gt(l) => InstrV::Gt(l),
        Instr::Call(r, args) => InstrV::Call(r, args@),
        Instr::Ret(r1, r2) => InstrV::Ret(r1, r2),
        Instr::Malloc(r, data) => InstrV::Malloc(r, data@),
        Instr::Read(r, ob) => InstrV::Read(r, ob),
        Instr::Begin(l) => InstrV::Begin(l),
        Instr::End(l) => InstrV::End(l),
        Instr::Kill(r) => InstrV::Kill(r),
        Instr::Dummy => InstrV::Dummy,
    }
}

impl View for Instr {
    type V = InstrV;

    open spec fn view(&self) -> InstrV {
        instr_view(*self)
    }
}

pub open spec fn instrs_view(is: Seq<Instr>) -> Seq<InstrV> {
    is.map_values(|i: Instr| instr_view(i))
}

impl View for Decl {
    type V = DeclV;

    open spec fn view(&self) -> DeclV {
        DeclV {
            funlb: self.funlb@,
            vc: self.vc,
            instrs: instrs_view(self.instrs@),
            haveapp: self.haveapp,
        }
    }
}

pub open spec fn decls_view(ds: Seq<Decl>) -> Seq<DeclV> {
    ds.map_values(|d: Decl| d@)
}

impl View for Program {
    type V = Seq<DeclV>;

    open spec fn view(&self) -> Seq<DeclV> {
        decls_view(self.decls@)
    }
}

/// The error of this pass: a variable bound nowhere, a projection that is
/// not from a variable or is out of the block's fields, or a `recur`
/// reached with no loop to restart.
#[derive(Debug, PartialEq)]
pub enum VmError {
    Unbound(Id),
    BadProj,
    RecurOutsideLoop,
}

/// Model of a `VmError`.
pub enum VmErrV {
    Unbound(Seq<char>),
    BadProj,
    RecurOutsideLoop,
}

pub open spec fn vmerr_view(e: VmError) -> VmErrV {
    match e {
        VmError::Unbound(x) => VmErrV::Unbound(x@),
        VmError::BadProj => VmErrV::BadProj,
        VmError::RecurOutsideLoop => VmErrV::RecurOutsideLoop,
    }
}

/// The translation state: the stack-slot counter (reset per declaration),
/// the label and register counters (shared over the whole program), the
/// stack of enclosing loops (label, slot of the loop variable), and whether
/// the current declaration has performed a call.
pub struct TransSt {
    pub stack_pos: u64,
    pub label_num: u64,
    pub reg_num: u64,
    pub loop_info: Vec<(u64, u64)>,
    pub haveapp: bool,
}

/// Model of the translation state.
pub struct TransStV {
    pub stack_pos: u64,
    pub label_num: u64,
    pub reg_num: u64,
    pub loop_info: Seq<(u64, u64)>,
    pub haveapp: bool,
}

impl View for TransSt {
    type V = TransStV;

    open spec fn view(&self) -> TransStV {
        TransStV {
            stack_pos: self.stack_pos,
            label_num: self.label_num,
            reg_num: self.reg_num,
            loop_info: self.loop_info@,
            haveapp: self.haveapp,
        }
    }
}

// ----------------------------------------------------------------------
// The variable environment (name to stack slot and width), a stack of
// frames, and the malloc environment (name to the field widths of the
// heap block it produced), a flat table.

/// Model of the variable environment.
pub type VEnvV = Seq<Seq<(Seq<char>, (u64, u64))>>;

/// Model of the malloc side table.
pub type MEnvV = Seq<(Seq<char>, Seq<u8>)>;

/// Lookup within one frame: the latest binding wins.
pub open spec fn vframe_find(f: Seq<(Seq<char>, (u64, u64))>, x: Seq<char>) -> Option<(u64, u64)>
    decreases f.len(),
{
    if f.len() == 0 {
        None
    } else if f.last().0 == x {
        Some(f.last().1)
    } else {
        vframe_find(f.drop_last(), x)
    }
}

/// Lookup across frames, from the top down.
pub open spec fn venv_find(env: VEnvV, x: Seq<char>) -> Option<(u64, u64)>
    decreases env.len(),
{
    if env.len() == 0 {
        None
    } else {
        match vframe_find(env.last(), x) {
            Some(p) => Some(p),
            None => venv_find(env.drop_last(), x),
        }
    }
}

/// Binds `x` in the top frame.
pub open spec fn venv_add(env: VEnvV, x: Seq<char>, p: (u64, u64)) -> VEnvV {
    env.update(env.len() - 1, env.last().push((x, p)))
}

/// Lookup in the flat malloc table: the latest entry wins.
pub open spec fn menv_find(env: MEnvV, x: Seq<char>) -> Option<Seq<u8>>
    decreases env.len(),
{
    if env.len() == 0 {
        None
    } else if env.last().0 == x {
        Some(env.last().1)
    } else {
        menv_find(env.drop_last(), x)
    }
}

/// The variable environment.
pub struct VarEnv {
    frames: Vec<Vec<(Id, (u64, u64))>>,
}

pub open spec fn vframe_view(f: Seq<(Id, (u64, u64))>) -> Seq<(Seq<char>, (u64, u64))> {
    f.map_values(|p: (Id, (u64, u64))| (p.0@, p.1))
}

pub open spec fn vfenv_view(fr: Seq<Vec<(Id, (u64, u64))>>) -> VEnvV {
    fr.map_values(|f: Vec<(Id, (u64, u64))>| vframe_view(f@))
}

impl View for VarEnv {
    type V = VEnvV;

    closed spec fn view(&self) -> VEnvV {
        vfenv_view(self.frames@)
    }
}

fn vfind_in_frame(f: &Vec<(Id, (u64, u64))>, j: usize, x: &Id) -> (r: Option<(u64, u64)>)
    requires
        j <= f@.len(),
    ensures
        r == vframe_find(vframe_view(f@).take(j as int), x@),
    decreases j,
{
    if j == 0 {
        assert(vframe_view(f@).take(0).len() == 0);
        None
    } else {
        proof {
            assert(vframe_view(f@).take(j as int).last() == (f@[j - 1].0@, f@[j - 1].1));
            assert(vframe_view(f@).take(j as int).drop_last() =~= vframe_view(f@).take(
                j as int - 1,
            ));
        }
        if f[j - 1].0.eq(x) {
            Some(f[j - 1].1)
        } else {
            vfind_in_frame(f, j - 1, x)
        }
    }
}

fn vfind_in_env(fr: &Vec<Vec<(Id, (u64, u64))>>, i: usize, x: &Id) -> (r: Option<(u64, u64)>)
    requires
        i <= fr@.len(),
    ensures
        r == venv_find(vfenv_view(fr@).take(i as int), x@),
    decreases i,
{
    if i == 0 {
        assert(vfenv_view(fr@).take(0).len() == 0);
        None
    } else {
        proof {
            assert(vfenv_view(fr@).take(i as int).last() == vframe_view(fr@[i - 1]@));
            assert(vfenv_view(fr@).take(i as int).drop_last() =~= vfenv_view(fr@).take(
                i as int - 1,
            ));
        }
        let f = &fr[i - 1];
        let within = vfind_in_frame(f, f.len(), x);
        proof {
            assert(vframe_view(f@).take(f@.len() as int) =~= vframe_view(f@));
        }
        match within {
            Some(p) => Some(p),
            None => vfind_in_env(fr, i - 1, x),
        }
    }
}

impl VarEnv {
    fn new() -> (r: VarEnv)
        ensures
            r@ =~~= Seq::<Seq<(Seq<char>, (u64, u64))>>::empty(),
    {
        let r = VarEnv { frames: Vec::new() };
        proof {
            assert(r@ =~~= Seq::<Seq<(Seq<char>, (u64, u64))>>::empty());
        }
        r
    }

    fn inc(&mut self)
        ensures
            final(self)@ =~~= old(self)@.push(Seq::empty()),
    {
        self.frames.push(Vec::new());
        proof {
            assert(vfenv_view(self.frames@) =~~= vfenv_view(old(self).frames@).push(Seq::empty()));
        }
    }

    fn dec(&mut self)
        requires
            old(self)@.len() >= 1,
        ensures
            final(self)@ =~~= old(self)@.drop_last(),
    {
        self.frames.pop();
        proof {
            assert(vfenv_view(self.frames@) =~~= vfenv_view(old(self).frames@).drop_last());
        }
    }

    fn addval(&mut self, key: Id, value: (u64, u64))
        requires
            old(self)@.len() >= 1,
        ensures
            final(self)@ =~~= venv_add(old(self)@, key@, value),
    {
        let mut top = match self.frames.pop() {
            Some(t) => t,
            None => Vec::new(),
        };
        let ghost keyv = key@;
        top.push((key, value));
        self.frames.push(top);
        proof {
            assert(vframe_view(top@) =~~= vframe_view(old(self).frames@.last()@).push(
                (keyv, value),
            ));
            assert(vfenv_view(self.frames@) =~~= venv_add(
                vfenv_view(old(self).frames@),
                keyv,
                value,
            ));
        }
    }

    fn find(&self, x: &Id) -> (r: Option<(u64, u64)>)
        ensures
            r == venv_find(self@, x@),
    {
        let r = vfind_in_env(&self.frames, self.frames.len(), x);
        proof {
            assert(vfenv_view(self.frames@).take(self.frames@.len() as int) =~= vfenv_view(
                self.frames@,
            ));
        }
        r
    }
}

/// The malloc side table.
pub struct MallocEnv {
    entries: Vec<(Id, Vec<u8>)>,
}

pub open spec fn mentries_view(es: Seq<(Id, Vec<u8>)>) -> MEnvV {
    es.map_values(|p: (Id, Vec<u8>)| (p.0@, p.1@))
}

impl View for MallocEnv {
    type V = MEnvV;

    closed spec fn view(&self) -> MEnvV {
        mentries_view(self.entries@)
    }
}

fn mfind_at(es: &Vec<(Id, Vec<u8>)>, i: usize, x: &Id) -> (r: Option<Vec<u8>>)
    requires
        i <= es@.len(),
    ensures
        ({
            let s = menv_find(mentries_view(es@).take(i as int), x@);
            match r {
                Some(bl) => s == Some(bl@),
                None => s is None,
            }
        }),
    decreases i,
{
    if i == 0 {
        assert(mentries_view(es@).take(0).len() == 0);
        None
    } else {
        proof {
            assert(mentries_view(es@).take(i as int).last() == (es@[i - 1].0@, es@[i - 1].1@));
            assert(mentries_view(es@).take(i as int).drop_last() =~= mentries_view(es@).take(
                i as int - 1,
            ));
        }
        if es[i - 1].0.eq(x) {
            let mut copy: Vec<u8> = Vec::new();
            let src = &es[i - 1].1;
            let mut j: usize = 0;
            while j < src.len()
                invariant
                    j <= src@.len(),
                    copy@ =~= src@.take(j as int),
                decreases src@.len() - j,
            {
                copy.push(src[j]);
                j += 1;
            }
            proof {
                assert(copy@ =~= src@);
            }
            Some(copy)
        } else {
            mfind_at(es, i - 1, x)
        }
    }
}

impl MallocEnv {
    fn new() -> (r: MallocEnv)
        ensures
            r@ =~~= Seq::<(Seq<char>, Seq<u8>)>::empty(),
    {
        let r = MallocEnv { entries: Vec::new() };
        proof {
            assert(r@ =~~= Seq::<(Seq<char>, Seq<u8>)>::empty());
        }
        r
    }

    fn addval(&mut self, key: Id, value: Vec<u8>)
        ensures
            final(self)@ =~~= old(self)@.push((key@, value@)),
    {
        let ghost kv = key@;
        let ghost vv = value@;
        self.entries.push((key, value));
        proof {
            assert(mentries_view(self.entries@) =~~= mentries_view(old(self).entries@).push(
                (kv, vv),
            ));
        }
    }

    fn find(&self, x: &Id) -> (r: Option<Vec<u8>>)
        ensures
            ({
                let s = menv_find(self@, x@);
                match r {
                    Some(bl) => s == Some(bl@),
                    None => s is None,
                }
            }),
    {
        let r = mfind_at(&self.entries, self.entries.len(), x);
        proof {
            assert(mentries_view(self.entries@).take(self.entries@.len() as int) =~= mentries_view(
                self.entries@,
            ));
        }
        r
    }
}

// ----------------------------------------------------------------------
// The model of the translation.

/// Size measure of a computation expression; bounds how many registers,
/// labels and stack slots its translation can consume.
pub open spec fn fcexp_size(c: flat::CexpV) -> nat
    decreases c,
{
    match c {
        flat::CexpV::Val(_) => 2,
        flat::CexpV::Binop(_, _, _) => 4,
        flat::CexpV::App(_, args) => 4 + 2 * args.len(),
        flat::CexpV::If(_, e1, e2) => 4 + fexp_size(*e1) + fexp_size(*e2),
        flat::CexpV::Tuple(vs) => 4 + 2 * vs.len(),
        flat::CexpV::Proj(_, _) => 4,
    }
}

/// Size measure of an expression.
pub open spec fn fexp_size(e: flat::ExpV) -> nat
    decreases e,
{
    match e {
        flat::ExpV::Compexp(c) => 1 + fcexp_size(*c),
        flat::ExpV::Let(_, c, r) => 4 + fcexp_size(*c) + fexp_size(*r),
        flat::ExpV::Loop(_, c, r) => 6 + fcexp_size(*c) + fexp_size(*r),
        flat::ExpV::Recur(_) => 6,
    }
}

/// Size measure of a declaration.
pub open spec fn fdecl_size(d: flat::RecdeclV) -> nat {
    4 + 2 * d.formals.len() + fexp_size(d.body)
}

/// Size measure of a program.
pub open spec fn fprog_size(p: Seq<flat::RecdeclV>) -> nat
    decreases p.len(),
{
    if p.len() == 0 {
        0
    } else {
        fdecl_size(p[0]) + fprog_size(p.skip(1))
    }
}

/// All three counters have room for `n` more draws.
pub open spec fn st_fits(st: TransStV, n: nat) -> bool {
    st.stack_pos + n <= u64::MAX && st.label_num + n <= u64::MAX && st.reg_num + n <= u64::MAX
}

pub open spec fn bump_reg(st: TransStV) -> TransStV {
    TransStV { reg_num: (st.reg_num + 1) as u64, ..st }
}

pub open spec fn bump_label(st: TransStV) -> TransStV {
    TransStV { label_num: (st.label_num + 1) as u64, ..st }
}

/// Allocates the next slot for a value of the given width: one unit for a
/// 4-byte value, two for anything wider. Returns the slot and the state.
pub open spec fn next_stack_spec(byte: u64, st: TransStV) -> (u64, TransStV) {
    if byte == 4 {
        ((st.stack_pos + 1) as u64, TransStV { stack_pos: (st.stack_pos + 1) as u64, ..st })
    } else {
        ((st.stack_pos + 2) as u64, TransStV { stack_pos: (st.stack_pos + 2) as u64, ..st })
    }
}

/// The operand denoting an atomic value: a variable is its slot, a label a
/// procedure reference, an integer an immediate.
pub open spec fn trans_value_spec(v: flat::ValueV, venv: VEnvV) -> Result<OperandV, VmErrV> {
    match v {
        flat::ValueV::Var(x) => match venv_find(venv, x) {
            Some(p) => Ok(OperandV::Local(p.0, p.1)),
            None => Err(VmErrV::Unbound(x)),
        },
        flat::ValueV::Fun(l) => Ok(OperandV::Proc(l)),
        flat::ValueV::Intv(n) => Ok(OperandV::Intv(n)),
    }
}

/// Loads an atomic value into a fresh register: an immediate is 4 bytes
/// wide, a procedure address 8, a variable whatever its slot holds.
pub open spec fn value2reg_spec(v: flat::ValueV, venv: VEnvV, st: TransStV) -> Result<
    (Reg, InstrV, TransStV),
    VmErrV,
> {
    match trans_value_spec(v, venv) {
        Err(e) => Err(e),
        Ok(op) => match op {
            OperandV::Local(ofs, byte) => {
                let r = Reg { vm: st.reg_num, rm: -1i64, byte };
                Ok((r, InstrV::Load(r, ofs), bump_reg(st)))
            },
            OperandV::Proc(l) => {
                let r = Reg { vm: st.reg_num, rm: -1i64, byte: 8 };
                Ok((r, InstrV::Loadf(r, l), bump_reg(st)))
            },
            OperandV::Intv(n) => {
                let r = Reg { vm: st.reg_num, rm: -1i64, byte: 4 };
                Ok((r, InstrV::Move(r, OperandV::Intv(n)), bump_reg(st)))
            },
            OperandV::Param(_) => vstd::pervasive::arbitrary(),
        },
    }
}

/// Loads a list of atomic values, left to right.
pub open spec fn values2regs_spec(
    vs: Seq<flat::ValueV>,
    venv: VEnvV,
    st: TransStV,
    instrs: Seq<InstrV>,
) -> Result<(Seq<Reg>, TransStV, Seq<InstrV>), VmErrV>
    decreases vs.len(),
{
    if vs.len() == 0 {
        Ok((Seq::empty(), st, instrs))
    } else {
        match value2reg_spec(vs[0], venv, st) {
            Err(e) => Err(e),
            Ok((r, ins, st1)) => match values2regs_spec(vs.skip(1), venv, st1, instrs.push(ins)) {
                Err(e) => Err(e),
                Ok((rest, st2, is2)) => Ok((seq![r] + rest, st2, is2)),
            },
        }
    }
}

/// One `Kill` per register, in order.
pub open spec fn push_kills(instrs: Seq<InstrV>, rs: Seq<Reg>, i: int) -> Seq<InstrV>
    decreases rs.len() - i,
{
    if i < 0 || i >= rs.len() {
        instrs
    } else {
        push_kills(instrs.push(InstrV::Kill(rs[i])), rs, i + 1)
    }
}

/// Sum of field widths.
pub open spec fn sum_bytes(bl: Seq<u8>) -> int
    decreases bl.len(),
{
    if bl.len() == 0 {
        0
    } else {
        bl[0] + sum_bytes(bl.skip(1))
    }
}

/// A sum of widths is bounded by 255 per field.
pub proof fn lemma_sum_bytes_bound(bl: Seq<u8>)
    ensures
        0 <= sum_bytes(bl) <= 255 * bl.len(),
    decreases bl.len(),
{
    if bl.len() > 0 {
        lemma_sum_bytes_bound(bl.skip(1));
    }
}

/// The offset and width of field `idx` of the block that `v` names: the sum
/// of the widths before it per the side table, or word offsets for a block
/// whose layout is not recorded (one that came in as a parameter — every
/// heap slot is word-wide).
pub open spec fn proj_site(v: flat::ValueV, menv: MEnvV, idx: int) -> Result<(u64, u64), VmErrV> {
    match v {
        flat::ValueV::Var(x) => if idx < 0 {
            Err(VmErrV::BadProj)
        } else {
            match menv_find(menv, x) {
                Some(bl) => if idx >= bl.len() {
                    Err(VmErrV::BadProj)
                } else {
                    Ok((sum_bytes(bl.take(idx)) as u64, bl[idx] as u64))
                },
                None => Ok(((8 * idx) as u64, 8u64)),
            }
        },
        _ => Err(VmErrV::BadProj),
    }
}

/// Model of the translation of one computation expression. Returns the
/// result register, the field widths when the computation allocated a
/// tuple, and the threaded environments, state and instruction stream.
pub open spec fn trans_cexp_spec(
    c: flat::CexpV,
    venv: VEnvV,
    menv: MEnvV,
    st: TransStV,
    instrs: Seq<InstrV>,
) -> Result<(Reg, Option<Seq<u8>>, VEnvV, MEnvV, TransStV, Seq<InstrV>), VmErrV>
    decreases c,
{
    match c {
        flat::CexpV::Val(v) => match value2reg_spec(v, venv, st) {
            Err(e) => Err(e),
            Ok((r, ins, st1)) => Ok((r, None, venv, menv, st1, instrs.push(ins))),
        },
        flat::CexpV::Binop(op, v1, v2) => match value2reg_spec(v1, venv, st) {
            Err(e) => Err(e),
            Ok((r1, i1, st1)) => match value2reg_spec(v2, venv, st1) {
                Err(e) => Err(e),
                Ok((r2, i2, st2)) => Ok(
                    (
                        r1,
                        None,
                        venv,
                        menv,
                        st2,
                        instrs.push(i1).push(i2).push(InstrV::Binop(op, r1, r2)).push(
                            InstrV::Kill(r2),
                        ),
                    ),
                ),
            },
        },
        flat::CexpV::App(v, vals) => match values2regs_spec(vals, venv, st, instrs) {
            Err(e) => Err(e),
            Ok((args, st1, is1)) => match value2reg_spec(v, venv, st1) {
                Err(e) => Err(e),
                Ok((rc, ins, st2)) => {
                    let is2 = push_kills(is1.push(ins).push(InstrV::Call(rc, args)), args, 0);
                    let st3 = TransStV { haveapp: true, ..st2 };
                    Ok((rc, None, venv, menv, st3, is2))
                },
            },
        },
        flat::CexpV::If(v, e1, e2) => {
            let t_e1 = st.label_num;
            let t_e2 = (st.label_num + 1) as u64;
            let st0 = bump_label(bump_label(st));
            match value2reg_spec(v, venv, st0) {
                Err(e) => Err(e),
                Ok((r1, ins, st1)) => {
                    let is1 = instrs.push(ins).push(InstrV::Br(r1, t_e1));
                    match trans_exp_spec(*e2, venv.push(Seq::empty()), menv, st1, is1) {
                        Err(e) => Err(e),
                        Ok((r2, venv2, menv2, st2, is2)) => {
                            let is3 = is2.push(InstrV::Mover(r1, r2)).push(InstrV::Kill(r2)).push(
                                InstrV::Gt(t_e2),
                            ).push(InstrV::Label(t_e1));
                            match trans_exp_spec(
                                *e1,
                                venv2.drop_last().push(Seq::empty()),
                                menv2,
                                st2,
                                is3,
                            ) {
                                Err(e) => Err(e),
                                Ok((r3, venv3, menv3, st3, is4)) => {
                                    let is5 = is4.push(InstrV::Mover(r1, r3)).push(
                                        InstrV::Kill(r3),
                                    ).push(InstrV::Label(t_e2));
                                    Ok((r1, None, venv3.drop_last(), menv3, st3, is5))
                                },
                            }
                        },
                    }
                },
            }
        },
        flat::CexpV::Tuple(vs) => match values2regs_spec(vs, venv, st, instrs) {
            Err(e) => Err(e),
            Ok((rs, st1, is1)) => {
                let data = rs.map_values(|r: Reg| Reg { vm: r.vm, rm: r.rm, byte: 8 });
                let r1 = Reg { vm: st1.reg_num, rm: -1i64, byte: 8 };
                let st2 = bump_reg(st1);
                let is2 = push_kills(is1.push(InstrV::Malloc(r1, data)), data, 0);
                let bsizes = Seq::new(vs.len(), |i: int| 8u8);
                Ok((r1, Some(bsizes), venv, menv, st2, is2))
            },
        },
        flat::CexpV::Proj(v, idx) => match proj_site(v, menv, idx) {
            Err(e) => Err(e),
            Ok((ofs, byte)) => match value2reg_spec(v, venv, st) {
                Err(e) => Err(e),
                Ok((r, ins, st1)) => {
                    let rr = Reg { vm: r.vm, rm: r.rm, byte };
                    Ok(
                        (
                            rr,
                            None,
                            venv,
                            menv,
                            st1,
                            instrs.push(ins).push(InstrV::Read(rr, (ofs, byte))),
                        ),
                    )
                },
            },
        },
    }
}

/// The side-table update of a `let`: a tuple records its field widths under
/// the bound name; binding a variable that names a block lets the new name
/// share its layout.
pub open spec fn menv_after_let(
    c: flat::CexpV,
    blo: Option<Seq<u8>>,
    id: Seq<char>,
    menv: MEnvV,
) -> MEnvV {
    match blo {
        Some(bl) => menv.push((id, bl)),
        None => match c {
            flat::CexpV::Val(flat::ValueV::Var(x)) => match menv_find(menv, x) {
                Some(bl) => menv.push((id, bl)),
                None => menv,
            },
            _ => menv,
        },
    }
}

/// Model of the translation of an expression.
pub open spec fn trans_exp_spec(
    e: flat::ExpV,
    venv: VEnvV,
    menv: MEnvV,
    st: TransStV,
    instrs: Seq<InstrV>,
) -> Result<(Reg, VEnvV, MEnvV, TransStV, Seq<InstrV>), VmErrV>
    decreases e,
{
    match e {
        flat::ExpV::Compexp(c) => match trans_cexp_spec(*c, venv, menv, st, instrs) {
            Err(e) => Err(e),
            Ok((r, _, venv1, menv1, st1, is1)) => Ok((r, venv1, menv1, st1, is1)),
        },
        flat::ExpV::Let(id, c, rest) => match trans_cexp_spec(*c, venv, menv, st, instrs) {
            Err(e) => Err(e),
            Ok((r1, blo, venv1, menv1, st1, is1)) => {
                let menv2 = menv_after_let(*c, blo, id, menv1);
                let (ofs, st2) = next_stack_spec(r1.byte, st1);
                let is2 = is1.push(InstrV::Store(ofs, r1)).push(InstrV::Kill(r1));
                let venv2 = venv_add(venv1, id, (ofs, r1.byte));
                trans_exp_spec(*rest, venv2, menv2, st2, is2)
            },
        },
        flat::ExpV::Loop(id, c, rest) => {
            let loop_l = st.label_num;
            let st0 = bump_label(st);
            let is0 = instrs.push(InstrV::Label(loop_l));
            match trans_cexp_spec(*c, venv, menv, st0, is0) {
                Err(e) => Err(e),
                Ok((r1, blo, venv1, menv1, st1, is1)) => {
                    let menv2 = menv_after_let(*c, blo, id, menv1);
                    let (id_ofs, st2) = next_stack_spec(r1.byte, st1);
                    let st3 = TransStV {
                        loop_info: st2.loop_info.push((loop_l, id_ofs)),
                        ..st2
                    };
                    let is2 = is1.push(InstrV::Store(id_ofs, r1)).push(InstrV::Kill(r1));
                    let venv2 = venv_add(venv1, id, (id_ofs, r1.byte));
                    trans_exp_spec(*rest, venv2, menv2, st3, is2)
                },
            }
        },
        flat::ExpV::Recur(v) => {
            if st.loop_info.len() == 0 {
                Err(VmErrV::RecurOutsideLoop)
            } else {
                let l = st.loop_info.last().0;
                let ofs = st.loop_info.last().1;
                let st1 = TransStV { loop_info: st.loop_info.drop_last(), ..st };
                match value2reg_spec(v, venv, st1) {
                    Err(e) => Err(e),
                    Ok((r1, ins, st2)) => Ok(
                        (
                            r1,
                            venv,
                            menv,
                            st2,
                            instrs.push(ins).push(InstrV::Store(ofs, r1)).push(InstrV::Gt(l)),
                        ),
                    ),
                }
            }
        },
    }
}

/// Stores each incoming parameter, in order, into a fresh 8-byte slot and
/// binds the formal to it.
pub open spec fn args_spec(
    formals: Seq<Seq<char>>,
    i: int,
    venv: VEnvV,
    st: TransStV,
    instrs: Seq<InstrV>,
) -> (VEnvV, TransStV, Seq<InstrV>)
    decreases formals.len() - i,
{
    if i < 0 || i >= formals.len() {
        (venv, st, instrs)
    } else {
        let ofs = (st.stack_pos + 2) as u64;
        let st1 = TransStV { stack_pos: (st.stack_pos + 2) as u64, ..st };
        let is1 = instrs.push(InstrV::Argst(ofs, OperandV::Param(i as u64)));
        let venv1 = venv_add(venv, formals[i], (ofs, 8));
        args_spec(formals, i + 1, venv1, st1, is1)
    }
}

/// Model of the translation of one declaration: the slot counter, the loop
/// stack and the call flag start afresh; the label and register counters
/// run on; `vc` records the slots the body consumed.
pub open spec fn trans_decl_spec(d: flat::RecdeclV, venv: VEnvV, menv: MEnvV, st: TransStV) -> Result<
    (DeclV, VEnvV, MEnvV, TransStV),
    VmErrV,
> {
    let st0 = TransStV { stack_pos: 0, haveapp: false, loop_info: Seq::empty(), ..st };
    let (venv1, st1, is1) = args_spec(d.formals, 0, venv.push(Seq::empty()), st0, Seq::empty());
    match trans_exp_spec(d.body, venv1, menv, st1, is1) {
        Err(e) => Err(e),
        Ok((r1, venv2, menv2, st2, is2)) => {
            let ra1 = Reg { vm: st2.reg_num, rm: -1i64, byte: r1.byte };
            let st3 = bump_reg(st2);
            let is3 = is2.push(InstrV::Ret(ra1, r1)).push(InstrV::Kill(r1));
            Ok(
                (
                    DeclV { funlb: d.name, vc: st2.stack_pos, instrs: is3, haveapp: st2.haveapp },
                    venv2.drop_last(),
                    menv2,
                    st3,
                ),
            )
        },
    }
}

/// Model of the translation of the whole program, declaration by
/// declaration.
pub open spec fn trans_pg_spec(
    p: Seq<flat::RecdeclV>,
    venv: VEnvV,
    menv: MEnvV,
    st: TransStV,
) -> Result<(Seq<DeclV>, VEnvV, MEnvV, TransStV), VmErrV>
    decreases p.len(),
{
    if p.len() == 0 {
        Ok((Seq::empty(), venv, menv, st))
    } else {
        match trans_decl_spec(p[0], venv, menv, st) {
            Err(e) => Err(e),
            Ok((d, venv1, menv1, st1)) => match trans_pg_spec(p.skip(1), venv1, menv1, st1) {
                Err(e) => Err(e),
                Ok((ds, venv2, menv2, st2)) => Ok((seq![d] + ds, venv2, menv2, st2)),
            },
        }
    }
}

/// The model of the whole pass, from empty environments and zeroed
/// counters.
pub open spec fn trans_program_spec(p: Seq<flat::RecdeclV>) -> Result<Seq<DeclV>, VmErrV> {
    let st = TransStV {
        stack_pos: 0,
        label_num: 0,
        reg_num: 0,
        loop_info: Seq::empty(),
        haveapp: false,
    };
    match trans_pg_spec(p, Seq::empty(), Seq::empty(), st) {
        Err(e) => Err(e),
        Ok((ds, _, _, _)) => Ok(ds),
    }
}

// ----------------------------------------------------------------------
// Counter growth bounds.

/// Loading a list of values draws one register per value and touches no
/// other counter.
pub proof fn lemma_values2regs_count(
    vs: Seq<flat::ValueV>,
    venv: VEnvV,
    st: TransStV,
    instrs: Seq<InstrV>,
)
    ensures
        match values2regs_spec(vs, venv, st, instrs) {
            Ok(r) => r.1.reg_num <= st.reg_num + vs.len() && r.1.stack_pos == st.stack_pos
                && r.1.label_num == st.label_num && r.1.loop_info == st.loop_info && r.1.haveapp
                == st.haveapp,
            Err(_) => true,
        },
    decreases vs.len(),
{
    if vs.len() > 0 {
        match value2reg_spec(vs[0], venv, st) {
            Ok((r, ins, st1)) => {
                lemma_values2regs_count(vs.skip(1), venv, st1, instrs.push(ins));
            },
            Err(_) => {},
        }
    }
}

/// The translation of a computation expression grows each counter by at
/// most its size and keeps the frame count of the variable environment.
pub proof fn lemma_trans_cexp_count(
    c: flat::CexpV,
    venv: VEnvV,
    menv: MEnvV,
    st: TransStV,
    instrs: Seq<InstrV>,
)
    requires
        venv.len() >= 1,
    ensures
        match trans_cexp_spec(c, venv, menv, st, instrs) {
            Ok(r) => r.4.stack_pos <= st.stack_pos + fcexp_size(c) && r.4.label_num
                <= st.label_num + fcexp_size(c) && r.4.reg_num <= st.reg_num + fcexp_size(c)
                && r.2.len() == venv.len(),
            Err(_) => true,
        },
    decreases c,
{
    match c {
        flat::CexpV::App(v, vals) => {
            lemma_values2regs_count(vals, venv, st, instrs);
        },
        flat::CexpV::If(v, e1, e2) => {
            let t_e1 = st.label_num;
            let t_e2 = (st.label_num + 1) as u64;
            let st0 = bump_label(bump_label(st));
            match value2reg_spec(v, venv, st0) {
                Ok((r1, ins, st1)) => {
                    let is1 = instrs.push(ins).push(InstrV::Br(r1, t_e1));
                    lemma_trans_exp_count(*e2, venv.push(Seq::empty()), menv, st1, is1);
                    match trans_exp_spec(*e2, venv.push(Seq::empty()), menv, st1, is1) {
                        Ok((r2, venv2, menv2, st2, is2)) => {
                            let is3 = is2.push(InstrV::Mover(r1, r2)).push(InstrV::Kill(r2)).push(
                                InstrV::Gt(t_e2),
                            ).push(InstrV::Label(t_e1));
                            lemma_trans_exp_count(
                                *e1,
                                venv2.drop_last().push(Seq::empty()),
                                menv2,
                                st2,
                                is3,
                            );
                        },
                        Err(_) => {},
                    }
                },
                Err(_) => {},
            }
        },
        flat::CexpV::Tuple(vs) => {
            lemma_values2regs_count(vs, venv, st, instrs);
        },
        _ => {},
    }
}

/// The translation of an expression grows each counter by at most its size
/// and keeps the frame count of the variable environment.
pub proof fn lemma_trans_exp_count(
    e: flat::ExpV,
    venv: VEnvV,
    menv: MEnvV,
    st: TransStV,
    instrs: Seq<InstrV>,
)
    requires
        venv.len() >= 1,
    ensures
        match trans_exp_spec(e, venv, menv, st, instrs) {
            Ok(r) => r.3.stack_pos <= st.stack_pos + fexp_size(e) && r.3.label_num <= st.label_num
                + fexp_size(e) && r.3.reg_num <= st.reg_num + fexp_size(e) && r.1.len()
                == venv.len(),
            Err(_) => true,
        },
    decreases e,
{
    match e {
        flat::ExpV::Compexp(c) => {
            lemma_trans_cexp_count(*c, venv, menv, st, instrs);
        },
        flat::ExpV::Let(id, c, rest) => {
            lemma_trans_cexp_count(*c, venv, menv, st, instrs);
            match trans_cexp_spec(*c, venv, menv, st, instrs) {
                Ok((r1, blo, venv1, menv1, st1, is1)) => {
                    let menv2 = menv_after_let(*c, blo, id, menv1);
                    let (ofs, st2) = next_stack_spec(r1.byte, st1);
                    let is2 = is1.push(InstrV::Store(ofs, r1)).push(InstrV::Kill(r1));
                    let venv2 = venv_add(venv1, id, (ofs, r1.byte));
                    lemma_trans_exp_count(*rest, venv2, menv2, st2, is2);
                },
                Err(_) => {},
            }
        },
        flat::ExpV::Loop(id, c, rest) => {
            let loop_l = st.label_num;
            let st0 = bump_label(st);
            let is0 = instrs.push(InstrV::Label(loop_l));
            lemma_trans_cexp_count(*c, venv, menv, st0, is0);
            match trans_cexp_spec(*c, venv, menv, st0, is0) {
                Ok((r1, blo, venv1, menv1, st1, is1)) => {
                    let menv2 = menv_after_let(*c, blo, id, menv1);
                    let (id_ofs, st2) = next_stack_spec(r1.byte, st1);
                    let st3 = TransStV {
                        loop_info: st2.loop_info.push((loop_l, id_ofs)),
                        ..st2
                    };
                    let is2 = is1.push(InstrV::Store(id_ofs, r1)).push(InstrV::Kill(r1));
                    let venv2 = venv_add(venv1, id, (id_ofs, r1.byte));
                    lemma_trans_exp_count(*rest, venv2, menv2, st3, is2);
                },
                Err(_) => {},
            }
        },
        flat::ExpV::Recur(_) => {},
    }
}

/// Storing the parameters draws two slots per formal and no registers or
/// labels.
pub proof fn lemma_args_count(
    formals: Seq<Seq<char>>,
    i: int,
    venv: VEnvV,
    st: TransStV,
    instrs: Seq<InstrV>,
)
    requires
        venv.len() >= 1,
        0 <= i <= formals.len(),
        st.stack_pos + 2 * (formals.len() - i) <= u64::MAX,
    ensures
        ({
            let r = args_spec(formals, i, venv, st, instrs);
            r.1.stack_pos <= st.stack_pos + 2 * (formals.len() - i) && r.1.label_num
                == st.label_num && r.1.reg_num == st.reg_num && r.1.loop_info == st.loop_info
                && r.1.haveapp == st.haveapp && r.0.len() == venv.len()
        }),
    decreases formals.len() - i,
{
    if 0 <= i < formals.len() {
        let ofs = (st.stack_pos + 2) as u64;
        let st1 = TransStV { stack_pos: (st.stack_pos + 2) as u64, ..st };
        let is1 = instrs.push(InstrV::Argst(ofs, OperandV::Param(i as u64)));
        let venv1 = venv_add(venv, formals[i], (ofs, 8));
        lemma_args_count(formals, i + 1, venv1, st1, is1);
    }
}

/// The translation of one declaration grows the label and register counters
/// by at most its size.
pub proof fn lemma_trans_decl_count(d: flat::RecdeclV, venv: VEnvV, menv: MEnvV, st: TransStV)
    requires
        2 * d.formals.len() <= u64::MAX,
    ensures
        match trans_decl_spec(d, venv, menv, st) {
            Ok(r) => r.3.label_num <= st.label_num + fdecl_size(d) && r.3.reg_num <= st.reg_num
                + fdecl_size(d) && r.1.len() == venv.len(),
            Err(_) => true,
        },
{
    let st0 = TransStV { stack_pos: 0, haveapp: false, loop_info: Seq::empty(), ..st };
    lemma_args_count(d.formals, 0, venv.push(Seq::empty()), st0, Seq::empty());
    let (venv1, st1, is1) = args_spec(d.formals, 0, venv.push(Seq::empty()), st0, Seq::empty());
    lemma_trans_exp_count(d.body, venv1, menv, st1, is1);
}

// ----------------------------------------------------------------------
// The executable translation.

fn next_regnum(st: &mut TransSt) -> (n: u64)
    requires
        old(st)@.reg_num < u64::MAX,
    ensures
        n == old(st)@.reg_num,
        final(st)@ == bump_reg(old(st)@),
{
    let n = st.reg_num;
    st.reg_num = st.reg_num + 1;
    n
}

fn next_stack32(st: &mut TransSt) -> (ofs: u64)
    requires
        old(st)@.stack_pos + 1 <= u64::MAX,
    ensures
        (ofs, final(st)@) == next_stack_spec(4, old(st)@),
{
    st.stack_pos = st.stack_pos + 1;
    st.stack_pos
}

fn next_stack64(st: &mut TransSt) -> (ofs: u64)
    requires
        old(st)@.stack_pos + 2 <= u64::MAX,
    ensures
        (ofs, final(st)@) == next_stack_spec(8, old(st)@),
{
    st.stack_pos = st.stack_pos + 2;
    st.stack_pos
}

/// The slot for a value of the given width: one unit when 4 bytes wide,
/// two otherwise.
fn next_stack(byte: u64, st: &mut TransSt) -> (ofs: u64)
    requires
        old(st)@.stack_pos + 2 <= u64::MAX,
    ensures
        (ofs, final(st)@) == next_stack_spec(byte, old(st)@),
{
    if byte == 4 {
        next_stack32(st)
    } else {
        next_stack64(st)
    }
}

fn next_label(st: &mut TransSt) -> (l: u64)
    requires
        old(st)@.label_num < u64::MAX,
    ensures
        l == old(st)@.label_num,
        final(st)@ == bump_label(old(st)@),
{
    let l = st.label_num;
    st.label_num = st.label_num + 1;
    l
}

fn add_loopinfo(label: u64, ofs: u64, st: &mut TransSt)
    ensures
        final(st)@ == (TransStV { loop_info: old(st)@.loop_info.push((label, ofs)), ..old(st)@ }),
{
    st.loop_info.push((label, ofs));
}

fn get_loopinfo(st: &mut TransSt) -> (r: Option<(u64, u64)>)
    ensures
        old(st)@.loop_info.len() == 0 ==> r is None && final(st)@ == old(st)@,
        old(st)@.loop_info.len() > 0 ==> r == Some(old(st)@.loop_info.last()) && final(st)@ == (
        TransStV { loop_info: old(st)@.loop_info.drop_last(), ..old(st)@ }),
{
    st.loop_info.pop()
}

impl Reg {
    /// A fresh register of the given width.
    fn new(byte: u64, st: &mut TransSt) -> (r: Reg)
        requires
            old(st)@.reg_num < u64::MAX,
        ensures
            r == (Reg { vm: old(st)@.reg_num, rm: -1i64, byte }),
            final(st)@ == bump_reg(old(st)@),
    {
        Reg { vm: next_regnum(st), rm: -1, byte }
    }
}

impl Decl {
    fn new(funlb: Id, vc: u64, instrs: Vec<Instr>, haveapp: bool) -> (d: Decl)
        ensures
            d@.funlb == funlb@,
            d@.vc == vc,
            d@.instrs == instrs_view(instrs@),
            d@.haveapp == haveapp,
    {
        Decl { funlb, vc, instrs, haveapp }
    }

    fn addinstr(&mut self, instr: Instr)
        ensures
            final(self)@ == (DeclV {
                instrs: old(self)@.instrs.push(instr@),
                ..old(self)@
            }),
    {
        let ghost iv = instr@;
        self.instrs.push(instr);
        proof {
            assert(instrs_view(self.instrs@) =~= instrs_view(old(self).instrs@).push(iv));
        }
    }
}

/// A copy of an F-IR value, equal at the model level.
fn copy_fvalue(v: &flat::Value) -> (r: flat::Value)
    ensures
        r@ == v@,
{
    match v {
        flat::Value::Var(x) => flat::Value::Var(x.clone()),
        flat::Value::Fun(x) => flat::Value::Fun(x.clone()),
        flat::Value::Intv(n) => flat::Value::Intv(*n),
    }
}

fn copy_regs(v: &Vec<Reg>) -> (r: Vec<Reg>)
    ensures
        r@ == v@,
{
    let mut r: Vec<Reg> = Vec::new();
    let mut i: usize = 0;
    while i < v.len()
        invariant
            i <= v@.len(),
            r@ =~= v@.take(i as int),
        decreases v@.len() - i,
    {
        r.push(v[i]);
        i += 1;
    }
    proof {
        assert(r@ =~= v@);
    }
    r
}

/// The operand denoting an atomic value.
fn trans_value(fval: flat::Value, varenv: &VarEnv) -> (r: Result<Operand, VmError>)
    ensures
        ({
            let s = trans_value_spec(fval@, varenv@);
            match r {
                Ok(op) => match s {
                    Ok(ov) => ov == op@,
                    Err(_) => false,
                },
                Err(e) => match s {
                    Err(x) => x == vmerr_view(e),
                    Ok(_) => false,
                },
            }
        }),
{
    match fval {
        flat::Value::Var(id) => match varenv.find(&id) {
            Some(p) => Ok(Operand::Local(p.0, p.1)),
            None => Err(VmError::Unbound(id)),
        },
        flat::Value::Fun(id) => Ok(Operand::Proc(id)),
        flat::Value::Intv(v) => Ok(Operand::Intv(v)),
    }
}

/// Loads an atomic value into a fresh register.
fn value2reg(decl: &mut Decl, val: flat::Value, varenv: &VarEnv, st: &mut TransSt) -> (r: Result<
    Reg,
    VmError,
>)
    requires
        old(st)@.reg_num < u64::MAX,
    ensures
        ({
            let s = value2reg_spec(val@, varenv@, old(st)@);
            match r {
                Ok(reg) => match s {
                    Ok(t) => t.0 == reg && final(decl)@ == (DeclV {
                        instrs: old(decl)@.instrs.push(t.1),
                        ..old(decl)@
                    }) && final(st)@ == t.2,
                    Err(_) => false,
                },
                Err(e) => match s {
                    Err(x) => x == vmerr_view(e) && final(decl)@ == old(decl)@ && final(st)@
                        == old(st)@,
                    Ok(_) => false,
                },
            }
        }),
{
    let op = trans_value(val, varenv)?;
    match op {
        Operand::Local(ofs, byte) => {
            let r = Reg::new(byte, st);
            decl.addinstr(Instr::Load(r, ofs));
            Ok(r)
        },
        Operand::Intv(v) => {
            let r = Reg::new(4, st);
            decl.addinstr(Instr::Move(r, Operand::Intv(v)));
            Ok(r)
        },
        Operand::Proc(id) => {
            let r = Reg::new(8, st);
            decl.addinstr(Instr::Loadf(r, id));
            Ok(r)
        },
        Operand::Param(_) => {
            proof {
                assert(false);
            }
            Err(VmError::BadProj)
        },
    }
}

/// Loads the values `vals[i..]`, left to right.
fn values2regs(
    decl: &mut Decl,
    vals: &Vec<flat::Value>,
    i: usize,
    varenv: &VarEnv,
    st: &mut TransSt,
) -> (r: Result<Vec<Reg>, VmError>)
    requires
        i <= vals@.len(),
        old(st)@.reg_num + (vals@.len() - i) <= u64::MAX,
    ensures
        ({
            let s = values2regs_spec(
                flat::values_view(vals@).skip(i as int),
                varenv@,
                old(st)@,
                old(decl)@.instrs,
            );
            match r {
                Ok(regs) => match s {
                    Ok(t) => t.0 == regs@ && final(st)@ == t.1 && final(decl)@ == (DeclV {
                        instrs: t.2,
                        ..old(decl)@
                    }),
                    Err(_) => false,
                },
                Err(e) => match s {
                    Err(x) => x == vmerr_view(e),
                    Ok(_) => false,
                },
            }
        }),
    decreases vals@.len() - i,
{
    if i == vals.len() {
        let r: Vec<Reg> = Vec::new();
        proof {
            assert(flat::values_view(vals@).skip(i as int) =~= Seq::<flat::ValueV>::empty());
            assert(r@ =~= Seq::<Reg>::empty());
        }
        Ok(r)
    } else {
        proof {
            assert(flat::values_view(vals@).skip(i as int)[0] == vals@[i as int]@);
            assert(flat::values_view(vals@).skip(i as int).skip(1) =~= flat::values_view(
                vals@,
            ).skip(i as int + 1));
        }
        let rg = value2reg(decl, copy_fvalue(&vals[i]), varenv, st)?;
        let mut rest = values2regs(decl, vals, i + 1, varenv, st)?;
        let ghost rest0 = rest@;
        rest.insert(0, rg);
        proof {
            assert(rest@ =~= seq![rg] + rest0);
        }
        Ok(rest)
    }
}

/// One `Kill` per register, in order.
fn emit_kills(decl: &mut Decl, args: &Vec<Reg>)
    ensures
        final(decl)@ == (DeclV {
            instrs: push_kills(old(decl)@.instrs, args@, 0),
            ..old(decl)@
        }),
{
    let mut i: usize = 0;
    while i < args.len()
        invariant
            i <= args@.len(),
            decl@.funlb == old(decl)@.funlb,
            decl@.vc == old(decl)@.vc,
            decl@.haveapp == old(decl)@.haveapp,
            push_kills(decl@.instrs, args@, i as int) == push_kills(old(decl)@.instrs, args@, 0),
        decreases args@.len() - i,
    {
        decl.addinstr(Instr::Kill(args[i]));
        i += 1;
    }
}

spec fn opt_bytes_view(o: Option<Vec<u8>>) -> Option<Seq<u8>> {
    match o {
        Some(v) => Some(v@),
        None => None,
    }
}

/// The agreement of an executable computation-expression step with the
/// model: same register, same tuple widths, same environments, state and
/// instruction stream — or the same error.
spec fn cexp_agrees(
    s: Result<(Reg, Option<Seq<u8>>, VEnvV, MEnvV, TransStV, Seq<InstrV>), VmErrV>,
    r: Result<(Reg, Option<Vec<u8>>), VmError>,
    decl0: DeclV,
    decl1: DeclV,
    venv1: VEnvV,
    menv1: MEnvV,
    st1: TransStV,
) -> bool {
    match r {
        Ok((reg, blo)) => match s {
            Ok(t) => t.0 == reg && t.1 == opt_bytes_view(blo) && t.2 == venv1 && t.3 == menv1
                && t.4 == st1 && decl1 == (DeclV { instrs: t.5, ..decl0 }),
            Err(_) => false,
        },
        Err(e) => match s {
            Err(x) => x == vmerr_view(e),
            Ok(_) => false,
        },
    }
}

/// The agreement of an executable expression step with the model.
spec fn exp_agrees(
    s: Result<(Reg, VEnvV, MEnvV, TransStV, Seq<InstrV>), VmErrV>,
    r: Result<Reg, VmError>,
    decl0: DeclV,
    decl1: DeclV,
    venv1: VEnvV,
    menv1: MEnvV,
    st1: TransStV,
) -> bool {
    match r {
        Ok(reg) => match s {
            Ok(t) => t.0 == reg && t.1 == venv1 && t.2 == menv1 && t.3 == st1 && decl1 == (DeclV {
                instrs: t.4,
                ..decl0
            }),
            Err(_) => false,
        },
        Err(e) => match s {
            Err(x) => x == vmerr_view(e),
            Ok(_) => false,
        },
    }
}

spec fn app_fcexp(v: flat::ValueV, args: Seq<flat::ValueV>) -> flat::CexpV {
    flat::CexpV::App(v, args)
}

#[verifier::spinoff_prover]
fn tcexp_app(
    decl: &mut Decl,
    val: flat::Value,
    vals: Vec<flat::Value>,
    varenv: &mut VarEnv,
    menv: &mut MallocEnv,
    st: &mut TransSt,
) -> (r: Result<(Reg, Option<Vec<u8>>), VmError>)
    requires
        st_fits(old(st)@, fcexp_size(app_fcexp(val@, flat::values_view(vals@)))),
    ensures
        cexp_agrees(
            trans_cexp_spec(
                app_fcexp(val@, flat::values_view(vals@)),
                old(varenv)@,
                old(menv)@,
                old(st)@,
                old(decl)@.instrs,
            ),
            r,
            old(decl)@,
            final(decl)@,
            final(varenv)@,
            final(menv)@,
            final(st)@,
        ),
{
    proof {
        assert(flat::values_view(vals@).skip(0) =~= flat::values_view(vals@));
        lemma_values2regs_count(flat::values_view(vals@), varenv@, st@, decl@.instrs);
    }
    let args = values2regs(decl, &vals, 0, varenv, st)?;
    let rc = value2reg(decl, val, varenv, st)?;
    decl.addinstr(Instr::Call(rc, copy_regs(&args)));
    emit_kills(decl, &args);
    st.haveapp = true;
    Ok((rc, None))
}

spec fn if_fcexp(v: flat::ValueV, e1: flat::ExpV, e2: flat::ExpV) -> flat::CexpV {
    flat::CexpV::If(v, Box::new(e1), Box::new(e2))
}

#[verifier::spinoff_prover]
fn tcexp_if(
    decl: &mut Decl,
    val: flat::Value,
    e1: Box<flat::Exp>,
    e2: Box<flat::Exp>,
    varenv: &mut VarEnv,
    menv: &mut MallocEnv,
    st: &mut TransSt,
) -> (r: Result<(Reg, Option<Vec<u8>>), VmError>)
    requires
        old(varenv)@.len() >= 1,
        st_fits(old(st)@, fcexp_size(if_fcexp(val@, e1@, e2@))),
    ensures
        cexp_agrees(
            trans_cexp_spec(
                if_fcexp(val@, e1@, e2@),
                old(varenv)@,
                old(menv)@,
                old(st)@,
                old(decl)@.instrs,
            ),
            r,
            old(decl)@,
            final(decl)@,
            final(varenv)@,
            final(menv)@,
            final(st)@,
        ),
    decreases 4 + fexp_size(e1@) + fexp_size(e2@), 0nat,
{
    let t_e1 = next_label(st);
    let t_e2 = next_label(st);
    let r1 = value2reg(decl, val, varenv, st)?;
    decl.addinstr(Instr::Br(r1, t_e1));
    varenv.inc();
    proof {
        lemma_trans_exp_count(e2@, varenv@, menv@, st@, decl@.instrs);
    }
    let r2 = trans_exp(*e2, decl, varenv, menv, st)?;
    decl.addinstr(Instr::Mover(r1, r2));
    decl.addinstr(Instr::Kill(r2));
    decl.addinstr(Instr::Gt(t_e2));
    varenv.dec();
    decl.addinstr(Instr::Label(t_e1));
    varenv.inc();
    proof {
        lemma_trans_exp_count(e1@, varenv@, menv@, st@, decl@.instrs);
    }
    let r3 = trans_exp(*e1, decl, varenv, menv, st)?;
    decl.addinstr(Instr::Mover(r1, r3));
    decl.addinstr(Instr::Kill(r3));
    decl.addinstr(Instr::Label(t_e2));
    varenv.dec();
    Ok((r1, None))
}

spec fn tuple_fcexp(args: Seq<flat::ValueV>) -> flat::CexpV {
    flat::CexpV::Tuple(args)
}

#[verifier::spinoff_prover]
fn tcexp_tuple(
    decl: &mut Decl,
    vals: Vec<flat::Value>,
    varenv: &mut VarEnv,
    menv: &mut MallocEnv,
    st: &mut TransSt,
) -> (r: Result<(Reg, Option<Vec<u8>>), VmError>)
    requires
        st_fits(old(st)@, fcexp_size(tuple_fcexp(flat::values_view(vals@)))),
    ensures
        cexp_agrees(
            trans_cexp_spec(
                tuple_fcexp(flat::values_view(vals@)),
                old(varenv)@,
                old(menv)@,
                old(st)@,
                old(decl)@.instrs,
            ),
            r,
            old(decl)@,
            final(decl)@,
            final(varenv)@,
            final(menv)@,
            final(st)@,
        ),
{
    proof {
        assert(flat::values_view(vals@).skip(0) =~= flat::values_view(vals@));
        lemma_values2regs_count(flat::values_view(vals@), varenv@, st@, decl@.instrs);
    }
    let rs = values2regs(decl, &vals, 0, varenv, st)?;
    let mut data: Vec<Reg> = Vec::new();
    let mut i: usize = 0;
    while i < rs.len()
        invariant
            i <= rs@.len(),
            data@ =~= rs@.take(i as int).map_values(
                |rr: Reg| Reg { vm: rr.vm, rm: rr.rm, byte: 8 },
            ),
        decreases rs@.len() - i,
    {
        data.push(Reg { vm: rs[i].vm, rm: rs[i].rm, byte: 8 });
        proof {
            assert(data@ =~= rs@.take(i + 1).map_values(
                |rr: Reg| Reg { vm: rr.vm, rm: rr.rm, byte: 8 },
            ));
        }
        i += 1;
    }
    proof {
        assert(rs@.take(rs@.len() as int) =~= rs@);
        assert(data@ =~= rs@.map_values(|rr: Reg| Reg { vm: rr.vm, rm: rr.rm, byte: 8 }));
    }
    let r1 = Reg::new(8, st);
    decl.addinstr(Instr::Malloc(r1, copy_regs(&data)));
    emit_kills(decl, &data);
    let mut bsizes: Vec<u8> = Vec::new();
    let mut j: usize = 0;
    while j < vals.len()
        invariant
            j <= vals@.len(),
            bsizes@.len() == j,
            forall|n: int| 0 <= n < j ==> bsizes@[n] == 8u8,
        decreases vals@.len() - j,
    {
        bsizes.push(8u8);
        j += 1;
    }
    proof {
        assert(bsizes@ =~= Seq::new(flat::values_view(vals@).len(), |i: int| 8u8));
    }
    Ok((r1, Some(bsizes)))
}

/// One step of the sum of the widths preceding a field.
proof fn lemma_sum_take(s: Seq<u8>, i: int)
    requires
        0 <= i < s.len(),
    ensures
        sum_bytes(s.take(i + 1)) == sum_bytes(s.take(i)) + s[i],
    decreases i,
{
    if i == 0 {
        assert(s.take(1) =~= seq![s[0]]);
        assert(s.take(1).skip(1) =~= Seq::<u8>::empty());
        assert(s.take(0) =~= Seq::<u8>::empty());
    } else {
        lemma_sum_take(s.skip(1), i - 1);
        assert(s.take(i + 1).skip(1) =~= s.skip(1).take(i));
        assert(s.take(i).skip(1) =~= s.skip(1).take(i - 1));
        assert(s.take(i + 1)[0] == s[0]);
        assert(s.take(i)[0] == s[0]);
        assert(s.skip(1)[i - 1] == s[i]);
    }
}

spec fn proj_fcexp(v: flat::ValueV, idx: int) -> flat::CexpV {
    flat::CexpV::Proj(v, idx)
}

#[verifier::spinoff_prover]
fn tcexp_proj(
    decl: &mut Decl,
    val: flat::Value,
    idx: i32,
    varenv: &mut VarEnv,
    menv: &mut MallocEnv,
    st: &mut TransSt,
) -> (r: Result<(Reg, Option<Vec<u8>>), VmError>)
    requires
        st_fits(old(st)@, fcexp_size(proj_fcexp(val@, idx as int))),
    ensures
        cexp_agrees(
            trans_cexp_spec(
                proj_fcexp(val@, idx as int),
                old(varenv)@,
                old(menv)@,
                old(st)@,
                old(decl)@.instrs,
            ),
            r,
            old(decl)@,
            final(decl)@,
            final(varenv)@,
            final(menv)@,
            final(st)@,
        ),
{
    let ofs: u64;
    let byte: u64;
    match &val {
        flat::Value::Var(x) => {
            if idx < 0 {
                return Err(VmError::BadProj);
            }
            match menv.find(x) {
                Some(bl) => {
                    if idx as usize >= bl.len() {
                        return Err(VmError::BadProj);
                    }
                    let mut acc: u64 = 0;
                    let mut j: usize = 0;
                    proof {
                        assert(bl@.take(0) =~= Seq::<u8>::empty());
                    }
                    while j < idx as usize
                        invariant
                            0 <= idx,
                            j <= (idx as usize),
                            (idx as usize) < bl@.len(),
                            acc == sum_bytes(bl@.take(j as int)),
                            acc <= 255 * j,
                        decreases (idx as usize) - j,
                    {
                        proof {
                            lemma_sum_take(bl@, j as int);
                            assert((j as int) < 0x8000_0000int);
                            assert(acc <= 255 * (j as int));
                            assert(acc + bl@[j as int] <= u64::MAX);
                        }
                        acc = acc + (bl[j] as u64);
                        j += 1;
                    }
                    ofs = acc;
                    byte = bl[idx as usize] as u64;
                    proof {
                        lemma_sum_bytes_bound(bl@.take(idx as int));
                    }
                },
                None => {
                    ofs = 8 * (idx as u64);
                    byte = 8;
                },
            }
        },
        _ => {
            return Err(VmError::BadProj);
        },
    }
    let rg = value2reg(decl, val, varenv, st)?;
    let rr = Reg { vm: rg.vm, rm: rg.rm, byte };
    decl.addinstr(Instr::Read(rr, (ofs, byte)));
    Ok((rr, None))
}

/// Translates one computation expression into instructions appended to
/// `decl`, returning the result register and, for a tuple, its field
/// widths.
fn trans_cexp(
    fcexp: flat::Cexp,
    decl: &mut Decl,
    varenv: &mut VarEnv,
    menv: &mut MallocEnv,
    st: &mut TransSt,
) -> (r: Result<(Reg, Option<Vec<u8>>), VmError>)
    requires
        old(varenv)@.len() >= 1,
        st_fits(old(st)@, fcexp_size(fcexp@)),
    ensures
        cexp_agrees(
            trans_cexp_spec(fcexp@, old(varenv)@, old(menv)@, old(st)@, old(decl)@.instrs),
            r,
            old(decl)@,
            final(decl)@,
            final(varenv)@,
            final(menv)@,
            final(st)@,
        ),
    decreases fcexp_size(fcexp@), 1nat,
{
    match fcexp {
        flat::Cexp::Val(val) => {
            let rg = value2reg(decl, val, varenv, st)?;
            Ok((rg, None))
        },
        flat::Cexp::Binop(btype, val1, val2) => {
            let r1 = value2reg(decl, val1, varenv, st)?;
            let r2 = value2reg(decl, val2, varenv, st)?;
            decl.addinstr(Instr::Binop(btype, r1, r2));
            decl.addinstr(Instr::Kill(r2));
            Ok((r1, None))
        },
        flat::Cexp::App(val, vals) => tcexp_app(decl, val, vals, varenv, menv, st),
        flat::Cexp::If(val, e1, e2) => tcexp_if(decl, val, e1, e2, varenv, menv, st),
        flat::Cexp::Tuple(vals) => tcexp_tuple(decl, vals, varenv, menv, st),
        flat::Cexp::Proj(val, c) => tcexp_proj(decl, val, c, varenv, menv, st),
    }
}

spec fn let_fexp(id: Seq<char>, c: flat::CexpV, rest: flat::ExpV) -> flat::ExpV {
    flat::ExpV::Let(id, Box::new(c), Box::new(rest))
}

spec fn loop_fexp(id: Seq<char>, c: flat::CexpV, rest: flat::ExpV) -> flat::ExpV {
    flat::ExpV::Loop(id, Box::new(c), Box::new(rest))
}

#[verifier::spinoff_prover]
fn texp_let(
    id: Id,
    c0: Box<flat::Cexp>,
    rest: Box<flat::Exp>,
    decl: &mut Decl,
    varenv: &mut VarEnv,
    menv: &mut MallocEnv,
    st: &mut TransSt,
) -> (r: Result<Reg, VmError>)
    requires
        old(varenv)@.len() >= 1,
        st_fits(old(st)@, fexp_size(let_fexp(id@, c0@, rest@))),
    ensures
        exp_agrees(
            trans_exp_spec(
                let_fexp(id@, c0@, rest@),
                old(varenv)@,
                old(menv)@,
                old(st)@,
                old(decl)@.instrs,
            ),
            r,
            old(decl)@,
            final(decl)@,
            final(varenv)@,
            final(menv)@,
            final(st)@,
        ),
    decreases 4 + fcexp_size(c0@) + fexp_size(rest@), 0nat,
{
    let ghost cv = c0@;
    let alias: Option<Id> = match &*c0 {
        flat::Cexp::Val(flat::Value::Var(x)) => Some(x.clone()),
        _ => None,
    };
    proof {
        lemma_trans_cexp_count(cv, varenv@, menv@, st@, decl@.instrs);
    }
    let (r1, blo) = trans_cexp(*c0, decl, varenv, menv, st)?;
    match blo {
        Some(bl) => {
            menv.addval(id.clone(), bl);
        },
        None => {
            match alias {
                Some(x) => {
                    match menv.find(&x) {
                        Some(bl) => {
                            menv.addval(id.clone(), bl);
                        },
                        None => {},
                    }
                },
                None => {},
            }
        },
    }
    proof {
        assert(menv@ =~~= menv_after_let(
            cv,
            opt_bytes_view(blo),
            id@,
            trans_cexp_spec(cv, old(varenv)@, old(menv)@, old(st)@, old(decl)@.instrs)->Ok_0.3,
        ));
    }
    let ofs = next_stack(r1.byte, st);
    decl.addinstr(Instr::Store(ofs, r1));
    decl.addinstr(Instr::Kill(r1));
    varenv.addval(id, (ofs, r1.byte));
    proof {
        lemma_trans_exp_count(rest@, varenv@, menv@, st@, decl@.instrs);
    }
    trans_exp(*rest, decl, varenv, menv, st)
}

#[verifier::spinoff_prover]
fn texp_loop(
    id: Id,
    c0: Box<flat::Cexp>,
    rest: Box<flat::Exp>,
    decl: &mut Decl,
    varenv: &mut VarEnv,
    menv: &mut MallocEnv,
    st: &mut TransSt,
) -> (r: Result<Reg, VmError>)
    requires
        old(varenv)@.len() >= 1,
        st_fits(old(st)@, fexp_size(loop_fexp(id@, c0@, rest@))),
    ensures
        exp_agrees(
            trans_exp_spec(
                loop_fexp(id@, c0@, rest@),
                old(varenv)@,
                old(menv)@,
                old(st)@,
                old(decl)@.instrs,
            ),
            r,
            old(decl)@,
            final(decl)@,
            final(varenv)@,
            final(menv)@,
            final(st)@,
        ),
    decreases 6 + fcexp_size(c0@) + fexp_size(rest@), 0nat,
{
    let ghost cv = c0@;
    let loop_l = next_label(st);
    decl.addinstr(Instr::Label(loop_l));
    let alias: Option<Id> = match &*c0 {
        flat::Cexp::Val(flat::Value::Var(x)) => Some(x.clone()),
        _ => None,
    };
    proof {
        lemma_trans_cexp_count(cv, varenv@, menv@, st@, decl@.instrs);
    }
    let (r1, blo) = trans_cexp(*c0, decl, varenv, menv, st)?;
    match blo {
        Some(bl) => {
            menv.addval(id.clone(), bl);
        },
        None => {
            match alias {
                Some(x) => {
                    match menv.find(&x) {
                        Some(bl) => {
                            menv.addval(id.clone(), bl);
                        },
                        None => {},
                    }
                },
                None => {},
            }
        },
    }
    let id_ofs = next_stack(r1.byte, st);
    add_loopinfo(loop_l, id_ofs, st);
    decl.addinstr(Instr::Store(id_ofs, r1));
    decl.addinstr(Instr::Kill(r1));
    varenv.addval(id, (id_ofs, r1.byte));
    proof {
        lemma_trans_exp_count(rest@, varenv@, menv@, st@, decl@.instrs);
    }
    trans_exp(*rest, decl, varenv, menv, st)
}

/// Translates an expression into instructions appended to `decl`, returning
/// the register that holds its value.
fn trans_exp(
    fexp: flat::Exp,
    decl: &mut Decl,
    varenv: &mut VarEnv,
    menv: &mut MallocEnv,
    st: &mut TransSt,
) -> (r: Result<Reg, VmError>)
    requires
        old(varenv)@.len() >= 1,
        st_fits(old(st)@, fexp_size(fexp@)),
    ensures
        exp_agrees(
            trans_exp_spec(fexp@, old(varenv)@, old(menv)@, old(st)@, old(decl)@.instrs),
            r,
            old(decl)@,
            final(decl)@,
            final(varenv)@,
            final(menv)@,
            final(st)@,
        ),
    decreases fexp_size(fexp@), 2nat,
{
    match fexp {
        flat::Exp::Compexp(fcexp) => {
            let (rg, _) = trans_cexp(*fcexp, decl, varenv, menv, st)?;
            Ok(rg)
        },
        flat::Exp::Let(id, fcexp, rest) => texp_let(id, fcexp, rest, decl, varenv, menv, st),
        flat::Exp::Loop(id, fcexp, rest) => texp_loop(id, fcexp, rest, decl, varenv, menv, st),
        flat::Exp::Recur(val) => {
            match get_loopinfo(st) {
                None => Err(VmError::RecurOutsideLoop),
                Some((loop_l, loop_ofs)) => {
                    let r1 = value2reg(decl, val, varenv, st)?;
                    decl.addinstr(Instr::Store(loop_ofs, r1));
                    decl.addinstr(Instr::Gt(loop_l));
                    Ok(r1)
                },
            }
        },
    }
}

impl Program {
    fn new() -> (r: Program)
        ensures
            r@ =~= Seq::<DeclV>::empty(),
    {
        Program { decls: Vec::new() }
    }

    fn add(&mut self, decl: Decl)
        ensures
            final(self)@ =~= old(self)@.push(decl@),
    {
        let ghost dv = decl@;
        self.decls.push(decl);
        proof {
            assert(decls_view(self.decls@) =~= decls_view(old(self).decls@).push(dv));
        }
    }
}

#[verifier::spinoff_prover]
#[verifier::rlimit(40)]
fn trans_decl(
    fdecl: flat::Recdecl,
    varenv: &mut VarEnv,
    menv: &mut MallocEnv,
    st: &mut TransSt,
) -> (r: Result<Decl, VmError>)
    requires
        fdecl_size(fdecl@) <= u64::MAX,
        old(st)@.label_num + fdecl_size(fdecl@) <= u64::MAX,
        old(st)@.reg_num + fdecl_size(fdecl@) <= u64::MAX,
    ensures
        ({
            let s = trans_decl_spec(fdecl@, old(varenv)@, old(menv)@, old(st)@);
            match r {
                Ok(d) => match s {
                    Ok(t) => t.0 == d@ && t.1 == final(varenv)@ && t.2 == final(menv)@ && t.3
                        == final(st)@,
                    Err(_) => false,
                },
                Err(e) => match s {
                    Err(x) => x == vmerr_view(e),
                    Ok(_) => false,
                },
            }
        }),
{
    let ghost fdv = fdecl@;
    let flat::Recdecl(funame, args, body) = fdecl;
    let ghost formals_v = crate::closure::ids_view(args@);
    let ghost bodyv = body@;
    proof {
        assert(fdv == (flat::RecdeclV { name: funame@, formals: formals_v, body: bodyv }));
    }
    st.stack_pos = 0;
    st.haveapp = false;
    st.loop_info = Vec::new();
    let ghost st0 = st@;
    let mut decl = Decl::new(funame, 0, Vec::new(), false);
    varenv.inc();
    let ghost venv0 = varenv@;
    proof {
        assert(decl@.instrs =~= Seq::<InstrV>::empty());
        assert(st0.loop_info =~= Seq::<(u64, u64)>::empty());
    }
    let mut pari: usize = 0;
    while pari < args.len()
        invariant
            pari <= args@.len(),
            crate::closure::ids_view(args@) == formals_v,
            decl@.funlb == funame@,
            decl@.vc == 0,
            decl@.haveapp == false,
            varenv@.len() >= 1,
            st@.stack_pos == 2 * pari,
            2 * formals_v.len() <= u64::MAX,
            st@.label_num == st0.label_num,
            st@.reg_num == st0.reg_num,
            st@.loop_info == st0.loop_info,
            st@.haveapp == st0.haveapp,
            args_spec(formals_v, pari as int, varenv@, st@, decl@.instrs) == args_spec(
                formals_v,
                0,
                venv0,
                st0,
                Seq::empty(),
            ),
        decreases args@.len() - pari,
    {
        proof {
            assert(crate::closure::ids_view(args@)[pari as int] == args@[pari as int]@);
        }
        let ofs = next_stack64(st);
        decl.addinstr(Instr::Argst(ofs, Operand::Param(pari as u64)));
        varenv.addval(args[pari].clone(), (ofs, 8));
        pari += 1;
    }
    proof {
        assert(args_spec(formals_v, pari as int, varenv@, st@, decl@.instrs) == (
            varenv@,
            st@,
            decl@.instrs,
        ));
        lemma_trans_exp_count(bodyv, varenv@, menv@, st@, decl@.instrs);
    }
    let r1 = match trans_exp(*body, &mut decl, varenv, menv, st) {
        Ok(r1) => r1,
        Err(e) => {
            return Err(e);
        },
    };
    varenv.dec();
    decl.vc = st.stack_pos;
    let ghost st2 = st@;
    let mut ra1 = Reg::new(4, st);
    ra1.byte = r1.byte;
    decl.addinstr(Instr::Ret(ra1, r1));
    decl.addinstr(Instr::Kill(r1));
    decl.haveapp = st.haveapp;
    proof {
        assert(ra1 == (Reg { vm: st2.reg_num, rm: -1i64, byte: r1.byte }));
    }
    Ok(decl)
}

fn trans_decls(
    recs: Vec<flat::Recdecl>,
    varenv: &mut VarEnv,
    menv: &mut MallocEnv,
    st: &mut TransSt,
) -> (r: Result<Vec<Decl>, VmError>)
    requires
        fprog_size(flat::recs_view(recs@)) <= u64::MAX,
        old(st)@.label_num + fprog_size(flat::recs_view(recs@)) <= u64::MAX,
        old(st)@.reg_num + fprog_size(flat::recs_view(recs@)) <= u64::MAX,
    ensures
        ({
            let s = trans_pg_spec(flat::recs_view(recs@), old(varenv)@, old(menv)@, old(st)@);
            match r {
                Ok(ds) => match s {
                    Ok(t) => t.0 == decls_view(ds@) && t.1 == final(varenv)@
                        && t.2 == final(menv)@ && t.3 == final(st)@,
                    Err(_) => false,
                },
                Err(e) => match s {
                    Err(x) => x == vmerr_view(e),
                    Ok(_) => false,
                },
            }
        }),
    decreases recs@.len(),
{
    if recs.len() == 0 {
        let r: Vec<Decl> = Vec::new();
        proof {
            assert(flat::recs_view(recs@) =~= Seq::<flat::RecdeclV>::empty());
            assert(decls_view(r@) =~= Seq::<DeclV>::empty());
        }
        Ok(r)
    } else {
        let mut recs = recs;
        let ghost recs_v = flat::recs_view(recs@);
        let d = recs.remove(0);
        proof {
            assert(recs_v[0] == d@);
            assert(flat::recs_view(recs@) =~= recs_v.skip(1));
            lemma_trans_decl_count(d@, varenv@, menv@, st@);
        }
        let dd = match trans_decl(d, varenv, menv, st) {
            Ok(dd) => dd,
            Err(e) => {
                return Err(e);
            },
        };
        let ghost ddv = dd@;
        let mut rest = match trans_decls(recs, varenv, menv, st) {
            Ok(rest) => rest,
            Err(e) => {
                return Err(e);
            },
        };
        let ghost rest0 = rest@;
        rest.insert(0, dd);
        proof {
            assert(decls_view(rest@) =~= seq![ddv] + decls_view(rest0));
        }
        Ok(rest)
    }
}

/// Virtualization: linearizes each declaration, in order, into instructions
/// over fresh virtual registers and stack slots, from empty environments
/// and zeroed counters. The result equals the model `trans_program_spec`.
pub fn trans_pg(pg: flat::Program) -> (r: Result<Program, VmError>)
    requires
        fprog_size(pg@) <= u64::MAX,
    ensures
        ({
            let s = trans_program_spec(pg@);
            match r {
                Ok(p) => match s {
                    Ok(ds) => ds == p@,
                    Err(_) => false,
                },
                Err(e) => match s {
                    Err(x) => x == vmerr_view(e),
                    Ok(_) => false,
                },
            }
        }),
{
    let mut varenv = VarEnv::new();
    let mut menv = MallocEnv::new();
    let mut st = TransSt {
        stack_pos: 0,
        label_num: 0,
        reg_num: 0,
        loop_info: Vec::new(),
        haveapp: false,
    };
    proof {
        assert(st@.loop_info =~= Seq::<(u64, u64)>::empty());
    }
    let ds = match trans_decls(pg.recs, &mut varenv, &mut menv, &mut st) {
        Ok(ds) => ds,
        Err(e) => {
            return Err(e);
        },
    };
    Ok(Program { decls: ds })
}

// ----------------------------------------------------------------------
// Virtualize soundness: slots against `vc`, jumps against labels.

/// The stack slot an instruction reads or writes.
pub open spec fn instr_slot(iv: InstrV) -> Option<u64> {
    match iv {
        InstrV::Store(ofs, _) => Some(ofs),
        InstrV::Load(_, ofs) => Some(ofs),
        InstrV::Argst(ofs, _) => Some(ofs),
        _ => None,
    }
}

/// The stack slot an instruction writes.
pub open spec fn instr_write_slot(iv: InstrV) -> Option<u64> {
    match iv {
        InstrV::Store(ofs, _) => Some(ofs),
        InstrV::Argst(ofs, _) => Some(ofs),
        _ => None,
    }
}

/// The label an instruction jumps to.
pub open spec fn instr_target(iv: InstrV) -> Option<u64> {
    match iv {
        InstrV::Br(_, l) => Some(l),
        InstrV::Gt(l) => Some(l),
        _ => None,
    }
}

/// Whether the stream carries `Label(l)`.
pub open spec fn has_label(is: Seq<InstrV>, l: u64) -> bool {
    exists|i: int| 0 <= i < is.len() && is[i] == InstrV::Label(l)
}

/// Every slot used lies in `[1, vc]`.
pub open spec fn slots_bounded(is: Seq<InstrV>, vc: u64) -> bool {
    forall|i: int|
        0 <= i < is.len() ==> match #[trigger] instr_slot(is[i]) {
            Some(ofs) => 1 <= ofs <= vc,
            None => true,
        }
}

/// `vc` is zero or some write reaches it.
pub open spec fn vc_attained(is: Seq<InstrV>, vc: u64) -> bool {
    vc == 0 || exists|i: int| 0 <= i < is.len() && instr_write_slot(#[trigger] is[i]) == Some(vc)
}

/// Every jump from index `from` on lands on a label of the stream.
pub open spec fn targets_resolved_from(is: Seq<InstrV>, from: int) -> bool {
    forall|i: int|
        from <= i < is.len() ==> match #[trigger] instr_target(is[i]) {
            Some(l) => has_label(is, l),
            None => true,
        }
}

/// Every binding anywhere in the variable environment lies in `[1, sp]`.
pub open spec fn venv_slots_ok(venv: VEnvV, sp: u64) -> bool {
    forall|i: int, j: int|
        0 <= i < venv.len() && 0 <= j < venv[i].len() ==> 1 <= (
        #[trigger] venv[i][j]).1.0 <= sp
}

/// Every loop entry's slot lies in `[1, sp]` and its label stands in the
/// stream already.
pub open spec fn loops_ok(li: Seq<(u64, u64)>, sp: u64, is: Seq<InstrV>) -> bool {
    forall|k: int|
        0 <= k < li.len() ==> 1 <= (#[trigger] li[k]).1 <= sp && has_label(is, li[k].0)
}

proof fn lemma_has_label_prefix(is: Seq<InstrV>, is2: Seq<InstrV>, l: u64)
    requires
        is.is_prefix_of(is2),
        has_label(is, l),
    ensures
        has_label(is2, l),
{
    let i = choose|i: int| 0 <= i < is.len() && is[i] == InstrV::Label(l);
    assert(is2[i] == is.take(is.len() as int)[i]);
    assert(is2[i] == InstrV::Label(l));
}

proof fn lemma_vframe_find_bounded(f: Seq<(Seq<char>, (u64, u64))>, x: Seq<char>)
    requires
        vframe_find(f, x) is Some,
    ensures
        exists|j: int| 0 <= j < f.len() && #[trigger] f[j] == (x, vframe_find(f, x)->0),
    decreases f.len(),
{
    if f.len() > 0 {
        if f.last().0 == x {
            assert(f[f.len() - 1] == (x, vframe_find(f, x)->0));
        } else {
            lemma_vframe_find_bounded(f.drop_last(), x);
            let j = choose|j: int|
                0 <= j < f.drop_last().len() && #[trigger] f.drop_last()[j] == (
                x,
                vframe_find(f.drop_last(), x)->0,
                );
            assert(f[j] == (x, vframe_find(f, x)->0));
        }
    }
}

proof fn lemma_venv_find_bounded(venv: VEnvV, x: Seq<char>, sp: u64)
    requires
        venv_slots_ok(venv, sp),
        venv_find(venv, x) is Some,
    ensures
        1 <= (venv_find(venv, x)->0).0 <= sp,
    decreases venv.len(),
{
    if venv.len() > 0 {
        match vframe_find(venv.last(), x) {
            Some(p) => {
                lemma_vframe_find_bounded(venv.last(), x);
                let j = choose|j: int|
                    0 <= j < venv.last().len() && #[trigger] venv.last()[j] == (x, p);
                assert(venv[venv.len() - 1][j] == (x, p));
            },
            None => {
                assert forall|i: int, j: int|
                    0 <= i < venv.drop_last().len() && 0 <= j < venv.drop_last()[i].len() implies 1
                    <= (#[trigger] venv.drop_last()[i][j]).1.0 <= sp by {
                    assert(venv[i][j] == venv.drop_last()[i][j]);
                }
                lemma_venv_find_bounded(venv.drop_last(), x, sp);
            },
        }
    }
}

proof fn lemma_venv_slots_push_empty(venv: VEnvV, sp: u64)
    requires
        venv_slots_ok(venv, sp),
    ensures
        venv_slots_ok(venv.push(Seq::empty()), sp),
{
    assert forall|i: int, j: int|
        0 <= i < venv.push(Seq::empty()).len() && 0 <= j < venv.push(Seq::empty())[i].len() implies
        1 <= (#[trigger] venv.push(Seq::empty())[i][j]).1.0 <= sp by {
        assert(i < venv.len());
        assert(venv.push(Seq::empty())[i][j] == venv[i][j]);
    }
}

proof fn lemma_venv_slots_drop_last(venv: VEnvV, sp: u64)
    requires
        venv_slots_ok(venv, sp),
        venv.len() >= 1,
    ensures
        venv_slots_ok(venv.drop_last(), sp),
{
    assert forall|i: int, j: int|
        0 <= i < venv.drop_last().len() && 0 <= j < venv.drop_last()[i].len() implies 1 <= (
    #[trigger] venv.drop_last()[i][j]).1.0 <= sp by {
        assert(venv.drop_last()[i][j] == venv[i][j]);
    }
}

proof fn lemma_venv_slots_add(venv: VEnvV, x: Seq<char>, p: (u64, u64), sp: u64)
    requires
        venv_slots_ok(venv, sp),
        venv.len() >= 1,
        1 <= p.0 <= sp,
    ensures
        venv_slots_ok(venv_add(venv, x, p), sp),
{
    let venv2 = venv_add(venv, x, p);
    assert forall|i: int, j: int|
        0 <= i < venv2.len() && 0 <= j < venv2[i].len() implies 1 <= (
    #[trigger] venv2[i][j]).1.0 <= sp by {
        if i == venv.len() - 1 {
            if j < venv[i].len() {
                assert(venv2[i][j] == venv[i][j]);
            } else {
                assert(venv2[i][j] == (x, p));
            }
        } else {
            assert(venv2[i][j] == venv[i][j]);
        }
    }
}

proof fn lemma_venv_slots_weaken(venv: VEnvV, sp: u64, sp2: u64)
    requires
        venv_slots_ok(venv, sp),
        sp <= sp2,
    ensures
        venv_slots_ok(venv, sp2),
{
    assert forall|i: int, j: int|
        0 <= i < venv.len() && 0 <= j < venv[i].len() implies 1 <= (
    #[trigger] venv[i][j]).1.0 <= sp2 by {
        assert(1 <= venv[i][j].1.0 <= sp);
    }
}

/// The running state invariant of the translation: environment slots,
/// loop entries and emitted slots lie within the stack counter, which some
/// emitted write attains unless it is zero.
pub open spec fn trans_inv(venv: VEnvV, st: TransStV, is: Seq<InstrV>) -> bool {
    venv_slots_ok(venv, st.stack_pos) && loops_ok(st.loop_info, st.stack_pos, is)
        && slots_bounded(is, st.stack_pos) && vc_attained(is, st.stack_pos)
}

proof fn lemma_prefix_trans(a: Seq<InstrV>, b: Seq<InstrV>, c: Seq<InstrV>)
    requires
        a.is_prefix_of(b),
        b.is_prefix_of(c),
    ensures
        a.is_prefix_of(c),
{
    assert(a =~= c.take(a.len() as int)) by {
        assert forall|i: int| 0 <= i < a.len() implies a[i] == c[i] by {
            assert(a[i] == b.take(a.len() as int)[i]);
            assert(b[i] == c.take(b.len() as int)[i]);
        }
    }
}

proof fn lemma_push_keeps(is: Seq<InstrV>, a: InstrV, sp: u64)
    requires
        slots_bounded(is, sp),
        vc_attained(is, sp),
        match instr_slot(a) {
            Some(o) => 1 <= o <= sp,
            None => true,
        },
    ensures
        slots_bounded(is.push(a), sp),
        vc_attained(is.push(a), sp),
        is.is_prefix_of(is.push(a)),
{
    assert forall|i: int| 0 <= i < is.push(a).len() implies match #[trigger] instr_slot(
        is.push(a)[i],
    ) {
        Some(ofs) => 1 <= ofs <= sp,
        None => true,
    } by {
        if i < is.len() {
            assert(is.push(a)[i] == is[i]);
        } else {
            assert(is.push(a)[i] == a);
        }
    }
    if sp != 0 {
        let w = choose|i: int| 0 <= i < is.len() && instr_write_slot(#[trigger] is[i]) == Some(sp);
        assert(is.push(a)[w] == is[w]);
        assert(instr_write_slot(is.push(a)[w]) == Some(sp));
    }
    assert(is =~= is.push(a).take(is.len() as int));
}

proof fn lemma_push_keeps_na(is: Seq<InstrV>, a: InstrV, sp: u64)
    requires
        slots_bounded(is, sp),
        match instr_slot(a) {
            Some(o) => 1 <= o <= sp,
            None => true,
        },
    ensures
        slots_bounded(is.push(a), sp),
        is.is_prefix_of(is.push(a)),
{
    assert forall|i: int| 0 <= i < is.push(a).len() implies match #[trigger] instr_slot(
        is.push(a)[i],
    ) {
        Some(ofs) => 1 <= ofs <= sp,
        None => true,
    } by {
        if i < is.len() {
            assert(is.push(a)[i] == is[i]);
        } else {
            assert(is.push(a)[i] == a);
        }
    }
    assert(is =~= is.push(a).take(is.len() as int));
}

proof fn lemma_loops_weaken(
    li: Seq<(u64, u64)>,
    sp: u64,
    sp2: u64,
    is: Seq<InstrV>,
    is2: Seq<InstrV>,
)
    requires
        loops_ok(li, sp, is),
        sp <= sp2,
        is.is_prefix_of(is2),
    ensures
        loops_ok(li, sp2, is2),
{
    assert forall|k: int| 0 <= k < li.len() implies 1 <= (#[trigger] li[k]).1 <= sp2 && has_label(
        is2,
        li[k].0,
    ) by {
        lemma_has_label_prefix(is, is2, li[k].0);
    }
}

proof fn lemma_v2r_sound(v: flat::ValueV, venv: VEnvV, st: TransStV)
    requires
        venv_slots_ok(venv, st.stack_pos),
    ensures
        match value2reg_spec(v, venv, st) {
            Ok(t) => t.2.stack_pos == st.stack_pos && t.2.loop_info == st.loop_info && match
                instr_slot(t.1) {
                Some(o) => 1 <= o <= st.stack_pos,
                None => true,
            } && instr_target(t.1) is None && instr_write_slot(t.1) is None,
            Err(_) => true,
        },
{
    match v {
        flat::ValueV::Var(x) => {
            if venv_find(venv, x) is Some {
                lemma_venv_find_bounded(venv, x, st.stack_pos);
            }
        },
        _ => {},
    }
}

proof fn lemma_values2regs_sound(
    vs: Seq<flat::ValueV>,
    venv: VEnvV,
    st: TransStV,
    instrs: Seq<InstrV>,
)
    requires
        venv_slots_ok(venv, st.stack_pos),
        slots_bounded(instrs, st.stack_pos),
        vc_attained(instrs, st.stack_pos),
    ensures
        match values2regs_spec(vs, venv, st, instrs) {
            Ok(t) => t.1.stack_pos == st.stack_pos && t.1.loop_info == st.loop_info
                && instrs.is_prefix_of(t.2) && slots_bounded(t.2, st.stack_pos) && vc_attained(
                t.2,
                st.stack_pos,
            ) && targets_resolved_from(t.2, instrs.len() as int),
            Err(_) => true,
        },
    decreases vs.len(),
{
    if vs.len() == 0 {
        assert(instrs.is_prefix_of(instrs));
        assert forall|i: int| instrs.len() <= i < instrs.len() implies match #[trigger]
            instr_target(instrs[i]) {
            Some(l) => has_label(instrs, l),
            None => true,
        } by {}
    } else {
        lemma_v2r_sound(vs[0], venv, st);
        match value2reg_spec(vs[0], venv, st) {
            Ok((r, ins, st1)) => {
                lemma_push_keeps(instrs, ins, st.stack_pos);
                lemma_values2regs_sound(vs.skip(1), venv, st1, instrs.push(ins));
                match values2regs_spec(vs.skip(1), venv, st1, instrs.push(ins)) {
                    Ok(t) => {
                        lemma_prefix_trans(instrs, instrs.push(ins), t.2);
                        assert forall|i: int| instrs.len() <= i < t.2.len() implies match
                            #[trigger] instr_target(t.2[i]) {
                            Some(l) => has_label(t.2, l),
                            None => true,
                        } by {
                            if i == instrs.len() {
                                assert(t.2[i] == instrs.push(ins).take(
                                    instrs.push(ins).len() as int,
                                )[i]);
                                assert(t.2[i] == ins);
                            }
                        }
                    },
                    Err(_) => {},
                }
            },
            Err(_) => {},
        }
    }
}

proof fn lemma_push_kills_keeps(is: Seq<InstrV>, rs: Seq<Reg>, i: int, sp: u64)
    requires
        slots_bounded(is, sp),
        vc_attained(is, sp),
    ensures
        slots_bounded(push_kills(is, rs, i), sp),
        vc_attained(push_kills(is, rs, i), sp),
        is.is_prefix_of(push_kills(is, rs, i)),
        forall|k: int|
            is.len() <= k < push_kills(is, rs, i).len() ==> instr_target(
                #[trigger] push_kills(is, rs, i)[k],
            ) is None,
    decreases rs.len() - i,
{
    if i < 0 || i >= rs.len() {
        assert(is.is_prefix_of(is));
    } else {
        lemma_push_keeps(is, InstrV::Kill(rs[i]), sp);
        lemma_push_kills_keeps(is.push(InstrV::Kill(rs[i])), rs, i + 1, sp);
        lemma_prefix_trans(is, is.push(InstrV::Kill(rs[i])), push_kills(is, rs, i));
        let out = push_kills(is, rs, i);
        assert forall|k: int| is.len() <= k < out.len() implies instr_target(
            #[trigger] out[k],
        ) is None by {
            if k == is.len() {
                assert(out[k] == is.push(InstrV::Kill(rs[i])).take(
                    is.push(InstrV::Kill(rs[i])).len() as int,
                )[k]);
                assert(out[k] == InstrV::Kill(rs[i]));
            }
        }
    }
}

proof fn lemma_slots_weaken(is: Seq<InstrV>, sp: u64, sp2: u64)
    requires
        slots_bounded(is, sp),
        sp <= sp2,
    ensures
        slots_bounded(is, sp2),
{
    assert forall|i: int| 0 <= i < is.len() implies match #[trigger] instr_slot(is[i]) {
        Some(ofs) => 1 <= ofs <= sp2,
        None => true,
    } by {
        assert(match instr_slot(is[i]) {
            Some(ofs) => 1 <= ofs <= sp,
            None => true,
        });
    }
}

proof fn lemma_attained_prefix(is: Seq<InstrV>, is2: Seq<InstrV>, sp: u64)
    requires
        vc_attained(is, sp),
        is.is_prefix_of(is2),
    ensures
        vc_attained(is2, sp),
{
    if sp != 0 {
        let w = choose|i: int| 0 <= i < is.len() && instr_write_slot(#[trigger] is[i]) == Some(sp);
        assert(is2[w] == is.take(is.len() as int)[w]);
        assert(instr_write_slot(is2[w]) == Some(sp));
    }
}

#[verifier::spinoff_prover]
#[verifier::rlimit(60)]
proof fn lemma_trans_if_sound(
    v: flat::ValueV,
    e1: flat::ExpV,
    e2: flat::ExpV,
    venv: VEnvV,
    menv: MEnvV,
    st: TransStV,
    instrs: Seq<InstrV>,
)
    requires
        venv.len() >= 1,
        st.stack_pos + fcexp_size(if_fcexp(v, e1, e2)) <= u64::MAX,
        trans_inv(venv, st, instrs),
    ensures
        match trans_cexp_spec(if_fcexp(v, e1, e2), venv, menv, st, instrs) {
            Ok(r) => st.stack_pos <= r.4.stack_pos && instrs.is_prefix_of(r.5) && trans_inv(
                r.2,
                r.4,
                r.5,
            ) && targets_resolved_from(r.5, instrs.len() as int),
            Err(_) => true,
        },
    decreases 4 + fexp_size(e1) + fexp_size(e2), 0nat,
{
    let t_e1 = st.label_num;
    let t_e2 = (st.label_num + 1) as u64;
    let st0 = bump_label(bump_label(st));
    lemma_v2r_sound(v, venv, st0);
    match value2reg_spec(v, venv, st0) {
        Ok((r1, ins, st1)) => {
            lemma_push_keeps(instrs, ins, st.stack_pos);
            lemma_push_keeps(instrs.push(ins), InstrV::Br(r1, t_e1), st.stack_pos);
            let is1 = instrs.push(ins).push(InstrV::Br(r1, t_e1));
            let venv1 = venv.push(Seq::empty());
            lemma_venv_slots_push_empty(venv, st.stack_pos);
            lemma_loops_weaken(st.loop_info, st.stack_pos, st.stack_pos, instrs, is1);
            lemma_trans_exp_sound(e2, venv1, menv, st1, is1);
            lemma_trans_exp_count(e2, venv1, menv, st1, is1);
            match trans_exp_spec(e2, venv1, menv, st1, is1) {
                Ok((r2, venv2, menv2, st2, is2)) => {
                    lemma_push_keeps(is2, InstrV::Mover(r1, r2), st2.stack_pos);
                    lemma_push_keeps(
                        is2.push(InstrV::Mover(r1, r2)),
                        InstrV::Kill(r2),
                        st2.stack_pos,
                    );
                    lemma_push_keeps(
                        is2.push(InstrV::Mover(r1, r2)).push(InstrV::Kill(r2)),
                        InstrV::Gt(t_e2),
                        st2.stack_pos,
                    );
                    lemma_push_keeps(
                        is2.push(InstrV::Mover(r1, r2)).push(InstrV::Kill(r2)).push(
                            InstrV::Gt(t_e2),
                        ),
                        InstrV::Label(t_e1),
                        st2.stack_pos,
                    );
                    let is3 = is2.push(InstrV::Mover(r1, r2)).push(InstrV::Kill(r2)).push(
                        InstrV::Gt(t_e2),
                    ).push(InstrV::Label(t_e1));
                    lemma_prefix_trans(is1, is2, is3);
                    let venv3 = venv2.drop_last().push(Seq::empty());
                    lemma_venv_slots_drop_last(venv2, st2.stack_pos);
                    lemma_venv_slots_push_empty(venv2.drop_last(), st2.stack_pos);
                    lemma_loops_weaken(st2.loop_info, st2.stack_pos, st2.stack_pos, is2, is3);
                    lemma_trans_exp_sound(e1, venv3, menv2, st2, is3);
                    lemma_trans_exp_count(e1, venv3, menv2, st2, is3);
                    match trans_exp_spec(e1, venv3, menv2, st2, is3) {
                        Ok((r3, venv4, menv4, st3, is4)) => {
                            lemma_push_keeps(is4, InstrV::Mover(r1, r3), st3.stack_pos);
                            lemma_push_keeps(
                                is4.push(InstrV::Mover(r1, r3)),
                                InstrV::Kill(r3),
                                st3.stack_pos,
                            );
                            lemma_push_keeps(
                                is4.push(InstrV::Mover(r1, r3)).push(InstrV::Kill(r3)),
                                InstrV::Label(t_e2),
                                st3.stack_pos,
                            );
                            let is5 = is4.push(InstrV::Mover(r1, r3)).push(InstrV::Kill(r3)).push(
                                InstrV::Label(t_e2),
                            );
                            lemma_prefix_trans(is3, is4, is5);
                            lemma_prefix_trans(is2, is3, is5);
                            lemma_prefix_trans(is1, is2, is5);
                            lemma_prefix_trans(instrs, is1, is5);
                            lemma_venv_slots_drop_last(venv4, st3.stack_pos);
                            lemma_loops_weaken(
                                st3.loop_info,
                                st3.stack_pos,
                                st3.stack_pos,
                                is4,
                                is5,
                            );
                            // the two labels stand in the final stream
                            assert(is5[is5.len() - 1] == InstrV::Label(t_e2));
                            assert(has_label(is5, t_e2));
                            assert(is5[is3.len() - 1] == is3.take(is3.len() as int)[is3.len()
                                - 1]);
                            assert(is5[is3.len() - 1] == InstrV::Label(t_e1));
                            assert(has_label(is5, t_e1));
                            // every jump the translation added lands on one
                            assert forall|i: int| instrs.len() <= i < is5.len() implies match
                                #[trigger] instr_target(is5[i]) {
                                Some(l) => has_label(is5, l),
                                None => true,
                            } by {
                                if i < is1.len() {
                                    assert(is5[i] == is1.take(is1.len() as int)[i]);
                                    if i == instrs.len() {
                                        assert(is5[i] == ins);
                                    } else {
                                        assert(is5[i] == InstrV::Br(r1, t_e1));
                                    }
                                } else if i < is2.len() {
                                    assert(is5[i] == is2.take(is2.len() as int)[i]);
                                    assert(instr_target(is2[i]) == instr_target(is5[i]));
                                    match instr_target(is2[i]) {
                                        Some(l) => {
                                            lemma_has_label_prefix(is2, is5, l);
                                        },
                                        None => {},
                                    }
                                } else if i < is3.len() {
                                    assert(is5[i] == is3.take(is3.len() as int)[i]);
                                    if i == is2.len() + 2 {
                                        assert(is5[i] == InstrV::Gt(t_e2));
                                    } else if i == is2.len() {
                                        assert(is5[i] == InstrV::Mover(r1, r2));
                                    } else if i == is2.len() + 1 {
                                        assert(is5[i] == InstrV::Kill(r2));
                                    } else {
                                        assert(is5[i] == InstrV::Label(t_e1));
                                    }
                                } else if i < is4.len() {
                                    assert(is5[i] == is4.take(is4.len() as int)[i]);
                                    assert(instr_target(is4[i]) == instr_target(is5[i]));
                                    match instr_target(is4[i]) {
                                        Some(l) => {
                                            lemma_has_label_prefix(is4, is5, l);
                                        },
                                        None => {},
                                    }
                                } else {
                                    if i == is4.len() {
                                        assert(is5[i] == InstrV::Mover(r1, r3));
                                    } else if i == is4.len() + 1 {
                                        assert(is5[i] == InstrV::Kill(r3));
                                    } else {
                                        assert(is5[i] == InstrV::Label(t_e2));
                                    }
                                }
                            }
                        },
                        Err(_) => {},
                    }
                },
                Err(_) => {},
            }
        },
        Err(_) => {},
    }
}

proof fn lemma_trans_cexp_sound(
    c: flat::CexpV,
    venv: VEnvV,
    menv: MEnvV,
    st: TransStV,
    instrs: Seq<InstrV>,
)
    requires
        venv.len() >= 1,
        st.stack_pos + fcexp_size(c) <= u64::MAX,
        trans_inv(venv, st, instrs),
    ensures
        match trans_cexp_spec(c, venv, menv, st, instrs) {
            Ok(r) => st.stack_pos <= r.4.stack_pos && instrs.is_prefix_of(r.5) && trans_inv(
                r.2,
                r.4,
                r.5,
            ) && targets_resolved_from(r.5, instrs.len() as int),
            Err(_) => true,
        },
    decreases fcexp_size(c), 1nat,
{
    match c {
        flat::CexpV::Val(v) => {
            lemma_v2r_sound(v, venv, st);
            match value2reg_spec(v, venv, st) {
                Ok((r, ins, st1)) => {
                    lemma_push_keeps(instrs, ins, st.stack_pos);
                    lemma_loops_weaken(
                        st.loop_info,
                        st.stack_pos,
                        st.stack_pos,
                        instrs,
                        instrs.push(ins),
                    );
                    assert forall|i: int| instrs.len() <= i < instrs.push(ins).len() implies match
                        #[trigger] instr_target(instrs.push(ins)[i]) {
                        Some(l) => has_label(instrs.push(ins), l),
                        None => true,
                    } by {
                        assert(instrs.push(ins)[i] == ins);
                    }
                },
                Err(_) => {},
            }
        },
        flat::CexpV::Binop(op, v1, v2) => {
            lemma_v2r_sound(v1, venv, st);
            match value2reg_spec(v1, venv, st) {
                Ok((r1, i1, st1)) => {
                    lemma_v2r_sound(v2, venv, st1);
                    match value2reg_spec(v2, venv, st1) {
                        Ok((r2, i2, st2)) => {
                            lemma_push_keeps(instrs, i1, st.stack_pos);
                            lemma_push_keeps(instrs.push(i1), i2, st.stack_pos);
                            lemma_push_keeps(
                                instrs.push(i1).push(i2),
                                InstrV::Binop(op, r1, r2),
                                st.stack_pos,
                            );
                            lemma_push_keeps(
                                instrs.push(i1).push(i2).push(InstrV::Binop(op, r1, r2)),
                                InstrV::Kill(r2),
                                st.stack_pos,
                            );
                            let out = instrs.push(i1).push(i2).push(InstrV::Binop(op, r1, r2)).push(
                                InstrV::Kill(r2),
                            );
                            lemma_prefix_trans(instrs, instrs.push(i1), out);
                            lemma_loops_weaken(
                                st.loop_info,
                                st.stack_pos,
                                st.stack_pos,
                                instrs,
                                out,
                            );
                            assert forall|i: int| instrs.len() <= i < out.len() implies match
                                #[trigger] instr_target(out[i]) {
                                Some(l) => has_label(out, l),
                                None => true,
                            } by {
                                if i == instrs.len() {
                                    assert(out[i] == i1);
                                } else if i == instrs.len() + 1 {
                                    assert(out[i] == i2);
                                } else if i == instrs.len() + 2 {
                                    assert(out[i] == InstrV::Binop(op, r1, r2));
                                } else {
                                    assert(out[i] == InstrV::Kill(r2));
                                }
                            }
                        },
                        Err(_) => {},
                    }
                },
                Err(_) => {},
            }
        },
        flat::CexpV::App(v, vals) => {
            lemma_values2regs_sound(vals, venv, st, instrs);
            match values2regs_spec(vals, venv, st, instrs) {
                Ok((args, st1, is1)) => {
                    lemma_v2r_sound(v, venv, st1);
                    match value2reg_spec(v, venv, st1) {
                        Ok((rc, ins, st2)) => {
                            lemma_push_keeps(is1, ins, st.stack_pos);
                            lemma_push_keeps(
                                is1.push(ins),
                                InstrV::Call(rc, args),
                                st.stack_pos,
                            );
                            lemma_push_kills_keeps(
                                is1.push(ins).push(InstrV::Call(rc, args)),
                                args,
                                0,
                                st.stack_pos,
                            );
                            let out = push_kills(
                                is1.push(ins).push(InstrV::Call(rc, args)),
                                args,
                                0,
                            );
                            lemma_prefix_trans(is1, is1.push(ins), out);
                            lemma_prefix_trans(instrs, is1, out);
                            lemma_loops_weaken(st.loop_info, st.stack_pos, st.stack_pos, instrs, out);
                            assert forall|i: int| instrs.len() <= i < out.len() implies match
                                #[trigger] instr_target(out[i]) {
                                Some(l) => has_label(out, l),
                                None => true,
                            } by {
                                if i < is1.len() {
                                    assert(out[i] == is1.take(is1.len() as int)[i]);
                                    assert(instr_target(is1[i]) == instr_target(out[i]));
                                    match instr_target(is1[i]) {
                                        Some(l) => {
                                            lemma_has_label_prefix(is1, out, l);
                                        },
                                        None => {},
                                    }
                                } else if i < is1.len() + 2 {
                                    let mid = is1.push(ins).push(InstrV::Call(rc, args));
                                    assert(out[i] == mid.take(mid.len() as int)[i]);
                                    if i == is1.len() {
                                        assert(out[i] == ins);
                                    } else {
                                        assert(out[i] == InstrV::Call(rc, args));
                                    }
                                }
                            }
                        },
                        Err(_) => {},
                    }
                },
                Err(_) => {},
            }
        },
        flat::CexpV::If(v, e1, e2) => {
            lemma_trans_if_sound(v, *e1, *e2, venv, menv, st, instrs);
        },
        flat::CexpV::Tuple(vs) => {
            lemma_values2regs_sound(vs, venv, st, instrs);
            match values2regs_spec(vs, venv, st, instrs) {
                Ok((rs, st1, is1)) => {
                    let data = rs.map_values(|r: Reg| Reg { vm: r.vm, rm: r.rm, byte: 8 });
                    let r1 = Reg { vm: st1.reg_num, rm: -1i64, byte: 8 };
                    lemma_push_keeps(is1, InstrV::Malloc(r1, data), st.stack_pos);
                    lemma_push_kills_keeps(
                        is1.push(InstrV::Malloc(r1, data)),
                        data,
                        0,
                        st.stack_pos,
                    );
                    let out = push_kills(is1.push(InstrV::Malloc(r1, data)), data, 0);
                    lemma_prefix_trans(is1, is1.push(InstrV::Malloc(r1, data)), out);
                    lemma_prefix_trans(instrs, is1, out);
                    lemma_loops_weaken(st.loop_info, st.stack_pos, st.stack_pos, instrs, out);
                    assert forall|i: int| instrs.len() <= i < out.len() implies match #[trigger]
                        instr_target(out[i]) {
                        Some(l) => has_label(out, l),
                        None => true,
                    } by {
                        if i < is1.len() {
                            assert(out[i] == is1.take(is1.len() as int)[i]);
                            assert(instr_target(is1[i]) == instr_target(out[i]));
                            match instr_target(is1[i]) {
                                Some(l) => {
                                    lemma_has_label_prefix(is1, out, l);
                                },
                                None => {},
                            }
                        } else if i == is1.len() {
                            let mid = is1.push(InstrV::Malloc(r1, data));
                            assert(out[i] == mid.take(mid.len() as int)[i]);
                            assert(out[i] == InstrV::Malloc(r1, data));
                        }
                    }
                },
                Err(_) => {},
            }
        },
        flat::CexpV::Proj(v, idx) => {
            match proj_site(v, menv, idx) {
                Ok((ofs, byte)) => {
                    lemma_v2r_sound(v, venv, st);
                    match value2reg_spec(v, venv, st) {
                        Ok((r, ins, st1)) => {
                            let rr = Reg { vm: r.vm, rm: r.rm, byte };
                            lemma_push_keeps(instrs, ins, st.stack_pos);
                            lemma_push_keeps(
                                instrs.push(ins),
                                InstrV::Read(rr, (ofs, byte)),
                                st.stack_pos,
                            );
                            let out = instrs.push(ins).push(InstrV::Read(rr, (ofs, byte)));
                            lemma_prefix_trans(instrs, instrs.push(ins), out);
                            lemma_loops_weaken(st.loop_info, st.stack_pos, st.stack_pos, instrs, out);
                            assert forall|i: int| instrs.len() <= i < out.len() implies match
                                #[trigger] instr_target(out[i]) {
                                Some(l) => has_label(out, l),
                                None => true,
                            } by {
                                if i == instrs.len() {
                                    let mid = instrs.push(ins);
                                    assert(out[i] == mid.take(mid.len() as int)[i]);
                                    assert(out[i] == ins);
                                } else {
                                    assert(out[i] == InstrV::Read(rr, (ofs, byte)));
                                }
                            }
                        },
                        Err(_) => {},
                    }
                },
                Err(_) => {},
            }
        },
    }
}

#[verifier::spinoff_prover]
#[verifier::rlimit(60)]
proof fn lemma_trans_let_sound(
    id: Seq<char>,
    c0: flat::CexpV,
    rest: flat::ExpV,
    venv: VEnvV,
    menv: MEnvV,
    st: TransStV,
    instrs: Seq<InstrV>,
)
    requires
        venv.len() >= 1,
        st.stack_pos + fexp_size(let_fexp(id, c0, rest)) <= u64::MAX,
        trans_inv(venv, st, instrs),
    ensures
        match trans_exp_spec(let_fexp(id, c0, rest), venv, menv, st, instrs) {
            Ok(r) => st.stack_pos <= r.3.stack_pos && instrs.is_prefix_of(r.4) && trans_inv(
                r.1,
                r.3,
                r.4,
            ) && targets_resolved_from(r.4, instrs.len() as int),
            Err(_) => true,
        },
    decreases 4 + fcexp_size(c0) + fexp_size(rest), 0nat,
{
    lemma_trans_cexp_sound(c0, venv, menv, st, instrs);
    lemma_trans_cexp_count(c0, venv, menv, st, instrs);
    match trans_cexp_spec(c0, venv, menv, st, instrs) {
        Ok((r1, blo, venv1, menv1, st1, is1)) => {
            let menv2 = menv_after_let(c0, blo, id, menv1);
            let (ofs, st2) = next_stack_spec(r1.byte, st1);
            lemma_slots_weaken(is1, st1.stack_pos, st2.stack_pos);
            lemma_push_keeps_na(is1, InstrV::Store(ofs, r1), st2.stack_pos);
            lemma_push_keeps_na(
                is1.push(InstrV::Store(ofs, r1)),
                InstrV::Kill(r1),
                st2.stack_pos,
            );
            let is2 = is1.push(InstrV::Store(ofs, r1)).push(InstrV::Kill(r1));
            // the new slot is the write that attains the counter
            assert(is2[is1.len() as int] == InstrV::Store(ofs, r1));
            assert(instr_write_slot(is2[is1.len() as int]) == Some(ofs));
            assert(vc_attained(is2, st2.stack_pos));
            lemma_venv_slots_weaken(venv1, st1.stack_pos, st2.stack_pos);
            lemma_venv_slots_add(venv1, id, (ofs, r1.byte), st2.stack_pos);
            let venv2 = venv_add(venv1, id, (ofs, r1.byte));
            lemma_loops_weaken(st1.loop_info, st1.stack_pos, st2.stack_pos, is1, is2);
            lemma_trans_exp_sound(rest, venv2, menv2, st2, is2);
            match trans_exp_spec(rest, venv2, menv2, st2, is2) {
                Ok((rr, venv3, menv3, st3, is3)) => {
                    lemma_prefix_trans(is1, is2, is3);
                    lemma_prefix_trans(instrs, is1, is3);
                    assert forall|i: int| instrs.len() <= i < is3.len() implies match #[trigger]
                        instr_target(is3[i]) {
                        Some(l) => has_label(is3, l),
                        None => true,
                    } by {
                        if i < is1.len() {
                            assert(is3[i] == is1.take(is1.len() as int)[i]);
                            assert(instr_target(is1[i]) == instr_target(is3[i]));
                            match instr_target(is1[i]) {
                                Some(l) => {
                                    lemma_has_label_prefix(is1, is3, l);
                                },
                                None => {},
                            }
                        } else if i < is2.len() {
                            assert(is3[i] == is2.take(is2.len() as int)[i]);
                            if i == is1.len() {
                                assert(is3[i] == InstrV::Store(ofs, r1));
                            } else {
                                assert(is3[i] == InstrV::Kill(r1));
                            }
                        }
                    }
                },
                Err(_) => {},
            }
        },
        Err(_) => {},
    }
}

#[verifier::spinoff_prover]
#[verifier::rlimit(60)]
proof fn lemma_trans_loop_sound(
    id: Seq<char>,
    c0: flat::CexpV,
    rest: flat::ExpV,
    venv: VEnvV,
    menv: MEnvV,
    st: TransStV,
    instrs: Seq<InstrV>,
)
    requires
        venv.len() >= 1,
        st.stack_pos + fexp_size(loop_fexp(id, c0, rest)) <= u64::MAX,
        trans_inv(venv, st, instrs),
    ensures
        match trans_exp_spec(loop_fexp(id, c0, rest), venv, menv, st, instrs) {
            Ok(r) => st.stack_pos <= r.3.stack_pos && instrs.is_prefix_of(r.4) && trans_inv(
                r.1,
                r.3,
                r.4,
            ) && targets_resolved_from(r.4, instrs.len() as int),
            Err(_) => true,
        },
    decreases 6 + fcexp_size(c0) + fexp_size(rest), 0nat,
{
    let loop_l = st.label_num;
    let st0 = bump_label(st);
    let is0 = instrs.push(InstrV::Label(loop_l));
    lemma_push_keeps(instrs, InstrV::Label(loop_l), st.stack_pos);
    lemma_loops_weaken(st.loop_info, st.stack_pos, st.stack_pos, instrs, is0);
    lemma_trans_cexp_sound(c0, venv, menv, st0, is0);
    lemma_trans_cexp_count(c0, venv, menv, st0, is0);
    match trans_cexp_spec(c0, venv, menv, st0, is0) {
        Ok((r1, blo, venv1, menv1, st1, is1)) => {
            let menv2 = menv_after_let(c0, blo, id, menv1);
            let (id_ofs, st2) = next_stack_spec(r1.byte, st1);
            let st3 = TransStV { loop_info: st2.loop_info.push((loop_l, id_ofs)), ..st2 };
            lemma_slots_weaken(is1, st1.stack_pos, st2.stack_pos);
            lemma_push_keeps_na(is1, InstrV::Store(id_ofs, r1), st2.stack_pos);
            lemma_push_keeps_na(
                is1.push(InstrV::Store(id_ofs, r1)),
                InstrV::Kill(r1),
                st2.stack_pos,
            );
            let is2 = is1.push(InstrV::Store(id_ofs, r1)).push(InstrV::Kill(r1));
            assert(is2[is1.len() as int] == InstrV::Store(id_ofs, r1));
            assert(vc_attained(is2, st2.stack_pos));
            lemma_venv_slots_weaken(venv1, st1.stack_pos, st2.stack_pos);
            lemma_venv_slots_add(venv1, id, (id_ofs, r1.byte), st2.stack_pos);
            let venv2 = venv_add(venv1, id, (id_ofs, r1.byte));
            // the pushed loop entry: in range, and its label was emitted first
            lemma_prefix_trans(instrs, is0, is1);
            lemma_prefix_trans(instrs, is1, is2);
            assert(is2[instrs.len() as int] == is0.take(is0.len() as int)[instrs.len() as int]);
            assert(is2[instrs.len() as int] == InstrV::Label(loop_l));
            assert(has_label(is2, loop_l));
            assert forall|k: int| 0 <= k < st3.loop_info.len() implies 1 <= (
            #[trigger] st3.loop_info[k]).1 <= st3.stack_pos && has_label(
                is2,
                st3.loop_info[k].0,
            ) by {
                if k < st1.loop_info.len() {
                    assert(st3.loop_info[k] == st1.loop_info[k]);
                    lemma_has_label_prefix(is1, is2, st1.loop_info[k].0);
                } else {
                    assert(st3.loop_info[k] == (loop_l, id_ofs));
                }
            }
            lemma_trans_exp_sound(rest, venv2, menv2, st3, is2);
            match trans_exp_spec(rest, venv2, menv2, st3, is2) {
                Ok((rr, venv3, menv3, st4, is3)) => {
                    lemma_prefix_trans(instrs, is2, is3);
                    assert forall|i: int| instrs.len() <= i < is3.len() implies match #[trigger]
                        instr_target(is3[i]) {
                        Some(l) => has_label(is3, l),
                        None => true,
                    } by {
                        if i < is1.len() {
                            assert(is3[i] == is1.take(is1.len() as int)[i]);
                            assert(instr_target(is1[i]) == instr_target(is3[i]));
                            match instr_target(is1[i]) {
                                Some(l) => {
                                    lemma_has_label_prefix(is1, is3, l);
                                },
                                None => {},
                            }
                        } else if i < is2.len() {
                            assert(is3[i] == is2.take(is2.len() as int)[i]);
                            if i == is1.len() {
                                assert(is3[i] == InstrV::Store(id_ofs, r1));
                            } else {
                                assert(is3[i] == InstrV::Kill(r1));
                            }
                        }
                    }
                },
                Err(_) => {},
            }
        },
        Err(_) => {},
    }
}

proof fn lemma_trans_exp_sound(
    e: flat::ExpV,
    venv: VEnvV,
    menv: MEnvV,
    st: TransStV,
    instrs: Seq<InstrV>,
)
    requires
        venv.len() >= 1,
        st.stack_pos + fexp_size(e) <= u64::MAX,
        trans_inv(venv, st, instrs),
    ensures
        match trans_exp_spec(e, venv, menv, st, instrs) {
            Ok(r) => st.stack_pos <= r.3.stack_pos && instrs.is_prefix_of(r.4) && trans_inv(
                r.1,
                r.3,
                r.4,
            ) && targets_resolved_from(r.4, instrs.len() as int),
            Err(_) => true,
        },
    decreases fexp_size(e), 1nat,
{
    match e {
        flat::ExpV::Compexp(c) => {
            lemma_trans_cexp_sound(*c, venv, menv, st, instrs);
        },
        flat::ExpV::Let(id, c, rest) => {
            lemma_trans_let_sound(id, *c, *rest, venv, menv, st, instrs);
        },
        flat::ExpV::Loop(id, c, rest) => {
            lemma_trans_loop_sound(id, *c, *rest, venv, menv, st, instrs);
        },
        flat::ExpV::Recur(v) => {
            if st.loop_info.len() > 0 {
                let l = st.loop_info.last().0;
                let ofs = st.loop_info.last().1;
                let st1 = TransStV { loop_info: st.loop_info.drop_last(), ..st };
                lemma_v2r_sound(v, venv, st1);
                match value2reg_spec(v, venv, st1) {
                    Ok((r1, ins, st2)) => {
                        assert(1 <= ofs <= st.stack_pos && has_label(instrs, l));
                        lemma_push_keeps(instrs, ins, st.stack_pos);
                        lemma_push_keeps(instrs.push(ins), InstrV::Store(ofs, r1), st.stack_pos);
                        lemma_push_keeps(
                            instrs.push(ins).push(InstrV::Store(ofs, r1)),
                            InstrV::Gt(l),
                            st.stack_pos,
                        );
                        let out = instrs.push(ins).push(InstrV::Store(ofs, r1)).push(InstrV::Gt(l));
                        lemma_prefix_trans(instrs, instrs.push(ins), out);
                        lemma_has_label_prefix(instrs, out, l);
                        assert forall|k: int| 0 <= k < st2.loop_info.len() implies 1 <= (
                        #[trigger] st2.loop_info[k]).1 <= st2.stack_pos && has_label(
                            out,
                            st2.loop_info[k].0,
                        ) by {
                            assert(st2.loop_info[k] == st.loop_info[k]);
                            lemma_has_label_prefix(instrs, out, st.loop_info[k].0);
                        }
                        assert forall|i: int| instrs.len() <= i < out.len() implies match
                            #[trigger] instr_target(out[i]) {
                            Some(lx) => has_label(out, lx),
                            None => true,
                        } by {
                            if i == instrs.len() {
                                let mid = instrs.push(ins);
                                assert(out[i] == mid.take(mid.len() as int)[i]);
                                assert(out[i] == ins);
                            } else if i == instrs.len() + 1 {
                                let mid = instrs.push(ins).push(InstrV::Store(ofs, r1));
                                assert(out[i] == mid.take(mid.len() as int)[i]);
                                assert(out[i] == InstrV::Store(ofs, r1));
                            } else {
                                assert(out[i] == InstrV::Gt(l));
                            }
                        }
                    },
                    Err(_) => {},
                }
            }
        },
    }
}

proof fn lemma_args_sound(
    formals: Seq<Seq<char>>,
    i: int,
    venv: VEnvV,
    st: TransStV,
    instrs: Seq<InstrV>,
)
    requires
        venv.len() >= 1,
        0 <= i <= formals.len(),
        st.stack_pos + 2 * (formals.len() - i) <= u64::MAX,
        trans_inv(venv, st, instrs),
    ensures
        ({
            let r = args_spec(formals, i, venv, st, instrs);
            st.stack_pos <= r.1.stack_pos && instrs.is_prefix_of(r.2) && trans_inv(r.0, r.1, r.2)
                && forall|k: int|
                instrs.len() <= k < r.2.len() ==> instr_target(#[trigger] r.2[k]) is None
        }),
    decreases formals.len() - i,
{
    if i >= formals.len() {
        assert(instrs.is_prefix_of(instrs));
    } else {
        let ofs = (st.stack_pos + 2) as u64;
        let st1 = TransStV { stack_pos: (st.stack_pos + 2) as u64, ..st };
        let a = InstrV::Argst(ofs, OperandV::Param(i as u64));
        let is1 = instrs.push(a);
        lemma_slots_weaken(instrs, st.stack_pos, st1.stack_pos);
        lemma_push_keeps_na(instrs, a, st1.stack_pos);
        assert(is1[instrs.len() as int] == a);
        assert(vc_attained(is1, st1.stack_pos));
        lemma_venv_slots_weaken(venv, st.stack_pos, st1.stack_pos);
        lemma_venv_slots_add(venv, formals[i], (ofs, 8), st1.stack_pos);
        let venv1 = venv_add(venv, formals[i], (ofs, 8));
        lemma_loops_weaken(st.loop_info, st.stack_pos, st1.stack_pos, instrs, is1);
        lemma_args_sound(formals, i + 1, venv1, st1, is1);
        let r = args_spec(formals, i, venv, st, instrs);
        lemma_prefix_trans(instrs, is1, r.2);
        assert forall|k: int| instrs.len() <= k < r.2.len() implies instr_target(
            #[trigger] r.2[k],
        ) is None by {
            if k == instrs.len() {
                assert(r.2[k] == is1.take(is1.len() as int)[k]);
                assert(r.2[k] == a);
            }
        }
    }
}

proof fn lemma_trans_decl_sound(d: flat::RecdeclV, venv: VEnvV, menv: MEnvV, st: TransStV)
    requires
        venv.len() == 0,
        fdecl_size(d) <= u64::MAX,
    ensures
        match trans_decl_spec(d, venv, menv, st) {
            Ok(r) => slots_bounded(r.0.instrs, r.0.vc) && vc_attained(r.0.instrs, r.0.vc)
                && targets_resolved_from(r.0.instrs, 0) && r.1.len() == 0,
            Err(_) => true,
        },
{
    let st0 = TransStV { stack_pos: 0, haveapp: false, loop_info: Seq::empty(), ..st };
    let venv0 = venv.push(Seq::empty());
    assert(venv_slots_ok(venv0, 0)) by {
        assert forall|i: int, j: int|
            0 <= i < venv0.len() && 0 <= j < venv0[i].len() implies 1 <= (
        #[trigger] venv0[i][j]).1.0 <= 0u64 by {
            assert(venv0[0].len() == 0);
        }
    }
    assert(trans_inv(venv0, st0, Seq::empty()));
    lemma_args_sound(d.formals, 0, venv0, st0, Seq::empty());
    lemma_args_count(d.formals, 0, venv0, st0, Seq::empty());
    let (venv1, st1, is1) = args_spec(d.formals, 0, venv0, st0, Seq::empty());
    lemma_trans_exp_sound(d.body, venv1, menv, st1, is1);
    lemma_trans_exp_count(d.body, venv1, menv, st1, is1);
    match trans_exp_spec(d.body, venv1, menv, st1, is1) {
        Ok((r1, venv2, menv2, st2, is2)) => {
            let ra1 = Reg { vm: st2.reg_num, rm: -1i64, byte: r1.byte };
            lemma_push_keeps_na(is2, InstrV::Ret(ra1, r1), st2.stack_pos);
            lemma_push_keeps_na(is2.push(InstrV::Ret(ra1, r1)), InstrV::Kill(r1), st2.stack_pos);
            let is3 = is2.push(InstrV::Ret(ra1, r1)).push(InstrV::Kill(r1));
            lemma_attained_prefix(is2, is3, st2.stack_pos);
            lemma_prefix_trans(is1, is2, is3);
            assert forall|i: int| 0 <= i < is3.len() implies match #[trigger] instr_target(
                is3[i],
            ) {
                Some(l) => has_label(is3, l),
                None => true,
            } by {
                if i < is1.len() {
                    assert(is3[i] == is1.take(is1.len() as int)[i]);
                    assert(instr_target(is1[i]) is None);
                } else if i < is2.len() {
                    assert(is3[i] == is2.take(is2.len() as int)[i]);
                    assert(instr_target(is2[i]) == instr_target(is3[i]));
                    match instr_target(is2[i]) {
                        Some(l) => {
                            lemma_has_label_prefix(is2, is3, l);
                        },
                        None => {},
                    }
                } else if i == is2.len() {
                    assert(is3[i] == InstrV::Ret(ra1, r1));
                } else {
                    assert(is3[i] == InstrV::Kill(r1));
                }
            }
        },
        Err(_) => {},
    }
}

proof fn lemma_fdecl_in_prog(p: Seq<flat::RecdeclV>, k: int)
    requires
        0 <= k < p.len(),
    ensures
        fdecl_size(p[k]) <= fprog_size(p),
    decreases p.len(),
{
    if k > 0 {
        lemma_fdecl_in_prog(p.skip(1), k - 1);
        assert(p.skip(1)[k - 1] == p[k]);
    }
}

proof fn lemma_trans_pg_sound(p: Seq<flat::RecdeclV>, venv: VEnvV, menv: MEnvV, st: TransStV)
    requires
        venv.len() == 0,
        fprog_size(p) <= u64::MAX,
    ensures
        match trans_pg_spec(p, venv, menv, st) {
            Ok(r) => r.1.len() == 0 && forall|k: int|
                0 <= k < r.0.len() ==> slots_bounded((#[trigger] r.0[k]).instrs, r.0[k].vc)
                    && vc_attained(r.0[k].instrs, r.0[k].vc) && targets_resolved_from(
                    r.0[k].instrs,
                    0,
                ),
            Err(_) => true,
        },
    decreases p.len(),
{
    if p.len() > 0 {
        lemma_fdecl_in_prog(p, 0);
        lemma_trans_decl_sound(p[0], venv, menv, st);
        lemma_trans_decl_count(p[0], venv, menv, st);
        match trans_decl_spec(p[0], venv, menv, st) {
            Ok((d, venv1, menv1, st1)) => {
                lemma_trans_pg_sound(p.skip(1), venv1, menv1, st1);
                match trans_pg_spec(p.skip(1), venv1, menv1, st1) {
                    Ok((ds, venv2, menv2, st2)) => {
                        let whole = seq![d] + ds;
                        assert forall|k: int| 0 <= k < whole.len() implies slots_bounded(
                            (#[trigger] whole[k]).instrs,
                            whole[k].vc,
                        ) && vc_attained(whole[k].instrs, whole[k].vc) && targets_resolved_from(
                            whole[k].instrs,
                            0,
                        ) by {
                            if k == 0 {
                                assert(whole[0] == d);
                            } else {
                                assert(whole[k] == ds[k - 1]);
                            }
                        }
                    },
                    Err(_) => {},
                }
            },
            Err(_) => {},
        }
    }
}

/// Virtualize soundness, the law of this pass: in every declaration of the
/// translated program, every slot that a `Store`, `Load` or `Argst` uses
/// lies in `[1, vc]`; `vc` itself is written by a `Store` or `Argst` unless
/// it is zero — so `vc` equals the greatest slot used, or zero; and every
/// `Br` or `Gt` jumps to a `Label` of the same declaration, the label a
/// `recur` jumps to being the one its loop emitted.
pub proof fn lemma_virtualize_sound(p: Seq<flat::RecdeclV>)
    requires
        fprog_size(p) <= u64::MAX,
    ensures
        match trans_program_spec(p) {
            Ok(ds) => forall|k: int|
                0 <= k < ds.len() ==> slots_bounded((#[trigger] ds[k]).instrs, ds[k].vc)
                    && vc_attained(ds[k].instrs, ds[k].vc) && targets_resolved_from(
                    ds[k].instrs,
                    0,
                ),
            Err(_) => true,
        },
{
    let st = TransStV {
        stack_pos: 0,
        label_num: 0,
        reg_num: 0,
        loop_info: Seq::empty(),
        haveapp: false,
    };
    lemma_trans_pg_sound(p, Seq::empty(), Seq::empty(), st);
}

// ----------------------------------------------------------------------
// Rendering, for inspection of intermediate results.

/// The register's name: its physical index when `physical`, else its virtual
/// number.
fn reg_text(r: &Reg, physical: bool) -> String {
    let mut s = "r".to_owned();
    if physical {
        s.append(i64_dec(r.rm).as_str());
    } else {
        s.append(u64_dec(r.vm).as_str());
    }
    s
}

/// The registers as a parenthesized, comma-separated list.
fn regs_text(rs: &Vec<Reg>, physical: bool) -> String {
    let mut s = "(".to_owned();
    let mut i: usize = 0;
    while i < rs.len()
        invariant
            i <= rs@.len(),
        decreases rs@.len() - i,
    {
        if i > 0 {
            s.append(", ");
        }
        s.append(reg_text(&rs[i], physical).as_str());
        i += 1;
    }
    s.append(")");
    s
}

/// The operand's text.
fn operand_text(op: &Operand) -> String {
    match op {
        Operand::Param(c) => {
            let mut s = "param(".to_owned();
            s.append(u64_dec(*c).as_str());
            s.append(")");
            s
        },
        Operand::Local(c, _) => {
            let mut s = "local(".to_owned();
            s.append(u64_dec(*c).as_str());
            s.append(")");
            s
        },
        Operand::Proc(lb) => {
            let mut s = "labimm ".to_owned();
            s.append(lb.as_str());
            s
        },
        Operand::Intv(c) => {
            let mut s = "imm(".to_owned();
            s.append(i32_dec(*c).as_str());
            s.append(")");
            s
        },
    }
}

/// The control label's name, `.L<n>`.
fn label_text(l: u64) -> String {
    let mut s = ".L".to_owned();
    s.append(u64_dec(l).as_str());
    s
}

/// The instruction's line of text.
fn instr_text(instr: &Instr, physical: bool) -> String {
    match instr {
        Instr::Move(r, op) => {
            let mut s = " ".to_owned();
            s.append(reg_text(r, physical).as_str());
            s.append(" <- ");
            s.append(operand_text(op).as_str());
            s.append("\n");
            s
        },
        Instr::Mover(r1, r2) => {
            let mut s = " ".to_owned();
            s.append(reg_text(r1, physical).as_str());
            s.append(" <- ");
            s.append(reg_text(r2, physical).as_str());
            s.append("\n");
            s
        },
        Instr::Store(ofs, r) => {
            let mut s = " local(".to_owned();
            s.append(u64_dec(*ofs).as_str());
            s.append(") <- ");
            s.append(reg_text(r, physical).as_str());
            s.append("\n");
            s
        },
        Instr::Load(r, ofs) => {
            let mut s = " ".to_owned();
            s.append(reg_text(r, physical).as_str());
            s.append(" <- local(");
            s.append(u64_dec(*ofs).as_str());
            s.append(")\n");
            s
        },
        Instr::Loadf(r, id) => {
            let mut s = " ".to_owned();
            s.append(reg_text(r, physical).as_str());
            s.append(" <- :");
            s.append(id.as_str());
            s.append("\n");
            s
        },
        Instr::Argst(ofs, op) => {
            let mut s = " local(".to_owned();
            s.append(u64_dec(*ofs).as_str());
            s.append(") <- ");
            s.append(operand_text(op).as_str());
            s.append("\n");
            s
        },
        Instr::Binop(btype, r1, r2) => {
            let mut s = " ".to_owned();
            s.append(reg_text(r1, physical).as_str());
            s.append(" <- ");
            s.push((*btype).bintype_signal());
            s.append("(");
            s.append(reg_text(r1, physical).as_str());
            s.append(", ");
            s.append(reg_text(r2, physical).as_str());
            s.append(")\n");
            s
        },
        Instr::Label(lb) => {
            let mut s = label_text(*lb);
            s.append(":\n");
            s
        },
        Instr::Br(r, lb) => {
            let mut s = " if ".to_owned();
            s.append(reg_text(r, physical).as_str());
            s.append(" then goto ");
            s.append(label_text(*lb).as_str());
            s.append("\n");
            s
        },
        Instr::Gt(lb) => {
            let mut s = " goto ".to_owned();
            s.append(label_text(*lb).as_str());
            s.append("\n");
            s
        },
        Instr::Call(r, args) => {
            let mut s = " ".to_owned();
            s.append(reg_text(r, physical).as_str());
            s.append(" ");
            s.append(regs_text(args, physical).as_str());
            s.append("\n");
            s
        },
        Instr::Ret(r1, r2) => {
            let mut s = " ".to_owned();
            s.append(reg_text(r1, physical).as_str());
            s.append(" <- ");
            s.append(reg_text(r2, physical).as_str());
            s.append("\n return(");
            s.append(reg_text(r1, physical).as_str());
            s.append(")\n");
            s
        },
        Instr::Malloc(r, datas) => {
            let mut s = " ".to_owned();
            s.append(reg_text(r, physical).as_str());
            s.append(" <- new ");
            s.append(regs_text(datas, physical).as_str());
            s.append("\n");
            s
        },
        Instr::Read(r, (ofs, byte)) => {
            let mut s = " read ".to_owned();
            s.append(reg_text(r, physical).as_str());
            s.append(" <- #");
            s.append(u64_dec(*ofs).as_str());
            s.append("~");
            s.append(u64_dec(*byte).as_str());
            s.append("( ");
            s.append(reg_text(r, physical).as_str());
            s.append(" )\n");
            s
        },
        Instr::Kill(r) => {
            let mut s = " kill ".to_owned();
            s.append(reg_text(r, physical).as_str());
            s.append("\n");
            s
        },
        Instr::Begin(_) => String::new(),
        Instr::End(_) => String::new(),
        Instr::Dummy => String::new(),
    }
}

impl Decl {
    /// The declaration's instruction listing, for inspection.
    pub fn program_display(&self, physical: bool) -> String {
        let mut s = self.funlb.clone();
        s.append(":\n");
        let mut i: usize = 0;
        while i < self.instrs.len()
            invariant
                i <= self.instrs@.len(),
            decreases self.instrs@.len() - i,
        {
            s.append(instr_text(&self.instrs[i], physical).as_str());
            i += 1;
        }
        s
    }
}

impl Program {
    /// The program's instruction listing — virtual register numbers, or the
    /// allocated physical indices when `physical` — for inspection.
    pub fn program_display(&self, physical: bool) -> String {
        let mut s = String::new();
        let mut i: usize = 0;
        while i < self.decls.len()
            invariant
                i <= self.decls@.len(),
            decreases self.decls@.len() - i,
        {
            s.append(self.decls[i].program_display(physical).as_str());
            i += 1;
        }
        s
    }
}

} // verus!
