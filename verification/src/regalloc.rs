//! Register allocation: a linear, single-pass, `Kill`-driven allocator.
//!
//! A fixed array of `REG_SIZE` slots records which virtual number occupies
//! each physical register. Every register operand is assigned by `set_real`:
//! a virtual number already placed keeps its slot; otherwise the lowest free
//! slot is claimed. `Ret` pins its result register to `A1`. `Argst` for the
//! `i`-th parameter reserves the first `i` slots, which the calling
//! convention occupies on entry. `Kill` frees the slot of its register.
//! Running out of slots is not an error: the register keeps `rm = -1`. The
//! array is threaded across declarations; the pass is pinned to the model
//! `regalloc_spec`.

use vstd::prelude::*;
use crate::vm::{Reg, Instr, InstrV, Decl, DeclV, Program, instr_view, instrs_view, decls_view};

verus! {

/// Number of allocatable physical registers on the target.
pub const REG_SIZE: usize = 10;

/// The physical register that carries a function's result.
pub const A1: i64 = 0;

/// One physical register slot: free, holding a virtual number, or reserved
/// for an incoming parameter.
#[derive(Clone, Copy, Debug, PartialEq, Eq, Structural)]
pub enum Slot {
    Free,
    Busy(u64),
    Reserved,
}

/// The first slot at or after `i` that holds `vm`.
pub open spec fn first_busy(regs: Seq<Slot>, vm: u64, i: int) -> Option<int>
    decreases regs.len() - i,
{
    if i < 0 || i >= regs.len() {
        None
    } else if regs[i] == Slot::Busy(vm) {
        Some(i)
    } else {
        first_busy(regs, vm, i + 1)
    }
}

/// The first free slot at or after `i`.
pub open spec fn first_free(regs: Seq<Slot>, i: int) -> Option<int>
    decreases regs.len() - i,
{
    if i < 0 || i >= regs.len() {
        None
    } else if regs[i] == Slot::Free {
        Some(i)
    } else {
        first_free(regs, i + 1)
    }
}

/// The assignment of one register: reuse the slot already holding its
/// virtual number, else claim the lowest free slot, else leave it
/// unassigned.
pub open spec fn set_real_spec(r: Reg, regs: Seq<Slot>) -> (Reg, Seq<Slot>) {
    match first_busy(regs, r.vm, 0) {
        Some(i) => (Reg { vm: r.vm, rm: i as i64, byte: r.byte }, regs),
        None => match first_free(regs, 0) {
            Some(i) => (
                Reg { vm: r.vm, rm: i as i64, byte: r.byte },
                regs.update(i, Slot::Busy(r.vm)),
            ),
            None => (r, regs),
        },
    }
}

/// Freeing one register: the slot holding its virtual number becomes free
/// and the register learns its index; a number placed nowhere changes
/// nothing.
pub open spec fn kill_spec(r: Reg, regs: Seq<Slot>) -> (Reg, Seq<Slot>) {
    match first_busy(regs, r.vm, 0) {
        Some(i) => (Reg { vm: r.vm, rm: i as i64, byte: r.byte }, regs.update(i, Slot::Free)),
        None => (r, regs),
    }
}

/// Assigns each register of a list, left to right.
pub open spec fn set_real_list_spec(rs: Seq<Reg>, regs: Seq<Slot>) -> (Seq<Reg>, Seq<Slot>)
    decreases rs.len(),
{
    if rs.len() == 0 {
        (Seq::empty(), regs)
    } else {
        let (r0, regs1) = set_real_spec(rs[0], regs);
        let (rest, regs2) = set_real_list_spec(rs.skip(1), regs1);
        (seq![r0] + rest, regs2)
    }
}

/// Marks the first `n` slots reserved.
pub open spec fn reserve_spec(regs: Seq<Slot>, n: int) -> Seq<Slot>
    decreases n,
{
    if n <= 0 {
        regs
    } else {
        reserve_spec(regs, n - 1).update(n - 1, Slot::Reserved)
    }
}

/// The number of slots an `Argst` of parameter `c` reserves: at most the
/// whole array.
pub open spec fn reserve_count(c: u64) -> int {
    if c > (REG_SIZE as u64) {
        REG_SIZE as int
    } else {
        c as int
    }
}

/// The allocation step for one instruction.
pub open spec fn alloc_instr_spec(iv: InstrV, regs: Seq<Slot>) -> (InstrV, Seq<Slot>) {
    match iv {
        InstrV::Mover(r1, r2) => {
            let (s1, regs1) = set_real_spec(r1, regs);
            let (s2, regs2) = set_real_spec(r2, regs1);
            (InstrV::Mover(s1, s2), regs2)
        },
        InstrV::Binop(op, r1, r2) => {
            let (s1, regs1) = set_real_spec(r1, regs);
            let (s2, regs2) = set_real_spec(r2, regs1);
            (InstrV::Binop(op, s1, s2), regs2)
        },
        InstrV::Move(r, op) => {
            let (s, regs1) = set_real_spec(r, regs);
            (InstrV::Move(s, op), regs1)
        },
        InstrV::Store(ofs, r) => {
            let (s, regs1) = set_real_spec(r, regs);
            (InstrV::Store(ofs, s), regs1)
        },
        InstrV::Load(r, ofs) => {
            let (s, regs1) = set_real_spec(r, regs);
            (InstrV::Load(s, ofs), regs1)
        },
        InstrV::Loadf(r, l) => {
            let (s, regs1) = set_real_spec(r, regs);
            (InstrV::Loadf(s, l), regs1)
        },
        InstrV::Br(r, l) => {
            let (s, regs1) = set_real_spec(r, regs);
            (InstrV::Br(s, l), regs1)
        },
        InstrV::Read(r, ob) => {
            let (s, regs1) = set_real_spec(r, regs);
            (InstrV::Read(s, ob), regs1)
        },
        InstrV::Malloc(r, args) => {
            let (s, regs1) = set_real_spec(r, regs);
            let (sargs, regs2) = set_real_list_spec(args, regs1);
            (InstrV::Malloc(s, sargs), regs2)
        },
        InstrV::Call(r, args) => {
            let (s, regs1) = set_real_spec(r, regs);
            let (sargs, regs2) = set_real_list_spec(args, regs1);
            (InstrV::Call(s, sargs), regs2)
        },
        InstrV::Ret(r1, r2) => {
            let s1 = Reg { vm: r1.vm, rm: A1, byte: r1.byte };
            let (s2, regs1) = set_real_spec(r2, regs);
            (InstrV::Ret(s1, s2), regs1)
        },
        InstrV::Argst(ofs, op) => {
            let n = match op {
                crate::vm::OperandV::Param(c) => reserve_count(c),
                _ => REG_SIZE as int,
            };
            (InstrV::Argst(ofs, op), reserve_spec(regs, n))
        },
        InstrV::Kill(r) => {
            let (s, regs1) = kill_spec(r, regs);
            (InstrV::Kill(s), regs1)
        },
        _ => (iv, regs),
    }
}

/// The allocation of an instruction stream, in order.
pub open spec fn alloc_instrs_spec(is: Seq<InstrV>, regs: Seq<Slot>) -> (Seq<InstrV>, Seq<Slot>)
    decreases is.len(),
{
    if is.len() == 0 {
        (Seq::empty(), regs)
    } else {
        let (i0, regs1) = alloc_instr_spec(is[0], regs);
        let (rest, regs2) = alloc_instrs_spec(is.skip(1), regs1);
        (seq![i0] + rest, regs2)
    }
}

/// The allocation of one declaration: only the instructions change.
pub open spec fn alloc_decl_spec(d: DeclV, regs: Seq<Slot>) -> (DeclV, Seq<Slot>) {
    let (is, regs1) = alloc_instrs_spec(d.instrs, regs);
    (DeclV { instrs: is, ..d }, regs1)
}

/// The allocation of the whole program; the slot array is threaded across
/// declarations, not reset.
pub open spec fn alloc_decls_spec(ds: Seq<DeclV>, regs: Seq<Slot>) -> (Seq<DeclV>, Seq<Slot>)
    decreases ds.len(),
{
    if ds.len() == 0 {
        (Seq::empty(), regs)
    } else {
        let (d0, regs1) = alloc_decl_spec(ds[0], regs);
        let (rest, regs2) = alloc_decls_spec(ds.skip(1), regs1);
        (seq![d0] + rest, regs2)
    }
}

/// The model of the pass: allocation over all declarations, starting from
/// an all-free array.
pub open spec fn regalloc_spec(ds: Seq<DeclV>) -> Seq<DeclV> {
    alloc_decls_spec(ds, Seq::new(REG_SIZE as nat, |i: int| Slot::Free)).0
}

impl Reg {
    /// Assigns this register a physical index: the slot already holding its
    /// virtual number, else the lowest free slot; with no slot left, the
    /// register keeps `rm = -1`.
    pub fn set_real(&mut self, regs: &mut Vec<Slot>)
        requires
            old(regs)@.len() == REG_SIZE,
        ensures
            (*final(self), final(regs)@) == set_real_spec(*old(self), old(regs)@),
            final(regs)@.len() == REG_SIZE,
    {
        let mut i: usize = 0;
        while i < REG_SIZE
            invariant
                i <= REG_SIZE,
                regs@.len() == REG_SIZE,
                self == old(self),
                regs@ == old(regs)@,
                first_busy(regs@, self.vm, 0) == first_busy(regs@, self.vm, i as int),
            decreases REG_SIZE - i,
        {
            match regs[i] {
                Slot::Busy(v) => {
                    if v == self.vm {
                        self.rm = i as i64;
                        return ;
                    }
                },
                _ => {},
            }
            i += 1;
        }
        assert(first_busy(regs@, self.vm, 0) is None);
        let mut j: usize = 0;
        while j < REG_SIZE
            invariant
                j <= REG_SIZE,
                regs@.len() == REG_SIZE,
                self == old(self),
                regs@ == old(regs)@,
                first_busy(regs@, self.vm, 0) is None,
                first_free(regs@, 0) == first_free(regs@, j as int),
            decreases REG_SIZE - j,
        {
            match regs[j] {
                Slot::Free => {
                    regs.set(j, Slot::Busy(self.vm));
                    self.rm = j as i64;
                    return ;
                },
                _ => {},
            }
            j += 1;
        }
        assert(first_free(old(regs)@, 0) is None);
    }

    /// Frees the slot holding this register's virtual number and records its
    /// index; a number placed nowhere changes nothing.
    pub fn kill(&mut self, regs: &mut Vec<Slot>)
        requires
            old(regs)@.len() == REG_SIZE,
        ensures
            (*final(self), final(regs)@) == kill_spec(*old(self), old(regs)@),
            final(regs)@.len() == REG_SIZE,
    {
        let mut i: usize = 0;
        while i < REG_SIZE
            invariant
                i <= REG_SIZE,
                regs@.len() == REG_SIZE,
                self == old(self),
                regs@ == old(regs)@,
                first_busy(regs@, self.vm, 0) == first_busy(regs@, self.vm, i as int),
            decreases REG_SIZE - i,
        {
            match regs[i] {
                Slot::Busy(v) => {
                    if v == self.vm {
                        self.rm = i as i64;
                        regs.set(i, Slot::Free);
                        return ;
                    }
                },
                _ => {},
            }
            i += 1;
        }
        assert(first_busy(regs@, self.vm, 0) is None);
    }
}

fn set_real_list(args: Vec<Reg>, regs: &mut Vec<Slot>) -> (r: Vec<Reg>)
    requires
        old(regs)@.len() == REG_SIZE,
    ensures
        (r@, final(regs)@) == set_real_list_spec(args@, old(regs)@),
        final(regs)@.len() == REG_SIZE,
    decreases args@.len(),
{
    let mut args = args;
    if args.len() == 0 {
        let r: Vec<Reg> = Vec::new();
        proof {
            assert(r@ =~= Seq::<Reg>::empty());
        }
        r
    } else {
        let ghost args0 = args@;
        let mut r0 = args.remove(0);
        proof {
            assert(args@ =~= args0.skip(1));
        }
        r0.set_real(regs);
        let mut rest = set_real_list(args, regs);
        let ghost rest0 = rest@;
        rest.insert(0, r0);
        proof {
            assert(rest@ =~= seq![r0] + rest0);
        }
        rest
    }
}

fn reserve(regs: &mut Vec<Slot>, n: usize)
    requires
        old(regs)@.len() == REG_SIZE,
        n <= REG_SIZE,
    ensures
        final(regs)@ == reserve_spec(old(regs)@, n as int),
        final(regs)@.len() == REG_SIZE,
{
    let mut i: usize = 0;
    while i < n
        invariant
            i <= n,
            n <= REG_SIZE,
            regs@.len() == REG_SIZE,
            regs@ == reserve_spec(old(regs)@, i as int),
        decreases n - i,
    {
        regs.set(i, Slot::Reserved);
        proof {
            assert(regs@ =~= reserve_spec(old(regs)@, i as int).update(i as int, Slot::Reserved));
        }
        i += 1;
    }
}

fn alloc_instr(instr: Instr, regs: &mut Vec<Slot>) -> (r: Instr)
    requires
        old(regs)@.len() == REG_SIZE,
    ensures
        (r@, final(regs)@) == alloc_instr_spec(instr@, old(regs)@),
        final(regs)@.len() == REG_SIZE,
{
    match instr {
        Instr::Mover(mut r1, mut r2) => {
            r1.set_real(regs);
            r2.set_real(regs);
            Instr::Mover(r1, r2)
        },
        Instr::Binop(op, mut r1, mut r2) => {
            r1.set_real(regs);
            r2.set_real(regs);
            Instr::Binop(op, r1, r2)
        },
        Instr::Move(mut r, op) => {
            r.set_real(regs);
            Instr::Move(r, op)
        },
        Instr::Store(ofs, mut r) => {
            r.set_real(regs);
            Instr::Store(ofs, r)
        },
        Instr::Load(mut r, ofs) => {
            r.set_real(regs);
            Instr::Load(r, ofs)
        },
        Instr::Loadf(mut r, l) => {
            r.set_real(regs);
            Instr::Loadf(r, l)
        },
        Instr::Br(mut r, l) => {
            r.set_real(regs);
            Instr::Br(r, l)
        },
        Instr::Read(mut r, ob) => {
            r.set_real(regs);
            Instr::Read(r, ob)
        },
        Instr::Malloc(mut r, args) => {
            r.set_real(regs);
            let sargs = set_real_list(args, regs);
            Instr::Malloc(r, sargs)
        },
        Instr::Call(mut r, args) => {
            r.set_real(regs);
            let sargs = set_real_list(args, regs);
            Instr::Call(r, sargs)
        },
        Instr::Ret(mut r1, mut r2) => {
            r1.rm = A1;
            r2.set_real(regs);
            Instr::Ret(r1, r2)
        },
        Instr::Argst(ofs, op) => {
            let n: usize = match &op {
                crate::vm::Operand::Param(c) => {
                    if *c > (REG_SIZE as u64) {
                        REG_SIZE
                    } else {
                        *c as usize
                    }
                },
                _ => REG_SIZE,
            };
            reserve(regs, n);
            Instr::Argst(ofs, op)
        },
        Instr::Kill(mut r) => {
            r.kill(regs);
            Instr::Kill(r)
        },
        other => other,
    }
}

fn alloc_instrs(instrs: Vec<Instr>, regs: &mut Vec<Slot>) -> (r: Vec<Instr>)
    requires
        old(regs)@.len() == REG_SIZE,
    ensures
        (instrs_view(r@), final(regs)@) == alloc_instrs_spec(instrs_view(instrs@), old(regs)@),
        final(regs)@.len() == REG_SIZE,
    decreases instrs@.len(),
{
    let mut instrs = instrs;
    if instrs.len() == 0 {
        let r: Vec<Instr> = Vec::new();
        proof {
            assert(instrs_view(instrs@) =~= Seq::<InstrV>::empty());
            assert(instrs_view(r@) =~= Seq::<InstrV>::empty());
        }
        r
    } else {
        let ghost is0 = instrs_view(instrs@);
        let i0 = instrs.remove(0);
        proof {
            assert(is0[0] == i0@);
            assert(instrs_view(instrs@) =~= is0.skip(1));
        }
        let s0 = alloc_instr(i0, regs);
        let ghost s0v = s0@;
        let mut rest = alloc_instrs(instrs, regs);
        let ghost rest0 = instrs_view(rest@);
        rest.insert(0, s0);
        proof {
            assert(instrs_view(rest@) =~= seq![s0v] + rest0);
        }
        rest
    }
}

fn alloc_decls(decls: Vec<Decl>, regs: &mut Vec<Slot>) -> (r: Vec<Decl>)
    requires
        old(regs)@.len() == REG_SIZE,
    ensures
        (decls_view(r@), final(regs)@) == alloc_decls_spec(decls_view(decls@), old(regs)@),
        final(regs)@.len() == REG_SIZE,
    decreases decls@.len(),
{
    let mut decls = decls;
    if decls.len() == 0 {
        let r: Vec<Decl> = Vec::new();
        proof {
            assert(decls_view(decls@) =~= Seq::<DeclV>::empty());
            assert(decls_view(r@) =~= Seq::<DeclV>::empty());
        }
        r
    } else {
        let ghost ds0 = decls_view(decls@);
        let d0 = decls.remove(0);
        proof {
            assert(ds0[0] == d0@);
            assert(decls_view(decls@) =~= ds0.skip(1));
        }
        let Decl { funlb, vc, instrs, haveapp } = d0;
        let sinstrs = alloc_instrs(instrs, regs);
        let sd = Decl { funlb, vc, instrs: sinstrs, haveapp };
        let ghost sdv = sd@;
        let mut rest = alloc_decls(decls, regs);
        let ghost rest0 = decls_view(rest@);
        rest.insert(0, sd);
        proof {
            assert(decls_view(rest@) =~= seq![sdv] + rest0);
        }
        rest
    }
}

/// Register allocation: fills each register's `rm` with a physical index in
/// `[0, REG_SIZE)`, as the model `regalloc_spec` says; only `rm` fields
/// change.
pub fn regalloc(pg: &mut Program)
    ensures
        final(pg)@ == regalloc_spec(old(pg)@),
{
    let mut regs: Vec<Slot> = Vec::new();
    let mut k: usize = 0;
    while k < REG_SIZE
        invariant
            k <= REG_SIZE,
            regs@ =~= Seq::new(k as nat, |i: int| Slot::Free),
        decreases REG_SIZE - k,
    {
        regs.push(Slot::Free);
        proof {
            assert(regs@ =~= Seq::new((k + 1) as nat, |i: int| Slot::Free));
        }
        k += 1;
    }
    let mut decls: Vec<Decl> = Vec::new();
    core::mem::swap(&mut decls, &mut pg.decls);
    let ghost ds0 = decls_view(decls@);
    let out = alloc_decls(decls, &mut regs);
    pg.decls = out;
}

// ----------------------------------------------------------------------
// The allocation map stays injective: no virtual number occupies two
// slots. With `set_real` reusing an occupied slot and claiming only free
// ones, two simultaneously live virtual registers never share a physical
// register; reuse happens only after a `Kill` has freed the slot.

/// No two slots hold the same virtual number.
pub open spec fn regs_distinct(regs: Seq<Slot>) -> bool {
    forall|i: int, j: int|
        0 <= i < regs.len() && 0 <= j < regs.len() && i != j && (#[trigger] regs[i]) is Busy
            ==> #[trigger] regs[j] != regs[i]
}

proof fn lemma_first_busy_none(regs: Seq<Slot>, vm: u64, i: int)
    requires
        0 <= i,
        first_busy(regs, vm, i) is None,
    ensures
        forall|k: int| i <= k < regs.len() ==> #[trigger] regs[k] != Slot::Busy(vm),
    decreases regs.len() - i,
{
    if 0 <= i < regs.len() {
        lemma_first_busy_none(regs, vm, i + 1);
    }
}

proof fn lemma_first_free_range(regs: Seq<Slot>, i: int)
    requires
        first_free(regs, i) is Some,
    ensures
        i <= first_free(regs, i)->0 < regs.len(),
        regs[first_free(regs, i)->0] == Slot::Free,
    decreases regs.len() - i,
{
    if 0 <= i < regs.len() && regs[i] != Slot::Free {
        lemma_first_free_range(regs, i + 1);
    }
}

proof fn lemma_first_busy_range(regs: Seq<Slot>, vm: u64, i: int)
    requires
        first_busy(regs, vm, i) is Some,
    ensures
        i <= first_busy(regs, vm, i)->0 < regs.len(),
        regs[first_busy(regs, vm, i)->0] == Slot::Busy(vm),
    decreases regs.len() - i,
{
    if 0 <= i < regs.len() && regs[i] != Slot::Busy(vm) {
        lemma_first_busy_range(regs, vm, i + 1);
    }
}

proof fn lemma_set_real_distinct(r: Reg, regs: Seq<Slot>)
    requires
        regs_distinct(regs),
    ensures
        regs_distinct(set_real_spec(r, regs).1),
        set_real_spec(r, regs).1.len() == regs.len(),
{
    if first_busy(regs, r.vm, 0) is None && first_free(regs, 0) is Some {
        lemma_first_free_range(regs, 0);
    }
    match first_busy(regs, r.vm, 0) {
        Some(_) => {},
        None => {
            match first_free(regs, 0) {
                Some(i) => {
                    lemma_first_busy_none(regs, r.vm, 0);
                    lemma_first_free_range(regs, 0);
                    let regs2 = regs.update(i, Slot::Busy(r.vm));
                    assert forall|a: int, b: int|
                        0 <= a < regs2.len() && 0 <= b < regs2.len() && a != b && (
                        #[trigger] regs2[a]) is Busy implies #[trigger] regs2[b] != regs2[a] by {
                        if a != i && b != i {
                            assert(regs2[a] == regs[a]);
                            assert(regs2[b] == regs[b]);
                        } else if a == i {
                            assert(regs2[b] == regs[b]);
                        } else {
                            assert(regs2[a] == regs[a]);
                        }
                    }
                },
                None => {},
            }
        },
    }
}

proof fn lemma_kill_distinct(r: Reg, regs: Seq<Slot>)
    requires
        regs_distinct(regs),
    ensures
        regs_distinct(kill_spec(r, regs).1),
        kill_spec(r, regs).1.len() == regs.len(),
{
    if first_busy(regs, r.vm, 0) is Some {
        lemma_first_busy_range(regs, r.vm, 0);
    }
    match first_busy(regs, r.vm, 0) {
        Some(i) => {
            lemma_first_busy_range(regs, r.vm, 0);
            let regs2 = regs.update(i, Slot::Free);
            assert forall|a: int, b: int|
                0 <= a < regs2.len() && 0 <= b < regs2.len() && a != b && (
                #[trigger] regs2[a]) is Busy implies #[trigger] regs2[b] != regs2[a] by {
                if a != i && b != i {
                    assert(regs2[a] == regs[a]);
                    assert(regs2[b] == regs[b]);
                } else if b == i {
                    assert(regs2[a] == regs[a]);
                }
            }
        },
        None => {},
    }
}

proof fn lemma_set_real_list_distinct(rs: Seq<Reg>, regs: Seq<Slot>)
    requires
        regs_distinct(regs),
    ensures
        regs_distinct(set_real_list_spec(rs, regs).1),
        set_real_list_spec(rs, regs).1.len() == regs.len(),
    decreases rs.len(),
{
    if rs.len() > 0 {
        lemma_set_real_distinct(rs[0], regs);
        lemma_set_real_list_distinct(rs.skip(1), set_real_spec(rs[0], regs).1);
    }
}

proof fn lemma_reserve_distinct(regs: Seq<Slot>, n: int)
    requires
        regs_distinct(regs),
        n <= regs.len(),
    ensures
        regs_distinct(reserve_spec(regs, n)),
        reserve_spec(regs, n).len() == regs.len(),
    decreases n,
{
    if n > 0 {
        lemma_reserve_distinct(regs, n - 1);
        let prev = reserve_spec(regs, n - 1);
        let regs2 = prev.update(n - 1, Slot::Reserved);
        if n - 1 < prev.len() {
            assert forall|a: int, b: int|
                0 <= a < regs2.len() && 0 <= b < regs2.len() && a != b && (
                #[trigger] regs2[a]) is Busy implies #[trigger] regs2[b] != regs2[a] by {
                if a != n - 1 && b != n - 1 {
                    assert(regs2[a] == prev[a]);
                    assert(regs2[b] == prev[b]);
                } else if b == n - 1 {
                    assert(regs2[a] == prev[a]);
                }
            }
        }
    }
}

proof fn lemma_alloc_instr_distinct(iv: InstrV, regs: Seq<Slot>)
    requires
        regs_distinct(regs),
        regs.len() == REG_SIZE,
    ensures
        regs_distinct(alloc_instr_spec(iv, regs).1),
        alloc_instr_spec(iv, regs).1.len() == REG_SIZE,
{
    match iv {
        InstrV::Mover(r1, r2) => {
            lemma_set_real_distinct(r1, regs);
            lemma_set_real_distinct(r2, set_real_spec(r1, regs).1);
        },
        InstrV::Binop(_, r1, r2) => {
            lemma_set_real_distinct(r1, regs);
            lemma_set_real_distinct(r2, set_real_spec(r1, regs).1);
        },
        InstrV::Move(r, _) => {
            lemma_set_real_distinct(r, regs);
        },
        InstrV::Store(_, r) => {
            lemma_set_real_distinct(r, regs);
        },
        InstrV::Load(r, _) => {
            lemma_set_real_distinct(r, regs);
        },
        InstrV::Loadf(r, _) => {
            lemma_set_real_distinct(r, regs);
        },
        InstrV::Br(r, _) => {
            lemma_set_real_distinct(r, regs);
        },
        InstrV::Read(r, _) => {
            lemma_set_real_distinct(r, regs);
        },
        InstrV::Malloc(r, args) => {
            lemma_set_real_distinct(r, regs);
            lemma_set_real_list_distinct(args, set_real_spec(r, regs).1);
        },
        InstrV::Call(r, args) => {
            lemma_set_real_distinct(r, regs);
            lemma_set_real_list_distinct(args, set_real_spec(r, regs).1);
        },
        InstrV::Ret(_, r2) => {
            lemma_set_real_distinct(r2, regs);
        },
        InstrV::Argst(_, op) => {
            let n = match op {
                crate::vm::OperandV::Param(c) => reserve_count(c),
                _ => REG_SIZE as int,
            };
            lemma_reserve_distinct(regs, n);
        },
        InstrV::Kill(r) => {
            lemma_kill_distinct(r, regs);
        },
        _ => {},
    }
}

proof fn lemma_alloc_instrs_distinct(is: Seq<InstrV>, regs: Seq<Slot>)
    requires
        regs_distinct(regs),
        regs.len() == REG_SIZE,
    ensures
        regs_distinct(alloc_instrs_spec(is, regs).1),
        alloc_instrs_spec(is, regs).1.len() == REG_SIZE,
    decreases is.len(),
{
    if is.len() > 0 {
        lemma_alloc_instr_distinct(is[0], regs);
        lemma_alloc_instrs_distinct(is.skip(1), alloc_instr_spec(is[0], regs).1);
    }
}

proof fn lemma_alloc_decls_distinct(ds: Seq<DeclV>, regs: Seq<Slot>)
    requires
        regs_distinct(regs),
        regs.len() == REG_SIZE,
    ensures
        regs_distinct(alloc_decls_spec(ds, regs).1),
        alloc_decls_spec(ds, regs).1.len() == REG_SIZE,
    decreases ds.len(),
{
    if ds.len() > 0 {
        lemma_alloc_instrs_distinct(ds[0].instrs, regs);
        lemma_alloc_decls_distinct(ds.skip(1), alloc_decl_spec(ds[0], regs).1);
    }
}

/// The injectivity of the allocation, preserved across the whole program:
/// starting from the all-free array, after any number of allocation steps
/// no virtual number occupies two physical slots. Reuse of a slot for
/// another virtual number passes through `Free` — that is, through the
/// `Kill` of its previous holder — or never happens, a reserved slot
/// staying reserved.
pub proof fn lemma_regalloc_distinct(ds: Seq<DeclV>)
    ensures
        regs_distinct(alloc_decls_spec(ds, Seq::new(REG_SIZE as nat, |i: int| Slot::Free)).1),
{
    let init = Seq::new(REG_SIZE as nat, |i: int| Slot::Free);
    assert(regs_distinct(init));
    lemma_alloc_decls_distinct(ds, init);
}

// ----------------------------------------------------------------------
// Allocation consistency: one physical register never carries two virtual
// registers at once. `Ret`'s first operand is bookkeeping for the emitter
// (it is pinned to `A1` outside the allocator's map) and is not a mention.

/// The registers an instruction mentions.
pub open spec fn ment(iv: InstrV) -> Seq<Reg> {
    match iv {
        InstrV::Move(r, _) => seq![r],
        InstrV::Mover(r1, r2) => seq![r1, r2],
        InstrV::Store(_, r) => seq![r],
        InstrV::Load(r, _) => seq![r],
        InstrV::Loadf(r, _) => seq![r],
        InstrV::Br(r, _) => seq![r],
        InstrV::Read(r, _) => seq![r],
        InstrV::Binop(_, r1, r2) => seq![r1, r2],
        InstrV::Call(r, args) => seq![r] + args,
        InstrV::Malloc(r, args) => seq![r] + args,
        InstrV::Ret(_, r2) => seq![r2],
        InstrV::Kill(r) => seq![r],
        _ => Seq::empty(),
    }
}

/// Whether the instruction is the `Kill` of the virtual number.
pub open spec fn is_kill_of(iv: InstrV, vm: u64) -> bool {
    match iv {
        InstrV::Kill(r) => r.vm == vm,
        _ => false,
    }
}

/// A `Kill` of the virtual number stands at an index of `[lo, hi]`.
pub open spec fn killed_in(is: Seq<InstrV>, lo: int, hi: int, vm: u64) -> bool {
    exists|k: int| lo <= k <= hi && k < is.len() && is_kill_of(#[trigger] is[k], vm)
}

/// The registers of an instruction, as virtualization emits them: not yet
/// allocated.
pub open spec fn rm_unset(iv: InstrV) -> bool {
    forall|m: int| 0 <= m < ment(iv).len() ==> (#[trigger] ment(iv)[m]).rm == -1
}

/// The consistency of an allocated stream: when two mentions share an
/// assigned physical register, they belong to one virtual register, or a
/// `Kill` of the earlier one stands between them (the earlier mention
/// itself may be that `Kill`).
pub open spec fn alloc_consistent(is: Seq<InstrV>) -> bool {
    forall|i: int, j: int, mi: int, mj: int|
        0 <= i <= j < is.len() && 0 <= mi < ment(is[i]).len() && 0 <= mj < ment(is[j]).len() && (
        #[trigger] ment(is[i])[mi]).rm == (#[trigger] ment(is[j])[mj]).rm && ment(is[i])[mi].rm
            >= 0 && ment(is[i])[mi].vm != ment(is[j])[mj].vm ==> killed_in(
            is,
            i,
            j,
            ment(is[i])[mi].vm,
        )
}

/// What the allocated prefix promises of the array: the slot of every
/// assigned mention still holds its virtual number, or was reserved for a
/// parameter, or a `Kill` of that number has appeared since.
pub open spec fn live_ok(done: Seq<InstrV>, regs: Seq<Slot>) -> bool {
    forall|i: int, m: int|
        0 <= i < done.len() && 0 <= m < ment(done[i]).len() && (#[trigger] ment(
            done[i],
        )[m]).rm >= 0 ==> 0 <= ment(done[i])[m].rm < regs.len() && (regs[ment(done[i])[m].rm as int]
            == Slot::Busy(ment(done[i])[m].vm) || regs[ment(done[i])[m].rm as int]
            == Slot::Reserved || killed_in(done, i, done.len() - 1, ment(done[i])[m].vm))
}

/// The array changes only by a free slot being claimed.
pub open spec fn evolves_by_claims(regs: Seq<Slot>, regs2: Seq<Slot>) -> bool {
    regs2.len() == regs.len() && forall|s: int|
        #![trigger regs[s]]
        #![trigger regs2[s]]
        0 <= s < regs.len() ==> regs2[s] == regs[s] || (regs[s] == Slot::Free
            && regs2[s] is Busy)
}

proof fn lemma_set_real_props(r: Reg, regs: Seq<Slot>)
    requires
        regs_distinct(regs),
        regs.len() == REG_SIZE,
        r.rm == -1,
    ensures
        ({
            let (r2, regs2) = set_real_spec(r, regs);
            r2.vm == r.vm && regs_distinct(regs2) && evolves_by_claims(regs, regs2) && (r2.rm >= 0
                ==> 0 <= r2.rm < regs.len() && (regs[r2.rm as int] == Slot::Busy(r.vm)
                || regs[r2.rm as int] == Slot::Free) && regs2[r2.rm as int] == Slot::Busy(r.vm)) && (
            r2.rm < 0 ==> regs2 == regs)
        }),
{
    lemma_set_real_distinct(r, regs);
    match first_busy(regs, r.vm, 0) {
        Some(i) => {
            lemma_first_busy_range(regs, r.vm, 0);
            assert(evolves_by_claims(regs, regs));
        },
        None => {
            match first_free(regs, 0) {
                Some(i) => {
                    lemma_first_free_range(regs, 0);
                    let regs2 = regs.update(i, Slot::Busy(r.vm));
                    assert forall|s: int| 0 <= s < regs.len() implies #[trigger] regs2[s]
                        == regs[s] || (regs[s] == Slot::Free && regs2[s] is Busy) by {
                        if s != i {
                            assert(regs2[s] == regs[s]);
                        }
                    }
                },
                None => {
                    assert(evolves_by_claims(regs, regs));
                },
            }
        },
    }
}

proof fn lemma_kill_props(r: Reg, regs: Seq<Slot>)
    requires
        regs_distinct(regs),
        regs.len() == REG_SIZE,
        r.rm == -1,
    ensures
        ({
            let (r2, regs2) = kill_spec(r, regs);
            r2.vm == r.vm && regs_distinct(regs2) && regs2.len() == regs.len() && (r2.rm >= 0 ==> 0
                <= r2.rm < regs.len() && regs[r2.rm as int] == Slot::Busy(r.vm)) && (r2.rm < 0
                ==> regs2 == regs) && (forall|s: int|
                0 <= s < regs.len() && (#[trigger] regs[s]) != Slot::Busy(r.vm) ==> regs2[s]
                    == regs[s]) && (forall|s: int|
                0 <= s < regs.len() && (#[trigger] regs[s]) == Slot::Busy(r.vm) ==> regs2[s]
                    == Slot::Free)
        }),
{
    lemma_kill_distinct(r, regs);
    match first_busy(regs, r.vm, 0) {
        Some(i) => {
            lemma_first_busy_range(regs, r.vm, 0);
            let regs2 = regs.update(i, Slot::Free);
            assert forall|s: int|
                0 <= s < regs.len() && (#[trigger] regs[s]) != Slot::Busy(r.vm) implies regs2[s]
                == regs[s] by {
                assert(s != i);
            }
            assert forall|s: int|
                0 <= s < regs.len() && (#[trigger] regs[s]) == Slot::Busy(r.vm) implies regs2[s]
                == Slot::Free by {
                assert(s == i);
            }
        },
        None => {
            assert forall|s: int|
                0 <= s < regs.len() && (#[trigger] regs[s]) == Slot::Busy(r.vm) implies kill_spec(
                r,
                regs,
            ).1[s] == Slot::Free by {
                lemma_first_busy_none(regs, r.vm, 0);
            }
        },
    }
}

proof fn lemma_reserve_content(regs: Seq<Slot>, n: int)
    requires
        n <= regs.len(),
    ensures
        reserve_spec(regs, n).len() == regs.len(),
        forall|s: int| 0 <= s < n ==> #[trigger] reserve_spec(regs, n)[s] == Slot::Reserved,
        forall|s: int| n <= s < regs.len() ==> #[trigger] reserve_spec(regs, n)[s] == regs[s],
    decreases n,
{
    if n > 0 {
        lemma_reserve_content(regs, n - 1);
    }
}

proof fn lemma_set_real_list_props(rs: Seq<Reg>, regs: Seq<Slot>)
    requires
        regs_distinct(regs),
        regs.len() == REG_SIZE,
        forall|m: int| 0 <= m < rs.len() ==> (#[trigger] rs[m]).rm == -1,
    ensures
        ({
            let (out, regs2) = set_real_list_spec(rs, regs);
            out.len() == rs.len() && regs_distinct(regs2) && evolves_by_claims(regs, regs2)
                && forall|m: int|
                0 <= m < out.len() ==> (#[trigger] out[m]).vm == rs[m].vm && (out[m].rm >= 0 ==> 0
                    <= out[m].rm < regs.len() && (regs[out[m].rm as int] == Slot::Busy(out[m].vm)
                    || regs[out[m].rm as int] == Slot::Free) && regs2[out[m].rm as int]
                    == Slot::Busy(out[m].vm))
        }),
    decreases rs.len(),
{
    if rs.len() == 0 {
        assert(evolves_by_claims(regs, regs));
    } else {
        lemma_set_real_props(rs[0], regs);
        let (r0, regs1) = set_real_spec(rs[0], regs);
        lemma_set_real_list_props(rs.skip(1), regs1);
        let (rest, regs2) = set_real_list_spec(rs.skip(1), regs1);
        let out = seq![r0] + rest;
        assert forall|s: int| 0 <= s < regs.len() implies #[trigger] regs2[s] == regs[s] || (
        regs[s] == Slot::Free && regs2[s] is Busy) by {
            assert(regs1[s] == regs[s] || (regs[s] == Slot::Free && regs1[s] is Busy));
            assert(regs2[s] == regs1[s] || (regs1[s] == Slot::Free && regs2[s] is Busy));
        }
        assert forall|m: int| 0 <= m < out.len() implies (#[trigger] out[m]).vm == rs[m].vm && (
        out[m].rm >= 0 ==> 0 <= out[m].rm < regs.len() && (regs[out[m].rm as int] == Slot::Busy(
            out[m].vm,
        ) || regs[out[m].rm as int] == Slot::Free) && regs2[out[m].rm as int] == Slot::Busy(
            out[m].vm,
        )) by {
            if m == 0 {
                assert(out[0] == r0);
                if r0.rm >= 0 {
                    let s = r0.rm as int;
                    // later claims do not change an occupied slot
                    assert(regs2[s] == regs1[s] || (regs1[s] == Slot::Free && regs2[s] is Busy));
                }
            } else {
                assert(out[m] == rest[m - 1]);
                assert(rs.skip(1)[m - 1] == rs[m]);
                if rest[m - 1].rm >= 0 {
                    let s = rest[m - 1].rm as int;
                    assert(regs1[s] == regs[s] || (regs[s] == Slot::Free && regs1[s] is Busy));
                }
            }
        }
    }
}

/// What one allocation step guarantees: the array stays injective; an
/// occupied slot stays, is reserved, or is freed by this very `Kill`; each
/// mention's slot held its number or was free before, and holds its number
/// after unless this instruction is its `Kill`.
spec fn step_ok(iv: InstrV, regs: Seq<Slot>, out: InstrV, regs2: Seq<Slot>) -> bool {
    &&& regs_distinct(regs2)
    &&& regs2.len() == regs.len()
    &&& (forall|s: int|
        0 <= s < regs.len() && (#[trigger] regs[s]) is Busy ==> regs2[s] == regs[s] || regs2[s]
            == Slot::Reserved || (regs2[s] == Slot::Free && is_kill_of(out, regs[s]->Busy_0)))
    &&& (forall|s: int|
        0 <= s < regs.len() && (#[trigger] regs[s]) == Slot::Reserved ==> regs2[s]
            == Slot::Reserved)
    &&& (forall|m: int|
        0 <= m < ment(out).len() && (#[trigger] ment(out)[m]).rm >= 0 ==> 0 <= ment(out)[m].rm
            < regs.len() && (regs[ment(out)[m].rm as int] == Slot::Busy(ment(out)[m].vm)
            || regs[ment(out)[m].rm as int] == Slot::Free) && (regs2[ment(out)[m].rm as int]
            == Slot::Busy(ment(out)[m].vm) || is_kill_of(out, ment(out)[m].vm)))
}

#[verifier::spinoff_prover]
#[verifier::rlimit(100)]
proof fn lemma_alloc_instr_step(iv: InstrV, regs: Seq<Slot>)
    requires
        regs_distinct(regs),
        regs.len() == REG_SIZE,
        rm_unset(iv),
    ensures
        step_ok(iv, regs, alloc_instr_spec(iv, regs).0, alloc_instr_spec(iv, regs).1),
{
    let (out, regs2) = alloc_instr_spec(iv, regs);
    match iv {
        InstrV::Move(r, _) => {
            assert(ment(iv)[0] == r);
            lemma_set_real_props(r, regs);
        },
        InstrV::Store(_, r) => {
            assert(ment(iv)[0] == r);
            lemma_set_real_props(r, regs);
        },
        InstrV::Load(r, _) => {
            assert(ment(iv)[0] == r);
            lemma_set_real_props(r, regs);
        },
        InstrV::Loadf(r, _) => {
            assert(ment(iv)[0] == r);
            lemma_set_real_props(r, regs);
        },
        InstrV::Br(r, _) => {
            assert(ment(iv)[0] == r);
            lemma_set_real_props(r, regs);
        },
        InstrV::Read(r, _) => {
            assert(ment(iv)[0] == r);
            lemma_set_real_props(r, regs);
        },
        InstrV::Ret(_, r2) => {
            assert(ment(iv)[0] == r2);
            lemma_set_real_props(r2, regs);
        },
        InstrV::Mover(r1, r2) => {
            assert(ment(iv)[0] == r1);
            assert(ment(iv)[1] == r2);
            lemma_set_real_props(r1, regs);
            let (s1, regs1) = set_real_spec(r1, regs);
            lemma_set_real_props(r2, regs1);
        },
        InstrV::Binop(_, r1, r2) => {
            assert(ment(iv)[0] == r1);
            assert(ment(iv)[1] == r2);
            lemma_set_real_props(r1, regs);
            let (s1, regs1) = set_real_spec(r1, regs);
            lemma_set_real_props(r2, regs1);
        },
        InstrV::Call(r, args) => {
            assert(ment(iv)[0] == r);
            assert(forall|m: int| 0 <= m < args.len() ==> ment(iv)[m + 1] == #[trigger] args[m]);
            lemma_set_real_props(r, regs);
            let (s1, regs1) = set_real_spec(r, regs);
            lemma_set_real_list_props(args, regs1);
        },
        InstrV::Malloc(r, args) => {
            assert(ment(iv)[0] == r);
            assert(forall|m: int| 0 <= m < args.len() ==> ment(iv)[m + 1] == #[trigger] args[m]);
            lemma_set_real_props(r, regs);
            let (s1, regs1) = set_real_spec(r, regs);
            lemma_set_real_list_props(args, regs1);
        },
        InstrV::Kill(r) => {
            assert(ment(iv)[0] == r);
            lemma_kill_props(r, regs);
        },
        InstrV::Argst(_, op) => {
            let n = match op {
                crate::vm::OperandV::Param(c) => reserve_count(c),
                _ => REG_SIZE as int,
            };
            lemma_reserve_distinct(regs, n);
            lemma_reserve_content(regs, n);
        },
        _ => {},
    }
}

#[verifier::spinoff_prover]
#[verifier::rlimit(60)]
proof fn lemma_alloc_step_consistent(done: Seq<InstrV>, regs: Seq<Slot>, iv: InstrV)
    requires
        live_ok(done, regs),
        alloc_consistent(done),
        regs_distinct(regs),
        regs.len() == REG_SIZE,
        rm_unset(iv),
    ensures
        ({
            let (out, regs2) = alloc_instr_spec(iv, regs);
            live_ok(done.push(out), regs2) && alloc_consistent(done.push(out)) && regs_distinct(
                regs2,
            ) && regs2.len() == REG_SIZE
        }),
{
    lemma_alloc_instr_step(iv, regs);
    let (out, regs2) = alloc_instr_spec(iv, regs);
    let done2 = done.push(out);
    assert forall|i: int, m: int|
        0 <= i < done2.len() && 0 <= m < ment(done2[i]).len() && (#[trigger] ment(
            done2[i],
        )[m]).rm >= 0 implies 0 <= ment(done2[i])[m].rm < regs2.len() && (regs2[ment(
        done2[i],
    )[m].rm as int] == Slot::Busy(ment(done2[i])[m].vm) || regs2[ment(done2[i])[m].rm as int]
        == Slot::Reserved || killed_in(done2, i, done2.len() - 1, ment(done2[i])[m].vm)) by {
        if i < done.len() {
            assert(done2[i] == done[i]);
            let r = ment(done[i])[m];
            let s = r.rm as int;
            if regs[s] == Slot::Busy(r.vm) {
                if regs2[s] == Slot::Free {
                    assert(is_kill_of(out, r.vm));
                    assert(done2[done.len() as int] == out);
                    assert(killed_in(done2, i, done2.len() - 1, r.vm));
                }
            } else if regs[s] == Slot::Reserved {
            } else {
                let k = choose|k: int|
                    i <= k <= done.len() - 1 && k < done.len() && is_kill_of(
                        #[trigger] done[k],
                        r.vm,
                    );
                assert(done2[k] == done[k]);
                assert(killed_in(done2, i, done2.len() - 1, r.vm));
            }
        } else {
            assert(done2[i] == out);
            let r = ment(out)[m];
            if !(regs2[r.rm as int] == Slot::Busy(r.vm)) {
                assert(is_kill_of(out, r.vm));
                assert(killed_in(done2, i, done2.len() - 1, r.vm));
            }
        }
    }
    assert forall|i: int, j: int, mi: int, mj: int|
        0 <= i <= j < done2.len() && 0 <= mi < ment(done2[i]).len() && 0 <= mj < ment(
            done2[j],
        ).len() && (#[trigger] ment(done2[i])[mi]).rm == (#[trigger] ment(done2[j])[mj]).rm
        && ment(done2[i])[mi].rm >= 0 && ment(done2[i])[mi].vm != ment(
        done2[j],
    )[mj].vm implies killed_in(done2, i, j, ment(done2[i])[mi].vm) by {
        if j < done.len() {
            assert(done2[i] == done[i]);
            assert(done2[j] == done[j]);
            assert(killed_in(done, i, j, ment(done[i])[mi].vm));
            let k = choose|k: int|
                i <= k <= j && k < done.len() && is_kill_of(#[trigger] done[k], ment(
                    done[i],
                )[mi].vm);
            assert(done2[k] == done[k]);
        } else {
            assert(done2[j] == out);
            let r2 = ment(out)[mj];
            let s = r2.rm as int;
            if i < done.len() {
                assert(done2[i] == done[i]);
                let r1 = ment(done[i])[mi];
                // before this step, the shared slot held the later number or
                // was free; the earlier number's claim on it must have ended
                if regs[s] == Slot::Busy(r1.vm) {
                    assert(regs[s] == Slot::Busy(r2.vm) || regs[s] == Slot::Free);
                    assert(false);
                } else if regs[s] == Slot::Reserved {
                    assert(regs[s] == Slot::Busy(r2.vm) || regs[s] == Slot::Free);
                    assert(false);
                } else {
                    assert(killed_in(done, i, done.len() - 1, r1.vm));
                    let k = choose|k: int|
                        i <= k <= done.len() - 1 && k < done.len() && is_kill_of(
                            #[trigger] done[k],
                            r1.vm,
                        );
                    assert(done2[k] == done[k]);
                    assert(killed_in(done2, i, j, r1.vm));
                }
            } else {
                // two mentions of the one new instruction
                assert(done2[i] == out);
                let r1 = ment(out)[mi];
                if is_kill_of(out, r1.vm) {
                    assert(done2[i] == out);
                    assert(killed_in(done2, i, j, r1.vm));
                } else {
                    assert(regs2[r1.rm as int] == Slot::Busy(r1.vm));
                    if is_kill_of(out, r2.vm) {
                        match out {
                            InstrV::Kill(_) => {
                                assert(ment(out).len() == 1);
                                assert(false);
                            },
                            _ => {
                                assert(false);
                            },
                        }
                    } else {
                        assert(regs2[r2.rm as int] == Slot::Busy(r2.vm));
                        assert(false);
                    }
                }
            }
        }
    }
}

proof fn lemma_alloc_instrs_consistent(is: Seq<InstrV>, done: Seq<InstrV>, regs: Seq<Slot>)
    requires
        live_ok(done, regs),
        alloc_consistent(done),
        regs_distinct(regs),
        regs.len() == REG_SIZE,
        forall|k: int| 0 <= k < is.len() ==> rm_unset(#[trigger] is[k]),
    ensures
        ({
            let r = alloc_instrs_spec(is, regs);
            alloc_consistent(done + r.0) && live_ok(done + r.0, r.1) && regs_distinct(r.1)
                && r.1.len() == REG_SIZE
        }),
    decreases is.len(),
{
    if is.len() == 0 {
        assert(done + alloc_instrs_spec(is, regs).0 =~= done);
    } else {
        lemma_alloc_step_consistent(done, regs, is[0]);
        let (out0, regs1) = alloc_instr_spec(is[0], regs);
        lemma_alloc_instrs_consistent(is.skip(1), done.push(out0), regs1);
        let rest = alloc_instrs_spec(is.skip(1), regs1);
        assert(done + (seq![out0] + rest.0) =~= done.push(out0) + rest.0);
    }
}

/// Every declaration's body arrives with unallocated registers.
pub open spec fn decl_rm_unset(is: Seq<InstrV>) -> bool {
    forall|i: int| 0 <= i < is.len() ==> rm_unset(#[trigger] is[i])
}

proof fn lemma_alloc_decls_consistent(ds: Seq<DeclV>, regs: Seq<Slot>)
    requires
        regs_distinct(regs),
        regs.len() == REG_SIZE,
        forall|k: int| 0 <= k < ds.len() ==> decl_rm_unset((#[trigger] ds[k]).instrs),
    ensures
        ({
            let r = alloc_decls_spec(ds, regs);
            regs_distinct(r.1) && r.1.len() == REG_SIZE && forall|k: int|
                0 <= k < r.0.len() ==> alloc_consistent((#[trigger] r.0[k]).instrs)
        }),
    decreases ds.len(),
{
    if ds.len() > 0 {
        lemma_alloc_instrs_consistent(ds[0].instrs, Seq::empty(), regs);
        let (is0, regs1) = alloc_instrs_spec(ds[0].instrs, regs);
        assert(Seq::<InstrV>::empty() + is0 =~= is0);
        lemma_alloc_decls_consistent(ds.skip(1), regs1);
        let rest = alloc_decls_spec(ds.skip(1), regs1);
        let whole = seq![alloc_decl_spec(ds[0], regs).0] + rest.0;
        assert forall|k: int| 0 <= k < whole.len() implies alloc_consistent(
            (#[trigger] whole[k]).instrs,
        ) by {
            if k == 0 {
                assert(whole[0] == alloc_decl_spec(ds[0], regs).0);
                assert(alloc_decl_spec(ds[0], regs).0.instrs == is0);
            } else {
                assert(whole[k] == rest.0[k - 1]);
            }
        }
    }
}

/// Register-allocation consistency, the law of this pass: for a program
/// whose registers arrive unallocated, as virtualization emits them,
/// whenever two mentions of registers in one declaration share an assigned
/// physical index, they carry the same virtual number, or a `Kill` of the
/// earlier one stands at or between them. `Ret`'s first operand, pinned to
/// `A1` outside the allocator's map for the emitter's sake, is not such a
/// mention.
pub proof fn lemma_regalloc_consistent(ds: Seq<DeclV>)
    requires
        forall|k: int| 0 <= k < ds.len() ==> decl_rm_unset((#[trigger] ds[k]).instrs),
    ensures
        forall|k: int|
            0 <= k < regalloc_spec(ds).len() ==> alloc_consistent(
                (#[trigger] regalloc_spec(ds)[k]).instrs,
            ),
{
    let init = Seq::new(REG_SIZE as nat, |i: int| Slot::Free);
    assert(regs_distinct(init));
    lemma_alloc_decls_consistent(ds, init);
}

} // verus!
