use ruscaml::ast::{Ast, Bintype};
use ruscaml::closure;
use ruscaml::flat;
use ruscaml::lexer::lex;
use ruscaml::normal;
use ruscaml::parser::parse;
use ruscaml::regalloc::regalloc;
use ruscaml::vm;

fn chars(s: &str) -> Vec<char> {
    s.chars().collect()
}

fn b(a: Ast) -> Box<Ast> {
    Box::new(a)
}

fn id(s: &str) -> String {
    s.to_string()
}

fn parse_src(src: &str) -> Ast {
    parse(lex(&chars(src)).expect("lex")).expect("parse")
}

// ----------------------------------------------------------------------
// Normalization.

#[test]
fn normalize_atomic() {
    assert_eq!(
        normal::normalize(Ast::ILit(5)),
        normal::Exp::Compexp(Box::new(normal::Cexp::Val(normal::Value::Intv(5))))
    );
}

#[test]
fn normalize_names_subcomputation() {
    // 1 + 2 * 3: the product is bound to the first fresh name
    let got = normal::normalize(parse_src("1 + 2 * 3 ;;\n"));
    let want = normal::Exp::Let(
        id("@v0"),
        Box::new(normal::Cexp::Binop(
            Bintype::Mult,
            normal::Value::Intv(2),
            normal::Value::Intv(3),
        )),
        Box::new(normal::Exp::Compexp(Box::new(normal::Cexp::Binop(
            Bintype::Plus,
            normal::Value::Intv(1),
            normal::Value::Var(id("@v0")),
        )))),
    );
    assert_eq!(got, want);
}

#[test]
fn normalize_let_atomic_bound() {
    let got = normal::normalize(parse_src("let x = 10 in x + x ;;\n"));
    let want = normal::Exp::Let(
        id("x"),
        Box::new(normal::Cexp::Val(normal::Value::Intv(10))),
        Box::new(normal::Exp::Compexp(Box::new(normal::Cexp::Binop(
            Bintype::Plus,
            normal::Value::Var(id("x")),
            normal::Value::Var(id("x")),
        )))),
    );
    assert_eq!(got, want);
}

#[test]
fn normalize_if_binds_condition() {
    // the condition gets a fresh name; both arms close under the identity
    let got = normal::normalize(Ast::If(b(Ast::BLit(true)), b(Ast::ILit(1)), b(Ast::ILit(2))));
    let want = normal::Exp::Let(
        id("@v0"),
        Box::new(normal::Cexp::Val(normal::Value::Intv(1))),
        Box::new(normal::Exp::Compexp(Box::new(normal::Cexp::If(
            normal::Value::Var(id("@v0")),
            Box::new(normal::Exp::Compexp(Box::new(normal::Cexp::Val(
                normal::Value::Intv(1),
            )))),
            Box::new(normal::Exp::Compexp(Box::new(normal::Cexp::Val(
                normal::Value::Intv(2),
            )))),
        )))),
    );
    assert_eq!(got, want);
}

#[test]
fn normalize_fun_becomes_letrec() {
    // an anonymous function is a named recursive definition
    let got = normal::normalize(Ast::Fun(id("x"), b(Ast::Var(id("x")))));
    let want = normal::Exp::Letrec(
        id("@v0"),
        id("x"),
        Box::new(normal::Exp::Compexp(Box::new(normal::Cexp::Val(
            normal::Value::Var(id("x")),
        )))),
        Box::new(normal::Exp::Compexp(Box::new(normal::Cexp::Val(
            normal::Value::Var(id("@v0")),
        )))),
    );
    assert_eq!(got, want);
}

#[test]
fn normalize_bool_literals() {
    // true is 1, false is 0
    assert_eq!(
        normal::normalize(Ast::BLit(true)),
        normal::Exp::Compexp(Box::new(normal::Cexp::Val(normal::Value::Intv(1))))
    );
    assert_eq!(
        normal::normalize(Ast::BLit(false)),
        normal::Exp::Compexp(Box::new(normal::Cexp::Val(normal::Value::Intv(0))))
    );
}

// ----------------------------------------------------------------------
// Closure conversion.

fn nval(s: &str) -> normal::Value {
    normal::Value::Var(id(s))
}

#[test]
fn closure_rewrites_application() {
    // g 1 becomes an indirect call through slot 0 of g's closure
    let nir = normal::Exp::Compexp(Box::new(normal::Cexp::App(
        nval("g"),
        normal::Value::Intv(1),
    )));
    let got = closure::closure(nir);
    let want = closure::Exp::Let(
        id("$r_g0"),
        Box::new(closure::Cexp::Proj(nval("g"), 0)),
        Box::new(closure::Exp::Compexp(Box::new(closure::Cexp::App(
            nval("$r_g0"),
            vec![nval("g"), normal::Value::Intv(1)],
        )))),
    );
    assert_eq!(got, want);
}

#[test]
fn closure_no_free_vars_gives_unary_tuple() {
    // let rec f = fun n -> n in f 1: no free variable, so the closure
    // tuple holds the code pointer alone
    let nir = normal::normalize(parse_src("let rec f = fun n -> n in f 1 ;;\n"));
    let got = closure::closure(nir);
    let want = closure::Exp::Letrec(
        id("$b_f0"),
        vec![id("f"), id("n")],
        Box::new(closure::Exp::Compexp(Box::new(closure::Cexp::Val(nval(
            "n",
        ))))),
        Box::new(closure::Exp::Let(
            id("f"),
            Box::new(closure::Cexp::Tuple(vec![nval("$b_f0")])),
            Box::new(closure::Exp::Let(
                id("$r_f1"),
                Box::new(closure::Cexp::Proj(nval("f"), 0)),
                Box::new(closure::Exp::Compexp(Box::new(closure::Cexp::App(
                    nval("$r_f1"),
                    vec![nval("f"), normal::Value::Intv(1)],
                )))),
            )),
        )),
    );
    assert_eq!(got, want);
}

#[test]
fn closure_captures_free_variable() {
    // f's body reads y from outside: y is re-bound from slot 1 and stored
    // in the closure tuple
    let nir = normal::Exp::Letrec(
        id("f"),
        id("x"),
        Box::new(normal::Exp::Compexp(Box::new(normal::Cexp::Binop(
            Bintype::Plus,
            nval("x"),
            nval("y"),
        )))),
        Box::new(normal::Exp::Compexp(Box::new(normal::Cexp::Val(nval(
            "f",
        ))))),
    );
    let got = closure::closure(nir);
    let want = closure::Exp::Letrec(
        id("$b_f0"),
        vec![id("f"), id("x")],
        Box::new(closure::Exp::Let(
            id("y"),
            Box::new(closure::Cexp::Proj(nval("f"), 1)),
            Box::new(closure::Exp::Compexp(Box::new(closure::Cexp::Binop(
                Bintype::Plus,
                nval("x"),
                nval("y"),
            )))),
        )),
        Box::new(closure::Exp::Let(
            id("f"),
            Box::new(closure::Cexp::Tuple(vec![nval("$b_f0"), nval("y")])),
            Box::new(closure::Exp::Compexp(Box::new(closure::Cexp::Val(nval(
                "f",
            ))))),
        )),
    );
    assert_eq!(got, want);
}

#[test]
fn closure_scoping_is_lexical() {
    // a name bound in one branch is not bound in its sibling: x stays free
    // in the else branch and is captured
    let body = normal::Exp::Compexp(Box::new(normal::Cexp::If(
        normal::Value::Intv(1),
        Box::new(normal::Exp::Let(
            id("x"),
            Box::new(normal::Cexp::Val(normal::Value::Intv(1))),
            Box::new(normal::Exp::Compexp(Box::new(normal::Cexp::Val(nval(
                "x",
            ))))),
        )),
        Box::new(normal::Exp::Compexp(Box::new(normal::Cexp::Val(nval(
            "x",
        ))))),
    )));
    let nir = normal::Exp::Letrec(
        id("f"),
        id("p"),
        Box::new(body),
        Box::new(normal::Exp::Compexp(Box::new(normal::Cexp::Val(nval(
            "f",
        ))))),
    );
    match closure::closure(nir) {
        closure::Exp::Letrec(_, _, lifted_body, cont) => {
            // the free x is re-bound from slot 1 at the top of the body
            match lifted_body.as_ref() {
                closure::Exp::Let(y, c, _) => {
                    assert_eq!(y, "x");
                    assert_eq!(c.as_ref(), &closure::Cexp::Proj(nval("f"), 1));
                }
                other => panic!("expected capture binding, got {:?}", other),
            }
            match cont.as_ref() {
                closure::Exp::Let(_, c, _) => {
                    assert_eq!(
                        c.as_ref(),
                        &closure::Cexp::Tuple(vec![nval("$b_f0"), nval("x")])
                    );
                }
                other => panic!("expected closure tuple, got {:?}", other),
            }
        }
        other => panic!("expected letrec, got {:?}", other),
    }
}

#[test]
fn shadowed_branch_binding_compiles() {
    // the outer x is free in the else branch though the then branch binds
    // its own x: the pipeline captures it and the compile goes through
    let src =
        "let x = 5 in let rec g = fun p -> if p then (let x = 1 in x + 0) else x in g 1 ;;\n";
    let prog = flat::flat(closure::closure(normal::normalize(parse_src(src)))).expect("flat");
    assert_eq!(prog.recs.last().unwrap().0, "main");
}

/// Every application carries exactly two arguments and every lifted
/// function exactly two formals.
fn assert_uniform_exp(e: &closure::Exp) {
    match e {
        closure::Exp::Compexp(c) => assert_uniform_cexp(c),
        closure::Exp::Let(_, c, r) => {
            assert_uniform_cexp(c);
            assert_uniform_exp(r);
        }
        closure::Exp::Loop(_, c, r) => {
            assert_uniform_cexp(c);
            assert_uniform_exp(r);
        }
        closure::Exp::Letrec(lbl, formals, body, cont) => {
            assert_eq!(formals.len(), 2);
            assert_uniform_exp(body);
            assert_uniform_exp(cont);
            // slot 0 of the closure tuple holds the lifted label
            match cont.as_ref() {
                closure::Exp::Let(_, c, _) => match c.as_ref() {
                    closure::Cexp::Tuple(vs) => {
                        assert_eq!(vs[0], normal::Value::Var(lbl.clone()))
                    }
                    other => panic!("expected closure tuple, got {:?}", other),
                },
                other => panic!("expected closure binding, got {:?}", other),
            }
        }
        closure::Exp::Recur(_) => {}
    }
}

fn assert_uniform_cexp(c: &closure::Cexp) {
    match c {
        closure::Cexp::App(_, args) => assert_eq!(args.len(), 2),
        closure::Cexp::If(_, e1, e2) => {
            assert_uniform_exp(e1);
            assert_uniform_exp(e2);
        }
        _ => {}
    }
}

#[test]
fn closure_uniformity_scenario() {
    let src = "let rec make = fun x -> fun y -> x + y in let add3 = make 3 in add3 4 ;;\n";
    let cir = closure::closure(normal::normalize(parse_src(src)));
    assert_uniform_exp(&cir);
}

// ----------------------------------------------------------------------
// Flattening.

fn flat_of(src: &str) -> flat::Program {
    flat::flat(closure::closure(normal::normalize(parse_src(src)))).expect("flat")
}

#[test]
fn flat_lifts_and_ends_with_main() {
    let prog = flat_of("let rec f = fun n -> n in f 1 ;;\n");
    assert_eq!(prog.recs.len(), 2);
    assert_eq!(prog.recs[0].0, "$b_f0");
    assert_eq!(prog.recs[0].1, vec![id("f"), id("n")]);
    assert_eq!(prog.recs[1].0, "main");
    assert!(prog.recs[1].1.is_empty());
    // slot 0 of the closure tuple now names the lifted function directly
    match prog.recs[1].2.as_ref() {
        flat::Exp::Let(f, c, _) => {
            assert_eq!(f, "f");
            assert_eq!(
                c.as_ref(),
                &flat::Cexp::Tuple(vec![flat::Value::Fun(id("$b_f0"))])
            );
        }
        other => panic!("expected let, got {:?}", other),
    }
}

#[test]
fn flat_unbound_variable() {
    let cir = closure::Exp::Compexp(Box::new(closure::Cexp::Val(nval("ghost_name"))));
    assert_eq!(
        flat::flat(cir),
        Err(flat::FlatError::Unbound(id("ghost_name")))
    );
}

fn collect_fun_labels_val(v: &flat::Value, acc: &mut Vec<String>) {
    if let flat::Value::Fun(l) = v {
        acc.push(l.clone());
    }
}

fn collect_fun_labels_cexp(c: &flat::Cexp, acc: &mut Vec<String>) {
    match c {
        flat::Cexp::Val(v) => collect_fun_labels_val(v, acc),
        flat::Cexp::Binop(_, v1, v2) => {
            collect_fun_labels_val(v1, acc);
            collect_fun_labels_val(v2, acc);
        }
        flat::Cexp::App(v, vs) => {
            collect_fun_labels_val(v, acc);
            for v in vs {
                collect_fun_labels_val(v, acc);
            }
        }
        flat::Cexp::If(v, e1, e2) => {
            collect_fun_labels_val(v, acc);
            collect_fun_labels_exp(e1, acc);
            collect_fun_labels_exp(e2, acc);
        }
        flat::Cexp::Tuple(vs) => {
            for v in vs {
                collect_fun_labels_val(v, acc);
            }
        }
        flat::Cexp::Proj(v, _) => collect_fun_labels_val(v, acc),
    }
}

fn collect_fun_labels_exp(e: &flat::Exp, acc: &mut Vec<String>) {
    match e {
        flat::Exp::Compexp(c) => collect_fun_labels_cexp(c, acc),
        flat::Exp::Let(_, c, r) | flat::Exp::Loop(_, c, r) => {
            collect_fun_labels_cexp(c, acc);
            collect_fun_labels_exp(r, acc);
        }
        flat::Exp::Recur(v) => collect_fun_labels_val(v, acc),
    }
}

#[test]
fn flat_fun_labels_are_declared() {
    // every Fun(label) in the program names one of its declarations
    for src in [
        "let rec f = fun n -> n in f 1 ;;\n",
        "let rec make = fun x -> fun y -> x + y in let add3 = make 3 in add3 4 ;;\n",
        "let rec sum = fun n -> if n < 1 then 0 else n + sum (n + (0 + 0 * 1)) in sum 5 ;;\n",
    ] {
        let prog = flat_of(src);
        let labels: Vec<String> = prog.recs.iter().map(|d| d.0.clone()).collect();
        let mut used: Vec<String> = Vec::new();
        for d in &prog.recs {
            collect_fun_labels_exp(&d.2, &mut used);
        }
        for l in used {
            assert!(labels.contains(&l), "label {} not declared", l);
        }
    }
}

// ----------------------------------------------------------------------
// Virtualization.

fn main_only(body: flat::Exp) -> flat::Program {
    flat::Program {
        recs: vec![flat::Recdecl(id("main"), vec![], Box::new(body))],
    }
}

fn reg(vm: u64, byte: u64) -> vm::Reg {
    vm::Reg { vm, rm: -1, byte }
}

#[test]
fn vm_constant_body() {
    let prog = vm::trans_pg(main_only(flat::Exp::Compexp(Box::new(flat::Cexp::Val(
        flat::Value::Intv(7),
    )))))
    .unwrap();
    assert_eq!(prog.decls.len(), 1);
    let d = &prog.decls[0];
    assert_eq!(d.funlb, "main");
    assert_eq!(d.vc, 0);
    assert!(!d.haveapp);
    assert_eq!(
        d.instrs,
        vec![
            vm::Instr::Move(reg(0, 4), vm::Operand::Intv(7)),
            vm::Instr::Ret(reg(1, 4), reg(0, 4)),
            vm::Instr::Kill(reg(0, 4)),
        ]
    );
}

#[test]
fn vm_let_store_load() {
    let body = flat::Exp::Let(
        id("x"),
        Box::new(flat::Cexp::Val(flat::Value::Intv(1))),
        Box::new(flat::Exp::Compexp(Box::new(flat::Cexp::Val(
            flat::Value::Var(id("x")),
        )))),
    );
    let prog = vm::trans_pg(main_only(body)).unwrap();
    let d = &prog.decls[0];
    assert_eq!(d.vc, 1);
    assert_eq!(
        d.instrs,
        vec![
            vm::Instr::Move(reg(0, 4), vm::Operand::Intv(1)),
            vm::Instr::Store(1, reg(0, 4)),
            vm::Instr::Kill(reg(0, 4)),
            vm::Instr::Load(reg(1, 4), 1),
            vm::Instr::Ret(reg(2, 4), reg(1, 4)),
            vm::Instr::Kill(reg(1, 4)),
        ]
    );
}

#[test]
fn vm_loop_recur_matching_label() {
    let body = flat::Exp::Loop(
        id("x"),
        Box::new(flat::Cexp::Val(flat::Value::Intv(0))),
        Box::new(flat::Exp::Recur(flat::Value::Intv(1))),
    );
    let prog = vm::trans_pg(main_only(body)).unwrap();
    let d = &prog.decls[0];
    assert_eq!(
        d.instrs,
        vec![
            vm::Instr::Label(0),
            vm::Instr::Move(reg(0, 4), vm::Operand::Intv(0)),
            vm::Instr::Store(1, reg(0, 4)),
            vm::Instr::Kill(reg(0, 4)),
            vm::Instr::Move(reg(1, 4), vm::Operand::Intv(1)),
            vm::Instr::Store(1, reg(1, 4)),
            vm::Instr::Gt(0),
            vm::Instr::Ret(reg(2, 4), reg(1, 4)),
            vm::Instr::Kill(reg(1, 4)),
        ]
    );
}

#[test]
fn vm_tuple_and_proj_byte_offsets() {
    // p = (10, 20); p.1 reads 8 bytes at offset 8
    let body = flat::Exp::Let(
        id("p"),
        Box::new(flat::Cexp::Tuple(vec![
            flat::Value::Intv(10),
            flat::Value::Intv(20),
        ])),
        Box::new(flat::Exp::Compexp(Box::new(flat::Cexp::Proj(
            flat::Value::Var(id("p")),
            1,
        )))),
    );
    let prog = vm::trans_pg(main_only(body)).unwrap();
    let d = &prog.decls[0];
    assert_eq!(d.vc, 2);
    assert_eq!(
        d.instrs,
        vec![
            vm::Instr::Move(reg(0, 4), vm::Operand::Intv(10)),
            vm::Instr::Move(reg(1, 4), vm::Operand::Intv(20)),
            vm::Instr::Malloc(reg(2, 8), vec![reg(0, 8), reg(1, 8)]),
            vm::Instr::Kill(reg(0, 8)),
            vm::Instr::Kill(reg(1, 8)),
            vm::Instr::Store(2, reg(2, 8)),
            vm::Instr::Kill(reg(2, 8)),
            vm::Instr::Load(reg(3, 8), 2),
            vm::Instr::Read(reg(3, 8), (8, 8)),
            vm::Instr::Ret(reg(4, 8), reg(3, 8)),
            vm::Instr::Kill(reg(3, 8)),
        ]
    );
}

#[test]
fn vm_errors() {
    assert_eq!(
        vm::trans_pg(main_only(flat::Exp::Recur(flat::Value::Intv(1)))),
        Err(vm::VmError::RecurOutsideLoop)
    );
    assert_eq!(
        vm::trans_pg(main_only(flat::Exp::Compexp(Box::new(flat::Cexp::Proj(
            flat::Value::Intv(1),
            0
        ))))),
        Err(vm::VmError::BadProj)
    );
    assert_eq!(
        vm::trans_pg(main_only(flat::Exp::Compexp(Box::new(flat::Cexp::Val(
            flat::Value::Var(id("nope"))
        ))))),
        Err(vm::VmError::Unbound(id("nope")))
    );
}

/// The slots a declaration's instructions use, for the `vc` check.
fn ofs_used(d: &vm::Decl) -> Vec<u64> {
    let mut used = Vec::new();
    for i in &d.instrs {
        match i {
            vm::Instr::Store(ofs, _) | vm::Instr::Argst(ofs, _) => used.push(*ofs),
            vm::Instr::Load(_, ofs) => used.push(*ofs),
            _ => {}
        }
    }
    used
}

fn compile(src: &str) -> vm::Program {
    let mut prog = vm::trans_pg(flat_of(src)).expect("trans_pg");
    regalloc(&mut prog);
    prog
}

const SCENARIOS: [&str; 6] = [
    "1 + 2 * 3 ;;\n",
    "let x = 10 in x + x ;;\n",
    "if 1 < 2 then 42 else 0 ;;\n",
    "let rec sum = fun n -> if n < 1 then 0 else n + sum (n + (0 + 0 * 1)) in sum 5 ;;\n",
    "let rec make = fun x -> fun y -> x + y in let add3 = make 3 in add3 4 ;;\n",
    "let p = (10, 20) in p.0 + p.1 ;;\n",
];

#[test]
fn vc_is_max_used_offset() {
    // for every declaration, vc equals the largest slot any Store, Load or
    // Argst uses, and zero when none does
    for src in SCENARIOS {
        let prog = compile(src);
        for d in &prog.decls {
            let used = ofs_used(d);
            let max = used.iter().copied().max().unwrap_or(0);
            assert_eq!(d.vc, max, "vc mismatch in {} for {:?}", d.funlb, src);
        }
    }
}

#[test]
fn jump_targets_are_local_labels() {
    // every Br and Gt target has its Label in the same declaration
    for src in SCENARIOS {
        let prog = compile(src);
        for d in &prog.decls {
            let labels: Vec<u64> = d
                .instrs
                .iter()
                .filter_map(|i| match i {
                    vm::Instr::Label(l) => Some(*l),
                    _ => None,
                })
                .collect();
            for i in &d.instrs {
                match i {
                    vm::Instr::Br(_, l) | vm::Instr::Gt(l) => {
                        assert!(labels.contains(l), "target {} missing in {}", l, d.funlb)
                    }
                    _ => {}
                }
            }
        }
    }
}

// ----------------------------------------------------------------------
// Register allocation.

#[test]
fn set_real_reuses_and_claims() {
    let mut regs = vec![ruscaml::regalloc::Slot::Free; 10];
    let mut r0 = reg(5, 4);
    r0.set_real(&mut regs);
    assert_eq!(r0.rm, 0);
    let mut r1 = reg(6, 4);
    r1.set_real(&mut regs);
    assert_eq!(r1.rm, 1);
    // the same virtual number keeps its slot
    let mut r0b = reg(5, 8);
    r0b.set_real(&mut regs);
    assert_eq!(r0b.rm, 0);
    // killing frees the lowest slot for the next claim
    let mut r0c = reg(5, 4);
    r0c.kill(&mut regs);
    assert_eq!(r0c.rm, 0);
    let mut r2 = reg(7, 4);
    r2.set_real(&mut regs);
    assert_eq!(r2.rm, 0);
}

#[test]
fn regalloc_assigns_and_pins_ret() {
    let body = flat::Exp::Let(
        id("x"),
        Box::new(flat::Cexp::Val(flat::Value::Intv(1))),
        Box::new(flat::Exp::Compexp(Box::new(flat::Cexp::Val(
            flat::Value::Var(id("x")),
        )))),
    );
    let mut prog = vm::trans_pg(main_only(body)).unwrap();
    regalloc(&mut prog);
    let d = &prog.decls[0];
    match &d.instrs[0] {
        vm::Instr::Move(r, _) => assert_eq!(r.rm, 0),
        other => panic!("unexpected {:?}", other),
    }
    match &d.instrs[3] {
        vm::Instr::Load(r, _) => assert_eq!(r.rm, 0),
        other => panic!("unexpected {:?}", other),
    }
    match &d.instrs[4] {
        vm::Instr::Ret(r1, r2) => {
            assert_eq!(r1.rm, 0);
            assert_eq!(r2.rm, 0);
        }
        other => panic!("unexpected {:?}", other),
    }
}

#[test]
fn regalloc_respects_reserved_params() {
    let prog_in = flat::Program {
        recs: vec![
            flat::Recdecl(
                id("f"),
                vec![id("a"), id("b")],
                Box::new(flat::Exp::Compexp(Box::new(flat::Cexp::Val(
                    flat::Value::Var(id("a")),
                )))),
            ),
            flat::Recdecl(
                id("main"),
                vec![],
                Box::new(flat::Exp::Compexp(Box::new(flat::Cexp::Val(
                    flat::Value::Intv(0),
                )))),
            ),
        ],
    };
    let mut prog = vm::trans_pg(prog_in).unwrap();
    regalloc(&mut prog);
    let d = &prog.decls[0];
    // Argst for parameter 1 reserves slot 0, so the load claims slot 1
    match &d.instrs[2] {
        vm::Instr::Load(r, _) => assert_eq!(r.rm, 1),
        other => panic!("unexpected {:?}", other),
    }
}

fn mentions(i: &vm::Instr) -> Vec<vm::Reg> {
    // the registers an instruction mentions; Ret's pinned result register
    // is bookkeeping for the emitter and stays out
    match i {
        vm::Instr::Move(r, _)
        | vm::Instr::Store(_, r)
        | vm::Instr::Load(r, _)
        | vm::Instr::Loadf(r, _)
        | vm::Instr::Br(r, _)
        | vm::Instr::Read(r, _)
        | vm::Instr::Kill(r) => vec![*r],
        vm::Instr::Mover(r1, r2) | vm::Instr::Binop(_, r1, r2) => vec![*r1, *r2],
        vm::Instr::Call(r, args) | vm::Instr::Malloc(r, args) => {
            let mut v = vec![*r];
            v.extend(args.iter().copied());
            v
        }
        vm::Instr::Ret(_, r2) => vec![*r2],
        _ => vec![],
    }
}

#[test]
fn same_physical_register_means_same_or_killed() {
    // two mentions of one physical register belong to the same virtual
    // register, or a Kill of the earlier one stands between them
    for src in SCENARIOS {
        let prog = compile(src);
        for d in &prog.decls {
            for i in 0..d.instrs.len() {
                for r1 in mentions(&d.instrs[i]) {
                    if r1.rm < 0 {
                        continue;
                    }
                    for j in (i + 1)..d.instrs.len() {
                        for r2 in mentions(&d.instrs[j]) {
                            if r2.rm != r1.rm || r1.vm == r2.vm {
                                continue;
                            }
                            let killed = (i..=j).any(|k| {
                                matches!(&d.instrs[k], vm::Instr::Kill(r) if r.vm == r1.vm)
                            });
                            assert!(
                                killed,
                                "rm {} reused from vm {} to vm {} without kill in {:?}",
                                r1.rm, r1.vm, r2.vm, src
                            );
                        }
                    }
                }
            }
        }
    }
}

#[test]
fn scenarios_compile_end_to_end() {
    for src in SCENARIOS {
        let prog = compile(src);
        assert!(!prog.decls.is_empty());
        assert_eq!(prog.decls.last().unwrap().funlb, "main");
        // an EXPECT header compiles to the same kind of program
        let with_expect = compile("EXPECT(1 + 2 * 3 => 7)");
        assert_eq!(with_expect.decls.last().unwrap().funlb, "main");
    }
}

#[test]
fn if_in_tail_position_movers_into_condition_register() {
    // both arms hand their value back through the register that held the
    // condition, which the return then reads
    let prog = vm::trans_pg(flat_of("if 1 < 2 then 42 else 0 ;;\n")).unwrap();
    let d = &prog.decls[0];
    let br_reg = d
        .instrs
        .iter()
        .find_map(|i| match i {
            vm::Instr::Br(r, _) => Some(*r),
            _ => None,
        })
        .expect("a branch");
    let movers: Vec<vm::Reg> = d
        .instrs
        .iter()
        .filter_map(|i| match i {
            vm::Instr::Mover(r1, _) => Some(*r1),
            _ => None,
        })
        .collect();
    assert_eq!(movers.len(), 2);
    assert!(movers.iter().all(|r| r.vm == br_reg.vm));
    match d.instrs.last() {
        Some(vm::Instr::Kill(_)) => {}
        other => panic!("expected trailing kill, got {:?}", other),
    }
    let ret_src = d
        .instrs
        .iter()
        .find_map(|i| match i {
            vm::Instr::Ret(_, r2) => Some(*r2),
            _ => None,
        })
        .expect("a return");
    assert_eq!(ret_src.vm, br_reg.vm);
}

#[test]
fn display_normal_form() {
    let nir = normal::normalize(parse_src("1 + 2 * 3 ;;\n"));
    assert_eq!(nir.program_display(), "let @v0 = 2*3 in\n1+@v0");
}

#[test]
fn display_closure_form() {
    let nir = normal::Exp::Compexp(Box::new(normal::Cexp::App(
        nval("g"),
        normal::Value::Intv(1),
    )));
    let cir = closure::closure(nir);
    assert_eq!(
        cir.program_display(),
        "let $r_g0 = g.0 in\n$r_g0 (g, 1)"
    );
}

#[test]
fn display_flat_program() {
    let text = flat_of("let rec f = fun n -> n in f 1 ;;\n").program_display();
    assert!(text.starts_with("let rec $b_f0 (f, n) = n in\nlet rec main () = "));
    assert!(text.contains("let f = ($b_f0) in\n"));
}

#[test]
fn display_virtual_and_allocated() {
    let mut prog = vm::trans_pg(main_only(flat::Exp::Compexp(Box::new(flat::Cexp::Val(
        flat::Value::Intv(7),
    )))))
    .unwrap();
    assert_eq!(
        prog.program_display(false),
        "main:\n r0 <- imm(7)\n r1 <- r0\n return(r1)\n kill r0\n"
    );
    regalloc(&mut prog);
    assert_eq!(
        prog.program_display(true),
        "main:\n r0 <- imm(7)\n r0 <- r0\n return(r0)\n kill r0\n"
    );
}
