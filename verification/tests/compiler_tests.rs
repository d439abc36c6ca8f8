use snek_compiler::assemble::defined_labels;
use snek_compiler::ast::{Expr, Op1, Op2};
use snek_compiler::compiler::{
    compile_expr, compile_expr_aligned, compile_func_defns, depth, try_compile_expr, try_compile_expr_aligned,
    try_compile_func_defns,
};
use snek_compiler::context::{Context, ContextMut, FunEnv, VarEnv};
use snek_compiler::error::{CompileError, ErrorKind};
use snek_compiler::instr::{Arg64, CMov, Instr, Jump, Label, MemRef, MovArgs, Reg};
use snek_compiler::listing::instrs_to_string;
use snek_compiler::text::{int_text, nat_text};

fn num(n: i64) -> Expr {
    Expr::Num(n)
}

fn var(x: &str) -> Expr {
    Expr::Var(x.to_string())
}

fn boolean(b: bool) -> Expr {
    Expr::Boolean(b)
}

fn b(e: Expr) -> Box<Expr> {
    Box::new(e)
}

fn lbl(name: &str) -> Label {
    Label::new(Some(name))
}

fn slot(offset: i32) -> MemRef {
    MemRef { reg: Reg::Rsp, offset }
}

fn mov_rax(a: Arg64) -> Instr {
    Instr::Mov(MovArgs::ToReg(Reg::Rax, a))
}

fn stub() -> Label {
    lbl("snek_error_stub")
}

fn compile_fresh(e: &Expr) -> (Result<Vec<Instr>, CompileError>, ContextMut) {
    let co = Context::new(None);
    let mut com = ContextMut::new();
    let r = try_compile_expr(e, &co, &mut com);
    (r, com)
}

fn err_kind(r: Result<Vec<Instr>, CompileError>) -> ErrorKind {
    match r {
        Err(e) => e.kind,
        Ok(v) => panic!("expected an error, got {:?}", v),
    }
}

fn fundef(name: &str, params: &[&str], body: Expr) -> Expr {
    Expr::FnDefn(name.to_string(), params.iter().map(|p| p.to_string()).collect(), b(body))
}

fn label_names(code: &[Instr]) -> Vec<String> {
    code.iter()
        .filter_map(|i| match i {
            Instr::LabelI(l) => Some(l.name.clone()),
            _ => None,
        })
        .collect()
}

#[test]
fn depth_of_leaves_is_zero() {
    assert_eq!(depth(&num(7)), 0);
    assert_eq!(depth(&var("x")), 0);
    assert_eq!(depth(&boolean(true)), 0);
    assert_eq!(depth(&Expr::Block(vec![])), 0);
}

#[test]
fn depth_of_binop_holds_right_operand() {
    let e = Expr::BinOp(Op2::Plus, b(num(1)), b(num(2)));
    assert_eq!(depth(&e), 1);
    // ((1 + 2) + 3): the left operand needs one slot of its own above the right one.
    let nested = Expr::BinOp(Op2::Plus, b(Expr::BinOp(Op2::Plus, b(num(1)), b(num(2)))), b(num(3)));
    assert_eq!(depth(&nested), 2);
    // (1 + (2 + 3)): the right operand is evaluated first, from the same slot.
    let right = Expr::BinOp(Op2::Plus, b(num(1)), b(Expr::BinOp(Op2::Plus, b(num(2)), b(num(3)))));
    assert_eq!(depth(&right), 1);
}

#[test]
fn depth_of_let_counts_bindings() {
    let e = Expr::Let(vec![("x".to_string(), num(1)), ("y".to_string(), num(2))], b(var("x")));
    assert_eq!(depth(&e), 2);
    let inner = Expr::Let(
        vec![("x".to_string(), Expr::BinOp(Op2::Times, b(num(1)), b(num(2))))],
        b(var("x")),
    );
    assert_eq!(depth(&inner), 1);
}

#[test]
fn depth_of_call_and_definition() {
    let call = Expr::FnCall("f".to_string(), vec![num(1), num(2), num(3)]);
    assert_eq!(depth(&call), 3);
    // Two parameters and a body of depth 0: the frame is aligned up to 3.
    assert_eq!(depth(&fundef("f", &["a", "b"], num(0))), 3);
    // One parameter and a body of depth 0: 1 is already odd.
    assert_eq!(depth(&fundef("f", &["a"], num(0))), 1);
}

#[test]
fn depth_of_if_block_loop() {
    let e = Expr::If(
        b(Expr::BinOp(Op2::Less, b(num(1)), b(num(2)))),
        b(Expr::Block(vec![num(1), Expr::FnCall("g".to_string(), vec![num(1), num(2)])])),
        b(Expr::Loop(b(Expr::Break(b(num(0)))))),
    );
    assert_eq!(depth(&e), 2);
}

#[test]
fn number_fits_in_immediate() {
    let (r, com) = compile_fresh(&num(5));
    assert_eq!(r.unwrap(), vec![mov_rax(Arg64::Imm(10))]);
    assert_eq!(com.result_is_bool, Some(false));
}

#[test]
fn negative_number() {
    let (r, _) = compile_fresh(&num(-3));
    assert_eq!(r.unwrap(), vec![mov_rax(Arg64::Imm(-6))]);
}

#[test]
fn number_needs_64_bit_immediate() {
    let (r, _) = compile_fresh(&num(0x4000_0000));
    assert_eq!(r.unwrap(), vec![mov_rax(Arg64::Imm64(0x8000_0000))]);
}

#[test]
fn large_number_into_slot_goes_through_rax() {
    let co = Context::new(None).modify_target(Some(slot(2)));
    let mut com = ContextMut::new();
    let r = try_compile_expr(&num(0x4000_0000), &co, &mut com).unwrap();
    assert_eq!(
        r,
        vec![
            mov_rax(Arg64::Imm64(0x8000_0000)),
            Instr::Mov(MovArgs::ToMem(slot(2), Arg64::OReg(Reg::Rax))),
        ]
    );
}

#[test]
fn number_too_large() {
    let (r, _) = compile_fresh(&num(i64::MAX));
    assert_eq!(err_kind(r), ErrorKind::NumberTooLarge);
    let (r, _) = compile_fresh(&num(0x4000_0000_0000_0000));
    assert_eq!(err_kind(r), ErrorKind::NumberTooLarge);
    let (r, _) = compile_fresh(&num(-0x4000_0000_0000_0001));
    assert_eq!(err_kind(r), ErrorKind::NumberTooLarge);
}

#[test]
fn smallest_number_that_fits() {
    let (r, _) = compile_fresh(&num(-0x4000_0000_0000_0000));
    assert_eq!(r.unwrap(), vec![mov_rax(Arg64::Imm64(i64::MIN))]);
}

#[test]
fn booleans_are_tagged() {
    let (r, com) = compile_fresh(&boolean(true));
    assert_eq!(r.unwrap(), vec![mov_rax(Arg64::Imm(3))]);
    assert_eq!(com.result_is_bool, Some(true));
    let (r, _) = compile_fresh(&boolean(false));
    assert_eq!(r.unwrap(), vec![mov_rax(Arg64::Imm(1))]);
}

#[test]
fn unbound_variable() {
    let (r, _) = compile_fresh(&var("x"));
    let e = r.unwrap_err();
    assert_eq!(e.kind, ErrorKind::UnboundVariable);
    assert_eq!(e.subject, "x");
    assert_eq!(e.message(), "Unbound variable identifier x");
}

#[test]
fn let_binds_into_slots() {
    let e = Expr::Let(vec![("x".to_string(), num(1))], b(var("x")));
    let (r, com) = compile_fresh(&e);
    assert_eq!(
        r.unwrap(),
        vec![
            Instr::Mov(MovArgs::ToMem(slot(0), Arg64::Imm(2))),
            mov_rax(Arg64::Mem(slot(0))),
        ]
    );
    assert_eq!(com.result_is_bool, Some(false));
}

#[test]
fn duplicate_binding() {
    let e = Expr::Let(vec![("x".to_string(), num(1)), ("x".to_string(), num(2))], b(var("x")));
    let (r, _) = compile_fresh(&e);
    assert_eq!(err_kind(r), ErrorKind::DuplicateBinding);
}

#[test]
fn let_shadowing_outer_binding_is_allowed() {
    let e = Expr::Let(
        vec![("x".to_string(), num(1))],
        b(Expr::Let(vec![("x".to_string(), boolean(true))], b(var("x")))),
    );
    let (r, com) = compile_fresh(&e);
    assert_eq!(
        r.unwrap(),
        vec![
            Instr::Mov(MovArgs::ToMem(slot(0), Arg64::Imm(2))),
            Instr::Mov(MovArgs::ToMem(slot(1), Arg64::Imm(3))),
            mov_rax(Arg64::Mem(slot(1))),
        ]
    );
    assert_eq!(com.result_is_bool, Some(true));
}

#[test]
fn add1_on_number() {
    let (r, com) = compile_fresh(&Expr::UnOp(Op1::Add1, b(num(1))));
    assert_eq!(
        r.unwrap(),
        vec![
            mov_rax(Arg64::Imm(2)),
            Instr::Add(MovArgs::ToReg(Reg::Rax, Arg64::Imm(2))),
            Instr::Mov(MovArgs::ToReg(Reg::Rdi, Arg64::Imm(30))),
            Instr::JumpI(Jump::O(stub())),
        ]
    );
    assert_eq!(com.result_is_bool, Some(false));
}

#[test]
fn sub1_on_boolean_always_fails() {
    let (r, com) = compile_fresh(&Expr::UnOp(Op1::Sub1, b(boolean(true))));
    assert_eq!(
        r.unwrap(),
        vec![
            mov_rax(Arg64::Imm(3)),
            Instr::Mov(MovArgs::ToReg(Reg::Rdi, Arg64::Imm(20))),
            Instr::JumpI(Jump::U(stub())),
        ]
    );
    assert_eq!(com.result_is_bool, Some(false));
}

#[test]
fn add1_on_unknown_type_is_checked() {
    let co = Context::new(None);
    let mut com = ContextMut::new();
    let env = co.env.update("v".to_string(), VarEnv::new(4, None, false));
    let co = co.modify_env(env);
    let r = try_compile_expr(&Expr::UnOp(Op1::Add1, b(var("v"))), &co, &mut com).unwrap();
    assert_eq!(
        r,
        vec![
            mov_rax(Arg64::Mem(slot(4))),
            Instr::Test(MovArgs::ToReg(Reg::Rax, Arg64::Imm(1))),
            Instr::Mov(MovArgs::ToReg(Reg::Rdi, Arg64::Imm(20))),
            Instr::JumpI(Jump::Nz(stub())),
            Instr::Add(MovArgs::ToReg(Reg::Rax, Arg64::Imm(2))),
            Instr::Mov(MovArgs::ToReg(Reg::Rdi, Arg64::Imm(30))),
            Instr::JumpI(Jump::O(stub())),
        ]
    );
}

#[test]
fn isbool_and_isnum() {
    let (r, com) = compile_fresh(&Expr::UnOp(Op1::IsBool, b(num(1))));
    assert_eq!(
        r.unwrap(),
        vec![
            mov_rax(Arg64::Imm(2)),
            Instr::And(MovArgs::ToReg(Reg::Rax, Arg64::Imm(1))),
            mov_rax(Arg64::Imm(3)),
            Instr::Mov(MovArgs::ToReg(Reg::Rbx, Arg64::Imm(1))),
            Instr::CMovI(CMov::Z(Reg::Rax, Arg64::OReg(Reg::Rbx))),
        ]
    );
    assert_eq!(com.result_is_bool, Some(true));
    let (r, _) = compile_fresh(&Expr::UnOp(Op1::IsNum, b(num(1))));
    assert_eq!(
        r.unwrap(),
        vec![
            mov_rax(Arg64::Imm(2)),
            Instr::And(MovArgs::ToReg(Reg::Rax, Arg64::Imm(1))),
            mov_rax(Arg64::Imm(1)),
            Instr::Mov(MovArgs::ToReg(Reg::Rbx, Arg64::Imm(3))),
            Instr::CMovI(CMov::Z(Reg::Rax, Arg64::OReg(Reg::Rbx))),
        ]
    );
}

#[test]
fn print_keeps_the_type() {
    let (r, com) = compile_fresh(&Expr::UnOp(Op1::Print, b(boolean(false))));
    assert_eq!(
        r.unwrap(),
        vec![
            mov_rax(Arg64::Imm(1)),
            Instr::Mov(MovArgs::ToReg(Reg::Rdi, Arg64::OReg(Reg::Rax))),
            Instr::Call(lbl("snek_print")),
        ]
    );
    assert_eq!(com.result_is_bool, Some(true));
}

#[test]
fn plus_evaluates_right_operand_first() {
    let (r, com) = compile_fresh(&Expr::BinOp(Op2::Plus, b(num(1)), b(num(2))));
    assert_eq!(
        r.unwrap(),
        vec![
            Instr::Mov(MovArgs::ToMem(slot(0), Arg64::Imm(4))),
            mov_rax(Arg64::Imm(2)),
            Instr::Add(MovArgs::ToReg(Reg::Rax, Arg64::Mem(slot(0)))),
            Instr::Mov(MovArgs::ToReg(Reg::Rdi, Arg64::Imm(32))),
            Instr::JumpI(Jump::O(stub())),
        ]
    );
    assert_eq!(com.result_is_bool, Some(false));
}

#[test]
fn times_untags_one_operand() {
    let (r, _) = compile_fresh(&Expr::BinOp(Op2::Times, b(num(3)), b(num(4))));
    assert_eq!(
        r.unwrap(),
        vec![
            Instr::Mov(MovArgs::ToMem(slot(0), Arg64::Imm(8))),
            mov_rax(Arg64::Imm(6)),
            Instr::Sar(Reg::Rax, 1),
            Instr::Mul(Reg::Rax, Arg64::Mem(slot(0))),
            Instr::Mov(MovArgs::ToReg(Reg::Rdi, Arg64::Imm(32))),
            Instr::JumpI(Jump::O(stub())),
        ]
    );
}

#[test]
fn comparison_of_numbers() {
    let (r, com) = compile_fresh(&Expr::BinOp(Op2::GreaterEqual, b(num(1)), b(num(2))));
    assert_eq!(
        r.unwrap(),
        vec![
            Instr::Mov(MovArgs::ToMem(slot(0), Arg64::Imm(4))),
            mov_rax(Arg64::Imm(2)),
            Instr::Cmp(MovArgs::ToReg(Reg::Rax, Arg64::Mem(slot(0)))),
            mov_rax(Arg64::Imm(1)),
            Instr::Mov(MovArgs::ToReg(Reg::Rbx, Arg64::Imm(3))),
            Instr::CMovI(CMov::GE(Reg::Rax, Arg64::OReg(Reg::Rbx))),
        ]
    );
    assert_eq!(com.result_is_bool, Some(true));
}

#[test]
fn arithmetic_on_boolean_always_fails() {
    let (r, com) = compile_fresh(&Expr::BinOp(Op2::Minus, b(num(1)), b(boolean(true))));
    assert_eq!(
        r.unwrap(),
        vec![
            Instr::Mov(MovArgs::ToMem(slot(0), Arg64::Imm(3))),
            mov_rax(Arg64::Imm(2)),
            Instr::Mov(MovArgs::ToReg(Reg::Rdi, Arg64::Imm(23))),
            Instr::JumpI(Jump::U(stub())),
        ]
    );
    assert_eq!(com.result_is_bool, Some(false));
    let (_, com) = compile_fresh(&Expr::BinOp(Op2::Less, b(boolean(true)), b(num(1))));
    assert_eq!(com.result_is_bool, Some(true));
}

#[test]
fn equal_on_mixed_types_fails() {
    let (r, com) = compile_fresh(&Expr::BinOp(Op2::Equal, b(num(1)), b(boolean(true))));
    assert_eq!(
        r.unwrap(),
        vec![
            Instr::Mov(MovArgs::ToMem(slot(0), Arg64::Imm(3))),
            mov_rax(Arg64::Imm(2)),
            Instr::Mov(MovArgs::ToReg(Reg::Rdi, Arg64::Imm(21))),
            Instr::JumpI(Jump::Nz(stub())),
        ]
    );
    assert_eq!(com.result_is_bool, Some(true));
}

#[test]
fn equal_on_known_types() {
    let (r, _) = compile_fresh(&Expr::BinOp(Op2::Equal, b(num(1)), b(num(1))));
    assert_eq!(
        r.unwrap(),
        vec![
            Instr::Mov(MovArgs::ToMem(slot(0), Arg64::Imm(2))),
            mov_rax(Arg64::Imm(2)),
            Instr::Sub(MovArgs::ToReg(Reg::Rax, Arg64::Mem(slot(0)))),
            mov_rax(Arg64::Imm(1)),
            Instr::Mov(MovArgs::ToReg(Reg::Rbx, Arg64::Imm(3))),
            Instr::CMovI(CMov::E(Reg::Rax, Arg64::OReg(Reg::Rbx))),
        ]
    );
}

#[test]
fn equal_on_unknown_type_checks_at_run_time() {
    let co = Context::new(None);
    let env = co.env.update("input".to_string(), VarEnv::new(0, None, false));
    let co = co.modify_env(env).modify_si(1);
    let mut com = ContextMut::new();
    let e = Expr::BinOp(Op2::Equal, b(var("input")), b(num(1)));
    let r = try_compile_expr(&e, &co, &mut com).unwrap();
    assert_eq!(
        r,
        vec![
            Instr::Mov(MovArgs::ToMem(slot(1), Arg64::Imm(2))),
            mov_rax(Arg64::Mem(slot(0))),
            Instr::Sub(MovArgs::ToReg(Reg::Rax, Arg64::Mem(slot(1)))),
            Instr::Push(Reg::Rax),
            mov_rax(Arg64::Imm(1)),
            Instr::Mov(MovArgs::ToReg(Reg::Rbx, Arg64::Imm(3))),
            Instr::CMovI(CMov::E(Reg::Rax, Arg64::OReg(Reg::Rbx))),
            Instr::Pop(Reg::Rbx),
            Instr::Test(MovArgs::ToReg(Reg::Rbx, Arg64::Imm(1))),
            Instr::Mov(MovArgs::ToReg(Reg::Rdi, Arg64::Imm(22))),
            Instr::JumpI(Jump::Nz(stub())),
        ]
    );
}

#[test]
fn less_on_unknown_types_checks_both() {
    let co = Context::new(None);
    let env = co.env.update("a".to_string(), VarEnv::new(0, None, false));
    let co = co.modify_env(env).modify_si(1);
    let mut com = ContextMut::new();
    let e = Expr::BinOp(Op2::Less, b(var("a")), b(var("a")));
    let r = try_compile_expr(&e, &co, &mut com).unwrap();
    assert_eq!(
        r,
        vec![
            mov_rax(Arg64::Mem(slot(0))),
            Instr::Mov(MovArgs::ToMem(slot(1), Arg64::OReg(Reg::Rax))),
            mov_rax(Arg64::Mem(slot(0))),
            Instr::Test(MovArgs::ToReg(Reg::Rax, Arg64::Imm(1))),
            Instr::Mov(MovArgs::ToReg(Reg::Rdi, Arg64::Imm(24))),
            Instr::JumpI(Jump::Nz(stub())),
            Instr::Test(MovArgs::ToMem(slot(1), Arg64::Imm(1))),
            Instr::Mov(MovArgs::ToReg(Reg::Rdi, Arg64::Imm(25))),
            Instr::JumpI(Jump::Nz(stub())),
            Instr::Cmp(MovArgs::ToReg(Reg::Rax, Arg64::Mem(slot(1)))),
            mov_rax(Arg64::Imm(1)),
            Instr::Mov(MovArgs::ToReg(Reg::Rbx, Arg64::Imm(3))),
            Instr::CMovI(CMov::L(Reg::Rax, Arg64::OReg(Reg::Rbx))),
        ]
    );
}

#[test]
fn if_with_both_branches() {
    let e = Expr::If(b(boolean(true)), b(num(1)), b(num(2)));
    let (r, com) = compile_fresh(&e);
    assert_eq!(
        r.unwrap(),
        vec![
            mov_rax(Arg64::Imm(3)),
            Instr::Cmp(MovArgs::ToReg(Reg::Rax, Arg64::Imm(1))),
            Instr::JumpI(Jump::E(lbl("else_0"))),
            mov_rax(Arg64::Imm(2)),
            Instr::JumpI(Jump::U(lbl("end_if_0"))),
            Instr::LabelI(lbl("else_0")),
            mov_rax(Arg64::Imm(4)),
            Instr::LabelI(lbl("end_if_0")),
        ]
    );
    assert_eq!(com.label_index, 1);
}

#[test]
fn if_on_a_number_keeps_only_the_first_branch() {
    let e = Expr::If(b(num(0)), b(num(1)), b(var("undefined")));
    let (r, com) = compile_fresh(&e);
    assert_eq!(r.unwrap(), vec![mov_rax(Arg64::Imm(0)), mov_rax(Arg64::Imm(2))]);
    assert_eq!(com.label_index, 1);
}

#[test]
fn labels_carry_the_label_number() {
    let e = Expr::If(b(boolean(false)), b(num(1)), b(num(2)));
    let co = Context::new(None);
    let mut com = ContextMut::new();
    com.label_index = 12;
    let r = try_compile_expr(&e, &co, &mut com).unwrap();
    assert_eq!(label_names(&r), vec!["else_12".to_string(), "end_if_12".to_string()]);
    assert_eq!(com.label_index, 13);
}

#[test]
fn loop_with_break() {
    let e = Expr::Loop(b(Expr::Break(b(num(1)))));
    let (r, com) = compile_fresh(&e);
    assert_eq!(
        r.unwrap(),
        vec![
            Instr::LabelI(lbl("begin_loop_0")),
            mov_rax(Arg64::Imm(2)),
            Instr::JumpI(Jump::U(lbl("end_loop_0"))),
            Instr::JumpI(Jump::U(lbl("begin_loop_0"))),
            Instr::LabelI(lbl("end_loop_0")),
        ]
    );
    assert_eq!(com.label_index, 1);
}

#[test]
fn loop_result_moves_to_target() {
    let e = Expr::Loop(b(Expr::Break(b(boolean(true)))));
    let co = Context::new(None).modify_target(Some(slot(3)));
    let mut com = ContextMut::new();
    let r = try_compile_expr(&e, &co, &mut com).unwrap();
    assert_eq!(r.last(), Some(&Instr::Mov(MovArgs::ToMem(slot(3), Arg64::OReg(Reg::Rax)))));
}

#[test]
fn dangling_break() {
    let (r, _) = compile_fresh(&Expr::Break(b(num(1))));
    let e = r.unwrap_err();
    assert_eq!(e.kind, ErrorKind::DanglingBreak);
    assert_eq!(e.message(), "dangling break");
}

#[test]
fn define_and_definition_are_not_compiled() {
    let (r, _) = compile_fresh(&Expr::Define("x".to_string(), b(num(1))));
    assert_eq!(err_kind(r), ErrorKind::DefineNotCompiled);
    let (r, _) = compile_fresh(&fundef("f", &[], num(1)));
    assert_eq!(err_kind(r), ErrorKind::DefinitionNotCompiled);
}

#[test]
fn assignment_to_unbound_variable() {
    let (r, _) = compile_fresh(&Expr::Assign("y".to_string(), b(num(1))));
    let e = r.unwrap_err();
    assert_eq!(e.kind, ErrorKind::UnboundVariable);
    assert_eq!(e.subject, "y");
}

#[test]
fn assignment_to_let_variable() {
    let e = Expr::Let(vec![("x".to_string(), num(1))], b(Expr::Assign("x".to_string(), b(num(5)))));
    let (r, _) = compile_fresh(&e);
    assert_eq!(
        r.unwrap(),
        vec![
            Instr::Mov(MovArgs::ToMem(slot(0), Arg64::Imm(2))),
            mov_rax(Arg64::Imm(10)),
            Instr::Mov(MovArgs::ToMem(slot(0), Arg64::OReg(Reg::Rax))),
        ]
    );
}

#[test]
fn block_updates_heap_variables_and_forgets_its_own() {
    let co = Context::new(Some(1000));
    let mut com = ContextMut::new();
    com.env.insert("g".to_string(), VarEnv::new(5, None, true));
    let e = Expr::Let(
        vec![("x".to_string(), num(1))],
        b(Expr::Block(vec![Expr::Assign("g".to_string(), b(boolean(true))), var("g")])),
    );
    let r = try_compile_expr(&e, &co, &mut com).unwrap();
    let heap = MemRef { reg: Reg::Rbx, offset: 5 };
    assert_eq!(
        r,
        vec![
            Instr::Mov(MovArgs::ToMem(slot(0), Arg64::Imm(2))),
            mov_rax(Arg64::Imm(3)),
            Instr::Mov(MovArgs::ToReg(Reg::Rbx, Arg64::Imm64(1000))),
            Instr::Mov(MovArgs::ToMem(heap, Arg64::OReg(Reg::Rax))),
            Instr::Mov(MovArgs::ToReg(Reg::Rbx, Arg64::Imm64(1000))),
            mov_rax(Arg64::Mem(heap)),
        ]
    );
    assert_eq!(com.env.get("g"), Some(&VarEnv::new(5, Some(true), true)));
    assert!(!com.env.contains_key("x"));
    assert_eq!(com.result_is_bool, Some(true));
}

#[test]
fn block_error_leaves_state() {
    let mut com = ContextMut::new();
    com.label_index = 4;
    let e = Expr::Block(vec![Expr::If(b(boolean(true)), b(num(1)), b(num(2))), var("nope")]);
    let r = try_compile_expr(&e, &Context::new(None), &mut com);
    assert_eq!(err_kind(r), ErrorKind::UnboundVariable);
    assert_eq!(com.label_index, 4);
}

#[test]
fn undefined_function() {
    let (r, _) = compile_fresh(&Expr::FnCall("f".to_string(), vec![]));
    let e = r.unwrap_err();
    assert_eq!(e.kind, ErrorKind::UndefinedFunction);
    assert_eq!(e.message(), "Invalid: undefined function f");
}

#[test]
fn function_definition_code() {
    let mut com = ContextMut::new();
    let fns = vec![fundef("f", &["x"], var("x"))];
    let r = try_compile_func_defns(&fns, &mut com).unwrap();
    assert_eq!(
        r,
        vec![
            Instr::LabelI(lbl("fun_f")),
            Instr::Sub(MovArgs::ToReg(Reg::Rsp, Arg64::Imm(8))),
            mov_rax(Arg64::Mem(slot(0))),
            Instr::Add(MovArgs::ToReg(Reg::Rsp, Arg64::Imm(8))),
            Instr::Ret,
        ]
    );
    assert_eq!(com.fns.get("f"), Some(&FunEnv::new(1, 1)));
    assert_eq!(com.depth, 1);
}

#[test]
fn call_outside_tail_position() {
    let mut com = ContextMut::new();
    let fns = vec![fundef("f", &["x"], var("x"))];
    try_compile_func_defns(&fns, &mut com).unwrap();
    let main = Expr::FnCall("f".to_string(), vec![num(5)]);
    let r = try_compile_expr_aligned(&main, None, Some(&mut com), None).unwrap();
    assert_eq!(
        r,
        vec![
            Instr::Sub(MovArgs::ToReg(Reg::Rsp, Arg64::Imm(24))),
            Instr::Mov(MovArgs::ToMem(slot(0), Arg64::OReg(Reg::Rdi))),
            Instr::Mov(MovArgs::ToMem(slot(1), Arg64::Imm(10))),
            mov_rax(Arg64::Mem(slot(1))),
            Instr::Mov(MovArgs::ToMem(slot(-2), Arg64::OReg(Reg::Rax))),
            Instr::Call(lbl("fun_f")),
            Instr::Add(MovArgs::ToReg(Reg::Rsp, Arg64::Imm(24))),
        ]
    );
    assert_eq!(com.depth, 3);
}

#[test]
fn tail_call_reuses_the_frame() {
    let mut com = ContextMut::new();
    let fns = vec![fundef("f", &["x"], Expr::FnCall("f".to_string(), vec![var("x")]))];
    let r = try_compile_func_defns(&fns, &mut com).unwrap();
    assert_eq!(
        r,
        vec![
            Instr::LabelI(lbl("fun_f")),
            Instr::Sub(MovArgs::ToReg(Reg::Rsp, Arg64::Imm(24))),
            mov_rax(Arg64::Mem(slot(0))),
            Instr::Mov(MovArgs::ToMem(slot(1), Arg64::OReg(Reg::Rax))),
            mov_rax(Arg64::Mem(slot(1))),
            Instr::Mov(MovArgs::ToMem(slot(0), Arg64::OReg(Reg::Rax))),
            Instr::Add(MovArgs::ToReg(Reg::Rsp, Arg64::Imm(24))),
            Instr::JumpI(Jump::U(lbl("fun_f"))),
            Instr::Add(MovArgs::ToReg(Reg::Rsp, Arg64::Imm(24))),
            Instr::Ret,
        ]
    );
}

#[test]
fn tail_call_to_bigger_frame_moves_arguments_down() {
    // `g`'s frame is bigger than `f`'s: the argument moves to the bottom of `g`'s frame.
    let mut com = ContextMut::new();
    let g_body = Expr::Let(
        vec![("a".to_string(), num(1)), ("b".to_string(), num(2)), ("c".to_string(), num(3))],
        b(var("a")),
    );
    let fns = vec![
        fundef("f", &["x"], Expr::FnCall("g".to_string(), vec![var("x")])),
        fundef("g", &["y"], g_body),
    ];
    let r = try_compile_func_defns(&fns, &mut com).unwrap();
    assert_eq!(com.fns.get("f"), Some(&FunEnv::new(1, 3)));
    assert_eq!(com.fns.get("g"), Some(&FunEnv::new(1, 5)));
    assert_eq!(
        r[..9].to_vec(),
        vec![
            Instr::LabelI(lbl("fun_f")),
            Instr::Sub(MovArgs::ToReg(Reg::Rsp, Arg64::Imm(24))),
            mov_rax(Arg64::Mem(slot(0))),
            Instr::Mov(MovArgs::ToMem(slot(1), Arg64::OReg(Reg::Rax))),
            mov_rax(Arg64::Mem(slot(1))),
            Instr::Mov(MovArgs::ToMem(slot(-2), Arg64::OReg(Reg::Rax))),
            Instr::Add(MovArgs::ToReg(Reg::Rsp, Arg64::Imm(24))),
            Instr::JumpI(Jump::U(lbl("fun_g"))),
            Instr::Add(MovArgs::ToReg(Reg::Rsp, Arg64::Imm(24))),
        ]
    );
}

#[test]
fn tail_call_whose_arguments_would_move_up_moves_nothing() {
    // `f`'s frame is bigger than `g`'s and the argument lies below the place it would
    // go to: no move is made before the jump.
    let mut com = ContextMut::new();
    let big = Expr::BinOp(
        Op2::Plus,
        b(Expr::BinOp(Op2::Plus, b(Expr::BinOp(Op2::Plus, b(num(1)), b(num(2)))), b(num(3)))),
        b(num(4)),
    );
    let f_body = Expr::Let(vec![("a".to_string(), big)], b(Expr::FnCall("g".to_string(), vec![var("x")])));
    let fns = vec![fundef("f", &["x"], f_body), fundef("g", &["y"], var("y"))];
    let r = try_compile_func_defns(&fns, &mut com).unwrap();
    assert_eq!(com.fns.get("f"), Some(&FunEnv::new(1, 5)));
    assert_eq!(com.fns.get("g"), Some(&FunEnv::new(1, 1)));
    let jump = Instr::JumpI(Jump::U(lbl("fun_g")));
    let at = r.iter().position(|i| *i == jump).unwrap();
    assert_eq!(
        r[at - 3..at + 1].to_vec(),
        vec![
            mov_rax(Arg64::Mem(slot(0))),
            Instr::Mov(MovArgs::ToMem(slot(2), Arg64::OReg(Reg::Rax))),
            Instr::Add(MovArgs::ToReg(Reg::Rsp, Arg64::Imm(40))),
            jump,
        ]
    );
}

#[test]
fn mismatched_argument_count() {
    let mut com = ContextMut::new();
    try_compile_func_defns(&vec![fundef("f", &["x"], var("x"))], &mut com).unwrap();
    let r = try_compile_expr(&Expr::FnCall("f".to_string(), vec![]), &Context::new(None), &mut com);
    let e = r.unwrap_err();
    assert_eq!(e.kind, ErrorKind::ArgumentCount);
    assert_eq!(e.message(), "Invalid: mismatched argument count");
}

#[test]
fn function_redefined() {
    let mut com = ContextMut::new();
    let fns = vec![fundef("f", &[], num(1)), fundef("f", &["x"], num(2))];
    let e = try_compile_func_defns(&fns, &mut com).unwrap_err();
    assert_eq!(e.kind, ErrorKind::FunctionRedefined);
    assert_eq!(e.message(), "function redefined");
    assert!(com.fns.get("f").is_none());
}

#[test]
fn only_definitions_among_definitions() {
    let mut com = ContextMut::new();
    let e = try_compile_func_defns(&vec![num(1)], &mut com).unwrap_err();
    assert_eq!(e.kind, ErrorKind::NotADefinition);
    assert_eq!(e.message(), "Invalid: cannot compile anything other than function definitions here");
}

#[test]
fn duplicate_parameter() {
    let mut com = ContextMut::new();
    let e = try_compile_func_defns(&vec![fundef("f", &["x", "x"], num(1))], &mut com).unwrap_err();
    assert_eq!(e.kind, ErrorKind::DuplicateParameter);
    assert_eq!(e.message(), "duplicate parameter binding in definition");
}

#[test]
fn mutually_recursive_functions_see_each_other() {
    let mut com = ContextMut::new();
    let fns = vec![
        fundef("even", &["n"], Expr::FnCall("odd".to_string(), vec![var("n")])),
        fundef("odd", &["n"], Expr::FnCall("even".to_string(), vec![var("n")])),
    ];
    let r = try_compile_func_defns(&fns, &mut com).unwrap();
    assert_eq!(label_names(&r), vec!["fun_even".to_string(), "fun_odd".to_string()]);
}

#[test]
fn aligned_main_without_input() {
    let r = try_compile_expr_aligned(&num(1), None, None, None).unwrap();
    assert_eq!(
        r,
        vec![
            Instr::Sub(MovArgs::ToReg(Reg::Rsp, Arg64::Imm(24))),
            Instr::Mov(MovArgs::ToMem(slot(0), Arg64::OReg(Reg::Rdi))),
            mov_rax(Arg64::Imm(2)),
            Instr::Add(MovArgs::ToReg(Reg::Rsp, Arg64::Imm(24))),
        ]
    );
}

#[test]
fn aligned_main_reads_input() {
    let mut com = ContextMut::new();
    let e = Expr::UnOp(Op1::Add1, b(var("input")));
    let r = try_compile_expr_aligned(&e, None, Some(&mut com), Some(false)).unwrap();
    assert_eq!(
        r,
        vec![
            Instr::Sub(MovArgs::ToReg(Reg::Rsp, Arg64::Imm(24))),
            Instr::Mov(MovArgs::ToMem(slot(0), Arg64::OReg(Reg::Rdi))),
            mov_rax(Arg64::Mem(slot(0))),
            Instr::Add(MovArgs::ToReg(Reg::Rax, Arg64::Imm(2))),
            Instr::Mov(MovArgs::ToReg(Reg::Rdi, Arg64::Imm(30))),
            Instr::JumpI(Jump::O(stub())),
            Instr::Add(MovArgs::ToReg(Reg::Rsp, Arg64::Imm(24))),
        ]
    );
    assert_eq!(com.depth, 3);
}

#[test]
fn aligned_frame_is_odd() {
    // Depth 2 plus 2 entry slots is 4, aligned up to 5.
    let e = Expr::BinOp(Op2::Plus, b(Expr::BinOp(Op2::Plus, b(num(1)), b(num(2)))), b(num(3)));
    let mut com = ContextMut::new();
    let r = try_compile_expr_aligned(&e, None, Some(&mut com), None).unwrap();
    assert_eq!(com.depth, 5);
    assert_eq!(r[0], Instr::Sub(MovArgs::ToReg(Reg::Rsp, Arg64::Imm(40))));
    assert_eq!(r[r.len() - 1], Instr::Add(MovArgs::ToReg(Reg::Rsp, Arg64::Imm(40))));
    // An input takes one slot more: 0 + 3 is already odd.
    let mut com2 = ContextMut::new();
    try_compile_expr_aligned(&num(1), None, Some(&mut com2), Some(true)).unwrap();
    assert_eq!(com2.depth, 3);
}

#[test]
fn aligned_main_with_given_context() {
    let co = Context::new(None).modify_si(4);
    let e = Expr::BinOp(Op2::Plus, b(num(1)), b(num(2)));
    let r = try_compile_expr_aligned(&e, Some(&co), None, None).unwrap();
    assert_eq!(r[2], Instr::Mov(MovArgs::ToMem(slot(4), Arg64::Imm(4))));
}

#[test]
fn aligned_main_error() {
    let e = try_compile_expr_aligned(&var("nope"), None, None, None).unwrap_err();
    assert_eq!(e.kind, ErrorKind::UnboundVariable);
}

#[test]
fn program_labels_are_distinct() {
    let mut com = ContextMut::new();
    let body = Expr::If(
        b(Expr::BinOp(Op2::Less, b(var("n")), b(num(1)))),
        b(num(0)),
        b(Expr::Loop(b(Expr::If(b(var("n")), b(Expr::Break(b(num(1)))), b(num(2)))))),
    );
    let fns = vec![fundef("f", &["n"], body)];
    let mut code = try_compile_func_defns(&fns, &mut com).unwrap();
    let main = Expr::Block(vec![
        Expr::If(b(boolean(true)), b(Expr::FnCall("f".to_string(), vec![num(3)])), b(num(1))),
        Expr::Loop(b(Expr::Break(b(Expr::If(b(var("input")), b(num(1)), b(num(2))))))),
    ]);
    code.extend(try_compile_expr_aligned(&main, None, Some(&mut com), None).unwrap());
    let names = label_names(&code);
    assert_eq!(names.len(), 13);
    for i in 0..names.len() {
        for j in 0..names.len() {
            if i != j {
                assert_ne!(names[i], names[j]);
            }
        }
    }
    assert_eq!(com.label_index, 6);
}

#[test]
fn listing_of_code() {
    let e = Expr::If(b(boolean(true)), b(num(1)), b(num(2)));
    let (r, _) = compile_fresh(&e);
    let text = instrs_to_string(&r.unwrap());
    assert_eq!(
        text,
        " mov rax, 3\n cmp rax, 1\n je else_0\n mov rax, 2\n jmp end_if_0\nelse_0:\n mov rax, 4\nend_if_0:"
    );
}

#[test]
fn listing_of_memory_operands() {
    let code = vec![
        Instr::Mov(MovArgs::ToMem(slot(-2), Arg64::OReg(Reg::Rax))),
        Instr::Test(MovArgs::ToMem(slot(1), Arg64::Imm(1))),
        Instr::Mul(Reg::Rax, Arg64::Mem(slot(3))),
        Instr::Sar(Reg::Rax, 1),
        Instr::Mov(MovArgs::ToReg(Reg::Rbx, Arg64::Imm64(-4611686018427387904))),
        Instr::Push(Reg::Rax),
        Instr::Pop(Reg::Rbx),
        Instr::CMovI(CMov::LE(Reg::Rax, Arg64::OReg(Reg::Rbx))),
        Instr::JumpI(Jump::Nz(stub())),
        Instr::Call(lbl("snek_print")),
        Instr::Ret,
    ];
    assert_eq!(
        instrs_to_string(&code),
        " mov qword [rsp + -16], rax\n test qword [rsp + 8], 1\n imul rax, qword [rsp + 24]\n sar rax, 1\n \
         mov rbx, -4611686018427387904\n push rax\n pop rbx\n cmovle rax, rbx\n jnz snek_error_stub\n \
         call snek_print\n ret"
    );
}

#[test]
fn listing_of_nothing() {
    assert_eq!(instrs_to_string(&vec![]), "");
}

#[test]
fn instruction_text() {
    assert_eq!(Instr::LabelI(lbl("fun_f")).text(), "fun_f:");
    assert_eq!(Instr::Add(MovArgs::ToReg(Reg::Rsp, Arg64::Imm(24))).text(), "add rsp, 24");
}

#[test]
fn labels_defined_by_code() {
    let e = Expr::Loop(b(Expr::If(b(boolean(true)), b(Expr::Break(b(num(1)))), b(num(2)))));
    let (r, _) = compile_fresh(&e);
    let labels = defined_labels(&r.unwrap());
    let names: Vec<String> = labels.iter().map(|l| l.name.clone()).collect();
    assert_eq!(names, vec!["begin_loop_0", "else_1", "end_if_1", "end_loop_0"]);
    assert!(defined_labels(&vec![Instr::Ret]).is_empty());
}

#[test]
fn error_messages() {
    assert_eq!(CompileError::plain(ErrorKind::DuplicateBinding).message(), "Duplicate binding");
    assert_eq!(CompileError::plain(ErrorKind::NumberTooLarge).message(), "Invalid");
    assert_eq!(CompileError::plain(ErrorKind::DefineNotCompiled).message(), "define cannot be compiled");
    assert_eq!(
        CompileError::plain(ErrorKind::DefinitionNotCompiled).message(),
        "Invalid: fn defn cannot be compiled here"
    );
    assert_eq!(CompileError::new(ErrorKind::UnboundVariable, "zz").message(), "Unbound variable identifier zz");
}

#[test]
fn context_modifiers() {
    let co = Context::new(Some(7));
    assert_eq!(co.get_heap(), 7);
    let c2 = co.modify(Some(3), None, Some(lbl("end_loop_2")), Some(Some(slot(3))), Some(true));
    assert_eq!(c2.si, 3);
    assert_eq!(c2.label, lbl("end_loop_2"));
    assert_eq!(c2.target, Some(slot(3)));
    assert!(c2.tail);
    assert_eq!(c2.src_to_target(Arg64::Imm(1)), MovArgs::ToMem(slot(3), Arg64::Imm(1)));
    let mut code = vec![];
    c2.rax_to_target(&mut code);
    assert_eq!(code, vec![Instr::Mov(MovArgs::ToMem(slot(3), Arg64::OReg(Reg::Rax)))]);
    assert_eq!(c2.target_to_reg(Reg::Rdi), vec![Instr::Mov(MovArgs::ToReg(Reg::Rdi, Arg64::Mem(slot(3))))]);
    let mut com = ContextMut::new();
    assert_eq!(com.label("else"), lbl("else_0"));
    com.index_used();
    assert_eq!(com.label("x"), lbl("x_1"));
    let c3 = com.new_ce_label(&co, lbl("end"));
    assert_eq!(c3.label, lbl("end"));
}

fn stack_writes(code: &[Instr]) -> Vec<i32> {
    let mut out = vec![];
    for i in code {
        match i {
            Instr::Mov(MovArgs::ToMem(m, _))
            | Instr::Add(MovArgs::ToMem(m, _))
            | Instr::Sub(MovArgs::ToMem(m, _))
            | Instr::And(MovArgs::ToMem(m, _)) => {
                if m.reg == Reg::Rsp {
                    out.push(m.offset)
                }
            }
            Instr::Push(_) | Instr::Call(_) => out.push(-1),
            _ => {}
        }
    }
    out
}

fn targets(code: &[Instr]) -> Vec<String> {
    code.iter()
        .filter_map(|i| match i {
            Instr::JumpI(Jump::U(l)) | Instr::JumpI(Jump::E(l)) | Instr::JumpI(Jump::Nz(l)) | Instr::JumpI(Jump::O(l)) => {
                Some(l.name.clone())
            }
            Instr::Call(l) => Some(l.name.clone()),
            _ => None,
        })
        .collect()
}

#[test]
fn main_code_writes_inside_its_frame() {
    let e = Expr::Let(
        vec![
            ("a".to_string(), Expr::BinOp(Op2::Plus, b(Expr::BinOp(Op2::Times, b(num(2)), b(num(3)))), b(num(4)))),
            ("b".to_string(), Expr::BinOp(Op2::Equal, b(var("a")), b(var("input")))),
        ],
        b(Expr::Block(vec![Expr::Assign("a".to_string(), b(Expr::UnOp(Op1::Add1, b(var("a"))))), var("b")])),
    );
    let mut com = ContextMut::new();
    let code = try_compile_expr_aligned(&e, None, Some(&mut com), None).unwrap();
    let frame = com.depth;
    assert_eq!(frame, 5);
    let writes = stack_writes(&code);
    // The first free slot is 1 and the expression needs 2 slots.
    assert_eq!(writes.iter().max(), Some(&2));
    for w in writes {
        assert!(w < frame);
    }
}

#[test]
fn function_code_writes_inside_its_frame() {
    let body = Expr::Let(
        vec![("t".to_string(), Expr::BinOp(Op2::Minus, b(var("x")), b(var("y"))))],
        b(Expr::If(
            b(Expr::BinOp(Op2::Less, b(var("t")), b(num(0)))),
            b(Expr::FnCall("g".to_string(), vec![var("t"), num(1)])),
            b(var("t")),
        )),
    );
    let fns = vec![fundef("g", &["x", "y"], body)];
    let mut com = ContextMut::new();
    let code = try_compile_func_defns(&fns, &mut com).unwrap();
    let frame = com.fns.get("g").unwrap().depth;
    assert_eq!(frame, 5);
    for w in stack_writes(&code) {
        assert!(w < frame);
    }
}

#[test]
fn call_arguments_can_need_more_slots_than_the_frame_counts() {
    // `depth` counts one slot per argument of a call, not the slots that evaluating an
    // argument takes: here the argument writes slot 1 of a frame of 1 slot.
    let arg = Expr::BinOp(Op2::Plus, b(Expr::BinOp(Op2::Plus, b(num(1)), b(num(2)))), b(num(3)));
    let fns = vec![fundef("f", &[], Expr::FnCall("g".to_string(), vec![arg])), fundef("g", &["x"], var("x"))];
    let mut com = ContextMut::new();
    let code = try_compile_func_defns(&fns, &mut com).unwrap();
    assert_eq!(com.fns.get("f"), Some(&FunEnv::new(0, 1)));
    assert!(code.contains(&Instr::Mov(MovArgs::ToMem(slot(1), Arg64::Imm(4)))));
}

#[test]
fn program_jumps_land_on_its_labels() {
    let fns = vec![
        fundef(
            "loop_down",
            &["n"],
            Expr::If(
                b(Expr::BinOp(Op2::Equal, b(var("n")), b(num(0)))),
                b(num(0)),
                b(Expr::FnCall("loop_down".to_string(), vec![Expr::UnOp(Op1::Sub1, b(var("n")))])),
            ),
        ),
        fundef("show", &["v"], Expr::UnOp(Op1::Print, b(var("v")))),
    ];
    let mut com = ContextMut::new();
    let mut code = try_compile_func_defns(&fns, &mut com).unwrap();
    let main = Expr::Loop(b(Expr::If(
        b(Expr::BinOp(Op2::Greater, b(var("input")), b(num(3)))),
        b(Expr::Break(b(Expr::FnCall("show".to_string(), vec![var("input")])))),
        b(Expr::FnCall("loop_down".to_string(), vec![num(2)])),
    )));
    code.extend(try_compile_expr_aligned(&main, None, Some(&mut com), None).unwrap());
    let defined = label_names(&code);
    let ts = targets(&code);
    assert!(ts.contains(&"fun_loop_down".to_string()));
    assert!(ts.contains(&"end_loop_1".to_string()));
    for t in ts {
        assert!(defined.contains(&t) || t == "snek_error_stub" || t == "snek_print", "{t}");
    }
}

#[test]
fn only_the_last_expression_of_a_block_is_in_tail_position() {
    let fns = vec![
        fundef(
            "f",
            &["x"],
            Expr::Block(vec![
                Expr::FnCall("g".to_string(), vec![var("x")]),
                Expr::FnCall("g".to_string(), vec![var("x")]),
            ]),
        ),
        fundef("g", &["y"], var("y")),
    ];
    let mut com = ContextMut::new();
    let r = try_compile_func_defns(&fns, &mut com).unwrap();
    assert_eq!(
        r[..13].to_vec(),
        vec![
            Instr::LabelI(lbl("fun_f")),
            Instr::Sub(MovArgs::ToReg(Reg::Rsp, Arg64::Imm(24))),
            mov_rax(Arg64::Mem(slot(0))),
            Instr::Mov(MovArgs::ToMem(slot(1), Arg64::OReg(Reg::Rax))),
            mov_rax(Arg64::Mem(slot(1))),
            Instr::Mov(MovArgs::ToMem(slot(-2), Arg64::OReg(Reg::Rax))),
            Instr::Call(lbl("fun_g")),
            mov_rax(Arg64::Mem(slot(0))),
            Instr::Mov(MovArgs::ToMem(slot(1), Arg64::OReg(Reg::Rax))),
            Instr::Add(MovArgs::ToReg(Reg::Rsp, Arg64::Imm(24))),
            Instr::JumpI(Jump::U(lbl("fun_g"))),
            Instr::Add(MovArgs::ToReg(Reg::Rsp, Arg64::Imm(24))),
            Instr::Ret,
        ]
    );
}

#[test]
fn tail_call_with_arguments_in_place_moves_nothing() {
    let f_body = Expr::Let(vec![("a".to_string(), num(1))], b(Expr::FnCall("g".to_string(), vec![var("x")])));
    let fns = vec![fundef("f", &["x"], f_body), fundef("g", &["y"], var("y"))];
    let mut com = ContextMut::new();
    let r = try_compile_func_defns(&fns, &mut com).unwrap();
    assert_eq!(com.fns.get("f"), Some(&FunEnv::new(1, 3)));
    assert_eq!(com.fns.get("g"), Some(&FunEnv::new(1, 1)));
    assert_eq!(
        r[..9].to_vec(),
        vec![
            Instr::LabelI(lbl("fun_f")),
            Instr::Sub(MovArgs::ToReg(Reg::Rsp, Arg64::Imm(24))),
            Instr::Mov(MovArgs::ToMem(slot(1), Arg64::Imm(2))),
            mov_rax(Arg64::Mem(slot(0))),
            Instr::Mov(MovArgs::ToMem(slot(2), Arg64::OReg(Reg::Rax))),
            Instr::Add(MovArgs::ToReg(Reg::Rsp, Arg64::Imm(24))),
            Instr::JumpI(Jump::U(lbl("fun_g"))),
            Instr::Add(MovArgs::ToReg(Reg::Rsp, Arg64::Imm(24))),
            Instr::Ret,
        ]
    );
}

#[test]
fn decimal_text() {
    assert_eq!(nat_text(0), "0");
    assert_eq!(nat_text(1234567890), "1234567890");
    assert_eq!(nat_text(u64::MAX), "18446744073709551615");
    assert_eq!(int_text(-5), "-5");
    assert_eq!(int_text(i64::MIN), "-9223372036854775808");
    assert_eq!(int_text(i64::MAX), "9223372036854775807");
}

#[test]
fn listing_of_joined_code() {
    let a = vec![Instr::Ret, Instr::LabelI(lbl("x"))];
    let bb = vec![Instr::Push(Reg::Rax)];
    let joined = [a.clone(), bb.clone()].concat();
    assert_eq!(instrs_to_string(&joined), instrs_to_string(&a) + "\n" + &instrs_to_string(&bb));
}

#[test]
fn depth_covers_its_parts() {
    let body = Expr::BinOp(Op2::Plus, b(Expr::BinOp(Op2::Plus, b(num(1)), b(num(2)))), b(num(3)));
    let e = Expr::Let(vec![("a".to_string(), num(1)), ("b".to_string(), num(2))], b(body));
    // Two bindings and a body of depth 2.
    assert_eq!(depth(&e), 4);
    let smaller = Expr::Let(vec![("a".to_string(), num(1)), ("b".to_string(), num(2))], b(num(0)));
    assert!(depth(&smaller) <= depth(&e));
}

#[test]
fn labels_of_successive_calls_sharing_a_state_differ() {
    let mut com = ContextMut::new();
    let e = Expr::If(b(boolean(true)), b(Expr::Loop(b(Expr::Break(b(num(1)))))), b(num(2)));
    let mut code = try_compile_expr(&e, &Context::new(None), &mut com).unwrap();
    code.extend(try_compile_expr(&e, &Context::new(None), &mut com).unwrap());
    code.extend(try_compile_expr_aligned(&e, None, Some(&mut com), None).unwrap());
    let names = label_names(&code);
    assert_eq!(names.len(), 12);
    for i in 0..names.len() {
        for j in i + 1..names.len() {
            assert_ne!(names[i], names[j]);
        }
    }
}

#[test]
fn compiling_valid_programs_directly() {
    let co = Context::new(None);
    let mut com = ContextMut::new();
    assert_eq!(compile_expr(&num(5), &co, &mut com), vec![mov_rax(Arg64::Imm(10))]);
    assert_eq!(com.result_is_bool, Some(false));
    let fns = vec![fundef("f", &["x"], var("x"))];
    let code = compile_func_defns(&fns, &mut com);
    assert_eq!(code[0], Instr::LabelI(lbl("fun_f")));
    let main = compile_expr_aligned(&Expr::FnCall("f".to_string(), vec![num(1)]), None, Some(&mut com), None);
    assert!(main.contains(&Instr::Call(lbl("fun_f"))));
    assert_eq!(compile_expr_aligned(&num(1), None, None, None).len(), 4);
}

#[test]
fn a_clone_of_the_state_tells_whether_a_program_compiles() {
    let co = Context::new(None);
    let mut com = ContextMut::new();
    let bad = var("nope");
    let mut probe = com.clone();
    assert!(try_compile_expr(&bad, &co, &mut probe).is_err());
    let good = Expr::If(b(boolean(true)), b(num(1)), b(num(2)));
    let mut probe = com.clone();
    let expected = try_compile_expr(&good, &co, &mut probe).unwrap();
    assert_eq!(compile_expr(&good, &co, &mut com), expected);
    assert_eq!(com.label_index, probe.label_index);
}

#[test]
fn labels_stay_distinct_across_interleaved_definitions_and_expressions() {
    let mut com = ContextMut::new();
    let looping = |name: &str| fundef(name, &["n"], Expr::Loop(b(Expr::If(b(var("n")), b(Expr::Break(b(num(1)))), b(num(2))))));
    let mut code = try_compile_func_defns(&vec![looping("f")], &mut com).unwrap();
    let e = Expr::If(b(boolean(true)), b(num(1)), b(num(2)));
    code.extend(try_compile_expr(&e, &Context::new(None), &mut com).unwrap());
    code.extend(try_compile_func_defns(&vec![looping("g")], &mut com).unwrap());
    code.extend(try_compile_expr_aligned(&e, None, Some(&mut com), None).unwrap());
    let names = label_names(&code);
    assert_eq!(names.len(), 14);
    for i in 0..names.len() {
        for j in i + 1..names.len() {
            assert_ne!(names[i], names[j]);
        }
    }
}
