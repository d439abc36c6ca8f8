//! The compiler: from expressions and function definitions to instructions.
use vstd::prelude::*;
use crate::ast::{Expr, size, stack_depth, aligned, bindings_depth, list_depth, list_size, bindings_size,
    lemma_depth_bounds, lemma_depth_covers, lemma_bindings_depth_bounds, lemma_list_depth_bounds};
use crate::ast::{Op1, Op2};
use crate::codegen::{slot_bound, error_label, fun_label, fail_code, step_code, unop_code, binop_code, copy_slots,
    equal_code, operand_checks, operation_code};
use crate::context::{Context, ContextMut, VarEnv, FunEnv, CtxV, ComV};
use crate::error::ErrV;
use crate::instr::InstrV;
use crate::ast::{lemma_list_size_len, lemma_bindings_size_len};
use im::HashMap;
use crate::codegen::{fits, compiled, compile_spec, num_spec, var_spec, unop_spec, binop_spec, let_spec, if_spec,
    loop_spec, block_spec, break_spec, assign_spec, call_spec, bindings_spec, sequence_spec, args_spec,
    lemma_compile_state, lemma_bindings_state, lemma_args_state, frames_fit,
    produces, main_ctx, fresh_state, aligned_spec, aligned_fits, entry_slots,
    defs_table_spec, params_spec, defn_spec, defns_spec, func_defns_spec, defns_fit, fun_entry};
use crate::envmap::{vars_update, vars_get, vars_contains, vars_insert, vars_clone, vars_extend, vars_new, var_entries,
    funs_get, funs_new, funs_insert, funs_extend, fun_entries, seen_new, seen_contains, seen_insert, seen_entries};
use crate::error::{CompileError, ErrorKind};
use crate::instr::{Arg64, CMov, Instr, Jump, Label, MemRef, MovArgs, Reg, code_view, push_code, append_code};
pub use crate::listing::instrs_to_string;

verus! {

/// The number of stack slots that evaluating `e` takes.
pub fn depth(e: &Expr) -> (r: i32)
    requires
        stack_depth(*e) <= i32::MAX,
    ensures
        r == stack_depth(*e),
    decreases e, 1int, 0int,
{
    proof {
        lemma_depth_covers(*e);
    }
    match e {
        Expr::Num(_) => 0,
        Expr::Var(_) => 0,
        Expr::Boolean(_) => 0,
        Expr::UnOp(_, a) => depth(a),
        Expr::BinOp(_, a, b) => {
            let right = depth(b);
            let left = depth(a) + 1;
            if right >= left {
                right
            } else {
                left
            }
        },
        Expr::Let(bs, body) => {
            proof {
                lemma_depth_covers(**body);
                assert(bs@.skip(0) =~= bs@);
            }
            let bound = bindings_depth_from(e, 0);
            let rest = bs.len() as i32 + depth(body);
            if bound >= rest {
                bound
            } else {
                rest
            }
        },
        Expr::If(a, b, c) => {
            let da = depth(a);
            let db = depth(b);
            let dc = depth(c);
            let m = if da >= db {
                da
            } else {
                db
            };
            if m >= dc {
                m
            } else {
                dc
            }
        },
        Expr::Loop(a) => depth(a),
        Expr::Block(es) => {
            proof {
                assert(es@.skip(0) =~= es@);
            }
            list_depth_from(e, 0)
        },
        Expr::Break(a) => depth(a),
        Expr::Assign(_, a) => depth(a),
        Expr::Define(_, a) => depth(a),
        Expr::FnDefn(_, vs, body) => {
            proof {
                lemma_depth_covers(**body);
            }
            depth_aligned(body, vs.len() as i32)
        },
        Expr::FnCall(_, args) => args.len() as i32,
    }
}

/// The bindings from the `k`-th on need no more slots than all of them do.
proof fn lemma_skip_bindings_depth(bs: Seq<(String, Expr)>, k: int)
    requires
        0 <= k <= bs.len(),
    ensures
        bindings_depth(bs.skip(k), k) <= bindings_depth(bs, 0),
    decreases k,
{
    if k > 0 {
        lemma_skip_bindings_depth(bs, k - 1);
        assert(bs.skip(k - 1).drop_first() =~= bs.skip(k));
    } else {
        assert(bs.skip(0) =~= bs);
    }
}

/// The expressions from the `k`-th on need no more slots than all of them do.
proof fn lemma_skip_list_depth(es: Seq<Expr>, k: int)
    requires
        0 <= k <= es.len(),
    ensures
        list_depth(es.skip(k)) <= list_depth(es),
    decreases k,
{
    if k > 0 {
        lemma_skip_list_depth(es, k - 1);
        assert(es.skip(k - 1).drop_first() =~= es.skip(k));
    } else {
        assert(es.skip(0) =~= es);
    }
}

/// [`bindings_depth`] of the bindings of the `let` `e` from the `k`-th on.
fn bindings_depth_from(e: &Expr, k: usize) -> (r: i32)
    requires
        e is Let,
        stack_depth(*e) <= i32::MAX,
        k <= e->Let_0@.len(),
    ensures
        r == bindings_depth(e->Let_0@.skip(k as int), k as int),
    decreases e, 0int, e->Let_0@.len() - k,
{
    match e {
        Expr::Let(bs, _) => {
            let ghost rest = bs@.skip(k as int);
            proof {
                lemma_depth_covers(*e);
                lemma_bindings_depth_bounds(rest, k as int);
            }
            if k == bs.len() {
                0
            } else {
                let b = &bs[k].1;
                proof {
                    assert(rest.drop_first() =~= bs@.skip(k + 1));
                    assert(bs@[k as int].1 == *b);
                    lemma_depth_covers(*b);
                    lemma_bindings_depth_bounds(rest.drop_first(), k + 1);
                }
                let here = k as i32 + depth(b);
                let later = bindings_depth_from(e, k + 1);
                if here >= later {
                    here
                } else {
                    later
                }
            }
        },
        _ => 0,
    }
}

/// [`list_depth`] of the expressions of the block `e` from the `k`-th on.
fn list_depth_from(e: &Expr, k: usize) -> (r: i32)
    requires
        e is Block,
        stack_depth(*e) <= i32::MAX,
        k <= e->Block_0@.len(),
    ensures
        r == list_depth(e->Block_0@.skip(k as int)),
    decreases e, 0int, e->Block_0@.len() - k,
{
    match e {
        Expr::Block(es) => {
            let ghost rest = es@.skip(k as int);
            proof {
                lemma_depth_covers(*e);
                lemma_list_depth_bounds(rest);
            }
            if k == es.len() {
                0
            } else {
                proof {
                    assert(rest.drop_first() =~= es@.skip(k + 1));
                    assert(stack_depth(es@[k as int]) <= stack_depth(*e));
                }
                let here = depth(&es[k]);
                let later = list_depth_from(e, k + 1);
                if here >= later {
                    here
                } else {
                    later
                }
            }
        },
        _ => 0,
    }
}

/// The frame size of an expression that needs `extra` more slots: its depth plus
/// `extra`, rounded up to an odd number so that the stack stays 16-byte aligned.
fn depth_aligned(e: &Expr, extra: i32) -> (r: i32)
    requires
        stack_depth(*e) <= i32::MAX,
        stack_depth(*e) + extra <= i32::MAX,
    ensures
        r == aligned(stack_depth(*e) + extra),
        r % 2 == 1,
        stack_depth(*e) + extra <= r <= stack_depth(*e) + extra + 1,
        r == stack_depth(*e) + extra <==> (stack_depth(*e) + extra) % 2 != 0,
    decreases e, 2int, 0int,
{
    proof {
        lemma_depth_covers(*e);
    }
    let d = depth(e) + extra;
    if d % 2 != 0 {
        d
    } else {
        d + 1
    }
}

} // verus!

verus! {

/// The routine that reports run-time errors.
fn error_stub() -> (r: Label)
    ensures
        r@ == error_label(),
{
    Label::new(Some("snek_error_stub"))
}

/// The label of the function `name`.
fn function_label(name: &String) -> (r: Label)
    ensures
        r@ == fun_label(name@),
{
    let mut s = "fun_".to_owned();
    s.append(name.as_str());
    Label { name: s }
}

/// Appends `mov rdi, n` and the jump to the error routine.
fn fail_instrs(code: &mut Vec<Instr>, n: i32, jump: Jump)
    ensures
        code_view(final(code)@) == code_view(old(code)@) + fail_code(n, jump@),
{
    let ghost j = jump@;
    push_code(code, Instr::Mov(MovArgs::ToReg(Reg::Rdi, Arg64::Imm(n))));
    push_code(code, Instr::JumpI(jump));
    assert(code_view(code@) =~= code_view(old(code)@) + fail_code(n, j));
}

/// The code after the operand of `add1` or `sub1`.
fn step_instrs(op: Op1, t: Option<bool>, co: &Context) -> (r: Vec<Instr>)
    ensures
        code_view(r@) == step_code(op, t, co@),
{
    let mut code: Vec<Instr> = Vec::new();
    let arith = if op == Op1::Add1 {
        Instr::Add(co.src_to_target(Arg64::Imm(2)))
    } else {
        Instr::Sub(co.src_to_target(Arg64::Imm(2)))
    };
    match t {
        None => {
            push_code(&mut code, Instr::Test(co.src_to_target(Arg64::Imm(1))));
            fail_instrs(&mut code, 20, Jump::Nz(error_stub()));
            push_code(&mut code, arith);
            fail_instrs(&mut code, 30, Jump::O(error_stub()));
        },
        Some(true) => {
            fail_instrs(&mut code, 20, Jump::U(error_stub()));
        },
        Some(false) => {
            push_code(&mut code, arith);
            fail_instrs(&mut code, 30, Jump::O(error_stub()));
        },
    }
    assert(code_view(code@) =~= step_code(op, t, co@));
    code
}

/// The code after the operand of a unary operator, and the result type.
fn unop_instrs(op: Op1, t: Option<bool>, co: &Context) -> (r: (Vec<Instr>, Option<bool>))
    ensures
        code_view(r.0@) == unop_code(op, t, co@).0,
        r.1 == unop_code(op, t, co@).1,
{
    match op {
        Op1::Add1 => (step_instrs(op, t, co), Some(false)),
        Op1::Sub1 => (step_instrs(op, t, co), Some(false)),
        Op1::IsBool => {
            let mut code: Vec<Instr> = Vec::new();
            push_code(&mut code, Instr::And(co.src_to_target(Arg64::Imm(1))));
            push_code(&mut code, Instr::Mov(MovArgs::ToReg(Reg::Rax, Arg64::Imm(3))));
            push_code(&mut code, Instr::Mov(MovArgs::ToReg(Reg::Rbx, Arg64::Imm(1))));
            push_code(&mut code, Instr::CMovI(CMov::Z(Reg::Rax, Arg64::OReg(Reg::Rbx))));
            co.rax_to_target(&mut code);
            assert(code_view(code@) =~= unop_code(op, t, co@).0);
            (code, Some(true))
        },
        Op1::IsNum => {
            let mut code: Vec<Instr> = Vec::new();
            push_code(&mut code, Instr::And(co.src_to_target(Arg64::Imm(1))));
            push_code(&mut code, Instr::Mov(MovArgs::ToReg(Reg::Rax, Arg64::Imm(1))));
            push_code(&mut code, Instr::Mov(MovArgs::ToReg(Reg::Rbx, Arg64::Imm(3))));
            push_code(&mut code, Instr::CMovI(CMov::Z(Reg::Rax, Arg64::OReg(Reg::Rbx))));
            co.rax_to_target(&mut code);
            assert(code_view(code@) =~= unop_code(op, t, co@).0);
            (code, Some(true))
        },
        Op1::Print => {
            let mut code = co.target_to_reg(Reg::Rdi);
            push_code(&mut code, Instr::Call(Label::new(Some("snek_print"))));
            assert(code_view(code@) =~= unop_code(op, t, co@).0);
            (code, t)
        },
    }
}

/// The code after both operands of `=`, and the result type.
fn equal_instrs(lt: Option<bool>, rt: Option<bool>, co: &Context) -> (r: (Vec<Instr>, Option<bool>))
    ensures
        code_view(r.0@) == equal_code(lt, rt, co@).0,
        r.1 == equal_code(lt, rt, co@).1,
{
    let mem = Arg64::Mem(MemRef { reg: Reg::Rsp, offset: co.si });
    let mut code: Vec<Instr> = Vec::new();
    let mismatch = match (lt, rt) {
        (Some(a), Some(b)) => a != b,
        _ => false,
    };
    if mismatch {
        fail_instrs(&mut code, 21, Jump::Nz(error_stub()));
        assert(code_view(code@) =~= equal_code(lt, rt, co@).0);
        return (code, Some(true));
    }
    let check = lt.is_none() || rt.is_none();
    push_code(&mut code, Instr::Sub(MovArgs::ToReg(Reg::Rax, mem)));
    if check {
        push_code(&mut code, Instr::Push(Reg::Rax));
    }
    push_code(&mut code, Instr::Mov(MovArgs::ToReg(Reg::Rax, Arg64::Imm(1))));
    push_code(&mut code, Instr::Mov(MovArgs::ToReg(Reg::Rbx, Arg64::Imm(3))));
    push_code(&mut code, Instr::CMovI(CMov::E(Reg::Rax, Arg64::OReg(Reg::Rbx))));
    if check {
        push_code(&mut code, Instr::Pop(Reg::Rbx));
        push_code(&mut code, Instr::Test(MovArgs::ToReg(Reg::Rbx, Arg64::Imm(1))));
        fail_instrs(&mut code, 22, Jump::Nz(error_stub()));
    }
    co.rax_to_target(&mut code);
    assert(code_view(code@) =~= equal_code(lt, rt, co@).0);
    (code, Some(true))
}

/// Appends the checks that the operands whose types are not known are numbers.
fn operand_check_instrs(code: &mut Vec<Instr>, lt: Option<bool>, rt: Option<bool>, co: &Context)
    ensures
        code_view(final(code)@) == code_view(old(code)@) + operand_checks(lt, rt, co@),
{
    if lt.is_none() {
        push_code(code, Instr::Test(MovArgs::ToReg(Reg::Rax, Arg64::Imm(1))));
        fail_instrs(code, 24, Jump::Nz(error_stub()));
    }
    if rt.is_none() {
        push_code(code, Instr::Test(MovArgs::ToMem(MemRef { reg: Reg::Rsp, offset: co.si }, Arg64::Imm(1))));
        fail_instrs(code, 25, Jump::Nz(error_stub()));
    }
    assert(code_view(code@) =~= code_view(old(code)@) + operand_checks(lt, rt, co@));
}

/// Appends the code of an arithmetic operator or a comparison.
fn operation_instrs(code: &mut Vec<Instr>, op: Op2, co: &Context)
    ensures
        code_view(final(code)@) == code_view(old(code)@) + operation_code(op, co@),
{
    let mem = Arg64::Mem(MemRef { reg: Reg::Rsp, offset: co.si });
    match op {
        Op2::Plus | Op2::Minus | Op2::Times => {
            match op {
                Op2::Plus => push_code(code, Instr::Add(MovArgs::ToReg(Reg::Rax, mem))),
                Op2::Minus => push_code(code, Instr::Sub(MovArgs::ToReg(Reg::Rax, mem))),
                _ => {
                    push_code(code, Instr::Sar(Reg::Rax, 1));
                    push_code(code, Instr::Mul(Reg::Rax, mem));
                },
            }
            fail_instrs(code, 32, Jump::O(error_stub()));
        },
        _ => {
            push_code(code, Instr::Cmp(MovArgs::ToReg(Reg::Rax, mem)));
            push_code(code, Instr::Mov(MovArgs::ToReg(Reg::Rax, Arg64::Imm(1))));
            push_code(code, Instr::Mov(MovArgs::ToReg(Reg::Rbx, Arg64::Imm(3))));
            let mv = match op {
                Op2::Greater => CMov::G(Reg::Rax, Arg64::OReg(Reg::Rbx)),
                Op2::GreaterEqual => CMov::GE(Reg::Rax, Arg64::OReg(Reg::Rbx)),
                Op2::Less => CMov::L(Reg::Rax, Arg64::OReg(Reg::Rbx)),
                _ => CMov::LE(Reg::Rax, Arg64::OReg(Reg::Rbx)),
            };
            push_code(code, Instr::CMovI(mv));
        },
    }
    co.rax_to_target(code);
    assert(code_view(code@) =~= code_view(old(code)@) + operation_code(op, co@));
}

/// The code after both operands of a binary operator, and the result type.
fn binop_instrs(op: Op2, lt: Option<bool>, rt: Option<bool>, co: &Context) -> (r: (Vec<Instr>, Option<bool>))
    ensures
        code_view(r.0@) == binop_code(op, lt, rt, co@).0,
        r.1 == binop_code(op, lt, rt, co@).1,
{
    let arith = match op {
        Op2::Plus => true,
        Op2::Minus => true,
        Op2::Times => true,
        _ => false,
    };
    if op == Op2::Equal {
        equal_instrs(lt, rt, co)
    } else if matches!(lt, Some(true)) || matches!(rt, Some(true)) {
        let mut code: Vec<Instr> = Vec::new();
        fail_instrs(&mut code, 23, Jump::U(error_stub()));
        assert(code_view(code@) =~= binop_code(op, lt, rt, co@).0);
        (code, Some(!arith))
    } else {
        let mut code: Vec<Instr> = Vec::new();
        operand_check_instrs(&mut code, lt, rt, co);
        operation_instrs(&mut code, op, co);
        assert(code_view(code@) =~= binop_code(op, lt, rt, co@).0);
        (code, Some(!arith))
    }
}

/// Appends the moves of `n` slots from slot `from` on to slot `to` on, through `rax`.
fn slot_copies(code: &mut Vec<Instr>, from: i32, to: i32, n: i32)
    requires
        0 <= n,
        from + n <= i32::MAX,
        to + n <= i32::MAX,
    ensures
        code_view(final(code)@) == code_view(old(code)@) + copy_slots(from as int, to as int, n as nat),
{
    let mut i: i32 = 0;
    while i < n
        invariant
            0 <= i <= n,
            from + n <= i32::MAX,
            to + n <= i32::MAX,
            code_view(code@) == code_view(old(code)@) + copy_slots(from as int, to as int, i as nat),
        decreases n - i,
    {
        push_code(code, Instr::Mov(MovArgs::ToReg(Reg::Rax, Arg64::Mem(MemRef { reg: Reg::Rsp, offset: from + i }))));
        push_code(code, Instr::Mov(MovArgs::ToMem(MemRef { reg: Reg::Rsp, offset: to + i }, Arg64::OReg(Reg::Rax))));
        i = i + 1;
        assert(code_view(code@) =~= code_view(old(code)@) + copy_slots(from as int, to as int, i as nat));
    }
}

} // verus!

verus! {

/// Compiles `e` in the context `co`, threading the state `com`: the instructions that
/// leave the value of `e` in the context's target, or the first error met, which
/// tells that `e` is no valid program there.
pub fn try_compile_expr(e: &Expr, co: &Context, com: &mut ContextMut) -> (r: Result<Vec<Instr>, CompileError>)
    requires
        fits(*e, co@, old(com)@),
    ensures
        compiled(r, final(com)@, compile_spec(*e, co@, old(com)@)),
    decreases e, 2int, 0int,
{
    match e {
        Expr::Num(n) => compile_num(*n, co, com),
        Expr::Var(x) => compile_var(x, co, com),
        Expr::Boolean(b) => {
            let res = if *b {
                Arg64::Imm(3)
            } else {
                Arg64::Imm(1)
            };
            let mut instrs: Vec<Instr> = Vec::new();
            push_code(&mut instrs, Instr::Mov(co.src_to_target(res)));
            com.result_is_bool = Some(true);
            assert(code_view(instrs@) =~= compile_spec(*e, co@, old(com)@).0->Ok_0);
            assert(com@ =~= compile_spec(*e, co@, old(com)@).1);
            Ok(instrs)
        },
        Expr::UnOp(..) => compile_unop(e, co, com),
        Expr::BinOp(..) => compile_binop(e, co, com),
        Expr::Let(..) => compile_let(e, co, com),
        Expr::If(..) => compile_if(e, co, com),
        Expr::Loop(..) => compile_loop(e, co, com),
        Expr::Block(..) => compile_block(e, co, com),
        Expr::Break(..) => compile_break(e, co, com),
        Expr::Assign(..) => compile_assign(e, co, com),
        Expr::Define(..) => Err(CompileError::plain(ErrorKind::DefineNotCompiled)),
        Expr::FnDefn(..) => Err(CompileError::plain(ErrorKind::DefinitionNotCompiled)),
        Expr::FnCall(..) => compile_call(e, co, com),
    }
}

/// A number literal.
fn compile_num(n: i64, co: &Context, com: &mut ContextMut) -> (r: Result<Vec<Instr>, CompileError>)
    ensures
        compiled(r, final(com)@, num_spec(n, co@, old(com)@)),
{
    if n < -0x4000_0000_0000_0000 || n >= 0x4000_0000_0000_0000 {
        return Err(CompileError::plain(ErrorKind::NumberTooLarge));
    }
    let i = n * 2;
    let mut instrs: Vec<Instr> = Vec::new();
    if -0x8000_0000 <= i && i <= 0x7fff_ffff {
        push_code(&mut instrs, Instr::Mov(co.src_to_target(Arg64::Imm(i as i32))));
    } else {
        push_code(&mut instrs, Instr::Mov(MovArgs::ToReg(Reg::Rax, Arg64::Imm64(i))));
        co.rax_to_target(&mut instrs);
    }
    com.result_is_bool = Some(false);
    assert(code_view(instrs@) =~= num_spec(n, co@, old(com)@).0->Ok_0);
    assert(com@ =~= num_spec(n, co@, old(com)@).1);
    Ok(instrs)
}

/// A variable read.
fn compile_var(x: &String, co: &Context, com: &mut ContextMut) -> (r: Result<Vec<Instr>, CompileError>)
    ensures
        compiled(r, final(com)@, var_spec(x@, co@, old(com)@)),
{
    let found = if vars_contains(&co.env, x.as_str()) {
        vars_get(&co.env, x.as_str())
    } else {
        vars_get(&com.env, x.as_str())
    };
    match found {
        None => Err(CompileError::new(ErrorKind::UnboundVariable, x.as_str())),
        Some(venv) => {
            let mut instrs: Vec<Instr> = Vec::new();
            let reg = if venv.in_heap {
                push_code(&mut instrs, Instr::Mov(MovArgs::ToReg(Reg::Rbx, Arg64::Imm64(co.get_heap()))));
                Reg::Rbx
            } else {
                Reg::Rsp
            };
            push_code(&mut instrs, Instr::Mov(MovArgs::ToReg(Reg::Rax, Arg64::Mem(MemRef { reg, offset: venv.offset }))));
            co.rax_to_target(&mut instrs);
            com.result_is_bool = venv.is_bool;
            assert(code_view(instrs@) =~= var_spec(x@, co@, old(com)@).0->Ok_0);
            assert(com@ =~= var_spec(x@, co@, old(com)@).1);
            Ok(instrs)
        },
    }
}

/// A unary operation.
fn compile_unop(e: &Expr, co: &Context, com: &mut ContextMut) -> (r: Result<Vec<Instr>, CompileError>)
    requires
        e is UnOp,
        fits(*e, co@, old(com)@),
    ensures
        compiled(r, final(com)@, unop_spec(*e, co@, old(com)@)),
    decreases e, 1int, 0int,
{
    match e {
        Expr::UnOp(op, sub) => {
            let co1 = co.modify_tail(false);
            let mut instrs = try_compile_expr(sub, &co1, com)?;
            let (tail, t) = unop_instrs(*op, com.result_is_bool, &co1);
            append_code(&mut instrs, tail);
            com.result_is_bool = t;
            assert(com@ =~= unop_spec(*e, co@, old(com)@).1);
            Ok(instrs)
        },
        _ => Ok(Vec::new()),
    }
}

/// A binary operation.
fn compile_binop(e: &Expr, co: &Context, com: &mut ContextMut) -> (r: Result<Vec<Instr>, CompileError>)
    requires
        e is BinOp,
        fits(*e, co@, old(com)@),
    ensures
        compiled(r, final(com)@, binop_spec(*e, co@, old(com)@)),
    decreases e, 1int, 0int,
{
    match e {
        Expr::BinOp(op, left, right) => {
            let ghost m0 = com@;
            let co1 = co.modify_tail(false);
            let right_co = co1.modify_target(Some(MemRef { reg: Reg::Rsp, offset: co1.si }));
            let mut instrs = try_compile_expr(right, &right_co, com)?;
            let rtype = com.result_is_bool;
            proof {
                lemma_compile_state(**right, right_co@, m0);
            }
            let left_co = co1.modify(Some(co1.si + 1), None, None, Some(None), None);
            let sl = try_compile_expr(left, &left_co, com)?;
            let ltype = com.result_is_bool;
            append_code(&mut instrs, sl);
            let (tail, t) = binop_instrs(*op, ltype, rtype, &co1);
            append_code(&mut instrs, tail);
            com.result_is_bool = t;
            assert(com@ =~= binop_spec(*e, co@, old(com)@).1);
            Ok(instrs)
        },
        _ => Ok(Vec::new()),
    }
}

} // verus!

verus! {

/// A `let`.
fn compile_let(e: &Expr, co: &Context, com: &mut ContextMut) -> (r: Result<Vec<Instr>, CompileError>)
    requires
        e is Let,
        fits(*e, co@, old(com)@),
    ensures
        compiled(r, final(com)@, let_spec(*e, co@, old(com)@)),
    decreases e, 1int, 0int,
{
    match e {
        Expr::Let(bs, body) => {
            let ghost m0 = com@;
            proof {
                assert(bs@.skip(0) =~= bs@);
                lemma_bindings_size_len(bs@);
            }
            let seen = seen_new();
            proof {
                assert(seen_entries(seen).dom() =~= Set::<Seq<char>>::empty());
            }
            let (mut instrs, new_env) = compile_bindings(e, 0, co, vars_clone(&co.env), seen, com)?;
            proof {
                lemma_bindings_state(bs@, 0, co@, co@.env, Set::empty(), m0);
            }
            let n = bs.len();
            let body_co = co.modify(Some(co.si + n as i32), Some(new_env), None, None, None);
            let sb = try_compile_expr(body, &body_co, com)?;
            append_code(&mut instrs, sb);
            Ok(instrs)
        },
        _ => Ok(Vec::new()),
    }
}

/// The bindings of the `let` `e` from the `k`-th on, with the environment `env` of
/// the bindings before and the names `seen` that they bind.
fn compile_bindings(
    e: &Expr,
    k: usize,
    co: &Context,
    env: HashMap<String, VarEnv>,
    seen: HashMap<String, bool>,
    com: &mut ContextMut,
) -> (r: Result<(Vec<Instr>, HashMap<String, VarEnv>), CompileError>)
    requires
        e is Let,
        k <= e->Let_0@.len(),
        i32::MIN <= co@.si,
        co@.si + k + bindings_size(e->Let_0@.skip(k as int)) <= i32::MAX,
        k + bindings_size(e->Let_0@.skip(k as int)) <= slot_bound(),
        frames_fit(old(com)@),
        old(com)@.label_index + bindings_size(e->Let_0@.skip(k as int)) <= u64::MAX,
    ensures
        ({
            let out = bindings_spec(
                e->Let_0@.skip(k as int),
                k as int,
                co@,
                var_entries(env),
                seen_entries(seen).dom(),
                old(com)@,
            );
            &&& final(com)@ == out.2
            &&& match r {
                Ok((v, env2)) => out.0 == Ok::<Seq<InstrV>, ErrV>(code_view(v@)) && out.1 == var_entries(env2),
                Err(x) => out.0 == Err::<Seq<InstrV>, ErrV>(x@),
            }
        }),
    decreases e, 0int, e->Let_0@.len() - k,
{
    match e {
        Expr::Let(bs, _) => {
            let ghost rest = bs@.skip(k as int);
            if k == bs.len() {
                let v: Vec<Instr> = Vec::new();
                assert(code_view(v@) =~= Seq::<InstrV>::empty());
                return Ok((v, env));
            }
            let x = &bs[k].0;
            let b = &bs[k].1;
            proof {
                assert(rest.drop_first() =~= bs@.skip(k + 1));
            }
            if seen_contains(&seen, x.as_str()) {
                return Err(CompileError::plain(ErrorKind::DuplicateBinding));
            }
            let si = co.si + k as i32;
            let binding_co = co.modify(Some(si), Some(vars_clone(&env)), None, Some(Some(MemRef { reg: Reg::Rsp, offset: si })), Some(false));
            let ghost m0 = com@;
            let mut instrs = try_compile_expr(b, &binding_co, com)?;
            proof {
                lemma_compile_state(*b, binding_co@, m0);
            }
            let ghost seen0 = seen_entries(seen).dom();
            let mut seen = seen;
            let mut env = env;
            seen_insert(&mut seen, x.clone(), true);
            vars_insert(&mut env, x.clone(), VarEnv::new(si, com.result_is_bool, false));
            proof {
                assert(seen_entries(seen).dom() =~= seen0.insert(x@));
            }
            let (more, env2) = compile_bindings(e, k + 1, co, env, seen, com)?;
            append_code(&mut instrs, more);
            Ok((instrs, env2))
        },
        _ => Ok((Vec::new(), env)),
    }
}

/// An `if`.
fn compile_if(e: &Expr, co: &Context, com: &mut ContextMut) -> (r: Result<Vec<Instr>, CompileError>)
    requires
        e is If,
        fits(*e, co@, old(com)@),
    ensures
        compiled(r, final(com)@, if_spec(*e, co@, old(com)@)),
    decreases e, 1int, 0int,
{
    match e {
        Expr::If(cond, thn, els) => {
            let else_label = com.label("else");
            let end_if_label = com.label("end_if");
            com.index_used();
            let ghost m1 = com@;
            let cond_co = co.modify_target(None).modify_tail(false);
            let mut instrs = try_compile_expr(cond, &cond_co, com)?;
            proof {
                lemma_compile_state(**cond, cond_co@, m1);
            }
            let cond_type = com.result_is_bool;
            if cond_type.is_none() || cond_type.unwrap() {
                push_code(&mut instrs, Instr::Cmp(MovArgs::ToReg(Reg::Rax, Arg64::Imm(1))));
                push_code(&mut instrs, Instr::JumpI(Jump::E(else_label.clone())));
                let ghost m2 = com@;
                let st = try_compile_expr(thn, co, com)?;
                proof {
                    lemma_compile_state(**thn, co@, m2);
                }
                append_code(&mut instrs, st);
                push_code(&mut instrs, Instr::JumpI(Jump::U(end_if_label.clone())));
                push_code(&mut instrs, Instr::LabelI(else_label));
                let se = try_compile_expr(els, co, com)?;
                append_code(&mut instrs, se);
                push_code(&mut instrs, Instr::LabelI(end_if_label));
                assert(code_view(instrs@) =~= if_spec(*e, co@, old(com)@).0->Ok_0);
            } else {
                let st = try_compile_expr(thn, co, com)?;
                append_code(&mut instrs, st);
            }
            Ok(instrs)
        },
        _ => Ok(Vec::new()),
    }
}

/// A `loop`.
fn compile_loop(e: &Expr, co: &Context, com: &mut ContextMut) -> (r: Result<Vec<Instr>, CompileError>)
    requires
        e is Loop,
        fits(*e, co@, old(com)@),
    ensures
        compiled(r, final(com)@, loop_spec(*e, co@, old(com)@)),
    decreases e, 1int, 0int,
{
    match e {
        Expr::Loop(body) => {
            let begin_loop = com.label("begin_loop");
            let end_loop = com.label("end_loop");
            com.index_used();
            let mut instrs: Vec<Instr> = Vec::new();
            push_code(&mut instrs, Instr::LabelI(begin_loop.clone()));
            let body_co = com.new_ce_label(&co.modify_target(None), end_loop.clone());
            let sb = try_compile_expr(body, &body_co, com)?;
            append_code(&mut instrs, sb);
            push_code(&mut instrs, Instr::JumpI(Jump::U(begin_loop)));
            push_code(&mut instrs, Instr::LabelI(end_loop));
            co.rax_to_target(&mut instrs);
            assert(code_view(instrs@) =~= loop_spec(*e, co@, old(com)@).0->Ok_0);
            Ok(instrs)
        },
        _ => Ok(Vec::new()),
    }
}

/// A block.
fn compile_block(e: &Expr, co: &Context, com: &mut ContextMut) -> (r: Result<Vec<Instr>, CompileError>)
    requires
        e is Block,
        fits(*e, co@, old(com)@),
    ensures
        compiled(r, final(com)@, block_spec(*e, co@, old(com)@)),
    decreases e, 1int, 0int,
{
    match e {
        Expr::Block(es) => {
            let mut block_com = com.clone();
            vars_extend(&mut block_com.env, &co.env);
            let block_co = co.modify_env(vars_new());
            let block_co_rax = block_co.modify_target(None).modify_tail(false);
            proof {
                assert(es@.skip(0) =~= es@);
                assert(block_co@.env =~= Map::empty());
                assert(block_com@.fns == com@.fns);
                assert(frames_fit(block_com@));
            }
            let instrs = compile_sequence(e, 0, &block_co, &block_co_rax, &mut block_com)?;
            com.update_from(&block_com);
            assert(com@ =~= block_spec(*e, co@, old(com)@).1);
            Ok(instrs)
        },
        _ => Ok(Vec::new()),
    }
}

/// The expressions of the block `e` from the `k`-th on: the last in `last`, the
/// others in `rest`.
fn compile_sequence(e: &Expr, k: usize, last: &Context, rest: &Context, com: &mut ContextMut) -> (r: Result<Vec<Instr>, CompileError>)
    requires
        e is Block,
        k <= e->Block_0@.len(),
        i32::MIN <= last@.si,
        last@.si == rest@.si,
        last@.si + list_size(e->Block_0@.skip(k as int)) <= i32::MAX,
        list_size(e->Block_0@.skip(k as int)) <= slot_bound(),
        frames_fit(old(com)@),
        old(com)@.label_index + list_size(e->Block_0@.skip(k as int)) <= u64::MAX,
    ensures
        compiled(r, final(com)@, sequence_spec(e->Block_0@.skip(k as int), last@, rest@, old(com)@)),
    decreases e, 0int, e->Block_0@.len() - k,
{
    match e {
        Expr::Block(es) => {
            let ghost tail = es@.skip(k as int);
            if k == es.len() {
                let v: Vec<Instr> = Vec::new();
                assert(code_view(v@) =~= Seq::<InstrV>::empty());
                return Ok(v);
            }
            proof {
                assert(tail.drop_first() =~= es@.skip(k + 1));
            }
            let cx = if k + 1 == es.len() {
                last
            } else {
                rest
            };
            let ghost m0 = com@;
            let mut instrs = try_compile_expr(&es[k], cx, com)?;
            proof {
                lemma_compile_state(es@[k as int], cx@, m0);
            }
            let more = compile_sequence(e, k + 1, last, rest, com)?;
            append_code(&mut instrs, more);
            Ok(instrs)
        },
        _ => Ok(Vec::new()),
    }
}

/// A `break`.
fn compile_break(e: &Expr, co: &Context, com: &mut ContextMut) -> (r: Result<Vec<Instr>, CompileError>)
    requires
        e is Break,
        fits(*e, co@, old(com)@),
    ensures
        compiled(r, final(com)@, break_spec(*e, co@, old(com)@)),
    decreases e, 1int, 0int,
{
    match e {
        Expr::Break(sub) => {
            let co1 = co.modify_tail(false);
            if co1.label.name.as_str().is_empty() {
                return Err(CompileError::plain(ErrorKind::DanglingBreak));
            }
            let mut instrs = try_compile_expr(sub, &co1, com)?;
            push_code(&mut instrs, Instr::JumpI(Jump::U(co1.label.clone())));
            assert(code_view(instrs@) =~= break_spec(*e, co@, old(com)@).0->Ok_0);
            Ok(instrs)
        },
        _ => Ok(Vec::new()),
    }
}

/// An assignment.
fn compile_assign(e: &Expr, co: &Context, com: &mut ContextMut) -> (r: Result<Vec<Instr>, CompileError>)
    requires
        e is Assign,
        fits(*e, co@, old(com)@),
    ensures
        compiled(r, final(com)@, assign_spec(*e, co@, old(com)@)),
    decreases e, 1int, 0int,
{
    match e {
        Expr::Assign(x, sub) => {
            let co1 = co.modify_tail(false);
            let mut instrs = try_compile_expr(sub, &co1.modify_target(None), com)?;
            let venv = if vars_contains(&co1.env, x.as_str()) {
                vars_get(&co1.env, x.as_str()).unwrap()
            } else if vars_contains(&com.env, x.as_str()) {
                let old_var = vars_get(&com.env, x.as_str()).unwrap();
                let v = VarEnv { offset: old_var.offset, is_bool: com.result_is_bool, in_heap: old_var.in_heap };
                vars_insert(&mut com.env, x.clone(), v);
                v
            } else {
                return Err(CompileError::new(ErrorKind::UnboundVariable, x.as_str()));
            };
            let reg = if venv.in_heap {
                push_code(&mut instrs, Instr::Mov(MovArgs::ToReg(Reg::Rbx, Arg64::Imm64(co1.get_heap()))));
                Reg::Rbx
            } else {
                Reg::Rsp
            };
            push_code(&mut instrs, Instr::Mov(MovArgs::ToMem(MemRef { reg, offset: venv.offset }, Arg64::OReg(Reg::Rax))));
            co1.rax_to_target(&mut instrs);
            assert(code_view(instrs@) =~= assign_spec(*e, co@, old(com)@).0->Ok_0);
            assert(com@ =~= assign_spec(*e, co@, old(com)@).1);
            Ok(instrs)
        },
        _ => Ok(Vec::new()),
    }
}

/// A call.
fn compile_call(e: &Expr, co: &Context, com: &mut ContextMut) -> (r: Result<Vec<Instr>, CompileError>)
    requires
        e is FnCall,
        fits(*e, co@, old(com)@),
    ensures
        compiled(r, final(com)@, call_spec(*e, co@, old(com)@)),
    decreases e, 1int, 0int,
{
    match e {
        Expr::FnCall(name, args) => {
            let fenv = match funs_get(&com.fns, name.as_str()) {
                Some(f) => f,
                None => {
                    return Err(CompileError::new(ErrorKind::UndefinedFunction, name.as_str()));
                },
            };
            let n = args.len();
            proof {
                lemma_list_size_len(args@);
            }
            if fenv.argc != n as i32 {
                return Err(CompileError::plain(ErrorKind::ArgumentCount));
            }
            proof {
                assert(args@.skip(0) =~= args@);
            }
            let ghost m0 = com@;
            let mut instrs = compile_args(e, 0, co, com)?;
            proof {
                lemma_args_state(args@, 0, co@, m0);
            }
            let target = function_label(name);
            if co.tail {
                // Moves the arguments to the bottom of the frame.  When that is further
                // up the stack, the range of the copy is empty, so nothing moves.
                let diff = com.depth - fenv.depth;
                if co.si != diff {
                    if co.si > diff {
                        slot_copies(&mut instrs, co.si, diff, n as i32);
                    }
                }
                push_code(&mut instrs, Instr::Add(MovArgs::ToReg(Reg::Rsp, Arg64::Imm(com.depth * 8))));
                push_code(&mut instrs, Instr::JumpI(Jump::U(target)));
            } else {
                slot_copies(&mut instrs, co.si, -(fenv.depth + 1), n as i32);
                push_code(&mut instrs, Instr::Call(target));
                co.rax_to_target(&mut instrs);
            }
            assert(code_view(instrs@) =~= call_spec(*e, co@, old(com)@).0->Ok_0);
            Ok(instrs)
        },
        _ => Ok(Vec::new()),
    }
}

/// The arguments of the call `e` from the `k`-th on.
fn compile_args(e: &Expr, k: usize, co: &Context, com: &mut ContextMut) -> (r: Result<Vec<Instr>, CompileError>)
    requires
        e is FnCall,
        k <= e->FnCall_1@.len(),
        i32::MIN <= co@.si,
        co@.si + k + list_size(e->FnCall_1@.skip(k as int)) <= i32::MAX,
        k + list_size(e->FnCall_1@.skip(k as int)) <= slot_bound(),
        frames_fit(old(com)@),
        old(com)@.label_index + list_size(e->FnCall_1@.skip(k as int)) <= u64::MAX,
    ensures
        compiled(r, final(com)@, args_spec(e->FnCall_1@.skip(k as int), k as int, co@, old(com)@)),
    decreases e, 0int, e->FnCall_1@.len() - k,
{
    match e {
        Expr::FnCall(_, args) => {
            let ghost tail = args@.skip(k as int);
            if k == args.len() {
                let v: Vec<Instr> = Vec::new();
                assert(code_view(v@) =~= Seq::<InstrV>::empty());
                return Ok(v);
            }
            proof {
                assert(tail.drop_first() =~= args@.skip(k + 1));
            }
            let si = co.si + k as i32;
            let arg_co = co.modify(Some(si), None, None, Some(Some(MemRef { reg: Reg::Rsp, offset: si })), Some(false));
            let ghost m0 = com@;
            let mut instrs = try_compile_expr(&args[k], &arg_co, com)?;
            proof {
                lemma_compile_state(args@[k as int], arg_co@, m0);
            }
            let more = compile_args(e, k + 1, co, com)?;
            append_code(&mut instrs, more);
            Ok(instrs)
        },
        _ => Ok(Vec::new()),
    }
}

} // verus!

verus! {

/// The context of a top-level expression: the given one, or the default one.
pub open spec fn given_ctx(co: Option<&Context>) -> CtxV {
    match co {
        Some(c) => c@,
        None => main_ctx(),
    }
}

/// Compiles a top-level expression in the context `co`, or in one whose first free
/// slot is 1 when none is given, threading `com`, or a fresh state when none is given.
/// The frame is sized for `e` plus the saved input and the return address (and one
/// more slot when `input` is given) and kept 16-byte aligned; the input, in `rdi`,
/// goes to slot 0 and is known to `e` as `input`, of the type `input` gives.
pub fn try_compile_expr_aligned(
    e: &Expr,
    co: Option<&Context>,
    com: Option<&mut ContextMut>,
    input: Option<bool>,
) -> (r: Result<Vec<Instr>, CompileError>)
    requires
        aligned_fits(
            *e,
            given_ctx(co),
            match com {
                Some(m) => (*m)@,
                None => fresh_state(),
            },
        ),
    ensures
        match com {
            Some(m) => compiled(r, final(m)@, aligned_spec(*e, given_ctx(co), (*m)@, input)),
            None => produces(r, aligned_spec(*e, given_ctx(co), fresh_state(), input)),
        },
{
    let default_co = Context::new(None).modify_si(1);
    let co: &Context = match co {
        Some(x) => x,
        None => &default_co,
    };
    let mut fresh = ContextMut::new();
    let com: &mut ContextMut = match com {
        Some(x) => x,
        None => &mut fresh,
    };
    let ghost m = com@;
    proof {
        lemma_depth_bounds(*e);
    }
    com.depth = depth_aligned(e, if input.is_some() { 3 } else { 2 });
    let mut instrs: Vec<Instr> = Vec::new();
    push_code(&mut instrs, Instr::Sub(MovArgs::ToReg(Reg::Rsp, Arg64::Imm(com.depth * 8))));
    push_code(&mut instrs, Instr::Mov(MovArgs::ToMem(MemRef { reg: Reg::Rsp, offset: 0 }, Arg64::OReg(Reg::Rdi))));
    let env = vars_update(&co.env, "input".to_owned(), VarEnv::new(0, input, false));
    let body_co = co.modify_env(env);
    let ghost m0 = com@;
    assert(m0 == (ComV { depth: aligned(stack_depth(*e) + entry_slots(input)) as i32, ..m }));
    let body = try_compile_expr(e, &body_co, com)?;
    proof {
        lemma_compile_state(*e, body_co@, m0);
    }
    append_code(&mut instrs, body);
    push_code(&mut instrs, Instr::Add(MovArgs::ToReg(Reg::Rsp, Arg64::Imm(com.depth * 8))));
    assert(code_view(instrs@) =~= aligned_spec(*e, co@, m, input).0->Ok_0);
    Ok(instrs)
}

} // verus!

verus! {

/// Adds to `acc` the entries of the functions that the definitions from the `k`-th
/// on define.
fn defs_table(fns: &Vec<Expr>, k: usize, acc: &mut HashMap<String, FunEnv>) -> (r: Result<(), CompileError>)
    requires
        k <= fns@.len(),
        list_size(fns@.skip(k as int)) <= slot_bound(),
    ensures
        match r {
            Ok(()) => defs_table_spec(fns@.skip(k as int), fun_entries(*old(acc))) == Ok::<Map<Seq<char>, FunEnv>, ErrV>(fun_entries(*final(acc))),
            Err(x) => defs_table_spec(fns@.skip(k as int), fun_entries(*old(acc))) == Err::<Map<Seq<char>, FunEnv>, ErrV>(x@),
        },
    decreases fns@.len() - k,
{
    let ghost tail = fns@.skip(k as int);
    if k == fns.len() {
        return Ok(());
    }
    proof {
        assert(tail.drop_first() =~= fns@.skip(k + 1));
    }
    proof {
        assert(list_size(tail) == 1 + size(tail[0]) + list_size(tail.drop_first()));
    }
    match &fns[k] {
        Expr::FnDefn(name, vars, body) => {
            if funs_get(acc, name.as_str()).is_some() {
                return Err(CompileError::plain(ErrorKind::FunctionRedefined));
            }
            proof {
                lemma_depth_bounds(**body);
                assert(size(tail[0]) == 2 + vars@.len() + size(**body));
            }
            let n = vars.len() as i32;
            let entry = FunEnv::new(n, depth_aligned(body, n));
            funs_insert(acc, name.clone(), entry);
            defs_table(fns, k + 1, acc)
        },
        _ => Err(CompileError::plain(ErrorKind::NotADefinition)),
    }
}

/// Binds the parameters from the `k`-th on, each to its slot, in `env`.
fn bind_params(vars: &Vec<String>, k: usize, env: &mut HashMap<String, VarEnv>) -> (r: Result<(), CompileError>)
    requires
        k <= vars@.len() <= slot_bound(),
    ensures
        match r {
            Ok(()) => params_spec(vars@.skip(k as int), k as int, var_entries(*old(env))) == Ok::<Map<Seq<char>, VarEnv>, ErrV>(var_entries(*final(env))),
            Err(x) => params_spec(vars@.skip(k as int), k as int, var_entries(*old(env))) == Err::<Map<Seq<char>, VarEnv>, ErrV>(x@),
        },
    decreases vars@.len() - k,
{
    let ghost tail = vars@.skip(k as int);
    if k == vars.len() {
        return Ok(());
    }
    proof {
        assert(tail.drop_first() =~= vars@.skip(k + 1));
    }
    let v = &vars[k];
    let existing = vars_get(env, v.as_str());
    if existing.is_some() && !existing.unwrap().in_heap {
        return Err(CompileError::plain(ErrorKind::DuplicateParameter));
    }
    vars_insert(env, v.clone(), VarEnv::new(k as i32, None, false));
    bind_params(vars, k + 1, env)
}

/// The code of the definitions from the `k`-th on.
fn compile_defns(fns: &Vec<Expr>, k: usize, com: &mut ContextMut) -> (r: Result<Vec<Instr>, CompileError>)
    requires
        k <= fns@.len(),
        defns_fit(fns@.skip(k as int), old(com)@.fns),
        forall|f: Seq<char>| #[trigger] old(com)@.fns.contains_key(f) ==> -slot_bound() <= old(com)@.fns[f].depth <= slot_bound(),
        old(com)@.label_index + list_size(fns@.skip(k as int)) <= u64::MAX,
    ensures
        compiled(r, final(com)@, defns_spec(fns@.skip(k as int), old(com)@)),
    decreases fns@.len() - k,
{
    let ghost tail = fns@.skip(k as int);
    if k == fns.len() {
        let v: Vec<Instr> = Vec::new();
        assert(code_view(v@) =~= Seq::<InstrV>::empty());
        return Ok(v);
    }
    proof {
        assert(tail.drop_first() =~= fns@.skip(k + 1));
    }
    match &fns[k] {
        Expr::FnDefn(name, vars, body) => {
            com.depth = funs_get(&com.fns, name.as_str()).unwrap().depth;
            proof {
                assert(defns_fit(tail, com@.fns) == (defns_fit(tail.drop_first(), com@.fns) && (match tail[0] {
                    Expr::FnDefn(name, vars, body) => {
                        &&& com@.fns.contains_key(name@)
                        &&& -slot_bound() < com@.fns[name@].depth < slot_bound()
                        &&& vars@.len() + size(*body) <= slot_bound()
                    },
                    _ => true,
                })));
                assert(vars@.skip(0) =~= vars@);
                assert(list_size(tail) == 1 + size(tail[0]) + list_size(tail.drop_first()));
            }
            let mut co = Context::new(None).modify_si(vars.len() as i32).modify_tail(true);
            assert(co@.env =~= Map::<Seq<char>, VarEnv>::empty());
            bind_params(vars, 0, &mut co.env)?;
            let mut instrs: Vec<Instr> = Vec::new();
            push_code(&mut instrs, Instr::LabelI(function_label(name)));
            push_code(&mut instrs, Instr::Sub(MovArgs::ToReg(Reg::Rsp, Arg64::Imm(com.depth * 8))));
            let ghost m0 = com@;
            let sb = try_compile_expr(body, &co, com)?;
            proof {
                lemma_compile_state(**body, co@, m0);
            }
            append_code(&mut instrs, sb);
            push_code(&mut instrs, Instr::Add(MovArgs::ToReg(Reg::Rsp, Arg64::Imm(com.depth * 8))));
            push_code(&mut instrs, Instr::Ret);
            let ghost here = code_view(instrs@);
            assert(here =~= defn_spec(fns@[k as int], old(com)@).0->Ok_0);
            let more = compile_defns(fns, k + 1, com)?;
            append_code(&mut instrs, more);
            Ok(instrs)
        },
        _ => {
            compile_defns(fns, k + 1, com)
        },
    }
}

/// Compiles a list of function definitions, threading `com`: each function gets an
/// entry in `com`'s functions, so that calls can be compiled anywhere in the program,
/// then each definition's code follows, behind its label.
pub fn try_compile_func_defns(fns: &Vec<Expr>, com: &mut ContextMut) -> (r: Result<Vec<Instr>, CompileError>)
    requires
        list_size(fns@) + 4 <= slot_bound(),
        forall|f: Seq<char>| #[trigger] old(com)@.fns.contains_key(f) ==> -slot_bound() <= old(com)@.fns[f].depth <= slot_bound(),
        old(com)@.label_index + list_size(fns@) <= u64::MAX,
    ensures
        compiled(r, final(com)@, func_defns_spec(fns@, old(com)@)),
{
    let mut table = funs_new();
    proof {
        assert(fns@.skip(0) =~= fns@);
        assert(fun_entries(table) =~= Map::<Seq<char>, FunEnv>::empty());
        lemma_defs_table(fns@, Map::empty());
    }
    defs_table(fns, 0, &mut table)?;
    let ghost t = fun_entries(table);
    funs_extend(&mut com.fns, table);
    proof {
        lemma_defns_fit_grows(fns@, t, com@.fns);
    }
    compile_defns(fns, 0, com)
}

/// The table of a list of definitions that passes extends the table it starts from,
/// holds only small frames, and has an entry for each definition.
proof fn lemma_defs_table(fs: Seq<Expr>, acc: Map<Seq<char>, FunEnv>)
    requires
        list_size(fs) + 4 <= slot_bound(),
        forall|f: Seq<char>| #[trigger] acc.contains_key(f) ==> -slot_bound() <= acc[f].depth <= slot_bound(),
    ensures
        defs_table_spec(fs, acc) matches Ok(t) ==> {
            &&& forall|f: Seq<char>| #[trigger] acc.contains_key(f) ==> t.contains_key(f) && t[f] == acc[f]
            &&& forall|f: Seq<char>| #[trigger] t.contains_key(f) ==> -slot_bound() <= t[f].depth <= slot_bound()
            &&& defns_fit(fs, t)
        },
    decreases fs,
{
    if fs.len() > 0 {
        match fs[0] {
            Expr::FnDefn(name, vars, body) => {
                assert(list_size(fs) == 1 + size(fs[0]) + list_size(fs.drop_first()));
                if !acc.contains_key(name@) {
                    lemma_depth_bounds(*body);
                    let acc1 = acc.insert(name@, fun_entry(vars@, *body));
                    assert(0 <= fun_entry(vars@, *body).depth < slot_bound());
                    lemma_defs_table(fs.drop_first(), acc1);
                    assert(defs_table_spec(fs, acc) == defs_table_spec(fs.drop_first(), acc1));
                    if defs_table_spec(fs, acc) is Ok {
                        let t = defs_table_spec(fs, acc)->Ok_0;
                        assert(acc1.contains_key(name@));
                        assert(t.contains_key(name@) && t[name@] == fun_entry(vars@, *body));
                        assert(defns_fit(fs, t));
                        assert forall|f: Seq<char>| #[trigger] acc.contains_key(f) implies t.contains_key(f) && t[f] == acc[f] by {
                            assert(acc1.contains_key(f));
                        }
                    }
                }
            },
            _ => {},
        }
    }
}

/// Where a table of functions grows into another with the same entries, what fits the
/// first fits the second.
proof fn lemma_defns_fit_grows(fs: Seq<Expr>, t: Map<Seq<char>, FunEnv>, t2: Map<Seq<char>, FunEnv>)
    requires
        defns_fit(fs, t),
        forall|f: Seq<char>| #[trigger] t.contains_key(f) ==> t2.contains_key(f) && t2[f] == t[f],
    ensures
        defns_fit(fs, t2),
    decreases fs,
{
    if fs.len() > 0 {
        lemma_defns_fit_grows(fs.drop_first(), t, t2);
    }
}

} // verus!

verus! {

/// Whether `e` compiles in `c` from `m` without an error.
pub open spec fn compiles(e: Expr, c: CtxV, m: ComV) -> bool {
    compile_spec(e, c, m).0 is Ok
}

/// Compiles `e`, which compiles in `co` from `com` without an error (as
/// [`try_compile_expr`] tells, from a clone of `com`), threading `com`: the
/// instructions that leave the value of `e` in the context's target.
pub fn compile_expr(e: &Expr, co: &Context, com: &mut ContextMut) -> (r: Vec<Instr>)
    requires
        fits(*e, co@, old(com)@),
        compiles(*e, co@, old(com)@),
    ensures
        compile_spec(*e, co@, old(com)@).0 == Ok::<Seq<InstrV>, ErrV>(code_view(r@)),
        final(com)@ == compile_spec(*e, co@, old(com)@).1,
{
    match try_compile_expr(e, co, com) {
        Ok(v) => v,
        Err(_) => {
            proof {
                assert(false);
            }
            Vec::new()
        },
    }
}

/// Compiles the top-level expression `e`, as [`try_compile_expr_aligned`] does, where
/// it compiles without an error.
pub fn compile_expr_aligned(
    e: &Expr,
    co: Option<&Context>,
    com: Option<&mut ContextMut>,
    input: Option<bool>,
) -> (r: Vec<Instr>)
    requires
        aligned_fits(
            *e,
            given_ctx(co),
            match com {
                Some(m) => (*m)@,
                None => fresh_state(),
            },
        ),
        match com {
            Some(m) => aligned_spec(*e, given_ctx(co), (*m)@, input).0 is Ok,
            None => aligned_spec(*e, given_ctx(co), fresh_state(), input).0 is Ok,
        },
    ensures
        match com {
            Some(m) => {
                &&& aligned_spec(*e, given_ctx(co), (*m)@, input).0 == Ok::<Seq<InstrV>, ErrV>(code_view(r@))
                &&& final(m)@ == aligned_spec(*e, given_ctx(co), (*m)@, input).1
            },
            None => aligned_spec(*e, given_ctx(co), fresh_state(), input).0 == Ok::<Seq<InstrV>, ErrV>(code_view(r@)),
        },
{
    match try_compile_expr_aligned(e, co, com, input) {
        Ok(v) => v,
        Err(_) => {
            proof {
                assert(false);
            }
            Vec::new()
        },
    }
}

/// Compiles a list of function definitions, as [`try_compile_func_defns`] does, where
/// it compiles without an error: no two definitions share a name, every element is a
/// definition, no definition repeats a parameter and every body compiles.
pub fn compile_func_defns(fns: &Vec<Expr>, com: &mut ContextMut) -> (r: Vec<Instr>)
    requires
        list_size(fns@) + 4 <= slot_bound(),
        forall|f: Seq<char>| #[trigger] old(com)@.fns.contains_key(f) ==> -slot_bound() <= old(com)@.fns[f].depth <= slot_bound(),
        old(com)@.label_index + list_size(fns@) <= u64::MAX,
        func_defns_spec(fns@, old(com)@).0 is Ok,
    ensures
        func_defns_spec(fns@, old(com)@).0 == Ok::<Seq<InstrV>, ErrV>(code_view(r@)),
        final(com)@ == func_defns_spec(fns@, old(com)@).1,
{
    match try_compile_func_defns(fns, com) {
        Ok(v) => v,
        Err(_) => {
            proof {
                assert(false);
            }
            Vec::new()
        },
    }
}

} // verus!
