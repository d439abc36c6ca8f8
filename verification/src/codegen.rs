//! What each expression compiles to: the instructions, or the error, and the state
//! that compiling leaves behind.
use vstd::prelude::*;
use crate::ast::{Expr, Op1, Op2, size, list_size, bindings_size, stack_depth, aligned};
use crate::instr::{Arg64, CMov, InstrV, JumpV, MemRef, MovArgs, Reg, code_view};
use crate::context::{CtxV, ComV, VarEnv, FunEnv, target_args, rax_to_target_code, target_to_reg_code};
use crate::error::{ErrorKind, ErrV};
use crate::text::numbered;

verus! {

/// The result of compiling: the code or the error, and the state afterwards.
pub type Out = (Result<Seq<InstrV>, ErrV>, ComV);

/// The tagged form of `true`.
pub open spec fn true_val() -> Arg64 {
    Arg64::Imm(3)
}

/// The tagged form of `false`.
pub open spec fn false_val() -> Arg64 {
    Arg64::Imm(1)
}

/// The routine that reports a run-time error, whose code is in `rdi`.
pub open spec fn error_label() -> Seq<char> {
    "snek_error_stub"@
}

/// The routine that prints the value in `rdi`.
pub open spec fn print_label() -> Seq<char> {
    "snek_print"@
}

/// The label of a function's code.
pub open spec fn fun_label(name: Seq<char>) -> Seq<char> {
    "fun_"@ + name
}

/// The stack slot `si` as a memory operand.
pub open spec fn slot(si: int) -> MemRef {
    MemRef { reg: Reg::Rsp, offset: si as i32 }
}

/// `mov rdi, code` then a jump to the error routine.
pub open spec fn fail_code(code: i32, jump: JumpV) -> Seq<InstrV> {
    seq![InstrV::Mov(MovArgs::ToReg(Reg::Rdi, Arg64::Imm(code))), InstrV::JumpI(jump)]
}

/// The state with a new result type.
pub open spec fn with_type(m: ComV, t: Option<bool>) -> ComV {
    ComV { result_is_bool: t, ..m }
}

/// Inclusive bounds that keep stack slots and frame sizes small enough for the
/// arithmetic on them.
pub open spec fn slot_bound() -> int {
    0x1000_0000
}

/// Whether the frame sizes of a state are small enough for the arithmetic on them.
pub open spec fn frames_fit(m: ComV) -> bool {
    &&& -slot_bound() < m.depth < slot_bound()
    &&& forall|k: Seq<char>| #[trigger] m.fns.contains_key(k) ==> -slot_bound() <= m.fns[k].depth <= slot_bound()
}

/// Whether `e` can be compiled in `c` from `m` without any counter leaving its
/// integer type.
pub open spec fn fits(e: Expr, c: CtxV, m: ComV) -> bool {
    &&& size(e) <= slot_bound()
    &&& i32::MIN <= c.si
    &&& c.si + size(e) <= i32::MAX
    &&& frames_fit(m)
    &&& m.label_index + size(e) <= u64::MAX
}

/// The code and state of an expression.
pub open spec fn compile_spec(e: Expr, c: CtxV, m: ComV) -> Out
    decreases e, 2int,
{
    match e {
        Expr::Num(n) => num_spec(n, c, m),
        Expr::Var(x) => var_spec(x@, c, m),
        Expr::Boolean(b) => (
            Ok(seq![InstrV::Mov(target_args(c, if b { true_val() } else { false_val() }))]),
            with_type(m, Some(true)),
        ),
        Expr::UnOp(..) => unop_spec(e, c, m),
        Expr::BinOp(..) => binop_spec(e, c, m),
        Expr::Let(..) => let_spec(e, c, m),
        Expr::If(..) => if_spec(e, c, m),
        Expr::Loop(..) => loop_spec(e, c, m),
        Expr::Block(..) => block_spec(e, c, m),
        Expr::Break(..) => break_spec(e, c, m),
        Expr::Assign(..) => assign_spec(e, c, m),
        Expr::Define(..) => (Err((ErrorKind::DefineNotCompiled, Seq::empty())), m),
        Expr::FnDefn(..) => (Err((ErrorKind::DefinitionNotCompiled, Seq::empty())), m),
        Expr::FnCall(..) => call_spec(e, c, m),
    }
}

/// A number, tagged by doubling it.
pub open spec fn num_spec(n: i64, c: CtxV, m: ComV) -> Out {
    if n < -0x4000_0000_0000_0000 || n >= 0x4000_0000_0000_0000 {
        (Err((ErrorKind::NumberTooLarge, Seq::empty())), m)
    } else {
        let i = 2 * n;
        let code = if i32::MIN <= i <= i32::MAX {
            seq![InstrV::Mov(target_args(c, Arg64::Imm(i as i32)))]
        } else {
            seq![InstrV::Mov(MovArgs::ToReg(Reg::Rax, Arg64::Imm64(i as i64)))] + rax_to_target_code(c)
        };
        (Ok(code), with_type(m, Some(false)))
    }
}

/// The entry of a variable: the context's own if it has one, else the state's.
pub open spec fn lookup(x: Seq<char>, c: CtxV, m: ComV) -> Option<VarEnv> {
    if c.env.contains_key(x) {
        Some(c.env[x])
    } else if m.env.contains_key(x) {
        Some(m.env[x])
    } else {
        None
    }
}

/// The base register of a variable's slot, and the code that loads the heap's address.
pub open spec fn var_base(v: VarEnv, c: CtxV) -> (Reg, Seq<InstrV>) {
    if v.in_heap {
        (Reg::Rbx, seq![InstrV::Mov(MovArgs::ToReg(Reg::Rbx, Arg64::Imm64(c.heap)))])
    } else {
        (Reg::Rsp, seq![])
    }
}

/// A variable read.
pub open spec fn var_spec(x: Seq<char>, c: CtxV, m: ComV) -> Out {
    match lookup(x, c, m) {
        None => (Err((ErrorKind::UnboundVariable, x)), m),
        Some(v) => {
            let (reg, pre) = var_base(v, c);
            (
                Ok(pre + seq![InstrV::Mov(MovArgs::ToReg(Reg::Rax, Arg64::Mem(MemRef { reg, offset: v.offset })))]
                    + rax_to_target_code(c)),
                with_type(m, v.is_bool),
            )
        },
    }
}

/// The context of an operand: the same one, out of tail position.
pub open spec fn operand_ctx(c: CtxV) -> CtxV {
    CtxV { tail: false, ..c }
}

/// The code after the operand of `add1` or `sub1`, given its known type.
pub open spec fn step_code(op: Op1, t: Option<bool>, c: CtxV) -> Seq<InstrV> {
    let err = error_label();
    let arith = if op == Op1::Add1 {
        InstrV::Add(target_args(c, Arg64::Imm(2)))
    } else {
        InstrV::Sub(target_args(c, Arg64::Imm(2)))
    };
    let step = seq![arith] + fail_code(30, JumpV::O(err));
    match t {
        None => seq![InstrV::Test(target_args(c, Arg64::Imm(1)))] + fail_code(20, JumpV::Nz(err)) + step,
        Some(true) => fail_code(20, JumpV::U(err)),
        Some(false) => step,
    }
}

/// The code after the operand of a unary operator, and the result type.
pub open spec fn unop_code(op: Op1, t: Option<bool>, c: CtxV) -> (Seq<InstrV>, Option<bool>) {
    match op {
        Op1::Add1 => (step_code(op, t, c), Some(false)),
        Op1::Sub1 => (step_code(op, t, c), Some(false)),
        Op1::IsBool => (
            seq![
                InstrV::And(target_args(c, Arg64::Imm(1))),
                InstrV::Mov(MovArgs::ToReg(Reg::Rax, true_val())),
                InstrV::Mov(MovArgs::ToReg(Reg::Rbx, false_val())),
                InstrV::CMovI(CMov::Z(Reg::Rax, Arg64::OReg(Reg::Rbx))),
            ] + rax_to_target_code(c),
            Some(true),
        ),
        Op1::IsNum => (
            seq![
                InstrV::And(target_args(c, Arg64::Imm(1))),
                InstrV::Mov(MovArgs::ToReg(Reg::Rax, false_val())),
                InstrV::Mov(MovArgs::ToReg(Reg::Rbx, true_val())),
                InstrV::CMovI(CMov::Z(Reg::Rax, Arg64::OReg(Reg::Rbx))),
            ] + rax_to_target_code(c),
            Some(true),
        ),
        Op1::Print => (target_to_reg_code(c, Reg::Rdi) + seq![InstrV::Call(print_label())], t),
    }
}

/// A unary operation.
pub open spec fn unop_spec(e: Expr, c: CtxV, m: ComV) -> Out
    decreases e, 1int,
{
    match e {
        Expr::UnOp(op, a) => {
            let c1 = operand_ctx(c);
            let (r, m1) = compile_spec(*a, c1, m);
            match r {
                Err(x) => (Err(x), m1),
                Ok(s) => {
                    let (tail, t) = unop_code(op, m1.result_is_bool, c1);
                    (Ok(s + tail), with_type(m1, t))
                },
            }
        },
        _ => (Ok(seq![]), m),
    }
}

/// Whether a binary operator is arithmetic, as opposed to a comparison.
pub open spec fn is_arith(op: Op2) -> bool {
    op == Op2::Plus || op == Op2::Minus || op == Op2::Times
}

/// The instructions of an arithmetic operator on `rax` and the right operand's slot.
pub open spec fn arith_code(op: Op2, mem: Arg64) -> Seq<InstrV> {
    match op {
        Op2::Plus => seq![InstrV::Add(MovArgs::ToReg(Reg::Rax, mem))],
        Op2::Minus => seq![InstrV::Sub(MovArgs::ToReg(Reg::Rax, mem))],
        _ => seq![InstrV::Sar(Reg::Rax, 1), InstrV::Mul(Reg::Rax, mem)],
    }
}

/// The conditional move of a comparison.
pub open spec fn compare_move(op: Op2) -> CMov {
    match op {
        Op2::Greater => CMov::G(Reg::Rax, Arg64::OReg(Reg::Rbx)),
        Op2::GreaterEqual => CMov::GE(Reg::Rax, Arg64::OReg(Reg::Rbx)),
        Op2::Less => CMov::L(Reg::Rax, Arg64::OReg(Reg::Rbx)),
        _ => CMov::LE(Reg::Rax, Arg64::OReg(Reg::Rbx)),
    }
}

/// The code after both operands of `=`, given their known types, and the result type.
pub open spec fn equal_code(lt: Option<bool>, rt: Option<bool>, c: CtxV) -> (Seq<InstrV>, Option<bool>) {
    let err = error_label();
    let mem = Arg64::Mem(slot(c.si as int));
    if lt is Some && rt is Some && lt != rt {
        (fail_code(21, JumpV::Nz(err)), Some(true))
    } else {
        let check = lt is None || rt is None;
        (
            seq![InstrV::Sub(MovArgs::ToReg(Reg::Rax, mem))]
                + (if check { seq![InstrV::Push(Reg::Rax)] } else { seq![] })
                + seq![
                    InstrV::Mov(MovArgs::ToReg(Reg::Rax, false_val())),
                    InstrV::Mov(MovArgs::ToReg(Reg::Rbx, true_val())),
                    InstrV::CMovI(CMov::E(Reg::Rax, Arg64::OReg(Reg::Rbx))),
                ]
                + (if check {
                    seq![InstrV::Pop(Reg::Rbx), InstrV::Test(MovArgs::ToReg(Reg::Rbx, Arg64::Imm(1)))]
                        + fail_code(22, JumpV::Nz(err))
                } else {
                    seq![]
                })
                + rax_to_target_code(c),
            Some(true),
        )
    }
}

/// The checks that the operands whose types are not known are numbers.
pub open spec fn operand_checks(lt: Option<bool>, rt: Option<bool>, c: CtxV) -> Seq<InstrV> {
    let err = error_label();
    (if lt is None {
        seq![InstrV::Test(MovArgs::ToReg(Reg::Rax, Arg64::Imm(1)))] + fail_code(24, JumpV::Nz(err))
    } else {
        seq![]
    }) + (if rt is None {
        seq![InstrV::Test(MovArgs::ToMem(slot(c.si as int), Arg64::Imm(1)))] + fail_code(25, JumpV::Nz(err))
    } else {
        seq![]
    })
}

/// The code of an arithmetic operator or a comparison once the operands are checked.
pub open spec fn operation_code(op: Op2, c: CtxV) -> Seq<InstrV> {
    let mem = Arg64::Mem(slot(c.si as int));
    if is_arith(op) {
        arith_code(op, mem) + fail_code(32, JumpV::O(error_label())) + rax_to_target_code(c)
    } else {
        seq![
            InstrV::Cmp(MovArgs::ToReg(Reg::Rax, mem)),
            InstrV::Mov(MovArgs::ToReg(Reg::Rax, false_val())),
            InstrV::Mov(MovArgs::ToReg(Reg::Rbx, true_val())),
            InstrV::CMovI(compare_move(op)),
        ] + rax_to_target_code(c)
    }
}

/// The code after both operands of a binary operator, with the left one in `rax` and
/// the right one in slot `c.si`, given their known types; and the result type.
pub open spec fn binop_code(op: Op2, lt: Option<bool>, rt: Option<bool>, c: CtxV) -> (Seq<InstrV>, Option<bool>) {
    if op == Op2::Equal {
        equal_code(lt, rt, c)
    } else if lt == Some(true) || rt == Some(true) {
        (fail_code(23, JumpV::U(error_label())), Some(!is_arith(op)))
    } else {
        (operand_checks(lt, rt, c) + operation_code(op, c), Some(!is_arith(op)))
    }
}

/// A binary operation: the right operand first, into slot `si`, then the left one
/// into `rax` with the slots from `si + 1`.
pub open spec fn binop_spec(e: Expr, c: CtxV, m: ComV) -> Out
    decreases e, 1int,
{
    match e {
        Expr::BinOp(op, l, r) => {
            let c1 = operand_ctx(c);
            let (rr, m1) = compile_spec(*r, CtxV { target: Some(slot(c1.si as int)), ..c1 }, m);
            match rr {
                Err(x) => (Err(x), m1),
                Ok(sr) => {
                    let (rl, m2) = compile_spec(*l, CtxV { si: (c1.si + 1) as i32, target: None, ..c1 }, m1);
                    match rl {
                        Err(x) => (Err(x), m2),
                        Ok(sl) => {
                            let (tail, t) = binop_code(op, m2.result_is_bool, m1.result_is_bool, c1);
                            (Ok(sr + sl + tail), with_type(m2, t))
                        },
                    }
                },
            }
        },
        _ => (Ok(seq![]), m),
    }
}

/// The bindings of a `let` from the `k`-th on, each into its own slot: the code, the
/// environment with the bindings added, and the state.
pub open spec fn bindings_spec(
    bs: Seq<(String, Expr)>,
    k: int,
    c: CtxV,
    env: Map<Seq<char>, VarEnv>,
    seen: Set<Seq<char>>,
    m: ComV,
) -> (Result<Seq<InstrV>, ErrV>, Map<Seq<char>, VarEnv>, ComV)
    decreases bs, 0int,
{
    if bs.len() == 0 {
        (Ok(seq![]), env, m)
    } else {
        let x = bs[0].0@;
        if seen.contains(x) {
            (Err((ErrorKind::DuplicateBinding, Seq::empty())), env, m)
        } else {
            let si = (c.si + k) as i32;
            let cb = CtxV { si, env, target: Some(slot(si as int)), tail: false, ..c };
            let (r1, m1) = compile_spec(bs[0].1, cb, m);
            match r1 {
                Err(e) => (Err(e), env, m1),
                Ok(s1) => {
                    let env1 = env.insert(x, VarEnv { offset: si, is_bool: m1.result_is_bool, in_heap: false });
                    let (r2, env2, m2) = bindings_spec(bs.drop_first(), k + 1, c, env1, seen.insert(x), m1);
                    match r2 {
                        Err(e) => (Err(e), env2, m2),
                        Ok(s2) => (Ok(s1 + s2), env2, m2),
                    }
                },
            }
        }
    }
}

/// A `let`: the bindings, then the body in their scope, with the slots after theirs.
pub open spec fn let_spec(e: Expr, c: CtxV, m: ComV) -> Out
    decreases e, 1int,
{
    match e {
        Expr::Let(bs, body) => {
            let (r1, env, m1) = bindings_spec(bs@, 0, c, c.env, Set::empty(), m);
            match r1 {
                Err(x) => (Err(x), m1),
                Ok(s1) => {
                    let (r2, m2) = compile_spec(*body, CtxV { si: (c.si + bs@.len()) as i32, env, ..c }, m1);
                    match r2 {
                        Err(x) => (Err(x), m2),
                        Ok(s2) => (Ok(s1 + s2), m2),
                    }
                },
            }
        },
        _ => (Ok(seq![]), m),
    }
}

/// The state with the label number moved on.
pub open spec fn next_label(m: ComV) -> ComV {
    ComV { label_index: (m.label_index + 1) as u64, ..m }
}

/// An `if`: the condition into `rax`; both branches unless the condition is known to
/// be a number, in which case only the first.
pub open spec fn if_spec(e: Expr, c: CtxV, m: ComV) -> Out
    decreases e, 1int,
{
    match e {
        Expr::If(cond, thn, els) => {
            let else_label = numbered("else"@, m.label_index);
            let end_label = numbered("end_if"@, m.label_index);
            let (r1, m1) = compile_spec(*cond, CtxV { target: None, tail: false, ..c }, next_label(m));
            match r1 {
                Err(x) => (Err(x), m1),
                Ok(s1) => {
                    let (r2, m2) = compile_spec(*thn, c, m1);
                    match r2 {
                        Err(x) => (Err(x), m2),
                        Ok(s2) => {
                            if m1.result_is_bool != Some(false) {
                                let (r3, m3) = compile_spec(*els, c, m2);
                                match r3 {
                                    Err(x) => (Err(x), m3),
                                    Ok(s3) => (
                                        Ok(s1 + seq![
                                            InstrV::Cmp(MovArgs::ToReg(Reg::Rax, false_val())),
                                            InstrV::JumpI(JumpV::E(else_label)),
                                        ] + s2 + seq![
                                            InstrV::JumpI(JumpV::U(end_label)),
                                            InstrV::LabelI(else_label),
                                        ] + s3 + seq![InstrV::LabelI(end_label)]),
                                        m3,
                                    ),
                                }
                            } else {
                                (Ok(s1 + s2), m2)
                            }
                        },
                    }
                },
            }
        },
        _ => (Ok(seq![]), m),
    }
}

/// A `loop`: its body into `rax`, with `break` jumping to the loop's end.
pub open spec fn loop_spec(e: Expr, c: CtxV, m: ComV) -> Out
    decreases e, 1int,
{
    match e {
        Expr::Loop(body) => {
            let begin = numbered("begin_loop"@, m.label_index);
            let end = numbered("end_loop"@, m.label_index);
            let (r, m1) = compile_spec(*body, CtxV { target: None, label: end, ..c }, next_label(m));
            match r {
                Err(x) => (Err(x), m1),
                Ok(s) => (
                    Ok(seq![InstrV::LabelI(begin)] + s + seq![
                        InstrV::JumpI(JumpV::U(begin)),
                        InstrV::LabelI(end),
                    ] + rax_to_target_code(c)),
                    m1,
                ),
            }
        },
        _ => (Ok(seq![]), m),
    }
}

/// The expressions of a block in order; the last one in `last`, the others in `rest`.
pub open spec fn sequence_spec(es: Seq<Expr>, last: CtxV, rest: CtxV, m: ComV) -> Out
    decreases es, 0int,
{
    if es.len() == 0 {
        (Ok(seq![]), m)
    } else {
        let cx = if es.len() == 1 { last } else { rest };
        let (r1, m1) = compile_spec(es[0], cx, m);
        match r1 {
            Err(x) => (Err(x), m1),
            Ok(s1) => {
                let (r2, m2) = sequence_spec(es.drop_first(), last, rest, m1);
                match r2 {
                    Err(x) => (Err(x), m2),
                    Ok(s2) => (Ok(s1 + s2), m2),
                }
            },
        }
    }
}

/// A block: its expressions see the variables in scope through the state, so that
/// assignments in it update what is known of them; afterwards the state keeps the
/// updated entries of its own variables, the result type and the label number.
pub open spec fn block_spec(e: Expr, c: CtxV, m: ComV) -> Out
    decreases e, 1int,
{
    match e {
        Expr::Block(es) => {
            let bm = ComV { env: m.env.union_prefer_right(c.env), ..m };
            let bc = CtxV { env: Map::empty(), ..c };
            let (r, m1) = sequence_spec(es@, bc, CtxV { target: None, tail: false, ..bc }, bm);
            match r {
                Err(x) => (Err(x), m),
                Ok(s) => (
                    Ok(s),
                    ComV {
                        env: m1.env.restrict(m.env.dom()),
                        result_is_bool: m1.result_is_bool,
                        label_index: m1.label_index,
                        ..m
                    },
                ),
            }
        },
        _ => (Ok(seq![]), m),
    }
}

/// A `break`: the value, then a jump to the end of the enclosing loop.
pub open spec fn break_spec(e: Expr, c: CtxV, m: ComV) -> Out
    decreases e, 1int,
{
    match e {
        Expr::Break(a) => {
            let c1 = operand_ctx(c);
            if c1.label.len() == 0 {
                (Err((ErrorKind::DanglingBreak, Seq::empty())), m)
            } else {
                let (r, m1) = compile_spec(*a, c1, m);
                match r {
                    Err(x) => (Err(x), m1),
                    Ok(s) => (Ok(s + seq![InstrV::JumpI(JumpV::U(c1.label))]), m1),
                }
            }
        },
        _ => (Ok(seq![]), m),
    }
}

/// An assignment: the value into `rax`, then into the variable's slot.  A variable of
/// the state takes the value's type.
pub open spec fn assign_spec(e: Expr, c: CtxV, m: ComV) -> Out
    decreases e, 1int,
{
    match e {
        Expr::Assign(x, a) => {
            let c1 = operand_ctx(c);
            let (r, m1) = compile_spec(*a, CtxV { target: None, ..c1 }, m);
            match r {
                Err(err) => (Err(err), m1),
                Ok(s) => {
                    let name = x@;
                    if c1.env.contains_key(name) || m1.env.contains_key(name) {
                        let (v, m2) = if c1.env.contains_key(name) {
                            (c1.env[name], m1)
                        } else {
                            let old = m1.env[name];
                            let v = VarEnv { offset: old.offset, is_bool: m1.result_is_bool, in_heap: old.in_heap };
                            (v, ComV { env: m1.env.insert(name, v), ..m1 })
                        };
                        let (reg, pre) = var_base(v, c1);
                        (
                            Ok(s + pre + seq![
                                InstrV::Mov(MovArgs::ToMem(MemRef { reg, offset: v.offset }, Arg64::OReg(Reg::Rax))),
                            ] + rax_to_target_code(c1)),
                            m2,
                        )
                    } else {
                        (Err((ErrorKind::UnboundVariable, name)), m1)
                    }
                },
            }
        },
        _ => (Ok(seq![]), m),
    }
}

/// The arguments of a call from the `k`-th on, each into its own slot.
pub open spec fn args_spec(args: Seq<Expr>, k: int, c: CtxV, m: ComV) -> Out
    decreases args, 0int,
{
    if args.len() == 0 {
        (Ok(seq![]), m)
    } else {
        let si = (c.si + k) as i32;
        let (r1, m1) = compile_spec(args[0], CtxV { si, target: Some(slot(si as int)), tail: false, ..c }, m);
        match r1 {
            Err(x) => (Err(x), m1),
            Ok(s1) => {
                let (r2, m2) = args_spec(args.drop_first(), k + 1, c, m1);
                match r2 {
                    Err(x) => (Err(x), m2),
                    Ok(s2) => (Ok(s1 + s2), m2),
                }
            },
        }
    }
}

/// Moves `n` slots from `from` on to `to` on, through `rax`, in increasing order.
pub open spec fn copy_slots(from: int, to: int, n: nat) -> Seq<InstrV>
    decreases n,
{
    if n == 0 {
        seq![]
    } else {
        copy_slots(from, to, (n - 1) as nat) + seq![
            InstrV::Mov(MovArgs::ToReg(Reg::Rax, Arg64::Mem(slot(from + n - 1)))),
            InstrV::Mov(MovArgs::ToMem(slot(to + n - 1), Arg64::OReg(Reg::Rax))),
        ]
    }
}

/// A call.  In tail position the arguments move to the bottom of the current frame,
/// which is then given up before a jump to the function; elsewhere they move below
/// the current frame, where the callee's frame will hold them, before the call.
/// A tail call whose arguments would move up the stack moves none of them.
pub open spec fn call_spec(e: Expr, c: CtxV, m: ComV) -> Out
    decreases e, 1int,
{
    match e {
        Expr::FnCall(name, args) => {
            if !m.fns.contains_key(name@) {
                (Err((ErrorKind::UndefinedFunction, name@)), m)
            } else if m.fns[name@].argc != args@.len() {
                (Err((ErrorKind::ArgumentCount, Seq::empty())), m)
            } else {
                let f = m.fns[name@];
                let n = args@.len();
                let (r, m1) = args_spec(args@, 0, c, m);
                match r {
                    Err(x) => (Err(x), m1),
                    Ok(s) => {
                        if c.tail {
                            let diff = m1.depth - f.depth;
                            let moves = if c.si > diff { copy_slots(c.si as int, diff, n) } else { seq![] };
                            (
                                Ok(s + moves + seq![
                                    InstrV::Add(MovArgs::ToReg(Reg::Rsp, Arg64::Imm((m1.depth * 8) as i32))),
                                    InstrV::JumpI(JumpV::U(fun_label(name@))),
                                ]),
                                m1,
                            )
                        } else {
                            (
                                Ok(s + copy_slots(c.si as int, -(f.depth + 1), n)
                                    + seq![InstrV::Call(fun_label(name@))] + rax_to_target_code(c)),
                                m1,
                            )
                        }
                    },
                }
            }
        },
        _ => (Ok(seq![]), m),
    }
}

} // verus!

verus! {

/// What compiling keeps in `m` and how far it moves the label number.
pub open spec fn keeps_state(m: ComV, m1: ComV, used: int) -> bool {
    &&& m1.fns == m.fns
    &&& m1.depth == m.depth
    &&& m1.env.dom() == m.env.dom()
    &&& m.label_index <= m1.label_index <= m.label_index + used
}

/// Compiling an expression leaves the functions, the frame size and the names of the
/// state's variables as they were, and uses at most one label number per node.
pub proof fn lemma_compile_state(e: Expr, c: CtxV, m: ComV)
    requires
        m.label_index + size(e) <= u64::MAX,
    ensures
        keeps_state(m, compile_spec(e, c, m).1, size(e) as int),
    decreases e, 2int,
{
    match e {
        Expr::UnOp(_, a) => {
            lemma_compile_state(*a, operand_ctx(c), m);
        },
        Expr::BinOp(_, l, r) => {
            let c1 = operand_ctx(c);
            let m1 = compile_spec(*r, CtxV { target: Some(slot(c1.si as int)), ..c1 }, m).1;
            lemma_compile_state(*r, CtxV { target: Some(slot(c1.si as int)), ..c1 }, m);
            lemma_compile_state(*l, CtxV { si: (c1.si + 1) as i32, target: None, ..c1 }, m1);
        },
        Expr::Let(bs, body) => {
            let (r1, env, m1) = bindings_spec(bs@, 0, c, c.env, Set::empty(), m);
            lemma_bindings_state(bs@, 0, c, c.env, Set::empty(), m);
            lemma_compile_state(*body, CtxV { si: (c.si + bs@.len()) as i32, env, ..c }, m1);
        },
        Expr::If(cond, thn, els) => {
            let m0 = next_label(m);
            let m1 = compile_spec(*cond, CtxV { target: None, tail: false, ..c }, m0).1;
            lemma_compile_state(*cond, CtxV { target: None, tail: false, ..c }, m0);
            let m2 = compile_spec(*thn, c, m1).1;
            lemma_compile_state(*thn, c, m1);
            lemma_compile_state(*els, c, m2);
        },
        Expr::Loop(body) => {
            let end = numbered("end_loop"@, m.label_index);
            lemma_compile_state(*body, CtxV { target: None, label: end, ..c }, next_label(m));
        },
        Expr::Block(es) => {
            let bm = ComV { env: m.env.union_prefer_right(c.env), ..m };
            let bc = CtxV { env: Map::empty(), ..c };
            lemma_sequence_state(es@, bc, CtxV { target: None, tail: false, ..bc }, bm);
            let m1 = sequence_spec(es@, bc, CtxV { target: None, tail: false, ..bc }, bm).1;
            assert(m1.env.restrict(m.env.dom()).dom() =~= m.env.dom());
        },
        Expr::Break(a) => {
            lemma_compile_state(*a, operand_ctx(c), m);
        },
        Expr::Assign(x, a) => {
            let c1 = operand_ctx(c);
            lemma_compile_state(*a, CtxV { target: None, ..c1 }, m);
            let m1 = compile_spec(*a, CtxV { target: None, ..c1 }, m).1;
            if m1.env.contains_key(x@) {
                let old = m1.env[x@];
                let v = VarEnv { offset: old.offset, is_bool: m1.result_is_bool, in_heap: old.in_heap };
                assert(m1.env.insert(x@, v).dom() =~= m1.env.dom());
            }
        },
        Expr::FnCall(_, args) => {
            lemma_args_state(args@, 0, c, m);
        },
        _ => {},
    }
}

/// [`lemma_compile_state`] for the bindings of a `let`.
pub proof fn lemma_bindings_state(
    bs: Seq<(String, Expr)>,
    k: int,
    c: CtxV,
    env: Map<Seq<char>, VarEnv>,
    seen: Set<Seq<char>>,
    m: ComV,
)
    requires
        m.label_index + bindings_size(bs) <= u64::MAX,
    ensures
        keeps_state(m, bindings_spec(bs, k, c, env, seen, m).2, bindings_size(bs) as int),
    decreases bs, 0int,
{
    if bs.len() > 0 {
        let x = bs[0].0@;
        if !seen.contains(x) {
            let si = (c.si + k) as i32;
            let cb = CtxV { si, env, target: Some(slot(si as int)), tail: false, ..c };
            lemma_compile_state(bs[0].1, cb, m);
            let m1 = compile_spec(bs[0].1, cb, m).1;
            let env1 = env.insert(x, VarEnv { offset: si, is_bool: m1.result_is_bool, in_heap: false });
            lemma_bindings_state(bs.drop_first(), k + 1, c, env1, seen.insert(x), m1);
        }
    }
}

/// [`lemma_compile_state`] for the expressions of a block.
pub proof fn lemma_sequence_state(es: Seq<Expr>, last: CtxV, rest: CtxV, m: ComV)
    requires
        m.label_index + list_size(es) <= u64::MAX,
    ensures
        keeps_state(m, sequence_spec(es, last, rest, m).1, list_size(es) as int),
    decreases es, 0int,
{
    if es.len() > 0 {
        let cx = if es.len() == 1 { last } else { rest };
        lemma_compile_state(es[0], cx, m);
        lemma_sequence_state(es.drop_first(), last, rest, compile_spec(es[0], cx, m).1);
    }
}

/// [`lemma_compile_state`] for the arguments of a call.
pub proof fn lemma_args_state(args: Seq<Expr>, k: int, c: CtxV, m: ComV)
    requires
        m.label_index + list_size(args) <= u64::MAX,
    ensures
        keeps_state(m, args_spec(args, k, c, m).1, list_size(args) as int),
    decreases args, 0int,
{
    if args.len() > 0 {
        let si = (c.si + k) as i32;
        let ca = CtxV { si, target: Some(slot(si as int)), tail: false, ..c };
        lemma_compile_state(args[0], ca, m);
        lemma_args_state(args.drop_first(), k + 1, c, compile_spec(args[0], ca, m).1);
    }
}

} // verus!

verus! {

/// The result of the compiler's code matches the abstract one.
pub open spec fn produces(r: Result<Vec<crate::instr::Instr>, crate::error::CompileError>, out: Out) -> bool {
    match r {
        Ok(v) => out.0 == Ok::<Seq<InstrV>, ErrV>(code_view(v@)),
        Err(x) => out.0 == Err::<Seq<InstrV>, ErrV>(x@),
    }
}

/// The result and the state of the compiler's code match the abstract ones.
pub open spec fn compiled(r: Result<Vec<crate::instr::Instr>, crate::error::CompileError>, m: ComV, out: Out) -> bool {
    &&& m == out.1
    &&& produces(r, out)
}

} // verus!

verus! {

/// The context that a top-level expression is compiled in when none is given: slot 0
/// holds the input, so the first free slot is 1.
pub open spec fn main_ctx() -> CtxV {
    CtxV { si: 1, env: Map::empty(), target: None, tail: false, label: Seq::empty(), heap: 0 }
}

/// The state that compiling starts from when none is given.
pub open spec fn fresh_state() -> ComV {
    ComV { env: Map::empty(), fns: Map::empty(), depth: 0, result_is_bool: None, label_index: 0 }
}

/// The slots that a top-level expression needs beyond its own: the saved input and
/// the return address, and one more when the input is given.
pub open spec fn entry_slots(input: Option<bool>) -> int {
    if input is Some {
        3
    } else {
        2
    }
}

/// A top-level expression: a frame of aligned size, the input (in `rdi`) saved in
/// slot 0 and known as `input`, the expression, and the frame given back.
pub open spec fn aligned_spec(e: Expr, c: CtxV, m: ComV, input: Option<bool>) -> Out {
    let m0 = ComV { depth: aligned(stack_depth(e) + entry_slots(input)) as i32, ..m };
    let ce = CtxV { env: c.env.insert("input"@, VarEnv { offset: 0, is_bool: input, in_heap: false }), ..c };
    let (r, m1) = compile_spec(e, ce, m0);
    match r {
        Err(x) => (Err(x), m1),
        Ok(s) => (
            Ok(seq![
                InstrV::Sub(MovArgs::ToReg(Reg::Rsp, Arg64::Imm((m0.depth * 8) as i32))),
                InstrV::Mov(MovArgs::ToMem(slot(0), Arg64::OReg(Reg::Rdi))),
            ] + s + seq![InstrV::Add(MovArgs::ToReg(Reg::Rsp, Arg64::Imm((m1.depth * 8) as i32)))]),
            m1,
        ),
    }
}

/// Whether a top-level expression can be compiled in `c` from `m` without any
/// counter leaving its integer type.
pub open spec fn aligned_fits(e: Expr, c: CtxV, m: ComV) -> bool {
    &&& i32::MIN <= c.si
    &&& c.si + size(e) <= i32::MAX
    &&& size(e) + 4 <= slot_bound()
    &&& forall|k: Seq<char>| #[trigger] m.fns.contains_key(k) ==> -slot_bound() <= m.fns[k].depth <= slot_bound()
    &&& m.label_index + size(e) <= u64::MAX
}

/// The entry of a function: its number of parameters and its frame, aligned, which
/// holds its parameters and what its body needs.
pub open spec fn fun_entry(vars: Seq<String>, body: Expr) -> FunEnv {
    FunEnv { argc: vars.len() as i32, depth: aligned(stack_depth(body) + vars.len()) as i32 }
}

/// The table of the functions that `fs` defines, added to `acc`; or the error that a
/// redefinition or something other than a definition is.
pub open spec fn defs_table_spec(fs: Seq<Expr>, acc: Map<Seq<char>, FunEnv>) -> Result<Map<Seq<char>, FunEnv>, ErrV>
    decreases fs,
{
    if fs.len() == 0 {
        Ok(acc)
    } else {
        match fs[0] {
            Expr::FnDefn(name, vars, body) => {
                if acc.contains_key(name@) {
                    Err((ErrorKind::FunctionRedefined, Seq::empty()))
                } else {
                    defs_table_spec(fs.drop_first(), acc.insert(name@, fun_entry(vars@, *body)))
                }
            },
            _ => Err((ErrorKind::NotADefinition, Seq::empty())),
        }
    }
}

/// The parameters from the `k`-th on, each in its slot, added to `env`; or the error
/// that a repeated parameter is.
pub open spec fn params_spec(vars: Seq<String>, k: int, env: Map<Seq<char>, VarEnv>) -> Result<Map<Seq<char>, VarEnv>, ErrV>
    decreases vars.len(),
{
    if vars.len() == 0 {
        Ok(env)
    } else if env.contains_key(vars[0]@) && !env[vars[0]@].in_heap {
        Err((ErrorKind::DuplicateParameter, Seq::empty()))
    } else {
        params_spec(vars.drop_first(), k + 1, env.insert(vars[0]@, VarEnv { offset: k as i32, is_bool: None, in_heap: false }))
    }
}

/// The context of a function's body: its parameters in the slots from 0 on, the
/// free slots after them, in tail position.
pub open spec fn body_ctx(n: int, env: Map<Seq<char>, VarEnv>) -> CtxV {
    CtxV { si: n as i32, env, target: None, tail: true, label: Seq::empty(), heap: 0 }
}

/// A function definition: its label, a frame of the function's size, the body, the
/// frame given back and the return.
pub open spec fn defn_spec(f: Expr, m: ComV) -> Out {
    match f {
        Expr::FnDefn(name, vars, body) => {
            let m0 = ComV { depth: m.fns[name@].depth, ..m };
            match params_spec(vars@, 0, Map::empty()) {
                Err(x) => (Err(x), m0),
                Ok(env) => {
                    let (r, m1) = compile_spec(*body, body_ctx(vars@.len() as int, env), m0);
                    match r {
                        Err(x) => (Err(x), m1),
                        Ok(s) => (
                            Ok(seq![
                                InstrV::LabelI(fun_label(name@)),
                                InstrV::Sub(MovArgs::ToReg(Reg::Rsp, Arg64::Imm((m0.depth * 8) as i32))),
                            ] + s + seq![
                                InstrV::Add(MovArgs::ToReg(Reg::Rsp, Arg64::Imm((m1.depth * 8) as i32))),
                                InstrV::Ret,
                            ]),
                            m1,
                        ),
                    }
                },
            }
        },
        _ => (Ok(seq![]), m),
    }
}

/// The definitions one after the other.
pub open spec fn defns_spec(fs: Seq<Expr>, m: ComV) -> Out
    decreases fs,
{
    if fs.len() == 0 {
        (Ok(seq![]), m)
    } else {
        let (r1, m1) = defn_spec(fs[0], m);
        match r1 {
            Err(x) => (Err(x), m1),
            Ok(s1) => {
                let (r2, m2) = defns_spec(fs.drop_first(), m1);
                match r2 {
                    Err(x) => (Err(x), m2),
                    Ok(s2) => (Ok(s1 + s2), m2),
                }
            },
        }
    }
}

/// A list of function definitions: first the table of all of them, added to the
/// state's functions, then each definition's code.
pub open spec fn func_defns_spec(fs: Seq<Expr>, m: ComV) -> Out {
    match defs_table_spec(fs, Map::empty()) {
        Err(x) => (Err(x), m),
        Ok(table) => defns_spec(fs, ComV { fns: m.fns.union_prefer_right(table), ..m }),
    }
}

/// Whether each definition in `fs` has an entry of a small frame in `fns` and a body
/// small enough for its slots.
pub open spec fn defns_fit(fs: Seq<Expr>, fns: Map<Seq<char>, FunEnv>) -> bool
    decreases fs,
{
    if fs.len() == 0 {
        true
    } else {
        &&& match fs[0] {
            Expr::FnDefn(name, vars, body) => {
                &&& fns.contains_key(name@)
                &&& -slot_bound() < fns[name@].depth < slot_bound()
                &&& vars@.len() + size(*body) <= slot_bound()
            },
            _ => true,
        }
        &&& defns_fit(fs.drop_first(), fns)
    }
}

} // verus!
