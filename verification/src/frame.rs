//! Where compiled code writes on the stack: below the slots that it needs from its
//! first free slot on, and so never at or above the end of a frame that holds them,
//! where the return address lies.
use vstd::prelude::*;
use crate::ast::{Expr, Op1, Op2, size, list_size, bindings_size, stack_depth, aligned, max,
    lemma_depth_bounds, lemma_bindings_size_len, lemma_list_size_len};
use crate::instr::{Arg64, InstrV, JumpV, MemRef, MovArgs, Reg};
use crate::context::{CtxV, ComV, VarEnv, FunEnv, rax_to_target_code, target_to_reg_code};
use crate::codegen::{Out, compile_spec, bindings_spec, sequence_spec, args_spec, copy_slots, lookup, var_base,
    operand_ctx, unop_code, binop_code, step_code, equal_code, operand_checks, operation_code, slot, next_label,
    false_val, fun_label, fits, frames_fit, slot_bound, aligned_fits, aligned_spec, entry_slots, fun_entry,
    params_spec, defn_spec, body_ctx, lemma_compile_state, lemma_bindings_state,
    lemma_args_state};

verus! {

/// The stack slot that a two-operand instruction writes, if its destination is one.
pub open spec fn args_write(a: MovArgs) -> Option<int> {
    match a {
        MovArgs::ToMem(m, _) => if m.reg == Reg::Rsp {
            Some(m.offset as int)
        } else {
            None
        },
        MovArgs::ToReg(..) => None,
    }
}

/// The stack slot, counted from the stack pointer, that an instruction writes, if it
/// writes one; a push or a call writes the slot just below the stack pointer.
pub open spec fn stack_write(i: InstrV) -> Option<int> {
    match i {
        InstrV::Mov(a) => args_write(a),
        InstrV::Add(a) => args_write(a),
        InstrV::Sub(a) => args_write(a),
        InstrV::And(a) => args_write(a),
        InstrV::Push(_) => Some(-1),
        InstrV::Call(_) => Some(-1),
        _ => None,
    }
}

/// Whether each stack slot that the code writes lies below `f`.
pub open spec fn writes_below(is: Seq<InstrV>, f: int) -> bool {
    forall|j: int| 0 <= j < is.len() && (#[trigger] stack_write(is[j])) is Some ==> stack_write(is[j])->Some_0 < f
}

/// Whether the variables that live on the stack have their slots below `f`.
pub open spec fn vars_below(env: Map<Seq<char>, VarEnv>, f: int) -> bool {
    forall|x: Seq<char>| #[trigger] env.contains_key(x) && !env[x].in_heap ==> env[x].offset < f
}

/// Whether a target on the stack lies below `f`.
pub open spec fn target_below(t: Option<MemRef>, f: int) -> bool {
    t matches Some(m) ==> (m.reg == Reg::Rsp ==> m.offset < f)
}

/// Whether each function's frame holds at least its parameters.
pub open spec fn frames_hold_params(fns: Map<Seq<char>, FunEnv>) -> bool {
    forall|n: Seq<char>| #[trigger] fns.contains_key(n) ==> fns[n].argc <= fns[n].depth
}

/// The number of stack slots that evaluating an expression writes, from its first
/// free slot on.  It is [`stack_depth`] but for calls, where it also counts the slots
/// that each argument needs while it is evaluated from its own slot.
pub open spec fn slots_needed(e: Expr) -> int
    decreases e,
{
    match e {
        Expr::Num(_) => 0,
        Expr::Var(_) => 0,
        Expr::Boolean(_) => 0,
        Expr::UnOp(_, a) => slots_needed(*a),
        Expr::BinOp(_, a, b) => max(slots_needed(*b), slots_needed(*a) + 1),
        Expr::Let(bs, body) => max(bindings_needed(bs@, 0), bs@.len() + slots_needed(*body)),
        Expr::If(a, b, c) => max(max(slots_needed(*a), slots_needed(*b)), slots_needed(*c)),
        Expr::Loop(a) => slots_needed(*a),
        Expr::Block(es) => list_needed(es@),
        Expr::Break(a) => slots_needed(*a),
        Expr::Assign(_, a) => slots_needed(*a),
        Expr::Define(_, a) => slots_needed(*a),
        Expr::FnDefn(..) => 0,
        Expr::FnCall(_, args) => max(args@.len() as int, args_needed(args@, 0)),
    }
}

/// The most slots that a binding of a `let` writes, counting the slots of the bindings
/// before it, when the first one given is the `k`-th; 0 when there are none.
pub open spec fn bindings_needed(bs: Seq<(String, Expr)>, k: int) -> int
    decreases bs,
{
    if bs.len() == 0 {
        0
    } else {
        max(k + slots_needed(bs[0].1), bindings_needed(bs.drop_first(), k + 1))
    }
}

/// The most slots that an expression of a list writes; 0 when there are none.
pub open spec fn list_needed(es: Seq<Expr>) -> int
    decreases es,
{
    if es.len() == 0 {
        0
    } else {
        max(slots_needed(es[0]), list_needed(es.drop_first()))
    }
}

/// The most slots that an argument of a call writes, counting the slots of the
/// arguments before it, when the first one given is the `k`-th; 0 when there are none.
pub open spec fn args_needed(args: Seq<Expr>, k: int) -> int
    decreases args,
{
    if args.len() == 0 {
        0
    } else {
        max(k + slots_needed(args[0]), args_needed(args.drop_first(), k + 1))
    }
}

/// No expression needs fewer than no slots.
pub proof fn lemma_needed_nonneg(e: Expr)
    ensures
        slots_needed(e) >= 0,
    decreases e,
{
    match e {
        Expr::UnOp(_, a) => {
            lemma_needed_nonneg(*a);
            assert(slots_needed(e) == slots_needed(*a));
        },
        Expr::BinOp(_, a, b) => {
            lemma_needed_nonneg(*a);
            lemma_needed_nonneg(*b);
        },
        Expr::Let(bs, body) => {
            lemma_needed_nonneg(*body);
            assert(slots_needed(e) >= 0);
        },
        Expr::If(a, b, c) => {
            lemma_needed_nonneg(*a);
            lemma_needed_nonneg(*b);
            lemma_needed_nonneg(*c);
        },
        Expr::Loop(a) => lemma_needed_nonneg(*a),
        Expr::Break(a) => lemma_needed_nonneg(*a),
        Expr::Assign(_, a) => lemma_needed_nonneg(*a),
        Expr::Define(_, a) => lemma_needed_nonneg(*a),
        Expr::Block(es) => {
            if es@.len() > 0 {
                lemma_needed_nonneg(es@[0]);
                assert(list_needed(es@) >= slots_needed(es@[0]));
            } else {
                assert(list_needed(es@) == 0);
            }
            assert(slots_needed(e) == list_needed(es@));
        },
        Expr::FnCall(_, args) => {
            assert(slots_needed(e) >= 0);
        },
        _ => {},
    }
}

/// Whether `e` is compiled in `c` from `m` inside a frame that ends at slot `f`: the
/// slots that `e` writes, the variables on the stack and the target lie below `f`.
pub open spec fn frame_ready(e: Expr, c: CtxV, m: ComV, f: int) -> bool {
    &&& fits(e, c, m)
    &&& 0 <= f
    &&& c.si + slots_needed(e) <= f
    &&& vars_below(c.env, f)
    &&& vars_below(m.env, f)
    &&& target_below(c.target, f)
    &&& frames_hold_params(m.fns)
}

/// Whether a compile result, if it is code, writes only below `f`, and leaves the
/// variables of the state below `f`.
pub open spec fn stays_below(out: Out, f: int) -> bool {
    out.0 matches Ok(s) ==> writes_below(s, f) && vars_below(out.1.env, f)
}

/// The writes of two pieces of code one after the other.
pub proof fn lemma_writes_concat(a: Seq<InstrV>, b: Seq<InstrV>, f: int)
    requires
        writes_below(a, f),
        writes_below(b, f),
    ensures
        writes_below(a + b, f),
{
    assert forall|j: int| 0 <= j < (a + b).len() && (#[trigger] stack_write((a + b)[j])) is Some implies stack_write(
        (a + b)[j],
    )->Some_0 < f by {
        if j < a.len() {
            assert((a + b)[j] == a[j]);
        } else {
            assert((a + b)[j] == b[j - a.len()]);
        }
    }
}

/// The fixed pieces of code that follow an operand write only to the target, or to
/// the slot below the stack pointer.
proof fn lemma_fragments_below(op: Op1, op2: Op2, t: Option<bool>, t2: Option<bool>, c: CtxV, v: VarEnv, r: Reg, f: int)
    requires
        target_below(c.target, f),
        0 <= f,
    ensures
        writes_below(rax_to_target_code(c), f),
        writes_below(target_to_reg_code(c, r), f),
        writes_below(unop_code(op, t, c).0, f),
        writes_below(binop_code(op2, t, t2, c).0, f),
        writes_below(var_base(v, c).1, f),
{
    assert(writes_below(step_code(op, t, c), f));
    assert(writes_below(equal_code(t, t2, c).0, f));
    assert(writes_below(operand_checks(t, t2, c), f));
    assert(writes_below(operation_code(op2, c), f));
}

/// Moves between slots write only the slots they move to.
proof fn lemma_copy_below(from: int, to: int, n: nat, f: int)
    requires
        i32::MIN <= to,
        to + n <= f,
        to + n <= i32::MAX,
    ensures
        writes_below(copy_slots(from, to, n), f),
    decreases n,
{
    if n > 0 {
        lemma_copy_below(from, to, (n - 1) as nat, f);
        let tail = seq![
            InstrV::Mov(MovArgs::ToReg(Reg::Rax, Arg64::Mem(slot(from + n - 1)))),
            InstrV::Mov(MovArgs::ToMem(slot(to + n - 1), Arg64::OReg(Reg::Rax))),
        ];
        assert(writes_below(tail, f));
        lemma_writes_concat(copy_slots(from, to, (n - 1) as nat), tail, f);
    }
}

/// Compiled code never writes at or above the end of its frame: where the slots that
/// an expression needs, the variables on the stack and the target lie below `f`, each
/// stack slot that its code writes does too, and so do the state's variables after.
#[verifier::spinoff_prover]
#[verifier::rlimit(40)]
pub proof fn lemma_frame_writes(e: Expr, c: CtxV, m: ComV, f: int)
    requires
        frame_ready(e, c, m, f),
    ensures
        stays_below(compile_spec(e, c, m), f),
    decreases e, 2int,
{
    let out = compile_spec(e, c, m);
    lemma_depth_bounds(e);
    lemma_needed_nonneg(e);
    let nv = VarEnv { offset: 0, is_bool: None, in_heap: true };
    match e {
        Expr::Num(_) => {
            lemma_fragments_below(Op1::Add1, Op2::Plus, None, None, c, nv, Reg::Rax, f);
            if out.0 is Ok {
                let s = out.0->Ok_0;
                let a = seq![InstrV::Mov(MovArgs::ToReg(Reg::Rax, Arg64::Imm(0)))];
                assert(writes_below(a, f));
                assert(writes_below(s, f));
            }
        },
        Expr::Var(x) => {
            if lookup(x@, c, m) is Some {
                let v = lookup(x@, c, m)->Some_0;
                lemma_fragments_below(Op1::Add1, Op2::Plus, None, None, c, v, Reg::Rax, f);
                let (reg, pre) = var_base(v, c);
                let mid = seq![InstrV::Mov(MovArgs::ToReg(Reg::Rax, Arg64::Mem(MemRef { reg, offset: v.offset })))];
                assert(writes_below(mid, f));
                lemma_writes_concat(pre, mid, f);
                lemma_writes_concat(pre + mid, rax_to_target_code(c), f);
            }
        },
        Expr::Boolean(_) => {},
        Expr::UnOp(op, a) => {
            let c1 = operand_ctx(c);
            lemma_frame_writes(*a, c1, m, f);
            let (r, m1) = compile_spec(*a, c1, m);
            if r is Ok {
                lemma_fragments_below(op, Op2::Plus, m1.result_is_bool, None, c1, nv, Reg::Rax, f);
                lemma_writes_concat(r->Ok_0, unop_code(op, m1.result_is_bool, c1).0, f);
            }
        },
        Expr::BinOp(op, l, r) => {
            let c1 = operand_ctx(c);
            let cr = CtxV { target: Some(slot(c1.si as int)), ..c1 };
            lemma_depth_bounds(*l);
            lemma_depth_bounds(*r);
            lemma_needed_nonneg(*l);
            lemma_needed_nonneg(*r);
            lemma_frame_writes(*r, cr, m, f);
            lemma_compile_state(*r, cr, m);
            let (rr, m1) = compile_spec(*r, cr, m);
            if rr is Ok {
                let cl = CtxV { si: (c1.si + 1) as i32, target: None, ..c1 };
                lemma_frame_writes(*l, cl, m1, f);
                lemma_compile_state(*l, cl, m1);
                let (rl, m2) = compile_spec(*l, cl, m1);
                if rl is Ok {
                    lemma_fragments_below(Op1::Add1, op, m2.result_is_bool, m1.result_is_bool, c1, nv, Reg::Rax, f);
                    lemma_writes_concat(rr->Ok_0, rl->Ok_0, f);
                    lemma_writes_concat(rr->Ok_0 + rl->Ok_0, binop_code(op, m2.result_is_bool, m1.result_is_bool, c1).0, f);
                }
            }
        },
        Expr::Let(bs, body) => {
            lemma_bindings_size_len(bs@);
            lemma_depth_bounds(*body);
            lemma_needed_nonneg(*body);
            lemma_bindings_below(bs@, 0, c, c.env, Set::empty(), m, f);
            lemma_bindings_state(bs@, 0, c, c.env, Set::empty(), m);
            let (r1, env, m1) = bindings_spec(bs@, 0, c, c.env, Set::empty(), m);
            if r1 is Ok {
                let cb = CtxV { si: (c.si + bs@.len()) as i32, env, ..c };
                lemma_frame_writes(*body, cb, m1, f);
                let (r2, m2) = compile_spec(*body, cb, m1);
                if r2 is Ok {
                    lemma_writes_concat(r1->Ok_0, r2->Ok_0, f);
                }
            }
        },
        Expr::If(..) => {
            lemma_if_below(e, c, m, f);
        },
        Expr::Loop(body) => {
            let i = m.label_index;
            let end = crate::text::numbered("end_loop"@, i);
            let cb = CtxV { target: None, label: end, ..c };
            lemma_frame_writes(*body, cb, next_label(m), f);
            let (r, m1) = compile_spec(*body, cb, next_label(m));
            if r is Ok {
                let begin = crate::text::numbered("begin_loop"@, i);
                let a = seq![InstrV::LabelI(begin)];
                let z = seq![InstrV::JumpI(JumpV::U(begin)), InstrV::LabelI(end)];
                lemma_fragments_below(Op1::Add1, Op2::Plus, None, None, c, nv, Reg::Rax, f);
                assert(writes_below(a, f));
                assert(writes_below(z, f));
                lemma_writes_concat(a, r->Ok_0, f);
                lemma_writes_concat(a + r->Ok_0, z, f);
                lemma_writes_concat(a + r->Ok_0 + z, rax_to_target_code(c), f);
            }
        },
        Expr::Block(es) => {
            let bm = ComV { env: m.env.union_prefer_right(c.env), ..m };
            let bc = CtxV { env: Map::empty(), ..c };
            let rest = CtxV { target: None, tail: false, ..bc };
            lemma_sequence_below(es@, bc, rest, bm, f);
            let (r, m1) = sequence_spec(es@, bc, rest, bm);
            if r is Ok {
                assert(vars_below(m1.env.restrict(m.env.dom()), f));
            }
        },
        Expr::Break(a) => {
            let c1 = operand_ctx(c);
            if c1.label.len() != 0 {
                lemma_frame_writes(*a, c1, m, f);
                let (r, m1) = compile_spec(*a, c1, m);
                if r is Ok {
                    assert(writes_below(seq![InstrV::JumpI(JumpV::U(c1.label))], f));
                    lemma_writes_concat(r->Ok_0, seq![InstrV::JumpI(JumpV::U(c1.label))], f);
                }
            }
        },
        Expr::Assign(x, a) => {
            lemma_assign_below(e, c, m, f);
        },
        Expr::FnCall(..) => {
            lemma_call_below(e, c, m, f);
        },
        _ => {},
    }
}

/// [`lemma_frame_writes`] for an assignment.
proof fn lemma_assign_below(e: Expr, c: CtxV, m: ComV, f: int)
    requires
        e is Assign,
        frame_ready(e, c, m, f),
    ensures
        stays_below(compile_spec(e, c, m), f),
    decreases e, 1int,
{
    match e {
        Expr::Assign(x, a) => {
            let c1 = operand_ctx(c);
            let ca = CtxV { target: None, ..c1 };
            lemma_depth_bounds(*a);
            lemma_needed_nonneg(*a);
            lemma_frame_writes(*a, ca, m, f);
            let (r, m1) = compile_spec(*a, ca, m);
            let out = compile_spec(e, c, m);
            if r is Ok && out.0 is Ok {
                let name = x@;
                let v = if c1.env.contains_key(name) {
                    c1.env[name]
                } else {
                    let old = m1.env[name];
                    VarEnv { offset: old.offset, is_bool: m1.result_is_bool, in_heap: old.in_heap }
                };
                let (reg, pre) = var_base(v, c1);
                lemma_fragments_below(Op1::Add1, Op2::Plus, None, None, c1, v, Reg::Rax, f);
                let store = seq![InstrV::Mov(MovArgs::ToMem(MemRef { reg, offset: v.offset }, Arg64::OReg(Reg::Rax)))];
                assert(writes_below(store, f));
                lemma_writes_concat(r->Ok_0, pre, f);
                lemma_writes_concat(r->Ok_0 + pre, store, f);
                lemma_writes_concat(r->Ok_0 + pre + store, rax_to_target_code(c1), f);
                assert(out.0->Ok_0 =~= r->Ok_0 + pre + store + rax_to_target_code(c1));
                if !c1.env.contains_key(name) {
                    assert(vars_below(m1.env.insert(name, v), f));
                }
            }
        },
        _ => {},
    }
}

/// [`lemma_frame_writes`] for an `if`.
proof fn lemma_if_below(e: Expr, c: CtxV, m: ComV, f: int)
    requires
        e is If,
        frame_ready(e, c, m, f),
    ensures
        stays_below(compile_spec(e, c, m), f),
    decreases e, 1int,
{
    match e {
        Expr::If(cond, thn, els) => {
            let i = m.label_index;
            let else_label = crate::text::numbered("else"@, i);
            let end_label = crate::text::numbered("end_if"@, i);
            let m0 = next_label(m);
            let cc = CtxV { target: None, tail: false, ..c };
            lemma_depth_bounds(*cond);
            lemma_depth_bounds(*thn);
            lemma_depth_bounds(*els);
            lemma_needed_nonneg(*cond);
            lemma_needed_nonneg(*thn);
            lemma_needed_nonneg(*els);
            lemma_frame_writes(*cond, cc, m0, f);
            lemma_compile_state(*cond, cc, m0);
            let (r1, m1) = compile_spec(*cond, cc, m0);
            if r1 is Ok {
                lemma_frame_writes(*thn, c, m1, f);
                lemma_compile_state(*thn, c, m1);
                let (r2, m2) = compile_spec(*thn, c, m1);
                if r2 is Ok {
                    let s1 = r1->Ok_0;
                    let s2 = r2->Ok_0;
                    if m1.result_is_bool != Some(false) {
                        lemma_frame_writes(*els, c, m2, f);
                        let (r3, m3) = compile_spec(*els, c, m2);
                        if r3 is Ok {
                            let s3 = r3->Ok_0;
                            let a = seq![InstrV::Cmp(MovArgs::ToReg(Reg::Rax, false_val())), InstrV::JumpI(JumpV::E(else_label))];
                            let b = seq![InstrV::JumpI(JumpV::U(end_label)), InstrV::LabelI(else_label)];
                            let z = seq![InstrV::LabelI(end_label)];
                            assert(writes_below(a, f));
                            assert(writes_below(b, f));
                            assert(writes_below(z, f));
                            lemma_writes_concat(s1, a, f);
                            lemma_writes_concat(s1 + a, s2, f);
                            lemma_writes_concat(s1 + a + s2, b, f);
                            lemma_writes_concat(s1 + a + s2 + b, s3, f);
                            lemma_writes_concat(s1 + a + s2 + b + s3, z, f);
                        }
                    } else {
                        lemma_writes_concat(s1, s2, f);
                    }
                }
            }
        },
        _ => {},
    }
}

/// [`lemma_frame_writes`] for a call.
proof fn lemma_call_below(e: Expr, c: CtxV, m: ComV, f: int)
    requires
        e is FnCall,
        frame_ready(e, c, m, f),
    ensures
        stays_below(compile_spec(e, c, m), f),
    decreases e, 1int,
{
    match e {
        Expr::FnCall(name, args) => {
            if m.fns.contains_key(name@) && m.fns[name@].argc == args@.len() {
                let fe = m.fns[name@];
                let n = args@.len();
                lemma_list_size_len(args@);
                assert(args@.skip(0) =~= args@);
                lemma_args_below(args@, 0, c, m, f);
                lemma_args_state(args@, 0, c, m);
                let (r, m1) = args_spec(args@, 0, c, m);
                if r is Ok {
                    let s = r->Ok_0;
                    if c.tail {
                        let diff = m1.depth - fe.depth;
                        let moves = if c.si > diff { copy_slots(c.si as int, diff, n) } else { seq![] };
                        if c.si > diff {
                            lemma_copy_below(c.si as int, diff, n, f);
                        }
                        assert(writes_below(moves, f));
                        let t = seq![
                            InstrV::Add(MovArgs::ToReg(Reg::Rsp, Arg64::Imm((m1.depth * 8) as i32))),
                            InstrV::JumpI(JumpV::U(fun_label(name@))),
                        ];
                        assert(writes_below(t, f));
                        lemma_writes_concat(s, moves, f);
                        lemma_writes_concat(s + moves, t, f);
                        assert(compile_spec(e, c, m).0->Ok_0 =~= s + moves + t);
                    } else {
                        lemma_copy_below(c.si as int, -(fe.depth + 1), n, f);
                        lemma_fragments_below(Op1::Add1, Op2::Plus, None, None, c, VarEnv { offset: 0, is_bool: None, in_heap: true }, Reg::Rax, f);
                        let call = seq![InstrV::Call(fun_label(name@))];
                        assert(writes_below(call, f));
                        let moves = copy_slots(c.si as int, -(fe.depth + 1), n);
                        lemma_writes_concat(s, moves, f);
                        lemma_writes_concat(s + moves, call, f);
                        lemma_writes_concat(s + moves + call, rax_to_target_code(c), f);
                    }
                }
            }
        },
        _ => {},
    }
}

/// [`lemma_frame_writes`] for the bindings of a `let` from the `k`-th on: the code,
/// the environment with the bindings and the state stay below `f`.
proof fn lemma_bindings_below(
    bs: Seq<(String, Expr)>,
    k: int,
    c: CtxV,
    env: Map<Seq<char>, VarEnv>,
    seen: Set<Seq<char>>,
    m: ComV,
    f: int,
)
    requires
        0 <= k,
        i32::MIN <= c.si,
        c.si + k + bindings_size(bs) <= i32::MAX,
        k + bindings_size(bs) <= slot_bound(),
        frames_fit(m),
        m.label_index + bindings_size(bs) <= u64::MAX,
        0 <= f,
        c.si + k + bs.len() <= f,
        c.si + bindings_needed(bs, k) <= f,
        vars_below(env, f),
        vars_below(m.env, f),
        frames_hold_params(m.fns),
    ensures
        ({
            let out = bindings_spec(bs, k, c, env, seen, m);
            out.0 matches Ok(s) ==> writes_below(s, f) && vars_below(out.1, f) && vars_below(out.2.env, f)
        }),
    decreases bs, 0int,
{
    if bs.len() > 0 {
        let x = bs[0].0@;
        if !seen.contains(x) {
            let si = (c.si + k) as i32;
            let cb = CtxV { si, env, target: Some(slot(si as int)), tail: false, ..c };
            lemma_depth_bounds(bs[0].1);
            lemma_needed_nonneg(bs[0].1);
            lemma_frame_writes(bs[0].1, cb, m, f);
            lemma_compile_state(bs[0].1, cb, m);
            let (r1, m1) = compile_spec(bs[0].1, cb, m);
            if r1 is Ok {
                let env1 = env.insert(x, VarEnv { offset: si, is_bool: m1.result_is_bool, in_heap: false });
                lemma_bindings_below(bs.drop_first(), k + 1, c, env1, seen.insert(x), m1, f);
                let (r2, env2, m2) = bindings_spec(bs.drop_first(), k + 1, c, env1, seen.insert(x), m1);
                if r2 is Ok {
                    lemma_writes_concat(r1->Ok_0, r2->Ok_0, f);
                }
            }
        }
    }
}

/// [`lemma_frame_writes`] for the expressions of a block, the last compiled in `last`
/// and the others in `rest`.
proof fn lemma_sequence_below(es: Seq<Expr>, last: CtxV, rest: CtxV, m: ComV, f: int)
    requires
        i32::MIN <= last.si,
        last.si == rest.si,
        last.si + list_size(es) <= i32::MAX,
        list_size(es) <= slot_bound(),
        frames_fit(m),
        m.label_index + list_size(es) <= u64::MAX,
        0 <= f,
        last.si + list_needed(es) <= f,
        vars_below(last.env, f),
        vars_below(rest.env, f),
        vars_below(m.env, f),
        target_below(last.target, f),
        target_below(rest.target, f),
        frames_hold_params(m.fns),
    ensures
        stays_below(sequence_spec(es, last, rest, m), f),
    decreases es, 0int,
{
    if es.len() > 0 {
        let cx = if es.len() == 1 { last } else { rest };
        lemma_depth_bounds(es[0]);
        lemma_needed_nonneg(es[0]);
        lemma_frame_writes(es[0], cx, m, f);
        lemma_compile_state(es[0], cx, m);
        let (r1, m1) = compile_spec(es[0], cx, m);
        if r1 is Ok {
            lemma_sequence_below(es.drop_first(), last, rest, m1, f);
            let (r2, m2) = sequence_spec(es.drop_first(), last, rest, m1);
            if r2 is Ok {
                lemma_writes_concat(r1->Ok_0, r2->Ok_0, f);
            }
        }
    }
}

/// [`lemma_frame_writes`] for the arguments of a call from the `k`-th on, each into
/// its own slot from `c.si + k` on.
proof fn lemma_args_below(args: Seq<Expr>, k: int, c: CtxV, m: ComV, f: int)
    requires
        0 <= k,
        i32::MIN <= c.si,
        c.si + k + list_size(args) <= i32::MAX,
        k + list_size(args) <= slot_bound(),
        frames_fit(m),
        m.label_index + list_size(args) <= u64::MAX,
        0 <= f,
        c.si + k + args.len() <= f,
        c.si + args_needed(args, k) <= f,
        vars_below(c.env, f),
        vars_below(m.env, f),
        frames_hold_params(m.fns),
    ensures
        stays_below(args_spec(args, k, c, m), f),
    decreases args, 0int,
{
    if args.len() > 0 {
        let si = (c.si + k) as i32;
        let ca = CtxV { si, target: Some(slot(si as int)), tail: false, ..c };
        lemma_depth_bounds(args[0]);
        lemma_needed_nonneg(args[0]);
        assert(list_size(args) == 1 + size(args[0]) + list_size(args.drop_first()));
        lemma_frame_writes(args[0], ca, m, f);
        lemma_compile_state(args[0], ca, m);
        let (r1, m1) = compile_spec(args[0], ca, m);
        if r1 is Ok {
            lemma_args_below(args.drop_first(), k + 1, c, m1, f);
            let (r2, m2) = args_spec(args.drop_first(), k + 1, c, m1);
            if r2 is Ok {
                lemma_writes_concat(r1->Ok_0, r2->Ok_0, f);
            }
        }
    }
}

/// The parameters that a definition binds lie in the slots from `k` on.
proof fn lemma_params_below(vars: Seq<String>, k: int, env: Map<Seq<char>, VarEnv>, f: int)
    requires
        vars_below(env, f),
        k + vars.len() <= f,
        k + vars.len() <= slot_bound(),
        -slot_bound() <= k,
    ensures
        params_spec(vars, k, env) matches Ok(env2) ==> vars_below(env2, f),
    decreases vars.len(),
{
    if vars.len() > 0 && !(env.contains_key(vars[0]@) && !env[vars[0]@].in_heap) {
        let env1 = env.insert(vars[0]@, VarEnv { offset: k as i32, is_bool: None, in_heap: false });
        assert(vars_below(env1, f));
        lemma_params_below(vars.drop_first(), k + 1, env1, f);
    }
}

/// The code of a main expression writes on the stack only inside its frame, below the
/// return address: the input's slot 0, and the slots that the expression writes from
/// its first free slot, 1 or lower, on.  This holds wherever the frame's size counts
/// every slot that the expression writes, which it does but where a call's arguments
/// need more slots than their number.
pub proof fn lemma_main_frame_writes(e: Expr, c: CtxV, m: ComV, input: Option<bool>)
    requires
        aligned_fits(e, c, m),
        c.si <= 1,
        slots_needed(e) <= stack_depth(e),
        vars_below(c.env, c.si as int),
        vars_below(m.env, c.si as int),
        target_below(c.target, c.si as int),
        frames_hold_params(m.fns),
    ensures
        aligned_spec(e, c, m, input).0 matches Ok(s) ==> writes_below(
            s,
            aligned(stack_depth(e) + entry_slots(input)),
        ),
{
    lemma_depth_bounds(e);
    lemma_needed_nonneg(e);
    let d = aligned(stack_depth(e) + entry_slots(input));
    let m0 = ComV { depth: d as i32, ..m };
    let ce = CtxV { env: c.env.insert("input"@, VarEnv { offset: 0, is_bool: input, in_heap: false }), ..c };
    assert(vars_below(ce.env, d));
    lemma_frame_writes(e, ce, m0, d);
    lemma_compile_state(e, ce, m0);
    let (r, m1) = compile_spec(e, ce, m0);
    if r is Ok {
        let pre = seq![
            InstrV::Sub(MovArgs::ToReg(Reg::Rsp, Arg64::Imm((m0.depth * 8) as i32))),
            InstrV::Mov(MovArgs::ToMem(slot(0), Arg64::OReg(Reg::Rdi))),
        ];
        let post = seq![InstrV::Add(MovArgs::ToReg(Reg::Rsp, Arg64::Imm((m1.depth * 8) as i32)))];
        assert(writes_below(pre, d));
        assert(writes_below(post, d));
        lemma_writes_concat(pre, r->Ok_0, d);
        lemma_writes_concat(pre + r->Ok_0, post, d);
    }
}

/// The code of a function definition writes on the stack only inside the function's
/// frame, below the return address: its parameters' slots and the slots that its body
/// writes after them.  This holds wherever the frame's size counts every slot that the
/// body writes, which it does but where a call's arguments need more slots than their
/// number.
pub proof fn lemma_defn_frame_writes(d: Expr, m: ComV)
    requires
        d matches Expr::FnDefn(name, vars, body) && {
            &&& m.fns.contains_key(name@)
            &&& m.fns[name@] == fun_entry(vars@, *body)
            &&& slots_needed(*body) <= stack_depth(*body)
            &&& vars@.len() + size(*body) + 1 < slot_bound()
            &&& m.label_index + size(*body) <= u64::MAX
            &&& vars_below(m.env, vars@.len() as int)
        },
        forall|n: Seq<char>| #[trigger] m.fns.contains_key(n) ==> -slot_bound() <= m.fns[n].depth <= slot_bound(),
        frames_hold_params(m.fns),
    ensures
        defn_spec(d, m).0 matches Ok(s) ==> writes_below(s, m.fns[d->FnDefn_0@].depth as int),
{
    match d {
        Expr::FnDefn(name, vars, body) => {
            lemma_depth_bounds(*body);
            lemma_needed_nonneg(*body);
            let fd = m.fns[name@].depth as int;
            let m0 = ComV { depth: m.fns[name@].depth, ..m };
            let n = vars@.len() as int;
            lemma_params_below(vars@, 0, Map::empty(), n);
            if params_spec(vars@, 0, Map::empty()) is Ok {
                let env = params_spec(vars@, 0, Map::empty())->Ok_0;
                let cb = body_ctx(n, env);
                assert(vars_below(env, fd));
                assert(vars_below(m.env, fd));
                lemma_frame_writes(*body, cb, m0, fd);
                lemma_compile_state(*body, cb, m0);
                let (r, m1) = compile_spec(*body, cb, m0);
                if r is Ok {
                    let pre = seq![
                        InstrV::LabelI(fun_label(name@)),
                        InstrV::Sub(MovArgs::ToReg(Reg::Rsp, Arg64::Imm((m0.depth * 8) as i32))),
                    ];
                    let post = seq![
                        InstrV::Add(MovArgs::ToReg(Reg::Rsp, Arg64::Imm((m1.depth * 8) as i32))),
                        InstrV::Ret,
                    ];
                    assert(writes_below(pre, fd));
                    assert(writes_below(post, fd));
                    lemma_writes_concat(pre, r->Ok_0, fd);
                    lemma_writes_concat(pre + r->Ok_0, post, fd);
                }
            }
        },
        _ => {},
    }
}

} // verus!
