//! Where compiled code jumps: every jump and call lands on a label that the program
//! defines, or on one of the runtime's routines.
use vstd::prelude::*;
use crate::ast::{Expr, Op1, Op2, size, list_size, bindings_size, stack_depth, aligned};
use crate::error::ErrV;
use crate::instr::{Arg64, InstrV, JumpV, MemRef, MovArgs, Reg};
use crate::context::{CtxV, ComV, VarEnv, FunEnv, rax_to_target_code, target_to_reg_code};
use crate::codegen::{compile_spec, bindings_spec, sequence_spec, args_spec, copy_slots, lookup, var_base,
    operand_ctx, unop_code, binop_code, step_code, equal_code, operand_checks, operation_code, slot, next_label,
    false_val, fun_label, error_label, print_label, defs_table_spec, fun_entry, params_spec, defn_spec, defns_spec,
    body_ctx, func_defns_spec, aligned_spec, entry_slots, lemma_compile_state, lemma_bindings_state,
    lemma_args_state};
use crate::text::numbered;

verus! {

/// The label that a jump goes to.
pub open spec fn jump_label(j: JumpV) -> Seq<char> {
    match j {
        JumpV::U(l) => l,
        JumpV::E(l) => l,
        JumpV::Nz(l) => l,
        JumpV::O(l) => l,
    }
}

/// The label that an instruction jumps to or calls, if it does.
pub open spec fn jump_target(i: InstrV) -> Option<Seq<char>> {
    match i {
        InstrV::JumpI(j) => Some(jump_label(j)),
        InstrV::Call(l) => Some(l),
        _ => None,
    }
}

/// Whether the code defines the label `l`.
pub open spec fn defines(is: Seq<InstrV>, l: Seq<char>) -> bool {
    exists|j: int| 0 <= j < is.len() && is[j] == InstrV::LabelI(l)
}

/// Whether each jump or call of the code lands on a label in `ok`, or on one that the
/// code itself defines.
pub open spec fn jumps_closed(is: Seq<InstrV>, ok: Set<Seq<char>>) -> bool {
    forall|j: int|
        0 <= j < is.len() && (#[trigger] jump_target(is[j])) is Some ==> ok.contains(jump_target(is[j])->Some_0)
            || defines(is, jump_target(is[j])->Some_0)
}

/// The labels of the functions of a table.
pub open spec fn fun_labels(fns: Map<Seq<char>, FunEnv>) -> Set<Seq<char>> {
    Set::new(|l: Seq<char>| exists|n: Seq<char>| #[trigger] fns.contains_key(n) && fun_label(n) == l)
}

/// The routines of the runtime that compiled code uses: the error report and print.
pub open spec fn runtime_labels() -> Set<Seq<char>> {
    set![error_label(), print_label()]
}

/// Where the code of an expression may jump besides its own labels: the runtime's
/// routines, the functions of the state, and the end of the enclosing loop, if any.
pub open spec fn allowed_targets(c: CtxV, m: ComV) -> Set<Seq<char>> {
    let base = runtime_labels() + fun_labels(m.fns);
    if c.label.len() == 0 {
        base
    } else {
        base.insert(c.label)
    }
}

/// The jumps of two pieces of code one after the other.
pub proof fn lemma_jumps_concat(a: Seq<InstrV>, b: Seq<InstrV>, ok: Set<Seq<char>>)
    requires
        jumps_closed(a, ok),
        jumps_closed(b, ok),
    ensures
        jumps_closed(a + b, ok),
{
    let s = a + b;
    assert forall|j: int| 0 <= j < s.len() && (#[trigger] jump_target(s[j])) is Some implies ok.contains(
        jump_target(s[j])->Some_0,
    ) || defines(s, jump_target(s[j])->Some_0) by {
        let t = jump_target(s[j])->Some_0;
        if j < a.len() {
            assert(s[j] == a[j]);
            if !ok.contains(t) {
                let w = choose|w: int| 0 <= w < a.len() && a[w] == InstrV::LabelI(t);
                assert(s[w] == InstrV::LabelI(t));
            }
        } else {
            assert(s[j] == b[j - a.len()]);
            if !ok.contains(t) {
                let w = choose|w: int| 0 <= w < b.len() && b[w] == InstrV::LabelI(t);
                assert(s[w + a.len()] == InstrV::LabelI(t));
            }
        }
    }
}

/// What jumps only to a set jumps only to a larger one.
pub proof fn lemma_jumps_widen(a: Seq<InstrV>, ok: Set<Seq<char>>, ok2: Set<Seq<char>>)
    requires
        jumps_closed(a, ok),
        ok.subset_of(ok2),
    ensures
        jumps_closed(a, ok2),
{
}

/// Code that jumps to a label that surrounding code defines: the label leaves the set
/// of outside targets once the code is put in place.
pub proof fn lemma_jumps_enclose(pre: Seq<InstrV>, s: Seq<InstrV>, post: Seq<InstrV>, ok: Set<Seq<char>>, l: Seq<char>)
    requires
        jumps_closed(s, ok.insert(l)),
        jumps_closed(pre, ok),
        jumps_closed(post, ok),
        defines(pre, l) || defines(post, l),
    ensures
        jumps_closed(pre + s + post, ok),
{
    let w = pre + s + post;
    assert forall|j: int| 0 <= j < w.len() && (#[trigger] jump_target(w[j])) is Some implies ok.contains(
        jump_target(w[j])->Some_0,
    ) || defines(w, jump_target(w[j])->Some_0) by {
        let t = jump_target(w[j])->Some_0;
        if !ok.contains(t) {
            if j < pre.len() {
                assert(w[j] == pre[j]);
                let k = choose|k: int| 0 <= k < pre.len() && pre[k] == InstrV::LabelI(t);
                assert(w[k] == InstrV::LabelI(t));
            } else if j < pre.len() + s.len() {
                assert(w[j] == s[j - pre.len()]);
                if t == l {
                    if defines(pre, l) {
                        let k = choose|k: int| 0 <= k < pre.len() && pre[k] == InstrV::LabelI(l);
                        assert(w[k] == InstrV::LabelI(l));
                    } else {
                        let k = choose|k: int| 0 <= k < post.len() && post[k] == InstrV::LabelI(l);
                        assert(w[k + pre.len() + s.len()] == InstrV::LabelI(l));
                    }
                } else {
                    let k = choose|k: int| 0 <= k < s.len() && s[k] == InstrV::LabelI(t);
                    assert(w[k + pre.len()] == InstrV::LabelI(t));
                }
            } else {
                assert(w[j] == post[j - pre.len() - s.len()]);
                let k = choose|k: int| 0 <= k < post.len() && post[k] == InstrV::LabelI(t);
                assert(w[k + pre.len() + s.len()] == InstrV::LabelI(t));
            }
        }
    }
}

/// Code that defines a label that it jumps to needs no outside target for it.
pub proof fn lemma_jumps_absorb(w: Seq<InstrV>, ok: Set<Seq<char>>, l: Seq<char>)
    requires
        jumps_closed(w, ok.insert(l)),
        defines(w, l),
    ensures
        jumps_closed(w, ok),
{
}

/// The fixed pieces of code that follow an operand jump only to the runtime's routines.
proof fn lemma_fragments_jumps(op: Op1, op2: Op2, t: Option<bool>, t2: Option<bool>, c: CtxV, v: VarEnv, r: Reg)
    ensures
        jumps_closed(rax_to_target_code(c), runtime_labels()),
        jumps_closed(target_to_reg_code(c, r), runtime_labels()),
        jumps_closed(unop_code(op, t, c).0, runtime_labels()),
        jumps_closed(binop_code(op2, t, t2, c).0, runtime_labels()),
        jumps_closed(var_base(v, c).1, runtime_labels()),
{
    assert(jumps_closed(step_code(op, t, c), runtime_labels()));
    assert(jumps_closed(equal_code(t, t2, c).0, runtime_labels()));
    assert(jumps_closed(operand_checks(t, t2, c), runtime_labels()));
    assert(jumps_closed(operation_code(op2, c), runtime_labels()));
}

/// Moves between slots jump nowhere.
proof fn lemma_copy_jumps(from: int, to: int, n: nat, ok: Set<Seq<char>>)
    ensures
        jumps_closed(copy_slots(from, to, n), ok),
    decreases n,
{
    if n > 0 {
        lemma_copy_jumps(from, to, (n - 1) as nat, ok);
        let tail = seq![
            InstrV::Mov(MovArgs::ToReg(Reg::Rax, Arg64::Mem(slot(from + n - 1)))),
            InstrV::Mov(MovArgs::ToMem(slot(to + n - 1), Arg64::OReg(Reg::Rax))),
        ];
        assert(jumps_closed(tail, ok));
        lemma_jumps_concat(copy_slots(from, to, (n - 1) as nat), tail, ok);
    }
}

/// Each jump or call of an expression's code lands on a label that the code defines,
/// on a routine of the runtime, on a function of the state, or, from a `break`, on the
/// end of the enclosing loop.
#[verifier::spinoff_prover]
#[verifier::rlimit(40)]
pub proof fn lemma_compile_jumps(e: Expr, c: CtxV, m: ComV)
    requires
        m.label_index + size(e) <= u64::MAX,
    ensures
        compile_spec(e, c, m).0 matches Ok(s) ==> jumps_closed(s, allowed_targets(c, m)),
    decreases e, 2int,
{
    let out = compile_spec(e, c, m);
    let ok = allowed_targets(c, m);
    assert(runtime_labels().subset_of(ok));
    let nv = VarEnv { offset: 0, is_bool: None, in_heap: true };
    lemma_compile_state(e, c, m);
    match e {
        Expr::Num(_) => {
            lemma_fragments_jumps(Op1::Add1, Op2::Plus, None, None, c, nv, Reg::Rax);
            lemma_jumps_widen(rax_to_target_code(c), runtime_labels(), ok);
            if out.0 is Ok {
                let s = out.0->Ok_0;
                assert(jumps_closed(s, ok));
            }
        },
        Expr::Var(x) => {
            if lookup(x@, c, m) is Some {
                let v = lookup(x@, c, m)->Some_0;
                lemma_fragments_jumps(Op1::Add1, Op2::Plus, None, None, c, v, Reg::Rax);
                let (reg, pre) = var_base(v, c);
                let mid = seq![InstrV::Mov(MovArgs::ToReg(Reg::Rax, Arg64::Mem(MemRef { reg, offset: v.offset })))];
                assert(jumps_closed(mid, ok));
                lemma_jumps_widen(pre, runtime_labels(), ok);
                lemma_jumps_widen(rax_to_target_code(c), runtime_labels(), ok);
                lemma_jumps_concat(pre, mid, ok);
                lemma_jumps_concat(pre + mid, rax_to_target_code(c), ok);
            }
        },
        Expr::Boolean(_) => {},
        Expr::UnOp(op, a) => {
            let c1 = operand_ctx(c);
            lemma_compile_jumps(*a, c1, m);
            let (r, m1) = compile_spec(*a, c1, m);
            if r is Ok {
                lemma_fragments_jumps(op, Op2::Plus, m1.result_is_bool, None, c1, nv, Reg::Rax);
                lemma_jumps_widen(unop_code(op, m1.result_is_bool, c1).0, runtime_labels(), ok);
                lemma_jumps_concat(r->Ok_0, unop_code(op, m1.result_is_bool, c1).0, ok);
            }
        },
        Expr::BinOp(op, l, r) => {
            let c1 = operand_ctx(c);
            let cr = CtxV { target: Some(slot(c1.si as int)), ..c1 };
            lemma_compile_jumps(*r, cr, m);
            lemma_compile_state(*r, cr, m);
            let (rr, m1) = compile_spec(*r, cr, m);
            if rr is Ok {
                let cl = CtxV { si: (c1.si + 1) as i32, target: None, ..c1 };
                lemma_compile_jumps(*l, cl, m1);
                let (rl, m2) = compile_spec(*l, cl, m1);
                if rl is Ok {
                    let t = binop_code(op, m2.result_is_bool, m1.result_is_bool, c1).0;
                    lemma_fragments_jumps(Op1::Add1, op, m2.result_is_bool, m1.result_is_bool, c1, nv, Reg::Rax);
                    lemma_jumps_widen(t, runtime_labels(), ok);
                    lemma_jumps_concat(rr->Ok_0, rl->Ok_0, ok);
                    lemma_jumps_concat(rr->Ok_0 + rl->Ok_0, t, ok);
                }
            }
        },
        Expr::Let(bs, body) => {
            lemma_bindings_jumps(bs@, 0, c, c.env, Set::empty(), m);
            lemma_bindings_state(bs@, 0, c, c.env, Set::empty(), m);
            let (r1, env, m1) = bindings_spec(bs@, 0, c, c.env, Set::empty(), m);
            if r1 is Ok {
                let cb = CtxV { si: (c.si + bs@.len()) as i32, env, ..c };
                lemma_compile_jumps(*body, cb, m1);
                let (r2, m2) = compile_spec(*body, cb, m1);
                if r2 is Ok {
                    lemma_jumps_concat(r1->Ok_0, r2->Ok_0, ok);
                }
            }
        },
        Expr::If(..) => {
            lemma_if_jumps(e, c, m);
        },
        Expr::Loop(..) => {
            lemma_loop_jumps(e, c, m);
        },
        Expr::Block(es) => {
            let bm = ComV { env: m.env.union_prefer_right(c.env), ..m };
            let bc = CtxV { env: Map::empty(), ..c };
            let rest = CtxV { target: None, tail: false, ..bc };
            lemma_sequence_jumps(es@, bc, rest, bm);
        },
        Expr::Break(a) => {
            let c1 = operand_ctx(c);
            if c1.label.len() != 0 {
                lemma_compile_jumps(*a, c1, m);
                let (r, m1) = compile_spec(*a, c1, m);
                if r is Ok {
                    let j = seq![InstrV::JumpI(JumpV::U(c1.label))];
                    assert(jumps_closed(j, ok));
                    lemma_jumps_concat(r->Ok_0, j, ok);
                }
            }
        },
        Expr::Assign(..) => {
            lemma_assign_jumps(e, c, m);
        },
        Expr::FnCall(..) => {
            lemma_call_jumps(e, c, m);
        },
        _ => {},
    }
}

/// [`lemma_compile_jumps`] for a loop.
proof fn lemma_loop_jumps(e: Expr, c: CtxV, m: ComV)
    requires
        e is Loop,
        m.label_index + size(e) <= u64::MAX,
    ensures
        compile_spec(e, c, m).0 matches Ok(s) ==> jumps_closed(s, allowed_targets(c, m)),
    decreases e, 1int,
{
    let out = compile_spec(e, c, m);
    let ok = allowed_targets(c, m);
    let nv = VarEnv { offset: 0, is_bool: None, in_heap: true };
    match e {
        Expr::Loop(body) => {
            let i = m.label_index;
            let begin = numbered("begin_loop"@, i);
            let end = numbered("end_loop"@, i);
            let cb = CtxV { target: None, label: end, ..c };
            lemma_compile_jumps(*body, cb, next_label(m));
            let (r, m1) = compile_spec(*body, cb, next_label(m));
            if r is Ok {
                let s = r->Ok_0;
                let a = seq![InstrV::LabelI(begin)];
                let z = seq![InstrV::JumpI(JumpV::U(begin)), InstrV::LabelI(end)];
                let t = rax_to_target_code(c);
                lemma_fragments_jumps(Op1::Add1, Op2::Plus, None, None, c, nv, Reg::Rax);
                lemma_jumps_widen(t, runtime_labels(), ok);
                let base = runtime_labels() + fun_labels(m.fns);
                reveal_strlit("end_loop");
                crate::text::lemma_decimal_len(i as nat);
                assert(end.len() > 0);
                assert(allowed_targets(cb, next_label(m)) == base.insert(end));
                lemma_jumps_widen(s, base.insert(end), ok.insert(end));
                let okb = ok.insert(begin);
                assert(jumps_closed(a, okb));
                assert(a[0] == InstrV::LabelI(begin));
                assert(jumps_closed(z, okb));
                assert(z[1] == InstrV::LabelI(end));
                assert(defines(z, end));
                lemma_jumps_widen(s, ok.insert(end), okb.insert(end));
                lemma_jumps_enclose(a, s, z, okb, end);
                assert((a + s + z)[0] == InstrV::LabelI(begin));
                assert(defines(a + s + z, begin));
                lemma_jumps_absorb(a + s + z, ok, begin);
                lemma_jumps_concat(a + s + z, t, ok);
                assert(out.0->Ok_0 =~= a + s + z + t);
            }
        },
        _ => {},
    }
}

/// [`lemma_compile_jumps`] for an assignment.
proof fn lemma_assign_jumps(e: Expr, c: CtxV, m: ComV)
    requires
        e is Assign,
        m.label_index + size(e) <= u64::MAX,
    ensures
        compile_spec(e, c, m).0 matches Ok(s) ==> jumps_closed(s, allowed_targets(c, m)),
    decreases e, 1int,
{
    let out = compile_spec(e, c, m);
    let ok = allowed_targets(c, m);
    match e {
        Expr::Assign(x, a) => {
            let c1 = operand_ctx(c);
            let ca = CtxV { target: None, ..c1 };
            lemma_compile_jumps(*a, ca, m);
            let (r, m1) = compile_spec(*a, ca, m);
            if r is Ok && out.0 is Ok {
                let name = x@;
                let v = if c1.env.contains_key(name) {
                    c1.env[name]
                } else {
                    let old = m1.env[name];
                    VarEnv { offset: old.offset, is_bool: m1.result_is_bool, in_heap: old.in_heap }
                };
                let (reg, pre) = var_base(v, c1);
                lemma_fragments_jumps(Op1::Add1, Op2::Plus, None, None, c1, v, Reg::Rax);
                let t = pre + seq![
                    InstrV::Mov(MovArgs::ToMem(MemRef { reg, offset: v.offset }, Arg64::OReg(Reg::Rax))),
                ] + rax_to_target_code(c1);
                assert(jumps_closed(t, ok));
                assert(out.0->Ok_0 =~= r->Ok_0 + t);
                lemma_jumps_concat(r->Ok_0, t, ok);
            }
        },
        _ => {},
    }
}

/// [`lemma_compile_jumps`] for an `if`.
proof fn lemma_if_jumps(e: Expr, c: CtxV, m: ComV)
    requires
        e is If,
        m.label_index + size(e) <= u64::MAX,
    ensures
        compile_spec(e, c, m).0 matches Ok(s) ==> jumps_closed(s, allowed_targets(c, m)),
    decreases e, 1int,
{
    match e {
        Expr::If(cond, thn, els) => {
            let ok = allowed_targets(c, m);
            let i = m.label_index;
            let else_label = numbered("else"@, i);
            let end_label = numbered("end_if"@, i);
            let m0 = next_label(m);
            let cc = CtxV { target: None, tail: false, ..c };
            lemma_compile_jumps(*cond, cc, m0);
            lemma_compile_state(*cond, cc, m0);
            let (r1, m1) = compile_spec(*cond, cc, m0);
            if r1 is Ok {
                lemma_compile_jumps(*thn, c, m1);
                lemma_compile_state(*thn, c, m1);
                let (r2, m2) = compile_spec(*thn, c, m1);
                if r2 is Ok {
                    let s1 = r1->Ok_0;
                    let s2 = r2->Ok_0;
                    if m1.result_is_bool != Some(false) {
                        lemma_compile_jumps(*els, c, m2);
                        let (r3, m3) = compile_spec(*els, c, m2);
                        if r3 is Ok {
                            let s3 = r3->Ok_0;
                            let a = seq![InstrV::Cmp(MovArgs::ToReg(Reg::Rax, false_val())), InstrV::JumpI(JumpV::E(else_label))];
                            let b = seq![InstrV::JumpI(JumpV::U(end_label)), InstrV::LabelI(else_label)];
                            let z = seq![InstrV::LabelI(end_label)];
                            let ok2 = ok.insert(else_label).insert(end_label);
                            assert(jumps_closed(a, ok2));
                            assert(jumps_closed(b, ok2));
                            assert(jumps_closed(z, ok2));
                            lemma_jumps_widen(s1, ok, ok2);
                            lemma_jumps_widen(s2, ok, ok2);
                            lemma_jumps_widen(s3, ok, ok2);
                            lemma_jumps_concat(s1, a, ok2);
                            lemma_jumps_concat(s1 + a, s2, ok2);
                            lemma_jumps_concat(s1 + a + s2, b, ok2);
                            lemma_jumps_concat(s1 + a + s2 + b, s3, ok2);
                            let whole = s1 + a + s2 + b + s3 + z;
                            let inner = s1 + a + s2 + b + s3;
                            assert(b[1] == InstrV::LabelI(else_label));
                            assert(inner[(s1.len() + 2 + s2.len() + 1) as int] == InstrV::LabelI(else_label));
                            assert(z[0] == InstrV::LabelI(end_label));
                            assert(defines(z, end_label));
                            assert(jumps_closed(Seq::<InstrV>::empty(), ok.insert(else_label)));
                            lemma_jumps_enclose(Seq::<InstrV>::empty(), inner, z, ok.insert(else_label), end_label);
                            assert(Seq::<InstrV>::empty() + inner + z =~= whole);
                            assert(whole[(s1.len() + 2 + s2.len() + 1) as int] == InstrV::LabelI(else_label));
                            assert(defines(whole, else_label));
                            assert forall|j: int| 0 <= j < whole.len() && (#[trigger] jump_target(whole[j])) is Some implies ok.contains(
                                jump_target(whole[j])->Some_0,
                            ) || defines(whole, jump_target(whole[j])->Some_0) by {
                            }
                        }
                    } else {
                        lemma_jumps_concat(s1, s2, ok);
                    }
                }
            }
        },
        _ => {},
    }
}

/// [`lemma_compile_jumps`] for a call.
proof fn lemma_call_jumps(e: Expr, c: CtxV, m: ComV)
    requires
        e is FnCall,
        m.label_index + size(e) <= u64::MAX,
    ensures
        compile_spec(e, c, m).0 matches Ok(s) ==> jumps_closed(s, allowed_targets(c, m)),
    decreases e, 1int,
{
    match e {
        Expr::FnCall(name, args) => {
            let ok = allowed_targets(c, m);
            if m.fns.contains_key(name@) && m.fns[name@].argc == args@.len() {
                let fe = m.fns[name@];
                let n = args@.len();
                lemma_args_jumps(args@, 0, c, m);
                lemma_args_state(args@, 0, c, m);
                let (r, m1) = args_spec(args@, 0, c, m);
                assert(fun_labels(m.fns).contains(fun_label(name@)));
                if r is Ok {
                    let s = r->Ok_0;
                    if c.tail {
                        let diff = m1.depth - fe.depth;
                        let moves = if c.si > diff { copy_slots(c.si as int, diff, n) } else { seq![] };
                        lemma_copy_jumps(c.si as int, diff, n, ok);
                        assert(jumps_closed(moves, ok));
                        let t = seq![
                            InstrV::Add(MovArgs::ToReg(Reg::Rsp, Arg64::Imm((m1.depth * 8) as i32))),
                            InstrV::JumpI(JumpV::U(fun_label(name@))),
                        ];
                        assert(jumps_closed(t, ok));
                        lemma_jumps_concat(s, moves, ok);
                        lemma_jumps_concat(s + moves, t, ok);
                        assert(compile_spec(e, c, m).0->Ok_0 =~= s + moves + t);
                    } else {
                        let moves = copy_slots(c.si as int, -(fe.depth + 1), n);
                        lemma_copy_jumps(c.si as int, -(fe.depth + 1), n, ok);
                        lemma_fragments_jumps(Op1::Add1, Op2::Plus, None, None, c, VarEnv { offset: 0, is_bool: None, in_heap: true }, Reg::Rax);
                        lemma_jumps_widen(rax_to_target_code(c), runtime_labels(), ok);
                        let call = seq![InstrV::Call(fun_label(name@))];
                        assert(jumps_closed(call, ok));
                        lemma_jumps_concat(s, moves, ok);
                        lemma_jumps_concat(s + moves, call, ok);
                        lemma_jumps_concat(s + moves + call, rax_to_target_code(c), ok);
                    }
                }
            }
        },
        _ => {},
    }
}

/// [`lemma_compile_jumps`] for the bindings of a `let`.
proof fn lemma_bindings_jumps(
    bs: Seq<(String, Expr)>,
    k: int,
    c: CtxV,
    env: Map<Seq<char>, VarEnv>,
    seen: Set<Seq<char>>,
    m: ComV,
)
    requires
        m.label_index + bindings_size(bs) <= u64::MAX,
    ensures
        bindings_spec(bs, k, c, env, seen, m).0 matches Ok(s) ==> jumps_closed(s, allowed_targets(c, m)),
    decreases bs, 0int,
{
    if bs.len() > 0 {
        let x = bs[0].0@;
        if !seen.contains(x) {
            let si = (c.si + k) as i32;
            let cb = CtxV { si, env, target: Some(slot(si as int)), tail: false, ..c };
            lemma_compile_jumps(bs[0].1, cb, m);
            lemma_compile_state(bs[0].1, cb, m);
            let (r1, m1) = compile_spec(bs[0].1, cb, m);
            if r1 is Ok {
                let env1 = env.insert(x, VarEnv { offset: si, is_bool: m1.result_is_bool, in_heap: false });
                lemma_bindings_jumps(bs.drop_first(), k + 1, c, env1, seen.insert(x), m1);
                let (r2, env2, m2) = bindings_spec(bs.drop_first(), k + 1, c, env1, seen.insert(x), m1);
                if r2 is Ok {
                    lemma_jumps_concat(r1->Ok_0, r2->Ok_0, allowed_targets(c, m));
                }
            }
        }
    }
}

/// [`lemma_compile_jumps`] for the expressions of a block.
proof fn lemma_sequence_jumps(es: Seq<Expr>, last: CtxV, rest: CtxV, m: ComV)
    requires
        m.label_index + list_size(es) <= u64::MAX,
        rest.label == last.label,
    ensures
        sequence_spec(es, last, rest, m).0 matches Ok(s) ==> jumps_closed(s, allowed_targets(last, m)),
    decreases es, 0int,
{
    if es.len() > 0 {
        let cx = if es.len() == 1 { last } else { rest };
        lemma_compile_jumps(es[0], cx, m);
        lemma_compile_state(es[0], cx, m);
        let (r1, m1) = compile_spec(es[0], cx, m);
        if r1 is Ok {
            lemma_sequence_jumps(es.drop_first(), last, rest, m1);
            let (r2, m2) = sequence_spec(es.drop_first(), last, rest, m1);
            if r2 is Ok {
                lemma_jumps_concat(r1->Ok_0, r2->Ok_0, allowed_targets(last, m));
            }
        }
    }
}

/// [`lemma_compile_jumps`] for the arguments of a call.
proof fn lemma_args_jumps(args: Seq<Expr>, k: int, c: CtxV, m: ComV)
    requires
        m.label_index + list_size(args) <= u64::MAX,
    ensures
        args_spec(args, k, c, m).0 matches Ok(s) ==> jumps_closed(s, allowed_targets(c, m)),
    decreases args, 0int,
{
    if args.len() > 0 {
        let si = (c.si + k) as i32;
        let ca = CtxV { si, target: Some(slot(si as int)), tail: false, ..c };
        lemma_compile_jumps(args[0], ca, m);
        lemma_compile_state(args[0], ca, m);
        let (r1, m1) = compile_spec(args[0], ca, m);
        if r1 is Ok {
            lemma_args_jumps(args.drop_first(), k + 1, c, m1);
            let (r2, m2) = args_spec(args.drop_first(), k + 1, c, m1);
            if r2 is Ok {
                lemma_jumps_concat(r1->Ok_0, r2->Ok_0, allowed_targets(c, m));
            }
        }
    }
}

/// Whether one of the definitions `fs` defines a function named `n`.
pub open spec fn defines_fun(fs: Seq<Expr>, n: Seq<char>) -> bool {
    exists|i: int| 0 <= i < fs.len() && (#[trigger] fs[i]) is FnDefn && fs[i]->FnDefn_0@ == n
}

/// Each function of a table that a list of definitions yields is one of the table it
/// starts from, or is defined in the list.
proof fn lemma_table_defined(fs: Seq<Expr>, acc: Map<Seq<char>, FunEnv>)
    ensures
        defs_table_spec(fs, acc) matches Ok(t) ==> forall|n: Seq<char>| #[trigger]
            t.contains_key(n) ==> acc.contains_key(n) || defines_fun(fs, n),
    decreases fs,
{
    if fs.len() > 0 {
        match fs[0] {
            Expr::FnDefn(name, vars, body) => {
                let acc1 = acc.insert(name@, fun_entry(vars@, *body));
                lemma_table_defined(fs.drop_first(), acc1);
                if defs_table_spec(fs, acc) is Ok {
                    let t = defs_table_spec(fs, acc)->Ok_0;
                    assert forall|n: Seq<char>| #[trigger] t.contains_key(n) implies acc.contains_key(n) || defines_fun(fs, n) by {
                        if n == name@ {
                            assert(fs[0] is FnDefn && fs[0]->FnDefn_0@ == n);
                        } else if !acc.contains_key(n) {
                            let i = choose|i: int| 0 <= i < fs.drop_first().len() && (#[trigger] fs.drop_first()[i]) is FnDefn
                                && fs.drop_first()[i]->FnDefn_0@ == n;
                            assert(fs[i + 1] == fs.drop_first()[i]);
                        }
                    }
                }
            },
            _ => {},
        }
    }
}

/// The code of function definitions jumps only to the runtime's routines, to the
/// functions of the state, and to its own labels; and it defines the label of each
/// function it defines.
pub proof fn lemma_defns_jumps(fs: Seq<Expr>, m: ComV)
    requires
        m.label_index + list_size(fs) <= u64::MAX,
    ensures
        defns_spec(fs, m).0 matches Ok(s) ==> {
            &&& jumps_closed(s, runtime_labels() + fun_labels(m.fns))
            &&& forall|n: Seq<char>| defines_fun(fs, n) ==> defines(s, #[trigger] fun_label(n))
        },
    decreases fs,
{
    let ok = runtime_labels() + fun_labels(m.fns);
    if fs.len() == 0 {
        assert forall|n: Seq<char>| defines_fun(fs, n) implies defines(Seq::<InstrV>::empty(), #[trigger] fun_label(n)) by {
        }
    } else {
        assert(list_size(fs) == 1 + size(fs[0]) + list_size(fs.drop_first()));
        let (r1, m1) = defn_spec(fs[0], m);
        match fs[0] {
            Expr::FnDefn(name, vars, body) => {
                let m0 = ComV { depth: m.fns[name@].depth, ..m };
                if params_spec(vars@, 0, Map::empty()) is Ok {
                    let env = params_spec(vars@, 0, Map::empty())->Ok_0;
                    let cb = body_ctx(vars@.len() as int, env);
                    lemma_compile_jumps(*body, cb, m0);
                    lemma_compile_state(*body, cb, m0);
                    let (r, mb) = compile_spec(*body, cb, m0);
                    assert(allowed_targets(cb, m0) == ok);
                    if r is Ok {
                        let sb = r->Ok_0;
                        let pre = seq![
                            InstrV::LabelI(fun_label(name@)),
                            InstrV::Sub(MovArgs::ToReg(Reg::Rsp, Arg64::Imm((m0.depth * 8) as i32))),
                        ];
                        let post = seq![
                            InstrV::Add(MovArgs::ToReg(Reg::Rsp, Arg64::Imm((mb.depth * 8) as i32))),
                            InstrV::Ret,
                        ];
                        assert(jumps_closed(pre, ok));
                        assert(jumps_closed(post, ok));
                        lemma_jumps_concat(pre, sb, ok);
                        lemma_jumps_concat(pre + sb, post, ok);
                        assert(r1 == Ok::<Seq<InstrV>, ErrV>(pre + sb + post));
                        assert((pre + sb + post)[0] == InstrV::LabelI(fun_label(name@)));
                    }
                }
            },
            _ => {},
        }
        if r1 is Ok {
            let s1 = r1->Ok_0;
            lemma_defns_jumps(fs.drop_first(), m1);
            crate::laws::lemma_defns_state(fs.drop_first(), m1);
            let (r2, m2) = defns_spec(fs.drop_first(), m1);
            if r2 is Ok {
                let s2 = r2->Ok_0;
                assert(m1.fns == m.fns) by {
                    match fs[0] {
                        Expr::FnDefn(name, vars, body) => {
                            let m0 = ComV { depth: m.fns[name@].depth, ..m };
                            let env = params_spec(vars@, 0, Map::empty())->Ok_0;
                            lemma_compile_state(*body, body_ctx(vars@.len() as int, env), m0);
                        },
                        _ => {},
                    }
                }
                lemma_jumps_concat(s1, s2, ok);
                let s = s1 + s2;
                assert forall|n: Seq<char>| defines_fun(fs, n) implies defines(s, #[trigger] fun_label(n)) by {
                    let i = choose|i: int| 0 <= i < fs.len() && (#[trigger] fs[i]) is FnDefn && fs[i]->FnDefn_0@ == n;
                    if i == 0 {
                        assert(s[0] == InstrV::LabelI(fun_label(n)));
                    } else {
                        assert(fs.drop_first()[i - 1] == fs[i]);
                        assert(defines_fun(fs.drop_first(), n));
                        let w = choose|w: int| 0 <= w < s2.len() && s2[w] == InstrV::LabelI(fun_label(n));
                        assert(s[w + s1.len()] == InstrV::LabelI(fun_label(n)));
                    }
                }
            }
        }
    }
}

/// Every jump and call of a program lands on a label that the program defines, or on
/// one of the runtime's routines: the code of its function definitions, followed by
/// the code of its main expression, compiled outside any loop from the state that the
/// definitions leave behind, where each function that the state starts with is among
/// the definitions.
pub proof fn lemma_program_jumps(fs: Seq<Expr>, e: Expr, c: CtxV, m: ComV, input: Option<bool>)
    requires
        m.label_index + list_size(fs) + size(e) <= u64::MAX,
        c.label.len() == 0,
        forall|n: Seq<char>| #[trigger] m.fns.contains_key(n) ==> defines_fun(fs, n),
    ensures
        func_defns_spec(fs, m).0 matches Ok(s1) ==> (aligned_spec(e, c, func_defns_spec(fs, m).1, input).0 matches Ok(
            s2,
        ) ==> jumps_closed(s1 + s2, runtime_labels())),
{
    let t = defs_table_spec(fs, Map::empty());
    if t is Ok {
        let table = t->Ok_0;
        let fns = m.fns.union_prefer_right(table);
        let m0 = ComV { fns, ..m };
        lemma_table_defined(fs, Map::empty());
        lemma_defns_jumps(fs, m0);
        crate::laws::lemma_defns_state(fs, m0);
        let (r1, m1) = defns_spec(fs, m0);
        if r1 is Ok {
            let s1 = r1->Ok_0;
            let ma = ComV { depth: aligned(stack_depth(e) + entry_slots(input)) as i32, ..m1 };
            let ce = CtxV { env: c.env.insert("input"@, VarEnv { offset: 0, is_bool: input, in_heap: false }), ..c };
            lemma_compile_jumps(e, ce, ma);
            lemma_compile_state(e, ce, ma);
            let (r2, m2) = compile_spec(e, ce, ma);
            if r2 is Ok {
                let s = r2->Ok_0;
                let ok = runtime_labels() + fun_labels(fns);
                assert(allowed_targets(ce, ma) == ok);
                let pre = seq![
                    InstrV::Sub(MovArgs::ToReg(Reg::Rsp, Arg64::Imm((ma.depth * 8) as i32))),
                    InstrV::Mov(MovArgs::ToMem(slot(0), Arg64::OReg(Reg::Rdi))),
                ];
                let post = seq![InstrV::Add(MovArgs::ToReg(Reg::Rsp, Arg64::Imm((m2.depth * 8) as i32)))];
                assert(jumps_closed(pre, ok));
                assert(jumps_closed(post, ok));
                lemma_jumps_concat(pre, s, ok);
                lemma_jumps_concat(pre + s, post, ok);
                let s2 = pre + s + post;
                assert(aligned_spec(e, c, m1, input).0 == Ok::<Seq<InstrV>, ErrV>(s2));
                lemma_jumps_concat(s1, s2, ok);
                let w = s1 + s2;
                assert forall|j: int| 0 <= j < w.len() && (#[trigger] jump_target(w[j])) is Some implies runtime_labels().contains(
                    jump_target(w[j])->Some_0,
                ) || defines(w, jump_target(w[j])->Some_0) by {
                    let l = jump_target(w[j])->Some_0;
                    if !runtime_labels().contains(l) && !defines(w, l) {
                        assert(fun_labels(fns).contains(l));
                        let n = choose|n: Seq<char>| #[trigger] fns.contains_key(n) && fun_label(n) == l;
                        assert(defines_fun(fs, n)) by {
                            if !table.contains_key(n) {
                                assert(m.fns.contains_key(n));
                            }
                        }
                        let k = choose|k: int| 0 <= k < s1.len() && s1[k] == InstrV::LabelI(fun_label(n));
                        assert(w[k] == InstrV::LabelI(l));
                    }
                }
            }
        }
    }
}

} // verus!
