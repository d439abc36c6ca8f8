//! What the code of a construct does with its operands, told instruction by
//! instruction: which slot each argument of a call is read from and written to, which
//! slot each parameter and each `let` binding lives in, and which way `add1` and
//! `sub1` move a number.
use vstd::prelude::*;
use crate::ast::{Expr, Op1, Op2};
use crate::instr::{Arg64, CMov, InstrV, JumpV, MemRef, MovArgs, Reg};
use crate::context::{CtxV, ComV, VarEnv};
use crate::codegen::{compile_spec, call_spec, bindings_spec, args_spec, copy_slots, params_spec, operand_ctx, slot,
    binop_code,
    lemma_args_state};
use crate::ast::size;

verus! {

/// The `j`-th instruction of moving slots `from ..` to slots `to ..` through `rax`,
/// one slot after the other: the even ones read slot `from + j / 2`, the odd ones write
/// what was read to slot `to + j / 2`.
pub open spec fn slot_move(from: int, to: int, j: int) -> InstrV {
    if j % 2 == 0 {
        InstrV::Mov(MovArgs::ToReg(Reg::Rax, Arg64::Mem(MemRef { reg: Reg::Rsp, offset: (from + j / 2) as i32 })))
    } else {
        InstrV::Mov(MovArgs::ToMem(MemRef { reg: Reg::Rsp, offset: (to + j / 2) as i32 }, Arg64::OReg(Reg::Rax)))
    }
}

/// Moving `n` slots takes two instructions per slot: the `i`-th slot is read from
/// `from + i` and written to `to + i`, in increasing order of `i`.
pub proof fn lemma_copy_slots_moves(from: int, to: int, n: nat)
    ensures
        copy_slots(from, to, n).len() == 2 * n,
        forall|j: int| 0 <= j < 2 * n ==> #[trigger] copy_slots(from, to, n)[j] == slot_move(from, to, j),
    decreases n,
{
    if n > 0 {
        lemma_copy_slots_moves(from, to, (n - 1) as nat);
        let s = copy_slots(from, to, n);
        let p = copy_slots(from, to, (n - 1) as nat);
        assert forall|j: int| 0 <= j < 2 * n implies #[trigger] s[j] == slot_move(from, to, j) by {
            if j < 2 * (n - 1) {
                assert(s[j] == p[j]);
            } else if j == 2 * (n - 1) {
                assert(j / 2 == n - 1);
                assert(j % 2 == 0);
            } else {
                assert(j == 2 * n - 1);
                assert(j / 2 == n - 1);
                assert(j % 2 == 1);
            }
        }
    }
}

/// Whether the `2 * n` instructions of `s` from `p` on move `n` slots, the `i`-th
/// from slot `from + i` to slot `to + i`, in increasing order of `i`.
pub open spec fn moves_at(s: Seq<InstrV>, p: int, from: int, to: int, n: int) -> bool {
    &&& 0 <= p
    &&& 0 <= n
    &&& p + 2 * n <= s.len()
    &&& forall|j: int| 0 <= j < 2 * n ==> #[trigger] s.subrange(p, p + 2 * n)[j] == slot_move(from, to, j)
}

/// The label of the function named `name`.
pub open spec fn function_entry(name: Seq<char>) -> Seq<char> {
    "fun_"@ + name
}

/// A call outside tail position moves each argument, in order, from the slot it was
/// evaluated into, `c.si + i`, to the slot `-(d + 1) + i` below the current frame, where
/// `d` is the callee's frame size: once the call has pushed the return address and the
/// callee has taken its frame of `d` slots, that is the callee's slot `i`, where its
/// `i`-th parameter lives.  Then it calls the function.
#[verifier::spinoff_prover]
proof fn lemma_code_call_moves(e: Expr, c: CtxV, m: ComV)
    requires
        e is FnCall,
        !c.tail,
    ensures
        call_spec(e, c, m).0 matches Ok(s) ==> {
            let name = e->FnCall_0@;
            let n = e->FnCall_1@.len() as int;
            let d = m.fns[name].depth as int;
            exists|p: int|
                #[trigger] moves_at(s, p, c.si as int, -(d + 1), n) && p + 2 * n < s.len() && s[p + 2 * n]
                    == InstrV::Call(function_entry(name))
        },
{
    match e {
        Expr::FnCall(name, args) => {
            if m.fns.contains_key(name@) && m.fns[name@].argc == args@.len() {
                let f = m.fns[name@];
                let n = args@.len();
                let (r, m1) = args_spec(args@, 0, c, m);
                if r is Ok {
                    let a = r->Ok_0;
                    let s = call_spec(e, c, m).0->Ok_0;
                    let p = a.len() as int;
                    reveal_strlit("fun_");
                    let mv = copy_slots(c.si as int, -(f.depth + 1), n);
                    lemma_copy_slots_moves(c.si as int, -(f.depth + 1), n);
                    assert(s =~= a + mv + seq![InstrV::Call(function_entry(name@))] + crate::context::rax_to_target_code(c));
                    assert(s.subrange(p, p + 2 * n) =~= mv);
                    assert(moves_at(s, p, c.si as int, -(f.depth + 1), n as int));
                    assert(s[p + 2 * n] == InstrV::Call(function_entry(name@)));
                }
            }
        },
        _ => {},
    }
}

pub proof fn lemma_call_moves(e: Expr, c: CtxV, m: ComV)
    requires
        e is FnCall,
        !c.tail,
    ensures
        compile_spec(e, c, m).0 matches Ok(s) ==> {
            let name = e->FnCall_0@;
            let n = e->FnCall_1@.len() as int;
            let d = m.fns[name].depth as int;
            exists|p: int|
                #[trigger] moves_at(s, p, c.si as int, -(d + 1), n) && p + 2 * n < s.len() && s[p + 2 * n]
                    == InstrV::Call(function_entry(name))
        },
{
    lemma_code_call_moves(e, c, m);
    assert(compile_spec(e, c, m) == call_spec(e, c, m));
}

/// A call in tail position whose arguments lie above the slots at the bottom of the
/// frame, which the callee's frame will share, moves each argument, in order, from
/// `c.si + i` to `diff + i`, with `diff` the current frame size less the callee's (the
/// callee's slot `i` once the frame is given up and its own taken); then it gives up the
/// frame and jumps to the function.
#[verifier::spinoff_prover]
proof fn lemma_code_tail_call_moves(e: Expr, c: CtxV, m: ComV)
    requires
        e is FnCall,
        c.tail,
        m.label_index + size(e) <= u64::MAX,
    ensures
        call_spec(e, c, m).0 matches Ok(s) ==> {
            let name = e->FnCall_0@;
            let n = e->FnCall_1@.len() as int;
            let diff = m.depth - m.fns[name].depth;
            c.si > diff ==> exists|p: int|
                #[trigger] moves_at(s, p, c.si as int, diff, n) && p + 2 * n + 1 < s.len() && s[p + 2 * n]
                    == InstrV::Add(MovArgs::ToReg(Reg::Rsp, Arg64::Imm((m.depth * 8) as i32))) && s[p + 2 * n + 1]
                    == InstrV::JumpI(JumpV::U(function_entry(name)))
        },
{
    match e {
        Expr::FnCall(name, args) => {
            if m.fns.contains_key(name@) && m.fns[name@].argc == args@.len() {
                let f = m.fns[name@];
                let n = args@.len();
                crate::ast::lemma_list_size_len(args@);
                assert(size(e) == 1 + crate::ast::list_size(args@));
                lemma_args_state(args@, 0, c, m);
                let (r, m1) = args_spec(args@, 0, c, m);
                let diff = m1.depth - f.depth;
                if r is Ok && c.si > diff {
                    let a = r->Ok_0;
                    let s = call_spec(e, c, m).0->Ok_0;
                    let p = a.len() as int;
                    reveal_strlit("fun_");
                    let mv = copy_slots(c.si as int, diff, n);
                    lemma_copy_slots_moves(c.si as int, diff, n);
                    let t = seq![
                        InstrV::Add(MovArgs::ToReg(Reg::Rsp, Arg64::Imm((m1.depth * 8) as i32))),
                        InstrV::JumpI(JumpV::U(function_entry(name@))),
                    ];
                    assert(s =~= a + mv + t);
                    assert(s.subrange(p, p + 2 * n) =~= mv);
                    assert(moves_at(s, p, c.si as int, diff, n as int));
                    assert(s[p + 2 * n] == t[0]);
                    assert(s[p + 2 * n + 1] == t[1]);
                }
            }
        },
        _ => {},
    }
}

pub proof fn lemma_tail_call_moves(e: Expr, c: CtxV, m: ComV)
    requires
        e is FnCall,
        c.tail,
        m.label_index + size(e) <= u64::MAX,
    ensures
        compile_spec(e, c, m).0 matches Ok(s) ==> {
            let name = e->FnCall_0@;
            let n = e->FnCall_1@.len() as int;
            let diff = m.depth - m.fns[name].depth;
            c.si > diff ==> exists|p: int|
                #[trigger] moves_at(s, p, c.si as int, diff, n) && p + 2 * n + 1 < s.len() && s[p + 2 * n]
                    == InstrV::Add(MovArgs::ToReg(Reg::Rsp, Arg64::Imm((m.depth * 8) as i32))) && s[p + 2 * n + 1]
                    == InstrV::JumpI(JumpV::U(function_entry(name)))
        },
{
    lemma_code_tail_call_moves(e, c, m);
    assert(compile_spec(e, c, m) == call_spec(e, c, m));
}

/// Whether no two of the names are the same.
pub open spec fn distinct_names(vars: Seq<String>) -> bool {
    forall|i: int, j: int| 0 <= i < j < vars.len() ==> vars[i]@ != vars[j]@
}

/// Binding parameters from slot `k` on, to an environment of stack variables: it
/// succeeds just when no parameter repeats one before it or a variable already there,
/// and then the `i`-th parameter lives in slot `k + i`, on the stack, of no known type,
/// and every other variable stays as it was.
#[verifier::spinoff_prover]
#[verifier::rlimit(30)]
pub proof fn lemma_params_slots(vars: Seq<String>, k: int, env: Map<Seq<char>, VarEnv>)
    requires
        forall|x: Seq<char>| #[trigger] env.contains_key(x) ==> !env[x].in_heap,
    ensures
        params_spec(vars, k, env) is Ok <==> distinct_names(vars) && forall|i: int|
            0 <= i < vars.len() ==> !env.contains_key(#[trigger] vars[i]@),
        params_spec(vars, k, env) matches Ok(env2) ==> {
            &&& forall|i: int|
                0 <= i < vars.len() ==> env2.contains_key(#[trigger] vars[i]@) && env2[vars[i]@] == VarEnv {
                    offset: (k + i) as i32,
                    is_bool: None,
                    in_heap: false,
                }
            &&& forall|x: Seq<char>|
                #[trigger] env.contains_key(x) ==> env2.contains_key(x) && env2[x] == env[x]
        },
    decreases vars.len(),
{
    if vars.len() > 0 {
        let v = vars[0]@;
        let rest = vars.drop_first();
        let env1 = env.insert(v, VarEnv { offset: k as i32, is_bool: None, in_heap: false });
        lemma_params_slots(rest, k + 1, env1);
        if env.contains_key(v) {
            assert(!(forall|i: int| 0 <= i < vars.len() ==> !env.contains_key(#[trigger] vars[i]@)));
        } else {
            assert(params_spec(vars, k, env) == params_spec(rest, k + 1, env1));
            assert forall|i: int| 0 <= i < rest.len() implies #[trigger] rest[i] == vars[i + 1] by {}
            if distinct_names(vars) && forall|i: int| 0 <= i < vars.len() ==> !env.contains_key(#[trigger] vars[i]@) {
                assert forall|i: int, j: int| 0 <= i < j < rest.len() implies rest[i]@ != rest[j]@ by {
                    assert(vars[i + 1]@ != vars[j + 1]@);
                }
                assert forall|i: int| 0 <= i < rest.len() implies !env1.contains_key(#[trigger] rest[i]@) by {
                    assert(vars[0]@ != vars[i + 1]@);
                    assert(!env.contains_key(vars[i + 1]@));
                }
            }
            if params_spec(vars, k, env) is Ok {
                assert(distinct_names(rest));
                assert forall|i: int, j: int| 0 <= i < j < vars.len() implies vars[i]@ != vars[j]@ by {
                    if i == 0 {
                        assert(!env1.contains_key(rest[j - 1]@));
                    } else {
                        assert(rest[i - 1]@ != rest[j - 1]@);
                    }
                }
                assert forall|i: int| 0 <= i < vars.len() implies !env.contains_key(#[trigger] vars[i]@) by {
                    if i > 0 {
                        assert(!env1.contains_key(rest[i - 1]@));
                    }
                }
                let env2 = params_spec(vars, k, env)->Ok_0;
                assert forall|i: int| 0 <= i < vars.len() implies env2.contains_key(#[trigger] vars[i]@)
                    && env2[vars[i]@] == (VarEnv { offset: (k + i) as i32, is_bool: None, in_heap: false }) by {
                    if i > 0 {
                        assert(rest[i - 1] == vars[i]);
                        assert(k + 1 + (i - 1) == k + i);
                    } else {
                        assert(env1.contains_key(v));
                    }
                }
                assert forall|x: Seq<char>| #[trigger] env.contains_key(x) implies env2.contains_key(x) && env2[x] == env[x] by {
                    assert(x != v);
                    assert(env1.contains_key(x) && env1[x] == env[x]);
                }
            }
        }
    } else {
        assert(distinct_names(vars));
    }
}

/// The bindings of a `let` from the `k`-th on: where they compile, no binding repeats a
/// name bound before it in the same `let`, and the `j`-th of them is bound, on the
/// stack, to slot `c.si + k + j`, the slot its value is written to; every variable that
/// none of them names stays as it was.
pub proof fn lemma_bindings_slots(
    bs: Seq<(String, Expr)>,
    k: int,
    c: CtxV,
    env: Map<Seq<char>, VarEnv>,
    seen: Set<Seq<char>>,
    m: ComV,
)
    ensures
        bindings_spec(bs, k, c, env, seen, m).0 is Ok ==> {
            let env2 = bindings_spec(bs, k, c, env, seen, m).1;
            &&& forall|j: int| 0 <= j < bs.len() ==> !seen.contains(#[trigger] bs[j].0@)
            &&& forall|i: int, j: int| 0 <= i < j < bs.len() ==> bs[i].0@ != bs[j].0@
            &&& forall|j: int|
                0 <= j < bs.len() ==> env2.contains_key(#[trigger] bs[j].0@) && env2[bs[j].0@].offset == (c.si + k
                    + j) as i32 && !env2[bs[j].0@].in_heap
            &&& forall|x: Seq<char>|
                #[trigger] env.contains_key(x) && (forall|j: int| 0 <= j < bs.len() ==> bs[j].0@ != x) ==> env2.contains_key(x)
                    && env2[x] == env[x]
        },
    decreases bs,
{
    if bs.len() > 0 {
        let x = bs[0].0@;
        let rest = bs.drop_first();
        if !seen.contains(x) {
            let si = (c.si + k) as i32;
            let cb = CtxV { si, env, target: Some(slot(si as int)), tail: false, ..c };
            let (r1, m1) = compile_spec(bs[0].1, cb, m);
            if r1 is Ok {
                let env1 = env.insert(x, VarEnv { offset: si, is_bool: m1.result_is_bool, in_heap: false });
                lemma_bindings_slots(rest, k + 1, c, env1, seen.insert(x), m1);
                if bindings_spec(bs, k, c, env, seen, m).0 is Ok {
                    let env2 = bindings_spec(bs, k, c, env, seen, m).1;
                    assert(bindings_spec(rest, k + 1, c, env1, seen.insert(x), m1).1 == env2);
                    assert forall|j: int| 0 <= j < bs.len() implies !seen.contains(#[trigger] bs[j].0@) by {
                        if j > 0 {
                            assert(rest[j - 1] == bs[j]);
                        }
                    }
                    assert forall|i: int, j: int| 0 <= i < j < bs.len() implies bs[i].0@ != bs[j].0@ by {
                        assert(rest[j - 1] == bs[j]);
                        if i > 0 {
                            assert(rest[i - 1] == bs[i]);
                        } else {
                            assert(!seen.insert(x).contains(rest[j - 1].0@));
                        }
                    }
                    assert forall|j: int| 0 <= j < bs.len() implies env2.contains_key(#[trigger] bs[j].0@)
                        && env2[bs[j].0@].offset == (c.si + k + j) as i32 && !env2[bs[j].0@].in_heap by {
                        if j > 0 {
                            assert(rest[j - 1] == bs[j]);
                        } else {
                            assert forall|i: int| 0 <= i < rest.len() implies rest[i].0@ != x by {
                                assert(!seen.insert(x).contains(rest[i].0@));
                            }
                            assert(env1.contains_key(x));
                        }
                    }
                    assert forall|y: Seq<char>|
                        #[trigger] env.contains_key(y) && (forall|j: int| 0 <= j < bs.len() ==> bs[j].0@ != y) implies env2.contains_key(y)
                            && env2[y] == env[y] by {
                        assert(bs[0].0@ != y);
                        assert forall|i: int| 0 <= i < rest.len() implies rest[i].0@ != y by {
                            assert(rest[i] == bs[i + 1]);
                        }
                        assert(env1.contains_key(y) && env1[y] == env[y]);
                    }
                }
            }
        }
    }
}

/// The `k`-th binding of a `let` is written to slot `c.si + k` and bound there: the
/// body sees each variable that the `let` binds in the slot its value went to.
pub proof fn lemma_let_slots(e: Expr, c: CtxV, m: ComV)
    requires
        e is Let,
    ensures
        ({
            let bs = e->Let_0@;
            let out = bindings_spec(bs, 0, c, c.env, Set::empty(), m);
            out.0 is Ok ==> forall|j: int|
                0 <= j < bs.len() ==> out.1.contains_key(#[trigger] bs[j].0@) && out.1[bs[j].0@].offset == (c.si + j) as i32
                    && !out.1[bs[j].0@].in_heap
        }),
{
    lemma_bindings_slots(e->Let_0@, 0, c, c.env, Set::empty(), m);
}

/// The operand part of the code after `add1` or `sub1` on an operand not known to be a
/// boolean: the last three instructions add 2 to the target for `add1` and subtract 2
/// for `sub1` (a tagged number moves by 2 for each step of 1), then jump to the error
/// routine with code 30 on overflow; the result is known to be a number.
#[verifier::spinoff_prover]
pub proof fn lemma_step_direction(e: Expr, c: CtxV, m: ComV)
    requires
        e matches Expr::UnOp(op, _) && (op == Op1::Add1 || op == Op1::Sub1),
    ensures
        ({
            let a = *e->UnOp_1;
            let operand = compile_spec(a, operand_ctx(c), m);
            let out = compile_spec(e, c, m);
            let dest = match c.target {
                Some(t) => MovArgs::ToMem(t, Arg64::Imm(2)),
                None => MovArgs::ToReg(Reg::Rax, Arg64::Imm(2)),
            };
            operand.1.result_is_bool != Some(true) ==> (out.0 matches Ok(s) ==> {
                &&& s.len() >= 3
                &&& s[s.len() - 3] == if e->UnOp_0 == Op1::Add1 {
                    InstrV::Add(dest)
                } else {
                    InstrV::Sub(dest)
                }
                &&& s[s.len() - 2] == InstrV::Mov(MovArgs::ToReg(Reg::Rdi, Arg64::Imm(30)))
                &&& s[s.len() - 1] == InstrV::JumpI(JumpV::O("snek_error_stub"@))
                &&& out.1.result_is_bool == Some(false)
            })
        }),
{
    let c1 = operand_ctx(c);
    let operand = compile_spec(*e->UnOp_1, c1, m);
    let out = compile_spec(e, c, m);
    assert(out == crate::codegen::unop_spec(e, c, m));
    if operand.1.result_is_bool != Some(true) && out.0 is Ok {
        let tail = crate::codegen::step_code(e->UnOp_0, operand.1.result_is_bool, c1);
        assert(out.0->Ok_0 =~= operand.0->Ok_0 + tail);
    }
}

} // verus!

verus! {

/// `isbool` and `isnum` test the tag bit of their operand: after `and`-ing the target
/// with 1, which leaves zero just for a number, `rax` gets true (3) for `isnum` and false
/// (1) for `isbool` where the result is zero, and the other boolean otherwise; the result
/// is known to be a boolean.  `print` passes the operand's value to the print routine in
/// `rdi` and keeps the operand's type.
pub proof fn lemma_type_tests(e: Expr, c: CtxV, m: ComV)
    requires
        e is UnOp,
    ensures
        ({
            let op = e->UnOp_0;
            let out = compile_spec(e, c, m);
            let operand = compile_spec(*e->UnOp_1, operand_ctx(c), m);
            let t = if c.target is Some { 1int } else { 0int };
            let one = match c.target {
                Some(tg) => MovArgs::ToMem(tg, Arg64::Imm(1)),
                None => MovArgs::ToReg(Reg::Rax, Arg64::Imm(1)),
            };
            out.0 matches Ok(s) ==> {
                &&& (op == Op1::IsBool || op == Op1::IsNum) ==> {
                    let l = s.len() - t;
                    let (when_zero, otherwise) = if op == Op1::IsNum { (3i32, 1i32) } else { (1i32, 3i32) };
                    &&& l >= 4
                    &&& s[l - 4] == InstrV::And(one)
                    &&& s[l - 3] == InstrV::Mov(MovArgs::ToReg(Reg::Rax, Arg64::Imm(otherwise)))
                    &&& s[l - 2] == InstrV::Mov(MovArgs::ToReg(Reg::Rbx, Arg64::Imm(when_zero)))
                    &&& s[l - 1] == InstrV::CMovI(CMov::Z(Reg::Rax, Arg64::OReg(Reg::Rbx)))
                    &&& out.1.result_is_bool == Some(true)
                }
                &&& op == Op1::Print ==> {
                    &&& s.len() >= 2
                    &&& s[s.len() - 1] == InstrV::Call("snek_print"@)
                    &&& s[s.len() - 2] == InstrV::Mov(MovArgs::ToReg(Reg::Rdi, match c.target {
                        Some(tg) => Arg64::Mem(tg),
                        None => Arg64::OReg(Reg::Rax),
                    }))
                    &&& out.1.result_is_bool == operand.1.result_is_bool
                }
            }
        }),
{
}

/// Arithmetic on two operands known to be numbers, or of unknown type: with the left
/// operand in `rax` and the right one in slot `c.si`, `+` adds the slot to `rax`, `-`
/// subtracts it, and `*` halves `rax` (both are tagged, so the product would be doubled
/// twice) before multiplying by it; then an overflow jumps to the error routine with
/// code 32, and the result is known to be a number.
pub proof fn lemma_arith_direction(e: Expr, c: CtxV, m: ComV)
    requires
        e matches Expr::BinOp(op, _, _) && (op == Op2::Plus || op == Op2::Minus || op == Op2::Times),
    ensures
        ({
            let op = e->BinOp_0;
            let c1 = operand_ctx(c);
            let right = compile_spec(*e->BinOp_2, CtxV { target: Some(slot(c1.si as int)), ..c1 }, m);
            let left = compile_spec(*e->BinOp_1, CtxV { si: (c1.si + 1) as i32, target: None, ..c1 }, right.1);
            let out = compile_spec(e, c, m);
            let mem = Arg64::Mem(MemRef { reg: Reg::Rsp, offset: c.si });
            let l = out.0->Ok_0.len() - if c.target is Some { 1int } else { 0int };
            let s = out.0->Ok_0;
            out.0 is Ok && right.1.result_is_bool != Some(true) && left.1.result_is_bool != Some(true) ==> {
                &&& l >= 3
                &&& s[l - 2] == InstrV::Mov(MovArgs::ToReg(Reg::Rdi, Arg64::Imm(32)))
                &&& s[l - 1] == InstrV::JumpI(JumpV::O("snek_error_stub"@))
                &&& op == Op2::Plus ==> s[l - 3] == InstrV::Add(MovArgs::ToReg(Reg::Rax, mem))
                &&& op == Op2::Minus ==> s[l - 3] == InstrV::Sub(MovArgs::ToReg(Reg::Rax, mem))
                &&& op == Op2::Times ==> l >= 4 && s[l - 4] == InstrV::Sar(Reg::Rax, 1) && s[l - 3] == InstrV::Mul(Reg::Rax, mem)
                &&& out.1.result_is_bool == Some(false)
            }
        }),
{
    let c1 = operand_ctx(c);
    let cr = CtxV { target: Some(slot(c1.si as int)), ..c1 };
    let right = compile_spec(*e->BinOp_2, cr, m);
    let left = compile_spec(*e->BinOp_1, CtxV { si: (c1.si + 1) as i32, target: None, ..c1 }, right.1);
    let out = compile_spec(e, c, m);
    if out.0 is Ok && right.1.result_is_bool != Some(true) && left.1.result_is_bool != Some(true) {
        let s = out.0->Ok_0;
        let lt = left.1.result_is_bool;
        let rt = right.1.result_is_bool;
        let tail = binop_code(e->BinOp_0, lt, rt, c1).0;
        assert(s =~= right.0->Ok_0 + left.0->Ok_0 + tail);
    }
}

/// A comparison of two operands known to be numbers, or of unknown type: with the left
/// operand in `rax` and the right one in slot `c.si`, it compares `rax` with the slot and
/// sets `rax` to true (3) where the left one is greater, at least, less or at most the
/// right one, for `>`, `>=`, `<` and `<=`, and to false (1) otherwise; the result is
/// known to be a boolean.
pub proof fn lemma_compare_condition(e: Expr, c: CtxV, m: ComV)
    requires
        e matches Expr::BinOp(op, _, _) && (op == Op2::Greater || op == Op2::GreaterEqual || op == Op2::Less || op
            == Op2::LessEqual),
    ensures
        ({
            let op = e->BinOp_0;
            let c1 = operand_ctx(c);
            let right = compile_spec(*e->BinOp_2, CtxV { target: Some(slot(c1.si as int)), ..c1 }, m);
            let left = compile_spec(*e->BinOp_1, CtxV { si: (c1.si + 1) as i32, target: None, ..c1 }, right.1);
            let out = compile_spec(e, c, m);
            let mem = Arg64::Mem(MemRef { reg: Reg::Rsp, offset: c.si });
            let l = out.0->Ok_0.len() - if c.target is Some { 1int } else { 0int };
            let s = out.0->Ok_0;
            let rbx = Arg64::OReg(Reg::Rbx);
            out.0 is Ok && right.1.result_is_bool != Some(true) && left.1.result_is_bool != Some(true) ==> {
                &&& l >= 4
                &&& s[l - 4] == InstrV::Cmp(MovArgs::ToReg(Reg::Rax, mem))
                &&& s[l - 3] == InstrV::Mov(MovArgs::ToReg(Reg::Rax, Arg64::Imm(1)))
                &&& s[l - 2] == InstrV::Mov(MovArgs::ToReg(Reg::Rbx, Arg64::Imm(3)))
                &&& s[l - 1] == InstrV::CMovI(
                    if op == Op2::Greater {
                        CMov::G(Reg::Rax, rbx)
                    } else if op == Op2::GreaterEqual {
                        CMov::GE(Reg::Rax, rbx)
                    } else if op == Op2::Less {
                        CMov::L(Reg::Rax, rbx)
                    } else {
                        CMov::LE(Reg::Rax, rbx)
                    },
                )
                &&& out.1.result_is_bool == Some(true)
            }
        }),
{
    let c1 = operand_ctx(c);
    let cr = CtxV { target: Some(slot(c1.si as int)), ..c1 };
    let right = compile_spec(*e->BinOp_2, cr, m);
    let left = compile_spec(*e->BinOp_1, CtxV { si: (c1.si + 1) as i32, target: None, ..c1 }, right.1);
    let out = compile_spec(e, c, m);
    if out.0 is Ok && right.1.result_is_bool != Some(true) && left.1.result_is_bool != Some(true) {
        let s = out.0->Ok_0;
        let tail = binop_code(e->BinOp_0, left.1.result_is_bool, right.1.result_is_bool, c1).0;
        assert(s =~= right.0->Ok_0 + left.0->Ok_0 + tail);
    }
}

} // verus!

verus! {

/// Whether `s`, from `p` on, tests `rax` against false and jumps to `l1` where it is
/// false; at `q`, after that, jumps to `l2`, followed by `l1`; and ends at `l2`.
pub open spec fn branch_shape(s: Seq<InstrV>, p: int, q: int, l1: Seq<char>, l2: Seq<char>) -> bool {
    &&& 0 <= p
    &&& p + 2 <= q
    &&& q + 2 < s.len()
    &&& s[p] == InstrV::Cmp(MovArgs::ToReg(Reg::Rax, Arg64::Imm(1)))
    &&& s[p + 1] == InstrV::JumpI(JumpV::E(l1))
    &&& s[q] == InstrV::JumpI(JumpV::U(l2))
    &&& s[q + 1] == InstrV::LabelI(l1)
    &&& s[s.len() - 1] == InstrV::LabelI(l2)
    &&& l1 != l2
}

/// An `if` whose condition is not known to be a number tests the condition, in `rax`,
/// against false and jumps where it is false to a label of its own placed after the
/// first branch, which ends with a jump past the second branch to another label of its
/// own at the end.  Where the condition is known to be a number, only the first branch
/// is compiled after it.
pub proof fn lemma_if_branches(e: Expr, c: CtxV, m: ComV)
    requires
        e is If,
    ensures
        ({
            let cond = compile_spec(*e->If_0, CtxV { target: None, tail: false, ..c }, ComV { label_index: (m.label_index + 1) as u64, ..m });
            let out = compile_spec(e, c, m);
            out.0 matches Ok(s) ==> if cond.1.result_is_bool != Some(false) {
                exists|p: int, q: int, l1: Seq<char>, l2: Seq<char>| #[trigger] branch_shape(s, p, q, l1, l2)
            } else {
                s == cond.0->Ok_0 + compile_spec(*e->If_1, c, cond.1).0->Ok_0
            }
        }),
{
    let i = m.label_index;
    let l1 = crate::text::numbered("else"@, i);
    let l2 = crate::text::numbered("end_if"@, i);
    let m0 = ComV { label_index: (m.label_index + 1) as u64, ..m };
    let cc = CtxV { target: None, tail: false, ..c };
    let (r1, m1) = compile_spec(*e->If_0, cc, m0);
    let out = compile_spec(e, c, m);
    if out.0 is Ok && m1.result_is_bool != Some(false) {
        let s = out.0->Ok_0;
        let s1 = r1->Ok_0;
        let (r2, m2) = compile_spec(*e->If_1, c, m1);
        let s2 = r2->Ok_0;
        let s3 = compile_spec(*e->If_2, c, m2).0->Ok_0;
        let p = s1.len() as int;
        let q = p + 2 + s2.len();
        assert(s =~= s1 + seq![InstrV::Cmp(MovArgs::ToReg(Reg::Rax, Arg64::Imm(1))), InstrV::JumpI(JumpV::E(l1))] + s2
            + seq![InstrV::JumpI(JumpV::U(l2)), InstrV::LabelI(l1)] + s3 + seq![InstrV::LabelI(l2)]);
        reveal_strlit("else");
        reveal_strlit("end_if");
        assert("else"@[1] != "end_if"@[1]);
        crate::laws::lemma_bases_apart("else"@, "end_if"@, i);
        assert(branch_shape(s, p, q, l1, l2));
    }
}

} // verus!
