//! Properties of the compiler that span its functions.
use vstd::prelude::*;
use crate::ast::{Expr, Op1, Op2, size, list_size, bindings_size, stack_depth, aligned, lemma_depth_bounds};
use crate::error::ErrV;
use crate::instr::{Arg64, InstrV, JumpV, MemRef, MovArgs, Reg};
use crate::context::{CtxV, ComV, VarEnv, FunEnv, rax_to_target_code, target_to_reg_code};
use crate::codegen::{Out, compile_spec, bindings_spec, sequence_spec, args_spec, copy_slots, lookup, var_base,
    operand_ctx, unop_code, binop_code, step_code, equal_code, operand_checks, operation_code, slot, next_label,
    false_val, fun_label, defs_table_spec, fun_entry, params_spec, defn_spec, defns_spec, body_ctx,
    func_defns_spec, aligned_spec, entry_slots, slot_bound, lemma_compile_state, lemma_bindings_state, lemma_sequence_state, lemma_args_state};
use crate::text::{numbered, lemma_numbered_injective};
use crate::jumps::defines_fun;

verus! {

/// The names of the labels that a piece of code defines, in order.
pub open spec fn label_defs(is: Seq<InstrV>) -> Seq<Seq<char>>
    decreases is.len(),
{
    if is.len() == 0 {
        seq![]
    } else {
        let rest = label_defs(is.drop_last());
        match is.last() {
            InstrV::LabelI(l) => rest.push(l),
            _ => rest,
        }
    }
}

/// Whether a piece of code defines no label.
pub open spec fn label_free(is: Seq<InstrV>) -> bool {
    forall|j: int| 0 <= j < is.len() ==> !(#[trigger] is[j] is LabelI)
}

/// The names that the compiler numbers its labels from.
pub open spec fn is_generated_base(b: Seq<char>) -> bool {
    b == "else"@ || b == "end_if"@ || b == "begin_loop"@ || b == "end_loop"@
}

/// Whether `l` is a generated label whose number is in `lo .. hi`.
pub open spec fn generated_in(l: Seq<char>, lo: int, hi: int) -> bool {
    exists|b: Seq<char>, i: u64| #[trigger] numbered(b, i) == l && is_generated_base(b) && lo <= i < hi
}

/// Whether each of the labels is a generated one numbered in `lo .. hi`.
pub open spec fn all_generated(ls: Seq<Seq<char>>, lo: int, hi: int) -> bool {
    forall|j: int| 0 <= j < ls.len() ==> generated_in(#[trigger] ls[j], lo, hi)
}

/// Whether the labels are generated ones numbered in `lo .. hi`, none defined twice.
pub open spec fn fresh_labels(ls: Seq<Seq<char>>, lo: int, hi: int) -> bool {
    &&& ls.no_duplicates()
    &&& all_generated(ls, lo, hi)
}

/// The labels of two pieces of code one after the other.
pub proof fn lemma_label_defs_append(a: Seq<InstrV>, b: Seq<InstrV>)
    ensures
        label_defs(a + b) == label_defs(a) + label_defs(b),
    decreases b.len(),
{
    if b.len() == 0 {
        assert(a + b =~= a);
        assert(label_defs(a) + label_defs(b) =~= label_defs(a));
    } else {
        lemma_label_defs_append(a, b.drop_last());
        assert((a + b).drop_last() =~= a + b.drop_last());
        assert((a + b).last() == b.last());
        match b.last() {
            InstrV::LabelI(l) => {
                assert(label_defs(a) + label_defs(b.drop_last()).push(l) =~= (label_defs(a) + label_defs(b.drop_last())).push(l));
            },
            _ => {},
        }
    }
}

/// Code that defines no label has no labels.
pub proof fn lemma_label_free(is: Seq<InstrV>)
    requires
        label_free(is),
    ensures
        label_defs(is) == Seq::<Seq<char>>::empty(),
    decreases is.len(),
{
    if is.len() > 0 {
        assert(label_free(is.drop_last()));
        lemma_label_free(is.drop_last());
        assert(!(is[is.len() - 1] is LabelI));
    }
}

/// The labels of a single label definition.
pub proof fn lemma_label_single(l: Seq<char>)
    ensures
        label_defs(seq![InstrV::LabelI(l)]) == seq![l],
{
    let s = seq![InstrV::LabelI(l)];
    assert(s.drop_last() =~= Seq::<InstrV>::empty());
    assert(label_defs(s.drop_last()) == Seq::<Seq<char>>::empty());
    assert(s.last() == InstrV::LabelI(l));
    assert(Seq::<Seq<char>>::empty().push(l) =~= seq![l]);
}

/// A generated label lies in a range only if its number does.
pub proof fn lemma_generated_number(b: Seq<char>, i: u64, lo: int, hi: int)
    requires
        generated_in(numbered(b, i), lo, hi),
    ensures
        lo <= i < hi,
{
    let (b2, i2) = choose|b2: Seq<char>, i2: u64| #[trigger] numbered(b2, i2) == numbered(b, i) && is_generated_base(b2) && lo <= i2 < hi;
    lemma_numbered_injective(b, i, b2, i2);
}

/// Two labels generated in disjoint ranges differ.
pub proof fn lemma_generated_apart(x: Seq<char>, y: Seq<char>, lo1: int, hi1: int, lo2: int, hi2: int)
    requires
        generated_in(x, lo1, hi1),
        generated_in(y, lo2, hi2),
        hi1 <= lo2 || hi2 <= lo1,
    ensures
        x != y,
{
    let (b, i) = choose|b: Seq<char>, i: u64| #[trigger] numbered(b, i) == x && is_generated_base(b) && lo1 <= i < hi1;
    if x == y {
        lemma_generated_number(b, i, lo2, hi2);
    }
}

/// A range holds what a smaller one does.
pub proof fn lemma_all_generated_widen(ls: Seq<Seq<char>>, lo: int, hi: int, lo2: int, hi2: int)
    requires
        all_generated(ls, lo, hi),
        lo2 <= lo,
        hi <= hi2,
    ensures
        all_generated(ls, lo2, hi2),
{
    assert forall|j: int| 0 <= j < ls.len() implies generated_in(#[trigger] ls[j], lo2, hi2) by {
        let (b, i) = choose|b: Seq<char>, i: u64| #[trigger] numbered(b, i) == ls[j] && is_generated_base(b) && lo <= i < hi;
    }
}

/// Fresh labels from two disjoint ranges, one list after the other, are fresh in a
/// range that covers both.
pub proof fn lemma_fresh_join(a: Seq<Seq<char>>, b: Seq<Seq<char>>, lo1: int, hi1: int, lo2: int, hi2: int, lo: int, hi: int)
    requires
        fresh_labels(a, lo1, hi1),
        fresh_labels(b, lo2, hi2),
        hi1 <= lo2 || hi2 <= lo1,
        lo <= lo1,
        lo <= lo2,
        hi1 <= hi,
        hi2 <= hi,
    ensures
        fresh_labels(a + b, lo, hi),
{
    let s = a + b;
    assert forall|i: int, j: int| 0 <= i < s.len() && 0 <= j < s.len() && i != j implies s[i] != s[j] by {
        if i < a.len() && j >= a.len() {
            lemma_generated_apart(a[i], b[j - a.len()], lo1, hi1, lo2, hi2);
        } else if j < a.len() && i >= a.len() {
            lemma_generated_apart(a[j], b[i - a.len()], lo1, hi1, lo2, hi2);
        }
    }
    lemma_all_generated_widen(a, lo1, hi1, lo, hi);
    lemma_all_generated_widen(b, lo2, hi2, lo, hi);
    assert forall|j: int| 0 <= j < s.len() implies generated_in(#[trigger] s[j], lo, hi) by {
        if j < a.len() {
            assert(s[j] == a[j]);
        } else {
            assert(s[j] == b[j - a.len()]);
        }
    }
}

/// A single generated label is fresh in the range of its number.
pub proof fn lemma_fresh_single(b: Seq<char>, i: u64)
    requires
        is_generated_base(b),
    ensures
        fresh_labels(seq![numbered(b, i)], i as int, i + 1),
{
    let l = numbered(b, i);
    assert(generated_in(seq![l][0], i as int, i + 1));
}

/// No labels are fresh in any range.
pub proof fn lemma_fresh_empty(lo: int, hi: int)
    ensures
        fresh_labels(Seq::<Seq<char>>::empty(), lo, hi),
{
}

/// Fresh labels stay fresh in a wider range.
pub proof fn lemma_fresh_widen(ls: Seq<Seq<char>>, lo: int, hi: int, lo2: int, hi2: int)
    requires
        fresh_labels(ls, lo, hi),
        lo2 <= lo,
        hi <= hi2,
    ensures
        fresh_labels(ls, lo2, hi2),
{
    lemma_all_generated_widen(ls, lo, hi, lo2, hi2);
}

} // verus!

verus! {

/// Code that defines no label, put after code, defines what the first does.
pub proof fn lemma_defs_then_free(s: Seq<InstrV>, t: Seq<InstrV>)
    requires
        label_free(t),
    ensures
        label_defs(s + t) == label_defs(s),
{
    lemma_label_defs_append(s, t);
    lemma_label_free(t);
    assert(label_defs(s) + Seq::<Seq<char>>::empty() =~= label_defs(s));
}

/// Code that defines no label, put before code, defines what the second does.
pub proof fn lemma_free_then_defs(t: Seq<InstrV>, s: Seq<InstrV>)
    requires
        label_free(t),
    ensures
        label_defs(t + s) == label_defs(s),
{
    lemma_label_defs_append(t, s);
    lemma_label_free(t);
    assert(Seq::<Seq<char>>::empty() + label_defs(s) =~= label_defs(s));
}

/// The labels of two pieces of code whose labels are fresh in consecutive ranges.
pub proof fn lemma_fresh_concat(s1: Seq<InstrV>, s2: Seq<InstrV>, lo: int, mid: int, hi: int)
    requires
        fresh_labels(label_defs(s1), lo, mid),
        fresh_labels(label_defs(s2), mid, hi),
        lo <= mid <= hi,
    ensures
        fresh_labels(label_defs(s1 + s2), lo, hi),
{
    lemma_label_defs_append(s1, s2);
    lemma_fresh_join(label_defs(s1), label_defs(s2), lo, mid, mid, hi, lo, hi);
}

/// Adds a label, which no earlier one equals, to fresh labels.
pub proof fn lemma_fresh_push(ls: Seq<Seq<char>>, b: Seq<char>, i: u64, lo: int, hi: int)
    requires
        fresh_labels(ls, lo, hi),
        is_generated_base(b),
        lo <= i < hi,
        forall|j: int| 0 <= j < ls.len() ==> ls[j] != numbered(b, i),
    ensures
        fresh_labels(ls.push(numbered(b, i)), lo, hi),
{
    let s = ls.push(numbered(b, i));
    assert forall|j: int| 0 <= j < s.len() implies generated_in(#[trigger] s[j], lo, hi) by {
        if j == ls.len() {
            assert(s[j] == numbered(b, i));
        } else {
            assert(s[j] == ls[j]);
        }
    }
}

/// The two labels of an `if`, or of a loop, differ.
pub proof fn lemma_bases_apart(b1: Seq<char>, b2: Seq<char>, i: u64)
    requires
        b1 != b2,
    ensures
        numbered(b1, i) != numbered(b2, i),
{
    if numbered(b1, i) == numbered(b2, i) {
        lemma_numbered_injective(b1, i, b2, i);
    }
}

} // verus!

verus! {

/// Whether the code of a compile result, if there is any, defines only fresh labels
/// numbered from `m`'s label number up to that of the state after.
pub open spec fn fresh_code(out: Out, m: ComV) -> bool {
    out.0 matches Ok(s) ==> fresh_labels(label_defs(s), m.label_index as int, out.1.label_index as int)
}

/// The code of an operand's tail defines no labels.
proof fn lemma_fragments_free(op: Op1, op2: Op2, t: Option<bool>, t2: Option<bool>, c: CtxV, v: VarEnv, r: Reg)
    ensures
        label_free(rax_to_target_code(c)),
        label_free(target_to_reg_code(c, r)),
        label_free(unop_code(op, t, c).0),
        label_free(binop_code(op2, t, t2, c).0),
        label_free(var_base(v, c).1),
{
    assert(label_free(step_code(op, t, c)));
    assert(label_free(equal_code(t, t2, c).0));
    assert(label_free(operand_checks(t, t2, c)));
    assert(label_free(operation_code(op2, c)));
}

/// Moves between slots define no labels.
proof fn lemma_copy_free(from: int, to: int, n: nat)
    ensures
        label_free(copy_slots(from, to, n)),
    decreases n,
{
    if n > 0 {
        lemma_copy_free(from, to, (n - 1) as nat);
    }
}

/// Each label that compiling defines is defined once, and is a generated one numbered
/// from the label number compiling starts with up to the one it leaves behind.
#[verifier::spinoff_prover]
#[verifier::rlimit(40)]
pub proof fn lemma_compile_labels(e: Expr, c: CtxV, m: ComV)
    requires
        m.label_index + size(e) <= u64::MAX,
    ensures
        fresh_code(compile_spec(e, c, m), m),
    decreases e, 2int,
{
    let out = compile_spec(e, c, m);
    lemma_compile_state(e, c, m);
    let lo = m.label_index as int;
    lemma_fresh_empty(lo, lo);
    match e {
        Expr::Num(n) => {
            lemma_fragments_free(Op1::Add1, Op2::Plus, None, None, c, VarEnv { offset: 0, is_bool: None, in_heap: false }, Reg::Rax);
            if out.0 is Ok {
                lemma_label_free(out.0->Ok_0);
            }
        },
        Expr::Var(x) => {
            if lookup(x@, c, m) is Some {
                lemma_fragments_free(Op1::Add1, Op2::Plus, None, None, c, lookup(x@, c, m)->Some_0, Reg::Rax);
                lemma_label_free(out.0->Ok_0);
            }
        },
        Expr::Boolean(b) => {
            lemma_label_free(out.0->Ok_0);
        },
        Expr::UnOp(op, a) => {
            let c1 = operand_ctx(c);
            lemma_compile_labels(*a, c1, m);
            let (r, m1) = compile_spec(*a, c1, m);
            if r is Ok {
                lemma_fragments_free(op, Op2::Plus, m1.result_is_bool, None, c1, VarEnv { offset: 0, is_bool: None, in_heap: false }, Reg::Rax);
                lemma_defs_then_free(r->Ok_0, unop_code(op, m1.result_is_bool, c1).0);
            }
        },
        Expr::BinOp(op, l, r) => {
            let c1 = operand_ctx(c);
            let cr = CtxV { target: Some(slot(c1.si as int)), ..c1 };
            let (rr, m1) = compile_spec(*r, cr, m);
            lemma_compile_labels(*r, cr, m);
            lemma_compile_state(*r, cr, m);
            if rr is Ok {
                let cl = CtxV { si: (c1.si + 1) as i32, target: None, ..c1 };
                let (rl, m2) = compile_spec(*l, cl, m1);
                lemma_compile_labels(*l, cl, m1);
                lemma_compile_state(*l, cl, m1);
                if rl is Ok {
                    lemma_fresh_concat(rr->Ok_0, rl->Ok_0, lo, m1.label_index as int, m2.label_index as int);
                    lemma_fragments_free(Op1::Add1, op, m2.result_is_bool, m1.result_is_bool, c1, VarEnv { offset: 0, is_bool: None, in_heap: false }, Reg::Rax);
                    lemma_defs_then_free(rr->Ok_0 + rl->Ok_0, binop_code(op, m2.result_is_bool, m1.result_is_bool, c1).0);
                }
            }
        },
        Expr::Let(bs, body) => {
            let (r1, env, m1) = bindings_spec(bs@, 0, c, c.env, Set::empty(), m);
            lemma_bindings_labels(bs@, 0, c, c.env, Set::empty(), m);
            lemma_bindings_state(bs@, 0, c, c.env, Set::empty(), m);
            if r1 is Ok {
                let cb = CtxV { si: (c.si + bs@.len()) as i32, env, ..c };
                lemma_compile_labels(*body, cb, m1);
                lemma_compile_state(*body, cb, m1);
                let (r2, m2) = compile_spec(*body, cb, m1);
                if r2 is Ok {
                    lemma_fresh_concat(r1->Ok_0, r2->Ok_0, lo, m1.label_index as int, m2.label_index as int);
                }
            }
        },
        Expr::If(cond, thn, els) => {
            lemma_if_labels(e, c, m);
        },
        Expr::Loop(body) => {
            lemma_loop_labels(e, c, m);
        },
        Expr::Block(es) => {
            let bm = ComV { env: m.env.union_prefer_right(c.env), ..m };
            let bc = CtxV { env: Map::empty(), ..c };
            let rest = CtxV { target: None, tail: false, ..bc };
            lemma_sequence_labels(es@, bc, rest, bm);
        },
        Expr::Break(a) => {
            let c1 = operand_ctx(c);
            if c1.label.len() != 0 {
                lemma_compile_labels(*a, c1, m);
                let (r, m1) = compile_spec(*a, c1, m);
                if r is Ok {
                    assert(label_free(seq![InstrV::JumpI(JumpV::U(c1.label))]));
                    lemma_defs_then_free(r->Ok_0, seq![InstrV::JumpI(JumpV::U(c1.label))]);
                }
            }
        },
        Expr::Assign(x, a) => {
            let c1 = operand_ctx(c);
            let ca = CtxV { target: None, ..c1 };
            lemma_compile_labels(*a, ca, m);
            let (r, m1) = compile_spec(*a, ca, m);
            if r is Ok && out.0 is Ok {
                let name = x@;
                let v = if c1.env.contains_key(name) {
                    c1.env[name]
                } else {
                    let old = m1.env[name];
                    VarEnv { offset: old.offset, is_bool: m1.result_is_bool, in_heap: old.in_heap }
                };
                let (reg, pre) = var_base(v, c1);
                lemma_fragments_free(Op1::Add1, Op2::Plus, None, None, c1, v, Reg::Rax);
                let t = pre + seq![
                    InstrV::Mov(MovArgs::ToMem(MemRef { reg, offset: v.offset }, Arg64::OReg(Reg::Rax))),
                ] + rax_to_target_code(c1);
                assert(label_free(t));
                assert(out.0->Ok_0 =~= r->Ok_0 + t);
                lemma_defs_then_free(r->Ok_0, t);
            }
        },
        Expr::FnCall(name, args) => {
            lemma_call_labels(e, c, m);
        },
        _ => {},
    }
}

/// [`lemma_compile_labels`] for an `if`.
proof fn lemma_if_labels(e: Expr, c: CtxV, m: ComV)
    requires
        e is If,
        m.label_index + size(e) <= u64::MAX,
    ensures
        fresh_code(compile_spec(e, c, m), m),
    decreases e, 1int,
{
    match e {
        Expr::If(cond, thn, els) => {
            let i = m.label_index;
            let else_label = numbered("else"@, i);
            let end_label = numbered("end_if"@, i);
            let m0 = next_label(m);
            let cc = CtxV { target: None, tail: false, ..c };
            let (r1, m1) = compile_spec(*cond, cc, m0);
            lemma_compile_labels(*cond, cc, m0);
            lemma_compile_state(*cond, cc, m0);
            if r1 is Ok {
                let (r2, m2) = compile_spec(*thn, c, m1);
                lemma_compile_labels(*thn, c, m1);
                lemma_compile_state(*thn, c, m1);
                if r2 is Ok {
                    let s1 = r1->Ok_0;
                    let s2 = r2->Ok_0;
                    lemma_fresh_concat(s1, s2, i + 1, m1.label_index as int, m2.label_index as int);
                    if m1.result_is_bool != Some(false) {
                        let (r3, m3) = compile_spec(*els, c, m2);
                        lemma_compile_labels(*els, c, m2);
                        lemma_compile_state(*els, c, m2);
                        if r3 is Ok {
                            let s3 = r3->Ok_0;
                            let a = seq![InstrV::Cmp(MovArgs::ToReg(Reg::Rax, false_val())), InstrV::JumpI(JumpV::E(else_label))];
                            let b = seq![InstrV::JumpI(JumpV::U(end_label)), InstrV::LabelI(else_label)];
                            let z = seq![InstrV::LabelI(end_label)];
                            assert(label_free(a));
                            assert(label_free(seq![InstrV::JumpI(JumpV::U(end_label))]));
                            assert(b =~= seq![InstrV::JumpI(JumpV::U(end_label))] + seq![InstrV::LabelI(else_label)]);
                            lemma_free_then_defs(seq![InstrV::JumpI(JumpV::U(end_label))], seq![InstrV::LabelI(else_label)]);
                            lemma_label_single(else_label);
                            lemma_label_single(end_label);
                            lemma_label_defs_append(s1, a);
                            lemma_label_free(a);
                            lemma_label_defs_append(s1 + a, s2);
                            lemma_label_defs_append(s1 + a + s2, b);
                            lemma_label_defs_append(s1 + a + s2 + b, s3);
                            lemma_label_defs_append(s1 + a + s2 + b + s3, z);
                            lemma_label_defs_append(s1, s2);
                            let xs = label_defs(s1) + label_defs(s2);
                            assert(label_defs(s1 + a + s2) =~= xs);
                            lemma_fresh_single("else"@, i);
                            reveal_strlit("else");
                            reveal_strlit("end_if");
                            lemma_fresh_join(xs, seq![else_label], i + 1, m2.label_index as int, i as int, i + 1, i as int, m2.label_index as int);
                            let ys = xs + seq![else_label];
                            lemma_fresh_join(ys, label_defs(s3), i as int, m2.label_index as int, m2.label_index as int, m3.label_index as int, i as int, m3.label_index as int);
                            let zs = ys + label_defs(s3);
                            assert forall|j: int| 0 <= j < zs.len() implies zs[j] != end_label by {
                                if j < xs.len() {
                                    assert(zs[j] == xs[j]);
                                    lemma_fresh_single("end_if"@, i);
                                    lemma_generated_apart(xs[j], end_label, i + 1, m2.label_index as int, i as int, i + 1);
                                } else if j == xs.len() {
                                    assert(zs[j] == else_label);
                                    lemma_bases_apart("else"@, "end_if"@, i);
                                } else {
                                    assert(zs[j] == label_defs(s3)[j - ys.len()]);
                                    lemma_fresh_single("end_if"@, i);
                                    lemma_generated_apart(label_defs(s3)[j - ys.len()], end_label, m2.label_index as int, m3.label_index as int, i as int, i + 1);
                                }
                            }
                            lemma_fresh_push(zs, "end_if"@, i, i as int, m3.label_index as int);
                            assert(label_defs(s1 + a + s2 + b + s3 + z) =~= zs.push(end_label));
                        }
                    } else {
                        lemma_fresh_widen(label_defs(s1 + s2), i + 1, m2.label_index as int, i as int, m2.label_index as int);
                    }
                }
            }
        },
        _ => {},
    }
}

/// [`lemma_compile_labels`] for a loop.
proof fn lemma_loop_labels(e: Expr, c: CtxV, m: ComV)
    requires
        e is Loop,
        m.label_index + size(e) <= u64::MAX,
    ensures
        fresh_code(compile_spec(e, c, m), m),
    decreases e, 1int,
{
    match e {
        Expr::Loop(body) => {
            let i = m.label_index;
            let begin = numbered("begin_loop"@, i);
            let end = numbered("end_loop"@, i);
            let cb = CtxV { target: None, label: end, ..c };
            let (r, m1) = compile_spec(*body, cb, next_label(m));
            lemma_compile_labels(*body, cb, next_label(m));
            lemma_compile_state(*body, cb, next_label(m));
            if r is Ok {
                let s = r->Ok_0;
                let a = seq![InstrV::LabelI(begin)];
                let j = seq![InstrV::JumpI(JumpV::U(begin))];
                let z = seq![InstrV::LabelI(end)];
                let t = rax_to_target_code(c);
                lemma_fragments_free(Op1::Add1, Op2::Plus, None, None, c, VarEnv { offset: 0, is_bool: None, in_heap: false }, Reg::Rax);
                assert(label_free(j));
                lemma_label_single(begin);
                lemma_label_single(end);
                lemma_label_free(j);
                assert(seq![InstrV::JumpI(JumpV::U(begin)), InstrV::LabelI(end)] =~= j + z);
                lemma_label_defs_append(j, z);
                lemma_label_defs_append(a, s);
                lemma_label_defs_append(a + s, j + z);
                lemma_defs_then_free(a + s + (j + z), t);
                reveal_strlit("begin_loop");
                reveal_strlit("end_loop");
                lemma_fresh_single("begin_loop"@, i);
                lemma_fresh_join(seq![begin], label_defs(s), i as int, i + 1, i + 1, m1.label_index as int, i as int, m1.label_index as int);
                let xs = seq![begin] + label_defs(s);
                assert forall|k: int| 0 <= k < xs.len() implies xs[k] != end by {
                    if k == 0 {
                        assert(xs[k] == begin);
                        lemma_bases_apart("begin_loop"@, "end_loop"@, i);
                    } else {
                        assert(xs[k] == label_defs(s)[k - 1]);
                        lemma_fresh_single("end_loop"@, i);
                        lemma_generated_apart(label_defs(s)[k - 1], end, i + 1, m1.label_index as int, i as int, i + 1);
                    }
                }
                lemma_fresh_push(xs, "end_loop"@, i, i as int, m1.label_index as int);
                assert(label_defs(s) + Seq::<Seq<char>>::empty() =~= label_defs(s));
                assert(label_defs(a + s + (j + z)) =~= xs.push(end));
                assert(compile_spec(e, c, m).0->Ok_0 =~= a + s + (j + z) + t);
            }
        },
        _ => {},
    }
}

/// [`lemma_compile_labels`] for a call.
proof fn lemma_call_labels(e: Expr, c: CtxV, m: ComV)
    requires
        e is FnCall,
        m.label_index + size(e) <= u64::MAX,
    ensures
        fresh_code(compile_spec(e, c, m), m),
    decreases e, 1int,
{
    match e {
        Expr::FnCall(name, args) => {
            lemma_fresh_empty(m.label_index as int, m.label_index as int);
            if m.fns.contains_key(name@) && m.fns[name@].argc == args@.len() {
                let f = m.fns[name@];
                let n = args@.len();
                lemma_args_labels(args@, 0, c, m);
                let (r, m1) = args_spec(args@, 0, c, m);
                if r is Ok {
                    let s = r->Ok_0;
                    if c.tail {
                        let diff = m1.depth - f.depth;
                        let moves = if c.si > diff { copy_slots(c.si as int, diff, n) } else { seq![] };
                        lemma_copy_free(c.si as int, diff, n);
                        let t = moves + seq![
                            InstrV::Add(MovArgs::ToReg(Reg::Rsp, Arg64::Imm((m1.depth * 8) as i32))),
                            InstrV::JumpI(JumpV::U(fun_label(name@))),
                        ];
                        assert(label_free(t));
                        assert(compile_spec(e, c, m).0->Ok_0 =~= s + t);
                        lemma_defs_then_free(s, t);
                    } else {
                        lemma_copy_free(c.si as int, -(f.depth + 1), n);
                        lemma_fragments_free(Op1::Add1, Op2::Plus, None, None, c, VarEnv { offset: 0, is_bool: None, in_heap: false }, Reg::Rax);
                        let t = copy_slots(c.si as int, -(f.depth + 1), n) + seq![InstrV::Call(fun_label(name@))] + rax_to_target_code(c);
                        assert(label_free(t));
                        assert(compile_spec(e, c, m).0->Ok_0 =~= s + t);
                        lemma_defs_then_free(s, t);
                    }
                }
            }
        },
        _ => {},
    }
}

/// [`lemma_compile_labels`] for the bindings of a `let`.
proof fn lemma_bindings_labels(
    bs: Seq<(String, Expr)>,
    k: int,
    c: CtxV,
    env: Map<Seq<char>, VarEnv>,
    seen: Set<Seq<char>>,
    m: ComV,
)
    requires
        m.label_index + bindings_size(bs) <= u64::MAX,
    ensures
        ({
            let out = bindings_spec(bs, k, c, env, seen, m);
            out.0 matches Ok(s) ==> fresh_labels(label_defs(s), m.label_index as int, out.2.label_index as int)
        }),
    decreases bs, 0int,
{
    lemma_fresh_empty(m.label_index as int, m.label_index as int);
    if bs.len() > 0 {
        let x = bs[0].0@;
        if !seen.contains(x) {
            let si = (c.si + k) as i32;
            let cb = CtxV { si, env, target: Some(slot(si as int)), tail: false, ..c };
            lemma_compile_labels(bs[0].1, cb, m);
            lemma_compile_state(bs[0].1, cb, m);
            let (r1, m1) = compile_spec(bs[0].1, cb, m);
            if r1 is Ok {
                let env1 = env.insert(x, VarEnv { offset: si, is_bool: m1.result_is_bool, in_heap: false });
                lemma_bindings_labels(bs.drop_first(), k + 1, c, env1, seen.insert(x), m1);
                lemma_bindings_state(bs.drop_first(), k + 1, c, env1, seen.insert(x), m1);
                let (r2, env2, m2) = bindings_spec(bs.drop_first(), k + 1, c, env1, seen.insert(x), m1);
                if r2 is Ok {
                    lemma_fresh_concat(r1->Ok_0, r2->Ok_0, m.label_index as int, m1.label_index as int, m2.label_index as int);
                }
            }
        }
    } else {
        assert(label_defs(Seq::<InstrV>::empty()) =~= Seq::<Seq<char>>::empty());
    }
}

/// [`lemma_compile_labels`] for the expressions of a block.
proof fn lemma_sequence_labels(es: Seq<Expr>, last: CtxV, rest: CtxV, m: ComV)
    requires
        m.label_index + list_size(es) <= u64::MAX,
    ensures
        fresh_code(sequence_spec(es, last, rest, m), m),
    decreases es, 0int,
{
    lemma_fresh_empty(m.label_index as int, m.label_index as int);
    if es.len() > 0 {
        let cx = if es.len() == 1 { last } else { rest };
        lemma_compile_labels(es[0], cx, m);
        lemma_compile_state(es[0], cx, m);
        let (r1, m1) = compile_spec(es[0], cx, m);
        if r1 is Ok {
            lemma_sequence_labels(es.drop_first(), last, rest, m1);
            lemma_sequence_state(es.drop_first(), last, rest, m1);
            let (r2, m2) = sequence_spec(es.drop_first(), last, rest, m1);
            if r2 is Ok {
                lemma_fresh_concat(r1->Ok_0, r2->Ok_0, m.label_index as int, m1.label_index as int, m2.label_index as int);
            }
        }
    } else {
        assert(label_defs(Seq::<InstrV>::empty()) =~= Seq::<Seq<char>>::empty());
    }
}

/// [`lemma_compile_labels`] for the arguments of a call.
proof fn lemma_args_labels(args: Seq<Expr>, k: int, c: CtxV, m: ComV)
    requires
        m.label_index + list_size(args) <= u64::MAX,
    ensures
        fresh_code(args_spec(args, k, c, m), m),
    decreases args, 0int,
{
    lemma_fresh_empty(m.label_index as int, m.label_index as int);
    if args.len() > 0 {
        let si = (c.si + k) as i32;
        let ca = CtxV { si, target: Some(slot(si as int)), tail: false, ..c };
        lemma_compile_labels(args[0], ca, m);
        lemma_compile_state(args[0], ca, m);
        let (r1, m1) = compile_spec(args[0], ca, m);
        if r1 is Ok {
            lemma_args_labels(args.drop_first(), k + 1, c, m1);
            lemma_args_state(args.drop_first(), k + 1, c, m1);
            let (r2, m2) = args_spec(args.drop_first(), k + 1, c, m1);
            if r2 is Ok {
                lemma_fresh_concat(r1->Ok_0, r2->Ok_0, m.label_index as int, m1.label_index as int, m2.label_index as int);
            }
        }
    } else {
        assert(label_defs(Seq::<InstrV>::empty()) =~= Seq::<Seq<char>>::empty());
    }
}

} // verus!

verus! {

/// Whether the functions that the definitions `fs` define have names distinct from
/// each other and from `used`.
pub open spec fn names_fresh(fs: Seq<Expr>, used: Set<Seq<char>>) -> bool
    decreases fs,
{
    if fs.len() == 0 {
        true
    } else {
        match fs[0] {
            Expr::FnDefn(name, _, _) => !used.contains(name@) && names_fresh(fs.drop_first(), used.insert(name@)),
            _ => false,
        }
    }
}

/// A table of definitions that passes has names distinct from each other and from the
/// table it starts from.
pub proof fn lemma_table_names(fs: Seq<Expr>, acc: Map<Seq<char>, FunEnv>)
    ensures
        defs_table_spec(fs, acc) is Ok ==> names_fresh(fs, acc.dom()),
    decreases fs,
{
    if fs.len() > 0 {
        match fs[0] {
            Expr::FnDefn(name, vars, body) => {
                let acc1 = acc.insert(name@, fun_entry(vars@, *body));
                lemma_table_names(fs.drop_first(), acc1);
                assert(acc1.dom() =~= acc.dom().insert(name@));
            },
            _ => {},
        }
    }
}

/// A function's label is no generated one.
pub proof fn lemma_fun_not_generated(n: Seq<char>, l: Seq<char>, lo: int, hi: int)
    requires
        generated_in(l, lo, hi),
    ensures
        l != fun_label(n),
{
    let (b, i) = choose|b: Seq<char>, i: u64| #[trigger] numbered(b, i) == l && is_generated_base(b) && lo <= i < hi;
    reveal_strlit("fun_");
    reveal_strlit("else");
    reveal_strlit("end_if");
    reveal_strlit("begin_loop");
    reveal_strlit("end_loop");
    assert(numbered(b, i)[0] == b[0]);
    assert(fun_label(n)[0] == 'f');
}

/// Functions of distinct names have distinct labels.
pub proof fn lemma_fun_label_injective(a: Seq<char>, b: Seq<char>)
    requires
        fun_label(a) == fun_label(b),
    ensures
        a == b,
{
    reveal_strlit("fun_");
    assert(a =~= fun_label(a).subrange(4, fun_label(a).len() as int));
    assert(b =~= fun_label(b).subrange(4, fun_label(b).len() as int));
}

/// Whether each label is defined once, and is a generated one numbered in `lo .. hi`
/// or the label of a function whose name is not in `used`.
pub open spec fn program_labels(ls: Seq<Seq<char>>, lo: int, hi: int, used: Set<Seq<char>>) -> bool {
    &&& ls.no_duplicates()
    &&& forall|j: int| 0 <= j < ls.len() ==> generated_in(#[trigger] ls[j], lo, hi)
        || exists|n: Seq<char>| fun_label(n) == ls[j] && !used.contains(n)
}

/// The label numbers that compiling definitions moves through.
pub proof fn lemma_defns_state(fs: Seq<Expr>, m: ComV)
    requires
        m.label_index + list_size(fs) <= u64::MAX,
    ensures
        m.label_index <= defns_spec(fs, m).1.label_index <= m.label_index + list_size(fs),
        defns_spec(fs, m).1.fns == m.fns,
    decreases fs,
{
    if fs.len() > 0 {
        assert(list_size(fs) == 1 + size(fs[0]) + list_size(fs.drop_first()));
        match fs[0] {
            Expr::FnDefn(name, vars, body) => {
                let m0 = ComV { depth: m.fns[name@].depth, ..m };
                if params_spec(vars@, 0, Map::empty()) is Ok {
                    let env = params_spec(vars@, 0, Map::empty())->Ok_0;
                    lemma_compile_state(*body, body_ctx(vars@.len() as int, env), m0);
                }
            },
            _ => {},
        }
        let m1 = defn_spec(fs[0], m).1;
        lemma_defns_state(fs.drop_first(), m1);
    }
}

/// Each label that compiling definitions defines is defined once: the functions'
/// labels, which are named after the functions, and the generated labels of their
/// bodies, numbered from the state's label number up to the one it leaves behind.
pub proof fn lemma_defns_labels(fs: Seq<Expr>, m: ComV, used: Set<Seq<char>>)
    requires
        names_fresh(fs, used),
        m.label_index + list_size(fs) <= u64::MAX,
    ensures
        defns_spec(fs, m).0 matches Ok(s) ==> program_labels(
            label_defs(s),
            m.label_index as int,
            defns_spec(fs, m).1.label_index as int,
            used,
        ),
    decreases fs,
{
    if fs.len() == 0 {
        assert(label_defs(Seq::<InstrV>::empty()) =~= Seq::<Seq<char>>::empty());
    } else {
        assert(list_size(fs) == 1 + size(fs[0]) + list_size(fs.drop_first()));
        match fs[0] {
            Expr::FnDefn(name, vars, body) => {
                let m0 = ComV { depth: m.fns[name@].depth, ..m };
                if params_spec(vars@, 0, Map::empty()) is Ok {
                    let env = params_spec(vars@, 0, Map::empty())->Ok_0;
                    let cb = body_ctx(vars@.len() as int, env);
                    lemma_compile_labels(*body, cb, m0);
                    lemma_compile_state(*body, cb, m0);
                    let (r, m1) = compile_spec(*body, cb, m0);
                    if r is Ok {
                        let s = r->Ok_0;
                        let head = seq![
                            InstrV::LabelI(fun_label(name@)),
                            InstrV::Sub(MovArgs::ToReg(Reg::Rsp, Arg64::Imm((m0.depth * 8) as i32))),
                        ];
                        let tail = seq![
                            InstrV::Add(MovArgs::ToReg(Reg::Rsp, Arg64::Imm((m1.depth * 8) as i32))),
                            InstrV::Ret,
                        ];
                        assert(head =~= seq![InstrV::LabelI(fun_label(name@))] + seq![
                            InstrV::Sub(MovArgs::ToReg(Reg::Rsp, Arg64::Imm((m0.depth * 8) as i32))),
                        ]);
                        lemma_label_single(fun_label(name@));
                        lemma_defs_then_free(seq![InstrV::LabelI(fun_label(name@))], seq![
                            InstrV::Sub(MovArgs::ToReg(Reg::Rsp, Arg64::Imm((m0.depth * 8) as i32))),
                        ]);
                        lemma_label_defs_append(head, s);
                        lemma_defs_then_free(head + s, tail);
                        let here = seq![fun_label(name@)] + label_defs(s);
                        assert(label_defs(head + s + tail) =~= here);
                        let used1 = used.insert(name@);
                        lemma_defns_labels(fs.drop_first(), m1, used1);
                        lemma_defns_state(fs.drop_first(), m1);
                        let (r2, m2) = defns_spec(fs.drop_first(), m1);
                        if r2 is Ok {
                            let rest = label_defs(r2->Ok_0);
                            lemma_label_defs_append(head + s + tail, r2->Ok_0);
                            let all = here + rest;
                            let lo = m.label_index as int;
                            let hi = m2.label_index as int;
                            assert forall|i: int, j: int| 0 <= i < all.len() && 0 <= j < all.len() && i != j implies all[i] != all[j] by {
                                lemma_all_differ(here, rest, name@, label_defs(s), used1, lo, m1.label_index as int, hi, i, j);
                            }
                            assert forall|j: int| 0 <= j < all.len() implies generated_in(#[trigger] all[j], lo, hi)
                                || exists|n: Seq<char>| fun_label(n) == all[j] && !used.contains(n) by {
                                if j == 0 {
                                    assert(all[j] == fun_label(name@));
                                } else if j < here.len() {
                                    assert(all[j] == label_defs(s)[j - 1]);
                                    lemma_all_generated_widen(label_defs(s), m.label_index as int, m1.label_index as int, lo, hi);
                                } else {
                                    assert(all[j] == rest[j - here.len()]);
                                    if generated_in(rest[j - here.len()], m1.label_index as int, hi) {
                                        let (b, k) = choose|b: Seq<char>, k: u64| #[trigger] numbered(b, k) == rest[j - here.len()] && is_generated_base(b) && m1.label_index <= k < hi;
                                        assert(generated_in(numbered(b, k), lo, hi));
                                    }
                                }
                            }
                            assert(label_defs(defns_spec(fs, m).0->Ok_0) =~= all);
                        }
                    }
                }
            },
            _ => {},
        }
    }
}

/// Two labels at distinct places of a function's labels and those of the definitions
/// after it differ.
proof fn lemma_all_differ(
    here: Seq<Seq<char>>,
    rest: Seq<Seq<char>>,
    name: Seq<char>,
    body: Seq<Seq<char>>,
    used1: Set<Seq<char>>,
    lo: int,
    mid: int,
    hi: int,
    i: int,
    j: int,
)
    requires
        here == seq![fun_label(name)] + body,
        fresh_labels(body, lo, mid),
        program_labels(rest, mid, hi, used1),
        used1.contains(name),
        0 <= i < here.len() + rest.len(),
        0 <= j < here.len() + rest.len(),
        i != j,
    ensures
        (here + rest)[i] != (here + rest)[j],
{
    let all = here + rest;
    if i < here.len() && j < here.len() {
        if i == 0 {
            assert(all[j] == body[j - 1]);
            lemma_fun_not_generated(name, body[j - 1], lo, mid);
        } else if j == 0 {
            assert(all[i] == body[i - 1]);
            lemma_fun_not_generated(name, body[i - 1], lo, mid);
        } else {
            assert(all[i] == body[i - 1]);
            assert(all[j] == body[j - 1]);
        }
    } else if i >= here.len() && j >= here.len() {
        assert(all[i] == rest[i - here.len()]);
        assert(all[j] == rest[j - here.len()]);
    } else {
        let (a, b) = if i < here.len() { (i, j) } else { (j, i) };
        let x = rest[b - here.len()];
        assert(all[b] == x);
        assert(all[a] == here[a]);
        if a == 0 {
            if generated_in(x, mid, hi) {
                lemma_fun_not_generated(name, x, mid, hi);
            } else {
                let n = choose|n: Seq<char>| fun_label(n) == x && !used1.contains(n);
                if x == fun_label(name) {
                    lemma_fun_label_injective(n, name);
                }
            }
        } else {
            let y = body[a - 1];
            assert(here[a] == y);
            if generated_in(x, mid, hi) {
                lemma_generated_apart(y, x, lo, mid, mid, hi);
            } else {
                let n = choose|n: Seq<char>| fun_label(n) == x && !used1.contains(n);
                lemma_fun_not_generated(n, y, lo, mid);
            }
        }
    }
}

} // verus!

verus! {

/// Every label of a program is defined exactly once: the code of its function
/// definitions, followed by the code of its main expression compiled from the state
/// that the definitions leave behind, defines no label twice.
pub proof fn lemma_program_labels(fs: Seq<Expr>, e: Expr, c: CtxV, m: ComV, input: Option<bool>)
    requires
        m.label_index + list_size(fs) + size(e) <= u64::MAX,
    ensures
        func_defns_spec(fs, m).0 matches Ok(s1) ==> (aligned_spec(e, c, func_defns_spec(fs, m).1, input).0 matches Ok(
            s2,
        ) ==> label_defs(s1 + s2).no_duplicates()),
{
    let t = defs_table_spec(fs, Map::empty());
    if t is Ok {
        let table = t->Ok_0;
        let m0 = ComV { fns: m.fns.union_prefer_right(table), ..m };
        lemma_table_names(fs, Map::empty());
        assert(Map::<Seq<char>, FunEnv>::empty().dom() =~= Set::<Seq<char>>::empty());
        lemma_defns_labels(fs, m0, Set::empty());
        lemma_defns_state(fs, m0);
        let (r1, m1) = defns_spec(fs, m0);
        if r1 is Ok {
            let s1 = r1->Ok_0;
            let ma = ComV { depth: aligned(stack_depth(e) + entry_slots(input)) as i32, ..m1 };
            let ce = CtxV { env: c.env.insert("input"@, VarEnv { offset: 0, is_bool: input, in_heap: false }), ..c };
            lemma_compile_labels(e, ce, ma);
            lemma_compile_state(e, ce, ma);
            let (r2, m2) = compile_spec(e, ce, ma);
            if r2 is Ok {
                let s = r2->Ok_0;
                let pre = seq![
                    InstrV::Sub(MovArgs::ToReg(Reg::Rsp, Arg64::Imm((ma.depth * 8) as i32))),
                    InstrV::Mov(MovArgs::ToMem(slot(0), Arg64::OReg(Reg::Rdi))),
                ];
                let post = seq![InstrV::Add(MovArgs::ToReg(Reg::Rsp, Arg64::Imm((m2.depth * 8) as i32)))];
                assert(label_free(pre));
                assert(label_free(post));
                lemma_free_then_defs(pre, s);
                lemma_defs_then_free(pre + s, post);
                let s2 = pre + s + post;
                assert(aligned_spec(e, c, m1, input).0 == Ok::<Seq<InstrV>, ErrV>(s2));
                lemma_label_defs_append(s1, s2);
                let a = label_defs(s1);
                let b = label_defs(s);
                let lo = m.label_index as int;
                let mid = m1.label_index as int;
                let hi = m2.label_index as int;
                let all = a + b;
                assert(label_defs(s1 + s2) == all);
                assert forall|i: int, j: int| 0 <= i < all.len() && 0 <= j < all.len() && i != j implies all[i]
                    != all[j] by {
                    if i < a.len() && j < a.len() {
                        assert(all[i] == a[i] && all[j] == a[j]);
                    } else if i >= a.len() && j >= a.len() {
                        assert(all[i] == b[i - a.len()] && all[j] == b[j - a.len()]);
                    } else {
                        let (p, q) = if i < a.len() { (i, j) } else { (j, i) };
                        let x = a[p];
                        let y = b[q - a.len()];
                        assert(all[p] == x && all[q] == y);
                        assert(generated_in(y, mid, hi));
                        if generated_in(x, lo, mid) {
                            lemma_generated_apart(x, y, lo, mid, mid, hi);
                        } else {
                            let n = choose|n: Seq<char>| fun_label(n) == x && !Set::<Seq<char>>::empty().contains(n);
                            lemma_fun_not_generated(n, y, mid, hi);
                        }
                    }
                }
            }
        }
    }
}

} // verus!

verus! {

/// A frame of `aligned(d)` slots, with the return address above it, keeps the stack
/// 16-byte aligned: the count is odd, and holds the `d` slots asked for with at most
/// one to spare.
pub proof fn lemma_frame_aligned(d: int)
    ensures
        aligned(d) % 2 == 1,
        d <= aligned(d) <= d + 1,
{
}

/// The code of a main expression gives back the stack it takes: it starts by taking a
/// frame of an odd number of slots, and ends by giving back the same number.
pub proof fn lemma_main_frame(e: Expr, c: CtxV, m: ComV, input: Option<bool>)
    requires
        m.label_index + size(e) <= u64::MAX,
        size(e) + 4 <= slot_bound(),
    ensures
        aligned_spec(e, c, m, input).0 matches Ok(s) ==> {
            let d = aligned(stack_depth(e) + entry_slots(input)) as i32;
            &&& d % 2 == 1
            &&& s.len() >= 3
            &&& s[0] == InstrV::Sub(MovArgs::ToReg(Reg::Rsp, Arg64::Imm((d * 8) as i32)))
            &&& s.last() == InstrV::Add(MovArgs::ToReg(Reg::Rsp, Arg64::Imm((d * 8) as i32)))
        },
{
    let d = aligned(stack_depth(e) + entry_slots(input)) as i32;
    let ma = ComV { depth: d, ..m };
    let ce = CtxV { env: c.env.insert("input"@, VarEnv { offset: 0, is_bool: input, in_heap: false }), ..c };
    lemma_compile_state(e, ce, ma);
    lemma_depth_bounds(e);
}

} // verus!

verus! {

/// The names of the functions that the definitions `fs` define.
pub open spec fn fun_names(fs: Seq<Expr>) -> Set<Seq<char>> {
    Set::new(|n: Seq<char>| defines_fun(fs, n))
}

/// Whether each label is defined once, and is a generated one numbered in `lo .. hi`
/// or the label of a function named in `names`.
pub open spec fn labels_of_program(ls: Seq<Seq<char>>, lo: int, hi: int, names: Set<Seq<char>>) -> bool {
    program_labels(ls, lo, hi, names.complement())
}

/// Names that are fresh stay fresh beside names that none of the definitions has.
proof fn lemma_names_fresh_beside(fs: Seq<Expr>, a: Set<Seq<char>>, b: Set<Seq<char>>)
    requires
        names_fresh(fs, a),
        forall|n: Seq<char>| #[trigger] b.contains(n) ==> !defines_fun(fs, n),
    ensures
        names_fresh(fs, a + b),
    decreases fs,
{
    if fs.len() > 0 {
        match fs[0] {
            Expr::FnDefn(name, _, _) => {
                assert(fs[0] is FnDefn && fs[0]->FnDefn_0@ == name@);
                assert forall|n: Seq<char>| #[trigger] b.contains(n) implies !defines_fun(fs.drop_first(), n) by {
                    if defines_fun(fs.drop_first(), n) {
                        let i = choose|i: int| 0 <= i < fs.drop_first().len() && (#[trigger] fs.drop_first()[i]) is FnDefn
                            && fs.drop_first()[i]->FnDefn_0@ == n;
                        assert(fs[i + 1] == fs.drop_first()[i]);
                    }
                }
                lemma_names_fresh_beside(fs.drop_first(), a.insert(name@), b);
                assert((a + b).insert(name@) =~= a.insert(name@) + b);
            },
            _ => {},
        }
    }
}

/// Two lists of labels of a program, the second numbered from where the first's
/// numbers end and naming other functions: together they are labels of a program.
pub proof fn lemma_program_join(
    a: Seq<Seq<char>>,
    b: Seq<Seq<char>>,
    lo: int,
    mid: int,
    hi: int,
    na: Set<Seq<char>>,
    nb: Set<Seq<char>>,
)
    requires
        labels_of_program(a, lo, mid, na),
        labels_of_program(b, mid, hi, nb),
        na.disjoint(nb),
        lo <= mid <= hi,
    ensures
        labels_of_program(a + b, lo, hi, na + nb),
{
    let all = a + b;
    assert forall|i: int, j: int| 0 <= i < all.len() && 0 <= j < all.len() && i != j implies all[i] != all[j] by {
        if i < a.len() && j < a.len() {
            assert(all[i] == a[i] && all[j] == a[j]);
        } else if i >= a.len() && j >= a.len() {
            assert(all[i] == b[i - a.len()] && all[j] == b[j - a.len()]);
        } else {
            let (p, q) = if i < a.len() { (i, j) } else { (j, i) };
            let x = a[p];
            let y = b[q - a.len()];
            assert(all[p] == x && all[q] == y);
            if generated_in(x, lo, mid) {
                if generated_in(y, mid, hi) {
                    lemma_generated_apart(x, y, lo, mid, mid, hi);
                } else {
                    let n = choose|n: Seq<char>| fun_label(n) == y && !nb.complement().contains(n);
                    lemma_fun_not_generated(n, x, lo, mid);
                }
            } else {
                let n1 = choose|n: Seq<char>| fun_label(n) == x && !na.complement().contains(n);
                if generated_in(y, mid, hi) {
                    lemma_fun_not_generated(n1, y, mid, hi);
                } else {
                    let n2 = choose|n: Seq<char>| fun_label(n) == y && !nb.complement().contains(n);
                    if x == y {
                        lemma_fun_label_injective(n1, n2);
                        assert(na.contains(n1) && nb.contains(n1));
                    }
                }
            }
        }
    }
    assert forall|j: int| 0 <= j < all.len() implies generated_in(#[trigger] all[j], lo, hi)
        || exists|n: Seq<char>| fun_label(n) == all[j] && !(na + nb).complement().contains(n) by {
        if j < a.len() {
            assert(all[j] == a[j]);
            if generated_in(a[j], lo, mid) {
                let (bb, k) = choose|bb: Seq<char>, k: u64| #[trigger] numbered(bb, k) == a[j] && is_generated_base(bb) && lo <= k < mid;
                assert(generated_in(numbered(bb, k), lo, hi));
            } else {
                let n = choose|n: Seq<char>| fun_label(n) == a[j] && !na.complement().contains(n);
                assert(!(na + nb).complement().contains(n));
            }
        } else {
            assert(all[j] == b[j - a.len()]);
            let y = b[j - a.len()];
            if generated_in(y, mid, hi) {
                let (bb, k) = choose|bb: Seq<char>, k: u64| #[trigger] numbered(bb, k) == y && is_generated_base(bb) && mid <= k < hi;
                assert(generated_in(numbered(bb, k), lo, hi));
            } else {
                let n = choose|n: Seq<char>| fun_label(n) == y && !nb.complement().contains(n);
                assert(!(na + nb).complement().contains(n));
            }
        }
    }
}

/// Fresh labels are labels of a program that names no function.
proof fn lemma_fresh_program(ls: Seq<Seq<char>>, lo: int, hi: int)
    requires
        fresh_labels(ls, lo, hi),
    ensures
        labels_of_program(ls, lo, hi, Set::empty()),
{
}

/// The code of a top-level expression defines only fresh labels, numbered from the
/// state's label number up to the one it leaves behind.
pub proof fn lemma_aligned_labels(e: Expr, c: CtxV, m: ComV, input: Option<bool>)
    requires
        m.label_index + size(e) <= u64::MAX,
    ensures
        fresh_code(aligned_spec(e, c, m, input), m),
{
    let ma = ComV { depth: aligned(stack_depth(e) + entry_slots(input)) as i32, ..m };
    let ce = CtxV { env: c.env.insert("input"@, VarEnv { offset: 0, is_bool: input, in_heap: false }), ..c };
    lemma_compile_labels(e, ce, ma);
    let (r, m2) = compile_spec(e, ce, ma);
    if r is Ok {
        let s = r->Ok_0;
        let pre = seq![
            InstrV::Sub(MovArgs::ToReg(Reg::Rsp, Arg64::Imm((ma.depth * 8) as i32))),
            InstrV::Mov(MovArgs::ToMem(slot(0), Arg64::OReg(Reg::Rdi))),
        ];
        let post = seq![InstrV::Add(MovArgs::ToReg(Reg::Rsp, Arg64::Imm((m2.depth * 8) as i32)))];
        assert(label_free(pre));
        assert(label_free(post));
        lemma_free_then_defs(pre, s);
        lemma_defs_then_free(pre + s, post);
        assert(aligned_spec(e, c, m, input).0 == Ok::<Seq<InstrV>, ErrV>(pre + s + post));
    }
}

/// Compiling one call after another with one state never defines a label twice.
/// Where the code compiled so far defines labels of a program, numbered below the
/// state's label number and naming the functions in `names`, the code of the next
/// expression compiled from that state adds only new labels: together they are again
/// labels of a program, numbered up to the label number that the state is left with.
/// With [`lemma_next_main_labels`] and [`lemma_next_defns_labels`], and starting from no
/// code ([`lemma_no_code_labels`]), this holds of any sequence of calls sharing a state
/// in which no two lists of definitions define a function of the same name.
pub proof fn lemma_next_expr_labels(sofar: Seq<InstrV>, lo: int, names: Set<Seq<char>>, e: Expr, c: CtxV, m: ComV)
    requires
        labels_of_program(label_defs(sofar), lo, m.label_index as int, names),
        lo <= m.label_index,
        m.label_index + size(e) <= u64::MAX,
    ensures
        compile_spec(e, c, m).0 matches Ok(s) ==> labels_of_program(
            label_defs(sofar + s),
            lo,
            compile_spec(e, c, m).1.label_index as int,
            names,
        ),
{
    lemma_compile_labels(e, c, m);
    lemma_compile_state(e, c, m);
    let (r, m1) = compile_spec(e, c, m);
    if r is Ok {
        lemma_label_defs_append(sofar, r->Ok_0);
        lemma_fresh_program(label_defs(r->Ok_0), m.label_index as int, m1.label_index as int);
        lemma_program_join(label_defs(sofar), label_defs(r->Ok_0), lo, m.label_index as int, m1.label_index as int, names, Set::empty());
        assert(names + Set::<Seq<char>>::empty() =~= names);
    }
}

/// [`lemma_next_expr_labels`] for a top-level expression compiled next.
pub proof fn lemma_next_main_labels(
    sofar: Seq<InstrV>,
    lo: int,
    names: Set<Seq<char>>,
    e: Expr,
    c: CtxV,
    m: ComV,
    input: Option<bool>,
)
    requires
        labels_of_program(label_defs(sofar), lo, m.label_index as int, names),
        lo <= m.label_index,
        m.label_index + size(e) <= u64::MAX,
    ensures
        aligned_spec(e, c, m, input).0 matches Ok(s) ==> labels_of_program(
            label_defs(sofar + s),
            lo,
            aligned_spec(e, c, m, input).1.label_index as int,
            names,
        ),
{
    lemma_aligned_labels(e, c, m, input);
    let ma = ComV { depth: aligned(stack_depth(e) + entry_slots(input)) as i32, ..m };
    let ce = CtxV { env: c.env.insert("input"@, VarEnv { offset: 0, is_bool: input, in_heap: false }), ..c };
    lemma_compile_state(e, ce, ma);
    let out = aligned_spec(e, c, m, input);
    if out.0 is Ok {
        lemma_label_defs_append(sofar, out.0->Ok_0);
        lemma_fresh_program(label_defs(out.0->Ok_0), m.label_index as int, out.1.label_index as int);
        lemma_program_join(label_defs(sofar), label_defs(out.0->Ok_0), lo, m.label_index as int, out.1.label_index as int, names, Set::empty());
        assert(names + Set::<Seq<char>>::empty() =~= names);
    }
}

/// [`lemma_next_expr_labels`] for a list of definitions compiled next, none of which
/// defines a function named in `names`: the labels then name those functions too.
pub proof fn lemma_next_defns_labels(sofar: Seq<InstrV>, lo: int, names: Set<Seq<char>>, fs: Seq<Expr>, m: ComV)
    requires
        labels_of_program(label_defs(sofar), lo, m.label_index as int, names),
        lo <= m.label_index,
        m.label_index + list_size(fs) <= u64::MAX,
        forall|n: Seq<char>| #[trigger] names.contains(n) ==> !defines_fun(fs, n),
    ensures
        func_defns_spec(fs, m).0 matches Ok(s) ==> labels_of_program(
            label_defs(sofar + s),
            lo,
            func_defns_spec(fs, m).1.label_index as int,
            names + fun_names(fs),
        ),
{
    let t = defs_table_spec(fs, Map::empty());
    if t is Ok {
        let m0 = ComV { fns: m.fns.union_prefer_right(t->Ok_0), ..m };
        lemma_table_names(fs, Map::empty());
        assert(Map::<Seq<char>, FunEnv>::empty().dom() =~= Set::<Seq<char>>::empty());
        let others = fun_names(fs).complement();
        lemma_names_fresh_beside(fs, Set::empty(), others);
        assert(Set::<Seq<char>>::empty() + others =~= others);
        lemma_defns_labels(fs, m0, others);
        lemma_defns_state(fs, m0);
        let (r, m1) = defns_spec(fs, m0);
        if r is Ok {
            let s = r->Ok_0;
            lemma_label_defs_append(sofar, s);
            assert(names.disjoint(fun_names(fs)));
            lemma_program_join(label_defs(sofar), label_defs(s), lo, m.label_index as int, m1.label_index as int, names, fun_names(fs));
        }
    }
}

/// No code defines labels of a program, whatever its numbers and names.
pub proof fn lemma_no_code_labels(lo: int, names: Set<Seq<char>>)
    ensures
        labels_of_program(label_defs(Seq::<InstrV>::empty()), lo, lo, names),
{
    assert(label_defs(Seq::<InstrV>::empty()) =~= Seq::<Seq<char>>::empty());
}

} // verus!
