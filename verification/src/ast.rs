//! Abstract syntax of snek programs and the measures taken on them.
use vstd::prelude::*;

verus! {

/// Unary operators.
#[derive(Clone, Copy, Debug, PartialEq, Eq, Structural)]
pub enum Op1 {
    Add1,
    Sub1,
    IsNum,
    IsBool,
    Print,
}

/// Binary operators.
#[derive(Clone, Copy, Debug, PartialEq, Eq, Structural)]
pub enum Op2 {
    Plus,
    Minus,
    Times,
    Equal,
    Greater,
    GreaterEqual,
    Less,
    LessEqual,
}

/// A snek expression.
#[derive(Debug)]
pub enum Expr {
    Num(i64),
    Var(String),
    Boolean(bool),
    UnOp(Op1, Box<Expr>),
    BinOp(Op2, Box<Expr>, Box<Expr>),
    Let(Vec<(String, Expr)>, Box<Expr>),
    If(Box<Expr>, Box<Expr>, Box<Expr>),
    Loop(Box<Expr>),
    Block(Vec<Expr>),
    Break(Box<Expr>),
    Assign(String, Box<Expr>),
    Define(String, Box<Expr>),
    FnDefn(String, Vec<String>, Box<Expr>),
    FnCall(String, Vec<Expr>),
}

/// The number of nodes of an expression, counting each list entry as well.
pub open spec fn size(e: Expr) -> nat
    decreases e,
{
    match e {
        Expr::Num(_) => 1,
        Expr::Var(_) => 1,
        Expr::Boolean(_) => 1,
        Expr::UnOp(_, a) => 1 + size(*a),
        Expr::BinOp(_, a, b) => 1 + size(*a) + size(*b),
        Expr::Let(bs, body) => 1 + bindings_size(bs@) + size(*body),
        Expr::If(a, b, c) => 1 + size(*a) + size(*b) + size(*c),
        Expr::Loop(a) => 1 + size(*a),
        Expr::Block(es) => 1 + list_size(es@),
        Expr::Break(a) => 1 + size(*a),
        Expr::Assign(_, a) => 1 + size(*a),
        Expr::Define(_, a) => 1 + size(*a),
        Expr::FnDefn(_, vs, body) => 2 + vs@.len() + size(*body),
        Expr::FnCall(_, args) => 1 + list_size(args@),
    }
}

/// The sizes of the expressions of a list, each counted one more.
pub open spec fn list_size(es: Seq<Expr>) -> nat
    decreases es,
{
    if es.len() == 0 {
        0
    } else {
        1 + size(es[0]) + list_size(es.drop_first())
    }
}

/// The sizes of the bound expressions of a `let`, each counted one more.
pub open spec fn bindings_size(bs: Seq<(String, Expr)>) -> nat
    decreases bs,
{
    if bs.len() == 0 {
        0
    } else {
        1 + size(bs[0].1) + bindings_size(bs.drop_first())
    }
}

} // verus!

verus! {

/// The larger of two integers.
pub open spec fn max(a: int, b: int) -> int {
    if a >= b {
        a
    } else {
        b
    }
}

/// The next odd number from `d` on: a frame of that many 8-byte slots, with the return
/// address above it, keeps the stack 16-byte aligned.
pub open spec fn aligned(d: int) -> int {
    if d % 2 != 0 {
        d
    } else {
        d + 1
    }
}

/// The number of stack slots that evaluating an expression takes, from its first free
/// slot on.  Operands are evaluated from right to left, so a binary operation holds its
/// right operand in a slot while the left one is evaluated; a call needs one slot per
/// argument; a function definition needs an aligned frame for its body and parameters.
pub open spec fn stack_depth(e: Expr) -> int
    decreases e,
{
    match e {
        Expr::Num(_) => 0,
        Expr::Var(_) => 0,
        Expr::Boolean(_) => 0,
        Expr::UnOp(_, a) => stack_depth(*a),
        Expr::BinOp(_, a, b) => max(stack_depth(*b), stack_depth(*a) + 1),
        Expr::Let(bs, body) => max(bindings_depth(bs@, 0), bs@.len() + stack_depth(*body)),
        Expr::If(a, b, c) => max(max(stack_depth(*a), stack_depth(*b)), stack_depth(*c)),
        Expr::Loop(a) => stack_depth(*a),
        Expr::Block(es) => list_depth(es@),
        Expr::Break(a) => stack_depth(*a),
        Expr::Assign(_, a) => stack_depth(*a),
        Expr::Define(_, a) => stack_depth(*a),
        Expr::FnDefn(_, vs, body) => aligned(stack_depth(*body) + vs@.len()),
        Expr::FnCall(_, args) => args@.len() as int,
    }
}

/// The most slots that a binding of a `let` takes, counting the slots of the bindings
/// before it, when the first one given is the `k`-th; 0 when there are none.
pub open spec fn bindings_depth(bs: Seq<(String, Expr)>, k: int) -> int
    decreases bs,
{
    if bs.len() == 0 {
        0
    } else {
        max(k + stack_depth(bs[0].1), bindings_depth(bs.drop_first(), k + 1))
    }
}

/// The most slots that an expression of a list takes; 0 when there are none.
pub open spec fn list_depth(es: Seq<Expr>) -> int
    decreases es,
{
    if es.len() == 0 {
        0
    } else {
        max(stack_depth(es[0]), list_depth(es.drop_first()))
    }
}

/// A list's size counts at least one per entry.
pub proof fn lemma_list_size_len(es: Seq<Expr>)
    ensures
        list_size(es) >= es.len(),
    decreases es.len(),
{
    if es.len() > 0 {
        lemma_list_size_len(es.drop_first());
    }
}

/// A `let`'s bindings count at least one per binding.
pub proof fn lemma_bindings_size_len(bs: Seq<(String, Expr)>)
    ensures
        bindings_size(bs) >= bs.len(),
    decreases bs.len(),
{
    if bs.len() > 0 {
        lemma_bindings_size_len(bs.drop_first());
    }
}

/// An expression's stack depth is at least 0 and at most its size.
pub proof fn lemma_depth_bounds(e: Expr)
    ensures
        0 <= stack_depth(e) <= size(e),
    decreases e,
{
    match e {
        Expr::UnOp(_, a) => lemma_depth_bounds(*a),
        Expr::BinOp(_, a, b) => {
            lemma_depth_bounds(*a);
            lemma_depth_bounds(*b);
        },
        Expr::Let(bs, body) => {
            lemma_bindings_depth_bounds(bs@, 0);
            lemma_bindings_size_len(bs@);
            lemma_depth_bounds(*body);
        },
        Expr::If(a, b, c) => {
            lemma_depth_bounds(*a);
            lemma_depth_bounds(*b);
            lemma_depth_bounds(*c);
        },
        Expr::Loop(a) => lemma_depth_bounds(*a),
        Expr::Block(es) => lemma_list_depth_bounds(es@),
        Expr::Break(a) => lemma_depth_bounds(*a),
        Expr::Assign(_, a) => lemma_depth_bounds(*a),
        Expr::Define(_, a) => lemma_depth_bounds(*a),
        Expr::FnDefn(_, vs, body) => lemma_depth_bounds(*body),
        Expr::FnCall(_, args) => lemma_list_size_len(args@),
        _ => {},
    }
}

/// [`lemma_depth_bounds`] for the bindings of a `let`.
pub proof fn lemma_bindings_depth_bounds(bs: Seq<(String, Expr)>, k: int)
    requires
        k >= 0,
    ensures
        0 <= bindings_depth(bs, k) <= k + bindings_size(bs),
    decreases bs,
{
    if bs.len() > 0 {
        lemma_depth_bounds(bs[0].1);
        lemma_bindings_depth_bounds(bs.drop_first(), k + 1);
    }
}

/// [`lemma_depth_bounds`] for a list.
pub proof fn lemma_list_depth_bounds(es: Seq<Expr>)
    ensures
        0 <= list_depth(es) <= list_size(es),
    decreases es,
{
    if es.len() > 0 {
        lemma_depth_bounds(es[0]);
        lemma_list_depth_bounds(es.drop_first());
    }
}

/// A binding of a `let`, counted from the `k`-th on, needs its own slots above those
/// of the bindings before it: the `i`-th given needs `k + i` slots plus its depth.
pub proof fn lemma_bindings_depth_at(bs: Seq<(String, Expr)>, k: int, i: int)
    requires
        0 <= i < bs.len(),
    ensures
        bindings_depth(bs, k) >= k + i + stack_depth(bs[i].1),
    decreases bs.len(),
{
    if i > 0 {
        lemma_bindings_depth_at(bs.drop_first(), k + 1, i - 1);
        assert(bs.drop_first()[i - 1] == bs[i]);
    }
}

/// A list needs at least what each of its expressions does.
pub proof fn lemma_list_depth_at(es: Seq<Expr>, i: int)
    requires
        0 <= i < es.len(),
    ensures
        list_depth(es) >= stack_depth(es[i]),
    decreases es.len(),
{
    if i > 0 {
        lemma_list_depth_at(es.drop_first(), i - 1);
        assert(es.drop_first()[i - 1] == es[i]);
    }
}

/// The depth of an expression covers what its parts need: it is at least the depth
/// of each direct subexpression, other than a call's arguments, of which only the
/// number counts; a binary operation holds its right operand in a slot while the left
/// one is evaluated; a `let` holds its bindings' slots, each above those before it,
/// while the body or a later binding is evaluated; and a definition's frame holds its
/// parameters as well as what its body needs.
pub proof fn lemma_depth_covers(e: Expr)
    ensures
        stack_depth(e) >= 0,
        match e {
            Expr::UnOp(_, a) => stack_depth(e) == stack_depth(*a),
            Expr::BinOp(_, a, b) => stack_depth(e) >= stack_depth(*a) + 1 && stack_depth(e) >= stack_depth(*b),
            Expr::Let(bs, body) => {
                &&& stack_depth(e) >= bs@.len() + stack_depth(*body)
                &&& forall|i: int| 0 <= i < bs@.len() ==> stack_depth(e) >= i + #[trigger] stack_depth(bs@[i].1)
            },
            Expr::If(a, b, c) => {
                &&& stack_depth(e) >= stack_depth(*a)
                &&& stack_depth(e) >= stack_depth(*b)
                &&& stack_depth(e) >= stack_depth(*c)
            },
            Expr::Loop(a) => stack_depth(e) == stack_depth(*a),
            Expr::Block(es) => forall|i: int| 0 <= i < es@.len() ==> stack_depth(e) >= #[trigger] stack_depth(es@[i]),
            Expr::Break(a) => stack_depth(e) == stack_depth(*a),
            Expr::Assign(_, a) => stack_depth(e) == stack_depth(*a),
            Expr::Define(_, a) => stack_depth(e) == stack_depth(*a),
            Expr::FnDefn(_, vs, body) => stack_depth(e) >= vs@.len() + stack_depth(*body),
            Expr::FnCall(_, args) => stack_depth(e) == args@.len(),
            _ => stack_depth(e) == 0,
        },
{
    lemma_depth_bounds(e);
    match e {
        Expr::Let(bs, body) => {
            assert forall|i: int| 0 <= i < bs@.len() implies stack_depth(e) >= i + #[trigger] stack_depth(bs@[i].1) by {
                lemma_bindings_depth_at(bs@, 0, i);
            }
        },
        Expr::Block(es) => {
            assert forall|i: int| 0 <= i < es@.len() implies stack_depth(e) >= #[trigger] stack_depth(es@[i]) by {
                lemma_list_depth_at(es@, i);
            }
        },
        Expr::FnDefn(_, vs, body) => {
            lemma_depth_bounds(*body);
        },
        _ => {},
    }
}

/// Whether `x` and `y` are built alike, with the same operators and as many bindings,
/// parameters, block items and arguments, and each direct subexpression of `x` needs
/// no more slots than the one in its place in `y`.  A call's arguments are not
/// compared: only their number counts.
pub open spec fn children_depth_le(x: Expr, y: Expr) -> bool {
    match x {
        Expr::Num(_) => y is Num,
        Expr::Var(_) => y is Var,
        Expr::Boolean(_) => y is Boolean,
        Expr::UnOp(_, a) => y matches Expr::UnOp(_, b) && stack_depth(*a) <= stack_depth(*b),
        Expr::BinOp(_, a1, b1) => y matches Expr::BinOp(_, a2, b2) && stack_depth(*a1) <= stack_depth(*a2)
            && stack_depth(*b1) <= stack_depth(*b2),
        Expr::Let(bs1, body1) => y matches Expr::Let(bs2, body2) && bs1@.len() == bs2@.len() && stack_depth(*body1)
            <= stack_depth(*body2) && forall|i: int|
            0 <= i < bs1@.len() ==> #[trigger] stack_depth(bs1@[i].1) <= stack_depth(bs2@[i].1),
        Expr::If(a1, b1, c1) => y matches Expr::If(a2, b2, c2) && stack_depth(*a1) <= stack_depth(*a2) && stack_depth(*b1)
            <= stack_depth(*b2) && stack_depth(*c1) <= stack_depth(*c2),
        Expr::Loop(a) => y matches Expr::Loop(b) && stack_depth(*a) <= stack_depth(*b),
        Expr::Block(es1) => y matches Expr::Block(es2) && es1@.len() == es2@.len() && forall|i: int|
            0 <= i < es1@.len() ==> #[trigger] stack_depth(es1@[i]) <= stack_depth(es2@[i]),
        Expr::Break(a) => y matches Expr::Break(b) && stack_depth(*a) <= stack_depth(*b),
        Expr::Assign(_, a) => y matches Expr::Assign(_, b) && stack_depth(*a) <= stack_depth(*b),
        Expr::Define(_, a) => y matches Expr::Define(_, b) && stack_depth(*a) <= stack_depth(*b),
        Expr::FnDefn(_, vs1, body1) => y matches Expr::FnDefn(_, vs2, body2) && vs1@.len() == vs2@.len() && stack_depth(
            *body1,
        ) <= stack_depth(*body2),
        Expr::FnCall(_, args1) => y matches Expr::FnCall(_, args2) && args1@.len() == args2@.len(),
    }
}

/// Rounding up to an odd number keeps order.
pub proof fn lemma_aligned_monotone(a: int, b: int)
    requires
        a <= b,
    ensures
        aligned(a) <= aligned(b),
{
}

/// [`lemma_depth_monotone`] for the bindings of a `let`.
proof fn lemma_bindings_depth_monotone(bs1: Seq<(String, Expr)>, bs2: Seq<(String, Expr)>, k: int)
    requires
        bs1.len() == bs2.len(),
        forall|i: int| 0 <= i < bs1.len() ==> #[trigger] stack_depth(bs1[i].1) <= stack_depth(bs2[i].1),
    ensures
        bindings_depth(bs1, k) <= bindings_depth(bs2, k),
    decreases bs1.len(),
{
    if bs1.len() > 0 {
        assert(stack_depth(bs1[0].1) <= stack_depth(bs2[0].1));
        assert forall|i: int| 0 <= i < bs1.drop_first().len() implies #[trigger] stack_depth(bs1.drop_first()[i].1)
            <= stack_depth(bs2.drop_first()[i].1) by {
            assert(bs1.drop_first()[i] == bs1[i + 1]);
            assert(bs2.drop_first()[i] == bs2[i + 1]);
            assert(stack_depth(bs1[i + 1].1) <= stack_depth(bs2[i + 1].1));
        }
        lemma_bindings_depth_monotone(bs1.drop_first(), bs2.drop_first(), k + 1);
    }
}

/// [`lemma_depth_monotone`] for a list.
proof fn lemma_list_depth_monotone(es1: Seq<Expr>, es2: Seq<Expr>)
    requires
        es1.len() == es2.len(),
        forall|i: int| 0 <= i < es1.len() ==> #[trigger] stack_depth(es1[i]) <= stack_depth(es2[i]),
    ensures
        list_depth(es1) <= list_depth(es2),
    decreases es1.len(),
{
    if es1.len() > 0 {
        assert(stack_depth(es1[0]) <= stack_depth(es2[0]));
        assert forall|i: int| 0 <= i < es1.drop_first().len() implies #[trigger] stack_depth(es1.drop_first()[i])
            <= stack_depth(es2.drop_first()[i]) by {
            assert(es1.drop_first()[i] == es1[i + 1]);
            assert(es2.drop_first()[i] == es2[i + 1]);
            assert(stack_depth(es1[i + 1]) <= stack_depth(es2[i + 1]));
        }
        lemma_list_depth_monotone(es1.drop_first(), es2.drop_first());
    }
}

/// The depth of an expression is monotone in the depths of its direct subexpressions:
/// where two expressions are built alike and each part of the first needs no more
/// slots than the part in its place in the second, the first needs no more slots than
/// the second.  So putting a subexpression that needs fewer slots in place of another
/// never makes an expression need more.
pub proof fn lemma_depth_monotone(x: Expr, y: Expr)
    requires
        children_depth_le(x, y),
    ensures
        stack_depth(x) <= stack_depth(y),
{
    match x {
        Expr::Let(bs1, body1) => {
            match y {
                Expr::Let(bs2, body2) => {
                    lemma_bindings_depth_monotone(bs1@, bs2@, 0);
                },
                _ => {},
            }
        },
        Expr::Block(es1) => {
            match y {
                Expr::Block(es2) => {
                    lemma_list_depth_monotone(es1@, es2@);
                },
                _ => {},
            }
        },
        Expr::FnDefn(_, vs1, body1) => {
            match y {
                Expr::FnDefn(_, vs2, body2) => {
                    lemma_aligned_monotone(stack_depth(*body1) + vs1@.len(), stack_depth(*body2) + vs2@.len());
                },
                _ => {},
            }
        },
        _ => {},
    }
}

} // verus!
