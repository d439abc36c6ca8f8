//! The compiler's contexts: what a sub-expression is compiled in, and the state
//! that compiling threads from one sub-expression to the next.
use vstd::prelude::*;
use im::HashMap;
use crate::instr::{Arg64, Instr, Label, MemRef, MovArgs, Reg, InstrV, code_view, push_code};
use crate::envmap::{var_entries, fun_entries, vars_new, vars_clone, funs_new, funs_clone, vars_intersection};
use crate::text::{numbered, nat_text};

verus! {

/// Where a variable lives and what is known of its type.
#[derive(Clone, Copy, Debug, PartialEq, Eq, Structural)]
pub struct VarEnv {
    /// Its slot, counted in 8-byte words from the stack pointer or the heap's base.
    pub offset: i32,
    /// `Some(true)` when it is known to hold a boolean, `Some(false)` a number.
    pub is_bool: Option<bool>,
    /// Whether it lives in the heap rather than on the stack.
    pub in_heap: bool,
}

impl VarEnv {
    pub fn new(offset: i32, is_bool: Option<bool>, in_heap: bool) -> (r: VarEnv)
        ensures
            r == (VarEnv { offset, is_bool, in_heap }),
    {
        VarEnv { offset, is_bool, in_heap }
    }
}

/// What is known of a defined function: its number of parameters and its frame size.
#[derive(Clone, Copy, Debug, PartialEq, Eq, Structural)]
pub struct FunEnv {
    pub argc: i32,
    pub depth: i32,
}

impl FunEnv {
    pub fn new(argc: i32, depth: i32) -> (r: FunEnv)
        ensures
            r == (FunEnv { argc, depth }),
    {
        FunEnv { argc, depth }
    }
}

/// The context in which one expression is compiled.
pub struct Context {
    /// The first free stack slot.
    pub si: i32,
    /// The variables in scope.
    pub env: HashMap<String, VarEnv>,
    /// Where the value goes: a memory slot, or `rax` when `None`.
    pub target: Option<MemRef>,
    /// Whether the expression is in tail position.
    pub tail: bool,
    /// The label that a `break` jumps to; empty outside a loop.
    pub label: Label,
    /// The address of the heap that holds the top-level definitions.
    pub heap: i64,
}

/// The abstract form of a [`Context`].
#[verifier::ext_equal]
pub struct CtxV {
    pub si: i32,
    pub env: Map<Seq<char>, VarEnv>,
    pub target: Option<MemRef>,
    pub tail: bool,
    pub label: Seq<char>,
    pub heap: i64,
}

impl View for Context {
    type V = CtxV;

    open spec fn view(&self) -> CtxV {
        CtxV {
            si: self.si,
            env: var_entries(self.env),
            target: self.target,
            tail: self.tail,
            label: self.label@,
            heap: self.heap,
        }
    }
}

/// The operand that writes to the target: a memory slot or `rax`.
pub open spec fn target_args(c: CtxV, src: Arg64) -> MovArgs {
    match c.target {
        Some(m) => MovArgs::ToMem(m, src),
        None => MovArgs::ToReg(Reg::Rax, src),
    }
}

/// The code that moves `rax` to the target.
pub open spec fn rax_to_target_code(c: CtxV) -> Seq<InstrV> {
    match c.target {
        Some(m) => seq![InstrV::Mov(MovArgs::ToMem(m, Arg64::OReg(Reg::Rax)))],
        None => seq![],
    }
}

/// The code that moves the target's value into `reg`.
pub open spec fn target_to_reg_code(c: CtxV, reg: Reg) -> Seq<InstrV> {
    match c.target {
        Some(m) => seq![InstrV::Mov(MovArgs::ToReg(reg, Arg64::Mem(m)))],
        None => seq![InstrV::Mov(MovArgs::ToReg(reg, Arg64::OReg(Reg::Rax)))],
    }
}

impl Context {
    /// A context at stack slot 0, with no variables, writing to `rax`, outside any loop.
    pub fn new(heap: Option<i64>) -> (r: Context)
        ensures
            r@ == (CtxV {
                si: 0,
                env: Map::empty(),
                target: None,
                tail: false,
                label: Seq::empty(),
                heap: match heap {
                    Some(h) => h,
                    None => 0,
                },
            }),
    {
        Context {
            si: 0,
            env: vars_new(),
            target: None,
            tail: false,
            label: Label::new(None),
            heap: match heap {
                Some(h) => h,
                None => 0,
            },
        }
    }

    /// A copy of this context with some of its parts replaced.
    pub fn modify(
        &self,
        si: Option<i32>,
        env: Option<HashMap<String, VarEnv>>,
        label: Option<Label>,
        target: Option<Option<MemRef>>,
        tail: Option<bool>,
    ) -> (r: Context)
        ensures
            r@ == (CtxV {
                si: match si {
                    Some(s) => s,
                    None => self@.si,
                },
                env: match env {
                    Some(e) => var_entries(e),
                    None => self@.env,
                },
                target: match target {
                    Some(t) => t,
                    None => self@.target,
                },
                tail: match tail {
                    Some(t) => t,
                    None => self@.tail,
                },
                label: match label {
                    Some(l) => l@,
                    None => self@.label,
                },
                heap: self@.heap,
            }),
    {
        Context {
            si: match si {
                Some(s) => s,
                None => self.si,
            },
            env: match env {
                Some(e) => e,
                None => vars_clone(&self.env),
            },
            target: match target {
                Some(t) => t,
                None => self.target,
            },
            tail: match tail {
                Some(t) => t,
                None => self.tail,
            },
            label: match label {
                Some(l) => l,
                None => self.label.clone(),
            },
            heap: self.heap,
        }
    }

    pub fn modify_si(&self, si: i32) -> (r: Context)
        ensures
            r@ == (CtxV { si, ..self@ }),
    {
        self.modify(Some(si), None, None, None, None)
    }

    pub fn modify_env(&self, env: HashMap<String, VarEnv>) -> (r: Context)
        ensures
            r@ == (CtxV { env: var_entries(env), ..self@ }),
    {
        self.modify(None, Some(env), None, None, None)
    }

    pub fn modify_target(&self, target: Option<MemRef>) -> (r: Context)
        ensures
            r@ == (CtxV { target, ..self@ }),
    {
        self.modify(None, None, None, Some(target), None)
    }

    pub fn modify_tail(&self, tail: bool) -> (r: Context)
        ensures
            r@ == (CtxV { tail, ..self@ }),
    {
        self.modify(None, None, None, None, Some(tail))
    }

    /// The operands that write `src` to the target.
    pub fn src_to_target(&self, src: Arg64) -> (r: MovArgs)
        ensures
            r == target_args(self@, src),
    {
        match self.target {
            Some(m) => MovArgs::ToMem(m, src),
            None => MovArgs::ToReg(Reg::Rax, src),
        }
    }

    /// Appends the code that moves `rax` to the target.
    pub fn rax_to_target(&self, instrs: &mut Vec<Instr>)
        ensures
            code_view(final(instrs)@) == code_view(old(instrs)@) + rax_to_target_code(self@),
    {
        match self.target {
            Some(m) => push_code(instrs, Instr::Mov(MovArgs::ToMem(m, Arg64::OReg(Reg::Rax)))),
            None => {
                assert(code_view(instrs@) =~= code_view(instrs@) + rax_to_target_code(self@));
            },
        }
    }

    /// The code that moves the target's value into `reg`.
    pub fn target_to_reg(&self, reg: Reg) -> (r: Vec<Instr>)
        ensures
            code_view(r@) == target_to_reg_code(self@, reg),
    {
        let mut r: Vec<Instr> = Vec::new();
        match self.target {
            Some(m) => push_code(&mut r, Instr::Mov(MovArgs::ToReg(reg, Arg64::Mem(m)))),
            None => push_code(&mut r, Instr::Mov(MovArgs::ToReg(reg, Arg64::OReg(Reg::Rax)))),
        }
        assert(code_view(r@) =~= target_to_reg_code(self@, reg));
        r
    }

    pub fn get_heap(&self) -> (r: i64)
        ensures
            r == self.heap,
    {
        self.heap
    }
}

/// The state that compiling threads through a program.
pub struct ContextMut {
    /// Variables that outlive a single expression, such as top-level definitions.
    pub env: HashMap<String, VarEnv>,
    /// The functions that are defined.
    pub fns: HashMap<String, FunEnv>,
    /// The frame size of the function being compiled, in 8-byte slots.
    pub depth: i32,
    /// What is known of the type of the last compiled expression.
    pub result_is_bool: Option<bool>,
    /// The number that the next generated labels carry.
    pub label_index: u64,
}

/// The abstract form of a [`ContextMut`].
#[verifier::ext_equal]
pub struct ComV {
    pub env: Map<Seq<char>, VarEnv>,
    pub fns: Map<Seq<char>, FunEnv>,
    pub depth: i32,
    pub result_is_bool: Option<bool>,
    pub label_index: u64,
}

impl View for ContextMut {
    type V = ComV;

    open spec fn view(&self) -> ComV {
        ComV {
            env: var_entries(self.env),
            fns: fun_entries(self.fns),
            depth: self.depth,
            result_is_bool: self.result_is_bool,
            label_index: self.label_index,
        }
    }
}

impl Clone for ContextMut {
    fn clone(&self) -> (r: Self)
        ensures
            r@ == self@,
    {
        ContextMut {
            env: vars_clone(&self.env),
            fns: funs_clone(&self.fns),
            depth: self.depth,
            result_is_bool: self.result_is_bool,
            label_index: self.label_index,
        }
    }
}

impl ContextMut {
    /// A state with no variables, no functions, and label numbering from 0.
    pub fn new() -> (r: ContextMut)
        ensures
            r@ == (ComV {
                env: Map::empty(),
                fns: Map::empty(),
                depth: 0,
                result_is_bool: None,
                label_index: 0,
            }),
    {
        ContextMut { env: vars_new(), fns: funs_new(), depth: 0, result_is_bool: None, label_index: 0 }
    }

    /// The label `name_i`, where `i` is the current label number.
    pub fn label(&self, name: &str) -> (r: Label)
        ensures
            r@ == numbered(name@, self.label_index),
    {
        let mut s = name.to_owned();
        proof {
            reveal_strlit("_");
        }
        s.append("_");
        let n = nat_text(self.label_index);
        s.append(n.as_str());
        Label { name: s }
    }

    /// Moves on to the next label number.
    pub fn index_used(&mut self)
        requires
            old(self).label_index < u64::MAX,
        ensures
            final(self)@ == (ComV { label_index: (old(self).label_index + 1) as u64, ..old(self)@ }),
    {
        self.label_index = self.label_index + 1;
    }

    /// The context `co` inside a loop whose end is `label`.
    pub fn new_ce_label(&self, co: &Context, label: Label) -> (r: Context)
        ensures
            r@ == (CtxV { label: label@, ..co@ }),
    {
        co.modify(None, None, Some(label), None, None)
    }

    /// Takes back the state of a block compiled from a copy of this state: the
    /// updated entries of this state's variables, the result type and the label number.
    pub fn update_from(&mut self, other: &ContextMut)
        ensures
            final(self)@ == (ComV {
                env: other@.env.restrict(old(self)@.env.dom()),
                result_is_bool: other.result_is_bool,
                label_index: other.label_index,
                ..old(self)@
            }),
    {
        self.env = vars_intersection(&other.env, &self.env);
        self.result_is_bool = other.result_is_bool;
        self.label_index = other.label_index;
    }
}

} // verus!
