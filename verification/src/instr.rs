//! The x86-64 instruction forms that the compiler emits.
use vstd::prelude::*;

verus! {

/// Machine registers.
#[derive(Clone, Copy, Debug, PartialEq, Eq, Hash, Structural)]
pub enum Reg {
    Rax,
    Rbx,
    Rdi,
    Rsp,
}

/// A memory operand `[reg + 8 * offset]`; offsets count 8-byte slots.
#[derive(Clone, Copy, Debug, PartialEq, Eq, Hash, Structural)]
pub struct MemRef {
    pub reg: Reg,
    pub offset: i32,
}

/// A source operand.
#[derive(Clone, Copy, Debug, PartialEq, Eq, Hash, Structural)]
pub enum Arg64 {
    Imm(i32),
    Imm64(i64),
    OReg(Reg),
    Mem(MemRef),
}

/// The two operands of a two-operand instruction.
#[derive(Clone, Copy, Debug, PartialEq, Eq, Hash, Structural)]
pub enum MovArgs {
    ToReg(Reg, Arg64),
    ToMem(MemRef, Arg64),
}

/// Conditional moves.
#[derive(Clone, Copy, Debug, PartialEq, Eq, Hash, Structural)]
pub enum CMov {
    E(Reg, Arg64),
    Z(Reg, Arg64),
    G(Reg, Arg64),
    GE(Reg, Arg64),
    L(Reg, Arg64),
    LE(Reg, Arg64),
}

/// A code label, known by its name.
#[derive(Debug, PartialEq, Eq, Hash)]
pub struct Label {
    pub name: String,
}

impl View for Label {
    type V = Seq<char>;

    open spec fn view(&self) -> Seq<char> {
        self.name@
    }
}

impl Clone for Label {
    fn clone(&self) -> (r: Self)
        ensures
            r == *self,
    {
        Label { name: self.name.clone() }
    }
}

impl Label {
    /// A label with the given name, or the empty name.
    pub fn new(name: Option<&str>) -> (r: Label)
        ensures
            r@ == (match name {
                Some(s) => s@,
                None => Seq::<char>::empty(),
            }),
    {
        match name {
            Some(s) => Label { name: s.to_owned() },
            None => Label { name: String::new() },
        }
    }
}

/// Jumps, each to a label.
#[derive(Clone, Debug, PartialEq, Eq, Hash)]
pub enum Jump {
    U(Label),
    E(Label),
    Nz(Label),
    O(Label),
}

/// The abstract form of a jump: its condition code and the name of its target.
pub enum JumpV {
    U(Seq<char>),
    E(Seq<char>),
    Nz(Seq<char>),
    O(Seq<char>),
}

impl View for Jump {
    type V = JumpV;

    open spec fn view(&self) -> JumpV {
        match self {
            Jump::U(l) => JumpV::U(l@),
            Jump::E(l) => JumpV::E(l@),
            Jump::Nz(l) => JumpV::Nz(l@),
            Jump::O(l) => JumpV::O(l@),
        }
    }
}

/// An instruction.
#[derive(Clone, Debug, PartialEq, Eq, Hash)]
pub enum Instr {
    Mov(MovArgs),
    Add(MovArgs),
    Sub(MovArgs),
    Mul(Reg, Arg64),
    Sar(Reg, i32),
    And(MovArgs),
    Cmp(MovArgs),
    Test(MovArgs),
    Push(Reg),
    Pop(Reg),
    CMovI(CMov),
    JumpI(Jump),
    LabelI(Label),
    Call(Label),
    Ret,
}

/// The abstract form of an instruction, with labels taken by their names.
pub enum InstrV {
    Mov(MovArgs),
    Add(MovArgs),
    Sub(MovArgs),
    Mul(Reg, Arg64),
    Sar(Reg, i32),
    And(MovArgs),
    Cmp(MovArgs),
    Test(MovArgs),
    Push(Reg),
    Pop(Reg),
    CMovI(CMov),
    JumpI(JumpV),
    LabelI(Seq<char>),
    Call(Seq<char>),
    Ret,
}

impl View for Instr {
    type V = InstrV;

    open spec fn view(&self) -> InstrV {
        match self {
            Instr::Mov(a) => InstrV::Mov(*a),
            Instr::Add(a) => InstrV::Add(*a),
            Instr::Sub(a) => InstrV::Sub(*a),
            Instr::Mul(r, a) => InstrV::Mul(*r, *a),
            Instr::Sar(r, n) => InstrV::Sar(*r, *n),
            Instr::And(a) => InstrV::And(*a),
            Instr::Cmp(a) => InstrV::Cmp(*a),
            Instr::Test(a) => InstrV::Test(*a),
            Instr::Push(r) => InstrV::Push(*r),
            Instr::Pop(r) => InstrV::Pop(*r),
            Instr::CMovI(c) => InstrV::CMovI(*c),
            Instr::JumpI(j) => InstrV::JumpI(j@),
            Instr::LabelI(l) => InstrV::LabelI(l@),
            Instr::Call(l) => InstrV::Call(l@),
            Instr::Ret => InstrV::Ret,
        }
    }
}

/// The abstract form of a sequence of instructions.
pub open spec fn code_view(v: Seq<Instr>) -> Seq<InstrV> {
    Seq::new(v.len(), |i: int| v[i]@)
}

/// Appends one instruction to a piece of code.
pub fn push_code(code: &mut Vec<Instr>, i: Instr)
    ensures
        code_view(final(code)@) == code_view(old(code)@).push(i@),
{
    code.push(i);
    assert(code_view(code@) =~= code_view(old(code)@).push(i@));
}

/// Appends a piece of code to another.
pub fn append_code(code: &mut Vec<Instr>, more: Vec<Instr>)
    ensures
        code_view(final(code)@) == code_view(old(code)@) + code_view(more@),
{
    let mut more = more;
    let ghost m = more@;
    code.append(&mut more);
    assert(code_view(code@) =~= code_view(old(code)@) + code_view(m));
}

} // verus!
