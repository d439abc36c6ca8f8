//! The assembly text of instructions, in NASM's Intel syntax.
use vstd::prelude::*;
use crate::instr::{Arg64, CMov, Instr, InstrV, JumpV, MemRef, MovArgs, Reg, code_view};
use crate::text::{int_text, signed_decimal};

verus! {

/// The name of a register.
pub open spec fn reg_text(r: Reg) -> Seq<char> {
    match r {
        Reg::Rax => "rax"@,
        Reg::Rbx => "rbx"@,
        Reg::Rdi => "rdi"@,
        Reg::Rsp => "rsp"@,
    }
}

/// A memory operand, its offset in bytes.
pub open spec fn mem_text(m: MemRef) -> Seq<char> {
    "["@ + reg_text(m.reg) + " + "@ + signed_decimal(8 * m.offset) + "]"@
}

/// A source operand.
pub open spec fn arg_text(a: Arg64) -> Seq<char> {
    match a {
        Arg64::Imm(n) => signed_decimal(n as int),
        Arg64::Imm64(n) => signed_decimal(n as int),
        Arg64::OReg(r) => reg_text(r),
        Arg64::Mem(m) => "qword "@ + mem_text(m),
    }
}

/// The operands of a two-operand instruction.
pub open spec fn args_text(a: MovArgs) -> Seq<char> {
    match a {
        MovArgs::ToReg(r, src) => reg_text(r) + ", "@ + arg_text(src),
        MovArgs::ToMem(m, src) => "qword "@ + mem_text(m) + ", "@ + arg_text(src),
    }
}

/// A register and a source operand.
pub open spec fn pair_text(r: Reg, a: Arg64) -> Seq<char> {
    reg_text(r) + ", "@ + arg_text(a)
}

/// A conditional move.
pub open spec fn cmov_text(c: CMov) -> Seq<char> {
    match c {
        CMov::E(r, a) => "cmove "@ + pair_text(r, a),
        CMov::Z(r, a) => "cmovz "@ + pair_text(r, a),
        CMov::G(r, a) => "cmovg "@ + pair_text(r, a),
        CMov::GE(r, a) => "cmovge "@ + pair_text(r, a),
        CMov::L(r, a) => "cmovl "@ + pair_text(r, a),
        CMov::LE(r, a) => "cmovle "@ + pair_text(r, a),
    }
}

/// A jump.
pub open spec fn jump_text(j: JumpV) -> Seq<char> {
    match j {
        JumpV::U(l) => "jmp "@ + l,
        JumpV::E(l) => "je "@ + l,
        JumpV::Nz(l) => "jnz "@ + l,
        JumpV::O(l) => "jo "@ + l,
    }
}

/// An instruction.
pub open spec fn instr_text(i: InstrV) -> Seq<char> {
    match i {
        InstrV::Mov(a) => "mov "@ + args_text(a),
        InstrV::Add(a) => "add "@ + args_text(a),
        InstrV::Sub(a) => "sub "@ + args_text(a),
        InstrV::Mul(r, a) => "imul "@ + pair_text(r, a),
        InstrV::Sar(r, n) => "sar "@ + reg_text(r) + ", "@ + signed_decimal(n as int),
        InstrV::And(a) => "and "@ + args_text(a),
        InstrV::Cmp(a) => "cmp "@ + args_text(a),
        InstrV::Test(a) => "test "@ + args_text(a),
        InstrV::Push(r) => "push "@ + reg_text(r),
        InstrV::Pop(r) => "pop "@ + reg_text(r),
        InstrV::CMovI(c) => cmov_text(c),
        InstrV::JumpI(j) => jump_text(j),
        InstrV::LabelI(l) => l + ":"@,
        InstrV::Call(l) => "call "@ + l,
        InstrV::Ret => "ret"@,
    }
}

/// The line of an instruction: labels stand at the start, others are indented.
pub open spec fn line_text(i: InstrV) -> Seq<char> {
    match i {
        InstrV::LabelI(_) => instr_text(i),
        _ => " "@ + instr_text(i),
    }
}

/// The lines of a piece of code, joined by newlines.
pub open spec fn listing(is: Seq<InstrV>) -> Seq<char>
    decreases is.len(),
{
    if is.len() == 0 {
        seq![]
    } else if is.len() == 1 {
        line_text(is[0])
    } else {
        listing(is.drop_last()) + "\n"@ + line_text(is.last())
    }
}

/// The name of a register.
fn reg_name(r: Reg) -> (s: &'static str)
    ensures
        s@ == reg_text(r),
{
    match r {
        Reg::Rax => "rax",
        Reg::Rbx => "rbx",
        Reg::Rdi => "rdi",
        Reg::Rsp => "rsp",
    }
}

fn write_mem(out: &mut String, m: MemRef)
    ensures
        final(out)@ == old(out)@ + mem_text(m),
{
    out.append("[");
    out.append(reg_name(m.reg));
    out.append(" + ");
    let n = int_text(m.offset as i64 * 8);
    out.append(n.as_str());
    out.append("]");
    assert(out@ =~= old(out)@ + mem_text(m));
}

fn write_arg(out: &mut String, a: Arg64)
    ensures
        final(out)@ == old(out)@ + arg_text(a),
{
    match a {
        Arg64::Imm(n) => {
            let t = int_text(n as i64);
            out.append(t.as_str());
        },
        Arg64::Imm64(n) => {
            let t = int_text(n);
            out.append(t.as_str());
        },
        Arg64::OReg(r) => out.append(reg_name(r)),
        Arg64::Mem(m) => {
            out.append("qword ");
            write_mem(out, m);
        },
    }
    assert(out@ =~= old(out)@ + arg_text(a));
}

fn write_args(out: &mut String, a: MovArgs)
    ensures
        final(out)@ == old(out)@ + args_text(a),
{
    match a {
        MovArgs::ToReg(r, src) => {
            out.append(reg_name(r));
            out.append(", ");
            write_arg(out, src);
        },
        MovArgs::ToMem(m, src) => {
            out.append("qword ");
            write_mem(out, m);
            out.append(", ");
            write_arg(out, src);
        },
    }
    assert(out@ =~= old(out)@ + args_text(a));
}

fn write_pair(out: &mut String, r: Reg, a: Arg64)
    ensures
        final(out)@ == old(out)@ + pair_text(r, a),
{
    out.append(reg_name(r));
    out.append(", ");
    write_arg(out, a);
    assert(out@ =~= old(out)@ + pair_text(r, a));
}

/// The mnemonic and the operands of a two-operand instruction.
fn write_op(out: &mut String, mnemonic: &str, a: MovArgs)
    ensures
        final(out)@ == old(out)@ + mnemonic@ + args_text(a),
{
    out.append(mnemonic);
    write_args(out, a);
    assert(out@ =~= old(out)@ + mnemonic@ + args_text(a));
}

impl Instr {
    /// The assembly text of the instruction.
    pub fn text(&self) -> (r: String)
        ensures
            r@ == instr_text(self@),
    {
        let mut out = String::new();
        match self {
            Instr::Mov(a) => write_op(&mut out, "mov ", *a),
            Instr::Add(a) => write_op(&mut out, "add ", *a),
            Instr::Sub(a) => write_op(&mut out, "sub ", *a),
            Instr::Mul(r, a) => {
                out.append("imul ");
                write_pair(&mut out, *r, *a);
            },
            Instr::Sar(r, n) => {
                out.append("sar ");
                out.append(reg_name(*r));
                out.append(", ");
                let t = int_text(*n as i64);
                out.append(t.as_str());
            },
            Instr::And(a) => write_op(&mut out, "and ", *a),
            Instr::Cmp(a) => write_op(&mut out, "cmp ", *a),
            Instr::Test(a) => write_op(&mut out, "test ", *a),
            Instr::Push(r) => {
                out.append("push ");
                out.append(reg_name(*r));
            },
            Instr::Pop(r) => {
                out.append("pop ");
                out.append(reg_name(*r));
            },
            Instr::CMovI(c) => {
                let (m, r, a) = match c {
                    CMov::E(r, a) => ("cmove ", r, a),
                    CMov::Z(r, a) => ("cmovz ", r, a),
                    CMov::G(r, a) => ("cmovg ", r, a),
                    CMov::GE(r, a) => ("cmovge ", r, a),
                    CMov::L(r, a) => ("cmovl ", r, a),
                    CMov::LE(r, a) => ("cmovle ", r, a),
                };
                out.append(m);
                write_pair(&mut out, *r, *a);
            },
            Instr::JumpI(j) => {
                let (m, l) = match j {
                    crate::instr::Jump::U(l) => ("jmp ", l),
                    crate::instr::Jump::E(l) => ("je ", l),
                    crate::instr::Jump::Nz(l) => ("jnz ", l),
                    crate::instr::Jump::O(l) => ("jo ", l),
                };
                out.append(m);
                out.append(l.name.as_str());
            },
            Instr::LabelI(l) => {
                out.append(l.name.as_str());
                out.append(":");
            },
            Instr::Call(l) => {
                out.append("call ");
                out.append(l.name.as_str());
            },
            Instr::Ret => out.append("ret"),
        }
        assert(out@ =~= instr_text(self@));
        out
    }
}

/// The assembly listing of a piece of code: one instruction per line, labels at the
/// start of their line and other instructions indented by one space.
pub fn instrs_to_string(instrs: &Vec<Instr>) -> (r: String)
    ensures
        r@ == listing(code_view(instrs@)),
{
    let mut out = String::new();
    let n = instrs.len();
    let mut i: usize = 0;
    while i < n
        invariant
            0 <= i <= n,
            n == instrs@.len(),
            out@ == listing(code_view(instrs@).take(i as int)),
        decreases n - i,
    {
        let ghost prefix = code_view(instrs@).take(i as int);
        let ghost next = code_view(instrs@).take(i + 1);
        assert(next.drop_last() =~= prefix);
        if i > 0 {
            out.append("\n");
        }
        let is_label = match &instrs[i] {
            Instr::LabelI(_) => true,
            _ => false,
        };
        if !is_label {
            out.append(" ");
        }
        let t = instrs[i].text();
        out.append(t.as_str());
        proof {
            if i == 0 {
                assert(prefix.len() == 0);
            }
        }
        i = i + 1;
    }
    assert(code_view(instrs@).take(n as int) =~= code_view(instrs@));
    out
}

/// [`lemma_listing_concat`] on abstract instructions.
proof fn lemma_listing_join(a: Seq<InstrV>, b: Seq<InstrV>)
    requires
        a.len() > 0,
        b.len() > 0,
    ensures
        listing(a + b) == listing(a) + "\n"@ + listing(b),
    decreases b.len(),
{
    assert((a + b).drop_last() =~= a + b.drop_last());
    assert((a + b).last() == b.last());
    if b.len() == 1 {
        assert(a + b.drop_last() =~= a);
        assert(listing(b) == line_text(b[0]));
    } else {
        lemma_listing_join(a, b.drop_last());
        assert(listing(a) + "\n"@ + listing(b.drop_last()) + "\n"@ + line_text(b.last()) =~= listing(a) + "\n"@ + (
        listing(b.drop_last()) + "\n"@ + line_text(b.last())));
    }
}

/// The listing of two non-empty pieces of code, one after the other, is the listing of
/// the first, a newline, and the listing of the second.
pub proof fn lemma_listing_concat(a: Seq<Instr>, b: Seq<Instr>)
    requires
        a.len() > 0,
        b.len() > 0,
    ensures
        listing(code_view(a + b)) == listing(code_view(a)) + "\n"@ + listing(code_view(b)),
{
    assert(code_view(a + b) =~= code_view(a) + code_view(b));
    lemma_listing_join(code_view(a), code_view(b));
}

} // verus!
