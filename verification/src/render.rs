//! Rendering instructions to their textual lines: a label declaration as
//! `<name>:`, an instruction as two spaces, the mnemonic and its operands.

use vstd::prelude::*;
use vstd::string::StringExecFns;
use crate::codegen::{Instr, JTarget, LabelId, Reg};

verus! {

pub open spec fn spec_reg(r: Reg) -> Seq<char> {
    match r {
        Reg::Sp => "sp"@,
        Reg::Fp => "fp"@,
        Reg::Ra => "ra"@,
        Reg::A0 => "a0"@,
        Reg::A1 => "a1"@,
        Reg::T0 => "t0"@,
        Reg::T1 => "t1"@,
        Reg::Zero => "zero"@,
        Reg::R0 => "r0"@,
        Reg::Flag => "flag"@,
    }
}

pub fn reg_name(r: &Reg) -> (s: &'static str)
    ensures
        s@ == spec_reg(*r),
{
    match r {
        Reg::Sp => "sp",
        Reg::Fp => "fp",
        Reg::Ra => "ra",
        Reg::A0 => "a0",
        Reg::A1 => "a1",
        Reg::T0 => "t0",
        Reg::T1 => "t1",
        Reg::Zero => "zero",
        Reg::R0 => "r0",
        Reg::Flag => "flag",
    }
}

pub open spec fn spec_dec_digit(d: int) -> char {
    if d == 0 {
        '0'
    } else if d == 1 {
        '1'
    } else if d == 2 {
        '2'
    } else if d == 3 {
        '3'
    } else if d == 4 {
        '4'
    } else if d == 5 {
        '5'
    } else if d == 6 {
        '6'
    } else if d == 7 {
        '7'
    } else if d == 8 {
        '8'
    } else {
        '9'
    }
}

/// The decimal numeral of a nonnegative number, most significant digit
/// first.
pub open spec fn spec_dec_nat(n: int) -> Seq<char>
    decreases n,
{
    if n < 10 {
        seq![spec_dec_digit(n)]
    } else {
        spec_dec_nat(n / 10).push(spec_dec_digit(n % 10))
    }
}

/// The decimal numeral of a number, `-` first when it is negative.
pub open spec fn spec_dec(n: int) -> Seq<char> {
    if n < 0 {
        seq!['-'] + spec_dec_nat(-n)
    } else {
        spec_dec_nat(n)
    }
}

fn push_digit(s: &mut String, d: u64)
    requires
        d < 10,
    ensures
        final(s)@ == old(s)@ + seq![spec_dec_digit(d as int)],
{
    proof {
        reveal_strlit("0");
        reveal_strlit("1");
        reveal_strlit("2");
        reveal_strlit("3");
        reveal_strlit("4");
        reveal_strlit("5");
        reveal_strlit("6");
        reveal_strlit("7");
        reveal_strlit("8");
        reveal_strlit("9");
    }
    let p: &str = if d == 0 {
        "0"
    } else if d == 1 {
        "1"
    } else if d == 2 {
        "2"
    } else if d == 3 {
        "3"
    } else if d == 4 {
        "4"
    } else if d == 5 {
        "5"
    } else if d == 6 {
        "6"
    } else if d == 7 {
        "7"
    } else if d == 8 {
        "8"
    } else {
        "9"
    };
    proof {
        assert(p@ =~= seq![spec_dec_digit(d as int)]);
    }
    s.append(p);
}

fn push_dec_u64(s: &mut String, m: u64)
    ensures
        final(s)@ == old(s)@ + spec_dec_nat(m as int),
    decreases m,
{
    if m < 10 {
        push_digit(s, m);
    } else {
        push_dec_u64(s, m / 10);
        push_digit(s, m % 10);
        proof {
            assert(final(s)@ =~= old(s)@ + spec_dec_nat(m as int));
        }
    }
}

/// Append the decimal numeral of `n`.
fn push_dec(s: &mut String, n: i64)
    ensures
        final(s)@ == old(s)@ + spec_dec(n as int),
{
    if n < 0 {
        proof {
            reveal_strlit("-");
        }
        s.append("-");
        let m: u64 = if n == i64::MIN {
            9223372036854775808u64
        } else {
            (-n) as u64
        };
        let ghost mid = s@;
        push_dec_u64(s, m);
        proof {
            assert("-"@ =~= seq!['-']);
            assert(s@ =~= old(s)@ + spec_dec(n as int));
        }
    } else {
        push_dec_u64(s, n as u64);
    }
}

pub open spec fn spec_label(l: LabelId) -> Seq<char> {
    match l {
        LabelId::Else(n) => "else"@ + spec_dec(n as int),
        LabelId::End(n) => "end"@ + spec_dec(n as int),
    }
}

fn push_label(s: &mut String, l: &LabelId)
    ensures
        final(s)@ == old(s)@ + spec_label(*l),
{
    match l {
        LabelId::Else(n) => {
            s.append("else");
            push_dec(s, *n);
            proof {
                assert(s@ =~= old(s)@ + spec_label(*l));
            }
        },
        LabelId::End(n) => {
            s.append("end");
            push_dec(s, *n);
            proof {
                assert(s@ =~= old(s)@ + spec_label(*l));
            }
        },
    }
}

pub open spec fn spec_target(t: JTarget) -> Seq<char> {
    match t {
        JTarget::Rel(k) => spec_dec(k as int),
        JTarget::Lab(l) => spec_label(l),
    }
}

/// The text of one output line, exactly as it is written out.
pub open spec fn spec_render(i: Instr) -> Seq<char> {
    match i {
        Instr::Label(l) => spec_label(l) + ":"@,
        Instr::Addi(rd, rs, imm) => "  addi "@ + spec_reg(rd) + ", "@ + spec_reg(rs) + ", "@
            + spec_dec(imm as int),
        Instr::Add(a, b) => "  add "@ + spec_reg(a) + ", "@ + spec_reg(b),
        Instr::Sub(a, b) => "  sub "@ + spec_reg(a) + ", "@ + spec_reg(b),
        Instr::Mov(a, b) => "  mov "@ + spec_reg(a) + ", "@ + spec_reg(b),
        Instr::Slt(a, b) => "  slt "@ + spec_reg(a) + ", "@ + spec_reg(b),
        Instr::Lw(rd, rs, off) => "  lw "@ + spec_reg(rd) + ", "@ + spec_reg(rs) + ", "@ + spec_dec(
            off as int,
        ),
        Instr::Sw(rd, rs, off) => "  sw "@ + spec_reg(rd) + ", "@ + spec_reg(rs) + ", "@ + spec_dec(
            off as int,
        ),
        Instr::Beq(a, b, off) => "  beq "@ + spec_reg(a) + ", "@ + spec_reg(b) + ", "@ + spec_dec(
            off as int,
        ),
        Instr::Bnq(a, b, off) => "  bnq "@ + spec_reg(a) + ", "@ + spec_reg(b) + ", "@ + spec_dec(
            off as int,
        ),
        Instr::Blt(a, b, off) => "  blt "@ + spec_reg(a) + ", "@ + spec_reg(b) + ", "@ + spec_dec(
            off as int,
        ),
        Instr::Jal(r, t) => "  jal "@ + spec_reg(r) + ", "@ + spec_target(t),
        Instr::Jalr(rd, rs, imm) => "  jalr "@ + spec_reg(rd) + ", "@ + spec_reg(rs) + ", "@
            + spec_dec(imm as int),
    }
}

/// Render one instruction or label to its line of text.
pub fn render_instr(i: &Instr) -> (r: String)
    ensures
        r@ == spec_render(*i),
{
    let mut s = String::new();
    match i {
        Instr::Label(l) => {
            push_label(&mut s, l);
            s.append(":");
        },
        Instr::Addi(rd, rs, imm) => {
            s.append("  addi ");
            s.append(reg_name(rd));
            s.append(", ");
            s.append(reg_name(rs));
            s.append(", ");
            push_dec(&mut s, *imm);
        },
        Instr::Add(a, b) => {
            s.append("  add ");
            s.append(reg_name(a));
            s.append(", ");
            s.append(reg_name(b));
        },
        Instr::Sub(a, b) => {
            s.append("  sub ");
            s.append(reg_name(a));
            s.append(", ");
            s.append(reg_name(b));
        },
        Instr::Mov(a, b) => {
            s.append("  mov ");
            s.append(reg_name(a));
            s.append(", ");
            s.append(reg_name(b));
        },
        Instr::Slt(a, b) => {
            s.append("  slt ");
            s.append(reg_name(a));
            s.append(", ");
            s.append(reg_name(b));
        },
        Instr::Lw(rd, rs, off) => {
            s.append("  lw ");
            s.append(reg_name(rd));
            s.append(", ");
            s.append(reg_name(rs));
            s.append(", ");
            push_dec(&mut s, *off);
        },
        Instr::Sw(rd, rs, off) => {
            s.append("  sw ");
            s.append(reg_name(rd));
            s.append(", ");
            s.append(reg_name(rs));
            s.append(", ");
            push_dec(&mut s, *off);
        },
        Instr::Beq(a, b, off) => {
            s.append("  beq ");
            s.append(reg_name(a));
            s.append(", ");
            s.append(reg_name(b));
            s.append(", ");
            push_dec(&mut s, *off);
        },
        Instr::Bnq(a, b, off) => {
            s.append("  bnq ");
            s.append(reg_name(a));
            s.append(", ");
            s.append(reg_name(b));
            s.append(", ");
            push_dec(&mut s, *off);
        },
        Instr::Blt(a, b, off) => {
            s.append("  blt ");
            s.append(reg_name(a));
            s.append(", ");
            s.append(reg_name(b));
            s.append(", ");
            push_dec(&mut s, *off);
        },
        Instr::Jal(r, t) => {
            s.append("  jal ");
            s.append(reg_name(r));
            s.append(", ");
            match t {
                JTarget::Rel(k) => {
                    push_dec(&mut s, *k);
                },
                JTarget::Lab(l) => {
                    push_label(&mut s, l);
                },
            }
        },
        Instr::Jalr(rd, rs, imm) => {
            s.append("  jalr ");
            s.append(reg_name(rd));
            s.append(", ");
            s.append(reg_name(rs));
            s.append(", ");
            push_dec(&mut s, *imm);
        },
    }
    proof {
        assert(s@ =~= spec_render(*i));
    }
    s
}

} // verus!
