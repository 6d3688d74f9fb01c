use vstd::prelude::*;

use crate::text::{int_str, nat_str, push_i64, push_str, push_u64};

verus! {

/* A plain form of ARM assembly: numbered registers, and one variant for
each instruction the code uses, written as the GNU assembler reads it. */

pub type RegNum = u8;

pub type Branch = String;

pub type Imm = i32;

pub type Label = String;

#[derive(PartialEq, Debug)]
pub struct GeneratedCode {
    pub data: Vec<Instr>,
    pub text: Vec<Instr>,
}

#[derive(PartialEq, Eq, Debug, Clone, Copy)]
pub enum CondCode {
    EQ,
    NE,
    CS,
    HS,
    CC,
    LO,
    MI,
    PL,
    VS,
    VC,
    HI,
    LS,
    GE,
    LT,
    GT,
    LE,
    AL,
}

#[derive(PartialEq, Eq, Debug)]
pub enum Load {
    Imm(Imm),
    Label(Label),
}

#[derive(PartialEq, Eq, Debug, Clone, Copy)]
pub enum Reg {
    RegNum(RegNum),
    StackPointer,
}

#[derive(PartialEq, Eq, Debug, Clone, Copy)]
pub enum Op2 {
    Reg(Reg),
    Imm(Imm),
    LeftShiftedReg(Reg, Imm),
    RightShiftedReg(Reg, Imm),
}

#[derive(PartialEq, Eq, Debug, Clone, Copy)]
pub struct MemAddress {
    pub reg: Reg,
    pub offset: Option<i32>,
}

#[derive(PartialEq, Eq, Debug)]
pub enum Instr {
    Push,
    Word(i32),
    Ascii(String),
    Label(Label),
    LoadImm(Reg, Load),
    Mov(Reg, Op2, CondCode),
    Branch(Branch, CondCode),
    Pop,
    /* .ltorg */
    Assemble,
    StoreByte(Reg, MemAddress),
    Store(Reg, MemAddress),
    LoadMemByte(Reg, MemAddress),
    And(Reg, Reg, Op2),
    Or(Reg, Reg, Op2),
    Cmp(Reg, Op2),
    Add(Reg, Reg, Op2),
    Sub(Reg, Reg, Op2),
    AddFlags(Reg, Reg, Op2),
    SubFlags(Reg, Reg, Op2),
    Multiply(Reg, Reg, Reg, Reg),
    ReverseSubtract(Reg, Reg, Op2),
}

/* ======== The text of each part ======== */

pub open spec fn cond_text(c: CondCode) -> Seq<char> {
    match c {
        CondCode::EQ => "EQ"@,
        CondCode::NE => "NE"@,
        CondCode::CS => "CS"@,
        CondCode::HS => "HS"@,
        CondCode::CC => "CC"@,
        CondCode::LO => "LO"@,
        CondCode::MI => "MI"@,
        CondCode::PL => "PL"@,
        CondCode::VS => "VS"@,
        CondCode::VC => "VC"@,
        CondCode::HI => "HI"@,
        CondCode::LS => "LS"@,
        CondCode::GE => "GE"@,
        CondCode::LT => "LT"@,
        CondCode::GT => "GT"@,
        CondCode::LE => "LE"@,
        CondCode::AL => ""@,
    }
}

pub open spec fn reg_text(r: Reg) -> Seq<char> {
    match r {
        Reg::RegNum(n) => "r"@ + nat_str(n as nat),
        Reg::StackPointer => "sp"@,
    }
}

pub open spec fn load_text(l: Load) -> Seq<char> {
    match l {
        Load::Imm(v) => int_str(v as int),
        Load::Label(m) => m@,
    }
}

pub open spec fn op2_text(o: Op2) -> Seq<char> {
    match o {
        Op2::Imm(v) => "="@ + int_str(v as int),
        Op2::Reg(r) => reg_text(r),
        Op2::LeftShiftedReg(r, v) => reg_text(r) + ", LSL #"@ + int_str(v as int),
        Op2::RightShiftedReg(r, v) => reg_text(r) + ", ASR #"@ + int_str(v as int),
    }
}

/// A memory address: `[reg]`, or `[reg, #offset` with an offset (no
/// closing bracket is written then).
pub open spec fn mem_text(m: MemAddress) -> Seq<char> {
    match m.offset {
        Some(v) => "["@ + reg_text(m.reg) + ", #"@ + int_str(v as int),
        None => "["@ + reg_text(m.reg) + "]"@,
    }
}

/// Three operands: two registers and an operand.
pub open spec fn three_text(name: Seq<char>, r1: Reg, r2: Reg, o: Op2) -> Seq<char> {
    name + " "@ + reg_text(r1) + ", "@ + reg_text(r2) + ", "@ + op2_text(o)
}

pub open spec fn instr_text(i: Instr) -> Seq<char> {
    match i {
        Instr::Push => "PUSH {lr}"@,
        Instr::Word(n) => ".word "@ + int_str(n as int),
        Instr::Ascii(st) => ".ascii \""@ + st@ + "\""@,
        Instr::Label(l) => l@ + ":"@,
        Instr::LoadImm(r, v) => "LDR "@ + reg_text(r) + ", ="@ + load_text(v),
        Instr::Pop => "POP {pc}"@,
        Instr::Assemble => ".ltorg"@,
        Instr::StoreByte(r, m) => "STRB "@ + reg_text(r) + ", "@ + mem_text(m),
        Instr::Store(r, m) => "STR "@ + reg_text(r) + ", "@ + mem_text(m),
        Instr::LoadMemByte(r, m) => "LDRSB "@ + reg_text(r) + ", "@ + mem_text(m),
        Instr::Add(r1, r2, o) => three_text("ADD"@, r1, r2, o),
        Instr::Sub(r1, r2, o) => three_text("SUB"@, r1, r2, o),
        Instr::AddFlags(r1, r2, o) => three_text("ADDS"@, r1, r2, o),
        Instr::SubFlags(r1, r2, o) => three_text("SUBS"@, r1, r2, o),
        Instr::And(r1, r2, o) => three_text("AND"@, r1, r2, o),
        Instr::Or(r1, r2, o) => three_text("ORR"@, r1, r2, o),
        Instr::Cmp(r, o) => "CMP "@ + reg_text(r) + ", "@ + op2_text(o),
        Instr::Mov(r, o, c) => "MOV"@ + cond_text(c) + " "@ + reg_text(r) + ", "@ + op2_text(o),
        Instr::Branch(b, c) => "BL"@ + cond_text(c) + " "@ + b@,
        Instr::Multiply(r1, r2, r3, r4) => "SMULL "@ + reg_text(r1) + ", "@ + reg_text(r2) + ", "@ + reg_text(r3)
            + ", "@ + reg_text(r4),
        Instr::ReverseSubtract(r1, r2, o) => three_text("RSBS"@, r1, r2, o),
    }
}

/// The instructions, each on a line of its own.
pub open spec fn listing_text(instrs: Seq<Instr>) -> Seq<char>
    decreases instrs.len(),
{
    if instrs.len() == 0 {
        Seq::empty()
    } else {
        listing_text(instrs.drop_last()) + instr_text(instrs.last()) + "\n"@
    }
}

/* ======== Writing the text ======== */

impl CondCode {
    pub fn push_text(&self, out: &mut String)
        ensures
            final(out)@ == old(out)@ + cond_text(*self),
    {
        let t = match self {
            CondCode::EQ => "EQ",
            CondCode::NE => "NE",
            CondCode::CS => "CS",
            CondCode::HS => "HS",
            CondCode::CC => "CC",
            CondCode::LO => "LO",
            CondCode::MI => "MI",
            CondCode::PL => "PL",
            CondCode::VS => "VS",
            CondCode::VC => "VC",
            CondCode::HI => "HI",
            CondCode::LS => "LS",
            CondCode::GE => "GE",
            CondCode::LT => "LT",
            CondCode::GT => "GT",
            CondCode::LE => "LE",
            CondCode::AL => "",
        };
        push_str(out, t);
    }
}

impl Reg {
    pub fn push_text(&self, out: &mut String)
        ensures
            final(out)@ == old(out)@ + reg_text(*self),
    {
        match self {
            Reg::RegNum(n) => {
                push_str(out, "r");
                push_u64(out, *n as u64);
                assert(final(out)@ =~= old(out)@ + reg_text(*self));
            },
            Reg::StackPointer => push_str(out, "sp"),
        }
    }
}

impl Load {
    pub fn push_text(&self, out: &mut String)
        ensures
            final(out)@ == old(out)@ + load_text(*self),
    {
        match self {
            Load::Imm(v) => push_i64(out, *v as i64),
            Load::Label(m) => push_str(out, m.as_str()),
        }
    }
}

impl Op2 {
    pub fn push_text(&self, out: &mut String)
        ensures
            final(out)@ == old(out)@ + op2_text(*self),
    {
        match self {
            Op2::Imm(v) => {
                push_str(out, "=");
                push_i64(out, *v as i64);
            },
            Op2::Reg(r) => r.push_text(out),
            Op2::LeftShiftedReg(r, v) => {
                r.push_text(out);
                push_str(out, ", LSL #");
                push_i64(out, *v as i64);
            },
            Op2::RightShiftedReg(r, v) => {
                r.push_text(out);
                push_str(out, ", ASR #");
                push_i64(out, *v as i64);
            },
        }
        assert(final(out)@ =~= old(out)@ + op2_text(*self));
    }
}

impl MemAddress {
    pub fn push_text(&self, out: &mut String)
        ensures
            final(out)@ == old(out)@ + mem_text(*self),
    {
        push_str(out, "[");
        self.reg.push_text(out);
        match self.offset {
            Some(v) => {
                push_str(out, ", #");
                push_i64(out, v as i64);
            },
            None => push_str(out, "]"),
        }
        assert(final(out)@ =~= old(out)@ + mem_text(*self));
    }
}

/* Two registers and an operand, after the instruction's name. */
fn push_three(out: &mut String, name: &str, r1: Reg, r2: Reg, o: Op2)
    ensures
        final(out)@ == old(out)@ + three_text(name@, r1, r2, o),
{
    push_str(out, name);
    push_str(out, " ");
    r1.push_text(out);
    push_str(out, ", ");
    r2.push_text(out);
    push_str(out, ", ");
    o.push_text(out);
    assert(final(out)@ =~= old(out)@ + three_text(name@, r1, r2, o));
}

/* A register, ", " and a memory address, after the instruction's name. */
fn push_reg_mem(out: &mut String, name: &str, r: Reg, m: MemAddress)
    ensures
        final(out)@ == old(out)@ + name@ + reg_text(r) + ", "@ + mem_text(m),
{
    push_str(out, name);
    r.push_text(out);
    push_str(out, ", ");
    m.push_text(out);
    assert(final(out)@ =~= old(out)@ + name@ + reg_text(r) + ", "@ + mem_text(m));
}

impl Instr {
    pub fn push_text(&self, out: &mut String)
        ensures
            final(out)@ == old(out)@ + instr_text(*self),
    {
        let ghost start = out@;
        match self {
            Instr::Push => push_str(out, "PUSH {lr}"),
            Instr::Word(n) => {
                push_str(out, ".word ");
                push_i64(out, *n as i64);
            },
            Instr::Ascii(st) => {
                push_str(out, ".ascii \"");
                push_str(out, st.as_str());
                push_str(out, "\"");
            },
            Instr::Label(l) => {
                push_str(out, l.as_str());
                push_str(out, ":");
            },
            Instr::LoadImm(r, v) => {
                push_str(out, "LDR ");
                r.push_text(out);
                push_str(out, ", =");
                v.push_text(out);
            },
            Instr::Pop => push_str(out, "POP {pc}"),
            Instr::Assemble => push_str(out, ".ltorg"),
            Instr::StoreByte(r, m) => push_reg_mem(out, "STRB ", *r, *m),
            Instr::Store(r, m) => push_reg_mem(out, "STR ", *r, *m),
            Instr::LoadMemByte(r, m) => push_reg_mem(out, "LDRSB ", *r, *m),
            Instr::Add(r1, r2, o) => push_three(out, "ADD", *r1, *r2, *o),
            Instr::Sub(r1, r2, o) => push_three(out, "SUB", *r1, *r2, *o),
            Instr::AddFlags(r1, r2, o) => push_three(out, "ADDS", *r1, *r2, *o),
            Instr::SubFlags(r1, r2, o) => push_three(out, "SUBS", *r1, *r2, *o),
            Instr::And(r1, r2, o) => push_three(out, "AND", *r1, *r2, *o),
            Instr::Or(r1, r2, o) => push_three(out, "ORR", *r1, *r2, *o),
            Instr::Cmp(r, o) => {
                push_str(out, "CMP ");
                r.push_text(out);
                push_str(out, ", ");
                o.push_text(out);
            },
            Instr::Mov(r, o, c) => {
                push_str(out, "MOV");
                c.push_text(out);
                push_str(out, " ");
                r.push_text(out);
                push_str(out, ", ");
                o.push_text(out);
            },
            Instr::Branch(b, c) => {
                push_str(out, "BL");
                c.push_text(out);
                push_str(out, " ");
                push_str(out, b.as_str());
            },
            Instr::Multiply(r1, r2, r3, r4) => {
                push_str(out, "SMULL ");
                r1.push_text(out);
                push_str(out, ", ");
                r2.push_text(out);
                push_str(out, ", ");
                r3.push_text(out);
                push_str(out, ", ");
                r4.push_text(out);
            },
            Instr::ReverseSubtract(r1, r2, o) => push_three(out, "RSBS", *r1, *r2, *o),
        }
        proof {
            reveal_strlit("PUSH {lr}");
            reveal_strlit("POP {pc}");
            reveal_strlit(".ltorg");
        }
        assert(out@ =~= start + instr_text(*self));
    }
}

/// The text of the instructions, each followed by a newline: what is
/// written to an assembly file.
pub fn listing(instrs: &Vec<Instr>) -> (r: String)
    ensures
        r@ == listing_text(instrs@),
{
    let mut out = String::new();
    let mut i: usize = 0;
    proof {
        assert(instrs@.take(0) =~= Seq::<Instr>::empty());
    }
    while i < instrs.len()
        invariant
            i <= instrs@.len(),
            out@ == listing_text(instrs@.take(i as int)),
        decreases instrs@.len() - i,
    {
        instrs[i].push_text(&mut out);
        push_str(&mut out, "\n");
        proof {
            assert(instrs@.take(i + 1).drop_last() =~= instrs@.take(i as int));
            assert(instrs@.take(i + 1).last() == instrs@[i as int]);
        }
        i = i + 1;
    }
    proof {
        assert(instrs@.take(instrs@.len() as int) =~= instrs@);
    }
    out
}

} // verus!
