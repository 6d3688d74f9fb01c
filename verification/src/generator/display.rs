use vstd::prelude::*;

use super::arm::{
    lines, AddressingMode, ArgReg, Asm, BinaryInstr, CondCode, DataSize, Directive, GenReg,
    GeneratedCode, Instr, LoadArg, Op2, Reg, SAsm, SDirective, SInstr, SLoadArg, UnaryInstr,
};
use crate::text::{int_str, nat_str, push_char, push_i64, push_str, push_u64};

verus! {

/* How the assembly is written as text, in the syntax of the GNU assembler
for ARM. */

pub open spec fn cond_text(c: CondCode) -> Seq<char> {
    match c {
        CondCode::EQ => "EQ"@,
        CondCode::NE => "NE"@,
        CondCode::CS => "CS"@,
        CondCode::VS => "VS"@,
        CondCode::GE => "GE"@,
        CondCode::LT => "LT"@,
        CondCode::GT => "GT"@,
        CondCode::LE => "LE"@,
        CondCode::AL => ""@,
    }
}

/// Distinct conditions are written differently, and only the one that
/// always holds is written as nothing.
pub proof fn law_cond_text_distinct(c1: CondCode, c2: CondCode)
    ensures
        cond_text(c1) == cond_text(c2) ==> c1 == c2,
        cond_text(c1).len() == 0 <==> c1 == CondCode::AL,
{
    reveal_strlit("EQ");
    reveal_strlit("NE");
    reveal_strlit("CS");
    reveal_strlit("VS");
    reveal_strlit("GE");
    reveal_strlit("LT");
    reveal_strlit("GT");
    reveal_strlit("LE");
    reveal_strlit("");
    if cond_text(c1) == cond_text(c2) && c1 != c2 {
        assert(cond_text(c1).len() == cond_text(c2).len());
        if cond_text(c1).len() > 0 {
            assert(cond_text(c1)[0] == cond_text(c2)[0]);
            assert(cond_text(c1)[1] == cond_text(c2)[1]);
        }
    }
}

/// A register that has been allocated: not a virtual one.
pub open spec fn allocated(r: Reg) -> bool {
    !(r is Virtual)
}

pub open spec fn reg_text(r: Reg) -> Seq<char> {
    match r {
        Reg::StackPointer => "sp"@,
        Reg::Link => "lr"@,
        Reg::PC => "pc"@,
        Reg::Arg(ArgReg::R0) => "r0"@,
        Reg::Arg(ArgReg::R1) => "r1"@,
        Reg::Arg(ArgReg::R2) => "r2"@,
        Reg::General(GenReg::R4) => "r4"@,
        Reg::General(GenReg::R5) => "r5"@,
        Reg::General(GenReg::R6) => "r6"@,
        Reg::General(GenReg::R7) => "r7"@,
        Reg::General(GenReg::R8) => "r8"@,
        Reg::General(GenReg::R9) => "r9"@,
        Reg::General(GenReg::R10) => "r10"@,
        Reg::General(GenReg::R11) => "r11"@,
        Reg::Virtual(_) => Seq::empty(),
    }
}

pub open spec fn op2_text(o: Op2) -> Seq<char> {
    match o {
        Op2::Imm(v) => "#"@ + int_str(v as int),
        Op2::Reg(r, shift) => reg_text(r) + if shift > 0 {
            ", ASR #"@ + int_str(shift as int)
        } else if shift < 0 {
            ", LSL #"@ + int_str(-shift)
        } else {
            ""@
        },
        Op2::Char(ch) => "#'"@ + seq![ch] + "'"@,
    }
}

/// `[reg]`, or `[reg, #offset]` when the offset is not zero.
pub open spec fn address_text(r: Reg, offset: i32) -> Seq<char> {
    if offset == 0 {
        "["@ + reg_text(r) + "]"@
    } else {
        "["@ + reg_text(r) + ", #"@ + int_str(offset as int) + "]"@
    }
}

pub open spec fn load_arg_text(a: SLoadArg) -> Seq<char> {
    match a {
        SLoadArg::Imm(v) => "="@ + int_str(v as int),
        SLoadArg::MemAddress(r, offset) => address_text(r, offset),
        SLoadArg::Label(l) => "="@ + l,
    }
}

pub open spec fn size_text(s: DataSize) -> Seq<char> {
    match s {
        DataSize::Byte => "B"@,
        DataSize::Word => ""@,
    }
}

pub open spec fn unary_text(i: UnaryInstr) -> Seq<char> {
    match i {
        UnaryInstr::Mov => "MOV"@,
        UnaryInstr::Cmp => "CMP"@,
    }
}

pub open spec fn binary_text(i: BinaryInstr) -> Seq<char> {
    match i {
        BinaryInstr::Add => "ADD"@,
        BinaryInstr::Sub => "SUB"@,
        BinaryInstr::RevSub => "RSB"@,
        BinaryInstr::And => "AND"@,
        BinaryInstr::Or => "ORR"@,
        BinaryInstr::Eor => "EOR"@,
    }
}

pub open spec fn flag_text(f: bool) -> Seq<char> {
    if f {
        "S"@
    } else {
        ""@
    }
}

pub open spec fn link_text(l: bool) -> Seq<char> {
    if l {
        "L"@
    } else {
        ""@
    }
}

/// The text of an instruction with its condition, after a tab.
pub open spec fn instr_text(c: CondCode, i: SInstr) -> Seq<char> {
    "\t"@ + instr_body_text(c, i)
}

/// The text of an instruction with its condition.
pub open spec fn instr_body_text(c: CondCode, i: SInstr) -> Seq<char> {
    match i {
        SInstr::Push(r) => "PUSH"@ + cond_text(c) + " {"@ + reg_text(r) + "}"@,
        SInstr::Pop(r) => "POP"@ + cond_text(c) + " {"@ + reg_text(r) + "}"@,
        SInstr::Branch(l, label) => "B"@ + link_text(l) + cond_text(c) + " "@ + label,
        SInstr::BranchReg(l, r) => "B"@ + link_text(l) + "X"@ + cond_text(c) + " "@ + reg_text(r),
        SInstr::Store(s, dst, (src, off), mode) => "STR"@ + cond_text(c) + size_text(s) + " "@ + reg_text(dst)
            + ", "@ + match mode {
            AddressingMode::Default => address_text(src, off),
            AddressingMode::PreIndexed => "["@ + reg_text(src) + ", #"@ + int_str(off as int) + "]!"@,
        },
        SInstr::Load(s, dst, arg) => "LDR"@ + (if s == DataSize::Byte {
            "S"@
        } else {
            ""@
        }) + size_text(s) + cond_text(c) + " "@ + reg_text(dst) + ", "@ + load_arg_text(arg),
        SInstr::Binary(b, dst, src, o, f) => binary_text(b) + flag_text(f) + cond_text(c) + " "@ + reg_text(dst)
            + ", "@ + reg_text(src) + ", "@ + op2_text(o),
        SInstr::Unary(u, dst, o, f) => unary_text(u) + flag_text(f) + cond_text(c) + " "@ + reg_text(dst) + ", "@
            + op2_text(o),
        SInstr::Multiply(r1, r2, r3, r4) => "SMULL"@ + cond_text(c) + " "@ + reg_text(r1) + ", "@ + reg_text(r2)
            + ", "@ + reg_text(r3) + ", "@ + reg_text(r4),
    }
}

pub open spec fn directive_text(d: SDirective) -> Seq<char> {
    match d {
        SDirective::Text => ".text\n\n.global main"@,
        SDirective::Data => ".data\n"@,
        SDirective::Assemble => "\t.ltorg"@,
        SDirective::Label(l) => l + ":"@,
        SDirective::Word(n) => "\t.word "@ + nat_str(n as nat),
        SDirective::Ascii(s) => "\t.ascii\t\""@ + s + "\""@,
    }
}

/// The text of a line of assembly.
pub open spec fn asm_text(a: SAsm) -> Seq<char> {
    match a {
        SAsm::Directive(d) => directive_text(d),
        SAsm::Instr(c, i) => instr_text(c, i),
    }
}

/// The lines of a segment, each followed by a newline.
pub open spec fn segment_text(ls: Seq<SAsm>) -> Seq<char>
    decreases ls.len(),
{
    if ls.len() == 0 {
        Seq::empty()
    } else {
        segment_text(ls.drop_last()) + asm_text(ls.last()) + "\n"@
    }
}

/// The text of a whole program: the data segment and an empty line, when
/// it holds more than its directive, then the text segment.
pub open spec fn program_text(data: Seq<SAsm>, text: Seq<SAsm>) -> Seq<char> {
    (if data.len() > 1 {
        segment_text(data) + "\n"@
    } else {
        Seq::empty()
    }) + segment_text(text)
}

/// The registers of an instruction are all allocated.
pub open spec fn instr_allocated(i: SInstr) -> bool {
    match i {
        SInstr::Push(r) => allocated(r),
        SInstr::Pop(r) => allocated(r),
        SInstr::Branch(_, _) => true,
        SInstr::BranchReg(_, r) => allocated(r),
        SInstr::Store(_, a, (b, _), _) => allocated(a) && allocated(b),
        SInstr::Load(_, r, arg) => allocated(r) && (arg matches SLoadArg::MemAddress(b, _) ==> allocated(b)),
        SInstr::Binary(_, a, b, o, _) => allocated(a) && allocated(b) && (o matches Op2::Reg(c, _) ==> allocated(c)),
        SInstr::Unary(_, a, o, _) => allocated(a) && (o matches Op2::Reg(c, _) ==> allocated(c)),
        SInstr::Multiply(a, b, c, d) => allocated(a) && allocated(b) && allocated(c) && allocated(d),
    }
}

pub open spec fn asm_allocated(a: SAsm) -> bool {
    match a {
        SAsm::Instr(_, i) => instr_allocated(i),
        _ => true,
    }
}

/* ======== Writing the text ======== */

fn push_cond(out: &mut String, c: CondCode)
    ensures
        final(out)@ == old(out)@ + cond_text(c),
{
    let t = match c {
        CondCode::EQ => "EQ",
        CondCode::NE => "NE",
        CondCode::CS => "CS",
        CondCode::VS => "VS",
        CondCode::GE => "GE",
        CondCode::LT => "LT",
        CondCode::GT => "GT",
        CondCode::LE => "LE",
        CondCode::AL => "",
    };
    push_str(out, t);
}

fn push_flag(out: &mut String, f: bool)
    ensures
        final(out)@ == old(out)@ + flag_text(f),
{
    if f {
        push_str(out, "S");
    } else {
        push_str(out, "");
    }
}

fn push_link(out: &mut String, l: bool)
    ensures
        final(out)@ == old(out)@ + link_text(l),
{
    if l {
        push_str(out, "L");
    } else {
        push_str(out, "");
    }
}

fn push_size(out: &mut String, s: DataSize)
    ensures
        final(out)@ == old(out)@ + size_text(s),
{
    match s {
        DataSize::Byte => push_str(out, "B"),
        DataSize::Word => push_str(out, ""),
    }
}

fn push_reg(out: &mut String, r: Reg)
    requires
        allocated(r),
    ensures
        final(out)@ == old(out)@ + reg_text(r),
{
    let t = match r {
        Reg::StackPointer => "sp",
        Reg::Link => "lr",
        Reg::PC => "pc",
        Reg::Arg(ArgReg::R0) => "r0",
        Reg::Arg(ArgReg::R1) => "r1",
        Reg::Arg(ArgReg::R2) => "r2",
        Reg::General(GenReg::R4) => "r4",
        Reg::General(GenReg::R5) => "r5",
        Reg::General(GenReg::R6) => "r6",
        Reg::General(GenReg::R7) => "r7",
        Reg::General(GenReg::R8) => "r8",
        Reg::General(GenReg::R9) => "r9",
        Reg::General(GenReg::R10) => "r10",
        Reg::General(GenReg::R11) => "r11",
        Reg::Virtual(_) => "",
    };
    push_str(out, t);
}

fn push_op2(out: &mut String, o: Op2)
    requires
        o matches Op2::Reg(r, _) ==> allocated(r),
    ensures
        final(out)@ == old(out)@ + op2_text(o),
{
    match o {
        Op2::Imm(v) => {
            push_str(out, "#");
            push_i64(out, v as i64);
            assert(final(out)@ =~= old(out)@ + op2_text(o));
        },
        Op2::Reg(r, shift) => {
            push_reg(out, r);
            if shift > 0 {
                push_str(out, ", ASR #");
                push_i64(out, shift as i64);
            } else if shift < 0 {
                push_str(out, ", LSL #");
                push_i64(out, -(shift as i64));
            } else {
                push_str(out, "");
            }
            assert(final(out)@ =~= old(out)@ + op2_text(o));
        },
        Op2::Char(ch) => {
            push_str(out, "#'");
            push_char(out, ch);
            push_str(out, "'");
            assert(final(out)@ =~= old(out)@ + op2_text(o));
        },
    }
}

fn push_address(out: &mut String, r: Reg, offset: i32)
    requires
        allocated(r),
    ensures
        final(out)@ == old(out)@ + address_text(r, offset),
{
    push_str(out, "[");
    push_reg(out, r);
    if offset != 0 {
        push_str(out, ", #");
        push_i64(out, offset as i64);
        push_str(out, "]");
    } else {
        push_str(out, "]");
    }
    assert(final(out)@ =~= old(out)@ + address_text(r, offset));
}

fn push_load_arg(out: &mut String, a: &LoadArg)
    requires
        a matches LoadArg::MemAddress(r, _) ==> allocated(*r),
    ensures
        final(out)@ == old(out)@ + load_arg_text(a@),
{
    match a {
        LoadArg::Imm(v) => {
            push_str(out, "=");
            push_i64(out, *v as i64);
            assert(final(out)@ =~= old(out)@ + load_arg_text(a@));
        },
        LoadArg::MemAddress(r, offset) => push_address(out, *r, *offset),
        LoadArg::Label(l) => {
            push_str(out, "=");
            push_str(out, l.as_str());
            assert(final(out)@ =~= old(out)@ + load_arg_text(a@));
        },
    }
}

/* The text of a store's address. */
fn push_store_address(out: &mut String, src: Reg, off: i32, mode: AddressingMode)
    requires
        allocated(src),
    ensures
        final(out)@ == old(out)@ + match mode {
            AddressingMode::Default => address_text(src, off),
            AddressingMode::PreIndexed => "["@ + reg_text(src) + ", #"@ + int_str(off as int) + "]!"@,
        },
{
    match mode {
        AddressingMode::Default => push_address(out, src, off),
        AddressingMode::PreIndexed => {
            push_str(out, "[");
            push_reg(out, src);
            push_str(out, ", #");
            push_i64(out, off as i64);
            push_str(out, "]!");
            assert(final(out)@ =~= old(out)@ + ("["@ + reg_text(src) + ", #"@ + int_str(off as int) + "]!"@));
        },
    }
}

fn push_branch(out: &mut String, c: CondCode, l: bool, label: &String)
    ensures
        final(out)@ == old(out)@ + instr_body_text(c, SInstr::Branch(l, label@)),
{
    push_str(out, "B");
    push_link(out, l);
    push_cond(out, c);
    push_str(out, " ");
    push_str(out, label.as_str());
    assert(final(out)@ =~= old(out)@ + instr_body_text(c, SInstr::Branch(l, label@)));
}

fn push_branch_reg(out: &mut String, c: CondCode, l: bool, r: Reg)
    requires
        allocated(r),
    ensures
        final(out)@ == old(out)@ + instr_body_text(c, SInstr::BranchReg(l, r)),
{
    push_str(out, "B");
    push_link(out, l);
    push_str(out, "X");
    push_cond(out, c);
    push_str(out, " ");
    push_reg(out, r);
    assert(final(out)@ =~= old(out)@ + instr_body_text(c, SInstr::BranchReg(l, r)));
}

fn push_push_pop(out: &mut String, c: CondCode, is_push: bool, r: Reg)
    requires
        allocated(r),
    ensures
        final(out)@ == old(out)@ + instr_body_text(
            c,
            if is_push {
                SInstr::Push(r)
            } else {
                SInstr::Pop(r)
            },
        ),
{
    if is_push {
        push_str(out, "PUSH");
    } else {
        push_str(out, "POP");
    }
    push_cond(out, c);
    push_str(out, " {");
    push_reg(out, r);
    push_str(out, "}");
    assert(final(out)@ =~= old(out)@ + instr_body_text(
        c,
        if is_push {
            SInstr::Push(r)
        } else {
            SInstr::Pop(r)
        },
    ));
}

fn push_store(out: &mut String, c: CondCode, s: DataSize, dst: Reg, src: Reg, off: i32, mode: AddressingMode)
    requires
        allocated(dst),
        allocated(src),
    ensures
        final(out)@ == old(out)@ + instr_body_text(c, SInstr::Store(s, dst, (src, off), mode)),
{
    push_str(out, "STR");
    push_cond(out, c);
    push_size(out, s);
    push_str(out, " ");
    push_reg(out, dst);
    push_str(out, ", ");
    push_store_address(out, src, off, mode);
    assert(final(out)@ =~= old(out)@ + instr_body_text(c, SInstr::Store(s, dst, (src, off), mode)));
}

fn push_load(out: &mut String, c: CondCode, s: DataSize, dst: Reg, arg: &LoadArg)
    requires
        allocated(dst),
        arg matches LoadArg::MemAddress(r, _) ==> allocated(*r),
    ensures
        final(out)@ == old(out)@ + instr_body_text(c, SInstr::Load(s, dst, arg@)),
{
    push_str(out, "LDR");
    if s == DataSize::Byte {
        push_str(out, "S");
    } else {
        push_str(out, "");
    }
    push_size(out, s);
    push_cond(out, c);
    push_str(out, " ");
    push_reg(out, dst);
    push_str(out, ", ");
    push_load_arg(out, arg);
    assert(final(out)@ =~= old(out)@ + instr_body_text(c, SInstr::Load(s, dst, arg@)));
}

fn push_binary(out: &mut String, c: CondCode, b: BinaryInstr, dst: Reg, src: Reg, o: Op2, f: bool)
    requires
        allocated(dst),
        allocated(src),
        o matches Op2::Reg(r, _) ==> allocated(r),
    ensures
        final(out)@ == old(out)@ + instr_body_text(c, SInstr::Binary(b, dst, src, o, f)),
{
    let name = match b {
        BinaryInstr::Add => "ADD",
        BinaryInstr::Sub => "SUB",
        BinaryInstr::RevSub => "RSB",
        BinaryInstr::And => "AND",
        BinaryInstr::Or => "ORR",
        BinaryInstr::Eor => "EOR",
    };
    push_str(out, name);
    push_flag(out, f);
    push_cond(out, c);
    push_str(out, " ");
    push_reg(out, dst);
    push_str(out, ", ");
    push_reg(out, src);
    push_str(out, ", ");
    push_op2(out, o);
    assert(name@ == binary_text(b));
    assert(final(out)@ =~= old(out)@ + instr_body_text(c, SInstr::Binary(b, dst, src, o, f)));
}

fn push_unary(out: &mut String, c: CondCode, u: UnaryInstr, dst: Reg, o: Op2, f: bool)
    requires
        allocated(dst),
        o matches Op2::Reg(r, _) ==> allocated(r),
    ensures
        final(out)@ == old(out)@ + instr_body_text(c, SInstr::Unary(u, dst, o, f)),
{
    let name = match u {
        UnaryInstr::Mov => "MOV",
        UnaryInstr::Cmp => "CMP",
    };
    push_str(out, name);
    push_flag(out, f);
    push_cond(out, c);
    push_str(out, " ");
    push_reg(out, dst);
    push_str(out, ", ");
    push_op2(out, o);
    assert(name@ == unary_text(u));
    assert(final(out)@ =~= old(out)@ + instr_body_text(c, SInstr::Unary(u, dst, o, f)));
}

fn push_multiply(out: &mut String, c: CondCode, r1: Reg, r2: Reg, r3: Reg, r4: Reg)
    requires
        allocated(r1),
        allocated(r2),
        allocated(r3),
        allocated(r4),
    ensures
        final(out)@ == old(out)@ + instr_body_text(c, SInstr::Multiply(r1, r2, r3, r4)),
{
    push_str(out, "SMULL");
    push_cond(out, c);
    push_str(out, " ");
    push_reg(out, r1);
    push_str(out, ", ");
    push_reg(out, r2);
    push_str(out, ", ");
    push_reg(out, r3);
    push_str(out, ", ");
    push_reg(out, r4);
    assert(final(out)@ =~= old(out)@ + instr_body_text(c, SInstr::Multiply(r1, r2, r3, r4)));
}

impl Instr {
    /* Writes the instruction, with its condition, after a tab. */
    pub fn push_text(&self, c: CondCode, out: &mut String)
        requires
            instr_allocated(self@),
        ensures
            final(out)@ == old(out)@ + instr_text(c, self@),
    {
        push_str(out, "\t");
        match self {
            Instr::Push(r) => push_push_pop(out, c, true, *r),
            Instr::Pop(r) => push_push_pop(out, c, false, *r),
            Instr::Branch(l, label) => push_branch(out, c, *l, label),
            Instr::BranchReg(l, r) => push_branch_reg(out, c, *l, *r),
            Instr::Store(s, dst, (src, off), mode) => push_store(out, c, *s, *dst, *src, *off, *mode),
            Instr::Load(s, dst, arg) => push_load(out, c, *s, *dst, arg),
            Instr::Binary(b, dst, src, o, f) => push_binary(out, c, *b, *dst, *src, *o, *f),
            Instr::Unary(u, dst, o, f) => push_unary(out, c, *u, *dst, *o, *f),
            Instr::Multiply(r1, r2, r3, r4) => push_multiply(out, c, *r1, *r2, *r3, *r4),
        }
        proof {
            assert(out@ =~= old(out)@ + instr_text(c, self@));
        }
    }
}

impl Directive {
    pub fn push_text(&self, out: &mut String)
        ensures
            final(out)@ == old(out)@ + directive_text(self@),
    {
        match self {
            Directive::Text => push_str(out, ".text\n\n.global main"),
            Directive::Data => push_str(out, ".data\n"),
            Directive::Assemble => push_str(out, "\t.ltorg"),
            Directive::Label(l) => {
                push_str(out, l.as_str());
                push_str(out, ":");
            },
            Directive::Word(n) => {
                push_str(out, "\t.word ");
                push_u64(out, *n as u64);
            },
            Directive::Ascii(s) => {
                push_str(out, "\t.ascii\t\"");
                push_str(out, s.as_str());
                push_str(out, "\"");
            },
        }
        proof {
            assert(out@ =~= old(out)@ + directive_text(self@));
        }
    }
}

impl Asm {
    /// Writes the line's text.
    pub fn push_text(&self, out: &mut String)
        requires
            asm_allocated(self@),
        ensures
            final(out)@ == old(out)@ + asm_text(self@),
    {
        match self {
            Asm::Directive(d) => d.push_text(out),
            Asm::Instr(c, i) => i.push_text(*c, out),
        }
    }

    /// The line's text.
    pub fn to_string(&self) -> (r: String)
        requires
            asm_allocated(self@),
        ensures
            r@ == asm_text(self@),
    {
        let mut out = String::new();
        self.push_text(&mut out);
        proof {
            assert(out@ =~= asm_text(self@));
        }
        out
    }
}

fn push_segment(out: &mut String, seg: &Vec<Asm>)
    requires
        forall|i: int| 0 <= i < seg@.len() ==> asm_allocated(#[trigger] seg@[i]@),
    ensures
        final(out)@ == old(out)@ + segment_text(lines(seg@)),
{
    let mut i: usize = 0;
    proof {
        assert(lines(seg@).take(0) =~= Seq::<SAsm>::empty());
    }
    while i < seg.len()
        invariant
            i <= seg@.len(),
            forall|k: int| 0 <= k < seg@.len() ==> asm_allocated(#[trigger] seg@[k]@),
            out@ == old(out)@ + segment_text(lines(seg@).take(i as int)),
        decreases seg@.len() - i,
    {
        seg[i].push_text(out);
        push_str(out, "\n");
        proof {
            let t = lines(seg@).take(i + 1);
            assert(t.drop_last() =~= lines(seg@).take(i as int));
            assert(t.last() == seg@[i as int]@);
            assert(out@ =~= old(out)@ + segment_text(t));
        }
        i = i + 1;
    }
    proof {
        assert(lines(seg@).take(i as int) =~= lines(seg@));
    }
}

impl GeneratedCode {
    /// The program's text: the data segment, unless it holds nothing but
    /// its directive, then the text segment.
    pub fn to_string(&self) -> (r: String)
        requires
            forall|i: int| 0 <= i < self.data@.len() ==> asm_allocated(#[trigger] self.data@[i]@),
            forall|i: int| 0 <= i < self.text@.len() ==> asm_allocated(#[trigger] self.text@[i]@),
        ensures
            r@ == program_text(lines(self.data@), lines(self.text@)),
    {
        let mut out = String::new();
        if self.data.len() > 1 {
            push_segment(&mut out, &self.data);
            push_str(&mut out, "\n");
        }
        push_segment(&mut out, &self.text);
        proof {
            assert(out@ =~= program_text(lines(self.data@), lines(self.text@)));
        }
        out
    }
}

} // verus!
