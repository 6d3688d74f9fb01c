use vstd::prelude::*;

use super::predef::RequiredPredefs;
use crate::text::{concat_num, int_str, push_char, push_str, to_string};
use vstd::string::StringSliceAdditionalSpecFns;

verus! {

broadcast use vstd::std_specs::hash::group_hash_axioms;

/* ======== Type aliases. ======== */

/* An immediate value. */
pub type Imm = i32;
/* A location which can be branched to. */
pub type Label = String;
/* Whether or not an instruction sets flags. */
pub type Flags = bool;
/* How much to offset a register by. */
pub type Offset = i32;
/* How much to shift a register by. */
pub type Shift = i32;
/* The number of a register not yet allocated. */
pub type VegNum = usize;

pub const MIN_STACK_MACHINE_REGS: usize = 2;

/* ======== Registers and operands. ======== */

#[derive(PartialEq, Eq, Structural, Debug, Clone, Copy, Hash)]
pub enum ArgReg {
    R0,
    R1,
    R2,
}

#[derive(PartialEq, Eq, Structural, Debug, Clone, Copy, Hash)]
pub enum GenReg {
    R4,
    R5,
    R6,
    R7,
    R8,
    R9,
    R10,
    R11,
}

#[derive(PartialEq, Eq, Structural, Debug, Clone, Copy, Hash)]
pub enum Reg {
    Arg(ArgReg),
    General(GenReg),
    StackPointer,
    Link,
    PC,
    /* Represents a value which has not yet been given a register. */
    Virtual(VegNum),
}

/// The general purpose registers usable for expression evaluation, in order.
pub fn general_regs() -> (r: Vec<GenReg>)
    ensures
        r@ == seq![
            GenReg::R4,
            GenReg::R5,
            GenReg::R6,
            GenReg::R7,
            GenReg::R8,
            GenReg::R9,
            GenReg::R10,
            GenReg::R11,
        ],
{
    vec![
        GenReg::R4,
        GenReg::R5,
        GenReg::R6,
        GenReg::R7,
        GenReg::R8,
        GenReg::R9,
        GenReg::R10,
        GenReg::R11,
    ]
}

#[derive(PartialEq, Eq, Structural, Debug, Clone, Copy)]
pub enum CondCode {
    EQ,
    NE,
    CS,
    VS,
    GE,
    LT,
    GT,
    LE,
    AL,
}

/* Operand 2: an immediate, a character, or a register shifted right
{Shift} times. */
#[derive(PartialEq, Eq, Structural, Debug, Clone, Copy)]
pub enum Op2 {
    Imm(Imm),
    Char(char),
    Reg(Reg, Shift),
}

#[derive(PartialEq, Eq, Debug)]
pub enum LoadArg {
    Imm(Imm),
    MemAddress(Reg, Offset),
    Label(Label),
}

#[derive(PartialEq, Eq, Structural, Debug, Clone, Copy)]
pub enum DataSize {
    Byte,
    Word,
}

#[derive(PartialEq, Eq, Structural, Debug, Clone, Copy)]
pub enum AddressingMode {
    Default,
    PreIndexed,
}

#[derive(PartialEq, Eq, Structural, Debug, Clone, Copy)]
pub enum UnaryInstr {
    Mov,
    Cmp,
}

/* Instructions which take the form "OP{flags}{cond} Rd, Rn, Operand2". */
#[derive(PartialEq, Eq, Structural, Debug, Clone, Copy)]
pub enum BinaryInstr {
    Add,
    Sub,
    RevSub,
    And,
    Or,
    Eor,
}

#[derive(PartialEq, Eq, Debug)]
pub enum Instr {
    /* PUSH {reg} */
    Push(Reg),
    /* POP {reg} */
    Pop(Reg),
    /* B{L?}{CondCode} {Label}: branch, with link when the flag is set. */
    Branch(bool, Label),
    /* B{L?}X{CondCode} {Reg}: jump to the address in a register. */
    BranchReg(bool, Reg),
    /* {UnaryInstr}{Flags}{CondCode} {Reg}, {Op2} */
    Unary(UnaryInstr, Reg, Op2, Flags),
    /* {BinaryInstr}{Flags}{CondCode} {Reg}, {Reg}, {Op2} */
    Binary(BinaryInstr, Reg, Reg, Op2, Flags),
    /* STR{DataSize}{CondCode} {Reg}, [{Reg}, #{Offset}] */
    Store(DataSize, Reg, (Reg, Offset), AddressingMode),
    /* LDR{DataSize}{CondCode} {Reg}, {LoadArg} */
    Load(DataSize, Reg, LoadArg),
    /* SMULL{CondCode} {Reg}, {Reg}, {Reg}, {Reg} */
    Multiply(Reg, Reg, Reg, Reg),
}

#[derive(PartialEq, Debug)]
pub enum Directive {
    Text,  /* .text */
    Data,  /* .data */
    Assemble,  /* .ltorg */
    Label(String),  /* foo: */
    Word(usize),  /* .word 5 */
    Ascii(String),  /* .ascii "Hello World" */
}

/* Line of assembly. */
#[derive(PartialEq, Debug)]
pub enum Asm {
    Directive(Directive),
    Instr(CondCode, Instr),
}

impl Clone for LoadArg {
    fn clone(&self) -> (out: Self)
        ensures
            out == *self,
    {
        match self {
            LoadArg::Imm(i) => LoadArg::Imm(*i),
            LoadArg::MemAddress(r, o) => LoadArg::MemAddress(*r, *o),
            LoadArg::Label(l) => LoadArg::Label(l.clone()),
        }
    }
}

impl Clone for Directive {
    fn clone(&self) -> (out: Self)
        ensures
            out == *self,
    {
        match self {
            Directive::Text => Directive::Text,
            Directive::Data => Directive::Data,
            Directive::Assemble => Directive::Assemble,
            Directive::Label(l) => Directive::Label(l.clone()),
            Directive::Word(n) => Directive::Word(*n),
            Directive::Ascii(a) => Directive::Ascii(a.clone()),
        }
    }
}

impl Clone for Instr {
    fn clone(&self) -> (out: Self)
        ensures
            out == *self,
    {
        match self {
            Instr::Push(r) => Instr::Push(*r),
            Instr::Pop(r) => Instr::Pop(*r),
            Instr::Branch(l, label) => Instr::Branch(*l, label.clone()),
            Instr::BranchReg(l, r) => Instr::BranchReg(*l, *r),
            Instr::Unary(i, r, o, f) => Instr::Unary(*i, *r, *o, *f),
            Instr::Binary(i, r1, r2, o, f) => Instr::Binary(*i, *r1, *r2, *o, *f),
            Instr::Store(s, r1, (r2, off), m) => Instr::Store(*s, *r1, (*r2, *off), *m),
            Instr::Load(s, r, arg) => Instr::Load(*s, *r, arg.clone()),
            Instr::Multiply(a, b, c, d) => Instr::Multiply(*a, *b, *c, *d),
        }
    }
}

impl Clone for Asm {
    fn clone(&self) -> (out: Self)
        ensures
            out == *self,
    {
        match self {
            Asm::Directive(d) => Asm::Directive(d.clone()),
            Asm::Instr(c, i) => Asm::Instr(*c, i.clone()),
        }
    }
}

/* ======== Mathematical values of lines of assembly ======== */

/// A load argument, labels by their characters.
pub enum SLoadArg {
    Imm(Imm),
    MemAddress(Reg, Offset),
    Label(Seq<char>),
}

pub enum SInstr {
    Push(Reg),
    Pop(Reg),
    Branch(bool, Seq<char>),
    BranchReg(bool, Reg),
    Unary(UnaryInstr, Reg, Op2, Flags),
    Binary(BinaryInstr, Reg, Reg, Op2, Flags),
    Store(DataSize, Reg, (Reg, Offset), AddressingMode),
    Load(DataSize, Reg, SLoadArg),
    Multiply(Reg, Reg, Reg, Reg),
}

pub enum SDirective {
    Text,
    Data,
    Assemble,
    Label(Seq<char>),
    Word(usize),
    Ascii(Seq<char>),
}

/// A line of assembly, strings by their characters.
pub enum SAsm {
    Directive(SDirective),
    Instr(CondCode, SInstr),
}

impl View for LoadArg {
    type V = SLoadArg;

    open spec fn view(&self) -> SLoadArg {
        match self {
            LoadArg::Imm(i) => SLoadArg::Imm(*i),
            LoadArg::MemAddress(r, o) => SLoadArg::MemAddress(*r, *o),
            LoadArg::Label(l) => SLoadArg::Label(l@),
        }
    }
}

impl View for Instr {
    type V = SInstr;

    open spec fn view(&self) -> SInstr {
        match self {
            Instr::Push(r) => SInstr::Push(*r),
            Instr::Pop(r) => SInstr::Pop(*r),
            Instr::Branch(l, label) => SInstr::Branch(*l, label@),
            Instr::BranchReg(l, r) => SInstr::BranchReg(*l, *r),
            Instr::Unary(i, r, o, f) => SInstr::Unary(*i, *r, *o, *f),
            Instr::Binary(i, r1, r2, o, f) => SInstr::Binary(*i, *r1, *r2, *o, *f),
            Instr::Store(s, r, a, m) => SInstr::Store(*s, *r, *a, *m),
            Instr::Load(s, r, a) => SInstr::Load(*s, *r, a@),
            Instr::Multiply(a, b, c, d) => SInstr::Multiply(*a, *b, *c, *d),
        }
    }
}

impl View for Directive {
    type V = SDirective;

    open spec fn view(&self) -> SDirective {
        match self {
            Directive::Text => SDirective::Text,
            Directive::Data => SDirective::Data,
            Directive::Assemble => SDirective::Assemble,
            Directive::Label(l) => SDirective::Label(l@),
            Directive::Word(n) => SDirective::Word(*n),
            Directive::Ascii(a) => SDirective::Ascii(a@),
        }
    }
}

impl View for Asm {
    type V = SAsm;

    open spec fn view(&self) -> SAsm {
        match self {
            Asm::Directive(d) => SAsm::Directive(d@),
            Asm::Instr(c, i) => SAsm::Instr(*c, i@),
        }
    }
}

/// The lines of a piece of assembly, by value.
pub open spec fn lines(v: Seq<Asm>) -> Seq<SAsm> {
    v.map_values(|a: Asm| a@)
}

/* ======== Represents entire program. ======== */

#[derive(PartialEq, Debug)]
pub struct GeneratedCode {
    pub data: Vec<Asm>,
    pub text: Vec<Asm>,
    pub required_predefs: Vec<RequiredPredefs>,
    pub next_anon: u32,
    pub next_label: u32,
    pub next_msg: u32,
}

/// The label of the n-th message.
pub open spec fn msg_label(n: nat) -> Seq<char> {
    "msg_"@ + int_str(n as int)
}

/// The data lines of the n-th message: its label, its length in bytes, and
/// its text with escape sequences.
pub open spec fn msg_lines(n: nat, content: &str) -> Seq<SAsm> {
    seq![
        SAsm::Directive(SDirective::Label(msg_label(n))),
        SAsm::Directive(SDirective::Word(content.spec_bytes().len() as usize)),
        SAsm::Directive(SDirective::Ascii(escaped(content@))),
    ]
}

/// The escape sequence that stands for a character in the assembly text, if
/// it needs one.
pub open spec fn escape_of(ch: char) -> Option<Seq<char>> {
    if ch == '\0' {
        Some("\\0"@)
    } else if ch == '\u{8}' {
        Some("\\b"@)
    } else if ch == '\t' {
        Some("\\t"@)
    } else if ch == '\n' {
        Some("\\n"@)
    } else if ch == '\u{c}' {
        Some("\\f"@)
    } else if ch == '\r' {
        Some("\\r"@)
    } else if ch == '"' {
        Some("\\\""@)
    } else if ch == '\'' {
        Some("\\'"@)
    } else if ch == '\\' {
        Some("\\\\"@)
    } else {
        None
    }
}

/// A string as it is written inside quotes in the assembly text: each
/// character that needs one replaced by its escape sequence.
pub open spec fn escaped(s: Seq<char>) -> Seq<char>
    decreases s.len(),
{
    if s.len() == 0 {
        Seq::empty()
    } else {
        escaped(s.drop_last()) + match escape_of(s.last()) {
            Some(e) => e,
            None => seq![s.last()],
        }
    }
}

/// The escape sequence of a character, for characters that need one.
pub fn unescape_char(ch: char) -> (r: Option<&'static str>)
    ensures
        match r {
            Some(e) => escape_of(ch) == Some(e@),
            None => escape_of(ch) is None,
        },
{
    let r = if ch == '\0' {
        Some("\\0")
    } else if ch == '\u{8}' {
        Some("\\b")
    } else if ch == '\t' {
        Some("\\t")
    } else if ch == '\n' {
        Some("\\n")
    } else if ch == '\u{c}' {
        Some("\\f")
    } else if ch == '\r' {
        Some("\\r")
    } else if ch == '"' {
        Some("\\\"")
    } else if ch == '\'' {
        Some("\\'")
    } else if ch == '\\' {
        Some("\\\\")
    } else {
        None
    };
    proof {
        reveal_strlit("\\0");
        reveal_strlit("\\b");
        reveal_strlit("\\t");
        reveal_strlit("\\n");
        reveal_strlit("\\f");
        reveal_strlit("\\r");
        reveal_strlit("\\\"");
        reveal_strlit("\\'");
        reveal_strlit("\\\\");
    }
    r
}

/* Returns the string as it is to be written in the assembly code, e.g. a
newline becomes a backslash followed by 'n'. */
fn unescaped_string(s: &str) -> (r: String)
    ensures
        r@ == escaped(s@),
{
    let mut out = String::new();
    let n = s.unicode_len();
    let mut i: usize = 0;
    while i < n
        invariant
            n == s@.len(),
            i <= n,
            out@ == escaped(s@.take(i as int)),
        decreases n - i,
    {
        let ch = s.get_char(i);
        proof {
            assert(s@.take(i + 1).drop_last() =~= s@.take(i as int));
            assert(s@.take(i + 1).last() == ch);
        }
        match unescape_char(ch) {
            Some(e) => push_str(&mut out, e),
            None => push_char(&mut out, ch),
        }
        proof {
            assert(out@ =~= escaped(s@.take(i + 1)));
        }
        i = i + 1;
    }
    proof {
        assert(s@.take(n as int) =~= s@);
    }
    out
}

impl GeneratedCode {
    /// How many labels have been handed out.
    pub open spec fn labels_made(self) -> nat {
        self.next_label as nat
    }

    /// How many messages have been added.
    pub open spec fn msgs_made(self) -> nat {
        self.next_msg as nat
    }

    /// A fresh label, "L{n}" for the n-th call.
    pub fn get_label(&mut self) -> (r: Label)
        requires
            old(self).labels_made() < u32::MAX,
        ensures
            r@ == seq!['L'] + int_str(old(self).labels_made() as int),
            final(self).labels_made() == old(self).labels_made() + 1,
            final(self).msgs_made() == old(self).msgs_made(),
            final(self).data == old(self).data,
            final(self).text == old(self).text,
            final(self).required_predefs == old(self).required_predefs,
    {
        let s = concat_num("L", self.next_label as i64);
        proof {
            reveal_strlit("L");
        }
        self.next_label = self.next_label + 1;
        s
    }

    /// Adds a message to the data segment and returns its label,
    /// "msg_{n}" for the n-th message: the label, the message's length in
    /// bytes, and its text with escape sequences.
    pub fn get_msg(&mut self, content: &str) -> (r: Label)
        requires
            old(self).msgs_made() < u32::MAX,
        ensures
            r@ == msg_label(old(self).msgs_made()),
            lines(final(self).data@) == lines(old(self).data@) + msg_lines(old(self).msgs_made(), content),
            final(self).msgs_made() == old(self).msgs_made() + 1,
            final(self).labels_made() == old(self).labels_made(),
            final(self).text == old(self).text,
            final(self).required_predefs == old(self).required_predefs,
            final(self).next_anon == old(self).next_anon,
    {
        let label = concat_num("msg_", self.next_msg as i64);
        self.next_msg = self.next_msg + 1;
        let escaped_content = unescaped_string(content);
        /* msg_0: */
        self.data.push(Asm::Directive(Directive::Label(label.clone())));
        /* .word 4 */
        self.data.push(Asm::Directive(Directive::Word(content.len())));
        /* .ascii "%c\0" */
        self.data.push(Asm::Directive(Directive::Ascii(escaped_content)));
        proof {
            assert(lines(self.data@) =~= lines(old(self).data@) + msg_lines(old(self).msgs_made(), content));
        }
        label
    }

    /// Adds a line at the end of the text segment.
    pub fn emit(&mut self, a: Asm)
        ensures
            lines(final(self).text@) == lines(old(self).text@).push(a@),
            final(self).data == old(self).data,
            final(self).required_predefs == old(self).required_predefs,
            final(self).next_anon == old(self).next_anon,
            final(self).next_label == old(self).next_label,
            final(self).next_msg == old(self).next_msg,
    {
        let ghost av = a@;
        self.text.push(a);
        assert(lines(self.text@) =~= lines(old(self).text@).push(av));
    }

    /// An empty program: a data segment and a text segment, each with only
    /// its directive.
    pub fn new() -> (r: GeneratedCode)
        ensures
            r.data@ == seq![Asm::Directive(Directive::Data)],
            r.text@ == seq![Asm::Directive(Directive::Text)],
            r.required_predefs@.len() == 0,
            r.labels_made() == 0,
            r.msgs_made() == 0,
    {
        GeneratedCode {
            data: vec![Asm::Directive(Directive::Data)],
            text: vec![Asm::Directive(Directive::Text)],
            required_predefs: Vec::new(),
            next_label: 0,
            next_msg: 0,
            next_anon: 0,
        }
    }
}

impl Default for GeneratedCode {
    fn default() -> (r: GeneratedCode)
        ensures
            r.data@ == seq![Asm::Directive(Directive::Data)],
            r.text@ == seq![Asm::Directive(Directive::Text)],
            r.required_predefs@.len() == 0,
            r.labels_made() == 0,
            r.msgs_made() == 0,
    {
        GeneratedCode::new()
    }
}

/* ======== Registers an instruction reads and writes ======== */

/// The virtual register a register is, as a set of at most one number.
pub open spec fn virt(r: Reg) -> Set<VegNum> {
    match r {
        Reg::Virtual(v) => set![v],
        _ => Set::empty(),
    }
}

/// The virtual registers a line reads.
pub open spec fn uses_spec(a: Asm) -> Set<VegNum> {
    match a {
        Asm::Instr(_, i) => match i {
            /* Binary uses two registers if its second operand is a register. */
            Instr::Binary(_, _, r1, Op2::Reg(r2, _), _) => virt(r1) + virt(r2),
            /* Store and multiply always use two registers. */
            Instr::Store(_, r1, (r2, _), _) => virt(r1) + virt(r2),
            Instr::Multiply(_, _, r1, r2) => virt(r1) + virt(r2),
            /* Push and BranchReg always use one register. */
            Instr::Push(r) => virt(r),
            Instr::BranchReg(_, r) => virt(r),
            /* Unary uses a register if its operand is a register. */
            Instr::Unary(UnaryInstr::Mov, _, Op2::Reg(r, _), _) => virt(r),
            Instr::Unary(UnaryInstr::Cmp, r1, Op2::Reg(r2, _), _) => virt(r1) + virt(r2),
            Instr::Unary(UnaryInstr::Cmp, r1, _, _) => virt(r1),
            /* Otherwise binary reads its source register alone. */
            Instr::Binary(_, _, r, _, _) => virt(r),
            /* Load uses a register if the address is held in one. */
            Instr::Load(_, _, LoadArg::MemAddress(r, _)) => virt(r),
            _ => Set::empty(),
        },
        _ => Set::empty(),
    }
}

/// The virtual registers a line writes.
pub open spec fn defines_spec(a: Asm) -> Set<VegNum> {
    match a {
        Asm::Instr(_, i) => match i {
            Instr::Pop(r) => virt(r),
            Instr::Unary(UnaryInstr::Mov, r, _, _) => virt(r),
            Instr::Binary(_, r, _, _, _) => virt(r),
            Instr::Load(_, r, _) => virt(r),
            /* Multiply always writes to two registers. */
            Instr::Multiply(r1, r2, _, _) => virt(r1) + virt(r2),
            _ => Set::empty(),
        },
        _ => Set::empty(),
    }
}

/// How a character is written inside the quotes of a string in the
/// assembly text: its escape sequence, or itself.
pub open spec fn written_char(ch: char) -> Seq<char> {
    match escape_of(ch) {
        Some(e) => e,
        None => seq![ch],
    }
}

/// A character written as in the assembly text's strings reads back as
/// that same character by the parser's character reader, whatever
/// follows it.
pub proof fn law_escape_round_trip(ch: char, rest: Seq<char>)
    ensures
        crate::parser::expr::character_spec(written_char(ch) + rest, 0) == Some((ch, written_char(ch).len() as int)),
{
    reveal_strlit("\\0");
    reveal_strlit("\\b");
    reveal_strlit("\\t");
    reveal_strlit("\\n");
    reveal_strlit("\\f");
    reveal_strlit("\\r");
    reveal_strlit("\\\"");
    reveal_strlit("\\'");
    reveal_strlit("\\\\");
    let w = written_char(ch) + rest;
    if escape_of(ch) is Some {
        assert(w[0] == '\\');
    } else {
        assert(w[0] == ch);
    }
}

fn add_virt(set: &mut std::collections::HashSet<VegNum>, r: Reg)
    ensures
        final(set)@ == old(set)@ + virt(r),
{
    match r {
        Reg::Virtual(v) => {
            set.insert(v);
            assert(final(set)@ =~= old(set)@ + virt(r));
        },
        _ => {
            assert(old(set)@ + virt(r) =~= old(set)@);
        },
    }
}

/* ======== Shortcuts ======== */

impl Asm {
    /* Returns the set of virtual registers this instruction reads. */
    pub fn uses(&mut self) -> (r: std::collections::HashSet<VegNum>)
        ensures
            r@ == uses_spec(*old(self)),
            *final(self) == *old(self),
    {
        let mut v = std::collections::HashSet::new();
        match self {
            Asm::Instr(_, i) => match i {
                Instr::Binary(_, _, r1, Op2::Reg(r2, _), _) => {
                    add_virt(&mut v, *r1);
                    add_virt(&mut v, *r2);
                },
                Instr::Store(_, r1, (r2, _), _) => {
                    add_virt(&mut v, *r1);
                    add_virt(&mut v, *r2);
                },
                Instr::Multiply(_, _, r1, r2) => {
                    add_virt(&mut v, *r1);
                    add_virt(&mut v, *r2);
                },
                Instr::Push(r) => add_virt(&mut v, *r),
                Instr::BranchReg(_, r) => add_virt(&mut v, *r),
                Instr::Unary(UnaryInstr::Mov, _, Op2::Reg(r, _), _) => add_virt(&mut v, *r),
                Instr::Unary(UnaryInstr::Cmp, r1, Op2::Reg(r2, _), _) => {
                    add_virt(&mut v, *r1);
                    add_virt(&mut v, *r2);
                },
                Instr::Unary(UnaryInstr::Cmp, r1, _, _) => add_virt(&mut v, *r1),
                Instr::Binary(_, _, r, _, _) => add_virt(&mut v, *r),
                Instr::Load(_, _, LoadArg::MemAddress(r, _)) => add_virt(&mut v, *r),
                _ => {},
            },
            _ => {},
        }
        proof {
            assert(v@ =~= uses_spec(*old(self)));
        }
        v
    }

    /* Returns the set of virtual registers this instruction writes. */
    pub fn defines(&mut self) -> (r: std::collections::HashSet<VegNum>)
        ensures
            r@ == defines_spec(*old(self)),
            *final(self) == *old(self),
    {
        let mut v = std::collections::HashSet::new();
        match self {
            Asm::Instr(_, i) => match i {
                Instr::Pop(r) => add_virt(&mut v, *r),
                Instr::Unary(UnaryInstr::Mov, r, _, _) => add_virt(&mut v, *r),
                Instr::Binary(_, r, _, _, _) => add_virt(&mut v, *r),
                Instr::Load(_, r, _) => add_virt(&mut v, *r),
                Instr::Multiply(r1, r2, _, _) => {
                    add_virt(&mut v, *r1);
                    add_virt(&mut v, *r2);
                },
                _ => {},
            },
            _ => {},
        }
        proof {
            assert(v@ =~= defines_spec(*old(self)));
        }
        v
    }

    /* ==== Modifiers: these change an instruction already built. ==== */

    /// The instruction with its condition code replaced.
    pub fn cond(self, cond: CondCode) -> (r: Self)
        requires
            self is Instr,
        ensures
            r == Asm::Instr(cond, self->Instr_1),
    {
        match self {
            Asm::Instr(_, i) => Asm::Instr(cond, i),
            d => d,
        }
    }

    pub fn eq(self) -> (r: Self)
        requires
            self is Instr,
        ensures
            r == Asm::Instr(CondCode::EQ, self->Instr_1),
    {
        self.cond(CondCode::EQ)
    }

    pub fn ne(self) -> (r: Self)
        requires
            self is Instr,
        ensures
            r == Asm::Instr(CondCode::NE, self->Instr_1),
    {
        self.cond(CondCode::NE)
    }

    pub fn cs(self) -> (r: Self)
        requires
            self is Instr,
        ensures
            r == Asm::Instr(CondCode::CS, self->Instr_1),
    {
        self.cond(CondCode::CS)
    }

    pub fn vs(self) -> (r: Self)
        requires
            self is Instr,
        ensures
            r == Asm::Instr(CondCode::VS, self->Instr_1),
    {
        self.cond(CondCode::VS)
    }

    pub fn ge(self) -> (r: Self)
        requires
            self is Instr,
        ensures
            r == Asm::Instr(CondCode::GE, self->Instr_1),
    {
        self.cond(CondCode::GE)
    }

    pub fn lt(self) -> (r: Self)
        requires
            self is Instr,
        ensures
            r == Asm::Instr(CondCode::LT, self->Instr_1),
    {
        self.cond(CondCode::LT)
    }

    pub fn gt(self) -> (r: Self)
        requires
            self is Instr,
        ensures
            r == Asm::Instr(CondCode::GT, self->Instr_1),
    {
        self.cond(CondCode::GT)
    }

    pub fn le(self) -> (r: Self)
        requires
            self is Instr,
        ensures
            r == Asm::Instr(CondCode::LE, self->Instr_1),
    {
        self.cond(CondCode::LE)
    }

    pub fn al(self) -> (r: Self)
        requires
            self is Instr,
        ensures
            r == Asm::Instr(CondCode::AL, self->Instr_1),
    {
        self.cond(CondCode::AL)
    }

    /// A branch that links.
    pub fn link(self) -> (r: Self)
        requires
            self matches Asm::Instr(_, i) && (i is Branch || i is BranchReg),
        ensures
            match self {
                Asm::Instr(c, Instr::Branch(_, l)) => r == Asm::Instr(c, Instr::Branch(true, l)),
                Asm::Instr(c, Instr::BranchReg(_, reg)) => r == Asm::Instr(c, Instr::BranchReg(true, reg)),
                _ => false,
            },
    {
        match self {
            Asm::Instr(c, Instr::Branch(_, l)) => Asm::Instr(c, Instr::Branch(true, l)),
            Asm::Instr(c, Instr::BranchReg(_, reg)) => Asm::Instr(c, Instr::BranchReg(true, reg)),
            other => other,
        }
    }

    /// A store that writes back the address it computed.
    pub fn pre_indexed(self) -> (r: Self)
        requires
            self matches Asm::Instr(_, i) && i is Store,
        ensures
            match self {
                Asm::Instr(c, Instr::Store(s, r1, a, _)) => r == Asm::Instr(
                    c,
                    Instr::Store(s, r1, a, AddressingMode::PreIndexed),
                ),
                _ => false,
            },
    {
        match self {
            Asm::Instr(c, Instr::Store(s, r1, a, _)) => Asm::Instr(c, Instr::Store(s, r1, a, AddressingMode::PreIndexed)),
            other => other,
        }
    }

    /// A load or store of the given size.
    pub fn size(self, size: DataSize) -> (r: Self)
        requires
            self matches Asm::Instr(_, i) && (i is Store || i is Load),
        ensures
            match self {
                Asm::Instr(c, Instr::Store(_, r1, a, m)) => r == Asm::Instr(c, Instr::Store(size, r1, a, m)),
                Asm::Instr(c, Instr::Load(_, r1, a)) => r == Asm::Instr(c, Instr::Load(size, r1, a)),
                _ => false,
            },
    {
        match self {
            Asm::Instr(c, Instr::Store(_, r1, a, m)) => Asm::Instr(c, Instr::Store(size, r1, a, m)),
            Asm::Instr(c, Instr::Load(_, r1, a)) => Asm::Instr(c, Instr::Load(size, r1, a)),
            other => other,
        }
    }

    /// A load or store of a single byte.
    pub fn byte(self) -> (r: Self)
        requires
            self matches Asm::Instr(_, i) && (i is Store || i is Load),
        ensures
            match self {
                Asm::Instr(c, Instr::Store(_, r1, a, m)) => r == Asm::Instr(c, Instr::Store(DataSize::Byte, r1, a, m)),
                Asm::Instr(c, Instr::Load(_, r1, a)) => r == Asm::Instr(c, Instr::Load(DataSize::Byte, r1, a)),
                _ => false,
            },
    {
        self.size(DataSize::Byte)
    }

    /// A unary or binary instruction that sets the flags.
    pub fn flags(self) -> (r: Self)
        requires
            self matches Asm::Instr(_, i) && (i is Unary || i is Binary),
        ensures
            match self {
                Asm::Instr(c, Instr::Unary(i, r1, o, _)) => r == Asm::Instr(c, Instr::Unary(i, r1, o, true)),
                Asm::Instr(c, Instr::Binary(i, r1, r2, o, _)) => r == Asm::Instr(
                    c,
                    Instr::Binary(i, r1, r2, o, true),
                ),
                _ => false,
            },
    {
        match self {
            Asm::Instr(c, Instr::Unary(i, r1, o, _)) => Asm::Instr(c, Instr::Unary(i, r1, o, true)),
            Asm::Instr(c, Instr::Binary(i, r1, r2, o, _)) => Asm::Instr(c, Instr::Binary(i, r1, r2, o, true)),
            other => other,
        }
    }

    /* ==== Instructions, always executed. ==== */

    pub fn instr(i: Instr) -> (r: Self)
        ensures
            r == Asm::Instr(CondCode::AL, i),
    {
        Asm::Instr(CondCode::AL, i)
    }

    pub fn push(reg: Reg) -> (r: Self)
        ensures
            r == Asm::Instr(CondCode::AL, Instr::Push(reg)),
    {
        Self::instr(Instr::Push(reg))
    }

    pub fn pop(reg: Reg) -> (r: Self)
        ensures
            r == Asm::Instr(CondCode::AL, Instr::Pop(reg)),
    {
        Self::instr(Instr::Pop(reg))
    }

    pub fn b(label: Label) -> (r: Self)
        ensures
            r == Asm::Instr(CondCode::AL, Instr::Branch(false, label)),
    {
        Self::instr(Instr::Branch(false, label))
    }

    pub fn bx(reg: Reg) -> (r: Self)
        ensures
            r == Asm::Instr(CondCode::AL, Instr::BranchReg(false, reg)),
    {
        Self::instr(Instr::BranchReg(false, reg))
    }

    fn unary(unary_instr: UnaryInstr, reg: Reg, op2: Op2) -> (r: Self)
        ensures
            r == Asm::Instr(CondCode::AL, Instr::Unary(unary_instr, reg, op2, false)),
    {
        Self::instr(Instr::Unary(unary_instr, reg, op2, false))
    }

    pub fn mov(reg: Reg, op2: Op2) -> (r: Self)
        ensures
            r == Asm::Instr(CondCode::AL, Instr::Unary(UnaryInstr::Mov, reg, op2, false)),
    {
        Self::unary(UnaryInstr::Mov, reg, op2)
    }

    pub fn cmp(reg: Reg, op2: Op2) -> (r: Self)
        ensures
            r == Asm::Instr(CondCode::AL, Instr::Unary(UnaryInstr::Cmp, reg, op2, false)),
    {
        Self::unary(UnaryInstr::Cmp, reg, op2)
    }

    fn binary(binary_instr: BinaryInstr, r1: Reg, r2: Reg, op2: Op2) -> (r: Self)
        ensures
            r == Asm::Instr(CondCode::AL, Instr::Binary(binary_instr, r1, r2, op2, false)),
    {
        Self::instr(Instr::Binary(binary_instr, r1, r2, op2, false))
    }

    pub fn add(r1: Reg, r2: Reg, op2: Op2) -> (r: Self)
        ensures
            r == Asm::Instr(CondCode::AL, Instr::Binary(BinaryInstr::Add, r1, r2, op2, false)),
    {
        Self::binary(BinaryInstr::Add, r1, r2, op2)
    }

    pub fn sub(r1: Reg, r2: Reg, op2: Op2) -> (r: Self)
        ensures
            r == Asm::Instr(CondCode::AL, Instr::Binary(BinaryInstr::Sub, r1, r2, op2, false)),
    {
        Self::binary(BinaryInstr::Sub, r1, r2, op2)
    }

    pub fn rev_sub(r1: Reg, r2: Reg, op2: Op2) -> (r: Self)
        ensures
            r == Asm::Instr(CondCode::AL, Instr::Binary(BinaryInstr::RevSub, r1, r2, op2, false)),
    {
        Self::binary(BinaryInstr::RevSub, r1, r2, op2)
    }

    pub fn and(r1: Reg, r2: Reg, op2: Op2) -> (r: Self)
        ensures
            r == Asm::Instr(CondCode::AL, Instr::Binary(BinaryInstr::And, r1, r2, op2, false)),
    {
        Self::binary(BinaryInstr::And, r1, r2, op2)
    }

    pub fn or(r1: Reg, r2: Reg, op2: Op2) -> (r: Self)
        ensures
            r == Asm::Instr(CondCode::AL, Instr::Binary(BinaryInstr::Or, r1, r2, op2, false)),
    {
        Self::binary(BinaryInstr::Or, r1, r2, op2)
    }

    pub fn eor(r1: Reg, r2: Reg, op2: Op2) -> (r: Self)
        ensures
            r == Asm::Instr(CondCode::AL, Instr::Binary(BinaryInstr::Eor, r1, r2, op2, false)),
    {
        Self::binary(BinaryInstr::Eor, r1, r2, op2)
    }

    /// Stores a word from `r1` at the address in `r2` plus `offset`.
    pub fn str(r1: Reg, addr: (Reg, Offset)) -> (r: Self)
        ensures
            r == Asm::Instr(CondCode::AL, Instr::Store(DataSize::Word, r1, addr, AddressingMode::Default)),
    {
        Self::instr(Instr::Store(DataSize::Word, r1, addr, AddressingMode::Default))
    }

    /// Loads a word into `r1`.
    pub fn ldr(r1: Reg, arg: LoadArg) -> (r: Self)
        ensures
            r == Asm::Instr(CondCode::AL, Instr::Load(DataSize::Word, r1, arg)),
    {
        Self::instr(Instr::Load(DataSize::Word, r1, arg))
    }

    pub fn smull(r1: Reg, r2: Reg, r3: Reg, r4: Reg) -> (r: Self)
        ensures
            r == Asm::Instr(CondCode::AL, Instr::Multiply(r1, r2, r3, r4)),
    {
        Self::instr(Instr::Multiply(r1, r2, r3, r4))
    }
}

/* ======== Rewriting the registers of a line ======== */

/// `b` stands where `a` stood: a virtual register is replaced by what `f`
/// gives for it, any other register stays.
pub open spec fn reg_mapped<F: Fn(Reg) -> Reg>(a: Reg, b: Reg, f: F) -> bool {
    if a is Virtual {
        f.ensures((a,), b)
    } else {
        b == a
    }
}

/// `b` is the line `a` with the registers it reads (those of `uses_spec`)
/// rewritten by `f`, and nothing else changed.
pub open spec fn uses_mapped<F: Fn(Reg) -> Reg>(a: Asm, b: Asm, f: F) -> bool {
    match a {
        Asm::Instr(c, i) => match i {
            Instr::Binary(op, d, r1, Op2::Reg(r2, sh), fl) => b matches Asm::Instr(
                c2,
                Instr::Binary(op2, d2, q1, Op2::Reg(q2, sh2), fl2),
            ) && c2 == c && op2 == op && d2 == d && sh2 == sh && fl2 == fl && reg_mapped(r1, q1, f) && reg_mapped(
                r2,
                q2,
                f,
            ),
            Instr::Store(sz, r1, (r2, off), am) => b matches Asm::Instr(c2, Instr::Store(sz2, q1, (q2, off2), am2))
                && c2 == c && sz2 == sz && off2 == off && am2 == am && reg_mapped(r1, q1, f) && reg_mapped(r2, q2, f),
            Instr::Multiply(x, y, r1, r2) => b matches Asm::Instr(c2, Instr::Multiply(x2, y2, q1, q2)) && c2 == c
                && x2 == x && y2 == y && reg_mapped(r1, q1, f) && reg_mapped(r2, q2, f),
            Instr::Push(r) => b matches Asm::Instr(c2, Instr::Push(q)) && c2 == c && reg_mapped(r, q, f),
            Instr::BranchReg(l, r) => b matches Asm::Instr(c2, Instr::BranchReg(l2, q)) && c2 == c && l2 == l
                && reg_mapped(r, q, f),
            Instr::Unary(UnaryInstr::Mov, d, Op2::Reg(r, sh), fl) => b matches Asm::Instr(
                c2,
                Instr::Unary(UnaryInstr::Mov, d2, Op2::Reg(q, sh2), fl2),
            ) && c2 == c && d2 == d && sh2 == sh && fl2 == fl && reg_mapped(r, q, f),
            Instr::Unary(UnaryInstr::Cmp, r1, Op2::Reg(r2, sh), fl) => b matches Asm::Instr(
                c2,
                Instr::Unary(UnaryInstr::Cmp, q1, Op2::Reg(q2, sh2), fl2),
            ) && c2 == c && sh2 == sh && fl2 == fl && reg_mapped(r1, q1, f) && reg_mapped(r2, q2, f),
            Instr::Unary(UnaryInstr::Cmp, r1, o, fl) => b matches Asm::Instr(
                c2,
                Instr::Unary(UnaryInstr::Cmp, q1, o2, fl2),
            ) && c2 == c && o2 == o && fl2 == fl && reg_mapped(r1, q1, f),
            Instr::Binary(op, x, r, o, fl) => b matches Asm::Instr(c2, Instr::Binary(op2, x2, q, o2, fl2)) && c2
                == c && op2 == op && x2 == x && o2 == o && fl2 == fl && reg_mapped(r, q, f),
            Instr::Load(sz, d, LoadArg::MemAddress(r, off)) => b matches Asm::Instr(
                c2,
                Instr::Load(sz2, d2, LoadArg::MemAddress(q, off2)),
            ) && c2 == c && sz2 == sz && d2 == d && off2 == off && reg_mapped(r, q, f),
            _ => b == a,
        },
        _ => b == a,
    }
}

/// `b` is the line `a` with the registers it writes (those of
/// `defines_spec`) rewritten by `f`, and nothing else changed.
pub open spec fn defines_mapped<F: Fn(Reg) -> Reg>(a: Asm, b: Asm, f: F) -> bool {
    match a {
        Asm::Instr(c, i) => match i {
            Instr::Pop(r) => b matches Asm::Instr(c2, Instr::Pop(q)) && c2 == c && reg_mapped(r, q, f),
            Instr::Unary(UnaryInstr::Mov, r, o, fl) => b matches Asm::Instr(
                c2,
                Instr::Unary(UnaryInstr::Mov, q, o2, fl2),
            ) && c2 == c && o2 == o && fl2 == fl && reg_mapped(r, q, f),
            Instr::Binary(op, r, x, o, fl) => b matches Asm::Instr(c2, Instr::Binary(op2, q, x2, o2, fl2)) && c2
                == c && op2 == op && x2 == x && o2 == o && fl2 == fl && reg_mapped(r, q, f),
            Instr::Load(sz, r, arg) => b matches Asm::Instr(c2, Instr::Load(sz2, q, arg2)) && c2 == c && sz2 == sz
                && arg2 == arg && reg_mapped(r, q, f),
            Instr::Multiply(r1, r2, x, y) => b matches Asm::Instr(c2, Instr::Multiply(q1, q2, x2, y2)) && c2 == c
                && x2 == x && y2 == y && reg_mapped(r1, q1, f) && reg_mapped(r2, q2, f),
            _ => b == a,
        },
        _ => b == a,
    }
}

/* Calls f on a register if it is a virtual one. */
fn map_reg<F: Fn(Reg) -> Reg>(r: Reg, f: &F) -> (out: Reg)
    requires
        r is Virtual ==> f.requires((r,)),
    ensures
        reg_mapped(r, out, *f),
{
    match r {
        Reg::Virtual(_) => f(r),
        _ => r,
    }
}

impl Asm {
    /* Rewrites, with f, the virtual registers this instruction reads. */
    pub fn map_uses<F: Fn(Reg) -> Reg>(&mut self, f: F)
        requires
            forall|r: Reg| r is Virtual ==> f.requires((r,)),
        ensures
            uses_mapped(*old(self), *final(self), f),
    {
        let new_line = match &*self {
            Asm::Instr(c, i) => match i {
                /* Binary uses two registers if its second operand is a register. */
                Instr::Binary(op, d, r1, Op2::Reg(r2, sh), fl) => Asm::Instr(
                    *c,
                    Instr::Binary(*op, *d, map_reg(*r1, &f), Op2::Reg(map_reg(*r2, &f), *sh), *fl),
                ),
                /* Store and multiply always use two registers. */
                Instr::Store(sz, r1, (r2, off), am) => Asm::Instr(
                    *c,
                    Instr::Store(*sz, map_reg(*r1, &f), (map_reg(*r2, &f), *off), *am),
                ),
                Instr::Multiply(x, y, r1, r2) => Asm::Instr(
                    *c,
                    Instr::Multiply(*x, *y, map_reg(*r1, &f), map_reg(*r2, &f)),
                ),
                /* Push and BranchReg always use one register. */
                Instr::Push(r) => Asm::Instr(*c, Instr::Push(map_reg(*r, &f))),
                Instr::BranchReg(l, r) => Asm::Instr(*c, Instr::BranchReg(*l, map_reg(*r, &f))),
                /* Unary uses a register if its operand is a register. */
                Instr::Unary(UnaryInstr::Mov, d, Op2::Reg(r, sh), fl) => Asm::Instr(
                    *c,
                    Instr::Unary(UnaryInstr::Mov, *d, Op2::Reg(map_reg(*r, &f), *sh), *fl),
                ),
                Instr::Unary(UnaryInstr::Cmp, r1, Op2::Reg(r2, sh), fl) => Asm::Instr(
                    *c,
                    Instr::Unary(UnaryInstr::Cmp, map_reg(*r1, &f), Op2::Reg(map_reg(*r2, &f), *sh), *fl),
                ),
                Instr::Unary(UnaryInstr::Cmp, r1, o, fl) => Asm::Instr(
                    *c,
                    Instr::Unary(UnaryInstr::Cmp, map_reg(*r1, &f), *o, *fl),
                ),
                /* Otherwise binary uses its first register. */
                Instr::Binary(op, x, r, o, fl) => Asm::Instr(*c, Instr::Binary(*op, *x, map_reg(*r, &f), *o, *fl)),
                /* Load uses a register if the address is held in one. */
                Instr::Load(sz, d, LoadArg::MemAddress(r, off)) => Asm::Instr(
                    *c,
                    Instr::Load(*sz, *d, LoadArg::MemAddress(map_reg(*r, &f), *off)),
                ),
                _ => self.clone(),
            },
            _ => self.clone(),
        };
        *self = new_line;
    }

    /* Rewrites, with f, the virtual registers this instruction writes. */
    pub fn map_defines<F: Fn(Reg) -> Reg>(&mut self, f: F)
        requires
            forall|r: Reg| r is Virtual ==> f.requires((r,)),
        ensures
            defines_mapped(*old(self), *final(self), f),
    {
        let new_line = match &*self {
            Asm::Instr(c, i) => match i {
                /* Pop always defines the register it writes to from the stack. */
                Instr::Pop(r) => Asm::Instr(*c, Instr::Pop(map_reg(*r, &f))),
                /* Unary, Binary and Load always define their output register. */
                Instr::Unary(UnaryInstr::Mov, r, o, fl) => Asm::Instr(
                    *c,
                    Instr::Unary(UnaryInstr::Mov, map_reg(*r, &f), *o, *fl),
                ),
                Instr::Binary(op, r, x, o, fl) => Asm::Instr(*c, Instr::Binary(*op, map_reg(*r, &f), *x, *o, *fl)),
                Instr::Load(sz, r, arg) => Asm::Instr(*c, Instr::Load(*sz, map_reg(*r, &f), arg.clone())),
                /* Multiply always writes to two registers. */
                Instr::Multiply(r1, r2, x, y) => Asm::Instr(
                    *c,
                    Instr::Multiply(map_reg(*r1, &f), map_reg(*r2, &f), *x, *y),
                ),
                _ => self.clone(),
            },
            _ => self.clone(),
        };
        *self = new_line;
    }
}

} // verus!
