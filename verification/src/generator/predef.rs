use vstd::prelude::*;

use super::arm::{
    lines, msg_label, msg_lines, ArgReg, Asm, BinaryInstr, CondCode, DataSize, Directive, GeneratedCode,
    Instr, LoadArg, Op2, Reg, SAsm, SDirective, SInstr, SLoadArg, UnaryInstr,
};
use crate::text::to_string;

verus! {

#[derive(PartialEq, Eq, Structural, Debug, Clone, Copy)]
pub enum RequiredPredefs {
    PrintInt,
    PrintString,
    PrintBool,
    PrintChar,
    PrintRefs,
    PrintLn,
    ReadChar,
    ReadInt,
    FreePair,
    FreeArray,
    RuntimeError,
    OverflowError,
    DivideByZeroError,
    ArrayBoundsError,
    CheckNullPointer,
}

/// The predefined functions after marking `p` as required: added at the
/// end unless it is already there.
pub open spec fn marked(ps: Seq<RequiredPredefs>, p: RequiredPredefs) -> Seq<RequiredPredefs> {
    if ps.contains(p) {
        ps
    } else {
        ps.push(p)
    }
}

impl RequiredPredefs {
    /* Records that the generated code needs this predefined function, if it
    did not already. */
    pub fn mark(self, code: &mut GeneratedCode)
        ensures
            final(code).required_predefs@ == marked(old(code).required_predefs@, self),
            final(code).data == old(code).data,
            final(code).text == old(code).text,
            final(code).next_anon == old(code).next_anon,
            final(code).next_label == old(code).next_label,
            final(code).next_msg == old(code).next_msg,
    {
        let mut i: usize = 0;
        let n = code.required_predefs.len();
        while i < n
            invariant
                n == code.required_predefs@.len(),
                i <= n,
                forall|j: int| 0 <= j < i ==> code.required_predefs@[j] != self,
            decreases n - i,
        {
            if code.required_predefs[i] == self {
                return;
            }
            i = i + 1;
        }
        code.required_predefs.push(self);
    }
}

/// Marking the same predefined function twice is the same as marking it
/// once.
pub proof fn law_mark_idempotent(ps: Seq<RequiredPredefs>, p: RequiredPredefs)
    ensures
        marked(marked(ps, p), p) == marked(ps, p),
{
    if !ps.contains(p) {
        assert(ps.push(p).contains(p)) by {
            assert(ps.push(p)[ps.len() as int] == p);
        }
    }
}

/// Marking keeps every predefined function at most once in the list.
pub proof fn law_mark_no_duplicates(ps: Seq<RequiredPredefs>, p: RequiredPredefs)
    requires
        ps.no_duplicates(),
    ensures
        marked(ps, p).no_duplicates(),
        marked(ps, p).contains(p),
{
    if !ps.contains(p) {
        let q = ps.push(p);
        assert(q[ps.len() as int] == p);
        assert forall|i: int, j: int| 0 <= i < q.len() && 0 <= j < q.len() && i != j implies q[i] != q[j] by {
            if i < ps.len() && j < ps.len() {
            } else if i == ps.len() {
                assert(q[j] == ps[j]);
                if q[j] == p {
                    assert(ps.contains(p));
                }
            } else {
                assert(q[i] == ps[i]);
                if q[i] == p {
                    assert(ps.contains(p));
                }
            }
        }
    }
}

/* ======== The predefined functions ======== */

pub open spec fn r0() -> Reg {
    Reg::Arg(ArgReg::R0)
}

pub open spec fn r1() -> Reg {
    Reg::Arg(ArgReg::R1)
}

pub open spec fn r2() -> Reg {
    Reg::Arg(ArgReg::R2)
}

/// A label line.
pub open spec fn label_line(l: Seq<char>) -> SAsm {
    SAsm::Directive(SDirective::Label(l))
}

/// An instruction line with a condition.
pub open spec fn cond_line(c: CondCode, i: SInstr) -> SAsm {
    SAsm::Instr(c, i)
}

/// An instruction line that is always executed.
pub open spec fn line(i: SInstr) -> SAsm {
    SAsm::Instr(CondCode::AL, i)
}

/// Loads the address of a label into r0.
pub open spec fn load_label_r0(c: CondCode, l: Seq<char>) -> SAsm {
    SAsm::Instr(c, SInstr::Load(DataSize::Word, r0(), SLoadArg::Label(l)))
}

/// r0 = r0 + 4: skips the length word of a message.
pub open spec fn skip_length() -> SAsm {
    line(SInstr::Binary(BinaryInstr::Add, r0(), r0(), Op2::Imm(4), false))
}

/// Calls printf on r0, then flushes the output and returns.
pub open spec fn printf_and_return() -> Seq<SAsm> {
    seq![
        line(SInstr::Branch(true, "printf"@)),
        line(SInstr::Unary(UnaryInstr::Mov, r0(), Op2::Imm(0), false)),
        line(SInstr::Branch(true, "fflush"@)),
        line(SInstr::Pop(Reg::PC)),
    ]
}

pub open spec fn print_string_text(msg: Seq<char>) -> Seq<SAsm> {
    seq![
        label_line("p_print_string"@),
        line(SInstr::Push(Reg::Link)),
        line(SInstr::Load(DataSize::Word, r1(), SLoadArg::MemAddress(r0(), 0))),
        line(SInstr::Binary(BinaryInstr::Add, r2(), r0(), Op2::Imm(4), false)),
        load_label_r0(CondCode::AL, msg),
        skip_length(),
    ] + printf_and_return()
}

pub open spec fn print_bool_text(msg_true: Seq<char>, msg_false: Seq<char>) -> Seq<SAsm> {
    seq![
        label_line("p_print_bool"@),
        line(SInstr::Push(Reg::Link)),
        line(SInstr::Unary(UnaryInstr::Cmp, r0(), Op2::Imm(0), false)),
        load_label_r0(CondCode::NE, msg_true),
        load_label_r0(CondCode::EQ, msg_false),
        skip_length(),
    ] + printf_and_return()
}

/// The label of the function printing ints (or references).
pub open spec fn print_label(is_ref: bool) -> Seq<char> {
    if is_ref {
        "p_print_reference"@
    } else {
        "p_print_int"@
    }
}

pub open spec fn print_int_or_ref_text(is_ref: bool, msg: Seq<char>) -> Seq<SAsm> {
    seq![
        label_line(print_label(is_ref)),
        line(SInstr::Push(Reg::Link)),
        line(SInstr::Unary(UnaryInstr::Mov, r1(), Op2::Reg(r0(), 0), false)),
        load_label_r0(CondCode::AL, msg),
        skip_length(),
    ] + printf_and_return()
}

pub open spec fn check_array_bounds_text(msg_negative: Seq<char>, msg_large: Seq<char>) -> Seq<SAsm> {
    seq![
        label_line("p_check_array_bounds"@),
        line(SInstr::Push(Reg::Link)),
        line(SInstr::Unary(UnaryInstr::Cmp, r0(), Op2::Imm(0), false)),
        load_label_r0(CondCode::LT, msg_negative),
        cond_line(CondCode::LT, SInstr::Branch(true, "p_throw_runtime_error"@)),
        line(SInstr::Load(DataSize::Word, r1(), SLoadArg::MemAddress(r1(), 0))),
        line(SInstr::Unary(UnaryInstr::Cmp, r0(), Op2::Reg(r1(), 0), false)),
        load_label_r0(CondCode::CS, msg_large),
        cond_line(CondCode::CS, SInstr::Branch(true, "p_throw_runtime_error"@)),
        line(SInstr::Pop(Reg::PC)),
    ]
}

/// The unsigned value of a 32-bit word.
pub open spec fn unsigned(a: i32) -> int {
    if a < 0 {
        a + 0x1_0000_0000
    } else {
        a as int
    }
}

/// Whether a condition holds after comparing `a` with `b` (`CMP a, b`).
pub open spec fn holds_after_cmp(c: CondCode, a: i32, b: i32) -> bool {
    match c {
        CondCode::EQ => a == b,
        CondCode::NE => a != b,
        CondCode::CS => unsigned(a) >= unsigned(b),
        CondCode::VS => !(i32::MIN <= a - b <= i32::MAX),
        CondCode::GE => a >= b,
        CondCode::LT => a < b,
        CondCode::GT => a > b,
        CondCode::LE => a <= b,
        CondCode::AL => true,
    }
}

/// The condition of a line.
pub open spec fn line_cond(a: SAsm) -> CondCode {
    match a {
        SAsm::Instr(c, _) => c,
        _ => CondCode::AL,
    }
}

/// The array bounds check compares the index in r0 with 0 and then with
/// the length it loads into r1 from the array's address, and throws the
/// runtime error exactly when the index is negative or not below the
/// length.
pub proof fn law_array_bounds(msg_negative: Seq<char>, msg_large: Seq<char>, index: i32, len: i32)
    requires
        len >= 0,
    ensures
        ({
            let t = check_array_bounds_text(msg_negative, msg_large);
            let throw = SInstr::Branch(true, "p_throw_runtime_error"@);
            &&& t[2] == line(SInstr::Unary(UnaryInstr::Cmp, r0(), Op2::Imm(0), false))
            &&& t[4] == cond_line(line_cond(t[4]), throw)
            &&& t[5] == line(SInstr::Load(DataSize::Word, r1(), SLoadArg::MemAddress(r1(), 0)))
            &&& t[6] == line(SInstr::Unary(UnaryInstr::Cmp, r0(), Op2::Reg(r1(), 0), false))
            &&& t[8] == cond_line(line_cond(t[8]), throw)
            &&& (holds_after_cmp(line_cond(t[4]), index, 0) || holds_after_cmp(line_cond(t[8]), index, len))
                <==> (index < 0 || index >= len)
        }),
{
}

/// The zero checks (division by zero, null pointer) compare their register
/// with 0 and throw the runtime error exactly when it holds zero: the
/// divisor in r1 for division, the reference in r0 for a null pointer.
pub proof fn law_zero_checks(n: nat, x: i32)
    ensures
        ({
            let throw = SInstr::Branch(true, "p_throw_runtime_error"@);
            let d = predef_text(RequiredPredefs::DivideByZeroError, n);
            let z = predef_text(RequiredPredefs::CheckNullPointer, n);
            &&& d[2] == line(SInstr::Unary(UnaryInstr::Cmp, r1(), Op2::Imm(0), false))
            &&& z[2] == line(SInstr::Unary(UnaryInstr::Cmp, r0(), Op2::Imm(0), false))
            &&& d[4] == cond_line(line_cond(d[4]), throw)
            &&& z[4] == cond_line(line_cond(z[4]), throw)
            &&& holds_after_cmp(line_cond(d[4]), x, 0) <==> x == 0
            &&& holds_after_cmp(line_cond(z[4]), x, 0) <==> x == 0
        }),
{
}

/// Freeing a pair or an array throws the runtime error exactly when the
/// reference in r0 is null, and frees it otherwise.
pub proof fn law_free_checks_null(msg: Seq<char>, x: i32)
    ensures
        ({
            let throw = SInstr::Branch(false, "p_throw_runtime_error"@);
            let a = free_array_text(msg);
            let p = free_pair_text(msg);
            &&& a[2] == line(SInstr::Unary(UnaryInstr::Cmp, r0(), Op2::Imm(0), false))
            &&& p[2] == line(SInstr::Unary(UnaryInstr::Cmp, r0(), Op2::Imm(0), false))
            &&& a[4] == cond_line(line_cond(a[4]), throw)
            &&& p[4] == cond_line(line_cond(p[4]), throw)
            &&& holds_after_cmp(line_cond(a[4]), x, 0) <==> x == 0
            &&& holds_after_cmp(line_cond(p[4]), x, 0) <==> x == 0
            &&& a[5] == line(SInstr::Branch(true, "free"@))
            &&& p[8] == line(SInstr::Branch(true, "free"@)) && p[10] == line(SInstr::Branch(true, "free"@))
        }),
{
}

/// Printing a boolean prints the message of true exactly when r0 is not
/// zero, and the message of false exactly when it is.
pub proof fn law_print_bool(msg_true: Seq<char>, msg_false: Seq<char>, x: i32)
    ensures
        ({
            let t = print_bool_text(msg_true, msg_false);
            &&& t[2] == line(SInstr::Unary(UnaryInstr::Cmp, r0(), Op2::Imm(0), false))
            &&& t[3] == load_label_r0(line_cond(t[3]), msg_true)
            &&& t[4] == load_label_r0(line_cond(t[4]), msg_false)
            &&& holds_after_cmp(line_cond(t[3]), x, 0) <==> x != 0
            &&& holds_after_cmp(line_cond(t[4]), x, 0) <==> x == 0
        }),
{
}

/// The message text, as it is held, of a null reference.
pub open spec fn null_msg() -> &'static str {
    "NullReferenceError: dereference a null reference\n\0"
}

pub open spec fn free_pair_text(msg: Seq<char>) -> Seq<SAsm> {
    seq![
        label_line("p_free_pair"@),
        line(SInstr::Push(Reg::Link)),
        line(SInstr::Unary(UnaryInstr::Cmp, r0(), Op2::Imm(0), false)),
        load_label_r0(CondCode::EQ, msg),
        cond_line(CondCode::EQ, SInstr::Branch(false, "p_throw_runtime_error"@)),
        line(SInstr::Push(r0())),
        line(SInstr::Load(DataSize::Word, r0(), SLoadArg::MemAddress(Reg::StackPointer, 0))),
        line(SInstr::Load(DataSize::Word, r0(), SLoadArg::MemAddress(r0(), 4))),
        line(SInstr::Branch(true, "free"@)),
        line(SInstr::Pop(r0())),
        line(SInstr::Branch(true, "free"@)),
        line(SInstr::Pop(Reg::PC)),
    ]
}

/* The instruction lines are built by these, each with the value its spec
counterpart gives. */
fn label_asm(l: &str) -> (r: Asm)
    ensures
        r@ == label_line(l@),
{
    Asm::Directive(Directive::Label(to_string(l)))
}

fn load_label_asm(c: CondCode, l: String) -> (r: Asm)
    ensures
        r@ == load_label_r0(c, l@),
{
    Asm::Instr(c, Instr::Load(DataSize::Word, Reg::Arg(ArgReg::R0), LoadArg::Label(l)))
}

fn branch_asm(c: CondCode, link: bool, l: &str) -> (r: Asm)
    ensures
        r@ == cond_line(c, SInstr::Branch(link, l@)),
{
    Asm::Instr(c, Instr::Branch(link, to_string(l)))
}

fn skip_length_asm() -> (r: Asm)
    ensures
        r@ == skip_length(),
{
    Asm::add(Reg::Arg(ArgReg::R0), Reg::Arg(ArgReg::R0), Op2::Imm(4))
}

/* Calls printf on r0, then flushes the output and returns. */
fn emit_printf_and_return(code: &mut GeneratedCode)
    ensures
        lines(final(code).text@) == lines(old(code).text@) + printf_and_return(),
        final(code).data == old(code).data,
        final(code).required_predefs == old(code).required_predefs,
        final(code).next_anon == old(code).next_anon,
        final(code).next_label == old(code).next_label,
        final(code).next_msg == old(code).next_msg,
{
    code.emit(branch_asm(CondCode::AL, true, "printf"));
    code.emit(Asm::mov(Reg::Arg(ArgReg::R0), Op2::Imm(0)));
    code.emit(branch_asm(CondCode::AL, true, "fflush"));
    code.emit(Asm::pop(Reg::PC));
    proof {
        reveal_strlit("printf");
        reveal_strlit("fflush");
        assert(lines(code.text@) =~= lines(old(code).text@) + printf_and_return());
    }
}

/* p_print_string: prints the string whose address is in r0. */
fn print_string(code: &mut GeneratedCode)
    requires
        old(code).msgs_made() < u32::MAX,
    ensures
        lines(final(code).text@) == lines(old(code).text@) + print_string_text(msg_label(old(code).msgs_made())),
        lines(final(code).data@) == lines(old(code).data@) + msg_lines(old(code).msgs_made(), "%.*s\0"),
        final(code).required_predefs == old(code).required_predefs,
        final(code).msgs_made() == old(code).msgs_made() + 1,
        final(code).labels_made() == old(code).labels_made(),
{
    let msg = code.get_msg("%.*s\0");
    let ghost t0 = lines(code.text@);
    code.emit(label_asm("p_print_string"));
    code.emit(Asm::push(Reg::Link));
    code.emit(Asm::ldr(Reg::Arg(ArgReg::R1), LoadArg::MemAddress(Reg::Arg(ArgReg::R0), 0)));
    code.emit(Asm::add(Reg::Arg(ArgReg::R2), Reg::Arg(ArgReg::R0), Op2::Imm(4)));
    code.emit(load_label_asm(CondCode::AL, msg));
    code.emit(skip_length_asm());
    let ghost t1 = lines(code.text@);
    emit_printf_and_return(code);
    proof {
        assert(t1 =~= t0 + seq![
            label_line("p_print_string"@),
            line(SInstr::Push(Reg::Link)),
            line(SInstr::Load(DataSize::Word, r1(), SLoadArg::MemAddress(r0(), 0))),
            line(SInstr::Binary(BinaryInstr::Add, r2(), r0(), Op2::Imm(4), false)),
            load_label_r0(CondCode::AL, msg_label(old(code).msgs_made())),
            skip_length(),
        ]);
        assert(lines(code.text@) =~= lines(old(code).text@) + print_string_text(msg_label(old(code).msgs_made())));
    }
}

/* p_print_bool: prints "true" or "false" for the boolean in r0. */
fn print_bool(code: &mut GeneratedCode)
    requires
        old(code).msgs_made() + 2 < u32::MAX,
    ensures
        lines(final(code).text@) == lines(old(code).text@) + print_bool_text(
            msg_label(old(code).msgs_made()),
            msg_label(old(code).msgs_made() + 1),
        ),
        lines(final(code).data@) == lines(old(code).data@) + msg_lines(old(code).msgs_made(), "true\0")
            + msg_lines(old(code).msgs_made() + 1, "false\0"),
        final(code).required_predefs == old(code).required_predefs,
        final(code).msgs_made() == old(code).msgs_made() + 2,
        final(code).labels_made() == old(code).labels_made(),
{
    let msg_true = code.get_msg("true\0");
    let msg_false = code.get_msg("false\0");
    let ghost t0 = lines(code.text@);
    code.emit(label_asm("p_print_bool"));
    code.emit(Asm::push(Reg::Link));
    code.emit(Asm::cmp(Reg::Arg(ArgReg::R0), Op2::Imm(0)));
    code.emit(load_label_asm(CondCode::NE, msg_true));
    code.emit(load_label_asm(CondCode::EQ, msg_false));
    code.emit(skip_length_asm());
    let ghost t1 = lines(code.text@);
    emit_printf_and_return(code);
    proof {
        let n = old(code).msgs_made();
        assert(t1 =~= t0 + seq![
            label_line("p_print_bool"@),
            line(SInstr::Push(Reg::Link)),
            line(SInstr::Unary(UnaryInstr::Cmp, r0(), Op2::Imm(0), false)),
            load_label_r0(CondCode::NE, msg_label(n)),
            load_label_r0(CondCode::EQ, msg_label(n + 1)),
            skip_length(),
        ]);
        assert(lines(code.text@) =~= lines(old(code).text@) + print_bool_text(msg_label(n), msg_label(n + 1)));
    }
}

#[derive(PartialEq, Eq, Structural, Debug, Clone, Copy)]
pub enum PrintFmt {
    Int,
    Ref,
}

#[derive(PartialEq, Eq, Structural, Debug, Clone, Copy)]
pub enum ReadFmt {
    Char,
    Int,
}

/* p_print_int or p_print_reference: prints the int or the address in r0. */
fn print_int_or_ref(code: &mut GeneratedCode, opt: PrintFmt)
    requires
        old(code).msgs_made() < u32::MAX,
    ensures
        lines(final(code).text@) == lines(old(code).text@) + print_int_or_ref_text(
            opt == PrintFmt::Ref,
            msg_label(old(code).msgs_made()),
        ),
        lines(final(code).data@) == lines(old(code).data@) + msg_lines(
            old(code).msgs_made(),
            if opt == PrintFmt::Ref {
                "%p\0"
            } else {
                "%d\0"
            },
        ),
        final(code).required_predefs == old(code).required_predefs,
        final(code).msgs_made() == old(code).msgs_made() + 1,
        final(code).labels_made() == old(code).labels_made(),
{
    /* The format depends on what is printed. */
    let msg = if opt == PrintFmt::Ref {
        code.get_msg("%p\0")
    } else {
        code.get_msg("%d\0")
    };
    let label = match opt {
        PrintFmt::Int => "p_print_int",
        PrintFmt::Ref => "p_print_reference",
    };
    let ghost t0 = lines(code.text@);
    code.emit(label_asm(label));
    code.emit(Asm::push(Reg::Link));
    code.emit(Asm::mov(Reg::Arg(ArgReg::R1), Op2::Reg(Reg::Arg(ArgReg::R0), 0)));
    code.emit(load_label_asm(CondCode::AL, msg));
    code.emit(skip_length_asm());
    let ghost t1 = lines(code.text@);
    emit_printf_and_return(code);
    proof {
        let n = old(code).msgs_made();
        assert(label@ == print_label(opt == PrintFmt::Ref));
        assert(t1 =~= t0 + seq![
            label_line(print_label(opt == PrintFmt::Ref)),
            line(SInstr::Push(Reg::Link)),
            line(SInstr::Unary(UnaryInstr::Mov, r1(), Op2::Reg(r0(), 0), false)),
            load_label_r0(CondCode::AL, msg_label(n)),
            skip_length(),
        ]);
        assert(lines(code.text@) =~= lines(old(code).text@) + print_int_or_ref_text(opt == PrintFmt::Ref, msg_label(n)));
    }
}

/* p_check_array_bounds: fails with a message when the index in r0 is
negative or not below the length the array in r1 starts with. */
fn check_array_bounds(code: &mut GeneratedCode)
    requires
        old(code).msgs_made() + 2 < u32::MAX,
    ensures
        lines(final(code).text@) == lines(old(code).text@) + check_array_bounds_text(
            msg_label(old(code).msgs_made()),
            msg_label(old(code).msgs_made() + 1),
        ),
        lines(final(code).data@) == lines(old(code).data@) + msg_lines(
            old(code).msgs_made(),
            "ArrayIndexOutOfBoundsError: negative index\n\0",
        ) + msg_lines(old(code).msgs_made() + 1, "ArrayIndexOutOfBoundsError: index too large\n\0"),
        final(code).required_predefs@ == marked(old(code).required_predefs@, RequiredPredefs::RuntimeError),
        final(code).msgs_made() == old(code).msgs_made() + 2,
        final(code).labels_made() == old(code).labels_made(),
{
    let msg_0 = code.get_msg("ArrayIndexOutOfBoundsError: negative index\n\0");
    let msg_1 = code.get_msg("ArrayIndexOutOfBoundsError: index too large\n\0");
    let ghost t0 = lines(code.text@);
    code.emit(label_asm("p_check_array_bounds"));
    code.emit(Asm::push(Reg::Link));
    code.emit(Asm::cmp(Reg::Arg(ArgReg::R0), Op2::Imm(0)));
    code.emit(load_label_asm(CondCode::LT, msg_0));
    RequiredPredefs::RuntimeError.mark(code);
    code.emit(branch_asm(CondCode::LT, true, "p_throw_runtime_error"));
    code.emit(Asm::ldr(Reg::Arg(ArgReg::R1), LoadArg::MemAddress(Reg::Arg(ArgReg::R1), 0)));
    code.emit(Asm::cmp(Reg::Arg(ArgReg::R0), Op2::Reg(Reg::Arg(ArgReg::R1), 0)));
    code.emit(load_label_asm(CondCode::CS, msg_1));
    code.emit(branch_asm(CondCode::CS, true, "p_throw_runtime_error"));
    code.emit(Asm::pop(Reg::PC));
    proof {
        let n = old(code).msgs_made();
        assert(lines(code.text@) =~= t0 + check_array_bounds_text(msg_label(n), msg_label(n + 1)));
    }
}

/* p_free_pair: fails on a null pair, otherwise frees both elements' memory
and the pair's. */
fn free_pair(code: &mut GeneratedCode)
    requires
        old(code).msgs_made() < u32::MAX,
    ensures
        lines(final(code).text@) == lines(old(code).text@) + free_pair_text(msg_label(old(code).msgs_made())),
        lines(final(code).data@) == lines(old(code).data@) + msg_lines(old(code).msgs_made(), null_msg()),
        final(code).required_predefs@ == marked(old(code).required_predefs@, RequiredPredefs::RuntimeError),
        final(code).msgs_made() == old(code).msgs_made() + 1,
        final(code).labels_made() == old(code).labels_made(),
{
    let msg = code.get_msg("NullReferenceError: dereference a null reference\n\0");
    let ghost t0 = lines(code.text@);
    code.emit(label_asm("p_free_pair"));
    code.emit(Asm::push(Reg::Link));
    code.emit(Asm::cmp(Reg::Arg(ArgReg::R0), Op2::Imm(0)));
    code.emit(load_label_asm(CondCode::EQ, msg));
    code.emit(branch_asm(CondCode::EQ, false, "p_throw_runtime_error"));
    RequiredPredefs::RuntimeError.mark(code);
    code.emit(Asm::push(Reg::Arg(ArgReg::R0)));
    code.emit(Asm::ldr(Reg::Arg(ArgReg::R0), LoadArg::MemAddress(Reg::StackPointer, 0)));
    code.emit(Asm::ldr(Reg::Arg(ArgReg::R0), LoadArg::MemAddress(Reg::Arg(ArgReg::R0), 4)));
    code.emit(branch_asm(CondCode::AL, true, "free"));
    code.emit(Asm::pop(Reg::Arg(ArgReg::R0)));
    code.emit(branch_asm(CondCode::AL, true, "free"));
    code.emit(Asm::pop(Reg::PC));
    proof {
        let n = old(code).msgs_made();
        assert(lines(code.text@) =~= t0 + free_pair_text(msg_label(n)));
    }
}

pub open spec fn read_label(fmt: ReadFmt) -> Seq<char> {
    match fmt {
        ReadFmt::Char => "p_read_char"@,
        ReadFmt::Int => "p_read_int"@,
    }
}

pub open spec fn read_text(fmt: ReadFmt, msg: Seq<char>) -> Seq<SAsm> {
    seq![
        label_line(read_label(fmt)),
        line(SInstr::Push(Reg::Link)),
        line(SInstr::Unary(UnaryInstr::Mov, r1(), Op2::Reg(r0(), 0), false)),
        load_label_r0(CondCode::AL, msg),
        skip_length(),
        line(SInstr::Branch(true, "scanf"@)),
        line(SInstr::Pop(Reg::PC)),
    ]
}

pub open spec fn println_text(msg: Seq<char>) -> Seq<SAsm> {
    seq![
        label_line("p_print_ln"@),
        line(SInstr::Push(Reg::Link)),
        load_label_r0(CondCode::AL, msg),
        skip_length(),
        line(SInstr::Branch(true, "puts"@)),
        line(SInstr::Unary(UnaryInstr::Mov, r0(), Op2::Imm(0), false)),
        line(SInstr::Branch(true, "fflush"@)),
        line(SInstr::Pop(Reg::PC)),
    ]
}

/// A check of a register against zero that fails with a message.
pub open spec fn check_zero_text(label: Seq<char>, reg: Reg, msg: Seq<char>) -> Seq<SAsm> {
    seq![
        label_line(label),
        line(SInstr::Push(Reg::Link)),
        line(SInstr::Unary(UnaryInstr::Cmp, reg, Op2::Imm(0), false)),
        load_label_r0(CondCode::EQ, msg),
        cond_line(CondCode::EQ, SInstr::Branch(true, "p_throw_runtime_error"@)),
        line(SInstr::Pop(Reg::PC)),
    ]
}

pub open spec fn throw_overflow_text(msg: Seq<char>) -> Seq<SAsm> {
    seq![
        label_line("p_throw_overflow_error"@),
        load_label_r0(CondCode::AL, msg),
        line(SInstr::Branch(true, "p_throw_runtime_error"@)),
    ]
}

pub open spec fn free_array_text(msg: Seq<char>) -> Seq<SAsm> {
    seq![
        label_line("p_free_array"@),
        line(SInstr::Push(Reg::Link)),
        line(SInstr::Unary(UnaryInstr::Cmp, r0(), Op2::Imm(0), false)),
        load_label_r0(CondCode::EQ, msg),
        cond_line(CondCode::EQ, SInstr::Branch(false, "p_throw_runtime_error"@)),
        line(SInstr::Branch(true, "free"@)),
        line(SInstr::Pop(Reg::PC)),
    ]
}

pub open spec fn throw_runtime_text() -> Seq<SAsm> {
    seq![
        label_line("p_throw_runtime_error"@),
        line(SInstr::Branch(true, "p_print_string"@)),
        line(SInstr::Unary(UnaryInstr::Mov, r0(), Op2::Imm(-1i32), false)),
        line(SInstr::Branch(true, "exit"@)),
    ]
}

/* p_read_char or p_read_int: reads into the address in r0 with scanf. */
fn read(code: &mut GeneratedCode, fmt: ReadFmt)
    requires
        old(code).msgs_made() < u32::MAX,
    ensures
        lines(final(code).text@) == lines(old(code).text@) + read_text(fmt, msg_label(old(code).msgs_made())),
        lines(final(code).data@) == lines(old(code).data@) + msg_lines(
            old(code).msgs_made(),
            if fmt == ReadFmt::Int {
                "&d"
            } else {
                "&c"
            },
        ),
        final(code).required_predefs == old(code).required_predefs,
        final(code).msgs_made() == old(code).msgs_made() + 1,
        final(code).labels_made() == old(code).labels_made(),
{
    let msg = if fmt == ReadFmt::Int {
        code.get_msg("&d")
    } else {
        code.get_msg("&c")
    };
    let label = match fmt {
        ReadFmt::Char => "p_read_char",
        ReadFmt::Int => "p_read_int",
    };
    let ghost t0 = lines(code.text@);
    code.emit(label_asm(label));
    code.emit(Asm::push(Reg::Link));
    code.emit(Asm::mov(Reg::Arg(ArgReg::R1), Op2::Reg(Reg::Arg(ArgReg::R0), 0)));
    code.emit(load_label_asm(CondCode::AL, msg));
    code.emit(skip_length_asm());
    code.emit(branch_asm(CondCode::AL, true, "scanf"));
    code.emit(Asm::pop(Reg::PC));
    proof {
        assert(label@ == read_label(fmt));
        assert(lines(code.text@) =~= t0 + read_text(fmt, msg_label(old(code).msgs_made())));
    }
}

/* p_print_ln: ends the line. */
fn println(code: &mut GeneratedCode)
    requires
        old(code).msgs_made() < u32::MAX,
    ensures
        lines(final(code).text@) == lines(old(code).text@) + println_text(msg_label(old(code).msgs_made())),
        lines(final(code).data@) == lines(old(code).data@) + msg_lines(old(code).msgs_made(), "\0"),
        final(code).required_predefs == old(code).required_predefs,
        final(code).msgs_made() == old(code).msgs_made() + 1,
        final(code).labels_made() == old(code).labels_made(),
{
    let msg = code.get_msg("\0");
    let ghost t0 = lines(code.text@);
    code.emit(label_asm("p_print_ln"));
    code.emit(Asm::push(Reg::Link));
    code.emit(load_label_asm(CondCode::AL, msg));
    code.emit(skip_length_asm());
    code.emit(branch_asm(CondCode::AL, true, "puts"));
    code.emit(Asm::mov(Reg::Arg(ArgReg::R0), Op2::Imm(0)));
    code.emit(branch_asm(CondCode::AL, true, "fflush"));
    code.emit(Asm::pop(Reg::PC));
    proof {
        assert(lines(code.text@) =~= t0 + println_text(msg_label(old(code).msgs_made())));
    }
}

/* Checks a register against zero, failing with the message when it is. */
fn check_zero(code: &mut GeneratedCode, label: &str, reg: Reg, content: &str)
    requires
        old(code).msgs_made() < u32::MAX,
    ensures
        lines(final(code).text@) == lines(old(code).text@) + check_zero_text(
            label@,
            reg,
            msg_label(old(code).msgs_made()),
        ),
        lines(final(code).data@) == lines(old(code).data@) + msg_lines(old(code).msgs_made(), content),
        final(code).required_predefs@ == marked(old(code).required_predefs@, RequiredPredefs::RuntimeError),
        final(code).msgs_made() == old(code).msgs_made() + 1,
        final(code).labels_made() == old(code).labels_made(),
{
    let msg = code.get_msg(content);
    let ghost t0 = lines(code.text@);
    code.emit(label_asm(label));
    code.emit(Asm::push(Reg::Link));
    code.emit(Asm::cmp(reg, Op2::Imm(0)));
    code.emit(load_label_asm(CondCode::EQ, msg));
    code.emit(branch_asm(CondCode::EQ, true, "p_throw_runtime_error"));
    RequiredPredefs::RuntimeError.mark(code);
    code.emit(Asm::pop(Reg::PC));
    proof {
        assert(lines(code.text@) =~= t0 + check_zero_text(label@, reg, msg_label(old(code).msgs_made())));
    }
}

/* p_check_null_pointer: fails when the address in r0 is null. */
fn check_null_pointer(code: &mut GeneratedCode)
    requires
        old(code).msgs_made() < u32::MAX,
    ensures
        lines(final(code).text@) == lines(old(code).text@) + check_zero_text(
            "p_check_null_pointer"@,
            r0(),
            msg_label(old(code).msgs_made()),
        ),
        lines(final(code).data@) == lines(old(code).data@) + msg_lines(old(code).msgs_made(), null_msg()),
        final(code).required_predefs@ == marked(old(code).required_predefs@, RequiredPredefs::RuntimeError),
        final(code).msgs_made() == old(code).msgs_made() + 1,
        final(code).labels_made() == old(code).labels_made(),
{
    check_zero(
        code,
        "p_check_null_pointer",
        Reg::Arg(ArgReg::R0),
        "NullReferenceError: dereference a null reference\n\0",
    )
}

/// The message of a division by zero, as it is held (with a backslash and
/// an 'n', and a backslash and a '0', at its end).
pub open spec fn divide_msg() -> &'static str {
    "DivideByZeroError: divide or modulo by zero\\n\\0"
}

/* p_check_divide_by_zero: fails when the divisor in r1 is zero. */
fn check_divide_by_zero(code: &mut GeneratedCode)
    requires
        old(code).msgs_made() < u32::MAX,
    ensures
        lines(final(code).text@) == lines(old(code).text@) + check_zero_text(
            "p_check_divide_by_zero"@,
            r1(),
            msg_label(old(code).msgs_made()),
        ),
        lines(final(code).data@) == lines(old(code).data@) + msg_lines(old(code).msgs_made(), divide_msg()),
        final(code).required_predefs@ == marked(old(code).required_predefs@, RequiredPredefs::RuntimeError),
        final(code).msgs_made() == old(code).msgs_made() + 1,
        final(code).labels_made() == old(code).labels_made(),
{
    check_zero(
        code,
        "p_check_divide_by_zero",
        Reg::Arg(ArgReg::R1),
        "DivideByZeroError: divide or modulo by zero\\n\\0",
    )
}

/// The message of an overflow.
pub open spec fn overflow_msg() -> &'static str {
    "OverflowError: the result is too small/large to store in a 4-byte signed-integer.\n\0"
}

/* p_throw_overflow_error: fails with the overflow message. */
fn throw_overflow_error(code: &mut GeneratedCode)
    requires
        old(code).msgs_made() < u32::MAX,
    ensures
        lines(final(code).text@) == lines(old(code).text@) + throw_overflow_text(msg_label(old(code).msgs_made())),
        lines(final(code).data@) == lines(old(code).data@) + msg_lines(old(code).msgs_made(), overflow_msg()),
        final(code).required_predefs@ == marked(old(code).required_predefs@, RequiredPredefs::RuntimeError),
        final(code).msgs_made() == old(code).msgs_made() + 1,
        final(code).labels_made() == old(code).labels_made(),
{
    let msg = code.get_msg(
        "OverflowError: the result is too small/large to store in a 4-byte signed-integer.\n\0",
    );
    let ghost t0 = lines(code.text@);
    code.emit(label_asm("p_throw_overflow_error"));
    code.emit(load_label_asm(CondCode::AL, msg));
    RequiredPredefs::RuntimeError.mark(code);
    code.emit(branch_asm(CondCode::AL, true, "p_throw_runtime_error"));
    proof {
        assert(lines(code.text@) =~= t0 + throw_overflow_text(msg_label(old(code).msgs_made())));
    }
}

/* p_free_array: fails on a null array, otherwise frees it. */
fn free_array(code: &mut GeneratedCode)
    requires
        old(code).msgs_made() < u32::MAX,
    ensures
        lines(final(code).text@) == lines(old(code).text@) + free_array_text(msg_label(old(code).msgs_made())),
        lines(final(code).data@) == lines(old(code).data@) + msg_lines(old(code).msgs_made(), null_msg()),
        final(code).required_predefs@ == marked(old(code).required_predefs@, RequiredPredefs::RuntimeError),
        final(code).msgs_made() == old(code).msgs_made() + 1,
        final(code).labels_made() == old(code).labels_made(),
{
    let msg = code.get_msg("NullReferenceError: dereference a null reference\n\0");
    let ghost t0 = lines(code.text@);
    code.emit(label_asm("p_free_array"));
    code.emit(Asm::push(Reg::Link));
    code.emit(Asm::cmp(Reg::Arg(ArgReg::R0), Op2::Imm(0)));
    code.emit(load_label_asm(CondCode::EQ, msg));
    code.emit(branch_asm(CondCode::EQ, false, "p_throw_runtime_error"));
    RequiredPredefs::RuntimeError.mark(code);
    /* BL free: the array is not null here. */
    code.emit(branch_asm(CondCode::AL, true, "free"));
    code.emit(Asm::pop(Reg::PC));
    proof {
        assert(lines(code.text@) =~= t0 + free_array_text(msg_label(old(code).msgs_made())));
    }
}

/* p_throw_runtime_error: prints the message whose address is in r0 and
exits with status -1. */
fn throw_runtime_error(code: &mut GeneratedCode)
    ensures
        lines(final(code).text@) == lines(old(code).text@) + throw_runtime_text(),
        final(code).data == old(code).data,
        final(code).required_predefs@ == marked(old(code).required_predefs@, RequiredPredefs::PrintString),
        final(code).msgs_made() == old(code).msgs_made(),
        final(code).labels_made() == old(code).labels_made(),
{
    let ghost t0 = lines(code.text@);
    code.emit(label_asm("p_throw_runtime_error"));
    code.emit(branch_asm(CondCode::AL, true, "p_print_string"));
    RequiredPredefs::PrintString.mark(code);
    code.emit(Asm::mov(Reg::Arg(ArgReg::R0), Op2::Imm(-1)));
    code.emit(branch_asm(CondCode::AL, true, "exit"));
    proof {
        assert(lines(code.text@) =~= t0 + throw_runtime_text());
    }
}

/* ======== Writing the required predefined functions ======== */

/// How many messages a predefined function adds to the data segment.
pub open spec fn predef_msgs(p: RequiredPredefs) -> nat {
    match p {
        RequiredPredefs::PrintBool => 2,
        RequiredPredefs::ArrayBoundsError => 2,
        RequiredPredefs::RuntimeError => 0,
        _ => 1,
    }
}

/// The predefined function another one calls, if any.
pub open spec fn predef_needs(p: RequiredPredefs) -> Option<RequiredPredefs> {
    match p {
        RequiredPredefs::RuntimeError => Some(RequiredPredefs::PrintString),
        RequiredPredefs::ArrayBoundsError => Some(RequiredPredefs::RuntimeError),
        RequiredPredefs::FreePair => Some(RequiredPredefs::RuntimeError),
        RequiredPredefs::FreeArray => Some(RequiredPredefs::RuntimeError),
        RequiredPredefs::OverflowError => Some(RequiredPredefs::RuntimeError),
        RequiredPredefs::DivideByZeroError => Some(RequiredPredefs::RuntimeError),
        RequiredPredefs::CheckNullPointer => Some(RequiredPredefs::RuntimeError),
        _ => None,
    }
}

/// The text of a predefined function whose first message is the n-th.
pub open spec fn predef_text(p: RequiredPredefs, n: nat) -> Seq<SAsm> {
    match p {
        RequiredPredefs::PrintInt => print_int_or_ref_text(false, msg_label(n)),
        RequiredPredefs::PrintString => print_string_text(msg_label(n)),
        RequiredPredefs::PrintBool => print_bool_text(msg_label(n), msg_label(n + 1)),
        RequiredPredefs::PrintChar => Seq::empty(),
        RequiredPredefs::PrintRefs => print_int_or_ref_text(true, msg_label(n)),
        RequiredPredefs::PrintLn => println_text(msg_label(n)),
        RequiredPredefs::ReadChar => read_text(ReadFmt::Char, msg_label(n)),
        RequiredPredefs::ReadInt => read_text(ReadFmt::Int, msg_label(n)),
        RequiredPredefs::FreePair => free_pair_text(msg_label(n)),
        RequiredPredefs::FreeArray => free_array_text(msg_label(n)),
        RequiredPredefs::RuntimeError => throw_runtime_text(),
        RequiredPredefs::OverflowError => throw_overflow_text(msg_label(n)),
        RequiredPredefs::DivideByZeroError => check_zero_text("p_check_divide_by_zero"@, r1(), msg_label(n)),
        RequiredPredefs::ArrayBoundsError => check_array_bounds_text(msg_label(n), msg_label(n + 1)),
        RequiredPredefs::CheckNullPointer => check_zero_text("p_check_null_pointer"@, r0(), msg_label(n)),
    }
}

/// The list after marking what a predefined function needs.
pub open spec fn mark_needs(ps: Seq<RequiredPredefs>, p: RequiredPredefs) -> Seq<RequiredPredefs> {
    match predef_needs(p) {
        Some(q) => marked(ps, q),
        None => ps,
    }
}

/// Messages added by a list of predefined functions.
pub open spec fn predefs_msgs(ps: Seq<RequiredPredefs>) -> nat
    decreases ps.len(),
{
    if ps.len() == 0 {
        0
    } else {
        predefs_msgs(ps.drop_last()) + predef_msgs(ps.last())
    }
}

/// The text of a list of predefined functions, in order, the first message
/// being the n-th.
pub open spec fn predefs_text(ps: Seq<RequiredPredefs>, n: nat) -> Seq<SAsm>
    decreases ps.len(),
{
    if ps.len() == 0 {
        Seq::empty()
    } else {
        predefs_text(ps.drop_last(), n) + predef_text(ps.last(), n + predefs_msgs(ps.drop_last()))
    }
}

impl RequiredPredefs {
    /* Writes this predefined function at the end of the text segment, and
    marks the one it calls as required. */
    pub fn generate(&self, code: &mut GeneratedCode)
        requires
            *self != RequiredPredefs::PrintChar,
            old(code).msgs_made() + 2 < u32::MAX,
        ensures
            lines(final(code).text@) == lines(old(code).text@) + predef_text(*self, old(code).msgs_made()),
            final(code).msgs_made() == old(code).msgs_made() + predef_msgs(*self),
            final(code).labels_made() == old(code).labels_made(),
            final(code).required_predefs@ == mark_needs(old(code).required_predefs@, *self),
    {
        match *self {
            RequiredPredefs::PrintInt => print_int_or_ref(code, PrintFmt::Int),
            RequiredPredefs::PrintString => print_string(code),
            RequiredPredefs::PrintBool => print_bool(code),
            RequiredPredefs::PrintChar => {},
            RequiredPredefs::PrintRefs => print_int_or_ref(code, PrintFmt::Ref),
            RequiredPredefs::PrintLn => println(code),
            RequiredPredefs::ReadChar => read(code, ReadFmt::Char),
            RequiredPredefs::ReadInt => read(code, ReadFmt::Int),
            RequiredPredefs::FreePair => free_pair(code),
            RequiredPredefs::FreeArray => free_array(code),
            RequiredPredefs::RuntimeError => throw_runtime_error(code),
            RequiredPredefs::OverflowError => throw_overflow_error(code),
            RequiredPredefs::DivideByZeroError => check_divide_by_zero(code),
            RequiredPredefs::ArrayBoundsError => check_array_bounds(code),
            RequiredPredefs::CheckNullPointer => check_null_pointer(code),
        }
    }
}

/// Every predefined function.
pub open spec fn all_predefs() -> Set<RequiredPredefs> {
    set![
        RequiredPredefs::PrintInt,
        RequiredPredefs::PrintString,
        RequiredPredefs::PrintBool,
        RequiredPredefs::PrintChar,
        RequiredPredefs::PrintRefs,
        RequiredPredefs::PrintLn,
        RequiredPredefs::ReadChar,
        RequiredPredefs::ReadInt,
        RequiredPredefs::FreePair,
        RequiredPredefs::FreeArray,
        RequiredPredefs::RuntimeError,
        RequiredPredefs::OverflowError,
        RequiredPredefs::DivideByZeroError,
        RequiredPredefs::ArrayBoundsError,
        RequiredPredefs::CheckNullPointer,
    ]
}

/// A list of distinct predefined functions has at most as many as there
/// are.
pub proof fn lemma_predefs_bounded(ps: Seq<RequiredPredefs>)
    requires
        ps.no_duplicates(),
    ensures
        ps.len() <= 15,
{
    let all = all_predefs();
    assert(all.len() == 15);
    assert(ps.to_set().subset_of(all)) by {
        assert forall|p: RequiredPredefs| ps.to_set().contains(p) implies all.contains(p) by {
            match p {
                _ => {},
            }
        }
    }
    vstd::set_lib::lemma_len_subset(ps.to_set(), all);
    ps.unique_seq_to_set();
}

proof fn lemma_marked_prefix(ps: Seq<RequiredPredefs>, q: RequiredPredefs, j: int)
    requires
        0 <= j <= ps.len(),
    ensures
        marked(ps, q).take(j) == ps.take(j),
        marked(ps, q).len() >= ps.len(),
        forall|k: int| 0 <= k < ps.len() ==> marked(ps, q)[k] == ps[k],
{
    assert(marked(ps, q).take(j) =~= ps.take(j));
}

proof fn lemma_predefs_msgs_bound(ps: Seq<RequiredPredefs>)
    ensures
        predefs_msgs(ps) <= 2 * ps.len(),
    decreases ps.len(),
{
    if ps.len() > 0 {
        lemma_predefs_msgs_bound(ps.drop_last());
    }
}

/// The list of required predefined functions once those from position `i`
/// on have been written: writing one requires the one it calls, which
/// joins the end of the list unless it is already there.
pub open spec fn required_from(l: Seq<RequiredPredefs>, i: int) -> Seq<RequiredPredefs>
    decreases 15 - i,
{
    if 0 <= i < l.len() && i < 15 {
        required_from(
            match predef_needs(l[i]) {
                Some(q) => marked(l, q),
                None => l,
            },
            i + 1,
        )
    } else {
        l
    }
}

/// Writes every required predefined function at the end of the text
/// segment, in the order they were required, each once; those that the
/// written ones call are required, and so written, too.
pub fn generate_predefs(code: &mut GeneratedCode)
    requires
        old(code).required_predefs@.no_duplicates(),
        !old(code).required_predefs@.contains(RequiredPredefs::PrintChar),
        old(code).msgs_made() + 40 < u32::MAX,
    ensures
        final(code).required_predefs@.no_duplicates(),
        final(code).required_predefs@.take(old(code).required_predefs@.len() as int) == old(
            code,
        ).required_predefs@,
        forall|i: int|
            0 <= i < final(code).required_predefs@.len() ==> (predef_needs(
                #[trigger] final(code).required_predefs@[i],
            ) matches Some(q) ==> final(code).required_predefs@.contains(q)),
        lines(final(code).text@) == lines(old(code).text@) + predefs_text(
            final(code).required_predefs@,
            old(code).msgs_made(),
        ),
        final(code).required_predefs@ == required_from(old(code).required_predefs@, 0),
{
    let ghost n0 = code.msgs_made();
    let ghost old_list = code.required_predefs@;
    let mut i: usize = 0;
    proof {
        lemma_predefs_bounded(old_list);
        assert(code.required_predefs@.take(0) =~= Seq::<RequiredPredefs>::empty());
        assert(old_list.take(old_list.len() as int) =~= old_list);
    }
    while i < code.required_predefs.len()
        invariant
            code.required_predefs@.no_duplicates(),
            !code.required_predefs@.contains(RequiredPredefs::PrintChar),
            i <= code.required_predefs@.len() <= 15,
            n0 + 40 < u32::MAX,
            code.msgs_made() == n0 + predefs_msgs(code.required_predefs@.take(i as int)),
            lines(code.text@) == lines(old(code).text@) + predefs_text(code.required_predefs@.take(i as int), n0),
            forall|k: int|
                0 <= k < i ==> (predef_needs(#[trigger] code.required_predefs@[k]) matches Some(q)
                    ==> code.required_predefs@.contains(q)),
            code.required_predefs@.take(old_list.len() as int) == old_list,
            old_list.len() <= code.required_predefs@.len(),
            n0 == old(code).msgs_made(),
            old_list == old(code).required_predefs@,
            required_from(old_list, 0) == required_from(code.required_predefs@, i as int),
        decreases 15 - i,
    {
        let ghost before = code.required_predefs@;
        let p = code.required_predefs[i];
        proof {
            if p == RequiredPredefs::PrintChar {
                assert(before.contains(RequiredPredefs::PrintChar));
            }
            lemma_predefs_msgs_bound(before.take(i as int));
        }
        p.generate(code);
        let ghost after = code.required_predefs@;
        proof {
            match predef_needs(p) {
                Some(q) => {
                    law_mark_no_duplicates(before, q);
                    lemma_marked_prefix(before, q, (i + 1) as int);
                    lemma_marked_prefix(before, q, old_list.len() as int);
                    assert(after.contains(q));
                    if after.contains(RequiredPredefs::PrintChar) {
                        let k = choose|k: int| 0 <= k < after.len() && after[k] == RequiredPredefs::PrintChar;
                        if k < before.len() {
                            assert(before.contains(RequiredPredefs::PrintChar));
                        }
                    }
                    assert forall|k: int| 0 <= k < before.len() implies before.contains(#[trigger] before[k]) by {}
                    assert forall|k: int| 0 <= k <= i implies (predef_needs(#[trigger] after[k]) matches Some(q2)
                        ==> after.contains(q2)) by {
                        assert(after[k] == before[k]);
                        if k < i && predef_needs(before[k]) is Some {
                            let q2 = predef_needs(before[k]).unwrap();
                            assert(before.contains(q2));
                            let w = choose|w: int| 0 <= w < before.len() && before[w] == q2;
                            assert(after[w] == q2);
                        }
                    }
                },
                None => {},
            }
            lemma_predefs_bounded(after);
            let t = after.take(i + 1);
            assert(t.drop_last() =~= before.take(i as int));
            assert(t.last() == p);
        }
        i = i + 1;
    }
    proof {
        assert(code.required_predefs@.take(i as int) =~= code.required_predefs@);
    }
}

} // verus!
