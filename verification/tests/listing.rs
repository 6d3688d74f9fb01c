use wacc_32::listing::{listing, CondCode, Instr, Load, MemAddress, Op2, Reg};

fn text(i: Instr) -> String {
    let mut s = String::new();
    i.push_text(&mut s);
    s
}

#[test]
fn instructions_are_written_as_assembly() {
    assert_eq!(text(Instr::Mov(Reg::RegNum(0), Op2::Imm(5), CondCode::EQ)), "MOVEQ r0, =5");
    assert_eq!(text(Instr::Mov(Reg::RegNum(4), Op2::Reg(Reg::StackPointer), CondCode::AL)), "MOV r4, sp");
    assert_eq!(text(Instr::LoadImm(Reg::RegNum(1), Load::Label("msg_0".to_string()))), "LDR r1, =msg_0");
    assert_eq!(text(Instr::LoadImm(Reg::RegNum(1), Load::Imm(-7))), "LDR r1, =-7");
    assert_eq!(
        text(Instr::Add(Reg::RegNum(4), Reg::RegNum(5), Op2::LeftShiftedReg(Reg::RegNum(6), 2))),
        "ADD r4, r5, r6, LSL #2"
    );
    assert_eq!(
        text(Instr::ReverseSubtract(Reg::RegNum(4), Reg::RegNum(4), Op2::RightShiftedReg(Reg::RegNum(5), 31))),
        "RSBS r4, r4, r5, ASR #31"
    );
    assert_eq!(text(Instr::Branch("p_print_int".to_string(), CondCode::VS)), "BLVS p_print_int");
    assert_eq!(text(Instr::Word(12)), ".word 12");
    assert_eq!(text(Instr::Ascii("hi".to_string())), ".ascii \"hi\"");
    assert_eq!(
        text(Instr::Multiply(Reg::RegNum(4), Reg::RegNum(5), Reg::RegNum(4), Reg::RegNum(5))),
        "SMULL r4, r5, r4, r5"
    );
}

#[test]
fn memory_addresses_with_and_without_offset() {
    let at = |offset| MemAddress { reg: Reg::StackPointer, offset };
    assert_eq!(text(Instr::Store(Reg::RegNum(4), at(None))), "STR r4, [sp]");
    /* With an offset no closing bracket is written. */
    assert_eq!(text(Instr::StoreByte(Reg::RegNum(4), at(Some(4)))), "STRB r4, [sp, #4");
    assert_eq!(text(Instr::LoadMemByte(Reg::RegNum(4), at(None))), "LDRSB r4, [sp]");
}

#[test]
fn a_listing_puts_each_instruction_on_a_line() {
    let instrs = vec![
        Instr::Label("main".to_string()),
        Instr::Push,
        Instr::Cmp(Reg::RegNum(4), Op2::Imm(0)),
        Instr::Pop,
        Instr::Assemble,
    ];
    assert_eq!(listing(&instrs), "main:\nPUSH {lr}\nCMP r4, =0\nPOP {pc}\n.ltorg\n");
    assert_eq!(listing(&vec![]), "");
}
