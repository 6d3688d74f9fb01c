use wacc_32::analyser::context::{IdentInfo, ScopeBuilder, SymbolTable};
use wacc_32::ast::Type;
use wacc_32::generator::arm::{
    unescape_char, ArgReg, Asm, CondCode, DataSize, Directive, GenReg, GeneratedCode, Instr, LoadArg, Op2, Reg,
};
use wacc_32::generator::predef::{generate_predefs, RequiredPredefs};
use wacc_32::generator::scope::ScopeReader;

const R0: Reg = Reg::Arg(ArgReg::R0);
const R1: Reg = Reg::Arg(ArgReg::R1);

#[test]
fn labels_and_messages_are_fresh() {
    let mut code = GeneratedCode::new();
    assert_eq!(code.get_label(), "L0");
    assert_eq!(code.get_label(), "L1");
    assert_eq!(code.get_msg("hi\n"), "msg_0");
    assert_eq!(code.get_msg("x"), "msg_1");
    assert_eq!(
        code.data,
        vec![
            Asm::Directive(Directive::Data),
            Asm::Directive(Directive::Label(String::from("msg_0"))),
            Asm::Directive(Directive::Word(3)),
            Asm::Directive(Directive::Ascii(String::from("hi\\n"))),
            Asm::Directive(Directive::Label(String::from("msg_1"))),
            Asm::Directive(Directive::Word(1)),
            Asm::Directive(Directive::Ascii(String::from("x"))),
        ]
    );
}

#[test]
fn escapes() {
    assert_eq!(unescape_char('\n'), Some("\\n"));
    assert_eq!(unescape_char('"'), Some("\\\""));
    assert_eq!(unescape_char('\\'), Some("\\\\"));
    assert_eq!(unescape_char('a'), None);
}

#[test]
fn instruction_builders() {
    assert_eq!(Asm::mov(R0, Op2::Imm(1)).eq(), Asm::Instr(CondCode::EQ, Instr::Unary(
        wacc_32::generator::arm::UnaryInstr::Mov,
        R0,
        Op2::Imm(1),
        false,
    )));
    assert_eq!(
        Asm::b(String::from("f_foo")).link(),
        Asm::Instr(CondCode::AL, Instr::Branch(true, String::from("f_foo")))
    );
    assert_eq!(
        Asm::str(R0, (Reg::StackPointer, -4)).pre_indexed().byte(),
        Asm::Instr(
            CondCode::AL,
            Instr::Store(DataSize::Byte, R0, (Reg::StackPointer, -4), wacc_32::generator::arm::AddressingMode::PreIndexed)
        )
    );
}

#[test]
fn instruction_text() {
    assert_eq!(Asm::mov(R0, Op2::Imm(1)).eq().to_string(), "\tMOVEQ r0, #1");
    assert_eq!(Asm::push(Reg::Link).to_string(), "\tPUSH {lr}");
    assert_eq!(Asm::b(String::from("f_foo")).link().to_string(), "\tBL f_foo");
    assert_eq!(Asm::ldr(R0, LoadArg::MemAddress(Reg::StackPointer, 8)).byte().to_string(), "\tLDRSB r0, [sp, #8]");
    assert_eq!(Asm::ldr(R0, LoadArg::Label(String::from("msg_0"))).to_string(), "\tLDR r0, =msg_0");
    assert_eq!(
        Asm::add(Reg::General(GenReg::R4), R1, Op2::Reg(R0, 2)).flags().to_string(),
        "\tADDS r4, r1, r0, ASR #2"
    );
    assert_eq!(Asm::str(R0, (Reg::StackPointer, 0)).to_string(), "\tSTR r0, [sp]");
    assert_eq!(Asm::Directive(Directive::Word(12)).to_string(), "\t.word 12");
    assert_eq!(Asm::Directive(Directive::Label(String::from("main"))).to_string(), "main:");
}

#[test]
fn registers_used_and_defined() {
    let mut a = Asm::add(Reg::Virtual(1), Reg::Virtual(2), Op2::Reg(Reg::Virtual(3), 0));
    let uses = a.uses();
    assert!(uses.contains(&2) && uses.contains(&3) && uses.len() == 2);
    let defines = a.defines();
    assert!(defines.contains(&1) && defines.len() == 1);
    let mut p = Asm::push(R0);
    assert!(p.uses().is_empty());
}

#[test]
fn marking_is_idempotent() {
    let mut code = GeneratedCode::new();
    RequiredPredefs::PrintInt.mark(&mut code);
    RequiredPredefs::PrintInt.mark(&mut code);
    RequiredPredefs::PrintLn.mark(&mut code);
    assert_eq!(code.required_predefs, vec![RequiredPredefs::PrintInt, RequiredPredefs::PrintLn]);
}

#[test]
fn predefined_functions_bring_what_they_call() {
    let mut code = GeneratedCode::new();
    RequiredPredefs::FreePair.mark(&mut code);
    generate_predefs(&mut code);
    /* Freeing a pair can fail, which prints a string. */
    assert_eq!(
        code.required_predefs,
        vec![RequiredPredefs::FreePair, RequiredPredefs::RuntimeError, RequiredPredefs::PrintString]
    );
    let text = code.to_string();
    assert!(text.contains("p_free_pair:\n\tPUSH {lr}\n\tCMP r0, #0\n\tLDREQ r0, =msg_0\n\tBEQ p_throw_runtime_error\n"));
    assert!(text.contains("p_throw_runtime_error:\n\tBL p_print_string\n\tMOV r0, #-1\n\tBL exit\n"));
    assert!(text.starts_with(".data\n\nmsg_0:\n\t.word 50\n"));
}

#[test]
fn program_text_without_data() {
    let mut code = GeneratedCode::new();
    code.emit(Asm::Directive(Directive::Label(String::from("main"))));
    code.emit(Asm::mov(R0, Op2::Imm(0)));
    assert_eq!(code.to_string(), ".text\n\n.global main\nmain:\n\tMOV r0, #0\n");
}

#[test]
fn reader_finds_renamed_variables() {
    let mut scope = ScopeBuilder::new(SymbolTable::default());
    let mut x = String::from("x");
    scope.insert_var(&mut x, Type::Int).unwrap();
    let table = scope.into_table();
    let reader = ScopeReader::new(&table);
    assert_eq!(reader.get(&x), Some(IdentInfo::LocalVar(Type::Int, 4)));
    assert_eq!(reader.get(&String::from("x")), None);
    assert_eq!(reader.get_def(&x), None);
}

#[test]
fn registers_read_and_written_are_rewritten() {
    let to_r5 = |r: Reg| match r {
        Reg::Virtual(_) => Reg::General(GenReg::R5),
        other => other,
    };
    let mut a = Asm::add(Reg::Virtual(1), Reg::Virtual(2), Op2::Reg(Reg::Virtual(3), 0));
    a.map_uses(to_r5);
    assert_eq!(a, Asm::add(Reg::Virtual(1), Reg::General(GenReg::R5), Op2::Reg(Reg::General(GenReg::R5), 0)));
    a.map_defines(to_r5);
    assert_eq!(
        a,
        Asm::add(Reg::General(GenReg::R5), Reg::General(GenReg::R5), Op2::Reg(Reg::General(GenReg::R5), 0))
    );
    let mut p = Asm::push(Reg::Link);
    p.map_uses(to_r5);
    assert_eq!(p, Asm::push(Reg::Link));
}

#[test]
fn function_labels_carry_a_prefix() {
    assert_eq!(wacc_32::generator::generate_function_name("main"), "f_main");
    assert_eq!(wacc_32::generator::generate_anon_func_name("lambda_0"), "af_lambda_0");
    assert_eq!(wacc_32::generator::generate_function_name(""), "f_");
}

#[test]
fn freeing_an_array_calls_free_when_it_is_not_null() {
    let mut code = GeneratedCode::new();
    RequiredPredefs::FreeArray.mark(&mut code);
    generate_predefs(&mut code);
    let text = code.to_string();
    assert!(text.contains(
        "p_free_array:\n\tPUSH {lr}\n\tCMP r0, #0\n\tLDREQ r0, =msg_0\n\tBEQ p_throw_runtime_error\n\tBL free\n\tPOP {pc}\n"
    ));
}

#[test]
fn an_immediate_operand_leaves_only_the_source_read() {
    let mut a = Asm::add(Reg::Virtual(1), Reg::Virtual(2), Op2::Imm(5));
    assert_eq!(a.uses(), std::collections::HashSet::from([2]));
    assert_eq!(a.defines(), std::collections::HashSet::from([1]));
    let to_r5 = |r: Reg| match r {
        Reg::Virtual(_) => Reg::General(GenReg::R5),
        other => other,
    };
    a.map_uses(to_r5);
    assert_eq!(a, Asm::add(Reg::Virtual(1), Reg::General(GenReg::R5), Op2::Imm(5)));
}

#[test]
fn escaped_characters_read_back() {
    for ch in ['\0', '\u{8}', '\t', '\n', '\u{c}', '\r', '"', '\'', '\\', 'a', ' '] {
        let written = match unescape_char(ch) {
            Some(e) => e.to_string(),
            None => ch.to_string(),
        };
        let text: Vec<char> = format!("'{}'", written).chars().collect();
        let (e, q) = wacc_32::parser::expr::expr(&text, 0).unwrap();
        assert_eq!(q, text.len());
        assert_eq!(e, wacc_32::ast::Expr::CharLiter(ch));
    }
}
