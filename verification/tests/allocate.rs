use std::collections::{HashMap, HashSet};

use wacc_32::generator::allocate::{calculate_interference, calculate_liveness, colour, Location};
use wacc_32::generator::arm::{ArgReg, Asm, CondCode, Directive, GenReg, GeneratedCode, Instr, LoadArg, Op2, Reg};
use wacc_32::generator::linear::linearise;
use wacc_32::generator::cfg::CFG;

fn set(vs: &[usize]) -> HashSet<usize> {
    vs.iter().cloned().collect()
}

fn regs_of(m: &HashMap<usize, Location>) -> Vec<(usize, Location)> {
    let mut v: Vec<(usize, Location)> = m.iter().map(|(k, l)| (*k, *l)).collect();
    v.sort_by_key(|(k, _)| *k);
    v
}

#[test]
fn a_triangle_takes_three_registers() {
    let g = vec![(1, set(&[1, 2, 3])), (2, set(&[1, 2, 3])), (3, set(&[1, 2, 3]))];
    let m = colour(g, 3);
    let mut colours: Vec<usize> = regs_of(&m)
        .into_iter()
        .map(|(_, l)| match l {
            Location::Reg(c) => c,
            Location::Spill(_) => panic!("nothing should spill"),
        })
        .collect();
    colours.sort();
    assert_eq!(colours, vec![0, 1, 2]);
}

#[test]
fn a_triangle_with_two_colours_spills_one_node() {
    let g = vec![(1, set(&[1, 2, 3])), (2, set(&[1, 2, 3])), (3, set(&[1, 2, 3]))];
    let m = regs_of(&colour(g, 2));
    assert_eq!(m.len(), 3);
    /* The first node of a graph with no easy neighbours is spilled. */
    assert_eq!(m[0], (1, Location::Spill(0)));
    assert!(matches!(m[1].1, Location::Reg(_)));
    assert!(matches!(m[2].1, Location::Reg(_)));
    assert_ne!(m[1].1, m[2].1);
}

#[test]
fn nodes_that_do_not_interfere_share_a_register() {
    let g = vec![(1, set(&[1])), (2, set(&[2]))];
    let m = regs_of(&colour(g, 1));
    assert_eq!(m, vec![(1, Location::Reg(0)), (2, Location::Reg(0))]);
}

#[test]
fn a_register_location_names_a_general_register() {
    assert_eq!(Location::Reg(0).reg(), Reg::General(GenReg::R4));
    assert_eq!(Location::Reg(7).reg(), Reg::General(GenReg::R11));
}

#[test]
fn liveness_and_interference_of_a_straight_line() {
    let mut cfg = CFG::new(GeneratedCode::new(), "f_foo".to_string());
    let v1 = cfg.get_veg();
    let v2 = cfg.get_veg();
    /* v1 = 1; v2 = 2; r0 = v1 + v2 */
    let a = cfg.flow(Asm::mov(v1, Op2::Imm(1)));
    let b = cfg.flow(Asm::mov(v2, Op2::Imm(2)));
    let c = cfg.flow(Asm::add(Reg::Arg(ArgReg::R0), v1, Op2::Reg(v2, 0)));
    let ab = a.add(&mut cfg, b);
    let _abc = ab.add(&mut cfg, c);
    assert_eq!(cfg.ordering[0].succs, vec![(CondCode::AL, 1)]);
    assert!(!cfg.ordering[1].needs_label);

    calculate_liveness(&mut cfg);
    assert_eq!(cfg.ordering[0].live_in, set(&[]));
    assert_eq!(cfg.ordering[0].live_out, set(&[1]));
    assert_eq!(cfg.ordering[1].live_in, set(&[1]));
    assert_eq!(cfg.ordering[1].live_out, set(&[1, 2]));
    assert_eq!(cfg.ordering[2].live_in, set(&[1, 2]));
    assert_eq!(cfg.ordering[2].live_out, set(&[]));

    let g = calculate_interference(&mut cfg);
    assert_eq!(g, vec![(1, set(&[1, 2])), (2, set(&[1, 2]))]);
    let m = regs_of(&colour(g, 8));
    assert_ne!(m[0].1, m[1].1);
}

#[test]
fn a_jump_back_needs_a_label() {
    let mut cfg = CFG::new(GeneratedCode::new(), "f_loop".to_string());
    let a = cfg.dummy_flow();
    let b = cfg.dummy_flow();
    b.add_succ_cond(&mut cfg, CondCode::NE, &a);
    assert!(cfg.ordering[0].needs_label);
    assert_eq!(cfg.ordering[1].succs, vec![(CondCode::NE, 0)]);
    let t = a.tunnel(&b);
    assert_eq!((t.first, t.last), (0, 1));
}

#[test]
fn liveness_around_a_loop_is_the_least_solution() {
    let mut cfg = CFG::new(GeneratedCode::new(), "f_loop".to_string());
    let v1 = cfg.get_veg();
    let v2 = cfg.get_veg();
    /* v1 = 1; v2 = 2; loop: v1 = v1 + 1 (back while NE); r0 = v1 */
    let a = cfg.flow(Asm::mov(v1, Op2::Imm(1)));
    let a2 = cfg.flow(Asm::mov(v2, Op2::Imm(2)));
    let b = cfg.flow(Asm::add(v1, v1, Op2::Imm(1)));
    let c = cfg.flow(Asm::mov(Reg::Arg(ArgReg::R0), Op2::Reg(v1, 0)));
    b.add_succ_cond(&mut cfg, CondCode::NE, &b);
    let f = a.add(&mut cfg, a2);
    let f = f.add(&mut cfg, b);
    let _f = f.add(&mut cfg, c);

    calculate_liveness(&mut cfg);
    /* v2 is never read: it is live nowhere, although the loop could carry it. */
    assert_eq!(cfg.ordering[0].live_in, set(&[]));
    assert_eq!(cfg.ordering[0].live_out, set(&[1]));
    assert_eq!(cfg.ordering[1].live_in, set(&[1]));
    assert_eq!(cfg.ordering[1].live_out, set(&[1]));
    assert_eq!(cfg.ordering[2].live_in, set(&[1]));
    assert_eq!(cfg.ordering[2].live_out, set(&[1]));
    assert_eq!(cfg.ordering[3].live_in, set(&[1]));
    assert_eq!(cfg.ordering[3].live_out, set(&[]));
}

#[test]
fn spilled_nodes_get_slots_of_their_own() {
    let all = set(&[1, 2, 3, 4]);
    let g = vec![(1, all.clone()), (2, all.clone()), (3, all.clone()), (4, all.clone())];
    let m = regs_of(&colour(g, 1));
    assert_eq!(
        m,
        vec![(1, Location::Spill(0)), (2, Location::Spill(1)), (3, Location::Spill(2)), (4, Location::Reg(0))]
    );
}

fn two_moves() -> CFG {
    let mut cfg = CFG::new(GeneratedCode::new(), "f_foo".to_string());
    let v1 = cfg.get_veg();
    /* v1 = 1; r0 = v1 */
    let a = cfg.flow(Asm::mov(v1, Op2::Imm(1)));
    let b = cfg.flow(Asm::mov(Reg::Arg(ArgReg::R0), Op2::Reg(v1, 0)));
    let _ab = a.add(&mut cfg, b);
    cfg
}

#[test]
fn saving_a_graph_writes_its_function() {
    let code = two_moves().save();
    let r4 = Reg::General(GenReg::R4);
    assert_eq!(
        code.text,
        vec![
            Asm::Directive(Directive::Text),
            Asm::Directive(Directive::Label("f_foo".to_string())),
            Asm::push(Reg::Link),
            Asm::mov(r4, Op2::Imm(1)),
            Asm::mov(Reg::Arg(ArgReg::R0), Op2::Reg(r4, 0)),
            Asm::pop(Reg::PC),
            Asm::Directive(Directive::Assemble),
        ]
    );
}

#[test]
fn spilled_values_pass_through_r4_and_r5() {
    let cfg = two_moves();
    let mut code = GeneratedCode::new();
    let col: HashMap<usize, Location> = HashMap::from([(1, Location::Spill(1))]);
    linearise(&mut code, &cfg.ordering, &col, 8);
    let r5 = Reg::General(GenReg::R5);
    assert_eq!(
        code.text,
        vec![
            Asm::Directive(Directive::Text),
            Asm::mov(r5, Op2::Imm(1)),
            Asm::str(r5, (Reg::StackPointer, 4)),
            Asm::ldr(r5, LoadArg::MemAddress(Reg::StackPointer, 4)),
            Asm::mov(Reg::Arg(ArgReg::R0), Op2::Reg(r5, 0)),
            Asm::add(Reg::StackPointer, Reg::StackPointer, Op2::Imm(8)),
            Asm::pop(Reg::PC),
        ]
    );
}

#[test]
fn a_branch_back_gets_a_label() {
    let mut cfg = CFG::new(GeneratedCode::new(), "f_loop".to_string());
    let a = cfg.dummy_flow();
    let b = cfg.dummy_flow();
    let c = cfg.dummy_flow();
    b.add_succ_cond(&mut cfg, CondCode::NE, &a);
    let ab = a.add(&mut cfg, b);
    let _abc = ab.add(&mut cfg, c);
    let code = cfg.save();
    assert_eq!(
        code.text,
        vec![
            Asm::Directive(Directive::Text),
            Asm::Directive(Directive::Label("f_loop".to_string())),
            Asm::push(Reg::Link),
            Asm::Directive(Directive::Label("L0".to_string())),
            Asm::Instr(CondCode::NE, Instr::Branch(false, "L0".to_string())),
            Asm::pop(Reg::PC),
            Asm::Directive(Directive::Assemble),
        ]
    );
}

#[test]
fn a_saved_function_prints_as_assembly() {
    let text = two_moves().save().to_string();
    assert!(text.ends_with("f_foo:\n\tPUSH {lr}\n\tMOV r4, #1\n\tMOV r0, r4\n\tPOP {pc}\n\t.ltorg\n"));
}
