use vstd::prelude::*;

use std::collections::HashMap;

use super::allocate::{
    calculate_interference, calculate_liveness, colour, colouring_spec, covers, general_regs_spec, graph_view, interfering,
    lemma_veg_range, live_at, live_within, node_set, slots_from, spilled_nodes, veg_range, below_live, Location,
};
use super::arm::{
    lines, AddressingMode, Asm, CondCode, DataSize, Directive, GenReg, GeneratedCode, Instr, Label, LoadArg, Op2, Reg,
    SAsm, SDirective, SInstr, SLoadArg, UnaryInstr, VegNum,
};
use super::cfg::{Block, CFG};
use super::display::asm_allocated;
use super::arm::{defines_spec, uses_spec, virt};

verus! {

broadcast use vstd::std_specs::hash::group_hash_axioms;

/* Writing a control flow graph out as a list of lines, with its virtual
registers replaced by the locations a colouring gave them. A virtual
register in a general register is renamed; one on the stack is loaded into
r4 or r5 (in turn) before the line that reads it, and stored back from one
of them after the line that writes it. */

/// A colouring the lines can be written with: every virtual register has a
/// location, registers among the general ones and stack slots within reach
/// of a 32-bit offset.
pub open spec fn colouring_ok(col: Map<VegNum, Location>, vegs: nat) -> bool {
    &&& forall|v: VegNum| 1 <= v <= vegs ==> #[trigger] col.contains_key(v)
    &&& forall|v: VegNum|
        #[trigger] col.contains_key(v) ==> match col[v] {
            Location::Reg(c) => c < 8,
            Location::Spill(s) => s * 4 <= i32::MAX,
        }
}

/// The register a spilled value passes through: r4 or r5.
pub open spec fn temp_reg(r4: bool) -> Reg {
    if r4 {
        Reg::General(GenReg::R4)
    } else {
        Reg::General(GenReg::R5)
    }
}

/// Reading register `r`: the lines that load it (none for a register the
/// colouring does not place, which is left as it is), the register read in its
/// place, and whether the next load goes to r4.
pub open spec fn load_st(col: Map<VegNum, Location>, r: Reg, r4: bool) -> (Seq<SAsm>, Reg, bool) {
    match r {
        Reg::Virtual(v) => if !col.contains_key(v) {
            (Seq::empty(), r, r4)
        } else {
            match col[v] {
            Location::Reg(c) => (Seq::empty(), Reg::General(general_regs_spec()[c as int]), r4),
            Location::Spill(s) => (
                seq![
                    SAsm::Instr(
                        CondCode::AL,
                        SInstr::Load(DataSize::Word, temp_reg(!r4), SLoadArg::MemAddress(Reg::StackPointer, (s * 4) as i32)),
                    ),
                ],
                temp_reg(!r4),
                !r4,
            ),
        }
        },
        _ => (Seq::empty(), r, r4),
    }
}

/// Writing register `r`: the lines that store it afterwards, the register
/// written in its place, and whether the next store goes from r4.
pub open spec fn save_st(col: Map<VegNum, Location>, r: Reg, s4: bool) -> (Seq<SAsm>, Reg, bool) {
    match r {
        Reg::Virtual(v) => if !col.contains_key(v) {
            (Seq::empty(), r, s4)
        } else {
            match col[v] {
            Location::Reg(c) => (Seq::empty(), Reg::General(general_regs_spec()[c as int]), s4),
            Location::Spill(s) => (
                seq![
                    SAsm::Instr(
                        CondCode::AL,
                        SInstr::Store(
                            DataSize::Word,
                            temp_reg(!s4),
                            (Reg::StackPointer, (s * 4) as i32),
                            AddressingMode::Default,
                        ),
                    ),
                ],
                temp_reg(!s4),
                !s4,
            ),
        }
        },
        _ => (Seq::empty(), r, s4),
    }
}

/// The registers a line reads, in order, replaced as `load_st` says: the
/// loads, the line, and the state after.
pub open spec fn uses_st(a: SAsm, col: Map<VegNum, Location>, r4: bool) -> (Seq<SAsm>, SAsm, bool) {
    match a {
        SAsm::Instr(c, i) => match i {
            SInstr::Binary(op, d, r1, Op2::Reg(r2, sh), f) => {
                let (l1, q1, b1) = load_st(col, r1, r4);
                let (l2, q2, b2) = load_st(col, r2, b1);
                (l1 + l2, SAsm::Instr(c, SInstr::Binary(op, d, q1, Op2::Reg(q2, sh), f)), b2)
            },
            SInstr::Store(sz, r1, (r2, off), am) => {
                let (l1, q1, b1) = load_st(col, r1, r4);
                let (l2, q2, b2) = load_st(col, r2, b1);
                (l1 + l2, SAsm::Instr(c, SInstr::Store(sz, q1, (q2, off), am)), b2)
            },
            SInstr::Multiply(x, y, r1, r2) => {
                let (l1, q1, b1) = load_st(col, r1, r4);
                let (l2, q2, b2) = load_st(col, r2, b1);
                (l1 + l2, SAsm::Instr(c, SInstr::Multiply(x, y, q1, q2)), b2)
            },
            SInstr::Push(r) => {
                let (l, q, b) = load_st(col, r, r4);
                (l, SAsm::Instr(c, SInstr::Push(q)), b)
            },
            SInstr::BranchReg(lk, r) => {
                let (l, q, b) = load_st(col, r, r4);
                (l, SAsm::Instr(c, SInstr::BranchReg(lk, q)), b)
            },
            SInstr::Unary(UnaryInstr::Mov, d, Op2::Reg(r, sh), f) => {
                let (l, q, b) = load_st(col, r, r4);
                (l, SAsm::Instr(c, SInstr::Unary(UnaryInstr::Mov, d, Op2::Reg(q, sh), f)), b)
            },
            SInstr::Unary(UnaryInstr::Cmp, r1, Op2::Reg(r2, sh), f) => {
                let (l1, q1, b1) = load_st(col, r1, r4);
                let (l2, q2, b2) = load_st(col, r2, b1);
                (l1 + l2, SAsm::Instr(c, SInstr::Unary(UnaryInstr::Cmp, q1, Op2::Reg(q2, sh), f)), b2)
            },
            SInstr::Unary(UnaryInstr::Cmp, r1, o, f) => {
                let (l, q, b) = load_st(col, r1, r4);
                (l, SAsm::Instr(c, SInstr::Unary(UnaryInstr::Cmp, q, o, f)), b)
            },
            SInstr::Binary(op, d, r, o, f) => {
                let (l, q, b) = load_st(col, r, r4);
                (l, SAsm::Instr(c, SInstr::Binary(op, d, q, o, f)), b)
            },
            SInstr::Load(sz, d, SLoadArg::MemAddress(r, off)) => {
                let (l, q, b) = load_st(col, r, r4);
                (l, SAsm::Instr(c, SInstr::Load(sz, d, SLoadArg::MemAddress(q, off))), b)
            },
            _ => (Seq::empty(), a, r4),
        },
        _ => (Seq::empty(), a, r4),
    }
}

/// The registers a line writes, in order, replaced as `save_st` says: the
/// stores that follow the line, the line, and the state after.
pub open spec fn defines_st(a: SAsm, col: Map<VegNum, Location>, s4: bool) -> (Seq<SAsm>, SAsm, bool) {
    match a {
        SAsm::Instr(c, i) => match i {
            SInstr::Pop(r) => {
                let (l, q, b) = save_st(col, r, s4);
                (l, SAsm::Instr(c, SInstr::Pop(q)), b)
            },
            SInstr::Unary(UnaryInstr::Mov, r, o, f) => {
                let (l, q, b) = save_st(col, r, s4);
                (l, SAsm::Instr(c, SInstr::Unary(UnaryInstr::Mov, q, o, f)), b)
            },
            SInstr::Binary(op, r, x, o, f) => {
                let (l, q, b) = save_st(col, r, s4);
                (l, SAsm::Instr(c, SInstr::Binary(op, q, x, o, f)), b)
            },
            SInstr::Load(sz, r, arg) => {
                let (l, q, b) = save_st(col, r, s4);
                (l, SAsm::Instr(c, SInstr::Load(sz, q, arg)), b)
            },
            SInstr::Multiply(r1, r2, x, y) => {
                let (l1, q1, b1) = save_st(col, r1, s4);
                let (l2, q2, b2) = save_st(col, r2, b1);
                (l1 + l2, SAsm::Instr(c, SInstr::Multiply(q1, q2, x, y)), b2)
            },
            _ => (Seq::empty(), a, s4),
        },
        _ => (Seq::empty(), a, s4),
    }
}

/// Where writing the blocks has got to: which of r4 and r5 the next load
/// and the next store use, how many labels were made, and each block's
/// label so far.
pub struct LinState {
    pub load_r4: bool,
    pub save_r4: bool,
    pub made: nat,
    pub labels: Seq<Option<Seq<char>>>,
}

/// The label of block `j`: the one it has, or a fresh one, "L" and the
/// number of labels made so far.
pub open spec fn label_of(st: LinState, j: int) -> (Seq<char>, LinState) {
    match st.labels[j] {
        Some(l) => (l, st),
        None => {
            let l = seq!['L'] + crate::text::int_str(st.made as int);
            (l, LinState { made: st.made + 1, labels: st.labels.update(j, Some(l)), ..st })
        },
    }
}

/// The branches from block `i` to those of its successors that do not
/// come right after it.
pub open spec fn branch_lines(i: int, succs: Seq<(CondCode, usize)>, st: LinState) -> (Seq<SAsm>, LinState)
    decreases succs.len(),
{
    if succs.len() == 0 {
        (Seq::empty(), st)
    } else {
        let (ls, st1) = branch_lines(i, succs.drop_last(), st);
        let (c, j) = succs.last();
        if j == i + 1 {
            (ls, st1)
        } else {
            let (l, st2) = label_of(st1, j as int);
            (ls.push(SAsm::Instr(c, SInstr::Branch(false, l))), st2)
        }
    }
}

/// Giving back the stack space for the spilled values, if there is any.
pub open spec fn dealloc_lines(k: i32) -> Seq<SAsm> {
    if k != 0 {
        seq![
            SAsm::Instr(
                CondCode::AL,
                SInstr::Binary(
                    super::arm::BinaryInstr::Add,
                    Reg::StackPointer,
                    Reg::StackPointer,
                    Op2::Imm(k),
                    false,
                ),
            ),
        ]
    } else {
        Seq::empty()
    }
}

/// The lines of a block's line, if it has one: the loads, the line with
/// its registers replaced, and the stores.
pub open spec fn line_lines(line: Option<Asm>, col: Map<VegNum, Location>, st: LinState) -> (Seq<SAsm>, LinState) {
    match line {
        Some(a) => {
            let (loads, a1, r4) = uses_st(a@, col, st.load_r4);
            let (stores, a2, s4) = defines_st(a1, col, st.save_r4);
            (loads.push(a2) + stores, LinState { load_r4: r4, save_r4: s4, ..st })
        },
        None => (Seq::empty(), st),
    }
}

/// The lines of block `i`: its label when one is needed, its line with
/// the loads before and the stores after, a return when it has no
/// successor, and its branches.
pub open spec fn block_lines(b: Block, i: int, col: Map<VegNum, Location>, k: i32, st: LinState) -> (
    Seq<SAsm>,
    LinState,
) {
    let (l1, st1) = if b.needs_label {
        let (l, s) = label_of(st, i);
        (seq![SAsm::Directive(SDirective::Label(l))], s)
    } else {
        (Seq::empty(), st)
    };
    let (l2, st2) = line_lines(b.line, col, st1);
    let l3 = if b.succs@.len() == 0 {
        dealloc_lines(k).push(SAsm::Instr(CondCode::AL, SInstr::Pop(Reg::PC)))
    } else {
        Seq::empty()
    };
    let (l4, st4) = branch_lines(i, b.succs@, st2);
    (l1 + l2 + l3 + l4, st4)
}

/// The lines of the first `n` blocks.
pub open spec fn linearised(blocks: Seq<Block>, n: int, col: Map<VegNum, Location>, k: i32, st: LinState) -> (
    Seq<SAsm>,
    LinState,
)
    decreases n,
{
    if n <= 0 {
        (Seq::empty(), st)
    } else {
        let (ls, st1) = linearised(blocks, n - 1, col, k, st);
        let (lb, st2) = block_lines(blocks[n - 1], n - 1, col, k, st1);
        (ls + lb, st2)
    }
}

/// The labels the blocks have before they are written.
pub open spec fn block_labels(blocks: Seq<Block>) -> Seq<Option<Seq<char>>> {
    Seq::new(
        blocks.len(),
        |i: int|
            match blocks[i].label {
                Some(l) => Some(l@),
                None => None,
            },
    )
}

/// The stack slots and registers of a colouring are within reach.
pub open spec fn locations_ok(col: Map<VegNum, Location>) -> bool {
    forall|v: VegNum|
        #[trigger] col.contains_key(v) ==> match col[v] {
            Location::Reg(c) => c < 8,
            Location::Spill(s) => s * 4 <= i32::MAX,
        }
}

/// The labels of a list, by their characters.
pub open spec fn opt_labels(v: Seq<Option<Label>>) -> Seq<Option<Seq<char>>> {
    Seq::new(
        v.len(),
        |i: int|
            match v[i] {
                Some(l) => Some(l@),
                None => None,
            },
    )
}

/// How many blocks before `n` have a label now that had none at first.
pub open spec fn fresh_count(init: Seq<Option<Seq<char>>>, cur: Seq<Option<Seq<char>>>, n: int) -> nat
    decreases n,
{
    if n <= 0 {
        0
    } else {
        fresh_count(init, cur, n - 1) + if cur[n - 1] is Some && init[n - 1] is None {
            1nat
        } else {
            0nat
        }
    }
}

proof fn lemma_fresh_count_le(init: Seq<Option<Seq<char>>>, cur: Seq<Option<Seq<char>>>, n: int)
    requires
        n >= 0,
    ensures
        fresh_count(init, cur, n) <= n,
    decreases n,
{
    if n > 0 {
        lemma_fresh_count_le(init, cur, n - 1);
    }
}

proof fn lemma_fresh_count_update(init: Seq<Option<Seq<char>>>, cur: Seq<Option<Seq<char>>>, j: int, l: Seq<char>, n: int)
    requires
        0 <= j < cur.len(),
        n <= cur.len(),
        cur[j] is None,
        init[j] is None,
    ensures
        fresh_count(init, cur.update(j, Some(l)), n) == fresh_count(init, cur, n) + if 0 <= j < n {
            1nat
        } else {
            0nat
        },
    decreases n,
{
    if n > 0 {
        lemma_fresh_count_update(init, cur, j, l, n - 1);
    }
}

proof fn lemma_lines_push(v: Seq<Asm>, a: Asm)
    ensures
        lines(v.push(a)) == lines(v).push(a@),
{
    assert(lines(v.push(a)) =~= lines(v).push(a@));
}

/* Reads register `r` as the colouring says, loading it first when it is on
the stack. */
fn load_reg(code: &mut GeneratedCode, col: &HashMap<VegNum, Location>, r: Reg, r4: &mut bool) -> (q: Reg)
    requires
        locations_ok(col@),
    ensures
        lines(final(code).text@) == lines(old(code).text@) + load_st(col@, r, *old(r4)).0,
        q == load_st(col@, r, *old(r4)).1,
        *final(r4) == load_st(col@, r, *old(r4)).2,
        final(code).next_label == old(code).next_label,
{
    match r {
        Reg::Virtual(v) => match col.get(&v) {
            Some(Location::Reg(c)) => Location::Reg(*c).reg(),
            Some(Location::Spill(s)) => {
                *r4 = !*r4;
                let t = if *r4 {
                    Reg::General(GenReg::R4)
                } else {
                    Reg::General(GenReg::R5)
                };
                let off = (*s * 4) as i32;
                code.emit(Asm::ldr(t, LoadArg::MemAddress(Reg::StackPointer, off)));
                proof {
                    assert(lines(code.text@) =~= lines(old(code).text@) + load_st(col@, r, *old(r4)).0);
                }
                t
            },
            None => {
                assert(lines(code.text@) =~= lines(old(code).text@) + Seq::<SAsm>::empty());
                r
            },
        },
        _ => {
            assert(lines(code.text@) =~= lines(old(code).text@) + Seq::<SAsm>::empty());
            r
        },
    }
}

/* Writes register `r` as the colouring says: a register on the stack is
written in r4 or r5, which is stored afterwards. */
fn save_reg(added: &mut Vec<Asm>, col: &HashMap<VegNum, Location>, r: Reg, s4: &mut bool) -> (q: Reg)
    requires
        locations_ok(col@),
    ensures
        lines(final(added)@) == lines(old(added)@) + save_st(col@, r, *old(s4)).0,
        q == save_st(col@, r, *old(s4)).1,
        *final(s4) == save_st(col@, r, *old(s4)).2,
{
    match r {
        Reg::Virtual(v) => match col.get(&v) {
            Some(Location::Reg(c)) => {
                assert(lines(added@) =~= lines(old(added)@) + Seq::<SAsm>::empty());
                Location::Reg(*c).reg()
            },
            Some(Location::Spill(s)) => {
                *s4 = !*s4;
                let t = if *s4 {
                    Reg::General(GenReg::R4)
                } else {
                    Reg::General(GenReg::R5)
                };
                let off = (*s * 4) as i32;
                let a = Asm::str(t, (Reg::StackPointer, off));
                proof {
                    lemma_lines_push(added@, a);
                }
                added.push(a);
                proof {
                    assert(lines(added@) =~= lines(old(added)@) + save_st(col@, r, *old(s4)).0);
                }
                t
            },
            None => {
                assert(lines(added@) =~= lines(old(added)@) + Seq::<SAsm>::empty());
                r
            },
        },
        _ => {
            assert(lines(added@) =~= lines(old(added)@) + Seq::<SAsm>::empty());
            r
        },
    }
}

/* The line with the registers it reads replaced, after the loads they
need. */
fn load_uses(code: &mut GeneratedCode, col: &HashMap<VegNum, Location>, a: &Asm, r4: &mut bool) -> (b: Asm)
    requires
        locations_ok(col@),
    ensures
        lines(final(code).text@) == lines(old(code).text@) + uses_st(a@, col@, *old(r4)).0,
        b@ == uses_st(a@, col@, *old(r4)).1,
        *final(r4) == uses_st(a@, col@, *old(r4)).2,
        final(code).next_label == old(code).next_label,
{
    let ghost t0 = lines(code.text@);
    let b = match a {
        Asm::Instr(c, Instr::Binary(op, d, r1, Op2::Reg(r2, sh), f)) => {
            let q1 = load_reg(code, col, *r1, r4);
            let q2 = load_reg(code, col, *r2, r4);
            Asm::Instr(*c, Instr::Binary(*op, *d, q1, Op2::Reg(q2, *sh), *f))
        },
        Asm::Instr(c, Instr::Store(sz, r1, (r2, off), am)) => {
            let q1 = load_reg(code, col, *r1, r4);
            let q2 = load_reg(code, col, *r2, r4);
            Asm::Instr(*c, Instr::Store(*sz, q1, (q2, *off), *am))
        },
        Asm::Instr(c, Instr::Multiply(x, y, r1, r2)) => {
            let q1 = load_reg(code, col, *r1, r4);
            let q2 = load_reg(code, col, *r2, r4);
            Asm::Instr(*c, Instr::Multiply(*x, *y, q1, q2))
        },
        Asm::Instr(c, Instr::Push(r)) => {
            let q = load_reg(code, col, *r, r4);
            Asm::Instr(*c, Instr::Push(q))
        },
        Asm::Instr(c, Instr::BranchReg(lk, r)) => {
            let q = load_reg(code, col, *r, r4);
            Asm::Instr(*c, Instr::BranchReg(*lk, q))
        },
        Asm::Instr(c, Instr::Unary(UnaryInstr::Mov, d, Op2::Reg(r, sh), f)) => {
            let q = load_reg(code, col, *r, r4);
            Asm::Instr(*c, Instr::Unary(UnaryInstr::Mov, *d, Op2::Reg(q, *sh), *f))
        },
        Asm::Instr(c, Instr::Unary(UnaryInstr::Cmp, r1, Op2::Reg(r2, sh), f)) => {
            let q1 = load_reg(code, col, *r1, r4);
            let q2 = load_reg(code, col, *r2, r4);
            Asm::Instr(*c, Instr::Unary(UnaryInstr::Cmp, q1, Op2::Reg(q2, *sh), *f))
        },
        Asm::Instr(c, Instr::Unary(UnaryInstr::Cmp, r1, o, f)) => {
            let q = load_reg(code, col, *r1, r4);
            Asm::Instr(*c, Instr::Unary(UnaryInstr::Cmp, q, *o, *f))
        },
        Asm::Instr(c, Instr::Binary(op, d, r, o, f)) => {
            let q = load_reg(code, col, *r, r4);
            Asm::Instr(*c, Instr::Binary(*op, *d, q, *o, *f))
        },
        Asm::Instr(c, Instr::Load(sz, d, LoadArg::MemAddress(r, off))) => {
            let q = load_reg(code, col, *r, r4);
            Asm::Instr(*c, Instr::Load(*sz, *d, LoadArg::MemAddress(q, *off)))
        },
        _ => {
            assert(lines(code.text@) =~= t0 + Seq::<SAsm>::empty());
            a.clone()
        },
    };
    proof {
        assert(lines(code.text@) =~= t0 + uses_st(a@, col@, *old(r4)).0);
    }
    b
}

/* The line with the registers it writes replaced; the stores they need go
to `added`. */
fn save_defines(added: &mut Vec<Asm>, col: &HashMap<VegNum, Location>, a: Asm, s4: &mut bool) -> (b: Asm)
    requires
        locations_ok(col@),
    ensures
        lines(final(added)@) == lines(old(added)@) + defines_st(a@, col@, *old(s4)).0,
        b@ == defines_st(a@, col@, *old(s4)).1,
        *final(s4) == defines_st(a@, col@, *old(s4)).2,
{
    let ghost t0 = lines(added@);
    let ghost av = a@;
    let b = match a {
        Asm::Instr(c, Instr::Pop(r)) => {
            let q = save_reg(added, col, r, s4);
            Asm::Instr(c, Instr::Pop(q))
        },
        Asm::Instr(c, Instr::Unary(UnaryInstr::Mov, r, o, f)) => {
            let q = save_reg(added, col, r, s4);
            Asm::Instr(c, Instr::Unary(UnaryInstr::Mov, q, o, f))
        },
        Asm::Instr(c, Instr::Binary(op, r, x, o, f)) => {
            let q = save_reg(added, col, r, s4);
            Asm::Instr(c, Instr::Binary(op, q, x, o, f))
        },
        Asm::Instr(c, Instr::Load(sz, r, arg)) => {
            let q = save_reg(added, col, r, s4);
            Asm::Instr(c, Instr::Load(sz, q, arg))
        },
        Asm::Instr(c, Instr::Multiply(r1, r2, x, y)) => {
            let q1 = save_reg(added, col, r1, s4);
            let q2 = save_reg(added, col, r2, s4);
            Asm::Instr(c, Instr::Multiply(q1, q2, x, y))
        },
        other => {
            assert(lines(added@) =~= t0 + Seq::<SAsm>::empty());
            other
        },
    };
    proof {
        assert(lines(added@) =~= t0 + defines_st(av, col@, *old(s4)).0);
    }
    b
}

/// The state before the first block is written: the first load and the
/// first store go through r5, and the blocks have the labels they carry.
pub open spec fn start_state(blocks: Seq<Block>, made: nat) -> LinState {
    LinState { load_r4: true, save_r4: true, made, labels: block_labels(blocks) }
}

/* The label of block `j`, made now if it has none yet. */
fn label_at(code: &mut GeneratedCode, labels: &mut Vec<Option<Label>>, j: usize, Ghost(st): Ghost<LinState>) -> (l: Label)
    requires
        j < old(labels)@.len(),
        st.made == old(code).labels_made(),
        st.labels == opt_labels(old(labels)@),
        old(labels)@[j as int] is None ==> old(code).labels_made() < u32::MAX,
    ensures
        l@ == label_of(st, j as int).0,
        label_of(st, j as int).1 == (LinState {
            made: final(code).labels_made(),
            labels: opt_labels(final(labels)@),
            ..st
        }),
        final(labels)@.len() == old(labels)@.len(),
        final(code).text == old(code).text,
{
    match &labels[j] {
        Some(l) => {
            let r = l.clone();
            proof {
                assert(opt_labels(labels@)[j as int] == Some(l@));
            }
            r
        },
        None => {
            let l = code.get_label();
            labels.set(j, Some(l.clone()));
            proof {
                assert(opt_labels(labels@) =~= opt_labels(old(labels)@).update(j as int, Some(l@)));
            }
            l
        },
    }
}

/// The labels so far keep those the blocks had, and every label made was
/// given to a block that had none.
pub open spec fn labels_inv(init: Seq<Option<Seq<char>>>, cur: Seq<Option<Seq<char>>>, made: nat, made0: nat) -> bool {
    &&& cur.len() == init.len()
    &&& forall|j: int| 0 <= j < init.len() && (#[trigger] init[j]) is Some ==> cur[j] == init[j]
    &&& made == made0 + fresh_count(init, cur, init.len() as int)
}

/* As `label_at`, keeping count of the labels made. */
fn counted_label(
    code: &mut GeneratedCode,
    labels: &mut Vec<Option<Label>>,
    j: usize,
    Ghost(st): Ghost<LinState>,
    Ghost(init): Ghost<Seq<Option<Seq<char>>>>,
    Ghost(made0): Ghost<nat>,
) -> (l: Label)
    requires
        j < old(labels)@.len(),
        st.made == old(code).labels_made(),
        st.labels == opt_labels(old(labels)@),
        labels_inv(init, opt_labels(old(labels)@), old(code).labels_made(), made0),
        made0 + init.len() < u32::MAX,
    ensures
        l@ == label_of(st, j as int).0,
        label_of(st, j as int).1 == (LinState {
            made: final(code).labels_made(),
            labels: opt_labels(final(labels)@),
            ..st
        }),
        final(labels)@.len() == old(labels)@.len(),
        final(code).text == old(code).text,
        labels_inv(init, opt_labels(final(labels)@), final(code).labels_made(), made0),
{
    let ghost cur = opt_labels(labels@);
    proof {
        lemma_fresh_count_le(init, cur, init.len() as int);
        if labels@[j as int] is None {
            assert(cur[j as int] is None);
            if init[j as int] is Some {
                assert(cur[j as int] == init[j as int]);
            }
        }
    }
    let l = label_at(code, labels, j, Ghost(st));
    proof {
        let cur2 = opt_labels(labels@);
        if cur[j as int] is None {
            assert(cur2 == cur.update(j as int, Some(l@)));
            lemma_fresh_count_update(init, cur, j as int, l@, init.len() as int);
        } else {
            assert(cur2 == cur);
        }
    }
    l
}

/* The block's line, reading and writing the locations of its registers. */
fn write_line(code: &mut GeneratedCode, col: &HashMap<VegNum, Location>, line: &Option<Asm>, r4: &mut bool, s4: &mut bool)
    requires
        locations_ok(col@),
    ensures
        ({
            let st = LinState { load_r4: *old(r4), save_r4: *old(s4), made: 0, labels: Seq::empty() };
            &&& lines(final(code).text@) == lines(old(code).text@) + line_lines(*line, col@, st).0
            &&& line_lines(*line, col@, st).1.load_r4 == *final(r4)
            &&& line_lines(*line, col@, st).1.save_r4 == *final(s4)
        }),
        final(code).next_label == old(code).next_label,
{
    let ghost t0 = lines(code.text@);
    match line {
        Some(a) => {
            let a1 = load_uses(code, col, a, r4);
            let mut added: Vec<Asm> = Vec::new();
            let a2 = save_defines(&mut added, col, a1, s4);
            code.emit(a2);
            let ghost t2a = lines(code.text@);
            let mut m: usize = 0;
            proof {
                assert(lines(added@).take(0) =~= Seq::<SAsm>::empty());
                assert(t2a =~= t2a + lines(added@).take(0));
            }
            while m < added.len()
                invariant
                    m <= added@.len(),
                    lines(code.text@) == t2a + lines(added@).take(m as int),
                    code.next_label == old(code).next_label,
                decreases added@.len() - m,
            {
                let x = added[m].clone();
                code.emit(x);
                proof {
                    assert(lines(added@).take(m + 1) =~= lines(added@).take(m as int).push(added@[m as int]@));
                }
                m = m + 1;
            }
            proof {
                assert(lines(added@).take(m as int) =~= lines(added@));
                assert(lines(added@) == lines(Seq::<Asm>::empty()) + defines_st(a1@, col@, *old(s4)).0);
                assert(lines(Seq::<Asm>::empty()) =~= Seq::<SAsm>::empty());
                assert(lines(code.text@) =~= t0 + line_lines(*line, col@, LinState {
                    load_r4: *old(r4),
                    save_r4: *old(s4),
                    made: 0,
                    labels: Seq::empty(),
                }).0);
            }
        },
        None => {
            assert(lines(code.text@) =~= t0 + Seq::<SAsm>::empty());
        },
    }
}

/* The return of a block without successors. */
fn write_exit(code: &mut GeneratedCode, k: i32)
    ensures
        lines(final(code).text@) == lines(old(code).text@) + dealloc_lines(k).push(
            SAsm::Instr(CondCode::AL, SInstr::Pop(Reg::PC)),
        ),
        final(code).next_label == old(code).next_label,
{
    let ghost t0 = lines(code.text@);
    if k != 0 {
        code.emit(Asm::add(Reg::StackPointer, Reg::StackPointer, Op2::Imm(k)));
    }
    code.emit(Asm::pop(Reg::PC));
    assert(lines(code.text@) =~= t0 + dealloc_lines(k).push(SAsm::Instr(CondCode::AL, SInstr::Pop(Reg::PC))));
}

/* The branches of block `i`, as `branch_lines` says. */
fn write_branches(
    code: &mut GeneratedCode,
    labels: &mut Vec<Option<Label>>,
    succs: &Vec<(CondCode, usize)>,
    i: usize,
    Ghost(st): Ghost<LinState>,
    Ghost(init): Ghost<Seq<Option<Seq<char>>>>,
    Ghost(made0): Ghost<nat>,
)
    requires
        i + 1 <= usize::MAX,
        forall|x: int| 0 <= x < succs@.len() ==> (#[trigger] succs@[x]).1 < old(labels)@.len(),
        labels_inv(init, opt_labels(old(labels)@), old(code).labels_made(), made0),
        made0 + init.len() < u32::MAX,
        st.made == old(code).labels_made(),
        st.labels == opt_labels(old(labels)@),
    ensures
        lines(final(code).text@) == lines(old(code).text@) + branch_lines(i as int, succs@, st).0,
        branch_lines(i as int, succs@, st).1 == (LinState {
            made: final(code).labels_made(),
            labels: opt_labels(final(labels)@),
            ..st
        }),
        final(labels)@.len() == old(labels)@.len(),
        labels_inv(init, opt_labels(final(labels)@), final(code).labels_made(), made0),
{
    let ghost t3 = lines(code.text@);
    let mut q: usize = 0;
    proof {
        assert(succs@.take(0) =~= Seq::<(CondCode, usize)>::empty());
        assert(t3 =~= t3 + Seq::<SAsm>::empty());
    }
    while q < succs.len()
        invariant
            q <= succs@.len(),
            i + 1 <= usize::MAX,
            forall|x: int| 0 <= x < succs@.len() ==> (#[trigger] succs@[x]).1 < labels@.len(),
            labels_inv(init, opt_labels(labels@), code.labels_made(), made0),
            made0 + init.len() < u32::MAX,
            labels@.len() == old(labels)@.len(),
            lines(code.text@) == t3 + branch_lines(i as int, succs@.take(q as int), st).0,
            branch_lines(i as int, succs@.take(q as int), st).1 == (LinState {
                made: code.labels_made(),
                labels: opt_labels(labels@),
                ..st
            }),
        decreases succs@.len() - q,
    {
        let (c, j) = succs[q];
        let ghost stq = LinState { made: code.labels_made(), labels: opt_labels(labels@), ..st };
        proof {
            assert(succs@.take(q + 1).drop_last() =~= succs@.take(q as int));
            assert(succs@.take(q + 1).last() == (c, j));
        }
        if j != i + 1 {
            let l = counted_label(code, labels, j, Ghost(stq), Ghost(init), Ghost(made0));
            code.emit(Asm::Instr(c, Instr::Branch(false, l)));
            proof {
                assert(lines(code.text@) =~= t3 + branch_lines(i as int, succs@.take(q + 1), st).0);
            }
        }
        q = q + 1;
    }
    proof {
        assert(succs@.take(q as int) =~= succs@);
    }
}

proof fn lemma_line_lines(line: Option<Asm>, col: Map<VegNum, Location>, st: LinState)
    ensures
        ({
            let n = line_lines(line, col, LinState { load_r4: st.load_r4, save_r4: st.save_r4, made: 0, labels: Seq::empty() });
            &&& line_lines(line, col, st).0 == n.0
            &&& line_lines(line, col, st).1 == (LinState { load_r4: n.1.load_r4, save_r4: n.1.save_r4, ..st })
        }),
{
}

/* The lines of one block, as `block_lines` says. */
#[verifier::spinoff_prover]
#[verifier::rlimit(80)]
fn write_block(
    code: &mut GeneratedCode,
    labels: &mut Vec<Option<Label>>,
    b: &Block,
    i: usize,
    col: &HashMap<VegNum, Location>,
    k: i32,
    r4: &mut bool,
    s4: &mut bool,
    Ghost(init): Ghost<Seq<Option<Seq<char>>>>,
    Ghost(made0): Ghost<nat>,
)
    requires
        locations_ok(col@),
        i < old(labels)@.len(),
        i + 1 <= usize::MAX,
        forall|q: int| 0 <= q < b.succs@.len() ==> (#[trigger] b.succs@[q]).1 < old(labels)@.len(),
        labels_inv(init, opt_labels(old(labels)@), old(code).labels_made(), made0),
        made0 + init.len() < u32::MAX,
    ensures
        ({
            let st = LinState {
                load_r4: *old(r4),
                save_r4: *old(s4),
                made: old(code).labels_made(),
                labels: opt_labels(old(labels)@),
            };
            &&& lines(final(code).text@) == lines(old(code).text@) + block_lines(*b, i as int, col@, k, st).0
            &&& block_lines(*b, i as int, col@, k, st).1 == (LinState {
                load_r4: *final(r4),
                save_r4: *final(s4),
                made: final(code).labels_made(),
                labels: opt_labels(final(labels)@),
            })
        }),
        final(labels)@.len() == old(labels)@.len(),
        labels_inv(init, opt_labels(final(labels)@), final(code).labels_made(), made0),
{
    let ghost st0 = LinState { load_r4: *r4, save_r4: *s4, made: code.labels_made(), labels: opt_labels(labels@) };
    let ghost t0 = lines(code.text@);
    /* If anyone needs to jump to this block, add a label. */
    if b.needs_label {
        let l = counted_label(code, labels, i, Ghost(st0), Ghost(init), Ghost(made0));
        code.emit(Asm::Directive(Directive::Label(l)));
    }
    let ghost st1 = LinState { load_r4: *r4, save_r4: *s4, made: code.labels_made(), labels: opt_labels(labels@) };
    let ghost t1 = lines(code.text@);
    proof {
        if b.needs_label {
            assert(t1 == t0 + seq![SAsm::Directive(SDirective::Label(label_of(st0, i as int).0))]);
        } else {
            assert(t1 =~= t0 + Seq::<SAsm>::empty());
        }
    }
    write_line(code, col, &b.line, r4, s4);
    let ghost st2 = LinState { load_r4: *r4, save_r4: *s4, made: code.labels_made(), labels: opt_labels(labels@) };
    let ghost t2 = lines(code.text@);
    proof {
        lemma_line_lines(b.line, col@, st1);
    }
    /* If the block has no successor, return. */
    if b.succs.len() == 0 {
        write_exit(code, k);
    }
    let ghost t3 = lines(code.text@);
    proof {
        if b.succs@.len() != 0 {
            assert(t3 =~= t2 + Seq::<SAsm>::empty());
        }
    }
    write_branches(code, labels, &b.succs, i, Ghost(st2), Ghost(init), Ghost(made0));
    proof {
        assert(lines(code.text@) =~= t0 + block_lines(*b, i as int, col@, k, st0).0);
    }
}

proof fn lemma_fresh_count_none(init: Seq<Option<Seq<char>>>, n: int)
    requires
        n <= init.len(),
    ensures
        fresh_count(init, init, n) == 0,
    decreases n,
{
    if n > 0 {
        lemma_fresh_count_none(init, n - 1);
    }
}

/// Writes the blocks out in order, as `linearised` says, starting from
/// `start_state`.
pub fn linearise(code: &mut GeneratedCode, blocks: &Vec<Block>, col: &HashMap<VegNum, Location>, k: i32)
    requires
        locations_ok(col@),
        forall|i: int, q: int|
            0 <= i < blocks@.len() && 0 <= q < blocks@[i].succs@.len() ==> (#[trigger] blocks@[i].succs@[q]).1
                < blocks@.len(),
        old(code).labels_made() + blocks@.len() < u32::MAX,
    ensures
        lines(final(code).text@) == lines(old(code).text@) + linearised(
            blocks@,
            blocks@.len() as int,
            col@,
            k,
            start_state(blocks@, old(code).labels_made()),
        ).0,
{
    let n = blocks.len();
    let mut labels: Vec<Option<Label>> = Vec::new();
    let mut i: usize = 0;
    while i < n
        invariant
            n == blocks@.len(),
            i <= n,
            labels@.len() == i,
            forall|j: int| 0 <= j < i ==> opt_labels(labels@)[j] == block_labels(blocks@)[j],
        decreases n - i,
    {
        let l = match &blocks[i].label {
            Some(l) => Some(l.clone()),
            None => None,
        };
        let ghost before = labels@;
        labels.push(l);
        proof {
            assert forall|j: int| 0 <= j < i + 1 implies opt_labels(labels@)[j] == block_labels(blocks@)[j] by {
                if j < i {
                    assert(labels@[j] == before[j]);
                    assert(opt_labels(before)[j] == block_labels(blocks@)[j]);
                }
            }
        }
        i = i + 1;
    }
    let ghost init = opt_labels(labels@);
    let ghost made0 = code.labels_made();
    let ghost s0 = start_state(blocks@, made0);
    let ghost t0 = lines(code.text@);
    proof {
        assert(init =~= block_labels(blocks@));
        lemma_fresh_count_none(init, init.len() as int);
        assert(t0 =~= t0 + Seq::<SAsm>::empty());
    }
    let mut r4 = true;
    let mut s4 = true;
    let mut i: usize = 0;
    while i < n
        invariant
            n == blocks@.len(),
            i <= n,
            locations_ok(col@),
            forall|x: int, q: int|
                0 <= x < blocks@.len() && 0 <= q < blocks@[x].succs@.len() ==> (#[trigger] blocks@[x].succs@[q]).1
                    < blocks@.len(),
            labels@.len() == n,
            init.len() == n,
            made0 + init.len() < u32::MAX,
            labels_inv(init, opt_labels(labels@), code.labels_made(), made0),
            lines(code.text@) == t0 + linearised(blocks@, i as int, col@, k, s0).0,
            linearised(blocks@, i as int, col@, k, s0).1 == (LinState {
                load_r4: r4,
                save_r4: s4,
                made: code.labels_made(),
                labels: opt_labels(labels@),
            }),
        decreases n - i,
    {
        let ghost pre = lines(code.text@);
        proof {
            assert forall|q: int| 0 <= q < blocks@[i as int].succs@.len() implies (#[trigger] blocks@[i as int].succs@[q]).1
                < labels@.len() by {}
        }
        write_block(code, &mut labels, &blocks[i], i, col, k, &mut r4, &mut s4, Ghost(init), Ghost(made0));
        proof {
            assert(lines(code.text@) =~= t0 + linearised(blocks@, i + 1, col@, k, s0).0);
        }
        i = i + 1;
    }
}

/// `live` is what liveness makes of `blocks`: the same blocks, with live
/// sets that satisfy the liveness equations and lie within any sets that
/// hold at least what the equations put in them.
pub open spec fn liveness_of(blocks: Seq<Block>, live: Seq<Block>) -> bool {
    &&& live.len() == blocks.len()
    &&& forall|j: int| 0 <= j < live.len() ==> live_at(live, j)
    &&& forall|j: int|
        0 <= j < live.len() ==> {
            &&& (#[trigger] live[j]).line == blocks[j].line
            &&& live[j].succs == blocks[j].succs
            &&& live[j].uses == blocks[j].uses
            &&& live[j].defines == blocks[j].defines
            &&& live[j].needs_label == blocks[j].needs_label
            &&& live[j].label == blocks[j].label
        }
    &&& forall|sol_in: Seq<Set<VegNum>>, sol_out: Seq<Set<VegNum>>|
        #[trigger] covers(blocks, sol_in, sol_out) && live_within(blocks, sol_in, sol_out) ==> live_within(
            live,
            sol_in,
            sol_out,
        )
}

/// The interference graph of the virtual registers 1 to `vegs` of `live`,
/// as `calculate_interference` builds it.
pub open spec fn interference_graph(live: Seq<Block>, vegs: nat) -> Seq<(VegNum, Set<VegNum>)> {
    Seq::new(vegs, |k: int| ((k + 1) as VegNum, interfering(live, (k + 1) as VegNum)))
}

/// The colouring `colour` gives the registers that interfere in `live`
/// with the eight general registers, and what that colouring is known to
/// be: every register from 1 to `vegs` placed, registers among the eight,
/// interfering registers apart, stack slots numbered from 0.
pub open spec fn colouring_of(live: Seq<Block>, vegs: nat, col: Map<VegNum, Location>) -> bool {
    &&& col == colouring_spec(interference_graph(live, vegs), 8, 0)
    &&& forall|v: VegNum| #[trigger] col.contains_key(v) <==> 1 <= v <= vegs
    &&& forall|v: VegNum| #[trigger] col.contains_key(v) && col[v] is Reg ==> col[v]->Reg_0 < 8
    &&& forall|u: VegNum, v: VegNum|
        1 <= u <= vegs && #[trigger] interfering(live, u).contains(v) && u != v && col[u] is Reg && #[trigger] col[v] is Reg
            ==> col[u] != col[v]
    &&& slots_from(col, 0)
}

/// How many of the virtual registers 1 to `n` go to the stack.
pub open spec fn spill_count(col: Map<VegNum, Location>, n: nat) -> nat
    decreases n,
{
    if n == 0 {
        0
    } else {
        spill_count(col, (n - 1) as nat) + if col.contains_key(n as VegNum) && col[n as VegNum] is Spill {
            1nat
        } else {
            0nat
        }
    }
}

/// The whole text of a function: its label, saving the link register,
/// making room for the spilled values, the blocks, and a literal pool.
pub open spec fn saved_lines(label: Seq<char>, k: i32, body: Seq<SAsm>) -> Seq<SAsm> {
    seq![
        SAsm::Directive(SDirective::Label(label)),
        SAsm::Instr(CondCode::AL, SInstr::Push(Reg::Link)),
    ] + (if k != 0 {
        seq![
            SAsm::Instr(
                CondCode::AL,
                SInstr::Binary(super::arm::BinaryInstr::Sub, Reg::StackPointer, Reg::StackPointer, Op2::Imm(k), false),
            ),
        ]
    } else {
        Seq::empty()
    }) + body + seq![SAsm::Directive(SDirective::Assemble)]
}

/* How many of the virtual registers 1 to `vegs` go to the stack. */
fn count_slots(col: &HashMap<VegNum, Location>, vegs: usize) -> (r: usize)
    requires
        vegs < usize::MAX,
    ensures
        r == spill_count(col@, vegs as nat),
        r <= vegs,
{
    let mut slots: usize = 0;
    let mut v: usize = 1;
    while v <= vegs
        invariant
            1 <= v,
            v <= vegs + 1,
            slots == spill_count(col@, (v - 1) as nat),
            slots < v,
            vegs < usize::MAX,
        decreases vegs + 1 - v,
    {
        proof {
            assert(spill_count(col@, v as nat) == spill_count(col@, (v - 1) as nat) + if col@.contains_key(v)
                && col@[v] is Spill {
                1nat
            } else {
                0nat
            });
        }
        match col.get(&v) {
            Some(Location::Spill(_)) => {
                slots = slots + 1;
            },
            _ => {},
        }
        v = v + 1;
    }
    slots
}

/// What the colouring of the interference graph of `live` gives: a
/// colouring of its registers whose locations are within reach.
proof fn lemma_colouring_of(
    ig: Seq<(VegNum, std::collections::HashSet<VegNum>)>,
    live: Seq<Block>,
    col: Map<VegNum, Location>,
    vegs: nat,
)
    requires
        ig.len() == vegs,
        vegs * 4 <= i32::MAX,
        forall|k: int| 0 <= k < ig.len() ==> (#[trigger] ig[k]).0 == k + 1 && ig[k].1@ == interfering(live, (k + 1) as VegNum),
        forall|v: VegNum| #[trigger] col.contains_key(v) <==> node_set(graph_view(ig)).contains(v),
        forall|v: VegNum| #[trigger] col.contains_key(v) && col[v] is Reg ==> col[v]->Reg_0 < 8,
        forall|i: int, v: VegNum|
            0 <= i < ig.len() && (#[trigger] ig[i]).1@.contains(v) && v != ig[i].0 && col[ig[i].0] is Reg
                && #[trigger] col[v] is Reg ==> col[ig[i].0] != col[v],
        slots_from(col, 0),
        col == colouring_spec(graph_view(ig), 8, 0),
    ensures
        colouring_of(live, vegs, col),
        locations_ok(col),
{
    assert forall|v: VegNum| #[trigger] col.contains_key(v) <==> 1 <= v <= vegs by {
        if col.contains_key(v) {
            assert(node_set(graph_view(ig)).contains(v));
            let i = choose|i: int| 0 <= i < graph_view(ig).len() && #[trigger] graph_view(ig)[i].0 == v;
            assert(ig[i].0 == i + 1);
        }
        if 1 <= v <= vegs {
            assert(graph_view(ig)[v - 1].0 == v);
            assert(node_set(graph_view(ig)).contains(v));
        }
    }
    assert forall|u: VegNum, v: VegNum|
        1 <= u <= vegs && #[trigger] interfering(live, u).contains(v) && u != v && col[u] is Reg && #[trigger] col[v] is Reg
            implies col[u] != col[v] by {
        let i = u - 1;
        assert(ig[i as int].0 == u);
        assert(ig[i as int].1@.contains(v));
    }
    assert(graph_view(ig) =~= interference_graph(live, vegs));
    assert(spilled_nodes(col).subset_of(veg_range(vegs)));
    lemma_veg_range(vegs);
    vstd::set_lib::lemma_len_subset(spilled_nodes(col), veg_range(vegs));
}

/* The function's label, the prologue, the blocks and the literal pool. */
fn write_saved(
    code: &mut GeneratedCode,
    label: &Label,
    blocks: &Vec<Block>,
    col: &HashMap<VegNum, Location>,
    k: i32,
    Ghost(vegs): Ghost<nat>,
)
    requires
        locations_ok(col@),
        forall|v: VegNum| 1 <= v <= vegs ==> #[trigger] col@.contains_key(v),
        forall|j: int|
            0 <= j < blocks@.len() ==> super::cfg::block_wf(#[trigger] blocks@[j], j, blocks@.len(), vegs),
        forall|i: int, q: int|
            0 <= i < blocks@.len() && 0 <= q < blocks@[i].succs@.len() ==> (#[trigger] blocks@[i].succs@[q]).1
                < blocks@.len(),
        old(code).labels_made() + blocks@.len() < u32::MAX,
    ensures
        lines(final(code).text@) == lines(old(code).text@) + saved_lines(
            label@,
            k,
            linearised(blocks@, blocks@.len() as int, col@, k, start_state(blocks@, old(code).labels_made())).0,
        ),
        forall|i: int|
            lines(old(code).text@).len() <= i < lines(final(code).text@).len() ==> asm_allocated(
                #[trigger] lines(final(code).text@)[i],
            ),
{
    let ghost t0 = lines(code.text@);
    code.emit(Asm::Directive(Directive::Label(label.clone())));
    /* Save link register. */
    code.emit(Asm::push(Reg::Link));
    /* Allocate space for stack. */
    if k != 0 {
        code.emit(Asm::sub(Reg::StackPointer, Reg::StackPointer, Op2::Imm(k)));
    }
    /* Linearise while colouring. */
    linearise(code, blocks, col, k);
    /* Mark block for compilations (.ltorg). */
    code.emit(Asm::Directive(Directive::Assemble));
    let ghost body = linearised(blocks@, blocks@.len() as int, col@, k, start_state(blocks@, old(code).labels_made())).0;
    assert(lines(code.text@) =~= t0 + saved_lines(label@, k, body));
    proof {
        lemma_linearised_allocated(blocks@, blocks@.len() as int, col@, k, start_state(blocks@, old(code).labels_made()), vegs);
        lemma_saved_allocated(label@, k, body);
        assert forall|i: int| t0.len() <= i < lines(code.text@).len() implies asm_allocated(
            #[trigger] lines(code.text@)[i],
        ) by {
            assert(lines(code.text@)[i] == saved_lines(label@, k, body)[i - t0.len()]);
        }
    }
}

proof fn lemma_saved_allocated(label: Seq<char>, k: i32, body: Seq<SAsm>)
    requires
        all_allocated(body),
    ensures
        all_allocated(saved_lines(label, k, body)),
{
    let pro = seq![
        SAsm::Directive(SDirective::Label(label)),
        SAsm::Instr(CondCode::AL, SInstr::Push(Reg::Link)),
    ];
    let sub = if k != 0 {
        seq![
            SAsm::Instr(
                CondCode::AL,
                SInstr::Binary(super::arm::BinaryInstr::Sub, Reg::StackPointer, Reg::StackPointer, Op2::Imm(k), false),
            ),
        ]
    } else {
        Seq::<SAsm>::empty()
    };
    let epi = seq![SAsm::Directive(SDirective::Assemble)];
    assert(all_allocated(pro));
    assert(all_allocated(sub));
    assert(all_allocated(epi));
    lemma_all_allocated_add(pro, sub);
    lemma_all_allocated_add(pro + sub, body);
    lemma_all_allocated_add(pro + sub + body, epi);
    assert(saved_lines(label, k, body) == pro + sub + body + epi);
}

/// A register that is virtual has a location in the colouring.
pub open spec fn reg_placed(r: Reg, col: Map<VegNum, Location>) -> bool {
    r matches Reg::Virtual(v) ==> col.contains_key(v)
}

/// Every register of a line that is virtual has a location.
pub open spec fn line_placed(a: SAsm, col: Map<VegNum, Location>) -> bool {
    match a {
        SAsm::Instr(_, i) => match i {
            SInstr::Push(r) => reg_placed(r, col),
            SInstr::Pop(r) => reg_placed(r, col),
            SInstr::Branch(_, _) => true,
            SInstr::BranchReg(_, r) => reg_placed(r, col),
            SInstr::Store(_, a1, (b1, _), _) => reg_placed(a1, col) && reg_placed(b1, col),
            SInstr::Load(_, r, arg) => reg_placed(r, col) && (arg matches SLoadArg::MemAddress(b1, _) ==> reg_placed(
                b1,
                col,
            )),
            SInstr::Binary(_, a1, b1, o, _) => reg_placed(a1, col) && reg_placed(b1, col) && (o matches Op2::Reg(
                c1,
                _,
            ) ==> reg_placed(c1, col)),
            SInstr::Unary(_, a1, o, _) => reg_placed(a1, col) && (o matches Op2::Reg(c1, _) ==> reg_placed(c1, col)),
            SInstr::Multiply(a1, b1, c1, d1) => reg_placed(a1, col) && reg_placed(b1, col) && reg_placed(c1, col)
                && reg_placed(d1, col),
        },
        _ => true,
    }
}

/// Every line has only allocated registers.
pub open spec fn all_allocated(ls: Seq<SAsm>) -> bool {
    forall|i: int| 0 <= i < ls.len() ==> asm_allocated(#[trigger] ls[i])
}

proof fn lemma_all_allocated_add(a: Seq<SAsm>, b: Seq<SAsm>)
    requires
        all_allocated(a),
        all_allocated(b),
    ensures
        all_allocated(a + b),
{
    assert forall|i: int| 0 <= i < (a + b).len() implies asm_allocated(#[trigger] (a + b)[i]) by {
        if i < a.len() {
            assert((a + b)[i] == a[i]);
        } else {
            assert((a + b)[i] == b[i - a.len()]);
        }
    }
}

proof fn lemma_load_allocated(col: Map<VegNum, Location>, r: Reg, b: bool)
    requires
        reg_placed(r, col),
        locations_ok(col),
    ensures
        !(load_st(col, r, b).1 is Virtual),
        all_allocated(load_st(col, r, b).0),
        !(save_st(col, r, b).1 is Virtual),
        all_allocated(save_st(col, r, b).0),
{
}

/// A line whose virtual registers all have locations is written with
/// allocated registers only, and so are the loads and stores around it.
proof fn lemma_line_allocated(a: SAsm, col: Map<VegNum, Location>, r4: bool, s4: bool)
    requires
        line_placed(a, col),
        locations_ok(col),
    ensures
        all_allocated(uses_st(a, col, r4).0),
        all_allocated(defines_st(uses_st(a, col, r4).1, col, s4).0),
        asm_allocated(defines_st(uses_st(a, col, r4).1, col, s4).1),
{
    match a {
        SAsm::Instr(c, i) => match i {
            SInstr::Binary(op, d, r1, o, f) => {
                lemma_load_allocated(col, r1, r4);
                lemma_load_allocated(col, d, s4);
                match o {
                    Op2::Reg(r2, sh) => {
                        lemma_load_allocated(col, r2, load_st(col, r1, r4).2);
                        lemma_all_allocated_add(load_st(col, r1, r4).0, load_st(col, r2, load_st(col, r1, r4).2).0);
                    },
                    _ => {},
                }
            },
            SInstr::Store(sz, r1, (r2, off), am) => {
                lemma_load_allocated(col, r1, r4);
                lemma_load_allocated(col, r2, load_st(col, r1, r4).2);
                lemma_all_allocated_add(load_st(col, r1, r4).0, load_st(col, r2, load_st(col, r1, r4).2).0);
            },
            SInstr::Multiply(x, y, r1, r2) => {
                lemma_load_allocated(col, r1, r4);
                lemma_load_allocated(col, r2, load_st(col, r1, r4).2);
                lemma_all_allocated_add(load_st(col, r1, r4).0, load_st(col, r2, load_st(col, r1, r4).2).0);
                lemma_load_allocated(col, x, s4);
                lemma_load_allocated(col, y, save_st(col, x, s4).2);
                lemma_all_allocated_add(save_st(col, x, s4).0, save_st(col, y, save_st(col, x, s4).2).0);
            },
            SInstr::Push(r) => {
                lemma_load_allocated(col, r, r4);
            },
            SInstr::Pop(r) => {
                lemma_load_allocated(col, r, s4);
            },
            SInstr::BranchReg(lk, r) => {
                lemma_load_allocated(col, r, r4);
            },
            SInstr::Unary(u, r1, o, f) => {
                lemma_load_allocated(col, r1, r4);
                lemma_load_allocated(col, r1, s4);
                match o {
                    Op2::Reg(r2, sh) => {
                        lemma_load_allocated(col, r2, r4);
                        lemma_load_allocated(col, r2, load_st(col, r1, r4).2);
                        lemma_all_allocated_add(load_st(col, r1, r4).0, load_st(col, r2, load_st(col, r1, r4).2).0);
                    },
                    _ => {},
                }
            },
            SInstr::Load(sz, d, arg) => {
                lemma_load_allocated(col, d, s4);
                match arg {
                    SLoadArg::MemAddress(r, off) => {
                        lemma_load_allocated(col, r, r4);
                    },
                    _ => {},
                }
            },
            SInstr::Branch(_, _) => {},
        },
        _ => {},
    }
}

proof fn lemma_virt_placed(r: Reg, s: Set<VegNum>, vegs: nat, col: Map<VegNum, Location>)
    requires
        virt(r).subset_of(s),
        super::cfg::in_vegs(s, vegs),
        forall|v: VegNum| 1 <= v <= vegs ==> #[trigger] col.contains_key(v),
    ensures
        reg_placed(r, col),
{
    match r {
        Reg::Virtual(v) => {
            assert(virt(r).contains(v));
            assert(s.contains(v));
        },
        _ => {},
    }
}

/// The virtual registers of a line are those it reads and writes.
proof fn lemma_line_placed(a: Asm, col: Map<VegNum, Location>, vegs: nat)
    requires
        super::cfg::in_vegs(uses_spec(a), vegs),
        super::cfg::in_vegs(defines_spec(a), vegs),
        forall|v: VegNum| 1 <= v <= vegs ==> #[trigger] col.contains_key(v),
    ensures
        line_placed(a@, col),
{
    let u = uses_spec(a);
    let d = defines_spec(a);
    match a {
        Asm::Instr(_, i) => match i {
            Instr::Binary(_, x, r1, o, _) => {
                lemma_virt_placed(x, d, vegs, col);
                lemma_virt_placed(r1, u, vegs, col);
                match o {
                    Op2::Reg(r2, _) => lemma_virt_placed(r2, u, vegs, col),
                    _ => {},
                }
            },
            Instr::Store(_, r1, (r2, _), _) => {
                lemma_virt_placed(r1, u, vegs, col);
                lemma_virt_placed(r2, u, vegs, col);
            },
            Instr::Multiply(x, y, r1, r2) => {
                lemma_virt_placed(x, d, vegs, col);
                lemma_virt_placed(y, d, vegs, col);
                lemma_virt_placed(r1, u, vegs, col);
                lemma_virt_placed(r2, u, vegs, col);
            },
            Instr::Push(r) => lemma_virt_placed(r, u, vegs, col),
            Instr::Pop(r) => lemma_virt_placed(r, d, vegs, col),
            Instr::BranchReg(_, r) => lemma_virt_placed(r, u, vegs, col),
            Instr::Unary(UnaryInstr::Mov, x, o, _) => {
                lemma_virt_placed(x, d, vegs, col);
                match o {
                    Op2::Reg(r2, _) => lemma_virt_placed(r2, u, vegs, col),
                    _ => {},
                }
            },
            Instr::Unary(UnaryInstr::Cmp, x, o, _) => {
                lemma_virt_placed(x, u, vegs, col);
                match o {
                    Op2::Reg(r2, _) => lemma_virt_placed(r2, u, vegs, col),
                    _ => {},
                }
            },
            Instr::Load(_, x, arg) => {
                lemma_virt_placed(x, d, vegs, col);
                match arg {
                    LoadArg::MemAddress(r, _) => lemma_virt_placed(r, u, vegs, col),
                    _ => {},
                }
            },
            Instr::Branch(_, _) => {},
        },
        _ => {},
    }
}

proof fn lemma_branch_lines_allocated(i: int, succs: Seq<(CondCode, usize)>, st: LinState)
    ensures
        all_allocated(branch_lines(i, succs, st).0),
    decreases succs.len(),
{
    if succs.len() > 0 {
        lemma_branch_lines_allocated(i, succs.drop_last(), st);
    }
}

/// Written with a colouring that places every register of its lines, a
/// graph's text has allocated registers only.
proof fn lemma_linearised_allocated(
    blocks: Seq<Block>,
    n: int,
    col: Map<VegNum, Location>,
    k: i32,
    st: LinState,
    vegs: nat,
)
    requires
        n <= blocks.len(),
        locations_ok(col),
        forall|v: VegNum| 1 <= v <= vegs ==> #[trigger] col.contains_key(v),
        forall|j: int|
            0 <= j < blocks.len() ==> super::cfg::block_wf(#[trigger] blocks[j], j, blocks.len(), vegs),
    ensures
        all_allocated(linearised(blocks, n, col, k, st).0),
    decreases n,
{
    if n > 0 {
        lemma_linearised_allocated(blocks, n - 1, col, k, st, vegs);
        let st1 = linearised(blocks, n - 1, col, k, st).1;
        let b = blocks[n - 1];
        assert(super::cfg::block_wf(b, n - 1, blocks.len(), vegs));
        let (l1, s1) = if b.needs_label {
            let (l, s) = label_of(st1, n - 1);
            (seq![SAsm::Directive(SDirective::Label(l))], s)
        } else {
            (Seq::<SAsm>::empty(), st1)
        };
        assert(all_allocated(l1));
        match b.line {
            Some(a) => {
                lemma_line_placed(a, col, vegs);
                lemma_line_allocated(a@, col, s1.load_r4, s1.save_r4);
                let (loads, a1, r4) = uses_st(a@, col, s1.load_r4);
                let (stores, a2, s4) = defines_st(a1, col, s1.save_r4);
                assert(all_allocated(seq![a2]));
                lemma_all_allocated_add(loads, seq![a2]);
                assert(loads.push(a2) =~= loads + seq![a2]);
                lemma_all_allocated_add(loads.push(a2), stores);
            },
            None => {
                assert(all_allocated(Seq::<SAsm>::empty()));
            },
        }
        let (l2, s2) = line_lines(b.line, col, s1);
        let l3 = if b.succs@.len() == 0 {
            dealloc_lines(k).push(SAsm::Instr(CondCode::AL, SInstr::Pop(Reg::PC)))
        } else {
            Seq::<SAsm>::empty()
        };
        assert(all_allocated(l3));
        lemma_branch_lines_allocated(n - 1, b.succs@, s2);
        lemma_all_allocated_add(l1, l2);
        lemma_all_allocated_add(l1 + l2, l3);
        lemma_all_allocated_add(l1 + l2 + l3, branch_lines(n - 1, b.succs@, s2).0);
        lemma_all_allocated_add(
            linearised(blocks, n - 1, col, k, st).0,
            block_lines(b, n - 1, col, k, st1).0,
        );
    }
}

/// How a line moves the stack pointer, in bytes (down is negative).
pub open spec fn sp_change(a: SAsm) -> int {
    match a {
        SAsm::Instr(_, SInstr::Push(_)) => -4,
        SAsm::Instr(_, SInstr::Pop(_)) => 4,
        SAsm::Instr(
            _,
            SInstr::Binary(super::arm::BinaryInstr::Add, Reg::StackPointer, Reg::StackPointer, Op2::Imm(k), _),
        ) => k as int,
        SAsm::Instr(
            _,
            SInstr::Binary(super::arm::BinaryInstr::Sub, Reg::StackPointer, Reg::StackPointer, Op2::Imm(k), _),
        ) => -k,
        _ => 0,
    }
}

/// How a run of lines moves the stack pointer.
pub open spec fn sp_total(ls: Seq<SAsm>) -> int
    decreases ls.len(),
{
    if ls.len() == 0 {
        0
    } else {
        sp_total(ls.drop_last()) + sp_change(ls.last())
    }
}

proof fn lemma_sp_total_add(a: Seq<SAsm>, b: Seq<SAsm>)
    ensures
        sp_total(a + b) == sp_total(a) + sp_total(b),
    decreases b.len(),
{
    if b.len() == 0 {
        assert(a + b =~= a);
    } else {
        lemma_sp_total_add(a, b.drop_last());
        assert((a + b).drop_last() =~= a + b.drop_last());
        assert((a + b).last() == b.last());
    }
}

/// A saved function's entry lowers the stack pointer by the frame size
/// (and four bytes for the link register), and each of its returns raises
/// it by exactly as much: the stack pointer is the same on return as on
/// entry.
pub proof fn law_stack_balanced(label: Seq<char>, k: i32, body: Seq<SAsm>)
    requires
        k >= 0,
    ensures
        sp_total(saved_lines(label, k, Seq::empty())) == -(k as int) - 4,
        sp_total(dealloc_lines(k).push(SAsm::Instr(CondCode::AL, SInstr::Pop(Reg::PC)))) == k as int + 4,
        saved_lines(label, k, body) == saved_lines(label, k, Seq::empty()).drop_last() + body + seq![
            SAsm::Directive(SDirective::Assemble),
        ],
{
    let pro = seq![
        SAsm::Directive(SDirective::Label(label)),
        SAsm::Instr(CondCode::AL, SInstr::Push(Reg::Link)),
    ];
    let sub = if k != 0 {
        seq![
            SAsm::Instr(
                CondCode::AL,
                SInstr::Binary(super::arm::BinaryInstr::Sub, Reg::StackPointer, Reg::StackPointer, Op2::Imm(k), false),
            ),
        ]
    } else {
        Seq::<SAsm>::empty()
    };
    let epi = seq![SAsm::Directive(SDirective::Assemble)];
    assert(saved_lines(label, k, Seq::empty()) =~= pro + sub + epi);
    assert(saved_lines(label, k, body) =~= pro + sub + body + epi);
    assert((pro + sub + epi).drop_last() =~= pro + sub);
    lemma_sp_total_add(pro, sub);
    lemma_sp_total_add(pro + sub, epi);
    assert(sp_total(pro) == -4) by {
        assert(pro.drop_last().drop_last() =~= Seq::<SAsm>::empty());
        assert(sp_total(pro.drop_last().drop_last()) == 0);
        assert(sp_change(pro.drop_last().last()) == 0);
        assert(sp_total(pro.drop_last()) == 0);
        assert(sp_change(pro.last()) == -4);
    }
    assert(sp_total(epi) == 0) by {
        assert(epi.drop_last() =~= Seq::<SAsm>::empty());
    }
    if k != 0 {
        assert(sub.drop_last() =~= Seq::<SAsm>::empty());
    }
    let ex = dealloc_lines(k).push(SAsm::Instr(CondCode::AL, SInstr::Pop(Reg::PC)));
    assert(ex.drop_last() =~= dealloc_lines(k));
    assert(sp_change(ex.last()) == 4);
    if k != 0 {
        assert(dealloc_lines(k).drop_last() =~= Seq::<SAsm>::empty());
        assert(sp_total(dealloc_lines(k).drop_last()) == 0);
        assert(sp_change(dealloc_lines(k).last()) == k);
        assert(sp_total(dealloc_lines(k)) == k);
    } else {
        assert(sp_total(dealloc_lines(k)) == 0);
    }
}

/// The spilled registers among 1 to `n`.
proof fn lemma_spill_count(col: Map<VegNum, Location>, n: nat)
    requires
        n <= usize::MAX,
    ensures
        spill_count(col, n) == spilled_nodes(col).intersect(veg_range(n)).len(),
        spilled_nodes(col).intersect(veg_range(n)).finite(),
    decreases n,
{
    lemma_veg_range(n);
    if n == 0 {
        assert(spilled_nodes(col).intersect(veg_range(n)) =~= Set::empty());
    } else {
        let m = (n - 1) as nat;
        lemma_spill_count(col, m);
        lemma_veg_range(m);
        let prev = spilled_nodes(col).intersect(veg_range(m));
        let cur = spilled_nodes(col).intersect(veg_range(n));
        assert(!prev.contains(n as VegNum));
        if col.contains_key(n as VegNum) && col[n as VegNum] is Spill {
            assert(cur =~= prev.insert(n as VegNum));
        } else {
            assert(cur =~= prev);
        }
    }
}

/// The frame of a saved function holds every stack slot its colouring
/// gives: a slot's four bytes lie below the frame size, four bytes for
/// each spilled register.
pub proof fn law_frame_holds_spills(live: Seq<Block>, vegs: nat, col: Map<VegNum, Location>)
    requires
        colouring_of(live, vegs, col),
        vegs <= usize::MAX,
    ensures
        forall|v: VegNum|
            #[trigger] col.contains_key(v) && col[v] is Spill ==> 4 * col[v]->Spill_0 + 4 <= 4 * spill_count(col, vegs),
{
    lemma_spill_count(col, vegs);
    assert(spilled_nodes(col).intersect(veg_range(vegs)) =~= spilled_nodes(col));
}

impl CFG {
    /// Allocates registers and writes the graph out: liveness, interference
    /// and colouring with the eight general registers, then the function's
    /// text, four bytes of stack for each spilled value.
    #[verifier::spinoff_prover]
    #[verifier::rlimit(60)]
    pub fn save(self) -> (r: GeneratedCode)
        requires
            self.wf(),
            forall|j: int| 0 <= j < self.ordering@.len() ==> below_live(self.ordering@, j),
            self.vegs * 4 <= i32::MAX,
            self.code.labels_made() + self.ordering@.len() < u32::MAX,
        ensures
            exists|live: Seq<Block>, col: Map<VegNum, Location>|
                #[trigger] liveness_of(self.ordering@, live) && #[trigger] colouring_of(live, self.vegs as nat, col)
                    && lines(r.text@) == lines(self.code.text@) + saved_lines(
                    self.label@,
                    (4 * spill_count(col, self.vegs as nat)) as i32,
                    linearised(
                        live,
                        live.len() as int,
                        col,
                        (4 * spill_count(col, self.vegs as nat)) as i32,
                        start_state(live, self.code.labels_made()),
                    ).0,
                ),
            forall|i: int|
                lines(self.code.text@).len() <= i < lines(r.text@).len() ==> asm_allocated(
                    #[trigger] lines(r.text@)[i],
                ),
    {
        let ghost old_self = self;
        let mut cfg = self;
        /* Populate live ins and live outs. */
        calculate_liveness(&mut cfg);
        /* Create interference graph. */
        let interference = calculate_interference(&mut cfg);
        let ghost ig = interference@;
        let ghost live = cfg.ordering@;
        /* Colour interference graph. */
        let colouring = colour(interference, 8);
        proof {
            lemma_colouring_of(ig, live, colouring@, cfg.vegs as nat);
        }
        /* Four bytes of stack for each spilled value. */
        let slots = count_slots(&colouring, cfg.vegs);
        let stack_size = (slots * 4) as i32;
        proof {
            assert forall|i: int, q: int|
                0 <= i < cfg.ordering@.len() && 0 <= q < cfg.ordering@[i].succs@.len() implies (
                #[trigger] cfg.ordering@[i].succs@[q]).1 < cfg.ordering@.len() by {
                assert(super::cfg::block_wf(cfg.ordering@[i], i, cfg.ordering@.len() as nat, cfg.vegs as nat));
            }
        }
        proof {
            assert forall|j: int| 0 <= j < cfg.ordering@.len() implies super::cfg::block_wf(
                #[trigger] cfg.ordering@[j],
                j,
                cfg.ordering@.len(),
                cfg.vegs as nat,
            ) by {}
        }
        write_saved(&mut cfg.code, &cfg.label, &cfg.ordering, &colouring, stack_size, Ghost(cfg.vegs as nat));
        proof {
            assert(liveness_of(old_self.ordering@, live));
        }
        cfg.code
    }
}

} // verus!
