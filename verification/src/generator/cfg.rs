use vstd::prelude::*;

use std::collections::HashSet;

use super::arm::{defines_spec, uses_spec, Asm, CondCode, GeneratedCode, Label, Reg, VegNum};

verus! {

broadcast use vstd::std_specs::hash::group_hash_axioms;

/* A control flow graph is kept as a list of blocks, one instruction each,
in the order they are written out; a block names its successors by their
place in that list. */

/// Every virtual register in the set was handed out already.
pub open spec fn in_vegs(s: Set<VegNum>, vegs: nat) -> bool {
    forall|v: VegNum| #[trigger] s.contains(v) ==> 1 <= v <= vegs
}

/// The virtual registers an optional line reads.
pub open spec fn opt_uses(a: Option<Asm>) -> Set<VegNum> {
    match a {
        Some(a) => uses_spec(a),
        None => Set::empty(),
    }
}

/// The virtual registers an optional line writes.
pub open spec fn opt_defines(a: Option<Asm>) -> Set<VegNum> {
    match a {
        Some(a) => defines_spec(a),
        None => Set::empty(),
    }
}

/* Represents a basic block in the control flow graph.
One instruction per block. */
pub struct Block {
    /* Place in the ordering. */
    pub id: usize,
    /* Stored assembly. */
    pub line: Option<Asm>,
    /* This block's relationship to the rest of the graph. */
    pub uses: HashSet<VegNum>,
    pub defines: HashSet<VegNum>,
    pub live_in: HashSet<VegNum>,
    pub live_out: HashSet<VegNum>,
    /* This block's successors, by place in the ordering. */
    pub succs: Vec<(CondCode, usize)>,
    /* Whether or not this block should generate a label when it's linearised. */
    pub needs_label: bool,
    pub label: Option<Label>,
}

/// A block as the graph keeps it: at its own place, with successors in the
/// graph, the registers its line reads and writes, and only registers
/// handed out so far.
pub open spec fn block_wf(b: Block, i: int, n: nat, vegs: nat) -> bool {
    &&& b.id == i
    &&& forall|k: int| 0 <= k < b.succs@.len() ==> (#[trigger] b.succs@[k]).1 < n
    &&& b.uses@ == opt_uses(b.line)
    &&& b.defines@ == opt_defines(b.line)
    &&& in_vegs(b.uses@, vegs)
    &&& in_vegs(b.defines@, vegs)
    &&& in_vegs(b.live_in@, vegs)
    &&& in_vegs(b.live_out@, vegs)
    &&& b.live_in@.finite()
    &&& b.live_out@.finite()
}

/* Describes a flow through the control flow graph, specified
by the start and end block. */
#[derive(Clone, Copy)]
pub struct Flow {
    pub first: usize,
    pub last: usize,
}

/* Represents an entire control flow graph. */
pub struct CFG {
    /* The code we are generating into. */
    pub code: GeneratedCode,
    /* Ordered list of the blocks. */
    pub ordering: Vec<Block>,
    /* How many vegs have been used so far. */
    pub vegs: usize,
    /* The label used to jump to this CFG. */
    pub label: Label,
}

impl CFG {
    /// Every block is well formed.
    pub open spec fn wf(&self) -> bool {
        forall|i: int|
            0 <= i < self.ordering@.len() ==> block_wf(
                #[trigger] self.ordering@[i],
                i,
                self.ordering@.len(),
                self.vegs as nat,
            )
    }

    /// The flow runs between blocks of this graph.
    pub open spec fn has_flow(&self, f: Flow) -> bool {
        f.first < self.ordering@.len() && f.last < self.ordering@.len()
    }

    pub fn new(code: GeneratedCode, label: Label) -> (r: CFG)
        ensures
            r.wf(),
            r.code == code,
            r.ordering@.len() == 0,
            r.vegs == 0,
            r.label == label,
    {
        CFG { code, ordering: Vec::new(), vegs: 0, label }
    }

    /* Creates a flow which starts and ends on a given instruction. */
    fn option_flow(&mut self, line: Option<Asm>) -> (r: Flow)
        requires
            old(self).wf(),
            old(self).ordering@.len() < usize::MAX,
            in_vegs(opt_uses(line), old(self).vegs as nat),
            in_vegs(opt_defines(line), old(self).vegs as nat),
        ensures
            final(self).wf(),
            final(self).ordering@.len() == old(self).ordering@.len() + 1,
            final(self).ordering@.drop_last() == old(self).ordering@,
            final(self).ordering@.last().line == line,
            final(self).ordering@.last().succs@.len() == 0,
            !final(self).ordering@.last().needs_label,
            final(self).ordering@.last().label is None,
            r.first == old(self).ordering@.len() && r.last == old(self).ordering@.len(),
            final(self).vegs == old(self).vegs,
            final(self).code == old(self).code,
            final(self).label == old(self).label,
    {
        /* Calculates which virtuals this instruction reads and writes. */
        let (uses, defines) = match &line {
            Some(a) => {
                let mut copy = a.clone();
                let u = copy.uses();
                let d = copy.defines();
                (u, d)
            },
            None => (HashSet::new(), HashSet::new()),
        };
        let id = self.ordering.len();
        /* Create new block out of line. */
        let block = Block {
            id,
            line,
            succs: Vec::new(),
            needs_label: false,
            label: None,
            uses,
            defines,
            live_in: HashSet::new(),
            live_out: HashSet::new(),
        };
        let ghost before = self.ordering@;
        /* Put this block in the ordering. */
        self.ordering.push(block);
        proof {
            assert(self.ordering@.drop_last() =~= before);
            assert forall|i: int| 0 <= i < self.ordering@.len() implies block_wf(
                #[trigger] self.ordering@[i],
                i,
                self.ordering@.len(),
                self.vegs as nat,
            ) by {
                if i < before.len() {
                    assert(self.ordering@[i] == before[i]);
                    assert(block_wf(before[i], i, before.len(), self.vegs as nat));
                }
            }
        }
        /* Make a flow starting and ending at this block. */
        Flow { first: id, last: id }
    }

    /// A fresh virtual register.
    pub fn get_veg(&mut self) -> (r: Reg)
        requires
            old(self).wf(),
            old(self).vegs < usize::MAX,
        ensures
            final(self).wf(),
            final(self).vegs == old(self).vegs + 1,
            r == Reg::Virtual(final(self).vegs),
            final(self).ordering == old(self).ordering,
            final(self).code == old(self).code,
            final(self).label == old(self).label,
    {
        self.vegs = self.vegs + 1;
        proof {
            assert forall|i: int| 0 <= i < self.ordering@.len() implies block_wf(
                #[trigger] self.ordering@[i],
                i,
                self.ordering@.len(),
                self.vegs as nat,
            ) by {
                assert(block_wf(old(self).ordering@[i], i, self.ordering@.len(), old(self).vegs as nat));
            }
        }
        Reg::Virtual(self.vegs)
    }

    /// A flow of one block holding the given line.
    pub fn flow(&mut self, line: Asm) -> (r: Flow)
        requires
            old(self).wf(),
            old(self).ordering@.len() < usize::MAX,
            in_vegs(uses_spec(line), old(self).vegs as nat),
            in_vegs(defines_spec(line), old(self).vegs as nat),
        ensures
            final(self).wf(),
            final(self).ordering@.len() == old(self).ordering@.len() + 1,
            final(self).ordering@.drop_last() == old(self).ordering@,
            final(self).ordering@.last().line == Some(line),
            final(self).ordering@.last().succs@.len() == 0,
            r.first == old(self).ordering@.len() && r.last == old(self).ordering@.len(),
            final(self).vegs == old(self).vegs,
            final(self).code == old(self).code,
            final(self).label == old(self).label,
    {
        self.option_flow(Some(line))
    }

    /// A flow of one block holding no line.
    pub fn dummy_flow(&mut self) -> (r: Flow)
        requires
            old(self).wf(),
            old(self).ordering@.len() < usize::MAX,
        ensures
            final(self).wf(),
            final(self).ordering@.len() == old(self).ordering@.len() + 1,
            final(self).ordering@.drop_last() == old(self).ordering@,
            final(self).ordering@.last().line is None,
            final(self).ordering@.last().succs@.len() == 0,
            r.first == old(self).ordering@.len() && r.last == old(self).ordering@.len(),
            final(self).vegs == old(self).vegs,
            final(self).code == old(self).code,
            final(self).label == old(self).label,
    {
        self.option_flow(None)
    }

    /// Adds `succ` as a successor of `block` under the condition `cond`. If
    /// the successor isn't immediately after the block in the ordering, it
    /// needs a label.
    #[verifier::rlimit(30)]
    fn add_succ_cond_at(&mut self, block: usize, cond: CondCode, succ: usize)
        requires
            old(self).wf(),
            block < old(self).ordering@.len(),
            succ < old(self).ordering@.len(),
        ensures
            final(self).wf(),
            final(self).ordering@.len() == old(self).ordering@.len(),
            final(self).ordering@[block as int].succs@ == old(self).ordering@[block as int].succs@.push((cond, succ)),
            succ != block + 1 ==> final(self).ordering@[succ as int].needs_label,
            forall|i: int|
                0 <= i < final(self).ordering@.len() ==> (#[trigger] final(self).ordering@[i]).line
                    == old(self).ordering@[i].line,
            forall|i: int|
                0 <= i < final(self).ordering@.len() && i != block ==> (#[trigger] final(self).ordering@[i]).succs
                    == old(self).ordering@[i].succs,
            succ_added(old(self).ordering@, final(self).ordering@, block as int, cond, succ as int),
            final(self).vegs == old(self).vegs,
            final(self).code == old(self).code,
            final(self).label == old(self).label,
    {
        let ghost before = self.ordering@;
        let mut b = self.ordering.remove(block);
        b.succs.push((cond, succ));
        self.ordering.insert(block, b);
        proof {
            assert forall|i: int| 0 <= i < self.ordering@.len() implies #[trigger] self.ordering@[i] == (if i == block {
                b
            } else {
                before[i]
            }) by {}
        }
        let ghost mid = self.ordering@;
        /* The successor follows the block when it is next in the ordering. */
        if !(succ > 0 && succ - 1 == block) {
            let mut s = self.ordering.remove(succ);
            s.needs_label = true;
            self.ordering.insert(succ, s);
            proof {
                assert forall|i: int| 0 <= i < self.ordering@.len() implies #[trigger] self.ordering@[i] == (if i
                    == succ {
                    s
                } else {
                    mid[i]
                }) by {}
            }
        }
        proof {
            assert(succ_added(before, self.ordering@, block as int, cond, succ as int));
        }
        proof {
            assert forall|i: int| 0 <= i < self.ordering@.len() implies block_wf(
                #[trigger] self.ordering@[i],
                i,
                self.ordering@.len(),
                self.vegs as nat,
            ) by {
                assert(block_wf(before[i], i, before.len(), self.vegs as nat));
                if i == block {
                    assert forall|k: int| 0 <= k < self.ordering@[i].succs@.len() implies (#[trigger] self.ordering@[i].succs@[k]).1
                        < self.ordering@.len() by {
                        if k < before[i].succs@.len() {
                            assert(self.ordering@[i].succs@[k] == before[i].succs@[k]);
                        }
                    }
                }
            }
        }
    }
}

/// `b1` is `b0` with `(cond, to)` added to the successors of block `from`,
/// and block `to` marked as needing a label unless it comes right after
/// `from`; nothing else changes.
pub open spec fn succ_added(b0: Seq<Block>, b1: Seq<Block>, from: int, cond: CondCode, to: int) -> bool {
    &&& b1.len() == b0.len()
    &&& forall|i: int|
        0 <= i < b0.len() ==> {
            &&& (#[trigger] b1[i]).id == b0[i].id
            &&& b1[i].line == b0[i].line
            &&& b1[i].uses == b0[i].uses
            &&& b1[i].defines == b0[i].defines
            &&& b1[i].live_in == b0[i].live_in
            &&& b1[i].live_out == b0[i].live_out
            &&& b1[i].label == b0[i].label
            &&& b1[i].succs@ == if i == from {
                b0[i].succs@.push((cond, to as usize))
            } else {
                b0[i].succs@
            }
            &&& b1[i].needs_label == if i == to && to != from + 1 {
                true
            } else {
                b0[i].needs_label
            }
        }
}

impl Flow {
    /* Adds a successor to this flow WITHOUT extending its exit point. */
    pub fn add_succ(&self, cfg: &mut CFG, succ: &Flow)
        requires
            old(cfg).wf(),
            old(cfg).has_flow(*self),
            old(cfg).has_flow(*succ),
        ensures
            final(cfg).wf(),
            final(cfg).ordering@.len() == old(cfg).ordering@.len(),
            final(cfg).ordering@[self.last as int].succs@ == old(cfg).ordering@[self.last as int].succs@.push(
                (CondCode::AL, succ.first),
            ),
            succ_added(old(cfg).ordering@, final(cfg).ordering@, self.last as int, CondCode::AL, succ.first as int),
            final(cfg).vegs == old(cfg).vegs,
            final(cfg).code == old(cfg).code,
    {
        cfg.add_succ_cond_at(self.last, CondCode::AL, succ.first);
    }

    /// As `add_succ`, taken only under the condition `cond`.
    pub fn add_succ_cond(&self, cfg: &mut CFG, cond: CondCode, succ: &Flow)
        requires
            old(cfg).wf(),
            old(cfg).has_flow(*self),
            old(cfg).has_flow(*succ),
        ensures
            final(cfg).wf(),
            final(cfg).ordering@.len() == old(cfg).ordering@.len(),
            final(cfg).ordering@[self.last as int].succs@ == old(cfg).ordering@[self.last as int].succs@.push(
                (cond, succ.first),
            ),
            succ_added(old(cfg).ordering@, final(cfg).ordering@, self.last as int, cond, succ.first as int),
            final(cfg).vegs == old(cfg).vegs,
            final(cfg).code == old(cfg).code,
    {
        cfg.add_succ_cond_at(self.last, cond, succ.first);
    }

    /* Returns a new flow which connects two flows,
    but doesn't connect their links. */
    pub fn tunnel(&self, other: &Flow) -> (r: Flow)
        ensures
            r.first == self.first,
            r.last == other.last,
    {
        Flow { first: self.first, last: other.last }
    }

    /* Returns a flow which flows through both inputs.
    (A -> B) + (C -> D) == A -> D */
    pub fn add(self, cfg: &mut CFG, rhs: Flow) -> (r: Flow)
        requires
            old(cfg).wf(),
            old(cfg).has_flow(self),
            old(cfg).has_flow(rhs),
        ensures
            final(cfg).wf(),
            final(cfg).ordering@.len() == old(cfg).ordering@.len(),
            final(cfg).ordering@[self.last as int].succs@ == old(cfg).ordering@[self.last as int].succs@.push(
                (CondCode::AL, rhs.first),
            ),
            succ_added(old(cfg).ordering@, final(cfg).ordering@, self.last as int, CondCode::AL, rhs.first as int),
            r.first == self.first,
            r.last == rhs.last,
            final(cfg).vegs == old(cfg).vegs,
            final(cfg).code == old(cfg).code,
    {
        /* Attach the last node of this flow to the first of the next one. */
        self.add_succ(cfg, &rhs);
        Flow { first: self.first, last: rhs.last }
    }

    /* Extends a flow through another flow: x += (C -> D) makes x end at D. */
    pub fn add_assign(&mut self, cfg: &mut CFG, rhs: Flow)
        requires
            old(cfg).wf(),
            old(cfg).has_flow(*old(self)),
            old(cfg).has_flow(rhs),
        ensures
            final(cfg).wf(),
            final(cfg).ordering@.len() == old(cfg).ordering@.len(),
            final(cfg).ordering@[old(self).last as int].succs@ == old(cfg).ordering@[old(self).last as int].succs@.push(
                (CondCode::AL, rhs.first),
            ),
            succ_added(old(cfg).ordering@, final(cfg).ordering@, old(self).last as int, CondCode::AL, rhs.first as int),
            final(self).first == old(self).first,
            final(self).last == rhs.last,
            final(cfg).vegs == old(cfg).vegs,
            final(cfg).code == old(cfg).code,
    {
        self.add_succ(cfg, &rhs);
        self.last = rhs.last;
    }
}

} // verus!
