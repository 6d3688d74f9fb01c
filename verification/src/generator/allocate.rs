use vstd::prelude::*;

use std::collections::{HashMap, HashSet};

use super::arm::{general_regs, CondCode, GenReg, Reg, VegNum};
use super::cfg::{block_wf, in_vegs, Block, CFG};

verus! {

broadcast use vstd::std_specs::hash::group_hash_axioms;

/// A copy of a set of virtual registers.
fn copy_set(s: &HashSet<VegNum>) -> (r: HashSet<VegNum>)
    ensures
        r@ == s@,
{
    let mut r: HashSet<VegNum> = HashSet::new();
    for x in it: s.iter()
        invariant
            it.seq().unref().to_set() == s@,
            r@ == it.seq().take(it.index() as int).unref().to_set(),
            it.index() <= it.seq().len(),
            it.index() == it.seq().len() ==> it.seq().take(it.index() as int) == it.seq(),
    {
        proof {
            assert(it.seq().take(it.index() + 1).unref() =~= it.seq().take(it.index() as int).unref().push(*x));
            it.seq().take(it.index() as int).unref().lemma_push_to_set_commute(*x);
        }
        r.insert(*x);
    }
    r
}

/* ======== LIVENESS ANALYSIS ======== */

/// The union of two sets of virtual registers.
fn set_union(a: &HashSet<VegNum>, b: &HashSet<VegNum>) -> (r: HashSet<VegNum>)
    ensures
        r@ == a@.union(b@),
{
    let mut r = copy_set(a);
    for x in it: b.iter()
        invariant
            it.seq().unref().to_set() == b@,
            r@ == a@.union(it.seq().take(it.index() as int).unref().to_set()),
            it.index() <= it.seq().len(),
            it.index() == it.seq().len() ==> it.seq().take(it.index() as int) == it.seq(),
    {
        proof {
            assert(it.seq().take(it.index() + 1).unref() =~= it.seq().take(it.index() as int).unref().push(*x));
            it.seq().take(it.index() as int).unref().lemma_push_to_set_commute(*x);
        }
        r.insert(*x);
        proof {
            assert(r@ =~= a@.union(it.seq().take(it.index() + 1).unref().to_set()));
        }
    }
    r
}

/// The virtual registers of `a` that are not in `b`.
fn set_difference(a: &HashSet<VegNum>, b: &HashSet<VegNum>) -> (r: HashSet<VegNum>)
    ensures
        r@ == a@.difference(b@),
{
    let mut r: HashSet<VegNum> = HashSet::new();
    for x in it: a.iter()
        invariant
            it.seq().unref().to_set() == a@,
            r@ == it.seq().take(it.index() as int).unref().to_set().difference(b@),
            it.index() <= it.seq().len(),
            it.index() == it.seq().len() ==> it.seq().take(it.index() as int) == it.seq(),
    {
        proof {
            assert(it.seq().take(it.index() + 1).unref() =~= it.seq().take(it.index() as int).unref().push(*x));
            it.seq().take(it.index() as int).unref().lemma_push_to_set_commute(*x);
        }
        if !b.contains(x) {
            r.insert(*x);
        }
        proof {
            assert(r@ =~= it.seq().take(it.index() + 1).unref().to_set().difference(b@));
        }
    }
    r
}

/// Whether two sets of virtual registers are equal.
fn set_eq(a: &HashSet<VegNum>, b: &HashSet<VegNum>) -> (r: bool)
    requires
        a@.finite(),
        b@.finite(),
    ensures
        r == (a@ == b@),
{
    if a.len() != b.len() {
        return false;
    }
    let mut all = true;
    let ghost mut seen: Seq<VegNum> = Seq::empty();
    for x in it: a.iter()
        invariant
            it.seq().unref().to_set() == a@,
            it.index() <= it.seq().len(),
            seen == it.seq().take(it.index() as int).unref(),
            it.index() == it.seq().len() ==> seen == it.seq().unref(),
            it.index() == it.seq().len() ==> seen.to_set() == a@,
            all == (forall|j: int| 0 <= j < seen.len() ==> b@.contains(seen[j])),
    {
        if !b.contains(x) {
            all = false;
        }
        proof {
            let seen0 = seen;
            seen = seen.push(*x);
            assert(seen =~= it.seq().take(it.index() + 1).unref());
            assert(it.seq().take(it.seq().len() as int) =~= it.seq());
            assert(all == (forall|j: int| 0 <= j < seen.len() ==> b@.contains(seen[j]))) by {
                if all {
                    assert forall|j: int| 0 <= j < seen.len() implies b@.contains(seen[j]) by {
                        if j < seen0.len() {
                            assert(seen[j] == seen0[j]);
                        }
                    }
                } else {
                    if b@.contains(*x) {
                        let j = choose|j: int| 0 <= j < seen0.len() && !b@.contains(seen0[j]);
                        assert(seen[j] == seen0[j]);
                    } else {
                        assert(seen[seen.len() - 1] == *x);
                    }
                }
            }
        }
    }
    proof {
        if all {
            assert forall|v: VegNum| a@.contains(v) implies b@.contains(v) by {
                assert(seen.to_set().contains(v));
            }
            vstd::set_lib::lemma_subset_equality(a@, b@);
        } else {
            let j = choose|j: int| 0 <= j < seen.len() && !b@.contains(seen[j]);
            assert(seen.to_set().contains(seen[j]));
        }
    }
    all
}

/// The virtual registers live on entry to any of the successors.
pub open spec fn succ_live_in(blocks: Seq<Block>, succs: Seq<(CondCode, usize)>) -> Set<VegNum>
    decreases succs.len(),
{
    if succs.len() == 0 {
        Set::empty()
    } else {
        succ_live_in(blocks, succs.drop_last()).union(blocks[succs.last().1 as int].live_in@)
    }
}

/// The block satisfies the liveness equations: live in is what it reads
/// and what is live out that it does not write; live out is what is live in
/// at any successor.
pub open spec fn live_at(blocks: Seq<Block>, i: int) -> bool {
    &&& blocks[i].live_in@ == blocks[i].uses@.union(blocks[i].live_out@.difference(blocks[i].defines@))
    &&& blocks[i].live_out@ == succ_live_in(blocks, blocks[i].succs@)
}

/// The sets can only grow toward a solution of the equations.
pub open spec fn below_live(blocks: Seq<Block>, i: int) -> bool {
    &&& blocks[i].live_in@.subset_of(blocks[i].uses@.union(blocks[i].live_out@.difference(blocks[i].defines@)))
    &&& blocks[i].live_out@.subset_of(succ_live_in(blocks, blocks[i].succs@))
}

/// The union of the sets that `sets` gives to the successors.
pub open spec fn succ_sets(sets: Seq<Set<VegNum>>, succs: Seq<(CondCode, usize)>) -> Set<VegNum>
    decreases succs.len(),
{
    if succs.len() == 0 {
        Set::empty()
    } else {
        succ_sets(sets, succs.drop_last()).union(sets[succs.last().1 as int])
    }
}

/// Sets for each block, on entry and on exit, that hold at least what the
/// liveness equations put in them.
pub open spec fn covers(blocks: Seq<Block>, sol_in: Seq<Set<VegNum>>, sol_out: Seq<Set<VegNum>>) -> bool {
    &&& sol_in.len() == blocks.len()
    &&& sol_out.len() == blocks.len()
    &&& forall|i: int|
        0 <= i < blocks.len() ==> blocks[i].uses@.union(sol_out[i].difference(blocks[i].defines@)).subset_of(
            #[trigger] sol_in[i],
        ) && succ_sets(sol_in, blocks[i].succs@).subset_of(sol_out[i])
}

/// The live sets of each block lie within the given sets.
pub open spec fn live_within(blocks: Seq<Block>, sol_in: Seq<Set<VegNum>>, sol_out: Seq<Set<VegNum>>) -> bool {
    forall|i: int|
        0 <= i < blocks.len() ==> (#[trigger] blocks[i]).live_in@.subset_of(sol_in[i]) && blocks[i].live_out@.subset_of(
            sol_out[i],
        )
}

proof fn lemma_succ_live_in_within(blocks: Seq<Block>, sets: Seq<Set<VegNum>>, succs: Seq<(CondCode, usize)>)
    requires
        sets.len() == blocks.len(),
        forall|j: int| 0 <= j < blocks.len() ==> (#[trigger] blocks[j]).live_in@.subset_of(sets[j]),
        forall|k: int| 0 <= k < succs.len() ==> (#[trigger] succs[k]).1 < blocks.len(),
    ensures
        succ_live_in(blocks, succs).subset_of(succ_sets(sets, succs)),
    decreases succs.len(),
{
    if succs.len() > 0 {
        lemma_succ_live_in_within(blocks, sets, succs.drop_last());
        assert(succs.last() == succs[succs.len() - 1]);
    }
}

proof fn lemma_succ_live_in_mono(b1: Seq<Block>, b2: Seq<Block>, succs: Seq<(CondCode, usize)>)
    requires
        b1.len() == b2.len(),
        forall|j: int| 0 <= j < b1.len() ==> (#[trigger] b1[j]).live_in@.subset_of(b2[j].live_in@),
        forall|k: int| 0 <= k < succs.len() ==> (#[trigger] succs[k]).1 < b1.len(),
    ensures
        succ_live_in(b1, succs).subset_of(succ_live_in(b2, succs)),
    decreases succs.len(),
{
    if succs.len() > 0 {
        lemma_succ_live_in_mono(b1, b2, succs.drop_last());
        assert(succs.last() == succs[succs.len() - 1]);
    }
}

proof fn lemma_succ_live_in_in_vegs(blocks: Seq<Block>, succs: Seq<(CondCode, usize)>, vegs: nat)
    requires
        forall|j: int| 0 <= j < blocks.len() ==> in_vegs((#[trigger] blocks[j]).live_in@, vegs) && blocks[j].live_in@.finite(),
        forall|k: int| 0 <= k < succs.len() ==> (#[trigger] succs[k]).1 < blocks.len(),
    ensures
        in_vegs(succ_live_in(blocks, succs), vegs),
        succ_live_in(blocks, succs).finite(),
    decreases succs.len(),
{
    if succs.len() > 0 {
        lemma_succ_live_in_in_vegs(blocks, succs.drop_last(), vegs);
        assert(succs.last() == succs[succs.len() - 1]);
    }
}

/// The virtual registers 1 to n.
pub open spec fn veg_range(n: nat) -> Set<VegNum> {
    Set::new(|v: VegNum| 1 <= v <= n)
}

pub proof fn lemma_veg_range(n: nat)
    requires
        n <= usize::MAX,
    ensures
        veg_range(n).finite(),
        veg_range(n).len() == n,
    decreases n,
{
    if n == 0 {
        assert(veg_range(n) =~= Set::empty());
    } else {
        lemma_veg_range((n - 1) as nat);
        assert(veg_range(n) =~= veg_range((n - 1) as nat).insert(n as VegNum));
    }
}

/// How far the live sets of the blocks are from holding every register.
pub open spec fn live_measure(blocks: Seq<Block>, vegs: nat) -> int
    decreases blocks.len(),
{
    if blocks.len() == 0 {
        0
    } else {
        live_measure(blocks.drop_last(), vegs) + (2 * vegs - blocks.last().live_in@.len() - blocks.last().live_out@.len())
    }
}

proof fn lemma_live_measure_update(blocks: Seq<Block>, i: int, b: Block, vegs: nat)
    requires
        0 <= i < blocks.len(),
    ensures
        live_measure(blocks.update(i, b), vegs) == live_measure(blocks, vegs) + (blocks[i].live_in@.len()
            + blocks[i].live_out@.len()) - (b.live_in@.len() + b.live_out@.len()),
    decreases blocks.len(),
{
    let u = blocks.update(i, b);
    if i == blocks.len() - 1 {
        assert(u.drop_last() =~= blocks.drop_last());
    } else {
        lemma_live_measure_update(blocks.drop_last(), i, b, vegs);
        assert(u.drop_last() =~= blocks.drop_last().update(i, b));
    }
}

proof fn lemma_live_measure_nonneg(blocks: Seq<Block>, vegs: nat)
    requires
        vegs <= usize::MAX,
        forall|j: int|
            0 <= j < blocks.len() ==> in_vegs((#[trigger] blocks[j]).live_in@, vegs) && in_vegs(blocks[j].live_out@, vegs),
    ensures
        live_measure(blocks, vegs) >= 0,
    decreases blocks.len(),
{
    if blocks.len() > 0 {
        lemma_live_measure_nonneg(blocks.drop_last(), vegs);
        let b = blocks.last();
        assert(b == blocks[blocks.len() - 1]);
        lemma_veg_range(vegs);
        assert(b.live_in@.subset_of(veg_range(vegs)));
        assert(b.live_out@.subset_of(veg_range(vegs)));
        vstd::set_lib::lemma_len_subset(b.live_in@, veg_range(vegs));
        vstd::set_lib::lemma_len_subset(b.live_out@, veg_range(vegs));
    }
}

/// A larger finite set that is not the same has more elements.
proof fn lemma_strict_grow(a: Set<VegNum>, b: Set<VegNum>)
    requires
        a.subset_of(b),
        b.finite(),
    ensures
        a.len() <= b.len(),
        a != b ==> a.len() < b.len(),
{
    vstd::set_lib::lemma_len_subset(a, b);
    if a != b && a.len() == b.len() {
        vstd::set_lib::lemma_subset_equality(a, b);
    }
}

/// Fills in what is live on entry to and on exit from each block, until
/// nothing changes: then every block satisfies the liveness equations.
pub fn calculate_liveness(cfg: &mut CFG)
    requires
        old(cfg).wf(),
        forall|j: int| 0 <= j < old(cfg).ordering@.len() ==> below_live(old(cfg).ordering@, j),
    ensures
        final(cfg).wf(),
        final(cfg).ordering@.len() == old(cfg).ordering@.len(),
        forall|j: int| 0 <= j < final(cfg).ordering@.len() ==> live_at(final(cfg).ordering@, j),
        forall|j: int|
            0 <= j < final(cfg).ordering@.len() ==> (#[trigger] final(cfg).ordering@[j]).line == old(
                cfg,
            ).ordering@[j].line && final(cfg).ordering@[j].succs == old(cfg).ordering@[j].succs
                && final(cfg).ordering@[j].uses == old(cfg).ordering@[j].uses && final(cfg).ordering@[j].defines == old(
                cfg,
            ).ordering@[j].defines && final(cfg).ordering@[j].needs_label == old(cfg).ordering@[j].needs_label
                && final(cfg).ordering@[j].label == old(cfg).ordering@[j].label,
        forall|sol_in: Seq<Set<VegNum>>, sol_out: Seq<Set<VegNum>>|
            #[trigger] covers(old(cfg).ordering@, sol_in, sol_out) && live_within(old(cfg).ordering@, sol_in, sol_out)
                ==> live_within(final(cfg).ordering@, sol_in, sol_out),
        final(cfg).vegs == old(cfg).vegs,
        final(cfg).code == old(cfg).code,
        final(cfg).label == old(cfg).label,
{
    let n = cfg.ordering.len();
    let ghost vegs = cfg.vegs as nat;
    let ghost orig = cfg.ordering@;
    /* Until things stop changing. */
    let mut updated = true;
    proof {
        lemma_live_measure_nonneg(cfg.ordering@, vegs);
    }
    while updated
        invariant
            cfg.wf(),
            n == cfg.ordering@.len(),
            vegs == cfg.vegs,
            cfg.code == old(cfg).code,
            cfg.label == old(cfg).label,
            vegs == old(cfg).vegs,
            forall|j: int| 0 <= j < n ==> below_live(cfg.ordering@, j),
            forall|j: int|
                0 <= j < n ==> (#[trigger] cfg.ordering@[j]).line == orig[j].line && cfg.ordering@[j].succs
                    == orig[j].succs && cfg.ordering@[j].uses == orig[j].uses && cfg.ordering@[j].defines == orig[j].defines
                    && cfg.ordering@[j].needs_label == orig[j].needs_label && cfg.ordering@[j].label == orig[j].label,
            forall|sol_in: Seq<Set<VegNum>>, sol_out: Seq<Set<VegNum>>|
                #[trigger] covers(orig, sol_in, sol_out) && live_within(orig, sol_in, sol_out) ==> live_within(
                    cfg.ordering@,
                    sol_in,
                    sol_out,
                ),
            orig == old(cfg).ordering@,
            orig.len() == n,
            live_measure(cfg.ordering@, vegs) >= 0,
            !updated ==> forall|j: int| 0 <= j < n ==> live_at(cfg.ordering@, j),
        decreases live_measure(cfg.ordering@, vegs) + if updated {
            1int
        } else {
            0int
        },
    {
        updated = false;
        let ghost start = cfg.ordering@;
        let mut i = n;
        while i > 0
            invariant
                cfg.wf(),
                n == cfg.ordering@.len(),
                vegs == cfg.vegs,
                cfg.code == old(cfg).code,
                cfg.label == old(cfg).label,
                vegs == old(cfg).vegs,
                i <= n,
                forall|j: int| 0 <= j < n ==> below_live(cfg.ordering@, j),
                forall|j: int|
                    0 <= j < n ==> (#[trigger] cfg.ordering@[j]).line == orig[j].line && cfg.ordering@[j].succs
                        == orig[j].succs && cfg.ordering@[j].uses == orig[j].uses && cfg.ordering@[j].defines
                        == orig[j].defines && cfg.ordering@[j].needs_label == orig[j].needs_label
                        && cfg.ordering@[j].label == orig[j].label,
                forall|sol_in: Seq<Set<VegNum>>, sol_out: Seq<Set<VegNum>>|
                    #[trigger] covers(orig, sol_in, sol_out) && live_within(orig, sol_in, sol_out) ==> live_within(
                        cfg.ordering@,
                        sol_in,
                        sol_out,
                    ),
                orig == old(cfg).ordering@,
                orig.len() == n,
                start.len() == n,
                forall|j: int|
                    0 <= j < n ==> (#[trigger] start[j]).live_in@.subset_of(cfg.ordering@[j].live_in@)
                        && start[j].live_out@.subset_of(cfg.ordering@[j].live_out@),
                live_measure(cfg.ordering@, vegs) >= 0,
                live_measure(cfg.ordering@, vegs) <= live_measure(start, vegs),
                updated ==> live_measure(cfg.ordering@, vegs) < live_measure(start, vegs),
                !updated ==> forall|j: int|
                    0 <= j < n ==> (#[trigger] cfg.ordering@[j]).live_in@ == start[j].live_in@
                        && cfg.ordering@[j].live_out@ == start[j].live_out@,
                !updated ==> forall|j: int| i <= j < n ==> live_at(cfg.ordering@, j),
            decreases i,
        {
            i = i - 1;
            let ghost before = cfg.ordering@;
            proof {
                assert(block_wf(before[i as int], i as int, n as nat, vegs));
            }
            /* LiveIn(n) = uses(n) or (LiveOut(n) - defines(n)) */
            let live_out_without_defines = set_difference(&cfg.ordering[i].live_out, &cfg.ordering[i].defines);
            let new_live_in = set_union(&cfg.ordering[i].uses, &live_out_without_defines);
            /* LiveOut(n) = OR LiveIn(succs(n)) */
            let mut new_live_out: HashSet<VegNum> = HashSet::new();
            let mut k: usize = 0;
            while k < cfg.ordering[i].succs.len()
                invariant
                    cfg.ordering@ == before,
                    cfg.wf(),
                    n == before.len(),
                    i < n,
                    k <= before[i as int].succs@.len(),
                    block_wf(before[i as int], i as int, n as nat, vegs),
                    new_live_out@ == succ_live_in(before, before[i as int].succs@.take(k as int)),
                decreases before[i as int].succs@.len() - k,
            {
                let succ = cfg.ordering[i].succs[k].1;
                proof {
                    assert(succ < n);
                    assert(before[i as int].succs@.take(k + 1).drop_last() =~= before[i as int].succs@.take(k as int));
                }
                new_live_out = set_union(&new_live_out, &cfg.ordering[succ].live_in);
                k = k + 1;
            }
            proof {
                assert(before[i as int].succs@.take(k as int) =~= before[i as int].succs@);
                lemma_succ_live_in_in_vegs(before, before[i as int].succs@, vegs);
                assert forall|v: VegNum| #[trigger] new_live_in@.contains(v) implies 1 <= v <= vegs by {
                    assert(block_wf(before[i as int], i as int, n as nat, vegs));
                }
            }
            let changed_in = !set_eq(&cfg.ordering[i].live_in, &new_live_in);
            let changed_out = !set_eq(&cfg.ordering[i].live_out, &new_live_out);
            updated = updated || changed_in || changed_out;
            let mut block = cfg.ordering.remove(i);
            block.live_in = new_live_in;
            block.live_out = new_live_out;
            cfg.ordering.insert(i, block);
            proof {
                let after = cfg.ordering@;
                let old_b = before[i as int];
                assert(after =~= before.update(i as int, block));
                assert(below_live(before, i as int));
                /* The new sets are supersets of the old ones. */
                assert(old_b.live_in@.subset_of(block.live_in@));
                assert(old_b.live_out@.subset_of(block.live_out@));
                lemma_strict_grow(old_b.live_in@, block.live_in@);
                lemma_strict_grow(old_b.live_out@, block.live_out@);
                lemma_live_measure_update(before, i as int, block, vegs);
                lemma_live_measure_nonneg(after, vegs);
                assert forall|j: int| 0 <= j < n implies (#[trigger] before[j]).live_in@.subset_of(after[j].live_in@) by {}
                assert forall|j: int| 0 <= j < n implies below_live(after, j) by {
                    assert(block_wf(after[j], j, n as nat, vegs));
                    lemma_succ_live_in_mono(before, after, after[j].succs@);
                    if j != i {
                        assert(below_live(before, j));
                        assert(after[j] == before[j]);
                    }
                }
                assert forall|sol_in: Seq<Set<VegNum>>, sol_out: Seq<Set<VegNum>>|
                    #[trigger] covers(orig, sol_in, sol_out) && live_within(orig, sol_in, sol_out) implies live_within(
                        after,
                        sol_in,
                        sol_out,
                    ) by {
                    assert(live_within(before, sol_in, sol_out));
                    assert(block_wf(before[i as int], i as int, n as nat, vegs));
                    lemma_succ_live_in_within(before, sol_in, before[i as int].succs@);
                    let si = sol_in[i as int];
                    let so = sol_out[i as int];
                    assert(orig[i as int].uses@.union(so.difference(orig[i as int].defines@)).subset_of(si));
                    assert(succ_sets(sol_in, orig[i as int].succs@).subset_of(so));
                    assert(before[i as int].live_out@.subset_of(so));
                    assert(block.live_in@.subset_of(si));
                    assert(block.live_out@.subset_of(so));
                    assert forall|j: int| 0 <= j < n implies (#[trigger] after[j]).live_in@.subset_of(sol_in[j])
                        && after[j].live_out@.subset_of(sol_out[j]) by {
                        if j != i {
                            assert(after[j] == before[j]);
                        }
                    }
                }
                assert forall|j: int| 0 <= j < n implies block_wf(#[trigger] after[j], j, n as nat, vegs) by {
                    assert(block_wf(before[j], j, n as nat, vegs));
                }
                if !updated {
                    assert(block.live_in@ == old_b.live_in@);
                    assert(block.live_out@ == old_b.live_out@);
                    assert forall|j: int| i <= j < n implies live_at(after, j) by {
                        assert(succ_live_in(after, after[j].succs@) == succ_live_in(before, before[j].succs@)) by {
                            lemma_succ_live_in_mono(before, after, before[j].succs@);
                            lemma_succ_live_in_mono(after, before, before[j].succs@);
                            assert(block_wf(before[j], j, n as nat, vegs));
                        }
                        if j > i {
                            assert(live_at(before, j));
                        }
                    }
                }
            }
        }
    }
}

/* ======== INTERFERENCE CALCULATION ======== */

/// The registers that interfere with `v`: itself, and every register live
/// out of a block together with it.
pub open spec fn interfering(blocks: Seq<Block>, v: VegNum) -> Set<VegNum> {
    Set::new(
        |u: VegNum|
            u == v || exists|b: int|
                0 <= b < blocks.len() && (#[trigger] blocks[b]).live_out@.contains(v) && blocks[b].live_out@.contains(u),
    )
}

/// As `interfering`, over the first `n` blocks.
pub open spec fn interfering_upto(blocks: Seq<Block>, v: VegNum, n: int) -> Set<VegNum> {
    Set::new(
        |u: VegNum|
            u == v || exists|b: int|
                0 <= b < n && (#[trigger] blocks[b]).live_out@.contains(v) && blocks[b].live_out@.contains(u),
    )
}

/// The interference graph of the graph's registers: one node for each
/// register handed out, 1 first, with the registers it interferes with.
pub fn calculate_interference(cfg: &mut CFG) -> (r: Interference)
    requires
        old(cfg).wf(),
        old(cfg).vegs < usize::MAX,
    ensures
        *final(cfg) == *old(cfg),
        r@.len() == old(cfg).vegs,
        forall|k: int|
            0 <= k < r@.len() ==> (#[trigger] r@[k]).0 == k + 1 && r@[k].1@ == interfering(old(cfg).ordering@, (k + 1) as VegNum),
        graph_wf(graph_view(r@)),
{
    let ghost blocks = cfg.ordering@;
    let ghost vegs = cfg.vegs as nat;
    let mut interferences: Interference = Vec::new();
    let mut veg_num: usize = 1;
    while veg_num <= cfg.vegs
        invariant
            cfg.wf(),
            blocks == cfg.ordering@,
            vegs == cfg.vegs,
            vegs < usize::MAX,
            1 <= veg_num <= vegs + 1,
            interferences@.len() == veg_num - 1,
            forall|k: int|
                0 <= k < interferences@.len() ==> (#[trigger] interferences@[k]).0 == k + 1 && interferences@[k].1@
                    == interfering(blocks, (k + 1) as VegNum),
        decreases vegs + 1 - veg_num,
    {
        let mut current_interferences: HashSet<VegNum> = HashSet::new();
        current_interferences.insert(veg_num);
        let mut b: usize = 0;
        proof {
            assert(current_interferences@ =~= interfering_upto(blocks, veg_num, 0));
        }
        while b < cfg.ordering.len()
            invariant
                blocks == cfg.ordering@,
                b <= blocks.len(),
                current_interferences@ == interfering_upto(blocks, veg_num, b as int),
            decreases blocks.len() - b,
        {
            if cfg.ordering[b].live_out.contains(&veg_num) {
                current_interferences = set_union(&current_interferences, &cfg.ordering[b].live_out);
            }
            proof {
                assert(current_interferences@ =~= interfering_upto(blocks, veg_num, b + 1));
            }
            b = b + 1;
        }
        proof {
            assert(current_interferences@ =~= interfering(blocks, veg_num));
            lemma_interfering_finite(blocks, veg_num, vegs);
            lemma_nonempty(current_interferences@, veg_num);
        }
        if current_interferences.len() > 0 {
            interferences.push((veg_num, current_interferences));
        }
        veg_num = veg_num + 1;
    }
    proof {
        lemma_interference_wf(blocks, vegs, interferences@);
    }
    interferences
}

proof fn lemma_interfering_finite(blocks: Seq<Block>, v: VegNum, vegs: nat)
    requires
        forall|j: int| 0 <= j < blocks.len() ==> in_vegs((#[trigger] blocks[j]).live_out@, vegs),
        1 <= v <= vegs,
        vegs < usize::MAX,
    ensures
        interfering(blocks, v).finite(),
        interfering(blocks, v).subset_of(veg_range(vegs)),
{
    lemma_veg_range(vegs);
    assert forall|u: VegNum| #[trigger] interfering(blocks, v).contains(u) implies veg_range(vegs).contains(u) by {
        if u != v {
            let b = choose|b: int|
                0 <= b < blocks.len() && (#[trigger] blocks[b]).live_out@.contains(v) && blocks[b].live_out@.contains(u);
            assert(in_vegs(blocks[b].live_out@, vegs));
        }
    }
    vstd::set_lib::lemma_len_subset(interfering(blocks, v), veg_range(vegs));
}

proof fn lemma_interference_wf(blocks: Seq<Block>, vegs: nat, r: Seq<(VegNum, HashSet<VegNum>)>)
    requires
        forall|j: int| 0 <= j < blocks.len() ==> in_vegs((#[trigger] blocks[j]).live_out@, vegs),
        vegs < usize::MAX,
        r.len() == vegs,
        forall|k: int| 0 <= k < r.len() ==> (#[trigger] r[k]).0 == k + 1 && r[k].1@ == interfering(blocks, (k + 1) as VegNum),
    ensures
        graph_wf(graph_view(r)),
{
    let g = graph_view(r);
    assert forall|k: int| 0 <= k < g.len() implies (#[trigger] g[k]).0 == k + 1 && g[k].1 == interfering(
        blocks,
        (k + 1) as VegNum,
    ) by {
        assert(g[k] == (r[k].0, r[k].1@));
    }
    assert forall|v: VegNum| #[trigger] node_set(g).contains(v) <==> 1 <= v <= vegs by {
        if 1 <= v <= vegs {
            assert(g[v - 1].0 == v);
        }
    }
    assert(distinct_nodes(g));
    assert forall|k: int| 0 <= k < g.len() implies {
        &&& (#[trigger] g[k]).1.finite()
        &&& g[k].1.contains(g[k].0)
        &&& g[k].1.subset_of(node_set(g))
    } by {
        lemma_interfering_finite(blocks, (k + 1) as VegNum, vegs);
    }
    assert forall|k: int, v: VegNum| 0 <= k < g.len() && (#[trigger] g[k]).1.contains(v) implies #[trigger] adj(
        g,
        v,
    ).contains(g[k].0) by {
        lemma_interfering_finite(blocks, (k + 1) as VegNum, vegs);
        assert(node_set(g).contains(v));
        lemma_adj_at(g, v - 1);
        assert(g[v - 1].0 == v);
        let u = g[k].0;
        if u != v {
            let b = choose|b: int|
                0 <= b < blocks.len() && (#[trigger] blocks[b]).live_out@.contains(u) && blocks[b].live_out@.contains(v);
            assert(interfering(blocks, v).contains(u));
        }
    }
}

/* ======== GRAPH COLOURING ======== */

/// An interference graph: each virtual register with the set of virtual
/// registers live at the same time as it, itself included.
pub type Interference = Vec<(VegNum, HashSet<VegNum>)>;

/// Where a virtual register is kept: a slot on the stack, or the general
/// purpose register of that index.
#[derive(Debug, Clone, Copy, PartialEq, Eq, Structural)]
pub enum Location {
    Spill(usize),
    Reg(usize),
}

impl Location {
    /// The general purpose register of a register location.
    pub fn reg(&self) -> (r: Reg)
        requires
            self is Reg,
            self->Reg_0 < 8,
        ensures
            r == Reg::General(general_regs_spec()[self->Reg_0 as int]),
    {
        match self {
            Location::Reg(rn) => {
                let regs = general_regs();
                Reg::General(regs[*rn])
            },
            Location::Spill(_) => Reg::StackPointer,
        }
    }
}

/// The general purpose registers, in the order colours stand for them.
pub open spec fn general_regs_spec() -> Seq<GenReg> {
    seq![
        GenReg::R4,
        GenReg::R5,
        GenReg::R6,
        GenReg::R7,
        GenReg::R8,
        GenReg::R9,
        GenReg::R10,
        GenReg::R11,
    ]
}

/// The mathematical value of an interference graph.
pub open spec fn graph_view(g: Seq<(VegNum, HashSet<VegNum>)>) -> Seq<(VegNum, Set<VegNum>)> {
    g.map_values(|e: (VegNum, HashSet<VegNum>)| (e.0, e.1@))
}

/// The graph without its `i`th node, which is taken out of every other
/// node's neighbours too.
pub open spec fn without_node(g: Seq<(VegNum, Set<VegNum>)>, i: int) -> Seq<(VegNum, Set<VegNum>)> {
    g.remove(i).map_values(|e: (VegNum, Set<VegNum>)| (e.0, e.1.remove(g[i].0)))
}

/// The nodes of a graph.
pub open spec fn node_set(g: Seq<(VegNum, Set<VegNum>)>) -> Set<VegNum> {
    Set::new(|v: VegNum| exists|i: int| 0 <= i < g.len() && #[trigger] g[i].0 == v)
}

/// No node occurs twice.
pub open spec fn distinct_nodes(g: Seq<(VegNum, Set<VegNum>)>) -> bool {
    forall|i: int, j: int| 0 <= i < j < g.len() ==> #[trigger] g[i].0 != #[trigger] g[j].0
}

/// Removes the `i`th node of the graph and gives it back with its
/// neighbours; the node leaves every other node's neighbours.
pub fn remove_node(interference: &mut Interference, i: usize) -> (r: (VegNum, HashSet<VegNum>))
    requires
        i < old(interference)@.len(),
    ensures
        r.0 == old(interference)@[i as int].0,
        r.1@ == old(interference)@[i as int].1@,
        graph_view(final(interference)@) == without_node(graph_view(old(interference)@), i as int),
{
    let ghost g = graph_view(interference@);
    let removed = interference.remove(i);
    let node = removed.0;
    let mut rest: Interference = Vec::new();
    let ghost left = interference@;
    while interference.len() > 0
        invariant
            left.len() == g.len() - 1,
            rest@.len() + interference@.len() == left.len(),
            forall|j: int| 0 <= j < interference@.len() ==> #[trigger] interference@[j] == left[rest@.len() + j],
            forall|j: int|
                0 <= j < rest@.len() ==> #[trigger] rest@[j].0 == left[j].0 && rest@[j].1@ == left[j].1@.remove(node),
            forall|j: int| 0 <= j < left.len() ==> #[trigger] graph_view(left)[j] == g.remove(i as int)[j],
            node == g[i as int].0,
        decreases interference@.len(),
    {
        let (n, mut adj) = interference.remove(0);
        adj.remove(&node);
        rest.push((n, adj));
    }
    *interference = rest;
    proof {
        assert(graph_view(interference@) =~= without_node(g, i as int));
    }
    removed
}

/// The neighbours of node `v` in `g`.
pub open spec fn adj(g: Seq<(VegNum, Set<VegNum>)>, v: VegNum) -> Set<VegNum> {
    g[choose|i: int| 0 <= i < g.len() && g[i].0 == v].1
}

/// An interference graph as the compiler builds it: no node twice, every
/// node its own neighbour, only nodes of the graph as neighbours, and
/// neighbours both ways.
pub open spec fn graph_wf(g: Seq<(VegNum, Set<VegNum>)>) -> bool {
    &&& distinct_nodes(g)
    &&& forall|i: int|
        0 <= i < g.len() ==> {
            &&& (#[trigger] g[i]).1.finite()
            &&& g[i].1.contains(g[i].0)
            &&& g[i].1.subset_of(node_set(g))
        }
    &&& forall|i: int, v: VegNum|
        0 <= i < g.len() && (#[trigger] g[i]).1.contains(v) ==> #[trigger] adj(g, v).contains(g[i].0)
}

pub proof fn lemma_adj_at(g: Seq<(VegNum, Set<VegNum>)>, i: int)
    requires
        distinct_nodes(g),
        0 <= i < g.len(),
    ensures
        adj(g, g[i].0) == g[i].1,
{
    let j = choose|j: int| 0 <= j < g.len() && g[j].0 == g[i].0;
    assert(0 <= j < g.len() && g[j].0 == g[i].0);
    if j != i {
        if j < i {
            assert(g[j].0 != g[i].0);
        } else {
            assert(g[i].0 != g[j].0);
        }
    }
}

/// `h` is what is left of `g` on the nodes of `h`: each node keeps the
/// neighbours it had in `g` that are still there.
pub open spec fn restricted(g: Seq<(VegNum, Set<VegNum>)>, h: Seq<(VegNum, Set<VegNum>)>) -> bool {
    &&& distinct_nodes(h)
    &&& forall|j: int|
        0 <= j < h.len() ==> node_set(g).contains((#[trigger] h[j]).0) && h[j].1 == adj(g, h[j].0).intersect(
            node_set(h),
        )
}

/// The nodes of the entries after the `k`th.
pub open spec fn later_nodes(st: Seq<(VegNum, Set<VegNum>)>, k: int) -> Set<VegNum> {
    Set::new(|v: VegNum| exists|j: int| k < j < st.len() && #[trigger] st[j].0 == v)
}

/// The stack of nodes set aside to be coloured: each was taken out of the
/// graph with fewer neighbours than colours (besides itself), and keeps as
/// neighbours those of its neighbours in `g` that were still in the graph
/// then: those set aside after it and those still in `h`.
pub open spec fn stack_ok(
    g: Seq<(VegNum, Set<VegNum>)>,
    h: Seq<(VegNum, Set<VegNum>)>,
    st: Seq<(VegNum, Set<VegNum>)>,
    colours: nat,
) -> bool {
    &&& distinct_nodes(st)
    &&& forall|k: int|
        0 <= k < st.len() ==> {
            &&& node_set(g).contains((#[trigger] st[k]).0)
            &&& !node_set(h).contains(st[k].0)
            &&& st[k].1.finite()
            &&& st[k].1.contains(st[k].0)
            &&& st[k].1.len() <= colours
            &&& st[k].1.subset_of(adj(g, st[k].0))
            &&& adj(g, st[k].0).intersect(node_set(h).union(later_nodes(st, k))).subset_of(st[k].1)
        }
}

proof fn lemma_without_node(g: Seq<(VegNum, Set<VegNum>)>, h: Seq<(VegNum, Set<VegNum>)>, i: int)
    requires
        restricted(g, h),
        0 <= i < h.len(),
    ensures
        restricted(g, without_node(h, i)),
        node_set(without_node(h, i)) == node_set(h).remove(h[i].0),
        without_node(h, i).len() == h.len() - 1,
{
    let h2 = without_node(h, i);
    let x = h[i].0;
    assert forall|v: VegNum| #[trigger] node_set(h2).contains(v) == node_set(h).remove(x).contains(v) by {
        if node_set(h2).contains(v) {
            let j = choose|j: int| 0 <= j < h2.len() && #[trigger] h2[j].0 == v;
            if j < i {
                assert(h[j].0 == v);
                assert(h[j].0 != h[i].0);
            } else {
                assert(h[j + 1].0 == v);
                assert(h[i].0 != h[j + 1].0);
            }
        }
        if node_set(h).remove(x).contains(v) {
            let j = choose|j: int| 0 <= j < h.len() && #[trigger] h[j].0 == v;
            assert(j != i);
            if j < i {
                assert(h2[j].0 == v);
            } else {
                assert(h2[j - 1].0 == v);
            }
        }
    }
    assert(node_set(h2) =~= node_set(h).remove(x));
    assert forall|j: int| 0 <= j < h2.len() implies node_set(g).contains((#[trigger] h2[j]).0) && h2[j].1
        == adj(g, h2[j].0).intersect(node_set(h2)) by {
        let jj = if j < i { j } else { j + 1 };
        assert(h2[j].0 == h[jj].0);
        assert(h2[j].1 =~= adj(g, h2[j].0).intersect(node_set(h2)));
    }
    assert forall|a: int, b: int| 0 <= a < b < h2.len() implies #[trigger] h2[a].0 != #[trigger] h2[b].0 by {
        let aa = if a < i { a } else { a + 1 };
        let bb = if b < i { b } else { b + 1 };
        assert(h[aa].0 != h[bb].0);
    }
}

/// Takes the first node out of the graph and gives it the next stack slot.
fn spill_node(interference: &mut Interference, allocation: &mut HashMap<VegNum, Location>, spill_location: &mut usize)
    requires
        old(interference)@.len() > 0,
        *old(spill_location) < usize::MAX,
    ensures
        graph_view(final(interference)@) == without_node(graph_view(old(interference)@), 0),
        final(allocation)@ == old(allocation)@.insert(old(interference)@[0].0, Location::Spill(*old(spill_location))),
        *final(spill_location) == *old(spill_location) + 1,
{
    /* Every node left has too many neighbours, so any of them can go. */
    let (node, _neighbors) = remove_node(interference, 0);
    allocation.insert(node, Location::Spill(*spill_location));
    *spill_location = *spill_location + 1;
}

proof fn lemma_nonempty(s: Set<VegNum>, x: VegNum)
    requires
        s.finite(),
        s.contains(x),
    ensures
        s.len() >= 1,
{
    if s.len() == 0 {
        s.lemma_len0_is_empty();
        assert(s.contains(x));
    }
}

proof fn lemma_node_set_push(st: Seq<(VegNum, Set<VegNum>)>, e: (VegNum, Set<VegNum>))
    ensures
        node_set(st.push(e)) == node_set(st).insert(e.0),
{
    let st2 = st.push(e);
    assert forall|v: VegNum| #[trigger] node_set(st2).contains(v) == node_set(st).insert(e.0).contains(v) by {
        if node_set(st2).contains(v) {
            let j = choose|j: int| 0 <= j < st2.len() && #[trigger] st2[j].0 == v;
            if j < st.len() {
                assert(st[j].0 == v);
            }
        }
        if node_set(st).contains(v) {
            let j = choose|j: int| 0 <= j < st.len() && #[trigger] st[j].0 == v;
            assert(st2[j].0 == v);
        }
        if v == e.0 {
            assert(st2[st.len() as int].0 == v);
        }
    }
    assert(node_set(st2) =~= node_set(st).insert(e.0));
}

/// Every node of a graph restricted from a well formed one is its own
/// neighbour.
proof fn lemma_self_neighbour(g: Seq<(VegNum, Set<VegNum>)>, h: Seq<(VegNum, Set<VegNum>)>, j: int)
    requires
        graph_wf(g),
        restricted(g, h),
        0 <= j < h.len(),
    ensures
        h[j].1.contains(h[j].0),
        h[j].1.finite(),
        h[j].1.len() >= 1,
        adj(g, h[j].0).contains(h[j].0),
{
    let v = h[j].0;
    assert(node_set(g).contains(v));
    let i = choose|i: int| 0 <= i < g.len() && #[trigger] g[i].0 == v;
    lemma_adj_at(g, i);
    assert(g[i].1.contains(v));
    assert(node_set(h).contains(v)) by {
        assert(h[j].0 == v);
    }
    lemma_nonempty(h[j].1, v);
}

/// Setting the `i`th node of `h` aside keeps the stack as it should be.
proof fn lemma_push_easy(
    g: Seq<(VegNum, Set<VegNum>)>,
    h: Seq<(VegNum, Set<VegNum>)>,
    st: Seq<(VegNum, Set<VegNum>)>,
    i: int,
    colours: nat,
)
    requires
        graph_wf(g),
        restricted(g, h),
        stack_ok(g, h, st, colours),
        0 <= i < h.len(),
        h[i].1.len() <= colours,
    ensures
        restricted(g, without_node(h, i)),
        stack_ok(g, without_node(h, i), st.push(h[i]), colours),
        node_set(h).union(node_set(st)) == node_set(without_node(h, i)).union(node_set(st.push(h[i]))),
{
    let v = h[i].0;
    let h2 = without_node(h, i);
    let st2 = st.push(h[i]);
    lemma_without_node(g, h, i);
    lemma_node_set_push(st, h[i]);
    lemma_self_neighbour(g, h, i);
    assert(node_set(h).contains(v)) by {
        assert(h[i].0 == v);
    }
    assert forall|a: int, b: int| 0 <= a < b < st2.len() implies #[trigger] st2[a].0 != #[trigger] st2[b].0 by {
        if b == st.len() {
            assert(!node_set(h).contains(st[a].0));
        } else {
            assert(st[a].0 != st[b].0);
        }
    }
    assert forall|k: int| 0 <= k < st2.len() implies {
        &&& node_set(g).contains((#[trigger] st2[k]).0)
        &&& !node_set(h2).contains(st2[k].0)
        &&& st2[k].1.finite()
        &&& st2[k].1.contains(st2[k].0)
        &&& st2[k].1.len() <= colours
        &&& st2[k].1.subset_of(adj(g, st2[k].0))
        &&& adj(g, st2[k].0).intersect(node_set(h2).union(later_nodes(st2, k))).subset_of(st2[k].1)
    } by {
        if k == st.len() {
            assert(later_nodes(st2, k) =~= Set::empty());
        } else {
            assert(st2[k] == st[k]);
            assert forall|u: VegNum| #[trigger] later_nodes(st2, k).contains(u) == later_nodes(st, k).insert(
                v,
            ).contains(u) by {
                if later_nodes(st2, k).contains(u) {
                    let j = choose|j: int| k < j < st2.len() && #[trigger] st2[j].0 == u;
                    if j < st.len() {
                        assert(st[j].0 == u);
                    }
                }
                if later_nodes(st, k).contains(u) {
                    let j = choose|j: int| k < j < st.len() && #[trigger] st[j].0 == u;
                    assert(st2[j].0 == u);
                }
                if u == v {
                    assert(st2[st.len() as int].0 == u);
                }
            }
            assert(node_set(h2).union(later_nodes(st2, k)) =~= node_set(h).union(later_nodes(st, k)));
        }
    }
    assert(node_set(h).union(node_set(st)) =~= node_set(h2).union(node_set(st2)));
}

/* ======== The colouring, step by step ======== */

/// One pass over the graph from its `i`th node on: each node with at most
/// `colours` neighbours (itself included) is taken out and set aside, and
/// the pass goes on at the same place. Also whether any node was taken.
pub open spec fn easy_pass(
    h: Seq<(VegNum, Set<VegNum>)>,
    st: Seq<(VegNum, Set<VegNum>)>,
    colours: nat,
    i: int,
) -> (Seq<(VegNum, Set<VegNum>)>, Seq<(VegNum, Set<VegNum>)>, bool)
    decreases h.len() - i,
{
    if 0 <= i < h.len() {
        if h[i].1.len() <= colours {
            if without_node(h, i).len() < h.len() {
                let r = easy_pass(without_node(h, i), st.push(h[i]), colours, i);
                (r.0, r.1, true)
            } else {
                (h, st, true)
            }
        } else {
            easy_pass(h, st, colours, i + 1)
        }
    } else {
        (h, st, false)
    }
}

/// Passes over the graph until one takes no node out.
pub open spec fn remove_easy(h: Seq<(VegNum, Set<VegNum>)>, st: Seq<(VegNum, Set<VegNum>)>, colours: nat) -> (
    Seq<(VegNum, Set<VegNum>)>,
    Seq<(VegNum, Set<VegNum>)>,
)
    decreases h.len(),
{
    let r = easy_pass(h, st, colours, 0);
    if r.2 && r.0.len() < h.len() {
        remove_easy(r.0, r.1, colours)
    } else {
        (r.0, r.1)
    }
}

/// Simplifying the graph: easy nodes are set aside; when none is left but
/// nodes remain, the first of them is spilled to the next stack slot, and
/// so on until the graph is empty. The stack, the spilled nodes and the
/// next slot.
pub open spec fn simplify(
    h: Seq<(VegNum, Set<VegNum>)>,
    st: Seq<(VegNum, Set<VegNum>)>,
    alloc: Map<VegNum, Location>,
    slot: nat,
    colours: nat,
) -> (Seq<(VegNum, Set<VegNum>)>, Map<VegNum, Location>, nat)
    decreases h.len(),
{
    let (h1, st1) = remove_easy(h, st, colours);
    if 0 < h1.len() <= h.len() {
        simplify(
            without_node(h1, 0),
            st1,
            alloc.insert(h1[0].0, Location::Spill(slot as usize)),
            slot + 1,
            colours,
        )
    } else {
        (st1, alloc, slot)
    }
}

/// The least colour from `c` on, below `colours`, that is not used; or
/// `colours` when there is none.
pub open spec fn first_free(used: Set<usize>, c: nat, colours: nat) -> nat
    decreases colours - c,
{
    if c >= colours {
        colours
    } else if used.contains(c as usize) {
        first_free(used, c + 1, colours)
    } else {
        c
    }
}

/// The colours of those of the neighbours `nb` that have one.
pub open spec fn used_colours(nb: Set<VegNum>, nc: Map<VegNum, usize>) -> Set<usize> {
    Set::new(|c: usize| exists|u: VegNum| nb.contains(u) && nc.contains_key(u) && nc[u] == c)
}

/// Colouring the stack from its top: each node gets the least colour none
/// of its coloured neighbours has, when there is one.
pub open spec fn stack_colours(st: Seq<(VegNum, Set<VegNum>)>, nc: Map<VegNum, usize>, colours: nat) -> Map<
    VegNum,
    usize,
>
    decreases st.len(),
{
    if st.len() == 0 {
        nc
    } else {
        let (node, nb) = st.last();
        let c = first_free(used_colours(nb, nc), 0, colours);
        stack_colours(st.drop_last(), if c < colours {
            nc.insert(node, c as usize)
        } else {
            nc
        }, colours)
    }
}

/// The locations in `alloc`, with a register for each coloured node.
pub open spec fn with_regs(alloc: Map<VegNum, Location>, nc: Map<VegNum, usize>) -> Map<VegNum, Location> {
    Map::new(
        |v: VegNum| alloc.contains_key(v) || nc.contains_key(v),
        |v: VegNum|
            if nc.contains_key(v) {
                Location::Reg(nc[v])
            } else {
                alloc[v]
            },
    )
}

/// The graph without the nodes that have a location in `alloc`, taken out
/// in order from the `i`th on.
pub open spec fn drop_placed(h: Seq<(VegNum, Set<VegNum>)>, alloc: Map<VegNum, Location>, i: int) -> Seq<
    (VegNum, Set<VegNum>),
>
    decreases h.len() - i,
{
    if 0 <= i < h.len() {
        if alloc.contains_key(h[i].0) {
            if without_node(h, i).len() < h.len() {
                drop_placed(without_node(h, i), alloc, i)
            } else {
                h
            }
        } else {
            drop_placed(h, alloc, i + 1)
        }
    } else {
        h
    }
}

/// The colouring `colour` gives, with stack slots from `first`: simplify;
/// if no node was spilled, colour the stack; otherwise keep the spilled
/// nodes' slots and colour the graph without them again, its slots
/// following on.
pub open spec fn colouring_spec(g: Seq<(VegNum, Set<VegNum>)>, colours: nat, first: nat) -> Map<VegNum, Location>
    decreases g.len(),
{
    let (st, alloc, slot) = simplify(g, Seq::empty(), Map::empty(), first, colours);
    if alloc.is_empty() {
        with_regs(alloc, stack_colours(st, Map::empty(), colours))
    } else {
        let rest = drop_placed(g, alloc, 0);
        if rest.len() < g.len() {
            alloc.union_prefer_right(colouring_spec(rest, colours, slot))
        } else {
            alloc
        }
    }
}

/// Sets aside, again and again, every node with fewer neighbours than
/// colours (besides itself), until none is left.
fn remove_easy_neighbors(
    interference: &mut Interference,
    colourable_stack: &mut Interference,
    colours: usize,
    Ghost(g): Ghost<Seq<(VegNum, Set<VegNum>)>>,
)
    requires
        graph_wf(g),
        restricted(g, graph_view(old(interference)@)),
        stack_ok(g, graph_view(old(interference)@), graph_view(old(colourable_stack)@), colours as nat),
    ensures
        restricted(g, graph_view(final(interference)@)),
        stack_ok(g, graph_view(final(interference)@), graph_view(final(colourable_stack)@), colours as nat),
        node_set(graph_view(old(interference)@)).union(node_set(graph_view(old(colourable_stack)@)))
            == node_set(graph_view(final(interference)@)).union(node_set(graph_view(final(colourable_stack)@))),
        final(interference)@.len() <= old(interference)@.len(),
        forall|j: int|
            0 <= j < final(interference)@.len() ==> (#[trigger] final(interference)@[j]).1@.len() > colours,
        (graph_view(final(interference)@), graph_view(final(colourable_stack)@)) == remove_easy(
            graph_view(old(interference)@),
            graph_view(old(colourable_stack)@),
            colours as nat,
        ),
{
    let ghost h0 = graph_view(interference@);
    let ghost st0 = graph_view(colourable_stack@);
    /* There could exist an easy neighbour. */
    let mut easy_neighbors = true;
    while easy_neighbors
        invariant
            graph_wf(g),
            restricted(g, graph_view(interference@)),
            stack_ok(g, graph_view(interference@), graph_view(colourable_stack@), colours as nat),
            node_set(h0).union(node_set(st0)) == node_set(graph_view(interference@)).union(
                node_set(graph_view(colourable_stack@)),
            ),
            interference@.len() <= h0.len(),
            !easy_neighbors ==> forall|j: int|
                0 <= j < interference@.len() ==> (#[trigger] interference@[j]).1@.len() > colours,
            easy_neighbors ==> remove_easy(h0, st0, colours as nat) == remove_easy(
                graph_view(interference@),
                graph_view(colourable_stack@),
                colours as nat,
            ),
            !easy_neighbors ==> remove_easy(h0, st0, colours as nat) == (
                graph_view(interference@),
                graph_view(colourable_stack@),
            ),
        decreases interference@.len() + if easy_neighbors {
            1nat
        } else {
            0nat
        },
    {
        /* Only if a node goes in this pass can there be easy neighbours left. */
        easy_neighbors = false;
        let ghost start = interference@.len();
        let ghost hs = graph_view(interference@);
        let ghost sts = graph_view(colourable_stack@);
        let mut i: usize = 0;
        while i < interference.len()
            invariant
                graph_wf(g),
                restricted(g, graph_view(interference@)),
                stack_ok(g, graph_view(interference@), graph_view(colourable_stack@), colours as nat),
                node_set(h0).union(node_set(st0)) == node_set(graph_view(interference@)).union(
                    node_set(graph_view(colourable_stack@)),
                ),
                interference@.len() <= start <= h0.len(),
                i <= interference@.len(),
                easy_neighbors ==> interference@.len() < start,
                !easy_neighbors ==> interference@.len() == start,
                !easy_neighbors ==> forall|j: int|
                    0 <= j < i ==> (#[trigger] interference@[j]).1@.len() > colours,
                hs.len() == start,
                remove_easy(h0, st0, colours as nat) == remove_easy(hs, sts, colours as nat),
                easy_pass(hs, sts, colours as nat, 0).0 == easy_pass(
                    graph_view(interference@),
                    graph_view(colourable_stack@),
                    colours as nat,
                    i as int,
                ).0,
                easy_pass(hs, sts, colours as nat, 0).1 == easy_pass(
                    graph_view(interference@),
                    graph_view(colourable_stack@),
                    colours as nat,
                    i as int,
                ).1,
                easy_pass(hs, sts, colours as nat, 0).2 == (easy_neighbors || easy_pass(
                    graph_view(interference@),
                    graph_view(colourable_stack@),
                    colours as nat,
                    i as int,
                ).2),
            decreases interference@.len() - i,
        {
            proof {
                lemma_self_neighbour(g, graph_view(interference@), i as int);
                assert(graph_view(interference@)[i as int].1 == interference@[i as int].1@);
            }
            /* Neighbours besides the node itself. */
            if interference[i].1.len() - 1 < colours {
                /* This node is an easy neighbour: set it aside. */
                let ghost h = graph_view(interference@);
                let ghost st = graph_view(colourable_stack@);
                proof {
                    lemma_push_easy(g, h, st, i as int, colours as nat);
                    lemma_without_node(g, h, i as int);
                    assert(h[i as int].1.len() <= colours);
                }
                let curr_node = remove_node(interference, i);
                colourable_stack.push(curr_node);
                proof {
                    assert(graph_view(colourable_stack@) =~= st.push(h[i as int]));
                }
                /* There could be more easy neighbours now. */
                easy_neighbors = true;
            } else {
                /* Only move on if no node was taken out. */
                i = i + 1;
            }
        }
    }
}

/// A list holding every number below `k` has at least `k` entries.
proof fn lemma_pigeonhole(list: Seq<usize>, k: nat)
    requires
        k <= usize::MAX,
        forall|c: usize| c < k ==> #[trigger] list.contains(c),
    ensures
        list.len() >= k,
{
    let ints = list.map_values(|x: usize| x as int);
    let s = ints.to_set();
    vstd::set_lib::lemma_int_range(0, k as int);
    assert forall|c: int| #[trigger] vstd::set_lib::set_int_range(0, k as int).contains(c) implies s.contains(c) by {
        assert(list.contains(c as usize));
        let j = choose|j: int| 0 <= j < list.len() && list[j] == c as usize;
        assert(ints[j] == c);
    }
    vstd::seq_lib::seq_to_set_is_finite(ints);
    vstd::set_lib::lemma_len_subset(vstd::set_lib::set_int_range(0, k as int), s);
    ints.lemma_cardinality_of_set();
}

/// Whether a colour is among those listed.
fn contains_colour(list: &Vec<usize>, c: usize) -> (r: bool)
    ensures
        r == list@.contains(c),
{
    let mut i: usize = 0;
    while i < list.len()
        invariant
            i <= list@.len(),
            forall|j: int| 0 <= j < i ==> list@[j] != c,
        decreases list@.len() - i,
    {
        if list[i] == c {
            return true;
        }
        i = i + 1;
    }
    false
}

/// The colours of the coloured neighbours of a node, and how many of its
/// neighbours have no colour yet.
#[verifier::spinoff_prover]
fn neighbour_colours(neighbors: &HashSet<VegNum>, node_colours: &HashMap<VegNum, usize>) -> (r: Vec<usize>)
    ensures
        forall|u: VegNum|
            neighbors@.contains(u) && node_colours@.contains_key(u) ==> r@.contains(node_colours@[u]),
        forall|u: VegNum|
            neighbors@.contains(u) && !node_colours@.contains_key(u) ==> r@.len() < neighbors@.len(),
        forall|c: usize| #[trigger] r@.contains(c) <==> used_colours(neighbors@, node_colours@).contains(c),
{
    let mut nc: Vec<usize> = Vec::new();
    let ghost mut skipped: Seq<VegNum> = Seq::empty();
    let ghost mut seen: Seq<VegNum> = Seq::empty();
    for x in it: neighbors.iter()
        invariant
            it.seq().unref().to_set() == neighbors@,
            it.seq().len() == neighbors@.len(),
            it.index() <= it.seq().len(),
            seen == it.seq().take(it.index() as int).unref(),
            it.index() == it.seq().len() ==> seen == it.seq().unref(),
            it.index() == it.seq().len() ==> seen.to_set() == neighbors@ && seen.len() == neighbors@.len(),
            nc@.len() + skipped.len() == seen.len(),
            forall|j: int| 0 <= j < seen.len() ==> !node_colours@.contains_key(seen[j]) ==> skipped.contains(seen[j]),
            forall|j: int| 0 <= j < seen.len() ==> node_colours@.contains_key(seen[j]) ==> nc@.contains(node_colours@[seen[j]]),
            forall|m: int|
                0 <= m < nc@.len() ==> exists|j: int|
                    0 <= j < seen.len() && node_colours@.contains_key(seen[j]) && #[trigger] nc@[m]
                        == node_colours@[seen[j]],
    {
        let ghost nc0 = nc@;
        let ghost sk0 = skipped;
        let ghost seen0 = seen;
        match node_colours.get(x) {
            Some(c) => {
                nc.push(*c);
            },
            None => {
                proof {
                    skipped = skipped.push(*x);
                }
            },
        }
        proof {
            seen = seen.push(*x);
            assert forall|m: int| 0 <= m < nc@.len() implies exists|j: int|
                0 <= j < seen.len() && node_colours@.contains_key(seen[j]) && #[trigger] nc@[m]
                    == node_colours@[seen[j]] by {
                if m < nc0.len() {
                    let j = choose|j: int|
                        0 <= j < seen0.len() && node_colours@.contains_key(seen0[j]) && #[trigger] nc0[m]
                            == node_colours@[seen0[j]];
                    assert(seen[j] == seen0[j]);
                    assert(nc@[m] == nc0[m]);
                } else {
                    let w = seen.len() - 1;
                    assert(seen[w] == *x);
                    assert(node_colours@.contains_key(seen[w]) && nc@[m] == node_colours@[seen[w]]);
                }
            }
            assert(seen =~= it.seq().take(it.index() + 1).unref());
            assert(it.seq().take(it.seq().len() as int) =~= it.seq());
            assert forall|j: int| 0 <= j < seen.len() && node_colours@.contains_key(seen[j]) implies nc@.contains(
                node_colours@[seen[j]],
            ) by {
                if j < seen0.len() {
                    assert(seen[j] == seen0[j]);
                    let m = choose|m: int| 0 <= m < nc0.len() && nc0[m] == node_colours@[seen0[j]];
                    assert(nc@[m] == nc0[m]);
                } else {
                    assert(nc@[nc@.len() - 1] == node_colours@[*x]);
                }
            }
            assert forall|j: int| 0 <= j < seen.len() && !node_colours@.contains_key(seen[j]) implies skipped.contains(
                seen[j],
            ) by {
                if j < seen0.len() {
                    assert(seen[j] == seen0[j]);
                    let m = choose|m: int| 0 <= m < sk0.len() && sk0[m] == seen0[j];
                    assert(skipped[m] == sk0[m]);
                } else {
                    assert(skipped[skipped.len() - 1] == *x);
                }
            }
        }
    }
    proof {
        assert forall|u: VegNum| neighbors@.contains(u) && node_colours@.contains_key(u) implies nc@.contains(
            node_colours@[u],
        ) by {
            assert(seen.to_set().contains(u));
        }
        assert forall|c: usize| #[trigger] nc@.contains(c) <==> used_colours(neighbors@, node_colours@).contains(c) by {
            if nc@.contains(c) {
                let m = choose|m: int| 0 <= m < nc@.len() && nc@[m] == c;
                let j = choose|j: int|
                    0 <= j < seen.len() && node_colours@.contains_key(seen[j]) && #[trigger] nc@[m]
                        == node_colours@[seen[j]];
                assert(seen.to_set().contains(seen[j]));
                assert(neighbors@.contains(seen[j]));
            }
            if used_colours(neighbors@, node_colours@).contains(c) {
                let u = choose|u: VegNum| neighbors@.contains(u) && node_colours@.contains_key(u) && node_colours@[u] == c;
                assert(seen.to_set().contains(u));
            }
        }
        assert forall|u: VegNum| neighbors@.contains(u) && !node_colours@.contains_key(u) implies nc@.len()
            < neighbors@.len() by {
            assert(seen.to_set().contains(u));
            let j = choose|j: int| 0 <= j < seen.len() && seen[j] == u;
            assert(skipped.contains(seen[j]));
        }
    }
    nc
}

/// Colours the nodes set aside, the last one first: each gets the least
/// colour that none of its coloured neighbours has.
fn colour_stack(colourable_stack: &mut Interference, allocation: &mut HashMap<VegNum, Location>, colours: usize)
    requires
        distinct_nodes(graph_view(old(colourable_stack)@)),
        forall|k: int|
            0 <= k < old(colourable_stack)@.len() ==> {
                &&& (#[trigger] old(colourable_stack)@[k]).1@.finite()
                &&& old(colourable_stack)@[k].1@.contains(old(colourable_stack)@[k].0)
                &&& old(colourable_stack)@[k].1@.len() <= colours
            },
    ensures
        final(colourable_stack)@.len() == 0,
        forall|k: int|
            0 <= k < old(colourable_stack)@.len() ==> final(allocation)@.contains_key(
                (#[trigger] old(colourable_stack)@[k]).0,
            ) && final(allocation)@[old(colourable_stack)@[k].0] is Reg
                && final(allocation)@[old(colourable_stack)@[k].0]->Reg_0 < colours,
        forall|v: VegNum|
            !node_set(graph_view(old(colourable_stack)@)).contains(v) ==> (#[trigger] final(allocation)@.contains_key(v)
                == old(allocation)@.contains_key(v) && (old(allocation)@.contains_key(v) ==> final(allocation)@[v]
                == old(allocation)@[v])),
        forall|k: int, j: int|
            0 <= k < j < old(colourable_stack)@.len() && (#[trigger] old(colourable_stack)@[k]).1@.contains(
                (#[trigger] old(colourable_stack)@[j]).0,
            ) ==> final(allocation)@[old(colourable_stack)@[k].0] != final(allocation)@[old(colourable_stack)@[j].0],
        final(allocation)@ == with_regs(
            old(allocation)@,
            stack_colours(graph_view(old(colourable_stack)@), Map::empty(), colours as nat),
        ),
{
    let ghost orig = graph_view(colourable_stack@);
    let ghost n = orig.len();
    let ghost alloc0 = allocation@;
    let mut node_colours: HashMap<VegNum, usize> = HashMap::new();
    proof {
        assert(with_regs(alloc0, node_colours@) =~= alloc0);
        assert(orig.take(n as int) =~= orig);
    }
    while colourable_stack.len() > 0
        invariant
            allocation@ == with_regs(alloc0, node_colours@),
            stack_colours(orig, Map::empty(), colours as nat) == stack_colours(
                orig.take(colourable_stack@.len() as int),
                node_colours@,
                colours as nat,
            ),
            n == orig.len(),
            colourable_stack@.len() <= n,
            graph_view(colourable_stack@) == orig.take(colourable_stack@.len() as int),
            distinct_nodes(orig),
            forall|k: int|
                0 <= k < n ==> {
                    &&& (#[trigger] orig[k]).1.finite()
                    &&& orig[k].1.contains(orig[k].0)
                    &&& orig[k].1.len() <= colours
                },
            forall|v: VegNum|
                #[trigger] node_colours@.contains_key(v) <==> exists|j: int|
                    colourable_stack@.len() <= j < n && #[trigger] orig[j].0 == v,
            forall|j: int|
                colourable_stack@.len() <= j < n ==> #[trigger] node_colours@[orig[j].0] < colours
                    && allocation@.contains_key(orig[j].0) && allocation@[orig[j].0] == Location::Reg(
                    node_colours@[orig[j].0],
                ),
            forall|v: VegNum|
                !node_set(orig).contains(v) ==> (#[trigger] allocation@.contains_key(v) == alloc0.contains_key(v)
                    && (alloc0.contains_key(v) ==> allocation@[v] == alloc0[v])),
            forall|k: int, j: int|
                colourable_stack@.len() <= k < j < n && (#[trigger] orig[k]).1.contains((#[trigger] orig[j]).0)
                    ==> node_colours@[orig[k].0] != node_colours@[orig[j].0],
        decreases colourable_stack@.len(),
    {
        let ghost len0 = colourable_stack@.len();
        let ghost k = len0 - 1;
        let (node, neighbors) = colourable_stack.pop().unwrap();
        proof {
            assert(graph_view(colourable_stack@) =~= orig.take(k));
            assert(orig.take(len0 as int)[k] == orig[k]);
            assert(node == orig[k].0 && neighbors@ == orig[k].1);
            assert(!node_colours@.contains_key(node)) by {
                if node_colours@.contains_key(node) {
                    let j = choose|j: int| len0 <= j < n && #[trigger] orig[j].0 == node;
                    assert(orig[k].0 != orig[j].0);
                }
            }
        }
        /* The colours of the neighbours coloured so far. */
        let neighbor_colours = neighbour_colours(&neighbors, &node_colours);
        let ghost used = used_colours(neighbors@, node_colours@);
        let ghost nc0 = node_colours@;
        let mut attempted_colour: usize = 0;
        while attempted_colour < colours && contains_colour(&neighbor_colours, attempted_colour)
            invariant
                attempted_colour <= colours,
                forall|c: usize| c < attempted_colour ==> #[trigger] neighbor_colours@.contains(c),
                forall|c: usize| #[trigger] neighbor_colours@.contains(c) <==> used.contains(c),
                first_free(used, 0, colours as nat) == first_free(used, attempted_colour as nat, colours as nat),
            decreases colours - attempted_colour,
        {
            attempted_colour = attempted_colour + 1;
        }
        proof {
            assert(first_free(used, 0, colours as nat) == attempted_colour);
            assert(orig.take(len0 as int).drop_last() =~= orig.take(k));
            assert(orig.take(len0 as int).last() == orig[k]);
        }
        proof {
            if attempted_colour >= colours {
                lemma_pigeonhole(neighbor_colours@, colours as nat);
                assert(neighbor_colours@.len() < neighbors@.len());
            }
        }
        if attempted_colour < colours {
            node_colours.insert(node, attempted_colour);
            allocation.insert(node, Location::Reg(attempted_colour));
            proof {
                assert(with_regs(alloc0, node_colours@) =~= with_regs(alloc0, nc0).insert(
                    node,
                    Location::Reg(attempted_colour),
                ));
            }
        }
        proof {
            assert(node_set(orig).contains(node)) by {
                assert(orig[k].0 == node);
            }
            assert forall|v: VegNum| #[trigger] node_colours@.contains_key(v) <==> exists|j: int|
                k <= j < n && #[trigger] orig[j].0 == v by {
                if v == node {
                    assert(orig[k].0 == v);
                }
            }
            assert forall|a: int, b: int| k <= a < b < n && (#[trigger] orig[a]).1.contains((#[trigger] orig[b]).0)
                implies node_colours@[orig[a].0] != node_colours@[orig[b].0] by {
                assert(orig[a].0 != orig[b].0);
                if a == k {
                    assert(node_colours@.contains_key(orig[b].0) || orig[b].0 == node);
                }
            }
        }
    }
    proof {
        assert forall|k: int| 0 <= k < n implies #[trigger] old(colourable_stack)@[k].0 == orig[k].0
            && old(colourable_stack)@[k].1@ == orig[k].1 by {}
        assert forall|k: int| 0 <= k < n implies allocation@.contains_key(
            (#[trigger] old(colourable_stack)@[k]).0,
        ) && allocation@[old(colourable_stack)@[k].0] is Reg && allocation@[old(colourable_stack)@[k].0]->Reg_0
            < colours by {
            assert(node_colours@[orig[k].0] < colours);
        }
        assert forall|k: int, j: int|
            0 <= k < j < n && (#[trigger] old(colourable_stack)@[k]).1@.contains(
                (#[trigger] old(colourable_stack)@[j]).0,
            ) implies allocation@[old(colourable_stack)@[k].0] != allocation@[old(colourable_stack)@[j].0] by {
            assert(orig[k].1.contains(orig[j].0));
        }
    }
}

/// A copy of an interference graph.
fn copy_graph(g: &Interference) -> (r: Interference)
    ensures
        graph_view(r@) == graph_view(g@),
{
    let mut r: Interference = Vec::new();
    let mut i: usize = 0;
    while i < g.len()
        invariant
            i <= g@.len(),
            r@.len() == i,
            forall|j: int| 0 <= j < i ==> (#[trigger] r@[j]).0 == g@[j].0 && r@[j].1@ == g@[j].1@,
        decreases g@.len() - i,
    {
        let set = copy_set(&g[i].1);
        r.push((g[i].0, set));
        i = i + 1;
    }
    proof {
        assert forall|j: int| 0 <= j < g@.len() implies #[trigger] graph_view(r@)[j] == graph_view(g@)[j] by {
            assert(r@[j].0 == g@[j].0);
        }
        assert(graph_view(r@) =~= graph_view(g@));
    }
    r
}

/// A graph left of a well formed one on some of its nodes is well formed.
proof fn lemma_restricted_wf(g: Seq<(VegNum, Set<VegNum>)>, h: Seq<(VegNum, Set<VegNum>)>)
    requires
        graph_wf(g),
        restricted(g, h),
    ensures
        graph_wf(h),
        forall|j: int| 0 <= j < h.len() ==> adj(h, (#[trigger] h[j]).0) == h[j].1,
{
    assert forall|j: int| 0 <= j < h.len() implies adj(h, (#[trigger] h[j]).0) == h[j].1 by {
        lemma_adj_at(h, j);
    }
    assert forall|j: int| 0 <= j < h.len() implies {
        &&& (#[trigger] h[j]).1.finite()
        &&& h[j].1.contains(h[j].0)
        &&& h[j].1.subset_of(node_set(h))
    } by {
        lemma_self_neighbour(g, h, j);
    }
    assert forall|j: int, v: VegNum| 0 <= j < h.len() && (#[trigger] h[j]).1.contains(v) implies #[trigger] adj(
        h,
        v,
    ).contains(h[j].0) by {
        let u = h[j].0;
        assert(node_set(h).contains(v));
        let jv = choose|jv: int| 0 <= jv < h.len() && #[trigger] h[jv].0 == v;
        lemma_adj_at(h, jv);
        assert(node_set(g).contains(u));
        let iu = choose|iu: int| 0 <= iu < g.len() && #[trigger] g[iu].0 == u;
        lemma_adj_at(g, iu);
        assert(g[iu].1.contains(v));
        assert(adj(g, v).contains(g[iu].0));
        assert(node_set(h).contains(u)) by {
            assert(h[j].0 == u);
        }
    }
}

/// The stack stays as it should be when nodes leave the graph.
proof fn lemma_stack_ok_shrink(
    g: Seq<(VegNum, Set<VegNum>)>,
    h: Seq<(VegNum, Set<VegNum>)>,
    h2: Seq<(VegNum, Set<VegNum>)>,
    st: Seq<(VegNum, Set<VegNum>)>,
    colours: nat,
)
    requires
        stack_ok(g, h, st, colours),
        node_set(h2).subset_of(node_set(h)),
    ensures
        stack_ok(g, h2, st, colours),
{
    assert forall|k: int| 0 <= k < st.len() implies adj(g, (#[trigger] st[k]).0).intersect(
        node_set(h2).union(later_nodes(st, k)),
    ).subset_of(st[k].1) by {
        assert(adj(g, st[k].0).intersect(node_set(h2).union(later_nodes(st, k))).subset_of(
            adj(g, st[k].0).intersect(node_set(h).union(later_nodes(st, k))),
        ));
    }
}

/// Every node of a well formed graph keeps all its neighbours in the whole
/// graph.
proof fn lemma_restricted_self(g: Seq<(VegNum, Set<VegNum>)>)
    requires
        graph_wf(g),
    ensures
        restricted(g, g),
{
    assert forall|j: int| 0 <= j < g.len() implies node_set(g).contains((#[trigger] g[j]).0) && g[j].1 == adj(
        g,
        g[j].0,
    ).intersect(node_set(g)) by {
        lemma_adj_at(g, j);
        assert(g[j].0 == g[j].0);
        assert(g[j].1 =~= g[j].1.intersect(node_set(g)));
    }
}

/// The colours given to the stack, once the graph is empty and every node
/// is on the stack, differ between any two nodes that interfere.
proof fn lemma_stack_proper(
    g: Seq<(VegNum, Set<VegNum>)>,
    st: Seq<(VegNum, Set<VegNum>)>,
    alloc: Map<VegNum, Location>,
    colours: nat,
)
    requires
        graph_wf(g),
        stack_ok(g, Seq::empty(), st, colours),
        node_set(st) == node_set(g),
        forall|k: int, j: int|
            0 <= k < j < st.len() && (#[trigger] st[k]).1.contains((#[trigger] st[j]).0) ==> alloc[st[k].0]
                != alloc[st[j].0],
    ensures
        forall|i: int, v: VegNum|
            0 <= i < g.len() && (#[trigger] g[i]).1.contains(v) && v != g[i].0 ==> alloc[g[i].0] != #[trigger] alloc[v],
{
    assert forall|i: int, v: VegNum| 0 <= i < g.len() && (#[trigger] g[i]).1.contains(v) && v != g[i].0 implies alloc[g[i].0]
        != #[trigger] alloc[v] by {
        let u = g[i].0;
        lemma_adj_at(g, i);
        assert(node_set(g).contains(u)) by {
            assert(g[i].0 == u);
        }
        assert(node_set(g).contains(v));
        let k = choose|k: int| 0 <= k < st.len() && #[trigger] st[k].0 == u;
        let j = choose|j: int| 0 <= j < st.len() && #[trigger] st[j].0 == v;
        assert(node_set(Seq::<(VegNum, Set<VegNum>)>::empty()) =~= Set::empty());
        if k < j {
            assert(later_nodes(st, k).contains(v));
            assert(adj(g, u).contains(v));
            assert(st[k].1.contains(st[j].0));
        } else {
            assert(k != j);
            assert(adj(g, v).contains(u));
            assert(later_nodes(st, j).contains(u));
            assert(st[j].1.contains(st[k].0));
        }
    }
}

/// Every node has at most `colours` neighbours, itself included: each is
/// an easy neighbour.
pub open spec fn all_easy(g: Seq<(VegNum, Set<VegNum>)>, colours: nat) -> bool {
    forall|i: int| 0 <= i < g.len() ==> (#[trigger] g[i]).1.len() <= colours
}

/// The nodes given a stack slot.
pub open spec fn spilled_nodes(m: Map<VegNum, Location>) -> Set<VegNum> {
    m.dom().filter(|v: VegNum| m[v] is Spill)
}

/// The stack slots are pairwise distinct and run on from `first`, one for
/// each spilled node.
pub open spec fn slots_from(m: Map<VegNum, Location>, first: nat) -> bool {
    &&& forall|u: VegNum, v: VegNum|
        #[trigger] m.contains_key(u) && #[trigger] m.contains_key(v) && u != v && m[u] is Spill && m[v] is Spill
            ==> m[u]->Spill_0 != m[v]->Spill_0
    &&& forall|v: VegNum|
        #[trigger] m.contains_key(v) && m[v] is Spill ==> first <= m[v]->Spill_0 < first + spilled_nodes(m).len()
}

/// A list of distinct nodes has as many nodes as entries.
proof fn lemma_node_set_len(h: Seq<(VegNum, Set<VegNum>)>)
    requires
        distinct_nodes(h),
    ensures
        node_set(h).finite(),
        node_set(h).len() == h.len(),
    decreases h.len(),
{
    if h.len() == 0 {
        assert(node_set(h) =~= Set::empty());
    } else {
        let h0 = h.drop_last();
        assert(distinct_nodes(h0)) by {
            assert forall|i: int, j: int| 0 <= i < j < h0.len() implies #[trigger] h0[i].0 != #[trigger] h0[j].0 by {
                assert(h[i].0 != h[j].0);
            }
        }
        lemma_node_set_len(h0);
        assert(h0.push(h.last()) =~= h);
        lemma_node_set_push(h0, h.last());
        assert(!node_set(h0).contains(h.last().0)) by {
            if node_set(h0).contains(h.last().0) {
                let j = choose|j: int| 0 <= j < h0.len() && #[trigger] h0[j].0 == h.last().0;
                assert(h[j].0 != h[h.len() - 1].0);
            }
        }
    }
}

/// Gives each node of an interference graph a location: a register, as
/// many as `colours`, where nodes that interfere get different registers,
/// or a stack slot for the nodes spilled when no register could be found,
/// numbered from 0, a slot of its own for each. When every node is an easy
/// neighbour, none is spilled.
pub fn colour(interference: Interference, colours: usize) -> (r: HashMap<VegNum, Location>)
    requires
        graph_wf(graph_view(interference@)),
    ensures
        forall|v: VegNum| #[trigger] r@.contains_key(v) <==> node_set(graph_view(interference@)).contains(v),
        forall|v: VegNum| #[trigger] r@.contains_key(v) && r@[v] is Reg ==> r@[v]->Reg_0 < colours,
        forall|i: int, v: VegNum|
            0 <= i < interference@.len() && (#[trigger] interference@[i]).1@.contains(v) && v != interference@[i].0
                && r@[interference@[i].0] is Reg && #[trigger] r@[v] is Reg ==> r@[interference@[i].0] != r@[v],
        all_easy(graph_view(interference@), colours as nat) ==> forall|v: VegNum|
            #[trigger] r@.contains_key(v) ==> r@[v] is Reg,
        slots_from(r@, 0),
        r@ == colouring_spec(graph_view(interference@), colours as nat, 0),
{
    let _n = interference.len();
    colour_from(interference, colours, 0)
}

/* As `colour`, with stack slots numbered from `first`: spilling again
after a first round goes on from the slots that round took. */
fn colour_from(interference: Interference, colours: usize, first: usize) -> (r: HashMap<VegNum, Location>)
    requires
        graph_wf(graph_view(interference@)),
        first + interference@.len() <= usize::MAX,
    ensures
        forall|v: VegNum| #[trigger] r@.contains_key(v) <==> node_set(graph_view(interference@)).contains(v),
        forall|v: VegNum| #[trigger] r@.contains_key(v) && r@[v] is Reg ==> r@[v]->Reg_0 < colours,
        forall|i: int, v: VegNum|
            0 <= i < interference@.len() && (#[trigger] interference@[i]).1@.contains(v) && v != interference@[i].0
                && r@[interference@[i].0] is Reg && #[trigger] r@[v] is Reg ==> r@[interference@[i].0] != r@[v],
        all_easy(graph_view(interference@), colours as nat) ==> forall|v: VegNum|
            #[trigger] r@.contains_key(v) ==> r@[v] is Reg,
        slots_from(r@, first as nat),
        r@ == colouring_spec(graph_view(interference@), colours as nat, first as nat),
    decreases interference@.len(),
{
    let ghost g = graph_view(interference@);
    let _size = interference.len();
    /* Every node is a neighbour of itself. A copy of the interference graph
    is worked on: the graph itself is needed again if nodes are spilled. */
    let mut interference_copy = copy_graph(&interference);
    let mut allocation: HashMap<VegNum, Location> = HashMap::new();
    let mut colourable_stack: Interference = Vec::new();
    let mut spill_location: usize = first;
    proof {
        lemma_restricted_self(g);
        assert(allocation@.dom() =~= Set::empty());
        assert(node_set(graph_view(colourable_stack@)) =~= Set::empty());
        assert(graph_view(colourable_stack@) =~= Seq::<(VegNum, Set<VegNum>)>::empty());
        assert(allocation@ =~= Map::<VegNum, Location>::empty());
    }
    while !interference_copy.is_empty()
        invariant
            graph_wf(g),
            restricted(g, graph_view(interference_copy@)),
            stack_ok(g, graph_view(interference_copy@), graph_view(colourable_stack@), colours as nat),
            interference_copy@.len() <= g.len(),
            first <= spill_location <= first + g.len() - interference_copy@.len(),
            first + g.len() <= usize::MAX,
            allocation@.dom().finite(),
            allocation@.dom().len() == spill_location - first,
            forall|v: VegNum|
                #[trigger] allocation@.contains_key(v) ==> first <= allocation@[v]->Spill_0 < spill_location,
            forall|u: VegNum, v: VegNum|
                #[trigger] allocation@.contains_key(u) && #[trigger] allocation@.contains_key(v) && u != v
                    ==> allocation@[u]->Spill_0 != allocation@[v]->Spill_0,
            g.len() <= usize::MAX,
            g == graph_view(interference@),
            forall|v: VegNum|
                #[trigger] node_set(g).contains(v) <==> (node_set(graph_view(interference_copy@)).contains(v)
                    || node_set(graph_view(colourable_stack@)).contains(v) || allocation@.contains_key(v)),
            forall|v: VegNum|
                #[trigger] allocation@.contains_key(v) ==> allocation@[v] is Spill && !node_set(
                    graph_view(interference_copy@),
                ).contains(v) && !node_set(graph_view(colourable_stack@)).contains(v),
            all_easy(g, colours as nat) ==> forall|v: VegNum| !(#[trigger] allocation@.contains_key(v)),
            simplify(g, Seq::empty(), Map::empty(), first as nat, colours as nat) == simplify(
                graph_view(interference_copy@),
                graph_view(colourable_stack@),
                allocation@,
                spill_location as nat,
                colours as nat,
            ),
        decreases interference_copy@.len(),
    {
        let ghost h0 = graph_view(interference_copy@);
        let ghost st0 = graph_view(colourable_stack@);
        let ghost alloc0 = allocation@;
        /* Remove all easy neighbours. */
        remove_easy_neighbors(&mut interference_copy, &mut colourable_stack, colours, Ghost(g));
        let ghost h1 = graph_view(interference_copy@);
        let ghost st1 = graph_view(colourable_stack@);
        proof {
            assert forall|v: VegNum| #[trigger] node_set(g).contains(v) <==> (node_set(h1).contains(v) || node_set(
                st1,
            ).contains(v) || allocation@.contains_key(v)) by {
                assert(node_set(h0).union(node_set(st0)).contains(v) == node_set(h1).union(node_set(st1)).contains(v));
            }
            assert forall|v: VegNum| #[trigger] allocation@.contains_key(v) implies !node_set(h1).contains(v)
                && !node_set(st1).contains(v) by {
                assert(!node_set(h0).union(node_set(st0)).contains(v));
            }
        }
        if !interference_copy.is_empty() {
            /* No easy neighbours are left: one node goes to the stack frame. */
            let ghost x = h1[0].0;
            proof {
                if all_easy(g, colours as nat) {
                    assert(h1[0].1 == adj(g, x).intersect(node_set(h1)));
                    assert(node_set(g).contains(x));
                    let i = choose|i: int| 0 <= i < g.len() && g[i].0 == x;
                    assert(adj(g, x) == g[i].1);
                    vstd::set_lib::lemma_len_subset(h1[0].1, g[i].1);
                    assert(h1[0].1.len() > colours);
                    assert(false);
                }
                lemma_without_node(g, h1, 0);
                lemma_stack_ok_shrink(g, h1, without_node(h1, 0), st1, colours as nat);
                assert(node_set(h1).contains(x)) by {
                    assert(h1[0].0 == x);
                }
                assert(!node_set(st1).contains(x)) by {
                    if node_set(st1).contains(x) {
                        let k = choose|k: int| 0 <= k < st1.len() && #[trigger] st1[k].0 == x;
                        assert(!node_set(h1).contains(st1[k].0));
                    }
                }
            }
            spill_node(&mut interference_copy, &mut allocation, &mut spill_location);
            proof {
                let h2 = graph_view(interference_copy@);
                assert(h1.len() <= h0.len());
                assert(remove_easy(h0, st0, colours as nat) == (h1, st1));
                assert(node_set(h2) == node_set(h1).remove(x));
                assert forall|v: VegNum| #[trigger] node_set(g).contains(v) <==> (node_set(h2).contains(v)
                    || node_set(st1).contains(v) || allocation@.contains_key(v)) by {
                    if v == x {
                        assert(allocation@.contains_key(v));
                    }
                }
            }
        }
    }
    let ghost st_final = graph_view(colourable_stack@);
    let ghost spilled_map = allocation@;
    let ghost next_slot = spill_location as nat;
    proof {
        let e = graph_view(interference_copy@);
        assert(e =~= Seq::<(VegNum, Set<VegNum>)>::empty());
        assert(easy_pass(e, st_final, colours as nat, 0) == (e, st_final, false));
        assert(remove_easy(e, st_final, colours as nat) == (e, st_final));
        assert(simplify(g, Seq::empty(), Map::empty(), first as nat, colours as nat) == (
            st_final,
            spilled_map,
            next_slot,
        ));
        assert(node_set(graph_view(interference_copy@)) =~= Set::empty()) by {
            assert(interference_copy@.len() == 0);
        }
    }
    if !allocation.is_empty() {
        /* Start again without the spilled nodes. */
        let mut rest = copy_graph(&interference);
        let mut i: usize = 0;
        proof {
            lemma_restricted_self(g);
        }
        while i < rest.len()
            invariant
                graph_wf(g),
                g == graph_view(interference@),
                restricted(g, graph_view(rest@)),
                i <= rest@.len(),
                rest@.len() <= g.len(),
                rest@.len() == g.len() ==> graph_view(rest@) == g,
                allocation@ == spilled_map,
                drop_placed(g, spilled_map, 0) == drop_placed(graph_view(rest@), spilled_map, i as int),
                forall|j: int| 0 <= j < i ==> !allocation@.contains_key((#[trigger] graph_view(rest@)[j]).0),
                forall|v: VegNum| #[trigger] node_set(graph_view(rest@)).contains(v) ==> node_set(g).contains(v),
                forall|v: VegNum|
                    node_set(g).contains(v) && !allocation@.contains_key(v) ==> #[trigger] node_set(
                        graph_view(rest@),
                    ).contains(v),
            decreases rest@.len() - i,
        {
            let ghost h = graph_view(rest@);
            proof {
                assert(h[i as int].0 == rest@[i as int].0);
            }
            if allocation.contains_key(&rest[i].0) {
                proof {
                    lemma_without_node(g, h, i as int);
                }
                let _spilled = remove_node(&mut rest, i);
                proof {
                    let h2 = graph_view(rest@);
                    assert forall|j: int| 0 <= j < i implies !allocation@.contains_key((#[trigger] h2[j]).0) by {
                        assert(h2[j].0 == h[j].0);
                    }
                }
            } else {
                i = i + 1;
            }
        }
        let ghost rv = graph_view(rest@);
        proof {
            assert(drop_placed(rv, spilled_map, i as int) == rv);
            lemma_restricted_wf(g, rv);
            let w = choose|w: VegNum| allocation@.contains_key(w);
            assert(allocation@.contains_key(w)) by {
                if !(exists|w: VegNum| allocation@.contains_key(w)) {
                    assert(allocation@.dom() =~= Set::empty());
                }
            }
            if rest@.len() == g.len() {
                assert(node_set(rv).contains(w));
                let j = choose|j: int| 0 <= j < rv.len() && #[trigger] rv[j].0 == w;
                assert(!allocation@.contains_key(rv[j].0));
            }
        }
        let mut nodes: Vec<VegNum> = Vec::new();
        let mut j: usize = 0;
        while j < rest.len()
            invariant
                j <= rest@.len(),
                rv == graph_view(rest@),
                nodes@.len() == j,
                forall|m: int| 0 <= m < j ==> nodes@[m] == #[trigger] rv[m].0,
            decreases rest@.len() - j,
        {
            nodes.push(rest[j].0);
            j = j + 1;
        }
        proof {
            lemma_node_set_len(g);
            lemma_node_set_len(rv);
            assert forall|v: VegNum| #[trigger] allocation@.contains_key(v) implies node_set(g).contains(v) by {}
            assert(node_set(rv) =~= node_set(g).difference(allocation@.dom())) by {
                assert forall|v: VegNum| #[trigger] node_set(rv).contains(v) implies !allocation@.contains_key(v) by {
                    let q = choose|q: int| 0 <= q < rv.len() && #[trigger] rv[q].0 == v;
                    assert(!allocation@.contains_key(rv[q].0));
                }
            }
            assert(node_set(g).intersect(allocation@.dom()) =~= allocation@.dom());
            vstd::set_lib::lemma_set_difference_len(node_set(g), allocation@.dom());
        }
        let result = colour_from(rest, colours, spill_location);
        let ghost spilled = allocation@;
        let mut m: usize = 0;
        while m < nodes.len()
            invariant
                m <= nodes@.len(),
                nodes@.len() == rv.len(),
                distinct_nodes(rv),
                forall|q: int| 0 <= q < rv.len() ==> nodes@[q] == #[trigger] rv[q].0,
                forall|v: VegNum| #[trigger] result@.contains_key(v) <==> node_set(rv).contains(v),
                forall|v: VegNum| #[trigger] spilled.contains_key(v) ==> !node_set(rv).contains(v) && spilled[v] is Spill,
                forall|v: VegNum|
                    #[trigger] allocation@.contains_key(v) <==> spilled.contains_key(v) || exists|q: int|
                        0 <= q < m && #[trigger] rv[q].0 == v,
                forall|v: VegNum| #[trigger] spilled.contains_key(v) ==> allocation@[v] == spilled[v],
                forall|q: int| 0 <= q < m ==> allocation@[(#[trigger] rv[q]).0] == result@[rv[q].0],
            decreases nodes@.len() - m,
        {
            proof {
                assert(node_set(rv).contains(rv[m as int].0));
            }
            match result.get(&nodes[m]) {
                Some(loc) => {
                    allocation.insert(nodes[m], *loc);
                },
                None => {},
            }
            proof {
                assert forall|q: int| 0 <= q < m + 1 implies allocation@[(#[trigger] rv[q]).0] == result@[rv[q].0] by {
                    if q < m {
                        assert(rv[q].0 != rv[m as int].0);
                    }
                }
                assert forall|v: VegNum| #[trigger] spilled.contains_key(v) implies allocation@[v] == spilled[v] by {
                    assert(v != rv[m as int].0);
                }
                assert forall|v: VegNum| #[trigger] allocation@.contains_key(v) <==> spilled.contains_key(v) || exists|q: int|
                    0 <= q < m + 1 && #[trigger] rv[q].0 == v by {
                    if v == rv[m as int].0 {
                        assert(allocation@.contains_key(v));
                    }
                }
            }
            m = m + 1;
        }
        proof {
            assert forall|v: VegNum| #[trigger] allocation@.contains_key(v) <==> node_set(g).contains(v) by {
                if node_set(rv).contains(v) {
                    let q = choose|q: int| 0 <= q < rv.len() && #[trigger] rv[q].0 == v;
                    assert(allocation@.contains_key(rv[q].0));
                }
                if allocation@.contains_key(v) && !spilled.contains_key(v) {
                    let q = choose|q: int| 0 <= q < m && #[trigger] rv[q].0 == v;
                    assert(node_set(rv).contains(rv[q].0));
                }
            }
            assert forall|v: VegNum| #[trigger] allocation@.contains_key(v) && allocation@[v] is Reg implies allocation@[v]->Reg_0
                < colours by {
                if !spilled.contains_key(v) {
                    let q = choose|q: int| 0 <= q < m && #[trigger] rv[q].0 == v;
                    assert(allocation@[rv[q].0] == result@[rv[q].0]);
                    assert(result@.contains_key(v));
                }
            }
            assert forall|i: int, v: VegNum|
                0 <= i < interference@.len() && (#[trigger] interference@[i]).1@.contains(v) && v != interference@[i].0
                    && allocation@[interference@[i].0] is Reg && #[trigger] allocation@[v] is Reg implies allocation@[interference@[i].0]
                != allocation@[v] by {
                let u = interference@[i].0;
                assert(g[i].0 == u && g[i].1.contains(v));
                lemma_adj_at(g, i);
                assert(node_set(g).contains(u)) by {
                    assert(g[i].0 == u);
                }
                assert(node_set(g).contains(v));
                assert(!spilled.contains_key(u));
                assert(!spilled.contains_key(v));
                assert(node_set(rv).contains(u));
                assert(node_set(rv).contains(v));
                let qu = choose|qu: int| 0 <= qu < rv.len() && #[trigger] rv[qu].0 == u;
                let qv = choose|qv: int| 0 <= qv < rv.len() && #[trigger] rv[qv].0 == v;
                assert(allocation@[rv[qu].0] == result@[rv[qu].0]);
                assert(allocation@[rv[qv].0] == result@[rv[qv].0]);
                assert(rv[qu].1 == adj(g, u).intersect(node_set(rv)));
                assert(rv[qu].1.contains(v));
            }
        }
        proof {
            let fin = allocation@;
            let sd = spilled.dom();
            let rs = spilled_nodes(result@);
            lemma_node_set_len(rv);
            assert(rs.subset_of(node_set(rv)));
            vstd::set_lib::lemma_len_subset(rs, node_set(rv));
            assert forall|v: VegNum| sd.contains(v) implies !node_set(rv).contains(v) by {}
            assert(sd.disjoint(rs));
            assert(spilled_nodes(fin) =~= sd + rs) by {
                assert forall|v: VegNum| spilled_nodes(fin).contains(v) == (sd + rs).contains(v) by {
                    if fin.contains_key(v) && !spilled.contains_key(v) {
                        let q = choose|q: int| 0 <= q < m && #[trigger] rv[q].0 == v;
                        assert(fin[rv[q].0] == result@[rv[q].0]);
                    }
                    if rs.contains(v) {
                        assert(node_set(rv).contains(v));
                        let q = choose|q: int| 0 <= q < rv.len() && #[trigger] rv[q].0 == v;
                        assert(fin.contains_key(rv[q].0));
                        assert(fin[rv[q].0] == result@[rv[q].0]);
                    }
                }
            }
            vstd::set_lib::lemma_set_disjoint_lens(sd, rs);
            assert(spilled_nodes(fin).len() == sd.len() + rs.len());
            assert forall|v: VegNum| #[trigger] fin.contains_key(v) && fin[v] is Spill implies first <= fin[v]->Spill_0
                < first + spilled_nodes(fin).len() by {
                if !spilled.contains_key(v) {
                    let q = choose|q: int| 0 <= q < m && #[trigger] rv[q].0 == v;
                    assert(fin[rv[q].0] == result@[rv[q].0]);
                    assert(result@.contains_key(v));
                }
            }
            assert forall|u: VegNum, v: VegNum|
                #[trigger] fin.contains_key(u) && #[trigger] fin.contains_key(v) && u != v && fin[u] is Spill
                    && fin[v] is Spill implies fin[u]->Spill_0 != fin[v]->Spill_0 by {
                if !spilled.contains_key(u) {
                    let q = choose|q: int| 0 <= q < m && #[trigger] rv[q].0 == u;
                    assert(fin[rv[q].0] == result@[rv[q].0]);
                    assert(result@.contains_key(u));
                }
                if !spilled.contains_key(v) {
                    let q = choose|q: int| 0 <= q < m && #[trigger] rv[q].0 == v;
                    assert(fin[rv[q].0] == result@[rv[q].0]);
                    assert(result@.contains_key(v));
                }
            }
        }
        proof {
            assert(!spilled_map.is_empty());
            assert(allocation@ =~= spilled_map.union_prefer_right(result@)) by {
                assert forall|v: VegNum| #[trigger] allocation@.contains_key(v) == spilled_map.union_prefer_right(
                    result@,
                ).contains_key(v) by {
                    if result@.contains_key(v) && !spilled.contains_key(v) {
                        assert(node_set(rv).contains(v));
                        let q = choose|q: int| 0 <= q < rv.len() && #[trigger] rv[q].0 == v;
                        assert(allocation@.contains_key(rv[q].0));
                    }
                }
                assert forall|v: VegNum| #[trigger] allocation@.contains_key(v) implies allocation@[v]
                    == spilled_map.union_prefer_right(result@)[v] by {
                    if !spilled.contains_key(v) {
                        let q = choose|q: int| 0 <= q < m && #[trigger] rv[q].0 == v;
                        assert(allocation@[rv[q].0] == result@[rv[q].0]);
                        assert(result@.contains_key(v));
                    } else {
                        assert(!node_set(rv).contains(v));
                        assert(!result@.contains_key(v));
                    }
                }
            }
            assert(rv == drop_placed(g, spilled_map, 0));
            assert(rv.len() < g.len());
        }
        allocation
    } else {
        proof {
            assert forall|v: VegNum| node_set(g).contains(v) implies #[trigger] node_set(st_final).contains(v) by {
                assert(!allocation@.contains_key(v)) by {
                    assert(allocation@.dom() =~= Set::empty());
                }
            }
            assert(node_set(st_final) =~= node_set(g));
            lemma_stack_ok_shrink(g, graph_view(interference_copy@), Seq::empty(), st_final, colours as nat);
        }
        /* Pop all the nodes from the stack, colouring them. */
        let ghost cs = colourable_stack@;
        proof {
            assert forall|k: int| 0 <= k < cs.len() implies (#[trigger] cs[k]).1@ == st_final[k].1 && cs[k].0
                == st_final[k].0 by {
                assert(graph_view(cs)[k] == (cs[k].0, cs[k].1@));
            }
        }
        colour_stack(&mut colourable_stack, &mut allocation, colours);
        proof {
            assert forall|k: int, j: int|
                0 <= k < j < st_final.len() && (#[trigger] st_final[k]).1.contains((#[trigger] st_final[j]).0) implies allocation@[st_final[k].0]
                != allocation@[st_final[j].0] by {
                assert(graph_view(cs)[k] == st_final[k] && graph_view(cs)[j] == st_final[j]);
            }
            lemma_stack_proper(g, st_final, allocation@, colours as nat);
            assert forall|i: int, v: VegNum|
                0 <= i < interference@.len() && (#[trigger] interference@[i]).1@.contains(v) && v != interference@[i].0
                    && allocation@[interference@[i].0] is Reg && #[trigger] allocation@[v] is Reg implies allocation@[interference@[i].0]
                != allocation@[v] by {
                assert(g[i] == (interference@[i].0, interference@[i].1@));
            }
            assert forall|v: VegNum| #[trigger] allocation@.contains_key(v) <==> node_set(g).contains(v) by {
                if node_set(st_final).contains(v) {
                    let k = choose|k: int| 0 <= k < st_final.len() && #[trigger] st_final[k].0 == v;
                    assert(allocation@.contains_key(st_final[k].0));
                }
            }
        }
        proof {
            assert forall|v: VegNum| #[trigger] allocation@.contains_key(v) implies allocation@[v] is Reg by {
                assert(node_set(st_final).contains(v));
                let k = choose|k: int| 0 <= k < st_final.len() && #[trigger] st_final[k].0 == v;
                assert(cs[k].0 == v);
            }
            assert(spilled_nodes(allocation@) =~= Set::empty());
        }
        proof {
            assert(spilled_map.is_empty());
            assert(allocation@ == colouring_spec(g, colours as nat, first as nat));
        }
        allocation
    }
}

} // verus!
