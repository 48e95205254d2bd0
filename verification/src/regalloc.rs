//! Linear-scan register allocation over one block: each vreg's live interval
//! runs from its first to its last mention; intervals are visited by start,
//! expired intervals return their register, and when all thirteen host
//! registers are busy the active interval that ends last is spilled.
use crate::ffi::{CAllocEntry, CHostGpr, CLocation, CLocationKind};
use crate::ir::{IrBlock, IrOp, OpView, VOperand, VReg};
use std::collections::HashMap;
use vstd::prelude::*;
use vstd::std_specs::hash::group_hash_axioms;

verus! {

broadcast use group_hash_axioms;

#[derive(Clone, Copy, Debug, PartialEq, Eq, Structural)]
pub enum Location {
    Reg(CHostGpr),
    Spill(u32),
}

#[derive(Clone, Debug)]
pub struct Allocation {
    pub map: HashMap<u32, Location>,
}

/// The live interval of a vreg: the indices of its first and last mention.
#[derive(Clone, Copy, Debug, PartialEq, Eq, Structural)]
pub struct Interval {
    pub vreg: u32,
    pub start: usize,
    pub end: usize,
}

pub open spec fn location_to_c_spec(loc: Location) -> CLocation {
    match loc {
        Location::Reg(g) => CLocation { kind: CLocationKind::Reg, gpr: g, offset: 0 },
        Location::Spill(off) => CLocation { kind: CLocationKind::Spill, gpr: CHostGpr::Rax, offset: off },
    }
}

fn location_to_c(loc: &Location) -> (r: CLocation)
    ensures
        r == location_to_c_spec(*loc),
{
    match loc {
        Location::Reg(g) => CLocation { kind: CLocationKind::Reg, gpr: *g, offset: 0 },
        Location::Spill(off) => CLocation { kind: CLocationKind::Spill, gpr: CHostGpr::Rax, offset: *off },
    }
}

impl Allocation {
    /// One flat entry per assigned vreg. The order is that of the map's
    /// iteration, which the map does not fix.
    pub fn to_c_entries(&self) -> (r: Vec<CAllocEntry>)
        ensures
            r@.len() == self.map@.len(),
            forall|j: int| 0 <= j < r@.len() ==> self.map@.contains_key((#[trigger] r@[j]).vreg) && r@[j].loc
                == location_to_c_spec(self.map@[r@[j].vreg]),
            forall|a: int, b: int| 0 <= a < r@.len() && 0 <= b < r@.len() && a != b ==> r@[a].vreg != r@[b].vreg,
    {
        let mut out: Vec<CAllocEntry> = Vec::new();
        let ghost m = self.map@;
        for (k, v) in it: self.map.iter()
            invariant
                out@.len() == it.index(),
                forall|j: int| 0 <= j < it.index() ==> (#[trigger] out@[j]).vreg == *it.seq()[j].0 && out@[j].loc
                    == location_to_c_spec(*it.seq()[j].1),
                it.seq().no_duplicates(),
                forall|j: int| 0 <= j < it.seq().len() ==> m.contains_key(*it.seq()[j].0) && m[*it.seq()[j].0] == *it.seq()[j].1,
                forall|a: int, b: int| 0 <= a < out@.len() && 0 <= b < out@.len() && a != b ==> out@[a].vreg != out@[b].vreg,
        {
            proof {
                let i = it.index();
                assert forall|a: int| 0 <= a < out@.len() implies out@[a].vreg != *k by {
                    if out@[a].vreg == *k {
                        assert(it.seq()[a] == it.seq()[i as int]);
                    }
                }
            }
            out.push(CAllocEntry { vreg: *k, loc: location_to_c(v) });
        }
        out
    }
}

// ---------------------------------------------------------------------------
// Live intervals.
// ---------------------------------------------------------------------------

/// The vreg numbers among `ops`, in order.
pub open spec fn reg_list(ops: Seq<VOperand>) -> Seq<u32>
    decreases ops.len(),
{
    if ops.len() == 0 {
        Seq::empty()
    } else {
        let rest = reg_list(ops.drop_last());
        match ops.last() {
            VOperand::Reg(VReg(n)) => rest.push(n),
            VOperand::Imm(_) => rest,
        }
    }
}

/// The vregs an op mentions: its destination first, then its register operands.
pub open spec fn op_regs(op: OpView) -> Seq<u32> {
    match op.dst() {
        Some(d) => seq![d.0] + reg_list(op.operands()),
        None => reg_list(op.operands()),
    }
}

pub open spec fn has_vreg(ivs: Seq<Interval>, r: u32) -> bool {
    exists|k: int| 0 <= k < ivs.len() && (#[trigger] ivs[k]).vreg == r
}

pub open spec fn index_of(ivs: Seq<Interval>, r: u32) -> int {
    choose|k: int| 0 <= k < ivs.len() && (#[trigger] ivs[k]).vreg == r
}

/// A mention of `r` at op `i`: it extends `r`'s interval, or opens one.
pub open spec fn touch(ivs: Seq<Interval>, r: u32, i: usize) -> Seq<Interval> {
    if has_vreg(ivs, r) {
        let k = index_of(ivs, r);
        ivs.update(k, Interval { end: i, ..ivs[k] })
    } else {
        ivs.push(Interval { vreg: r, start: i, end: i })
    }
}

pub open spec fn touch_all(ivs: Seq<Interval>, regs: Seq<u32>, i: usize) -> Seq<Interval>
    decreases regs.len(),
{
    if regs.len() == 0 {
        ivs
    } else {
        touch(touch_all(ivs, regs.drop_last(), i), regs.last(), i)
    }
}

/// The intervals after the first `n` ops, in order of first mention.
pub open spec fn intervals_prefix(ops: Seq<OpView>, n: nat) -> Seq<Interval>
    decreases n,
{
    if n == 0 {
        Seq::empty()
    } else {
        touch_all(intervals_prefix(ops, (n - 1) as nat), op_regs(ops[n - 1]), (n - 1) as usize)
    }
}

pub open spec fn intervals_of(ops: Seq<OpView>) -> Seq<Interval> {
    intervals_prefix(ops, ops.len())
}

pub open spec fn distinct_vregs(ivs: Seq<Interval>) -> bool {
    forall|a: int, b: int| 0 <= a < ivs.len() && 0 <= b < ivs.len() && a != b ==> ivs[a].vreg != ivs[b].vreg
}

/// `pos` maps each vreg with an interval to that interval's index.
pub open spec fn positions_ok(ivs: Seq<Interval>, pos: Map<u32, usize>) -> bool {
    &&& distinct_vregs(ivs)
    &&& forall|r: u32| #[trigger] pos.contains_key(r) <==> has_vreg(ivs, r)
    &&& forall|r: u32| pos.contains_key(r) ==> {
        let k = #[trigger] pos[r] as int;
        0 <= k < ivs.len() && ivs[k].vreg == r
    }
}

fn touch_exec(ivs: &mut Vec<Interval>, pos: &mut HashMap<u32, usize>, r: u32, i: usize)
    requires
        positions_ok(old(ivs)@, old(pos)@),
    ensures
        positions_ok(final(ivs)@, final(pos)@),
        final(ivs)@ == touch(old(ivs)@, r, i),
{
    match pos.get(&r) {
        Some(k) => {
            let k = *k;
            let mut iv = ivs[k];
            assert(index_of(old(ivs)@, r) == k as int);
            iv.end = i;
            ivs.set(k, iv);
            proof {
                assert forall|q: u32| pos@.contains_key(q) <==> has_vreg(ivs@, q) by {
                    if has_vreg(old(ivs)@, q) {
                        let j = choose|j: int| 0 <= j < old(ivs)@.len() && (#[trigger] old(ivs)@[j]).vreg == q;
                        assert(ivs@[j].vreg == q);
                    }
                    if has_vreg(ivs@, q) {
                        let j = choose|j: int| 0 <= j < ivs@.len() && (#[trigger] ivs@[j]).vreg == q;
                        assert(old(ivs)@[j].vreg == q);
                    }
                }
            }
        },
        None => {
            assert(!has_vreg(ivs@, r));
            pos.insert(r, ivs.len());
            ivs.push(Interval { vreg: r, start: i, end: i });
            proof {
                assert forall|q: u32| pos@.contains_key(q) <==> has_vreg(ivs@, q) by {
                    if has_vreg(old(ivs)@, q) {
                        let j = choose|j: int| 0 <= j < old(ivs)@.len() && (#[trigger] old(ivs)@[j]).vreg == q;
                        assert(ivs@[j].vreg == q);
                    }
                    if q == r {
                        assert(ivs@[ivs@.len() - 1].vreg == q);
                    }
                    if has_vreg(ivs@, q) && q != r {
                        let j = choose|j: int| 0 <= j < ivs@.len() && (#[trigger] ivs@[j]).vreg == q;
                        assert(j < old(ivs)@.len());
                        assert(old(ivs)@[j].vreg == q);
                    }
                }
            }
        },
    }
}

/// Computes the live interval of every vreg the block mentions.
pub fn compute_intervals(block: &IrBlock) -> (r: Vec<Interval>)
    ensures
        r@ == intervals_of(block@.ops),
        distinct_vregs(r@),
{
    let mut ivs: Vec<Interval> = Vec::new();
    let mut pos: HashMap<u32, usize> = HashMap::new();
    let mut i: usize = 0;
    while i < block.ops.len()
        invariant
            i <= block.ops.len(),
            positions_ok(ivs@, pos@),
            ivs@ == intervals_prefix(block@.ops, i as nat),
        decreases block.ops.len() - i,
    {
        let op = &block.ops[i];
        assert(op@ == block@.ops[i as int]);
        let ghost base = ivs@;
        let mut regs: Vec<u32> = Vec::new();
        if let Some(d) = op.dst() {
            regs.push(d.0);
        }
        let operands = op.operands();
        let mut j: usize = 0;
        let ghost head = regs@;
        while j < operands.len()
            invariant
                j <= operands.len(),
                operands@ == op@.operands(),
                regs@ == head + reg_list(operands@.subrange(0, j as int)),
            decreases operands.len() - j,
        {
            if let VOperand::Reg(VReg(n)) = operands[j] {
                regs.push(n);
            }
            proof {
                assert(operands@.subrange(0, j as int + 1).drop_last() =~= operands@.subrange(0, j as int));
            }
            j = j + 1;
        }
        proof {
            assert(operands@.subrange(0, operands@.len() as int) =~= operands@);
            assert(regs@ =~= op_regs(op@));
        }
        let mut k: usize = 0;
        while k < regs.len()
            invariant
                k <= regs.len(),
                positions_ok(ivs@, pos@),
                ivs@ == touch_all(base, regs@.subrange(0, k as int), i),
            decreases regs.len() - k,
        {
            touch_exec(&mut ivs, &mut pos, regs[k], i);
            proof {
                assert(regs@.subrange(0, k as int + 1).drop_last() =~= regs@.subrange(0, k as int));
            }
            k = k + 1;
        }
        proof {
            assert(regs@.subrange(0, regs@.len() as int) =~= regs@);
        }
        i = i + 1;
    }
    ivs
}

// ---------------------------------------------------------------------------
// The scan.
// ---------------------------------------------------------------------------

pub open spec fn host_gprs_spec() -> Seq<CHostGpr> {
    seq![
        CHostGpr::Rax,
        CHostGpr::Rbx,
        CHostGpr::Rcx,
        CHostGpr::Rdx,
        CHostGpr::Rsi,
        CHostGpr::Rdi,
        CHostGpr::R8,
        CHostGpr::R9,
        CHostGpr::R10,
        CHostGpr::R11,
        CHostGpr::R12,
        CHostGpr::R13,
        CHostGpr::R14,
    ]
}

fn host_gprs() -> (r: Vec<CHostGpr>)
    ensures
        r@ == host_gprs_spec(),
{
    let r = vec![
        CHostGpr::Rax,
        CHostGpr::Rbx,
        CHostGpr::Rcx,
        CHostGpr::Rdx,
        CHostGpr::Rsi,
        CHostGpr::Rdi,
        CHostGpr::R8,
        CHostGpr::R9,
        CHostGpr::R10,
        CHostGpr::R11,
        CHostGpr::R12,
        CHostGpr::R13,
        CHostGpr::R14,
    ];
    assert(r@ =~= host_gprs_spec());
    r
}

/// State of the scan: active intervals with their registers, the free pool
/// (taken from its end), the assignment so far and the next spill offset.
pub struct ScanState {
    pub active: Seq<(Interval, CHostGpr)>,
    pub free: Seq<CHostGpr>,
    pub map: Map<u32, Location>,
    pub next_spill: nat,
}

/// Expiry over the first `n` active entries: those ending before `start` leave,
/// in order, and return their register to the pool.
pub open spec fn expire_prefix(active: Seq<(Interval, CHostGpr)>, free: Seq<CHostGpr>, start: usize, n: nat) -> (
    Seq<(Interval, CHostGpr)>,
    Seq<CHostGpr>,
)
    decreases n,
{
    if n == 0 {
        (Seq::empty(), free)
    } else {
        let (kept, fr) = expire_prefix(active, free, start, (n - 1) as nat);
        let e = active[n - 1];
        if e.0.end < start {
            (kept, fr.push(e.1))
        } else {
            (kept.push(e), fr)
        }
    }
}

/// Index of the active entry ending last (the last one among equals), over the first `n`.
pub open spec fn max_end_index(active: Seq<(Interval, CHostGpr)>, n: nat) -> int
    decreases n,
{
    if n <= 1 {
        0
    } else {
        let k = max_end_index(active, (n - 1) as nat);
        if active[n - 1].0.end >= active[k].0.end {
            n - 1
        } else {
            k
        }
    }
}

pub open spec fn swap_remove_spec<A>(s: Seq<A>, i: int) -> Seq<A> {
    s.update(i, s.last()).drop_last()
}

/// One step of the scan, for interval `iv`.
pub open spec fn scan_step(st: ScanState, iv: Interval) -> ScanState {
    let (active, free) = expire_prefix(st.active, st.free, iv.start, st.active.len());
    if free.len() > 0 {
        let g = free.last();
        ScanState {
            active: active.push((iv, g)),
            free: free.drop_last(),
            map: st.map.insert(iv.vreg, Location::Reg(g)),
            next_spill: st.next_spill,
        }
    } else if active.len() > 0 {
        let idx = max_end_index(active, active.len());
        let (spilled, g) = active[idx];
        ScanState {
            active: swap_remove_spec(active, idx).push((iv, g)),
            free,
            map: st.map.insert(spilled.vreg, Location::Spill(st.next_spill as u32)).insert(iv.vreg, Location::Reg(g)),
            next_spill: st.next_spill + 8,
        }
    } else {
        ScanState {
            active,
            free,
            map: st.map.insert(iv.vreg, Location::Spill(st.next_spill as u32)),
            next_spill: st.next_spill + 8,
        }
    }
}

pub open spec fn scan_prefix(ivs: Seq<Interval>, n: nat) -> ScanState
    decreases n,
{
    if n == 0 {
        ScanState { active: Seq::empty(), free: host_gprs_spec(), map: Map::empty(), next_spill: 0 }
    } else {
        scan_step(scan_prefix(ivs, (n - 1) as nat), ivs[n - 1])
    }
}

pub open spec fn scan_spec(ops: Seq<OpView>) -> ScanState {
    let ivs = intervals_of(ops);
    scan_prefix(ivs, ivs.len())
}

/// Each spill moves the next offset on by eight bytes, so after `n` intervals
/// it is at most `8 * n`.
pub proof fn lemma_scan_spill_bound(ivs: Seq<Interval>, n: nat)
    requires
        n <= ivs.len(),
    ensures
        scan_prefix(ivs, n).next_spill <= 8 * n,
    decreases n,
{
    if n > 0 {
        lemma_scan_spill_bound(ivs, (n - 1) as nat);
    }
}

proof fn lemma_scan_spill_monotone(ivs: Seq<Interval>, a: nat, b: nat)
    requires
        a <= b <= ivs.len(),
    ensures
        scan_prefix(ivs, a).next_spill <= scan_prefix(ivs, b).next_spill,
    decreases b - a,
{
    if a < b {
        lemma_scan_spill_monotone(ivs, a, (b - 1) as nat);
    }
}

fn expire_exec(active: &mut Vec<(Interval, CHostGpr)>, free: &mut Vec<CHostGpr>, start: usize)
    ensures
        (final(active)@, final(free)@) == expire_prefix(old(active)@, old(free)@, start, old(active)@.len()),
{
    let mut kept: Vec<(Interval, CHostGpr)> = Vec::new();
    let mut i: usize = 0;
    while i < active.len()
        invariant
            i <= active.len(),
            active@ == old(active)@,
            (kept@, free@) == expire_prefix(old(active)@, old(free)@, start, i as nat),
        decreases active.len() - i,
    {
        let e = active[i];
        if e.0.end < start {
            free.push(e.1);
        } else {
            kept.push(e);
        }
        i = i + 1;
    }
    *active = kept;
}

fn max_end_exec(active: &Vec<(Interval, CHostGpr)>) -> (r: usize)
    requires
        active@.len() > 0,
    ensures
        r as int == max_end_index(active@, active@.len()),
        r < active@.len(),
{
    let mut best: usize = 0;
    let mut i: usize = 1;
    while i < active.len()
        invariant
            1 <= i <= active.len(),
            best as int == max_end_index(active@, i as nat),
            best < i,
        decreases active.len() - i,
    {
        if active[i].0.end >= active[best].0.end {
            best = i;
        }
        i = i + 1;
    }
    best
}

/// Assigns every vreg of the block a host register or a spill slot.
pub fn linear_scan(block: &IrBlock) -> (r: Allocation)
    requires
        scan_spec(block@.ops).next_spill <= u32::MAX,
    ensures
        r.map@ == scan_spec(block@.ops).map,
        spill_offsets_ok(r.map@, scan_spec(block@.ops).next_spill as int),
{
    let ivs = compute_intervals(block);
    proof {
        lemma_scan_spill_offsets(ivs@, ivs@.len() as nat);
    }
    let mut active: Vec<(Interval, CHostGpr)> = Vec::new();
    let mut free = host_gprs();
    let mut map: HashMap<u32, Location> = HashMap::new();
    let mut next_spill: u32 = 0;
    let mut n: usize = 0;
    while n < ivs.len()
        invariant
            n <= ivs.len(),
            ivs@ == intervals_of(block@.ops),
            scan_prefix(ivs@, ivs@.len() as nat).next_spill <= u32::MAX,
            ({
                let st = scan_prefix(ivs@, n as nat);
                &&& st.active == active@
                &&& st.free == free@
                &&& st.map == map@
                &&& st.next_spill == next_spill as nat
            }),
        decreases ivs.len() - n,
    {
        let iv = ivs[n];
        proof {
            lemma_scan_spill_monotone(ivs@, n as nat + 1, ivs@.len() as nat);
        }
        expire_exec(&mut active, &mut free, iv.start);
        if let Some(g) = free.pop() {
            map.insert(iv.vreg, Location::Reg(g));
            active.push((iv, g));
        } else if active.len() > 0 {
            let idx = max_end_exec(&active);
            let (spilled, g) = active.swap_remove(idx);
            let off = next_spill;
            next_spill = next_spill + 8;
            map.insert(spilled.vreg, Location::Spill(off));
            map.insert(iv.vreg, Location::Reg(g));
            active.push((iv, g));
        } else {
            let off = next_spill;
            next_spill = next_spill + 8;
            map.insert(iv.vreg, Location::Spill(off));
        }
        n = n + 1;
    }
    Allocation { map }
}


// ---------------------------------------------------------------------------
// Laws.
// ---------------------------------------------------------------------------

/// Intervals are well formed: distinct vregs, visited in order of start, each
/// starting no later than it ends.
pub open spec fn well_ordered(ivs: Seq<Interval>) -> bool {
    &&& distinct_vregs(ivs)
    &&& forall|a: int, b: int| 0 <= a < b < ivs.len() ==> ivs[a].start <= ivs[b].start
    &&& forall|a: int| 0 <= a < ivs.len() ==> ivs[a].start <= ivs[a].end
}

/// Two vregs with the same host register never overlap: the earlier interval ends
/// strictly before the later one starts.
pub open spec fn conflict_free(ivs: Seq<Interval>, map: Map<u32, Location>, n: nat) -> bool {
    forall|a: int, b: int|
        0 <= a < b < n && map.contains_key(ivs[a].vreg) && map.contains_key(ivs[b].vreg) && (#[trigger] map[ivs[a].vreg]) is Reg
            && map[ivs[a].vreg] == #[trigger] map[ivs[b].vreg] ==> ivs[a].end < ivs[b].start
}

pub open spec fn regs_distinct(active: Seq<(Interval, CHostGpr)>) -> bool {
    forall|x: int, y: int| 0 <= x < active.len() && 0 <= y < active.len() && x != y ==> active[x].1 != active[y].1
}

pub open spec fn is_active(active: Seq<(Interval, CHostGpr)>, r: u32) -> bool {
    exists|x: int| 0 <= x < active.len() && (#[trigger] active[x]).0.vreg == r
}

/// What the scan keeps true after `n` intervals.
pub open spec fn scan_inv(ivs: Seq<Interval>, st: ScanState, n: nat) -> bool {
    &&& regs_distinct(st.active)
    &&& st.free.no_duplicates()
    &&& forall|x: int, y: int| 0 <= x < st.active.len() && 0 <= y < st.free.len() ==> st.active[x].1 != st.free[y]
    &&& forall|x: int| 0 <= x < st.active.len() ==> {
        let e = #[trigger] st.active[x];
        &&& st.map.contains_key(e.0.vreg)
        &&& st.map[e.0.vreg] == Location::Reg(e.1)
        &&& exists|k: int| 0 <= k < n && ivs[k] == e.0
    }
    &&& forall|k: int| 0 <= k < n ==> st.map.contains_key(#[trigger] ivs[k].vreg)
    &&& forall|r: u32| #[trigger] st.map.contains_key(r) ==> exists|k: int| 0 <= k < n && ivs[k].vreg == r
    &&& n > 0 ==> forall|k: int|
        0 <= k < n && (#[trigger] st.map[ivs[k].vreg]) is Reg && !is_active(st.active, ivs[k].vreg)
            ==> ivs[k].end < ivs[n - 1].start
    &&& conflict_free(ivs, st.map, n)
}

#[verifier::spinoff_prover]
#[verifier::rlimit(40)]
proof fn lemma_expire(active: Seq<(Interval, CHostGpr)>, free: Seq<CHostGpr>, start: usize, n: nat)
    requires
        n <= active.len(),
        regs_distinct(active),
        free.no_duplicates(),
        forall|x: int, y: int| 0 <= x < active.len() && 0 <= y < free.len() ==> active[x].1 != free[y],
    ensures
        regs_distinct(expire_prefix(active, free, start, n).0),
        expire_prefix(active, free, start, n).1.no_duplicates(),
        forall|x: int, y: int|
            0 <= x < expire_prefix(active, free, start, n).0.len() && 0 <= y < expire_prefix(active, free, start, n).1.len()
                ==> expire_prefix(active, free, start, n).0[x].1 != expire_prefix(active, free, start, n).1[y],
        forall|x: int| 0 <= x < expire_prefix(active, free, start, n).0.len() ==> exists|j: int|
            0 <= j < n && active[j] == #[trigger] expire_prefix(active, free, start, n).0[x] && expire_prefix(active, free, start, n).0[x].0.end >= start,
        forall|y: int| #![trigger expire_prefix(active, free, start, n).1[y]]
            0 <= y < expire_prefix(active, free, start, n).1.len() ==> free.contains(expire_prefix(active, free, start, n).1[y])
                || (exists|j: int| 0 <= j < n && (#[trigger] active[j]).1 == expire_prefix(active, free, start, n).1[y]),
        forall|y: int| 0 <= y < free.len() ==> #[trigger] expire_prefix(active, free, start, n).1[y] == free[y],
        expire_prefix(active, free, start, n).1.len() >= free.len(),
    decreases n,
{
    if n == 0 {
        assert forall|y: int| 0 <= y < free.len() implies free.contains(#[trigger] free[y]) by {
            assert(free[y] == free[y]);
        }
    }
    if n > 0 {
        lemma_expire(active, free, start, (n - 1) as nat);
        let (kept, fr) = expire_prefix(active, free, start, (n - 1) as nat);
        let e = active[n - 1];
        if e.0.end < start {
            let fr2 = fr.push(e.1);
            assert(expire_prefix(active, free, start, n) == (kept, fr2));
            assert forall|y: int| 0 <= y < fr.len() implies fr[y] != e.1 by {
                if free.contains(fr[y]) {
                    let z = choose|z: int| 0 <= z < free.len() && free[z] == fr[y];
                    assert(active[n - 1].1 != free[z]);
                } else {
                    let j = choose|j: int| 0 <= j < n - 1 && (#[trigger] active[j]).1 == fr[y];
                    assert(j != n - 1);
                }
            }
            assert(fr2.no_duplicates()) by {
                assert forall|a: int, b: int| 0 <= a < fr2.len() && 0 <= b < fr2.len() && a != b implies fr2[a]
                    != fr2[b] by {
                    if a < fr.len() && b < fr.len() {
                    } else if a < fr.len() {
                        assert(fr2[b] == e.1);
                    } else {
                        assert(fr2[a] == e.1);
                    }
                }
            }
            assert forall|x: int, y: int| 0 <= x < kept.len() && 0 <= y < fr2.len() implies kept[x].1 != fr2[y] by {
                if y == fr.len() {
                    let j = choose|j: int| 0 <= j < n - 1 && active[j] == #[trigger] kept[x] && kept[x].0.end >= start;
                    assert(j != n - 1);
                }
            }
            assert forall|y: int| #![trigger fr2[y]] 0 <= y < fr2.len() implies free.contains(fr2[y]) || (exists|j: int| 0 <= j < n && (#[trigger] active[j]).1 == fr2[y]) by {
                if y == fr.len() {
                    assert(active[n - 1].1 == fr2[y]);
                } else {
                    assert(fr2[y] == fr[y]);
                    if free.contains(fr[y]) {
                    } else {
                        let j = choose|j: int| 0 <= j < n - 1 && (#[trigger] active[j]).1 == fr[y];
                        assert(active[j].1 == fr2[y]);
                    }
                }
            }
            assert forall|y: int| 0 <= y < free.len() implies #[trigger] fr2[y] == free[y] by {
                assert(fr2[y] == fr[y]);
            }
        } else {
            let kept2 = kept.push(e);
            assert(expire_prefix(active, free, start, n) == (kept2, fr));
            assert forall|x: int| 0 <= x < kept.len() implies kept[x].1 != e.1 by {
                let j = choose|j: int| 0 <= j < n - 1 && active[j] == #[trigger] kept[x] && kept[x].0.end >= start;
                assert(j != n - 1);
            }
            assert(regs_distinct(kept2)) by {
                assert forall|a: int, b: int| 0 <= a < kept2.len() && 0 <= b < kept2.len() && a != b implies kept2[a].1
                    != kept2[b].1 by {
                    if a < kept.len() && b < kept.len() {
                    } else if a < kept.len() {
                        assert(kept2[b] == e);
                    } else {
                        assert(kept2[a] == e);
                    }
                }
            }
            assert forall|x: int, y: int| 0 <= x < kept2.len() && 0 <= y < fr.len() implies kept2[x].1 != fr[y] by {
                if x == kept.len() {
                    assert(kept2[x] == e);
                    if free.contains(fr[y]) {
                        let z = choose|z: int| 0 <= z < free.len() && free[z] == fr[y];
                        assert(active[n - 1].1 != free[z]);
                    } else {
                        let j = choose|j: int| 0 <= j < n - 1 && (#[trigger] active[j]).1 == fr[y];
                        assert(j != n - 1);
                    }
                } else {
                    assert(kept2[x] == kept[x]);
                }
            }
            assert forall|x: int| 0 <= x < kept2.len() implies exists|j: int|
                0 <= j < n && active[j] == #[trigger] kept2[x] && kept2[x].0.end >= start by {
                if x == kept.len() {
                    assert(active[n - 1] == kept2[x]);
                } else {
                    assert(kept2[x] == kept[x]);
                }
            }
            assert forall|y: int| #![trigger fr[y]] 0 <= y < fr.len() implies free.contains(fr[y]) || (exists|j: int| 0 <= j < n && (#[trigger] active[j]).1 == fr[y]) by {
                if free.contains(fr[y]) {
                } else {
                    let j = choose|j: int| 0 <= j < n - 1 && (#[trigger] active[j]).1 == fr[y];
                    assert(active[j].1 == fr[y]);
                }
            }
        }
    }
}

/// Expiry keeps every active entry that ends at or after `start`.
proof fn lemma_expire_keeps_live(active: Seq<(Interval, CHostGpr)>, free: Seq<CHostGpr>, start: usize, n: nat, j: int)
    requires
        n <= active.len(),
        0 <= j < n,
        active[j].0.end >= start,
    ensures
        expire_prefix(active, free, start, n).0.contains(active[j]),
    decreases n,
{
    let (kept, fr) = expire_prefix(active, free, start, (n - 1) as nat);
    if j == n - 1 {
        assert(expire_prefix(active, free, start, n).0 == kept.push(active[j]));
        assert(kept.push(active[j])[kept.len() as int] == active[j]);
    } else {
        lemma_expire_keeps_live(active, free, start, (n - 1) as nat, j);
        let x = choose|x: int| 0 <= x < kept.len() && kept[x] == active[j];
        if active[n - 1].0.end < start {
        } else {
            assert(kept.push(active[n - 1])[x] == active[j]);
        }
    }
}

proof fn lemma_max_end_index_range(active: Seq<(Interval, CHostGpr)>, n: nat)
    requires
        1 <= n <= active.len(),
    ensures
        0 <= max_end_index(active, n) < n,
    decreases n,
{
    if n > 1 {
        lemma_max_end_index_range(active, (n - 1) as nat);
    }
}

pub open spec fn swap_source(len: int, idx: int, p: int) -> int {
    if p == idx {
        len - 1
    } else {
        p
    }
}

proof fn lemma_swap_remove_at(kept: Seq<(Interval, CHostGpr)>, idx: int)
    requires
        0 <= idx < kept.len(),
    ensures
        swap_remove_spec(kept, idx).len() == kept.len() - 1,
        forall|p: int| 0 <= p < kept.len() - 1 ==> #[trigger] swap_remove_spec(kept, idx)[p] == kept[swap_source(kept.len() as int, idx, p)],
{
}

#[verifier::spinoff_prover]
proof fn lemma_swap_remove_members(kept: Seq<(Interval, CHostGpr)>, idx: int)
    requires
        0 <= idx < kept.len(),
        regs_distinct(kept),
    ensures
        forall|p: int| 0 <= p < swap_remove_spec(kept, idx).len() ==> exists|q: int|
            0 <= q < kept.len() && q != idx && (#[trigger] swap_remove_spec(kept, idx)[p]) == kept[q],
        forall|q: int| 0 <= q < kept.len() && q != idx ==> exists|p: int|
            0 <= p < swap_remove_spec(kept, idx).len() && swap_remove_spec(kept, idx)[p] == #[trigger] kept[q],
        regs_distinct(swap_remove_spec(kept, idx)),
        forall|p: int| 0 <= p < swap_remove_spec(kept, idx).len() ==> (#[trigger] swap_remove_spec(kept, idx)[p]).1 != kept[idx].1,
        swap_remove_spec(kept, idx).len() == kept.len() - 1,
{
    let rest = swap_remove_spec(kept, idx);
    let len = kept.len() as int;
    lemma_swap_remove_at(kept, idx);
    assert forall|p: int| 0 <= p < rest.len() implies exists|q: int|
        0 <= q < kept.len() && q != idx && (#[trigger] rest[p]) == kept[q] by {
        assert(rest[p] == kept[swap_source(len, idx, p)]);
    }
    assert forall|q: int| 0 <= q < kept.len() && q != idx implies exists|p: int|
        0 <= p < rest.len() && rest[p] == #[trigger] kept[q] by {
        if q == len - 1 {
            assert(rest[idx] == kept[swap_source(len, idx, idx)]);
        } else {
            assert(rest[q] == kept[swap_source(len, idx, q)]);
        }
    }
    assert forall|a: int, b: int| 0 <= a < rest.len() && 0 <= b < rest.len() && a != b implies rest[a].1 != rest[b].1 by {
        assert(rest[a] == kept[swap_source(len, idx, a)]);
        assert(rest[b] == kept[swap_source(len, idx, b)]);
    }
    assert forall|p: int| 0 <= p < rest.len() implies (#[trigger] rest[p]).1 != kept[idx].1 by {
        assert(rest[p] == kept[swap_source(len, idx, p)]);
    }
}

/// An interval that no longer holds its register (it is not among the entries kept
/// by expiry) ends before the interval now being placed starts.
proof fn lemma_inactive_before(ivs: Seq<Interval>, n: nat, k: int)
    requires
        well_ordered(ivs),
        n < ivs.len(),
        scan_inv(ivs, scan_prefix(ivs, n), n),
        0 <= k < n,
        scan_prefix(ivs, n).map[ivs[k].vreg] is Reg,
        !is_active(
            expire_prefix(
                scan_prefix(ivs, n).active,
                scan_prefix(ivs, n).free,
                ivs[n as int].start,
                scan_prefix(ivs, n).active.len(),
            ).0,
            ivs[k].vreg,
        ),
    ensures
        ivs[k].end < ivs[n as int].start,
{
    let st = scan_prefix(ivs, n);
    let s = ivs[n as int].start;
    let kept = expire_prefix(st.active, st.free, s, st.active.len()).0;
    if is_active(st.active, ivs[k].vreg) {
        let x = choose|x: int| 0 <= x < st.active.len() && (#[trigger] st.active[x]).0.vreg == ivs[k].vreg;
        let e = st.active[x];
        let k2 = choose|k2: int| 0 <= k2 < n && ivs[k2] == e.0;
        assert(k2 == k);
        if e.0.end >= s {
            lemma_expire_keeps_live(st.active, st.free, s, st.active.len(), x);
            let y = choose|y: int| 0 <= y < kept.len() && kept[y] == st.active[x];
            assert(kept[y].0.vreg == ivs[k].vreg);
        }
    } else {
        assert(ivs[k].end < ivs[n - 1].start);
    }
}

#[verifier::spinoff_prover]
#[verifier::rlimit(60)]
proof fn lemma_scan_step_free(ivs: Seq<Interval>, n: nat)
    requires
        well_ordered(ivs),
        n < ivs.len(),
        scan_inv(ivs, scan_prefix(ivs, n), n),
        expire_prefix(scan_prefix(ivs, n).active, scan_prefix(ivs, n).free, ivs[n as int].start, scan_prefix(ivs, n).active.len()).1.len() > 0,
    ensures
        scan_inv(ivs, scan_prefix(ivs, n + 1), n + 1),
{
    let st = scan_prefix(ivs, n);
    let iv = ivs[n as int];
    let s = iv.start;
    lemma_expire(st.active, st.free, s, st.active.len());
    let (kept, fr) = expire_prefix(st.active, st.free, s, st.active.len());
    let nst = scan_prefix(ivs, n + 1);
    assert(nst == scan_step(st, iv));
    // The new interval's vreg is not assigned yet.
    assert(!st.map.contains_key(iv.vreg)) by {
        if st.map.contains_key(iv.vreg) {
            let k = choose|k: int| 0 <= k < n && ivs[k].vreg == iv.vreg;
        }
    }
    // Kept entries are old active entries: assigned, among the first n intervals.
    assert forall|x: int| 0 <= x < kept.len() implies {
        let e = #[trigger] kept[x];
        &&& st.map.contains_key(e.0.vreg)
        &&& st.map[e.0.vreg] == Location::Reg(e.1)
        &&& exists|k: int| 0 <= k < n && ivs[k] == e.0
        &&& e.0.vreg != iv.vreg
    } by {
        let j = choose|j: int| 0 <= j < st.active.len() && st.active[j] == #[trigger] kept[x] && kept[x].0.end >= s;
        assert(st.active[j] == kept[x]);
    }
        let g = fr.last();
        let fr2 = fr.drop_last();
        assert(nst.active == kept.push((iv, g)));
        assert(nst.free == fr2);
        assert(nst.map == st.map.insert(iv.vreg, Location::Reg(g)));
        assert forall|x: int| 0 <= x < kept.len() implies kept[x].1 != g by {
            assert(fr[fr.len() - 1] == g);
        }
        assert(regs_distinct(nst.active)) by {
            assert forall|a: int, b: int| 0 <= a < nst.active.len() && 0 <= b < nst.active.len() && a != b implies nst.active[a].1
                != nst.active[b].1 by {
                if a < kept.len() && b < kept.len() {
                    assert(nst.active[a] == kept[a]);
                    assert(nst.active[b] == kept[b]);
                } else if a < kept.len() {
                    assert(nst.active[a] == kept[a]);
                } else {
                    assert(nst.active[b] == kept[b]);
                }
            }
        }
        assert(fr2.no_duplicates()) by {
            assert forall|a: int, b: int| 0 <= a < fr2.len() && 0 <= b < fr2.len() && a != b implies fr2[a] != fr2[b] by {
                assert(fr2[a] == fr[a]);
                assert(fr2[b] == fr[b]);
            }
        }
        assert forall|x: int, y: int| 0 <= x < nst.active.len() && 0 <= y < fr2.len() implies nst.active[x].1 != fr2[y] by {
            assert(fr2[y] == fr[y]);
            if x < kept.len() {
                assert(nst.active[x] == kept[x]);
            } else {
                assert(fr[fr.len() - 1] != fr[y]);
            }
        }
        assert forall|x: int| 0 <= x < nst.active.len() implies {
            let e = #[trigger] nst.active[x];
            &&& nst.map.contains_key(e.0.vreg)
            &&& nst.map[e.0.vreg] == Location::Reg(e.1)
            &&& exists|k: int| 0 <= k < n + 1 && ivs[k] == e.0
        } by {
            if x < kept.len() {
                assert(nst.active[x] == kept[x]);
                let k = choose|k: int| 0 <= k < n && ivs[k] == kept[x].0;
            } else {
                assert(ivs[n as int] == nst.active[x].0);
            }
        }
        assert forall|k: int| 0 <= k < n + 1 && (#[trigger] nst.map[ivs[k].vreg]) is Reg && !is_active(nst.active, ivs[k].vreg)
            implies ivs[k].end < ivs[n as int].start by {
            if k == n {
                assert(nst.active[kept.len() as int].0.vreg == ivs[k].vreg);
            } else {
                assert(ivs[k].vreg != iv.vreg);
                if is_active(kept, ivs[k].vreg) {
                    let x = choose|x: int| 0 <= x < kept.len() && (#[trigger] kept[x]).0.vreg == ivs[k].vreg;
                    assert(nst.active[x] == kept[x]);
                }
                lemma_inactive_before(ivs, n, k);
            }
        }
        assert forall|a: int, b: int|
            0 <= a < b < n + 1 && nst.map.contains_key(ivs[a].vreg) && nst.map.contains_key(ivs[b].vreg) && (
            #[trigger] nst.map[ivs[a].vreg]) is Reg && nst.map[ivs[a].vreg] == #[trigger] nst.map[ivs[b].vreg] implies ivs[a].end
            < ivs[b].start by {
            assert(ivs[a].vreg != iv.vreg);
            if b == n {
                if is_active(kept, ivs[a].vreg) {
                    let x = choose|x: int| 0 <= x < kept.len() && (#[trigger] kept[x]).0.vreg == ivs[a].vreg;
                    assert(st.map[kept[x].0.vreg] == Location::Reg(kept[x].1));
                    assert(kept[x].1 != g);
                }
                lemma_inactive_before(ivs, n, a);
            } else {
                assert(ivs[b].vreg != iv.vreg);
            }
        }
        assert forall|r: u32| #[trigger] nst.map.contains_key(r) implies exists|k: int| 0 <= k < n + 1 && ivs[k].vreg == r by {
            if r != iv.vreg {
                let k = choose|k: int| 0 <= k < n && ivs[k].vreg == r;
            }
        }
}

#[verifier::spinoff_prover]
#[verifier::rlimit(100)]
proof fn lemma_scan_step_spill(ivs: Seq<Interval>, n: nat)
    requires
        well_ordered(ivs),
        n < ivs.len(),
        scan_inv(ivs, scan_prefix(ivs, n), n),
        expire_prefix(scan_prefix(ivs, n).active, scan_prefix(ivs, n).free, ivs[n as int].start, scan_prefix(ivs, n).active.len()).1.len() == 0 && expire_prefix(scan_prefix(ivs, n).active, scan_prefix(ivs, n).free, ivs[n as int].start, scan_prefix(ivs, n).active.len()).0.len() > 0,
    ensures
        scan_inv(ivs, scan_prefix(ivs, n + 1), n + 1),
{
    let st = scan_prefix(ivs, n);
    let iv = ivs[n as int];
    let s = iv.start;
    lemma_expire(st.active, st.free, s, st.active.len());
    let (kept, fr) = expire_prefix(st.active, st.free, s, st.active.len());
    let nst = scan_prefix(ivs, n + 1);
    assert(nst == scan_step(st, iv));
    // The new interval's vreg is not assigned yet.
    assert(!st.map.contains_key(iv.vreg)) by {
        if st.map.contains_key(iv.vreg) {
            let k = choose|k: int| 0 <= k < n && ivs[k].vreg == iv.vreg;
        }
    }
    // Kept entries are old active entries: assigned, among the first n intervals.
    assert forall|x: int| 0 <= x < kept.len() implies {
        let e = #[trigger] kept[x];
        &&& st.map.contains_key(e.0.vreg)
        &&& st.map[e.0.vreg] == Location::Reg(e.1)
        &&& exists|k: int| 0 <= k < n && ivs[k] == e.0
        &&& e.0.vreg != iv.vreg
    } by {
        let j = choose|j: int| 0 <= j < st.active.len() && st.active[j] == #[trigger] kept[x] && kept[x].0.end >= s;
        assert(st.active[j] == kept[x]);
    }
        let idx = max_end_index(kept, kept.len());
        lemma_max_end_index_range(kept, kept.len());
        let sp = kept[idx].0;
        let g = kept[idx].1;
        let rest = swap_remove_spec(kept, idx);
        assert(nst.active == rest.push((iv, g)));
        assert(nst.free == fr);
        assert(nst.map == st.map.insert(sp.vreg, Location::Spill(st.next_spill as u32)).insert(iv.vreg, Location::Reg(g)));
        lemma_swap_remove_members(kept, idx);
        // Entries of `kept` with distinct indices have distinct vregs.
        assert forall|q: int| 0 <= q < kept.len() && q != idx implies (#[trigger] kept[q]).0.vreg != sp.vreg by {
            if kept[q].0.vreg == sp.vreg {
                assert(st.map[kept[q].0.vreg] == Location::Reg(kept[q].1));
                assert(st.map[kept[idx].0.vreg] == Location::Reg(kept[idx].1));
            }
        }
        assert(regs_distinct(nst.active)) by {
            assert forall|a: int, b: int| 0 <= a < nst.active.len() && 0 <= b < nst.active.len() && a != b implies nst.active[a].1
                != nst.active[b].1 by {
                if a < rest.len() && b < rest.len() {
                    assert(nst.active[a] == rest[a]);
                    assert(nst.active[b] == rest[b]);
                } else if a < rest.len() {
                    assert(nst.active[a] == rest[a]);
                } else {
                    assert(nst.active[b] == rest[b]);
                }
            }
        }
        assert forall|x: int| 0 <= x < nst.active.len() implies {
            let e = #[trigger] nst.active[x];
            &&& nst.map.contains_key(e.0.vreg)
            &&& nst.map[e.0.vreg] == Location::Reg(e.1)
            &&& exists|k: int| 0 <= k < n + 1 && ivs[k] == e.0
        } by {
            if x < rest.len() {
                let q = choose|q: int| 0 <= q < kept.len() && q != idx && (#[trigger] rest[x]) == kept[q];
                assert(nst.active[x] == kept[q]);
                let k = choose|k: int| 0 <= k < n && ivs[k] == kept[q].0;
            } else {
                assert(ivs[n as int] == nst.active[x].0);
            }
        }
        assert forall|k: int| 0 <= k < n + 1 && (#[trigger] nst.map[ivs[k].vreg]) is Reg && !is_active(nst.active, ivs[k].vreg)
            implies ivs[k].end < ivs[n as int].start by {
            if k == n {
                assert(nst.active[rest.len() as int].0.vreg == ivs[k].vreg);
            } else {
                assert(ivs[k].vreg != iv.vreg);
                if ivs[k].vreg != sp.vreg {
                    if is_active(kept, ivs[k].vreg) {
                        let q = choose|q: int| 0 <= q < kept.len() && (#[trigger] kept[q]).0.vreg == ivs[k].vreg;
                        let p = choose|p: int| 0 <= p < rest.len() && rest[p] == #[trigger] kept[q];
                        assert(nst.active[p] == kept[q]);
                    }
                    lemma_inactive_before(ivs, n, k);
                }
            }
        }
        assert forall|a: int, b: int|
            0 <= a < b < n + 1 && nst.map.contains_key(ivs[a].vreg) && nst.map.contains_key(ivs[b].vreg) && (
            #[trigger] nst.map[ivs[a].vreg]) is Reg && nst.map[ivs[a].vreg] == #[trigger] nst.map[ivs[b].vreg] implies ivs[a].end
            < ivs[b].start by {
            assert(ivs[a].vreg != iv.vreg);
            assert(ivs[a].vreg != sp.vreg);
            if b == n {
                if is_active(kept, ivs[a].vreg) {
                    let q = choose|q: int| 0 <= q < kept.len() && (#[trigger] kept[q]).0.vreg == ivs[a].vreg;
                    assert(st.map[kept[q].0.vreg] == Location::Reg(kept[q].1));
                    assert(q != idx);
                }
                lemma_inactive_before(ivs, n, a);
            } else {
                assert(ivs[b].vreg != iv.vreg);
                assert(ivs[b].vreg != sp.vreg);
            }
        }
        assert forall|r: u32| #[trigger] nst.map.contains_key(r) implies exists|k: int| 0 <= k < n + 1 && ivs[k].vreg == r by {
            if r != iv.vreg && r != sp.vreg {
                let k = choose|k: int| 0 <= k < n && ivs[k].vreg == r;
            } else if r == sp.vreg && r != iv.vreg {
                let k = choose|k: int| 0 <= k < n && ivs[k] == kept[idx].0;
            }
        }
}

#[verifier::spinoff_prover]
#[verifier::rlimit(60)]
proof fn lemma_scan_step_none(ivs: Seq<Interval>, n: nat)
    requires
        well_ordered(ivs),
        n < ivs.len(),
        scan_inv(ivs, scan_prefix(ivs, n), n),
        expire_prefix(scan_prefix(ivs, n).active, scan_prefix(ivs, n).free, ivs[n as int].start, scan_prefix(ivs, n).active.len()).1.len() == 0 && expire_prefix(scan_prefix(ivs, n).active, scan_prefix(ivs, n).free, ivs[n as int].start, scan_prefix(ivs, n).active.len()).0.len() == 0,
    ensures
        scan_inv(ivs, scan_prefix(ivs, n + 1), n + 1),
{
    let st = scan_prefix(ivs, n);
    let iv = ivs[n as int];
    let s = iv.start;
    lemma_expire(st.active, st.free, s, st.active.len());
    let (kept, fr) = expire_prefix(st.active, st.free, s, st.active.len());
    let nst = scan_prefix(ivs, n + 1);
    assert(nst == scan_step(st, iv));
    // The new interval's vreg is not assigned yet.
    assert(!st.map.contains_key(iv.vreg)) by {
        if st.map.contains_key(iv.vreg) {
            let k = choose|k: int| 0 <= k < n && ivs[k].vreg == iv.vreg;
        }
    }
    // Kept entries are old active entries: assigned, among the first n intervals.
    assert forall|x: int| 0 <= x < kept.len() implies {
        let e = #[trigger] kept[x];
        &&& st.map.contains_key(e.0.vreg)
        &&& st.map[e.0.vreg] == Location::Reg(e.1)
        &&& exists|k: int| 0 <= k < n && ivs[k] == e.0
        &&& e.0.vreg != iv.vreg
    } by {
        let j = choose|j: int| 0 <= j < st.active.len() && st.active[j] == #[trigger] kept[x] && kept[x].0.end >= s;
        assert(st.active[j] == kept[x]);
    }
        assert(nst.active == kept);
        assert(nst.map == st.map.insert(iv.vreg, Location::Spill(st.next_spill as u32)));
        assert forall|k: int| 0 <= k < n + 1 && (#[trigger] nst.map[ivs[k].vreg]) is Reg && !is_active(nst.active, ivs[k].vreg)
            implies ivs[k].end < ivs[n as int].start by {
            if k < n {
                assert(ivs[k].vreg != iv.vreg);
                lemma_inactive_before(ivs, n, k);
            }
        }
        assert forall|a: int, b: int|
            0 <= a < b < n + 1 && nst.map.contains_key(ivs[a].vreg) && nst.map.contains_key(ivs[b].vreg) && (
            #[trigger] nst.map[ivs[a].vreg]) is Reg && nst.map[ivs[a].vreg] == #[trigger] nst.map[ivs[b].vreg] implies ivs[a].end
            < ivs[b].start by {
            assert(ivs[a].vreg != iv.vreg);
            if b < n {
                assert(ivs[b].vreg != iv.vreg);
            }
        }
        assert forall|r: u32| #[trigger] nst.map.contains_key(r) implies exists|k: int| 0 <= k < n + 1 && ivs[k].vreg == r by {
            if r != iv.vreg {
                let k = choose|k: int| 0 <= k < n && ivs[k].vreg == r;
            }
        }
}

/// One step of the scan keeps its invariant.
proof fn lemma_scan_step(ivs: Seq<Interval>, n: nat)
    requires
        well_ordered(ivs),
        n < ivs.len(),
        scan_inv(ivs, scan_prefix(ivs, n), n),
    ensures
        scan_inv(ivs, scan_prefix(ivs, n + 1), n + 1),
{
    let st = scan_prefix(ivs, n);
    let (kept, fr) = expire_prefix(st.active, st.free, ivs[n as int].start, st.active.len());
    if fr.len() > 0 {
        lemma_scan_step_free(ivs, n);
    } else if kept.len() > 0 {
        lemma_scan_step_spill(ivs, n);
    } else {
        lemma_scan_step_none(ivs, n);
    }
}
proof fn lemma_scan_all(ivs: Seq<Interval>, n: nat)
    requires
        well_ordered(ivs),
        n <= ivs.len(),
    ensures
        scan_inv(ivs, scan_prefix(ivs, n), n),
    decreases n,
{
    if n == 0 {
        let st = scan_prefix(ivs, 0);
        let h = host_gprs_spec();
        assert(h.len() == 13);
        assert(st.free.no_duplicates()) by {
            assert forall|a: int, b: int| 0 <= a < 13 && 0 <= b < 13 && a != b implies h[a] != h[b] by {
                assert(h[0] == CHostGpr::Rax && h[1] == CHostGpr::Rbx && h[2] == CHostGpr::Rcx && h[3] == CHostGpr::Rdx && h[4]
                    == CHostGpr::Rsi && h[5] == CHostGpr::Rdi && h[6] == CHostGpr::R8 && h[7] == CHostGpr::R9 && h[8]
                    == CHostGpr::R10 && h[9] == CHostGpr::R11 && h[10] == CHostGpr::R12 && h[11] == CHostGpr::R13
                    && h[12] == CHostGpr::R14);
            }
        }
    } else {
        lemma_scan_all(ivs, (n - 1) as nat);
        lemma_scan_step(ivs, (n - 1) as nat);
    }
}

/// Intervals whose ends lie at or below `bound`, besides being well ordered.
pub open spec fn bounded(ivs: Seq<Interval>, bound: usize) -> bool {
    &&& well_ordered(ivs)
    &&& forall|k: int| 0 <= k < ivs.len() ==> (#[trigger] ivs[k]).end <= bound
}

proof fn lemma_touch_bounded(ivs: Seq<Interval>, r: u32, i: usize)
    requires
        bounded(ivs, i),
    ensures
        bounded(touch(ivs, r, i), i),
{
    let t = touch(ivs, r, i);
    if has_vreg(ivs, r) {
        let k = index_of(ivs, r);
        assert(distinct_vregs(t)) by {
            assert forall|a: int, b: int| 0 <= a < t.len() && 0 <= b < t.len() && a != b implies t[a].vreg != t[b].vreg by {
                assert(t[a].vreg == ivs[a].vreg);
                assert(t[b].vreg == ivs[b].vreg);
            }
        }
        assert forall|a: int, b: int| 0 <= a < b < t.len() implies t[a].start <= t[b].start by {
            assert(t[a].start == ivs[a].start);
            assert(t[b].start == ivs[b].start);
        }
        assert forall|a: int| 0 <= a < t.len() implies t[a].start <= t[a].end by {
            assert(t[a].start == ivs[a].start);
        }
        assert forall|a: int| 0 <= a < t.len() implies (#[trigger] t[a]).end <= i by {
            if a != k {
                assert(t[a] == ivs[a]);
            }
        }
    } else {
        assert(distinct_vregs(t)) by {
            assert forall|a: int, b: int| 0 <= a < t.len() && 0 <= b < t.len() && a != b implies t[a].vreg != t[b].vreg by {
                if a == ivs.len() {
                    assert(t[b] == ivs[b]);
                } else if b == ivs.len() {
                    assert(t[a] == ivs[a]);
                } else {
                    assert(t[a] == ivs[a]);
                    assert(t[b] == ivs[b]);
                }
            }
        }
        assert forall|a: int, b: int| 0 <= a < b < t.len() implies t[a].start <= t[b].start by {
            assert(t[a] == ivs[a]);
            if b < ivs.len() {
                assert(t[b] == ivs[b]);
            } else {
                assert(ivs[a].start <= ivs[a].end);
            }
        }
        assert forall|a: int| 0 <= a < t.len() implies t[a].start <= t[a].end by {
            if a < ivs.len() {
                assert(t[a] == ivs[a]);
            }
        }
        assert forall|a: int| 0 <= a < t.len() implies (#[trigger] t[a]).end <= i by {
            if a < ivs.len() {
                assert(t[a] == ivs[a]);
            }
        }
    }
}

proof fn lemma_touch_all_bounded(ivs: Seq<Interval>, regs: Seq<u32>, i: usize)
    requires
        bounded(ivs, i),
    ensures
        bounded(touch_all(ivs, regs, i), i),
    decreases regs.len(),
{
    if regs.len() > 0 {
        lemma_touch_all_bounded(ivs, regs.drop_last(), i);
        lemma_touch_bounded(touch_all(ivs, regs.drop_last(), i), regs.last(), i);
    }
}

proof fn lemma_intervals_prefix_bounded(ops: Seq<OpView>, n: nat)
    requires
        1 <= n <= ops.len(),
        ops.len() <= usize::MAX,
    ensures
        bounded(intervals_prefix(ops, n), (n - 1) as usize),
    decreases n,
{
    if n > 1 {
        lemma_intervals_prefix_bounded(ops, (n - 1) as nat);
    }
    lemma_touch_all_bounded(intervals_prefix(ops, (n - 1) as nat), op_regs(ops[n - 1]), (n - 1) as usize);
}

/// Live intervals have distinct vregs, come in order of start, and start no
/// later than they end.
pub proof fn lemma_intervals_well_ordered(ops: Seq<OpView>)
    requires
        ops.len() <= usize::MAX,
    ensures
        well_ordered(intervals_of(ops)),
{
    if ops.len() > 0 {
        lemma_intervals_prefix_bounded(ops, ops.len());
    }
}

/// Linear scan assigns every vreg of the block, assigns nothing else, and never
/// gives one host register to two vregs whose live intervals overlap: when two
/// intervals share a register, the earlier one ends strictly before the later
/// one starts.
pub proof fn lemma_linear_scan_conflict_free(ops: Seq<OpView>)
    requires
        ops.len() <= usize::MAX,
    ensures
        forall|k: int| 0 <= k < intervals_of(ops).len() ==> scan_spec(ops).map.contains_key(
            #[trigger] intervals_of(ops)[k].vreg,
        ),
        forall|r: u32| #[trigger] scan_spec(ops).map.contains_key(r) ==> exists|k: int|
            0 <= k < intervals_of(ops).len() && intervals_of(ops)[k].vreg == r,
        conflict_free(intervals_of(ops), scan_spec(ops).map, intervals_of(ops).len()),
{
    lemma_intervals_well_ordered(ops);
    lemma_scan_all(intervals_of(ops), intervals_of(ops).len());
}

/// Spill offsets are multiples of eight below `bound`, and no two vregs share one.
pub open spec fn spill_offsets_ok(map: Map<u32, Location>, bound: int) -> bool {
    &&& forall|v: u32| #[trigger] map.contains_key(v) ==> (map[v] matches Location::Spill(off) ==> off % 8 == 0 && off
        < bound)
    &&& forall|v: u32, w: u32|
        v != w && map.contains_key(v) && map.contains_key(w) && (#[trigger] map[v]) is Spill ==> map[v]
            != #[trigger] map[w]
}

proof fn lemma_insert_reg_keeps_offsets(map: Map<u32, Location>, k: u32, g: CHostGpr, bound: int)
    requires
        spill_offsets_ok(map, bound),
    ensures
        spill_offsets_ok(map.insert(k, Location::Reg(g)), bound),
{
    let m1 = map.insert(k, Location::Reg(g));
    assert forall|v: u32, w: u32|
        v != w && m1.contains_key(v) && m1.contains_key(w) && (#[trigger] m1[v]) is Spill implies m1[v]
            != #[trigger] m1[w] by {
        if w != k {
            assert(map[v] != map[w]);
        }
    }
}

proof fn lemma_insert_fresh_offset(map: Map<u32, Location>, k: u32, off: u32, bound: int)
    requires
        spill_offsets_ok(map, bound),
        off == bound,
        off % 8 == 0,
    ensures
        spill_offsets_ok(map.insert(k, Location::Spill(off)), bound + 8),
{
    let m1 = map.insert(k, Location::Spill(off));
    assert forall|v: u32, w: u32|
        v != w && m1.contains_key(v) && m1.contains_key(w) && (#[trigger] m1[v]) is Spill implies m1[v]
            != #[trigger] m1[w] by {
        if v == k {
            assert(map.contains_key(w));
        } else if w == k {
            assert(map.contains_key(v));
        } else {
            assert(map[v] != map[w]);
        }
    }
}

/// While the spill offset fits in 32 bits, every spilled vreg has its own
/// eight-byte-aligned offset below the next one.
pub proof fn lemma_scan_spill_offsets(ivs: Seq<Interval>, n: nat)
    requires
        n <= ivs.len(),
        scan_prefix(ivs, n).next_spill <= u32::MAX,
    ensures
        scan_prefix(ivs, n).next_spill % 8 == 0,
        spill_offsets_ok(scan_prefix(ivs, n).map, scan_prefix(ivs, n).next_spill as int),
    decreases n,
{
    if n > 0 {
        let st = scan_prefix(ivs, (n - 1) as nat);
        let iv = ivs[n - 1];
        let st1 = scan_prefix(ivs, n);
        assert(st1 == scan_step(st, iv));
        assert(st.next_spill <= st1.next_spill);
        lemma_scan_spill_offsets(ivs, (n - 1) as nat);
        let (active, free) = expire_prefix(st.active, st.free, iv.start, st.active.len());
        let off = st.next_spill as u32;
        if free.len() > 0 {
            lemma_insert_reg_keeps_offsets(st.map, iv.vreg, free.last(), st.next_spill as int);
        } else if active.len() > 0 {
            let idx = max_end_index(active, active.len());
            let (spilled, g) = active[idx];
            lemma_insert_fresh_offset(st.map, spilled.vreg, off, st.next_spill as int);
            lemma_insert_reg_keeps_offsets(
                st.map.insert(spilled.vreg, Location::Spill(off)),
                iv.vreg,
                g,
                st.next_spill + 8int,
            );
        } else {
            lemma_insert_fresh_offset(st.map, iv.vreg, off, st.next_spill as int);
        }
    }
}

/// A register location crosses as a register slot naming that register; a
/// spill crosses as a spill slot at its offset.
pub proof fn lemma_location_keeps_names(loc: Location)
    ensures
        (loc is Reg) == (location_to_c_spec(loc).kind is Reg),
        loc matches Location::Reg(g) ==> location_to_c_spec(loc).gpr == g,
        loc matches Location::Spill(off) ==> location_to_c_spec(loc).offset == off,
{
}

} // verus!
