//! Linear-scan allocation for one block of the unified IR. A vreg's interval
//! starts at its definition (or first use, if it has none) and ends at its last
//! use; intervals are visited in order of (start, end, vreg). Expired
//! intervals return their register; when all thirteen registers are busy, the
//! active interval ending last is spilled if it outlives the current one,
//! otherwise the current one is. Spills take 8-byte slots of the guest state's
//! spill area.
use crate::unified::ir::{IrBlock, IrOp, OpView, VOperand, VReg};
use std::collections::HashMap;
use vstd::prelude::*;
use vstd::std_specs::hash::group_hash_axioms;

verus! {

broadcast use group_hash_axioms;

/// The host registers available to the allocator; r15 holds the guest state
/// base and is never handed out.
#[derive(Clone, Copy, Debug, PartialEq, Eq, Hash, Structural)]
pub enum HostGpr {
    Rax,
    Rbx,
    Rcx,
    Rdx,
    Rsi,
    Rdi,
    R8,
    R9,
    R10,
    R11,
    R12,
    R13,
    R14,
}

/// A host register, or a byte offset into the guest state's spill area.
#[derive(Clone, Copy, Debug, PartialEq, Eq, Structural)]
pub enum Location {
    Reg(HostGpr),
    StateSpill(u32),
}

/// The location of each vreg of a block, keyed by vreg number.
pub struct Allocation {
    pub assignments: HashMap<u32, Location>,
}

#[derive(Clone, Copy, Debug, PartialEq, Eq, Structural)]
pub struct LiveInterval {
    pub vreg: VReg,
    pub start: usize,
    pub end: usize,
}

#[derive(Clone, Copy, Debug, PartialEq, Eq, Structural)]
pub struct ActiveInterval {
    pub interval: LiveInterval,
    pub reg: HostGpr,
}

// ---------------------------------------------------------------------------
// Definitions and uses.
// ---------------------------------------------------------------------------

/// The vreg numbers among `ops`.
pub open spec fn regs_of(ops: Seq<VOperand>) -> Set<u32> {
    Set::new(|v: u32| ops.contains(VOperand::Reg(VReg(v))))
}

/// Records `index` for each of `regs` not yet in `m`.
pub open spec fn note_first(m: Map<u32, usize>, regs: Set<u32>, index: usize) -> Map<u32, usize> {
    Map::new(
        |v: u32| m.contains_key(v) || regs.contains(v),
        |v: u32|
            if m.contains_key(v) {
                m[v]
            } else {
                index
            },
    )
}

/// Records `index` for each of `regs`, replacing what `m` had.
pub open spec fn note_last(m: Map<u32, usize>, regs: Set<u32>, index: usize) -> Map<u32, usize> {
    Map::new(
        |v: u32| m.contains_key(v) || regs.contains(v),
        |v: u32|
            if regs.contains(v) {
                index
            } else {
                m[v]
            },
    )
}

/// Records `index` for the op's destination unless it already has one.
pub open spec fn note_def(m: Map<u32, usize>, op: OpView, index: usize) -> Map<u32, usize> {
    match op.dst() {
        Some(d) => if m.contains_key(d.0) {
            m
        } else {
            m.insert(d.0, index)
        },
        None => m,
    }
}

/// First definition of each vreg over the first `n` ops.
pub open spec fn defs_prefix(ops: Seq<OpView>, n: nat) -> Map<u32, usize>
    decreases n,
{
    if n == 0 {
        Map::empty()
    } else {
        note_def(defs_prefix(ops, (n - 1) as nat), ops[n - 1], (n - 1) as usize)
    }
}

/// First use of each vreg over the first `n` ops.
pub open spec fn first_use_prefix(ops: Seq<OpView>, n: nat) -> Map<u32, usize>
    decreases n,
{
    if n == 0 {
        Map::empty()
    } else {
        note_first(first_use_prefix(ops, (n - 1) as nat), regs_of(ops[n - 1].operands()), (n - 1) as usize)
    }
}

/// Last use of each vreg over the first `n` ops.
pub open spec fn last_use_prefix(ops: Seq<OpView>, n: nat) -> Map<u32, usize>
    decreases n,
{
    if n == 0 {
        Map::empty()
    } else {
        note_last(last_use_prefix(ops, (n - 1) as nat), regs_of(ops[n - 1].operands()), (n - 1) as usize)
    }
}

fn use_operand(operand: &VOperand, first: &mut HashMap<u32, usize>, last: &mut HashMap<u32, usize>, index: usize)
    ensures
        final(first)@ == note_first(old(first)@, regs_of(seq![*operand]), index),
        final(last)@ == note_last(old(last)@, regs_of(seq![*operand]), index),
{
    proof {
        assert forall|v: u32| #[trigger] regs_of(seq![*operand]).contains(v) <==> *operand == VOperand::Reg(VReg(v)) by {
            if *operand == VOperand::Reg(VReg(v)) {
                assert(seq![*operand][0] == VOperand::Reg(VReg(v)));
            }
        }
    }
    if let VOperand::Reg(v) = *operand {
        if !first.contains_key(&v.0) {
            first.insert(v.0, index);
        }
        last.insert(v.0, index);
        assert(first@ =~= note_first(old(first)@, regs_of(seq![*operand]), index));
        assert(last@ =~= note_last(old(last)@, regs_of(seq![*operand]), index));
    } else {
        assert(first@ =~= note_first(old(first)@, regs_of(seq![*operand]), index));
        assert(last@ =~= note_last(old(last)@, regs_of(seq![*operand]), index));
    }
}

/// The operands an op reads, in order.
fn read_operands(op: &IrOp) -> (r: Vec<VOperand>)
    ensures
        r@ == op@.operands(),
{
    let r: Vec<VOperand> = match op {
        IrOp::Add { a, b, .. } | IrOp::Sub { a, b, .. } | IrOp::And { a, b, .. } | IrOp::Or { a, b, .. }
        | IrOp::Xor { a, b, .. } | IrOp::Mul { a, b, .. } | IrOp::VecAdd { a, b, .. }
        | IrOp::VecMul { a, b, .. } | IrOp::SetFlags { a, b, .. } => vec![*a, *b],
        IrOp::Shl { a, amount, .. } | IrOp::Shr { a, amount, .. } | IrOp::Sar { a, amount, .. } => vec![*a, *amount],
        IrOp::VecFma { a, b, c, .. } => vec![*a, *b, *c],
        IrOp::Load { addr, .. } => vec![*addr],
        IrOp::Store { addr, val, .. } => vec![*addr, *val],
        IrOp::Branch { cond, .. } => match cond {
            Some(c) => vec![*c],
            None => Vec::new(),
        },
        IrOp::IndirectBranch { target } | IrOp::Call { target } => vec![*target],
        IrOp::Intrinsic { operands, .. } => crate::unified::ir::copy_operands(operands),
        IrOp::ReadFlag { .. } | IrOp::Return => Vec::new(),
    };
    assert(r@ =~= op@.operands());
    r
}

/// Notes every register the op reads as used at `index`.
fn record_use(op: &IrOp, first: &mut HashMap<u32, usize>, last: &mut HashMap<u32, usize>, index: usize)
    ensures
        final(first)@ == note_first(old(first)@, regs_of(op@.operands()), index),
        final(last)@ == note_last(old(last)@, regs_of(op@.operands()), index),
{
    let operands = read_operands(op);
    let mut j: usize = 0;
    while j < operands.len()
        invariant
            j <= operands@.len(),
            operands@ == op@.operands(),
            first@ == note_first(old(first)@, regs_of(operands@.take(j as int)), index),
            last@ == note_last(old(last)@, regs_of(operands@.take(j as int)), index),
        decreases operands.len() - j,
    {
        let ghost f0 = first@;
        let ghost l0 = last@;
        use_operand(&operands[j], first, last, index);
        proof {
            let s = operands@.take(j as int);
            let s1 = operands@.take(j + 1);
            assert(s1 =~= s.push(operands@[j as int]));
            assert forall|v: u32| #[trigger] regs_of(s1).contains(v) <==> (regs_of(s).contains(v) || regs_of(
                seq![operands@[j as int]],
            ).contains(v)) by {
                if s1.contains(VOperand::Reg(VReg(v))) {
                    let k = choose|k: int| 0 <= k < s1.len() && s1[k] == VOperand::Reg(VReg(v));
                    if k < j {
                        assert(s[k] == VOperand::Reg(VReg(v)));
                    } else {
                        assert(seq![operands@[j as int]][0] == VOperand::Reg(VReg(v)));
                    }
                }
                if s.contains(VOperand::Reg(VReg(v))) {
                    let k = choose|k: int| 0 <= k < s.len() && s[k] == VOperand::Reg(VReg(v));
                    assert(s1[k] == VOperand::Reg(VReg(v)));
                }
                if seq![operands@[j as int]].contains(VOperand::Reg(VReg(v))) {
                    assert(s1[j as int] == VOperand::Reg(VReg(v)));
                }
            }
            assert(first@ =~= note_first(old(first)@, regs_of(s1), index));
            assert(last@ =~= note_last(old(last)@, regs_of(s1), index));
        }
        j = j + 1;
    }
    assert(operands@.take(j as int) =~= op@.operands());
}

/// Notes the op's destination as defined at `index` unless it already was.
fn record_def(op: &IrOp, index: usize, defs: &mut HashMap<u32, usize>)
    ensures
        final(defs)@ == note_def(old(defs)@, op@, index),
{
    let dst: Option<VReg> = match op {
        IrOp::Add { dst, .. } | IrOp::Sub { dst, .. } | IrOp::And { dst, .. } | IrOp::Or { dst, .. }
        | IrOp::Xor { dst, .. } | IrOp::Shl { dst, .. } | IrOp::Shr { dst, .. } | IrOp::Sar { dst, .. }
        | IrOp::Mul { dst, .. } | IrOp::VecAdd { dst, .. } | IrOp::VecMul { dst, .. }
        | IrOp::VecFma { dst, .. } | IrOp::Load { dst, .. } | IrOp::ReadFlag { dst, .. } => Some(*dst),
        IrOp::Intrinsic { dst: Some(dst), .. } => Some(*dst),
        IrOp::Store { .. } | IrOp::Branch { .. } | IrOp::IndirectBranch { .. } | IrOp::Call { .. }
        | IrOp::Return | IrOp::SetFlags { .. } | IrOp::Intrinsic { dst: None, .. } => None,
    };
    if let Some(vreg) = dst {
        if !defs.contains_key(&vreg.0) {
            defs.insert(vreg.0, index);
        }
    }
}


/// The keys of a map, each once, in the map's iteration order.
fn map_keys(m: &HashMap<u32, usize>) -> (r: Vec<u32>)
    ensures
        forall|k: u32| m@.contains_key(k) <==> r@.contains(k),
        forall|a: int, b: int| 0 <= a < r@.len() && 0 <= b < r@.len() && a != b ==> r@[a] != r@[b],
{
    let mut out: Vec<u32> = Vec::new();
    for k in it: m.keys()
        invariant
            out@.len() == it.index(),
            forall|j: int| 0 <= j < it.index() ==> out@[j] == *it.seq()[j],
            it.seq().unref().to_set() == m@.dom(),
            it.seq().no_duplicates(),
            forall|k: u32| out@.contains(k) ==> m@.contains_key(k),
            forall|k: u32| m@.contains_key(k) ==> (out@.contains(k) || exists|j: int|
                it.index() <= j < it.seq().len() && *it.seq()[j] == k),
            forall|a: int, b: int| 0 <= a < out@.len() && 0 <= b < out@.len() && a != b ==> out@[a] != out@[b],
    {
        let ghost i = it.index();
        let ghost before = out@;
        proof {
            assert(it.seq().unref()[i as int] == *k);
            assert(it.seq().unref().to_set().contains(*k));
            assert(m@.dom().contains(*k));
        }
        out.push(*k);
        proof {
            assert(out@[i as int] == *k);
            assert forall|q: u32| #[trigger] out@.contains(q) implies m@.contains_key(q) by {
                let j = choose|j: int| 0 <= j < out@.len() && out@[j] == q;
                if j < i {
                    assert(before[j] == q);
                    assert(before.contains(q));
                } else {
                    assert(q == *k);
                }
            }
            assert forall|q: u32| #[trigger] m@.contains_key(q) implies (out@.contains(q) || exists|j: int|
                i + 1 <= j < it.seq().len() && *it.seq()[j] == q) by {
                if before.contains(q) {
                    let j = choose|j: int| 0 <= j < before.len() && before[j] == q;
                    assert(out@[j] == q);
                } else {
                    let j = choose|j: int| i <= j < it.seq().len() && *it.seq()[j] == q;
                    if j == i {
                        assert(out@[i as int] == q);
                    }
                }
            }
            assert forall|a: int, b: int| 0 <= a < out@.len() && 0 <= b < out@.len() && a != b implies out@[a]
                != out@[b] by {
                if a < i && b < i {
                } else if a == i && b < i {
                    assert(it.seq()[b] != it.seq()[a]);
                } else if b == i && a < i {
                    assert(it.seq()[b] != it.seq()[a]);
                }
            }
        }
    }
    out
}

// ---------------------------------------------------------------------------
// Live intervals.
// ---------------------------------------------------------------------------

pub open spec fn defs_of(ops: Seq<OpView>) -> Map<u32, usize> {
    defs_prefix(ops, ops.len())
}

pub open spec fn first_uses_of(ops: Seq<OpView>) -> Map<u32, usize> {
    first_use_prefix(ops, ops.len())
}

pub open spec fn last_uses_of(ops: Seq<OpView>) -> Map<u32, usize> {
    last_use_prefix(ops, ops.len())
}

/// A vreg the block defines or uses.
pub open spec fn observed(ops: Seq<OpView>, v: u32) -> bool {
    defs_of(ops).contains_key(v) || first_uses_of(ops).contains_key(v)
}

/// A vreg's interval: from its definition (its first use if it has none) to
/// its last use (its start if it is never used).
pub open spec fn interval_of(ops: Seq<OpView>, v: u32) -> LiveInterval {
    let start: usize = if defs_of(ops).contains_key(v) {
        defs_of(ops)[v]
    } else if first_uses_of(ops).contains_key(v) {
        first_uses_of(ops)[v]
    } else {
        0
    };
    let end: usize = if last_uses_of(ops).contains_key(v) {
        last_uses_of(ops)[v]
    } else {
        start
    };
    LiveInterval { vreg: VReg(v), start, end }
}

/// Order of visit: by start, then end, then vreg number.
pub open spec fn key_lt(a: LiveInterval, b: LiveInterval) -> bool {
    a.start < b.start || (a.start == b.start && (a.end < b.end || (a.end == b.end && a.vreg.0 < b.vreg.0)))
}

pub open spec fn sorted_by_key(s: Seq<LiveInterval>) -> bool {
    forall|i: int, j: int| 0 <= i < j < s.len() ==> key_lt(s[i], s[j])
}

/// `s` holds the interval of each vreg of the block exactly once, in visiting order.
pub open spec fn is_interval_list(ops: Seq<OpView>, s: Seq<LiveInterval>) -> bool {
    &&& sorted_by_key(s)
    &&& forall|i: int| 0 <= i < s.len() ==> observed(ops, (#[trigger] s[i]).vreg.0) && s[i] == interval_of(ops, s[i].vreg.0)
    &&& forall|v: u32| observed(ops, v) ==> exists|i: int| 0 <= i < s.len() && (#[trigger] s[i]).vreg.0 == v
}

fn key_less(a: LiveInterval, b: LiveInterval) -> (r: bool)
    ensures
        r == key_lt(a, b),
{
    a.start < b.start || (a.start == b.start && (a.end < b.end || (a.end == b.end && a.vreg.0 < b.vreg.0)))
}

/// Sorts intervals of distinct vregs into visiting order.
fn sort_intervals(v: &Vec<LiveInterval>) -> (r: Vec<LiveInterval>)
    requires
        forall|a: int, b: int| 0 <= a < v@.len() && 0 <= b < v@.len() && a != b ==> v@[a].vreg != v@[b].vreg,
    ensures
        sorted_by_key(r@),
        forall|x: LiveInterval| r@.contains(x) <==> v@.contains(x),
{
    let mut r: Vec<LiveInterval> = Vec::new();
    let mut i: usize = 0;
    while i < v.len()
        invariant
            i <= v@.len(),
            sorted_by_key(r@),
            forall|x: LiveInterval| r@.contains(x) <==> v@.take(i as int).contains(x),
            forall|a: int, b: int| 0 <= a < v@.len() && 0 <= b < v@.len() && a != b ==> v@[a].vreg != v@[b].vreg,
        decreases v.len() - i,
    {
        let x = v[i];
        proof {
            assert forall|q: int| 0 <= q < r@.len() implies r@[q].vreg != x.vreg by {
                assert(r@.contains(r@[q]));
                let k = choose|k: int| 0 <= k < i && v@.take(i as int)[k] == r@[q];
                assert(v@[k] == r@[q]);
            }
        }
        let mut p: usize = 0;
        while p < r.len() && !key_less(x, r[p])
            invariant
                p <= r@.len(),
                forall|q: int| 0 <= q < p ==> key_lt(#[trigger] r@[q], x),
                forall|q: int| 0 <= q < r@.len() ==> (#[trigger] r@[q]).vreg != x.vreg,
            decreases r.len() - p,
        {
            p = p + 1;
        }
        let ghost before = r@;
        r.insert(p, x);
        proof {
            assert(r@ == before.insert(p as int, x));
            if p < before.len() {
                assert(key_lt(x, before[p as int]));
            }
            assert forall|a: int, b: int| 0 <= a < b < r@.len() implies key_lt(r@[a], r@[b]) by {
                if b < p {
                    assert(r@[a] == before[a] && r@[b] == before[b]);
                } else if b == p {
                    assert(r@[a] == before[a]);
                } else if a < p {
                    assert(r@[a] == before[a] && r@[b] == before[b - 1]);
                } else if a == p {
                    assert(r@[b] == before[b - 1]);
                    if b - 1 > p {
                        assert(key_lt(before[p as int], before[b - 1]));
                    }
                } else {
                    assert(r@[a] == before[a - 1] && r@[b] == before[b - 1]);
                }
            }
            assert(v@.take(i + 1) =~= v@.take(i as int).push(x));
            assert forall|y: LiveInterval| r@.contains(y) <==> v@.take(i + 1).contains(y) by {
                if r@.contains(y) {
                    let k = choose|k: int| 0 <= k < r@.len() && r@[k] == y;
                    if k < p {
                        assert(before[k] == y);
                        assert(before.contains(y));
                    } else if k > p {
                        assert(before[k - 1] == y);
                        assert(before.contains(y));
                    }
                    assert(v@.take(i as int).push(x).contains(y) || y == x);
                    if y == x {
                        assert(v@.take(i + 1)[i as int] == x);
                    }
                }
                if v@.take(i + 1).contains(y) {
                    let k = choose|k: int| 0 <= k < i + 1 && #[trigger] v@.take(i + 1)[k] == y;
                    if k < i {
                        assert(v@.take(i as int)[k] == y);
                        assert(before.contains(y));
                        let q = choose|q: int| 0 <= q < before.len() && before[q] == y;
                        if q < p {
                            assert(r@[q] == y);
                        } else {
                            assert(r@[q + 1] == y);
                        }
                    } else {
                        assert(r@[p as int] == y);
                    }
                }
            }
        }
        i = i + 1;
    }
    assert(v@.take(i as int) =~= v@);
    r
}

/// The live interval of every vreg the block defines or uses, in visiting order.
fn compute_intervals(block: &IrBlock) -> (r: Vec<LiveInterval>)
    ensures
        is_interval_list(block@.ops, r@),
{
    let ghost ops = block@.ops;
    let mut defs: HashMap<u32, usize> = HashMap::new();
    let mut first_use: HashMap<u32, usize> = HashMap::new();
    let mut last_use: HashMap<u32, usize> = HashMap::new();
    let mut index: usize = 0;
    while index < block.ops.len()
        invariant
            index <= block.ops@.len() == ops.len(),
            block@.ops == ops,
            defs@ == defs_prefix(ops, index as nat),
            first_use@ == first_use_prefix(ops, index as nat),
            last_use@ == last_use_prefix(ops, index as nat),
        decreases block.ops.len() - index,
    {
        assert(block.ops@[index as int]@ == ops[index as int]);
        record_def(&block.ops[index], index, &mut defs);
        record_use(&block.ops[index], &mut first_use, &mut last_use, index);
        index = index + 1;
    }
    let mut all_vregs = map_keys(&defs);
    let used = map_keys(&first_use);
    let mut j: usize = 0;
    while j < used.len()
        invariant
            j <= used@.len(),
            forall|k: u32| first_use@.contains_key(k) <==> used@.contains(k),
            forall|a: int, b: int| 0 <= a < used@.len() && 0 <= b < used@.len() && a != b ==> used@[a] != used@[b],
            forall|k: u32| all_vregs@.contains(k) <==> (defs@.contains_key(k) || used@.take(j as int).contains(k)),
            forall|a: int, b: int| 0 <= a < all_vregs@.len() && 0 <= b < all_vregs@.len() && a != b ==> all_vregs@[a]
                != all_vregs@[b],
        decreases used.len() - j,
    {
        let k = used[j];
        let ghost before = all_vregs@;
        assert(used@.take(j + 1) =~= used@.take(j as int).push(k));
        if !defs.contains_key(&k) {
            assert(!before.contains(k)) by {
                if before.contains(k) {
                    assert(used@.take(j as int).contains(k));
                    let t = choose|t: int| 0 <= t < j && used@.take(j as int)[t] == k;
                    assert(used@[t] == k && used@[j as int] == k);
                    assert(false);
                }
            }
            all_vregs.push(k);
            proof {
                assert(all_vregs@ == before.push(k));
                assert forall|a: int, b: int| 0 <= a < all_vregs@.len() && 0 <= b < all_vregs@.len() && a != b implies all_vregs@[a]
                    != all_vregs@[b] by {
                    if a == before.len() as int {
                        assert(all_vregs@[b] == before[b]);
                        assert(before.contains(before[b]));
                    } else if b == before.len() as int {
                        assert(all_vregs@[a] == before[a]);
                        assert(before.contains(before[a]));
                    } else {
                        assert(all_vregs@[a] == before[a] && all_vregs@[b] == before[b]);
                    }
                }
                assert forall|q: u32| all_vregs@.contains(q) <==> (defs@.contains_key(q) || used@.take(j + 1).contains(q)) by {
                    if all_vregs@.contains(q) {
                        let t = choose|t: int| 0 <= t < all_vregs@.len() && all_vregs@[t] == q;
                        if t < before.len() {
                            assert(before[t] == q);
                            assert(before.contains(q));
                            if used@.take(j as int).contains(q) {
                                let u = choose|u: int| 0 <= u < j && used@.take(j as int)[u] == q;
                                assert(used@.take(j + 1)[u] == q);
                            }
                        } else {
                            assert(q == k);
                            assert(used@.take(j + 1)[j as int] == q);
                        }
                    }
                    if defs@.contains_key(q) {
                        assert(before.contains(q));
                        let t = choose|t: int| 0 <= t < before.len() && before[t] == q;
                        assert(all_vregs@[t] == q);
                    }
                    if used@.take(j + 1).contains(q) {
                        let u = choose|u: int| 0 <= u < j + 1 && #[trigger] used@.take(j + 1)[u] == q;
                        if u < j {
                            assert(used@.take(j as int)[u] == q);
                            assert(before.contains(q));
                            let t = choose|t: int| 0 <= t < before.len() && before[t] == q;
                            assert(all_vregs@[t] == q);
                        } else {
                            assert(q == k);
                            assert(all_vregs@[before.len() as int] == q);
                        }
                    }
                }
            }
        } else {
            proof {
                assert forall|q: u32| all_vregs@.contains(q) <==> (defs@.contains_key(q) || used@.take(j + 1).contains(q)) by {
                    if used@.take(j as int).contains(q) {
                        let t = choose|t: int| 0 <= t < j && used@.take(j as int)[t] == q;
                        assert(used@.take(j + 1)[t] == q);
                    }
                    if used@.take(j + 1).contains(q) {
                        let u = choose|u: int| 0 <= u < j + 1 && #[trigger] used@.take(j + 1)[u] == q;
                        if u < j {
                            assert(used@.take(j as int)[u] == q);
                        } else {
                            assert(q == k);
                        }
                    }
                }
            }
        }
        j = j + 1;
    }
    assert(used@.take(j as int) =~= used@);
    let mut intervals: Vec<LiveInterval> = Vec::new();
    let mut t: usize = 0;
    while t < all_vregs.len()
        invariant
            t <= all_vregs@.len(),
            intervals@.len() == t,
            defs@ == defs_of(ops),
            first_use@ == first_uses_of(ops),
            last_use@ == last_uses_of(ops),
            forall|q: int| 0 <= q < t ==> #[trigger] intervals@[q] == interval_of(ops, all_vregs@[q]),
        decreases all_vregs.len() - t,
    {
        let v = all_vregs[t];
        let start: usize = match defs.get(&v) {
            Some(s) => *s,
            None => match first_use.get(&v) {
                Some(s) => *s,
                None => 0,
            },
        };
        let end: usize = match last_use.get(&v) {
            Some(e) => *e,
            None => start,
        };
        intervals.push(LiveInterval { vreg: VReg(v), start, end });
        t = t + 1;
    }
    let r = sort_intervals(&intervals);
    proof {
        assert forall|i: int| 0 <= i < r@.len() implies observed(ops, (#[trigger] r@[i]).vreg.0) && r@[i] == interval_of(
            ops,
            r@[i].vreg.0,
        ) by {
            assert(r@.contains(r@[i]));
            let q = choose|q: int| 0 <= q < intervals@.len() && intervals@[q] == r@[i];
            assert(all_vregs@.contains(all_vregs@[q]));
        }
        assert forall|v: u32| observed(ops, v) implies exists|i: int| 0 <= i < r@.len() && (#[trigger] r@[i]).vreg.0 == v by {
            assert(all_vregs@.contains(v));
            let q = choose|q: int| 0 <= q < all_vregs@.len() && all_vregs@[q] == v;
            assert(intervals@.contains(intervals@[q]));
            assert(r@.contains(intervals@[q]));
            let i = choose|i: int| 0 <= i < r@.len() && r@[i] == intervals@[q];
            assert(r@[i].vreg.0 == v);
        }
    }
    r
}

/// Two lists each strictly in visiting order and holding the same intervals are equal.
proof fn lemma_sorted_unique(s1: Seq<LiveInterval>, s2: Seq<LiveInterval>)
    requires
        sorted_by_key(s1),
        sorted_by_key(s2),
        forall|x: LiveInterval| s1.contains(x) <==> s2.contains(x),
    ensures
        s1 == s2,
    decreases s1.len(),
{
    if s1.len() == 0 {
        if s2.len() > 0 {
            assert(s2.contains(s2[0]));
        }
        assert(s1 =~= s2);
    } else {
        assert(s1.contains(s1[0]));
        let a = s1[0];
        let j = choose|j: int| 0 <= j < s2.len() && s2[j] == a;
        let b = s2[0];
        assert(s2.contains(b));
        let k = choose|k: int| 0 <= k < s1.len() && s1[k] == b;
        if j > 0 && k > 0 {
            assert(key_lt(b, a) && key_lt(a, b));
        }
        assert(a == b);
        let t1 = s1.drop_first();
        let t2 = s2.drop_first();
        assert forall|x: LiveInterval| t1.contains(x) <==> t2.contains(x) by {
            if t1.contains(x) {
                let i = choose|i: int| 0 <= i < t1.len() && t1[i] == x;
                assert(s1[i + 1] == x && key_lt(a, x));
                assert(s1.contains(x));
                let q = choose|q: int| 0 <= q < s2.len() && s2[q] == x;
                assert(q != 0);
                assert(t2[q - 1] == x);
            }
            if t2.contains(x) {
                let i = choose|i: int| 0 <= i < t2.len() && t2[i] == x;
                assert(s2[i + 1] == x && key_lt(b, x));
                assert(s2.contains(x));
                let q = choose|q: int| 0 <= q < s1.len() && s1[q] == x;
                assert(q != 0);
                assert(t1[q - 1] == x);
            }
        }
        lemma_sorted_unique(t1, t2);
        assert(s1 =~= seq![a] + t1);
        assert(s2 =~= seq![b] + t2);
    }
}

/// The visiting list of a block is determined by the block: any two lists
/// that hold each defined or used vreg's interval once, in visiting order, are equal.
pub proof fn lemma_interval_list_unique(ops: Seq<OpView>, s1: Seq<LiveInterval>, s2: Seq<LiveInterval>)
    requires
        is_interval_list(ops, s1),
        is_interval_list(ops, s2),
    ensures
        s1 == s2,
{
    assert forall|x: LiveInterval| s1.contains(x) <==> s2.contains(x) by {
        if s1.contains(x) {
            let i = choose|i: int| 0 <= i < s1.len() && s1[i] == x;
            let v = s1[i].vreg.0;
            let j = choose|j: int| 0 <= j < s2.len() && (#[trigger] s2[j]).vreg.0 == v;
            assert(s2[j] == interval_of(ops, v));
        }
        if s2.contains(x) {
            let i = choose|i: int| 0 <= i < s2.len() && s2[i] == x;
            let v = s2[i].vreg.0;
            let j = choose|j: int| 0 <= j < s1.len() && (#[trigger] s1[j]).vreg.0 == v;
            assert(s1[j] == interval_of(ops, v));
        }
    }
    lemma_sorted_unique(s1, s2);
}

/// The intervals of a block in visiting order.
pub open spec fn intervals_of(ops: Seq<OpView>) -> Seq<LiveInterval> {
    choose|s: Seq<LiveInterval>| is_interval_list(ops, s)
}

// ---------------------------------------------------------------------------
// The scan.
// ---------------------------------------------------------------------------

/// The initial free list; registers are taken from its end.
pub open spec fn pool() -> Seq<HostGpr> {
    seq![
        HostGpr::Rax,
        HostGpr::Rbx,
        HostGpr::Rcx,
        HostGpr::Rdx,
        HostGpr::Rsi,
        HostGpr::Rdi,
        HostGpr::R8,
        HostGpr::R9,
        HostGpr::R10,
        HostGpr::R11,
        HostGpr::R12,
        HostGpr::R13,
        HostGpr::R14,
    ]
}

pub open spec fn swap_removed<A>(s: Seq<A>, i: int) -> Seq<A> {
    s.update(i, s.last()).drop_last()
}

/// Expiry as the allocator walks the active list from `index`: an interval
/// ending before `start` is swap-removed and its register appended to the
/// free list, and the entry moved into its place is examined next.
pub open spec fn expire_from(active: Seq<ActiveInterval>, free: Seq<HostGpr>, start: usize, index: nat) -> (
    Seq<ActiveInterval>,
    Seq<HostGpr>,
)
    decreases active.len() - index,
{
    if index >= active.len() {
        (active, free)
    } else if active[index as int].interval.end < start {
        expire_from(swap_removed(active, index as int), free.push(active[index as int].reg), start, index)
    } else {
        expire_from(active, free, start, index + 1)
    }
}

/// Position after every leading entry, from `k` on, that ends no later than `end`.
pub open spec fn first_after(s: Seq<ActiveInterval>, end: usize, k: nat) -> nat
    decreases s.len() - k,
{
    if k >= s.len() {
        s.len()
    } else if s[k as int].interval.end > end {
        k
    } else {
        first_after(s, end, k + 1)
    }
}

/// Stable sort by end: each entry in turn goes after the entries already
/// placed that end no later than it.
pub open spec fn sort_by_end(s: Seq<ActiveInterval>) -> Seq<ActiveInterval>
    decreases s.len(),
{
    if s.len() == 0 {
        s
    } else {
        let sorted = sort_by_end(s.drop_last());
        sorted.insert(first_after(sorted, s.last().interval.end, 0) as int, s.last())
    }
}

/// Index of the active entry ending last, the last one among equals, over the first `n`.
pub open spec fn farthest(active: Seq<ActiveInterval>, n: nat) -> int
    decreases n,
{
    if n <= 1 {
        0
    } else {
        let k = farthest(active, (n - 1) as nat);
        if active[n - 1].interval.end >= active[k].interval.end {
            n - 1
        } else {
            k
        }
    }
}

/// Byte offset of a spill slot: eight bytes per slot, saturating.
pub open spec fn slot_offset(slot: u32) -> u32 {
    if slot * 8 > u32::MAX {
        u32::MAX
    } else {
        (slot * 8) as u32
    }
}

pub struct ScanState {
    pub active: Seq<ActiveInterval>,
    pub free: Seq<HostGpr>,
    pub assign: Map<u32, Location>,
    pub next_slot: u32,
}

/// One step of the scan, for the interval `cur`.
pub open spec fn scan_step(st: ScanState, cur: LiveInterval) -> ScanState {
    let (active, free) = expire_from(st.active, st.free, cur.start, 0);
    let next_slot: u32 = if st.next_slot == u32::MAX {
        u32::MAX
    } else {
        (st.next_slot + 1) as u32
    };
    if free.len() > 0 {
        let reg = free.last();
        ScanState {
            active: sort_by_end(active.push(ActiveInterval { interval: cur, reg })),
            free: free.drop_last(),
            assign: st.assign.insert(cur.vreg.0, Location::Reg(reg)),
            next_slot: st.next_slot,
        }
    } else {
        let far = active[farthest(active, active.len())];
        let spill = Location::StateSpill(slot_offset(st.next_slot));
        if far.interval.end > cur.end {
            ScanState {
                active: sort_by_end(
                    swap_removed(active, farthest(active, active.len())).push(ActiveInterval { interval: cur, reg: far.reg }),
                ),
                free,
                assign: st.assign.insert(far.interval.vreg.0, spill).insert(cur.vreg.0, Location::Reg(far.reg)),
                next_slot,
            }
        } else {
            ScanState { active, free, assign: st.assign.insert(cur.vreg.0, spill), next_slot }
        }
    }
}

pub open spec fn scan_prefix(ivs: Seq<LiveInterval>, n: nat) -> ScanState
    decreases n,
{
    if n == 0 {
        ScanState { active: Seq::empty(), free: pool(), assign: Map::empty(), next_slot: 0 }
    } else {
        scan_step(scan_prefix(ivs, (n - 1) as nat), ivs[n - 1])
    }
}

/// The allocation of a block.
pub open spec fn allocation_of(ops: Seq<OpView>) -> Map<u32, Location> {
    let ivs = intervals_of(ops);
    scan_prefix(ivs, ivs.len()).assign
}

proof fn lemma_expire_counts(active: Seq<ActiveInterval>, free: Seq<HostGpr>, start: usize, index: nat)
    ensures
        expire_from(active, free, start, index).0.len() + expire_from(active, free, start, index).1.len() == active.len()
            + free.len(),
    decreases active.len() - index,
{
    if index < active.len() {
        if active[index as int].interval.end < start {
            lemma_expire_counts(swap_removed(active, index as int), free.push(active[index as int].reg), start, index);
        } else {
            lemma_expire_counts(active, free, start, index + 1);
        }
    }
}

proof fn lemma_first_after_bound(s: Seq<ActiveInterval>, end: usize, k: nat)
    ensures
        first_after(s, end, k) <= s.len(),
    decreases s.len() - k,
{
    if k < s.len() {
        lemma_first_after_bound(s, end, k + 1);
    }
}

proof fn lemma_sort_len(s: Seq<ActiveInterval>)
    ensures
        sort_by_end(s).len() == s.len(),
    decreases s.len(),
{
    if s.len() > 0 {
        lemma_sort_len(s.drop_last());
        lemma_first_after_bound(sort_by_end(s.drop_last()), s.last().interval.end, 0);
    }
}

proof fn lemma_farthest_bound(active: Seq<ActiveInterval>, n: nat)
    requires
        0 < n <= active.len(),
    ensures
        0 <= farthest(active, n) < n,
    decreases n,
{
    if n > 1 {
        lemma_farthest_bound(active, (n - 1) as nat);
    }
}

fn free_pool() -> (r: Vec<HostGpr>)
    ensures
        r@ == pool(),
{
    let r = vec![
        HostGpr::Rax,
        HostGpr::Rbx,
        HostGpr::Rcx,
        HostGpr::Rdx,
        HostGpr::Rsi,
        HostGpr::Rdi,
        HostGpr::R8,
        HostGpr::R9,
        HostGpr::R10,
        HostGpr::R11,
        HostGpr::R12,
        HostGpr::R13,
        HostGpr::R14,
    ];
    assert(r@ =~= pool());
    r
}

/// Returns the registers of intervals ending before `current_start` to the free list.
fn expire_old(current_start: usize, active: &mut Vec<ActiveInterval>, free: &mut Vec<HostGpr>)
    ensures
        (final(active)@, final(free)@) == expire_from(old(active)@, old(free)@, current_start, 0),
{
    let mut index: usize = 0;
    while index < active.len()
        invariant
            index <= active@.len(),
            expire_from(old(active)@, old(free)@, current_start, 0) == expire_from(active@, free@, current_start, index as nat),
        decreases active@.len() - index,
    {
        if active[index].interval.end < current_start {
            let expired = active.swap_remove(index);
            free.push(expired.reg);
        } else {
            index = index + 1;
        }
    }
}

fn spill_offset(slot: u32) -> (r: u32)
    ensures
        r == slot_offset(slot),
{
    if slot > u32::MAX / 8 {
        u32::MAX
    } else {
        slot * 8
    }
}

/// Sorts the active list by end, keeping the order of entries with equal ends.
fn sort_active_by_end(active: &mut Vec<ActiveInterval>)
    ensures
        final(active)@ == sort_by_end(old(active)@),
{
    let mut sorted: Vec<ActiveInterval> = Vec::new();
    let mut i: usize = 0;
    while i < active.len()
        invariant
            i <= active@.len(),
            active@ == old(active)@,
            sorted@ == sort_by_end(active@.take(i as int)),
        decreases active.len() - i,
    {
        let x = active[i];
        let mut p: usize = 0;
        while p < sorted.len() && sorted[p].interval.end <= x.interval.end
            invariant
                p <= sorted@.len(),
                first_after(sorted@, x.interval.end, 0) == first_after(sorted@, x.interval.end, p as nat),
            decreases sorted.len() - p,
        {
            p = p + 1;
        }
        proof {
            assert(active@.take(i + 1).drop_last() =~= active@.take(i as int));
            assert(first_after(sorted@, x.interval.end, p as nat) == p);
        }
        sorted.insert(p, x);
        i = i + 1;
    }
    assert(active@.take(i as int) =~= active@);
    *active = sorted;
}

fn farthest_index(active: &Vec<ActiveInterval>) -> (r: usize)
    requires
        active@.len() > 0,
    ensures
        r as int == farthest(active@, active@.len()),
{
    let mut best: usize = 0;
    let mut i: usize = 1;
    while i < active.len()
        invariant
            1 <= i <= active@.len(),
            best as int == farthest(active@, i as nat),
            best < i,
        decreases active.len() - i,
    {
        if active[i].interval.end >= active[best].interval.end {
            best = i;
        }
        i = i + 1;
    }
    best
}

/// The scan over a block, with the number of spill slots it used.
fn scan_block(block: &IrBlock) -> (r: (Allocation, u32))
    ensures
        r.0.assignments@ == allocation_of(block@.ops),
        r.1 == spill_slots_needed(block@.ops),
        is_interval_list(block@.ops, intervals_of(block@.ops)),
{
    let intervals = compute_intervals(block);
    proof {
        lemma_interval_list_unique(block@.ops, intervals@, intervals_of(block@.ops));
    }
    let mut free = free_pool();
    let mut active: Vec<ActiveInterval> = Vec::new();
    let mut assignments: HashMap<u32, Location> = HashMap::new();
    let mut next_spill_slot: u32 = 0;
    let mut n: usize = 0;
    while n < intervals.len()
        invariant
            n <= intervals@.len(),
            intervals@ == intervals_of(block@.ops),
            active@.len() + free@.len() == 13,
            ({
                let st = scan_prefix(intervals@, n as nat);
                &&& st.active == active@
                &&& st.free == free@
                &&& st.assign == assignments@
                &&& st.next_slot == next_spill_slot
            }),
        decreases intervals.len() - n,
    {
        let current = intervals[n];
        proof {
            lemma_expire_counts(active@, free@, current.start, 0);
        }
        expire_old(current.start, &mut active, &mut free);
        if let Some(reg) = free.pop() {
            assignments.insert(current.vreg.0, Location::Reg(reg));
            active.push(ActiveInterval { interval: current, reg });
            proof {
                lemma_sort_len(active@);
            }
            sort_active_by_end(&mut active);
        } else {
            let farthest_idx = farthest_index(&active);
            proof {
                lemma_farthest_bound(active@, active@.len());
            }
            let far = active[farthest_idx];
            if far.interval.end > current.end {
                let spill_slot = next_spill_slot;
                next_spill_slot = next_spill_slot.saturating_add(1);
                assignments.insert(far.interval.vreg.0, Location::StateSpill(spill_offset(spill_slot)));
                assignments.insert(current.vreg.0, Location::Reg(far.reg));
                active.swap_remove(farthest_idx);
                active.push(ActiveInterval { interval: current, reg: far.reg });
                proof {
                    lemma_sort_len(active@);
                }
                sort_active_by_end(&mut active);
            } else {
                let spill_slot = next_spill_slot;
                next_spill_slot = next_spill_slot.saturating_add(1);
                assignments.insert(current.vreg.0, Location::StateSpill(spill_offset(spill_slot)));
            }
        }
        n = n + 1;
    }
    (Allocation { assignments }, next_spill_slot)
}

// ---------------------------------------------------------------------------
// Laws.
// ---------------------------------------------------------------------------

proof fn lemma_swap_removed_subset(s: Seq<ActiveInterval>, i: int)
    requires
        0 <= i < s.len(),
    ensures
        forall|x: ActiveInterval| swap_removed(s, i).contains(x) ==> s.contains(x),
{
    assert forall|x: ActiveInterval| swap_removed(s, i).contains(x) implies s.contains(x) by {
        let k = choose|k: int| 0 <= k < swap_removed(s, i).len() && swap_removed(s, i)[k] == x;
        if k == i {
            assert(s[s.len() - 1] == x);
        } else {
            assert(s[k] == x);
        }
    }
}

proof fn lemma_expire_subset(active: Seq<ActiveInterval>, free: Seq<HostGpr>, start: usize, index: nat)
    ensures
        forall|x: ActiveInterval| expire_from(active, free, start, index).0.contains(x) ==> active.contains(x),
    decreases active.len() - index,
{
    if index < active.len() {
        if active[index as int].interval.end < start {
            lemma_expire_subset(swap_removed(active, index as int), free.push(active[index as int].reg), start, index);
            lemma_swap_removed_subset(active, index as int);
        } else {
            lemma_expire_subset(active, free, start, index + 1);
        }
    }
}

#[verifier::spinoff_prover]
proof fn lemma_sort_contains(s: Seq<ActiveInterval>)
    ensures
        forall|x: ActiveInterval| sort_by_end(s).contains(x) <==> s.contains(x),
    decreases s.len(),
{
    if s.len() > 0 {
        lemma_sort_contains(s.drop_last());
        let sorted = sort_by_end(s.drop_last());
        let p = first_after(sorted, s.last().interval.end, 0);
        lemma_first_after_bound(sorted, s.last().interval.end, 0);
        let r = sorted.insert(p as int, s.last());
        assert forall|x: ActiveInterval| r.contains(x) <==> s.contains(x) by {
            if r.contains(x) {
                let k = choose|k: int| 0 <= k < r.len() && r[k] == x;
                if k < p {
                    assert(sorted[k] == x && sorted.contains(x));
                    assert(s.drop_last().contains(x));
                    let j = choose|j: int| 0 <= j < s.drop_last().len() && s.drop_last()[j] == x;
                    assert(s[j] == x);
                } else if k > p {
                    assert(sorted[k - 1] == x && sorted.contains(x));
                    assert(s.drop_last().contains(x));
                    let j = choose|j: int| 0 <= j < s.drop_last().len() && s.drop_last()[j] == x;
                    assert(s[j] == x);
                } else {
                    assert(s[s.len() - 1] == x);
                }
            }
            if s.contains(x) {
                let j = choose|j: int| 0 <= j < s.len() && s[j] == x;
                if j == s.len() - 1 {
                    assert(r[p as int] == x);
                } else {
                    let t = s.drop_last();
                    assert(t[j] == s[j]);
                    assert(t.contains(x));
                    assert(sorted.contains(x));
                    let k = choose|k: int| 0 <= k < sorted.len() && sorted[k] == x;
                    if k < p {
                        assert(r[k] == x);
                    } else {
                        assert(r[k + 1] == x);
                    }
                }
            }
        }
    }
}

/// Every location handed out for a spill is a multiple of eight bytes,
/// unless the slot count saturated.
pub open spec fn aligned_spills(assign: Map<u32, Location>) -> bool {
    forall|v: u32| #[trigger] assign.contains_key(v) ==> (assign[v] matches Location::StateSpill(off) ==> (off % 8 == 0
        || off == u32::MAX))
}

proof fn lemma_scan_prefix_facts(ivs: Seq<LiveInterval>, n: nat)
    requires
        n <= ivs.len(),
    ensures
        scan_prefix(ivs, n).active.len() + scan_prefix(ivs, n).free.len() == 13,
        forall|v: u32| #[trigger] scan_prefix(ivs, n).assign.contains_key(v) <==> exists|k: int| 0 <= k < n && ivs[k].vreg.0 == v,
        forall|x: ActiveInterval| #[trigger] scan_prefix(ivs, n).active.contains(x) ==> exists|k: int|
            0 <= k < n && ivs[k] == x.interval,
        aligned_spills(scan_prefix(ivs, n).assign),
    decreases n,
{
    if n > 0 {
        lemma_scan_prefix_facts(ivs, (n - 1) as nat);
        let st = scan_prefix(ivs, (n - 1) as nat);
        let cur = ivs[n - 1];
        let (active, free) = expire_from(st.active, st.free, cur.start, 0);
        lemma_expire_subset(st.active, st.free, cur.start, 0);
        lemma_expire_counts(st.active, st.free, cur.start, 0);
        let st1 = scan_prefix(ivs, n);
        let slot = slot_offset(st.next_slot);
        assert(slot % 8 == 0 || slot == u32::MAX);
        let idx = farthest(active, active.len());
        if active.len() > 0 {
            lemma_farthest_bound(active, active.len());
            assert(active.contains(active[idx]));
            assert(st.active.contains(active[idx]));
        }
        let far = active[idx];
        let spilled_far = free.len() == 0 && far.interval.end > cur.end;
        if spilled_far {
            let k0 = choose|k: int| 0 <= k < n - 1 && ivs[k] == far.interval;
            assert(st.assign.contains_key(far.interval.vreg.0)) by {
                assert(ivs[k0].vreg.0 == far.interval.vreg.0);
            }
        }
        if free.len() > 0 {
            let pushed = active.push(ActiveInterval { interval: cur, reg: free.last() });
            lemma_sort_contains(pushed);
            lemma_sort_len(pushed);
            assert forall|x: ActiveInterval| #[trigger] st1.active.contains(x) implies exists|k: int|
                0 <= k < n && ivs[k] == x.interval by {
                assert(pushed.contains(x));
                let j = choose|j: int| 0 <= j < pushed.len() && pushed[j] == x;
                if j < active.len() {
                    assert(active[j] == x && active.contains(x));
                    assert(st.active.contains(x));
                } else {
                    assert(ivs[n - 1] == x.interval);
                }
            }
        } else if spilled_far {
            let pushed = swap_removed(active, idx).push(ActiveInterval { interval: cur, reg: far.reg });
            lemma_sort_contains(pushed);
            lemma_sort_len(pushed);
            lemma_swap_removed_subset(active, idx);
            assert forall|x: ActiveInterval| #[trigger] st1.active.contains(x) implies exists|k: int|
                0 <= k < n && ivs[k] == x.interval by {
                assert(pushed.contains(x));
                let j = choose|j: int| 0 <= j < pushed.len() && pushed[j] == x;
                if j < pushed.len() - 1 {
                    assert(swap_removed(active, idx)[j] == x && swap_removed(active, idx).contains(x));
                    assert(st.active.contains(x));
                } else {
                    assert(ivs[n - 1] == x.interval);
                }
            }
        } else {
            assert forall|x: ActiveInterval| #[trigger] st1.active.contains(x) implies exists|k: int|
                0 <= k < n && ivs[k] == x.interval by {
                assert(st.active.contains(x));
            }
        }
        assert forall|v: u32| #[trigger] st1.assign.contains_key(v) <==> exists|k: int| 0 <= k < n && ivs[k].vreg.0 == v by {
            if exists|k: int| 0 <= k < n && ivs[k].vreg.0 == v {
                let k = choose|k: int| 0 <= k < n && ivs[k].vreg.0 == v;
                if k < n - 1 {
                    assert(st.assign.contains_key(v));
                }
            }
            if st1.assign.contains_key(v) && v != cur.vreg.0 {
                assert(st.assign.contains_key(v));
            }
        }
    }
}

/// The allocation gives a location to exactly the vregs the block defines or
/// uses, and every spill location is a multiple of eight bytes (unless the
/// slot count saturated).
pub proof fn lemma_allocation_covers_block(ops: Seq<OpView>, ivs: Seq<LiveInterval>)
    requires
        is_interval_list(ops, ivs),
    ensures
        allocation_of(ops) == scan_prefix(ivs, ivs.len()).assign,
        forall|v: u32| #[trigger] allocation_of(ops).contains_key(v) <==> observed(ops, v),
        aligned_spills(allocation_of(ops)),
{
    lemma_interval_list_unique(ops, ivs, intervals_of(ops));
    lemma_scan_prefix_facts(ivs, ivs.len());
    assert forall|v: u32| #[trigger] allocation_of(ops).contains_key(v) <==> observed(ops, v) by {
        if allocation_of(ops).contains_key(v) {
            let k = choose|k: int| 0 <= k < ivs.len() && ivs[k].vreg.0 == v;
            assert(observed(ops, ivs[k].vreg.0));
        }
        if observed(ops, v) {
            let k = choose|k: int| 0 <= k < ivs.len() && (#[trigger] ivs[k]).vreg.0 == v;
            assert(scan_prefix(ivs, ivs.len()).assign.contains_key(v));
        }
    }
}

// ---------------------------------------------------------------------------
// No two intervals sharing a register overlap.
// ---------------------------------------------------------------------------

pub open spec fn regs_distinct(active: Seq<ActiveInterval>) -> bool {
    forall|x: int, y: int| 0 <= x < active.len() && 0 <= y < active.len() && x != y ==> active[x].reg != active[y].reg
}

/// The active registers are distinct, the free list has no repeats, and no
/// register is both active and free.
pub open spec fn pool_ok(active: Seq<ActiveInterval>, free: Seq<HostGpr>) -> bool {
    &&& regs_distinct(active)
    &&& free.no_duplicates()
    &&& forall|x: int, y: int| 0 <= x < active.len() && 0 <= y < free.len() ==> active[x].reg != free[y]
}

pub open spec fn holds_reg(active: Seq<ActiveInterval>, g: HostGpr) -> bool {
    exists|x: int| 0 <= x < active.len() && (#[trigger] active[x]).reg == g
}

proof fn lemma_swap_removed_members(s: Seq<ActiveInterval>, i: int)
    requires
        0 <= i < s.len(),
        regs_distinct(s),
    ensures
        regs_distinct(swap_removed(s, i)),
        swap_removed(s, i).len() == s.len() - 1,
        forall|x: ActiveInterval| #[trigger] swap_removed(s, i).contains(x) <==> (s.contains(x) && x != s[i]),
{
    let r = swap_removed(s, i);
    let last = s.len() - 1;
    assert forall|k: int| 0 <= k < r.len() implies #[trigger] r[k] == (if k == i { s[last] } else { s[k] }) by {}
    assert forall|x: int, y: int| 0 <= x < r.len() && 0 <= y < r.len() && x != y implies r[x].reg != r[y].reg by {
        let sx = if x == i { last } else { x };
        let sy = if y == i { last } else { y };
        assert(r[x] == s[sx] && r[y] == s[sy]);
    }
    assert forall|x: ActiveInterval| #[trigger] r.contains(x) <==> (s.contains(x) && x != s[i]) by {
        if r.contains(x) {
            let k = choose|k: int| 0 <= k < r.len() && r[k] == x;
            let sk = if k == i { last } else { k };
            assert(s[sk] == x);
            assert(sk != i);
            if x == s[i] {
                assert(s[sk].reg == s[i].reg);
            }
        }
        if s.contains(x) && x != s[i] {
            let k = choose|k: int| 0 <= k < s.len() && s[k] == x;
            if k == last {
                assert(r[i] == x);
            } else {
                assert(r[k] == x);
            }
        }
    }
}

proof fn lemma_expire_pool(active: Seq<ActiveInterval>, free: Seq<HostGpr>, start: usize, index: nat)
    requires
        pool_ok(active, free),
        forall|k: int| 0 <= k < index && k < active.len() ==> (#[trigger] active[k]).interval.end >= start,
    ensures
        pool_ok(expire_from(active, free, start, index).0, expire_from(active, free, start, index).1),
        forall|x: ActiveInterval| #[trigger] expire_from(active, free, start, index).0.contains(x) <==> (active.contains(x)
            && x.interval.end >= start),
        forall|g: HostGpr| (holds_reg(expire_from(active, free, start, index).0, g) || expire_from(active, free, start, index).1.contains(g))
            <==> (holds_reg(active, g) || free.contains(g)),
    decreases active.len() - index,
{
    if index >= active.len() {
        assert forall|x: ActiveInterval| #[trigger] active.contains(x) implies x.interval.end >= start by {
            let k = choose|k: int| 0 <= k < active.len() && active[k] == x;
        }
    } else if active[index as int].interval.end < start {
        let e = active[index as int];
        let a2 = swap_removed(active, index as int);
        let f2 = free.push(e.reg);
        lemma_swap_removed_members(active, index as int);
        assert forall|k: int| 0 <= k < index && k < a2.len() implies (#[trigger] a2[k]).interval.end >= start by {
            assert(a2[k] == active[k]);
        }
        assert(pool_ok(a2, f2)) by {
            assert forall|y: int| 0 <= y < free.len() implies free[y] != e.reg by {
                assert(active[index as int].reg != free[y]);
            }
            assert forall|a: int, b: int| 0 <= a < f2.len() && 0 <= b < f2.len() && a != b implies f2[a] != f2[b] by {
                if a < free.len() && b < free.len() {
                    assert(f2[a] == free[a] && f2[b] == free[b]);
                } else if a < free.len() {
                    assert(f2[a] == free[a]);
                } else {
                    assert(f2[b] == free[b]);
                }
            }
            assert forall|x: int, y: int| 0 <= x < a2.len() && 0 <= y < f2.len() implies a2[x].reg != f2[y] by {
                assert(a2.contains(a2[x]));
                assert(active.contains(a2[x]) && a2[x] != e);
                let k = choose|k: int| 0 <= k < active.len() && active[k] == a2[x];
                if y < free.len() {
                    assert(f2[y] == free[y]);
                } else {
                    assert(k != index);
                }
            }
        }
        lemma_expire_pool(a2, f2, start, index);
        assert forall|x: ActiveInterval| #[trigger] expire_from(active, free, start, index).0.contains(x) <==> (active.contains(x)
            && x.interval.end >= start) by {
            if active.contains(x) && x.interval.end >= start {
                assert(x != e);
                assert(a2.contains(x));
            }
        }
        assert forall|g: HostGpr| (holds_reg(expire_from(active, free, start, index).0, g) || expire_from(active, free, start, index).1.contains(g))
            <==> (holds_reg(active, g) || free.contains(g)) by {
            if holds_reg(a2, g) {
                let x = choose|x: int| 0 <= x < a2.len() && (#[trigger] a2[x]).reg == g;
                assert(a2.contains(a2[x]));
                let k = choose|k: int| 0 <= k < active.len() && active[k] == a2[x];
                assert(active[k].reg == g);
            }
            if f2.contains(g) {
                let y = choose|y: int| 0 <= y < f2.len() && f2[y] == g;
                if y < free.len() {
                    assert(free[y] == g);
                } else {
                    assert(active[index as int].reg == g);
                }
            }
            if holds_reg(active, g) {
                let k = choose|k: int| 0 <= k < active.len() && (#[trigger] active[k]).reg == g;
                if active[k] == e {
                    assert(f2[free.len() as int] == g);
                } else {
                    assert(a2.contains(active[k]));
                    let x = choose|x: int| 0 <= x < a2.len() && a2[x] == active[k];
                    assert(a2[x].reg == g);
                }
            }
            if free.contains(g) {
                let y = choose|y: int| 0 <= y < free.len() && free[y] == g;
                assert(f2[y] == g);
            }
        }
    } else {
        lemma_expire_pool(active, free, start, index + 1);
    }
}

proof fn lemma_sort_distinct(s: Seq<ActiveInterval>)
    requires
        regs_distinct(s),
    ensures
        regs_distinct(sort_by_end(s)),
        sort_by_end(s).len() == s.len(),
    decreases s.len(),
{
    lemma_sort_len(s);
    if s.len() > 0 {
        let t = s.drop_last();
        assert(regs_distinct(t));
        lemma_sort_distinct(t);
        lemma_sort_contains(t);
        let sorted = sort_by_end(t);
        let x = s.last();
        let p = first_after(sorted, x.interval.end, 0);
        lemma_first_after_bound(sorted, x.interval.end, 0);
        let r = sorted.insert(p as int, x);
        assert forall|k: int| 0 <= k < sorted.len() implies sorted[k].reg != x.reg by {
            assert(sorted.contains(sorted[k]));
            assert(t.contains(sorted[k]));
            let j = choose|j: int| 0 <= j < t.len() && t[j] == sorted[k];
            assert(s[j] == sorted[k]);
            assert(j != s.len() - 1);
        }
        assert forall|a: int, b: int| 0 <= a < r.len() && 0 <= b < r.len() && a != b implies r[a].reg != r[b].reg by {
            let sa = if a < p { a } else { a - 1 };
            let sb = if b < p { b } else { b - 1 };
            if a == p {
                assert(r[b] == sorted[sb]);
            } else if b == p {
                assert(r[a] == sorted[sa]);
            } else {
                assert(r[a] == sorted[sa] && r[b] == sorted[sb]);
            }
        }
    }
}

pub open spec fn active_vreg(active: Seq<ActiveInterval>, v: u32) -> bool {
    exists|x: int| 0 <= x < active.len() && (#[trigger] active[x]).interval.vreg.0 == v
}

/// Intervals sharing a register do not overlap: of two intervals, among the
/// first `n`, given the same register, the earlier ends before the later starts.
pub open spec fn conflict_free(ivs: Seq<LiveInterval>, assign: Map<u32, Location>, n: nat) -> bool {
    forall|a: int, b: int|
        0 <= a < b < n && assign.contains_key(ivs[a].vreg.0) && assign.contains_key(ivs[b].vreg.0) && (#[trigger] assign[ivs[a].vreg.0]) is Reg
            && assign[ivs[a].vreg.0] == #[trigger] assign[ivs[b].vreg.0] ==> ivs[a].end < ivs[b].start
}

/// Starts never decrease along the list, and no vreg appears twice.
pub open spec fn ordered(ivs: Seq<LiveInterval>) -> bool {
    &&& forall|a: int, b: int| 0 <= a < b < ivs.len() ==> ivs[a].start <= ivs[b].start
    &&& forall|a: int, b: int| 0 <= a < ivs.len() && 0 <= b < ivs.len() && a != b ==> ivs[a].vreg != ivs[b].vreg
}

/// What the scan keeps true after `n` intervals.
pub open spec fn scan_inv(ivs: Seq<LiveInterval>, st: ScanState, n: nat) -> bool {
    &&& pool_ok(st.active, st.free)
    &&& forall|x: int| 0 <= x < st.active.len() ==> {
        let e = #[trigger] st.active[x];
        &&& st.assign.contains_key(e.interval.vreg.0)
        &&& st.assign[e.interval.vreg.0] == Location::Reg(e.reg)
        &&& exists|k: int| 0 <= k < n && ivs[k] == e.interval
    }
    &&& forall|k: int| 0 <= k < n ==> st.assign.contains_key(#[trigger] ivs[k].vreg.0)
    &&& n > 0 ==> forall|k: int|
        0 <= k < n && (#[trigger] st.assign[ivs[k].vreg.0]) is Reg && !active_vreg(st.active, ivs[k].vreg.0) ==> ivs[k].end
            < ivs[n - 1].start
    &&& conflict_free(ivs, st.assign, n)
}

proof fn lemma_pool_initial()
    ensures
        pool_ok(Seq::empty(), pool()),
{
    assert(pool().no_duplicates()) by {
        let p = pool();
        assert forall|a: int, b: int| 0 <= a < p.len() && 0 <= b < p.len() && a != b implies p[a] != p[b] by {}
    }
}

/// The entry of the active list holding vreg `v`, when there is one, holds the
/// interval of `v` among the first `n`.
proof fn lemma_active_entry(ivs: Seq<LiveInterval>, st: ScanState, n: nat, active: Seq<ActiveInterval>, j: int)
    requires
        ordered(ivs),
        n <= ivs.len(),
        scan_inv(ivs, st, n),
        forall|x: ActiveInterval| #[trigger] active.contains(x) ==> st.active.contains(x),
        0 <= j < n,
        active_vreg(active, ivs[j].vreg.0),
    ensures
        exists|x: int| 0 <= x < active.len() && (#[trigger] active[x]).interval == ivs[j] && st.assign[ivs[j].vreg.0]
            == Location::Reg(active[x].reg),
{
    let x = choose|x: int| 0 <= x < active.len() && (#[trigger] active[x]).interval.vreg.0 == ivs[j].vreg.0;
    let e = active[x];
    assert(active.contains(e));
    assert(st.active.contains(e));
    let y = choose|y: int| 0 <= y < st.active.len() && st.active[y] == e;
    assert(st.active[y] == e);
    let k = choose|k: int| 0 <= k < n && ivs[k] == e.interval;
    assert(ivs[k].vreg == ivs[j].vreg);
    assert(k == j);
}

#[verifier::spinoff_prover]
#[verifier::rlimit(80)]
proof fn lemma_scan_step_inv(ivs: Seq<LiveInterval>, n: nat)
    requires
        ordered(ivs),
        n < ivs.len(),
        scan_inv(ivs, scan_prefix(ivs, n), n),
        scan_prefix(ivs, n).active.len() + scan_prefix(ivs, n).free.len() == 13,
    ensures
        scan_inv(ivs, scan_prefix(ivs, n + 1), n + 1),
{
    let st = scan_prefix(ivs, n);
    let cur = ivs[n as int];
    let (a, f) = expire_from(st.active, st.free, cur.start, 0);
    lemma_expire_pool(st.active, st.free, cur.start, 0);
    lemma_expire_counts(st.active, st.free, cur.start, 0);
    let st1 = scan_prefix(ivs, n + 1);
    assert(st1 == scan_step(st, cur));
    assert forall|x: ActiveInterval| #[trigger] a.contains(x) implies st.active.contains(x) by {}
    // Claim: a vreg whose register is no longer held ends before the current start.
    assert forall|j: int| 0 <= j < n && (#[trigger] st.assign[ivs[j].vreg.0]) is Reg && !active_vreg(a, ivs[j].vreg.0) implies ivs[j].end
        < cur.start by {
        if active_vreg(st.active, ivs[j].vreg.0) {
            lemma_active_entry(ivs, st, n, st.active, j);
            let x = choose|x: int| 0 <= x < st.active.len() && (#[trigger] st.active[x]).interval == ivs[j] && st.assign[ivs[j].vreg.0]
                == Location::Reg(st.active[x].reg);
            let e = st.active[x];
            assert(st.active.contains(e));
            if e.interval.end >= cur.start {
                assert(a.contains(e));
                let y = choose|y: int| 0 <= y < a.len() && a[y] == e;
                assert(a[y].interval.vreg.0 == ivs[j].vreg.0);
            }
        } else {
            assert(ivs[j].end < ivs[n - 1].start);
        }
    }
    // Entries of `a` keep their assignment.
    assert forall|x: int| 0 <= x < a.len() implies st.assign.contains_key((#[trigger] a[x]).interval.vreg.0) && st.assign[a[x].interval.vreg.0]
        == Location::Reg(a[x].reg) && (exists|k: int| 0 <= k < n && ivs[k] == a[x].interval) && a[x].interval.vreg != cur.vreg by {
        assert(a.contains(a[x]));
        assert(st.active.contains(a[x]));
        let y = choose|y: int| 0 <= y < st.active.len() && st.active[y] == a[x];
        assert(st.active[y] == a[x]);
        let k = choose|k: int| 0 <= k < n && ivs[k] == a[x].interval;
        assert(k != n);
    }
    if f.len() > 0 {
        let g = f.last();
        let y = ActiveInterval { interval: cur, reg: g };
        let pushed = a.push(y);
        assert(regs_distinct(pushed)) by {
            assert forall|p: int, q: int| 0 <= p < pushed.len() && 0 <= q < pushed.len() && p != q implies pushed[p].reg != pushed[q].reg by {
                if p < a.len() && q < a.len() {
                    assert(pushed[p] == a[p] && pushed[q] == a[q]);
                } else if p < a.len() {
                    assert(a[p].reg != f[f.len() - 1]);
                } else {
                    assert(a[q].reg != f[f.len() - 1]);
                }
            }
        }
        lemma_sort_distinct(pushed);
        lemma_sort_contains(pushed);
        let active1 = sort_by_end(pushed);
        let free1 = f.drop_last();
        assert(st1.active == active1 && st1.free == free1);
        assert(pool_ok(active1, free1)) by {
            assert forall|p: int, q: int| 0 <= p < free1.len() && 0 <= q < free1.len() && p != q implies free1[p] != free1[q] by {
                assert(free1[p] == f[p] && free1[q] == f[q]);
            }
            assert forall|p: int, q: int| 0 <= p < active1.len() && 0 <= q < free1.len() implies active1[p].reg != free1[q] by {
                assert(active1.contains(active1[p]));
                assert(pushed.contains(active1[p]));
                let r = choose|r: int| 0 <= r < pushed.len() && pushed[r] == active1[p];
                assert(free1[q] == f[q]);
                if r < a.len() {
                    assert(pushed[r] == a[r]);
                } else {
                    assert(f[f.len() - 1] != f[q]);
                }
            }
        }
        assert forall|x: int| 0 <= x < active1.len() implies ({
            let e = #[trigger] active1[x];
            &&& st1.assign.contains_key(e.interval.vreg.0)
            &&& st1.assign[e.interval.vreg.0] == Location::Reg(e.reg)
            &&& exists|k: int| 0 <= k < n + 1 && ivs[k] == e.interval
        }) by {
            assert(active1.contains(active1[x]));
            assert(pushed.contains(active1[x]));
            let r = choose|r: int| 0 <= r < pushed.len() && pushed[r] == active1[x];
            if r < a.len() {
                assert(pushed[r] == a[r]);
            }
        }
        assert forall|k: int| 0 <= k < n + 1 && (#[trigger] st1.assign[ivs[k].vreg.0]) is Reg && !active_vreg(st1.active, ivs[k].vreg.0) implies ivs[k].end
            < ivs[n as int].start by {
            if k == n {
                assert(pushed.contains(y));
                let r = choose|r: int| 0 <= r < active1.len() && active1[r] == y;
                assert(active1[r].interval.vreg.0 == ivs[k].vreg.0);
            } else {
                assert(ivs[k].vreg != cur.vreg);
                if active_vreg(a, ivs[k].vreg.0) {
                    let x = choose|x: int| 0 <= x < a.len() && (#[trigger] a[x]).interval.vreg.0 == ivs[k].vreg.0;
                    assert(pushed[x] == a[x]);
                    assert(a.contains(a[x]) && pushed.contains(a[x]));
                    let r = choose|r: int| 0 <= r < active1.len() && active1[r] == a[x];
                    assert(active1[r].interval.vreg.0 == ivs[k].vreg.0);
                }
            }
        }
        assert forall|p: int, q: int|
            0 <= p < q < n + 1 && st1.assign.contains_key(ivs[p].vreg.0) && st1.assign.contains_key(ivs[q].vreg.0)
                && (#[trigger] st1.assign[ivs[p].vreg.0]) is Reg && st1.assign[ivs[p].vreg.0] == #[trigger] st1.assign[ivs[q].vreg.0]
            implies ivs[p].end < ivs[q].start by {
            assert(ivs[p].vreg != cur.vreg);
            if q == n {
                if active_vreg(a, ivs[p].vreg.0) {
                    lemma_active_entry(ivs, st, n, a, p);
                    let x = choose|x: int| 0 <= x < a.len() && (#[trigger] a[x]).interval == ivs[p] && st.assign[ivs[p].vreg.0]
                        == Location::Reg(a[x].reg);
                    assert(a[x].reg != f[f.len() - 1]);
                }
            } else {
                assert(ivs[q].vreg != cur.vreg);
            }
        }
    } else {
        assert(a.len() > 0);
        let idx = farthest(a, a.len());
        lemma_farthest_bound(a, a.len());
        let far = a[idx];
        let slot = Location::StateSpill(slot_offset(st.next_slot));
        if far.interval.end > cur.end {
            let sr = swap_removed(a, idx);
            lemma_swap_removed_members(a, idx);
            let y = ActiveInterval { interval: cur, reg: far.reg };
            let pushed = sr.push(y);
            assert forall|x: ActiveInterval| #[trigger] sr.contains(x) implies x.reg != far.reg && x.interval.vreg != far.interval.vreg by {
                assert(a.contains(x) && x != far);
                let p = choose|p: int| 0 <= p < a.len() && a[p] == x;
                assert(p != idx);
            }
            assert(regs_distinct(pushed)) by {
                assert forall|p: int, q: int| 0 <= p < pushed.len() && 0 <= q < pushed.len() && p != q implies pushed[p].reg != pushed[q].reg by {
                    if p < sr.len() && q < sr.len() {
                        assert(pushed[p] == sr[p] && pushed[q] == sr[q]);
                    } else if p < sr.len() {
                        assert(sr.contains(sr[p]));
                    } else {
                        assert(sr.contains(sr[q]));
                    }
                }
            }
            lemma_sort_distinct(pushed);
            lemma_sort_contains(pushed);
            let active1 = sort_by_end(pushed);
            assert(st1.active == active1 && st1.free == f);
            assert(st1.assign == st.assign.insert(far.interval.vreg.0, slot).insert(cur.vreg.0, Location::Reg(far.reg)));
            assert(pool_ok(active1, f));
            assert forall|x: int| 0 <= x < active1.len() implies ({
                let e = #[trigger] active1[x];
                &&& st1.assign.contains_key(e.interval.vreg.0)
                &&& st1.assign[e.interval.vreg.0] == Location::Reg(e.reg)
                &&& exists|k: int| 0 <= k < n + 1 && ivs[k] == e.interval
            }) by {
                assert(active1.contains(active1[x]));
                assert(pushed.contains(active1[x]));
                let r = choose|r: int| 0 <= r < pushed.len() && pushed[r] == active1[x];
                if r < sr.len() {
                    assert(pushed[r] == sr[r]);
                    assert(sr.contains(sr[r]));
                    assert(a.contains(sr[r]));
                    let t = choose|t: int| 0 <= t < a.len() && a[t] == sr[r];
                    assert(a[t] == sr[r]);
                }
            }
            assert forall|k: int| 0 <= k < n + 1 && (#[trigger] st1.assign[ivs[k].vreg.0]) is Reg && !active_vreg(st1.active, ivs[k].vreg.0) implies ivs[k].end
                < ivs[n as int].start by {
                if k == n {
                    assert(pushed.contains(y));
                    let r = choose|r: int| 0 <= r < active1.len() && active1[r] == y;
                    assert(active1[r].interval.vreg.0 == ivs[k].vreg.0);
                } else if ivs[k].vreg == far.interval.vreg {
                } else {
                    assert(ivs[k].vreg != cur.vreg);
                    if active_vreg(a, ivs[k].vreg.0) {
                        let x = choose|x: int| 0 <= x < a.len() && (#[trigger] a[x]).interval.vreg.0 == ivs[k].vreg.0;
                        assert(a[x] != far);
                        assert(a.contains(a[x]) && sr.contains(a[x]));
                        let w = choose|w: int| 0 <= w < sr.len() && sr[w] == a[x];
                        assert(pushed[w] == a[x]);
                        assert(pushed.contains(a[x]));
                        let r = choose|r: int| 0 <= r < active1.len() && active1[r] == a[x];
                        assert(active1[r].interval.vreg.0 == ivs[k].vreg.0);
                    }
                }
            }
            assert forall|p: int, q: int|
                0 <= p < q < n + 1 && st1.assign.contains_key(ivs[p].vreg.0) && st1.assign.contains_key(ivs[q].vreg.0)
                    && (#[trigger] st1.assign[ivs[p].vreg.0]) is Reg && st1.assign[ivs[p].vreg.0] == #[trigger] st1.assign[ivs[q].vreg.0]
                implies ivs[p].end < ivs[q].start by {
                assert(ivs[p].vreg != cur.vreg);
                assert(ivs[p].vreg != far.interval.vreg);
                if q == n {
                    if active_vreg(a, ivs[p].vreg.0) {
                        lemma_active_entry(ivs, st, n, a, p);
                        let x = choose|x: int| 0 <= x < a.len() && (#[trigger] a[x]).interval == ivs[p] && st.assign[ivs[p].vreg.0]
                            == Location::Reg(a[x].reg);
                        assert(x != idx);
                    }
                } else {
                    assert(ivs[q].vreg != cur.vreg);
                    assert(ivs[q].vreg != far.interval.vreg);
                }
            }
        } else {
            assert(st1.active == a && st1.free == f);
            assert(st1.assign == st.assign.insert(cur.vreg.0, slot));
            assert forall|k: int| 0 <= k < n + 1 && (#[trigger] st1.assign[ivs[k].vreg.0]) is Reg && !active_vreg(st1.active, ivs[k].vreg.0) implies ivs[k].end
                < ivs[n as int].start by {
                if k < n {
                    assert(ivs[k].vreg != cur.vreg);
                }
            }
            assert forall|p: int, q: int|
                0 <= p < q < n + 1 && st1.assign.contains_key(ivs[p].vreg.0) && st1.assign.contains_key(ivs[q].vreg.0)
                    && (#[trigger] st1.assign[ivs[p].vreg.0]) is Reg && st1.assign[ivs[p].vreg.0] == #[trigger] st1.assign[ivs[q].vreg.0]
                implies ivs[p].end < ivs[q].start by {
                assert(ivs[p].vreg != cur.vreg);
                if q < n {
                    assert(ivs[q].vreg != cur.vreg);
                }
            }
        }
    }
}

proof fn lemma_scan_inv_all(ivs: Seq<LiveInterval>, n: nat)
    requires
        ordered(ivs),
        n <= ivs.len(),
    ensures
        scan_inv(ivs, scan_prefix(ivs, n), n),
    decreases n,
{
    if n == 0 {
        lemma_pool_initial();
    } else {
        lemma_scan_inv_all(ivs, (n - 1) as nat);
        lemma_scan_prefix_facts(ivs, (n - 1) as nat);
        lemma_scan_step_inv(ivs, (n - 1) as nat);
    }
}

/// Two vregs given the same host register never overlap: of the two, the one
/// visited first ends strictly before the other starts.
pub proof fn lemma_linear_scan_conflict_free(ops: Seq<OpView>, ivs: Seq<LiveInterval>)
    requires
        is_interval_list(ops, ivs),
    ensures
        conflict_free(ivs, allocation_of(ops), ivs.len()),
{
    assert(ordered(ivs)) by {
        assert forall|a: int, b: int| 0 <= a < ivs.len() && 0 <= b < ivs.len() && a != b implies ivs[a].vreg != ivs[b].vreg by {
            if ivs[a].vreg == ivs[b].vreg {
                assert(ivs[a] == interval_of(ops, ivs[a].vreg.0));
                assert(ivs[b] == interval_of(ops, ivs[b].vreg.0));
                if a < b {
                    assert(key_lt(ivs[a], ivs[b]));
                } else {
                    assert(key_lt(ivs[b], ivs[a]));
                }
            }
        }
        assert forall|a: int, b: int| 0 <= a < b < ivs.len() implies ivs[a].start <= ivs[b].start by {
            assert(key_lt(ivs[a], ivs[b]));
        }
    }
    lemma_interval_list_unique(ops, ivs, intervals_of(ops));
    lemma_scan_inv_all(ivs, ivs.len());
}

// ---------------------------------------------------------------------------
// The spill area and the public scan.
// ---------------------------------------------------------------------------

/// Slots in the guest state's spill area; each holds eight bytes.
pub const SPILL_SLOTS: u32 = 128;

/// The spill slots the scan of a block hands out.
pub open spec fn spill_slots_needed(ops: Seq<OpView>) -> u32 {
    let ivs = intervals_of(ops);
    scan_prefix(ivs, ivs.len()).next_slot
}

/// Every spill location is an eight-byte-aligned offset below `bound`.
pub open spec fn spills_below(assign: Map<u32, Location>, bound: int) -> bool {
    forall|v: u32| #[trigger] assign.contains_key(v) ==> (assign[v] matches Location::StateSpill(off) ==> off % 8 == 0
        && off < bound)
}

/// Every spill location is a whole eight-byte slot inside the spill area.
pub open spec fn spills_in_area(assign: Map<u32, Location>) -> bool {
    forall|v: u32| #[trigger] assign.contains_key(v) ==> (assign[v] matches Location::StateSpill(off) ==> off % 8 == 0
        && off + 8 <= 8 * SPILL_SLOTS)
}

/// No two vregs share a spill location.
pub open spec fn spills_distinct(assign: Map<u32, Location>) -> bool {
    forall|v: u32, w: u32|
        v != w && assign.contains_key(v) && assign.contains_key(w) && (#[trigger] assign[v]) is StateSpill ==> assign[v]
            != #[trigger] assign[w]
}

/// Every vreg is in a host register.
pub open spec fn no_spills(assign: Map<u32, Location>) -> bool {
    forall|v: u32| #[trigger] assign.contains_key(v) ==> assign[v] is Reg
}

/// Two vregs given the same host register have disjoint intervals.
pub open spec fn regs_disjoint(ops: Seq<OpView>, assign: Map<u32, Location>) -> bool {
    forall|v: u32, w: u32|
        v != w && assign.contains_key(v) && assign.contains_key(w) && (#[trigger] assign[v]) is Reg && assign[v]
            == #[trigger] assign[w] ==> interval_of(ops, v).end < interval_of(ops, w).start || interval_of(ops, w).end
            < interval_of(ops, v).start
}

proof fn lemma_insert_reg_keeps_spills(assign: Map<u32, Location>, k: u32, g: HostGpr, bound: int)
    requires
        spills_below(assign, bound),
        spills_distinct(assign),
    ensures
        spills_below(assign.insert(k, Location::Reg(g)), bound),
        spills_distinct(assign.insert(k, Location::Reg(g))),
{
    let a1 = assign.insert(k, Location::Reg(g));
    assert forall|v: u32, w: u32|
        v != w && a1.contains_key(v) && a1.contains_key(w) && (#[trigger] a1[v]) is StateSpill implies a1[v]
            != #[trigger] a1[w] by {
        if w != k {
            assert(assign[v] != assign[w]);
        }
    }
}

proof fn lemma_insert_fresh_spill(assign: Map<u32, Location>, k: u32, off: u32, bound: int)
    requires
        spills_below(assign, bound),
        spills_distinct(assign),
        off == bound,
        off % 8 == 0,
    ensures
        spills_below(assign.insert(k, Location::StateSpill(off)), bound + 8),
        spills_distinct(assign.insert(k, Location::StateSpill(off))),
{
    let a1 = assign.insert(k, Location::StateSpill(off));
    assert forall|v: u32, w: u32|
        v != w && a1.contains_key(v) && a1.contains_key(w) && (#[trigger] a1[v]) is StateSpill implies a1[v]
            != #[trigger] a1[w] by {
        if v == k {
            assert(assign.contains_key(w));
        } else if w == k {
            assert(assign.contains_key(v));
        } else {
            assert(assign[v] != assign[w]);
        }
    }
}

proof fn lemma_expire_shrinks(active: Seq<ActiveInterval>, free: Seq<HostGpr>, start: usize, index: nat)
    ensures
        expire_from(active, free, start, index).0.len() <= active.len(),
    decreases active.len() - index,
{
    if index < active.len() {
        if active[index as int].interval.end < start {
            lemma_expire_shrinks(swap_removed(active, index as int), free.push(active[index as int].reg), start, index);
        } else {
            lemma_expire_shrinks(active, free, start, index + 1);
        }
    }
}

/// While the slot count stays within the spill area, every spill gets its own
/// slot below the count, and the active list never outgrows the intervals seen.
proof fn lemma_scan_slots(ivs: Seq<LiveInterval>, n: nat)
    requires
        n <= ivs.len(),
        scan_prefix(ivs, n).next_slot <= SPILL_SLOTS,
    ensures
        spills_below(scan_prefix(ivs, n).assign, 8 * scan_prefix(ivs, n).next_slot),
        spills_distinct(scan_prefix(ivs, n).assign),
        scan_prefix(ivs, n).active.len() <= n,
        n <= 13 ==> scan_prefix(ivs, n).next_slot == 0 && no_spills(scan_prefix(ivs, n).assign),
    decreases n,
{
    if n > 0 {
        let st = scan_prefix(ivs, (n - 1) as nat);
        let cur = ivs[n - 1];
        let st1 = scan_prefix(ivs, n);
        assert(st1 == scan_step(st, cur));
        assert(st.next_slot <= st1.next_slot);
        lemma_scan_slots(ivs, (n - 1) as nat);
        lemma_scan_prefix_facts(ivs, (n - 1) as nat);
        let (active, free) = expire_from(st.active, st.free, cur.start, 0);
        lemma_expire_counts(st.active, st.free, cur.start, 0);
        lemma_expire_shrinks(st.active, st.free, cur.start, 0);
        if free.len() > 0 {
            let reg = free.last();
            lemma_sort_len(active.push(ActiveInterval { interval: cur, reg }));
            lemma_insert_reg_keeps_spills(st.assign, cur.vreg.0, reg, 8 * st.next_slot);
            if n <= 13 {
                assert forall|v: u32| #[trigger] st1.assign.contains_key(v) implies st1.assign[v] is Reg by {
                    if v != cur.vreg.0 {
                        assert(st.assign.contains_key(v));
                    }
                }
            }
        } else {
            assert(st.next_slot < SPILL_SLOTS);
            let off = slot_offset(st.next_slot);
            assert(off == 8 * st.next_slot);
            assert(st1.next_slot == st.next_slot + 1);
            let idx = farthest(active, active.len());
            lemma_farthest_bound(active, active.len());
            let far = active[idx];
            if far.interval.end > cur.end {
                lemma_sort_len(swap_removed(active, idx).push(ActiveInterval { interval: cur, reg: far.reg }));
                lemma_insert_fresh_spill(st.assign, far.interval.vreg.0, off, 8 * st.next_slot);
                lemma_insert_reg_keeps_spills(
                    st.assign.insert(far.interval.vreg.0, Location::StateSpill(off)),
                    cur.vreg.0,
                    far.reg,
                    8 * st.next_slot + 8,
                );
            } else {
                lemma_insert_fresh_spill(st.assign, cur.vreg.0, off, 8 * st.next_slot);
            }
        }
    }
}

/// What the allocation of a block satisfies when it fits in the spill area.
proof fn lemma_allocation_facts(ops: Seq<OpView>)
    requires
        is_interval_list(ops, intervals_of(ops)),
        spill_slots_needed(ops) <= SPILL_SLOTS,
    ensures
        forall|v: u32| #[trigger] allocation_of(ops).contains_key(v) <==> observed(ops, v),
        regs_disjoint(ops, allocation_of(ops)),
        spills_in_area(allocation_of(ops)),
        spills_distinct(allocation_of(ops)),
        intervals_of(ops).len() <= 13 ==> no_spills(allocation_of(ops)),
{
    let ivs = intervals_of(ops);
    let assign = allocation_of(ops);
    lemma_allocation_covers_block(ops, ivs);
    lemma_linear_scan_conflict_free(ops, ivs);
    lemma_scan_slots(ivs, ivs.len());
    assert forall|v: u32| #[trigger] assign.contains_key(v) implies (assign[v] matches Location::StateSpill(off) ==> off
        % 8 == 0 && off + 8 <= 8 * SPILL_SLOTS) by {
        if let Location::StateSpill(off) = assign[v] {
            assert(off < 8 * spill_slots_needed(ops));
        }
    }
    assert forall|v: u32, w: u32|
        v != w && assign.contains_key(v) && assign.contains_key(w) && (#[trigger] assign[v]) is Reg && assign[v]
            == #[trigger] assign[w] implies interval_of(ops, v).end < interval_of(ops, w).start || interval_of(ops, w).end
        < interval_of(ops, v).start by {
        let a = choose|a: int| 0 <= a < ivs.len() && (#[trigger] ivs[a]).vreg.0 == v;
        let b = choose|b: int| 0 <= b < ivs.len() && (#[trigger] ivs[b]).vreg.0 == w;
        assert(ivs[a] == interval_of(ops, v));
        assert(ivs[b] == interval_of(ops, w));
        if a < b {
            assert(assign[ivs[a].vreg.0] == assign[ivs[b].vreg.0]);
        } else {
            assert(assign[ivs[b].vreg.0] == assign[ivs[a].vreg.0]);
        }
    }
}

/// Linear-scan allocation of one block: exactly one location per vreg the
/// block defines or uses, never r15, no host stack frame; vregs sharing a
/// register never overlap, and every spill has its own eight-byte slot inside
/// the guest state's spill area. A block with at most thirteen vregs (one
/// interval each) spills nothing.
pub fn linear_scan(block: &IrBlock) -> (r: Allocation)
    requires
        spill_slots_needed(block@.ops) <= SPILL_SLOTS,
    ensures
        r.assignments@ == allocation_of(block@.ops),
        forall|v: u32| #[trigger] r.assignments@.contains_key(v) <==> observed(block@.ops, v),
        regs_disjoint(block@.ops, r.assignments@),
        spills_in_area(r.assignments@),
        spills_distinct(r.assignments@),
        intervals_of(block@.ops).len() <= 13 ==> no_spills(r.assignments@),
{
    let (alloc, _) = scan_block(block);
    proof {
        lemma_allocation_facts(block@.ops);
    }
    alloc
}

/// Linear scan for any block: `None` exactly when the block needs more spill
/// slots than the spill area holds, else the allocation `linear_scan` gives.
pub fn checked_linear_scan(block: &IrBlock) -> (r: Option<Allocation>)
    ensures
        r is Some <==> spill_slots_needed(block@.ops) <= SPILL_SLOTS,
        r matches Some(a) ==> a.assignments@ == allocation_of(block@.ops) && regs_disjoint(block@.ops, a.assignments@)
            && spills_in_area(a.assignments@) && spills_distinct(a.assignments@),
{
    let (alloc, slots) = scan_block(block);
    if slots <= SPILL_SLOTS {
        proof {
            lemma_allocation_facts(block@.ops);
        }
        Some(alloc)
    } else {
        None
    }
}

} // verus!
