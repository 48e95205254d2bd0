//! Block-local optimisation: constant folding with propagation, then dead-code
//! elimination.
use crate::ir::{copy_operands, IrBlock, IrOp, OpView, SideEffects, VOperand, VReg, Width};
use std::collections::{HashMap, HashSet};
use vstd::prelude::*;
use vstd::std_specs::hash::group_hash_axioms;

verus! {

broadcast use group_hash_axioms;

// ---------------------------------------------------------------------------
// Constant folding.
// ---------------------------------------------------------------------------

/// A register operand whose vreg has a known constant becomes that immediate.
pub open spec fn subst_operand(o: VOperand, known: Map<u32, i64>) -> VOperand {
    match o {
        VOperand::Reg(VReg(n)) => if known.contains_key(n) {
            VOperand::Imm(known[n])
        } else {
            o
        },
        VOperand::Imm(_) => o,
    }
}

pub open spec fn subst_all(ops: Seq<VOperand>, known: Map<u32, i64>) -> Seq<VOperand> {
    ops.map_values(|o: VOperand| subst_operand(o, known))
}

/// Every operand position of `op` with known constants substituted.
pub open spec fn subst_op_spec(op: OpView, known: Map<u32, i64>) -> OpView {
    let s = |o: VOperand| subst_operand(o, known);
    match op {
        OpView::Add { dst, a, b, width } => OpView::Add { dst, a: s(a), b: s(b), width },
        OpView::Sub { dst, a, b, width } => OpView::Sub { dst, a: s(a), b: s(b), width },
        OpView::And { dst, a, b, width } => OpView::And { dst, a: s(a), b: s(b), width },
        OpView::Or { dst, a, b, width } => OpView::Or { dst, a: s(a), b: s(b), width },
        OpView::Xor { dst, a, b, width } => OpView::Xor { dst, a: s(a), b: s(b), width },
        OpView::Mul { dst, a, b, width } => OpView::Mul { dst, a: s(a), b: s(b), width },
        OpView::Shl { dst, a, b, width } => OpView::Shl { dst, a: s(a), b: s(b), width },
        OpView::Shr { dst, a, b, width } => OpView::Shr { dst, a: s(a), b: s(b), width },
        OpView::Sar { dst, a, b, width } => OpView::Sar { dst, a: s(a), b: s(b), width },
        OpView::VecAdd { dst, a, b, lanes, width } => OpView::VecAdd { dst, a: s(a), b: s(b), lanes, width },
        OpView::VecMul { dst, a, b, lanes, width } => OpView::VecMul { dst, a: s(a), b: s(b), lanes, width },
        OpView::SetFlags { op, a, b, width } => OpView::SetFlags { op, a: s(a), b: s(b), width },
        OpView::VecFma { dst, a, b, c, lanes } => OpView::VecFma { dst, a: s(a), b: s(b), c: s(c), lanes },
        OpView::Load { dst, addr, width, endian, sign_ext } => OpView::Load {
            dst,
            addr: s(addr),
            width,
            endian,
            sign_ext,
        },
        OpView::Store { addr, val, width, endian } => OpView::Store { addr: s(addr), val: s(val), width, endian },
        OpView::Branch { cond, target, taken_pc, fallthrough_pc } => OpView::Branch {
            cond: match cond {
                Some(c) => Some(s(c)),
                None => None,
            },
            target,
            taken_pc,
            fallthrough_pc,
        },
        OpView::IndirectBranch { target } => OpView::IndirectBranch { target: s(target) },
        OpView::Call { target } => OpView::Call { target: s(target) },
        OpView::Intrinsic { id, effects, operands, dst } => OpView::Intrinsic {
            id,
            effects,
            operands: subst_all(operands, known),
            dst,
        },
        _ => op,
    }
}

/// The constant an arithmetic op with two immediate operands evaluates to:
/// 64-bit wrapping arithmetic, shift amounts taken modulo 64, `Shr` logical.
pub open spec fn fold_spec(op: OpView) -> Option<(u32, i64)> {
    match op {
        OpView::Add { dst, a: VOperand::Imm(x), b: VOperand::Imm(y), .. } => Some(
            (dst.0, vstd::wrapping::i64_specs::wrapping_add(x, y)),
        ),
        OpView::Sub { dst, a: VOperand::Imm(x), b: VOperand::Imm(y), .. } => Some(
            (dst.0, vstd::wrapping::i64_specs::wrapping_sub(x, y)),
        ),
        OpView::And { dst, a: VOperand::Imm(x), b: VOperand::Imm(y), .. } => Some((dst.0, x & y)),
        OpView::Or { dst, a: VOperand::Imm(x), b: VOperand::Imm(y), .. } => Some((dst.0, x | y)),
        OpView::Xor { dst, a: VOperand::Imm(x), b: VOperand::Imm(y), .. } => Some((dst.0, x ^ y)),
        OpView::Mul { dst, a: VOperand::Imm(x), b: VOperand::Imm(y), .. } => Some(
            (dst.0, vstd::wrapping::i64_specs::wrapping_mul(x, y)),
        ),
        OpView::Shl { dst, a: VOperand::Imm(x), b: VOperand::Imm(y), .. } => Some(
            (dst.0, vstd::wrapping::i64_specs::wrapping_shl(x, (y as u32) & 63)),
        ),
        OpView::Shr { dst, a: VOperand::Imm(x), b: VOperand::Imm(y), .. } => Some(
            (dst.0, ((x as u64) >> ((y as u32) & 63)) as i64),
        ),
        OpView::Sar { dst, a: VOperand::Imm(x), b: VOperand::Imm(y), .. } => Some(
            (dst.0, vstd::wrapping::i64_specs::wrapping_shr(x, (y as u32) & 63)),
        ),
        _ => None,
    }
}

/// A folded op becomes `dst = r | 0` at 64 bits.
pub open spec fn folded_op(d: u32, r: i64) -> OpView {
    OpView::Or { dst: VReg(d), a: VOperand::Imm(r), b: VOperand::Imm(0), width: Width::W64 }
}

/// Constant folding over the first `n` ops: the rewritten ops and the constants known after them.
pub open spec fn const_fold_prefix(ops: Seq<OpView>, n: nat) -> (Seq<OpView>, Map<u32, i64>)
    decreases n,
{
    if n == 0 {
        (Seq::empty(), Map::empty())
    } else {
        let (out, known) = const_fold_prefix(ops, (n - 1) as nat);
        let op1 = subst_op_spec(ops[n - 1], known);
        match fold_spec(op1) {
            Some((d, r)) => (out.push(folded_op(d, r)), known.insert(d, r)),
            None => (out.push(op1), known),
        }
    }
}

pub open spec fn const_fold_spec(ops: Seq<OpView>) -> Seq<OpView> {
    const_fold_prefix(ops, ops.len()).0
}

fn subst_operand_exec(o: &mut VOperand, known: &HashMap<u32, i64>)
    ensures
        *final(o) == subst_operand(*old(o), known@),
{
    if let VOperand::Reg(VReg(n)) = *o {
        if let Some(v) = known.get(&n) {
            *o = VOperand::Imm(*v);
        }
    }
}

fn subst_operands_exec(ops: &mut Vec<VOperand>, known: &HashMap<u32, i64>)
    ensures
        final(ops)@ == subst_all(old(ops)@, known@),
{
    let mut i: usize = 0;
    while i < ops.len()
        invariant
            i <= ops.len(),
            ops@.len() == old(ops)@.len(),
            forall|j: int| 0 <= j < i ==> ops@[j] == subst_operand(old(ops)@[j], known@),
            forall|j: int| i <= j < ops@.len() ==> ops@[j] == old(ops)@[j],
        decreases ops.len() - i,
    {
        let mut o = ops[i];
        subst_operand_exec(&mut o, known);
        ops.set(i, o);
        i = i + 1;
    }
    assert(ops@ =~= subst_all(old(ops)@, known@));
}

/// Substitutes known constants into every operand of `op`.
pub fn subst_op(op: &mut IrOp, known: &HashMap<u32, i64>)
    ensures
        final(op)@ == subst_op_spec(old(op)@, known@),
{
    match op {
        IrOp::Add { a, b, .. } => {
            subst_operand_exec(a, known);
            subst_operand_exec(b, known);
        },
        IrOp::Sub { a, b, .. } => {
            subst_operand_exec(a, known);
            subst_operand_exec(b, known);
        },
        IrOp::And { a, b, .. } => {
            subst_operand_exec(a, known);
            subst_operand_exec(b, known);
        },
        IrOp::Or { a, b, .. } => {
            subst_operand_exec(a, known);
            subst_operand_exec(b, known);
        },
        IrOp::Xor { a, b, .. } => {
            subst_operand_exec(a, known);
            subst_operand_exec(b, known);
        },
        IrOp::Mul { a, b, .. } => {
            subst_operand_exec(a, known);
            subst_operand_exec(b, known);
        },
        IrOp::Shl { a, b, .. } => {
            subst_operand_exec(a, known);
            subst_operand_exec(b, known);
        },
        IrOp::Shr { a, b, .. } => {
            subst_operand_exec(a, known);
            subst_operand_exec(b, known);
        },
        IrOp::Sar { a, b, .. } => {
            subst_operand_exec(a, known);
            subst_operand_exec(b, known);
        },
        IrOp::VecAdd { a, b, .. } => {
            subst_operand_exec(a, known);
            subst_operand_exec(b, known);
        },
        IrOp::VecMul { a, b, .. } => {
            subst_operand_exec(a, known);
            subst_operand_exec(b, known);
        },
        IrOp::SetFlags { a, b, .. } => {
            subst_operand_exec(a, known);
            subst_operand_exec(b, known);
        },
        IrOp::VecFma { a, b, c, .. } => {
            subst_operand_exec(a, known);
            subst_operand_exec(b, known);
            subst_operand_exec(c, known);
        },
        IrOp::Load { addr, .. } => subst_operand_exec(addr, known),
        IrOp::Store { addr, val, .. } => {
            subst_operand_exec(addr, known);
            subst_operand_exec(val, known);
        },
        IrOp::Branch { cond: Some(c), .. } => subst_operand_exec(c, known),
        IrOp::IndirectBranch { target } => subst_operand_exec(target, known),
        IrOp::Call { target } => subst_operand_exec(target, known),
        IrOp::Intrinsic { operands, .. } => subst_operands_exec(operands, known),
        _ => {},
    }
}

fn fold_exec(op: &IrOp) -> (r: Option<(u32, i64)>)
    ensures
        r == fold_spec(op@),
{
    match op {
        IrOp::Add { dst, a: VOperand::Imm(x), b: VOperand::Imm(y), .. } => Some((dst.0, x.wrapping_add(*y))),
        IrOp::Sub { dst, a: VOperand::Imm(x), b: VOperand::Imm(y), .. } => Some((dst.0, x.wrapping_sub(*y))),
        IrOp::And { dst, a: VOperand::Imm(x), b: VOperand::Imm(y), .. } => Some((dst.0, *x & *y)),
        IrOp::Or { dst, a: VOperand::Imm(x), b: VOperand::Imm(y), .. } => Some((dst.0, *x | *y)),
        IrOp::Xor { dst, a: VOperand::Imm(x), b: VOperand::Imm(y), .. } => Some((dst.0, *x ^ *y)),
        IrOp::Mul { dst, a: VOperand::Imm(x), b: VOperand::Imm(y), .. } => Some((dst.0, x.wrapping_mul(*y))),
        IrOp::Shl { dst, a: VOperand::Imm(x), b: VOperand::Imm(y), .. } => Some(
            (dst.0, x.wrapping_shl((*y as u32) & 63)),
        ),
        IrOp::Shr { dst, a: VOperand::Imm(x), b: VOperand::Imm(y), .. } => {
            let s: u32 = (*y as u32) & 63;
            assert(s < 64) by (bit_vector)
                requires
                    s == (*y as u32) & 63,
            ;
            Some((dst.0, ((*x as u64) >> s) as i64))
        },
        IrOp::Sar { dst, a: VOperand::Imm(x), b: VOperand::Imm(y), .. } => Some(
            (dst.0, x.wrapping_shr((*y as u32) & 63)),
        ),
        _ => None,
    }
}

/// Constant folding and propagation within the block: known constants are
/// substituted into operands, and arithmetic on two immediates is replaced by
/// `dst = value | 0` whose value is then known for later ops.
pub fn const_fold(block: &mut IrBlock)
    ensures
        final(block)@.ops == const_fold_spec(old(block)@.ops),
        final(block)@.guest_pc == old(block)@.guest_pc,
{
    let ghost orig = block@.ops;
    let mut known: HashMap<u32, i64> = HashMap::new();
    let mut i: usize = 0;
    while i < block.ops.len()
        invariant
            i <= block.ops.len(),
            block.ops@.len() == orig.len(),
            block@.guest_pc == old(block)@.guest_pc,
            orig == old(block)@.ops,
            const_fold_prefix(orig, i as nat).0 == block@.ops.subrange(0, i as int),
            const_fold_prefix(orig, i as nat).1 == known@,
            forall|j: int| i <= j < orig.len() ==> #[trigger] block@.ops[j] == orig[j],
        decreases block.ops.len() - i,
    {
        assert(block@.ops[i as int] == orig[i as int]);
        let ghost before = block.ops@;
        let ghost k0 = known@;
        subst_op(&mut block.ops[i], &known);
        let folded = fold_exec(&block.ops[i]);
        if let Some((d, r)) = folded {
            known.insert(d, r);
            block.ops.set(i, IrOp::Or { dst: VReg(d), a: VOperand::Imm(r), b: VOperand::Imm(0), width: Width::W64 });
        }
        proof {
            let (out, k) = const_fold_prefix(orig, i as nat);
            assert(before.map_values(|o: IrOp| o@)[i as int] == orig[i as int]);
            let op1 = subst_op_spec(orig[i as int], k);
            assert(const_fold_prefix(orig, i as nat + 1).0 =~= block@.ops.subrange(0, i as int + 1)) by {
                assert forall|j: int| 0 <= j < i implies block.ops@[j] == before[j] by {}
                assert forall|j: int| 0 <= j < i implies block@.ops[j] == before[j]@ by {}
                assert(before.map_values(|o: IrOp| o@).subrange(0, i as int) == out);
            }
            assert forall|j: int| i + 1 <= j < orig.len() implies #[trigger] block@.ops[j] == orig[j] by {
                assert(block.ops@[j] == before[j]);
                assert(before.map_values(|o: IrOp| o@)[j] == orig[j]);
            }
        }
        i = i + 1;
    }
    assert(block@.ops.subrange(0, i as int) =~= block@.ops);
}

// ---------------------------------------------------------------------------
// Dead-code elimination.
// ---------------------------------------------------------------------------

/// Ops kept whatever their result: memory writes, flag producers and control flow.
pub open spec fn always_kept(op: OpView) -> bool {
    op is Store || op is SetFlags || op is Branch || op is IndirectBranch || op is Call || op is Return
}

/// Whether the backward liveness pass keeps `op` given the vregs `used` after it.
pub open spec fn live_op(op: OpView, used: Set<u32>) -> bool {
    if always_kept(op) {
        true
    } else {
        match op {
            OpView::Intrinsic { effects, dst, .. } => effects != SideEffects::Pure || match dst {
                Some(d) => used.contains(d.0),
                None => false,
            },
            _ => match op.dst() {
                Some(d) => used.contains(d.0),
                None => false,
            },
        }
    }
}

/// The vreg numbers among a list of operands.
pub open spec fn operand_regs(ops: Seq<VOperand>) -> Set<u32>
    decreases ops.len(),
{
    if ops.len() == 0 {
        Set::empty()
    } else {
        let rest = operand_regs(ops.drop_last());
        match ops.last() {
            VOperand::Reg(VReg(n)) => rest.insert(n),
            VOperand::Imm(_) => rest,
        }
    }
}

/// The registers an op mentions: its operands and its destination.
pub open spec fn mentioned(op: OpView) -> Set<u32> {
    match op.dst() {
        Some(d) => operand_regs(op.operands()).insert(d.0),
        None => operand_regs(op.operands()),
    }
}

/// The vregs the backward pass records as used, scanning the ops from the
/// end down to index `n`.
pub open spec fn used_from(ops: Seq<OpView>, n: nat) -> Set<u32>
    decreases ops.len() - n,
{
    if n >= ops.len() {
        Set::empty()
    } else {
        let after = used_from(ops, n + 1);
        if live_op(ops[n as int], after) {
            after.union(mentioned(ops[n as int]))
        } else {
            after
        }
    }
}

/// Whether the final filter retains `op`, given every vreg recorded as used.
pub open spec fn retained(op: OpView, used: Set<u32>) -> bool {
    if always_kept(op) {
        true
    } else {
        match op {
            OpView::Intrinsic { effects, dst, .. } => effects != SideEffects::Pure || match dst {
                Some(d) => used.contains(d.0),
                None => true,
            },
            _ => match op.dst() {
                Some(d) => used.contains(d.0),
                None => true,
            },
        }
    }
}

/// The first `n` ops, keeping those `retained` under `used`.
pub open spec fn retain_prefix(ops: Seq<OpView>, used: Set<u32>, n: nat) -> Seq<OpView>
    decreases n,
{
    if n == 0 {
        Seq::empty()
    } else {
        let out = retain_prefix(ops, used, (n - 1) as nat);
        if retained(ops[n - 1], used) {
            out.push(ops[n - 1])
        } else {
            out
        }
    }
}

pub open spec fn dead_code_spec(ops: Seq<OpView>) -> Seq<OpView> {
    retain_prefix(ops, used_from(ops, 0), ops.len())
}

impl IrOp {
    /// A copy of the op.
    pub fn copy_op(&self) -> (r: IrOp)
        ensures
            r@ == self@,
    {
        match self {
            IrOp::Intrinsic { id, effects, operands, dst } => IrOp::Intrinsic {
                id: *id,
                effects: *effects,
                operands: copy_operands(operands),
                dst: *dst,
            },
            IrOp::Add { dst, a, b, width } => IrOp::Add { dst: *dst, a: *a, b: *b, width: *width },
            IrOp::Sub { dst, a, b, width } => IrOp::Sub { dst: *dst, a: *a, b: *b, width: *width },
            IrOp::And { dst, a, b, width } => IrOp::And { dst: *dst, a: *a, b: *b, width: *width },
            IrOp::Or { dst, a, b, width } => IrOp::Or { dst: *dst, a: *a, b: *b, width: *width },
            IrOp::Xor { dst, a, b, width } => IrOp::Xor { dst: *dst, a: *a, b: *b, width: *width },
            IrOp::Mul { dst, a, b, width } => IrOp::Mul { dst: *dst, a: *a, b: *b, width: *width },
            IrOp::Shl { dst, a, b, width } => IrOp::Shl { dst: *dst, a: *a, b: *b, width: *width },
            IrOp::Shr { dst, a, b, width } => IrOp::Shr { dst: *dst, a: *a, b: *b, width: *width },
            IrOp::Sar { dst, a, b, width } => IrOp::Sar { dst: *dst, a: *a, b: *b, width: *width },
            IrOp::Load { dst, addr, width, endian, sign_ext } => IrOp::Load {
                dst: *dst,
                addr: *addr,
                width: *width,
                endian: *endian,
                sign_ext: *sign_ext,
            },
            IrOp::Store { addr, val, width, endian } => IrOp::Store {
                addr: *addr,
                val: *val,
                width: *width,
                endian: *endian,
            },
            IrOp::SetFlags { op, a, b, width } => IrOp::SetFlags { op: *op, a: *a, b: *b, width: *width },
            IrOp::ReadFlag { dst, flag } => IrOp::ReadFlag { dst: *dst, flag: *flag },
            IrOp::Branch { cond, target, taken_pc, fallthrough_pc } => IrOp::Branch {
                cond: *cond,
                target: *target,
                taken_pc: *taken_pc,
                fallthrough_pc: *fallthrough_pc,
            },
            IrOp::IndirectBranch { target } => IrOp::IndirectBranch { target: *target },
            IrOp::Call { target } => IrOp::Call { target: *target },
            IrOp::Return => IrOp::Return,
            IrOp::VecAdd { dst, a, b, lanes, width } => IrOp::VecAdd {
                dst: *dst,
                a: *a,
                b: *b,
                lanes: *lanes,
                width: *width,
            },
            IrOp::VecMul { dst, a, b, lanes, width } => IrOp::VecMul {
                dst: *dst,
                a: *a,
                b: *b,
                lanes: *lanes,
                width: *width,
            },
            IrOp::VecFma { dst, a, b, c, lanes } => IrOp::VecFma {
                dst: *dst,
                a: *a,
                b: *b,
                c: *c,
                lanes: *lanes,
            },
        }
    }
}

fn is_always_kept(op: &IrOp) -> (r: bool)
    ensures
        r == always_kept(op@),
{
    match op {
        IrOp::Store { .. } | IrOp::SetFlags { .. } | IrOp::Branch { .. } | IrOp::IndirectBranch { .. }
        | IrOp::Call { .. } | IrOp::Return => true,
        _ => false,
    }
}

fn dst_used(dst: Option<VReg>, used: &HashSet<u32>, absent: bool) -> (r: bool)
    ensures
        r == match dst {
            Some(d) => used@.contains(d.0),
            None => absent,
        },
{
    match dst {
        Some(d) => used.contains(&d.0),
        None => absent,
    }
}

fn is_live(op: &IrOp, used: &HashSet<u32>) -> (r: bool)
    ensures
        r == live_op(op@, used@),
{
    if is_always_kept(op) {
        return true;
    }
    match op {
        IrOp::Intrinsic { effects, dst, .. } => !matches!(effects, SideEffects::Pure) || dst_used(*dst, used, false),
        _ => dst_used(op.dst(), used, false),
    }
}

fn is_retained(op: &IrOp, used: &HashSet<u32>) -> (r: bool)
    ensures
        r == retained(op@, used@),
{
    if is_always_kept(op) {
        return true;
    }
    match op {
        IrOp::Intrinsic { effects, dst, .. } => !matches!(effects, SideEffects::Pure) || dst_used(*dst, used, true),
        _ => dst_used(op.dst(), used, true),
    }
}

fn mark_mentioned(op: &IrOp, used: &mut HashSet<u32>)
    ensures
        final(used)@ == old(used)@.union(mentioned(op@)),
{
    let ops = op.operands();
    let mut j: usize = 0;
    while j < ops.len()
        invariant
            j <= ops.len(),
            ops@ == op@.operands(),
            used@ == old(used)@.union(operand_regs(ops@.subrange(0, j as int))),
        decreases ops.len() - j,
    {
        let ghost prev = used@;
        if let VOperand::Reg(VReg(n)) = ops[j] {
            used.insert(n);
        }
        proof {
            assert(ops@.subrange(0, j as int + 1).drop_last() =~= ops@.subrange(0, j as int));
            assert(used@ =~= old(used)@.union(operand_regs(ops@.subrange(0, j as int + 1))));
        }
        j = j + 1;
    }
    assert(ops@.subrange(0, ops@.len() as int) =~= ops@);
    if let Some(d) = op.dst() {
        used.insert(d.0);
    }
    assert(final(used)@ =~= old(used)@.union(mentioned(op@)));
}

/// Removes ops whose result no kept op reads. Memory writes, flag producers,
/// control flow and non-pure intrinsics always stay.
pub fn dead_code_elim(block: &mut IrBlock)
    ensures
        final(block)@.ops == dead_code_spec(old(block)@.ops),
        final(block)@.guest_pc == old(block)@.guest_pc,
{
    let ghost ops = block@.ops;
    let mut used: HashSet<u32> = HashSet::new();
    let mut i: usize = block.ops.len();
    while i > 0
        invariant
            i <= block.ops.len(),
            ops == block@.ops,
            used@ == used_from(ops, i as nat),
        decreases i,
    {
        i = i - 1;
        assert(block.ops@[i as int]@ == ops[i as int]);
        if is_live(&block.ops[i], &used) {
            mark_mentioned(&block.ops[i], &mut used);
        }
    }
    let mut kept: Vec<IrOp> = Vec::new();
    let mut k: usize = 0;
    while k < block.ops.len()
        invariant
            k <= block.ops.len(),
            ops == block@.ops,
            used@ == used_from(ops, 0),
            kept@.map_values(|o: IrOp| o@) == retain_prefix(ops, used@, k as nat),
        decreases block.ops.len() - k,
    {
        assert(block.ops@[k as int]@ == ops[k as int]);
        if is_retained(&block.ops[k], &used) {
            let c = block.ops[k].copy_op();
            kept.push(c);
            assert(kept@.map_values(|o: IrOp| o@) =~= retain_prefix(ops, used@, k as nat + 1));
        }
        k = k + 1;
    }
    block.ops = kept;
}

// ---------------------------------------------------------------------------
// Laws.
// ---------------------------------------------------------------------------

proof fn lemma_subst_keeps_dst(op: OpView, known: Map<u32, i64>)
    ensures
        subst_op_spec(op, known).dst() == op.dst(),
        fold_spec(subst_op_spec(op, known)) matches Some((d, r)) ==> op.dst() == Some(VReg(d)),
{
}

proof fn lemma_const_fold_prefix_shape(ops: Seq<OpView>, n: nat)
    requires
        n <= ops.len(),
    ensures
        const_fold_prefix(ops, n).0.len() == n,
        forall|i: int| 0 <= i < n ==> (#[trigger] const_fold_prefix(ops, n).0[i]).dst() == ops[i].dst(),
    decreases n,
{
    if n > 0 {
        lemma_const_fold_prefix_shape(ops, (n - 1) as nat);
        let (out, known) = const_fold_prefix(ops, (n - 1) as nat);
        lemma_subst_keeps_dst(ops[n - 1], known);
    }
}

/// Constant folding keeps the shape of the block: the same number of ops, and
/// each op still defines the vreg it defined before.
pub proof fn lemma_const_fold_keeps_shape(ops: Seq<OpView>)
    ensures
        const_fold_spec(ops).len() == ops.len(),
        forall|i: int| 0 <= i < ops.len() ==> (#[trigger] const_fold_spec(ops)[i]).dst() == ops[i].dst(),
{
    lemma_const_fold_prefix_shape(ops, ops.len());
}

/// Ops with an effect beyond their result: memory writes, flags, control flow and
/// non-pure intrinsics.
pub open spec fn effectful(op: OpView) -> bool {
    always_kept(op) || (op matches OpView::Intrinsic { effects, .. } && effects != SideEffects::Pure)
}

/// The effectful ops among the first `n`, in order.
pub open spec fn effects_prefix(ops: Seq<OpView>, n: nat) -> Seq<OpView>
    decreases n,
{
    if n == 0 {
        Seq::empty()
    } else {
        let e = effects_prefix(ops, (n - 1) as nat);
        if effectful(ops[n - 1]) {
            e.push(ops[n - 1])
        } else {
            e
        }
    }
}

pub open spec fn effects_of(ops: Seq<OpView>) -> Seq<OpView> {
    effects_prefix(ops, ops.len())
}

proof fn lemma_effects_prefix_extend(s: Seq<OpView>, x: OpView, k: nat)
    requires
        k <= s.len(),
    ensures
        effects_prefix(s.push(x), k) == effects_prefix(s, k),
    decreases k,
{
    if k > 0 {
        lemma_effects_prefix_extend(s, x, (k - 1) as nat);
        assert(s.push(x)[k - 1] == s[k - 1]);
    }
}

proof fn lemma_retain_keeps_effects(ops: Seq<OpView>, used: Set<u32>, n: nat)
    requires
        n <= ops.len(),
    ensures
        effects_of(retain_prefix(ops, used, n)) == effects_prefix(ops, n),
    decreases n,
{
    if n > 0 {
        lemma_retain_keeps_effects(ops, used, (n - 1) as nat);
        let out = retain_prefix(ops, used, (n - 1) as nat);
        let x = ops[n - 1];
        if retained(x, used) {
            lemma_effects_prefix_extend(out, x, out.len());
            assert(out.push(x)[out.len() as int] == x);
        }
    }
}

/// Dead-code elimination keeps every effectful op, in order: the sequence of
/// memory writes, flag producers, control transfers and non-pure intrinsics of
/// the block is unchanged.
pub proof fn lemma_dead_code_keeps_effects(ops: Seq<OpView>)
    ensures
        effects_of(dead_code_spec(ops)) == effects_of(ops),
{
    lemma_retain_keeps_effects(ops, used_from(ops, 0), ops.len());
}

/// Constant folding, then dead-code elimination.
pub fn run_all(block: &mut IrBlock)
    ensures
        final(block)@.ops == dead_code_spec(const_fold_spec(old(block)@.ops)),
        final(block)@.guest_pc == old(block)@.guest_pc,
{
    const_fold(block);
    dead_code_elim(block);
}

// ---------------------------------------------------------------------------
// What folding computes.
// ---------------------------------------------------------------------------

/// `a` and `b` agree modulo 2^64.
pub open spec fn same_mod_2_64(a: int, b: int) -> bool {
    (a - b) % 0x1_0000_0000_0000_0000 == 0
}

/// An arithmetic op whose two operands are both immediates.
pub open spec fn imm_arith(op: OpView) -> bool {
    match op {
        OpView::Add { a: VOperand::Imm(_), b: VOperand::Imm(_), .. } | OpView::Sub {
            a: VOperand::Imm(_),
            b: VOperand::Imm(_),
            ..
        } | OpView::And { a: VOperand::Imm(_), b: VOperand::Imm(_), .. } | OpView::Or {
            a: VOperand::Imm(_),
            b: VOperand::Imm(_),
            ..
        } | OpView::Xor { a: VOperand::Imm(_), b: VOperand::Imm(_), .. } | OpView::Mul {
            a: VOperand::Imm(_),
            b: VOperand::Imm(_),
            ..
        } | OpView::Shl { a: VOperand::Imm(_), b: VOperand::Imm(_), .. } | OpView::Shr {
            a: VOperand::Imm(_),
            b: VOperand::Imm(_),
            ..
        } | OpView::Sar { a: VOperand::Imm(_), b: VOperand::Imm(_), .. } => true,
        _ => false,
    }
}

/// What an arithmetic op on immediates `x` and `y` evaluates to, as a property
/// of its result `r`: a sum, difference or product agrees with the exact value
/// modulo 2^64; `and`, `or` and `xor` are the bitwise operations; a shift by an
/// amount below 64 shifts `x` by that amount, `Shr` on its unsigned bit pattern.
pub open spec fn evaluates_to(op: OpView, r: i64) -> bool {
    match op {
        OpView::Add { a: VOperand::Imm(x), b: VOperand::Imm(y), .. } => same_mod_2_64(r as int, x + y),
        OpView::Sub { a: VOperand::Imm(x), b: VOperand::Imm(y), .. } => same_mod_2_64(r as int, x - y),
        OpView::Mul { a: VOperand::Imm(x), b: VOperand::Imm(y), .. } => same_mod_2_64(r as int, x * y),
        OpView::And { a: VOperand::Imm(x), b: VOperand::Imm(y), .. } => r == x & y,
        OpView::Or { a: VOperand::Imm(x), b: VOperand::Imm(y), .. } => r == x | y,
        OpView::Xor { a: VOperand::Imm(x), b: VOperand::Imm(y), .. } => r == x ^ y,
        OpView::Shl { a: VOperand::Imm(x), b: VOperand::Imm(y), .. } => 0 <= y < 64 ==> r == x << (y as u32),
        OpView::Shr { a: VOperand::Imm(x), b: VOperand::Imm(y), .. } => 0 <= y < 64 ==> r as u64 == (x as u64) >> (
        y as u32),
        OpView::Sar { a: VOperand::Imm(x), b: VOperand::Imm(y), .. } => 0 <= y < 64 ==> r == x >> (y as u32),
        _ => false,
    }
}

proof fn lemma_fold_value(op: OpView)
    requires
        imm_arith(op),
    ensures
        fold_spec(op) matches Some((d, r)) && op.dst() == Some(VReg(d)) && evaluates_to(op, r),
{
    let m: int = 0x1_0000_0000_0000_0000;
    match op {
        OpView::Mul { a: VOperand::Imm(x), b: VOperand::Imm(y), .. } => {
            let p = x * y;
            vstd::arithmetic::div_mod::lemma_fundamental_div_mod(p, m);
            let r = vstd::wrapping::i64_specs::wrapping_mul(x, y);
            let k = p / m;
            if p % m > i64::MAX {
                assert(r as int - p == (-k - 1) * m);
                vstd::arithmetic::div_mod::lemma_mod_multiples_basic(-k - 1, m);
            } else {
                assert(r as int - p == (-k) * m);
                vstd::arithmetic::div_mod::lemma_mod_multiples_basic(-k, m);
            }
        },
        OpView::Shl { a: VOperand::Imm(x), b: VOperand::Imm(y), .. } => {
            assert(0 <= y < 64 ==> vstd::wrapping::i64_specs::wrapping_shl(x, (y as u32) & 63) == x << (y as u32))
                by (bit_vector);
        },
        OpView::Shr { a: VOperand::Imm(x), b: VOperand::Imm(y), .. } => {
            assert(0 <= y < 64 ==> (((x as u64) >> ((y as u32) & 63)) as i64) as u64 == (x as u64) >> (y as u32))
                by (bit_vector);
        },
        OpView::Sar { a: VOperand::Imm(x), b: VOperand::Imm(y), .. } => {
            assert(0 <= y < 64 ==> vstd::wrapping::i64_specs::wrapping_shr(x, (y as u32) & 63) == x >> (y as u32))
                by (bit_vector);
        },
        _ => {},
    }
}

proof fn lemma_const_fold_prefix_stable(ops: Seq<OpView>, n: nat, i: int)
    requires
        0 <= i < n <= ops.len(),
    ensures
        const_fold_prefix(ops, n).0[i] == const_fold_prefix(ops, (i + 1) as nat).0[i],
    decreases n,
{
    lemma_const_fold_prefix_shape(ops, n);
    if n > i + 1 {
        lemma_const_fold_prefix_stable(ops, (n - 1) as nat, i);
        lemma_const_fold_prefix_shape(ops, (n - 1) as nat);
    }
}

/// Folding replaces an arithmetic op on two immediates by `dst = r | 0` at 64
/// bits, where `r` is what the op evaluates to (`evaluates_to`).
pub proof fn lemma_fold_evaluates(ops: Seq<OpView>, i: int)
    requires
        0 <= i < ops.len(),
        imm_arith(ops[i]),
    ensures
        const_fold_spec(ops)[i] matches OpView::Or { dst, a: VOperand::Imm(r), b: VOperand::Imm(z), width }
            && ops[i].dst() == Some(dst) && z == 0 && width == Width::W64 && evaluates_to(ops[i], r),
{
    lemma_const_fold_prefix_stable(ops, ops.len(), i);
    lemma_const_fold_prefix_shape(ops, i as nat);
    let known = const_fold_prefix(ops, i as nat).1;
    assert(subst_op_spec(ops[i], known) == ops[i]);
    lemma_fold_value(ops[i]);
}

/// `op` with its first operand replaced by the immediate `x`.
pub open spec fn with_first_imm(op: OpView, x: i64) -> OpView {
    let c = VOperand::Imm(x);
    match op {
        OpView::Add { dst, b, width, .. } => OpView::Add { dst, a: c, b, width },
        OpView::Sub { dst, b, width, .. } => OpView::Sub { dst, a: c, b, width },
        OpView::And { dst, b, width, .. } => OpView::And { dst, a: c, b, width },
        OpView::Or { dst, b, width, .. } => OpView::Or { dst, a: c, b, width },
        OpView::Xor { dst, b, width, .. } => OpView::Xor { dst, a: c, b, width },
        OpView::Mul { dst, b, width, .. } => OpView::Mul { dst, a: c, b, width },
        OpView::Shl { dst, b, width, .. } => OpView::Shl { dst, a: c, b, width },
        OpView::Shr { dst, b, width, .. } => OpView::Shr { dst, a: c, b, width },
        OpView::Sar { dst, b, width, .. } => OpView::Sar { dst, a: c, b, width },
        _ => op,
    }
}

proof fn lemma_known_after_fold(ops: Seq<OpView>, i: int, n: nat, d: u32, r: i64)
    requires
        0 <= i < n <= ops.len(),
        imm_arith(ops[i]),
        ops[i].dst() == Some(VReg(d)),
        const_fold_spec(ops)[i] == (OpView::Or { dst: VReg(d), a: VOperand::Imm(r), b: VOperand::Imm(0), width: Width::W64 }),
        forall|k: int| i < k < n ==> (#[trigger] ops[k]).dst() != Some(VReg(d)),
    ensures
        const_fold_prefix(ops, n).1.contains_key(d),
        const_fold_prefix(ops, n).1[d] == r,
    decreases n,
{
    lemma_const_fold_prefix_stable(ops, ops.len(), i);
    if n == i + 1 {
        let known = const_fold_prefix(ops, i as nat).1;
        assert(subst_op_spec(ops[i], known) == ops[i]);
        lemma_fold_value(ops[i]);
        lemma_const_fold_prefix_shape(ops, n);
    } else {
        lemma_known_after_fold(ops, i, (n - 1) as nat, d, r);
        let known = const_fold_prefix(ops, (n - 1) as nat).1;
        lemma_subst_keeps_dst(ops[n - 1], known);
    }
}

/// Folding propagates: when an op on two immediates folds to `r` and its
/// destination is not defined again before a later arithmetic op whose first
/// operand is that destination and whose second is an immediate, the later op
/// folds too, to what it evaluates to with `r` in place of its first operand.
pub proof fn lemma_fold_propagates(ops: Seq<OpView>, i: int, j: int)
    requires
        0 <= i < j < ops.len(),
        imm_arith(ops[i]),
        ops[i].dst() is Some,
        forall|k: int| i < k < j ==> (#[trigger] ops[k]).dst() != ops[i].dst(),
        imm_arith(with_first_imm(ops[j], 0)),
        ops[j].operands()[0] == VOperand::Reg(ops[i].dst()->0),
    ensures
        const_fold_spec(ops)[i] matches OpView::Or { a: VOperand::Imm(r), .. } && const_fold_spec(ops)[j] matches OpView::Or {
            dst,
            a: VOperand::Imm(r2),
            b: VOperand::Imm(z),
            width,
        } && ops[j].dst() == Some(dst) && z == 0 && width == Width::W64 && evaluates_to(with_first_imm(ops[j], r), r2),
{
    let dv = ops[i].dst()->0;
    let d = dv.0;
    lemma_fold_evaluates(ops, i);
    let r = const_fold_spec(ops)[i]->Or_a->Imm_0;
    lemma_known_after_fold(ops, i, j as nat, d, r);
    lemma_const_fold_prefix_stable(ops, ops.len(), j);
    lemma_const_fold_prefix_shape(ops, j as nat);
    let known = const_fold_prefix(ops, j as nat).1;
    assert(subst_op_spec(ops[j], known) == with_first_imm(ops[j], r));
    lemma_fold_value(with_first_imm(ops[j], r));
}

} // verus!
