//! Marshalling of IR blocks and allocations into the flat layout the native
//! emitter reads.
use crate::ffi::{
    CAllocEntry, CEndian, CFlagKind, CFlagOp, CIrOp, CIrOpKind, CJitStatus, COperand, COperandKind, CPatchSite,
    CWidth, CIR_MAX_OPERANDS,
};
use crate::ir::{Endian, FlagKind, FlagOp, IrBlock, IrOp, OpView, VOperand, Width};
use crate::regalloc::{location_to_c_spec, Allocation};
use vstd::prelude::*;

verus! {

/// A block of emitted host code: its address as an integer, its length in
/// bytes and its patchable exits.
#[derive(Clone, Debug)]
pub struct CompiledBlock {
    pub code_ptr: usize,
    pub code_len: usize,
    pub patchable_exits: Vec<CPatchSite>,
}

pub open spec fn c_width(w: Width) -> CWidth {
    match w {
        Width::W8 => CWidth::W8,
        Width::W16 => CWidth::W16,
        Width::W32 => CWidth::W32,
        Width::W64 => CWidth::W64,
        Width::W128 => CWidth::W128,
    }
}

pub open spec fn c_endian(e: Endian) -> CEndian {
    match e {
        Endian::Little => CEndian::Little,
        Endian::Big => CEndian::Big,
    }
}

pub open spec fn c_operand(o: VOperand) -> COperand {
    match o {
        VOperand::Reg(v) => COperand { kind: COperandKind::Reg, reg: v.0, imm: 0 },
        VOperand::Imm(i) => COperand { kind: COperandKind::Imm, reg: 0, imm: i },
    }
}

pub open spec fn unused_operand() -> COperand {
    COperand { kind: COperandKind::Imm, reg: 0, imm: 0 }
}

/// The operands the flat op carries: a branch carries its condition (if any)
/// followed by its taken and fall-through pcs; every other op its operands.
pub open spec fn c_operands(op: OpView) -> Seq<VOperand> {
    match op {
        OpView::Branch { cond, taken_pc, fallthrough_pc, .. } => match cond {
            Some(c) => seq![c, VOperand::Imm(taken_pc as i64), VOperand::Imm(fallthrough_pc as i64)],
            None => seq![VOperand::Imm(taken_pc as i64), VOperand::Imm(fallthrough_pc as i64)],
        },
        _ => op.operands(),
    }
}

pub open spec fn c_kind(op: OpView) -> CIrOpKind {
    match op {
        OpView::Add { .. } => CIrOpKind::Add,
        OpView::Sub { .. } => CIrOpKind::Sub,
        OpView::And { .. } => CIrOpKind::And,
        OpView::Or { .. } => CIrOpKind::Or,
        OpView::Xor { .. } => CIrOpKind::Xor,
        OpView::Mul { .. } => CIrOpKind::Mul,
        OpView::Shl { .. } => CIrOpKind::Shl,
        OpView::Shr { .. } => CIrOpKind::Shr,
        OpView::Sar { .. } => CIrOpKind::Sar,
        OpView::Load { .. } => CIrOpKind::Load,
        OpView::Store { .. } => CIrOpKind::Store,
        OpView::SetFlags { .. } => CIrOpKind::SetFlags,
        OpView::ReadFlag { .. } => CIrOpKind::ReadFlag,
        OpView::Branch { .. } => CIrOpKind::Branch,
        OpView::IndirectBranch { .. } => CIrOpKind::IndirectBranch,
        OpView::Call { .. } => CIrOpKind::Call,
        OpView::Return => CIrOpKind::Return,
        OpView::VecAdd { .. } => CIrOpKind::VecAdd,
        OpView::VecMul { .. } => CIrOpKind::VecMul,
        OpView::VecFma { .. } => CIrOpKind::VecFma,
        OpView::Intrinsic { .. } => CIrOpKind::Intrinsic,
    }
}

/// The width field: the op's width where it has one, else 32 bits.
pub open spec fn c_op_width(op: OpView) -> CWidth {
    match op {
        OpView::Add { width, .. } | OpView::Sub { width, .. } | OpView::And { width, .. } | OpView::Or { width, .. }
        | OpView::Xor { width, .. } | OpView::Mul { width, .. } | OpView::Shl { width, .. } | OpView::Shr {
            width,
            ..
        } | OpView::Sar { width, .. } | OpView::Load { width, .. } | OpView::Store { width, .. }
        | OpView::SetFlags { width, .. } | OpView::VecAdd { width, .. } | OpView::VecMul { width, .. } => c_width(
            width,
        ),
        _ => CWidth::W32,
    }
}

pub open spec fn c_op_endian(op: OpView) -> CEndian {
    match op {
        OpView::Load { endian, .. } | OpView::Store { endian, .. } => c_endian(endian),
        _ => CEndian::Little,
    }
}

pub open spec fn c_flag_op(op: OpView) -> CFlagOp {
    match op {
        OpView::SetFlags { op: f, .. } => match f {
            FlagOp::AddOp => CFlagOp::AddOp,
            FlagOp::SubOp => CFlagOp::SubOp,
            FlagOp::AndOp => CFlagOp::AndOp,
            FlagOp::OrOp => CFlagOp::OrOp,
            FlagOp::XorOp => CFlagOp::XorOp,
            FlagOp::TestOp => CFlagOp::TestOp,
        },
        _ => CFlagOp::AddOp,
    }
}

pub open spec fn c_flag_kind(op: OpView) -> CFlagKind {
    match op {
        OpView::ReadFlag { flag, .. } => match flag {
            FlagKind::Zero => CFlagKind::Zero,
            FlagKind::Carry => CFlagKind::Carry,
            FlagKind::Overflow => CFlagKind::Overflow,
            FlagKind::Negative => CFlagKind::Negative,
        },
        _ => CFlagKind::Zero,
    }
}

pub open spec fn c_lanes(op: OpView) -> u8 {
    match op {
        OpView::VecAdd { lanes, .. } | OpView::VecMul { lanes, .. } | OpView::VecFma { lanes, .. } => lanes,
        _ => 0,
    }
}

/// `c` is the flat form of `op`: every field as the op gives it, the operands
/// in the first slots and unused slots zeroed.
pub open spec fn is_c_op(op: OpView, c: CIrOp) -> bool {
    let ops = c_operands(op);
    &&& c.kind == c_kind(op)
    &&& c.width == c_op_width(op)
    &&& c.endian == c_op_endian(op)
    &&& c.sign_ext == (if op matches OpView::Load { sign_ext: true, .. } { 1u8 } else { 0u8 })
    &&& c.dst_valid == (if op.dst() is Some { 1u8 } else { 0u8 })
    &&& c.dst == (match op.dst() {
        Some(d) => d.0,
        None => 0,
    })
    &&& c.num_operands == ops.len()
    &&& forall|i: int| 0 <= i < ops.len() ==> c.operands@[i] == c_operand(ops[i])
    &&& forall|i: int| ops.len() <= i < CIR_MAX_OPERANDS ==> c.operands@[i] == unused_operand()
    &&& c.flag_op == c_flag_op(op)
    &&& c.flag_kind == c_flag_kind(op)
    &&& c.intrinsic_id == (match op {
        OpView::Intrinsic { id, .. } => id.0,
        _ => 0,
    })
    &&& c.lanes == c_lanes(op)
}

pub fn to_c_width(w: Width) -> (r: CWidth)
    ensures
        r == c_width(w),
{
    match w {
        Width::W8 => CWidth::W8,
        Width::W16 => CWidth::W16,
        Width::W32 => CWidth::W32,
        Width::W64 => CWidth::W64,
        Width::W128 => CWidth::W128,
    }
}

pub fn to_c_endian(e: Endian) -> (r: CEndian)
    ensures
        r == c_endian(e),
{
    match e {
        Endian::Little => CEndian::Little,
        Endian::Big => CEndian::Big,
    }
}

pub fn empty_ops() -> (r: [COperand; 8])
    ensures
        forall|i: int| 0 <= i < 8 ==> r@[i] == unused_operand(),
{
    [COperand { kind: COperandKind::Imm, reg: 0, imm: 0 }; 8]
}

/// Appends `op` at slot `n`, or fails when all slots are taken.
pub fn push_op(arr: &mut [COperand; 8], n: &mut u32, op: VOperand) -> (r: Result<(), CJitStatus>)
    ensures
        *old(n) < 8 ==> r is Ok && *final(n) == *old(n) + 1 && final(arr)@ == old(arr)@.update(
            *old(n) as int,
            c_operand(op),
        ),
        *old(n) >= 8 ==> r == Err::<(), CJitStatus>(CJitStatus::IntrinsicOverflow) && *final(n) == *old(n) && final(arr)@
            == old(arr)@,
{
    if *n as usize >= CIR_MAX_OPERANDS {
        return Err(CJitStatus::IntrinsicOverflow);
    }
    arr[*n as usize] = match op {
        VOperand::Reg(v) => COperand { kind: COperandKind::Reg, reg: v.0, imm: 0 },
        VOperand::Imm(i) => COperand { kind: COperandKind::Imm, reg: 0, imm: i },
    };
    *n = *n + 1;
    Ok(())
}

/// Pushes `ops` in order, failing as soon as a ninth operand arrives.
fn push_all(arr: &mut [COperand; 8], n: &mut u32, ops: &Vec<VOperand>) -> (r: Result<(), CJitStatus>)
    requires
        *old(n) == 0,
        forall|i: int| 0 <= i < 8 ==> old(arr)@[i] == unused_operand(),
    ensures
        ops@.len() <= 8 ==> r is Ok && *final(n) == ops@.len() && (forall|i: int|
            0 <= i < ops@.len() ==> final(arr)@[i] == c_operand(ops@[i])) && (forall|i: int|
            ops@.len() <= i < 8 ==> final(arr)@[i] == unused_operand()),
        ops@.len() > 8 ==> r == Err::<(), CJitStatus>(CJitStatus::IntrinsicOverflow),
{
    let mut i: usize = 0;
    while i < ops.len()
        invariant
            i <= ops.len(),
            i <= 8,
            *n == i,
            forall|j: int| 0 <= j < i ==> arr@[j] == c_operand(ops@[j]),
            forall|j: int| i <= j < 8 ==> arr@[j] == unused_operand(),
        decreases ops.len() - i,
    {
        let res = push_op(arr, n, ops[i]);
        if res.is_err() {
            return res;
        }
        i = i + 1;
    }
    Ok(())
}

/// Flattens one op. Fails only for an op with more operands than the layout holds.
pub fn to_c_op(op: &IrOp) -> (r: Result<CIrOp, CJitStatus>)
    ensures
        c_operands(op@).len() <= 8 ==> (r matches Ok(c) && is_c_op(op@, c)),
        c_operands(op@).len() > 8 ==> r == Err::<CIrOp, CJitStatus>(CJitStatus::IntrinsicOverflow),
{
    let mut operands = empty_ops();
    let mut num: u32 = 0;
    let mut kind = CIrOpKind::Add;
    let mut width = CWidth::W32;
    let mut endian = CEndian::Little;
    let mut sign_ext: u8 = 0;
    let mut dst_valid: u8 = 0;
    let mut dst: u32 = 0;
    let mut flag_op = CFlagOp::AddOp;
    let mut flag_kind = CFlagKind::Zero;
    let mut intrinsic_id: u32 = 0;
    let mut lanes: u8 = 0;
    let list: Vec<VOperand> = match op {
        IrOp::Branch { cond, taken_pc, fallthrough_pc, .. } => match cond {
            Some(c) => vec![*c, VOperand::Imm(*taken_pc as i64), VOperand::Imm(*fallthrough_pc as i64)],
            None => vec![VOperand::Imm(*taken_pc as i64), VOperand::Imm(*fallthrough_pc as i64)],
        },
        _ => op.operands(),
    };
    assert(list@ =~= c_operands(op@));
    let res = push_all(&mut operands, &mut num, &list);
    if res.is_err() {
        return Err(CJitStatus::IntrinsicOverflow);
    }
    match op {
        IrOp::Add { dst: d, width: w, .. } => {
            kind = CIrOpKind::Add;
            width = to_c_width(*w);
            dst_valid = 1;
            dst = d.0;
        },
        IrOp::Sub { dst: d, width: w, .. } => {
            kind = CIrOpKind::Sub;
            width = to_c_width(*w);
            dst_valid = 1;
            dst = d.0;
        },
        IrOp::And { dst: d, width: w, .. } => {
            kind = CIrOpKind::And;
            width = to_c_width(*w);
            dst_valid = 1;
            dst = d.0;
        },
        IrOp::Or { dst: d, width: w, .. } => {
            kind = CIrOpKind::Or;
            width = to_c_width(*w);
            dst_valid = 1;
            dst = d.0;
        },
        IrOp::Xor { dst: d, width: w, .. } => {
            kind = CIrOpKind::Xor;
            width = to_c_width(*w);
            dst_valid = 1;
            dst = d.0;
        },
        IrOp::Mul { dst: d, width: w, .. } => {
            kind = CIrOpKind::Mul;
            width = to_c_width(*w);
            dst_valid = 1;
            dst = d.0;
        },
        IrOp::Shl { dst: d, width: w, .. } => {
            kind = CIrOpKind::Shl;
            width = to_c_width(*w);
            dst_valid = 1;
            dst = d.0;
        },
        IrOp::Shr { dst: d, width: w, .. } => {
            kind = CIrOpKind::Shr;
            width = to_c_width(*w);
            dst_valid = 1;
            dst = d.0;
        },
        IrOp::Sar { dst: d, width: w, .. } => {
            kind = CIrOpKind::Sar;
            width = to_c_width(*w);
            dst_valid = 1;
            dst = d.0;
        },
        IrOp::Load { dst: d, width: w, endian: e, sign_ext: sx, .. } => {
            kind = CIrOpKind::Load;
            width = to_c_width(*w);
            endian = to_c_endian(*e);
            sign_ext = if *sx {
                1
            } else {
                0
            };
            dst_valid = 1;
            dst = d.0;
        },
        IrOp::Store { width: w, endian: e, .. } => {
            kind = CIrOpKind::Store;
            width = to_c_width(*w);
            endian = to_c_endian(*e);
        },
        IrOp::SetFlags { op: fop, width: w, .. } => {
            kind = CIrOpKind::SetFlags;
            width = to_c_width(*w);
            flag_op = match fop {
                FlagOp::AddOp => CFlagOp::AddOp,
                FlagOp::SubOp => CFlagOp::SubOp,
                FlagOp::AndOp => CFlagOp::AndOp,
                FlagOp::OrOp => CFlagOp::OrOp,
                FlagOp::XorOp => CFlagOp::XorOp,
                FlagOp::TestOp => CFlagOp::TestOp,
            };
        },
        IrOp::ReadFlag { dst: d, flag } => {
            kind = CIrOpKind::ReadFlag;
            dst_valid = 1;
            dst = d.0;
            flag_kind = match flag {
                FlagKind::Zero => CFlagKind::Zero,
                FlagKind::Carry => CFlagKind::Carry,
                FlagKind::Overflow => CFlagKind::Overflow,
                FlagKind::Negative => CFlagKind::Negative,
            };
        },
        IrOp::Branch { .. } => {
            kind = CIrOpKind::Branch;
        },
        IrOp::IndirectBranch { .. } => {
            kind = CIrOpKind::IndirectBranch;
        },
        IrOp::Call { .. } => {
            kind = CIrOpKind::Call;
        },
        IrOp::Return => {
            kind = CIrOpKind::Return;
        },
        IrOp::VecAdd { dst: d, lanes: l, width: w, .. } => {
            kind = CIrOpKind::VecAdd;
            width = to_c_width(*w);
            lanes = *l;
            dst_valid = 1;
            dst = d.0;
        },
        IrOp::VecMul { dst: d, lanes: l, width: w, .. } => {
            kind = CIrOpKind::VecMul;
            width = to_c_width(*w);
            lanes = *l;
            dst_valid = 1;
            dst = d.0;
        },
        IrOp::VecFma { dst: d, lanes: l, .. } => {
            kind = CIrOpKind::VecFma;
            lanes = *l;
            dst_valid = 1;
            dst = d.0;
        },
        IrOp::Intrinsic { id, dst: d, .. } => {
            kind = CIrOpKind::Intrinsic;
            intrinsic_id = id.0;
            if let Some(dv) = d {
                dst_valid = 1;
                dst = dv.0;
            }
        },
    }
    Ok(
        CIrOp {
            kind,
            width,
            endian,
            sign_ext,
            dst_valid,
            dst,
            num_operands: num,
            operands,
            flag_op,
            flag_kind,
            intrinsic_id,
            lanes,
        },
    )
}

/// Flattens a block and its allocation: every op in order, and one entry per
/// assigned vreg. Fails if any op has more operands than the layout holds.
pub fn marshal_block(block: &IrBlock, alloc: &Allocation) -> (r: Result<(Vec<CIrOp>, Vec<CAllocEntry>), CJitStatus>)
    ensures
        (forall|i: int| 0 <= i < block@.ops.len() ==> c_operands(#[trigger] block@.ops[i]).len() <= 8) ==> (r matches Ok(
            (ops, entries),
        ) && ops@.len() == block@.ops.len() && (forall|i: int|
            0 <= i < ops@.len() ==> is_c_op(block@.ops[i], #[trigger] ops@[i])) && entries@.len() == alloc.map@.len() && (
        forall|j: int|
            0 <= j < entries@.len() ==> alloc.map@.contains_key((#[trigger] entries@[j]).vreg) && entries@[j].loc
                == location_to_c_spec(alloc.map@[entries@[j].vreg])) && (forall|a: int, b: int|
            0 <= a < entries@.len() && 0 <= b < entries@.len() && a != b ==> entries@[a].vreg != entries@[b].vreg)),
        (exists|i: int| 0 <= i < block@.ops.len() && c_operands(#[trigger] block@.ops[i]).len() > 8) ==> r
            == Err::<(Vec<CIrOp>, Vec<CAllocEntry>), CJitStatus>(CJitStatus::IntrinsicOverflow),
{
    let mut ops: Vec<CIrOp> = Vec::new();
    let mut i: usize = 0;
    while i < block.ops.len()
        invariant
            i <= block.ops.len(),
            ops@.len() == i,
            forall|j: int| 0 <= j < i ==> is_c_op(block@.ops[j], #[trigger] ops@[j]),
            forall|j: int| 0 <= j < i ==> c_operands(#[trigger] block@.ops[j]).len() <= 8,
        decreases block.ops.len() - i,
    {
        assert(block.ops@[i as int]@ == block@.ops[i as int]);
        match to_c_op(&block.ops[i]) {
            Ok(c) => ops.push(c),
            Err(e) => {
                return Err(e);
            },
        }
        i = i + 1;
    }
    let entries = alloc.to_c_entries();
    Ok((ops, entries))
}

// ---------------------------------------------------------------------------
// The flat op carries the IR op under the same names.
// ---------------------------------------------------------------------------

/// The width an op carries, if it has one.
pub open spec fn own_width(op: OpView) -> Option<Width> {
    match op {
        OpView::Add { width, .. } | OpView::Sub { width, .. } | OpView::And { width, .. } | OpView::Or { width, .. }
        | OpView::Xor { width, .. } | OpView::Mul { width, .. } | OpView::Shl { width, .. } | OpView::Shr {
            width,
            ..
        } | OpView::Sar { width, .. } | OpView::Load { width, .. } | OpView::Store { width, .. }
        | OpView::SetFlags { width, .. } | OpView::VecAdd { width, .. } | OpView::VecMul { width, .. } => Some(width),
        _ => None,
    }
}

/// The two operands of a two-operand op, in order.
pub open spec fn operand_pair(op: OpView) -> Option<(VOperand, VOperand)> {
    match op {
        OpView::Add { a, b, .. } | OpView::Sub { a, b, .. } | OpView::And { a, b, .. } | OpView::Or { a, b, .. }
        | OpView::Xor { a, b, .. } | OpView::Mul { a, b, .. } | OpView::Shl { a, b, .. } | OpView::Shr { a, b, .. }
        | OpView::Sar { a, b, .. } | OpView::SetFlags { a, b, .. } | OpView::VecAdd { a, b, .. } | OpView::VecMul {
            a,
            b,
            ..
        } => Some((a, b)),
        OpView::Store { addr, val, .. } => Some((addr, val)),
        _ => None,
    }
}

/// `w` and `cw` are the width of the same name.
pub open spec fn same_width(w: Width, cw: CWidth) -> bool {
    &&& (w is W8) == (cw is W8)
    &&& (w is W16) == (cw is W16)
    &&& (w is W32) == (cw is W32)
    &&& (w is W64) == (cw is W64)
    &&& (w is W128) == (cw is W128)
}

/// `co` is a register slot naming `v`'s number, or an immediate slot holding `x`.
pub open spec fn names_operand(co: COperand, o: VOperand) -> bool {
    match o {
        VOperand::Reg(v) => co.kind == COperandKind::Reg && co.reg == v.0,
        VOperand::Imm(x) => co.kind == COperandKind::Imm && co.imm == x,
    }
}

/// The flat op names the IR op's variant by the kind of the same name (so no
/// two variants share a kind), carries the op's own width, byte order, flag
/// operation and flag kind under the same names, and a two-operand op's
/// operands in order in its first two slots.
pub proof fn lemma_flat_op_keeps_names(op: OpView, c: CIrOp)
    requires
        is_c_op(op, c),
    ensures
        (op is Add) == (c.kind == CIrOpKind::Add),
        (op is Sub) == (c.kind == CIrOpKind::Sub),
        (op is And) == (c.kind == CIrOpKind::And),
        (op is Or) == (c.kind == CIrOpKind::Or),
        (op is Xor) == (c.kind == CIrOpKind::Xor),
        (op is Mul) == (c.kind == CIrOpKind::Mul),
        (op is Shl) == (c.kind == CIrOpKind::Shl),
        (op is Shr) == (c.kind == CIrOpKind::Shr),
        (op is Sar) == (c.kind == CIrOpKind::Sar),
        (op is Load) == (c.kind == CIrOpKind::Load),
        (op is Store) == (c.kind == CIrOpKind::Store),
        (op is SetFlags) == (c.kind == CIrOpKind::SetFlags),
        (op is ReadFlag) == (c.kind == CIrOpKind::ReadFlag),
        (op is Branch) == (c.kind == CIrOpKind::Branch),
        (op is IndirectBranch) == (c.kind == CIrOpKind::IndirectBranch),
        (op is Call) == (c.kind == CIrOpKind::Call),
        (op is Return) == (c.kind == CIrOpKind::Return),
        (op is VecAdd) == (c.kind == CIrOpKind::VecAdd),
        (op is VecMul) == (c.kind == CIrOpKind::VecMul),
        (op is VecFma) == (c.kind == CIrOpKind::VecFma),
        (op is Intrinsic) == (c.kind == CIrOpKind::Intrinsic),
        own_width(op) matches Some(w) ==> same_width(w, c.width),
        op matches OpView::Load { endian, .. } ==> (endian is Big) == (c.endian is Big),
        op matches OpView::Store { endian, .. } ==> (endian is Big) == (c.endian is Big),
        op matches OpView::Load { sign_ext, .. } ==> sign_ext == (c.sign_ext == 1),
        op matches OpView::SetFlags { op: f, .. } ==> {
            &&& (f is AddOp) == (c.flag_op is AddOp)
            &&& (f is SubOp) == (c.flag_op is SubOp)
            &&& (f is AndOp) == (c.flag_op is AndOp)
            &&& (f is OrOp) == (c.flag_op is OrOp)
            &&& (f is XorOp) == (c.flag_op is XorOp)
            &&& (f is TestOp) == (c.flag_op is TestOp)
        },
        op matches OpView::ReadFlag { flag, .. } ==> {
            &&& (flag is Zero) == (c.flag_kind is Zero)
            &&& (flag is Carry) == (c.flag_kind is Carry)
            &&& (flag is Overflow) == (c.flag_kind is Overflow)
            &&& (flag is Negative) == (c.flag_kind is Negative)
        },
        operand_pair(op) matches Some((a, b)) ==> c.num_operands == 2 && names_operand(c.operands@[0], a)
            && names_operand(c.operands@[1], b),
        op.dst() matches Some(d) ==> c.dst_valid == 1 && c.dst == d.0,
        op.dst() is None ==> c.dst_valid == 0,
{
}

} // verus!
