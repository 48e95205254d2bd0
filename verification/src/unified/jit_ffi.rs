//! Serialisation of unified IR blocks and allocations into the fixed-size
//! payload of the native emitter.
use crate::unified::ctypes::{
    CAllocEntry, CEndian, CFlagKind, CFlagOp, CHostGpr, CIrOp, CIrOpKind, CJitStatus, CLocation, CLocationKind,
    COperand, COperandKind, CPatchSite, CSideEffects, CWidth, CIR_MAX_OPERANDS,
};
use crate::unified::ir::{Endian, FlagKind, FlagOp, IrBlock, IrOp, OpView, SideEffects, VOperand, Width};
use crate::unified::regalloc::{Allocation, HostGpr, Location};
use vstd::prelude::*;

verus! {

/// A finished block of host code: its address as an integer, its length, the
/// guest pc its code starts at and its patchable exits.
#[derive(Clone, Debug)]
pub struct CompiledBlock {
    pub code_ptr: usize,
    pub code_len: usize,
    pub guest_start_pc: u64,
    pub patchable_exits: Vec<CPatchSite>,
}

pub open spec fn width_c(w: Width) -> CWidth {
    match w {
        Width::W8 => CWidth::W8,
        Width::W16 => CWidth::W16,
        Width::W32 => CWidth::W32,
        Width::W64 => CWidth::W64,
        Width::W128 => CWidth::W128,
    }
}

pub open spec fn endian_c(e: Endian) -> CEndian {
    match e {
        Endian::Little => CEndian::Little,
        Endian::Big => CEndian::Big,
    }
}

pub open spec fn operand_c(o: VOperand) -> COperand {
    match o {
        VOperand::Reg(v) => COperand { kind: COperandKind::Reg, reg: v.0, imm: 0 },
        VOperand::Imm(i) => COperand { kind: COperandKind::Imm, reg: 0, imm: i },
    }
}

pub open spec fn gpr_c(g: HostGpr) -> CHostGpr {
    match g {
        HostGpr::Rax => CHostGpr::Rax,
        HostGpr::Rbx => CHostGpr::Rbx,
        HostGpr::Rcx => CHostGpr::Rcx,
        HostGpr::Rdx => CHostGpr::Rdx,
        HostGpr::Rsi => CHostGpr::Rsi,
        HostGpr::Rdi => CHostGpr::Rdi,
        HostGpr::R8 => CHostGpr::R8,
        HostGpr::R9 => CHostGpr::R9,
        HostGpr::R10 => CHostGpr::R10,
        HostGpr::R11 => CHostGpr::R11,
        HostGpr::R12 => CHostGpr::R12,
        HostGpr::R13 => CHostGpr::R13,
        HostGpr::R14 => CHostGpr::R14,
    }
}

/// A spilled location names no register; its register field reads `Rax`.
pub open spec fn location_c(loc: Location) -> CLocation {
    match loc {
        Location::Reg(g) => CLocation { kind: CLocationKind::Reg, gpr: gpr_c(g), offset: 0 },
        Location::StateSpill(off) => CLocation { kind: CLocationKind::StateSpill, gpr: CHostGpr::Rax, offset: off },
    }
}

pub open spec fn flag_op_c(f: FlagOp) -> CFlagOp {
    match f {
        FlagOp::AddOp => CFlagOp::AddOp,
        FlagOp::SubOp => CFlagOp::SubOp,
        FlagOp::AndOp => CFlagOp::AndOp,
        FlagOp::OrOp => CFlagOp::OrOp,
        FlagOp::XorOp => CFlagOp::XorOp,
        FlagOp::ShiftOp => CFlagOp::ShiftOp,
    }
}

pub open spec fn flag_kind_c(f: FlagKind) -> CFlagKind {
    match f {
        FlagKind::Zero => CFlagKind::Zero,
        FlagKind::Carry => CFlagKind::Carry,
        FlagKind::Overflow => CFlagKind::Overflow,
        FlagKind::Negative => CFlagKind::Negative,
    }
}

pub open spec fn effects_c(e: SideEffects) -> CSideEffects {
    match e {
        SideEffects::Pure => CSideEffects::Pure,
        SideEffects::ReadsMem => CSideEffects::ReadsMem,
        SideEffects::WritesMem => CSideEffects::WritesMem,
        SideEffects::ReadsAndWritesMem => CSideEffects::ReadsAndWritesMem,
        SideEffects::Volatile => CSideEffects::Volatile,
    }
}

/// The value an unused operand slot holds.
pub open spec fn zero_operand() -> COperand {
    COperand { kind: COperandKind::Reg, reg: 0, imm: 0 }
}

pub open spec fn kind_c(op: OpView) -> CIrOpKind {
    match op {
        OpView::Add { .. } => CIrOpKind::Add,
        OpView::Sub { .. } => CIrOpKind::Sub,
        OpView::And { .. } => CIrOpKind::And,
        OpView::Or { .. } => CIrOpKind::Or,
        OpView::Xor { .. } => CIrOpKind::Xor,
        OpView::Shl { .. } => CIrOpKind::Shl,
        OpView::Shr { .. } => CIrOpKind::Shr,
        OpView::Sar { .. } => CIrOpKind::Sar,
        OpView::Mul { .. } => CIrOpKind::Mul,
        OpView::VecAdd { .. } => CIrOpKind::VecAdd,
        OpView::VecMul { .. } => CIrOpKind::VecMul,
        OpView::VecFma { .. } => CIrOpKind::VecFma,
        OpView::Load { .. } => CIrOpKind::Load,
        OpView::Store { .. } => CIrOpKind::Store,
        OpView::Branch { .. } => CIrOpKind::Branch,
        OpView::IndirectBranch { .. } => CIrOpKind::IndirectBranch,
        OpView::Call { .. } => CIrOpKind::Call,
        OpView::Return => CIrOpKind::Return,
        OpView::SetFlags { .. } => CIrOpKind::SetFlags,
        OpView::ReadFlag { .. } => CIrOpKind::ReadFlag,
        OpView::Intrinsic { .. } => CIrOpKind::Intrinsic,
    }
}

/// The width field: the op's own width where it has one, else 64 bits.
pub open spec fn op_width_c(op: OpView) -> CWidth {
    match op {
        OpView::Add { width, .. } | OpView::Sub { width, .. } | OpView::And { width, .. }
        | OpView::Or { width, .. } | OpView::Xor { width, .. } | OpView::Shl { width, .. }
        | OpView::Shr { width, .. } | OpView::Sar { width, .. } | OpView::Mul { width, .. }
        | OpView::VecAdd { width, .. } | OpView::VecMul { width, .. } | OpView::Load { width, .. }
        | OpView::Store { width, .. } | OpView::SetFlags { width, .. } => width_c(width),
        _ => CWidth::W64,
    }
}

/// `c` is the payload of `op`: each field as the op gives it, the op's
/// operands in the first slots, every other field and slot zero.
pub open spec fn is_payload(op: OpView, c: CIrOp) -> bool {
    let ops = op.operands();
    &&& c.kind == kind_c(op)
    &&& c.dst == (match op.dst() {
        Some(d) => d.0,
        None => 0,
    })
    &&& c.dst_valid == (if op.dst() is Some { 1u8 } else { 0u8 })
    &&& c.width == op_width_c(op)
    &&& c.endian == (match op {
        OpView::Load { endian, .. } | OpView::Store { endian, .. } => endian_c(endian),
        _ => CEndian::Little,
    })
    &&& c.sign_ext == (if op matches OpView::Load { sign_ext: true, .. } { 1u8 } else { 0u8 })
    &&& c.lanes == (match op {
        OpView::VecAdd { lanes, .. } | OpView::VecMul { lanes, .. } | OpView::VecFma { lanes, .. } => lanes,
        _ => 0u8,
    })
    &&& c.flag_kind == (match op {
        OpView::ReadFlag { flag, .. } => flag_kind_c(flag),
        _ => CFlagKind::Zero,
    })
    &&& c.flag_op == (match op {
        OpView::SetFlags { op: f, .. } => flag_op_c(f),
        _ => CFlagOp::AddOp,
    })
    &&& c.side_effects == (match op {
        OpView::Intrinsic { effects, .. } => effects_c(effects),
        _ => CSideEffects::Pure,
    })
    &&& c.intrinsic_id == (match op {
        OpView::Intrinsic { id, .. } => id.0,
        _ => 0u32,
    })
    &&& c.target_block == (match op {
        OpView::Branch { target, .. } => target.0,
        _ => 0u32,
    })
    &&& c.num_operands == ops.len()
    &&& forall|i: int| 0 <= i < ops.len() ==> c.operands@[i] == operand_c(#[trigger] ops[i])
    &&& forall|i: int| ops.len() <= i < CIR_MAX_OPERANDS ==> #[trigger] c.operands@[i] == zero_operand()
}

fn width_to_c(w: Width) -> (r: CWidth)
    ensures
        r == width_c(w),
{
    match w {
        Width::W8 => CWidth::W8,
        Width::W16 => CWidth::W16,
        Width::W32 => CWidth::W32,
        Width::W64 => CWidth::W64,
        Width::W128 => CWidth::W128,
    }
}

fn endian_to_c(e: Endian) -> (r: CEndian)
    ensures
        r == endian_c(e),
{
    match e {
        Endian::Little => CEndian::Little,
        Endian::Big => CEndian::Big,
    }
}

fn operand_to_c(op: &VOperand) -> (r: COperand)
    ensures
        r == operand_c(*op),
{
    match *op {
        VOperand::Reg(v) => COperand { kind: COperandKind::Reg, reg: v.0, imm: 0 },
        VOperand::Imm(i) => COperand { kind: COperandKind::Imm, reg: 0, imm: i },
    }
}

fn host_gpr_to_c(g: HostGpr) -> (r: CHostGpr)
    ensures
        r == gpr_c(g),
{
    match g {
        HostGpr::Rax => CHostGpr::Rax,
        HostGpr::Rbx => CHostGpr::Rbx,
        HostGpr::Rcx => CHostGpr::Rcx,
        HostGpr::Rdx => CHostGpr::Rdx,
        HostGpr::Rsi => CHostGpr::Rsi,
        HostGpr::Rdi => CHostGpr::Rdi,
        HostGpr::R8 => CHostGpr::R8,
        HostGpr::R9 => CHostGpr::R9,
        HostGpr::R10 => CHostGpr::R10,
        HostGpr::R11 => CHostGpr::R11,
        HostGpr::R12 => CHostGpr::R12,
        HostGpr::R13 => CHostGpr::R13,
        HostGpr::R14 => CHostGpr::R14,
    }
}

pub fn location_to_c(loc: &Location) -> (r: CLocation)
    ensures
        r == location_c(*loc),
{
    match *loc {
        Location::Reg(g) => CLocation { kind: CLocationKind::Reg, gpr: host_gpr_to_c(g), offset: 0 },
        Location::StateSpill(off) => CLocation { kind: CLocationKind::StateSpill, gpr: CHostGpr::Rax, offset: off },
    }
}

/// The payload of one op. An intrinsic with more operands than the payload
/// holds is refused with `InvalidInput` rather than truncated.
pub fn ir_op_to_c(op: &IrOp) -> (r: Result<CIrOp, CJitStatus>)
    ensures
        op@.operands().len() <= CIR_MAX_OPERANDS ==> (r matches Ok(c) && is_payload(op@, c)),
        op@.operands().len() > CIR_MAX_OPERANDS ==> r == Err::<CIrOp, CJitStatus>(CJitStatus::InvalidInput),
{
    let mut c = CIrOp {
        kind: CIrOpKind::Add,
        dst: 0,
        dst_valid: 0,
        width: CWidth::W64,
        endian: CEndian::Little,
        sign_ext: 0,
        lanes: 0,
        flag_kind: CFlagKind::Zero,
        flag_op: CFlagOp::AddOp,
        side_effects: CSideEffects::Pure,
        intrinsic_id: 0,
        target_block: 0,
        num_operands: 0,
        operands: [COperand { kind: COperandKind::Reg, reg: 0, imm: 0 }; CIR_MAX_OPERANDS],
    };
    assert(forall|i: int| 0 <= i < CIR_MAX_OPERANDS ==> #[trigger] c.operands@[i] == zero_operand());
    match op {
        IrOp::Add { dst, a, b, width } => {
            c.kind = CIrOpKind::Add;
            c.dst = dst.0;
            c.dst_valid = 1;
            c.width = width_to_c(*width);
            c.num_operands = 2;
            c.operands[0] = operand_to_c(a);
            c.operands[1] = operand_to_c(b);
        },
        IrOp::Sub { dst, a, b, width } => {
            c.kind = CIrOpKind::Sub;
            c.dst = dst.0;
            c.dst_valid = 1;
            c.width = width_to_c(*width);
            c.num_operands = 2;
            c.operands[0] = operand_to_c(a);
            c.operands[1] = operand_to_c(b);
        },
        IrOp::And { dst, a, b, width } => {
            c.kind = CIrOpKind::And;
            c.dst = dst.0;
            c.dst_valid = 1;
            c.width = width_to_c(*width);
            c.num_operands = 2;
            c.operands[0] = operand_to_c(a);
            c.operands[1] = operand_to_c(b);
        },
        IrOp::Or { dst, a, b, width } => {
            c.kind = CIrOpKind::Or;
            c.dst = dst.0;
            c.dst_valid = 1;
            c.width = width_to_c(*width);
            c.num_operands = 2;
            c.operands[0] = operand_to_c(a);
            c.operands[1] = operand_to_c(b);
        },
        IrOp::Xor { dst, a, b, width } => {
            c.kind = CIrOpKind::Xor;
            c.dst = dst.0;
            c.dst_valid = 1;
            c.width = width_to_c(*width);
            c.num_operands = 2;
            c.operands[0] = operand_to_c(a);
            c.operands[1] = operand_to_c(b);
        },
        IrOp::Shl { dst, a, amount, width } => {
            c.kind = CIrOpKind::Shl;
            c.dst = dst.0;
            c.dst_valid = 1;
            c.width = width_to_c(*width);
            c.num_operands = 2;
            c.operands[0] = operand_to_c(a);
            c.operands[1] = operand_to_c(amount);
        },
        IrOp::Shr { dst, a, amount, width } => {
            c.kind = CIrOpKind::Shr;
            c.dst = dst.0;
            c.dst_valid = 1;
            c.width = width_to_c(*width);
            c.num_operands = 2;
            c.operands[0] = operand_to_c(a);
            c.operands[1] = operand_to_c(amount);
        },
        IrOp::Sar { dst, a, amount, width } => {
            c.kind = CIrOpKind::Sar;
            c.dst = dst.0;
            c.dst_valid = 1;
            c.width = width_to_c(*width);
            c.num_operands = 2;
            c.operands[0] = operand_to_c(a);
            c.operands[1] = operand_to_c(amount);
        },
        IrOp::Mul { dst, a, b, width } => {
            c.kind = CIrOpKind::Mul;
            c.dst = dst.0;
            c.dst_valid = 1;
            c.width = width_to_c(*width);
            c.num_operands = 2;
            c.operands[0] = operand_to_c(a);
            c.operands[1] = operand_to_c(b);
        },
        IrOp::VecAdd { dst, a, b, lanes, width } => {
            c.kind = CIrOpKind::VecAdd;
            c.dst = dst.0;
            c.dst_valid = 1;
            c.width = width_to_c(*width);
            c.lanes = *lanes;
            c.num_operands = 2;
            c.operands[0] = operand_to_c(a);
            c.operands[1] = operand_to_c(b);
        },
        IrOp::VecMul { dst, a, b, lanes, width } => {
            c.kind = CIrOpKind::VecMul;
            c.dst = dst.0;
            c.dst_valid = 1;
            c.width = width_to_c(*width);
            c.lanes = *lanes;
            c.num_operands = 2;
            c.operands[0] = operand_to_c(a);
            c.operands[1] = operand_to_c(b);
        },
        IrOp::VecFma { dst, a, b, c: third, lanes } => {
            c.kind = CIrOpKind::VecFma;
            c.dst = dst.0;
            c.dst_valid = 1;
            c.lanes = *lanes;
            c.num_operands = 3;
            c.operands[0] = operand_to_c(a);
            c.operands[1] = operand_to_c(b);
            c.operands[2] = operand_to_c(third);
        },
        IrOp::Load { dst, addr, width, sign_ext, endian } => {
            c.kind = CIrOpKind::Load;
            c.dst = dst.0;
            c.dst_valid = 1;
            c.width = width_to_c(*width);
            c.sign_ext = if *sign_ext {
                1
            } else {
                0
            };
            c.endian = endian_to_c(*endian);
            c.num_operands = 1;
            c.operands[0] = operand_to_c(addr);
        },
        IrOp::Store { addr, val, width, endian } => {
            c.kind = CIrOpKind::Store;
            c.width = width_to_c(*width);
            c.endian = endian_to_c(*endian);
            c.num_operands = 2;
            c.operands[0] = operand_to_c(addr);
            c.operands[1] = operand_to_c(val);
        },
        IrOp::Branch { cond, target } => {
            c.kind = CIrOpKind::Branch;
            c.target_block = target.0;
            if let Some(v) = cond {
                c.num_operands = 1;
                c.operands[0] = operand_to_c(v);
            }
        },
        IrOp::IndirectBranch { target } => {
            c.kind = CIrOpKind::IndirectBranch;
            c.num_operands = 1;
            c.operands[0] = operand_to_c(target);
        },
        IrOp::Call { target } => {
            c.kind = CIrOpKind::Call;
            c.num_operands = 1;
            c.operands[0] = operand_to_c(target);
        },
        IrOp::Return => {
            c.kind = CIrOpKind::Return;
        },
        IrOp::SetFlags { op: fop, a, b, width } => {
            c.kind = CIrOpKind::SetFlags;
            c.flag_op = match fop {
                FlagOp::AddOp => CFlagOp::AddOp,
                FlagOp::SubOp => CFlagOp::SubOp,
                FlagOp::AndOp => CFlagOp::AndOp,
                FlagOp::OrOp => CFlagOp::OrOp,
                FlagOp::XorOp => CFlagOp::XorOp,
                FlagOp::ShiftOp => CFlagOp::ShiftOp,
            };
            c.width = width_to_c(*width);
            c.num_operands = 2;
            c.operands[0] = operand_to_c(a);
            c.operands[1] = operand_to_c(b);
        },
        IrOp::ReadFlag { dst, flag } => {
            c.kind = CIrOpKind::ReadFlag;
            c.dst = dst.0;
            c.dst_valid = 1;
            c.flag_kind = match flag {
                FlagKind::Zero => CFlagKind::Zero,
                FlagKind::Carry => CFlagKind::Carry,
                FlagKind::Overflow => CFlagKind::Overflow,
                FlagKind::Negative => CFlagKind::Negative,
            };
        },
        IrOp::Intrinsic { id, effects, operands, dst } => {
            c.kind = CIrOpKind::Intrinsic;
            c.intrinsic_id = id.0;
            c.side_effects = match effects {
                SideEffects::Pure => CSideEffects::Pure,
                SideEffects::ReadsMem => CSideEffects::ReadsMem,
                SideEffects::WritesMem => CSideEffects::WritesMem,
                SideEffects::ReadsAndWritesMem => CSideEffects::ReadsAndWritesMem,
                SideEffects::Volatile => CSideEffects::Volatile,
            };
            if let Some(d) = dst {
                c.dst = d.0;
                c.dst_valid = 1;
            }
            if operands.len() > CIR_MAX_OPERANDS {
                return Err(CJitStatus::InvalidInput);
            }
            c.num_operands = operands.len() as u8;
            let mut i: usize = 0;
            while i < operands.len()
                invariant
                    i <= operands.len() <= CIR_MAX_OPERANDS,
                    forall|j: int| 0 <= j < i ==> c.operands@[j] == operand_c(#[trigger] operands@[j]),
                    forall|j: int| i <= j < CIR_MAX_OPERANDS ==> #[trigger] c.operands@[j] == zero_operand(),
                    c.kind == CIrOpKind::Intrinsic,
                    c.intrinsic_id == id.0,
                    c.side_effects == effects_c(*effects),
                    c.dst == (match *dst { Some(d) => d.0, None => 0u32 }),
                    c.dst_valid == (if dst is Some { 1u8 } else { 0u8 }),
                    c.num_operands == operands@.len(),
                    c.width == CWidth::W64,
                    c.endian == CEndian::Little,
                    c.sign_ext == 0,
                    c.lanes == 0,
                    c.flag_kind == CFlagKind::Zero,
                    c.flag_op == CFlagOp::AddOp,
                    c.target_block == 0,
                decreases operands.len() - i,
            {
                c.operands[i] = operand_to_c(&operands[i]);
                i = i + 1;
            }
        },
    }
    Ok(c)
}

/// The flat form of a block and its allocation: one payload per op, in
/// order, and one entry per assigned vreg. Fails with `InvalidInput` when any
/// op has more operands than a payload holds.
pub fn marshal_block(block: &IrBlock, alloc: &Allocation) -> (r: Result<(Vec<CIrOp>, Vec<CAllocEntry>), CJitStatus>)
    ensures
        (forall|i: int| 0 <= i < block@.ops.len() ==> (#[trigger] block@.ops[i]).operands().len() <= CIR_MAX_OPERANDS)
            ==> (r matches Ok((ops, entries)) && ops@.len() == block@.ops.len() && (forall|i: int|
            0 <= i < ops@.len() ==> is_payload(block@.ops[i], #[trigger] ops@[i])) && entries@.len()
            == alloc.assignments@.len() && (forall|j: int|
            0 <= j < entries@.len() ==> alloc.assignments@.contains_key((#[trigger] entries@[j]).vreg)
                && entries@[j].loc == location_c(alloc.assignments@[entries@[j].vreg])) && (forall|a: int, b: int|
            0 <= a < entries@.len() && 0 <= b < entries@.len() && a != b ==> entries@[a].vreg != entries@[b].vreg)),
        (exists|i: int| 0 <= i < block@.ops.len() && (#[trigger] block@.ops[i]).operands().len() > CIR_MAX_OPERANDS)
            ==> r == Err::<(Vec<CIrOp>, Vec<CAllocEntry>), CJitStatus>(CJitStatus::InvalidInput),
{
    let mut ops: Vec<CIrOp> = Vec::new();
    let mut i: usize = 0;
    while i < block.ops.len()
        invariant
            i <= block.ops.len(),
            ops@.len() == i,
            forall|j: int| 0 <= j < i ==> is_payload(block@.ops[j], #[trigger] ops@[j]),
            forall|j: int| 0 <= j < i ==> (#[trigger] block@.ops[j]).operands().len() <= CIR_MAX_OPERANDS,
        decreases block.ops.len() - i,
    {
        assert(block.ops@[i as int]@ == block@.ops[i as int]);
        match ir_op_to_c(&block.ops[i]) {
            Ok(c) => ops.push(c),
            Err(e) => {
                return Err(e);
            },
        }
        i = i + 1;
    }
    let entries = alloc_entries(alloc);
    Ok((ops, entries))
}

/// One entry per assigned vreg, in the map's iteration order, which the map
/// does not fix.
pub fn alloc_entries(alloc: &Allocation) -> (r: Vec<CAllocEntry>)
    ensures
        r@.len() == alloc.assignments@.len(),
        forall|j: int| 0 <= j < r@.len() ==> alloc.assignments@.contains_key((#[trigger] r@[j]).vreg)
            && r@[j].loc == location_c(alloc.assignments@[r@[j].vreg]),
        forall|a: int, b: int| 0 <= a < r@.len() && 0 <= b < r@.len() && a != b ==> r@[a].vreg != r@[b].vreg,
{
    let mut out: Vec<CAllocEntry> = Vec::new();
    let ghost m = alloc.assignments@;
    for (k, v) in it: alloc.assignments.iter()
        invariant
            out@.len() == it.index(),
            forall|j: int| 0 <= j < it.index() ==> (#[trigger] out@[j]).vreg == *it.seq()[j].0 && out@[j].loc
                == location_c(*it.seq()[j].1),
            it.seq().no_duplicates(),
            forall|j: int| 0 <= j < it.seq().len() ==> m.contains_key(*it.seq()[j].0) && m[*it.seq()[j].0] == *it.seq()[j].1,
            forall|a: int, b: int| 0 <= a < out@.len() && 0 <= b < out@.len() && a != b ==> out@[a].vreg != out@[b].vreg,
    {
        proof {
            let i = it.index();
            assert forall|a: int| 0 <= a < out@.len() implies out@[a].vreg != *k by {
                if out@[a].vreg == *k {
                    assert(it.seq()[a] == it.seq()[i as int]);
                }
            }
        }
        out.push(CAllocEntry { vreg: *k, loc: location_to_c(v) });
    }
    out
}

/// The patch site an exit index names, or `InvalidInput` past the last exit.
pub fn patch_site(from: &CompiledBlock, exit_index: usize) -> (r: Result<CPatchSite, CJitStatus>)
    ensures
        exit_index < from.patchable_exits@.len() ==> r == Ok::<CPatchSite, CJitStatus>(
            from.patchable_exits@[exit_index as int],
        ),
        exit_index >= from.patchable_exits@.len() ==> r == Err::<CPatchSite, CJitStatus>(CJitStatus::InvalidInput),
{
    if exit_index < from.patchable_exits.len() {
        Ok(from.patchable_exits[exit_index])
    } else {
        Err(CJitStatus::InvalidInput)
    }
}

// ---------------------------------------------------------------------------
// The payload carries the IR op under the same names.
// ---------------------------------------------------------------------------

/// The width an op carries, if it has one.
pub open spec fn own_width(op: OpView) -> Option<Width> {
    match op {
        OpView::Add { width, .. } | OpView::Sub { width, .. } | OpView::And { width, .. }
        | OpView::Or { width, .. } | OpView::Xor { width, .. } | OpView::Shl { width, .. }
        | OpView::Shr { width, .. } | OpView::Sar { width, .. } | OpView::Mul { width, .. }
        | OpView::VecAdd { width, .. } | OpView::VecMul { width, .. } | OpView::Load { width, .. }
        | OpView::Store { width, .. } | OpView::SetFlags { width, .. } => Some(width),
        _ => None,
    }
}

/// The two operands of a two-operand op, in order (a shift's value, then its amount).
pub open spec fn operand_pair(op: OpView) -> Option<(VOperand, VOperand)> {
    match op {
        OpView::Add { a, b, .. } | OpView::Sub { a, b, .. } | OpView::And { a, b, .. } | OpView::Or { a, b, .. }
        | OpView::Xor { a, b, .. } | OpView::Mul { a, b, .. } | OpView::SetFlags { a, b, .. }
        | OpView::VecAdd { a, b, .. } | OpView::VecMul { a, b, .. } => Some((a, b)),
        OpView::Shl { a, amount, .. } | OpView::Shr { a, amount, .. } | OpView::Sar { a, amount, .. } => Some((a, amount)),
        OpView::Store { addr, val, .. } => Some((addr, val)),
        _ => None,
    }
}

/// `w` and `cw` are the width of the same name.
pub open spec fn same_width(w: Width, cw: CWidth) -> bool {
    &&& (w is W8) == (cw is W8)
    &&& (w is W16) == (cw is W16)
    &&& (w is W32) == (cw is W32)
    &&& (w is W64) == (cw is W64)
    &&& (w is W128) == (cw is W128)
}

/// `co` is a register slot naming `v`'s number, or an immediate slot holding `x`.
pub open spec fn names_operand(co: COperand, o: VOperand) -> bool {
    match o {
        VOperand::Reg(v) => co.kind == COperandKind::Reg && co.reg == v.0,
        VOperand::Imm(x) => co.kind == COperandKind::Imm && co.imm == x,
    }
}

/// The payload names the IR op's variant by the kind of the same name (so no
/// two variants share a kind), carries the op's own width, byte order, flag
/// operation, flag kind and side-effect class under the same names, and a
/// two-operand op's operands in order in its first two slots.
pub proof fn lemma_payload_keeps_names(op: OpView, c: CIrOp)
    requires
        is_payload(op, c),
    ensures
        (op is Add) == (c.kind == CIrOpKind::Add),
        (op is Sub) == (c.kind == CIrOpKind::Sub),
        (op is And) == (c.kind == CIrOpKind::And),
        (op is Or) == (c.kind == CIrOpKind::Or),
        (op is Xor) == (c.kind == CIrOpKind::Xor),
        (op is Mul) == (c.kind == CIrOpKind::Mul),
        (op is Shl) == (c.kind == CIrOpKind::Shl),
        (op is Shr) == (c.kind == CIrOpKind::Shr),
        (op is Sar) == (c.kind == CIrOpKind::Sar),
        (op is Load) == (c.kind == CIrOpKind::Load),
        (op is Store) == (c.kind == CIrOpKind::Store),
        (op is SetFlags) == (c.kind == CIrOpKind::SetFlags),
        (op is ReadFlag) == (c.kind == CIrOpKind::ReadFlag),
        (op is Branch) == (c.kind == CIrOpKind::Branch),
        (op is IndirectBranch) == (c.kind == CIrOpKind::IndirectBranch),
        (op is Call) == (c.kind == CIrOpKind::Call),
        (op is Return) == (c.kind == CIrOpKind::Return),
        (op is VecAdd) == (c.kind == CIrOpKind::VecAdd),
        (op is VecMul) == (c.kind == CIrOpKind::VecMul),
        (op is VecFma) == (c.kind == CIrOpKind::VecFma),
        (op is Intrinsic) == (c.kind == CIrOpKind::Intrinsic),
        own_width(op) matches Some(w) ==> same_width(w, c.width),
        op matches OpView::Load { endian, .. } ==> (endian is Big) == (c.endian is Big),
        op matches OpView::Store { endian, .. } ==> (endian is Big) == (c.endian is Big),
        op matches OpView::Load { sign_ext, .. } ==> sign_ext == (c.sign_ext == 1),
        op matches OpView::SetFlags { op: f, .. } ==> {
            &&& (f is AddOp) == (c.flag_op is AddOp)
            &&& (f is SubOp) == (c.flag_op is SubOp)
            &&& (f is AndOp) == (c.flag_op is AndOp)
            &&& (f is OrOp) == (c.flag_op is OrOp)
            &&& (f is XorOp) == (c.flag_op is XorOp)
            &&& (f is ShiftOp) == (c.flag_op is ShiftOp)
        },
        op matches OpView::ReadFlag { flag, .. } ==> {
            &&& (flag is Zero) == (c.flag_kind is Zero)
            &&& (flag is Carry) == (c.flag_kind is Carry)
            &&& (flag is Overflow) == (c.flag_kind is Overflow)
            &&& (flag is Negative) == (c.flag_kind is Negative)
        },
        op matches OpView::Intrinsic { effects, .. } ==> {
            &&& (effects is Pure) == (c.side_effects is Pure)
            &&& (effects is ReadsMem) == (c.side_effects is ReadsMem)
            &&& (effects is WritesMem) == (c.side_effects is WritesMem)
            &&& (effects is ReadsAndWritesMem) == (c.side_effects is ReadsAndWritesMem)
            &&& (effects is Volatile) == (c.side_effects is Volatile)
        },
        operand_pair(op) matches Some((a, b)) ==> c.num_operands == 2 && names_operand(c.operands@[0], a)
            && names_operand(c.operands@[1], b),
        op.dst() matches Some(d) ==> c.dst_valid == 1 && c.dst == d.0,
        op.dst() is None ==> c.dst_valid == 0,
{
}

/// A register's location names the host register of the same name; a spill
/// names its offset.
pub proof fn lemma_location_keeps_names(loc: Location)
    ensures
        loc matches Location::StateSpill(off) ==> location_c(loc).kind is StateSpill && location_c(loc).offset == off,
        loc matches Location::Reg(g) ==> {
            &&& location_c(loc).kind is Reg
            &&& (g is Rax) == (location_c(loc).gpr is Rax)
            &&& (g is Rbx) == (location_c(loc).gpr is Rbx)
            &&& (g is Rcx) == (location_c(loc).gpr is Rcx)
            &&& (g is Rdx) == (location_c(loc).gpr is Rdx)
            &&& (g is Rsi) == (location_c(loc).gpr is Rsi)
            &&& (g is Rdi) == (location_c(loc).gpr is Rdi)
            &&& (g is R8) == (location_c(loc).gpr is R8)
            &&& (g is R9) == (location_c(loc).gpr is R9)
            &&& (g is R10) == (location_c(loc).gpr is R10)
            &&& (g is R11) == (location_c(loc).gpr is R11)
            &&& (g is R12) == (location_c(loc).gpr is R12)
            &&& (g is R13) == (location_c(loc).gpr is R13)
            &&& (g is R14) == (location_c(loc).gpr is R14)
        },
{
}

} // verus!
