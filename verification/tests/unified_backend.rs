use vasjit::unified::cache::CodeCache;
use vasjit::unified::ctypes::{CFlagOp, CIrOpKind, CJitStatus, CLocationKind, COperand, COperandKind, CWidth, CHostGpr, CPatchSite};
use vasjit::unified::frontend::{Frontend, SwitchFrontend, WiiFrontend};
use vasjit::unified::ir::{BlockId, Endian, FlagOp, IntrinsicId, IrBlock, IrBuilder, IrOp, SideEffects, VOperand, VReg, Width};
use vasjit::unified::jit_ffi::{ir_op_to_c, location_to_c, marshal_block, patch_site, CompiledBlock};
use vasjit::unified::regalloc::{checked_linear_scan, linear_scan, HostGpr, Location};

fn imm(v: i64) -> VOperand {
    VOperand::Imm(v)
}

fn reg(n: u32) -> VOperand {
    VOperand::Reg(VReg(n))
}

fn block(ops: Vec<IrOp>) -> IrBlock {
    IrBlock { id: BlockId(1), guest_start_pc: 0x1000, ops }
}

#[test]
fn short_intervals_get_registers_from_the_top() {
    let b = block(vec![
        IrOp::Add { dst: VReg(0), a: imm(1), b: imm(2), width: Width::W32 },
        IrOp::Add { dst: VReg(1), a: reg(0), b: imm(1), width: Width::W32 },
        IrOp::Return,
    ]);
    let a = linear_scan(&b);
    assert_eq!(a.assignments.len(), 2);
    assert_eq!(a.assignments[&0], Location::Reg(HostGpr::R14));
    assert_eq!(a.assignments[&1], Location::Reg(HostGpr::R13));
}

#[test]
fn fourteenth_live_value_spills_itself() {
    let mut ops: Vec<IrOp> = (0..14).map(|i| IrOp::Add { dst: VReg(i), a: imm(1), b: imm(1), width: Width::W64 }).collect();
    ops.push(IrOp::Intrinsic { id: IntrinsicId(0), effects: SideEffects::Pure, operands: (0..14).map(reg).collect(), dst: None });
    let a = linear_scan(&block(ops));
    assert_eq!(a.assignments.len(), 14);
    assert_eq!(a.assignments[&0], Location::Reg(HostGpr::R14));
    assert_eq!(a.assignments[&12], Location::Reg(HostGpr::Rax));
    assert_eq!(a.assignments[&13], Location::StateSpill(0));
}

#[test]
fn longer_interval_is_spilled_for_a_shorter_one() {
    let mut ops: Vec<IrOp> = (0..14).map(|i| IrOp::Add { dst: VReg(i), a: imm(1), b: imm(1), width: Width::W64 }).collect();
    ops.push(IrOp::Add { dst: VReg(14), a: reg(13), b: imm(1), width: Width::W64 });
    ops.push(IrOp::Intrinsic { id: IntrinsicId(0), effects: SideEffects::Pure, operands: (0..13).map(reg).collect(), dst: None });
    let a = linear_scan(&block(ops));
    assert_eq!(a.assignments.len(), 15);
    assert_eq!(a.assignments[&12], Location::StateSpill(0));
    assert_eq!(a.assignments[&13], Location::Reg(HostGpr::Rax));
    assert_eq!(a.assignments[&11], Location::StateSpill(8));
    assert_eq!(a.assignments[&14], Location::Reg(HostGpr::Rbx));
}

#[test]
fn use_before_definition_starts_at_the_use() {
    let b = block(vec![
        IrOp::Store { addr: reg(5), val: imm(1), width: Width::W32, endian: Endian::Little },
        IrOp::Return,
    ]);
    let a = linear_scan(&b);
    assert_eq!(a.assignments.len(), 1);
    assert_eq!(a.assignments[&5], Location::Reg(HostGpr::R14));
}

#[test]
fn payload_of_binary_op() {
    let c = ir_op_to_c(&IrOp::Add { dst: VReg(1), a: reg(2), b: imm(-7), width: Width::W16 }).unwrap();
    assert_eq!(c.kind, CIrOpKind::Add);
    assert_eq!((c.dst, c.dst_valid, c.width, c.num_operands), (1, 1, CWidth::W16, 2));
    assert_eq!(c.operands[0], COperand { kind: COperandKind::Reg, reg: 2, imm: 0 });
    assert_eq!(c.operands[1], COperand { kind: COperandKind::Imm, reg: 0, imm: -7 });
    assert_eq!(c.operands[2], COperand { kind: COperandKind::Reg, reg: 0, imm: 0 });
}

#[test]
fn payload_of_branch_and_flags() {
    let c = ir_op_to_c(&IrOp::Branch { cond: None, target: BlockId(3) }).unwrap();
    assert_eq!((c.kind, c.target_block, c.num_operands, c.width, c.dst_valid), (CIrOpKind::Branch, 3, 0, CWidth::W64, 0));
    let c = ir_op_to_c(&IrOp::Branch { cond: Some(reg(4)), target: BlockId(2) }).unwrap();
    assert_eq!((c.num_operands, c.operands[0].reg), (1, 4));
    let c = ir_op_to_c(&IrOp::SetFlags { op: FlagOp::ShiftOp, a: reg(1), b: imm(3), width: Width::W8 }).unwrap();
    assert_eq!((c.kind, c.flag_op, c.width), (CIrOpKind::SetFlags, CFlagOp::ShiftOp, CWidth::W8));
}

#[test]
fn intrinsic_operand_limit() {
    let eight = IrOp::Intrinsic { id: IntrinsicId(9), effects: SideEffects::Volatile, operands: (0..8).map(reg).collect(), dst: Some(VReg(20)) };
    let c = ir_op_to_c(&eight).unwrap();
    assert_eq!((c.num_operands, c.intrinsic_id, c.dst, c.dst_valid), (8, 9, 20, 1));
    assert_eq!(c.operands[7].reg, 7);
    let nine = IrOp::Intrinsic { id: IntrinsicId(9), effects: SideEffects::Pure, operands: (0..9).map(reg).collect(), dst: None };
    assert_eq!(ir_op_to_c(&nine).unwrap_err(), CJitStatus::InvalidInput);
    let b = block(vec![IrOp::Return, nine]);
    let alloc = linear_scan(&b);
    assert_eq!(marshal_block(&b, &alloc).unwrap_err(), CJitStatus::InvalidInput);
}

#[test]
fn marshal_block_entries() {
    let b = block(vec![IrOp::Add { dst: VReg(0), a: imm(1), b: imm(2), width: Width::W32 }, IrOp::Return]);
    let alloc = linear_scan(&b);
    let (ops, entries) = marshal_block(&b, &alloc).unwrap();
    assert_eq!(ops.len(), 2);
    assert_eq!(ops[1].kind, CIrOpKind::Return);
    assert_eq!(entries.len(), 1);
    assert_eq!(entries[0].vreg, 0);
    assert_eq!(entries[0].loc.kind, CLocationKind::Reg);
    assert_eq!(entries[0].loc.gpr, CHostGpr::R14);
    let spill = location_to_c(&Location::StateSpill(16));
    assert_eq!((spill.kind, spill.gpr, spill.offset), (CLocationKind::StateSpill, CHostGpr::Rax, 16));
}

fn compiled(len: usize) -> CompiledBlock {
    CompiledBlock { code_ptr: 0x1000, code_len: len, guest_start_pc: 0x8000_0000, patchable_exits: vec![CPatchSite { code_offset: 4, target_guest_pc: 0x8000_0010 }] }
}

#[test]
fn cache_insert_lookup_replace() {
    let mut c = CodeCache::new(1 << 20);
    assert!(c.lookup(0x10).is_none());
    assert!(c.insert(0x10, compiled(100)).is_none());
    assert_eq!(c.lookup(0x10).unwrap().code_len, 100);
    let old = c.insert(0x10, compiled(50)).unwrap();
    assert_eq!(old.code_len, 100);
    assert_eq!(c.lookup(0x10).unwrap().code_len, 50);
    assert!(c.invalidate_page(0).is_empty());
    assert!(c.lookup(0x10).is_some());
}

#[test]
fn patch_sites_by_index() {
    let b = compiled(8);
    assert_eq!(patch_site(&b, 0).unwrap().target_guest_pc, 0x8000_0010);
    assert_eq!(patch_site(&b, 1).unwrap_err(), CJitStatus::InvalidInput);
}

#[test]
fn frontends_decode_and_classify() {
    let (d, len) = WiiFrontend.decode(&[0x38, 0x60, 0x00, 0x2a], 0);
    assert_eq!((d.raw, d.opcode, len), (0x3860_002a, 14, 4));
    assert!(!WiiFrontend.is_block_terminator(&d));
    let (blr, _) = WiiFrontend.decode(&0x4e80_0020u32.to_be_bytes(), 0);
    assert!(WiiFrontend.is_block_terminator(&blr));
    assert_eq!(WiiFrontend.endianness(), Endian::Big);
    let l = WiiFrontend.register_file_layout();
    assert_eq!((l.gpr_count, l.fpr_count, l.vector_reg_count), (32, 32, 32));
    let (ret, len) = SwitchFrontend.decode(&0xd65f_03c0u32.to_le_bytes(), 0);
    assert_eq!((ret.raw, ret.class_bits, len), (0xd65f_03c0, 0b1011, 4));
    assert!(SwitchFrontend.is_block_terminator(&ret));
    let (add, _) = SwitchFrontend.decode(&0x9100_0420u32.to_le_bytes(), 0);
    assert!(!SwitchFrontend.is_block_terminator(&add));
    assert_eq!(SwitchFrontend.endianness(), Endian::Little);
    assert_eq!(SwitchFrontend.register_file_layout().gpr_count, 31);
}

#[test]
fn builder_numbers_in_order() {
    let mut b = IrBuilder::new();
    let b0 = b.new_block(0x100);
    let b1 = b.new_block(0x200);
    assert_eq!((b0, b1), (BlockId(0), BlockId(1)));
    assert_eq!(b.new_vreg(), VReg(0));
    assert_eq!(b.new_vreg(), VReg(1));
    b.push(b1, IrOp::Return);
    assert_eq!(b.blocks[1].ops.len(), 1);
    assert_eq!(b.blocks[0].ops.len(), 0);
    assert_eq!(b.blocks[1].guest_start_pc, 0x200);
}

fn all_live(n: u32) -> IrBlock {
    let mut ops: Vec<IrOp> = (0..n).map(|i| IrOp::Add { dst: VReg(i), a: imm(1), b: imm(1), width: Width::W64 }).collect();
    ops.push(IrOp::Intrinsic { id: IntrinsicId(0), effects: SideEffects::Pure, operands: (0..n).map(reg).collect(), dst: None });
    block(ops)
}

#[test]
fn spills_stay_inside_the_spill_area() {
    let a = linear_scan(&all_live(141));
    let mut offsets: Vec<u32> = a
        .assignments
        .values()
        .filter_map(|l| match l {
            Location::StateSpill(off) => Some(*off),
            Location::Reg(_) => None,
        })
        .collect();
    offsets.sort();
    assert_eq!(offsets.len(), 128);
    assert_eq!(offsets, (0..128).map(|k| k * 8).collect::<Vec<u32>>());
    assert_eq!(a.assignments[&140], Location::StateSpill(127 * 8));
}

#[test]
fn block_needing_more_spill_slots_is_refused() {
    assert!(checked_linear_scan(&all_live(142)).is_none());
    let a = checked_linear_scan(&all_live(141)).unwrap();
    assert_eq!(a.assignments.len(), 141);
    assert!(checked_linear_scan(&all_live(13)).unwrap().assignments.values().all(|l| matches!(l, Location::Reg(_))));
}

#[test]
fn chain_plan_lists_compiled_targets_in_exit_order() {
    let mut c = CodeCache::new(1 << 20);
    let from = CompiledBlock {
        code_ptr: 0x1000,
        code_len: 16,
        guest_start_pc: 0x100,
        patchable_exits: vec![
            CPatchSite { code_offset: 4, target_guest_pc: 0x200 },
            CPatchSite { code_offset: 8, target_guest_pc: 0x300 },
            CPatchSite { code_offset: 12, target_guest_pc: 0x100 },
        ],
    };
    let to = CompiledBlock { code_ptr: 0x5000, code_len: 8, guest_start_pc: 0x300, patchable_exits: vec![] };
    assert!(c.insert(0x100, from).is_none());
    assert!(c.insert(0x300, to).is_none());
    assert_eq!(c.chain_plan(0x100), vec![(1, 0x5000), (2, 0x1000)]);
    assert!(c.chain_plan(0x300).is_empty());
    assert!(c.chain_plan(0x999).is_empty());
}
