use vasjit::cache::CodeCache;
use vasjit::ffi::{CIrOpKind, CJitStatus, CLocationKind, COperandKind, CWidth};
use vasjit::frontend::Frontend;
use vasjit::frontend_wii_ppc::{enc, WiiFrontend};
use vasjit::gpu::{hollywood, maxwell, GenericFrame};
use vasjit::ir::{BlockId, Endian, FlagKind, FlagOp, IntrinsicId, IrBlock, IrBuilder, IrOp, SideEffects, VOperand, VReg, Width};
use vasjit::jit_ffi::{marshal_block, to_c_op, CompiledBlock};
use vasjit::passes::{const_fold, dead_code_elim, run_all};
use vasjit::regalloc::{linear_scan, Location};

fn imm(v: i64) -> VOperand {
    VOperand::Imm(v)
}

fn reg(n: u32) -> VOperand {
    VOperand::Reg(VReg(n))
}

#[test]
fn const_fold_rewrites_to_or() {
    let mut b = IrBlock {
        guest_pc: 0,
        ops: vec![
            IrOp::Add { dst: VReg(0), a: imm(2), b: imm(3), width: Width::W32 },
            IrOp::Shl { dst: VReg(1), a: reg(0), b: imm(65), width: Width::W32 },
            IrOp::Store { addr: reg(7), val: reg(1), width: Width::W32, endian: Endian::Big },
        ],
    };
    const_fold(&mut b);
    assert_eq!(b.ops[0], IrOp::Or { dst: VReg(0), a: imm(5), b: imm(0), width: Width::W64 });
    assert_eq!(b.ops[1], IrOp::Or { dst: VReg(1), a: imm(10), b: imm(0), width: Width::W64 });
    assert_eq!(b.ops[2], IrOp::Store { addr: reg(7), val: imm(10), width: Width::W32, endian: Endian::Big });
}

#[test]
fn dead_code_keeps_effects_and_their_inputs() {
    let mut b = IrBlock {
        guest_pc: 0,
        ops: vec![
            IrOp::Add { dst: VReg(0), a: imm(1), b: imm(2), width: Width::W32 },
            IrOp::Add { dst: VReg(1), a: reg(0), b: imm(2), width: Width::W32 },
            IrOp::Mul { dst: VReg(2), a: imm(3), b: imm(3), width: Width::W32 },
            IrOp::Store { addr: imm(0x100), val: reg(1), width: Width::W32, endian: Endian::Big },
            IrOp::Return,
        ],
    };
    dead_code_elim(&mut b);
    assert_eq!(b.ops.len(), 4);
    assert!(!b.ops.iter().any(|op| matches!(op, IrOp::Mul { .. })));
}

#[test]
fn run_all_folds_then_prunes() {
    let mut b = IrBlock {
        guest_pc: 0,
        ops: vec![
            IrOp::Add { dst: VReg(0), a: imm(1), b: imm(2), width: Width::W32 },
            IrOp::Store { addr: imm(0x100), val: reg(0), width: Width::W32, endian: Endian::Big },
        ],
    };
    run_all(&mut b);
    assert_eq!(b.ops.len(), 1);
    assert_eq!(b.ops[0], IrOp::Store { addr: imm(0x100), val: imm(3), width: Width::W32, endian: Endian::Big });
}

#[test]
fn linear_scan_assigns_every_vreg() {
    let b = IrBlock {
        guest_pc: 0,
        ops: vec![
            IrOp::Add { dst: VReg(0), a: imm(1), b: imm(2), width: Width::W32 },
            IrOp::Add { dst: VReg(1), a: reg(0), b: imm(2), width: Width::W32 },
            IrOp::Return,
        ],
    };
    let a = linear_scan(&b);
    assert_eq!(a.map.len(), 2);
    assert!(matches!(a.map[&0], Location::Reg(_)));
    assert!(matches!(a.map[&1], Location::Reg(_)));
    assert_ne!(a.map[&0], a.map[&1]);
}

#[test]
fn linear_scan_spills_when_thirteen_are_busy() {
    let mut ops: Vec<IrOp> = (0..14).map(|i| IrOp::Add { dst: VReg(i), a: imm(1), b: imm(1), width: Width::W64 }).collect();
    ops.push(IrOp::Intrinsic { id: IntrinsicId(0), effects: SideEffects::Pure, operands: (0..14).map(reg).collect(), dst: None });
    let a = linear_scan(&IrBlock { guest_pc: 0, ops });
    assert_eq!(a.map.len(), 14);
    let spills = a.map.values().filter(|l| matches!(l, Location::Spill(_))).count();
    assert_eq!(spills, 1);
    assert!(a.map.values().any(|l| *l == Location::Spill(0)));
}

#[test]
fn flat_ops_and_operand_limit() {
    let c = to_c_op(&IrOp::Load { dst: VReg(4), addr: reg(2), width: Width::W16, endian: Endian::Big, sign_ext: true }).unwrap();
    assert_eq!((c.kind, c.width, c.sign_ext, c.dst, c.num_operands), (CIrOpKind::Load, CWidth::W16, 1, 4, 1));
    assert_eq!(c.operands[0].kind, COperandKind::Reg);
    let br = to_c_op(&IrOp::Branch { cond: Some(reg(1)), target: BlockId(0), taken_pc: 0x10, fallthrough_pc: 0x14 }).unwrap();
    assert_eq!(br.num_operands, 3);
    assert_eq!((br.operands[1].imm, br.operands[2].imm), (0x10, 0x14));
    let rf = to_c_op(&IrOp::ReadFlag { dst: VReg(2), flag: FlagKind::Carry }).unwrap();
    assert_eq!(rf.flag_kind, vasjit::ffi::CFlagKind::Carry);
    let sf = to_c_op(&IrOp::SetFlags { op: FlagOp::TestOp, a: reg(1), b: imm(0), width: Width::W32 }).unwrap();
    assert_eq!(sf.flag_op, vasjit::ffi::CFlagOp::TestOp);
    let nine = IrOp::Intrinsic { id: IntrinsicId(1), effects: SideEffects::Pure, operands: (0..9).map(reg).collect(), dst: None };
    assert_eq!(to_c_op(&nine).unwrap_err(), CJitStatus::IntrinsicOverflow);
    let b = IrBlock { guest_pc: 0, ops: vec![nine] };
    let alloc = linear_scan(&b);
    assert_eq!(marshal_block(&b, &alloc).unwrap_err(), CJitStatus::IntrinsicOverflow);
}

#[test]
fn marshal_pairs_every_vreg_with_its_location() {
    let b = IrBlock { guest_pc: 0, ops: vec![IrOp::Add { dst: VReg(3), a: imm(1), b: imm(1), width: Width::W32 }, IrOp::Return] };
    let alloc = linear_scan(&b);
    let (ops, entries) = marshal_block(&b, &alloc).unwrap();
    assert_eq!(ops.len(), 2);
    assert_eq!(entries.len(), 1);
    assert_eq!(entries[0].vreg, 3);
    assert_eq!(entries[0].loc.kind, CLocationKind::Reg);
}

fn compiled(len: usize) -> CompiledBlock {
    CompiledBlock { code_ptr: 0x4000, code_len: len, patchable_exits: Vec::new() }
}

#[test]
fn cache_evicts_least_recent_first() {
    let mut c = CodeCache::new(100);
    assert!(c.insert(0x10, 0x20, compiled(60)).is_empty());
    assert!(c.insert(0x20, 0x30, compiled(30)).is_empty());
    c.touch(0x10);
    let released = c.insert(0x30, 0x40, compiled(40));
    assert_eq!(released.len(), 1);
    assert_eq!(released[0].code_len, 30);
    assert!(c.lookup(0x20).is_none());
    assert_eq!(c.lookup(0x10).unwrap().code_len, 60);
    assert_eq!(c.lookup(0x30).unwrap().code_len, 40);
}

#[test]
fn cache_replacement_releases_old_block() {
    let mut c = CodeCache::new(1000);
    c.insert(0x10, 0x20, compiled(10));
    let released = c.insert(0x10, 0x20, compiled(20));
    assert_eq!(released.len(), 1);
    assert_eq!(released[0].code_len, 10);
    assert_eq!(c.lookup(0x10).unwrap().code_len, 20);
}

#[test]
fn hollywood_frame_from_bp_writes() {
    let f = hollywood::translate_frame(&[0x2100_0000 | 100 | (50 << 12), 0x0000_0c00]);
    assert_eq!((f.width, f.height, f.draws), (100, 50, 4));
    let f = hollywood::translate_frame(&[]);
    assert_eq!((f.width, f.height, f.draws), (640, 480, 1));
    let f = hollywood::translate_frame(&[0x2100_0000]);
    assert_eq!((f.width, f.height), (1, 1));
}

#[test]
fn maxwell_counts_draw_methods() {
    let mut s = Vec::new();
    s.extend_from_slice(&0x0002_0d80u32.to_le_bytes());
    s.extend_from_slice(&[0u8; 8]);
    s.extend_from_slice(&0x0000_0d74u32.to_le_bytes());
    s.extend_from_slice(&0x0000_0100u32.to_le_bytes());
    s.extend_from_slice(&[0xff, 0xff]);
    let f = maxwell::translate_frame(&s);
    assert_eq!((f.width, f.height, f.draws), (1280, 720, 2));
    let f = maxwell::translate_frame(&0x1fff_0d74u32.to_le_bytes());
    assert_eq!(f.draws, 1);
}

#[test]
fn empty_frame() {
    let f = GenericFrame::empty();
    assert_eq!((f.width, f.height, f.draws), (0, 0, 0));
}

#[test]
fn lowering_addi_defines_rd() {
    let f = WiiFrontend;
    let mut b = IrBuilder::new();
    let blk = b.new_block(0x8000_0000);
    let (d, _) = f.decode(&enc::addi(3, 0, 42).to_be_bytes(), 0x8000_0000);
    f.lower_to_ir(&d, &mut b, blk);
    assert_eq!(b.blocks[0].ops, vec![IrOp::Add { dst: VReg(0), a: imm(0), b: imm(42), width: Width::W32 }]);
    assert_eq!(b.gpr[3], Some(VReg(0)));
    assert_eq!(b.endian, Endian::Big);
}

#[test]
fn lowering_blr_ends_with_indirect_exit() {
    let f = WiiFrontend;
    let mut b = IrBuilder::new();
    let blk = b.new_block(0x8000_0000);
    let (d, _) = f.decode(&enc::blr().to_be_bytes(), 0x8000_0000);
    assert!(f.is_block_terminator(&d));
    f.lower_to_ir(&d, &mut b, blk);
    let last = b.blocks[0].ops.last().unwrap();
    assert!(last.is_control_flow());
}

#[test]
fn reading_a_register_twice_reuses_its_vreg() {
    let mut b = IrBuilder::new();
    let blk = b.new_block(0x8000_0000);
    let v1 = b.read_gpr(blk, 3);
    let v2 = b.read_gpr(blk, 3);
    assert_eq!(v1, VReg(0));
    assert_eq!(v2, v1);
    assert_eq!(b.next_vreg, 1);
    assert_eq!(
        b.blocks[0].ops,
        vec![IrOp::Intrinsic {
            id: IntrinsicId(vasjit::intrinsics::GET_GPR),
            effects: SideEffects::Pure,
            operands: vec![imm(3)],
            dst: Some(VReg(0)),
        }]
    );
}

#[test]
fn spill_offsets_are_distinct_multiples_of_eight() {
    let mut ops: Vec<IrOp> = (0..20).map(|i| IrOp::Add { dst: VReg(i), a: imm(1), b: imm(1), width: Width::W64 }).collect();
    ops.push(IrOp::Intrinsic { id: IntrinsicId(0), effects: SideEffects::Pure, operands: (0..20).map(|i| VOperand::Reg(VReg(i))).collect(), dst: None });
    let a = linear_scan(&IrBlock { guest_pc: 0, ops });
    let mut offs: Vec<u32> = a.map.values().filter_map(|l| match l { Location::Spill(o) => Some(*o), _ => None }).collect();
    offs.sort();
    assert_eq!(offs, (0..7).map(|k| k * 8).collect::<Vec<u32>>());
}
