use vasjit::unified::ir::{BlockId, Endian, FlagKind, FlagOp, IntrinsicId, IrBlock, IrOp, SideEffects, VOperand, VReg, Width};
use vasjit::unified::passes::{constant_fold, dead_flag_elimination, redundant_load_elimination, run_all, MemRange};

fn block(ops: Vec<IrOp>) -> IrBlock {
    IrBlock { id: BlockId(0), guest_start_pc: 0x8000_0000, ops }
}

fn imm(v: i64) -> VOperand {
    VOperand::Imm(v)
}

fn reg(n: u32) -> VOperand {
    VOperand::Reg(VReg(n))
}

#[test]
fn fold_propagates_constants() {
    let mut b = block(vec![
        IrOp::Add { dst: VReg(0), a: imm(2), b: imm(3), width: Width::W32 },
        IrOp::Mul { dst: VReg(1), a: reg(0), b: imm(4), width: Width::W32 },
        IrOp::And { dst: VReg(2), a: reg(1), b: imm(0xff), width: Width::W8 },
        IrOp::Store { addr: reg(9), val: reg(2), width: Width::W32, endian: Endian::Big },
    ]);
    constant_fold(&mut b);
    assert_eq!(b.ops.len(), 4);
    assert!(matches!(b.ops[0], IrOp::Add { dst: VReg(0), a: VOperand::Imm(5), b: VOperand::Imm(0), width: Width::W32 }));
    assert!(matches!(b.ops[1], IrOp::Mul { dst: VReg(1), a: VOperand::Imm(20), b: VOperand::Imm(1), .. }));
    assert!(matches!(b.ops[2], IrOp::And { dst: VReg(2), a: VOperand::Imm(20), b: VOperand::Imm(-1), .. }));
    assert!(matches!(b.ops[3], IrOp::Store { addr: VOperand::Reg(VReg(9)), val: VOperand::Imm(20), .. }));
    assert_eq!(b.id, BlockId(0));
    assert_eq!(b.guest_start_pc, 0x8000_0000);
}

#[test]
fn fold_cuts_to_width() {
    let mut b = block(vec![
        IrOp::Add { dst: VReg(0), a: imm(200), b: imm(100), width: Width::W8 },
        IrOp::Sar { dst: VReg(1), a: imm(0x80), amount: imm(1), width: Width::W8 },
        IrOp::Shl { dst: VReg(2), a: imm(1), amount: imm(33), width: Width::W32 },
        IrOp::Shr { dst: VReg(3), a: imm(-1), amount: imm(60), width: Width::W64 },
        IrOp::Sub { dst: VReg(4), a: imm(0), b: imm(1), width: Width::W16 },
    ]);
    constant_fold(&mut b);
    assert!(matches!(b.ops[0], IrOp::Add { a: VOperand::Imm(44), .. }));
    assert!(matches!(b.ops[1], IrOp::Sar { a: VOperand::Imm(0xc0), amount: VOperand::Imm(0), .. }));
    assert!(matches!(b.ops[2], IrOp::Shl { a: VOperand::Imm(2), amount: VOperand::Imm(0), .. }));
    assert!(matches!(b.ops[3], IrOp::Shr { a: VOperand::Imm(0xf), .. }));
    assert!(matches!(b.ops[4], IrOp::Sub { a: VOperand::Imm(0xffff), .. }));
}

#[test]
fn fold_leaves_vector_width_shifts_and_forgets_redefinitions() {
    let mut b = block(vec![
        IrOp::Add { dst: VReg(0), a: imm(1), b: imm(1), width: Width::W64 },
        IrOp::Shl { dst: VReg(1), a: reg(0), amount: imm(1), width: Width::W128 },
        IrOp::Add { dst: VReg(2), a: reg(1), b: imm(1), width: Width::W64 },
        IrOp::Load { dst: VReg(0), addr: imm(0x40), width: Width::W32, sign_ext: false, endian: Endian::Big },
        IrOp::Add { dst: VReg(3), a: reg(0), b: imm(1), width: Width::W64 },
    ]);
    constant_fold(&mut b);
    assert!(matches!(b.ops[1], IrOp::Shl { a: VOperand::Imm(2), amount: VOperand::Imm(1), width: Width::W128, .. }));
    assert!(matches!(b.ops[2], IrOp::Add { a: VOperand::Reg(VReg(1)), .. }));
    assert!(matches!(b.ops[4], IrOp::Add { a: VOperand::Reg(VReg(0)), .. }));
}

#[test]
fn dead_flags_removed() {
    let set = |op| IrOp::SetFlags { op, a: imm(1), b: imm(2), width: Width::W32 };
    let mut b = block(vec![
        set(FlagOp::AddOp),
        set(FlagOp::SubOp),
        IrOp::ReadFlag { dst: VReg(0), flag: FlagKind::Zero },
        set(FlagOp::XorOp),
        IrOp::Return,
    ]);
    dead_flag_elimination(&mut b);
    assert_eq!(b.ops.len(), 3);
    assert!(matches!(b.ops[0], IrOp::SetFlags { op: FlagOp::SubOp, .. }));
    assert!(matches!(b.ops[1], IrOp::ReadFlag { dst: VReg(0), flag: FlagKind::Zero }));
    assert!(matches!(b.ops[2], IrOp::Return));
}

#[test]
fn observed_flags_all_kept() {
    let mut b = block(vec![
        IrOp::SetFlags { op: FlagOp::ShiftOp, a: reg(1), b: imm(2), width: Width::W64 },
        IrOp::Add { dst: VReg(3), a: reg(1), b: imm(2), width: Width::W64 },
        IrOp::ReadFlag { dst: VReg(4), flag: FlagKind::Carry },
    ]);
    dead_flag_elimination(&mut b);
    assert_eq!(b.ops.len(), 3);
}

fn load(dst: u32, addr: i64, width: Width, sign_ext: bool) -> IrOp {
    IrOp::Load { dst: VReg(dst), addr: imm(addr), width, sign_ext, endian: Endian::Big }
}

#[test]
fn repeated_load_is_removed_and_substituted() {
    let mut b = block(vec![
        load(0, 0x100, Width::W32, false),
        load(1, 0x100, Width::W32, false),
        IrOp::Add { dst: VReg(2), a: reg(1), b: imm(1), width: Width::W32 },
    ]);
    redundant_load_elimination(&mut b);
    assert_eq!(b.ops.len(), 2);
    assert!(matches!(b.ops[0], IrOp::Load { dst: VReg(0), .. }));
    assert!(matches!(b.ops[1], IrOp::Add { dst: VReg(2), a: VOperand::Reg(VReg(0)), .. }));
}

#[test]
fn load_after_immediate_store_reads_it_back() {
    let mut b = block(vec![
        IrOp::Store { addr: imm(0x200), val: imm(0x1ff), width: Width::W8, endian: Endian::Big },
        load(3, 0x200, Width::W8, true),
        IrOp::Add { dst: VReg(4), a: reg(3), b: imm(0), width: Width::W64 },
        load(5, 0x200, Width::W8, false),
        IrOp::Add { dst: VReg(6), a: reg(5), b: imm(0), width: Width::W64 },
    ]);
    redundant_load_elimination(&mut b);
    assert_eq!(b.ops.len(), 3);
    assert!(matches!(b.ops[1], IrOp::Add { dst: VReg(4), a: VOperand::Imm(-1), .. }));
    assert!(matches!(b.ops[2], IrOp::Add { dst: VReg(6), a: VOperand::Imm(0xff), .. }));
}

#[test]
fn barriers_forget_memory_facts() {
    for barrier in [
        IrOp::Call { target: imm(0x40) },
        IrOp::Store { addr: reg(7), val: imm(1), width: Width::W32, endian: Endian::Big },
        IrOp::Store { addr: imm(0x102), val: imm(5), width: Width::W8, endian: Endian::Big },
        IrOp::Intrinsic { id: IntrinsicId(3), effects: SideEffects::WritesMem, operands: vec![], dst: None },
    ] {
        let mut b = block(vec![load(0, 0x100, Width::W32, false), barrier, load(1, 0x100, Width::W32, false)]);
        redundant_load_elimination(&mut b);
        assert_eq!(b.ops.len(), 3);
    }
    let mut b = block(vec![
        load(0, 0x100, Width::W32, false),
        IrOp::Intrinsic { id: IntrinsicId(3), effects: SideEffects::ReadsMem, operands: vec![], dst: None },
        load(1, 0x100, Width::W32, false),
    ]);
    redundant_load_elimination(&mut b);
    assert_eq!(b.ops.len(), 2);
}

#[test]
fn different_shapes_do_not_match() {
    let mut b = block(vec![load(0, 0x100, Width::W32, false), load(1, 0x100, Width::W16, false)]);
    redundant_load_elimination(&mut b);
    assert_eq!(b.ops.len(), 2);
}

#[test]
fn mem_ranges() {
    let r = MemRange::new(0x10, Width::W32).unwrap();
    assert_eq!(r, MemRange { start: 0x10, end: 0x14 });
    assert!(MemRange::new(-1, Width::W8).is_none());
    assert!(r.overlaps(MemRange::new(0x13, Width::W8).unwrap()));
    assert!(!r.overlaps(MemRange::new(0x14, Width::W8).unwrap()));
}

#[test]
fn pipeline_runs_in_order() {
    let mut b = block(vec![
        IrOp::Add { dst: VReg(0), a: imm(0x100), b: imm(0), width: Width::W64 },
        IrOp::Load { dst: VReg(1), addr: reg(0), width: Width::W32, sign_ext: false, endian: Endian::Big },
        IrOp::Load { dst: VReg(2), addr: reg(0), width: Width::W32, sign_ext: false, endian: Endian::Big },
        IrOp::SetFlags { op: FlagOp::AddOp, a: reg(1), b: reg(2), width: Width::W32 },
        IrOp::Return,
    ]);
    run_all(&mut b);
    assert_eq!(b.ops.len(), 3);
    assert!(matches!(b.ops[0], IrOp::Add { .. }));
    assert!(matches!(b.ops[1], IrOp::Load { dst: VReg(1), addr: VOperand::Imm(0x100), .. }));
    assert!(matches!(b.ops[2], IrOp::Return));
}

#[test]
fn folding_twice_changes_nothing_more() {
    let ops = || {
        vec![
            IrOp::And { dst: VReg(0), a: imm(0x1234), b: imm(0xff), width: Width::W16 },
            IrOp::Mul { dst: VReg(1), a: reg(0), b: imm(3), width: Width::W32 },
            IrOp::Sar { dst: VReg(2), a: imm(-16), amount: imm(2), width: Width::W64 },
            IrOp::Xor { dst: VReg(3), a: reg(1), b: reg(2), width: Width::W64 },
        ]
    };
    let mut once = block(ops());
    constant_fold(&mut once);
    let mut twice = block(ops());
    constant_fold(&mut twice);
    constant_fold(&mut twice);
    assert_eq!(format!("{:?}", once.ops), format!("{:?}", twice.ops));
    assert!(matches!(once.ops[0], IrOp::And { a: VOperand::Imm(0x34), b: VOperand::Imm(-1), .. }));
    assert!(matches!(once.ops[1], IrOp::Mul { a: VOperand::Imm(0x9c), b: VOperand::Imm(1), .. }));
    assert!(matches!(once.ops[2], IrOp::Sar { a: VOperand::Imm(-4), .. }));
    assert!(matches!(once.ops[3], IrOp::Xor { a: VOperand::Imm(-160), .. }));
}
