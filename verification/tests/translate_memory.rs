use vasjit::frontend_wii_ppc::{enc, WiiFrontend};
use vasjit::intrinsics;
use vasjit::ir::{IntrinsicId, IrOp, SideEffects, VOperand, VReg};
use vasjit::memory::{fetch_offsets, write_span};
use vasjit::translate::{translate_block, GUEST_INSN_BYTES, MAX_BLOCK_INSNS};

fn window(words: &[u32]) -> Vec<u8> {
    let mut code = Vec::new();
    for w in words {
        code.extend_from_slice(&w.to_be_bytes());
    }
    code.resize(MAX_BLOCK_INSNS * GUEST_INSN_BYTES, 0);
    code
}

#[test]
fn block_ends_at_blr_and_folds_the_constant() {
    let code = window(&[enc::addi(3, 0, 42), enc::blr()]);
    let (block, alloc, end) = translate_block(&WiiFrontend, &code, 0x8000_0000).unwrap();
    assert_eq!(end, 0x8000_0008);
    assert_eq!(block.guest_pc, 0x8000_0000);
    assert_eq!(block.ops.len(), 5);
    assert_eq!(
        block.ops[1],
        IrOp::Intrinsic {
            id: IntrinsicId(intrinsics::SET_GPR),
            effects: SideEffects::Volatile,
            operands: vec![VOperand::Imm(3), VOperand::Imm(42)],
            dst: None,
        }
    );
    assert_eq!(block.ops[4], IrOp::IndirectBranch { target: VOperand::Reg(VReg(1)) });
    assert_eq!(alloc.map.len(), 1);
}

#[test]
fn block_without_terminator_stops_after_sixty_four_and_returns() {
    let words = vec![enc::addi(3, 0, 1); 64];
    let code = window(&words);
    let (block, _, end) = translate_block(&WiiFrontend, &code, 0x100).unwrap();
    assert_eq!(end, 0x100 + 256);
    assert_eq!(block.ops.len(), 3);
    assert_eq!(
        block.ops[1],
        IrOp::Intrinsic {
            id: IntrinsicId(intrinsics::SET_PC),
            effects: SideEffects::Volatile,
            operands: vec![VOperand::Imm(0x200)],
            dst: None,
        }
    );
    assert_eq!(block.ops[2], IrOp::Return);
}

#[test]
fn write_span_clips_at_the_end_of_the_mapping() {
    assert_eq!(write_span(10, 8, 16), (10, 6));
    assert_eq!(write_span(0xffff_fff0, 4, 16), (0, 4));
    assert_eq!(write_span(3, 2, 16), (3, 2));
}

#[test]
fn fetch_offsets_wrap() {
    assert_eq!(fetch_offsets(14, 16), [14, 15, 0, 1]);
    assert_eq!(fetch_offsets(0x1_0000_0002, 1 << 32), [2, 3, 4, 5]);
}
