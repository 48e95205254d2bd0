use vasjit::frontend_switch_arm64 as a64;
use vasjit::frontend_wii_ppc::{decode_word, enc, mask_mbme, PpcInsn};

#[test]
fn ret_decode() {
    let d = a64::decode_word(0xd65f03c0, 0);
    assert!(d.insn.is_terminator());
    assert_eq!(d.insn.mnemonic(), "ret");
}

#[test]
fn addi_fields() {
    match decode_word(enc::addi(3, 0, 42), 0).insn {
        PpcInsn::Addi { rd: 3, ra: 0, simm: 42 } => {}
        other => panic!("{:?}", other),
    }
}

#[test]
fn blr_term() {
    assert!(decode_word(enc::blr(), 0).insn.is_terminator());
}

#[test]
fn mask() {
    assert_eq!(mask_mbme(0, 31), 0xffff_ffff);
    assert_eq!(mask_mbme(16, 31), 0xffff);
}

#[test]
fn disasm_line() {
    let d = decode_word(0x3860_002a, 0x8000_0000);
    assert_eq!(d.disasm(0x8000_0000), "80000000:  3860002a  addi");
    assert_eq!(decode_word(enc::blr(), 0).disasm(0x10), "00000010:  4e800020  bclr");
}

#[test]
fn mask_wraps_when_mb_exceeds_me() {
    assert_eq!(mask_mbme(28, 3), 0xf000_000f);
    assert_eq!(mask_mbme(5, 5), 0x0400_0000);
}

#[test]
fn encoders_round_trip() {
    assert!(matches!(decode_word(enc::addis(7, 2, -1), 0).insn, PpcInsn::Addis { rd: 7, ra: 2, simm: -1 }));
    assert!(matches!(decode_word(enc::stw(9, 1, -8), 0).insn, PpcInsn::Stw { rs: 9, ra: 1, d: -8, update: false }));
    assert!(matches!(decode_word(enc::ori(5, 6, 0xbeef), 0).insn, PpcInsn::Ori { ra: 5, rs: 6, uimm: 0xbeef }));
}

#[test]
fn branch_target_is_pc_relative() {
    // b +0x100 at 0x1000
    let b = (18u32 << 26) | 0x100;
    assert!(matches!(decode_word(b, 0x1000).insn, PpcInsn::B { target: 0x1100, lk: false }));
    // bl -4 at 0x1000
    let bl = (18u32 << 26) | (0x03ff_fffc) | 1;
    assert!(matches!(decode_word(bl, 0x1000).insn, PpcInsn::B { target: 0x0ffc, lk: true }));
}

#[test]
fn a64_nop_class_is_not_decoded() {
    let d = a64::decode_word(0xd503201f, 0);
    assert_eq!(d.insn.mnemonic(), "unknown");
}
