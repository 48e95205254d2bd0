//! AArch64 (Tegra X1) frontend for a subset of the ISA, decoded by
//! instruction class. Guest memory is little-endian.
use crate::frontend::{Frontend, RegisterLayout};
use crate::ir::{lemma_flush_indices_frame, BinOp, BlockId, BuilderView, Endian, IrBuilder, VOperand, Width};
use vstd::prelude::*;

verus! {

broadcast use lemma_flush_indices_frame;

#[derive(Debug, Clone, Copy, PartialEq, Eq, Structural)]
pub struct DecodedA64 {
    pub raw: u32,
    pub insn: A64Insn,
}

#[derive(Debug, Clone, Copy, PartialEq, Eq, Structural)]
pub enum A64Insn {
    Nop,
    AddImm { rd: u8, rn: u8, imm: u32, sf: bool },
    Movz { rd: u8, imm: u16, hw: u8, sf: bool },
    Br { rn: u8, ret: bool },
    BImm { target: u64, link: bool },
    Unknown { raw: u32 },
}

pub open spec fn a64_mnemonic(insn: A64Insn) -> Seq<char> {
    match insn {
        A64Insn::Nop => "nop"@,
        A64Insn::AddImm { .. } => "add"@,
        A64Insn::Movz { .. } => "movz"@,
        A64Insn::Br { ret, .. } => if ret {
            "ret"@
        } else {
            "br"@
        },
        A64Insn::BImm { link, .. } => if link {
            "bl"@
        } else {
            "b"@
        },
        A64Insn::Unknown { .. } => "unknown"@,
    }
}

impl A64Insn {
    pub open spec fn terminates(self) -> bool {
        self is Br || self is BImm || self is Unknown
    }

    /// Register numbers name one of the 32 registers; MOVZ shifts by at most 48.
    pub open spec fn wf(self) -> bool {
        match self {
            A64Insn::AddImm { rd, rn, .. } => rd < 32 && rn < 32,
            A64Insn::Movz { rd, hw, .. } => rd < 32 && hw < 4,
            A64Insn::Br { rn, .. } => rn < 32,
            _ => true,
        }
    }

    pub fn mnemonic(self) -> (r: &'static str)
        ensures
            r@ == a64_mnemonic(self),
    {
        match self {
            A64Insn::Nop => "nop",
            A64Insn::AddImm { .. } => "add",
            A64Insn::Movz { .. } => "movz",
            A64Insn::Br { ret: true, .. } => "ret",
            A64Insn::Br { .. } => "br",
            A64Insn::BImm { link: true, .. } => "bl",
            A64Insn::BImm { .. } => "b",
            A64Insn::Unknown { .. } => "unknown",
        }
    }

    pub fn is_terminator(self) -> (r: bool)
        ensures
            r == self.terminates(),
    {
        match self {
            A64Insn::Br { .. } | A64Insn::BImm { .. } | A64Insn::Unknown { .. } => true,
            _ => false,
        }
    }
}

/// The B/BL displacement: imm26 sign-extended and scaled by 4.
pub open spec fn imm26_offset(raw: u32) -> int {
    let f = (raw & 0x03ff_ffff) as int;
    4 * (if f >= 0x0200_0000 {
        f - 0x0400_0000
    } else {
        f
    })
}

/// The decoding table, by the instruction class in bits 25..28.
pub open spec fn a64_decode_insn(raw: u32, pc: u64) -> A64Insn {
    let class = (raw >> 25) & 0xf;
    if class == 8 || class == 9 {
        let op0 = (raw >> 23) & 7;
        let sf = (raw >> 31) != 0;
        let rd = (raw & 0x1f) as u8;
        let rn = ((raw >> 5) & 0x1f) as u8;
        if op0 == 2 || op0 == 3 {
            A64Insn::AddImm { rd, rn, imm: (raw >> 10) & 0xfff, sf }
        } else if op0 == 5 {
            A64Insn::Movz { rd, imm: ((raw >> 5) & 0xffff) as u16, hw: ((raw >> 21) & 3) as u8, sf }
        } else {
            A64Insn::Unknown { raw }
        }
    } else if class == 10 || class == 11 {
        if (raw >> 26) == 5 || (raw >> 26) == 0x25 {
            A64Insn::BImm {
                target: ((pc as int + imm26_offset(raw)) % 0x1_0000_0000_0000_0000) as u64,
                link: (raw >> 31) & 1 != 0,
            }
        } else if (raw >> 25) & 0x7f == 0x6b {
            let opc = (raw >> 21) & 0xf;
            let rn = ((raw >> 5) & 0x1f) as u8;
            if opc == 2 {
                A64Insn::Br { rn, ret: true }
            } else if opc == 0 {
                A64Insn::Br { rn, ret: false }
            } else {
                A64Insn::Unknown { raw }
            }
        } else {
            A64Insn::Unknown { raw }
        }
    } else if raw == 0xd503201f {
        A64Insn::Nop
    } else {
        A64Insn::Unknown { raw }
    }
}

proof fn lemma_a64_fields(raw: u32)
    ensures
        (raw >> 25) & 0xf < 16,
        (raw >> 23) & 7 < 8,
        raw & 0x1f < 32,
        (raw >> 5) & 0x1f < 32,
        (raw >> 10) & 0xfff < 0x1000,
        (raw >> 5) & 0xffff < 0x1_0000,
        (raw >> 21) & 3 < 4,
        (raw >> 21) & 0xf < 16,
        (raw >> 25) & 0x7f < 128,
        raw & 0x03ff_ffff < 0x0400_0000,
        ((raw & 0x03ff_ffff) & 0x0200_0000 != 0) == ((raw & 0x03ff_ffff) >= 0x0200_0000),
{
    assert((raw >> 25) & 0xf < 16 && (raw >> 23) & 7 < 8 && raw & 0x1f < 32 && (raw >> 5) & 0x1f < 32 && (raw
        >> 10) & 0xfff < 0x1000 && (raw >> 5) & 0xffff < 0x1_0000 && (raw >> 21) & 3 < 4 && (raw >> 21) & 0xf
        < 16 && (raw >> 25) & 0x7f < 128 && raw & 0x03ff_ffff < 0x0400_0000 && ((raw & 0x03ff_ffff)
        & 0x0200_0000 != 0) == ((raw & 0x03ff_ffff) >= 0x0200_0000)) by (bit_vector);
}

proof fn lemma_sext_scaled(g: u64)
    requires
        g < 0x1000_0000,
    ensures
        g | 0xffff_ffff_f000_0000u64 == g + 0xffff_ffff_f000_0000u64,
{
    assert(g | 0xffff_ffff_f000_0000u64 == g + 0xffff_ffff_f000_0000u64) by (bit_vector)
        requires
            g < 0x1000_0000,
    ;
}

pub open spec fn a64_decode(raw: u32, pc: u64) -> DecodedA64 {
    DecodedA64 { raw, insn: a64_decode_insn(raw, pc) }
}

pub fn decode_word(raw: u32, pc: u64) -> (r: DecodedA64)
    ensures
        r == a64_decode(raw, pc),
        r.insn.wf(),
{
    proof {
        lemma_a64_fields(raw);
    }
    let class = ((raw >> 25) & 0xf) as u8;
    let insn = match class {
        8 | 9 => {
            let op0 = (raw >> 23) & 7;
            let sf = (raw >> 31) != 0;
            let rd = (raw & 0x1f) as u8;
            let rn = ((raw >> 5) & 0x1f) as u8;
            if op0 == 2 || op0 == 3 {
                let imm = (raw >> 10) & 0xfff;
                A64Insn::AddImm { rd, rn, imm, sf }
            } else if op0 == 5 {
                let imm = ((raw >> 5) & 0xffff) as u16;
                let hw = ((raw >> 21) & 3) as u8;
                A64Insn::Movz { rd, imm, hw, sf }
            } else {
                A64Insn::Unknown { raw }
            }
        },
        10 | 11 => {
            if (raw >> 26) == 5 || (raw >> 26) == 0x25 {
                let link = (raw >> 31) & 1 != 0;
                let f = (raw & 0x03ff_ffff) as u64;
                let g = f * 4;
                proof {
                    lemma_sext_scaled(g);
                }
                let off: u64 = if f & 0x0200_0000 != 0 {
                    g | 0xffff_ffff_f000_0000
                } else {
                    g
                };
                proof {
                    assert((f & 0x0200_0000 != 0) == (f >= 0x0200_0000)) by (bit_vector)
                        requires
                            f < 0x0400_0000,
                    ;
                }
                A64Insn::BImm { target: pc.wrapping_add(off), link }
            } else if (raw >> 25) & 0x7f == 0x6b {
                let opc = (raw >> 21) & 0xf;
                let rn = ((raw >> 5) & 0x1f) as u8;
                match opc {
                    2 => A64Insn::Br { rn, ret: true },
                    0 => A64Insn::Br { rn, ret: false },
                    _ => A64Insn::Unknown { raw },
                }
            } else {
                A64Insn::Unknown { raw }
            }
        },
        _ => {
            if raw == 0xd503201f {
                A64Insn::Nop
            } else {
                A64Insn::Unknown { raw }
            }
        },
    };
    DecodedA64 { raw, insn }
}

pub open spec fn width_of(sf: bool) -> Width {
    if sf {
        Width::W64
    } else {
        Width::W32
    }
}

/// Register 31 reads as zero and discards writes in these forms.
pub open spec fn write_unless_zr(m: BuilderView, rd: u8, v: crate::ir::VReg) -> BuilderView {
    if rd != 31 {
        m.write_gpr(rd, v)
    } else {
        m
    }
}

/// Builder state after lowering one AArch64 instruction into `block`.
pub open spec fn a64_lower(m0: BuilderView, insn: A64Insn, block: BlockId) -> BuilderView {
    let m = BuilderView { endian: Endian::Little, ..m0 };
    match insn {
        A64Insn::Nop => m,
        A64Insn::AddImm { rd, rn, imm, sf } => {
            let (m1, a) = if rn == 31 {
                (m, VOperand::Imm(0))
            } else {
                let (ma, v) = m.read_gpr(block, rn);
                (ma, VOperand::Reg(v))
            };
            let (m2, v) = m1.emit_binary(block, BinOp::Add, a, VOperand::Imm(imm as i64), width_of(sf));
            write_unless_zr(m2, rd, v)
        },
        A64Insn::Movz { rd, imm, hw, sf } => {
            let (m1, v) = m.emit_binary(
                block,
                BinOp::Or,
                VOperand::Imm(0),
                VOperand::Imm(((imm as u64) << ((hw as u32) * 16)) as i64),
                width_of(sf),
            );
            write_unless_zr(m1, rd, v)
        },
        A64Insn::BImm { target, link } => {
            let m1 = if link {
                let (ma, lr) = m.emit_binary(block, BinOp::Add, VOperand::Imm(m.next_pc() as i64), VOperand::Imm(0), Width::W64);
                ma.write_gpr(30, lr)
            } else {
                m
            };
            m1.emit_exit_uncond(block, target)
        },
        A64Insn::Br { rn, .. } => {
            let (m1, t) = m.read_gpr(block, rn);
            m1.emit_exit_indirect(block, t)
        },
        A64Insn::Unknown { raw } => m.emit_unimplemented(block, raw),
    }
}

pub open spec fn le_word(b: Seq<u8>) -> u32 {
    (b[3] as int * 0x100_0000 + b[2] as int * 0x1_0000 + b[1] as int * 0x100 + b[0] as int) as u32
}

pub struct SwitchFrontend;

impl Frontend for SwitchFrontend {
    type DecodedInsn = DecodedA64;

    open spec fn decode_spec(&self, bytes: Seq<u8>, pc: u64) -> DecodedA64 {
        a64_decode(le_word(bytes), pc)
    }

    open spec fn lowerable(&self, insn: DecodedA64) -> bool {
        insn.insn.wf()
    }

    open spec fn lower_spec(&self, m: BuilderView, insn: DecodedA64, block: BlockId) -> BuilderView {
        a64_lower(m, insn.insn, block)
    }

    open spec fn terminates(&self, insn: DecodedA64) -> bool {
        insn.insn.terminates()
    }

    open spec fn guest_endian(&self) -> Endian {
        Endian::Little
    }

    proof fn lemma_lower_bounds(&self, m: BuilderView, insn: DecodedA64, block: BlockId) {
        broadcast use crate::ir::lemma_flush_indices_frame, crate::ir::lemma_push_keeps_pcs;
    }

    fn decode(&self, bytes: &[u8], pc: u64) -> (r: (DecodedA64, usize)) {
        let raw = (bytes[3] as u32) * 0x100_0000 + (bytes[2] as u32) * 0x1_0000 + (bytes[1] as u32) * 0x100
            + (bytes[0] as u32);
        assert(le_word(bytes@.subrange(0, 4)) == raw);
        (decode_word(raw, pc), 4)
    }

    fn lower_to_ir(&self, insn: &DecodedA64, ir: &mut IrBuilder, block: BlockId) {
        ir.endian = Endian::Little;
        match insn.insn {
            A64Insn::Nop => {},
            A64Insn::AddImm { rd, rn, imm, sf } => {
                let w = if sf {
                    Width::W64
                } else {
                    Width::W32
                };
                let a = if rn == 31 {
                    VOperand::Imm(0)
                } else {
                    VOperand::Reg(ir.read_gpr(block, rn))
                };
                let v = ir.emit_binary(block, BinOp::Add, a, VOperand::Imm(imm as i64), w);
                if rd != 31 {
                    ir.write_gpr(rd, v);
                }
            },
            A64Insn::Movz { rd, imm, hw, sf } => {
                let w = if sf {
                    Width::W64
                } else {
                    Width::W32
                };
                let v = ir.emit_binary(
                    block,
                    BinOp::Or,
                    VOperand::Imm(0),
                    VOperand::Imm(((imm as u64) << ((hw as u32) * 16)) as i64),
                    w,
                );
                if rd != 31 {
                    ir.write_gpr(rd, v);
                }
            },
            A64Insn::BImm { target, link } => {
                if link {
                    let pc = ir.next_pc();
                    let lr = ir.emit_binary(block, BinOp::Add, VOperand::Imm(pc as i64), VOperand::Imm(0), Width::W64);
                    ir.write_gpr(30, lr);
                }
                ir.emit_exit_uncond(block, target);
            },
            A64Insn::Br { rn, .. } => {
                let t = ir.read_gpr(block, rn);
                ir.emit_exit_indirect(block, t);
            },
            A64Insn::Unknown { raw } => ir.emit_unimplemented(block, raw),
        }
    }

    fn register_file_layout(&self) -> (r: RegisterLayout)
        ensures
            r.gpr_count == 31 && r.fpr_count == 32 && r.vector_reg_count == 32,
    {
        RegisterLayout { gpr_count: 31, fpr_count: 32, vector_reg_count: 32 }
    }

    fn is_block_terminator(&self, insn: &DecodedA64) -> (r: bool) {
        insn.insn.is_terminator()
    }

    fn endianness(&self) -> (r: Endian) {
        Endian::Little
    }
}

// ---------------------------------------------------------------------------
// Decoding the encodings of the supported instructions gives back their fields.
// ---------------------------------------------------------------------------

pub open spec fn sf_bit(sf: bool) -> u32 {
    if sf {
        0x8000_0000u32
    } else {
        0u32
    }
}

/// `add rd, rn, #imm` (64-bit when `sf`), unshifted immediate.
pub open spec fn add_imm_word(sf: bool, rd: u8, rn: u8, imm: u32) -> u32 {
    sf_bit(sf) | 0x1100_0000u32 | (imm << 10) | ((rn as u32) << 5) | (rd as u32)
}

/// `movz rd, #imm, lsl #(16 * hw)` (64-bit when `sf`).
pub open spec fn movz_word(sf: bool, rd: u8, imm: u16, hw: u8) -> u32 {
    sf_bit(sf) | 0x5280_0000u32 | ((hw as u32) << 21) | ((imm as u32) << 5) | (rd as u32)
}

/// `ret rn` and `br rn`.
pub open spec fn ret_word(rn: u8) -> u32 {
    0xd65f_0000u32 | ((rn as u32) << 5)
}

pub open spec fn br_word(rn: u8) -> u32 {
    0xd61f_0000u32 | ((rn as u32) << 5)
}

/// Add-immediate, move-wide and register branches decode back to their fields:
/// the destination from bits 0..4, the source register from bits 5..9.
pub proof fn lemma_a64_round_trips(sf: bool, rd: u8, rn: u8, imm: u32, imm16: u16, hw: u8, pc: u64)
    requires
        rd < 32,
        rn < 32,
        imm < 0x1000,
        hw < 4,
    ensures
        a64_decode_insn(add_imm_word(sf, rd, rn, imm), pc) == (A64Insn::AddImm { rd, rn, imm, sf }),
        a64_decode_insn(movz_word(sf, rd, imm16, hw), pc) == (A64Insn::Movz { rd, imm: imm16, hw, sf }),
        a64_decode_insn(ret_word(rn), pc) == (A64Insn::Br { rn, ret: true }),
        a64_decode_insn(br_word(rn), pc) == (A64Insn::Br { rn, ret: false }),
{
    let s = sf_bit(sf);
    let d = rd as u32;
    let n = rn as u32;
    let i = imm16 as u32;
    let h = hw as u32;
    assert({
        let w = s | 0x1100_0000u32 | (imm << 10) | (n << 5) | d;
        &&& (w >> 25) & 0xf == 8
        &&& (w >> 23) & 7 == 2
        &&& ((w >> 31) != 0) == (s != 0)
        &&& w & 0x1f == d
        &&& (w >> 5) & 0x1f == n
        &&& (w >> 10) & 0xfff == imm
    }) by (bit_vector)
        requires
            s == 0 || s == 0x8000_0000u32,
            d < 32,
            n < 32,
            imm < 0x1000,
    ;
    assert({
        let w = s | 0x5280_0000u32 | (h << 21) | (i << 5) | d;
        &&& (w >> 25) & 0xf == 9
        &&& (w >> 23) & 7 == 5
        &&& ((w >> 31) != 0) == (s != 0)
        &&& w & 0x1f == d
        &&& (w >> 5) & 0xffff == i
        &&& (w >> 21) & 3 == h
    }) by (bit_vector)
        requires
            s == 0 || s == 0x8000_0000u32,
            d < 32,
            i < 0x1_0000,
            h < 4,
    ;
    assert({
        let w = 0xd65f_0000u32 | (n << 5);
        let v = 0xd61f_0000u32 | (n << 5);
        &&& (w >> 25) & 0xf == 11
        &&& (v >> 25) & 0xf == 11
        &&& (w >> 26) != 5 && (w >> 26) != 0x25
        &&& (v >> 26) != 5 && (v >> 26) != 0x25
        &&& (w >> 25) & 0x7f == 0x6b
        &&& (v >> 25) & 0x7f == 0x6b
        &&& (w >> 21) & 0xf == 2
        &&& (v >> 21) & 0xf == 0
        &&& (w >> 5) & 0x1f == n
        &&& (v >> 5) & 0x1f == n
    }) by (bit_vector)
        requires
            n < 32,
    ;
}

/// `add xd, xn, #imm` (or the 32-bit `w` form when `sf` is clear): `xn` is
/// read (register 31 reads as the constant 0), one `Add` of it and the
/// immediate defines a fresh vreg, and `xd` becomes that vreg unless it is
/// register 31.
#[verifier::spinoff_prover]
#[verifier::rlimit(40)]
pub proof fn lemma_add_imm_lowering(m: BuilderView, block: BlockId, rd: u8, rn: u8, imm: u32, sf: bool)
    requires
        m.valid_block(block),
        m.gpr.len() == 32,
        rd < 32,
        rn < 32,
    ensures
        ({
            let (m1, vn) = m.read_gpr(block, rn);
            let src = if rn == 31 { m } else { m1 };
            let first = if rn == 31 { VOperand::Imm(0) } else { VOperand::Reg(vn) };
            let v = crate::ir::VReg(src.next_vreg as u32);
            let r = a64_lower(m, A64Insn::AddImm { rd, rn, imm, sf }, block);
            &&& r.blocks[block.0 as int].ops == src.blocks[block.0 as int].ops.push(
                crate::ir::OpView::Add { dst: v, a: first, b: VOperand::Imm(imm as i64), width: if sf { Width::W64 } else { Width::W32 } },
            )
            &&& rd != 31 ==> r.gpr[rd as int] == Some(v)
            &&& rd == 31 ==> r.gpr == src.gpr
        }),
{
    let (m1, vn) = m.read_gpr(block, rn);
    assert(m1.blocks.len() == m.blocks.len());
    let ml = BuilderView { endian: Endian::Little, ..m };
    assert(ml.read_gpr(block, rn).0.blocks == m1.blocks);
    assert(ml.read_gpr(block, rn).0.gpr == m1.gpr);
    assert(ml.read_gpr(block, rn).0.next_vreg == m1.next_vreg);
    assert(ml.read_gpr(block, rn).1 == vn);
}

/// Guest words are little-endian: the first byte is the least significant and
/// the fourth the most.
pub proof fn lemma_le_word_byte_order(b: Seq<u8>)
    requires
        b.len() == 4,
    ensures
        le_word(b) / 0x100_0000 == b[3],
        le_word(b) % 0x100 == b[0],
        (le_word(b) / 0x1_0000) % 0x100 == b[2],
        (le_word(b) / 0x100) % 0x100 == b[1],
{
}

} // verus!
