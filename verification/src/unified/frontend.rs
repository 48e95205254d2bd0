//! The guest contract of the unified core and its two guests: PowerPC
//! (big-endian) and AArch64 (little-endian). Both are fixed-width, four
//! bytes per instruction.
use crate::frontend::switch_arm64::le_word;
use crate::frontend::wii_ppc::{be_word, word_from_be_bytes};
use crate::unified::ir::Endian;
use vstd::prelude::*;

verus! {

pub struct RegisterLayout {
    pub gpr_count: u32,
    pub fpr_count: u32,
    pub vector_reg_count: u32,
}

pub trait Frontend {
    type DecodedInsn;

    /// What decoding the four bytes `bytes` at `pc` yields.
    spec fn decode_spec(&self, bytes: Seq<u8>, pc: u64) -> Self::DecodedInsn;

    spec fn terminates(&self, insn: Self::DecodedInsn) -> bool;

    spec fn guest_endian(&self) -> Endian;

    /// Decodes the instruction at the start of `bytes`; returns it and its length.
    fn decode(&self, bytes: &[u8], pc: u64) -> (r: (Self::DecodedInsn, usize))
        requires
            bytes@.len() >= 4,
        ensures
            r.0 == self.decode_spec(bytes@.subrange(0, 4), pc),
            r.1 == 4,
    ;

    fn register_file_layout(&self) -> RegisterLayout;

    fn is_block_terminator(&self, insn: &Self::DecodedInsn) -> (r: bool)
        ensures
            r == self.terminates(*insn),
    ;

    /// The byte order of guest memory, carried by every load and store.
    fn endianness(&self) -> (r: Endian)
        ensures
            r == self.guest_endian(),
    ;
}

/// A PowerPC word and its primary opcode (the top six bits).
#[derive(Clone, Copy, Debug, PartialEq, Eq, Structural)]
pub struct DecodedPpc {
    pub raw: u32,
    pub opcode: u8,
}

pub struct WiiFrontend;

impl Frontend for WiiFrontend {
    type DecodedInsn = DecodedPpc;

    open spec fn decode_spec(&self, bytes: Seq<u8>, pc: u64) -> DecodedPpc {
        let raw = be_word(bytes);
        DecodedPpc { raw, opcode: (raw >> 26) as u8 }
    }

    /// Branch (18), conditional branch (16) and the opcode-19 group end a block.
    open spec fn terminates(&self, insn: DecodedPpc) -> bool {
        insn.opcode == 18 || insn.opcode == 16 || insn.opcode == 19
    }

    open spec fn guest_endian(&self) -> Endian {
        Endian::Big
    }

    fn decode(&self, bytes: &[u8], pc: u64) -> (r: (DecodedPpc, usize)) {
        let raw = word_from_be_bytes(bytes[0], bytes[1], bytes[2], bytes[3]);
        assert(seq![bytes@[0], bytes@[1], bytes@[2], bytes@[3]] =~= bytes@.subrange(0, 4));
        let opcode = (raw >> 26) as u8;
        (DecodedPpc { raw, opcode }, 4)
    }

    fn register_file_layout(&self) -> (r: RegisterLayout)
        ensures
            r.gpr_count == 32 && r.fpr_count == 32 && r.vector_reg_count == 32,
    {
        RegisterLayout { gpr_count: 32, fpr_count: 32, vector_reg_count: 32 }
    }

    fn is_block_terminator(&self, insn: &DecodedPpc) -> (r: bool) {
        insn.opcode == 18 || insn.opcode == 16 || insn.opcode == 19
    }

    fn endianness(&self) -> (r: Endian) {
        Endian::Big
    }
}

/// An AArch64 word and its top-level encoding class (bits 25..28).
#[derive(Clone, Copy, Debug, PartialEq, Eq, Structural)]
pub struct DecodedA64 {
    pub raw: u32,
    pub class_bits: u8,
}

pub struct SwitchFrontend;

impl Frontend for SwitchFrontend {
    type DecodedInsn = DecodedA64;

    open spec fn decode_spec(&self, bytes: Seq<u8>, pc: u64) -> DecodedA64 {
        let raw = le_word(bytes);
        DecodedA64 { raw, class_bits: ((raw >> 25) & 0xf) as u8 }
    }

    /// The branch, exception and system classes (0b1010, 0b1011) end a block.
    open spec fn terminates(&self, insn: DecodedA64) -> bool {
        insn.class_bits == 0b1010 || insn.class_bits == 0b1011
    }

    open spec fn guest_endian(&self) -> Endian {
        Endian::Little
    }

    fn decode(&self, bytes: &[u8], pc: u64) -> (r: (DecodedA64, usize)) {
        let raw: u32 = (bytes[0] as u32) + (bytes[1] as u32) * 0x100 + (bytes[2] as u32) * 0x1_0000 + (bytes[3] as u32)
            * 0x100_0000;
        assert(le_word(bytes@.subrange(0, 4)) == raw);
        proof {
            assert((raw >> 25) & 0xf < 16) by (bit_vector);
        }
        let class_bits = ((raw >> 25) & 0xf) as u8;
        (DecodedA64 { raw, class_bits }, 4)
    }

    fn register_file_layout(&self) -> (r: RegisterLayout)
        ensures
            r.gpr_count == 31 && r.fpr_count == 32 && r.vector_reg_count == 32,
    {
        RegisterLayout { gpr_count: 31, fpr_count: 32, vector_reg_count: 32 }
    }

    fn is_block_terminator(&self, insn: &DecodedA64) -> (r: bool) {
        insn.class_bits == 0b1010 || insn.class_bits == 0b1011
    }

    fn endianness(&self) -> (r: Endian) {
        Endian::Little
    }
}

} // verus!
