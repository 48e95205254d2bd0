//! The guest-specific surface: each guest system decodes its instructions and
//! lowers them into the universal IR through this trait.
pub mod switch_arm64;
pub mod wii_ppc;

use crate::ir::{block_pcs, BlockId, BuilderView, Endian, IrBuilder};
use vstd::prelude::*;

verus! {

pub struct RegisterLayout {
    pub gpr_count: u8,
    pub fpr_count: u8,
    pub vector_reg_count: u8,
}

pub trait Frontend {
    type DecodedInsn;

    /// What decoding the four bytes `bytes` at `pc` yields.
    spec fn decode_spec(&self, bytes: Seq<u8>, pc: u64) -> Self::DecodedInsn;

    /// Instructions this frontend can lower (register numbers in range).
    spec fn lowerable(&self, insn: Self::DecodedInsn) -> bool;

    /// The builder state after lowering `insn` into `block`.
    spec fn lower_spec(&self, m: BuilderView, insn: Self::DecodedInsn, block: BlockId) -> BuilderView;

    spec fn terminates(&self, insn: Self::DecodedInsn) -> bool;

    spec fn guest_endian(&self) -> Endian;

    /// Lowering one instruction keeps the blocks' number and start pcs and
    /// takes at most 32 fresh vregs.
    proof fn lemma_lower_bounds(&self, m: BuilderView, insn: Self::DecodedInsn, block: BlockId)
        requires
            m.valid_block(block),
            self.lowerable(insn),
        ensures
            self.lower_spec(m, insn, block).blocks.len() == m.blocks.len(),
            m.next_vreg <= self.lower_spec(m, insn, block).next_vreg <= m.next_vreg + 32,
            block_pcs(self.lower_spec(m, insn, block)) == block_pcs(m),
    ;

    fn decode(&self, bytes: &[u8], pc: u64) -> (r: (Self::DecodedInsn, usize))
        requires
            bytes@.len() >= 4,
        ensures
            r.0 == self.decode_spec(bytes@.subrange(0, 4), pc),
            r.1 == 4,
            self.lowerable(r.0),
    ;

    fn lower_to_ir(&self, insn: &Self::DecodedInsn, ir: &mut IrBuilder, block: BlockId)
        requires
            old(ir).wf(),
            old(ir)@.valid_block(block),
            self.lowerable(*insn),
            self.lower_spec(old(ir)@, *insn, block).next_vreg <= u32::MAX,
        ensures
            final(ir).wf(),
            final(ir)@ == self.lower_spec(old(ir)@, *insn, block),
    ;

    fn register_file_layout(&self) -> RegisterLayout;

    fn is_block_terminator(&self, insn: &Self::DecodedInsn) -> (r: bool)
        ensures
            r == self.terminates(*insn),
    ;

    fn endianness(&self) -> (r: Endian)
        ensures
            r == self.guest_endian(),
    ;
}

} // verus!
