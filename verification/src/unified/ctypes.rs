//! Flat values crossing to the native emitter. The operand, width, endianness,
//! register and capability types are shared with `crate::ffi`; the ones below
//! carry this core's side-effect classes, spill locations and status codes.
pub use crate::ffi::{
    CEndian, CFlagKind, CHostCaps, CHostGpr, CIR_MAX_OPERANDS, CIrOpKind, COperand, COperandKind,
    CPatchSite, CWidth,
};
use vstd::prelude::*;

verus! {

#[derive(Clone, Copy, Debug, PartialEq, Eq, Structural)]
pub enum CFlagOp {
    AddOp,
    SubOp,
    AndOp,
    OrOp,
    XorOp,
    ShiftOp,
}

#[derive(Clone, Copy, Debug, PartialEq, Eq, Structural)]
pub enum CSideEffects {
    Pure,
    ReadsMem,
    WritesMem,
    ReadsAndWritesMem,
    Volatile,
}

/// Where a vreg lives: a host register, or a byte offset into the guest
/// state's spill area.
#[derive(Clone, Copy, Debug, PartialEq, Eq, Structural)]
pub enum CLocationKind {
    Reg,
    StateSpill,
}

#[derive(Clone, Copy, Debug, PartialEq, Eq, Structural)]
pub struct CLocation {
    pub kind: CLocationKind,
    pub gpr: CHostGpr,
    pub offset: u32,
}

#[derive(Clone, Copy, Debug, PartialEq, Eq, Structural)]
pub struct CAllocEntry {
    pub vreg: u32,
    pub loc: CLocation,
}

/// One IR operation in the fixed-size payload; fields an operation does not
/// use keep their zero value.
#[derive(Clone, Copy, Debug)]
pub struct CIrOp {
    pub kind: CIrOpKind,
    pub dst: u32,
    pub dst_valid: u8,
    pub width: CWidth,
    pub endian: CEndian,
    pub sign_ext: u8,
    pub lanes: u8,
    pub flag_kind: CFlagKind,
    pub flag_op: CFlagOp,
    pub side_effects: CSideEffects,
    pub intrinsic_id: u32,
    pub target_block: u32,
    pub num_operands: u8,
    pub operands: [COperand; CIR_MAX_OPERANDS],
}

#[derive(Clone, Copy, Debug, PartialEq, Eq, Structural)]
pub enum CJitStatus {
    Success,
    InvalidInput,
    EmitFailed,
    OutOfMemory,
    UnsupportedOp,
}

} // verus!
