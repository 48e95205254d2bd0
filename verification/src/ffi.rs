//! Flat, C-compatible value types exchanged with the native code emitter.
use vstd::prelude::*;

verus! {

/// Host capability bitfield, one bit per instruction-set extension.
#[derive(Clone, Copy, Debug, Default)]
pub struct CHostCaps {
    pub bits: u32,
}

impl CHostCaps {
    pub const SSE2: u32 = 1;
    pub const SSE4_1: u32 = 2;
    pub const AVX: u32 = 4;
    pub const AVX2: u32 = 8;
    pub const FMA: u32 = 16;
    pub const BMI2: u32 = 32;
    pub const MOVBE: u32 = 64;
    pub const AVX512F: u32 = 128;

    /// True when at least one of the bits of `bit` is present.
    pub fn has(self, bit: u32) -> (r: bool)
        ensures
            r == (self.bits & bit != 0),
    {
        self.bits & bit != 0
    }
}

#[derive(Clone, Copy, Debug, PartialEq, Eq, Structural)]
pub enum CWidth {
    W8,
    W16,
    W32,
    W64,
    W128,
}

#[derive(Clone, Copy, Debug, PartialEq, Eq, Structural)]
pub enum CEndian {
    Little,
    Big,
}

#[derive(Clone, Copy, Debug, PartialEq, Eq, Structural)]
pub enum CIrOpKind {
    Add,
    Sub,
    And,
    Or,
    Xor,
    Mul,
    Shl,
    Shr,
    Sar,
    Load,
    Store,
    SetFlags,
    ReadFlag,
    Branch,
    IndirectBranch,
    Call,
    Return,
    VecAdd,
    VecMul,
    VecFma,
    Intrinsic,
}

#[derive(Clone, Copy, Debug, PartialEq, Eq, Structural)]
pub enum CFlagOp {
    AddOp,
    SubOp,
    AndOp,
    OrOp,
    XorOp,
    TestOp,
}

#[derive(Clone, Copy, Debug, PartialEq, Eq, Structural)]
pub enum CFlagKind {
    Zero,
    Carry,
    Overflow,
    Negative,
}

#[derive(Clone, Copy, Debug, PartialEq, Eq, Structural)]
pub enum COperandKind {
    Reg,
    Imm,
}

/// A flat operand: a vreg number when `kind` is `Reg`, an immediate when `Imm`.
#[derive(Clone, Copy, Debug, PartialEq, Eq, Structural)]
pub struct COperand {
    pub kind: COperandKind,
    pub reg: u32,
    pub imm: i64,
}

pub const CIR_MAX_OPERANDS: usize = 8;

/// One IR op in the fixed-size layout the emitter reads.
#[derive(Clone, Copy, Debug)]
pub struct CIrOp {
    pub kind: CIrOpKind,
    pub width: CWidth,
    pub endian: CEndian,
    pub sign_ext: u8,
    pub dst_valid: u8,
    pub dst: u32,
    pub num_operands: u32,
    pub operands: [COperand; 8],
    pub flag_op: CFlagOp,
    pub flag_kind: CFlagKind,
    pub intrinsic_id: u32,
    pub lanes: u8,
}

#[derive(Clone, Copy, Debug, PartialEq, Eq, Structural)]
pub enum CLocationKind {
    Reg,
    Spill,
}

/// The host registers the allocator hands out.
#[derive(Clone, Copy, Debug, PartialEq, Eq, Structural)]
pub enum CHostGpr {
    Rax,
    Rbx,
    Rcx,
    Rdx,
    Rsi,
    Rdi,
    R8,
    R9,
    R10,
    R11,
    R12,
    R13,
    R14,
}

#[derive(Clone, Copy, Debug, PartialEq, Eq, Structural)]
pub struct CLocation {
    pub kind: CLocationKind,
    pub gpr: CHostGpr,
    pub offset: u32,
}

#[derive(Clone, Copy, Debug, PartialEq, Eq, Structural)]
pub struct CAllocEntry {
    pub vreg: u32,
    pub loc: CLocation,
}

/// A patchable exit of emitted code: where its displacement lies and which guest pc it targets.
#[derive(Clone, Copy, Debug, PartialEq, Eq, Structural)]
pub struct CPatchSite {
    pub code_offset: u32,
    pub target_guest_pc: u64,
}

#[derive(Clone, Copy, Debug, PartialEq, Eq, Structural)]
pub enum CJitStatus {
    Success,
    InvalidInput,
    OutOfMemory,
    EmitFailed,
    IntrinsicOverflow,
}

} // verus!
