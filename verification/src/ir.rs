//! Universal IR: the operation set every guest frontend lowers to, and the
//! block builder that frontends drive while lowering.
use crate::intrinsics;
use vstd::prelude::*;

verus! {

#[derive(Clone, Copy, Debug, PartialEq, Eq, Hash, Structural)]
pub struct VReg(pub u32);

#[derive(Clone, Copy, Debug, PartialEq, Eq, Structural)]
pub struct BlockId(pub u32);

#[derive(Clone, Copy, Debug, PartialEq, Eq, Structural)]
pub struct IntrinsicId(pub u32);

#[derive(Clone, Copy, Debug, PartialEq, Eq, Structural)]
pub enum Width {
    W8,
    W16,
    W32,
    W64,
    W128,
}

impl Default for Width {
    fn default() -> (r: Width)
        ensures
            r == Width::W32,
    {
        Width::W32
    }
}

#[derive(Clone, Copy, Debug, PartialEq, Eq, Structural)]
pub enum Endian {
    Little,
    Big,
}

impl Default for Endian {
    fn default() -> (r: Endian)
        ensures
            r == Endian::Little,
    {
        Endian::Little
    }
}

#[derive(Clone, Copy, Debug, PartialEq, Eq, Structural)]
pub enum VOperand {
    Reg(VReg),
    Imm(i64),
}

#[derive(Clone, Copy, Debug, PartialEq, Eq, Structural)]
pub enum BinOp {
    Add,
    Sub,
    And,
    Or,
    Xor,
    Mul,
    Shl,
    Shr,
    Sar,
}

#[derive(Clone, Copy, Debug, PartialEq, Eq, Structural)]
pub enum FlagOp {
    AddOp,
    SubOp,
    AndOp,
    OrOp,
    XorOp,
    TestOp,
}

#[derive(Clone, Copy, Debug, PartialEq, Eq, Structural)]
pub enum FlagKind {
    Zero,
    Carry,
    Overflow,
    Negative,
}

#[derive(Clone, Copy, Debug, PartialEq, Eq, Structural)]
pub enum SideEffects {
    Pure,
    ReadsMem,
    WritesMem,
    Volatile,
}

#[derive(Clone, Debug, PartialEq, Eq)]
pub enum IrOp {
    Add { dst: VReg, a: VOperand, b: VOperand, width: Width },
    Sub { dst: VReg, a: VOperand, b: VOperand, width: Width },
    And { dst: VReg, a: VOperand, b: VOperand, width: Width },
    Or { dst: VReg, a: VOperand, b: VOperand, width: Width },
    Xor { dst: VReg, a: VOperand, b: VOperand, width: Width },
    Mul { dst: VReg, a: VOperand, b: VOperand, width: Width },
    Shl { dst: VReg, a: VOperand, b: VOperand, width: Width },
    Shr { dst: VReg, a: VOperand, b: VOperand, width: Width },
    Sar { dst: VReg, a: VOperand, b: VOperand, width: Width },
    Load { dst: VReg, addr: VOperand, width: Width, endian: Endian, sign_ext: bool },
    Store { addr: VOperand, val: VOperand, width: Width, endian: Endian },
    SetFlags { op: FlagOp, a: VOperand, b: VOperand, width: Width },
    ReadFlag { dst: VReg, flag: FlagKind },
    Branch { cond: Option<VOperand>, target: BlockId, taken_pc: u64, fallthrough_pc: u64 },
    IndirectBranch { target: VOperand },
    Call { target: VOperand },
    Return,
    VecAdd { dst: VReg, a: VOperand, b: VOperand, lanes: u8, width: Width },
    VecMul { dst: VReg, a: VOperand, b: VOperand, lanes: u8, width: Width },
    VecFma { dst: VReg, a: VOperand, b: VOperand, c: VOperand, lanes: u8 },
    Intrinsic { id: IntrinsicId, effects: SideEffects, operands: Vec<VOperand>, dst: Option<VReg> },
}

/// Mathematical value of an `IrOp`: the same operation, with the operand list
/// of an intrinsic seen as a sequence.
pub enum OpView {
    Add { dst: VReg, a: VOperand, b: VOperand, width: Width },
    Sub { dst: VReg, a: VOperand, b: VOperand, width: Width },
    And { dst: VReg, a: VOperand, b: VOperand, width: Width },
    Or { dst: VReg, a: VOperand, b: VOperand, width: Width },
    Xor { dst: VReg, a: VOperand, b: VOperand, width: Width },
    Mul { dst: VReg, a: VOperand, b: VOperand, width: Width },
    Shl { dst: VReg, a: VOperand, b: VOperand, width: Width },
    Shr { dst: VReg, a: VOperand, b: VOperand, width: Width },
    Sar { dst: VReg, a: VOperand, b: VOperand, width: Width },
    Load { dst: VReg, addr: VOperand, width: Width, endian: Endian, sign_ext: bool },
    Store { addr: VOperand, val: VOperand, width: Width, endian: Endian },
    SetFlags { op: FlagOp, a: VOperand, b: VOperand, width: Width },
    ReadFlag { dst: VReg, flag: FlagKind },
    Branch { cond: Option<VOperand>, target: BlockId, taken_pc: u64, fallthrough_pc: u64 },
    IndirectBranch { target: VOperand },
    Call { target: VOperand },
    Return,
    VecAdd { dst: VReg, a: VOperand, b: VOperand, lanes: u8, width: Width },
    VecMul { dst: VReg, a: VOperand, b: VOperand, lanes: u8, width: Width },
    VecFma { dst: VReg, a: VOperand, b: VOperand, c: VOperand, lanes: u8 },
    Intrinsic { id: IntrinsicId, effects: SideEffects, operands: Seq<VOperand>, dst: Option<VReg> },
}

impl View for IrOp {
    type V = OpView;

    open spec fn view(&self) -> OpView {
        match *self {
            IrOp::Add { dst, a, b, width } => OpView::Add { dst, a, b, width },
            IrOp::Sub { dst, a, b, width } => OpView::Sub { dst, a, b, width },
            IrOp::And { dst, a, b, width } => OpView::And { dst, a, b, width },
            IrOp::Or { dst, a, b, width } => OpView::Or { dst, a, b, width },
            IrOp::Xor { dst, a, b, width } => OpView::Xor { dst, a, b, width },
            IrOp::Mul { dst, a, b, width } => OpView::Mul { dst, a, b, width },
            IrOp::Shl { dst, a, b, width } => OpView::Shl { dst, a, b, width },
            IrOp::Shr { dst, a, b, width } => OpView::Shr { dst, a, b, width },
            IrOp::Sar { dst, a, b, width } => OpView::Sar { dst, a, b, width },
            IrOp::Load { dst, addr, width, endian, sign_ext } => OpView::Load {
                dst,
                addr,
                width,
                endian,
                sign_ext,
            },
            IrOp::Store { addr, val, width, endian } => OpView::Store { addr, val, width, endian },
            IrOp::SetFlags { op, a, b, width } => OpView::SetFlags { op, a, b, width },
            IrOp::ReadFlag { dst, flag } => OpView::ReadFlag { dst, flag },
            IrOp::Branch { cond, target, taken_pc, fallthrough_pc } => OpView::Branch {
                cond,
                target,
                taken_pc,
                fallthrough_pc,
            },
            IrOp::IndirectBranch { target } => OpView::IndirectBranch { target },
            IrOp::Call { target } => OpView::Call { target },
            IrOp::Return => OpView::Return,
            IrOp::VecAdd { dst, a, b, lanes, width } => OpView::VecAdd { dst, a, b, lanes, width },
            IrOp::VecMul { dst, a, b, lanes, width } => OpView::VecMul { dst, a, b, lanes, width },
            IrOp::VecFma { dst, a, b, c, lanes } => OpView::VecFma { dst, a, b, c, lanes },
            IrOp::Intrinsic { id, effects, operands, dst } => OpView::Intrinsic {
                id,
                effects,
                operands: operands@,
                dst,
            },
        }
    }
}

impl OpView {
    pub open spec fn is_control_flow(self) -> bool {
        self is Branch || self is IndirectBranch || self is Call || self is Return
    }

    /// The virtual register this operation defines, if any.
    pub open spec fn dst(self) -> Option<VReg> {
        match self {
            OpView::Add { dst, .. } | OpView::Sub { dst, .. } | OpView::And { dst, .. }
            | OpView::Or { dst, .. } | OpView::Xor { dst, .. } | OpView::Mul { dst, .. }
            | OpView::Shl { dst, .. } | OpView::Shr { dst, .. } | OpView::Sar { dst, .. }
            | OpView::Load { dst, .. } | OpView::ReadFlag { dst, .. } | OpView::VecAdd { dst, .. }
            | OpView::VecMul { dst, .. } | OpView::VecFma { dst, .. } => Some(dst),
            OpView::Intrinsic { dst, .. } => dst,
            _ => None,
        }
    }

    /// The operands this operation reads, in order.
    pub open spec fn operands(self) -> Seq<VOperand> {
        match self {
            OpView::Add { a, b, .. } | OpView::Sub { a, b, .. } | OpView::And { a, b, .. }
            | OpView::Or { a, b, .. } | OpView::Xor { a, b, .. } | OpView::Mul { a, b, .. }
            | OpView::Shl { a, b, .. } | OpView::Shr { a, b, .. } | OpView::Sar { a, b, .. }
            | OpView::VecAdd { a, b, .. } | OpView::VecMul { a, b, .. }
            | OpView::SetFlags { a, b, .. } => seq![a, b],
            OpView::VecFma { a, b, c, .. } => seq![a, b, c],
            OpView::Load { addr, .. } => seq![addr],
            OpView::Store { addr, val, .. } => seq![addr, val],
            OpView::Branch { cond, .. } => match cond {
                Some(c) => seq![c],
                None => Seq::empty(),
            },
            OpView::IndirectBranch { target } | OpView::Call { target } => seq![target],
            OpView::Intrinsic { operands, .. } => operands,
            _ => Seq::empty(),
        }
    }
}

/// Copies a slice of operands into a fresh vector.
pub fn copy_operands(src: &Vec<VOperand>) -> (r: Vec<VOperand>)
    ensures
        r@ == src@,
{
    let mut r: Vec<VOperand> = Vec::new();
    let mut i: usize = 0;
    while i < src.len()
        invariant
            i <= src.len(),
            r@ == src@.subrange(0, i as int),
        decreases src.len() - i,
    {
        r.push(src[i]);
        i = i + 1;
    }
    assert(r@ == src@.subrange(0, src@.len() as int));
    r
}

impl IrOp {
    pub fn is_control_flow(&self) -> (r: bool)
        ensures
            r == self@.is_control_flow(),
    {
        match self {
            IrOp::Branch { .. } | IrOp::IndirectBranch { .. } | IrOp::Call { .. } | IrOp::Return => {
                true
            },
            _ => false,
        }
    }

    pub fn dst(&self) -> (r: Option<VReg>)
        ensures
            r == self@.dst(),
    {
        match self {
            IrOp::Add { dst, .. } | IrOp::Sub { dst, .. } | IrOp::And { dst, .. } | IrOp::Or {
                dst,
                ..
            } | IrOp::Xor { dst, .. } | IrOp::Mul { dst, .. } | IrOp::Shl { dst, .. } | IrOp::Shr {
                dst,
                ..
            } | IrOp::Sar { dst, .. } | IrOp::Load { dst, .. } | IrOp::ReadFlag { dst, .. }
            | IrOp::VecAdd { dst, .. } | IrOp::VecMul { dst, .. } | IrOp::VecFma { dst, .. } => {
                Some(*dst)
            },
            IrOp::Intrinsic { dst, .. } => *dst,
            _ => None,
        }
    }

    pub fn operands(&self) -> (r: Vec<VOperand>)
        ensures
            r@ == self@.operands(),
    {
        match self {
            IrOp::Add { a, b, .. } | IrOp::Sub { a, b, .. } | IrOp::And { a, b, .. } | IrOp::Or {
                a,
                b,
                ..
            } | IrOp::Xor { a, b, .. } | IrOp::Mul { a, b, .. } | IrOp::Shl { a, b, .. }
            | IrOp::Shr { a, b, .. } | IrOp::Sar { a, b, .. } | IrOp::VecAdd { a, b, .. }
            | IrOp::VecMul { a, b, .. } | IrOp::SetFlags { a, b, .. } => {
                let r = vec![*a, *b];
                assert(r@ == seq![*a, *b]);
                r
            },
            IrOp::VecFma { a, b, c, .. } => {
                let r = vec![*a, *b, *c];
                assert(r@ == seq![*a, *b, *c]);
                r
            },
            IrOp::Load { addr, .. } => {
                let r = vec![*addr];
                assert(r@ == seq![*addr]);
                r
            },
            IrOp::Store { addr, val, .. } => {
                let r = vec![*addr, *val];
                assert(r@ == seq![*addr, *val]);
                r
            },
            IrOp::Branch { cond, .. } => match cond {
                Some(c) => {
                    let r = vec![*c];
                    assert(r@ == seq![*c]);
                    r
                },
                None => Vec::new(),
            },
            IrOp::IndirectBranch { target } | IrOp::Call { target } => {
                let r = vec![*target];
                assert(r@ == seq![*target]);
                r
            },
            IrOp::Intrinsic { operands, .. } => copy_operands(operands),
            _ => Vec::new(),
        }
    }
}

#[derive(Clone, Debug)]
pub struct IrBlock {
    pub guest_pc: u64,
    pub ops: Vec<IrOp>,
}

pub struct BlockView {
    pub guest_pc: u64,
    pub ops: Seq<OpView>,
}

impl View for IrBlock {
    type V = BlockView;

    open spec fn view(&self) -> BlockView {
        BlockView { guest_pc: self.guest_pc, ops: self.ops@.map_values(|o: IrOp| o@) }
    }
}

/// Mathematical state of an `IrBuilder`: the blocks built so far, the vreg
/// counter, the lowering context and the per-block register caches.
pub struct BuilderView {
    pub blocks: Seq<BlockView>,
    pub next_vreg: nat,
    pub endian: Endian,
    pub current_pc: u64,
    pub insn_len: u64,
    pub gpr: Seq<Option<VReg>>,
    pub fpr: Seq<Option<VReg>>,
    pub vec: Seq<Option<VReg>>,
    pub cr: Option<VReg>,
    pub lr: Option<VReg>,
    pub ctr: Option<VReg>,
    pub xer: Option<VReg>,
}

pub open spec fn no_regs() -> Seq<Option<VReg>> {
    Seq::new(32, |i: int| None)
}

pub open spec fn binary_op(op: BinOp, dst: VReg, a: VOperand, b: VOperand, width: Width) -> OpView {
    match op {
        BinOp::Add => OpView::Add { dst, a, b, width },
        BinOp::Sub => OpView::Sub { dst, a, b, width },
        BinOp::And => OpView::And { dst, a, b, width },
        BinOp::Or => OpView::Or { dst, a, b, width },
        BinOp::Xor => OpView::Xor { dst, a, b, width },
        BinOp::Mul => OpView::Mul { dst, a, b, width },
        BinOp::Shl => OpView::Shl { dst, a, b, width },
        BinOp::Shr => OpView::Shr { dst, a, b, width },
        BinOp::Sar => OpView::Sar { dst, a, b, width },
    }
}

pub open spec fn intrinsic(id: u32, effects: SideEffects, operands: Seq<VOperand>, dst: Option<VReg>) -> OpView {
    OpView::Intrinsic { id: IntrinsicId(id), effects, operands, dst }
}

impl BuilderView {
    pub open spec fn valid_block(self, block: BlockId) -> bool {
        block.0 < self.blocks.len()
    }

    /// Next guest pc: the current one advanced by the instruction length, wrapping.
    pub open spec fn next_pc(self) -> u64 {
        ((self.current_pc as int + self.insn_len as int) % 0x1_0000_0000_0000_0000) as u64
    }

    pub open spec fn fresh(self) -> (BuilderView, VReg) {
        (BuilderView { next_vreg: self.next_vreg + 1, ..self }, VReg(self.next_vreg as u32))
    }

    pub open spec fn push(self, block: BlockId, op: OpView) -> BuilderView {
        let b = self.blocks[block.0 as int];
        BuilderView {
            blocks: self.blocks.update(block.0 as int, BlockView { ops: b.ops.push(op), ..b }),
            ..self
        }
    }

    pub open spec fn new_block(self, guest_pc: u64) -> (BuilderView, BlockId) {
        (
            BuilderView {
                blocks: self.blocks.push(BlockView { guest_pc, ops: Seq::empty() }),
                gpr: no_regs(),
                fpr: no_regs(),
                vec: no_regs(),
                cr: None,
                lr: None,
                ctr: None,
                xer: None,
                ..self
            },
            BlockId(self.blocks.len() as u32),
        )
    }

    pub open spec fn emit_binary(self, block: BlockId, op: BinOp, a: VOperand, b: VOperand, width: Width) -> (BuilderView, VReg) {
        let (m, dst) = self.fresh();
        (m.push(block, binary_op(op, dst, a, b, width)), dst)
    }

    pub open spec fn emit_load(self, block: BlockId, addr: VOperand, width: Width, sign_ext: bool) -> (BuilderView, VReg) {
        let (m, dst) = self.fresh();
        (m.push(block, OpView::Load { dst, addr, width, endian: self.endian, sign_ext }), dst)
    }

    pub open spec fn emit_store(self, block: BlockId, addr: VOperand, val: VOperand, width: Width) -> BuilderView {
        self.push(block, OpView::Store { addr, val, width, endian: self.endian })
    }

    /// Reads a cached guest register, or emits a pure getter intrinsic for it.
    pub open spec fn read_cached(self, block: BlockId, cached: Option<VReg>, id: u32, operands: Seq<VOperand>) -> (BuilderView, VReg) {
        match cached {
            Some(v) => (self, v),
            None => {
                let (m, dst) = self.fresh();
                (m.push(block, intrinsic(id, SideEffects::Pure, operands, Some(dst))), dst)
            },
        }
    }

    pub open spec fn read_gpr(self, block: BlockId, n: u8) -> (BuilderView, VReg) {
        let (m, v) = self.read_cached(block, self.gpr[n as int], intrinsics::GET_GPR, seq![VOperand::Imm(n as i64)]);
        (BuilderView { gpr: m.gpr.update(n as int, Some(v)), ..m }, v)
    }

    pub open spec fn read_fpr(self, block: BlockId, n: u8) -> (BuilderView, VReg) {
        let (m, v) = self.read_cached(block, self.fpr[n as int], intrinsics::GET_FPR, seq![VOperand::Imm(n as i64)]);
        (BuilderView { fpr: m.fpr.update(n as int, Some(v)), ..m }, v)
    }

    pub open spec fn read_vec(self, block: BlockId, n: u8) -> (BuilderView, VReg) {
        let (m, v) = self.read_cached(block, self.vec[n as int], intrinsics::GET_VEC, seq![VOperand::Imm(n as i64)]);
        (BuilderView { vec: m.vec.update(n as int, Some(v)), ..m }, v)
    }

    pub open spec fn read_cr(self, block: BlockId) -> (BuilderView, VReg) {
        let (m, v) = self.read_cached(block, self.cr, intrinsics::GET_CR, Seq::empty());
        (BuilderView { cr: Some(v), ..m }, v)
    }

    pub open spec fn read_lr(self, block: BlockId) -> (BuilderView, VReg) {
        let (m, v) = self.read_cached(block, self.lr, intrinsics::GET_LR, Seq::empty());
        (BuilderView { lr: Some(v), ..m }, v)
    }

    pub open spec fn read_ctr(self, block: BlockId) -> (BuilderView, VReg) {
        let (m, v) = self.read_cached(block, self.ctr, intrinsics::GET_CTR, Seq::empty());
        (BuilderView { ctr: Some(v), ..m }, v)
    }

    pub open spec fn read_xer(self, block: BlockId) -> (BuilderView, VReg) {
        let (m, v) = self.read_cached(block, self.xer, intrinsics::GET_XER, Seq::empty());
        (BuilderView { xer: Some(v), ..m }, v)
    }

    /// Register 0 in D-form addressing reads as the constant 0.
    pub open spec fn read_gpr_ra(self, block: BlockId, ra: u8) -> (BuilderView, VOperand) {
        if ra == 0 {
            (self, VOperand::Imm(0))
        } else {
            let (m, v) = self.read_gpr(block, ra);
            (m, VOperand::Reg(v))
        }
    }

    pub open spec fn write_gpr(self, n: u8, v: VReg) -> BuilderView {
        BuilderView { gpr: self.gpr.update(n as int, Some(v)), ..self }
    }

    pub open spec fn write_fpr(self, n: u8, v: VReg) -> BuilderView {
        BuilderView { fpr: self.fpr.update(n as int, Some(v)), ..self }
    }

    pub open spec fn write_vec(self, n: u8, v: VReg) -> BuilderView {
        BuilderView { vec: self.vec.update(n as int, Some(v)), ..self }
    }

    pub open spec fn write_cr(self, v: VReg) -> BuilderView {
        BuilderView { cr: Some(v), ..self }
    }

    pub open spec fn write_lr(self, v: VReg) -> BuilderView {
        BuilderView { lr: Some(v), ..self }
    }

    pub open spec fn write_ctr(self, v: VReg) -> BuilderView {
        BuilderView { ctr: Some(v), ..self }
    }

    pub open spec fn write_xer(self, v: VReg) -> BuilderView {
        BuilderView { xer: Some(v), ..self }
    }

    pub open spec fn emit_get_cr_bit(self, block: BlockId, bit: u8) -> (BuilderView, VReg) {
        let (m, dst) = self.fresh();
        (m.push(block, intrinsic(intrinsics::GET_CR_BIT, SideEffects::Pure, seq![VOperand::Imm(bit as i64)], Some(dst))), dst)
    }

    /// Writing a CR field drops the cached whole-CR value.
    pub open spec fn emit_set_cr_field(self, block: BlockId, field: u8, val: VReg) -> BuilderView {
        let m = self.push(
            block,
            intrinsic(intrinsics::SET_CR_FIELD, SideEffects::Volatile, seq![VOperand::Imm(field as i64), VOperand::Reg(val)], None),
        );
        BuilderView { cr: None, ..m }
    }

    /// Sets flags from `op a, b`, then builds the CR field `(zero << 2) | negative` and writes field `crf`.
    pub open spec fn emit_flags_to_cr_field(self, block: BlockId, crf: u8, op: FlagOp, a: VOperand, b: VOperand, width: Width) -> BuilderView {
        let m1 = self.push(block, OpView::SetFlags { op, a, b, width });
        let (m2, z) = m1.fresh();
        let (m3, n) = m2.fresh();
        let m4 = m3.push(block, OpView::ReadFlag { dst: z, flag: FlagKind::Zero });
        let m5 = m4.push(block, OpView::ReadFlag { dst: n, flag: FlagKind::Negative });
        let (m6, shifted) = m5.emit_binary(block, BinOp::Shl, VOperand::Reg(z), VOperand::Imm(2), Width::W32);
        let (m7, field) = m6.emit_binary(block, BinOp::Or, VOperand::Reg(shifted), VOperand::Reg(n), Width::W32);
        m7.emit_set_cr_field(block, crf, field)
    }

    pub open spec fn emit_rc0_from_result(self, block: BlockId, result: VReg, width: Width) -> BuilderView {
        self.emit_flags_to_cr_field(block, 0, FlagOp::AndOp, VOperand::Reg(result), VOperand::Imm(-1i64), width)
    }

    pub open spec fn emit_cmp_cr_field(self, block: BlockId, crf: u8, a: VOperand, b: VOperand, width: Width) -> BuilderView {
        self.emit_flags_to_cr_field(block, crf, FlagOp::SubOp, a, b, width)
    }

    /// Emits a volatile setter for a cached register, if it is cached.
    pub open spec fn flush_cached(self, block: BlockId, cached: Option<VReg>, id: u32, prefix: Seq<VOperand>) -> BuilderView {
        match cached {
            Some(v) => self.push(block, intrinsic(id, SideEffects::Volatile, prefix.push(VOperand::Reg(v)), None)),
            None => self,
        }
    }

    /// Write-back of guest register `i`: its GPR, FPR and vector caches in that order.
    pub open spec fn flush_index(self, block: BlockId, i: nat) -> BuilderView {
        let imm = seq![VOperand::Imm(i as i64)];
        let m1 = self.flush_cached(block, self.gpr[i as int], intrinsics::SET_GPR, imm);
        let m2 = m1.flush_cached(block, self.fpr[i as int], intrinsics::SET_FPR, imm);
        m2.flush_cached(block, self.vec[i as int], intrinsics::SET_VEC, imm)
    }

    /// Write-back of the guest registers with index below `n`.
    pub open spec fn flush_indices(self, block: BlockId, n: nat) -> BuilderView
        decreases n,
    {
        if n == 0 {
            self
        } else {
            self.flush_indices(block, (n - 1) as nat).flush_index(block, (n - 1) as nat)
        }
    }

    /// Emits write-backs for every cached guest register, then CR, LR, CTR and XER.
    pub open spec fn flush_guest_state(self, block: BlockId) -> BuilderView {
        let m = self.flush_indices(block, 32);
        let m1 = m.flush_cached(block, self.cr, intrinsics::SET_CR, Seq::empty());
        let m2 = m1.flush_cached(block, self.lr, intrinsics::SET_LR, Seq::empty());
        let m3 = m2.flush_cached(block, self.ctr, intrinsics::SET_CTR, Seq::empty());
        m3.flush_cached(block, self.xer, intrinsics::SET_XER, Seq::empty())
    }

    pub open spec fn emit_set_pc(self, block: BlockId, pc: VOperand) -> BuilderView {
        self.push(block, intrinsic(intrinsics::SET_PC, SideEffects::Volatile, seq![pc], None))
    }

    pub open spec fn emit_exit_uncond(self, block: BlockId, target: u64) -> BuilderView {
        self.flush_guest_state(block).emit_set_pc(block, VOperand::Imm(target as i64)).push(
            block,
            OpView::Branch { cond: None, target: BlockId(0), taken_pc: target, fallthrough_pc: target },
        )
    }

    pub open spec fn emit_exit_cond(self, block: BlockId, cond: VReg, taken: u64, fall: u64) -> BuilderView {
        self.flush_guest_state(block).push(
            block,
            OpView::Branch { cond: Some(VOperand::Reg(cond)), target: BlockId(0), taken_pc: taken, fallthrough_pc: fall },
        )
    }

    pub open spec fn emit_exit_indirect(self, block: BlockId, target: VReg) -> BuilderView {
        self.flush_guest_state(block).emit_set_pc(block, VOperand::Reg(target)).push(
            block,
            OpView::IndirectBranch { target: VOperand::Reg(target) },
        )
    }

    pub open spec fn emit_return(self, block: BlockId) -> BuilderView {
        self.flush_guest_state(block).push(block, OpView::Return)
    }

    pub open spec fn emit_unimplemented(self, block: BlockId, raw: u32) -> BuilderView {
        self.push(block, intrinsic(intrinsics::UNIMPLEMENTED, SideEffects::Volatile, seq![VOperand::Imm(raw as i64)], None))
    }
}

/// Write-backs only append to the target block: they keep the block count,
/// the vreg counter, the lowering context and every register cache.
/// The start pc of each block.
pub open spec fn block_pcs(m: BuilderView) -> Seq<u64> {
    Seq::new(m.blocks.len(), |j: int| m.blocks[j].guest_pc)
}

pub broadcast proof fn lemma_push_keeps_pcs(m: BuilderView, block: BlockId, op: OpView)
    requires
        m.valid_block(block),
    ensures
        #[trigger] block_pcs(m.push(block, op)) == block_pcs(m),
{
    assert(block_pcs(m.push(block, op)) =~= block_pcs(m));
}

pub broadcast proof fn lemma_flush_indices_frame(m: BuilderView, block: BlockId, n: nat)
    requires
        m.valid_block(block),
    ensures
        (#[trigger] m.flush_indices(block, n)).blocks.len() == m.blocks.len(),
        m.flush_indices(block, n).next_vreg == m.next_vreg,
        m.flush_indices(block, n).gpr == m.gpr,
        m.flush_indices(block, n).fpr == m.fpr,
        m.flush_indices(block, n).vec == m.vec,
        m.flush_indices(block, n).cr == m.cr,
        m.flush_indices(block, n).lr == m.lr,
        m.flush_indices(block, n).ctr == m.ctr,
        m.flush_indices(block, n).xer == m.xer,
        m.flush_indices(block, n).endian == m.endian,
        m.flush_indices(block, n).current_pc == m.current_pc,
        m.flush_indices(block, n).insn_len == m.insn_len,
        forall|j: int| 0 <= j < m.blocks.len() ==> m.flush_indices(block, n).blocks[j].guest_pc == m.blocks[j].guest_pc,
        block_pcs(m.flush_indices(block, n)) == block_pcs(m),
    decreases n,
{
    broadcast use lemma_push_keeps_pcs;

    if n > 0 {
        lemma_flush_indices_frame(m, block, (n - 1) as nat);
    }
}

pub struct IrBuilder {
    pub blocks: Vec<IrBlock>,
    pub next_vreg: u32,
    pub endian: Endian,
    pub current_pc: u64,
    pub insn_len: u64,
    pub gpr: [Option<VReg>; 32],
    pub fpr: [Option<VReg>; 32],
    pub vec: [Option<VReg>; 32],
    pub cr: Option<VReg>,
    pub lr: Option<VReg>,
    pub ctr: Option<VReg>,
    pub xer: Option<VReg>,
}

impl View for IrBuilder {
    type V = BuilderView;

    open spec fn view(&self) -> BuilderView {
        BuilderView {
            blocks: self.blocks@.map_values(|b: IrBlock| b@),
            next_vreg: self.next_vreg as nat,
            endian: self.endian,
            current_pc: self.current_pc,
            insn_len: self.insn_len,
            gpr: self.gpr@,
            fpr: self.fpr@,
            vec: self.vec@,
            cr: self.cr,
            lr: self.lr,
            ctr: self.ctr,
            xer: self.xer,
        }
    }
}

impl IrBuilder {
    /// Each register cache has 32 slots.
    pub open spec fn wf(&self) -> bool {
        &&& self@.gpr.len() == 32
        &&& self@.fpr.len() == 32
        &&& self@.vec.len() == 32
    }

    pub fn new() -> (r: IrBuilder)
        ensures
            r.wf(),
            r@.blocks == Seq::<BlockView>::empty(),
            r@.next_vreg == 0,
            r@.endian == Endian::Little,
            r@.current_pc == 0,
            r@.insn_len == 4,
            r@.gpr == no_regs(),
            r@.fpr == no_regs(),
            r@.vec == no_regs(),
            r@.cr is None && r@.lr is None && r@.ctr is None && r@.xer is None,
    {
        let r = IrBuilder {
            blocks: Vec::new(),
            next_vreg: 0,
            endian: Endian::Little,
            current_pc: 0,
            insn_len: 4,
            gpr: [None; 32],
            fpr: [None; 32],
            vec: [None; 32],
            cr: None,
            lr: None,
            ctr: None,
            xer: None,
        };
        assert(r@.blocks =~= Seq::<BlockView>::empty());
        assert(r@.gpr =~= no_regs());
        assert(r@.fpr =~= no_regs());
        assert(r@.vec =~= no_regs());
        r
    }

    pub fn new_block(&mut self, guest_pc: u64) -> (r: BlockId)
        ensures
            final(self).wf(),
            (final(self)@, r) == old(self)@.new_block(guest_pc),
    {
        let id = BlockId(self.blocks.len() as u32);
        self.blocks.push(IrBlock { guest_pc, ops: Vec::new() });
        self.gpr = [None; 32];
        self.fpr = [None; 32];
        self.vec = [None; 32];
        self.cr = None;
        self.lr = None;
        self.ctr = None;
        self.xer = None;
        proof {
            let (m, b) = old(self)@.new_block(guest_pc);
            assert(self.blocks@.last()@.ops =~= Seq::<OpView>::empty());
            assert(self@.blocks =~= m.blocks);
            assert(self@.gpr =~= no_regs());
            assert(self@.fpr =~= no_regs());
            assert(self@.vec =~= no_regs());
        }
        id
    }

    pub fn next_pc(&self) -> (r: u64)
        ensures
            r == self@.next_pc(),
    {
        self.current_pc.wrapping_add(self.insn_len)
    }

    pub fn new_vreg(&mut self) -> (r: VReg)
        requires
            old(self).wf(),
            old(self)@.next_vreg < u32::MAX,
        ensures
            final(self).wf(),
            (final(self)@, r) == old(self)@.fresh(),
    {
        let v = VReg(self.next_vreg);
        self.next_vreg = self.next_vreg + 1;
        v
    }

    pub fn push(&mut self, block: BlockId, op: IrOp)
        requires
            old(self).wf(),
            old(self)@.valid_block(block),
        ensures
            final(self).wf(),
            final(self)@ == old(self)@.push(block, op@),
    {
        let i = block.0 as usize;
        let ghost old_blocks = self.blocks@;
        let mut b = IrBlock { guest_pc: 0, ops: Vec::new() };
        std::mem::swap(&mut b, &mut self.blocks[i]);
        b.ops.push(op);
        self.blocks.set(i, b);
        proof {
            let m = old(self)@.push(block, op@);
            assert(b@.ops =~= old_blocks[i as int]@.ops.push(op@));
            assert(self@.blocks =~= m.blocks);
        }
    }

    pub fn emit_binary(&mut self, block: BlockId, op: BinOp, a: VOperand, b: VOperand, width: Width) -> (r: VReg)
        requires
            old(self).wf(),
            old(self)@.valid_block(block),
            old(self)@.next_vreg < u32::MAX,
        ensures
            final(self).wf(),
            (final(self)@, r) == old(self)@.emit_binary(block, op, a, b, width),
    {
        let dst = self.new_vreg();
        let ir = match op {
            BinOp::Add => IrOp::Add { dst, a, b, width },
            BinOp::Sub => IrOp::Sub { dst, a, b, width },
            BinOp::And => IrOp::And { dst, a, b, width },
            BinOp::Or => IrOp::Or { dst, a, b, width },
            BinOp::Xor => IrOp::Xor { dst, a, b, width },
            BinOp::Mul => IrOp::Mul { dst, a, b, width },
            BinOp::Shl => IrOp::Shl { dst, a, b, width },
            BinOp::Shr => IrOp::Shr { dst, a, b, width },
            BinOp::Sar => IrOp::Sar { dst, a, b, width },
        };
        self.push(block, ir);
        dst
    }

    pub fn emit_load(&mut self, block: BlockId, addr: VOperand, width: Width, sign_ext: bool) -> (r: VReg)
        requires
            old(self).wf(),
            old(self)@.valid_block(block),
            old(self)@.next_vreg < u32::MAX,
        ensures
            final(self).wf(),
            (final(self)@, r) == old(self)@.emit_load(block, addr, width, sign_ext),
    {
        let dst = self.new_vreg();
        let endian = self.endian;
        self.push(block, IrOp::Load { dst, addr, width, endian, sign_ext });
        dst
    }

    pub fn emit_store(&mut self, block: BlockId, addr: VOperand, val: VOperand, width: Width)
        requires
            old(self).wf(),
            old(self)@.valid_block(block),
        ensures
            final(self).wf(),
            final(self)@ == old(self)@.emit_store(block, addr, val, width),
    {
        let endian = self.endian;
        self.push(block, IrOp::Store { addr, val, width, endian });
    }

    fn emit_getter(&mut self, block: BlockId, id: u32, operands: Vec<VOperand>) -> (r: VReg)
        requires
            old(self).wf(),
            old(self)@.valid_block(block),
            old(self)@.next_vreg < u32::MAX,
        ensures
            final(self).wf(),
            (final(self)@, r) == old(self)@.read_cached(block, None, id, operands@),
    {
        let dst = self.new_vreg();
        self.push(
            block,
            IrOp::Intrinsic { id: IntrinsicId(id), effects: SideEffects::Pure, operands, dst: Some(dst) },
        );
        dst
    }

    pub fn read_gpr(&mut self, block: BlockId, n: u8) -> (r: VReg)
        requires
            old(self).wf(),
            old(self)@.valid_block(block),
            n < 32,
            old(self)@.read_gpr(block, n).0.next_vreg <= u32::MAX,
        ensures
            final(self).wf(),
            (final(self)@, r) == old(self)@.read_gpr(block, n),
    {
        if let Some(v) = self.gpr[n as usize] {
            proof {
                assert(self@.gpr.update(n as int, Some(v)) =~= self@.gpr);
            }
            return v;
        }
        let ops = vec![VOperand::Imm(n as i64)];
        assert(ops@ =~= seq![VOperand::Imm(n as i64)]);
        let dst = self.emit_getter(block, intrinsics::GET_GPR, ops);
        self.gpr[n as usize] = Some(dst);
        dst
    }

    pub fn read_gpr_ra(&mut self, block: BlockId, ra: u8) -> (r: VOperand)
        requires
            old(self).wf(),
            old(self)@.valid_block(block),
            ra < 32,
            old(self)@.read_gpr_ra(block, ra).0.next_vreg <= u32::MAX,
        ensures
            final(self).wf(),
            (final(self)@, r) == old(self)@.read_gpr_ra(block, ra),
    {
        if ra == 0 {
            VOperand::Imm(0)
        } else {
            VOperand::Reg(self.read_gpr(block, ra))
        }
    }

    pub fn write_gpr(&mut self, n: u8, v: VReg)
        requires
            old(self).wf(),
            n < 32,
        ensures
            final(self).wf(),
            final(self)@ == old(self)@.write_gpr(n, v),
    {
        self.gpr[n as usize] = Some(v);
    }

    pub fn read_fpr(&mut self, block: BlockId, n: u8) -> (r: VReg)
        requires
            old(self).wf(),
            old(self)@.valid_block(block),
            n < 32,
            old(self)@.read_fpr(block, n).0.next_vreg <= u32::MAX,
        ensures
            final(self).wf(),
            (final(self)@, r) == old(self)@.read_fpr(block, n),
    {
        if let Some(v) = self.fpr[n as usize] {
            proof {
                assert(self@.fpr.update(n as int, Some(v)) =~= self@.fpr);
            }
            return v;
        }
        let ops = vec![VOperand::Imm(n as i64)];
        assert(ops@ =~= seq![VOperand::Imm(n as i64)]);
        let dst = self.emit_getter(block, intrinsics::GET_FPR, ops);
        self.fpr[n as usize] = Some(dst);
        dst
    }

    pub fn write_fpr(&mut self, n: u8, v: VReg)
        requires
            old(self).wf(),
            n < 32,
        ensures
            final(self).wf(),
            final(self)@ == old(self)@.write_fpr(n, v),
    {
        self.fpr[n as usize] = Some(v);
    }

    pub fn read_vec(&mut self, block: BlockId, n: u8) -> (r: VReg)
        requires
            old(self).wf(),
            old(self)@.valid_block(block),
            n < 32,
            old(self)@.read_vec(block, n).0.next_vreg <= u32::MAX,
        ensures
            final(self).wf(),
            (final(self)@, r) == old(self)@.read_vec(block, n),
    {
        if let Some(v) = self.vec[n as usize] {
            proof {
                assert(self@.vec.update(n as int, Some(v)) =~= self@.vec);
            }
            return v;
        }
        let ops = vec![VOperand::Imm(n as i64)];
        assert(ops@ =~= seq![VOperand::Imm(n as i64)]);
        let dst = self.emit_getter(block, intrinsics::GET_VEC, ops);
        self.vec[n as usize] = Some(dst);
        dst
    }

    pub fn write_vec(&mut self, n: u8, v: VReg)
        requires
            old(self).wf(),
            n < 32,
        ensures
            final(self).wf(),
            final(self)@ == old(self)@.write_vec(n, v),
    {
        self.vec[n as usize] = Some(v);
    }

    pub fn read_cr(&mut self, block: BlockId) -> (r: VReg)
        requires
            old(self).wf(),
            old(self)@.valid_block(block),
            old(self)@.read_cr(block).0.next_vreg <= u32::MAX,
        ensures
            final(self).wf(),
            (final(self)@, r) == old(self)@.read_cr(block),
    {
        if let Some(v) = self.cr {
            return v;
        }
        let dst = self.emit_getter(block, intrinsics::GET_CR, Vec::new());
        self.cr = Some(dst);
        dst
    }

    pub fn write_cr(&mut self, v: VReg)
        requires
            old(self).wf(),
        ensures
            final(self).wf(),
            final(self)@ == old(self)@.write_cr(v),
    {
        self.cr = Some(v);
    }

    pub fn read_lr(&mut self, block: BlockId) -> (r: VReg)
        requires
            old(self).wf(),
            old(self)@.valid_block(block),
            old(self)@.read_lr(block).0.next_vreg <= u32::MAX,
        ensures
            final(self).wf(),
            (final(self)@, r) == old(self)@.read_lr(block),
    {
        if let Some(v) = self.lr {
            return v;
        }
        let dst = self.emit_getter(block, intrinsics::GET_LR, Vec::new());
        self.lr = Some(dst);
        dst
    }

    pub fn write_lr(&mut self, v: VReg)
        requires
            old(self).wf(),
        ensures
            final(self).wf(),
            final(self)@ == old(self)@.write_lr(v),
    {
        self.lr = Some(v);
    }

    pub fn read_ctr(&mut self, block: BlockId) -> (r: VReg)
        requires
            old(self).wf(),
            old(self)@.valid_block(block),
            old(self)@.read_ctr(block).0.next_vreg <= u32::MAX,
        ensures
            final(self).wf(),
            (final(self)@, r) == old(self)@.read_ctr(block),
    {
        if let Some(v) = self.ctr {
            return v;
        }
        let dst = self.emit_getter(block, intrinsics::GET_CTR, Vec::new());
        self.ctr = Some(dst);
        dst
    }

    pub fn write_ctr(&mut self, v: VReg)
        requires
            old(self).wf(),
        ensures
            final(self).wf(),
            final(self)@ == old(self)@.write_ctr(v),
    {
        self.ctr = Some(v);
    }

    pub fn read_xer(&mut self, block: BlockId) -> (r: VReg)
        requires
            old(self).wf(),
            old(self)@.valid_block(block),
            old(self)@.read_xer(block).0.next_vreg <= u32::MAX,
        ensures
            final(self).wf(),
            (final(self)@, r) == old(self)@.read_xer(block),
    {
        if let Some(v) = self.xer {
            return v;
        }
        let dst = self.emit_getter(block, intrinsics::GET_XER, Vec::new());
        self.xer = Some(dst);
        dst
    }

    pub fn write_xer(&mut self, v: VReg)
        requires
            old(self).wf(),
        ensures
            final(self).wf(),
            final(self)@ == old(self)@.write_xer(v),
    {
        self.xer = Some(v);
    }

    pub fn emit_get_cr_bit(&mut self, block: BlockId, bit: u8) -> (r: VReg)
        requires
            old(self).wf(),
            old(self)@.valid_block(block),
            old(self)@.next_vreg < u32::MAX,
        ensures
            final(self).wf(),
            (final(self)@, r) == old(self)@.emit_get_cr_bit(block, bit),
    {
        let dst = self.new_vreg();
        let ops = vec![VOperand::Imm(bit as i64)];
        assert(ops@ =~= seq![VOperand::Imm(bit as i64)]);
        self.push(
            block,
            IrOp::Intrinsic { id: IntrinsicId(intrinsics::GET_CR_BIT), effects: SideEffects::Pure, operands: ops, dst: Some(dst) },
        );
        dst
    }

    pub fn emit_set_cr_field(&mut self, block: BlockId, field: u8, val: VReg)
        requires
            old(self).wf(),
            old(self)@.valid_block(block),
        ensures
            final(self).wf(),
            final(self)@ == old(self)@.emit_set_cr_field(block, field, val),
    {
        let ops = vec![VOperand::Imm(field as i64), VOperand::Reg(val)];
        assert(ops@ =~= seq![VOperand::Imm(field as i64), VOperand::Reg(val)]);
        self.push(
            block,
            IrOp::Intrinsic { id: IntrinsicId(intrinsics::SET_CR_FIELD), effects: SideEffects::Volatile, operands: ops, dst: None },
        );
        self.cr = None;
    }

    fn emit_flags_to_cr_field(&mut self, block: BlockId, crf: u8, op: FlagOp, a: VOperand, b: VOperand, width: Width)
        requires
            old(self).wf(),
            old(self)@.valid_block(block),
            old(self)@.next_vreg + 4 <= u32::MAX,
        ensures
            final(self).wf(),
            final(self)@ == old(self)@.emit_flags_to_cr_field(block, crf, op, a, b, width),
    {
        self.push(block, IrOp::SetFlags { op, a, b, width });
        let z = self.new_vreg();
        let n = self.new_vreg();
        self.push(block, IrOp::ReadFlag { dst: z, flag: FlagKind::Zero });
        self.push(block, IrOp::ReadFlag { dst: n, flag: FlagKind::Negative });
        let shifted = self.emit_binary(block, BinOp::Shl, VOperand::Reg(z), VOperand::Imm(2), Width::W32);
        let field = self.emit_binary(block, BinOp::Or, VOperand::Reg(shifted), VOperand::Reg(n), Width::W32);
        self.emit_set_cr_field(block, crf, field);
    }

    /// Record form: CR0 from the zero and negative flags of `result`.
    pub fn emit_rc0_from_result(&mut self, block: BlockId, result: VReg, width: Width)
        requires
            old(self).wf(),
            old(self)@.valid_block(block),
            old(self)@.next_vreg + 4 <= u32::MAX,
        ensures
            final(self).wf(),
            final(self)@ == old(self)@.emit_rc0_from_result(block, result, width),
    {
        self.emit_flags_to_cr_field(block, 0, FlagOp::AndOp, VOperand::Reg(result), VOperand::Imm(-1), width);
    }

    /// Compare into CR field `crf`, from the zero and negative flags of `a - b`.
    pub fn emit_cmp_cr_field(&mut self, block: BlockId, crf: u8, a: VOperand, b: VOperand, width: Width, _signed: bool)
        requires
            old(self).wf(),
            old(self)@.valid_block(block),
            old(self)@.next_vreg + 4 <= u32::MAX,
        ensures
            final(self).wf(),
            final(self)@ == old(self)@.emit_cmp_cr_field(block, crf, a, b, width),
    {
        self.emit_flags_to_cr_field(block, crf, FlagOp::SubOp, a, b, width);
    }

    fn emit_setter(&mut self, block: BlockId, id: u32, operands: Vec<VOperand>)
        requires
            old(self).wf(),
            old(self)@.valid_block(block),
        ensures
            final(self).wf(),
            final(self)@ == old(self)@.push(block, intrinsic(id, SideEffects::Volatile, operands@, None)),
    {
        self.push(block, IrOp::Intrinsic { id: IntrinsicId(id), effects: SideEffects::Volatile, operands, dst: None });
    }

    pub fn flush_guest_state(&mut self, block: BlockId)
        requires
            old(self).wf(),
            old(self)@.valid_block(block),
        ensures
            final(self).wf(),
            final(self)@ == old(self)@.flush_guest_state(block),
            final(self)@.blocks.len() == old(self)@.blocks.len(),
            final(self)@.next_vreg == old(self)@.next_vreg,
            final(self)@.endian == old(self)@.endian,
            final(self)@.current_pc == old(self)@.current_pc,
            final(self)@.insn_len == old(self)@.insn_len,
    {
        let ghost start = self@;
        proof {
            lemma_flush_indices_frame(start, block, 32);
        }
        let mut i: u8 = 0;
        while i < 32
            invariant
                self.wf(),
                i <= 32,
                self@ == start.flush_indices(block, i as nat),
                self@.valid_block(block),
                self@.gpr == start.gpr,
                self@.fpr == start.fpr,
                self@.vec == start.vec,
                self@.cr == start.cr,
                self@.lr == start.lr,
                self@.ctr == start.ctr,
                self@.xer == start.xer,
            decreases 32 - i,
        {
            let ghost before = self@;
            if let Some(v) = self.gpr[i as usize] {
                let ops = vec![VOperand::Imm(i as i64), VOperand::Reg(v)];
                assert(ops@ =~= seq![VOperand::Imm(i as i64)].push(VOperand::Reg(v)));
                self.emit_setter(block, intrinsics::SET_GPR, ops);
            }
            if let Some(v) = self.fpr[i as usize] {
                let ops = vec![VOperand::Imm(i as i64), VOperand::Reg(v)];
                assert(ops@ =~= seq![VOperand::Imm(i as i64)].push(VOperand::Reg(v)));
                self.emit_setter(block, intrinsics::SET_FPR, ops);
            }
            if let Some(v) = self.vec[i as usize] {
                let ops = vec![VOperand::Imm(i as i64), VOperand::Reg(v)];
                assert(ops@ =~= seq![VOperand::Imm(i as i64)].push(VOperand::Reg(v)));
                self.emit_setter(block, intrinsics::SET_VEC, ops);
            }
            assert(self@ == before.flush_index(block, i as nat));
            i = i + 1;
        }
        if let Some(v) = self.cr {
            let ops = vec![VOperand::Reg(v)];
            assert(ops@ =~= Seq::<VOperand>::empty().push(VOperand::Reg(v)));
            self.emit_setter(block, intrinsics::SET_CR, ops);
        }
        if let Some(v) = self.lr {
            let ops = vec![VOperand::Reg(v)];
            assert(ops@ =~= Seq::<VOperand>::empty().push(VOperand::Reg(v)));
            self.emit_setter(block, intrinsics::SET_LR, ops);
        }
        if let Some(v) = self.ctr {
            let ops = vec![VOperand::Reg(v)];
            assert(ops@ =~= Seq::<VOperand>::empty().push(VOperand::Reg(v)));
            self.emit_setter(block, intrinsics::SET_CTR, ops);
        }
        if let Some(v) = self.xer {
            let ops = vec![VOperand::Reg(v)];
            assert(ops@ =~= Seq::<VOperand>::empty().push(VOperand::Reg(v)));
            self.emit_setter(block, intrinsics::SET_XER, ops);
        }
    }

    pub fn emit_set_pc(&mut self, block: BlockId, pc: VOperand)
        requires
            old(self).wf(),
            old(self)@.valid_block(block),
        ensures
            final(self).wf(),
            final(self)@ == old(self)@.emit_set_pc(block, pc),
    {
        let ops = vec![pc];
        assert(ops@ =~= seq![pc]);
        self.emit_setter(block, intrinsics::SET_PC, ops);
    }

    pub fn emit_exit_uncond(&mut self, block: BlockId, target: u64)
        requires
            old(self).wf(),
            old(self)@.valid_block(block),
        ensures
            final(self).wf(),
            final(self)@ == old(self)@.emit_exit_uncond(block, target),
    {
        self.flush_guest_state(block);
        self.emit_set_pc(block, VOperand::Imm(target as i64));
        self.push(block, IrOp::Branch { cond: None, target: BlockId(0), taken_pc: target, fallthrough_pc: target });
    }

    pub fn emit_exit_cond(&mut self, block: BlockId, cond: VReg, taken: u64, fall: u64)
        requires
            old(self).wf(),
            old(self)@.valid_block(block),
        ensures
            final(self).wf(),
            final(self)@ == old(self)@.emit_exit_cond(block, cond, taken, fall),
    {
        self.flush_guest_state(block);
        self.push(
            block,
            IrOp::Branch { cond: Some(VOperand::Reg(cond)), target: BlockId(0), taken_pc: taken, fallthrough_pc: fall },
        );
    }

    pub fn emit_exit_indirect(&mut self, block: BlockId, target: VReg)
        requires
            old(self).wf(),
            old(self)@.valid_block(block),
        ensures
            final(self).wf(),
            final(self)@ == old(self)@.emit_exit_indirect(block, target),
    {
        self.flush_guest_state(block);
        self.emit_set_pc(block, VOperand::Reg(target));
        self.push(block, IrOp::IndirectBranch { target: VOperand::Reg(target) });
    }

    pub fn emit_return(&mut self, block: BlockId)
        requires
            old(self).wf(),
            old(self)@.valid_block(block),
        ensures
            final(self).wf(),
            final(self)@ == old(self)@.emit_return(block),
    {
        self.flush_guest_state(block);
        self.push(block, IrOp::Return);
    }

    pub fn emit_unimplemented(&mut self, block: BlockId, raw: u32)
        requires
            old(self).wf(),
            old(self)@.valid_block(block),
        ensures
            final(self).wf(),
            final(self)@ == old(self)@.emit_unimplemented(block, raw),
    {
        let ops = vec![VOperand::Imm(raw as i64)];
        assert(ops@ =~= seq![VOperand::Imm(raw as i64)]);
        self.emit_setter(block, intrinsics::UNIMPLEMENTED, ops);
    }
}

/// Reading a guest register twice in a row gives the same vreg and the second
/// read changes nothing. A read of a cached register changes nothing; a first
/// read appends exactly one pure `GET_GPR` intrinsic defining a fresh vreg.
pub proof fn lemma_read_gpr_twice(m: BuilderView, block: BlockId, n: u8)
    requires
        m.valid_block(block),
        n < 32,
        m.gpr.len() == 32,
    ensures
        m.read_gpr(block, n).0.read_gpr(block, n) == m.read_gpr(block, n),
        m.gpr[n as int] matches Some(v) ==> m.read_gpr(block, n) == (m, v),
        m.gpr[n as int] is None ==> ({
            let (m1, v1) = m.read_gpr(block, n);
            &&& v1 == VReg(m.next_vreg as u32)
            &&& m1.next_vreg == m.next_vreg + 1
            &&& m1.blocks.len() == m.blocks.len()
            &&& m1.blocks[block.0 as int].ops == m.blocks[block.0 as int].ops.push(
                intrinsic(intrinsics::GET_GPR, SideEffects::Pure, seq![VOperand::Imm(n as i64)], Some(v1)),
            )
        }),
{
    let (m1, v1) = m.read_gpr(block, n);
    assert(m1.gpr[n as int] == Some(v1));
    assert(m1.gpr.update(n as int, Some(v1)) =~= m1.gpr);
    if let Some(v) = m.gpr[n as int] {
        assert(m.gpr.update(n as int, Some(v)) =~= m.gpr);
    }
}

} // verus!
