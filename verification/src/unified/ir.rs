//! The universal IR of the unified core. Shifts name their shift amount,
//! branches name a target block, and intrinsics classify their memory effects.
use vstd::prelude::*;

verus! {

#[derive(Clone, Copy, Debug, PartialEq, Eq, Hash, Structural)]
pub struct VReg(pub u32);

#[derive(Clone, Copy, Debug, PartialEq, Eq, Structural)]
pub enum Width {
    W8,
    W16,
    W32,
    W64,
    W128,
}

#[derive(Clone, Copy, Debug, PartialEq, Eq, Structural)]
pub enum Endian {
    Little,
    Big,
}

#[derive(Clone, Copy, Debug, PartialEq, Eq, Structural)]
pub enum VOperand {
    Reg(VReg),
    Imm(i64),
}

#[derive(Clone, Copy, Debug, PartialEq, Eq, Structural)]
pub enum FlagKind {
    Zero,
    Carry,
    Overflow,
    Negative,
}

/// The operation whose flags a `SetFlags` records; flags are computed only
/// when a later `ReadFlag` asks for one.
#[derive(Clone, Copy, Debug, PartialEq, Eq, Structural)]
pub enum FlagOp {
    AddOp,
    SubOp,
    AndOp,
    OrOp,
    XorOp,
    ShiftOp,
}

#[derive(Clone, Copy, Debug, PartialEq, Eq, Structural)]
pub enum SideEffects {
    Pure,
    ReadsMem,
    WritesMem,
    ReadsAndWritesMem,
    Volatile,
}

#[derive(Clone, Copy, Debug, PartialEq, Eq, Structural)]
pub struct IntrinsicId(pub u32);

#[derive(Clone, Copy, Debug, PartialEq, Eq, Hash, Structural)]
pub struct BlockId(pub u32);

#[derive(Clone, Debug)]
pub enum IrOp {
    Add { dst: VReg, a: VOperand, b: VOperand, width: Width },
    Sub { dst: VReg, a: VOperand, b: VOperand, width: Width },
    And { dst: VReg, a: VOperand, b: VOperand, width: Width },
    Or { dst: VReg, a: VOperand, b: VOperand, width: Width },
    Xor { dst: VReg, a: VOperand, b: VOperand, width: Width },
    Shl { dst: VReg, a: VOperand, amount: VOperand, width: Width },
    Shr { dst: VReg, a: VOperand, amount: VOperand, width: Width },
    Sar { dst: VReg, a: VOperand, amount: VOperand, width: Width },
    Mul { dst: VReg, a: VOperand, b: VOperand, width: Width },
    VecAdd { dst: VReg, a: VOperand, b: VOperand, lanes: u8, width: Width },
    VecMul { dst: VReg, a: VOperand, b: VOperand, lanes: u8, width: Width },
    VecFma { dst: VReg, a: VOperand, b: VOperand, c: VOperand, lanes: u8 },
    Load { dst: VReg, addr: VOperand, width: Width, sign_ext: bool, endian: Endian },
    Store { addr: VOperand, val: VOperand, width: Width, endian: Endian },
    Branch { cond: Option<VOperand>, target: BlockId },
    IndirectBranch { target: VOperand },
    Call { target: VOperand },
    Return,
    SetFlags { op: FlagOp, a: VOperand, b: VOperand, width: Width },
    ReadFlag { dst: VReg, flag: FlagKind },
    Intrinsic { id: IntrinsicId, effects: SideEffects, operands: Vec<VOperand>, dst: Option<VReg> },
}

/// Mathematical value of an `IrOp`: the operand list of an intrinsic is a sequence.
pub enum OpView {
    Add { dst: VReg, a: VOperand, b: VOperand, width: Width },
    Sub { dst: VReg, a: VOperand, b: VOperand, width: Width },
    And { dst: VReg, a: VOperand, b: VOperand, width: Width },
    Or { dst: VReg, a: VOperand, b: VOperand, width: Width },
    Xor { dst: VReg, a: VOperand, b: VOperand, width: Width },
    Shl { dst: VReg, a: VOperand, amount: VOperand, width: Width },
    Shr { dst: VReg, a: VOperand, amount: VOperand, width: Width },
    Sar { dst: VReg, a: VOperand, amount: VOperand, width: Width },
    Mul { dst: VReg, a: VOperand, b: VOperand, width: Width },
    VecAdd { dst: VReg, a: VOperand, b: VOperand, lanes: u8, width: Width },
    VecMul { dst: VReg, a: VOperand, b: VOperand, lanes: u8, width: Width },
    VecFma { dst: VReg, a: VOperand, b: VOperand, c: VOperand, lanes: u8 },
    Load { dst: VReg, addr: VOperand, width: Width, sign_ext: bool, endian: Endian },
    Store { addr: VOperand, val: VOperand, width: Width, endian: Endian },
    Branch { cond: Option<VOperand>, target: BlockId },
    IndirectBranch { target: VOperand },
    Call { target: VOperand },
    Return,
    SetFlags { op: FlagOp, a: VOperand, b: VOperand, width: Width },
    ReadFlag { dst: VReg, flag: FlagKind },
    Intrinsic { id: IntrinsicId, effects: SideEffects, operands: Seq<VOperand>, dst: Option<VReg> },
}

impl View for IrOp {
    type V = OpView;

    open spec fn view(&self) -> OpView {
        match *self {
            IrOp::Add { dst, a, b, width } => OpView::Add { dst, a, b, width },
            IrOp::Sub { dst, a, b, width } => OpView::Sub { dst, a, b, width },
            IrOp::And { dst, a, b, width } => OpView::And { dst, a, b, width },
            IrOp::Or { dst, a, b, width } => OpView::Or { dst, a, b, width },
            IrOp::Xor { dst, a, b, width } => OpView::Xor { dst, a, b, width },
            IrOp::Shl { dst, a, amount, width } => OpView::Shl { dst, a, amount, width },
            IrOp::Shr { dst, a, amount, width } => OpView::Shr { dst, a, amount, width },
            IrOp::Sar { dst, a, amount, width } => OpView::Sar { dst, a, amount, width },
            IrOp::Mul { dst, a, b, width } => OpView::Mul { dst, a, b, width },
            IrOp::VecAdd { dst, a, b, lanes, width } => OpView::VecAdd { dst, a, b, lanes, width },
            IrOp::VecMul { dst, a, b, lanes, width } => OpView::VecMul { dst, a, b, lanes, width },
            IrOp::VecFma { dst, a, b, c, lanes } => OpView::VecFma { dst, a, b, c, lanes },
            IrOp::Load { dst, addr, width, sign_ext, endian } => OpView::Load { dst, addr, width, sign_ext, endian },
            IrOp::Store { addr, val, width, endian } => OpView::Store { addr, val, width, endian },
            IrOp::Branch { cond, target } => OpView::Branch { cond, target },
            IrOp::IndirectBranch { target } => OpView::IndirectBranch { target },
            IrOp::Call { target } => OpView::Call { target },
            IrOp::Return => OpView::Return,
            IrOp::SetFlags { op, a, b, width } => OpView::SetFlags { op, a, b, width },
            IrOp::ReadFlag { dst, flag } => OpView::ReadFlag { dst, flag },
            IrOp::Intrinsic { id, effects, operands, dst } => OpView::Intrinsic {
                id,
                effects,
                operands: operands@,
                dst,
            },
        }
    }
}

impl OpView {
    /// The vreg this operation defines, if any.
    pub open spec fn dst(self) -> Option<VReg> {
        match self {
            OpView::Add { dst, .. } | OpView::Sub { dst, .. } | OpView::And { dst, .. }
            | OpView::Or { dst, .. } | OpView::Xor { dst, .. } | OpView::Shl { dst, .. }
            | OpView::Shr { dst, .. } | OpView::Sar { dst, .. } | OpView::Mul { dst, .. }
            | OpView::VecAdd { dst, .. } | OpView::VecMul { dst, .. } | OpView::VecFma { dst, .. }
            | OpView::Load { dst, .. } | OpView::ReadFlag { dst, .. } => Some(dst),
            OpView::Intrinsic { dst, .. } => dst,
            _ => None,
        }
    }

    /// The operands this operation reads, in order.
    pub open spec fn operands(self) -> Seq<VOperand> {
        match self {
            OpView::Add { a, b, .. } | OpView::Sub { a, b, .. } | OpView::And { a, b, .. }
            | OpView::Or { a, b, .. } | OpView::Xor { a, b, .. } | OpView::Mul { a, b, .. }
            | OpView::VecAdd { a, b, .. } | OpView::VecMul { a, b, .. }
            | OpView::SetFlags { a, b, .. } => seq![a, b],
            OpView::Shl { a, amount, .. } | OpView::Shr { a, amount, .. } | OpView::Sar { a, amount, .. } => seq![
                a,
                amount,
            ],
            OpView::VecFma { a, b, c, .. } => seq![a, b, c],
            OpView::Load { addr, .. } => seq![addr],
            OpView::Store { addr, val, .. } => seq![addr, val],
            OpView::Branch { cond, .. } => match cond {
                Some(c) => seq![c],
                None => Seq::empty(),
            },
            OpView::IndirectBranch { target } | OpView::Call { target } => seq![target],
            OpView::Intrinsic { operands, .. } => operands,
            _ => Seq::empty(),
        }
    }
}

/// Copies an operand vector element by element.
pub fn copy_operands(src: &Vec<VOperand>) -> (r: Vec<VOperand>)
    ensures
        r@ == src@,
{
    let mut r: Vec<VOperand> = Vec::new();
    let mut i: usize = 0;
    while i < src.len()
        invariant
            i <= src.len(),
            r@ == src@.subrange(0, i as int),
        decreases src.len() - i,
    {
        r.push(src[i]);
        i = i + 1;
    }
    assert(r@ == src@.subrange(0, src@.len() as int));
    r
}

impl IrOp {
    /// An operation equal to this one.
    pub fn copy_op(&self) -> (r: IrOp)
        ensures
            r@ == self@,
    {
        match self {
            IrOp::Intrinsic { id, effects, operands, dst } => IrOp::Intrinsic {
                id: *id,
                effects: *effects,
                operands: copy_operands(operands),
                dst: *dst,
            },
            IrOp::Add { dst, a, b, width } => IrOp::Add { dst: *dst, a: *a, b: *b, width: *width },
            IrOp::Sub { dst, a, b, width } => IrOp::Sub { dst: *dst, a: *a, b: *b, width: *width },
            IrOp::And { dst, a, b, width } => IrOp::And { dst: *dst, a: *a, b: *b, width: *width },
            IrOp::Or { dst, a, b, width } => IrOp::Or { dst: *dst, a: *a, b: *b, width: *width },
            IrOp::Xor { dst, a, b, width } => IrOp::Xor { dst: *dst, a: *a, b: *b, width: *width },
            IrOp::Shl { dst, a, amount, width } => IrOp::Shl { dst: *dst, a: *a, amount: *amount, width: *width },
            IrOp::Shr { dst, a, amount, width } => IrOp::Shr { dst: *dst, a: *a, amount: *amount, width: *width },
            IrOp::Sar { dst, a, amount, width } => IrOp::Sar { dst: *dst, a: *a, amount: *amount, width: *width },
            IrOp::Mul { dst, a, b, width } => IrOp::Mul { dst: *dst, a: *a, b: *b, width: *width },
            IrOp::VecAdd { dst, a, b, lanes, width } => IrOp::VecAdd {
                dst: *dst,
                a: *a,
                b: *b,
                lanes: *lanes,
                width: *width,
            },
            IrOp::VecMul { dst, a, b, lanes, width } => IrOp::VecMul {
                dst: *dst,
                a: *a,
                b: *b,
                lanes: *lanes,
                width: *width,
            },
            IrOp::VecFma { dst, a, b, c, lanes } => IrOp::VecFma { dst: *dst, a: *a, b: *b, c: *c, lanes: *lanes },
            IrOp::Load { dst, addr, width, sign_ext, endian } => IrOp::Load {
                dst: *dst,
                addr: *addr,
                width: *width,
                sign_ext: *sign_ext,
                endian: *endian,
            },
            IrOp::Store { addr, val, width, endian } => IrOp::Store {
                addr: *addr,
                val: *val,
                width: *width,
                endian: *endian,
            },
            IrOp::Branch { cond, target } => IrOp::Branch { cond: *cond, target: *target },
            IrOp::IndirectBranch { target } => IrOp::IndirectBranch { target: *target },
            IrOp::Call { target } => IrOp::Call { target: *target },
            IrOp::Return => IrOp::Return,
            IrOp::SetFlags { op, a, b, width } => IrOp::SetFlags { op: *op, a: *a, b: *b, width: *width },
            IrOp::ReadFlag { dst, flag } => IrOp::ReadFlag { dst: *dst, flag: *flag },
        }
    }
}

#[derive(Clone, Debug)]
pub struct IrBlock {
    pub id: BlockId,
    pub guest_start_pc: u64,
    pub ops: Vec<IrOp>,
}

pub struct BlockView {
    pub id: BlockId,
    pub guest_start_pc: u64,
    pub ops: Seq<OpView>,
}

impl View for IrBlock {
    type V = BlockView;

    open spec fn view(&self) -> BlockView {
        BlockView { id: self.id, guest_start_pc: self.guest_start_pc, ops: self.ops@.map_values(|o: IrOp| o@) }
    }
}

/// Builds the blocks of one translation, numbering vregs and blocks in order.
pub struct IrBuilder {
    pub blocks: Vec<IrBlock>,
    next_vreg: u32,
    next_block: u32,
}

impl IrBuilder {
    /// The blocks built so far, in order.
    pub closed spec fn block_list(&self) -> Seq<IrBlock> {
        self.blocks@
    }

    /// The number the next fresh vreg gets.
    pub closed spec fn vreg_counter(&self) -> nat {
        self.next_vreg as nat
    }

    /// The number the next fresh block gets.
    pub closed spec fn block_counter(&self) -> nat {
        self.next_block as nat
    }

    pub fn new() -> (r: IrBuilder)
        ensures
            r.block_list().len() == 0,
            r.vreg_counter() == 0,
            r.block_counter() == 0,
    {
        IrBuilder { blocks: Vec::new(), next_vreg: 0, next_block: 0 }
    }

    /// A vreg never handed out before; the counter moves on by one.
    pub fn new_vreg(&mut self) -> (r: VReg)
        requires
            old(self).vreg_counter() < u32::MAX,
        ensures
            r.0 == old(self).vreg_counter(),
            final(self).vreg_counter() == old(self).vreg_counter() + 1,
            final(self).block_counter() == old(self).block_counter(),
            final(self).block_list() == old(self).block_list(),
    {
        let v = VReg(self.next_vreg);
        self.next_vreg = self.next_vreg + 1;
        v
    }

    /// Appends an empty block starting at `guest_start_pc` under the next block number.
    pub fn new_block(&mut self, guest_start_pc: u64) -> (r: BlockId)
        requires
            old(self).block_counter() < u32::MAX,
        ensures
            r.0 == old(self).block_counter(),
            final(self).block_counter() == old(self).block_counter() + 1,
            final(self).vreg_counter() == old(self).vreg_counter(),
            final(self).block_list().len() == old(self).block_list().len() + 1,
            forall|i: int| 0 <= i < old(self).block_list().len() ==> #[trigger] final(self).block_list()[i] == old(self).block_list()[i],
            final(self).block_list().last()@.id == r,
            final(self).block_list().last()@.guest_start_pc == guest_start_pc,
            final(self).block_list().last()@.ops.len() == 0,
    {
        let id = BlockId(self.next_block);
        self.next_block = self.next_block + 1;
        self.blocks.push(IrBlock { id, guest_start_pc, ops: Vec::new() });
        id
    }

    /// Appends `op` to the block at position `block.0`.
    pub fn push(&mut self, block: BlockId, op: IrOp)
        requires
            (block.0 as int) < old(self).block_list().len(),
        ensures
            final(self).vreg_counter() == old(self).vreg_counter(),
            final(self).block_counter() == old(self).block_counter(),
            final(self).block_list().len() == old(self).block_list().len(),
            forall|i: int| 0 <= i < old(self).block_list().len() && i != block.0 ==> #[trigger] final(self).block_list()[i] == old(self).block_list()[i],
            final(self).block_list()[block.0 as int]@.id == old(self).block_list()[block.0 as int]@.id,
            final(self).block_list()[block.0 as int]@.guest_start_pc == old(self).block_list()[block.0 as int]@.guest_start_pc,
            final(self).block_list()[block.0 as int]@.ops == old(self).block_list()[block.0 as int]@.ops.push(op@),
    {
        let i = block.0 as usize;
        let mut b = IrBlock { id: BlockId(0), guest_start_pc: 0, ops: Vec::new() };
        std::mem::swap(&mut b, &mut self.blocks[i]);
        b.ops.push(op);
        self.blocks.set(i, b);
        proof {
            assert(b@.ops =~= old(self).blocks@[i as int]@.ops.push(op@));
        }
    }
}

impl Default for IrBuilder {
    fn default() -> (r: IrBuilder)
        ensures
            r.block_list().len() == 0,
            r.vreg_counter() == 0,
            r.block_counter() == 0,
    {
        IrBuilder::new()
    }
}

} // verus!
