//! The three intra-block passes of the unified core, run in this order:
//! constant folding with propagation, redundant-load elimination, and
//! dead-flag elimination.
use crate::unified::ir::{Endian, FlagKind, IrBlock, IrOp, OpView, SideEffects, VOperand, VReg, Width};
use std::collections::HashMap;
use vstd::prelude::*;
use vstd::std_specs::hash::group_hash_axioms;

verus! {

broadcast use group_hash_axioms;

// ---------------------------------------------------------------------------
// Width arithmetic.
// ---------------------------------------------------------------------------

/// The bit count of a scalar width; 128-bit values are not folded.
pub open spec fn bits_of(w: Width) -> Option<u32> {
    match w {
        Width::W8 => Some(8u32),
        Width::W16 => Some(16u32),
        Width::W32 => Some(32u32),
        Width::W64 => Some(64u32),
        Width::W128 => None,
    }
}

/// The low `width` bits of `value`, zero-extended; 64 and 128 bits keep it whole.
pub open spec fn masked(value: i64, width: Width) -> i64 {
    match width {
        Width::W8 => ((value as u64) & 0xff) as i64,
        Width::W16 => ((value as u64) & 0xffff) as i64,
        Width::W32 => ((value as u64) & 0xffff_ffff) as i64,
        _ => value,
    }
}

/// The low `width` bits of `value`, sign-extended; 64 and 128 bits keep it whole.
pub open spec fn sign_extended(value: i64, width: Width) -> i64 {
    match width {
        Width::W8 => value as i8 as i64,
        Width::W16 => value as i16 as i64,
        Width::W32 => value as i32 as i64,
        _ => value,
    }
}

proof fn lemma_shift_constants()
    by (bit_vector)
    ensures
        1u64 << 8u32 == 0x100u64,
        1u64 << 16u32 == 0x1_0000u64,
        1u64 << 32u32 == 0x1_0000_0000u64,
        1u64 << 7u32 == 0x80u64,
        1u64 << 15u32 == 0x8000u64,
        1u64 << 31u32 == 0x8000_0000u64,
        !0u64 << 8u32 == 0xffff_ffff_ffff_ff00u64,
        !0u64 << 16u32 == 0xffff_ffff_ffff_0000u64,
        !0u64 << 32u32 == 0xffff_ffff_0000_0000u64,
{
}

proof fn lemma_sign_extension(v: i64)
    by (bit_vector)
    ensures
        ((v as u64) & 0xff) & 0x80 != 0 ==> (((v as u64) & 0xff) | 0xffff_ffff_ffff_ff00u64) as i64 == v as i8 as i64,
        ((v as u64) & 0xff) & 0x80 == 0 ==> ((v as u64) & 0xff) as i64 == v as i8 as i64,
        ((v as u64) & 0xffff) & 0x8000 != 0 ==> (((v as u64) & 0xffff) | 0xffff_ffff_ffff_0000u64) as i64 == v as i16
            as i64,
        ((v as u64) & 0xffff) & 0x8000 == 0 ==> ((v as u64) & 0xffff) as i64 == v as i16 as i64,
        ((v as u64) & 0xffff_ffff) & 0x8000_0000 != 0 ==> (((v as u64) & 0xffff_ffff) | 0xffff_ffff_0000_0000u64) as i64
            == v as i32 as i64,
        ((v as u64) & 0xffff_ffff) & 0x8000_0000 == 0 ==> ((v as u64) & 0xffff_ffff) as i64 == v as i32 as i64,
{
}

/// Cutting to a width twice is cutting once.
proof fn lemma_mask_idempotent(v: i64)
    by (bit_vector)
    ensures
        (((v as u64) & 0xff) as i64 as u64) & 0xff == (v as u64) & 0xff,
        (((v as u64) & 0xffff) as i64 as u64) & 0xffff == (v as u64) & 0xffff,
        (((v as u64) & 0xffff_ffff) as i64 as u64) & 0xffff_ffff == (v as u64) & 0xffff_ffff,
{
}

fn width_bits(width: Width) -> (r: Option<u32>)
    ensures
        r == bits_of(width),
{
    match width {
        Width::W8 => Some(8),
        Width::W16 => Some(16),
        Width::W32 => Some(32),
        Width::W64 => Some(64),
        Width::W128 => None,
    }
}

fn mask_to_width(value: i64, width: Width) -> (r: i64)
    ensures
        r == masked(value, width),
{
    proof {
        lemma_shift_constants();
    }
    match width_bits(width) {
        Some(64) => value,
        Some(bits) => {
            let mask = (1u64 << bits) - 1;
            ((value as u64) & mask) as i64
        },
        None => value,
    }
}

fn sign_extend_width(value: i64, width: Width) -> (r: i64)
    ensures
        r == sign_extended(value, width),
{
    proof {
        lemma_shift_constants();
        lemma_sign_extension(value);
    }
    match width_bits(width) {
        Some(64) => value,
        Some(bits) => {
            let masked_value = (value as u64) & ((1u64 << bits) - 1);
            let sign_bit = 1u64 << (bits - 1);
            if masked_value & sign_bit != 0 {
                (masked_value | (!0u64 << bits)) as i64
            } else {
                masked_value as i64
            }
        },
        None => value,
    }
}

// ---------------------------------------------------------------------------
// Folding one operation.
// ---------------------------------------------------------------------------

#[derive(Clone, Copy, Debug, PartialEq, Eq, Structural)]
pub enum ScalarFoldOp {
    Add,
    Sub,
    And,
    Or,
    Xor,
    Mul,
    Shl,
    Shr,
    Sar,
}

/// The shift amount at a width: the low bits of the operand, below the width.
pub open spec fn shift_amount(y: i64, bits: u32) -> u32 {
    (y as u32) & ((bits - 1) as u32)
}

/// The constant an operation yields on two immediates, cut to its width:
/// 64-bit wrapping arithmetic; shifts take their amount modulo the width, `Shr`
/// is logical and `Sar` shifts the sign-extended value. Shifts at 128 bits
/// are not folded.
pub open spec fn fold_value(kind: ScalarFoldOp, x: i64, y: i64, width: Width) -> Option<i64> {
    let raw: Option<i64> = match kind {
        ScalarFoldOp::Add => Some(vstd::wrapping::i64_specs::wrapping_add(x, y)),
        ScalarFoldOp::Sub => Some(vstd::wrapping::i64_specs::wrapping_sub(x, y)),
        ScalarFoldOp::And => Some(x & y),
        ScalarFoldOp::Or => Some(x | y),
        ScalarFoldOp::Xor => Some(x ^ y),
        ScalarFoldOp::Mul => Some(vstd::wrapping::i64_specs::wrapping_mul(x, y)),
        ScalarFoldOp::Shl => match bits_of(width) {
            Some(bits) => Some(vstd::wrapping::u64_specs::wrapping_shl(x as u64, shift_amount(y, bits)) as i64),
            None => None,
        },
        ScalarFoldOp::Shr => match bits_of(width) {
            Some(bits) => Some(vstd::wrapping::u64_specs::wrapping_shr(x as u64, shift_amount(y, bits)) as i64),
            None => None,
        },
        ScalarFoldOp::Sar => match bits_of(width) {
            Some(bits) => Some(
                vstd::wrapping::i64_specs::wrapping_shr(sign_extended(x, width), shift_amount(y, bits)),
            ),
            None => None,
        },
    };
    match raw {
        Some(v) => Some(masked(v, width)),
        None => None,
    }
}

pub open spec fn fold_operands(kind: ScalarFoldOp, a: VOperand, b: VOperand, width: Width) -> Option<i64> {
    match (a, b) {
        (VOperand::Imm(x), VOperand::Imm(y)) => fold_value(kind, x, y, width),
        _ => None,
    }
}

fn fold_binary(kind: ScalarFoldOp, a: VOperand, b: VOperand, width: Width) -> (r: Option<i64>)
    ensures
        r == fold_operands(kind, a, b, width),
{
    let (x, y) = match (a, b) {
        (VOperand::Imm(x), VOperand::Imm(y)) => (x, y),
        _ => {
            return None;
        },
    };
    let folded: i64 = match kind {
        ScalarFoldOp::Add => x.wrapping_add(y),
        ScalarFoldOp::Sub => x.wrapping_sub(y),
        ScalarFoldOp::And => x & y,
        ScalarFoldOp::Or => x | y,
        ScalarFoldOp::Xor => x ^ y,
        ScalarFoldOp::Mul => x.wrapping_mul(y),
        ScalarFoldOp::Shl => {
            let shift = match width_bits(width) {
                Some(bits) => (y as u32) & (bits - 1),
                None => {
                    return None;
                },
            };
            (x as u64).wrapping_shl(shift) as i64
        },
        ScalarFoldOp::Shr => {
            let shift = match width_bits(width) {
                Some(bits) => (y as u32) & (bits - 1),
                None => {
                    return None;
                },
            };
            (x as u64).wrapping_shr(shift) as i64
        },
        ScalarFoldOp::Sar => {
            let shift = match width_bits(width) {
                Some(bits) => (y as u32) & (bits - 1),
                None => {
                    return None;
                },
            };
            sign_extend_width(x, width).wrapping_shr(shift)
        },
    };
    Some(mask_to_width(folded, width))
}

// ---------------------------------------------------------------------------
// Operand rewriting.
// ---------------------------------------------------------------------------

/// `op` with `f` applied to every operand it reads.
pub open spec fn map_operands(op: OpView, f: spec_fn(VOperand) -> VOperand) -> OpView {
    match op {
        OpView::Add { dst, a, b, width } => OpView::Add { dst, a: f(a), b: f(b), width },
        OpView::Sub { dst, a, b, width } => OpView::Sub { dst, a: f(a), b: f(b), width },
        OpView::And { dst, a, b, width } => OpView::And { dst, a: f(a), b: f(b), width },
        OpView::Or { dst, a, b, width } => OpView::Or { dst, a: f(a), b: f(b), width },
        OpView::Xor { dst, a, b, width } => OpView::Xor { dst, a: f(a), b: f(b), width },
        OpView::Mul { dst, a, b, width } => OpView::Mul { dst, a: f(a), b: f(b), width },
        OpView::Shl { dst, a, amount, width } => OpView::Shl { dst, a: f(a), amount: f(amount), width },
        OpView::Shr { dst, a, amount, width } => OpView::Shr { dst, a: f(a), amount: f(amount), width },
        OpView::Sar { dst, a, amount, width } => OpView::Sar { dst, a: f(a), amount: f(amount), width },
        OpView::VecAdd { dst, a, b, lanes, width } => OpView::VecAdd { dst, a: f(a), b: f(b), lanes, width },
        OpView::VecMul { dst, a, b, lanes, width } => OpView::VecMul { dst, a: f(a), b: f(b), lanes, width },
        OpView::VecFma { dst, a, b, c, lanes } => OpView::VecFma { dst, a: f(a), b: f(b), c: f(c), lanes },
        OpView::Load { dst, addr, width, sign_ext, endian } => OpView::Load {
            dst,
            addr: f(addr),
            width,
            sign_ext,
            endian,
        },
        OpView::Store { addr, val, width, endian } => OpView::Store { addr: f(addr), val: f(val), width, endian },
        OpView::Branch { cond, target } => OpView::Branch {
            cond: match cond {
                Some(c) => Some(f(c)),
                None => None,
            },
            target,
        },
        OpView::IndirectBranch { target } => OpView::IndirectBranch { target: f(target) },
        OpView::Call { target } => OpView::Call { target: f(target) },
        OpView::SetFlags { op, a, b, width } => OpView::SetFlags { op, a: f(a), b: f(b), width },
        OpView::Intrinsic { id, effects, operands, dst } => OpView::Intrinsic {
            id,
            effects,
            operands: operands.map_values(f),
            dst,
        },
        OpView::ReadFlag { .. } | OpView::Return => op,
    }
}

/// A register operand with a known constant becomes that constant.
pub open spec fn with_const(o: VOperand, known: Map<u32, i64>) -> VOperand {
    match o {
        VOperand::Reg(v) => if known.contains_key(v.0) {
            VOperand::Imm(known[v.0])
        } else {
            o
        },
        VOperand::Imm(_) => o,
    }
}

fn resolve_const(op: VOperand, constants: &HashMap<u32, i64>) -> (r: VOperand)
    ensures
        r == with_const(op, constants@),
{
    match op {
        VOperand::Reg(v) => match constants.get(&v.0) {
            Some(c) => VOperand::Imm(*c),
            None => VOperand::Reg(v),
        },
        VOperand::Imm(_) => op,
    }
}

fn resolve_all_consts(ops: &mut Vec<VOperand>, constants: &HashMap<u32, i64>)
    ensures
        final(ops)@ == old(ops)@.map_values(|o: VOperand| with_const(o, constants@)),
{
    let mut i: usize = 0;
    while i < ops.len()
        invariant
            i <= ops.len(),
            ops@.len() == old(ops)@.len(),
            forall|j: int| 0 <= j < i ==> ops@[j] == with_const(old(ops)@[j], constants@),
            forall|j: int| i <= j < ops@.len() ==> ops@[j] == old(ops)@[j],
        decreases ops.len() - i,
    {
        let o = resolve_const(ops[i], constants);
        ops.set(i, o);
        i = i + 1;
    }
    assert(ops@ =~= old(ops)@.map_values(|o: VOperand| with_const(o, constants@)));
}

fn substitute_consts(op: &mut IrOp, constants: &HashMap<u32, i64>)
    ensures
        final(op)@ == map_operands(old(op)@, |o: VOperand| with_const(o, constants@)),
{
    match op {
        IrOp::Add { a, b, .. } => {
            *a = resolve_const(*a, constants);
            *b = resolve_const(*b, constants);
        },
        IrOp::Sub { a, b, .. } => {
            *a = resolve_const(*a, constants);
            *b = resolve_const(*b, constants);
        },
        IrOp::And { a, b, .. } => {
            *a = resolve_const(*a, constants);
            *b = resolve_const(*b, constants);
        },
        IrOp::Or { a, b, .. } => {
            *a = resolve_const(*a, constants);
            *b = resolve_const(*b, constants);
        },
        IrOp::Xor { a, b, .. } => {
            *a = resolve_const(*a, constants);
            *b = resolve_const(*b, constants);
        },
        IrOp::Mul { a, b, .. } => {
            *a = resolve_const(*a, constants);
            *b = resolve_const(*b, constants);
        },
        IrOp::SetFlags { a, b, .. } => {
            *a = resolve_const(*a, constants);
            *b = resolve_const(*b, constants);
        },
        IrOp::VecAdd { a, b, .. } => {
            *a = resolve_const(*a, constants);
            *b = resolve_const(*b, constants);
        },
        IrOp::VecMul { a, b, .. } => {
            *a = resolve_const(*a, constants);
            *b = resolve_const(*b, constants);
        },
        IrOp::Shl { a, amount, .. } => {
            *a = resolve_const(*a, constants);
            *amount = resolve_const(*amount, constants);
        },
        IrOp::Shr { a, amount, .. } => {
            *a = resolve_const(*a, constants);
            *amount = resolve_const(*amount, constants);
        },
        IrOp::Sar { a, amount, .. } => {
            *a = resolve_const(*a, constants);
            *amount = resolve_const(*amount, constants);
        },
        IrOp::VecFma { a, b, c, .. } => {
            *a = resolve_const(*a, constants);
            *b = resolve_const(*b, constants);
            *c = resolve_const(*c, constants);
        },
        IrOp::Load { addr, .. } => {
            *addr = resolve_const(*addr, constants);
        },
        IrOp::Store { addr, val, .. } => {
            *addr = resolve_const(*addr, constants);
            *val = resolve_const(*val, constants);
        },
        IrOp::Branch { cond, .. } => {
            if let Some(c) = cond {
                *c = resolve_const(*c, constants);
            }
        },
        IrOp::IndirectBranch { target } => {
            *target = resolve_const(*target, constants);
        },
        IrOp::Call { target } => {
            *target = resolve_const(*target, constants);
        },
        IrOp::Intrinsic { operands, .. } => {
            resolve_all_consts(operands, constants);
        },
        IrOp::ReadFlag { .. } => {},
        IrOp::Return => {},
    }
}

// ---------------------------------------------------------------------------
// Constant folding with propagation.
// ---------------------------------------------------------------------------

/// The foldable arithmetic of an operation: its kind, destination, operands and width.
pub open spec fn foldable(op: OpView) -> Option<(ScalarFoldOp, VReg, VOperand, VOperand, Width)> {
    match op {
        OpView::Add { dst, a, b, width } => Some((ScalarFoldOp::Add, dst, a, b, width)),
        OpView::Sub { dst, a, b, width } => Some((ScalarFoldOp::Sub, dst, a, b, width)),
        OpView::And { dst, a, b, width } => Some((ScalarFoldOp::And, dst, a, b, width)),
        OpView::Or { dst, a, b, width } => Some((ScalarFoldOp::Or, dst, a, b, width)),
        OpView::Xor { dst, a, b, width } => Some((ScalarFoldOp::Xor, dst, a, b, width)),
        OpView::Mul { dst, a, b, width } => Some((ScalarFoldOp::Mul, dst, a, b, width)),
        OpView::Shl { dst, a, amount, width } => Some((ScalarFoldOp::Shl, dst, a, amount, width)),
        OpView::Shr { dst, a, amount, width } => Some((ScalarFoldOp::Shr, dst, a, amount, width)),
        OpView::Sar { dst, a, amount, width } => Some((ScalarFoldOp::Sar, dst, a, amount, width)),
        _ => None,
    }
}

/// The constant-producing form of a folded operation: the same operation on
/// the constant and the operation's identity (zero, all ones for `And`, one
/// for `Mul`).
pub open spec fn constant_form(kind: ScalarFoldOp, dst: VReg, v: i64, width: Width) -> OpView {
    let c = VOperand::Imm(v);
    match kind {
        ScalarFoldOp::Add => OpView::Add { dst, a: c, b: VOperand::Imm(0), width },
        ScalarFoldOp::Sub => OpView::Sub { dst, a: c, b: VOperand::Imm(0), width },
        ScalarFoldOp::And => OpView::And { dst, a: c, b: VOperand::Imm(-1i64), width },
        ScalarFoldOp::Or => OpView::Or { dst, a: c, b: VOperand::Imm(0), width },
        ScalarFoldOp::Xor => OpView::Xor { dst, a: c, b: VOperand::Imm(0), width },
        ScalarFoldOp::Mul => OpView::Mul { dst, a: c, b: VOperand::Imm(1), width },
        ScalarFoldOp::Shl => OpView::Shl { dst, a: c, amount: VOperand::Imm(0), width },
        ScalarFoldOp::Shr => OpView::Shr { dst, a: c, amount: VOperand::Imm(0), width },
        ScalarFoldOp::Sar => OpView::Sar { dst, a: c, amount: VOperand::Imm(0), width },
    }
}

/// One step of folding: known constants replace register operands; an
/// arithmetic op on two immediates becomes its constant form and records the
/// constant for its destination; any other definition forgets its destination.
pub open spec fn fold_step(op: OpView, known: Map<u32, i64>) -> (OpView, Map<u32, i64>) {
    let op1 = map_operands(op, |o: VOperand| with_const(o, known));
    match foldable(op1) {
        Some((kind, dst, a, b, width)) => match fold_operands(kind, a, b, width) {
            Some(v) => (constant_form(kind, dst, v, width), known.insert(dst.0, v)),
            None => (op1, known.remove(dst.0)),
        },
        None => match op1.dst() {
            Some(d) => (op1, known.remove(d.0)),
            None => (op1, known),
        },
    }
}

/// Folding the first `n` ops: the rewritten ops and the constants known after them.
pub open spec fn fold_prefix(ops: Seq<OpView>, n: nat) -> (Seq<OpView>, Map<u32, i64>)
    decreases n,
{
    if n == 0 {
        (Seq::empty(), Map::empty())
    } else {
        let (out, known) = fold_prefix(ops, (n - 1) as nat);
        let (op1, known1) = fold_step(ops[n - 1], known);
        (out.push(op1), known1)
    }
}

pub open spec fn constant_fold_spec(ops: Seq<OpView>) -> Seq<OpView> {
    fold_prefix(ops, ops.len()).0
}

proof fn lemma_fold_is_masked(kind: ScalarFoldOp, x: i64, y: i64, width: Width)
    requires
        fold_value(kind, x, y, width) is Some,
    ensures
        masked(fold_value(kind, x, y, width)->0, width) == fold_value(kind, x, y, width)->0,
{
    let v = fold_value(kind, x, y, width)->0;
    let raw: i64 = match kind {
        ScalarFoldOp::Add => vstd::wrapping::i64_specs::wrapping_add(x, y),
        ScalarFoldOp::Sub => vstd::wrapping::i64_specs::wrapping_sub(x, y),
        ScalarFoldOp::And => x & y,
        ScalarFoldOp::Or => x | y,
        ScalarFoldOp::Xor => x ^ y,
        ScalarFoldOp::Mul => vstd::wrapping::i64_specs::wrapping_mul(x, y),
        ScalarFoldOp::Shl => vstd::wrapping::u64_specs::wrapping_shl(x as u64, shift_amount(y, bits_of(width)->0)) as i64,
        ScalarFoldOp::Shr => vstd::wrapping::u64_specs::wrapping_shr(x as u64, shift_amount(y, bits_of(width)->0)) as i64,
        ScalarFoldOp::Sar => vstd::wrapping::i64_specs::wrapping_shr(sign_extended(x, width), shift_amount(y, bits_of(width)->0)),
    };
    assert(v == masked(raw, width));
    lemma_mask_idempotent(raw);
}

fn foldable_parts(op: &IrOp) -> (r: Option<(ScalarFoldOp, VReg, VOperand, VOperand, Width)>)
    ensures
        r == foldable(op@),
{
    match op {
        IrOp::Add { dst, a, b, width } => Some((ScalarFoldOp::Add, *dst, *a, *b, *width)),
        IrOp::Sub { dst, a, b, width } => Some((ScalarFoldOp::Sub, *dst, *a, *b, *width)),
        IrOp::And { dst, a, b, width } => Some((ScalarFoldOp::And, *dst, *a, *b, *width)),
        IrOp::Or { dst, a, b, width } => Some((ScalarFoldOp::Or, *dst, *a, *b, *width)),
        IrOp::Xor { dst, a, b, width } => Some((ScalarFoldOp::Xor, *dst, *a, *b, *width)),
        IrOp::Mul { dst, a, b, width } => Some((ScalarFoldOp::Mul, *dst, *a, *b, *width)),
        IrOp::Shl { dst, a, amount, width } => Some((ScalarFoldOp::Shl, *dst, *a, *amount, *width)),
        IrOp::Shr { dst, a, amount, width } => Some((ScalarFoldOp::Shr, *dst, *a, *amount, *width)),
        IrOp::Sar { dst, a, amount, width } => Some((ScalarFoldOp::Sar, *dst, *a, *amount, *width)),
        _ => None,
    }
}

fn constant_op(kind: ScalarFoldOp, dst: VReg, v: i64, width: Width) -> (r: IrOp)
    ensures
        r@ == constant_form(kind, dst, v, width),
{
    let c = VOperand::Imm(v);
    match kind {
        ScalarFoldOp::Add => IrOp::Add { dst, a: c, b: VOperand::Imm(0), width },
        ScalarFoldOp::Sub => IrOp::Sub { dst, a: c, b: VOperand::Imm(0), width },
        ScalarFoldOp::And => IrOp::And { dst, a: c, b: VOperand::Imm(-1), width },
        ScalarFoldOp::Or => IrOp::Or { dst, a: c, b: VOperand::Imm(0), width },
        ScalarFoldOp::Xor => IrOp::Xor { dst, a: c, b: VOperand::Imm(0), width },
        ScalarFoldOp::Mul => IrOp::Mul { dst, a: c, b: VOperand::Imm(1), width },
        ScalarFoldOp::Shl => IrOp::Shl { dst, a: c, amount: VOperand::Imm(0), width },
        ScalarFoldOp::Shr => IrOp::Shr { dst, a: c, amount: VOperand::Imm(0), width },
        ScalarFoldOp::Sar => IrOp::Sar { dst, a: c, amount: VOperand::Imm(0), width },
    }
}

/// The vreg an op defines.
fn defined_vreg(op: &IrOp) -> (r: Option<VReg>)
    ensures
        r == op@.dst(),
{
    match op {
        IrOp::Add { dst, .. } | IrOp::Sub { dst, .. } | IrOp::And { dst, .. } | IrOp::Or { dst, .. }
        | IrOp::Xor { dst, .. } | IrOp::Shl { dst, .. } | IrOp::Shr { dst, .. } | IrOp::Sar { dst, .. }
        | IrOp::Mul { dst, .. } | IrOp::VecAdd { dst, .. } | IrOp::VecMul { dst, .. }
        | IrOp::VecFma { dst, .. } | IrOp::Load { dst, .. } | IrOp::ReadFlag { dst, .. } => Some(*dst),
        IrOp::Intrinsic { dst, .. } => *dst,
        _ => None,
    }
}

/// Constant folding and propagation within the block. Register operands with
/// a known constant become immediates; an arithmetic op on two immediates is
/// rewritten to a form producing its constant, which later ops then see.
pub fn constant_fold(block: &mut IrBlock)
    ensures
        final(block)@.ops == constant_fold_spec(old(block)@.ops),
        final(block)@.id == old(block)@.id,
        final(block)@.guest_start_pc == old(block)@.guest_start_pc,
{
    let ghost ops0 = old(block)@.ops;
    let mut constants: HashMap<u32, i64> = HashMap::new();
    let mut i: usize = 0;
    while i < block.ops.len()
        invariant
            i <= block.ops@.len() == ops0.len(),
            block@.id == old(block)@.id,
            block@.guest_start_pc == old(block)@.guest_start_pc,
            fold_prefix(ops0, i as nat).0.len() == i,
            forall|j: int| 0 <= j < i ==> (#[trigger] block.ops@[j])@ == fold_prefix(ops0, i as nat).0[j],
            forall|j: int| i <= j < ops0.len() ==> (#[trigger] block.ops@[j])@ == ops0[j],
            constants@ == fold_prefix(ops0, i as nat).1,
        decreases ops0.len() - i,
    {
        let ghost before = block.ops@;
        let mut op = IrOp::Return;
        std::mem::swap(&mut op, &mut block.ops[i]);
        assert(op@ == ops0[i as int]);
        substitute_consts(&mut op, &constants);
        match foldable_parts(&op) {
            Some((kind, dst, a, b, width)) => match fold_binary(kind, a, b, width) {
                Some(value) => {
                    op = constant_op(kind, dst, value, width);
                    let recorded = match kind {
                        ScalarFoldOp::Shl | ScalarFoldOp::Shr | ScalarFoldOp::Sar => value,
                        _ => mask_to_width(value, width),
                    };
                    proof {
                        let (x, y) = (a->Imm_0, b->Imm_0);
                        lemma_fold_is_masked(kind, x, y, width);
                    }
                    constants.insert(dst.0, recorded);
                },
                None => {
                    constants.remove(&dst.0);
                },
            },
            None => match defined_vreg(&op) {
                Some(d) => {
                    constants.remove(&d.0);
                },
                None => {},
            },
        }
        block.ops.set(i, op);
        proof {
            let (out, known) = fold_prefix(ops0, i as nat);
            let (op1, known1) = fold_step(ops0[i as int], known);
            assert(fold_prefix(ops0, (i + 1) as nat) == (out.push(op1), known1));
            assert(op@ == op1);
            assert(constants@ == known1);
            assert forall|j: int| 0 <= j < i + 1 implies (#[trigger] block.ops@[j])@ == fold_prefix(
                ops0,
                (i + 1) as nat,
            ).0[j] by {
                if j < i {
                    assert(block.ops@[j] == before[j]);
                }
            }
        }
        i = i + 1;
    }
    proof {
        assert(block@.ops =~= constant_fold_spec(ops0));
    }
}

// ---------------------------------------------------------------------------
// Dead-flag elimination.
// ---------------------------------------------------------------------------

/// Scanning forward from `from`, a `ReadFlag` comes before any `SetFlags`.
pub open spec fn read_before_set(ops: Seq<OpView>, from: int) -> bool
    decreases ops.len() - from,
{
    if from < 0 || from >= ops.len() {
        false
    } else if ops[from] is ReadFlag {
        true
    } else if ops[from] is SetFlags {
        false
    } else {
        read_before_set(ops, from + 1)
    }
}

/// An op survives unless it is a `SetFlags` that no later `ReadFlag` observes
/// before the next `SetFlags` replaces the flag state.
pub open spec fn flag_kept(ops: Seq<OpView>, i: int) -> bool {
    !(ops[i] is SetFlags) || read_before_set(ops, i + 1)
}

pub open spec fn kept_prefix(ops: Seq<OpView>, n: nat) -> Seq<OpView>
    decreases n,
{
    if n == 0 {
        Seq::empty()
    } else {
        let rest = kept_prefix(ops, (n - 1) as nat);
        if flag_kept(ops, n - 1) {
            rest.push(ops[n - 1])
        } else {
            rest
        }
    }
}

pub open spec fn dead_flag_spec(ops: Seq<OpView>) -> Seq<OpView> {
    kept_prefix(ops, ops.len())
}

proof fn lemma_all_kept(ops: Seq<OpView>, n: nat)
    requires
        n <= ops.len(),
        forall|j: int| 0 <= j < n ==> flag_kept(ops, j),
    ensures
        kept_prefix(ops, n) == ops.subrange(0, n as int),
    decreases n,
{
    if n > 0 {
        lemma_all_kept(ops, (n - 1) as nat);
        assert(ops.subrange(0, n as int) =~= ops.subrange(0, n - 1).push(ops[n - 1]));
    }
}

fn flag_slot(flag: FlagKind) -> (r: usize)
    ensures
        r < 4,
{
    match flag {
        FlagKind::Zero => 0,
        FlagKind::Carry => 1,
        FlagKind::Overflow => 2,
        FlagKind::Negative => 3,
    }
}

/// Removes every `SetFlags` whose flags no later `ReadFlag` consumes before
/// the next `SetFlags` overwrites them. Other ops keep their order.
pub fn dead_flag_elimination(block: &mut IrBlock)
    ensures
        final(block)@.ops == dead_flag_spec(old(block)@.ops),
        final(block)@.id == old(block)@.id,
        final(block)@.guest_start_pc == old(block)@.guest_start_pc,
{
    let ghost ops0 = block@.ops;
    let n = block.ops.len();
    let mut live: Vec<bool> = vec![false, false, false, false];
    let mut keep: Vec<bool> = Vec::new();
    let mut k: usize = 0;
    while k < n
        invariant
            k <= n,
            keep@.len() == k,
            forall|j: int| 0 <= j < k ==> keep@[j],
        decreases n - k,
    {
        keep.push(true);
        k = k + 1;
    }
    let mut index: usize = n;
    while index > 0
        invariant
            index <= n == block.ops@.len() == ops0.len(),
            block@.ops == ops0,
            keep@.len() == n,
            live@.len() == 4,
            (live@[0] || live@[1] || live@[2] || live@[3]) == read_before_set(ops0, index as int),
            forall|j: int| index <= j < n ==> keep@[j] == flag_kept(ops0, j),
            forall|j: int| 0 <= j < index ==> keep@[j],
        decreases index,
    {
        index = index - 1;
        assert(block.ops@[index as int]@ == ops0[index as int]);
        match &block.ops[index] {
            IrOp::ReadFlag { flag, .. } => {
                let slot = flag_slot(*flag);
                live.set(slot, true);
            },
            IrOp::SetFlags { .. } => {
                let observable = live[0] || live[1] || live[2] || live[3];
                if !observable {
                    keep.set(index, false);
                }
                live = vec![false, false, false, false];
            },
            _ => {},
        }
    }
    let mut all = true;
    let mut j: usize = 0;
    while j < n
        invariant
            j <= n == keep@.len(),
            all == (forall|t: int| 0 <= t < j ==> keep@[t]),
        decreases n - j,
    {
        if !keep[j] {
            all = false;
        }
        j = j + 1;
    }
    if all {
        proof {
            lemma_all_kept(ops0, n as nat);
            assert(ops0.subrange(0, n as int) =~= ops0);
        }
        return;
    }
    let mut old_ops: Vec<IrOp> = Vec::new();
    std::mem::swap(&mut old_ops, &mut block.ops);
    let mut i: usize = 0;
    while i < n
        invariant
            i <= n == old_ops@.len() == ops0.len(),
            forall|t: int| 0 <= t < n ==> (#[trigger] old_ops@[t])@ == ops0[t],
            forall|t: int| 0 <= t < n ==> keep@[t] == flag_kept(ops0, t),
            keep@.len() == n,
            block.ops@.map_values(|o: IrOp| o@) == kept_prefix(ops0, i as nat),
            block@.id == old(block)@.id,
            block@.guest_start_pc == old(block)@.guest_start_pc,
        decreases n - i,
    {
        if keep[i] {
            let op = old_ops[i].copy_op();
            block.ops.push(op);
        }
        proof {
            assert(block.ops@.map_values(|o: IrOp| o@) =~= kept_prefix(ops0, (i + 1) as nat));
        }
        i = i + 1;
    }
}

// ---------------------------------------------------------------------------
// Redundant-load elimination.
// ---------------------------------------------------------------------------

/// A byte range `[start, end)` of guest memory.
#[derive(Clone, Copy, Debug, PartialEq, Eq, Structural)]
pub struct MemRange {
    pub start: u64,
    pub end: u64,
}

pub open spec fn width_bytes(w: Width) -> u64 {
    match w {
        Width::W8 => 1,
        Width::W16 => 2,
        Width::W32 => 4,
        Width::W64 => 8,
        Width::W128 => 16,
    }
}

/// The bytes an access of `width` at `addr` touches; none when they would
/// run past the top of the address space.
pub open spec fn mem_range(addr: i64, width: Width) -> Option<MemRange> {
    let start = addr as u64;
    if start + width_bytes(width) <= u64::MAX {
        Some(MemRange { start, end: (start + width_bytes(width)) as u64 })
    } else {
        None
    }
}

impl MemRange {
    pub open spec fn meets(self, other: MemRange) -> bool {
        self.start < other.end && other.start < self.end
    }

    pub fn new(addr: i64, width: Width) -> (r: Option<MemRange>)
        ensures
            r == mem_range(addr, width),
    {
        let bytes: u64 = match width {
            Width::W8 => 1,
            Width::W16 => 2,
            Width::W32 => 4,
            Width::W64 => 8,
            Width::W128 => 16,
        };
        let start = addr as u64;
        match start.checked_add(bytes) {
            Some(end) => Some(MemRange { start, end }),
            None => None,
        }
    }

    pub fn overlaps(self, other: MemRange) -> (r: bool)
        ensures
            r == self.meets(other),
    {
        self.start < other.end && other.start < self.end
    }
}

/// A value known to sit in a byte range, as a load of the given shape reads it.
#[derive(Clone, Copy, Debug, PartialEq, Eq, Structural)]
pub struct CachedLoad {
    pub range: MemRange,
    pub width: Width,
    pub sign_ext: bool,
    pub endian: Endian,
    pub value: VOperand,
}

/// The value the latest store to a byte range wrote.
#[derive(Clone, Copy, Debug, PartialEq, Eq, Structural)]
pub struct CachedStore {
    pub range: MemRange,
    pub width: Width,
    pub endian: Endian,
    pub value: VOperand,
}

/// Follows substitutions from a register for at most `fuel` steps: an
/// immediate ends the walk, a register without a (non-trivial) substitution
/// is where it stops.
pub open spec fn chase(o: VOperand, subs: Map<u32, VOperand>, fuel: nat) -> VOperand
    decreases fuel,
{
    match o {
        VOperand::Imm(_) => o,
        VOperand::Reg(v) => if fuel == 0 || !subs.contains_key(v.0) {
            o
        } else {
            match subs[v.0] {
                VOperand::Imm(x) => VOperand::Imm(x),
                VOperand::Reg(next) => if next.0 != v.0 {
                    chase(VOperand::Reg(next), subs, (fuel - 1) as nat)
                } else {
                    o
                },
            }
        },
    }
}

/// An operand after load substitution: at most eight links are followed.
pub open spec fn substituted(o: VOperand, subs: Map<u32, VOperand>) -> VOperand {
    chase(o, subs, 8)
}

/// The latest cached load of exactly this range and shape.
pub open spec fn find_load(loads: Seq<CachedLoad>, range: MemRange, width: Width, sign_ext: bool, endian: Endian) -> Option<
    CachedLoad,
>
    decreases loads.len(),
{
    if loads.len() == 0 {
        None
    } else {
        let c = loads.last();
        if c.range == range && c.width == width && c.sign_ext == sign_ext && c.endian == endian {
            Some(c)
        } else {
            find_load(loads.drop_last(), range, width, sign_ext, endian)
        }
    }
}

/// The latest cached store of exactly this range, width and endianness.
pub open spec fn find_store(stores: Seq<CachedStore>, range: MemRange, width: Width, endian: Endian) -> Option<CachedStore>
    decreases stores.len(),
{
    if stores.len() == 0 {
        None
    } else {
        let c = stores.last();
        if c.range == range && c.width == width && c.endian == endian {
            Some(c)
        } else {
            find_store(stores.drop_last(), range, width, endian)
        }
    }
}

/// The cached loads whose range does not meet `range`, in order.
pub open spec fn loads_outside(loads: Seq<CachedLoad>, range: MemRange) -> Seq<CachedLoad>
    decreases loads.len(),
{
    if loads.len() == 0 {
        Seq::empty()
    } else {
        let rest = loads_outside(loads.drop_last(), range);
        if loads.last().range.meets(range) {
            rest
        } else {
            rest.push(loads.last())
        }
    }
}

pub open spec fn stores_outside(stores: Seq<CachedStore>, range: MemRange) -> Seq<CachedStore>
    decreases stores.len(),
{
    if stores.len() == 0 {
        Seq::empty()
    } else {
        let rest = stores_outside(stores.drop_last(), range);
        if stores.last().range.meets(range) {
            rest
        } else {
            rest.push(stores.last())
        }
    }
}

/// What a load of `width` reads back of an immediate that was stored: its
/// low bits, sign-extended when the load sign-extends.
pub open spec fn stored_image(raw: i64, width: Width, sign_ext: bool) -> i64 {
    if sign_ext {
        sign_extended(masked(raw, width), width)
    } else {
        masked(raw, width)
    }
}

/// The facts held while scanning a block: cached loads and stores, the
/// substitutions for removed loads, and the ops kept so far.
pub struct RleState {
    pub loads: Seq<CachedLoad>,
    pub stores: Seq<CachedStore>,
    pub subs: Map<u32, VOperand>,
    pub out: Seq<OpView>,
}

pub open spec fn writes_memory(e: SideEffects) -> bool {
    e == SideEffects::WritesMem || e == SideEffects::ReadsAndWritesMem || e == SideEffects::Volatile
}

/// Keeps `op` and forgets every memory fact.
pub open spec fn keep_and_forget(st: RleState, op: OpView) -> RleState {
    RleState { loads: Seq::empty(), stores: Seq::empty(), subs: st.subs, out: st.out.push(op) }
}

pub open spec fn keep_op(st: RleState, op: OpView) -> RleState {
    RleState { out: st.out.push(op), ..st }
}

/// One op of the scan, after substitutions are applied to its operands:
/// - a load from a constant address whose exact range and shape are cached is
///   dropped and its destination stands for the cached value;
/// - failing that, a load whose exact range, width and endianness were last
///   written by an immediate store is dropped, its destination stands for the
///   stored immediate as the load reads it back, and that value is cached;
/// - any other load from a constant address is kept and cached, and cached
///   loads overlapping it are forgotten;
/// - a store to a constant address forgets the cached loads and stores it
///   overlaps and becomes the latest store of its range;
/// - a store to a computed address, a call, a branch, a return, and an
///   intrinsic that may write memory forget every memory fact;
/// - everything else is kept unchanged.
pub open spec fn rle_step(st: RleState, op: OpView) -> RleState {
    let op1 = map_operands(op, |o: VOperand| substituted(o, st.subs));
    match op1 {
        OpView::Load { dst, addr, width, sign_ext, endian } => match addr {
            VOperand::Reg(_) => keep_op(st, op1),
            VOperand::Imm(a) => match mem_range(a, width) {
                None => keep_op(st, op1),
                Some(range) => match find_load(st.loads, range, width, sign_ext, endian) {
                    Some(c) => RleState { subs: st.subs.insert(dst.0, c.value), ..st },
                    None => match find_store(st.stores, range, width, endian) {
                        Some(CachedStore { value: VOperand::Imm(raw), .. }) => {
                            let v = VOperand::Imm(stored_image(raw, width, sign_ext));
                            RleState {
                                subs: st.subs.insert(dst.0, v),
                                loads: st.loads.push(CachedLoad { range, width, sign_ext, endian, value: v }),
                                ..st
                            }
                        },
                        _ => RleState {
                            loads: loads_outside(st.loads, range).push(
                                CachedLoad { range, width, sign_ext, endian, value: VOperand::Reg(dst) },
                            ),
                            out: st.out.push(op1),
                            ..st
                        },
                    },
                },
            },
        },
        OpView::Store { addr, val, width, endian } => match addr {
            VOperand::Reg(_) => keep_and_forget(st, op1),
            VOperand::Imm(a) => match mem_range(a, width) {
                None => keep_and_forget(st, op1),
                Some(range) => RleState {
                    loads: loads_outside(st.loads, range),
                    stores: stores_outside(st.stores, range).push(CachedStore { range, width, endian, value: val }),
                    subs: st.subs,
                    out: st.out.push(op1),
                },
            },
        },
        OpView::Call { .. } | OpView::Branch { .. } | OpView::IndirectBranch { .. } | OpView::Return => keep_and_forget(
            st,
            op1,
        ),
        OpView::Intrinsic { effects, .. } => if writes_memory(effects) {
            keep_and_forget(st, op1)
        } else {
            keep_op(st, op1)
        },
        _ => keep_op(st, op1),
    }
}

pub open spec fn rle_prefix(ops: Seq<OpView>, n: nat) -> RleState
    decreases n,
{
    if n == 0 {
        RleState { loads: Seq::empty(), stores: Seq::empty(), subs: Map::empty(), out: Seq::empty() }
    } else {
        rle_step(rle_prefix(ops, (n - 1) as nat), ops[n - 1])
    }
}

pub open spec fn rle_spec(ops: Seq<OpView>) -> Seq<OpView> {
    rle_prefix(ops, ops.len()).out
}

/// Follows a substitution chain from `op` and rewrites `op` with where it ends.
fn resolve_substitution(op: &mut VOperand, substitutions: &HashMap<u32, VOperand>)
    ensures
        *final(op) == substituted(*old(op), substitutions@),
{
    let mut current = match *op {
        VOperand::Reg(v) => v,
        VOperand::Imm(_) => {
            return;
        },
    };
    let ghost subs = substitutions@;
    let mut k: usize = 0;
    while k < 8
        invariant
            k <= 8,
            *op == VOperand::Reg(current),
            substituted(*old(op), subs) == chase(VOperand::Reg(current), subs, (8 - k) as nat),
            subs == substitutions@,
        decreases 8 - k,
    {
        match substitutions.get(&current.0) {
            Some(VOperand::Imm(value)) => {
                *op = VOperand::Imm(*value);
                return;
            },
            Some(VOperand::Reg(next)) => {
                if next.0 != current.0 {
                    current = *next;
                    *op = VOperand::Reg(current);
                } else {
                    return;
                }
            },
            None => {
                return;
            },
        }
        k = k + 1;
    }
}

fn resolve_all_substitutions(ops: &mut Vec<VOperand>, substitutions: &HashMap<u32, VOperand>)
    ensures
        final(ops)@ == old(ops)@.map_values(|o: VOperand| substituted(o, substitutions@)),
{
    let mut i: usize = 0;
    while i < ops.len()
        invariant
            i <= ops.len(),
            ops@.len() == old(ops)@.len(),
            forall|j: int| 0 <= j < i ==> ops@[j] == substituted(old(ops)@[j], substitutions@),
            forall|j: int| i <= j < ops@.len() ==> ops@[j] == old(ops)@[j],
        decreases ops.len() - i,
    {
        let mut o = ops[i];
        resolve_substitution(&mut o, substitutions);
        ops.set(i, o);
        i = i + 1;
    }
    assert(ops@ =~= old(ops)@.map_values(|o: VOperand| substituted(o, substitutions@)));
}

fn substitute_loads(op: &mut IrOp, substitutions: &HashMap<u32, VOperand>)
    ensures
        final(op)@ == map_operands(old(op)@, |o: VOperand| substituted(o, substitutions@)),
{
    match op {
        IrOp::Add { a, b, .. } => {
            resolve_substitution(a, substitutions);
            resolve_substitution(b, substitutions);
        },
        IrOp::Sub { a, b, .. } => {
            resolve_substitution(a, substitutions);
            resolve_substitution(b, substitutions);
        },
        IrOp::And { a, b, .. } => {
            resolve_substitution(a, substitutions);
            resolve_substitution(b, substitutions);
        },
        IrOp::Or { a, b, .. } => {
            resolve_substitution(a, substitutions);
            resolve_substitution(b, substitutions);
        },
        IrOp::Xor { a, b, .. } => {
            resolve_substitution(a, substitutions);
            resolve_substitution(b, substitutions);
        },
        IrOp::Mul { a, b, .. } => {
            resolve_substitution(a, substitutions);
            resolve_substitution(b, substitutions);
        },
        IrOp::SetFlags { a, b, .. } => {
            resolve_substitution(a, substitutions);
            resolve_substitution(b, substitutions);
        },
        IrOp::VecAdd { a, b, .. } => {
            resolve_substitution(a, substitutions);
            resolve_substitution(b, substitutions);
        },
        IrOp::VecMul { a, b, .. } => {
            resolve_substitution(a, substitutions);
            resolve_substitution(b, substitutions);
        },
        IrOp::Shl { a, amount, .. } => {
            resolve_substitution(a, substitutions);
            resolve_substitution(amount, substitutions);
        },
        IrOp::Shr { a, amount, .. } => {
            resolve_substitution(a, substitutions);
            resolve_substitution(amount, substitutions);
        },
        IrOp::Sar { a, amount, .. } => {
            resolve_substitution(a, substitutions);
            resolve_substitution(amount, substitutions);
        },
        IrOp::VecFma { a, b, c, .. } => {
            resolve_substitution(a, substitutions);
            resolve_substitution(b, substitutions);
            resolve_substitution(c, substitutions);
        },
        IrOp::Load { addr, .. } => {
            resolve_substitution(addr, substitutions);
        },
        IrOp::Store { addr, val, .. } => {
            resolve_substitution(addr, substitutions);
            resolve_substitution(val, substitutions);
        },
        IrOp::Branch { cond, .. } => {
            if let Some(c) = cond {
                resolve_substitution(c, substitutions);
            }
        },
        IrOp::IndirectBranch { target } => {
            resolve_substitution(target, substitutions);
        },
        IrOp::Call { target } => {
            resolve_substitution(target, substitutions);
        },
        IrOp::Intrinsic { operands, .. } => {
            resolve_all_substitutions(operands, substitutions);
        },
        IrOp::ReadFlag { .. } => {},
        IrOp::Return => {},
    }
}


fn find_cached_load(loads: &Vec<CachedLoad>, range: MemRange, width: Width, sign_ext: bool, endian: Endian) -> (r:
    Option<CachedLoad>)
    ensures
        r == find_load(loads@, range, width, sign_ext, endian),
{
    let mut i: usize = loads.len();
    assert(loads@.take(i as int) =~= loads@);
    while i > 0
        invariant
            i <= loads@.len(),
            find_load(loads@, range, width, sign_ext, endian) == find_load(loads@.take(i as int), range, width, sign_ext, endian),
        decreases i,
    {
        let c = loads[i - 1];
        assert(loads@.take(i as int).drop_last() =~= loads@.take(i - 1));
        if c.range == range && c.width == width && c.sign_ext == sign_ext && c.endian == endian {
            return Some(c);
        }
        i = i - 1;
    }
    None
}

fn find_cached_store(stores: &Vec<CachedStore>, range: MemRange, width: Width, endian: Endian) -> (r: Option<CachedStore>)
    ensures
        r == find_store(stores@, range, width, endian),
{
    let mut i: usize = stores.len();
    assert(stores@.take(i as int) =~= stores@);
    while i > 0
        invariant
            i <= stores@.len(),
            find_store(stores@, range, width, endian) == find_store(stores@.take(i as int), range, width, endian),
        decreases i,
    {
        let c = stores[i - 1];
        assert(stores@.take(i as int).drop_last() =~= stores@.take(i - 1));
        if c.range == range && c.width == width && c.endian == endian {
            return Some(c);
        }
        i = i - 1;
    }
    None
}

fn retain_loads_outside(loads: &mut Vec<CachedLoad>, range: MemRange)
    ensures
        final(loads)@ == loads_outside(old(loads)@, range),
{
    let mut kept: Vec<CachedLoad> = Vec::new();
    let mut i: usize = 0;
    while i < loads.len()
        invariant
            i <= loads@.len(),
            loads@ == old(loads)@,
            kept@ == loads_outside(old(loads)@.take(i as int), range),
        decreases loads.len() - i,
    {
        let c = loads[i];
        assert(old(loads)@.take(i + 1).drop_last() =~= old(loads)@.take(i as int));
        if !c.range.overlaps(range) {
            kept.push(c);
        }
        i = i + 1;
    }
    assert(old(loads)@.take(i as int) =~= old(loads)@);
    *loads = kept;
}

fn retain_stores_outside(stores: &mut Vec<CachedStore>, range: MemRange)
    ensures
        final(stores)@ == stores_outside(old(stores)@, range),
{
    let mut kept: Vec<CachedStore> = Vec::new();
    let mut i: usize = 0;
    while i < stores.len()
        invariant
            i <= stores@.len(),
            stores@ == old(stores)@,
            kept@ == stores_outside(old(stores)@.take(i as int), range),
        decreases stores.len() - i,
    {
        let c = stores[i];
        assert(old(stores)@.take(i + 1).drop_last() =~= old(stores)@.take(i as int));
        if !c.range.overlaps(range) {
            kept.push(c);
        }
        i = i + 1;
    }
    assert(old(stores)@.take(i as int) =~= old(stores)@);
    *stores = kept;
}

/// With no substitution recorded, rewriting changes nothing.
proof fn lemma_no_substitution(op: OpView, subs: Map<u32, VOperand>)
    requires
        subs.dom().is_empty(),
    ensures
        map_operands(op, |o: VOperand| substituted(o, subs)) == op,
{
    let f = |o: VOperand| substituted(o, subs);
    assert forall|o: VOperand| #[trigger] f(o) == o by {
        if let VOperand::Reg(v) = o {
            assert(!subs.dom().contains(v.0));
        }
    }
    if let OpView::Intrinsic { operands, .. } = op {
        assert(operands.map_values(f) =~= operands);
    }
}

fn load_parts(op: &IrOp) -> (r: Option<(VReg, VOperand, Width, bool, Endian)>)
    ensures
        r == (match op@ {
            OpView::Load { dst, addr, width, sign_ext, endian } => Some((dst, addr, width, sign_ext, endian)),
            _ => None,
        }),
{
    match op {
        IrOp::Load { dst, addr, width, sign_ext, endian } => Some((*dst, *addr, *width, *sign_ext, *endian)),
        _ => None,
    }
}

fn store_parts(op: &IrOp) -> (r: Option<(VOperand, VOperand, Width, Endian)>)
    ensures
        r == (match op@ {
            OpView::Store { addr, val, width, endian } => Some((addr, val, width, endian)),
            _ => None,
        }),
{
    match op {
        IrOp::Store { addr, val, width, endian } => Some((*addr, *val, *width, *endian)),
        _ => None,
    }
}

/// Calls and control transfers end the straight-line memory facts.
fn is_barrier(op: &IrOp) -> (r: bool)
    ensures
        r == (op@ is Call || op@ is Branch || op@ is IndirectBranch || op@ is Return),
{
    match op {
        IrOp::Call { .. } | IrOp::Branch { .. } | IrOp::IndirectBranch { .. } | IrOp::Return => true,
        _ => false,
    }
}

fn intrinsic_effects(op: &IrOp) -> (r: Option<SideEffects>)
    ensures
        r == (match op@ {
            OpView::Intrinsic { effects, .. } => Some(effects),
            _ => None,
        }),
{
    match op {
        IrOp::Intrinsic { effects, .. } => Some(*effects),
        _ => None,
    }
}

/// Removes loads whose value is already known within the block: the exact
/// same range and shape loaded before, or an exact immediate store to it. The
/// removed load's destination is replaced in later operands by the known value.
/// Loads and stores through computed addresses are never matched; a store
/// through a computed address, a call, a control transfer or a
/// memory-writing intrinsic forgets everything known.
pub fn redundant_load_elimination(block: &mut IrBlock)
    ensures
        final(block)@.ops == rle_spec(old(block)@.ops),
        final(block)@.id == old(block)@.id,
        final(block)@.guest_start_pc == old(block)@.guest_start_pc,
{
    let ghost ops0 = block@.ops;
    let mut loads: Vec<CachedLoad> = Vec::new();
    let mut stores: Vec<CachedStore> = Vec::new();
    let mut substitutions: HashMap<u32, VOperand> = HashMap::new();
    let mut output: Vec<IrOp> = Vec::new();
    let mut old_ops: Vec<IrOp> = Vec::new();
    std::mem::swap(&mut old_ops, &mut block.ops);
    let n = old_ops.len();
    let mut i: usize = 0;
    while i < n
        invariant
            i <= n == old_ops@.len() == ops0.len(),
            forall|t: int| 0 <= t < n ==> (#[trigger] old_ops@[t])@ == ops0[t],
            loads@ == rle_prefix(ops0, i as nat).loads,
            stores@ == rle_prefix(ops0, i as nat).stores,
            substitutions@ == rle_prefix(ops0, i as nat).subs,
            output@.map_values(|o: IrOp| o@) == rle_prefix(ops0, i as nat).out,
            block@.id == old(block)@.id,
            block@.guest_start_pc == old(block)@.guest_start_pc,
        decreases n - i,
    {
        let ghost st = rle_prefix(ops0, i as nat);
        let ghost out0 = output@;
        let mut op = old_ops[i].copy_op();
        if !substitutions.is_empty() {
            substitute_loads(&mut op, &substitutions);
        } else {
            proof {
                lemma_no_substitution(ops0[i as int], substitutions@);
            }
        }
        let ghost op1 = op@;
        assert(op1 == map_operands(ops0[i as int], |o: VOperand| substituted(o, st.subs)));
        assert(rle_prefix(ops0, (i + 1) as nat) == rle_step(st, ops0[i as int]));
        if let Some((dst, addr, width, sign_ext, endian)) = load_parts(&op) {
            match addr {
                VOperand::Reg(_) => {
                    output.push(op);
                },
                VOperand::Imm(a) => match MemRange::new(a, width) {
                    None => {
                        output.push(op);
                    },
                    Some(range) => match find_cached_load(&loads, range, width, sign_ext, endian) {
                        Some(c) => {
                            substitutions.insert(dst.0, c.value);
                        },
                        None => {
                            let mut done = false;
                            match find_cached_store(&stores, range, width, endian) {
                                Some(s) => match s.value {
                                    VOperand::Imm(raw) => {
                                        let mut value = mask_to_width(raw, width);
                                        if sign_ext {
                                            value = sign_extend_width(value, width);
                                        }
                                        let replacement = VOperand::Imm(value);
                                        substitutions.insert(dst.0, replacement);
                                        loads.push(CachedLoad { range, width, sign_ext, endian, value: replacement });
                                        done = true;
                                    },
                                    VOperand::Reg(_) => {},
                                },
                                None => {},
                            }
                            if !done {
                                retain_loads_outside(&mut loads, range);
                                loads.push(CachedLoad { range, width, sign_ext, endian, value: VOperand::Reg(dst) });
                                output.push(op);
                            }
                        },
                    },
                },
            }
        } else if let Some((addr, val, width, endian)) = store_parts(&op) {
            match addr {
                VOperand::Reg(_) => {
                    loads.clear();
                    stores.clear();
                    output.push(op);
                },
                VOperand::Imm(a) => match MemRange::new(a, width) {
                    None => {
                        loads.clear();
                        stores.clear();
                        output.push(op);
                    },
                    Some(range) => {
                        retain_loads_outside(&mut loads, range);
                        retain_stores_outside(&mut stores, range);
                        stores.push(CachedStore { range, width, endian, value: val });
                        output.push(op);
                    },
                },
            }
        } else if is_barrier(&op) {
            loads.clear();
            stores.clear();
            output.push(op);
        } else if let Some(effects) = intrinsic_effects(&op) {
            match effects {
                SideEffects::WritesMem | SideEffects::ReadsAndWritesMem | SideEffects::Volatile => {
                    loads.clear();
                    stores.clear();
                },
                _ => {},
            }
            output.push(op);
        } else {
            output.push(op);
        }
        proof {
            let st1 = rle_prefix(ops0, (i + 1) as nat);
            if st1.out.len() == st.out.len() + 1 {
                assert(output@.map_values(|o: IrOp| o@) =~= st1.out);
            } else {
                assert(output@.map_values(|o: IrOp| o@) =~= st1.out);
            }
        }
        i = i + 1;
    }
    block.ops = output;
    proof {
        assert(block.ops@.map_values(|o: IrOp| o@) == rle_spec(ops0));
    }
}

/// The three passes, in order: constant folding, redundant-load elimination,
/// dead-flag elimination.
pub fn run_all(block: &mut IrBlock)
    ensures
        final(block)@.ops == dead_flag_spec(rle_spec(constant_fold_spec(old(block)@.ops))),
        final(block)@.id == old(block)@.id,
        final(block)@.guest_start_pc == old(block)@.guest_start_pc,
{
    constant_fold(block);
    redundant_load_elimination(block);
    dead_flag_elimination(block);
}

// ---------------------------------------------------------------------------
// Laws.
// ---------------------------------------------------------------------------

proof fn lemma_identities(v: i64, m: u32)
    by (bit_vector)
    ensures
        v & -1i64 == v,
        v | 0i64 == v,
        v ^ 0i64 == v,
        (v as u64) << 0u32 == v as u64,
        (v as u64) >> 0u32 == v as u64,
        (v as u64) as i64 == v,
        v >> 0u32 == v,
        0u32 & m == 0u32,
        ((v as i8 as i64) as u64) & 0xff == (v as u64) & 0xff,
        ((v as i16 as i64) as u64) & 0xffff == (v as u64) & 0xffff,
        ((v as i32 as i64) as u64) & 0xffff_ffff == (v as u64) & 0xffff_ffff,
{
}

/// A folded operation stays folded: its constant form, folded again, yields
/// the constant recorded for its destination.
pub proof fn lemma_constant_form_refolds(kind: ScalarFoldOp, dst: VReg, x: i64, y: i64, width: Width)
    requires
        fold_value(kind, x, y, width) is Some,
    ensures
        ({
            let v = fold_value(kind, x, y, width)->0;
            match foldable(constant_form(kind, dst, v, width)) {
                Some((k, d, a, b, w)) => k == kind && d == dst && w == width && fold_operands(k, a, b, w) == Some(v),
                None => false,
            }
        }),
{
    let v = fold_value(kind, x, y, width)->0;
    lemma_fold_is_masked(kind, x, y, width);
    let m: u32 = match bits_of(width) {
        Some(bits) => (bits - 1) as u32,
        None => 0,
    };
    lemma_identities(v, m);
    match kind {
        ScalarFoldOp::Add => assert(fold_value(kind, v, 0, width) == Some(v)),
        ScalarFoldOp::Sub => assert(fold_value(kind, v, 0, width) == Some(v)),
        ScalarFoldOp::And => assert(fold_value(kind, v, -1i64, width) == Some(v)),
        ScalarFoldOp::Or => assert(fold_value(kind, v, 0, width) == Some(v)),
        ScalarFoldOp::Xor => assert(fold_value(kind, v, 0, width) == Some(v)),
        ScalarFoldOp::Mul => {
            assert(vstd::wrapping::i64_specs::wrapping_mul(v, 1) == v) by (nonlinear_arith)
                requires
                    i64::MIN <= v <= i64::MAX,
            {
            }
            assert(fold_value(kind, v, 1, width) == Some(v));
        },
        ScalarFoldOp::Shl => {
            assert(shift_amount(0, bits_of(width)->0) == 0);
            assert(fold_value(kind, v, 0, width) == Some(v));
        },
        ScalarFoldOp::Shr => {
            assert(shift_amount(0, bits_of(width)->0) == 0);
            assert(fold_value(kind, v, 0, width) == Some(v));
        },
        ScalarFoldOp::Sar => {
            assert(shift_amount(0, bits_of(width)->0) == 0);
            assert(masked(sign_extended(v, width), width) == masked(v, width));
            lemma_identities(sign_extended(v, width), m);
            assert(fold_value(kind, v, 0, width) == Some(v));
        },
    }
}

/// Folding keeps the number of ops and what each op defines.
pub proof fn lemma_constant_fold_keeps_shape(ops: Seq<OpView>)
    ensures
        constant_fold_spec(ops).len() == ops.len(),
        forall|i: int| 0 <= i < ops.len() ==> (#[trigger] constant_fold_spec(ops)[i]).dst() == ops[i].dst(),
{
    lemma_fold_prefix_shape(ops, ops.len());
}

proof fn lemma_fold_prefix_shape(ops: Seq<OpView>, n: nat)
    requires
        n <= ops.len(),
    ensures
        fold_prefix(ops, n).0.len() == n,
        forall|i: int| 0 <= i < n ==> (#[trigger] fold_prefix(ops, n).0[i]).dst() == ops[i].dst(),
    decreases n,
{
    if n > 0 {
        lemma_fold_prefix_shape(ops, (n - 1) as nat);
        let (out, known) = fold_prefix(ops, (n - 1) as nat);
        let op = ops[n - 1];
        let op1 = map_operands(op, |o: VOperand| with_const(o, known));
        assert(op1.dst() == op.dst());
        assert(fold_step(op, known).0.dst() == op.dst());
        assert forall|i: int| 0 <= i < n implies (#[trigger] fold_prefix(ops, n).0[i]).dst() == ops[i].dst() by {
            if i < n - 1 {
                assert(fold_prefix(ops, n).0[i] == out[i]);
            }
        }
    }
}

/// The ops other than `SetFlags`, in order.
pub open spec fn non_flag_ops(s: Seq<OpView>) -> Seq<OpView>
    decreases s.len(),
{
    if s.len() == 0 {
        Seq::empty()
    } else if s.last() is SetFlags {
        non_flag_ops(s.drop_last())
    } else {
        non_flag_ops(s.drop_last()).push(s.last())
    }
}

/// Dead-flag elimination removes only `SetFlags`: every other op survives, in order.
pub proof fn lemma_dead_flags_keep_other_ops(ops: Seq<OpView>)
    ensures
        non_flag_ops(dead_flag_spec(ops)) == non_flag_ops(ops),
{
    lemma_kept_prefix_others(ops, ops.len());
    assert(ops.take(ops.len() as int) =~= ops);
}

proof fn lemma_kept_prefix_others(ops: Seq<OpView>, n: nat)
    requires
        n <= ops.len(),
    ensures
        non_flag_ops(kept_prefix(ops, n)) == non_flag_ops(ops.take(n as int)),
    decreases n,
{
    if n > 0 {
        lemma_kept_prefix_others(ops, (n - 1) as nat);
        assert(ops.take(n as int).drop_last() =~= ops.take(n - 1));
        let rest = kept_prefix(ops, (n - 1) as nat);
        if flag_kept(ops, n - 1) {
            assert(rest.push(ops[n - 1]).drop_last() =~= rest);
        }
    }
}

/// The number of ops that are not loads.
pub open spec fn count_non_loads(s: Seq<OpView>) -> nat
    decreases s.len(),
{
    if s.len() == 0 {
        0
    } else {
        count_non_loads(s.drop_last()) + if s.last() is Load {
            0nat
        } else {
            1nat
        }
    }
}

/// Redundant-load elimination removes only loads: the output holds as many
/// non-load ops as the input.
pub proof fn lemma_load_elimination_removes_only_loads(ops: Seq<OpView>)
    ensures
        count_non_loads(rle_spec(ops)) == count_non_loads(ops),
{
    lemma_rle_prefix_non_loads(ops, ops.len());
    assert(ops.take(ops.len() as int) =~= ops);
}

proof fn lemma_rle_prefix_non_loads(ops: Seq<OpView>, n: nat)
    requires
        n <= ops.len(),
    ensures
        count_non_loads(rle_prefix(ops, n).out) == count_non_loads(ops.take(n as int)),
    decreases n,
{
    if n > 0 {
        lemma_rle_prefix_non_loads(ops, (n - 1) as nat);
        assert(ops.take(n as int).drop_last() =~= ops.take(n - 1));
        let st = rle_prefix(ops, (n - 1) as nat);
        let op = ops[n - 1];
        let op1 = map_operands(op, |o: VOperand| substituted(o, st.subs));
        assert((op1 is Load) == (op is Load));
        let st1 = rle_step(st, op);
        if st1.out.len() == st.out.len() + 1 {
            assert(st1.out.drop_last() =~= st.out);
        } else {
            assert(st1.out =~= st.out);
        }
    }
}

// ---------------------------------------------------------------------------
// Which ops the two removal passes keep.
// ---------------------------------------------------------------------------

/// Positions listed in increasing order.
pub open spec fn increasing(kept: Seq<int>) -> bool {
    forall|a: int, b: int| 0 <= a < b < kept.len() ==> kept[a] < kept[b]
}

/// A `ReadFlag` after `i` observes the flags set at `i` before any `SetFlags` replaces them.
pub open spec fn flags_observed(ops: Seq<OpView>, i: int) -> bool {
    exists|k: int|
        i < k < ops.len() && (#[trigger] ops[k]) is ReadFlag && forall|j: int| i < j < k ==> !((#[trigger] ops[j]) is SetFlags)
}

proof fn lemma_read_before_set(ops: Seq<OpView>, from: int)
    requires
        0 <= from,
    ensures
        read_before_set(ops, from) <==> exists|k: int|
            from <= k < ops.len() && (#[trigger] ops[k]) is ReadFlag && forall|j: int|
                from <= j < k ==> !((#[trigger] ops[j]) is SetFlags),
    decreases ops.len() - from,
{
    if from < ops.len() {
        lemma_read_before_set(ops, from + 1);
        if ops[from] is ReadFlag {
            assert(from <= from < ops.len() && ops[from] is ReadFlag);
        } else if ops[from] is SetFlags {
            if exists|k: int|
                from <= k < ops.len() && (#[trigger] ops[k]) is ReadFlag && forall|j: int|
                    from <= j < k ==> !((#[trigger] ops[j]) is SetFlags) {
                let k = choose|k: int|
                    from <= k < ops.len() && (#[trigger] ops[k]) is ReadFlag && forall|j: int|
                        from <= j < k ==> !((#[trigger] ops[j]) is SetFlags);
                assert(!(ops[from] is SetFlags));
            }
        } else {
            if exists|k: int|
                from <= k < ops.len() && (#[trigger] ops[k]) is ReadFlag && forall|j: int|
                    from <= j < k ==> !((#[trigger] ops[j]) is SetFlags) {
                let k = choose|k: int|
                    from <= k < ops.len() && (#[trigger] ops[k]) is ReadFlag && forall|j: int|
                        from <= j < k ==> !((#[trigger] ops[j]) is SetFlags);
                assert(k != from);
                assert(from + 1 <= k && forall|j: int| from + 1 <= j < k ==> !((#[trigger] ops[j]) is SetFlags));
            }
        }
    }
}

spec fn flag_positions(ops: Seq<OpView>, n: nat) -> Seq<int>
    decreases n,
{
    if n == 0 {
        Seq::empty()
    } else if flag_kept(ops, n - 1) {
        flag_positions(ops, (n - 1) as nat).push(n - 1)
    } else {
        flag_positions(ops, (n - 1) as nat)
    }
}

proof fn lemma_flag_positions(ops: Seq<OpView>, n: nat)
    requires
        n <= ops.len(),
    ensures
        flag_positions(ops, n).len() == kept_prefix(ops, n).len(),
        increasing(flag_positions(ops, n)),
        forall|j: int| 0 <= j < flag_positions(ops, n).len() ==> 0 <= #[trigger] flag_positions(ops, n)[j] < n
            && kept_prefix(ops, n)[j] == ops[flag_positions(ops, n)[j]],
        forall|i: int| 0 <= i < n ==> (flag_positions(ops, n).contains(i) <==> flag_kept(ops, i)),
    decreases n,
{
    if n > 0 {
        lemma_flag_positions(ops, (n - 1) as nat);
        let p = flag_positions(ops, (n - 1) as nat);
        let q = flag_positions(ops, n);
        assert forall|i: int| 0 <= i < n implies (q.contains(i) <==> flag_kept(ops, i)) by {
            if q.contains(i) && i < n - 1 {
                let j = choose|j: int| 0 <= j < q.len() && q[j] == i;
                if j < p.len() {
                    assert(p[j] == i);
                }
            }
            if p.contains(i) {
                let j = choose|j: int| 0 <= j < p.len() && p[j] == i;
                assert(q[j] == i);
            }
            if i == n - 1 && flag_kept(ops, i) {
                assert(q[q.len() - 1] == i);
            }
            if i == n - 1 && q.contains(i) {
                let j = choose|j: int| 0 <= j < q.len() && q[j] == i;
                if j < p.len() {
                    assert(p[j] == i);
                }
            }
        }
    }
}

/// Dead-flag elimination keeps, unchanged and in order, exactly the ops that
/// are not `SetFlags` and the `SetFlags` whose flags a later `ReadFlag`
/// observes before the next `SetFlags`.
pub proof fn lemma_dead_flags_remove_exactly_unobserved(ops: Seq<OpView>)
    ensures
        exists|kept: Seq<int>|
            {
                &&& kept.len() == dead_flag_spec(ops).len()
                &&& increasing(kept)
                &&& forall|j: int| 0 <= j < kept.len() ==> 0 <= #[trigger] kept[j] < ops.len() && dead_flag_spec(ops)[j] == ops[kept[j]]
                &&& forall|i: int| 0 <= i < ops.len() ==> (kept.contains(i) <==> (!(ops[i] is SetFlags) || flags_observed(ops, i)))
            },
{
    let kept = flag_positions(ops, ops.len());
    lemma_flag_positions(ops, ops.len());
    assert forall|i: int| 0 <= i < ops.len() implies (kept.contains(i) <==> (!(ops[i] is SetFlags) || flags_observed(ops, i))) by {
        lemma_read_before_set(ops, i + 1);
        if flags_observed(ops, i) {
            let k = choose|k: int|
                i < k < ops.len() && (#[trigger] ops[k]) is ReadFlag && forall|j: int| i < j < k ==> !((#[trigger] ops[j]) is SetFlags);
            assert(i + 1 <= k < ops.len() && ops[k] is ReadFlag && forall|j: int| i + 1 <= j < k ==> !((#[trigger] ops[j]) is SetFlags));
        }
        if read_before_set(ops, i + 1) {
            let k = choose|k: int|
                i + 1 <= k < ops.len() && (#[trigger] ops[k]) is ReadFlag && forall|j: int|
                    i + 1 <= j < k ==> !((#[trigger] ops[j]) is SetFlags);
            assert(i < k < ops.len() && ops[k] is ReadFlag && forall|j: int| i < j < k ==> !((#[trigger] ops[j]) is SetFlags));
            assert(flags_observed(ops, i));
        }
        assert(flags_observed(ops, i) <==> read_before_set(ops, i + 1));
        assert(kept.contains(i) <==> flag_kept(ops, i));
    }
}

/// An op with its operands erased: its variant and every other field.
pub open spec fn shape(op: OpView) -> OpView {
    map_operands(op, |o: VOperand| VOperand::Imm(0))
}

/// The destination of a load.
pub open spec fn load_dst(op: OpView) -> Option<VReg> {
    match op {
        OpView::Load { dst, .. } => Some(dst),
        _ => None,
    }
}

/// The op at `i` is a load the pass may drop: its address is a constant, or
/// a register that a load dropped earlier defined (and which now stands for
/// a known value).
pub open spec fn droppable_load(ops: Seq<OpView>, kept: Seq<int>, i: int) -> bool {
    match ops[i] {
        OpView::Load { addr, .. } => match addr {
            VOperand::Imm(_) => true,
            VOperand::Reg(v) => exists|k: int|
                0 <= k < i && !kept.contains(k) && load_dst(#[trigger] ops[k]) == Some(v),
        },
        _ => false,
    }
}

proof fn lemma_shape_map(op: OpView, f: spec_fn(VOperand) -> VOperand)
    ensures
        shape(map_operands(op, f)) == shape(op),
{
    if let OpView::Intrinsic { id, effects, operands, dst } = op {
        let z = |o: VOperand| VOperand::Imm(0);
        assert(operands.map_values(f).map_values(z) =~= operands.map_values(z));
    }
}

/// One step of load elimination either keeps the rewritten op or drops a load
/// whose rewritten address is a constant, recording a value for its destination.
proof fn lemma_rle_step_cases(st: RleState, op: OpView)
    ensures
        ({
            let op1 = map_operands(op, |o: VOperand| substituted(o, st.subs));
            let st1 = rle_step(st, op);
            ||| st1.out == st.out.push(op1) && st1.subs == st.subs
            ||| st1.out == st.out && (op1 matches OpView::Load { addr: VOperand::Imm(_), .. }) && load_dst(op) is Some
                && forall|v: u32| #[trigger] st1.subs.contains_key(v) ==> st.subs.contains_key(v) || VReg(v) == load_dst(
                op)->0
        }),
{
}

spec fn rle_positions(ops: Seq<OpView>, n: nat) -> Seq<int>
    decreases n,
{
    if n == 0 {
        Seq::empty()
    } else if rle_prefix(ops, n).out.len() > rle_prefix(ops, (n - 1) as nat).out.len() {
        rle_positions(ops, (n - 1) as nat).push(n - 1)
    } else {
        rle_positions(ops, (n - 1) as nat)
    }
}

proof fn lemma_rle_positions(ops: Seq<OpView>, n: nat)
    requires
        n <= ops.len(),
    ensures
        rle_positions(ops, n).len() == rle_prefix(ops, n).out.len(),
        increasing(rle_positions(ops, n)),
        forall|j: int| 0 <= j < rle_positions(ops, n).len() ==> 0 <= #[trigger] rle_positions(ops, n)[j] < n
            && shape(rle_prefix(ops, n).out[j]) == shape(ops[rle_positions(ops, n)[j]]),
        forall|i: int| 0 <= i < n && !rle_positions(ops, n).contains(i) ==> droppable_load(ops, rle_positions(ops, n), i),
        forall|v: u32| #[trigger] rle_prefix(ops, n).subs.contains_key(v) ==> exists|k: int|
            0 <= k < n && !rle_positions(ops, n).contains(k) && load_dst(#[trigger] ops[k]) == Some(VReg(v)),
    decreases n,
{
    if n > 0 {
        lemma_rle_positions(ops, (n - 1) as nat);
        let st = rle_prefix(ops, (n - 1) as nat);
        let st1 = rle_prefix(ops, n);
        let op = ops[n - 1];
        let op1 = map_operands(op, |o: VOperand| substituted(o, st.subs));
        lemma_rle_step_cases(st, op);
        lemma_shape_map(op, |o: VOperand| substituted(o, st.subs));
        let p = rle_positions(ops, (n - 1) as nat);
        let q = rle_positions(ops, n);
        assert forall|k: int| 0 <= k < n - 1 implies (q.contains(k) <==> p.contains(k)) by {
            if q.contains(k) {
                let j = choose|j: int| 0 <= j < q.len() && q[j] == k;
                if j < p.len() {
                    assert(p[j] == k);
                }
            }
            if p.contains(k) {
                let j = choose|j: int| 0 <= j < p.len() && p[j] == k;
                assert(q[j] == k);
            }
        }
        if st1.out.len() > st.out.len() {
            assert(q[q.len() - 1] == n - 1);
            assert forall|i: int| 0 <= i < n && !q.contains(i) implies droppable_load(ops, q, i) by {
                assert(i != n - 1);
                assert(droppable_load(ops, p, i));
                if let OpView::Load { addr: VOperand::Reg(v), .. } = ops[i] {
                    let k = choose|k: int| 0 <= k < i && !p.contains(k) && load_dst(#[trigger] ops[k]) == Some(v);
                    assert(!q.contains(k));
                }
            }
            assert forall|v: u32| #[trigger] st1.subs.contains_key(v) implies exists|k: int|
                0 <= k < n && !q.contains(k) && load_dst(#[trigger] ops[k]) == Some(VReg(v)) by {
                let k = choose|k: int| 0 <= k < n - 1 && !p.contains(k) && load_dst(#[trigger] ops[k]) == Some(VReg(v));
                assert(!q.contains(k));
            }
        } else {
            assert(q == p);
            assert(!p.contains(n - 1)) by {
                if p.contains(n - 1) {
                    let j = choose|j: int| 0 <= j < p.len() && p[j] == n - 1;
                }
            }
            assert(droppable_load(ops, q, n - 1)) by {
                if let OpView::Load { addr: VOperand::Reg(v), .. } = op {
                    assert(st.subs.contains_key(v.0));
                    let k = choose|k: int| 0 <= k < n - 1 && !p.contains(k) && load_dst(#[trigger] ops[k]) == Some(VReg(v.0));
                    assert(load_dst(ops[k]) == Some(v));
                }
            }
            assert forall|v: u32| #[trigger] st1.subs.contains_key(v) implies exists|k: int|
                0 <= k < n && !q.contains(k) && load_dst(#[trigger] ops[k]) == Some(VReg(v)) by {
                if !st.subs.contains_key(v) {
                    assert(load_dst(ops[n - 1]) == Some(VReg(v)));
                }
            }
        }
    }
}

/// Redundant-load elimination deletes only loads, and keeps every other op in
/// order with its variant and non-operand fields unchanged (operands may be
/// rewritten). A deleted load had a constant address, or an address register
/// defined by a load deleted before it.
pub proof fn lemma_load_elimination_keeps_the_rest(ops: Seq<OpView>)
    ensures
        exists|kept: Seq<int>|
            {
                &&& kept.len() == rle_spec(ops).len()
                &&& increasing(kept)
                &&& forall|j: int| 0 <= j < kept.len() ==> 0 <= #[trigger] kept[j] < ops.len() && shape(rle_spec(ops)[j]) == shape(ops[kept[j]])
                &&& forall|i: int| 0 <= i < ops.len() && !kept.contains(i) ==> droppable_load(ops, kept, i)
            },
{
    lemma_rle_positions(ops, ops.len());
    let kept = rle_positions(ops, ops.len());
    assert(kept.len() == rle_spec(ops).len());
}

// ---------------------------------------------------------------------------
// What folding computes at 64 bits.
// ---------------------------------------------------------------------------

/// `a` and `b` agree modulo 2^64.
pub open spec fn same_mod_2_64(a: int, b: int) -> bool {
    (a - b) % 0x1_0000_0000_0000_0000 == 0
}

/// A 64-bit arithmetic op whose two operands are both immediates: its kind
/// and its two values.
pub open spec fn imm_arith_64(op: OpView) -> Option<(ScalarFoldOp, i64, i64)> {
    match op {
        OpView::Add { a: VOperand::Imm(x), b: VOperand::Imm(y), width: Width::W64, .. } => Some((ScalarFoldOp::Add, x, y)),
        OpView::Sub { a: VOperand::Imm(x), b: VOperand::Imm(y), width: Width::W64, .. } => Some((ScalarFoldOp::Sub, x, y)),
        OpView::And { a: VOperand::Imm(x), b: VOperand::Imm(y), width: Width::W64, .. } => Some((ScalarFoldOp::And, x, y)),
        OpView::Or { a: VOperand::Imm(x), b: VOperand::Imm(y), width: Width::W64, .. } => Some((ScalarFoldOp::Or, x, y)),
        OpView::Xor { a: VOperand::Imm(x), b: VOperand::Imm(y), width: Width::W64, .. } => Some((ScalarFoldOp::Xor, x, y)),
        OpView::Mul { a: VOperand::Imm(x), b: VOperand::Imm(y), width: Width::W64, .. } => Some((ScalarFoldOp::Mul, x, y)),
        OpView::Shl { a: VOperand::Imm(x), amount: VOperand::Imm(y), width: Width::W64, .. } => Some(
            (ScalarFoldOp::Shl, x, y),
        ),
        OpView::Shr { a: VOperand::Imm(x), amount: VOperand::Imm(y), width: Width::W64, .. } => Some(
            (ScalarFoldOp::Shr, x, y),
        ),
        OpView::Sar { a: VOperand::Imm(x), amount: VOperand::Imm(y), width: Width::W64, .. } => Some(
            (ScalarFoldOp::Sar, x, y),
        ),
        _ => None,
    }
}

/// What a 64-bit operation on `x` and `y` evaluates to, as a property of its
/// result `r`: a sum, difference or product agrees with the exact value
/// modulo 2^64; `and`, `or`, `xor` are the bitwise operations; a shift by an
/// amount below 64 shifts `x` by it, `Shr` on its unsigned bit pattern.
pub open spec fn evaluates_to_64(kind: ScalarFoldOp, x: i64, y: i64, r: i64) -> bool {
    match kind {
        ScalarFoldOp::Add => same_mod_2_64(r as int, x + y),
        ScalarFoldOp::Sub => same_mod_2_64(r as int, x - y),
        ScalarFoldOp::Mul => same_mod_2_64(r as int, x * y),
        ScalarFoldOp::And => r == x & y,
        ScalarFoldOp::Or => r == x | y,
        ScalarFoldOp::Xor => r == x ^ y,
        ScalarFoldOp::Shl => 0 <= y < 64 ==> r == x << (y as u32),
        ScalarFoldOp::Shr => 0 <= y < 64 ==> r as u64 == (x as u64) >> (y as u32),
        ScalarFoldOp::Sar => 0 <= y < 64 ==> r == x >> (y as u32),
    }
}

proof fn lemma_fold_value_64(kind: ScalarFoldOp, x: i64, y: i64)
    ensures
        fold_value(kind, x, y, Width::W64) matches Some(r) && evaluates_to_64(kind, x, y, r),
{
    let m: int = 0x1_0000_0000_0000_0000;
    match kind {
        ScalarFoldOp::Mul => {
            let p = x * y;
            vstd::arithmetic::div_mod::lemma_fundamental_div_mod(p, m);
            let r = vstd::wrapping::i64_specs::wrapping_mul(x, y);
            let k = p / m;
            if p % m > i64::MAX {
                assert(r as int - p == (-k - 1) * m);
                vstd::arithmetic::div_mod::lemma_mod_multiples_basic(-k - 1, m);
            } else {
                assert(r as int - p == (-k) * m);
                vstd::arithmetic::div_mod::lemma_mod_multiples_basic(-k, m);
            }
        },
        ScalarFoldOp::Shl => {
            assert(0 <= y < 64 ==> vstd::wrapping::u64_specs::wrapping_shl(x as u64, (y as u32) & 63u32) as i64 == x
                << (y as u32)) by (bit_vector);
        },
        ScalarFoldOp::Shr => {
            assert(0 <= y < 64 ==> (vstd::wrapping::u64_specs::wrapping_shr(x as u64, (y as u32) & 63u32) as i64) as u64
                == (x as u64) >> (y as u32)) by (bit_vector);
        },
        ScalarFoldOp::Sar => {
            assert(0 <= y < 64 ==> vstd::wrapping::i64_specs::wrapping_shr(x, (y as u32) & 63u32) == x >> (y as u32))
                by (bit_vector);
        },
        _ => {},
    }
}

proof fn lemma_fold_prefix_stable(ops: Seq<OpView>, n: nat, i: int)
    requires
        0 <= i < n <= ops.len(),
    ensures
        fold_prefix(ops, n).0[i] == fold_prefix(ops, (i + 1) as nat).0[i],
    decreases n,
{
    lemma_fold_prefix_shape(ops, n);
    if n > i + 1 {
        lemma_fold_prefix_stable(ops, (n - 1) as nat, i);
        lemma_fold_prefix_shape(ops, (n - 1) as nat);
    }
}

/// Folding replaces a 64-bit arithmetic op on two immediates by its
/// constant-producing form, whose constant is what the op evaluates to.
pub proof fn lemma_fold_evaluates_64(ops: Seq<OpView>, i: int)
    requires
        0 <= i < ops.len(),
        imm_arith_64(ops[i]) is Some,
    ensures
        ({
            let (kind, x, y) = imm_arith_64(ops[i])->0;
            exists|v: i64|
                #![trigger evaluates_to_64(kind, x, y, v)]
                evaluates_to_64(kind, x, y, v) && constant_fold_spec(ops)[i] == constant_form(
                    kind,
                    ops[i].dst()->0,
                    v,
                    Width::W64,
                )
        }),
{
    lemma_fold_prefix_stable(ops, ops.len(), i);
    lemma_fold_prefix_shape(ops, i as nat);
    let (kind, x, y) = imm_arith_64(ops[i])->0;
    let known = fold_prefix(ops, i as nat).1;
    assert(map_operands(ops[i], |o: VOperand| with_const(o, known)) == ops[i]);
    lemma_fold_value_64(kind, x, y);
    let v = fold_value(kind, x, y, Width::W64)->0;
    assert(evaluates_to_64(kind, x, y, v));
}

} // verus!
