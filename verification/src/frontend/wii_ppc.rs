//! PowerPC "Broadway" frontend: instruction-field extraction, decoding of the
//! supported subset, and lowering into the universal IR. Guest memory is
//! big-endian; `rA = 0` reads as the constant 0 in D-form addressing.
use crate::frontend::{Frontend, RegisterLayout};
use crate::intrinsics;
use crate::ir::{
    binary_op, intrinsic, lemma_flush_indices_frame, BinOp, BlockId, BuilderView, Endian, IntrinsicId, IrBuilder,
    IrOp, OpView, SideEffects, VOperand, VReg, Width,
};
use vstd::prelude::*;

pub mod enc;

verus! {

broadcast use lemma_flush_indices_frame;

// ---------------------------------------------------------------------------
// Instruction fields (bit 0 is the least significant bit of the word).
// ---------------------------------------------------------------------------

pub open spec fn field_opcd(w: u32) -> u8 {
    (w >> 26) as u8
}

pub open spec fn field_rd(w: u32) -> u8 {
    ((w >> 21) & 0x1f) as u8
}

pub open spec fn field_ra(w: u32) -> u8 {
    ((w >> 16) & 0x1f) as u8
}

pub open spec fn field_rb(w: u32) -> u8 {
    ((w >> 11) & 0x1f) as u8
}

pub open spec fn field_xo_x(w: u32) -> u16 {
    ((w >> 1) & 0x3ff) as u16
}

pub open spec fn field_xo_a(w: u32) -> u8 {
    ((w >> 1) & 0x1f) as u8
}

pub open spec fn field_mb(w: u32) -> u8 {
    ((w >> 6) & 0x1f) as u8
}

pub open spec fn field_me(w: u32) -> u8 {
    ((w >> 1) & 0x1f) as u8
}

/// SPR field: bits 11..20 of the word read as one ten-bit number, its two
/// 5-bit halves left in place (not swapped), so `mflr` carries 256 here.
pub open spec fn field_spr(w: u32) -> u16 {
    ((((w >> 16) & 0x1f) << 5) | ((w >> 11) & 0x1f)) as u16
}

pub proof fn lemma_field_bounds(w: u32)
    ensures
        w >> 26 < 64,
        (w >> 21) & 0x1f < 32,
        (w >> 16) & 0x1f < 32,
        (w >> 11) & 0x1f < 32,
        (w >> 6) & 0x1f < 32,
        (w >> 1) & 0x1f < 32,
        (w >> 1) & 0x3ff < 1024,
        (((w >> 16) & 0x1f) << 5) | ((w >> 11) & 0x1f) < 1024,
{
    assert(w >> 26 < 64 && (w >> 21) & 0x1f < 32 && (w >> 16) & 0x1f < 32 && (w >> 11) & 0x1f < 32 && (w
        >> 6) & 0x1f < 32 && (w >> 1) & 0x1f < 32 && (w >> 1) & 0x3ff < 1024 && (((w >> 16) & 0x1f) << 5)
        | ((w >> 11) & 0x1f) < 1024) by (bit_vector);
}

pub fn opcd(w: u32) -> (r: u8)
    ensures
        r == field_opcd(w),
        r < 64,
{
    proof {
        lemma_field_bounds(w);
    }
    (w >> 26) as u8
}

pub fn rd(w: u32) -> (r: u8)
    ensures
        r == field_rd(w),
        r < 32,
{
    proof {
        lemma_field_bounds(w);
    }
    ((w >> 21) & 0x1f) as u8
}

pub fn rs(w: u32) -> (r: u8)
    ensures
        r == field_rd(w),
        r < 32,
{
    rd(w)
}

pub fn ra(w: u32) -> (r: u8)
    ensures
        r == field_ra(w),
        r < 32,
{
    proof {
        lemma_field_bounds(w);
    }
    ((w >> 16) & 0x1f) as u8
}

pub fn rb(w: u32) -> (r: u8)
    ensures
        r == field_rb(w),
        r < 32,
{
    proof {
        lemma_field_bounds(w);
    }
    ((w >> 11) & 0x1f) as u8
}

pub fn rc_bit(w: u32) -> (r: bool)
    ensures
        r == (w & 1 != 0),
{
    w & 1 != 0
}

pub fn simm(w: u32) -> (r: i16)
    ensures
        r == w as i16,
{
    w as i16
}

pub fn uimm(w: u32) -> (r: u16)
    ensures
        r == w as u16,
{
    w as u16
}

pub fn xo_x(w: u32) -> (r: u16)
    ensures
        r == field_xo_x(w),
        r < 1024,
{
    proof {
        lemma_field_bounds(w);
    }
    ((w >> 1) & 0x3ff) as u16
}

pub fn xo_a(w: u32) -> (r: u8)
    ensures
        r == field_xo_a(w),
        r < 32,
{
    proof {
        lemma_field_bounds(w);
    }
    ((w >> 1) & 0x1f) as u8
}

pub fn sh(w: u32) -> (r: u8)
    ensures
        r == field_rb(w),
        r < 32,
{
    rb(w)
}

pub fn mb(w: u32) -> (r: u8)
    ensures
        r == field_mb(w),
        r < 32,
{
    proof {
        lemma_field_bounds(w);
    }
    ((w >> 6) & 0x1f) as u8
}

pub fn me(w: u32) -> (r: u8)
    ensures
        r == field_me(w),
        r < 32,
{
    proof {
        lemma_field_bounds(w);
    }
    ((w >> 1) & 0x1f) as u8
}

pub fn lk(w: u32) -> (r: bool)
    ensures
        r == (w & 1 != 0),
{
    w & 1 != 0
}

pub fn aa(w: u32) -> (r: bool)
    ensures
        r == (w & 2 != 0),
{
    w & 2 != 0
}

pub fn spr_field(w: u32) -> (r: u16)
    ensures
        r == field_spr(w),
        r < 1024,
{
    proof {
        lemma_field_bounds(w);
    }
    ((((w >> 16) & 0x1f) << 5) | ((w >> 11) & 0x1f)) as u16
}

// ---------------------------------------------------------------------------
// Branch targets.
// ---------------------------------------------------------------------------

/// The I-form displacement: bits 2..25 of the word, sign-extended from bit 25.
pub open spec fn li_offset(w: u32) -> int {
    let f = (w & 0x03ff_fffc) as int;
    if f >= 0x0200_0000 {
        f - 0x0400_0000
    } else {
        f
    }
}

/// The B-form displacement: bits 2..15 of the word, sign-extended from bit 15.
pub open spec fn bd_offset(w: u32) -> int {
    let f = (w & 0xfffc) as int;
    if f >= 0x8000 {
        f - 0x1_0000
    } else {
        f
    }
}

/// Absolute branches (AA set) target the displacement taken as a 32-bit address;
/// relative ones add it to `pc`, wrapping.
pub open spec fn branch_target(w: u32, pc: u64, offset: int) -> u64 {
    if w & 2 != 0 {
        (offset % 0x1_0000_0000) as u64
    } else {
        ((pc as int + offset) % 0x1_0000_0000_0000_0000) as u64
    }
}

proof fn lemma_li_bits(w: u32)
    ensures
        (w & 0x03ff_fffc) < 0x0400_0000,
        ((w & 0x03ff_fffc) & 0x0200_0000 != 0) == ((w & 0x03ff_fffc) >= 0x0200_0000),
        (w & 0x03ff_fffc) | 0xfc00_0000 == (w & 0x03ff_fffc) + 0xfc00_0000,
        ((w & 0x03ff_fffc) as u64) | 0xffff_ffff_fc00_0000u64 == ((w & 0x03ff_fffc) as u64)
            + 0xffff_ffff_fc00_0000u64,
{
    assert((w & 0x03ff_fffc) < 0x0400_0000) by (bit_vector);
    assert(((w & 0x03ff_fffc) & 0x0200_0000 != 0) == ((w & 0x03ff_fffc) >= 0x0200_0000)) by (bit_vector);
    assert((w & 0x03ff_fffc) | 0xfc00_0000 == (w & 0x03ff_fffc) + 0xfc00_0000) by (bit_vector);
    let f: u32 = w & 0x03ff_fffc;
    let g: u64 = f as u64;
    assert(g | 0xffff_ffff_fc00_0000u64 == g + 0xffff_ffff_fc00_0000u64) by (bit_vector)
        requires
            g < 0x0400_0000,
    ;
}

proof fn lemma_bd_bits(w: u32)
    ensures
        (w & 0xfffc) < 0x1_0000,
        ((w & 0xfffc) & 0x8000 != 0) == ((w & 0xfffc) >= 0x8000),
        (w & 0xfffc) | 0xffff_0000 == (w & 0xfffc) + 0xffff_0000,
        ((w & 0xfffc) as u64) | 0xffff_ffff_ffff_0000u64 == ((w & 0xfffc) as u64) + 0xffff_ffff_ffff_0000u64,
{
    assert((w & 0xfffc) < 0x1_0000) by (bit_vector);
    assert(((w & 0xfffc) & 0x8000 != 0) == ((w & 0xfffc) >= 0x8000)) by (bit_vector);
    assert((w & 0xfffc) | 0xffff_0000 == (w & 0xfffc) + 0xffff_0000) by (bit_vector);
    let f: u32 = w & 0xfffc;
    let g: u64 = f as u64;
    assert(g | 0xffff_ffff_ffff_0000u64 == g + 0xffff_ffff_ffff_0000u64) by (bit_vector)
        requires
            g < 0x1_0000,
    ;
}

/// Target of a branch whose displacement field is `f` (already masked), with
/// sign bit `sign` and field span `span` (twice the sign bit).
fn sign_extended_target(w: u32, pc: u64, f: u32, sign: u32, ext32: u32, ext64: u64) -> (r: u64)
    requires
        f < 2 * sign,
        (f & sign != 0) == (f >= sign),
        ext32 as int == 0x1_0000_0000 - 2 * sign,
        ext64 as int == 0x1_0000_0000_0000_0000 - 2 * sign,
        f | ext32 == f + ext32,
        (f as u64) | ext64 == (f as u64) + ext64,
        sign == 0x0200_0000 || sign == 0x8000,
    ensures
        r == branch_target(w, pc, if f >= sign { f - 2 * sign } else { f as int }),
{
    let neg = f & sign != 0;
    if w & 2 != 0 {
        let v: u32 = if neg {
            f | ext32
        } else {
            f
        };
        v as u64
    } else {
        let off: u64 = if neg {
            (f as u64) | ext64
        } else {
            f as u64
        };
        pc.wrapping_add(off)
    }
}

pub fn li_target(w: u32, pc: u64) -> (r: u64)
    ensures
        r == branch_target(w, pc, li_offset(w)),
{
    proof {
        lemma_li_bits(w);
    }
    sign_extended_target(w, pc, w & 0x03ff_fffc, 0x0200_0000, 0xfc00_0000, 0xffff_ffff_fc00_0000)
}

pub fn bd_target(w: u32, pc: u64) -> (r: u64)
    ensures
        r == branch_target(w, pc, bd_offset(w)),
{
    proof {
        lemma_bd_bits(w);
    }
    sign_extended_target(w, pc, w & 0xfffc, 0x8000, 0xffff_0000, 0xffff_ffff_ffff_0000)
}

// ---------------------------------------------------------------------------
// Rotate masks.
// ---------------------------------------------------------------------------

/// The rlwinm mask as computed from shifts of an all-ones word (shift counts
/// taken modulo 32).
pub open spec fn mask_formula(mb: u32, me: u32) -> u32 {
    let start = 0xffff_ffffu32 >> (mb % 32);
    if mb <= me {
        let end = if me >= 31 {
            0xffff_ffffu32
        } else {
            !(0xffff_ffffu32 >> (((me + 1) % 32) as u32))
        };
        start & end
    } else {
        let end = if me >= 31 {
            0xffff_ffffu32
        } else {
            0xffff_ffffu32 << (((31 - me) % 32) as u32)
        };
        start | end
    }
}

/// PowerPC bit `i` (bit 0 is the most significant) lies in the mask from `mb` to
/// `me`: the range `mb..=me`, or the wrapped range when `mb > me`.
pub open spec fn in_mask(mb: u32, me: u32, i: u32) -> bool {
    if mb <= me {
        mb <= i && i <= me
    } else {
        i >= mb || i <= me
    }
}

pub open spec fn ppc_bit(v: u32, i: u32) -> bool {
    (v >> ((31 - i) as u32)) & 1 == 1
}

proof fn lemma_mask_bit(mb: u32, me: u32, i: u32)
    requires
        mb < 32,
        me < 32,
        i < 32,
    ensures
        ppc_bit(mask_formula(mb, me), i) == in_mask(mb, me, i),
{
    assert(((mask_formula(mb, me) >> ((31 - i) as u32)) & 1 == 1) == in_mask(mb, me, i)) by (bit_vector)
        requires
            mb < 32,
            me < 32,
            i < 32,
    ;
}

pub fn mask_mbme(mb: u8, me: u8) -> (r: u32)
    ensures
        r == mask_formula(mb as u32, me as u32),
        mb < 32 && me < 32 ==> forall|i: u32| i < 32 ==> #[trigger] ppc_bit(r, i) == in_mask(mb as u32, me as u32, i),
{
    let mb = mb as u32;
    let me = me as u32;
    proof {
        assert forall|i: u32| mb < 32 && me < 32 && i < 32 implies #[trigger] ppc_bit(
            mask_formula(mb, me),
            i,
        ) == in_mask(mb, me, i) by {
            lemma_mask_bit(mb, me, i);
        }
    }
    if mb <= me {
        let start = u32::MAX.wrapping_shr(mb);
        let end = if me >= 31 {
            u32::MAX
        } else {
            !u32::MAX.wrapping_shr(me + 1)
        };
        start & end
    } else {
        let start = u32::MAX.wrapping_shr(mb);
        let end = if me >= 31 {
            u32::MAX
        } else {
            u32::MAX.wrapping_shl(31 - me)
        };
        start | end
    }
}

// ---------------------------------------------------------------------------
// Decoding.
// ---------------------------------------------------------------------------

#[derive(Debug, Clone, Copy, PartialEq, Eq, Structural)]
pub struct DecodedPpc {
    pub raw: u32,
    pub opcode: u8,
    pub insn: PpcInsn,
}

#[derive(Debug, Clone, Copy, PartialEq, Eq, Structural)]
pub enum PpcInsn {
    Addi { rd: u8, ra: u8, simm: i16 },
    Addis { rd: u8, ra: u8, simm: i16 },
    Ori { ra: u8, rs: u8, uimm: u16 },
    Oris { ra: u8, rs: u8, uimm: u16 },
    Andi { ra: u8, rs: u8, uimm: u16 },
    Xori { ra: u8, rs: u8, uimm: u16 },
    Add { rd: u8, ra: u8, rb: u8, rc: bool },
    Subf { rd: u8, ra: u8, rb: u8, rc: bool },
    Or { ra: u8, rs: u8, rb: u8, rc: bool },
    And { ra: u8, rs: u8, rb: u8, rc: bool },
    Xor { ra: u8, rs: u8, rb: u8, rc: bool },
    Lwz { rd: u8, ra: u8, d: i16, update: bool },
    Stw { rs: u8, ra: u8, d: i16, update: bool },
    Lbz { rd: u8, ra: u8, d: i16 },
    Stb { rs: u8, ra: u8, d: i16 },
    Rlwinm { ra: u8, rs: u8, sh: u8, mb: u8, me: u8, rc: bool },
    Mfspr { rd: u8, spr: u16 },
    Mtspr { spr: u16, rs: u8 },
    B { target: u64, lk: bool },
    Bclr { bo: u8, bi: u8, lk: bool },
    Bc { bo: u8, bi: u8, target: u64, lk: bool },
    Crand { crbd: u8, crba: u8, crbb: u8 },
    PsAdd { frd: u8, fra: u8, frb: u8 },
    Unknown { raw: u32 },
}

/// The decoding table for the supported subset of the Broadway ISA.
pub open spec fn ppc_decode_insn(raw: u32, pc: u64) -> PpcInsn {
    let op = field_opcd(raw);
    let rd = field_rd(raw);
    let ra = field_ra(raw);
    let rb = field_rb(raw);
    let rc = raw & 1 != 0;
    if op == 4 && field_xo_a(raw) == 21 {
        PpcInsn::PsAdd { frd: rd, fra: ra, frb: rb }
    } else if op == 14 {
        PpcInsn::Addi { rd, ra, simm: raw as i16 }
    } else if op == 15 {
        PpcInsn::Addis { rd, ra, simm: raw as i16 }
    } else if op == 16 {
        PpcInsn::Bc { bo: rd, bi: ra, target: branch_target(raw, pc, bd_offset(raw)), lk: rc }
    } else if op == 18 {
        PpcInsn::B { target: branch_target(raw, pc, li_offset(raw)), lk: rc }
    } else if op == 19 {
        if field_xo_x(raw) == 16 {
            PpcInsn::Bclr { bo: rd, bi: ra, lk: rc }
        } else if field_xo_x(raw) == 257 {
            PpcInsn::Crand { crbd: rd, crba: ra, crbb: rb }
        } else {
            PpcInsn::Unknown { raw }
        }
    } else if op == 21 {
        PpcInsn::Rlwinm { ra, rs: rd, sh: rb, mb: field_mb(raw), me: field_me(raw), rc }
    } else if op == 24 {
        PpcInsn::Ori { ra, rs: rd, uimm: raw as u16 }
    } else if op == 25 {
        PpcInsn::Oris { ra, rs: rd, uimm: raw as u16 }
    } else if op == 26 {
        PpcInsn::Xori { ra, rs: rd, uimm: raw as u16 }
    } else if op == 28 {
        PpcInsn::Andi { ra, rs: rd, uimm: raw as u16 }
    } else if op == 31 {
        let xo = field_xo_x(raw);
        let xo9 = xo & 0x1ff;
        if xo9 == 40 {
            PpcInsn::Subf { rd, ra, rb, rc }
        } else if xo9 == 266 {
            PpcInsn::Add { rd, ra, rb, rc }
        } else if xo == 28 {
            PpcInsn::And { ra, rs: rd, rb, rc }
        } else if xo == 316 {
            PpcInsn::Xor { ra, rs: rd, rb, rc }
        } else if xo == 339 {
            PpcInsn::Mfspr { rd, spr: field_spr(raw) }
        } else if xo == 444 {
            PpcInsn::Or { ra, rs: rd, rb, rc }
        } else if xo == 467 {
            PpcInsn::Mtspr { spr: field_spr(raw), rs: rd }
        } else {
            PpcInsn::Unknown { raw }
        }
    } else if op == 32 {
        PpcInsn::Lwz { rd, ra, d: raw as i16, update: false }
    } else if op == 33 {
        PpcInsn::Lwz { rd, ra, d: raw as i16, update: true }
    } else if op == 34 {
        PpcInsn::Lbz { rd, ra, d: raw as i16 }
    } else if op == 36 {
        PpcInsn::Stw { rs: rd, ra, d: raw as i16, update: false }
    } else if op == 37 {
        PpcInsn::Stw { rs: rd, ra, d: raw as i16, update: true }
    } else if op == 38 {
        PpcInsn::Stb { rs: rd, ra, d: raw as i16 }
    } else {
        PpcInsn::Unknown { raw }
    }
}

pub open spec fn ppc_decode(raw: u32, pc: u64) -> DecodedPpc {
    DecodedPpc { raw, opcode: field_opcd(raw), insn: ppc_decode_insn(raw, pc) }
}

pub open spec fn mnemonic_of(insn: PpcInsn) -> Seq<char> {
    match insn {
        PpcInsn::Addi { .. } => "addi"@,
        PpcInsn::Addis { .. } => "addis"@,
        PpcInsn::Ori { .. } => "ori"@,
        PpcInsn::Oris { .. } => "oris"@,
        PpcInsn::Andi { .. } => "andi."@,
        PpcInsn::Xori { .. } => "xori"@,
        PpcInsn::Add { .. } => "add"@,
        PpcInsn::Subf { .. } => "subf"@,
        PpcInsn::Or { .. } => "or"@,
        PpcInsn::And { .. } => "and"@,
        PpcInsn::Xor { .. } => "xor"@,
        PpcInsn::Lwz { update, .. } => if update {
            "lwzu"@
        } else {
            "lwz"@
        },
        PpcInsn::Stw { update, .. } => if update {
            "stwu"@
        } else {
            "stw"@
        },
        PpcInsn::Lbz { .. } => "lbz"@,
        PpcInsn::Stb { .. } => "stb"@,
        PpcInsn::Rlwinm { .. } => "rlwinm"@,
        PpcInsn::Mfspr { .. } => "mfspr"@,
        PpcInsn::Mtspr { .. } => "mtspr"@,
        PpcInsn::B { lk, .. } => if lk {
            "bl"@
        } else {
            "b"@
        },
        PpcInsn::Bclr { .. } => "bclr"@,
        PpcInsn::Bc { .. } => "bc"@,
        PpcInsn::Crand { .. } => "crand"@,
        PpcInsn::PsAdd { .. } => "ps_add"@,
        PpcInsn::Unknown { .. } => "unknown"@,
    }
}

/// Lowercase hexadecimal digit `d` (below 16).
pub open spec fn hex_char(d: nat) -> Seq<char> {
    if d == 0 { "0"@ } else if d == 1 { "1"@ } else if d == 2 { "2"@ } else if d == 3 { "3"@ }
    else if d == 4 { "4"@ } else if d == 5 { "5"@ } else if d == 6 { "6"@ } else if d == 7 { "7"@ }
    else if d == 8 { "8"@ } else if d == 9 { "9"@ } else if d == 10 { "a"@ } else if d == 11 { "b"@ }
    else if d == 12 { "c"@ } else if d == 13 { "d"@ } else if d == 14 { "e"@ } else { "f"@ }
}

/// The `n` low hexadecimal digits of `v`, most significant first.
pub open spec fn hex_digits(v: nat, n: nat) -> Seq<char>
    decreases n,
{
    if n == 0 {
        Seq::empty()
    } else {
        hex_digits(v / 16, (n - 1) as nat) + hex_char(v % 16)
    }
}

/// Number of hexadecimal digits needed to write `v` (at least one).
pub open spec fn hex_len(v: nat) -> nat
    decreases v,
{
    if v < 16 {
        1
    } else {
        1 + hex_len(v / 16)
    }
}

/// `v` in lowercase hexadecimal, zero-padded to at least `width` digits.
pub open spec fn hex_padded(v: nat, width: nat) -> Seq<char> {
    hex_digits(v, if hex_len(v) < width { width } else { hex_len(v) })
}

fn hex_digit(d: u64) -> (r: &'static str)
    requires
        d < 16,
    ensures
        r@ == hex_char(d as nat),
{
    match d {
        0 => "0",
        1 => "1",
        2 => "2",
        3 => "3",
        4 => "4",
        5 => "5",
        6 => "6",
        7 => "7",
        8 => "8",
        9 => "9",
        10 => "a",
        11 => "b",
        12 => "c",
        13 => "d",
        14 => "e",
        _ => "f",
    }
}

fn push_hex(s: &mut String, v: u64, n: usize)
    ensures
        final(s)@ == old(s)@ + hex_digits(v as nat, n as nat),
    decreases n,
{
    if n > 0 {
        push_hex(s, v / 16, n - 1);
        s.append(hex_digit(v % 16));
        assert(final(s)@ =~= old(s)@ + hex_digits(v as nat, n as nat));
    } else {
        assert(final(s)@ =~= old(s)@ + hex_digits(v as nat, n as nat));
    }
}

pub open spec fn pow16(k: nat) -> nat
    decreases k,
{
    if k == 0 {
        1
    } else {
        16 * pow16((k - 1) as nat)
    }
}

proof fn lemma_hex_len_le(v: nat, k: nat)
    requires
        k >= 1,
        v < pow16(k),
    ensures
        hex_len(v) <= k,
    decreases k,
{
    if v >= 16 {
        if k == 1 {
            assert(pow16(1) == 16 * pow16(0));
        } else {
            assert(v / 16 < pow16((k - 1) as nat));
            lemma_hex_len_le(v / 16, (k - 1) as nat);
        }
    }
}

fn hex_width(v: u64) -> (r: usize)
    ensures
        r == hex_len(v as nat),
    decreases v,
{
    if v < 16 {
        1
    } else {
        let w = hex_width(v / 16);
        proof {
            reveal_with_fuel(pow16, 17);
            assert(pow16(16) == 0x1_0000_0000_0000_0000);
            lemma_hex_len_le(v as nat, 16);
        }
        1 + w
    }
}

impl DecodedPpc {
    /// `pc` (at least 8 hex digits), the raw word (8 hex digits) and the mnemonic.
    pub fn disasm(&self, pc: u64) -> (r: String)
        ensures
            r@ == hex_padded(pc as nat, 8) + ":  "@ + hex_digits(self.raw as nat, 8) + "  "@ + mnemonic_of(self.insn),
    {
        let mut s = String::new();
        let w = hex_width(pc);
        let w = if w < 8 {
            8
        } else {
            w
        };
        push_hex(&mut s, pc, w);
        s.append(":  ");
        push_hex(&mut s, self.raw as u64, 8);
        s.append("  ");
        s.append(self.insn.mnemonic());
        s
    }
}

impl PpcInsn {
    /// Branches end a block; so does an undecodable word.
    pub open spec fn terminates(self) -> bool {
        self is B || self is Bclr || self is Bc || self is Unknown
    }

    /// Every register number names one of the 32 registers, and a rotate amount
    /// is at most a full word.
    pub open spec fn wf(self) -> bool {
        match self {
            PpcInsn::Addi { rd, ra, .. } | PpcInsn::Addis { rd, ra, .. } | PpcInsn::Lwz { rd, ra, .. }
            | PpcInsn::Lbz { rd, ra, .. } => rd < 32 && ra < 32,
            PpcInsn::Ori { ra, rs, .. } | PpcInsn::Oris { ra, rs, .. } | PpcInsn::Andi { ra, rs, .. }
            | PpcInsn::Xori { ra, rs, .. } | PpcInsn::Stw { rs, ra, .. } | PpcInsn::Stb { rs, ra, .. } => ra
                < 32 && rs < 32,
            PpcInsn::Add { rd, ra, rb, .. } | PpcInsn::Subf { rd, ra, rb, .. } => rd < 32 && ra < 32 && rb
                < 32,
            PpcInsn::Or { ra, rs, rb, .. } | PpcInsn::And { ra, rs, rb, .. } | PpcInsn::Xor {
                ra,
                rs,
                rb,
                ..
            } => ra < 32 && rs < 32 && rb < 32,
            PpcInsn::Rlwinm { ra, rs, sh, .. } => ra < 32 && rs < 32 && sh <= 32,
            PpcInsn::Mfspr { rd, .. } => rd < 32,
            PpcInsn::Mtspr { rs, .. } => rs < 32,
            PpcInsn::PsAdd { frd, fra, frb } => frd < 32 && fra < 32 && frb < 32,
            _ => true,
        }
    }

    pub fn mnemonic(self) -> (r: &'static str)
        ensures
            r@ == mnemonic_of(self),
    {
        match self {
            PpcInsn::Addi { .. } => "addi",
            PpcInsn::Addis { .. } => "addis",
            PpcInsn::Ori { .. } => "ori",
            PpcInsn::Oris { .. } => "oris",
            PpcInsn::Andi { .. } => "andi.",
            PpcInsn::Xori { .. } => "xori",
            PpcInsn::Add { .. } => "add",
            PpcInsn::Subf { .. } => "subf",
            PpcInsn::Or { .. } => "or",
            PpcInsn::And { .. } => "and",
            PpcInsn::Xor { .. } => "xor",
            PpcInsn::Lwz { update: false, .. } => "lwz",
            PpcInsn::Lwz { update: true, .. } => "lwzu",
            PpcInsn::Stw { update: false, .. } => "stw",
            PpcInsn::Stw { update: true, .. } => "stwu",
            PpcInsn::Lbz { .. } => "lbz",
            PpcInsn::Stb { .. } => "stb",
            PpcInsn::Rlwinm { .. } => "rlwinm",
            PpcInsn::Mfspr { .. } => "mfspr",
            PpcInsn::Mtspr { .. } => "mtspr",
            PpcInsn::B { lk: false, .. } => "b",
            PpcInsn::B { lk: true, .. } => "bl",
            PpcInsn::Bclr { .. } => "bclr",
            PpcInsn::Bc { .. } => "bc",
            PpcInsn::Crand { .. } => "crand",
            PpcInsn::PsAdd { .. } => "ps_add",
            PpcInsn::Unknown { .. } => "unknown",
        }
    }

    pub fn is_terminator(self) -> (r: bool)
        ensures
            r == self.terminates(),
    {
        match self {
            PpcInsn::B { .. } | PpcInsn::Bclr { .. } | PpcInsn::Bc { .. } | PpcInsn::Unknown { .. } => true,
            _ => false,
        }
    }
}

pub fn decode_word(raw: u32, pc: u64) -> (r: DecodedPpc)
    ensures
        r == ppc_decode(raw, pc),
        r.insn.wf(),
{
    let opcode = opcd(raw);
    let insn = match opcode {
        4 if xo_a(raw) == 21 => PpcInsn::PsAdd { frd: rd(raw), fra: ra(raw), frb: rb(raw) },
        14 => PpcInsn::Addi { rd: rd(raw), ra: ra(raw), simm: simm(raw) },
        15 => PpcInsn::Addis { rd: rd(raw), ra: ra(raw), simm: simm(raw) },
        16 => PpcInsn::Bc { bo: rd(raw), bi: ra(raw), target: bd_target(raw, pc), lk: lk(raw) },
        18 => PpcInsn::B { target: li_target(raw, pc), lk: lk(raw) },
        19 => match xo_x(raw) {
            16 => PpcInsn::Bclr { bo: rd(raw), bi: ra(raw), lk: lk(raw) },
            257 => PpcInsn::Crand { crbd: rd(raw), crba: ra(raw), crbb: rb(raw) },
            _ => PpcInsn::Unknown { raw },
        },
        21 => PpcInsn::Rlwinm { ra: ra(raw), rs: rs(raw), sh: sh(raw), mb: mb(raw), me: me(raw), rc: rc_bit(raw) },
        24 => PpcInsn::Ori { ra: ra(raw), rs: rs(raw), uimm: uimm(raw) },
        25 => PpcInsn::Oris { ra: ra(raw), rs: rs(raw), uimm: uimm(raw) },
        26 => PpcInsn::Xori { ra: ra(raw), rs: rs(raw), uimm: uimm(raw) },
        28 => PpcInsn::Andi { ra: ra(raw), rs: rs(raw), uimm: uimm(raw) },
        31 => {
            let xo = xo_x(raw);
            let xo9 = xo & 0x1ff;
            let rc = rc_bit(raw);
            match xo9 {
                40 => PpcInsn::Subf { rd: rd(raw), ra: ra(raw), rb: rb(raw), rc },
                266 => PpcInsn::Add { rd: rd(raw), ra: ra(raw), rb: rb(raw), rc },
                _ => match xo {
                    28 => PpcInsn::And { ra: ra(raw), rs: rd(raw), rb: rb(raw), rc },
                    316 => PpcInsn::Xor { ra: ra(raw), rs: rd(raw), rb: rb(raw), rc },
                    339 => PpcInsn::Mfspr { rd: rd(raw), spr: spr_field(raw) },
                    444 => PpcInsn::Or { ra: ra(raw), rs: rd(raw), rb: rb(raw), rc },
                    467 => PpcInsn::Mtspr { spr: spr_field(raw), rs: rd(raw) },
                    _ => PpcInsn::Unknown { raw },
                },
            }
        },
        32 => PpcInsn::Lwz { rd: rd(raw), ra: ra(raw), d: simm(raw), update: false },
        33 => PpcInsn::Lwz { rd: rd(raw), ra: ra(raw), d: simm(raw), update: true },
        34 => PpcInsn::Lbz { rd: rd(raw), ra: ra(raw), d: simm(raw) },
        36 => PpcInsn::Stw { rs: rs(raw), ra: ra(raw), d: simm(raw), update: false },
        37 => PpcInsn::Stw { rs: rs(raw), ra: ra(raw), d: simm(raw), update: true },
        38 => PpcInsn::Stb { rs: rs(raw), ra: ra(raw), d: simm(raw) },
        _ => PpcInsn::Unknown { raw },
    };
    DecodedPpc { raw, opcode, insn }
}

// ---------------------------------------------------------------------------
// Lowering.
// ---------------------------------------------------------------------------

/// Builder state after `rD = rA|0 + imm` style lowering for the D-form adds.
pub open spec fn lower_add_imm(m: BuilderView, block: BlockId, rd: u8, ra: u8, imm: i64) -> BuilderView {
    let (m1, a) = m.read_gpr_ra(block, ra);
    let (m2, v) = m1.emit_binary(block, BinOp::Add, a, VOperand::Imm(imm), Width::W32);
    m2.write_gpr(rd, v)
}

/// `rA = rS op imm`, optionally followed by the CR0 update.
pub open spec fn lower_logic_imm(m: BuilderView, block: BlockId, op: BinOp, ra: u8, rs: u8, imm: i64, record: bool) -> BuilderView {
    let (m1, s) = m.read_gpr(block, rs);
    let (m2, v) = m1.emit_binary(block, op, VOperand::Reg(s), VOperand::Imm(imm), Width::W32);
    let m3 = m2.write_gpr(ra, v);
    if record {
        m3.emit_rc0_from_result(block, v, Width::W32)
    } else {
        m3
    }
}

/// `dst = x op y` over two registers, optionally followed by the CR0 update.
/// `swap` puts the second register first (subf computes rB - rA).
pub open spec fn lower_reg_reg(m: BuilderView, block: BlockId, op: BinOp, dst: u8, x: u8, y: u8, swap: bool, record: bool) -> BuilderView {
    let (m1, a) = m.read_gpr(block, x);
    let (m2, b) = m1.read_gpr(block, y);
    let (m3, v) = if swap {
        m2.emit_binary(block, op, VOperand::Reg(b), VOperand::Reg(a), Width::W32)
    } else {
        m2.emit_binary(block, op, VOperand::Reg(a), VOperand::Reg(b), Width::W32)
    };
    let m4 = m3.write_gpr(dst, v);
    if record {
        m4.emit_rc0_from_result(block, v, Width::W32)
    } else {
        m4
    }
}

/// The effective address `rA|0 + d` of a D-form access.
pub open spec fn lower_ea(m: BuilderView, block: BlockId, ra: u8, d: i16) -> (BuilderView, crate::ir::VReg) {
    let (m1, base) = m.read_gpr_ra(block, ra);
    m1.emit_binary(block, BinOp::Add, base, VOperand::Imm(d as i64), Width::W32)
}

pub open spec fn lower_load(m: BuilderView, block: BlockId, rd: u8, ra: u8, d: i16, width: Width, update: bool) -> BuilderView {
    let (m1, ea) = lower_ea(m, block, ra, d);
    let (m2, v) = m1.emit_load(block, VOperand::Reg(ea), width, false);
    let m3 = m2.write_gpr(rd, v);
    if update {
        m3.write_gpr(ra, ea)
    } else {
        m3
    }
}

pub open spec fn lower_store(m: BuilderView, block: BlockId, rs: u8, ra: u8, d: i16, width: Width, update: bool) -> BuilderView {
    let (m1, ea) = lower_ea(m, block, ra, d);
    let (m2, val) = m1.read_gpr(block, rs);
    let m3 = m2.emit_store(block, VOperand::Reg(ea), VOperand::Reg(val), width);
    if update {
        m3.write_gpr(ra, ea)
    } else {
        m3
    }
}

/// Link-register update of branches with LK set: LR = next pc.
pub open spec fn lower_link(m: BuilderView, block: BlockId, lk: bool) -> BuilderView {
    if lk {
        let (m1, lr) = m.emit_binary(block, BinOp::Add, VOperand::Imm(m.next_pc() as i64), VOperand::Imm(0), Width::W32);
        m1.write_lr(lr)
    } else {
        m
    }
}

pub open spec fn lower_rlwinm(m: BuilderView, block: BlockId, ra: u8, rs: u8, sh: u8, mb: u8, me: u8, rc: bool) -> BuilderView {
    let (m1, s) = m.read_gpr(block, rs);
    let (m2, rot) = if sh == 0 {
        (m1, s)
    } else {
        let (ma, hi) = m1.emit_binary(block, BinOp::Shl, VOperand::Reg(s), VOperand::Imm(sh as i64), Width::W32);
        let (mb2, lo) = ma.emit_binary(block, BinOp::Shr, VOperand::Reg(s), VOperand::Imm((32 - sh) as i64), Width::W32);
        mb2.emit_binary(block, BinOp::Or, VOperand::Reg(hi), VOperand::Reg(lo), Width::W32)
    };
    let mask = mask_formula(mb as u32, me as u32);
    let (m3, v) = m2.emit_binary(block, BinOp::And, VOperand::Reg(rot), VOperand::Imm(mask as i64), Width::W32);
    let m4 = m3.write_gpr(ra, v);
    if rc {
        m4.emit_rc0_from_result(block, v, Width::W32)
    } else {
        m4
    }
}

pub open spec fn lower_bc(m: BuilderView, block: BlockId, bo: u8, bi: u8, target: u64, lk: bool) -> BuilderView {
    let m1 = lower_link(m, block, lk);
    if bo & 0x10 != 0 {
        m1.emit_exit_uncond(block, target)
    } else {
        let (m2, bit) = m1.emit_get_cr_bit(block, bi);
        let (m3, cond) = if bo & 0x08 != 0 {
            (m2, bit)
        } else {
            m2.emit_binary(block, BinOp::Xor, VOperand::Reg(bit), VOperand::Imm(1), Width::W32)
        };
        m3.emit_exit_cond(block, cond, target, m3.next_pc())
    }
}

/// mfspr: field values 1, 8 and 9 (the architectural numbers of XER, LR and
/// CTR) read the register caches, others go through an intrinsic. With the
/// field's halves unswapped, `mfxer`/`mflr`/`mfctr` words carry 32, 256 and
/// 288 and take the intrinsic path.
pub open spec fn lower_mfspr(m: BuilderView, block: BlockId, rd: u8, spr: u16) -> BuilderView {
    let (m1, v) = if spr == 1 {
        m.read_xer(block)
    } else if spr == 8 {
        m.read_lr(block)
    } else if spr == 9 {
        m.read_ctr(block)
    } else {
        let (ma, d) = m.fresh();
        (ma.push(block, intrinsic(intrinsics::GET_SPR, SideEffects::Pure, seq![VOperand::Imm(spr as i64)], Some(d))), d)
    };
    m1.write_gpr(rd, v)
}

/// mtspr: field values 1, 8 and 9 write the register caches, others go
/// through an intrinsic; as for `mfspr`, real `mtlr`-style words carry the
/// unswapped field and take the intrinsic path.
pub open spec fn lower_mtspr(m: BuilderView, block: BlockId, spr: u16, rs: u8) -> BuilderView {
    let (m1, v) = m.read_gpr(block, rs);
    if spr == 1 {
        m1.write_xer(v)
    } else if spr == 8 {
        m1.write_lr(v)
    } else if spr == 9 {
        m1.write_ctr(v)
    } else {
        m1.push(
            block,
            intrinsic(intrinsics::SET_SPR, SideEffects::Volatile, seq![VOperand::Imm(spr as i64), VOperand::Reg(v)], None),
        )
    }
}

pub open spec fn lower_bclr(m: BuilderView, block: BlockId, lk: bool) -> BuilderView {
    let m1 = lower_link(m, block, lk);
    let (m2, lr) = m1.read_lr(block);
    m2.emit_exit_indirect(block, lr)
}

pub open spec fn lower_crand(m: BuilderView, block: BlockId, crbd: u8, crba: u8, crbb: u8) -> BuilderView {
    let (m1, a) = m.emit_get_cr_bit(block, crba);
    let (m2, b) = m1.emit_get_cr_bit(block, crbb);
    let (m3, v) = m2.emit_binary(block, BinOp::And, VOperand::Reg(a), VOperand::Reg(b), Width::W32);
    m3.emit_set_cr_field(block, crbd / 4, v)
}

pub open spec fn lower_ps_add(m: BuilderView, block: BlockId, frd: u8, fra: u8, frb: u8) -> BuilderView {
    let (m1, a) = m.read_vec(block, fra);
    let (m2, b) = m1.read_vec(block, frb);
    let (m3, dst) = m2.fresh();
    let m4 = m3.push(block, OpView::VecAdd { dst, a: VOperand::Reg(a), b: VOperand::Reg(b), lanes: 2, width: Width::W32 });
    m4.write_vec(frd, dst)
}

/// Builder state after lowering one decoded instruction into `block`.
pub open spec fn ppc_lower(m: BuilderView, insn: PpcInsn, block: BlockId) -> BuilderView {
    match insn {
        PpcInsn::Addi { rd, ra, simm } => lower_add_imm(m, block, rd, ra, simm as i64),
        PpcInsn::Addis { rd, ra, simm } => lower_add_imm(m, block, rd, ra, (simm as int * 0x1_0000) as i64),
        PpcInsn::Ori { ra, rs, uimm } => lower_logic_imm(m, block, BinOp::Or, ra, rs, uimm as i64, false),
        PpcInsn::Oris { ra, rs, uimm } => lower_logic_imm(m, block, BinOp::Or, ra, rs, (uimm as int * 0x1_0000) as i64, false),
        PpcInsn::Andi { ra, rs, uimm } => lower_logic_imm(m, block, BinOp::And, ra, rs, uimm as i64, true),
        PpcInsn::Xori { ra, rs, uimm } => lower_logic_imm(m, block, BinOp::Xor, ra, rs, uimm as i64, false),
        PpcInsn::Add { rd, ra, rb, rc } => lower_reg_reg(m, block, BinOp::Add, rd, ra, rb, false, rc),
        PpcInsn::Subf { rd, ra, rb, rc } => lower_reg_reg(m, block, BinOp::Sub, rd, ra, rb, true, rc),
        PpcInsn::Or { ra, rs, rb, rc } => lower_reg_reg(m, block, BinOp::Or, ra, rs, rb, false, rc),
        PpcInsn::And { ra, rs, rb, rc } => lower_reg_reg(m, block, BinOp::And, ra, rs, rb, false, rc),
        PpcInsn::Xor { ra, rs, rb, rc } => lower_reg_reg(m, block, BinOp::Xor, ra, rs, rb, false, rc),
        PpcInsn::Lwz { rd, ra, d, update } => lower_load(m, block, rd, ra, d, Width::W32, update),
        PpcInsn::Stw { rs, ra, d, update } => lower_store(m, block, rs, ra, d, Width::W32, update),
        PpcInsn::Lbz { rd, ra, d } => lower_load(m, block, rd, ra, d, Width::W8, false),
        PpcInsn::Stb { rs, ra, d } => lower_store(m, block, rs, ra, d, Width::W8, false),
        PpcInsn::Rlwinm { ra, rs, sh, mb, me, rc } => lower_rlwinm(m, block, ra, rs, sh, mb, me, rc),
        PpcInsn::Mfspr { rd, spr } => lower_mfspr(m, block, rd, spr),
        PpcInsn::Mtspr { spr, rs } => lower_mtspr(m, block, spr, rs),
        PpcInsn::B { target, lk } => lower_link(m, block, lk).emit_exit_uncond(block, target),
        PpcInsn::Bclr { lk, .. } => lower_bclr(m, block, lk),
        PpcInsn::Bc { bo, bi, target, lk } => lower_bc(m, block, bo, bi, target, lk),
        PpcInsn::Crand { crbd, crba, crbb } => lower_crand(m, block, crbd, crba, crbb),
        PpcInsn::PsAdd { frd, fra, frb } => lower_ps_add(m, block, frd, fra, frb),
        PpcInsn::Unknown { raw } => m.emit_unimplemented(block, raw),
    }
}

/// Lowering through the frontend: the builder switches to big-endian first.
pub open spec fn wii_lower(m: BuilderView, insn: DecodedPpc, block: BlockId) -> BuilderView {
    ppc_lower(BuilderView { endian: Endian::Big, ..m }, insn.insn, block)
}

fn lower_add_imm_exec(ir: &mut IrBuilder, block: BlockId, rd: u8, ra: u8, imm: i64)
    requires
        old(ir).wf(),
        old(ir)@.valid_block(block),
        rd < 32,
        ra < 32,
        lower_add_imm(old(ir)@, block, rd, ra, imm).next_vreg <= u32::MAX,
    ensures
        final(ir).wf(),
        final(ir)@ == lower_add_imm(old(ir)@, block, rd, ra, imm),
{
    let a = ir.read_gpr_ra(block, ra);
    let v = ir.emit_binary(block, BinOp::Add, a, VOperand::Imm(imm), Width::W32);
    ir.write_gpr(rd, v);
}

fn lower_logic_imm_exec(ir: &mut IrBuilder, block: BlockId, op: BinOp, ra: u8, rs: u8, imm: i64, record: bool)
    requires
        old(ir).wf(),
        old(ir)@.valid_block(block),
        ra < 32,
        rs < 32,
        lower_logic_imm(old(ir)@, block, op, ra, rs, imm, record).next_vreg <= u32::MAX,
    ensures
        final(ir).wf(),
        final(ir)@ == lower_logic_imm(old(ir)@, block, op, ra, rs, imm, record),
{
    let s = ir.read_gpr(block, rs);
    let v = ir.emit_binary(block, op, VOperand::Reg(s), VOperand::Imm(imm), Width::W32);
    ir.write_gpr(ra, v);
    if record {
        ir.emit_rc0_from_result(block, v, Width::W32);
    }
}

fn lower_reg_reg_exec(ir: &mut IrBuilder, block: BlockId, op: BinOp, dst: u8, x: u8, y: u8, swap: bool, record: bool)
    requires
        old(ir).wf(),
        old(ir)@.valid_block(block),
        dst < 32,
        x < 32,
        y < 32,
        lower_reg_reg(old(ir)@, block, op, dst, x, y, swap, record).next_vreg <= u32::MAX,
    ensures
        final(ir).wf(),
        final(ir)@ == lower_reg_reg(old(ir)@, block, op, dst, x, y, swap, record),
{
    let a = ir.read_gpr(block, x);
    let b = ir.read_gpr(block, y);
    let v = if swap {
        ir.emit_binary(block, op, VOperand::Reg(b), VOperand::Reg(a), Width::W32)
    } else {
        ir.emit_binary(block, op, VOperand::Reg(a), VOperand::Reg(b), Width::W32)
    };
    ir.write_gpr(dst, v);
    if record {
        ir.emit_rc0_from_result(block, v, Width::W32);
    }
}

fn lower_load_exec(ir: &mut IrBuilder, block: BlockId, rd: u8, ra: u8, d: i16, width: Width, update: bool)
    requires
        old(ir).wf(),
        old(ir)@.valid_block(block),
        rd < 32,
        ra < 32,
        lower_load(old(ir)@, block, rd, ra, d, width, update).next_vreg <= u32::MAX,
    ensures
        final(ir).wf(),
        final(ir)@ == lower_load(old(ir)@, block, rd, ra, d, width, update),
{
    let base = ir.read_gpr_ra(block, ra);
    let ea = ir.emit_binary(block, BinOp::Add, base, VOperand::Imm(d as i64), Width::W32);
    let v = ir.emit_load(block, VOperand::Reg(ea), width, false);
    ir.write_gpr(rd, v);
    if update {
        ir.write_gpr(ra, ea);
    }
}

fn lower_store_exec(ir: &mut IrBuilder, block: BlockId, rs: u8, ra: u8, d: i16, width: Width, update: bool)
    requires
        old(ir).wf(),
        old(ir)@.valid_block(block),
        rs < 32,
        ra < 32,
        lower_store(old(ir)@, block, rs, ra, d, width, update).next_vreg <= u32::MAX,
    ensures
        final(ir).wf(),
        final(ir)@ == lower_store(old(ir)@, block, rs, ra, d, width, update),
{
    let base = ir.read_gpr_ra(block, ra);
    let ea = ir.emit_binary(block, BinOp::Add, base, VOperand::Imm(d as i64), Width::W32);
    let val = ir.read_gpr(block, rs);
    ir.emit_store(block, VOperand::Reg(ea), VOperand::Reg(val), width);
    if update {
        ir.write_gpr(ra, ea);
    }
}

fn lower_link_exec(ir: &mut IrBuilder, block: BlockId, lk: bool)
    requires
        old(ir).wf(),
        old(ir)@.valid_block(block),
        lower_link(old(ir)@, block, lk).next_vreg <= u32::MAX,
    ensures
        final(ir).wf(),
        final(ir)@ == lower_link(old(ir)@, block, lk),
{
    if lk {
        let pc = ir.next_pc();
        let lr = ir.emit_binary(block, BinOp::Add, VOperand::Imm(pc as i64), VOperand::Imm(0), Width::W32);
        ir.write_lr(lr);
    }
}

fn lower_rlwinm_exec(ir: &mut IrBuilder, block: BlockId, ra: u8, rs: u8, sh: u8, mb: u8, me: u8, rc: bool)
    requires
        old(ir).wf(),
        old(ir)@.valid_block(block),
        ra < 32,
        rs < 32,
        sh <= 32,
        lower_rlwinm(old(ir)@, block, ra, rs, sh, mb, me, rc).next_vreg <= u32::MAX,
    ensures
        final(ir).wf(),
        final(ir)@ == lower_rlwinm(old(ir)@, block, ra, rs, sh, mb, me, rc),
{
    let s = ir.read_gpr(block, rs);
    let rot = if sh == 0 {
        s
    } else {
        let hi = ir.emit_binary(block, BinOp::Shl, VOperand::Reg(s), VOperand::Imm(sh as i64), Width::W32);
        let lo = ir.emit_binary(block, BinOp::Shr, VOperand::Reg(s), VOperand::Imm((32 - sh) as i64), Width::W32);
        ir.emit_binary(block, BinOp::Or, VOperand::Reg(hi), VOperand::Reg(lo), Width::W32)
    };
    let mask = mask_mbme(mb, me);
    let v = ir.emit_binary(block, BinOp::And, VOperand::Reg(rot), VOperand::Imm(mask as i64), Width::W32);
    ir.write_gpr(ra, v);
    if rc {
        ir.emit_rc0_from_result(block, v, Width::W32);
    }
}

fn lower_bc_exec(ir: &mut IrBuilder, block: BlockId, bo: u8, bi: u8, target: u64, lk: bool)
    requires
        old(ir).wf(),
        old(ir)@.valid_block(block),
        lower_bc(old(ir)@, block, bo, bi, target, lk).next_vreg <= u32::MAX,
    ensures
        final(ir).wf(),
        final(ir)@ == lower_bc(old(ir)@, block, bo, bi, target, lk),
{
    lower_link_exec(ir, block, lk);
    if bo & 0x10 != 0 {
        ir.emit_exit_uncond(block, target);
    } else {
        let bit = ir.emit_get_cr_bit(block, bi);
        let cond = if bo & 0x08 != 0 {
            bit
        } else {
            ir.emit_binary(block, BinOp::Xor, VOperand::Reg(bit), VOperand::Imm(1), Width::W32)
        };
        let fall = ir.next_pc();
        ir.emit_exit_cond(block, cond, target, fall);
    }
}

fn lower_mfspr_exec(ir: &mut IrBuilder, block: BlockId, rd: u8, spr: u16)
    requires
        old(ir).wf(),
        old(ir)@.valid_block(block),
        rd < 32,
        lower_mfspr(old(ir)@, block, rd, spr).next_vreg <= u32::MAX,
    ensures
        final(ir).wf(),
        final(ir)@ == lower_mfspr(old(ir)@, block, rd, spr),
{
    let v = if spr == 1 {
        ir.read_xer(block)
    } else if spr == 8 {
        ir.read_lr(block)
    } else if spr == 9 {
        ir.read_ctr(block)
    } else {
        let d = ir.new_vreg();
        let ops = vec![VOperand::Imm(spr as i64)];
        assert(ops@ =~= seq![VOperand::Imm(spr as i64)]);
        ir.push(
            block,
            IrOp::Intrinsic { id: IntrinsicId(intrinsics::GET_SPR), effects: SideEffects::Pure, operands: ops, dst: Some(d) },
        );
        d
    };
    ir.write_gpr(rd, v);
}

fn lower_mtspr_exec(ir: &mut IrBuilder, block: BlockId, spr: u16, rs: u8)
    requires
        old(ir).wf(),
        old(ir)@.valid_block(block),
        rs < 32,
        lower_mtspr(old(ir)@, block, spr, rs).next_vreg <= u32::MAX,
    ensures
        final(ir).wf(),
        final(ir)@ == lower_mtspr(old(ir)@, block, spr, rs),
{
    let v = ir.read_gpr(block, rs);
    if spr == 1 {
        ir.write_xer(v);
    } else if spr == 8 {
        ir.write_lr(v);
    } else if spr == 9 {
        ir.write_ctr(v);
    } else {
        let ops = vec![VOperand::Imm(spr as i64), VOperand::Reg(v)];
        assert(ops@ =~= seq![VOperand::Imm(spr as i64), VOperand::Reg(v)]);
        ir.push(
            block,
            IrOp::Intrinsic { id: IntrinsicId(intrinsics::SET_SPR), effects: SideEffects::Volatile, operands: ops, dst: None },
        );
    }
}

fn lower_bclr_exec(ir: &mut IrBuilder, block: BlockId, lk: bool)
    requires
        old(ir).wf(),
        old(ir)@.valid_block(block),
        lower_bclr(old(ir)@, block, lk).next_vreg <= u32::MAX,
    ensures
        final(ir).wf(),
        final(ir)@ == lower_bclr(old(ir)@, block, lk),
{
    lower_link_exec(ir, block, lk);
    let lr = ir.read_lr(block);
    ir.emit_exit_indirect(block, lr);
}

fn lower_crand_exec(ir: &mut IrBuilder, block: BlockId, crbd: u8, crba: u8, crbb: u8)
    requires
        old(ir).wf(),
        old(ir)@.valid_block(block),
        lower_crand(old(ir)@, block, crbd, crba, crbb).next_vreg <= u32::MAX,
    ensures
        final(ir).wf(),
        final(ir)@ == lower_crand(old(ir)@, block, crbd, crba, crbb),
{
    let a = ir.emit_get_cr_bit(block, crba);
    let b = ir.emit_get_cr_bit(block, crbb);
    let v = ir.emit_binary(block, BinOp::And, VOperand::Reg(a), VOperand::Reg(b), Width::W32);
    ir.emit_set_cr_field(block, crbd / 4, v);
}

fn lower_ps_add_exec(ir: &mut IrBuilder, block: BlockId, frd: u8, fra: u8, frb: u8)
    requires
        old(ir).wf(),
        old(ir)@.valid_block(block),
        frd < 32,
        fra < 32,
        frb < 32,
        lower_ps_add(old(ir)@, block, frd, fra, frb).next_vreg <= u32::MAX,
    ensures
        final(ir).wf(),
        final(ir)@ == lower_ps_add(old(ir)@, block, frd, fra, frb),
{
    let a = ir.read_vec(block, fra);
    let b = ir.read_vec(block, frb);
    let dst = ir.new_vreg();
    ir.push(block, IrOp::VecAdd { dst, a: VOperand::Reg(a), b: VOperand::Reg(b), lanes: 2, width: Width::W32 });
    ir.write_vec(frd, dst);
}

/// Lowers one decoded instruction into `block`.
#[verifier::rlimit(40)]
pub fn lower(insn: PpcInsn, _raw: u32, ir: &mut IrBuilder, block: BlockId)
    requires
        old(ir).wf(),
        old(ir)@.valid_block(block),
        insn.wf(),
        ppc_lower(old(ir)@, insn, block).next_vreg <= u32::MAX,
    ensures
        final(ir).wf(),
        final(ir)@ == ppc_lower(old(ir)@, insn, block),
{
    match insn {
        PpcInsn::Addi { rd, ra, simm } => lower_add_imm_exec(ir, block, rd, ra, simm as i64),
        PpcInsn::Addis { rd, ra, simm } => lower_add_imm_exec(ir, block, rd, ra, (simm as i64) * 0x1_0000),
        PpcInsn::Ori { ra, rs, uimm } => lower_logic_imm_exec(ir, block, BinOp::Or, ra, rs, uimm as i64, false),
        PpcInsn::Oris { ra, rs, uimm } => lower_logic_imm_exec(ir, block, BinOp::Or, ra, rs, (uimm as i64) * 0x1_0000, false),
        PpcInsn::Andi { ra, rs, uimm } => lower_logic_imm_exec(ir, block, BinOp::And, ra, rs, uimm as i64, true),
        PpcInsn::Xori { ra, rs, uimm } => lower_logic_imm_exec(ir, block, BinOp::Xor, ra, rs, uimm as i64, false),
        PpcInsn::Add { rd, ra, rb, rc } => lower_reg_reg_exec(ir, block, BinOp::Add, rd, ra, rb, false, rc),
        PpcInsn::Subf { rd, ra, rb, rc } => lower_reg_reg_exec(ir, block, BinOp::Sub, rd, ra, rb, true, rc),
        PpcInsn::Or { ra, rs, rb, rc } => lower_reg_reg_exec(ir, block, BinOp::Or, ra, rs, rb, false, rc),
        PpcInsn::And { ra, rs, rb, rc } => lower_reg_reg_exec(ir, block, BinOp::And, ra, rs, rb, false, rc),
        PpcInsn::Xor { ra, rs, rb, rc } => lower_reg_reg_exec(ir, block, BinOp::Xor, ra, rs, rb, false, rc),
        PpcInsn::Lwz { rd, ra, d, update } => lower_load_exec(ir, block, rd, ra, d, Width::W32, update),
        PpcInsn::Stw { rs, ra, d, update } => lower_store_exec(ir, block, rs, ra, d, Width::W32, update),
        PpcInsn::Lbz { rd, ra, d } => lower_load_exec(ir, block, rd, ra, d, Width::W8, false),
        PpcInsn::Stb { rs, ra, d } => lower_store_exec(ir, block, rs, ra, d, Width::W8, false),
        PpcInsn::Rlwinm { ra, rs, sh, mb, me, rc } => lower_rlwinm_exec(ir, block, ra, rs, sh, mb, me, rc),
        PpcInsn::Mfspr { rd, spr } => lower_mfspr_exec(ir, block, rd, spr),
        PpcInsn::Mtspr { spr, rs } => lower_mtspr_exec(ir, block, spr, rs),
        PpcInsn::B { target, lk } => {
            lower_link_exec(ir, block, lk);
            ir.emit_exit_uncond(block, target);
        },
        PpcInsn::Bclr { lk, .. } => lower_bclr_exec(ir, block, lk),
        PpcInsn::Bc { bo, bi, target, lk } => lower_bc_exec(ir, block, bo, bi, target, lk),
        PpcInsn::Crand { crbd, crba, crbb } => lower_crand_exec(ir, block, crbd, crba, crbb),
        PpcInsn::PsAdd { frd, fra, frb } => lower_ps_add_exec(ir, block, frd, fra, frb),
        PpcInsn::Unknown { raw } => ir.emit_unimplemented(block, raw),
    }
}

/// Big-endian word from the first four bytes.
pub open spec fn be_word(b: Seq<u8>) -> u32 {
    (b[0] as int * 0x100_0000 + b[1] as int * 0x1_0000 + b[2] as int * 0x100 + b[3] as int) as u32
}

pub fn word_from_be_bytes(b0: u8, b1: u8, b2: u8, b3: u8) -> (r: u32)
    ensures
        r == be_word(seq![b0, b1, b2, b3]),
{
    (b0 as u32) * 0x100_0000 + (b1 as u32) * 0x1_0000 + (b2 as u32) * 0x100 + (b3 as u32)
}

/// Lowering one instruction keeps the blocks' number and start pcs and takes at most
/// 32 fresh vregs.
#[verifier::spinoff_prover]
#[verifier::rlimit(50)]
proof fn lemma_ppc_lower_bounds(m: BuilderView, insn: PpcInsn, block: BlockId)
    requires
        m.valid_block(block),
    ensures
        ppc_lower(m, insn, block).blocks.len() == m.blocks.len(),
        m.next_vreg <= ppc_lower(m, insn, block).next_vreg <= m.next_vreg + 32,
        crate::ir::block_pcs(ppc_lower(m, insn, block)) == crate::ir::block_pcs(m),
{
    broadcast use crate::ir::lemma_flush_indices_frame, crate::ir::lemma_push_keeps_pcs;

    match insn {
        PpcInsn::Addi { .. } => {},
        PpcInsn::Addis { .. } => {},
        PpcInsn::Ori { .. } => {},
        PpcInsn::Oris { .. } => {},
        PpcInsn::Andi { .. } => {},
        PpcInsn::Xori { .. } => {},
        PpcInsn::Add { .. } => {},
        PpcInsn::Subf { .. } => {},
        PpcInsn::Or { .. } => {},
        PpcInsn::And { .. } => {},
        PpcInsn::Xor { .. } => {},
        PpcInsn::Lwz { .. } => {},
        PpcInsn::Stw { .. } => {},
        PpcInsn::Lbz { .. } => {},
        PpcInsn::Stb { .. } => {},
        PpcInsn::Rlwinm { .. } => {},
        PpcInsn::Mfspr { .. } => {},
        PpcInsn::Mtspr { .. } => {},
        PpcInsn::B { .. } => {},
        PpcInsn::Bclr { .. } => {},
        PpcInsn::Bc { .. } => {},
        PpcInsn::Crand { .. } => {},
        PpcInsn::PsAdd { .. } => {},
        PpcInsn::Unknown { .. } => {},
    }
}

pub struct WiiFrontend;

impl Frontend for WiiFrontend {
    type DecodedInsn = DecodedPpc;

    open spec fn decode_spec(&self, bytes: Seq<u8>, pc: u64) -> DecodedPpc {
        ppc_decode(be_word(bytes), pc)
    }

    open spec fn lowerable(&self, insn: DecodedPpc) -> bool {
        insn.insn.wf()
    }

    open spec fn lower_spec(&self, m: BuilderView, insn: DecodedPpc, block: BlockId) -> BuilderView {
        wii_lower(m, insn, block)
    }

    open spec fn terminates(&self, insn: DecodedPpc) -> bool {
        insn.insn.terminates()
    }

    open spec fn guest_endian(&self) -> Endian {
        Endian::Big
    }

    proof fn lemma_lower_bounds(&self, m: BuilderView, insn: DecodedPpc, block: BlockId) {
        lemma_ppc_lower_bounds(BuilderView { endian: Endian::Big, ..m }, insn.insn, block);
    }

    fn decode(&self, bytes: &[u8], pc: u64) -> (r: (DecodedPpc, usize)) {
        let raw = word_from_be_bytes(bytes[0], bytes[1], bytes[2], bytes[3]);
        assert(seq![bytes@[0], bytes@[1], bytes@[2], bytes@[3]] =~= bytes@.subrange(0, 4));
        (decode_word(raw, pc), 4)
    }

    fn lower_to_ir(&self, insn: &DecodedPpc, ir: &mut IrBuilder, block: BlockId) {
        ir.endian = Endian::Big;
        lower(insn.insn, insn.raw, ir, block);
    }

    fn register_file_layout(&self) -> (r: RegisterLayout)
        ensures
            r.gpr_count == 32 && r.fpr_count == 32 && r.vector_reg_count == 32,
    {
        RegisterLayout { gpr_count: 32, fpr_count: 32, vector_reg_count: 32 }
    }

    fn is_block_terminator(&self, insn: &DecodedPpc) -> (r: bool) {
        insn.insn.is_terminator()
    }

    fn endianness(&self) -> (r: Endian) {
        Endian::Big
    }
}

/// `subf rD, rA, rB` computes `rB - rA`: after reading `rA` then `rB`, one `Sub` defines a fresh
/// vreg whose first operand is the vreg read for `rB` and second the one read for `rA`;
/// `rD` is then that vreg.
#[verifier::spinoff_prover]
#[verifier::rlimit(40)]
pub proof fn lemma_subf_lowering(m: BuilderView, block: BlockId, d: u8, s: u8, t: u8)
    requires
        m.valid_block(block),
        m.gpr.len() == 32,
        d < 32,
        s < 32,
        t < 32,
    ensures
        ({
            let (m1, vs) = m.read_gpr(block, s);
            let (m2, vt) = m1.read_gpr(block, t);
            let v = VReg(m2.next_vreg as u32);
            let r = ppc_lower(m, PpcInsn::Subf { rd: d, ra: s, rb: t, rc: false }, block);
            &&& r.blocks[block.0 as int].ops == m2.blocks[block.0 as int].ops.push(
                OpView::Sub { dst: v, a: VOperand::Reg(vt), b: VOperand::Reg(vs), width: Width::W32 },
            )
            &&& r.gpr[d as int] == Some(v)
        }),
{
    assert(ppc_lower(m, PpcInsn::Subf { rd: d, ra: s, rb: t, rc: false }, block) == lower_reg_reg(m, block, BinOp::Sub, d, s, t, true, false));
    lemma_lower_reg_reg_shape(m, block, BinOp::Sub, d, s, t, true);
}

/// `add rD, rA, rB`: after reading `rA` then `rB`, one `Add` of the two (in that order) defines a
/// fresh vreg, and `rD` is that vreg.
#[verifier::spinoff_prover]
#[verifier::rlimit(40)]
pub proof fn lemma_add_lowering(m: BuilderView, block: BlockId, d: u8, s: u8, t: u8)
    requires
        m.valid_block(block),
        m.gpr.len() == 32,
        d < 32,
        s < 32,
        t < 32,
    ensures
        ({
            let (m1, vs) = m.read_gpr(block, s);
            let (m2, vt) = m1.read_gpr(block, t);
            let v = VReg(m2.next_vreg as u32);
            let r = ppc_lower(m, PpcInsn::Add { rd: d, ra: s, rb: t, rc: false }, block);
            &&& r.blocks[block.0 as int].ops == m2.blocks[block.0 as int].ops.push(
                OpView::Add { dst: v, a: VOperand::Reg(vs), b: VOperand::Reg(vt), width: Width::W32 },
            )
            &&& r.gpr[d as int] == Some(v)
        }),
{
    assert(ppc_lower(m, PpcInsn::Add { rd: d, ra: s, rb: t, rc: false }, block) == lower_reg_reg(m, block, BinOp::Add, d, s, t, false, false));
    lemma_lower_reg_reg_shape(m, block, BinOp::Add, d, s, t, false);
}

/// `and rA, rS, rB`: after reading `rS` then `rB`, one `And` of the two defines a fresh vreg, and
/// `rA` is that vreg.
#[verifier::spinoff_prover]
#[verifier::rlimit(40)]
pub proof fn lemma_and_lowering(m: BuilderView, block: BlockId, d: u8, s: u8, t: u8)
    requires
        m.valid_block(block),
        m.gpr.len() == 32,
        d < 32,
        s < 32,
        t < 32,
    ensures
        ({
            let (m1, vs) = m.read_gpr(block, s);
            let (m2, vt) = m1.read_gpr(block, t);
            let v = VReg(m2.next_vreg as u32);
            let r = ppc_lower(m, PpcInsn::And { ra: d, rs: s, rb: t, rc: false }, block);
            &&& r.blocks[block.0 as int].ops == m2.blocks[block.0 as int].ops.push(
                OpView::And { dst: v, a: VOperand::Reg(vs), b: VOperand::Reg(vt), width: Width::W32 },
            )
            &&& r.gpr[d as int] == Some(v)
        }),
{
    assert(ppc_lower(m, PpcInsn::And { ra: d, rs: s, rb: t, rc: false }, block) == lower_reg_reg(m, block, BinOp::And, d, s, t, false, false));
    lemma_lower_reg_reg_shape(m, block, BinOp::And, d, s, t, false);
}

/// `or rA, rS, rB`: after reading `rS` then `rB`, one `Or` of the two defines a fresh vreg, and
/// `rA` is that vreg.
#[verifier::spinoff_prover]
#[verifier::rlimit(40)]
pub proof fn lemma_or_lowering(m: BuilderView, block: BlockId, d: u8, s: u8, t: u8)
    requires
        m.valid_block(block),
        m.gpr.len() == 32,
        d < 32,
        s < 32,
        t < 32,
    ensures
        ({
            let (m1, vs) = m.read_gpr(block, s);
            let (m2, vt) = m1.read_gpr(block, t);
            let v = VReg(m2.next_vreg as u32);
            let r = ppc_lower(m, PpcInsn::Or { ra: d, rs: s, rb: t, rc: false }, block);
            &&& r.blocks[block.0 as int].ops == m2.blocks[block.0 as int].ops.push(
                OpView::Or { dst: v, a: VOperand::Reg(vs), b: VOperand::Reg(vt), width: Width::W32 },
            )
            &&& r.gpr[d as int] == Some(v)
        }),
{
    assert(ppc_lower(m, PpcInsn::Or { ra: d, rs: s, rb: t, rc: false }, block) == lower_reg_reg(m, block, BinOp::Or, d, s, t, false, false));
    lemma_lower_reg_reg_shape(m, block, BinOp::Or, d, s, t, false);
}

/// `xor rA, rS, rB`: after reading `rS` then `rB`, one `Xor` of the two defines a fresh vreg, and
/// `rA` is that vreg.
#[verifier::spinoff_prover]
#[verifier::rlimit(40)]
pub proof fn lemma_xor_lowering(m: BuilderView, block: BlockId, d: u8, s: u8, t: u8)
    requires
        m.valid_block(block),
        m.gpr.len() == 32,
        d < 32,
        s < 32,
        t < 32,
    ensures
        ({
            let (m1, vs) = m.read_gpr(block, s);
            let (m2, vt) = m1.read_gpr(block, t);
            let v = VReg(m2.next_vreg as u32);
            let r = ppc_lower(m, PpcInsn::Xor { ra: d, rs: s, rb: t, rc: false }, block);
            &&& r.blocks[block.0 as int].ops == m2.blocks[block.0 as int].ops.push(
                OpView::Xor { dst: v, a: VOperand::Reg(vs), b: VOperand::Reg(vt), width: Width::W32 },
            )
            &&& r.gpr[d as int] == Some(v)
        }),
{
    assert(ppc_lower(m, PpcInsn::Xor { ra: d, rs: s, rb: t, rc: false }, block) == lower_reg_reg(m, block, BinOp::Xor, d, s, t, false, false));
    lemma_lower_reg_reg_shape(m, block, BinOp::Xor, d, s, t, false);
}

proof fn lemma_lower_reg_reg_shape(m: BuilderView, block: BlockId, op: BinOp, d: u8, x: u8, y: u8, swap: bool)
    requires
        m.valid_block(block),
        m.gpr.len() == 32,
        d < 32,
        x < 32,
        y < 32,
    ensures
        ({
            let (m1, vx) = m.read_gpr(block, x);
            let (m2, vy) = m1.read_gpr(block, y);
            let v = VReg(m2.next_vreg as u32);
            let r = lower_reg_reg(m, block, op, d, x, y, swap, false);
            &&& r.blocks[block.0 as int].ops == m2.blocks[block.0 as int].ops.push(
                if swap {
                    binary_op(op, v, VOperand::Reg(vy), VOperand::Reg(vx), Width::W32)
                } else {
                    binary_op(op, v, VOperand::Reg(vx), VOperand::Reg(vy), Width::W32)
                },
            )
            &&& r.gpr[d as int] == Some(v)
        }),
{
    let (m1, vx) = m.read_gpr(block, x);
    let (m2, vy) = m1.read_gpr(block, y);
    assert(m1.blocks.len() == m.blocks.len());
    assert(m1.gpr.len() == 32);
    assert(m2.blocks.len() == m.blocks.len());
}

/// `addi rD, rA, simm` adds the sign-extended immediate to `rA`, or to the
/// constant 0 when `rA` is register 0; `addis` adds it shifted left by 16.
/// One `Add` defines a fresh vreg and `rD` is that vreg.
#[verifier::spinoff_prover]
#[verifier::rlimit(40)]
pub proof fn lemma_add_imm_lowering(m: BuilderView, block: BlockId, d: u8, a: u8, simm: i16)
    requires
        m.valid_block(block),
        m.gpr.len() == 32,
        d < 32,
        a < 32,
    ensures
        ({
            let (m1, va) = m.read_gpr(block, a);
            let src = if a == 0 { m } else { m1 };
            let first = if a == 0 { VOperand::Imm(0) } else { VOperand::Reg(va) };
            let v = VReg(src.next_vreg as u32);
            let lo = ppc_lower(m, PpcInsn::Addi { rd: d, ra: a, simm }, block);
            let hi = ppc_lower(m, PpcInsn::Addis { rd: d, ra: a, simm }, block);
            &&& lo.blocks[block.0 as int].ops == src.blocks[block.0 as int].ops.push(
                OpView::Add { dst: v, a: first, b: VOperand::Imm(simm as i64), width: Width::W32 },
            )
            &&& lo.gpr[d as int] == Some(v)
            &&& hi.blocks[block.0 as int].ops == src.blocks[block.0 as int].ops.push(
                OpView::Add { dst: v, a: first, b: VOperand::Imm((simm as int * 0x1_0000) as i64), width: Width::W32 },
            )
            &&& hi.gpr[d as int] == Some(v)
        }),
{
    let (m1, va) = m.read_gpr(block, a);
    assert(m1.blocks.len() == m.blocks.len());
}

/// `ori`, `oris` and `xori rA, rS, uimm` combine `rS` with the zero-extended
/// immediate (shifted left by 16 for `oris`): one op of that kind defines a
/// fresh vreg and `rA` is that vreg.
#[verifier::spinoff_prover]
#[verifier::rlimit(40)]
pub proof fn lemma_logic_imm_lowering(m: BuilderView, block: BlockId, d: u8, s: u8, uimm: u16)
    requires
        m.valid_block(block),
        m.gpr.len() == 32,
        d < 32,
        s < 32,
    ensures
        ({
            let (m1, vs) = m.read_gpr(block, s);
            let v = VReg(m1.next_vreg as u32);
            let pre = m1.blocks[block.0 as int].ops;
            let ori = ppc_lower(m, PpcInsn::Ori { ra: d, rs: s, uimm }, block);
            let oris = ppc_lower(m, PpcInsn::Oris { ra: d, rs: s, uimm }, block);
            let xori = ppc_lower(m, PpcInsn::Xori { ra: d, rs: s, uimm }, block);
            &&& ori.blocks[block.0 as int].ops == pre.push(
                OpView::Or { dst: v, a: VOperand::Reg(vs), b: VOperand::Imm(uimm as i64), width: Width::W32 },
            )
            &&& ori.gpr[d as int] == Some(v)
            &&& oris.blocks[block.0 as int].ops == pre.push(
                OpView::Or { dst: v, a: VOperand::Reg(vs), b: VOperand::Imm((uimm as int * 0x1_0000) as i64), width: Width::W32 },
            )
            &&& oris.gpr[d as int] == Some(v)
            &&& xori.blocks[block.0 as int].ops == pre.push(
                OpView::Xor { dst: v, a: VOperand::Reg(vs), b: VOperand::Imm(uimm as i64), width: Width::W32 },
            )
            &&& xori.gpr[d as int] == Some(v)
        }),
{
    let (m1, vs) = m.read_gpr(block, s);
    assert(m1.blocks.len() == m.blocks.len());
}

/// Guest words are big-endian: the first byte is the most significant and the
/// fourth the least.
pub proof fn lemma_be_word_byte_order(b: Seq<u8>)
    requires
        b.len() == 4,
    ensures
        be_word(b) / 0x100_0000 == b[0],
        be_word(b) % 0x100 == b[3],
        (be_word(b) / 0x1_0000) % 0x100 == b[1],
        (be_word(b) / 0x100) % 0x100 == b[2],
{
}

} // verus!
