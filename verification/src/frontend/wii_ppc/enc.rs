//! Encoders for the instruction forms the tests and the smoke run assemble.
//! Each one decodes back to the instruction it was given.
use crate::frontend::wii_ppc::{ppc_decode_insn, PpcInsn};
use vstd::prelude::*;

verus! {

pub open spec fn d_form(op: u32, rt: u8, ra: u8, imm: u16) -> u32 {
    (op << 26) | ((rt as u32) << 21) | ((ra as u32) << 16) | (imm as u32)
}

pub fn addi(rd: u8, ra: u8, simm: i16) -> (r: u32)
    ensures
        r == d_form(14, rd, ra, simm as u16),
{
    (14u32 << 26) | ((rd as u32) << 21) | ((ra as u32) << 16) | (simm as u16 as u32)
}

pub fn add(rd: u8, ra: u8, rb: u8) -> (r: u32)
    ensures
        r == (31u32 << 26) | ((rd as u32) << 21) | ((ra as u32) << 16) | ((rb as u32) << 11) | (266u32 << 1),
{
    (31u32 << 26) | ((rd as u32) << 21) | ((ra as u32) << 16) | ((rb as u32) << 11) | (266u32 << 1)
}

pub fn ori(ra: u8, rs: u8, uimm: u16) -> (r: u32)
    ensures
        r == d_form(24, rs, ra, uimm),
{
    (24u32 << 26) | ((rs as u32) << 21) | ((ra as u32) << 16) | (uimm as u32)
}

pub fn lwz(rd: u8, ra: u8, d: i16) -> (r: u32)
    ensures
        r == d_form(32, rd, ra, d as u16),
{
    (32u32 << 26) | ((rd as u32) << 21) | ((ra as u32) << 16) | (d as u16 as u32)
}

pub fn stw(rs: u8, ra: u8, d: i16) -> (r: u32)
    ensures
        r == d_form(36, rs, ra, d as u16),
{
    (36u32 << 26) | ((rs as u32) << 21) | ((ra as u32) << 16) | (d as u16 as u32)
}

pub fn blr() -> (r: u32)
    ensures
        r == (19u32 << 26) | (20u32 << 21) | (16u32 << 1),
{
    (19u32 << 26) | (20u32 << 21) | (16u32 << 1)
}

pub fn addis(rd: u8, ra: u8, simm: i16) -> (r: u32)
    ensures
        r == d_form(15, rd, ra, simm as u16),
{
    (15u32 << 26) | ((rd as u32) << 21) | ((ra as u32) << 16) | (simm as u16 as u32)
}

proof fn lemma_d_form_fields(op: u32, rt: u32, ra: u32, imm: u16)
    requires
        op < 64,
        rt < 32,
        ra < 32,
    ensures
        ({
            let w = (op << 26) | (rt << 21) | (ra << 16) | (imm as u32);
            &&& w >> 26 == op
            &&& (w >> 21) & 0x1f == rt
            &&& (w >> 16) & 0x1f == ra
            &&& w as u16 == imm
            &&& w as i16 == imm as i16
        }),
{
    assert({
        let w = (op << 26) | (rt << 21) | (ra << 16) | (imm as u32);
        &&& w >> 26 == op
        &&& (w >> 21) & 0x1f == rt
        &&& (w >> 16) & 0x1f == ra
        &&& w as u16 == imm
        &&& w as i16 == imm as i16
    }) by (bit_vector)
        requires
            op < 64,
            rt < 32,
            ra < 32,
    ;
}

proof fn lemma_i16_round_trip(v: i16)
    ensures
        (v as u16) as i16 == v,
{
    assert((v as u16) as i16 == v) by (bit_vector);
}

/// Encoding `addi` and decoding the word gives back the same instruction.
pub proof fn lemma_addi_round_trip(rd: u8, ra: u8, simm: i16, pc: u64)
    requires
        rd < 32,
        ra < 32,
    ensures
        ppc_decode_insn(d_form(14, rd, ra, simm as u16), pc) == (PpcInsn::Addi { rd, ra, simm }),
{
    lemma_d_form_fields(14, rd as u32, ra as u32, simm as u16);
    lemma_i16_round_trip(simm);
}

/// Encoding `addis` and decoding the word gives back the same instruction.
pub proof fn lemma_addis_round_trip(rd: u8, ra: u8, simm: i16, pc: u64)
    requires
        rd < 32,
        ra < 32,
    ensures
        ppc_decode_insn(d_form(15, rd, ra, simm as u16), pc) == (PpcInsn::Addis { rd, ra, simm }),
{
    lemma_d_form_fields(15, rd as u32, ra as u32, simm as u16);
    lemma_i16_round_trip(simm);
}

/// Encoding `ori` and decoding the word gives back the same instruction.
pub proof fn lemma_ori_round_trip(ra: u8, rs: u8, uimm: u16, pc: u64)
    requires
        ra < 32,
        rs < 32,
    ensures
        ppc_decode_insn(d_form(24, rs, ra, uimm), pc) == (PpcInsn::Ori { ra, rs, uimm }),
{
    lemma_d_form_fields(24, rs as u32, ra as u32, uimm);
}

/// Encoding `lwz` and decoding the word gives back the same instruction.
pub proof fn lemma_lwz_round_trip(rd: u8, ra: u8, d: i16, pc: u64)
    requires
        rd < 32,
        ra < 32,
    ensures
        ppc_decode_insn(d_form(32, rd, ra, d as u16), pc) == (PpcInsn::Lwz { rd, ra, d, update: false }),
{
    lemma_d_form_fields(32, rd as u32, ra as u32, d as u16);
    lemma_i16_round_trip(d);
}

/// Encoding `stw` and decoding the word gives back the same instruction.
pub proof fn lemma_stw_round_trip(rs: u8, ra: u8, d: i16, pc: u64)
    requires
        rs < 32,
        ra < 32,
    ensures
        ppc_decode_insn(d_form(36, rs, ra, d as u16), pc) == (PpcInsn::Stw { rs, ra, d, update: false }),
{
    lemma_d_form_fields(36, rs as u32, ra as u32, d as u16);
    lemma_i16_round_trip(d);
}

/// Encoding `add` and decoding the word gives back the same instruction.
pub proof fn lemma_add_round_trip(rd: u8, ra: u8, rb: u8, pc: u64)
    requires
        rd < 32,
        ra < 32,
        rb < 32,
    ensures
        ppc_decode_insn(
            (31u32 << 26) | ((rd as u32) << 21) | ((ra as u32) << 16) | ((rb as u32) << 11) | (266u32 << 1),
            pc,
        ) == (PpcInsn::Add { rd, ra, rb, rc: false }),
{
    let x = rd as u32;
    let y = ra as u32;
    let z = rb as u32;
    assert({
        let w = (31u32 << 26) | (x << 21) | (y << 16) | (z << 11) | (266u32 << 1);
        &&& w >> 26 == 31
        &&& (w >> 21) & 0x1f == x
        &&& (w >> 16) & 0x1f == y
        &&& (w >> 11) & 0x1f == z
        &&& (w >> 1) & 0x3ff == 266
        &&& w & 1 == 0
        &&& (w >> 1) & 0x1f != 21
    }) by (bit_vector)
        requires
            x < 32,
            y < 32,
            z < 32,
    ;
    assert(266u16 & 0x1ffu16 == 266u16) by (bit_vector);
}

/// `blr` decodes as a branch to LR with BO = 20 (branch always), BI = 0, no link.
pub proof fn lemma_blr_round_trip(pc: u64)
    ensures
        ppc_decode_insn((19u32 << 26) | (20u32 << 21) | (16u32 << 1), pc) == (PpcInsn::Bclr { bo: 20, bi: 0, lk: false }),
{
    assert({
        let w = (19u32 << 26) | (20u32 << 21) | (16u32 << 1);
        &&& w >> 26 == 19
        &&& (w >> 21) & 0x1f == 20
        &&& (w >> 16) & 0x1f == 0
        &&& (w >> 1) & 0x3ff == 16
        &&& w & 1 == 0
    }) by (bit_vector);
}

// ---------------------------------------------------------------------------
// Decoding every supported form gives back its fields.
// ---------------------------------------------------------------------------

/// An X-form word: primary opcode, three 5-bit fields, a 10-bit extended
/// opcode and the record bit.
pub open spec fn x_form(op: u32, rt: u8, ra: u8, rb: u8, xo: u32, rc: bool) -> u32 {
    (op << 26) | ((rt as u32) << 21) | ((ra as u32) << 16) | ((rb as u32) << 11) | (xo << 1) | (if rc {
        1u32
    } else {
        0u32
    })
}

proof fn lemma_x_form_fields(op: u32, rt: u32, ra: u32, rb: u32, xo: u32, rc: u32)
    requires
        op < 64,
        rt < 32,
        ra < 32,
        rb < 32,
        xo < 1024,
        rc < 2,
    ensures
        ({
            let w = (op << 26) | (rt << 21) | (ra << 16) | (rb << 11) | (xo << 1) | rc;
            &&& w >> 26 == op
            &&& (w >> 21) & 0x1f == rt
            &&& (w >> 16) & 0x1f == ra
            &&& (w >> 11) & 0x1f == rb
            &&& (w >> 1) & 0x3ff == xo
            &&& (w >> 1) & 0x1f == xo & 0x1f
            &&& (w >> 6) & 0x1f == (xo >> 5) & 0x1f
            &&& (w & 1 != 0) == (rc == 1)
            &&& (((w >> 16) & 0x1f) << 5) | ((w >> 11) & 0x1f) == ra * 32 + rb
        }),
{
    assert({
        let w = (op << 26) | (rt << 21) | (ra << 16) | (rb << 11) | (xo << 1) | rc;
        &&& w >> 26 == op
        &&& (w >> 21) & 0x1f == rt
        &&& (w >> 16) & 0x1f == ra
        &&& (w >> 11) & 0x1f == rb
        &&& (w >> 1) & 0x3ff == xo
        &&& (w >> 1) & 0x1f == xo & 0x1f
        &&& (w >> 6) & 0x1f == (xo >> 5) & 0x1f
        &&& (w & 1 != 0) == (rc == 1)
        &&& (((w >> 16) & 0x1f) << 5) | ((w >> 11) & 0x1f) == ra * 32 + rb
    }) by (bit_vector)
        requires
            op < 64,
            rt < 32,
            ra < 32,
            rb < 32,
            xo < 1024,
            rc < 2,
    ;
}

/// The X-form register instructions decode back to their register fields and
/// record bit: `subf`, `add`, `and`, `xor`, `or` (opcode 31), `crand` and
/// `bclr` (opcode 19), `mfspr`/`mtspr` with the raw ten-bit SPR field, and
/// `ps_add` (opcode 4).
pub proof fn lemma_x_form_round_trips(rt: u8, ra: u8, rb: u8, rc: bool, pc: u64)
    requires
        rt < 32,
        ra < 32,
        rb < 32,
    ensures
        ppc_decode_insn(x_form(31, rt, ra, rb, 40, rc), pc) == (PpcInsn::Subf { rd: rt, ra, rb, rc }),
        ppc_decode_insn(x_form(31, rt, ra, rb, 266, rc), pc) == (PpcInsn::Add { rd: rt, ra, rb, rc }),
        ppc_decode_insn(x_form(31, rt, ra, rb, 28, rc), pc) == (PpcInsn::And { ra, rs: rt, rb, rc }),
        ppc_decode_insn(x_form(31, rt, ra, rb, 316, rc), pc) == (PpcInsn::Xor { ra, rs: rt, rb, rc }),
        ppc_decode_insn(x_form(31, rt, ra, rb, 444, rc), pc) == (PpcInsn::Or { ra, rs: rt, rb, rc }),
        ppc_decode_insn(x_form(31, rt, ra, rb, 339, false), pc) == (PpcInsn::Mfspr {
            rd: rt,
            spr: (32 * ra + rb) as u16,
        }),
        ppc_decode_insn(x_form(31, rt, ra, rb, 467, false), pc) == (PpcInsn::Mtspr {
            spr: (32 * ra + rb) as u16,
            rs: rt,
        }),
        ppc_decode_insn(x_form(19, rt, ra, rb, 257, false), pc) == (PpcInsn::Crand { crbd: rt, crba: ra, crbb: rb }),
        ppc_decode_insn(x_form(19, rt, ra, 0, 16, rc), pc) == (PpcInsn::Bclr { bo: rt, bi: ra, lk: rc }),
        ppc_decode_insn(x_form(4, rt, ra, rb, 21, false), pc) == (PpcInsn::PsAdd { frd: rt, fra: ra, frb: rb }),
{
    let r: u32 = if rc {
        1
    } else {
        0
    };
    lemma_x_form_fields(31, rt as u32, ra as u32, rb as u32, 40, r);
    lemma_x_form_fields(31, rt as u32, ra as u32, rb as u32, 266, r);
    lemma_x_form_fields(31, rt as u32, ra as u32, rb as u32, 28, r);
    lemma_x_form_fields(31, rt as u32, ra as u32, rb as u32, 316, r);
    lemma_x_form_fields(31, rt as u32, ra as u32, rb as u32, 444, r);
    lemma_x_form_fields(31, rt as u32, ra as u32, rb as u32, 339, 0);
    lemma_x_form_fields(31, rt as u32, ra as u32, rb as u32, 467, 0);
    lemma_x_form_fields(19, rt as u32, ra as u32, rb as u32, 257, 0);
    lemma_x_form_fields(19, rt as u32, ra as u32, 0, 16, r);
    lemma_x_form_fields(4, rt as u32, ra as u32, rb as u32, 21, 0);
    assert(40u32 & 0x1ff == 40 && 266u32 & 0x1ff == 266 && 28u32 & 0x1ff == 28 && 316u32 & 0x1ff == 316
        && 444u32 & 0x1ff == 444 && 339u32 & 0x1ff == 339 && 467u32 & 0x1ff == 467 && 21u32 & 0x1f == 21)
        by (bit_vector);
}

/// `rlwinm` decodes back to its registers, shift, mask bounds and record bit.
pub proof fn lemma_rlwinm_round_trip(rs: u8, ra: u8, sh: u8, mb: u8, me: u8, rc: bool, pc: u64)
    requires
        rs < 32,
        ra < 32,
        sh < 32,
        mb < 32,
        me < 32,
    ensures
        ppc_decode_insn(x_form(21, rs, ra, sh, (32 * mb + me) as u32, rc), pc) == (PpcInsn::Rlwinm {
            ra,
            rs,
            sh,
            mb,
            me,
            rc,
        }),
{
    let r: u32 = if rc {
        1
    } else {
        0
    };
    let m = mb as u32;
    let e = me as u32;
    let x: u32 = (32 * mb + me) as u32;
    assert(x < 1024 && x & 0x1f == e && (x >> 5) & 0x1f == m) by (bit_vector)
        requires
            m < 32,
            e < 32,
            x == 32 * m + e,
    ;
    lemma_x_form_fields(21, rs as u32, ra as u32, sh as u32, x, r);
}

/// The D-form instructions decode back to their registers and immediate:
/// `oris`, `xori`, `andi.`, `lwzu`, `lbz`, `stwu` and `stb`.
pub proof fn lemma_d_form_round_trips(rt: u8, ra: u8, imm: u16, pc: u64)
    requires
        rt < 32,
        ra < 32,
    ensures
        ppc_decode_insn(d_form(25, rt, ra, imm), pc) == (PpcInsn::Oris { ra, rs: rt, uimm: imm }),
        ppc_decode_insn(d_form(26, rt, ra, imm), pc) == (PpcInsn::Xori { ra, rs: rt, uimm: imm }),
        ppc_decode_insn(d_form(28, rt, ra, imm), pc) == (PpcInsn::Andi { ra, rs: rt, uimm: imm }),
        ppc_decode_insn(d_form(33, rt, ra, imm), pc) == (PpcInsn::Lwz { rd: rt, ra, d: imm as i16, update: true }),
        ppc_decode_insn(d_form(34, rt, ra, imm), pc) == (PpcInsn::Lbz { rd: rt, ra, d: imm as i16 }),
        ppc_decode_insn(d_form(37, rt, ra, imm), pc) == (PpcInsn::Stw { rs: rt, ra, d: imm as i16, update: true }),
        ppc_decode_insn(d_form(38, rt, ra, imm), pc) == (PpcInsn::Stb { rs: rt, ra, d: imm as i16 }),
{
    lemma_d_form_fields(25, rt as u32, ra as u32, imm);
    lemma_d_form_fields(26, rt as u32, ra as u32, imm);
    lemma_d_form_fields(28, rt as u32, ra as u32, imm);
    lemma_d_form_fields(33, rt as u32, ra as u32, imm);
    lemma_d_form_fields(34, rt as u32, ra as u32, imm);
    lemma_d_form_fields(37, rt as u32, ra as u32, imm);
    lemma_d_form_fields(38, rt as u32, ra as u32, imm);
}

} // verus!
