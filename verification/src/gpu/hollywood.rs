//! Hollywood (Wii): a frame from its BP register writes. Each write carries the
//! register address in its top byte and a 24-bit value.
use crate::gpu::GenericFrame;
use vstd::prelude::*;

verus! {

/// Frame state (width, height, TEV stage count) after the writes, applied in order:
/// register 0x00 sets the stage count to bits 10..13 plus one; register 0x21 sets
/// the width from bits 0..11 and the height from bits 12..23, each at least 1.
/// Other registers leave the state unchanged.
pub open spec fn bp_state(writes: Seq<u32>) -> (u32, u32, nat)
    decreases writes.len(),
{
    if writes.len() == 0 {
        (640, 480, 1)
    } else {
        let (w, h, stages) = bp_state(writes.drop_last());
        let word = writes.last();
        let addr = word >> 24;
        let val = word & 0x00ff_ffff;
        let stages2 = if addr == 0 {
            (((val >> 10) & 0xf) + 1) as nat
        } else {
            stages
        };
        if addr == 0x21 {
            let ww = val & 0xfff;
            let hh = (val >> 12) & 0xfff;
            (if ww >= 1 { ww } else { 1 }, if hh >= 1 { hh } else { 1 }, stages2)
        } else {
            (w, h, stages2)
        }
    }
}

pub fn translate_frame(bp_writes: &[u32]) -> (r: GenericFrame)
    ensures
        (r.width, r.height, r.draws as nat) == bp_state(bp_writes@),
{
    let mut w: u32 = 640;
    let mut h: u32 = 480;
    let mut stages: usize = 1;
    let mut i: usize = 0;
    while i < bp_writes.len()
        invariant
            i <= bp_writes@.len(),
            (w, h, stages as nat) == bp_state(bp_writes@.subrange(0, i as int)),
        decreases bp_writes.len() - i,
    {
        let word = bp_writes[i];
        let addr = (word >> 24) as u8;
        let val = word & 0x00ff_ffff;
        proof {
            assert(word >> 24 < 256) by (bit_vector);
            assert((val >> 10) & 0xf < 16) by (bit_vector);
            assert(bp_writes@.subrange(0, i as int + 1).drop_last() =~= bp_writes@.subrange(0, i as int));
        }
        if addr == 0 {
            stages = (((val >> 10) & 0xf) + 1) as usize;
        }
        if addr == 0x21 {
            let ww = val & 0xfff;
            w = if ww >= 1 {
                ww
            } else {
                1
            };
            let hh = (val >> 12) & 0xfff;
            h = if hh >= 1 {
                hh
            } else {
                1
            };
        }
        i = i + 1;
    }
    assert(bp_writes@.subrange(0, i as int) =~= bp_writes@);
    GenericFrame { width: w, height: h, draws: stages }
}

/// A write of `(reg << 24) | value` applied after `writes`: register 0x21 with
/// width `w` in bits 0..11 and height `h` in bits 12..23 sets the frame to
/// `w` by `h` (each at least 1); register 0x00 with `n` in bits 10..13 sets
/// the stage count to `n + 1`; any other register changes nothing.
pub proof fn lemma_bp_write_effects(writes: Seq<u32>, reg: u32, w: u32, h: u32, n: u32)
    requires
        reg < 256,
        w < 0x1000,
        h < 0x1000,
        n < 16,
    ensures
        ({
            let before = bp_state(writes);
            let size = bp_state(writes.push((0x21u32 << 24) | (h << 12) | w));
            let stages = bp_state(writes.push(n << 10));
            let other = bp_state(writes.push((reg << 24) | (h << 12) | w));
            &&& size.0 == (if w >= 1 { w } else { 1 })
            &&& size.1 == (if h >= 1 { h } else { 1 })
            &&& size.2 == before.2
            &&& stages.0 == before.0 && stages.1 == before.1
            &&& stages.2 == n + 1
            &&& (reg != 0 && reg != 0x21) ==> other == before
        }),
{
    let a = (0x21u32 << 24) | (h << 12) | w;
    let b = n << 10;
    let c = (reg << 24) | (h << 12) | w;
    assert(a >> 24 == 0x21 && (a & 0x00ff_ffff) & 0xfff == w && ((a & 0x00ff_ffff) >> 12) & 0xfff == h) by (bit_vector)
        requires
            a == (0x21u32 << 24) | (h << 12) | w,
            w < 0x1000,
            h < 0x1000,
    ;
    assert(b >> 24 == 0 && ((b & 0x00ff_ffff) >> 10) & 0xf == n) by (bit_vector)
        requires
            b == n << 10,
            n < 16,
    ;
    assert(c >> 24 == reg) by (bit_vector)
        requires
            c == (reg << 24) | (h << 12) | w,
            reg < 256,
            w < 0x1000,
            h < 0x1000,
    ;
    assert(writes.push(a).drop_last() =~= writes);
    assert(writes.push(b).drop_last() =~= writes);
    assert(writes.push(c).drop_last() =~= writes);
}

} // verus!
