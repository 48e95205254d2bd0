//! Maxwell (Switch): a frame from a command stream of little-endian 32-bit
//! method headers, each followed by its argument words.
use crate::gpu::GenericFrame;
use vstd::prelude::*;

verus! {

pub open spec fn le_u32_at(s: Seq<u8>, i: int) -> u32 {
    (s[i] as int + s[i + 1] as int * 0x100 + s[i + 2] as int * 0x1_0000 + s[i + 3] as int * 0x100_0000) as u32
}

/// Method numbers that issue a draw.
pub open spec fn is_draw_method(method: u32) -> bool {
    method == 0x0d74 || method == 0x0d80
}

/// Draws issued by the headers from byte `i` on: a header at `i` names its
/// method in bits 0..12 and its argument count in bits 16..28; the next header
/// follows its arguments. A trailing fragment of fewer than four bytes is ignored.
pub open spec fn draws_from(s: Seq<u8>, i: nat) -> nat
    decreases s.len() - i,
{
    if i + 4 > s.len() {
        0
    } else {
        let hdr = le_u32_at(s, i as int);
        let count = ((hdr >> 16) & 0x1fff) as nat;
        let next = i + 4 + 4 * count;
        let rest = if next <= s.len() { draws_from(s, next) } else { 0 };
        (if is_draw_method(hdr & 0x1fff) { 1nat } else { 0nat }) + rest
    }
}

/// Counts the draw methods of a command stream.
pub fn translate_frame(stream: &[u8]) -> (r: GenericFrame)
    ensures
        r.width == 1280,
        r.height == 720,
        r.draws == draws_from(stream@, 0),
{
    let mut draws: usize = 0;
    let mut i: usize = 0;
    while stream.len() - i >= 4
        invariant
            i <= stream@.len(),
            draws as nat + draws_from(stream@, i as nat) == draws_from(stream@, 0),
            draws <= i,
        decreases stream@.len() - i,
    {
        let hdr: u32 = (stream[i] as u32) + (stream[i + 1] as u32) * 0x100 + (stream[i + 2] as u32) * 0x1_0000
            + (stream[i + 3] as u32) * 0x100_0000;
        assert(hdr == le_u32_at(stream@, i as int));
        let ghost at: nat = i as nat;
        i = i + 4;
        let count: usize = ((hdr >> 16) & 0x1fff) as usize;
        let method: u32 = hdr & 0x1fff;
        proof {
            assert((hdr >> 16) & 0x1fff < 0x2000) by (bit_vector);
        }
        if method == 0x0d74 || method == 0x0d80 {
            draws = draws + 1;
        }
        let step: usize = count * 4;
        if step >= stream.len() - i {
            // Every later header would start past the last full word.
            i = stream.len();
        } else {
            i = i + step;
        }
        assert(draws as nat + draws_from(stream@, i as nat) == draws_from(stream@, 0)) by {
            let next: nat = (at + 4 + 4 * count) as nat;
            assert(draws_from(stream@, at) == (if is_draw_method(method) { 1nat } else { 0nat })
                + (if next <= stream@.len() { draws_from(stream@, next) } else { 0 }));
        }
    }
    GenericFrame { width: 1280, height: 720, draws }
}

/// A header at `i` whose word is `(count << 16) | method` counts one draw
/// exactly when the method is 0x0d74 or 0x0d80, and the next header is read
/// after its `count` argument words.
pub proof fn lemma_header_counts(s: Seq<u8>, i: nat, method: u32, count: u32)
    requires
        i + 4 <= s.len(),
        method < 0x2000,
        count < 0x2000,
        le_u32_at(s, i as int) == (count << 16) | method,
    ensures
        draws_from(s, i) == (if method == 0x0d74 || method == 0x0d80 { 1nat } else { 0nat }) + (if i + 4 + 4 * count
            <= s.len() {
            draws_from(s, (i + 4 + 4 * count) as nat)
        } else {
            0
        }),
{
    let hdr = le_u32_at(s, i as int);
    assert(hdr & 0x1fff == method && (hdr >> 16) & 0x1fff == count) by (bit_vector)
        requires
            hdr == (count << 16) | method,
            method < 0x2000,
            count < 0x2000,
    ;
}

/// Command words are little-endian: the byte at `i` is the least significant.
pub proof fn lemma_le_u32_byte_order(s: Seq<u8>, i: int)
    requires
        0 <= i,
        i + 4 <= s.len(),
    ensures
        le_u32_at(s, i) % 0x100 == s[i],
        (le_u32_at(s, i) / 0x100) % 0x100 == s[i + 1],
        (le_u32_at(s, i) / 0x1_0000) % 0x100 == s[i + 2],
        le_u32_at(s, i) / 0x100_0000 == s[i + 3],
{
}

} // verus!
