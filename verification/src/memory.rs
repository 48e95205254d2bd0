//! Guest memory addressing: a guest address is taken modulo the size of the
//! host mapping that backs guest memory.
use vstd::prelude::*;

verus! {

/// Where a write of `len` bytes at guest address `addr` lands in a mapping of
/// `size` bytes: it starts at the address modulo the size, and the bytes that
/// would pass the end of the mapping are dropped.
pub fn write_span(addr: u32, len: usize, size: usize) -> (r: (usize, usize))
    requires
        size > 0,
    ensures
        r.0 == addr as int % size as int,
        r.1 == (if len <= size - r.0 {
            len as int
        } else {
            size - r.0
        }),
{
    let a = (addr as usize) % size;
    let room = size - a;
    let count = if len <= room {
        len
    } else {
        room
    };
    (a, count)
}

/// The offsets of the four bytes of the instruction at `pc`: the first at the
/// pc modulo the size, the next ones following it and wrapping at the end.
pub fn fetch_offsets(pc: u64, size: usize) -> (r: [usize; 4])
    requires
        size > 0,
        size <= usize::MAX - 3,
    ensures
        forall|i: int| 0 <= i < 4 ==> r@[i] == ((pc as usize) as int % size as int + i) % size as int,
{
    let a = (pc as usize) % size;
    [a % size, (a + 1) % size, (a + 2) % size, (a + 3) % size]
}

} // verus!
