//! Code cache: compiled blocks by guest pc, with least-recently-used eviction
//! under a byte budget.
use crate::jit_ffi::CompiledBlock;
use std::collections::{HashMap, VecDeque};
use vstd::prelude::*;
use vstd::std_specs::hash::group_hash_axioms;

verus! {

broadcast use group_hash_axioms;

#[derive(Clone, Debug)]
pub struct CachedBlock {
    pub block: CompiledBlock,
    pub guest_end: u64,
}

pub struct CodeCache {
    blocks: HashMap<u64, CachedBlock>,
    lru: VecDeque<u64>,
    max_bytes: usize,
    used_bytes: usize,
}

/// The cache as a map from guest pc to block, the recency order (least recent
/// first), the budget and the bytes counted as used.
pub struct CacheView {
    pub blocks: Map<u64, CachedBlock>,
    pub lru: Seq<u64>,
    pub max_bytes: nat,
    pub used_bytes: nat,
}

impl View for CodeCache {
    type V = CacheView;

    closed spec fn view(&self) -> CacheView {
        CacheView {
            blocks: self.blocks@,
            lru: self.lru@,
            max_bytes: self.max_bytes as nat,
            used_bytes: self.used_bytes as nat,
        }
    }
}

/// Eviction before inserting `size` bytes: while the budget would be exceeded
/// and the recency list is not empty, the least recent pc leaves it, and its
/// block (if still cached) leaves the map and gives back its bytes.
/// Yields the new map, list and byte count, and the blocks evicted, in order.
pub open spec fn evict_spec(blocks: Map<u64, CachedBlock>, lru: Seq<u64>, used: nat, size: nat, max: nat) -> (
    Map<u64, CachedBlock>,
    Seq<u64>,
    nat,
    Seq<CompiledBlock>,
)
    decreases lru.len(),
{
    if used + size > max && lru.len() > 0 {
        let old = lru[0];
        if blocks.contains_key(old) {
            let len = blocks[old].block.code_len as nat;
            let used2 = if used >= len {
                (used - len) as nat
            } else {
                0
            };
            let r = evict_spec(blocks.remove(old), lru.drop_first(), used2, size, max);
            (r.0, r.1, r.2, seq![blocks[old].block] + r.3)
        } else {
            evict_spec(blocks, lru.drop_first(), used, size, max)
        }
    } else {
        (blocks, lru, used, Seq::empty())
    }
}

/// The cache after inserting `block` for `pc`: eviction, then the block is
/// counted, becomes most recent and is mapped (replacing any block for `pc`).
pub open spec fn insert_spec(c: CacheView, pc: u64, end: u64, block: CompiledBlock) -> CacheView {
    let (b, l, u, _) = evict_spec(c.blocks, c.lru, c.used_bytes, block.code_len as nat, c.max_bytes);
    CacheView {
        blocks: b.insert(pc, CachedBlock { block, guest_end: end }),
        lru: l.push(pc),
        max_bytes: c.max_bytes,
        used_bytes: u + block.code_len as nat,
    }
}

/// The blocks an insert gives back: the evicted ones, then the one it replaced.
pub open spec fn insert_released(c: CacheView, pc: u64, block: CompiledBlock) -> Seq<CompiledBlock> {
    let (b, l, u, ev) = evict_spec(c.blocks, c.lru, c.used_bytes, block.code_len as nat, c.max_bytes);
    if b.contains_key(pc) {
        ev.push(b[pc].block)
    } else {
        ev
    }
}

/// Moving `pc` to the most recent end: its first occurrence leaves the list and
/// it is appended. A pc not in the list leaves it unchanged.
pub open spec fn touch_spec(lru: Seq<u64>, pc: u64) -> Seq<u64> {
    match lru.index_of_first(pc) {
        Some(i) => lru.remove(i).push(pc),
        None => lru,
    }
}

proof fn lemma_evict_used_le(blocks: Map<u64, CachedBlock>, lru: Seq<u64>, used: nat, size: nat, max: nat)
    ensures
        evict_spec(blocks, lru, used, size, max).2 <= used,
    decreases lru.len(),
{
    if used + size > max && lru.len() > 0 {
        let old = lru[0];
        if blocks.contains_key(old) {
            let len = blocks[old].block.code_len as nat;
            let used2 = if used >= len {
                (used - len) as nat
            } else {
                0
            };
            lemma_evict_used_le(blocks.remove(old), lru.drop_first(), used2, size, max);
        } else {
            lemma_evict_used_le(blocks, lru.drop_first(), used, size, max);
        }
    }
}

impl CodeCache {
    pub fn new(max_bytes: usize) -> (r: CodeCache)
        ensures
            r@.blocks == Map::<u64, CachedBlock>::empty(),
            r@.lru == Seq::<u64>::empty(),
            r@.max_bytes == max_bytes,
            r@.used_bytes == 0,
    {
        CodeCache { blocks: HashMap::new(), lru: VecDeque::new(), max_bytes, used_bytes: 0 }
    }

    /// The bytes counted as in use.
    pub fn used_bytes(&self) -> (r: usize)
        ensures
            r == self@.used_bytes,
    {
        self.used_bytes
    }

    pub fn lookup(&self, pc: u64) -> (r: Option<&CompiledBlock>)
        ensures
            r is Some <==> self@.blocks.contains_key(pc),
            r matches Some(b) ==> *b == self@.blocks[pc].block,
    {
        match self.blocks.get(&pc) {
            Some(c) => Some(&c.block),
            None => None,
        }
    }

    /// Marks `pc` as most recently used.
    pub fn touch(&mut self, pc: u64)
        ensures
            final(self)@.lru == touch_spec(old(self)@.lru, pc),
            final(self)@.blocks == old(self)@.blocks,
            final(self)@.max_bytes == old(self)@.max_bytes,
            final(self)@.used_bytes == old(self)@.used_bytes,
    {
        let mut i: usize = 0;
        while i < self.lru.len()
            invariant
                i <= self.lru@.len(),
                self@ == old(self)@,
                forall|j: int| 0 <= j < i ==> self.lru@[j] != pc,
            decreases self.lru.len() - i,
        {
            if self.lru[i] == pc {
                proof {
                    let lru = old(self)@.lru;
                    lru.index_of_first_ensures(pc);
                    assert(lru.contains(pc));
                    let k = lru.index_of_first(pc)->0;
                    if k < i {
                    } else if k > i {
                        assert(lru[i as int] == pc);
                    }
                    assert(k == i);
                }
                self.lru.remove(i);
                self.lru.push_back(pc);
                return;
            }
            i = i + 1;
        }
        proof {
            let lru = old(self)@.lru;
            lru.index_of_first_ensures(pc);
            if lru.contains(pc) {
                let k = choose|k: int| 0 <= k < lru.len() && lru[k] == pc;
                assert(self.lru@[k] != pc);
            }
        }
    }

    /// Inserts `block` for `pc`, evicting least recently used blocks first while
    /// the budget would be exceeded. Returns the blocks that left the cache (the
    /// evicted ones, then the one replaced for `pc`), for their code to be freed.
    pub fn insert(&mut self, guest_pc: u64, guest_end: u64, block: CompiledBlock) -> (released: Vec<CompiledBlock>)
        requires
            old(self)@.used_bytes + block.code_len <= usize::MAX,
        ensures
            final(self)@ == insert_spec(old(self)@, guest_pc, guest_end, block),
            released@ == insert_released(old(self)@, guest_pc, block),
    {
        let size = block.code_len;
        let mut released: Vec<CompiledBlock> = Vec::new();
        let ghost start = self@;
        while self.used_bytes + size > self.max_bytes && self.lru.len() > 0
            invariant
                self.used_bytes + size <= usize::MAX,
                self@.max_bytes == start.max_bytes,
                ({
                    let r = evict_spec(start.blocks, start.lru, start.used_bytes, size as nat, start.max_bytes);
                    let now = evict_spec(self@.blocks, self@.lru, self@.used_bytes, size as nat, self@.max_bytes);
                    &&& now.0 == r.0
                    &&& now.1 == r.1
                    &&& now.2 == r.2
                    &&& released@ + now.3 == r.3
                }),
            decreases self.lru.len(),
        {
            let ghost before = self@;
            let ghost rel0 = released@;
            let old = self.lru.pop_front();
            if let Some(old) = old {
                assert(old == before.lru[0]);
                assert(self@.lru =~= before.lru.drop_first());
                match self.blocks.remove(&old) {
                    Some(ev) => {
                        assert(before.blocks.contains_key(old));
                        assert(ev == before.blocks[old]);
                        assert(self@.blocks == before.blocks.remove(old));
                        self.used_bytes = self.used_bytes.saturating_sub(ev.block.code_len);
                        released.push(ev.block);
                        proof {
                            let now = evict_spec(self@.blocks, self@.lru, self@.used_bytes, size as nat, self@.max_bytes);
                            let r0 = evict_spec(before.blocks, before.lru, before.used_bytes, size as nat, before.max_bytes);
                            assert(r0 == (now.0, now.1, now.2, seq![ev.block] + now.3));
                            assert(released@ + now.3 =~= rel0 + (seq![ev.block] + now.3));
                        }
                    },
                    None => {
                        assert(!before.blocks.contains_key(old));
                        assert(self@.blocks == before.blocks);
                    },
                }
            }
        }
        let ghost ev = evict_spec(start.blocks, start.lru, start.used_bytes, size as nat, start.max_bytes);
        assert(released@ =~= ev.3);
        proof {
            lemma_evict_used_le(start.blocks, start.lru, start.used_bytes, size as nat, start.max_bytes);
        }
        self.used_bytes = self.used_bytes + size;
        self.lru.push_back(guest_pc);
        let replaced = self.blocks.insert(guest_pc, CachedBlock { block, guest_end });
        if let Some(c) = replaced {
            released.push(c.block);
        }
        released
    }
}

/// A block just inserted is what a lookup of its pc finds, and it is the most
/// recently used entry.
pub proof fn lemma_insert_then_lookup(c: CacheView, pc: u64, end: u64, block: CompiledBlock)
    ensures
        insert_spec(c, pc, end, block).blocks.contains_key(pc),
        insert_spec(c, pc, end, block).blocks[pc].block == block,
        insert_spec(c, pc, end, block).lru.last() == pc,
{
}

/// Inserting never brings back a block that was not cached: every pc cached
/// afterwards is the inserted one or was cached before, with the same block.
pub proof fn lemma_insert_keeps_or_drops(c: CacheView, pc: u64, end: u64, block: CompiledBlock, q: u64)
    requires
        q != pc,
        insert_spec(c, pc, end, block).blocks.contains_key(q),
    ensures
        c.blocks.contains_key(q),
        insert_spec(c, pc, end, block).blocks[q] == c.blocks[q],
{
    lemma_evict_subset(c.blocks, c.lru, c.used_bytes, block.code_len as nat, c.max_bytes, q);
}

proof fn lemma_evict_subset(blocks: Map<u64, CachedBlock>, lru: Seq<u64>, used: nat, size: nat, max: nat, q: u64)
    requires
        evict_spec(blocks, lru, used, size, max).0.contains_key(q),
    ensures
        blocks.contains_key(q),
        evict_spec(blocks, lru, used, size, max).0[q] == blocks[q],
    decreases lru.len(),
{
    if used + size > max && lru.len() > 0 {
        let old = lru[0];
        if blocks.contains_key(old) {
            let len = blocks[old].block.code_len as nat;
            let used2 = if used >= len {
                (used - len) as nat
            } else {
                0
            };
            lemma_evict_subset(blocks.remove(old), lru.drop_first(), used2, size, max, q);
        } else {
            lemma_evict_subset(blocks, lru.drop_first(), used, size, max, q);
        }
    }
}

/// Touching changes only the recency order: `pc`, if listed, becomes most recent.
pub proof fn lemma_touch_moves_to_end(lru: Seq<u64>, pc: u64)
    requires
        lru.contains(pc),
    ensures
        touch_spec(lru, pc).last() == pc,
        touch_spec(lru, pc).len() == lru.len(),
{
    lru.index_of_first_ensures(pc);
}

} // verus!
