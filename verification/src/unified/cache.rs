//! The unified core's code cache: compiled blocks by guest pc, a byte count,
//! and a reverse map from guest page to the pcs of the blocks compiled from it, so
//! that a write to a page invalidates every block read from it.
use crate::ffi::CPatchSite;
use crate::unified::jit_ffi::CompiledBlock;
use std::collections::HashMap;
use vstd::prelude::*;
use vstd::std_specs::hash::group_hash_axioms;

verus! {

broadcast use group_hash_axioms;

pub struct CodeCache {
    by_pc: HashMap<u64, CompiledBlock>,
    page_to_blocks: HashMap<u64, Vec<u64>>,
    max_bytes: usize,
    current_bytes: usize,
}

/// The cache as maps from guest pc to block and from guest page to block
/// pcs, the byte budget and the bytes counted as in use.
pub struct CacheView {
    pub blocks: Map<u64, CompiledBlock>,
    pub pages: Map<u64, Seq<u64>>,
    pub max_bytes: nat,
    pub current_bytes: nat,
}

impl View for CodeCache {
    type V = CacheView;

    closed spec fn view(&self) -> CacheView {
        CacheView {
            blocks: self.by_pc@,
            pages: self.page_to_blocks@.map_values(|v: Vec<u64>| v@),
            max_bytes: self.max_bytes as nat,
            current_bytes: self.current_bytes as nat,
        }
    }
}

/// Dropping the blocks of the first `n` pcs: the blocks left, the byte count
/// after subtracting each dropped block's length, and the dropped blocks in order.
pub open spec fn drop_pcs(blocks: Map<u64, CompiledBlock>, bytes: int, pcs: Seq<u64>, n: nat) -> (
    Map<u64, CompiledBlock>,
    int,
    Seq<CompiledBlock>,
)
    decreases n,
{
    if n == 0 {
        (blocks, bytes, Seq::empty())
    } else {
        let (b, by, out) = drop_pcs(blocks, bytes, pcs, (n - 1) as nat);
        let pc = pcs[n - 1];
        if b.contains_key(pc) {
            (b.remove(pc), by - b[pc].code_len, out.push(b[pc]))
        } else {
            (b, by, out)
        }
    }
}

/// The cache after a write to `page`, and the blocks it releases: the page's
/// entry leaves the reverse map and each of its pcs' blocks leaves the cache.
pub open spec fn invalidated(c: CacheView, page: u64) -> (CacheView, Seq<CompiledBlock>) {
    if c.pages.contains_key(page) {
        let pcs = c.pages[page];
        let (b, by, out) = drop_pcs(c.blocks, c.current_bytes as int, pcs, pcs.len());
        (CacheView { blocks: b, pages: c.pages.remove(page), max_bytes: c.max_bytes, current_bytes: by as nat }, out)
    } else {
        (c, Seq::empty())
    }
}

/// The total code length of some blocks.
pub open spec fn total_len(s: Seq<CompiledBlock>) -> int
    decreases s.len(),
{
    if s.len() == 0 {
        0
    } else {
        total_len(s.drop_last()) + s.last().code_len
    }
}

proof fn lemma_drop_total(blocks: Map<u64, CompiledBlock>, bytes: int, pcs: Seq<u64>, n: nat)
    requires
        n <= pcs.len(),
    ensures
        drop_pcs(blocks, bytes, pcs, n).1 == bytes - total_len(drop_pcs(blocks, bytes, pcs, n).2),
    decreases n,
{
    if n > 0 {
        lemma_drop_total(blocks, bytes, pcs, (n - 1) as nat);
        let (b, by, out) = drop_pcs(blocks, bytes, pcs, (n - 1) as nat);
        let pc = pcs[n - 1];
        if b.contains_key(pc) {
            assert(out.push(b[pc]).drop_last() =~= out);
        }
    }
}

/// The chaining of a block's exits, over its first `n` exits: in exit order,
/// each exit whose target pc has a compiled block, with that block's entry.
pub open spec fn chain_prefix(blocks: Map<u64, CompiledBlock>, targets: Seq<u64>, n: nat) -> Seq<(usize, usize)>
    decreases n,
{
    if n == 0 {
        Seq::empty()
    } else {
        let rest = chain_prefix(blocks, targets, (n - 1) as nat);
        let t = targets[n - 1];
        if blocks.contains_key(t) {
            rest.push(((n - 1) as usize, blocks[t].code_ptr))
        } else {
            rest
        }
    }
}

/// The target guest pcs of a block's patchable exits, in order.
pub open spec fn exit_targets(block: CompiledBlock) -> Seq<u64> {
    block.patchable_exits@.map_values(|s: CPatchSite| s.target_guest_pc)
}

/// The byte count covers the blocks: dropping the blocks of any list of pcs,
/// each subtracting its length, never takes the count below zero.
pub open spec fn covers(blocks: Map<u64, CompiledBlock>, bytes: int) -> bool {
    forall|pcs: Seq<u64>| #[trigger] drop_pcs(blocks, bytes, pcs, pcs.len()).1 >= 0
}

proof fn lemma_drop_empty(bytes: int, pcs: Seq<u64>, n: nat)
    requires
        n <= pcs.len(),
    ensures
        drop_pcs(Map::empty(), bytes, pcs, n).0 == Map::<u64, CompiledBlock>::empty(),
        drop_pcs(Map::empty(), bytes, pcs, n).1 == bytes,
    decreases n,
{
    if n > 0 {
        lemma_drop_empty(bytes, pcs, (n - 1) as nat);
    }
}

proof fn lemma_drop_same_prefix(blocks: Map<u64, CompiledBlock>, bytes: int, s1: Seq<u64>, s2: Seq<u64>, n: nat)
    requires
        n <= s1.len(),
        n <= s2.len(),
        forall|i: int| 0 <= i < n ==> s1[i] == s2[i],
    ensures
        drop_pcs(blocks, bytes, s1, n) == drop_pcs(blocks, bytes, s2, n),
    decreases n,
{
    if n > 0 {
        lemma_drop_same_prefix(blocks, bytes, s1, s2, (n - 1) as nat);
    }
}

/// Dropping `p` and then the first `n` of `q` is dropping the first `p.len() + n` of `p + q`.
proof fn lemma_drop_concat(blocks: Map<u64, CompiledBlock>, bytes: int, p: Seq<u64>, q: Seq<u64>, n: nat)
    requires
        n <= q.len(),
    ensures
        ({
            let (b, by, _) = drop_pcs(blocks, bytes, p, p.len());
            &&& drop_pcs(blocks, bytes, p + q, p.len() + n).0 == drop_pcs(b, by, q, n).0
            &&& drop_pcs(blocks, bytes, p + q, p.len() + n).1 == drop_pcs(b, by, q, n).1
        }),
    decreases n,
{
    if n == 0 {
        lemma_drop_same_prefix(blocks, bytes, p + q, p, p.len());
    } else {
        lemma_drop_concat(blocks, bytes, p, q, (n - 1) as nat);
        assert((p + q)[p.len() + n - 1] == q[n - 1]);
    }
}

/// Putting `block` at `pc` and counting its bytes keeps any list of drops at
/// least as high as before.
proof fn lemma_drop_insert(
    blocks: Map<u64, CompiledBlock>,
    bytes: int,
    pc: u64,
    block: CompiledBlock,
    pcs: Seq<u64>,
    n: nat,
)
    requires
        n <= pcs.len(),
    ensures
        ({
            let d = drop_pcs(blocks, bytes, pcs, n);
            let e = drop_pcs(blocks.insert(pc, block), bytes + block.code_len, pcs, n);
            &&& e.1 >= d.1
            &&& !pcs.take(n as int).contains(pc) ==> e.0 == d.0.insert(pc, block) && e.1 == d.1 + block.code_len
            &&& pcs.take(n as int).contains(pc) ==> e.0 == d.0 && !d.0.contains_key(pc)
        }),
    decreases n,
{
    if n > 0 {
        let m = (n - 1) as nat;
        lemma_drop_insert(blocks, bytes, pc, block, pcs, m);
        lemma_drop_pcs_removes(blocks, bytes, pcs, n);
        let d0 = drop_pcs(blocks, bytes, pcs, m);
        let e0 = drop_pcs(blocks.insert(pc, block), bytes + block.code_len, pcs, m);
        let x = pcs[n - 1];
        assert(pcs.take(n as int) =~= pcs.take(m as int).push(x));
        if pcs.take(m as int).contains(pc) {
            assert(pcs.take(n as int).contains(pc));
            let k = choose|k: int| 0 <= k < m && pcs.take(m as int)[k] == pc;
            assert(pcs[k] == pc);
        } else if x == pc {
            assert(pcs.take(n as int)[n - 1] == pc);
            assert(e0.0.remove(pc) =~= d0.0.remove(pc));
            if !d0.0.contains_key(pc) {
                assert(d0.0.remove(pc) =~= d0.0);
            }
        } else {
            assert(!pcs.take(n as int).contains(pc)) by {
                if pcs.take(n as int).contains(pc) {
                    let k = choose|k: int| 0 <= k < n && pcs.take(n as int)[k] == pc;
                    if k < m {
                        assert(pcs.take(m as int)[k] == pc);
                    }
                }
            }
            if d0.0.contains_key(x) {
                assert(d0.0.insert(pc, block).remove(x) =~= d0.0.remove(x).insert(pc, block));
            }
        }
    }
}

proof fn lemma_drop_pcs_decreasing(blocks: Map<u64, CompiledBlock>, bytes: int, pcs: Seq<u64>, m: nat, n: nat)
    requires
        m <= n <= pcs.len(),
    ensures
        drop_pcs(blocks, bytes, pcs, n).1 <= drop_pcs(blocks, bytes, pcs, m).1,
    decreases n - m,
{
    if m < n {
        lemma_drop_pcs_decreasing(blocks, bytes, pcs, m, (n - 1) as nat);
    }
}

impl CodeCache {
    #[verifier::type_invariant]
    spec fn counted(self) -> bool {
        covers(self.by_pc@, self.current_bytes as int)
    }

    pub fn new(max_bytes: usize) -> (r: CodeCache)
        ensures
            r@.blocks == Map::<u64, CompiledBlock>::empty(),
            r@.pages == Map::<u64, Seq<u64>>::empty(),
            r@.max_bytes == max_bytes,
            r@.current_bytes == 0,
    {
        let by_pc: HashMap<u64, CompiledBlock> = HashMap::new();
        proof {
            assert forall|pcs: Seq<u64>| #[trigger] drop_pcs(by_pc@, 0, pcs, pcs.len()).1 >= 0 by {
                lemma_drop_empty(0, pcs, pcs.len());
            }
        }
        let r = CodeCache { by_pc, page_to_blocks: HashMap::new(), max_bytes, current_bytes: 0 };
        assert(r@.pages =~= Map::<u64, Seq<u64>>::empty());
        r
    }

    /// The block compiled for `guest_pc`, if any.
    pub fn lookup(&self, guest_pc: u64) -> (r: Option<&CompiledBlock>)
        ensures
            match r {
                Some(b) => self@.blocks.contains_key(guest_pc) && *b == self@.blocks[guest_pc],
                None => !self@.blocks.contains_key(guest_pc),
            },
    {
        self.by_pc.get(&guest_pc)
    }

    /// Maps `guest_pc` to `block` and counts its bytes. A block it replaces is
    /// handed back, still counted, for its code to be released.
    pub fn insert(&mut self, guest_pc: u64, block: CompiledBlock) -> (r: Option<CompiledBlock>)
        requires
            old(self)@.current_bytes + block.code_len <= usize::MAX,
        ensures
            final(self)@.blocks == old(self)@.blocks.insert(guest_pc, block),
            final(self)@.pages == old(self)@.pages,
            final(self)@.max_bytes == old(self)@.max_bytes,
            final(self)@.current_bytes == old(self)@.current_bytes + block.code_len,
            r == (if old(self)@.blocks.contains_key(guest_pc) {
                Some(old(self)@.blocks[guest_pc])
            } else {
                None
            }),
    {
        proof {
            use_type_invariant(&*self);
            let c = self@;
            assert forall|pcs: Seq<u64>| #[trigger] drop_pcs(Map::empty(), c.current_bytes as int, pcs, pcs.len()).1 >= 0 by {
                lemma_drop_empty(c.current_bytes as int, pcs, pcs.len());
            }
            assert forall|pcs: Seq<u64>| #[trigger] drop_pcs(Map::empty(), c.current_bytes + block.code_len, pcs, pcs.len()).1
                >= 0 by {
                lemma_drop_empty(c.current_bytes + block.code_len, pcs, pcs.len());
            }
            assert forall|pcs: Seq<u64>| #[trigger] drop_pcs(
                c.blocks.insert(guest_pc, block),
                c.current_bytes + block.code_len,
                pcs,
                pcs.len(),
            ).1 >= 0 by {
                lemma_drop_insert(c.blocks, c.current_bytes as int, guest_pc, block, pcs, pcs.len());
                assert(drop_pcs(c.blocks, c.current_bytes as int, pcs, pcs.len()).1 >= 0);
            }
        }
        let ghost c = self@;
        let len = block.code_len;
        let mut by_pc: HashMap<u64, CompiledBlock> = HashMap::new();
        assert(covers(by_pc@, self.current_bytes as int));
        std::mem::swap(&mut by_pc, &mut self.by_pc);
        let replaced = by_pc.insert(guest_pc, block);
        assert(covers(Map::empty(), c.current_bytes + len));
        self.current_bytes = self.current_bytes + len;
        assert(by_pc@ == c.blocks.insert(guest_pc, block));
        assert(covers(by_pc@, self.current_bytes as int));
        self.by_pc = by_pc;
        replaced
    }

    /// Which exits of the block at `guest_pc` can be chained now: in exit
    /// order, each exit whose target pc is already compiled, as the exit's
    /// index and the target block's entry. Nothing when `guest_pc` is not cached.
    pub fn chain_plan(&self, guest_pc: u64) -> (r: Vec<(usize, usize)>)
        ensures
            r@ == (if self@.blocks.contains_key(guest_pc) {
                let targets = exit_targets(self@.blocks[guest_pc]);
                chain_prefix(self@.blocks, targets, targets.len())
            } else {
                Seq::empty()
            }),
    {
        let mut plan: Vec<(usize, usize)> = Vec::new();
        match self.by_pc.get(&guest_pc) {
            None => {},
            Some(from) => {
                let ghost targets = exit_targets(*from);
                let mut i: usize = 0;
                while i < from.patchable_exits.len()
                    invariant
                        i <= from.patchable_exits@.len(),
                        targets == exit_targets(*from),
                        plan@ == chain_prefix(self@.blocks, targets, i as nat),
                    decreases from.patchable_exits.len() - i,
                {
                    let target_pc = from.patchable_exits[i].target_guest_pc;
                    if let Some(target) = self.by_pc.get(&target_pc) {
                        plan.push((i, target.code_ptr));
                    }
                    i = i + 1;
                }
            },
        }
        plan
    }

    /// Invalidates every block compiled from `guest_page` and hands the
    /// released blocks back, in the order the page lists them.
    pub fn invalidate_page(&mut self, guest_page: u64) -> (r: Vec<CompiledBlock>)
        ensures
            (final(self)@, r@) == invalidated(old(self)@, guest_page),
            final(self)@.current_bytes + total_len(r@) == old(self)@.current_bytes,
    {
        proof {
            use_type_invariant(&*self);
        }
        let mut released: Vec<CompiledBlock> = Vec::new();
        let ghost c0 = self@;
        assert(covers(c0.blocks, c0.current_bytes as int));
        let mut pages: HashMap<u64, Vec<u64>> = HashMap::new();
        assert(covers(self.by_pc@, self.current_bytes as int));
        std::mem::swap(&mut pages, &mut self.page_to_blocks);
        let found = pages.remove(&guest_page);
        self.page_to_blocks = pages;
        if let Some(pcs) = found {
            let ghost seq = pcs@;
            assert(c0.pages[guest_page] == seq);
            assert(drop_pcs(c0.blocks, c0.current_bytes as int, seq, seq.len()).1 >= 0);
            let mut blocks: HashMap<u64, CompiledBlock> = HashMap::new();
            let mut bytes = self.current_bytes;
            proof {
                assert forall|q: Seq<u64>| #[trigger] drop_pcs(Map::empty(), bytes as int, q, q.len()).1 >= 0 by {
                    lemma_drop_empty(bytes as int, q, q.len());
                }
            }
            assert(covers(blocks@, self.current_bytes as int));
            std::mem::swap(&mut blocks, &mut self.by_pc);
            let mut i: usize = 0;
            while i < pcs.len()
                invariant
                    i <= pcs@.len(),
                    pcs@ == seq,
                    drop_pcs(c0.blocks, c0.current_bytes as int, seq, seq.len()).1 >= 0,
                    ({
                        let (b, by, out) = drop_pcs(c0.blocks, c0.current_bytes as int, seq, i as nat);
                        &&& blocks@ == b
                        &&& bytes as int == by
                        &&& released@ == out
                    }),
                decreases pcs.len() - i,
            {
                let pc = pcs[i];
                proof {
                    lemma_drop_pcs_decreasing(c0.blocks, c0.current_bytes as int, seq, (i + 1) as nat, seq.len());
                }
                if let Some(b) = blocks.remove(&pc) {
                    bytes = bytes - b.code_len;
                    released.push(b);
                }
                i = i + 1;
            }
            proof {
                assert(seq.len() == i);
                lemma_drop_total(c0.blocks, c0.current_bytes as int, seq, seq.len());
                assert forall|q: Seq<u64>| #[trigger] drop_pcs(Map::empty(), bytes as int, q, q.len()).1 >= 0 by {
                    lemma_drop_empty(bytes as int, q, q.len());
                }
                assert forall|q: Seq<u64>| #[trigger] drop_pcs(blocks@, bytes as int, q, q.len()).1 >= 0 by {
                    lemma_drop_concat(c0.blocks, c0.current_bytes as int, seq, q, q.len());
                    assert(drop_pcs(c0.blocks, c0.current_bytes as int, seq + q, (seq + q).len()).1 >= 0);
                }
            }
            assert(covers(Map::empty(), bytes as int));
            self.current_bytes = bytes;
            assert(covers(blocks@, self.current_bytes as int));
            self.by_pc = blocks;
            proof {
                assert(self@.pages =~= c0.pages.remove(guest_page));
            }
        } else {
            proof {
                assert(self.page_to_blocks@ =~= old(self).page_to_blocks@);
                assert(self@.pages =~= c0.pages);
            }
        }
        released
    }
}

proof fn lemma_drop_pcs_removes(blocks: Map<u64, CompiledBlock>, bytes: int, pcs: Seq<u64>, n: nat)
    requires
        n <= pcs.len(),
    ensures
        forall|i: int| 0 <= i < n ==> !(#[trigger] drop_pcs(blocks, bytes, pcs, n).0.contains_key(pcs[i])),
        forall|pc: u64| #[trigger] drop_pcs(blocks, bytes, pcs, n).0.contains_key(pc) ==> blocks.contains_key(pc)
            && drop_pcs(blocks, bytes, pcs, n).0[pc] == blocks[pc],
        forall|pc: u64| blocks.contains_key(pc) && !pcs.take(n as int).contains(pc) ==> #[trigger] drop_pcs(blocks, bytes, pcs, n).0.contains_key(pc),
    decreases n,
{
    if n > 0 {
        lemma_drop_pcs_removes(blocks, bytes, pcs, (n - 1) as nat);
        let (b0, by0, out0) = drop_pcs(blocks, bytes, pcs, (n - 1) as nat);
        let last = pcs[n - 1];
        let b1 = drop_pcs(blocks, bytes, pcs, n).0;
        assert(b1 == (if b0.contains_key(last) { b0.remove(last) } else { b0 }));
        assert forall|i: int| 0 <= i < n implies !(#[trigger] drop_pcs(blocks, bytes, pcs, n).0.contains_key(pcs[i])) by {
            if i < n - 1 {
                assert(!b0.contains_key(pcs[i]));
            }
        }
        assert forall|pc: u64| #[trigger] drop_pcs(blocks, bytes, pcs, n).0.contains_key(pc) implies blocks.contains_key(pc)
            && drop_pcs(blocks, bytes, pcs, n).0[pc] == blocks[pc] by {
            assert(b0.contains_key(pc));
        }
        assert forall|pc: u64| blocks.contains_key(pc) && !pcs.take(n as int).contains(pc) implies #[trigger] drop_pcs(
            blocks,
            bytes,
            pcs,
            n,
        ).0.contains_key(pc) by {
            if pcs.take(n - 1).contains(pc) {
                let k = choose|k: int| 0 <= k < n - 1 && #[trigger] pcs.take(n - 1)[k] == pc;
                assert(pcs.take(n as int)[k] == pc);
            }
            assert(pcs.take(n as int)[n - 1] == last);
            assert(pc != last);
            assert(b0.contains_key(pc));
        }
    }
}

/// After a write to a page, no block the page lists is left in the cache,
/// every other block stays as it was, and a second write to the page changes
/// nothing more.
pub proof fn lemma_invalidate_drops_page_blocks(c: CacheView, page: u64)
    ensures
        c.pages.contains_key(page) ==> forall|i: int| 0 <= i < c.pages[page].len() ==> !invalidated(c, page).0.blocks.contains_key(#[trigger] c.pages[page][i]),
        forall|pc: u64| #[trigger] invalidated(c, page).0.blocks.contains_key(pc) ==> c.blocks.contains_key(pc) && invalidated(c, page).0.blocks[pc] == c.blocks[pc],
        forall|pc: u64| c.blocks.contains_key(pc) && !(c.pages.contains_key(page) && c.pages[page].contains(pc)) ==> #[trigger] invalidated(c, page).0.blocks.contains_key(pc),
        !invalidated(c, page).0.pages.contains_key(page),
        invalidated(invalidated(c, page).0, page) == (invalidated(c, page).0, Seq::<CompiledBlock>::empty()),
{
    if c.pages.contains_key(page) {
        let pcs = c.pages[page];
        lemma_drop_pcs_removes(c.blocks, c.current_bytes as int, pcs, pcs.len());
        assert(pcs.take(pcs.len() as int) =~= pcs);
    }
}

} // verus!
