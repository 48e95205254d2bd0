# vasjit

A JIT front half for two guests, PowerPC "Broadway" (big-endian) and ARMv8-A
(little-endian), verified with Verus. Guest words are decoded and lowered into
one universal IR, optimised block by block, given registers by linear scan and
flattened into the fixed-size C payload a native x86-64 emitter consumes.

Library (`src/`, all verified):

- `frontend/` — both guests' decoders, the PowerPC encoders used by tests, and
  lowering into the IR (`Frontend` trait).
- `ir` — the IR, the block builder and its register caches.
- `passes` — constant folding with propagation, dead-code elimination.
- `regalloc` — live intervals and linear scan over thirteen host registers.
- `jit_ffi`, `ffi` — the flat payload and its marshalling.
- `cache` — compiled blocks by guest pc with LRU eviction under a byte budget.
- `translate` — one guest block from its bytes to optimised IR and an allocation.
- `memory` — guest address arithmetic over the host mapping.
- `gpu/` — frame summaries from Hollywood BP writes and Maxwell command streams.
- `unified/` — the unified core: its IR, constant folding, redundant-load and
  dead-flag elimination, linear scan with guest-state spill slots, the payload,
  the code cache with per-page invalidation, and the guest contract.

`app/` holds what runs around the library: the command line, the native
emitter's C interface, guest memory mapping and the dispatch loop.
