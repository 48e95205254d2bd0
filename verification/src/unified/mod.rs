//! The unified emulation core: one IR shared by both guests, the three
//! intra-block passes, linear-scan allocation with spill slots in guest state,
//! the flat C payload handed to the native emitter, the code cache with
//! per-page invalidation, and the guest frontend contract.
pub mod ctypes;
pub mod ir;
pub mod passes;
pub mod regalloc;
pub mod jit_ffi;
pub mod cache;
pub mod frontend;
pub mod gpu;
