//! VasJIT: guest decoding, the universal IR, its optimisation passes, linear-scan
//! register allocation, the flat C-ABI marshalling and the code cache.
pub mod ffi;
pub mod intrinsics;
pub mod ir;
pub mod frontend;
pub mod passes;
pub mod regalloc;
pub mod jit_ffi;
pub mod cache;
pub mod gpu;
pub mod memory;
pub mod translate;
pub mod unified;

pub use ffi::{CHostCaps};
pub use frontend::wii_ppc as frontend_wii_ppc;
pub use frontend::switch_arm64 as frontend_switch_arm64;
