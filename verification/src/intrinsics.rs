//! Identifiers of the guest-state intrinsics used by the IR builder and frontends.
use vstd::prelude::*;

verus! {

pub const GET_GPR: u32 = 0;
pub const SET_GPR: u32 = 1;
pub const GET_FPR: u32 = 2;
pub const SET_FPR: u32 = 3;
pub const GET_VEC: u32 = 4;
pub const SET_VEC: u32 = 5;
pub const GET_CR: u32 = 6;
pub const SET_CR: u32 = 7;
pub const GET_LR: u32 = 8;
pub const SET_LR: u32 = 9;
pub const GET_CTR: u32 = 10;
pub const SET_CTR: u32 = 11;
pub const GET_XER: u32 = 12;
pub const SET_XER: u32 = 13;
pub const GET_CR_BIT: u32 = 14;
pub const SET_CR_FIELD: u32 = 15;
pub const SET_PC: u32 = 16;
pub const GET_SPR: u32 = 17;
pub const SET_SPR: u32 = 18;
pub const UNIMPLEMENTED: u32 = 19;

} // verus!
