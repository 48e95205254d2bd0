//! Generic frame model shared by the Hollywood and Maxwell command decoders.
pub mod hollywood;
pub mod maxwell;

use vstd::prelude::*;

verus! {

pub struct GenericFrame {
    pub width: u32,
    pub height: u32,
    pub draws: usize,
}

impl GenericFrame {
    pub fn empty() -> (r: GenericFrame)
        ensures
            r.width == 0 && r.height == 0 && r.draws == 0,
    {
        GenericFrame { width: 0, height: 0, draws: 0 }
    }
}

} // verus!
