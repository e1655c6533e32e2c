//! What the memory database reports about itself.
use vstd::prelude::*;

verus! {

/// Counts kept by the memory database.
#[derive(Debug, Clone, Copy)]
pub struct MemoryStats {
    pub conversations: usize,
    pub memories: usize,
    pub pending_reminders: usize,
}

impl Default for MemoryStats {
    fn default() -> (s: Self)
        ensures
            s.conversations == 0,
            s.memories == 0,
            s.pending_reminders == 0,
    {
        MemoryStats { conversations: 0, memories: 0, pending_reminders: 0 }
    }
}

} // verus!
