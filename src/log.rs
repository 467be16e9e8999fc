//! Log levels, as the host numbers them.

use vstd::prelude::*;

verus! {

/// Log level.
#[derive(Clone, Copy, Debug, PartialEq, Eq, Hash, Structural)]
pub enum Level {
    Critical,
    Error,
    Warning,
    Info,
    Debug,
}

impl Level {
    /// The number that the host's `log` import takes for this level.
    pub fn code(self) -> (r: u32)
        ensures
            r == match self {
                Level::Critical => 0u32,
                Level::Error => 1u32,
                Level::Warning => 2u32,
                Level::Info => 3u32,
                Level::Debug => 4u32,
            },
    {
        match self {
            Level::Critical => 0,
            Level::Error => 1,
            Level::Warning => 2,
            Level::Info => 3,
            Level::Debug => 4,
        }
    }
}

} // verus!
