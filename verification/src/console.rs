//! The levels of the messages that the kernel logs.

use vstd::prelude::*;

verus! {

/// How much a message matters; the console shows the messages up to a
/// level.
#[derive(Copy, Clone, Debug, PartialEq, Eq, Structural)]
pub enum LOG {
    /// Nothing is shown.
    DISABLE,
    ERROR,
    WARN,
    INFO,
    DEBUG,
    TRACE,
}

impl LOG {
    /// The number of the level: -1 for [`LOG::DISABLE`], then 0 to 4 from
    /// errors to traces.
    pub open spec fn rank(self) -> int {
        match self {
            LOG::DISABLE => -1,
            LOG::ERROR => 0,
            LOG::WARN => 1,
            LOG::INFO => 2,
            LOG::DEBUG => 3,
            LOG::TRACE => 4,
        }
    }

    /// The number of the level.
    pub fn level(&self) -> (r: i32)
        ensures
            r == self.rank(),
    {
        match self {
            LOG::DISABLE => -1,
            LOG::ERROR => 0,
            LOG::WARN => 1,
            LOG::INFO => 2,
            LOG::DEBUG => 3,
            LOG::TRACE => 4,
        }
    }

    /// Whether a message of this level is shown by a console that shows
    /// the messages up to the level `max`.
    pub fn shown_at(&self, max: LOG) -> (r: bool)
        ensures
            r == (self.rank() <= max.rank()),
    {
        self.level() <= max.level()
    }
}

/// The level up to which the console shows messages: all of them.
pub fn log_level() -> (r: LOG)
    ensures
        r == LOG::TRACE,
{
    LOG::TRACE
}

} // verus!
