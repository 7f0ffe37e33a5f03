//! Monotonic timestamps: microseconds since boot, never zero on disk.

use vstd::prelude::*;

verus! {

/// A monotonic timestamp in microseconds.  On Linux the epoch is the
/// start of the system (boot).
#[derive(Debug, Clone, Copy, PartialEq, Eq, Structural)]
pub struct Monotonic(pub u64);

impl Monotonic {
    /// Wrap a monotonic timestamp if it is nonzero.
    pub fn new(ts: u64) -> (r: Option<Monotonic>)
        ensures
            ts == 0 ==> r is None,
            ts != 0 ==> r == Some(Monotonic(ts)),
    {
        if ts == 0 {
            None
        } else {
            Some(Monotonic(ts))
        }
    }

    /// The wallclock microsecond timestamp this monotonic time names,
    /// given the wallclock time of the epoch (boot); saturates at the
    /// largest representable time.
    pub fn to_timestamp(self, epoch: u64) -> (r: u64)
        ensures
            epoch + self.0 <= u64::MAX ==> r == epoch + self.0,
            epoch + self.0 > u64::MAX ==> r == u64::MAX,
    {
        if epoch <= u64::MAX - self.0 {
            epoch + self.0
        } else {
            u64::MAX
        }
    }
}

} // verus!
