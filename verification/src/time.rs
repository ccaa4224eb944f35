//! Instants of UTC time, as the engine carries them.

use vstd::prelude::*;

verus! {

/// An instant of UTC time: whole seconds since the Unix epoch and the
/// nanoseconds past them.
#[derive(Clone, Copy, Debug, PartialEq, Eq, Structural)]
pub struct UtcTime {
    pub secs: i64,
    pub nanos: u32,
}

impl UtcTime {
    /// A number that orders instants as seconds first, nanoseconds second.
    pub open spec fn order_key(self) -> int {
        self.secs as int * 0x1_0000_0000 + self.nanos as int
    }

    /// The Unix epoch.
    pub fn epoch() -> (r: UtcTime)
        ensures
            r == (UtcTime { secs: 0, nanos: 0 }),
    {
        UtcTime { secs: 0, nanos: 0 }
    }

    /// The instant `secs` whole seconds after the Unix epoch.
    pub fn from_secs(secs: i64) -> (r: UtcTime)
        ensures
            r == (UtcTime { secs, nanos: 0 }),
    {
        UtcTime { secs, nanos: 0 }
    }

    /// The instant's place in the order of instants.
    pub fn sort_key(&self) -> (k: i128)
        ensures
            k == self.order_key(),
    {
        let secs: i128 = self.secs as i128;
        let nanos: i128 = self.nanos as i128;
        secs * 0x1_0000_0000 + nanos
    }
}

/// Instants are ordered by their keys exactly as by seconds, then nanoseconds.
pub proof fn order_key_is_lexicographic(a: UtcTime, b: UtcTime)
    ensures
        a.order_key() < b.order_key() <==> (a.secs < b.secs || (a.secs == b.secs && a.nanos
            < b.nanos)),
        a.order_key() == b.order_key() <==> a == b,
{
}

} // verus!
