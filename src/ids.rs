use vstd::prelude::*;

verus! {

/// Stable identity of one replica in the cluster: the 128 bits of its UUID.
#[derive(Clone, Copy, Debug, PartialEq, Eq, Structural, Hash)]
pub struct ActorId(pub u128);

/// A hybrid logical clock reading: a 64-bit NTP-style time and the
/// identifier of the clock that produced it.
#[derive(Clone, Copy, Debug, PartialEq, Eq, Structural, Hash)]
pub struct Timestamp {
    pub time: u64,
    pub id: u128,
}

} // verus!
