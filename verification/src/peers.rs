use vstd::prelude::*;

verus! {

/// Identifier of a federation member: a small integer in `[0, n)` for a
/// federation of `n` peers, totally ordered by its numeric value.
#[derive(Clone, Copy, Debug, PartialEq, Eq, Structural, Hash)]
pub struct PeerId(pub u16);

/// `f`: the largest number of Byzantine peers a federation of `total_peers`
/// members tolerates, `(total_peers - 1) / 3`.
pub open spec fn spec_max_evil(total_peers: int) -> int {
    (total_peers - 1) / 3
}

/// `n - f`: the number of peers that are honest for certain.
pub open spec fn spec_honest_threshold(total_peers: int) -> int {
    total_peers - spec_max_evil(total_peers)
}

/// The error budget: one more response than the faulty peers could produce,
/// so at least one honest peer is among them.
pub open spec fn spec_error_threshold(total_peers: int) -> int {
    spec_max_evil(total_peers) + 1
}

/// The largest number of Byzantine peers tolerated among `total_peers`.
pub fn max_evil(total_peers: usize) -> (f: usize)
    requires
        total_peers >= 1,
    ensures
        f == spec_max_evil(total_peers as int),
        f < total_peers,
{
    (total_peers - 1) / 3
}

} // verus!
