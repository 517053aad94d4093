//! The free-space guard of a destination volume.

use vstd::prelude::*;

verus! {

/// The bytes that a run needs free: those it writes and the headroom, at most
/// the largest 64-bit number.
pub open spec fn space_needed(bytes: nat, headroom: nat) -> nat {
    if bytes + headroom <= u64::MAX {
        bytes + headroom
    } else {
        u64::MAX as nat
    }
}

/// The bytes that a run needs free.
pub fn needed_space(bytes: u64, headroom: u64) -> (r: u64)
    ensures
        r == space_needed(bytes as nat, headroom as nat),
{
    bytes.saturating_add(headroom)
}

/// True if a volume with `available` bytes free has room for `needed` bytes and
/// the headroom.
pub fn has_room(available: u64, needed: u64, headroom: u64) -> (r: bool)
    ensures
        r == (available >= space_needed(needed as nat, headroom as nat)),
{
    available >= needed_space(needed, headroom)
}

} // verus!
