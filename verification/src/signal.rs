//! The pure parts of signal handling: the bit of a signal in a signal set,
//! and the status that a handler installation reports.

use vstd::prelude::*;

verus! {

/// The byte of a signal set that holds the bit of signal `signum`.
pub open spec fn byte_of(signum: i32) -> int {
    (signum - 1) / 8
}

/// The mask of the bit of signal `signum` within its byte.
pub open spec fn mask_of(signum: i32) -> u8 {
    1u8 << (((signum - 1) % 8) as u8)
}

/// Whether the set has a byte for signal `signum`.
pub open spec fn in_set(len: nat, signum: i32) -> bool {
    1 <= signum && byte_of(signum) < len
}

/// Adds signal `signum` to the set, which holds one bit for each signal,
/// eight to a byte, signal 1 first. Returns 0.
pub fn sigaddset(set: &mut Vec<u8>, signum: i32) -> (status: i32)
    requires
        in_set(old(set)@.len(), signum),
    ensures
        status == 0,
        final(set)@ == old(set)@.update(
            byte_of(signum),
            old(set)@[byte_of(signum)] | mask_of(signum),
        ),
{
    let bit: usize = (signum - 1) as usize;
    let shift: u8 = (bit % 8) as u8;
    let index: usize = bit / 8;
    let merged: u8 = set[index] | (1u8 << shift);
    set.set(index, merged);
    0
}

/// A signal that was added to a set is in it, and adding it changed no
/// other bit of its byte.
pub proof fn law_added_signal_is_member(byte: u8, shift: u8)
    requires
        shift < 8,
    ensures
        (byte | (1u8 << shift)) & (1u8 << shift) != 0,
        forall|other: u8|
            other < 8 && other != shift ==> (#[trigger] (1u8 << other)) & (byte | (1u8 << shift))
                == (1u8 << other) & byte,
{
    assert((byte | (1u8 << shift)) & (1u8 << shift) != 0) by (bit_vector)
        requires
            shift < 8,
    ;
    assert forall|other: u8| other < 8 && other != shift implies (#[trigger] (1u8 << other)) & (byte
        | (1u8 << shift)) == (1u8 << other) & byte by {
        assert((1u8 << other) & (byte | (1u8 << shift)) == (1u8 << other) & byte) by (bit_vector)
            requires
                other < 8,
                shift < 8,
                other != shift,
        ;
    }
}

/// The status that installing a handler reports for what the kernel handed
/// back: -1 for an error, which the kernel hands back as a negative number,
/// and 0 else.
pub fn sigaction_status(returned: i32) -> (status: i32)
    ensures
        status == if returned < 0 {
            -1int
        } else {
            0int
        },
{
    if returned < 0 {
        -1
    } else {
        0
    }
}

} // verus!
