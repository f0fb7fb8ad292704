//! The memory accessor's address arithmetic: raw reads and writes target
//! `address + offset` computed in 64-bit wraparound arithmetic, so a negative
//! offset subtracts via two's complement.

use vstd::prelude::*;

verus! {

/// The address a raw read or write actually targets: `address` plus the
/// signed `offset`, modulo 2^64.
pub open spec fn effective_address(address: u64, offset: i32) -> u64 {
    if address + offset > u64::MAX {
        (address + offset - 0x1_0000_0000_0000_0000) as u64
    } else if address + offset < 0 {
        (address + offset + 0x1_0000_0000_0000_0000) as u64
    } else {
        (address + offset) as u64
    }
}

/// Computes the effective target address of a raw memory access.
pub fn compute_effective_address(address: u64, offset: i32) -> (r: u64)
    ensures
        r == effective_address(address, offset),
{
    address.wrapping_add_signed(offset as i64)
}

} // verus!
