//! Verified core of a blockchain puzzle/gaming platform: a fungible reward
//! token, tiered staking, an energy economy, leaderboards, a time-attack
//! board, a cross-chain asset bridge, guilds, tournaments, achievement
//! minting and puzzle verification.
//!
//! Each contract is modelled as a self-contained state machine owned by a
//! struct. The host environment (ledger storage, clock, caller
//! authentication, event sink) stays outside: entry points receive the
//! authenticated caller address and the current ledger timestamp as plain
//! values, and cross-contract token movements act on a token ledger passed
//! in by the caller.
use vstd::prelude::*;

pub mod token;
pub mod staking;
pub mod energy;
pub mod leaderboard;
pub mod time_attack;
pub mod bridge;
pub mod guild;
pub mod tournament;
pub mod achievement;
pub mod puzzle;

verus! {

/// A ledger account identifier. The host maps real chain addresses to these
/// values one-to-one; the contract logic only ever compares them.
pub type Address = u64;

/// Seconds elapsed from `then` to `now`, saturating at zero on clock
/// anomalies; the host clock is monotonically non-decreasing, so the
/// saturation is a defensive measure only.
pub open spec fn elapsed_since(now: u64, then: u64) -> int {
    if now >= then {
        now - then
    } else {
        0
    }
}

/// Big-endian bytes of a 32-bit value, most significant first.
pub open spec fn spec_be_u32(x: u32) -> Seq<u8> {
    seq![
        ((x as int) / 0x100_0000 % 256) as u8,
        ((x as int) / 0x1_0000 % 256) as u8,
        ((x as int) / 0x100 % 256) as u8,
        ((x as int) % 256) as u8,
    ]
}

/// Big-endian bytes of a 64-bit value, most significant first.
pub open spec fn spec_be_u64(x: u64) -> Seq<u8> {
    spec_be_u32((x as int / 0x1_0000_0000) as u32) + spec_be_u32((x as int % 0x1_0000_0000) as u32)
}

/// Big-endian bytes of a 128-bit value, most significant first.
pub open spec fn spec_be_u128(x: u128) -> Seq<u8> {
    spec_be_u64((x as int / 0x1_0000_0000_0000_0000) as u64) + spec_be_u64(
        (x as int % 0x1_0000_0000_0000_0000) as u64,
    )
}

/// Appends the 4 big-endian bytes of `x`.
pub fn push_be_u32(out: &mut Vec<u8>, x: u32)
    ensures
        final(out)@ == old(out)@ + spec_be_u32(x),
{
    out.push((x / 0x100_0000 % 256) as u8);
    out.push((x / 0x1_0000 % 256) as u8);
    out.push((x / 0x100 % 256) as u8);
    out.push((x % 256) as u8);
    proof {
        assert(final(out)@ =~= old(out)@ + spec_be_u32(x));
    }
}

/// Appends the 8 big-endian bytes of `x`.
pub fn push_be_u64(out: &mut Vec<u8>, x: u64)
    ensures
        final(out)@ == old(out)@ + spec_be_u64(x),
{
    push_be_u32(out, (x / 0x1_0000_0000) as u32);
    push_be_u32(out, (x % 0x1_0000_0000) as u32);
    proof {
        assert(final(out)@ =~= old(out)@ + spec_be_u64(x));
    }
}

/// Appends the 16 big-endian bytes of `x`.
pub fn push_be_u128(out: &mut Vec<u8>, x: u128)
    ensures
        final(out)@ == old(out)@ + spec_be_u128(x),
{
    push_be_u64(out, (x / 0x1_0000_0000_0000_0000) as u64);
    push_be_u64(out, (x % 0x1_0000_0000_0000_0000) as u64);
    proof {
        assert(final(out)@ =~= old(out)@ + spec_be_u128(x));
    }
}

/// The 128-bit two's-complement bit pattern of a signed value.
pub open spec fn spec_i128_bits(x: i128) -> u128 {
    if x >= 0 {
        x as u128
    } else {
        (x + 0x1_0000_0000_0000_0000_0000_0000_0000_0000) as u128
    }
}

/// The signed value of a 128-bit two's-complement bit pattern.
pub open spec fn spec_i128_of_bits(v: u128) -> i128 {
    if v <= i128::MAX {
        v as i128
    } else {
        (v - 0x1_0000_0000_0000_0000_0000_0000_0000_0000) as i128
    }
}

/// Appends the 16 big-endian two's-complement bytes of `x`.
pub fn push_be_i128(out: &mut Vec<u8>, x: i128)
    ensures
        final(out)@ == old(out)@ + spec_be_u128(spec_i128_bits(x)),
{
    let bits: u128 = if x >= 0 {
        x as u128
    } else {
        u128::MAX - ((-(x + 1)) as u128)
    };
    push_be_u128(out, bits);
}

/// Whether two 32-byte values hold the same bytes.
pub fn bytes32_eq(a: &[u8; 32], b: &[u8; 32]) -> (r: bool)
    ensures
        r == (a@ == b@),
{
    let mut i: usize = 0;
    while i < 32
        invariant
            i <= 32,
            forall|j: int| 0 <= j < i ==> a@[j] == b@[j],
        decreases 32 - i,
    {
        if a[i] != b[i] {
            return false;
        }
        i = i + 1;
    }
    proof {
        assert(a@ =~= b@);
    }
    true
}

} // verus!
