//! The unit costs of the estimate, and the costs of the built-in programs.
use crate::address::Address;
use vstd::prelude::*;

verus! {

/// Compute units that take one microsecond to execute, averaged over the
/// cluster.
pub const COMPUTE_UNIT_TO_US_RATIO: u64 = 40;

/// Compute units of one signature verification.
pub const SIGNATURE_COST: u64 = COMPUTE_UNIT_TO_US_RATIO * 175;

/// Compute units of one write lock.
pub const WRITE_LOCK_UNITS: u64 = COMPUTE_UNIT_TO_US_RATIO * 20;

/// Bytes of instruction data that cost one compute unit.
pub const DATA_BYTES_UNITS: u64 = 220 / COMPUTE_UNIT_TO_US_RATIO;

/// `Feature111111111111111111111111111111111111`
pub const FEATURE_PROGRAM: Address = (
    0x03c0a0cdcb06d2da,
    0xefae82d16fee7acf,
    0x61ec737b23481b21,
    0x946a767000000000,
);

/// `1nc1nerator11111111111111111111111111111111`
pub const INCINERATOR: Address = (
    0x003390728d341160,
    0x79bdc911bfff00db,
    0xd44d2ecdccf79ca6,
    0xe10038e100000000,
);

/// `NativeLoader1111111111111111111111111111111`
pub const NATIVE_LOADER: Address = (
    0x058784bf148ba428,
    0x2fb012574888a9f1,
    0x53a07dadf765c045,
    0x5c9a970380000000,
);

/// `StakeConfig11111111111111111111111111111111`
pub const STAKE_CONFIG: Address = (
    0x06a1d817a502050b,
    0x680791e6ce6db88e,
    0x1e5b7150f61fc679,
    0x0a4eb4d100000000,
);

/// `Stake11111111111111111111111111111111111111`
pub const STAKE_PROGRAM: Address = (
    0x06a1d8179137542a,
    0x983437bdfe2a7ab2,
    0x557f535c8a78722b,
    0x68a49dc000000000,
);

/// `Config1111111111111111111111111111111111111`
pub const CONFIG_PROGRAM: Address = (
    0x03064aa3002f74dc,
    0xc86e43310f0c052a,
    0xf8c5da27f6104019,
    0xa323efa000000000,
);

/// `Vote111111111111111111111111111111111111111`
pub const VOTE_PROGRAM: Address = (
    0x0761481d357474bb,
    0x7c4d7624ebd3bdb3,
    0xd8355e73d11043fc,
    0x0da3538000000000,
);

/// `KeccakSecp256k11111111111111111111111111111`
pub const SECP256K1_PROGRAM: Address = (
    0x04c6fc20f050ccf0,
    0x5584d7211c9f8cf5,
    0x9ec14785bb166a1e,
    0x2830e81220000000,
);

/// `11111111111111111111111111111111`
pub const SYSTEM_PROGRAM: Address = (0, 0, 0, 0);

/// The built-in programs, each with its cost in compute units.
pub open spec fn built_in_costs() -> Seq<(Address, u64)> {
    seq![
        (FEATURE_PROGRAM, 80u64),
        (INCINERATOR, 80u64),
        (NATIVE_LOADER, 80u64),
        (STAKE_CONFIG, 80u64),
        (STAKE_PROGRAM, 2000u64),
        (CONFIG_PROGRAM, 600u64),
        (VOTE_PROGRAM, 3400u64),
        (SECP256K1_PROGRAM, 160u64),
        (SYSTEM_PROGRAM, 600u64),
    ]
}

/// The built-in programs, each with its cost in compute units.
pub fn built_in_instruction_costs() -> (costs: Vec<(Address, u64)>)
    ensures
        costs@ == built_in_costs(),
{
    let mut costs: Vec<(Address, u64)> = Vec::with_capacity(9);
    costs.push((FEATURE_PROGRAM, COMPUTE_UNIT_TO_US_RATIO * 2));
    costs.push((INCINERATOR, COMPUTE_UNIT_TO_US_RATIO * 2));
    costs.push((NATIVE_LOADER, COMPUTE_UNIT_TO_US_RATIO * 2));
    costs.push((STAKE_CONFIG, COMPUTE_UNIT_TO_US_RATIO * 2));
    costs.push((STAKE_PROGRAM, COMPUTE_UNIT_TO_US_RATIO * 50));
    costs.push((CONFIG_PROGRAM, COMPUTE_UNIT_TO_US_RATIO * 15));
    costs.push((VOTE_PROGRAM, COMPUTE_UNIT_TO_US_RATIO * 85));
    costs.push((SECP256K1_PROGRAM, COMPUTE_UNIT_TO_US_RATIO * 4));
    costs.push((SYSTEM_PROGRAM, COMPUTE_UNIT_TO_US_RATIO * 15));
    assert(costs@ =~= built_in_costs());
    costs
}

} // verus!
