use vstd::prelude::*;

verus! {

/// Seed shared by every address the program derives.
pub const SEED: &'static str = "anchor";

/// Seed of the treasury that holds token A.
pub const TREASURY_A_SEED: &'static str = "treasury_a";

/// Seed of the treasury that holds token B.
pub const TREASURY_B_SEED: &'static str = "treasury_b";

/// Bytes that precede every stored record and name its type.
pub const ANCHOR_DISCRIMINATOR: usize = 8;

/// Shortest duration, in seconds, that a trade may be spread over.
pub const MINIMUM_TRADE_DURATION_SECONDS: u64 = 10;

/// Smallest deposit, in whole tokens.
pub const MINIMUM_DEPOSIT_AMOUNT: u64 = 1;

/// Scale of the cumulative exchange-rate counters.
pub const BOOKKEEPING_PRECISION_FACTOR: u64 = 1_000_000;

/// Scale of a position's per-slot flow rate.
pub const VOLUME_PRECISION: u64 = 1_000_000;

/// Number of buckets of a full-size exit schedule.
pub const EXITS_LENGTH: usize = 420000;

/// Number of buckets of a full-size price history; the schedule and the
/// history share their bucket indexing, so the two lengths are equal.
pub const PRICES_LENGTH: usize = 420000;

} // verus!
