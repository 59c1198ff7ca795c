pub mod accumulator;
pub mod catch_up;
pub mod conservation;
pub mod ledger;
pub mod payout;
