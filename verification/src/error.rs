use vstd::prelude::*;

verus! {

/// Why an operation was turned down.
#[derive(Clone, Copy, Debug, PartialEq, Eq, Structural)]
pub enum CustomErrorCode {
    /// The quantized end slot does not lie a full interval after the start.
    EndSlotAlreadyPassed,
    /// The storage handed over cannot hold the schedule's buckets.
    AccountTooSmall,
    /// The quantization interval is not a power of ten.
    InvalidSlotInterval,
    /// The deposit is below the minimum.
    DepositTooSmall,
    /// A withdrawal was attempted before the market started to accrue.
    NoTokensSwapped,
    /// A 64-bit computation left its range: a sum or product too large, or
    /// a difference below zero, as when integrating to a slot that lies
    /// before the last integrated one. The step that meets it is abandoned
    /// and leaves the records as it found them.
    ArithmeticOverflow,
}

impl CustomErrorCode {
    /// The message shown for this error.
    pub fn message(&self) -> (text: &'static str)
        ensures
            text@ == (match *self {
                CustomErrorCode::EndSlotAlreadyPassed => "End slot has already passed"@,
                CustomErrorCode::AccountTooSmall => "Account is too small"@,
                CustomErrorCode::InvalidSlotInterval => "Slot interval has to be power of 10"@,
                CustomErrorCode::DepositTooSmall => "Deposit amount is too small"@,
                CustomErrorCode::NoTokensSwapped => "No tokens have been swapped yet"@,
                CustomErrorCode::ArithmeticOverflow => "Arithmetic overflow"@,
            }),
    {
        match self {
            CustomErrorCode::EndSlotAlreadyPassed => "End slot has already passed",
            CustomErrorCode::AccountTooSmall => "Account is too small",
            CustomErrorCode::InvalidSlotInterval => "Slot interval has to be power of 10",
            CustomErrorCode::DepositTooSmall => "Deposit amount is too small",
            CustomErrorCode::NoTokensSwapped => "No tokens have been swapped yet",
            CustomErrorCode::ArithmeticOverflow => "Arithmetic overflow",
        }
    }
}

} // verus!
