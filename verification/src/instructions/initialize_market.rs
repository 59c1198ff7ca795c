use vstd::prelude::*;
use anchor_lang::prelude::Pubkey;
use crate::error::CustomErrorCode;
use crate::power::{is_power_of_ten, power_of_ten};
use crate::state::bookkeeping::Bookkeeping;
use crate::state::exits::{Exits, ExitsView};
use crate::state::market::Market;

verus! {

/// The bump seeds of the records that opening a market creates.
#[derive(Clone, Copy, Debug, PartialEq, Eq, Structural)]
pub struct InitializeMarketBumps {
    pub market: u8,
    pub bookkeeping: u8,
}

/// What opening a market works on: the addresses of the two treasuries,
/// the records of the market and its integrator, which are written, and
/// the exit schedule, which is cleared.
pub struct InitializeMarket {
    pub treasury_a: Pubkey,
    pub treasury_b: Pubkey,
    pub market: Market,
    pub bookkeeping: Bookkeeping,
    pub exits: Exits,
}

/// The slot of the first bucket of a schedule whose market starts at
/// `start_slot`: the last multiple of `interval` that is no later.
pub open spec fn quantized_start(start_slot: u64, interval: u64) -> int {
    (start_slot / interval) * interval
}

/// The slot at which a market that is to start at the time `start_time`
/// starts, estimated at 400 milliseconds to the slot: the present slot
/// where the time has come, else as many slots later as fit into the time
/// left. Times are in seconds.
pub open spec fn estimated_start_slot(start_time: i64, current_time: i64, current_slot: u64) -> int {
    if start_time <= current_time {
        current_slot as int
    } else {
        current_slot + (start_time - current_time) * 1000 / 400
    }
}

/// Computes [`estimated_start_slot`]. Fails where the time left, or its
/// thousandfold, is no `i64`, or the slot is no `u64`.
pub fn get_start_slot(start_time: i64, current_time: i64, current_slot: u64) -> (r: Result<
    u64,
    CustomErrorCode,
>)
    ensures
        r == (if start_time <= current_time {
            Ok::<u64, CustomErrorCode>(current_slot)
        } else if (start_time - current_time) * 1000 <= i64::MAX && estimated_start_slot(
            start_time,
            current_time,
            current_slot,
        ) <= u64::MAX {
            Ok(estimated_start_slot(start_time, current_time, current_slot) as u64)
        } else {
            Err(CustomErrorCode::ArithmeticOverflow)
        }),
{
    if start_time <= current_time {
        return Ok(current_slot);
    }
    let left: i64 = match start_time.checked_sub(current_time) {
        Some(left) => left,
        None => { return Err(CustomErrorCode::ArithmeticOverflow); },
    };
    let millis: i64 = match left.checked_mul(1000) {
        Some(millis) => millis,
        None => { return Err(CustomErrorCode::ArithmeticOverflow); },
    };
    let slots: i64 = millis / 400;
    match current_slot.checked_add(slots as u64) {
        Some(slot) => Ok(slot),
        None => Err(CustomErrorCode::ArithmeticOverflow),
    }
}

impl InitializeMarket {
    /// Opens the market. An interval that is no power of ten is turned
    /// down and nothing is changed. Otherwise the market starts at
    /// `start_slot`, or at `current_slot` where that is later, without any
    /// volume; the integrator starts there with empty counters; and the
    /// schedule is emptied and starts at the last multiple of the interval
    /// that is no later than the market's start.
    pub fn initialize_market(
        &mut self,
        bumps: &InitializeMarketBumps,
        start_slot: u64,
        end_slot_interval: u64,
        current_slot: u64,
    ) -> (r: Result<(), CustomErrorCode>)
        ensures
            final(self).treasury_a == old(self).treasury_a,
            final(self).treasury_b == old(self).treasury_b,
            !power_of_ten(end_slot_interval) ==> {
                &&& r == Err::<(), CustomErrorCode>(CustomErrorCode::InvalidSlotInterval)
                &&& final(self).market == old(self).market
                &&& final(self).bookkeeping == old(self).bookkeeping
                &&& final(self).exits@ == old(self).exits@
            },
            power_of_ten(end_slot_interval) ==> {
                let start = if start_slot < current_slot {
                    current_slot
                } else {
                    start_slot
                };
                &&& r is Ok
                &&& final(self).market == (Market {
                    treasury_a: old(self).treasury_a,
                    treasury_b: old(self).treasury_b,
                    token_a_volume: 0,
                    token_b_volume: 0,
                    start_slot: start,
                    end_slot_interval,
                    bump: bumps.market,
                })
                &&& final(self).bookkeeping == (Bookkeeping {
                    a_per_b: 0,
                    b_per_a: 0,
                    no_trade_slots: 0,
                    last_slot: start,
                    bump: bumps.bookkeeping,
                })
                &&& final(self).exits@ == ExitsView::zeroed(
                    old(self).exits@.token_a.len(),
                    quantized_start(start, end_slot_interval) as u64,
                )
                &&& final(self).exits.start_slot <= final(self).market.start_slot
                &&& final(self).market.wf()
            },
    {
        if !is_power_of_ten(end_slot_interval) {
            return Err(CustomErrorCode::InvalidSlotInterval);
        }
        proof {
            lemma_power_of_ten_positive(end_slot_interval);
        }
        let start: u64 = if start_slot < current_slot {
            current_slot
        } else {
            start_slot
        };
        self.market = Market::new(
            self.treasury_a,
            self.treasury_b,
            start,
            end_slot_interval,
            bumps.market,
        );
        self.bookkeeping = Bookkeeping::new(start, bumps.bookkeeping);
        let whole: u64 = start / end_slot_interval;
        proof {
            vstd::arithmetic::div_mod::lemma_fundamental_div_mod(
                start as int,
                end_slot_interval as int,
            );
            assert(whole * end_slot_interval == end_slot_interval * whole) by (nonlinear_arith);
            assert(0 <= start % end_slot_interval);
        }
        self.exits.new(whole * end_slot_interval);
        Ok(())
    }
}

/// A power of ten is at least one.
pub proof fn lemma_power_of_ten_positive(n: u64)
    requires
        power_of_ten(n),
    ensures
        0 < n,
{
    let e = choose|e: nat| n == #[trigger] vstd::arithmetic::power::pow(10, e);
    vstd::arithmetic::power::lemma_pow_positive(10, e);
}

} // verus!
