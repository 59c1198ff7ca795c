//! A continuous token exchange: a deposit of one token is converted into
//! the other at a steady rate per slot, at the price that the flows of the
//! two sides set against each other.
//!
//! The engine keeps a ledger of the volume flowing on each side
//! ([`state::market::Market`]), an integrator of the price
//! ([`state::bookkeeping::Bookkeeping`]), a ring of deferred removals
//! ([`state::exits::Exits`]) that takes each position's flow off the ledger
//! at its end, and a ring of price snapshots ([`state::prices::Prices`]).
//! The functions of this module are the operations on a market; each works
//! on the records that [`instructions`] groups for it. What the operations
//! guarantee together is proved in [`proofs`].

pub mod constants;
pub mod error;
pub mod hash;
pub mod instructions;
pub mod power;
pub mod proofs;
pub mod schedule;
pub mod settlement;
pub mod state;

use vstd::prelude::*;
use crate::error::CustomErrorCode;
use crate::hash::sha256;
use crate::instructions::close_position::{ClosePayout, ClosePositionA, ClosePositionB};
use crate::instructions::deposit_token::{
    DepositTokenA,
    DepositTokenABumps,
    DepositTokenB,
    DepositTokenBBumps,
};
use crate::instructions::initialize_exits::{exits_preimage, stamped, InitializeExits};
use crate::instructions::initialize_market::{InitializeMarket, InitializeMarketBumps};
use crate::instructions::update_bookkeeping::UpdateBookkeeping;
use crate::instructions::withdraw_swapped_tokens::{
    WithdrawSwappedTokensA,
    WithdrawSwappedTokensB,
};
use crate::constants::ANCHOR_DISCRIMINATOR;
use crate::power::power_of_ten;
use crate::instructions::initialize_market::quantized_start;
use crate::state::bookkeeping::Bookkeeping;
use crate::state::exits::{Exits, ExitsView};
use crate::state::market::Market;

verus! {

/// Claims storage for a market's exit schedule; see
/// [`InitializeExits::initialize_exits`].
pub fn initialize_exits(ctx: &mut InitializeExits) -> (r: Result<(), CustomErrorCode>)
    ensures
        old(ctx).exits.len() < ANCHOR_DISCRIMINATOR + Exits::INIT_SPACE ==> r == Err::<
            (),
            CustomErrorCode,
        >(CustomErrorCode::AccountTooSmall) && final(ctx).exits@ == old(ctx).exits@,
        old(ctx).exits.len() >= ANCHOR_DISCRIMINATOR + Exits::INIT_SPACE ==> r is Ok
            && final(ctx).exits@ == stamped(old(ctx).exits@, sha256(exits_preimage())),
{
    ctx.initialize_exits()
}

/// Opens a market; see [`InitializeMarket::initialize_market`].
pub fn initialize_market(
    ctx: &mut InitializeMarket,
    bumps: &InitializeMarketBumps,
    start_slot: u64,
    end_slot_interval: u64,
    current_slot: u64,
) -> (r: Result<(), CustomErrorCode>)
    ensures
        final(ctx).treasury_a == old(ctx).treasury_a,
        final(ctx).treasury_b == old(ctx).treasury_b,
        !power_of_ten(end_slot_interval) ==> {
            &&& r == Err::<(), CustomErrorCode>(CustomErrorCode::InvalidSlotInterval)
            &&& final(ctx).market == old(ctx).market
            &&& final(ctx).bookkeeping == old(ctx).bookkeeping
            &&& final(ctx).exits@ == old(ctx).exits@
        },
        power_of_ten(end_slot_interval) ==> {
            let start = if start_slot < current_slot {
                current_slot
            } else {
                start_slot
            };
            &&& r is Ok
            &&& final(ctx).market == (Market {
                treasury_a: old(ctx).treasury_a,
                treasury_b: old(ctx).treasury_b,
                token_a_volume: 0,
                token_b_volume: 0,
                start_slot: start,
                end_slot_interval,
                bump: bumps.market,
            })
            &&& final(ctx).bookkeeping == (Bookkeeping {
                a_per_b: 0,
                b_per_a: 0,
                no_trade_slots: 0,
                last_slot: start,
                bump: bumps.bookkeeping,
            })
            &&& final(ctx).exits@ == ExitsView::zeroed(
                old(ctx).exits@.token_a.len(),
                quantized_start(start, end_slot_interval) as u64,
            )
            &&& final(ctx).exits.start_slot <= final(ctx).market.start_slot
            &&& final(ctx).market.wf()
        },
{
    ctx.initialize_market(bumps, start_slot, end_slot_interval, current_slot)
}

/// Deposits `amount` of token A to be exchanged from now up to `end_slot`:
/// the position is created, its expiry is registered and the market
/// caught up to `current_slot`, and the position's flow joins the ledger.
/// The first step that fails ends the deposit with its error, and the
/// records stay as the steps before it left them.
pub fn deposit_token_a(
    ctx: &mut DepositTokenA,
    bumps: &DepositTokenABumps,
    amount: u64,
    end_slot: u64,
    current_slot: u64,
) -> (r: Result<(), CustomErrorCode>)
    requires
        old(ctx)@.wf(),
    ensures
        (final(ctx)@, r) == old(ctx)@.deposit(*bumps, amount, end_slot, current_slot),
        final(ctx)@.wf(),
{
    match ctx.initialize_position_account(bumps, amount, end_slot, current_slot) {
        Ok(()) => {},
        Err(e) => { return Err(e); },
    }
    match ctx.update_exits(current_slot) {
        Ok(()) => {},
        Err(e) => { return Err(e); },
    }
    match ctx.update_market(current_slot) {
        Ok(()) => Ok(()),
        Err(e) => Err(e),
    }
}

/// Deposits `amount` of token B to be exchanged from now up to `end_slot`:
/// the position is created, its expiry is registered and the market
/// caught up to `current_slot`, and the position's flow joins the ledger.
/// The first step that fails ends the deposit with its error, and the
/// records stay as the steps before it left them.
pub fn deposit_token_b(
    ctx: &mut DepositTokenB,
    bumps: &DepositTokenBBumps,
    amount: u64,
    end_slot: u64,
    current_slot: u64,
) -> (r: Result<(), CustomErrorCode>)
    requires
        old(ctx)@.wf(),
    ensures
        (final(ctx)@, r) == old(ctx)@.deposit(*bumps, amount, end_slot, current_slot),
        final(ctx)@.wf(),
{
    match ctx.initialize_position_account(bumps, amount, end_slot, current_slot) {
        Ok(()) => {},
        Err(e) => { return Err(e); },
    }
    match ctx.update_exits(current_slot) {
        Ok(()) => {},
        Err(e) => { return Err(e); },
    }
    match ctx.update_market(current_slot) {
        Ok(()) => Ok(()),
        Err(e) => Err(e),
    }
}

/// Pays out the token A that a position of token B has earned since its
/// last settlement: the market is caught up to the settlement slot, then
/// the position is settled. Returns the amount to hand out. A failed step
/// ends the withdrawal with its error, and the records stay as the steps
/// before it left them.
pub fn withdraw_swapped_token_a(ctx: &mut WithdrawSwappedTokensA, current_slot: u64) -> (r:
    Result<u64, CustomErrorCode>)
    requires
        old(ctx)@.wf(),
        old(ctx).position_b.wf(),
    ensures
        (final(ctx)@, r) == old(ctx)@.withdraw(current_slot),
        final(ctx)@.wf(),
        final(ctx).position_b.wf(),
{
    match ctx.update_exits(current_slot) {
        Ok(()) => {},
        Err(e) => { return Err(e); },
    }
    ctx.withdraw_swapped_tokens(current_slot)
}

/// Pays out the token B that a position of token A has earned since its
/// last settlement: the market is caught up to the settlement slot, then
/// the position is settled. Returns the amount to hand out. A failed step
/// ends the withdrawal with its error, and the records stay as the steps
/// before it left them.
pub fn withdraw_swapped_token_b(ctx: &mut WithdrawSwappedTokensB, current_slot: u64) -> (r:
    Result<u64, CustomErrorCode>)
    requires
        old(ctx)@.wf(),
        old(ctx).position_a.wf(),
    ensures
        (final(ctx)@, r) == old(ctx)@.withdraw(current_slot),
        final(ctx)@.wf(),
        final(ctx).position_a.wf(),
{
    match ctx.update_exits(current_slot) {
        Ok(()) => {},
        Err(e) => { return Err(e); },
    }
    ctx.withdraw_swapped_tokens(current_slot)
}

/// Closes a position of token A: its expiry is taken out of the schedule
/// if it is still ahead and the market caught up, the position is settled
/// for the last time, and its flow leaves the ledger if it is still on
/// it. Returns what is to be handed out. A failed step ends the closing
/// with its error, and the records stay as the steps before it left them.
pub fn close_position_a(ctx: &mut ClosePositionA, current_slot: u64) -> (r: Result<
    ClosePayout,
    CustomErrorCode,
>)
    requires
        old(ctx)@.wf(),
        old(ctx).position_a.wf(),
    ensures
        (final(ctx)@, r) == old(ctx)@.close(current_slot),
        final(ctx)@.wf(),
{
    match ctx.update_exits(current_slot) {
        Ok(()) => {},
        Err(e) => { return Err(e); },
    }
    let payout: ClosePayout = match ctx.withdraw_tokens(current_slot) {
        Ok(payout) => payout,
        Err(e) => { return Err(e); },
    };
    match ctx.update_market(current_slot) {
        Ok(()) => Ok(payout),
        Err(e) => Err(e),
    }
}

/// Closes a position of token B: its expiry is taken out of the schedule
/// if it is still ahead and the market caught up, the position is settled
/// for the last time, and its flow leaves the ledger if it is still on
/// it. Returns what is to be handed out. A failed step ends the closing
/// with its error, and the records stay as the steps before it left them.
pub fn close_position_b(ctx: &mut ClosePositionB, current_slot: u64) -> (r: Result<
    ClosePayout,
    CustomErrorCode,
>)
    requires
        old(ctx)@.wf(),
        old(ctx).position_b.wf(),
    ensures
        (final(ctx)@, r) == old(ctx)@.close(current_slot),
        final(ctx)@.wf(),
{
    match ctx.update_exits(current_slot) {
        Ok(()) => {},
        Err(e) => { return Err(e); },
    }
    let payout: ClosePayout = match ctx.withdraw_tokens(current_slot) {
        Ok(payout) => payout,
        Err(e) => { return Err(e); },
    };
    match ctx.update_market(current_slot) {
        Ok(()) => Ok(payout),
        Err(e) => Err(e),
    }
}

/// A periodic tick: brings the market up to `current_slot`; see
/// [`UpdateBookkeeping::update_exits`].
pub fn update_bookkeeping(ctx: &mut UpdateBookkeeping, current_slot: u64) -> (r: Result<
    (),
    CustomErrorCode,
>)
    requires
        old(ctx)@.wf(),
    ensures
        match old(ctx)@.update_exits(current_slot) {
            Ok(after) => r is Ok && final(ctx)@ == after,
            Err(e) => r == Err::<(), CustomErrorCode>(e) && final(ctx)@ == old(ctx)@,
        },
        final(ctx)@.wf(),
{
    ctx.update_exits(current_slot)
}

} // verus!
