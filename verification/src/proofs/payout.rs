use vstd::prelude::*;
use crate::constants::{BOOKKEEPING_PRECISION_FACTOR, VOLUME_PRECISION};
use crate::settlement::flow_rate;
use crate::instructions::close_position::{ClosePositionAView, ClosePositionBView};
use crate::instructions::deposit_token::{DepositTokenAView, DepositTokenBView};
use crate::instructions::withdraw_swapped_tokens::{
    WithdrawSwappedTokensAView,
    WithdrawSwappedTokensBView,
};

verus! {

/// The rate of a position that lasts at least one slot, and whose scaled
/// amount is a `u64`, is a `u64` too.
pub proof fn lemma_rate_fits(amount: u64, start_slot: u64, end_slot: u64)
    requires
        start_slot < end_slot,
        VOLUME_PRECISION * amount <= u64::MAX,
    ensures
        0 <= flow_rate(amount, start_slot, end_slot) <= u64::MAX,
{
    let scaled = VOLUME_PRECISION * amount;
    let span = end_slot - start_slot;
    assert(0 <= scaled / span <= scaled) by (nonlinear_arith)
        requires
            0 <= scaled,
            0 < span,
    ;
}

/// A quotient of a `u64` by a positive number is a `u64`.
pub proof fn lemma_quotient_fits(product: int, divisor: int)
    requires
        0 <= product <= u64::MAX,
        0 < divisor,
    ensures
        0 <= product / divisor <= u64::MAX,
{
    assert(0 <= product / divisor <= product) by (nonlinear_arith)
        requires
            0 <= product,
            0 < divisor,
    ;
}

/// A position of token A that withdraws for the first time is paid for
/// what its counter gained since the deposit: its whole rate times the
/// gain of the counter between the deposit's integration and the
/// withdrawal's, divided by the counters' scale. The idle slots of that
/// time are credited to it; where there were none, nothing is credited.
pub proof fn first_withdrawal_pays_the_gain_since_deposit_a(
    deposit: DepositTokenAView,
    deposit_slot: u64,
    withdrawal: WithdrawSwappedTokensBView,
    current_slot: u64,
)
    requires
        deposit.position_a.wf(),
        deposit.market.start_slot < deposit_slot,
        deposit.update_market(deposit_slot) is Ok,
        withdrawal.position_a == deposit.update_market(deposit_slot).unwrap().position_a,
        withdrawal.withdraw_swapped_tokens(current_slot) is Ok,
    ensures
        ({
            let at_deposit = deposit.update_market(deposit_slot).unwrap().bookkeeping;
            let (after, amount) = withdrawal.withdraw_swapped_tokens(current_slot).unwrap();
            let rate = deposit.position_a.rate();
            &&& at_deposit.b_per_a <= after.bookkeeping.b_per_a
            &&& amount == (rate / (VOLUME_PRECISION as int)) * (after.bookkeeping.b_per_a
                - at_deposit.b_per_a) / (BOOKKEEPING_PRECISION_FACTOR as int)
            &&& after.position_a.total_no_trades == deposit.position_a.total_no_trades + (
            after.bookkeeping.no_trade_slots - at_deposit.no_trade_slots)
            &&& after.position_a.bookkeeping == after.bookkeeping.b_per_a
            &&& after.position_a.no_trade_slots == after.bookkeeping.no_trade_slots
        }),
{
    let position = deposit.position_a;
    let at_deposit = deposit.update_market(deposit_slot).unwrap().bookkeeping;
    let (after, amount) = withdrawal.withdraw_swapped_tokens(current_slot).unwrap();
    lemma_rate_fits(position.amount, position.start_slot, position.end_slot);
    let rate = position.rate();
    let gain = after.bookkeeping.b_per_a - at_deposit.b_per_a;
    assert(withdrawal.position_a.rate() == rate);
    assert(0 <= (rate / (VOLUME_PRECISION as int)) * gain) by (nonlinear_arith)
        requires
            0 <= rate,
            0 <= gain,
            VOLUME_PRECISION == 1_000_000,
    ;
    lemma_quotient_fits(
        (rate / (VOLUME_PRECISION as int)) * gain,
        BOOKKEEPING_PRECISION_FACTOR as int,
    );
}

/// A position of token A that is closed gets back the deposit that was
/// not converted: its rate times the slots between the settlement slot and
/// its end, to which the idle slots credited to it are added, divided by
/// the rate's scale. Closed at or after its end, it gets back its rate
/// times the idle slots alone.
pub proof fn closing_returns_the_unconverted_deposit_a(
    closing: ClosePositionAView,
    current_slot: u64,
)
    requires
        closing.position_a.wf(),
        closing.withdraw_tokens(current_slot) is Ok,
    ensures
        ({
            let (after, payout) = closing.withdraw_tokens(current_slot).unwrap();
            let rate = closing.position_a.rate();
            let end_slot = closing.position_a.end_slot;
            let idle = after.position_a.total_no_trades;
            &&& idle == closing.position_a.total_no_trades + (after.bookkeeping.no_trade_slots
                - closing.position_a.no_trade_slots)
            &&& payout.swapped == (rate / (VOLUME_PRECISION as int)) * (
            after.bookkeeping.b_per_a - closing.position_a.bookkeeping) / (
            BOOKKEEPING_PRECISION_FACTOR as int)
            &&& current_slot < end_slot ==> payout.principal == (end_slot - current_slot + idle)
                * rate / (VOLUME_PRECISION as int)
            &&& current_slot >= end_slot ==> payout.principal == idle * rate / (
            VOLUME_PRECISION as int)
        }),
{
    let position = closing.position_a;
    let (after, payout) = closing.withdraw_tokens(current_slot).unwrap();
    lemma_rate_fits(position.amount, position.start_slot, position.end_slot);
    let rate = position.rate();
    assert(after.position_a.rate() == rate);
    let idle = after.position_a.total_no_trades;
    let slot = if current_slot < position.end_slot {
        current_slot
    } else {
        position.end_slot
    };
    let gain = after.bookkeeping.b_per_a - position.bookkeeping;
    assert(0 <= (rate / (VOLUME_PRECISION as int)) * gain) by (nonlinear_arith)
        requires
            0 <= rate,
            0 <= gain,
            VOLUME_PRECISION == 1_000_000,
    ;
    lemma_quotient_fits(
        (rate / (VOLUME_PRECISION as int)) * gain,
        BOOKKEEPING_PRECISION_FACTOR as int,
    );
    assert(0 <= (position.end_slot - slot + idle) * rate) by (nonlinear_arith)
        requires
            0 <= position.end_slot - slot + idle,
            0 <= rate,
    ;
    lemma_quotient_fits((position.end_slot - slot + idle) * rate, VOLUME_PRECISION as int);
}

/// A position of token B that withdraws for the first time is paid for
/// what its counter gained since the deposit: its whole rate times the
/// gain of the counter between the deposit's integration and the
/// withdrawal's, divided by the counters' scale. The idle slots of that
/// time are credited to it; where there were none, nothing is credited.
pub proof fn first_withdrawal_pays_the_gain_since_deposit_b(
    deposit: DepositTokenBView,
    deposit_slot: u64,
    withdrawal: WithdrawSwappedTokensAView,
    current_slot: u64,
)
    requires
        deposit.position_b.wf(),
        deposit.market.start_slot < deposit_slot,
        deposit.update_market(deposit_slot) is Ok,
        withdrawal.position_b == deposit.update_market(deposit_slot).unwrap().position_b,
        withdrawal.withdraw_swapped_tokens(current_slot) is Ok,
    ensures
        ({
            let at_deposit = deposit.update_market(deposit_slot).unwrap().bookkeeping;
            let (after, amount) = withdrawal.withdraw_swapped_tokens(current_slot).unwrap();
            let rate = deposit.position_b.rate();
            &&& at_deposit.a_per_b <= after.bookkeeping.a_per_b
            &&& amount == (rate / (VOLUME_PRECISION as int)) * (after.bookkeeping.a_per_b
                - at_deposit.a_per_b) / (BOOKKEEPING_PRECISION_FACTOR as int)
            &&& after.position_b.total_no_trades == deposit.position_b.total_no_trades + (
            after.bookkeeping.no_trade_slots - at_deposit.no_trade_slots)
            &&& after.position_b.bookkeeping == after.bookkeeping.a_per_b
            &&& after.position_b.no_trade_slots == after.bookkeeping.no_trade_slots
        }),
{
    let position = deposit.position_b;
    let at_deposit = deposit.update_market(deposit_slot).unwrap().bookkeeping;
    let (after, amount) = withdrawal.withdraw_swapped_tokens(current_slot).unwrap();
    lemma_rate_fits(position.amount, position.start_slot, position.end_slot);
    let rate = position.rate();
    let gain = after.bookkeeping.a_per_b - at_deposit.a_per_b;
    assert(withdrawal.position_b.rate() == rate);
    assert(0 <= (rate / (VOLUME_PRECISION as int)) * gain) by (nonlinear_arith)
        requires
            0 <= rate,
            0 <= gain,
            VOLUME_PRECISION == 1_000_000,
    ;
    lemma_quotient_fits(
        (rate / (VOLUME_PRECISION as int)) * gain,
        BOOKKEEPING_PRECISION_FACTOR as int,
    );
}

/// A position of token B that is closed gets back the deposit that was
/// not converted: its rate times the slots between the settlement slot and
/// its end, to which the idle slots credited to it are added, divided by
/// the rate's scale. Closed at or after its end, it gets back its rate
/// times the idle slots alone.
pub proof fn closing_returns_the_unconverted_deposit_b(
    closing: ClosePositionBView,
    current_slot: u64,
)
    requires
        closing.position_b.wf(),
        closing.withdraw_tokens(current_slot) is Ok,
    ensures
        ({
            let (after, payout) = closing.withdraw_tokens(current_slot).unwrap();
            let rate = closing.position_b.rate();
            let end_slot = closing.position_b.end_slot;
            let idle = after.position_b.total_no_trades;
            &&& idle == closing.position_b.total_no_trades + (after.bookkeeping.no_trade_slots
                - closing.position_b.no_trade_slots)
            &&& payout.swapped == (rate / (VOLUME_PRECISION as int)) * (
            after.bookkeeping.a_per_b - closing.position_b.bookkeeping) / (
            BOOKKEEPING_PRECISION_FACTOR as int)
            &&& current_slot < end_slot ==> payout.principal == (end_slot - current_slot + idle)
                * rate / (VOLUME_PRECISION as int)
            &&& current_slot >= end_slot ==> payout.principal == idle * rate / (
            VOLUME_PRECISION as int)
        }),
{
    let position = closing.position_b;
    let (after, payout) = closing.withdraw_tokens(current_slot).unwrap();
    lemma_rate_fits(position.amount, position.start_slot, position.end_slot);
    let rate = position.rate();
    assert(after.position_b.rate() == rate);
    let idle = after.position_b.total_no_trades;
    let slot = if current_slot < position.end_slot {
        current_slot
    } else {
        position.end_slot
    };
    let gain = after.bookkeeping.a_per_b - position.bookkeeping;
    assert(0 <= (rate / (VOLUME_PRECISION as int)) * gain) by (nonlinear_arith)
        requires
            0 <= rate,
            0 <= gain,
            VOLUME_PRECISION == 1_000_000,
    ;
    lemma_quotient_fits(
        (rate / (VOLUME_PRECISION as int)) * gain,
        BOOKKEEPING_PRECISION_FACTOR as int,
    );
    assert(0 <= (position.end_slot - slot + idle) * rate) by (nonlinear_arith)
        requires
            0 <= position.end_slot - slot + idle,
            0 <= rate,
    ;
    lemma_quotient_fits((position.end_slot - slot + idle) * rate, VOLUME_PRECISION as int);
}

} // verus!
