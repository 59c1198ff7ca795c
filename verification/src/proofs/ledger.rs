use vstd::prelude::*;
use vstd::arithmetic::div_mod::{
    lemma_div_is_ordered,
    lemma_div_plus_one,
    lemma_fundamental_div_mod,
    lemma_mod_multiples_basic,
    lemma_sub_mod_noop,
    lemma_small_mod,
};
use crate::instructions::close_position::{ClosePositionAView, ClosePositionBView};
use crate::instructions::deposit_token::{
    deposit_start,
    deposit_terms,
    quantized_end,
    DepositTokenABumps,
    DepositTokenAView,
    DepositTokenBBumps,
    DepositTokenBView,
};
use crate::instructions::update_bookkeeping::UpdateBookkeepingView;
use crate::instructions::withdraw_swapped_tokens::{
    settlement_slot,
    WithdrawSwappedTokensAView,
    WithdrawSwappedTokensBView,
};
use crate::proofs::conservation::{
    advance_conserves,
    aligned,
    conserved,
    flowing,
    frontier_after,
    in_window,
    index_of,
    joining_conserves,
    leaving_early_conserves,
    lemma_aligned_index,
    lemma_total_agrees,
    Stake,
};
use crate::proofs::payout::lemma_rate_fits;
use crate::schedule::{absolute_index, bucket_slot};
use crate::settlement::flow_rate;
use crate::state::exits::{lemma_due_slot_fits, ExitsView};
use crate::state::market::{Market, Side};

verus! {

/// The stake of a deposit that is accepted: it flows on `side` at the rate
/// of the amount spread over the deposit's slots, up to the quantized end.
pub open spec fn deposit_stake(
    side: Side,
    market: Market,
    decimals: u8,
    amount: u64,
    end_slot: u64,
    current_slot: u64,
) -> Stake {
    let (start, end) = deposit_terms(market, decimals, amount, end_slot, current_slot).unwrap();
    Stake { side, rate: flow_rate(amount, start, end) as u64, end_slot: end }
}

/// A quantized end slot is a multiple of the interval.
pub proof fn lemma_quantized_end_is_multiple(end_slot: u64, interval: u64)
    requires
        0 < interval,
    ensures
        quantized_end(end_slot, interval) % (interval as int) == 0,
{
    lemma_mod_multiples_basic((end_slot + interval / 2) / (interval as int), interval as int);
}

/// The difference of two multiples of the interval is one.
pub proof fn lemma_multiples_differ_by_multiple(a: int, b: int, interval: int)
    requires
        0 < interval,
        a % interval == 0,
        b % interval == 0,
    ensures
        (a - b) % interval == 0,
{
    lemma_sub_mod_noop(a, b, interval);
    lemma_small_mod(0, interval as nat);
}

/// A slot that lies a whole interval after another falls into a later
/// bucket.
pub proof fn lemma_later_bucket(earlier: u64, later: u64, start_slot: u64, interval: u64)
    requires
        0 < interval,
        start_slot <= earlier,
        earlier + interval <= later,
    ensures
        absolute_index(earlier, start_slot, interval) < absolute_index(later, start_slot, interval),
{
    lemma_div_plus_one(earlier - start_slot, interval as int);
    lemma_div_is_ordered(earlier - start_slot + interval, later - start_slot, interval as int);
}

/// Once the market has caught up to `current_slot`, each side of the
/// ledger carries exactly the rates of the stakes that are flowing at that
/// slot: those that end after it. A stake whose end has passed counts no
/// more, whether its position was closed or not.
pub proof fn ledger_carries_what_flows(
    exits: ExitsView,
    market: Market,
    stakes: Seq<Stake>,
    current_slot: u64,
)
    requires
        exits.start_slot <= current_slot,
        conserved(exits, market, stakes, exits.target(current_slot, market.end_slot_interval)),
    ensures
        market.token_a_volume == flowing(stakes, Side::A, current_slot as int),
        market.token_b_volume == flowing(stakes, Side::B, current_slot as int),
{
    let interval = market.end_slot_interval;
    let start = exits.start_slot;
    let frontier = exits.target(current_slot, interval);
    let reached = bucket_slot(frontier, start, interval);
    lemma_fundamental_div_mod(current_slot - start, interval as int);
    assert(interval * frontier == frontier * interval) by (nonlinear_arith);
    assert((frontier + 1) * interval == frontier * interval + interval) by (nonlinear_arith);
    assert(reached <= current_slot < bucket_slot(frontier + 1, start, interval));
    assert forall|i: int| 0 <= i < stakes.len() implies (#[trigger] stakes[i].end_slot > reached)
        == (stakes[i].end_slot > current_slot) by {
        lemma_aligned_index(stakes[i], start, interval, frontier);
        lemma_aligned_index(stakes[i], start, interval, frontier + 1);
    }
    lemma_total_agrees(
        stakes,
        |s: Stake| s.side == Side::A && s.end_slot > reached,
        |s: Stake| s.side == Side::A && s.end_slot > current_slot as int,
    );
    lemma_total_agrees(
        stakes,
        |s: Stake| s.side == Side::B && s.end_slot > reached,
        |s: Stake| s.side == Side::B && s.end_slot > current_slot as int,
    );
}

/// A tick keeps the market's accounts in order, under the conditions of
/// [`advance_conserves`].
pub proof fn tick_conserves(
    ctx: UpdateBookkeepingView,
    stakes: Seq<Stake>,
    frontier: int,
    current_slot: u64,
)
    requires
        conserved(ctx.exits, ctx.market, stakes, frontier),
        frontier <= frontier_after(ctx.exits, ctx.market, frontier, current_slot) < frontier
            + ctx.exits.len(),
        in_window(
            stakes,
            ctx.exits.start_slot,
            ctx.market.end_slot_interval,
            ctx.exits.len(),
            frontier,
            frontier_after(ctx.exits, ctx.market, frontier, current_slot),
        ),
        ctx.update_exits(current_slot) is Ok,
    ensures
        conserved(
            ctx.update_exits(current_slot).unwrap().exits,
            ctx.update_exits(current_slot).unwrap().market,
            stakes,
            frontier_after(ctx.exits, ctx.market, frontier, current_slot),
        ),
{
    advance_conserves(ctx.exits, ctx.market, ctx.bookkeeping, stakes, frontier, current_slot);
}

/// A deposit of token A that succeeds keeps the market's accounts in
/// order: afterwards the market accounts for the stakes with the
/// deposit's among them, up to the bucket of `current_slot`. Beyond what
/// a catch-up asks, the deposit must end within a lap of the old
/// frontier, and a deposit made before the market starts must find the
/// frontier no later than that start.
pub proof fn deposit_a_conserves(
    ctx: DepositTokenAView,
    stakes: Seq<Stake>,
    frontier: int,
    bumps: DepositTokenABumps,
    amount: u64,
    end_slot: u64,
    current_slot: u64,
)
    requires
        conserved(ctx.exits, ctx.market, stakes, frontier),
        ctx.deposit(bumps, amount, end_slot, current_slot).1 is Ok,
        current_slot <= ctx.market.start_slot ==> bucket_slot(
            frontier,
            ctx.exits.start_slot,
            ctx.market.end_slot_interval,
        ) <= ctx.market.start_slot,
        frontier <= frontier_after(ctx.exits, ctx.market, frontier, current_slot) < frontier
            + ctx.exits.len(),
        in_window(
            stakes.push(
                deposit_stake(Side::A, ctx.market, ctx.decimals, amount, end_slot, current_slot),
            ),
            ctx.exits.start_slot,
            ctx.market.end_slot_interval,
            ctx.exits.len(),
            frontier,
            frontier_after(ctx.exits, ctx.market, frontier, current_slot),
        ),
    ensures
        conserved(
            ctx.deposit(bumps, amount, end_slot, current_slot).0.exits,
            ctx.deposit(bumps, amount, end_slot, current_slot).0.market,
            stakes.push(
                deposit_stake(Side::A, ctx.market, ctx.decimals, amount, end_slot, current_slot),
            ),
            frontier_after(ctx.exits, ctx.market, frontier, current_slot),
        ),
{
    let interval = ctx.market.end_slot_interval;
    let start = ctx.exits.start_slot;
    let stake = deposit_stake(Side::A, ctx.market, ctx.decimals, amount, end_slot, current_slot);
    let created = ctx.initialize_position_account(bumps, amount, end_slot, current_slot).unwrap();
    let position = created.position_a;
    let target = frontier_after(ctx.exits, ctx.market, frontier, current_slot);
    lemma_rate_fits(position.amount, position.start_slot, position.end_slot);
    assert(stake.rate == position.rate());
    assert(stake.end_slot == position.end_slot);
    assert(position.start_slot == deposit_start(ctx.market, current_slot));
    lemma_quantized_end_is_multiple(end_slot, interval);
    lemma_multiples_differ_by_multiple(stake.end_slot as int, start as int, interval as int);
    assert(aligned(stake, start, interval));
    if current_slot > ctx.market.start_slot {
        lemma_later_bucket(current_slot, stake.end_slot, start, interval);
    } else {
        lemma_aligned_index(stake, start, interval, frontier);
    }
    assert(target < index_of(stake, start, interval));
    let caught_up = created.update_exits(current_slot).unwrap();
    assert(caught_up.position_a == position);
    joining_conserves(ctx.exits, ctx.market, ctx.bookkeeping, stakes, frontier, stake, current_slot);
}

/// A withdrawal of token B by a position of token A keeps the market's
/// accounts in order, under the conditions of [`advance_conserves`] for
/// the settlement slot: it catches the market up and leaves the ledger
/// and the schedule otherwise alone.
pub proof fn withdrawal_of_b_conserves(
    ctx: WithdrawSwappedTokensBView,
    stakes: Seq<Stake>,
    frontier: int,
    current_slot: u64,
)
    requires
        conserved(ctx.exits, ctx.market, stakes, frontier),
        ctx.withdraw(current_slot).1 is Ok,
        frontier <= frontier_after(
            ctx.exits,
            ctx.market,
            frontier,
            settlement_slot(current_slot, ctx.position_a.end_slot),
        ) < frontier + ctx.exits.len(),
        in_window(
            stakes,
            ctx.exits.start_slot,
            ctx.market.end_slot_interval,
            ctx.exits.len(),
            frontier,
            frontier_after(
                ctx.exits,
                ctx.market,
                frontier,
                settlement_slot(current_slot, ctx.position_a.end_slot),
            ),
        ),
    ensures
        conserved(
            ctx.withdraw(current_slot).0.exits,
            ctx.withdraw(current_slot).0.market,
            stakes,
            frontier_after(
                ctx.exits,
                ctx.market,
                frontier,
                settlement_slot(current_slot, ctx.position_a.end_slot),
            ),
        ),
{
    let slot = settlement_slot(current_slot, ctx.position_a.end_slot);
    advance_conserves(ctx.exits, ctx.market, ctx.bookkeeping, stakes, frontier, slot);
}

/// Closing a position of token A keeps the market's accounts in order.
/// Closed before its end, the position's stake, the `k`-th of `stakes`,
/// leaves the accounts with it: its rate comes off the ledger at once and
/// its expiry comes out of the schedule, so that the bucket does not take
/// the rate off a second time. Closed at or after its end, the stake
/// stays: its bucket has taken the rate off the ledger, and both are left
/// alone. The conditions are those of [`advance_conserves`] for the
/// settlement slot; a position that is closed early before the market
/// starts must find the frontier before its end.
pub proof fn closing_a_conserves(
    ctx: ClosePositionAView,
    stakes: Seq<Stake>,
    frontier: int,
    k: int,
    current_slot: u64,
)
    requires
        ctx.position_a.wf(),
        conserved(ctx.exits, ctx.market, stakes, frontier),
        ctx.close(current_slot).1 is Ok,
        0 <= k < stakes.len(),
        stakes[k] == (Stake {
            side: Side::A,
            rate: ctx.position_a.rate() as u64,
            end_slot: ctx.position_a.end_slot,
        }),
        current_slot <= ctx.market.start_slot ==> bucket_slot(
            frontier,
            ctx.exits.start_slot,
            ctx.market.end_slot_interval,
        ) < ctx.position_a.end_slot,
        frontier <= frontier_after(
            ctx.exits,
            ctx.market,
            frontier,
            settlement_slot(current_slot, ctx.position_a.end_slot),
        ) < frontier + ctx.exits.len(),
        in_window(
            stakes,
            ctx.exits.start_slot,
            ctx.market.end_slot_interval,
            ctx.exits.len(),
            frontier,
            frontier_after(
                ctx.exits,
                ctx.market,
                frontier,
                settlement_slot(current_slot, ctx.position_a.end_slot),
            ),
        ),
    ensures
        conserved(
            ctx.close(current_slot).0.exits,
            ctx.close(current_slot).0.market,
            if current_slot < ctx.position_a.end_slot {
                stakes.remove(k)
            } else {
                stakes
            },
            frontier_after(
                ctx.exits,
                ctx.market,
                frontier,
                settlement_slot(current_slot, ctx.position_a.end_slot),
            ),
        ),
{
    let interval = ctx.market.end_slot_interval;
    let start = ctx.exits.start_slot;
    let position = ctx.position_a;
    let slot = settlement_slot(current_slot, position.end_slot);
    let target = frontier_after(ctx.exits, ctx.market, frontier, slot);
    lemma_rate_fits(position.amount, position.start_slot, position.end_slot);
    let caught_up = ctx.update_exits(current_slot).unwrap();
    let (settled, payout) = caught_up.withdraw_tokens(current_slot).unwrap();
    assert(settled.market == caught_up.market && settled.exits == caught_up.exits);
    assert(settled.position_a.rate() == position.rate());
    assert(settled.position_a.end_slot == position.end_slot);
    if current_slot < position.end_slot {
        if current_slot > ctx.market.start_slot {
            lemma_due_slot_fits(target, current_slot, start, interval);
        }
        lemma_aligned_index(stakes[k], start, interval, target);
        leaving_early_conserves(
            ctx.exits,
            ctx.market,
            ctx.bookkeeping,
            stakes,
            frontier,
            k,
            current_slot,
        );
    } else {
        advance_conserves(ctx.exits, ctx.market, ctx.bookkeeping, stakes, frontier, slot);
    }
}

/// A deposit of token B that succeeds keeps the market's accounts in
/// order: afterwards the market accounts for the stakes with the
/// deposit's among them, up to the bucket of `current_slot`. Beyond what
/// a catch-up asks, the deposit must end within a lap of the old
/// frontier, and a deposit made before the market starts must find the
/// frontier no later than that start.
pub proof fn deposit_b_conserves(
    ctx: DepositTokenBView,
    stakes: Seq<Stake>,
    frontier: int,
    bumps: DepositTokenBBumps,
    amount: u64,
    end_slot: u64,
    current_slot: u64,
)
    requires
        conserved(ctx.exits, ctx.market, stakes, frontier),
        ctx.deposit(bumps, amount, end_slot, current_slot).1 is Ok,
        current_slot <= ctx.market.start_slot ==> bucket_slot(
            frontier,
            ctx.exits.start_slot,
            ctx.market.end_slot_interval,
        ) <= ctx.market.start_slot,
        frontier <= frontier_after(ctx.exits, ctx.market, frontier, current_slot) < frontier
            + ctx.exits.len(),
        in_window(
            stakes.push(
                deposit_stake(Side::B, ctx.market, ctx.decimals, amount, end_slot, current_slot),
            ),
            ctx.exits.start_slot,
            ctx.market.end_slot_interval,
            ctx.exits.len(),
            frontier,
            frontier_after(ctx.exits, ctx.market, frontier, current_slot),
        ),
    ensures
        conserved(
            ctx.deposit(bumps, amount, end_slot, current_slot).0.exits,
            ctx.deposit(bumps, amount, end_slot, current_slot).0.market,
            stakes.push(
                deposit_stake(Side::B, ctx.market, ctx.decimals, amount, end_slot, current_slot),
            ),
            frontier_after(ctx.exits, ctx.market, frontier, current_slot),
        ),
{
    let interval = ctx.market.end_slot_interval;
    let start = ctx.exits.start_slot;
    let stake = deposit_stake(Side::B, ctx.market, ctx.decimals, amount, end_slot, current_slot);
    let created = ctx.initialize_position_account(bumps, amount, end_slot, current_slot).unwrap();
    let position = created.position_b;
    let target = frontier_after(ctx.exits, ctx.market, frontier, current_slot);
    lemma_rate_fits(position.amount, position.start_slot, position.end_slot);
    assert(stake.rate == position.rate());
    assert(stake.end_slot == position.end_slot);
    assert(position.start_slot == deposit_start(ctx.market, current_slot));
    lemma_quantized_end_is_multiple(end_slot, interval);
    lemma_multiples_differ_by_multiple(stake.end_slot as int, start as int, interval as int);
    assert(aligned(stake, start, interval));
    if current_slot > ctx.market.start_slot {
        lemma_later_bucket(current_slot, stake.end_slot, start, interval);
    } else {
        lemma_aligned_index(stake, start, interval, frontier);
    }
    assert(target < index_of(stake, start, interval));
    let caught_up = created.update_exits(current_slot).unwrap();
    assert(caught_up.position_b == position);
    joining_conserves(ctx.exits, ctx.market, ctx.bookkeeping, stakes, frontier, stake, current_slot);
}

/// A withdrawal of token A by a position of token B keeps the market's
/// accounts in order, under the conditions of [`advance_conserves`] for
/// the settlement slot: it catches the market up and leaves the ledger
/// and the schedule otherwise alone.
pub proof fn withdrawal_of_a_conserves(
    ctx: WithdrawSwappedTokensAView,
    stakes: Seq<Stake>,
    frontier: int,
    current_slot: u64,
)
    requires
        conserved(ctx.exits, ctx.market, stakes, frontier),
        ctx.withdraw(current_slot).1 is Ok,
        frontier <= frontier_after(
            ctx.exits,
            ctx.market,
            frontier,
            settlement_slot(current_slot, ctx.position_b.end_slot),
        ) < frontier + ctx.exits.len(),
        in_window(
            stakes,
            ctx.exits.start_slot,
            ctx.market.end_slot_interval,
            ctx.exits.len(),
            frontier,
            frontier_after(
                ctx.exits,
                ctx.market,
                frontier,
                settlement_slot(current_slot, ctx.position_b.end_slot),
            ),
        ),
    ensures
        conserved(
            ctx.withdraw(current_slot).0.exits,
            ctx.withdraw(current_slot).0.market,
            stakes,
            frontier_after(
                ctx.exits,
                ctx.market,
                frontier,
                settlement_slot(current_slot, ctx.position_b.end_slot),
            ),
        ),
{
    let slot = settlement_slot(current_slot, ctx.position_b.end_slot);
    advance_conserves(ctx.exits, ctx.market, ctx.bookkeeping, stakes, frontier, slot);
}

/// Closing a position of token B keeps the market's accounts in order.
/// Closed before its end, the position's stake, the `k`-th of `stakes`,
/// leaves the accounts with it: its rate comes off the ledger at once and
/// its expiry comes out of the schedule, so that the bucket does not take
/// the rate off a second time. Closed at or after its end, the stake
/// stays: its bucket has taken the rate off the ledger, and both are left
/// alone. The conditions are those of [`advance_conserves`] for the
/// settlement slot; a position that is closed early before the market
/// starts must find the frontier before its end.
pub proof fn closing_b_conserves(
    ctx: ClosePositionBView,
    stakes: Seq<Stake>,
    frontier: int,
    k: int,
    current_slot: u64,
)
    requires
        ctx.position_b.wf(),
        conserved(ctx.exits, ctx.market, stakes, frontier),
        ctx.close(current_slot).1 is Ok,
        0 <= k < stakes.len(),
        stakes[k] == (Stake {
            side: Side::B,
            rate: ctx.position_b.rate() as u64,
            end_slot: ctx.position_b.end_slot,
        }),
        current_slot <= ctx.market.start_slot ==> bucket_slot(
            frontier,
            ctx.exits.start_slot,
            ctx.market.end_slot_interval,
        ) < ctx.position_b.end_slot,
        frontier <= frontier_after(
            ctx.exits,
            ctx.market,
            frontier,
            settlement_slot(current_slot, ctx.position_b.end_slot),
        ) < frontier + ctx.exits.len(),
        in_window(
            stakes,
            ctx.exits.start_slot,
            ctx.market.end_slot_interval,
            ctx.exits.len(),
            frontier,
            frontier_after(
                ctx.exits,
                ctx.market,
                frontier,
                settlement_slot(current_slot, ctx.position_b.end_slot),
            ),
        ),
    ensures
        conserved(
            ctx.close(current_slot).0.exits,
            ctx.close(current_slot).0.market,
            if current_slot < ctx.position_b.end_slot {
                stakes.remove(k)
            } else {
                stakes
            },
            frontier_after(
                ctx.exits,
                ctx.market,
                frontier,
                settlement_slot(current_slot, ctx.position_b.end_slot),
            ),
        ),
{
    let interval = ctx.market.end_slot_interval;
    let start = ctx.exits.start_slot;
    let position = ctx.position_b;
    let slot = settlement_slot(current_slot, position.end_slot);
    let target = frontier_after(ctx.exits, ctx.market, frontier, slot);
    lemma_rate_fits(position.amount, position.start_slot, position.end_slot);
    let caught_up = ctx.update_exits(current_slot).unwrap();
    let (settled, payout) = caught_up.withdraw_tokens(current_slot).unwrap();
    assert(settled.market == caught_up.market && settled.exits == caught_up.exits);
    assert(settled.position_b.rate() == position.rate());
    assert(settled.position_b.end_slot == position.end_slot);
    if current_slot < position.end_slot {
        if current_slot > ctx.market.start_slot {
            lemma_due_slot_fits(target, current_slot, start, interval);
        }
        lemma_aligned_index(stakes[k], start, interval, target);
        leaving_early_conserves(
            ctx.exits,
            ctx.market,
            ctx.bookkeeping,
            stakes,
            frontier,
            k,
            current_slot,
        );
    } else {
        advance_conserves(ctx.exits, ctx.market, ctx.bookkeeping, stakes, frontier, slot);
    }
}

} // verus!
