use vstd::prelude::*;
use vstd::arithmetic::div_mod::{
    lemma_fundamental_div_mod,
    lemma_mod_bound,
    lemma_mod_multiples_basic,
};
use crate::schedule::lemma_backlog_bounded;
use crate::state::bookkeeping::Bookkeeping;
use crate::state::exits::{ExitsView, Flow};
use crate::state::market::Market;
use crate::state::prices::PricesView;

verus! {

/// A catch-up processes fewer buckets than the ring has, however far
/// `current_slot` lies ahead.
pub proof fn advance_is_bounded(exits: ExitsView, market: Market, current_slot: u64)
    requires
        exits.wf(),
    ensures
        0 <= exits.due(market, current_slot) < exits.len(),
{
    lemma_backlog_bounded(
        exits.pointer,
        exits.target(current_slot, market.end_slot_interval),
        exits.len(),
    );
}

/// A second catch-up to the same slot finds nothing due: it leaves the
/// pointer, the ledger, the integrator and the price history as the first
/// one left them.
pub proof fn advance_is_idempotent(
    exits: ExitsView,
    market: Market,
    book: Bookkeeping,
    prices: PricesView,
    current_slot: u64,
)
    requires
        exits.wf(),
        prices.wf(),
        prices.len() == exits.len(),
        exits.advanced(market, book, current_slot) is Some,
    ensures
        ({
            let flow = exits.advanced(market, book, current_slot).unwrap();
            let moved = ExitsView { pointer: exits.pointer_after(market, current_slot), ..exits };
            let ledger = flow.ledger(market);
            let history = exits.history_after(prices, market, book, current_slot);
            &&& moved.due(ledger, current_slot) == 0
            &&& moved.advanced(ledger, flow.book, current_slot) == Some(flow)
            &&& flow.ledger(ledger) == ledger
            &&& moved.pointer_after(ledger, current_slot) == moved.pointer
            &&& moved.history_after(history, ledger, flow.book, current_slot) == history
        }),
{
    let flow = exits.advanced(market, book, current_slot).unwrap();
    let moved = ExitsView { pointer: exits.pointer_after(market, current_slot), ..exits };
    let ledger = flow.ledger(market);
    let history = exits.history_after(prices, market, book, current_slot);
    let len = exits.len();
    let target = exits.target(current_slot, market.end_slot_interval);
    if current_slot > market.start_slot {
        lemma_fundamental_div_mod(target, len);
        lemma_mod_bound(target, len);
        assert(target - target % len == (target / len) * len) by (nonlinear_arith)
            requires
                target == len * (target / len) + target % len,
        ;
        lemma_mod_multiples_basic(target / len, len);
        assert(moved.due(ledger, current_slot) == 0);
    }
    let first = moved.target(current_slot, ledger.end_slot_interval) + 1;
    assert(history.wf() && history.len() == len);
    let again = moved.recorded(history, Flow::of(ledger, flow.book), ledger.end_slot_interval, first, 0);
    assert forall|b: int| 0 <= b < len implies moved.entry(
        history,
        Flow::of(ledger, flow.book),
        ledger.end_slot_interval,
        first,
        0,
        b,
    ) == history.at(b) by {
        lemma_mod_bound(b - first, len);
    }
    assert(again.a_per_b =~= history.a_per_b);
    assert(again.b_per_a =~= history.b_per_a);
    assert(again.no_trade_slots =~= history.no_trade_slots);
}

} // verus!
