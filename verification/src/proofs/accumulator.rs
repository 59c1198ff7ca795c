use vstd::prelude::*;
use crate::state::bookkeeping::{no_less, update_is_monotonic, Bookkeeping};
use crate::state::exits::{ExitsView, Flow};
use crate::state::market::Market;

verus! {

/// A run over any number of buckets never lowers a counter, the idle count
/// or the last slot.
pub proof fn run_is_monotonic(exits: ExitsView, flow: Flow, interval: u64, first: int, count: nat)
    requires
        exits.run(flow, interval, first, count) is Some,
    ensures
        no_less(flow.book, exits.run(flow, interval, first, count).unwrap().book),
    decreases count,
{
    if count > 0 {
        let before = exits.run(flow, interval, first, (count - 1) as nat).unwrap();
        run_is_monotonic(exits, flow, interval, first, (count - 1) as nat);
        let index = first + count - 1;
        let slot = crate::schedule::bucket_slot(index, exits.start_slot, interval);
        update_is_monotonic(before.book, before.volume_a, before.volume_b, slot as u64);
    }
}

/// A catch-up never lowers a counter, the idle count or the last slot.
pub proof fn advance_is_monotonic(
    exits: ExitsView,
    market: Market,
    book: Bookkeeping,
    current_slot: u64,
)
    requires
        exits.advanced(market, book, current_slot) is Some,
    ensures
        no_less(book, exits.advanced(market, book, current_slot).unwrap().book),
{
    if current_slot > market.start_slot {
        let target = exits.target(current_slot, market.end_slot_interval);
        let count = exits.due(market, current_slot);
        run_is_monotonic(
            exits,
            Flow::of(market, book),
            market.end_slot_interval,
            target - count + 1,
            count as nat,
        );
    }
}

/// The schedule, the market and the integrator after one catch-up to each
/// of `slots` in turn, or `None` as soon as one of them fails.
pub open spec fn advanced_through(
    exits: ExitsView,
    market: Market,
    book: Bookkeeping,
    slots: Seq<u64>,
) -> Option<(ExitsView, Market, Bookkeeping)>
    decreases slots.len(),
{
    if slots.len() == 0 {
        Some((exits, market, book))
    } else {
        match advanced_through(exits, market, book, slots.drop_last()) {
            Some((e, m, b)) => match e.advanced(m, b, slots.last()) {
                Some(flow) => Some(
                    (
                        ExitsView { pointer: e.pointer_after(m, slots.last()), ..e },
                        flow.ledger(m),
                        flow.book,
                    ),
                ),
                None => None,
            },
            None => None,
        }
    }
}

/// Over any sequence of catch-ups that all succeed, the two counters, the
/// idle count and the last slot never decrease. A catch-up to a slot that
/// would take the integrator back fails, so the slots of such a sequence
/// are in order as far as the integrator is concerned.
pub proof fn advances_are_monotonic(
    exits: ExitsView,
    market: Market,
    book: Bookkeeping,
    slots: Seq<u64>,
)
    requires
        advanced_through(exits, market, book, slots) is Some,
    ensures
        no_less(book, advanced_through(exits, market, book, slots).unwrap().2),
    decreases slots.len(),
{
    if slots.len() > 0 {
        advances_are_monotonic(exits, market, book, slots.drop_last());
        let (e, m, b) = advanced_through(exits, market, book, slots.drop_last()).unwrap();
        advance_is_monotonic(e, m, b, slots.last());
    }
}

} // verus!
