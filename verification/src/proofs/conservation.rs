use vstd::prelude::*;
use vstd::arithmetic::div_mod::{
    lemma_fundamental_div_mod,
    lemma_mod_bound,
    lemma_small_mod,
    lemma_sub_mod_noop,
};
use crate::schedule::{absolute_index, bucket_slot};
use crate::state::bookkeeping::Bookkeeping;
use crate::state::exits::{ExitsView, Flow};
use crate::state::market::{Market, Side};

verus! {

/// A position as the ledger and the schedule see it: the side it flows
/// on, its rate, and the slot at which its flow ends.
pub struct Stake {
    pub side: Side,
    pub rate: u64,
    pub end_slot: u64,
}

/// The sum of the rates of the stakes that `counts` selects.
pub open spec fn total(stakes: Seq<Stake>, counts: spec_fn(Stake) -> bool) -> int
    decreases stakes.len(),
{
    if stakes.len() == 0 {
        0
    } else {
        total(stakes.drop_last(), counts) + if counts(stakes.last()) {
            stakes.last().rate as int
        } else {
            0
        }
    }
}

/// The volume that `stakes` keep flowing on `side` after `slot`: the sum
/// of the rates of those that end later.
pub open spec fn flowing(stakes: Seq<Stake>, side: Side, slot: int) -> int {
    total(stakes, |s: Stake| s.side == side && s.end_slot > slot)
}

/// The volume of `stakes` that leaves `side` at `slot`: the sum of the
/// rates of those that end there.
pub open spec fn expiring(stakes: Seq<Stake>, side: Side, slot: int) -> int {
    total(stakes, |s: Stake| s.side == side && s.end_slot == slot)
}

/// The ring position of the bucket that holds `slot` on a ring of `len`
/// buckets that starts at `start_slot`.
pub open spec fn ring_position(slot: u64, start_slot: u64, interval: u64, len: int) -> int {
    absolute_index(slot, start_slot, interval) % len
}

/// The volume of `stakes` that is scheduled to leave `side` through
/// `bucket`: the sum of the rates of those whose end slot the bucket
/// holds.
pub open spec fn scheduled(
    stakes: Seq<Stake>,
    side: Side,
    bucket: int,
    start_slot: u64,
    interval: u64,
    len: int,
) -> int {
    total(
        stakes,
        |s: Stake| s.side == side && ring_position(s.end_slot, start_slot, interval, len) == bucket,
    )
}

/// The stake ends on a bucket boundary of the schedule.
pub open spec fn aligned(stake: Stake, start_slot: u64, interval: u64) -> bool {
    start_slot <= stake.end_slot && (stake.end_slot - start_slot) % (interval as int) == 0
}

/// Two selections that agree on every stake give one sum.
pub proof fn lemma_total_agrees(
    stakes: Seq<Stake>,
    f: spec_fn(Stake) -> bool,
    g: spec_fn(Stake) -> bool,
)
    requires
        forall|i: int| 0 <= i < stakes.len() ==> f(#[trigger] stakes[i]) == g(stakes[i]),
    ensures
        total(stakes, f) == total(stakes, g),
    decreases stakes.len(),
{
    if stakes.len() > 0 {
        let rest = stakes.drop_last();
        assert forall|i: int| 0 <= i < rest.len() implies f(#[trigger] rest[i]) == g(rest[i]) by {
            assert(rest[i] == stakes[i]);
        }
        lemma_total_agrees(rest, f, g);
        assert(stakes.last() == stakes[stakes.len() - 1]);
    }
}

/// A selection that two others part between them sums to their two sums.
pub proof fn lemma_total_splits(
    stakes: Seq<Stake>,
    f: spec_fn(Stake) -> bool,
    g: spec_fn(Stake) -> bool,
    h: spec_fn(Stake) -> bool,
)
    requires
        forall|i: int|
            0 <= i < stakes.len() ==> (f(#[trigger] stakes[i]) == (g(stakes[i]) || h(stakes[i])))
                && !(g(stakes[i]) && h(stakes[i])),
    ensures
        total(stakes, f) == total(stakes, g) + total(stakes, h),
    decreases stakes.len(),
{
    if stakes.len() > 0 {
        let rest = stakes.drop_last();
        assert forall|i: int| 0 <= i < rest.len() implies (f(#[trigger] rest[i]) == (g(rest[i])
            || h(rest[i]))) && !(g(rest[i]) && h(rest[i])) by {
            assert(rest[i] == stakes[i]);
        }
        lemma_total_splits(rest, f, g, h);
        assert(stakes.last() == stakes[stakes.len() - 1]);
    }
}

/// A new stake adds its rate to every sum that selects it.
pub proof fn lemma_total_push(stakes: Seq<Stake>, stake: Stake, f: spec_fn(Stake) -> bool)
    ensures
        total(stakes.push(stake), f) == total(stakes, f) + if f(stake) {
            stake.rate as int
        } else {
            0
        },
{
    assert(stakes.push(stake).drop_last() =~= stakes);
}

/// A stake that leaves takes its rate out of every sum that selects it.
pub proof fn lemma_total_remove(stakes: Seq<Stake>, k: int, f: spec_fn(Stake) -> bool)
    requires
        0 <= k < stakes.len(),
    ensures
        total(stakes.remove(k), f) == total(stakes, f) - if f(stakes[k]) {
            stakes[k].rate as int
        } else {
            0
        },
    decreases stakes.len(),
{
    if k == stakes.len() - 1 {
        assert(stakes.remove(k) =~= stakes.drop_last());
    } else {
        let rest = stakes.drop_last();
        lemma_total_remove(rest, k, f);
        assert(stakes.remove(k).drop_last() =~= rest.remove(k));
        assert(stakes.remove(k).last() == stakes.last());
        assert(rest[k] == stakes[k]);
    }
}

/// The absolute index of the bucket that holds the stake's end slot.
pub open spec fn index_of(stake: Stake, start_slot: u64, interval: u64) -> int {
    absolute_index(stake.end_slot, start_slot, interval)
}

/// An aligned stake ends exactly at the slot of its bucket, and its
/// position relative to any bucket can be read off the indices.
pub proof fn lemma_aligned_index(stake: Stake, start_slot: u64, interval: u64, index: int)
    requires
        0 < interval,
        aligned(stake, start_slot, interval),
    ensures
        0 <= index_of(stake, start_slot, interval),
        stake.end_slot == bucket_slot(index_of(stake, start_slot, interval), start_slot, interval),
        (stake.end_slot == bucket_slot(index, start_slot, interval)) <==> index_of(
            stake,
            start_slot,
            interval,
        ) == index,
        (stake.end_slot > bucket_slot(index, start_slot, interval)) <==> index_of(
            stake,
            start_slot,
            interval,
        ) > index,
{
    let span = stake.end_slot - start_slot;
    let own = span / (interval as int);
    lemma_fundamental_div_mod(span, interval as int);
    assert(span == own * interval) by (nonlinear_arith)
        requires
            span == interval * own + 0,
    ;
    assert(0 <= own) by (nonlinear_arith)
        requires
            span == own * interval,
            0 <= span,
            0 < interval,
    ;
    assert((own * interval == index * interval) <==> own == index) by (nonlinear_arith)
        requires
            0 < interval,
    ;
    assert((own * interval > index * interval) <==> own > index) by (nonlinear_arith)
        requires
            0 < interval,
    ;
}

/// Two indices less than a lap apart that fall on one ring position are
/// one index.
pub proof fn lemma_same_position(a: int, b: int, len: int)
    requires
        0 < len,
        -len < a - b < len,
        a % len == b % len,
    ensures
        a == b,
{
    lemma_fundamental_div_mod(a, len);
    lemma_fundamental_div_mod(b, len);
    let qa = a / len;
    let qb = b / len;
    assert(a - b == len * (qa - qb)) by (nonlinear_arith)
        requires
            a == len * qa + a % len,
            b == len * qb + b % len,
            a % len == b % len,
    ;
    assert(qa == qb) by (nonlinear_arith)
        requires
            a - b == len * (qa - qb),
            -len < a - b < len,
            0 < len,
    ;
}

/// Every stake ends on a bucket boundary of the schedule.
pub open spec fn all_aligned(stakes: Seq<Stake>, start_slot: u64, interval: u64) -> bool {
    forall|i: int| 0 <= i < stakes.len() ==> aligned(#[trigger] stakes[i], start_slot, interval)
}

/// Every stake ends after the bucket a lap before `target` and no later
/// than a lap after `frontier`: between these two, each ring position
/// stands for one bucket only.
pub open spec fn in_window(
    stakes: Seq<Stake>,
    start_slot: u64,
    interval: u64,
    len: int,
    frontier: int,
    target: int,
) -> bool {
    forall|i: int|
        0 <= i < stakes.len() ==> target - len < index_of(
            #[trigger] stakes[i],
            start_slot,
            interval,
        ) <= frontier + len
}

/// What flows after one bucket is what flows after the next, and what
/// ends at the next.
pub proof fn lemma_flowing_step(
    stakes: Seq<Stake>,
    side: Side,
    start_slot: u64,
    interval: u64,
    index: int,
)
    requires
        0 < interval,
        all_aligned(stakes, start_slot, interval),
    ensures
        flowing(stakes, side, bucket_slot(index - 1, start_slot, interval)) == expiring(
            stakes,
            side,
            bucket_slot(index, start_slot, interval),
        ) + flowing(stakes, side, bucket_slot(index, start_slot, interval)),
{
    let before = bucket_slot(index - 1, start_slot, interval);
    let here = bucket_slot(index, start_slot, interval);
    let f = |s: Stake| s.side == side && s.end_slot > before;
    let g = |s: Stake| s.side == side && s.end_slot == here;
    let h = |s: Stake| s.side == side && s.end_slot > here;
    assert forall|i: int| 0 <= i < stakes.len() implies (f(#[trigger] stakes[i]) == (g(stakes[i])
        || h(stakes[i]))) && !(g(stakes[i]) && h(stakes[i])) by {
        lemma_aligned_index(stakes[i], start_slot, interval, index);
        lemma_aligned_index(stakes[i], start_slot, interval, index - 1);
    }
    lemma_total_splits(stakes, f, g, h);
}

/// Within the window, a bucket holds what ends at its slot and nothing
/// else.
pub proof fn lemma_bucket_holds_expiring(
    stakes: Seq<Stake>,
    side: Side,
    start_slot: u64,
    interval: u64,
    len: int,
    frontier: int,
    target: int,
    index: int,
)
    requires
        0 < interval,
        0 < len,
        all_aligned(stakes, start_slot, interval),
        in_window(stakes, start_slot, interval, len, frontier, target),
        frontier < index <= target,
    ensures
        scheduled(stakes, side, index % len, start_slot, interval, len) == expiring(
            stakes,
            side,
            bucket_slot(index, start_slot, interval),
        ),
{
    let here = bucket_slot(index, start_slot, interval);
    let f = |s: Stake|
        s.side == side && ring_position(s.end_slot, start_slot, interval, len) == index % len;
    let g = |s: Stake| s.side == side && s.end_slot == here;
    assert forall|i: int| 0 <= i < stakes.len() implies f(#[trigger] stakes[i]) == g(
        stakes[i],
    ) by {
        let own = index_of(stakes[i], start_slot, interval);
        lemma_aligned_index(stakes[i], start_slot, interval, index);
        if own % len == index % len {
            lemma_same_position(own, index, len);
        }
    }
    lemma_total_agrees(stakes, f, g);
}

/// The buckets of the schedule hold, for each side, the rates of the
/// stakes that end in them.
pub open spec fn schedule_matches(exits: ExitsView, stakes: Seq<Stake>, interval: u64) -> bool {
    forall|b: int|
        0 <= b < exits.len() ==> #[trigger] exits.token_a[b] == scheduled(
            stakes,
            Side::A,
            b,
            exits.start_slot,
            interval,
            exits.len(),
        ) && exits.token_b[b] == scheduled(
            stakes,
            Side::B,
            b,
            exits.start_slot,
            interval,
            exits.len(),
        )
}

/// The ledger holds, for each side, the rates of the stakes that end after
/// `slot`.
pub open spec fn ledger_matches(volume_a: u64, volume_b: u64, stakes: Seq<Stake>, slot: int) -> bool {
    &&& volume_a == flowing(stakes, Side::A, slot)
    &&& volume_b == flowing(stakes, Side::B, slot)
}

/// The market accounts for `stakes`, its schedule having been processed
/// up to the bucket with absolute index `frontier`: the records are well
/// formed, the schedule starts on a multiple of the interval and its
/// pointer is the frontier's ring position, every stake ends on a bucket
/// boundary, each bucket holds the rates of the stakes that end in it, and
/// each side of the ledger carries the rates of the stakes that end after
/// the frontier's slot.
pub open spec fn conserved(
    exits: ExitsView,
    market: Market,
    stakes: Seq<Stake>,
    frontier: int,
) -> bool {
    &&& exits.wf()
    &&& market.wf()
    &&& exits.start_slot <= market.start_slot
    &&& exits.start_slot % market.end_slot_interval == 0
    &&& 0 <= frontier
    &&& frontier % exits.len() == exits.pointer
    &&& all_aligned(stakes, exits.start_slot, market.end_slot_interval)
    &&& schedule_matches(exits, stakes, market.end_slot_interval)
    &&& ledger_matches(
        market.token_a_volume,
        market.token_b_volume,
        stakes,
        bucket_slot(frontier, exits.start_slot, market.end_slot_interval),
    )
}

/// The buckets with the absolute indices `first`, `first + 1`, ... hold,
/// for each of the `count` steps of a run, what ends at the step's slot.
pub open spec fn run_sees_expiring(
    exits: ExitsView,
    stakes: Seq<Stake>,
    interval: u64,
    first: int,
    count: nat,
) -> bool {
    forall|k: int|
        0 <= k < count ==> exits.token_a[#[trigger] ((first + k) % exits.len())] == expiring(
            stakes,
            Side::A,
            bucket_slot(first + k, exits.start_slot, interval),
        ) && exits.token_b[(first + k) % exits.len()] == expiring(
            stakes,
            Side::B,
            bucket_slot(first + k, exits.start_slot, interval),
        )
}

/// A run whose buckets hold what ends at their slots takes the ledger from
/// what flows after the bucket before the first to what flows after the
/// last.
pub proof fn lemma_run_conserves(
    exits: ExitsView,
    flow: Flow,
    interval: u64,
    first: int,
    count: nat,
    stakes: Seq<Stake>,
)
    requires
        0 < interval,
        all_aligned(stakes, exits.start_slot, interval),
        ledger_matches(
            flow.volume_a,
            flow.volume_b,
            stakes,
            bucket_slot(first - 1, exits.start_slot, interval),
        ),
        run_sees_expiring(exits, stakes, interval, first, count),
        exits.run(flow, interval, first, count) is Some,
    ensures
        ({
            let after = exits.run(flow, interval, first, count).unwrap();
            ledger_matches(
                after.volume_a,
                after.volume_b,
                stakes,
                bucket_slot(first + count - 1, exits.start_slot, interval),
            )
        }),
    decreases count,
{
    if count > 0 {
        let shorter = (count - 1) as nat;
        assert(run_sees_expiring(exits, stakes, interval, first, shorter));
        lemma_run_conserves(exits, flow, interval, first, shorter, stakes);
        let before = exits.run(flow, interval, first, shorter).unwrap();
        let index = first + count - 1;
        assert(index == first + (count - 1));
        let position = (first + (count - 1)) % exits.len();
        assert(exits.token_a[position] == expiring(
            stakes,
            Side::A,
            bucket_slot(index, exits.start_slot, interval),
        ));
        assert(exits.token_b[position] == expiring(
            stakes,
            Side::B,
            bucket_slot(index, exits.start_slot, interval),
        ));
        lemma_flowing_step(stakes, Side::A, exits.start_slot, interval, index);
        lemma_flowing_step(stakes, Side::B, exits.start_slot, interval, index);
    }
}

/// The absolute index at which a catch-up to `current_slot` leaves the
/// frontier: that of the bucket that holds the slot, or the old frontier
/// while the market has not started.
pub open spec fn frontier_after(
    exits: ExitsView,
    market: Market,
    frontier: int,
    current_slot: u64,
) -> int {
    if current_slot <= market.start_slot {
        frontier
    } else {
        exits.target(current_slot, market.end_slot_interval)
    }
}

/// A catch-up keeps the market's accounts in order: if the market
/// accounts for `stakes` up to `frontier`, then after a catch-up to
/// `current_slot` that succeeds it accounts for them up to the bucket of
/// that slot. This holds where the catch-up does not go backwards, spans
/// less than a lap of the ring, and every stake lies in the window of the
/// old and the new frontier; outside of that, buckets are skipped or met
/// a second time and the ledger loses track.
pub proof fn advance_conserves(
    exits: ExitsView,
    market: Market,
    book: Bookkeeping,
    stakes: Seq<Stake>,
    frontier: int,
    current_slot: u64,
)
    requires
        conserved(exits, market, stakes, frontier),
        frontier <= frontier_after(exits, market, frontier, current_slot) < frontier + exits.len(),
        in_window(
            stakes,
            exits.start_slot,
            market.end_slot_interval,
            exits.len(),
            frontier,
            frontier_after(exits, market, frontier, current_slot),
        ),
        exits.advanced(market, book, current_slot) is Some,
    ensures
        conserved(
            ExitsView { pointer: exits.pointer_after(market, current_slot), ..exits },
            exits.advanced(market, book, current_slot).unwrap().ledger(market),
            stakes,
            frontier_after(exits, market, frontier, current_slot),
        ),
{
    let interval = market.end_slot_interval;
    let len = exits.len();
    let target = frontier_after(exits, market, frontier, current_slot);
    let moved = ExitsView { pointer: exits.pointer_after(market, current_slot), ..exits };
    let flow = exits.advanced(market, book, current_slot).unwrap();
    if current_slot > market.start_slot {
        lemma_due_is_the_gap(exits, market, frontier, current_slot);
        let count = exits.due(market, current_slot);
        assert(count == target - frontier);
        let first = frontier + 1;
        assert(target - count + 1 == first);
        assert forall|k: int| 0 <= k < count implies exits.token_a[#[trigger] ((first + k) % len)]
            == expiring(stakes, Side::A, bucket_slot(first + k, exits.start_slot, interval))
            && exits.token_b[(first + k) % len] == expiring(
            stakes,
            Side::B,
            bucket_slot(first + k, exits.start_slot, interval),
        ) by {
            lemma_mod_bound(first + k, len);
            lemma_bucket_holds_expiring(
                stakes,
                Side::A,
                exits.start_slot,
                interval,
                len,
                frontier,
                target,
                first + k,
            );
            lemma_bucket_holds_expiring(
                stakes,
                Side::B,
                exits.start_slot,
                interval,
                len,
                frontier,
                target,
                first + k,
            );
        }
        lemma_run_conserves(exits, Flow::of(market, book), interval, first, count as nat, stakes);
        lemma_mod_bound(target, len);
    }
    assert forall|b: int| 0 <= b < moved.len() implies #[trigger] moved.token_a[b] == scheduled(
        stakes,
        Side::A,
        b,
        moved.start_slot,
        interval,
        moved.len(),
    ) && moved.token_b[b] == scheduled(
        stakes,
        Side::B,
        b,
        moved.start_slot,
        interval,
        moved.len(),
    ) by {
        assert(exits.token_a[b] == moved.token_a[b]);
    }
}

/// Where the frontier lies less than a lap behind the target, the buckets
/// due are those between the two.
pub proof fn lemma_due_is_the_gap(
    exits: ExitsView,
    market: Market,
    frontier: int,
    current_slot: u64,
)
    requires
        exits.wf(),
        market.start_slot < current_slot,
        frontier % exits.len() == exits.pointer,
        frontier <= exits.target(current_slot, market.end_slot_interval) < frontier + exits.len(),
    ensures
        exits.due(market, current_slot) == exits.target(current_slot, market.end_slot_interval)
            - frontier,
{
    let len = exits.len();
    let target = exits.target(current_slot, market.end_slot_interval);
    lemma_sub_mod_noop(target, frontier, len);
    lemma_sub_mod_noop(target, exits.pointer as int, len);
    lemma_small_mod(exits.pointer as nat, len as nat);
    lemma_small_mod((target - frontier) as nat, len as nat);
}

/// A registration puts the new stake's rate into the bucket that holds its
/// end slot, so that the schedule matches the stakes with the new one
/// among them.
pub proof fn lemma_register_matches(
    exits: ExitsView,
    stakes: Seq<Stake>,
    stake: Stake,
    interval: u64,
)
    requires
        exits.wf(),
        0 < interval,
        schedule_matches(exits, stakes, interval),
        exits.registered(stake.side, stake.end_slot, stake.rate, interval) is Some,
    ensures
        schedule_matches(
            exits.registered(stake.side, stake.end_slot, stake.rate, interval).unwrap(),
            stakes.push(stake),
            interval,
        ),
{
    let registered = exits.registered(stake.side, stake.end_slot, stake.rate, interval).unwrap();
    let len = exits.len();
    let start = exits.start_slot;
    lemma_mod_bound(absolute_index(stake.end_slot, start, interval), len);
    assert(registered.len() == len && registered.start_slot == start);
    assert forall|b: int| 0 <= b < len implies #[trigger] registered.token_a[b] == scheduled(
        stakes.push(stake),
        Side::A,
        b,
        start,
        interval,
        len,
    ) && registered.token_b[b] == scheduled(stakes.push(stake), Side::B, b, start, interval, len) by {
        assert(exits.token_a[b] == scheduled(stakes, Side::A, b, start, interval, len));
        lemma_total_push(
            stakes,
            stake,
            |s: Stake|
                s.side == Side::A && ring_position(s.end_slot, start, interval, len) == b,
        );
        lemma_total_push(
            stakes,
            stake,
            |s: Stake|
                s.side == Side::B && ring_position(s.end_slot, start, interval, len) == b,
        );
    }
}

/// A cancellation takes the stake's rate out of the bucket that holds its
/// end slot, so that the schedule matches the stakes without it.
pub proof fn lemma_cancel_matches(exits: ExitsView, stakes: Seq<Stake>, k: int, interval: u64)
    requires
        exits.wf(),
        0 < interval,
        0 <= k < stakes.len(),
        schedule_matches(exits, stakes, interval),
        exits.cancelled(stakes[k].side, stakes[k].end_slot, stakes[k].rate, interval) is Some,
    ensures
        schedule_matches(
            exits.cancelled(stakes[k].side, stakes[k].end_slot, stakes[k].rate, interval).unwrap(),
            stakes.remove(k),
            interval,
        ),
{
    let stake = stakes[k];
    let cancelled = exits.cancelled(stake.side, stake.end_slot, stake.rate, interval).unwrap();
    let len = exits.len();
    let start = exits.start_slot;
    lemma_mod_bound(absolute_index(stake.end_slot, start, interval), len);
    assert forall|b: int| 0 <= b < len implies #[trigger] cancelled.token_a[b] == scheduled(
        stakes.remove(k),
        Side::A,
        b,
        start,
        interval,
        len,
    ) && cancelled.token_b[b] == scheduled(stakes.remove(k), Side::B, b, start, interval, len) by {
        assert(exits.token_a[b] == scheduled(stakes, Side::A, b, start, interval, len));
        lemma_total_remove(
            stakes,
            k,
            |s: Stake|
                s.side == Side::A && ring_position(s.end_slot, start, interval, len) == b,
        );
        lemma_total_remove(
            stakes,
            k,
            |s: Stake|
                s.side == Side::B && ring_position(s.end_slot, start, interval, len) == b,
        );
    }
}

/// A stake that ends after the target of a run shares no bucket with the
/// run's steps, as long as it ends within a lap of the frontier.
pub proof fn lemma_later_stake_is_not_met(
    stake: Stake,
    start_slot: u64,
    interval: u64,
    len: int,
    frontier: int,
    target: int,
    index: int,
)
    requires
        0 < interval,
        0 < len,
        aligned(stake, start_slot, interval),
        frontier < index <= target,
        target < index_of(stake, start_slot, interval) <= frontier + len,
    ensures
        ring_position(stake.end_slot, start_slot, interval, len) != index % len,
        stake.end_slot != bucket_slot(index, start_slot, interval),
        stake.end_slot > bucket_slot(target, start_slot, interval),
{
    let own = index_of(stake, start_slot, interval);
    if own % len == index % len {
        lemma_same_position(own, index, len);
    }
    lemma_aligned_index(stake, start_slot, interval, index);
    lemma_aligned_index(stake, start_slot, interval, target);
}

/// A position that joins keeps the market's accounts in order: its expiry
/// is registered, the market catches up, and its rate is added to its
/// side of the ledger. The market then accounts for the stakes with the
/// new one among them, up to the bucket of `current_slot`. Beyond what a
/// catch-up asks, the new stake must end on a bucket boundary, after the
/// target and within a lap of the old frontier.
pub proof fn joining_conserves(
    exits: ExitsView,
    market: Market,
    book: Bookkeeping,
    stakes: Seq<Stake>,
    frontier: int,
    stake: Stake,
    current_slot: u64,
)
    requires
        conserved(exits, market, stakes, frontier),
        aligned(stake, exits.start_slot, market.end_slot_interval),
        frontier <= frontier_after(exits, market, frontier, current_slot) < frontier + exits.len(),
        frontier_after(exits, market, frontier, current_slot) < index_of(
            stake,
            exits.start_slot,
            market.end_slot_interval,
        ),
        in_window(
            stakes.push(stake),
            exits.start_slot,
            market.end_slot_interval,
            exits.len(),
            frontier,
            frontier_after(exits, market, frontier, current_slot),
        ),
        exits.registered(stake.side, stake.end_slot, stake.rate, market.end_slot_interval) is Some,
        exits.registered(
            stake.side,
            stake.end_slot,
            stake.rate,
            market.end_slot_interval,
        ).unwrap().advanced(market, book, current_slot) is Some,
        exits.registered(
            stake.side,
            stake.end_slot,
            stake.rate,
            market.end_slot_interval,
        ).unwrap().advanced(market, book, current_slot).unwrap().ledger(market).with_more(
            stake.side,
            stake.rate,
        ) is Some,
    ensures
        ({
            let registered = exits.registered(
                stake.side,
                stake.end_slot,
                stake.rate,
                market.end_slot_interval,
            ).unwrap();
            let flow = registered.advanced(market, book, current_slot).unwrap();
            conserved(
                ExitsView {
                    pointer: registered.pointer_after(market, current_slot),
                    ..registered
                },
                flow.ledger(market).with_more(stake.side, stake.rate).unwrap(),
                stakes.push(stake),
                frontier_after(exits, market, frontier, current_slot),
            )
        }),
{
    let interval = market.end_slot_interval;
    let len = exits.len();
    let start = exits.start_slot;
    let target = frontier_after(exits, market, frontier, current_slot);
    let registered = exits.registered(stake.side, stake.end_slot, stake.rate, interval).unwrap();
    let flow = registered.advanced(market, book, current_slot).unwrap();
    let moved = ExitsView { pointer: registered.pointer_after(market, current_slot), ..registered };
    let joined = flow.ledger(market).with_more(stake.side, stake.rate).unwrap();
    let all = stakes.push(stake);
    lemma_mod_bound(absolute_index(stake.end_slot, start, interval), len);
    lemma_register_matches(exits, stakes, stake, interval);
    assert(all_aligned(all, start, interval)) by {
        assert forall|i: int| 0 <= i < all.len() implies aligned(
            #[trigger] all[i],
            start,
            interval,
        ) by {
            if i < stakes.len() {
                assert(all[i] == stakes[i]);
            }
        }
    }
    assert(in_window(stakes, start, interval, len, frontier, target)) by {
        assert forall|i: int| 0 <= i < stakes.len() implies target - len < index_of(
            #[trigger] stakes[i],
            start,
            interval,
        ) <= frontier + len by {
            assert(all[i] == stakes[i]);
        }
    }
    assert(index_of(stake, start, interval) <= frontier + len) by {
        assert(all[stakes.len() as int] == stake);
    }
    let slot = bucket_slot(target, start, interval);
    if current_slot > market.start_slot {
        lemma_due_is_the_gap(registered, market, frontier, current_slot);
        let count = registered.due(market, current_slot);
        let first = frontier + 1;
        assert(target - count + 1 == first);
        assert forall|k: int| 0 <= k < count implies registered.token_a[#[trigger] ((first + k)
            % len)] == expiring(stakes, Side::A, bucket_slot(first + k, start, interval))
            && registered.token_b[(first + k) % len] == expiring(
            stakes,
            Side::B,
            bucket_slot(first + k, start, interval),
        ) by {
            let index = first + k;
            let here = bucket_slot(index, start, interval);
            lemma_mod_bound(index, len);
            lemma_bucket_holds_expiring(all, Side::A, start, interval, len, frontier, target, index);
            lemma_bucket_holds_expiring(all, Side::B, start, interval, len, frontier, target, index);
            lemma_later_stake_is_not_met(stake, start, interval, len, frontier, target, index);
            lemma_total_push(stakes, stake, |s: Stake| s.side == Side::A && s.end_slot == here);
            lemma_total_push(stakes, stake, |s: Stake| s.side == Side::B && s.end_slot == here);
        }
        lemma_run_conserves(
            registered,
            Flow::of(market, book),
            interval,
            first,
            count as nat,
            stakes,
        );
        lemma_mod_bound(target, len);
    }
    lemma_aligned_index(stake, start, interval, target);
    lemma_total_push(stakes, stake, |s: Stake| s.side == Side::A && s.end_slot > slot);
    lemma_total_push(stakes, stake, |s: Stake| s.side == Side::B && s.end_slot > slot);
    assert forall|b: int| 0 <= b < moved.len() implies #[trigger] moved.token_a[b] == scheduled(
        all,
        Side::A,
        b,
        moved.start_slot,
        interval,
        moved.len(),
    ) && moved.token_b[b] == scheduled(all, Side::B, b, moved.start_slot, interval, moved.len()) by {
        assert(registered.token_a[b] == moved.token_a[b]);
    }
}

/// A position that leaves before its end keeps the market's accounts in
/// order: its expiry is taken out of the schedule, the market catches up,
/// and its rate is taken off its side of the ledger. The market then
/// accounts for the stakes without it, up to the bucket of `current_slot`.
/// Were the expiry left in the schedule, the bucket would take the rate
/// off the ledger a second time. Beyond what a catch-up asks, the stake
/// must end after the target.
pub proof fn leaving_early_conserves(
    exits: ExitsView,
    market: Market,
    book: Bookkeeping,
    stakes: Seq<Stake>,
    frontier: int,
    k: int,
    current_slot: u64,
)
    requires
        conserved(exits, market, stakes, frontier),
        0 <= k < stakes.len(),
        frontier <= frontier_after(exits, market, frontier, current_slot) < frontier + exits.len(),
        frontier_after(exits, market, frontier, current_slot) < index_of(
            stakes[k],
            exits.start_slot,
            market.end_slot_interval,
        ),
        in_window(
            stakes,
            exits.start_slot,
            market.end_slot_interval,
            exits.len(),
            frontier,
            frontier_after(exits, market, frontier, current_slot),
        ),
        exits.cancelled(
            stakes[k].side,
            stakes[k].end_slot,
            stakes[k].rate,
            market.end_slot_interval,
        ) is Some,
        exits.cancelled(
            stakes[k].side,
            stakes[k].end_slot,
            stakes[k].rate,
            market.end_slot_interval,
        ).unwrap().advanced(market, book, current_slot) is Some,
        exits.cancelled(
            stakes[k].side,
            stakes[k].end_slot,
            stakes[k].rate,
            market.end_slot_interval,
        ).unwrap().advanced(market, book, current_slot).unwrap().ledger(market).with_less(
            stakes[k].side,
            stakes[k].rate,
        ) is Some,
    ensures
        ({
            let released = exits.cancelled(
                stakes[k].side,
                stakes[k].end_slot,
                stakes[k].rate,
                market.end_slot_interval,
            ).unwrap();
            let flow = released.advanced(market, book, current_slot).unwrap();
            conserved(
                ExitsView { pointer: released.pointer_after(market, current_slot), ..released },
                flow.ledger(market).with_less(stakes[k].side, stakes[k].rate).unwrap(),
                stakes.remove(k),
                frontier_after(exits, market, frontier, current_slot),
            )
        }),
{
    let interval = market.end_slot_interval;
    let len = exits.len();
    let start = exits.start_slot;
    let stake = stakes[k];
    let target = frontier_after(exits, market, frontier, current_slot);
    let released = exits.cancelled(stake.side, stake.end_slot, stake.rate, interval).unwrap();
    let flow = released.advanced(market, book, current_slot).unwrap();
    let moved = ExitsView { pointer: released.pointer_after(market, current_slot), ..released };
    let rest = stakes.remove(k);
    lemma_mod_bound(absolute_index(stake.end_slot, start, interval), len);
    assert(released.len() == len && released.start_slot == start);
    lemma_cancel_matches(exits, stakes, k, interval);
    assert(all_aligned(rest, start, interval)) by {
        assert forall|i: int| 0 <= i < rest.len() implies aligned(
            #[trigger] rest[i],
            start,
            interval,
        ) by {
            if i < k {
                assert(rest[i] == stakes[i]);
            } else {
                assert(rest[i] == stakes[i + 1]);
            }
        }
    }
    let slot = bucket_slot(target, start, interval);
    if current_slot > market.start_slot {
        lemma_due_is_the_gap(released, market, frontier, current_slot);
        let count = released.due(market, current_slot);
        let first = frontier + 1;
        assert(target - count + 1 == first);
        assert forall|j: int| 0 <= j < count implies released.token_a[#[trigger] ((first + j)
            % len)] == expiring(stakes, Side::A, bucket_slot(first + j, start, interval))
            && released.token_b[(first + j) % len] == expiring(
            stakes,
            Side::B,
            bucket_slot(first + j, start, interval),
        ) by {
            let index = first + j;
            let position = index % len;
            lemma_mod_bound(index, len);
            lemma_bucket_holds_expiring(
                stakes,
                Side::A,
                start,
                interval,
                len,
                frontier,
                target,
                index,
            );
            lemma_bucket_holds_expiring(
                stakes,
                Side::B,
                start,
                interval,
                len,
                frontier,
                target,
                index,
            );
            lemma_later_stake_is_not_met(stake, start, interval, len, frontier, target, index);
            lemma_total_remove(
                stakes,
                k,
                |s: Stake|
                    s.side == Side::A && ring_position(s.end_slot, start, interval, len)
                        == position,
            );
            lemma_total_remove(
                stakes,
                k,
                |s: Stake|
                    s.side == Side::B && ring_position(s.end_slot, start, interval, len)
                        == position,
            );
            assert(released.token_a[position] == scheduled(
                rest,
                Side::A,
                position,
                start,
                interval,
                len,
            ));
        }
        lemma_run_conserves(
            released,
            Flow::of(market, book),
            interval,
            first,
            count as nat,
            stakes,
        );
        lemma_mod_bound(target, len);
    }
    lemma_aligned_index(stake, start, interval, target);
    lemma_total_remove(stakes, k, |s: Stake| s.side == Side::A && s.end_slot > slot);
    lemma_total_remove(stakes, k, |s: Stake| s.side == Side::B && s.end_slot > slot);
    assert forall|b: int| 0 <= b < moved.len() implies #[trigger] moved.token_a[b] == scheduled(
        rest,
        Side::A,
        b,
        moved.start_slot,
        interval,
        moved.len(),
    ) && moved.token_b[b] == scheduled(rest, Side::B, b, moved.start_slot, interval, moved.len()) by {
        assert(released.token_a[b] == moved.token_a[b]);
    }
}

/// A schedule that was just cleared and a market without volume account
/// for no stakes at all.
pub proof fn opening_conserves(exits: ExitsView, market: Market)
    requires
        exits.wf(),
        market.wf(),
        exits.start_slot <= market.start_slot,
        exits.start_slot % market.end_slot_interval == 0,
        exits == ExitsView::zeroed(exits.token_a.len(), exits.start_slot),
        market.token_a_volume == 0,
        market.token_b_volume == 0,
    ensures
        conserved(exits, market, Seq::<Stake>::empty(), 0),
{
    lemma_small_mod(0, exits.len() as nat);
}

/// What the accounts of a market are kept on: the schedule, the ledger,
/// the stakes accounted for, and the absolute index of the last bucket
/// processed.
pub struct Accounts {
    pub exits: ExitsView,
    pub market: Market,
    pub stakes: Seq<Stake>,
    pub frontier: int,
}

/// One change to a market's accounts, with the integrator as it stands
/// when the change is made and the slot at which it is made: a catch-up
/// alone, a stake that joins, or the `k`-th stake leaving before its end.
pub enum Move {
    CatchUp { book: Bookkeeping, slot: u64 },
    Join { book: Bookkeeping, stake: Stake, slot: u64 },
    LeaveEarly { book: Bookkeeping, k: int, slot: u64 },
}

impl Move {
    /// The slot at which the move is made.
    pub open spec fn at(self) -> u64 {
        match self {
            Move::CatchUp { slot, .. } => slot,
            Move::Join { slot, .. } => slot,
            Move::LeaveEarly { slot, .. } => slot,
        }
    }
}

impl Accounts {
    /// The market accounts for its stakes.
    pub open spec fn conserved(self) -> bool {
        conserved(self.exits, self.market, self.stakes, self.frontier)
    }

    /// Where `step` leaves the frontier.
    pub open spec fn target(self, step: Move) -> int {
        frontier_after(self.exits, self.market, self.frontier, step.at())
    }

    /// The move keeps within what the ring can tell apart: the catch-up
    /// does not go backwards and spans less than a lap, every stake,
    /// a joining one included, lies in the window of the old and the new
    /// frontier, and a stake that joins or leaves ends on a bucket
    /// boundary after the new frontier.
    pub open spec fn admits(self, step: Move) -> bool {
        let start = self.exits.start_slot;
        let interval = self.market.end_slot_interval;
        let len = self.exits.len();
        let target = self.target(step);
        &&& self.frontier <= target < self.frontier + len
        &&& match step {
            Move::CatchUp { .. } => in_window(
                self.stakes,
                start,
                interval,
                len,
                self.frontier,
                target,
            ),
            Move::Join { stake, .. } => {
                &&& aligned(stake, start, interval)
                &&& target < index_of(stake, start, interval)
                &&& in_window(self.stakes.push(stake), start, interval, len, self.frontier, target)
            },
            Move::LeaveEarly { k, .. } => {
                &&& 0 <= k < self.stakes.len()
                &&& target < index_of(self.stakes[k], start, interval)
                &&& in_window(self.stakes, start, interval, len, self.frontier, target)
            },
        }
    }

    /// The accounts after `step`, or `None` where the ring cannot tell
    /// the buckets of the move apart or a part of the move fails.
    pub open spec fn after(self, step: Move) -> Option<Accounts> {
        let interval = self.market.end_slot_interval;
        if !self.admits(step) {
            None
        } else {
            match step {
                Move::CatchUp { book, slot } => match self.exits.advanced(self.market, book, slot) {
                    Some(flow) => Some(
                        Accounts {
                            exits: ExitsView {
                                pointer: self.exits.pointer_after(self.market, slot),
                                ..self.exits
                            },
                            market: flow.ledger(self.market),
                            stakes: self.stakes,
                            frontier: self.target(step),
                        },
                    ),
                    None => None,
                },
                Move::Join { book, stake, slot } => match self.exits.registered(
                    stake.side,
                    stake.end_slot,
                    stake.rate,
                    interval,
                ) {
                    Some(registered) => match registered.advanced(self.market, book, slot) {
                        Some(flow) => match flow.ledger(self.market).with_more(
                            stake.side,
                            stake.rate,
                        ) {
                            Some(market) => Some(
                                Accounts {
                                    exits: ExitsView {
                                        pointer: registered.pointer_after(self.market, slot),
                                        ..registered
                                    },
                                    market,
                                    stakes: self.stakes.push(stake),
                                    frontier: self.target(step),
                                },
                            ),
                            None => None,
                        },
                        None => None,
                    },
                    None => None,
                },
                Move::LeaveEarly { book, k, slot } => match self.exits.cancelled(
                    self.stakes[k].side,
                    self.stakes[k].end_slot,
                    self.stakes[k].rate,
                    interval,
                ) {
                    Some(released) => match released.advanced(self.market, book, slot) {
                        Some(flow) => match flow.ledger(self.market).with_less(
                            self.stakes[k].side,
                            self.stakes[k].rate,
                        ) {
                            Some(market) => Some(
                                Accounts {
                                    exits: ExitsView {
                                        pointer: released.pointer_after(self.market, slot),
                                        ..released
                                    },
                                    market,
                                    stakes: self.stakes.remove(k),
                                    frontier: self.target(step),
                                },
                            ),
                            None => None,
                        },
                        None => None,
                    },
                    None => None,
                },
            }
        }
    }

    /// The accounts after each of `steps` in turn, or `None` as soon as
    /// one of them gives none.
    pub open spec fn after_all(self, steps: Seq<Move>) -> Option<Accounts>
        decreases steps.len(),
    {
        if steps.len() == 0 {
            Some(self)
        } else {
            match self.after_all(steps.drop_last()) {
                Some(accounts) => accounts.after(steps.last()),
                None => None,
            }
        }
    }
}

/// One move keeps the market's accounts in order.
pub proof fn move_conserves(accounts: Accounts, step: Move)
    requires
        accounts.conserved(),
        accounts.after(step) is Some,
    ensures
        accounts.after(step).unwrap().conserved(),
{
    match step {
        Move::CatchUp { book, slot } => {
            advance_conserves(
                accounts.exits,
                accounts.market,
                book,
                accounts.stakes,
                accounts.frontier,
                slot,
            );
        },
        Move::Join { book, stake, slot } => {
            joining_conserves(
                accounts.exits,
                accounts.market,
                book,
                accounts.stakes,
                accounts.frontier,
                stake,
                slot,
            );
        },
        Move::LeaveEarly { book, k, slot } => {
            leaving_early_conserves(
                accounts.exits,
                accounts.market,
                book,
                accounts.stakes,
                accounts.frontier,
                k,
                slot,
            );
        },
    }
}

/// Over any sequence of joins, early leaves and catch-ups that the ring
/// can tell apart and that all succeed, the market keeps accounting for
/// its stakes: each bucket holds the rates of the stakes that end in it,
/// and each side of the ledger carries the rates of the stakes that end
/// after the last bucket processed.
pub proof fn moves_conserve(accounts: Accounts, steps: Seq<Move>)
    requires
        accounts.conserved(),
        accounts.after_all(steps) is Some,
    ensures
        accounts.after_all(steps).unwrap().conserved(),
    decreases steps.len(),
{
    if steps.len() > 0 {
        moves_conserve(accounts, steps.drop_last());
        move_conserves(accounts.after_all(steps.drop_last()).unwrap(), steps.last());
    }
}

} // verus!
