use vstd::prelude::*;
use vstd::arithmetic::div_mod::{
    lemma_fundamental_div_mod,
    lemma_mod_multiples_vanish,
    lemma_small_mod,
    lemma_mod_bound,
};
use crate::constants::EXITS_LENGTH;
use crate::error::CustomErrorCode;
use crate::schedule::{
    absolute_index,
    backlog,
    bucket_slot,
    catch_up,
    lemma_backlog_bounded,
    virtual_slot,
    CatchUp,
};
use crate::proofs::accumulator::advance_is_monotonic;
use crate::state::bookkeeping::{no_less, Bookkeeping};
use crate::state::market::{Market, Side};
use crate::state::prices::{Prices, PricesView, Snapshot};

verus! {

/// The part of a market that a catch-up run changes: the integrator and
/// the two volumes of the ledger.
#[derive(Clone, Copy, Debug, PartialEq, Eq, Structural)]
pub struct Flow {
    pub book: Bookkeeping,
    pub volume_a: u64,
    pub volume_b: u64,
}

impl Flow {
    /// The flow of a market and its integrator.
    pub open spec fn of(market: Market, book: Bookkeeping) -> Flow {
        Flow { book, volume_a: market.token_a_volume, volume_b: market.token_b_volume }
    }

    /// `market` with the volumes of this flow.
    pub open spec fn ledger(self, market: Market) -> Market {
        Market { token_a_volume: self.volume_a, token_b_volume: self.volume_b, ..market }
    }

    /// One bucket falls due at `slot`: the volumes are integrated up to
    /// that slot, then `removed_a` and `removed_b` leave the ledger. `None`
    /// where the slot is no `u64`, the integration fails or a side holds
    /// less than what is to leave it.
    pub open spec fn step(self, removed_a: u64, removed_b: u64, slot: int) -> Option<Flow> {
        if 0 <= slot <= u64::MAX {
            match self.book.updated(self.volume_a, self.volume_b, slot as u64) {
                Some(book) => if removed_a <= self.volume_a && removed_b <= self.volume_b {
                    Some(
                        Flow {
                            book,
                            volume_a: (self.volume_a - removed_a) as u64,
                            volume_b: (self.volume_b - removed_b) as u64,
                        },
                    )
                } else {
                    None
                },
                None => None,
            }
        } else {
            None
        }
    }

    /// Computes [`Flow::step`].
    pub fn process(self, removed_a: u64, removed_b: u64, slot: u64) -> (next: Option<Flow>)
        ensures
            next == self.step(removed_a, removed_b, slot as int),
    {
        let mut book = self.book;
        match book.update(self.volume_a, self.volume_b, slot) {
            Ok(()) => {},
            Err(_) => { return None; },
        }
        let volume_a: u64 = match self.volume_a.checked_sub(removed_a) {
            Some(v) => v,
            None => { return None; },
        };
        let volume_b: u64 = match self.volume_b.checked_sub(removed_b) {
            Some(v) => v,
            None => { return None; },
        };
        Some(Flow { book, volume_a, volume_b })
    }
}

/// The deferred removals of one market: for each bucket of a ring, the
/// volume that leaves each side of the ledger when the bucket falls due,
/// and the ring position of the last bucket processed.
pub struct Exits {
    pub token_a: Vec<u64>,
    pub token_b: Vec<u64>,
    pub pointer: u64,
    pub start_slot: u64,
}

/// The contents of an exit schedule.
pub struct ExitsView {
    pub token_a: Seq<u64>,
    pub token_b: Seq<u64>,
    pub pointer: u64,
    pub start_slot: u64,
}

impl View for Exits {
    type V = ExitsView;

    open spec fn view(&self) -> ExitsView {
        ExitsView {
            token_a: self.token_a@,
            token_b: self.token_b@,
            pointer: self.pointer,
            start_slot: self.start_slot,
        }
    }
}

impl ExitsView {
    /// Both sides have one bucket per ring position, there is at least one
    /// position, the pointer is one of them, and twice the ring's length
    /// is still a `u64`, so that unwrapped ring positions are.
    pub open spec fn wf(self) -> bool {
        &&& self.token_a.len() == self.token_b.len()
        &&& 0 < self.token_a.len()
        &&& 2 * self.token_a.len() <= u64::MAX
        &&& self.pointer < self.token_a.len()
    }

    /// The number of buckets of the ring.
    pub open spec fn len(self) -> int {
        self.token_a.len() as int
    }

    /// The buckets of `side`.
    pub open spec fn pending(self, side: Side) -> Seq<u64> {
        match side {
            Side::A => self.token_a,
            Side::B => self.token_b,
        }
    }

    /// A schedule of `length` empty buckets that starts at `start_slot`.
    pub open spec fn zeroed(length: nat, start_slot: u64) -> ExitsView {
        ExitsView {
            token_a: Seq::new(length, |i: int| 0u64),
            token_b: Seq::new(length, |i: int| 0u64),
            pointer: 0,
            start_slot,
        }
    }

    /// The ring position of the bucket that holds `slot`.
    pub open spec fn bucket_of(self, slot: u64, interval: u64) -> int {
        absolute_index(slot, self.start_slot, interval) % self.len()
    }

    /// The schedule with `bucket` of `side` set to `value`.
    pub open spec fn with_bucket(self, side: Side, bucket: int, value: u64) -> ExitsView {
        match side {
            Side::A => ExitsView { token_a: self.token_a.update(bucket, value), ..self },
            Side::B => ExitsView { token_b: self.token_b.update(bucket, value), ..self },
        }
    }

    /// The schedule after `amount` was added to what leaves `side` at
    /// `slot`. `None` where `slot` lies before the schedule's start or the
    /// bucket would leave `u64`.
    pub open spec fn registered(self, side: Side, slot: u64, amount: u64, interval: u64) -> Option<
        ExitsView,
    > {
        let bucket = self.bucket_of(slot, interval);
        if self.start_slot <= slot && self.pending(side)[bucket] + amount <= u64::MAX {
            Some(self.with_bucket(side, bucket, (self.pending(side)[bucket] + amount) as u64))
        } else {
            None
        }
    }

    /// The schedule after `amount` was taken back from what leaves `side`
    /// at `slot`. `None` where `slot` lies before the schedule's start or
    /// the bucket holds less than `amount`.
    pub open spec fn cancelled(self, side: Side, slot: u64, amount: u64, interval: u64) -> Option<
        ExitsView,
    > {
        let bucket = self.bucket_of(slot, interval);
        if self.start_slot <= slot && amount <= self.pending(side)[bucket] {
            Some(self.with_bucket(side, bucket, (self.pending(side)[bucket] - amount) as u64))
        } else {
            None
        }
    }

    /// The flow after the `count` buckets with the absolute indices
    /// `first`, `first + 1`, ... fell due one after the other, each at its
    /// own slot; `None` as soon as one of these steps fails.
    pub open spec fn run(self, flow: Flow, interval: u64, first: int, count: nat) -> Option<Flow>
        decreases count,
    {
        if count == 0 {
            Some(flow)
        } else {
            match self.run(flow, interval, first, (count - 1) as nat) {
                Some(before) => {
                    let index = first + count - 1;
                    before.step(
                        self.token_a[index % self.len()],
                        self.token_b[index % self.len()],
                        bucket_slot(index, self.start_slot, interval),
                    )
                },
                None => None,
            }
        }
    }

    /// The absolute index of the bucket that holds `current_slot`: where a
    /// catch-up to that slot ends.
    pub open spec fn target(self, current_slot: u64, interval: u64) -> int {
        absolute_index(current_slot, self.start_slot, interval)
    }

    /// How many buckets a catch-up to `current_slot` processes: those
    /// between the pointer and the target, counted round the ring. Before
    /// the market has started there are none.
    pub open spec fn due(self, market: Market, current_slot: u64) -> int {
        if current_slot <= market.start_slot {
            0
        } else {
            backlog(
                self.pointer,
                self.target(current_slot, market.end_slot_interval),
                self.len(),
            )
        }
    }

    /// The flow after a catch-up to `current_slot`: the buckets that are
    /// due are processed in order, the last of them being the target.
    /// `None` where one of the steps fails, or where more buckets are due
    /// than the schedule has had since its start.
    pub open spec fn advanced(self, market: Market, book: Bookkeeping, current_slot: u64) -> Option<
        Flow,
    > {
        let target = self.target(current_slot, market.end_slot_interval);
        let count = self.due(market, current_slot);
        if current_slot <= market.start_slot {
            Some(Flow::of(market, book))
        } else if count > target {
            None
        } else {
            self.run(
                Flow::of(market, book),
                market.end_slot_interval,
                target - count + 1,
                count as nat,
            )
        }
    }

    /// The ring position of the last bucket processed after a catch-up to
    /// `current_slot`.
    pub open spec fn pointer_after(self, market: Market, current_slot: u64) -> u64 {
        if current_slot <= market.start_slot {
            self.pointer
        } else {
            (self.target(current_slot, market.end_slot_interval) % self.len()) as u64
        }
    }

    /// What `bucket` of the price history holds after a run of `count`
    /// buckets from absolute index `first`: the counters as they stood
    /// when the run processed that bucket, or what it held before where
    /// the run did not come by.
    pub open spec fn entry(
        self,
        prices: PricesView,
        flow: Flow,
        interval: u64,
        first: int,
        count: nat,
        bucket: int,
    ) -> Snapshot {
        let visit = (bucket - first) % self.len() + 1;
        if visit <= count {
            Snapshot::of(self.run(flow, interval, first, visit as nat).unwrap().book)
        } else {
            prices.at(bucket)
        }
    }

    /// The price history after a run of `count` buckets from absolute
    /// index `first` has written a snapshot for each bucket it processed.
    pub open spec fn recorded(
        self,
        prices: PricesView,
        flow: Flow,
        interval: u64,
        first: int,
        count: nat,
    ) -> PricesView {
        PricesView {
            a_per_b: Seq::new(
                prices.len(),
                |b: int| self.entry(prices, flow, interval, first, count, b).a_per_b,
            ),
            b_per_a: Seq::new(
                prices.len(),
                |b: int| self.entry(prices, flow, interval, first, count, b).b_per_a,
            ),
            no_trade_slots: Seq::new(
                prices.len(),
                |b: int| self.entry(prices, flow, interval, first, count, b).no_trade_slots,
            ),
        }
    }

    /// The price history after a catch-up to `current_slot` that succeeds.
    pub open spec fn history_after(
        self,
        prices: PricesView,
        market: Market,
        book: Bookkeeping,
        current_slot: u64,
    ) -> PricesView {
        let target = self.target(current_slot, market.end_slot_interval);
        let count = self.due(market, current_slot);
        self.recorded(
            prices,
            Flow::of(market, book),
            market.end_slot_interval,
            target - count + 1,
            count as nat,
        )
    }
}

impl Exits {
    pub const SEED_PREFIX: &'static str = "exits";

    /// The bytes that a stored schedule of full size takes, without the
    /// discriminator: two rings of `EXITS_LENGTH` buckets, the pointer and
    /// the start slot, eight bytes each.
    pub const INIT_SPACE: usize = 2 * 8 * EXITS_LENGTH + 8 + 8;

    /// A schedule of `length` empty buckets that starts at `start_slot`.
    pub fn with_length(length: usize, start_slot: u64) -> (exits: Self)
        ensures
            exits@ == ExitsView::zeroed(length as nat, start_slot),
    {
        let exits = Exits {
            token_a: vec![0u64; length],
            token_b: vec![0u64; length],
            pointer: 0,
            start_slot,
        };
        assert(exits@.token_a =~= ExitsView::zeroed(length as nat, start_slot).token_a);
        assert(exits@.token_b =~= ExitsView::zeroed(length as nat, start_slot).token_b);
        exits
    }

    /// Clears the schedule and lets it start at `start_slot`: every bucket
    /// of both sides is emptied and the pointer goes back to the first
    /// bucket. The ring keeps the length of side A.
    pub fn new(&mut self, start_slot: u64)
        ensures
            final(self)@ == ExitsView::zeroed(old(self)@.token_a.len(), start_slot),
    {
        let length: usize = self.token_a.len();
        self.token_a = vec![0u64; length];
        self.token_b = vec![0u64; length];
        self.pointer = 0;
        self.start_slot = start_slot;
        assert(self@.token_a =~= ExitsView::zeroed(length as nat, start_slot).token_a);
        assert(self@.token_b =~= ExitsView::zeroed(length as nat, start_slot).token_b);
    }

    /// The number of buckets of the ring.
    pub fn len(&self) -> (length: usize)
        ensures
            length == self@.token_a.len(),
    {
        self.token_a.len()
    }

    /// The ring position of the bucket that holds `slot`; `None` for a
    /// slot before the schedule's start.
    pub fn bucket(&self, slot: u64, interval: u64) -> (position: Option<usize>)
        requires
            self@.wf(),
            0 < interval,
        ensures
            position == (if self.start_slot <= slot {
                Some(self@.bucket_of(slot, interval) as usize)
            } else {
                None::<usize>
            }),
            position is Some ==> position->0 == self@.bucket_of(slot, interval) && position->0
                < self@.len(),
    {
        if slot < self.start_slot {
            None
        } else {
            let len: u64 = self.token_a.len() as u64;
            let index: u64 = (slot - self.start_slot) / interval;
            Some((index % len) as usize)
        }
    }

    /// What leaves `side` when the bucket at ring position `bucket` falls
    /// due.
    pub fn pending(&self, side: Side, bucket: usize) -> (amount: u64)
        requires
            self@.wf(),
            bucket < self@.len(),
        ensures
            amount == self@.pending(side)[bucket as int],
    {
        match side {
            Side::A => self.token_a[bucket],
            Side::B => self.token_b[bucket],
        }
    }

    /// Schedules `amount` to leave `side` of the ledger at `end_slot`: it
    /// is added to the bucket that holds that slot. On failure the
    /// schedule is left as it was.
    pub fn register(&mut self, side: Side, end_slot: u64, amount: u64, interval: u64) -> (r: Result<
        (),
        CustomErrorCode,
    >)
        requires
            old(self)@.wf(),
            0 < interval,
        ensures
            match old(self)@.registered(side, end_slot, amount, interval) {
                Some(exits) => r is Ok && final(self)@ == exits,
                None => r == Err::<(), CustomErrorCode>(CustomErrorCode::ArithmeticOverflow)
                    && final(self)@ == old(self)@,
            },
            final(self)@.wf(),
    {
        let bucket: usize = match self.bucket(end_slot, interval) {
            Some(b) => b,
            None => { return Err(CustomErrorCode::ArithmeticOverflow); },
        };
        match side {
            Side::A => match self.token_a[bucket].checked_add(amount) {
                Some(sum) => {
                    self.token_a.set(bucket, sum);
                    Ok(())
                },
                None => Err(CustomErrorCode::ArithmeticOverflow),
            },
            Side::B => match self.token_b[bucket].checked_add(amount) {
                Some(sum) => {
                    self.token_b.set(bucket, sum);
                    Ok(())
                },
                None => Err(CustomErrorCode::ArithmeticOverflow),
            },
        }
    }

    /// Takes a scheduled removal back: `amount` is subtracted from the
    /// bucket of `side` that holds `end_slot`, so that it no longer leaves
    /// the ledger when that bucket falls due. On failure the schedule is
    /// left as it was.
    pub fn cancel(&mut self, side: Side, end_slot: u64, amount: u64, interval: u64) -> (r: Result<
        (),
        CustomErrorCode,
    >)
        requires
            old(self)@.wf(),
            0 < interval,
        ensures
            match old(self)@.cancelled(side, end_slot, amount, interval) {
                Some(exits) => r is Ok && final(self)@ == exits,
                None => r == Err::<(), CustomErrorCode>(CustomErrorCode::ArithmeticOverflow)
                    && final(self)@ == old(self)@,
            },
            final(self)@.wf(),
    {
        let bucket: usize = match self.bucket(end_slot, interval) {
            Some(b) => b,
            None => { return Err(CustomErrorCode::ArithmeticOverflow); },
        };
        match side {
            Side::A => match self.token_a[bucket].checked_sub(amount) {
                Some(rest) => {
                    self.token_a.set(bucket, rest);
                    Ok(())
                },
                None => Err(CustomErrorCode::ArithmeticOverflow),
            },
            Side::B => match self.token_b[bucket].checked_sub(amount) {
                Some(rest) => {
                    self.token_b.set(bucket, rest);
                    Ok(())
                },
                None => Err(CustomErrorCode::ArithmeticOverflow),
            },
        }
    }

    /// Replays the buckets of `plan` on `flow` without changing anything.
    fn replay(&self, flow: Flow, interval: u64, current_slot: u64, plan: CatchUp) -> (out: Option<
        Flow,
    >)
        requires
            self@.wf(),
            0 < interval,
            self.start_slot <= current_slot,
            1 <= plan.first <= plan.last + 1,
            plan.last < 2 * self@.len(),
            plan.quotient * self@.len() + plan.last == self@.target(current_slot, interval),
        ensures
            out == self@.run(
                flow,
                interval,
                plan.quotient * self@.len() + plan.first,
                plan.count() as nat,
            ),
    {
        let len: u64 = self.token_a.len() as u64;
        let ghost base: int = plan.quotient * len + plan.first;
        let mut index: u64 = plan.first;
        let mut local: Flow = flow;
        proof {
            assert(plan.quotient * len >= 0) by (nonlinear_arith)
                requires
                    plan.quotient >= 0,
                    len >= 0,
            ;
        }
        while index <= plan.last
            invariant
                self@.wf(),
                len == self@.len(),
                len <= usize::MAX,
                0 < interval,
                self.start_slot <= current_slot,
                1 <= plan.first <= index <= plan.last + 1,
                plan.last < 2 * len,
                plan.quotient * len >= 0,
                plan.quotient * len + plan.last == self@.target(current_slot, interval),
                base == plan.quotient * len + plan.first,
                Some(local) == self@.run(flow, interval, base, (index - plan.first) as nat),
            decreases plan.last + 1 - index,
        {
            let ghost absolute: int = plan.quotient * len + index;
            proof {
                lemma_mod_multiples_vanish(plan.quotient as int, index as int, len as int);
                assert(len * plan.quotient == plan.quotient * len) by (nonlinear_arith);
                assert(absolute % (len as int) == index % len);
                lemma_due_slot_fits(absolute, current_slot, self.start_slot, interval);
                assert(absolute == base + (index - plan.first));
                assert(0 <= index % len < len);
            }
            let ghost done: nat = (index - plan.first + 1) as nat;
            let ghost before: Flow = local;
            let bucket: usize = (index % len) as usize;
            let slot: u64 = virtual_slot(index, plan.quotient, self.start_slot, interval, len);
            let next: Option<Flow> = local.process(self.token_a[bucket], self.token_b[bucket], slot);
            proof {
                assert(self@.run(flow, interval, base, (done - 1) as nat) == Some(before));
                assert(base + done - 1 == absolute);
                assert(self@.token_a[absolute % self@.len()] == self.token_a[bucket as int]);
                assert(self@.run(flow, interval, base, done) == before.step(
                    self@.token_a[absolute % self@.len()],
                    self@.token_b[absolute % self@.len()],
                    bucket_slot(absolute, self.start_slot, interval),
                ));
                assert(self@.run(flow, interval, base, done) == next);
            }
            match next {
                Some(after) => {
                    local = after;
                },
                None => {
                    proof {
                        let count = plan.count() as nat;
                        if self@.run(flow, interval, base, count) is Some {
                            lemma_run_prefix(self@, flow, interval, base, count, done);
                        }
                    }
                    return None;
                },
            }
            index = index + 1;
        }
        Some(local)
    }

    /// Brings the market up to `current_slot`: every bucket that has
    /// fallen due since the last catch-up is processed in order, the
    /// volumes being integrated up to the bucket's slot before what the
    /// bucket holds leaves the ledger. Returns the number of buckets
    /// processed, which is always less than the ring's length. Before the
    /// market has started nothing happens. On failure nothing is changed.
    pub fn advance(&mut self, current_slot: u64, market: &mut Market, book: &mut Bookkeeping) -> (r:
        Result<u64, CustomErrorCode>)
        requires
            old(self)@.wf(),
            old(market).wf(),
            old(self).start_slot <= old(market).start_slot,
        ensures
            match old(self)@.advanced(*old(market), *old(book), current_slot) {
                Some(flow) => {
                    &&& r == Ok::<u64, CustomErrorCode>(
                        old(self)@.due(*old(market), current_slot) as u64,
                    )
                    &&& *final(book) == flow.book
                    &&& *final(market) == flow.ledger(*old(market))
                    &&& final(self)@ == (ExitsView {
                        pointer: old(self)@.pointer_after(*old(market), current_slot),
                        ..old(self)@
                    })
                },
                None => {
                    &&& r == Err::<u64, CustomErrorCode>(CustomErrorCode::ArithmeticOverflow)
                    &&& *final(book) == *old(book)
                    &&& *final(market) == *old(market)
                    &&& final(self)@ == old(self)@
                },
            },
            0 <= old(self)@.due(*old(market), current_slot) < old(self)@.len(),
            no_less(*old(book), *final(book)),
            final(self)@.wf(),
    {
        let len: u64 = self.token_a.len() as u64;
        proof {
            if self@.advanced(*market, *book, current_slot) is Some {
                advance_is_monotonic(self@, *market, *book, current_slot);
            }
            lemma_backlog_bounded(
                self.pointer,
                self@.target(current_slot, market.end_slot_interval),
                len as int,
            );
        }
        if current_slot <= market.start_slot {
            return Ok(0);
        }
        let plan: CatchUp = match catch_up(
            self.pointer,
            current_slot,
            self.start_slot,
            market.end_slot_interval,
            len,
        ) {
            Some(p) => p,
            None => { return Err(CustomErrorCode::ArithmeticOverflow); },
        };
        let flow = Flow {
            book: *book,
            volume_a: market.token_a_volume,
            volume_b: market.token_b_volume,
        };
        match self.replay(flow, market.end_slot_interval, current_slot, plan) {
            Some(out) => {
                proof {
                    lemma_mod_multiples_vanish(plan.quotient as int, plan.last as int, len as int);
                    assert(len * plan.quotient == plan.quotient * len) by (nonlinear_arith);
                }
                *book = out.book;
                market.token_a_volume = out.volume_a;
                market.token_b_volume = out.volume_b;
                self.pointer = plan.last % len;
                Ok(plan.last + 1 - plan.first)
            },
            None => Err(CustomErrorCode::ArithmeticOverflow),
        }
    }

    /// Does what [`Exits::advance`] does and writes, for every bucket
    /// processed, the integrator's counters as they stand after that
    /// bucket's integration into the same bucket of `prices`. On failure
    /// nothing is changed, the history included.
    pub fn advance_recording(
        &mut self,
        current_slot: u64,
        market: &mut Market,
        book: &mut Bookkeeping,
        prices: &mut Prices,
    ) -> (r: Result<u64, CustomErrorCode>)
        requires
            old(self)@.wf(),
            old(market).wf(),
            old(self).start_slot <= old(market).start_slot,
            old(prices).wf(),
            old(prices)@.len() == old(self)@.len(),
        ensures
            match old(self)@.advanced(*old(market), *old(book), current_slot) {
                Some(flow) => {
                    &&& r == Ok::<u64, CustomErrorCode>(
                        old(self)@.due(*old(market), current_slot) as u64,
                    )
                    &&& *final(book) == flow.book
                    &&& *final(market) == flow.ledger(*old(market))
                    &&& final(self)@ == (ExitsView {
                        pointer: old(self)@.pointer_after(*old(market), current_slot),
                        ..old(self)@
                    })
                    &&& final(prices)@ == old(self)@.history_after(
                        old(prices)@,
                        *old(market),
                        *old(book),
                        current_slot,
                    )
                },
                None => {
                    &&& r == Err::<u64, CustomErrorCode>(CustomErrorCode::ArithmeticOverflow)
                    &&& *final(book) == *old(book)
                    &&& *final(market) == *old(market)
                    &&& final(self)@ == old(self)@
                    &&& final(prices)@ == old(prices)@
                },
            },
            0 <= old(self)@.due(*old(market), current_slot) < old(self)@.len(),
            no_less(*old(book), *final(book)),
            final(self)@.wf(),
            final(prices).wf(),
    {
        let len: u64 = self.token_a.len() as u64;
        let interval: u64 = market.end_slot_interval;
        let ghost before: PricesView = prices@;
        let flow = Flow {
            book: *book,
            volume_a: market.token_a_volume,
            volume_b: market.token_b_volume,
        };
        proof {
            if self@.advanced(*market, *book, current_slot) is Some {
                advance_is_monotonic(self@, *market, *book, current_slot);
            }
            lemma_backlog_bounded(self.pointer, self@.target(current_slot, interval), len as int);
        }
        if current_slot <= market.start_slot {
            proof {
                let first = self@.target(current_slot, interval) + 1;
                assert forall|b: int| 0 <= b < len implies self@.entry(
                    before,
                    flow,
                    interval,
                    first,
                    0,
                    b,
                ) == before.at(b) by {
                    lemma_mod_bound(b - first, len as int);
                }
                let after = self@.recorded(before, flow, interval, first, 0);
                assert(after.a_per_b =~= before.a_per_b);
                assert(after.b_per_a =~= before.b_per_a);
                assert(after.no_trade_slots =~= before.no_trade_slots);
            }
            return Ok(0);
        }
        let plan: CatchUp = match catch_up(self.pointer, current_slot, self.start_slot, interval, len) {
            Some(p) => p,
            None => { return Err(CustomErrorCode::ArithmeticOverflow); },
        };
        let out: Flow = match self.replay(flow, interval, current_slot, plan) {
            Some(out) => out,
            None => { return Err(CustomErrorCode::ArithmeticOverflow); },
        };
        let ghost base: int = plan.quotient * len + plan.first;
        let ghost count: nat = plan.count() as nat;
        let mut index: u64 = plan.first;
        let mut local: Flow = flow;
        proof {
            assert(plan.quotient * len >= 0) by (nonlinear_arith)
                requires
                    plan.quotient >= 0,
                    len >= 0,
            ;
            assert forall|b: int| 0 <= b < len implies self@.entry(
                before,
                flow,
                interval,
                base,
                0,
                b,
            ) == before.at(b) by {
                lemma_mod_bound(b - base, len as int);
            }
        }
        while index <= plan.last
            invariant
                self@.wf(),
                len == self@.len(),
                len <= usize::MAX,
                0 < interval,
                self.start_slot <= current_slot,
                1 <= plan.first <= index <= plan.last + 1,
                plan.last < 2 * len,
                plan.quotient * len >= 0,
                plan.quotient * len + plan.last == self@.target(current_slot, interval),
                base == plan.quotient * len + plan.first,
                count == plan.count(),
                count < len,
                self@.run(flow, interval, base, count) is Some,
                Some(local) == self@.run(flow, interval, base, (index - plan.first) as nat),
                prices.wf(),
                prices@.len() == len,
                before.len() == len,
                forall|b: int|
                    0 <= b < len ==> prices@.at(b) == #[trigger] self@.entry(
                        before,
                        flow,
                        interval,
                        base,
                        (index - plan.first) as nat,
                        b,
                    ),
            decreases plan.last + 1 - index,
        {
            let ghost absolute: int = plan.quotient * len + index;
            let ghost done: nat = (index - plan.first + 1) as nat;
            let ghost earlier: Flow = local;
            let ghost written: PricesView = prices@;
            proof {
                lemma_mod_multiples_vanish(plan.quotient as int, index as int, len as int);
                assert(len * plan.quotient == plan.quotient * len) by (nonlinear_arith);
                assert(absolute % (len as int) == index % len);
                lemma_due_slot_fits(absolute, current_slot, self.start_slot, interval);
                assert(absolute == base + (index - plan.first));
                assert(0 <= index % len < len);
                lemma_run_prefix(self@, flow, interval, base, count, done);
            }
            let bucket: usize = (index % len) as usize;
            let slot: u64 = virtual_slot(index, plan.quotient, self.start_slot, interval, len);
            let next: Option<Flow> = local.process(self.token_a[bucket], self.token_b[bucket], slot);
            proof {
                assert(self@.run(flow, interval, base, (done - 1) as nat) == Some(earlier));
                assert(base + done - 1 == absolute);
                assert(self@.token_a[absolute % self@.len()] == self.token_a[bucket as int]);
                assert(self@.run(flow, interval, base, done) == earlier.step(
                    self@.token_a[absolute % self@.len()],
                    self@.token_b[absolute % self@.len()],
                    bucket_slot(absolute, self.start_slot, interval),
                ));
                assert(self@.run(flow, interval, base, done) == next);
            }
            match next {
                Some(after) => {
                    prices.record(bucket, &after.book);
                    local = after;
                },
                None => {},
            }
            proof {
                assert forall|b: int| 0 <= b < len implies prices@.at(b) == #[trigger] self@.entry(
                    before,
                    flow,
                    interval,
                    base,
                    done,
                    b,
                ) by {
                    lemma_visit(base, (done - 1) as int, len as int, b);
                    assert(written.at(b) == self@.entry(
                        before,
                        flow,
                        interval,
                        base,
                        (done - 1) as nat,
                        b,
                    ));
                }
            }
            index = index + 1;
        }
        proof {
            lemma_mod_multiples_vanish(plan.quotient as int, plan.last as int, len as int);
            assert(len * plan.quotient == plan.quotient * len) by (nonlinear_arith);
            let after = self@.recorded(before, flow, interval, base, count);
            assert(after.a_per_b =~= prices@.a_per_b) by {
                assert forall|b: int| 0 <= b < len implies after.a_per_b[b] == prices@.a_per_b[b] by {
                    assert(prices@.at(b) == self@.entry(before, flow, interval, base, count, b));
                }
            }
            assert(after.b_per_a =~= prices@.b_per_a) by {
                assert forall|b: int| 0 <= b < len implies after.b_per_a[b] == prices@.b_per_a[b] by {
                    assert(prices@.at(b) == self@.entry(before, flow, interval, base, count, b));
                }
            }
            assert(after.no_trade_slots =~= prices@.no_trade_slots) by {
                assert forall|b: int| 0 <= b < len implies after.no_trade_slots[b]
                    == prices@.no_trade_slots[b] by {
                    assert(prices@.at(b) == self@.entry(before, flow, interval, base, count, b));
                }
            }
        }
        *book = out.book;
        market.token_a_volume = out.volume_a;
        market.token_b_volume = out.volume_b;
        self.pointer = plan.last % len;
        Ok(plan.last + 1 - plan.first)
    }
}

/// On a ring of `len` buckets, the bucket that the step `offset` places
/// after absolute index `first` lands on is the only one whose distance
/// from `first`, counted forward round the ring, is `offset`.
pub proof fn lemma_visit(first: int, offset: int, len: int, bucket: int)
    requires
        0 <= offset < len,
        0 <= bucket < len,
    ensures
        ((bucket - first) % len == offset) <==> (bucket == (first + offset) % len),
{
    let landing = (first + offset) % len;
    lemma_fundamental_div_mod(first + offset, len);
    lemma_fundamental_div_mod(bucket - first, len);
    lemma_mod_bound(first + offset, len);
    lemma_mod_bound(bucket - first, len);
    if bucket == landing {
        let laps = (first + offset) / len;
        assert(bucket - first == len * (-laps) + offset) by (nonlinear_arith)
            requires
                first + offset == len * laps + bucket,
        ;
        lemma_mod_multiples_vanish(-laps, offset, len);
        lemma_small_mod(offset as nat, len as nat);
    }
    if (bucket - first) % len == offset {
        let laps = (bucket - first) / len;
        assert(first + offset == len * (-laps) + bucket) by (nonlinear_arith)
            requires
                bucket - first == len * laps + offset,
        ;
        lemma_mod_multiples_vanish(-laps, bucket, len);
        lemma_small_mod(bucket as nat, len as nat);
    }
}

/// A run that succeeds has succeeded at every bucket on its way.
pub proof fn lemma_run_prefix(
    exits: ExitsView,
    flow: Flow,
    interval: u64,
    first: int,
    count: nat,
    shorter: nat,
)
    requires
        shorter <= count,
        exits.run(flow, interval, first, count) is Some,
    ensures
        exits.run(flow, interval, first, shorter) is Some,
    decreases count,
{
    if shorter < count {
        lemma_run_prefix(exits, flow, interval, first, (count - 1) as nat, shorter);
    }
}

/// A bucket at or before the target falls due no later than the slot the
/// target was computed from.
pub proof fn lemma_due_slot_fits(index: int, slot: u64, start_slot: u64, interval: u64)
    requires
        0 < interval,
        start_slot <= slot,
        0 <= index <= absolute_index(slot, start_slot, interval),
    ensures
        start_slot <= bucket_slot(index, start_slot, interval) <= slot,
{
    let span = slot - start_slot;
    lemma_fundamental_div_mod(span, interval as int);
    assert(0 <= index * interval <= (span / (interval as int)) * interval) by (nonlinear_arith)
        requires
            0 <= index <= span / (interval as int),
            0 < interval,
    ;
    assert(interval * (span / (interval as int)) == (span / (interval as int)) * interval)
        by (nonlinear_arith);
    assert(0 <= span % (interval as int)) by (nonlinear_arith)
        requires
            0 < interval,
    ;
}

} // verus!
