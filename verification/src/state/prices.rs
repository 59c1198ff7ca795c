use vstd::prelude::*;
use crate::state::bookkeeping::Bookkeeping;

verus! {

/// The counters of the price integrator as they stood when a bucket was
/// processed.
#[derive(Clone, Copy, Debug, PartialEq, Eq, Structural)]
pub struct Snapshot {
    pub a_per_b: u64,
    pub b_per_a: u64,
    pub no_trade_slots: u64,
}

impl Snapshot {
    /// The counters of `book`.
    pub open spec fn of(book: Bookkeeping) -> Snapshot {
        Snapshot {
            a_per_b: book.a_per_b,
            b_per_a: book.b_per_a,
            no_trade_slots: book.no_trade_slots,
        }
    }
}

/// A ring of snapshots, one per bucket of the exit schedule it belongs to.
/// A bucket is overwritten each time the ring comes round to it, so the
/// ring holds the most recent lap only.
pub struct Prices {
    pub a_per_b: Vec<u64>,
    pub b_per_a: Vec<u64>,
    pub no_trade_slots: Vec<u64>,
}

/// The contents of a price history.
pub struct PricesView {
    pub a_per_b: Seq<u64>,
    pub b_per_a: Seq<u64>,
    pub no_trade_slots: Seq<u64>,
}

impl PricesView {
    /// The three rings have one length.
    pub open spec fn wf(self) -> bool {
        self.a_per_b.len() == self.b_per_a.len() == self.no_trade_slots.len()
    }

    /// The number of buckets.
    pub open spec fn len(self) -> nat {
        self.a_per_b.len()
    }

    /// The snapshot held in `bucket`.
    pub open spec fn at(self, bucket: int) -> Snapshot {
        Snapshot {
            a_per_b: self.a_per_b[bucket],
            b_per_a: self.b_per_a[bucket],
            no_trade_slots: self.no_trade_slots[bucket],
        }
    }

    /// The history with `snapshot` written into `bucket`.
    pub open spec fn with(self, bucket: int, snapshot: Snapshot) -> PricesView {
        PricesView {
            a_per_b: self.a_per_b.update(bucket, snapshot.a_per_b),
            b_per_a: self.b_per_a.update(bucket, snapshot.b_per_a),
            no_trade_slots: self.no_trade_slots.update(bucket, snapshot.no_trade_slots),
        }
    }

    /// A history of `length` buckets that holds zeros only.
    pub open spec fn zeroed(length: nat) -> PricesView {
        PricesView {
            a_per_b: Seq::new(length, |i: int| 0u64),
            b_per_a: Seq::new(length, |i: int| 0u64),
            no_trade_slots: Seq::new(length, |i: int| 0u64),
        }
    }
}

impl View for Prices {
    type V = PricesView;

    open spec fn view(&self) -> PricesView {
        PricesView {
            a_per_b: self.a_per_b@,
            b_per_a: self.b_per_a@,
            no_trade_slots: self.no_trade_slots@,
        }
    }
}

impl Prices {
    pub const SEED_PREFIX: &'static str = "prices";

    /// The three rings have one length.
    pub open spec fn wf(self) -> bool {
        self@.wf()
    }

    /// A history of `length` buckets, all zero.
    pub fn with_length(length: usize) -> (prices: Self)
        ensures
            prices@ == PricesView::zeroed(length as nat),
            prices.wf(),
    {
        let prices = Prices {
            a_per_b: vec![0u64; length],
            b_per_a: vec![0u64; length],
            no_trade_slots: vec![0u64; length],
        };
        assert(prices@.a_per_b =~= PricesView::zeroed(length as nat).a_per_b);
        assert(prices@.b_per_a =~= PricesView::zeroed(length as nat).b_per_a);
        assert(prices@.no_trade_slots =~= PricesView::zeroed(length as nat).no_trade_slots);
        prices
    }

    /// Clears the history: every bucket is set to zero.
    pub fn new(&mut self)
        requires
            old(self).wf(),
        ensures
            final(self)@ == PricesView::zeroed(old(self)@.len()),
    {
        let length: usize = self.a_per_b.len();
        self.a_per_b = vec![0u64; length];
        self.b_per_a = vec![0u64; length];
        self.no_trade_slots = vec![0u64; length];
        assert(self@.a_per_b =~= PricesView::zeroed(length as nat).a_per_b);
        assert(self@.b_per_a =~= PricesView::zeroed(length as nat).b_per_a);
        assert(self@.no_trade_slots =~= PricesView::zeroed(length as nat).no_trade_slots);
    }

    /// The number of buckets.
    pub fn len(&self) -> (length: usize)
        ensures
            length == self@.len(),
    {
        self.a_per_b.len()
    }

    /// Writes the counters of `book` into `bucket`.
    pub fn record(&mut self, bucket: usize, book: &Bookkeeping)
        requires
            old(self).wf(),
            bucket < old(self)@.len(),
        ensures
            final(self)@ == old(self)@.with(bucket as int, Snapshot::of(*book)),
    {
        self.a_per_b.set(bucket, book.a_per_b);
        self.b_per_a.set(bucket, book.b_per_a);
        self.no_trade_slots.set(bucket, book.no_trade_slots);
    }

    /// Reads the snapshot held in `bucket`; `None` past the end of the
    /// ring.
    pub fn snapshot(&self, bucket: usize) -> (read: Option<Snapshot>)
        requires
            self.wf(),
        ensures
            read == (if bucket < self@.len() {
                Some(self@.at(bucket as int))
            } else {
                None::<Snapshot>
            }),
    {
        if bucket < self.a_per_b.len() {
            Some(
                Snapshot {
                    a_per_b: self.a_per_b[bucket],
                    b_per_a: self.b_per_a[bucket],
                    no_trade_slots: self.no_trade_slots[bucket],
                },
            )
        } else {
            None
        }
    }
}

} // verus!
