use vstd::prelude::*;
use crate::error::CustomErrorCode;
use crate::state::bookkeeping::Bookkeeping;
use crate::state::exits::{Exits, ExitsView};
use crate::state::market::Market;
use crate::state::prices::{Prices, PricesView};

verus! {

/// What a periodic tick works on: the records of the market.
pub struct UpdateBookkeeping {
    pub market: Market,
    pub bookkeeping: Bookkeeping,
    pub exits: Exits,
    pub prices: Prices,
}

/// The contents of the records of a tick.
pub struct UpdateBookkeepingView {
    pub market: Market,
    pub bookkeeping: Bookkeeping,
    pub exits: ExitsView,
    pub prices: PricesView,
}

impl View for UpdateBookkeeping {
    type V = UpdateBookkeepingView;

    open spec fn view(&self) -> UpdateBookkeepingView {
        UpdateBookkeepingView {
            market: self.market,
            bookkeeping: self.bookkeeping,
            exits: self.exits@,
            prices: self.prices@,
        }
    }
}

impl UpdateBookkeepingView {
    /// The records fit together: the schedule and the history are rings of
    /// one length, and the schedule starts no later than the market.
    pub open spec fn wf(self) -> bool {
        &&& self.market.wf()
        &&& self.exits.wf()
        &&& self.prices.wf()
        &&& self.prices.len() == self.exits.len()
        &&& self.exits.start_slot <= self.market.start_slot
    }

    /// The records after the market caught up to `current_slot`.
    pub open spec fn update_exits(self, current_slot: u64) -> Result<
        UpdateBookkeepingView,
        CustomErrorCode,
    > {
        match self.exits.advanced(self.market, self.bookkeeping, current_slot) {
            Some(flow) => Ok(
                UpdateBookkeepingView {
                    market: flow.ledger(self.market),
                    bookkeeping: flow.book,
                    exits: ExitsView {
                        pointer: self.exits.pointer_after(self.market, current_slot),
                        ..self.exits
                    },
                    prices: self.exits.history_after(
                        self.prices,
                        self.market,
                        self.bookkeeping,
                        current_slot,
                    ),
                },
            ),
            None => Err(CustomErrorCode::ArithmeticOverflow),
        }
    }
}

impl UpdateBookkeeping {
    /// Brings the market up to `current_slot`, recording the price history
    /// on the way. Before the market has started this does nothing. On
    /// failure the records are left as they were.
    pub fn update_exits(&mut self, current_slot: u64) -> (r: Result<(), CustomErrorCode>)
        requires
            old(self)@.wf(),
        ensures
            match old(self)@.update_exits(current_slot) {
                Ok(after) => r is Ok && final(self)@ == after,
                Err(e) => r == Err::<(), CustomErrorCode>(e) && final(self)@ == old(self)@,
            },
            final(self)@.wf(),
    {
        match self.exits.advance_recording(
            current_slot,
            &mut self.market,
            &mut self.bookkeeping,
            &mut self.prices,
        ) {
            Ok(_) => Ok(()),
            Err(e) => Err(e),
        }
    }
}

} // verus!
