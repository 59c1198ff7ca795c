use vstd::prelude::*;
use crate::constants::VOLUME_PRECISION;
use crate::error::CustomErrorCode;
use crate::settlement::{earned, flow_rate, principal_left, proceeds, unconverted};
use crate::state::bookkeeping::Bookkeeping;

verus! {

/// A deposit of token A that is being exchanged for token B at a steady
/// rate from `start_slot` up to `end_slot`, with the checkpoints of its
/// last settlement.
#[derive(Clone, Copy, Debug, PartialEq, Eq, Structural)]
pub struct PositionA {
    pub amount: u64,
    pub start_slot: u64,
    pub end_slot: u64,
    pub bookkeeping: u64,
    pub no_trade_slots: u64,
    pub total_no_trades: u64,
    pub bump: u8,
}

impl PositionA {
    pub const SEED_PREFIX: &'static str = "position_a";

    /// A position that has not been settled yet.
    pub fn new(amount: u64, start_slot: u64, end_slot: u64, bump: u8) -> (position: Self)
        ensures
            position == (PositionA {
                amount,
                start_slot,
                end_slot,
                bookkeeping: 0,
                no_trade_slots: 0,
                total_no_trades: 0,
                bump,
            }),
    {
        Self {
            amount,
            start_slot,
            end_slot,
            bookkeeping: 0,
            no_trade_slots: 0,
            total_no_trades: 0,
            bump,
        }
    }

    /// The position lasts at least one slot and its scaled amount fits
    /// `u64`, so that its rate can be computed.
    pub open spec fn wf(self) -> bool {
        self.start_slot < self.end_slot && VOLUME_PRECISION * self.amount <= u64::MAX
    }

    /// The volume that the position adds to side A of the ledger.
    pub open spec fn rate(self) -> int {
        flow_rate(self.amount, self.start_slot, self.end_slot)
    }

    /// The counter that prices this position's proceeds: token B per
    /// token A.
    pub open spec fn cross_counter(book: Bookkeeping) -> u64 {
        book.b_per_a
    }

    /// The per-slot flow of the position, in scaled units.
    pub fn get_volume(&self) -> (volume: u64)
        requires
            self.wf(),
        ensures
            volume == self.rate(),
    {
        let volume: u64 = VOLUME_PRECISION * self.amount / (self.end_slot - self.start_slot);
        volume
    }

    /// The position with its checkpoints set to the integrator's present
    /// counters, as at the moment it joins the ledger.
    pub open spec fn checkpointed(self, book: Bookkeeping) -> PositionA {
        PositionA {
            bookkeeping: Self::cross_counter(book),
            no_trade_slots: book.no_trade_slots,
            ..self
        }
    }

    /// The position after a settlement against `book`, or `None` where a
    /// counter lies below its checkpoint or a value leaves `u64`. The idle
    /// slots since the last settlement are credited to `total_no_trades`.
    pub open spec fn settled(self, book: Bookkeeping) -> Option<PositionA> {
        let counter = Self::cross_counter(book);
        let idle = book.no_trade_slots - self.no_trade_slots;
        if self.bookkeeping <= counter
            && (self.rate() / (VOLUME_PRECISION as int)) * (counter - self.bookkeeping) <= u64::MAX
            && 0 <= idle && self.total_no_trades + idle <= u64::MAX {
            Some(
                PositionA {
                    bookkeeping: counter,
                    no_trade_slots: book.no_trade_slots,
                    total_no_trades: (self.total_no_trades + idle) as u64,
                    ..self
                },
            )
        } else {
            None
        }
    }

    /// Settles the position against `book`: returns the amount of token B
    /// earned since the last settlement and moves the checkpoints up to
    /// the integrator's counters. On failure the position is left as it
    /// was.
    pub fn settle(&mut self, book: &Bookkeeping) -> (r: Result<u64, CustomErrorCode>)
        requires
            old(self).wf(),
        ensures
            match old(self).settled(*book) {
                Some(position) => {
                    &&& *final(self) == position
                    &&& r is Ok
                    &&& r->Ok_0 == proceeds(
                        old(self).rate() as u64,
                        Self::cross_counter(*book),
                        old(self).bookkeeping,
                    )
                },
                None => r == Err::<u64, CustomErrorCode>(CustomErrorCode::ArithmeticOverflow)
                    && *final(self) == *old(self),
            },
    {
        let rate: u64 = self.get_volume();
        let amount: u64 = match earned(rate, book.b_per_a, self.bookkeeping) {
            Some(a) => a,
            None => { return Err(CustomErrorCode::ArithmeticOverflow); },
        };
        let idle: u64 = match book.no_trade_slots.checked_sub(self.no_trade_slots) {
            Some(i) => i,
            None => { return Err(CustomErrorCode::ArithmeticOverflow); },
        };
        let total: u64 = match self.total_no_trades.checked_add(idle) {
            Some(t) => t,
            None => { return Err(CustomErrorCode::ArithmeticOverflow); },
        };
        self.bookkeeping = book.b_per_a;
        self.no_trade_slots = book.no_trade_slots;
        self.total_no_trades = total;
        Ok(amount)
    }

    /// The part of the deposit that is handed back when the position is
    /// closed at `settlement_slot`: what was not converted by then. `None`
    /// where `settlement_slot` lies behind the end slot or a value leaves
    /// `u64`.
    pub fn remaining(&self, settlement_slot: u64) -> (amount: Option<u64>)
        requires
            self.wf(),
        ensures
            amount == (if settlement_slot <= self.end_slot && self.end_slot - settlement_slot
                + self.total_no_trades <= u64::MAX && (self.end_slot - settlement_slot
                + self.total_no_trades) * self.rate() <= u64::MAX {
                Some(
                    unconverted(
                        self.end_slot,
                        settlement_slot,
                        self.total_no_trades,
                        self.rate() as u64,
                    ) as u64,
                )
            } else {
                None::<u64>
            }),
    {
        let rate: u64 = self.get_volume();
        principal_left(self.end_slot, settlement_slot, self.total_no_trades, rate)
    }
}

/// A deposit of token B that is being exchanged for token A at a steady
/// rate from `start_slot` up to `end_slot`, with the checkpoints of its
/// last settlement.
#[derive(Clone, Copy, Debug, PartialEq, Eq, Structural)]
pub struct PositionB {
    pub amount: u64,
    pub start_slot: u64,
    pub end_slot: u64,
    pub bookkeeping: u64,
    pub no_trade_slots: u64,
    pub total_no_trades: u64,
    pub bump: u8,
}

impl PositionB {
    pub const SEED_PREFIX: &'static str = "position_b";

    /// A position that has not been settled yet.
    pub fn new(amount: u64, start_slot: u64, end_slot: u64, bump: u8) -> (position: Self)
        ensures
            position == (PositionB {
                amount,
                start_slot,
                end_slot,
                bookkeeping: 0,
                no_trade_slots: 0,
                total_no_trades: 0,
                bump,
            }),
    {
        Self {
            amount,
            start_slot,
            end_slot,
            bookkeeping: 0,
            no_trade_slots: 0,
            total_no_trades: 0,
            bump,
        }
    }

    /// The position lasts at least one slot and its scaled amount fits
    /// `u64`, so that its rate can be computed.
    pub open spec fn wf(self) -> bool {
        self.start_slot < self.end_slot && VOLUME_PRECISION * self.amount <= u64::MAX
    }

    /// The volume that the position adds to side B of the ledger.
    pub open spec fn rate(self) -> int {
        flow_rate(self.amount, self.start_slot, self.end_slot)
    }

    /// The counter that prices this position's proceeds: token A per
    /// token B.
    pub open spec fn cross_counter(book: Bookkeeping) -> u64 {
        book.a_per_b
    }

    /// The per-slot flow of the position, in scaled units.
    pub fn get_volume(&self) -> (volume: u64)
        requires
            self.wf(),
        ensures
            volume == self.rate(),
    {
        let volume: u64 = VOLUME_PRECISION * self.amount / (self.end_slot - self.start_slot);
        volume
    }

    /// The position with its checkpoints set to the integrator's present
    /// counters, as at the moment it joins the ledger.
    pub open spec fn checkpointed(self, book: Bookkeeping) -> PositionB {
        PositionB {
            bookkeeping: Self::cross_counter(book),
            no_trade_slots: book.no_trade_slots,
            ..self
        }
    }

    /// The position after a settlement against `book`, or `None` where a
    /// counter lies below its checkpoint or a value leaves `u64`. The idle
    /// slots since the last settlement are credited to `total_no_trades`.
    pub open spec fn settled(self, book: Bookkeeping) -> Option<PositionB> {
        let counter = Self::cross_counter(book);
        let idle = book.no_trade_slots - self.no_trade_slots;
        if self.bookkeeping <= counter
            && (self.rate() / (VOLUME_PRECISION as int)) * (counter - self.bookkeeping) <= u64::MAX
            && 0 <= idle && self.total_no_trades + idle <= u64::MAX {
            Some(
                PositionB {
                    bookkeeping: counter,
                    no_trade_slots: book.no_trade_slots,
                    total_no_trades: (self.total_no_trades + idle) as u64,
                    ..self
                },
            )
        } else {
            None
        }
    }

    /// Settles the position against `book`: returns the amount of token A
    /// earned since the last settlement and moves the checkpoints up to
    /// the integrator's counters. On failure the position is left as it
    /// was.
    pub fn settle(&mut self, book: &Bookkeeping) -> (r: Result<u64, CustomErrorCode>)
        requires
            old(self).wf(),
        ensures
            match old(self).settled(*book) {
                Some(position) => {
                    &&& *final(self) == position
                    &&& r is Ok
                    &&& r->Ok_0 == proceeds(
                        old(self).rate() as u64,
                        Self::cross_counter(*book),
                        old(self).bookkeeping,
                    )
                },
                None => r == Err::<u64, CustomErrorCode>(CustomErrorCode::ArithmeticOverflow)
                    && *final(self) == *old(self),
            },
    {
        let rate: u64 = self.get_volume();
        let amount: u64 = match earned(rate, book.a_per_b, self.bookkeeping) {
            Some(a) => a,
            None => { return Err(CustomErrorCode::ArithmeticOverflow); },
        };
        let idle: u64 = match book.no_trade_slots.checked_sub(self.no_trade_slots) {
            Some(i) => i,
            None => { return Err(CustomErrorCode::ArithmeticOverflow); },
        };
        let total: u64 = match self.total_no_trades.checked_add(idle) {
            Some(t) => t,
            None => { return Err(CustomErrorCode::ArithmeticOverflow); },
        };
        self.bookkeeping = book.a_per_b;
        self.no_trade_slots = book.no_trade_slots;
        self.total_no_trades = total;
        Ok(amount)
    }

    /// The part of the deposit that is handed back when the position is
    /// closed at `settlement_slot`: what was not converted by then. `None`
    /// where `settlement_slot` lies behind the end slot or a value leaves
    /// `u64`.
    pub fn remaining(&self, settlement_slot: u64) -> (amount: Option<u64>)
        requires
            self.wf(),
        ensures
            amount == (if settlement_slot <= self.end_slot && self.end_slot - settlement_slot
                + self.total_no_trades <= u64::MAX && (self.end_slot - settlement_slot
                + self.total_no_trades) * self.rate() <= u64::MAX {
                Some(
                    unconverted(
                        self.end_slot,
                        settlement_slot,
                        self.total_no_trades,
                        self.rate() as u64,
                    ) as u64,
                )
            } else {
                None::<u64>
            }),
    {
        let rate: u64 = self.get_volume();
        principal_left(self.end_slot, settlement_slot, self.total_no_trades, rate)
    }
}

} // verus!
