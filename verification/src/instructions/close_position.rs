use vstd::prelude::*;
use vstd::arithmetic::div_mod::lemma_mod_bound;
use crate::error::CustomErrorCode;
use crate::instructions::withdraw_swapped_tokens::settlement_slot;
use crate::schedule::absolute_index;
use crate::settlement::{proceeds, unconverted};
use crate::state::bookkeeping::Bookkeeping;
use crate::state::exits::{Exits, ExitsView};
use crate::state::market::{Market, Side};
use crate::state::position::{PositionA, PositionB};

verus! {

/// What closing a position pays out.
#[derive(Clone, Copy, Debug, PartialEq, Eq, Structural)]
pub struct ClosePayout {
    /// The amount of the other token, earned since the last settlement.
    pub swapped: u64,
    /// The amount of the deposited token that was not converted.
    pub principal: u64,
}

/// Registering again what was just taken back restores the schedule.
pub proof fn lemma_register_undoes_cancel(
    exits: ExitsView,
    side: Side,
    slot: u64,
    amount: u64,
    interval: u64,
)
    requires
        exits.wf(),
        0 < interval,
        exits.cancelled(side, slot, amount, interval) is Some,
    ensures
        exits.cancelled(side, slot, amount, interval).unwrap().registered(
            side,
            slot,
            amount,
            interval,
        ) == Some(exits),
        exits.cancelled(side, slot, amount, interval).unwrap().wf(),
{
    lemma_mod_bound(absolute_index(slot, exits.start_slot, interval), exits.len());
    let cancelled = exits.cancelled(side, slot, amount, interval).unwrap();
    let back = cancelled.registered(side, slot, amount, interval).unwrap();
    assert(back.token_a =~= exits.token_a);
    assert(back.token_b =~= exits.token_b);
}

/// What closing a position of token A works on: the records of the
/// market and the position.
pub struct ClosePositionA {
    pub market: Market,
    pub position_a: PositionA,
    pub bookkeeping: Bookkeeping,
    pub exits: Exits,
}

/// The contents of the records of closing a position of token A.
pub struct ClosePositionAView {
    pub market: Market,
    pub position_a: PositionA,
    pub bookkeeping: Bookkeeping,
    pub exits: ExitsView,
}

impl View for ClosePositionA {
    type V = ClosePositionAView;

    open spec fn view(&self) -> ClosePositionAView {
        ClosePositionAView {
            market: self.market,
            position_a: self.position_a,
            bookkeeping: self.bookkeeping,
            exits: self.exits@,
        }
    }
}

impl ClosePositionAView {
    /// The records fit together: the schedule is a ring and starts no
    /// later than the market.
    pub open spec fn wf(self) -> bool {
        &&& self.market.wf()
        &&& self.exits.wf()
        &&& self.exits.start_slot <= self.market.start_slot
    }

    /// Whether the position is closed before its end, so that its flow is
    /// still on the ledger and its expiry still ahead.
    pub open spec fn early(self, current_slot: u64) -> bool {
        current_slot < self.position_a.end_slot
    }

    /// The schedule once a position that is closed early has taken its
    /// expiry back; a position closed at or after its end leaves the
    /// schedule alone.
    pub open spec fn released(self, current_slot: u64) -> Option<ExitsView> {
        if self.early(current_slot) {
            self.exits.cancelled(
                Side::A,
                self.position_a.end_slot,
                self.position_a.rate() as u64,
                self.market.end_slot_interval,
            )
        } else {
            Some(self.exits)
        }
    }

    /// The records after the position's expiry was taken back, if it is
    /// still ahead, and the market caught up to the settlement slot.
    pub open spec fn update_exits(self, current_slot: u64) -> Result<
        ClosePositionAView,
        CustomErrorCode,
    > {
        let slot = settlement_slot(current_slot, self.position_a.end_slot);
        match self.released(current_slot) {
            Some(released) => match released.advanced(self.market, self.bookkeeping, slot) {
                Some(flow) => Ok(
                    ClosePositionAView {
                        market: flow.ledger(self.market),
                        bookkeeping: flow.book,
                        exits: ExitsView {
                            pointer: released.pointer_after(self.market, slot),
                            ..released
                        },
                        ..self
                    },
                ),
                None => Err(CustomErrorCode::ArithmeticOverflow),
            },
            None => Err(CustomErrorCode::ArithmeticOverflow),
        }
    }

    /// The records after the final settlement, and what it pays: the
    /// proceeds since the last settlement, and the deposit that was not
    /// converted, which counts the slots from the settlement slot to the
    /// position's end and every idle slot credited to the position.
    pub open spec fn withdraw_tokens(self, current_slot: u64) -> Result<
        (ClosePositionAView, ClosePayout),
        CustomErrorCode,
    > {
        let slot = settlement_slot(current_slot, self.position_a.end_slot);
        let rate = self.position_a.rate() as u64;
        match self.bookkeeping.updated(
            self.market.token_a_volume,
            self.market.token_b_volume,
            slot,
        ) {
            Some(book) => match self.position_a.settled(book) {
                Some(position) => if position.end_slot - slot + position.total_no_trades
                    <= u64::MAX && (position.end_slot - slot + position.total_no_trades) * rate
                    <= u64::MAX {
                    Ok(
                        (
                            ClosePositionAView {
                                bookkeeping: book,
                                position_a: position,
                                ..self
                            },
                            ClosePayout {
                                swapped: proceeds(
                                    rate,
                                    PositionA::cross_counter(book),
                                    self.position_a.bookkeeping,
                                ) as u64,
                                principal: unconverted(
                                    position.end_slot,
                                    slot,
                                    position.total_no_trades,
                                    rate,
                                ) as u64,
                            },
                        ),
                    )
                } else {
                    Err(CustomErrorCode::ArithmeticOverflow)
                },
                None => Err(CustomErrorCode::ArithmeticOverflow),
            },
            None => Err(CustomErrorCode::ArithmeticOverflow),
        }
    }

    /// The records after the flow of a position that is closed early left
    /// the ledger; the flow of a position closed at or after its end has
    /// left with its bucket.
    pub open spec fn update_market(self, current_slot: u64) -> Result<
        ClosePositionAView,
        CustomErrorCode,
    > {
        if self.early(current_slot) {
            match self.market.with_less(Side::A, self.position_a.rate() as u64) {
                Some(market) => Ok(ClosePositionAView { market, ..self }),
                None => Err(CustomErrorCode::ArithmeticOverflow),
            }
        } else {
            Ok(self)
        }
    }
}

impl ClosePositionAView {
    /// The whole closing: the expiry is taken back if it is still ahead
    /// and the market catches up, the position is settled for the last
    /// time, and its flow leaves the ledger if it is still on it. A failed
    /// step ends the closing with its error and nothing paid, and the
    /// records stay as the steps before it left them.
    pub open spec fn close(self, current_slot: u64) -> (
        ClosePositionAView,
        Result<ClosePayout, CustomErrorCode>,
    ) {
        match self.update_exits(current_slot) {
            Ok(caught_up) => match caught_up.withdraw_tokens(current_slot) {
                Ok((settled, payout)) => match settled.update_market(current_slot) {
                    Ok(left) => (left, Ok(payout)),
                    Err(e) => (settled, Err(e)),
                },
                Err(e) => (caught_up, Err(e)),
            },
            Err(e) => (self, Err(e)),
        }
    }
}

impl ClosePositionA {
    /// Takes the position's expiry out of the schedule if it is still
    /// ahead, then brings the market up to `current_slot`, or to the
    /// position's end where that is earlier. On failure the records are
    /// left as they were.
    pub fn update_exits(&mut self, current_slot: u64) -> (r: Result<(), CustomErrorCode>)
        requires
            old(self)@.wf(),
            old(self).position_a.wf(),
        ensures
            match old(self)@.update_exits(current_slot) {
                Ok(after) => r is Ok && final(self)@ == after,
                Err(e) => r == Err::<(), CustomErrorCode>(e) && final(self)@ == old(self)@,
            },
            final(self)@.wf(),
    {
        let rate: u64 = self.position_a.get_volume();
        let end_slot: u64 = self.position_a.end_slot;
        let interval: u64 = self.market.end_slot_interval;
        let early: bool = current_slot < end_slot;
        let slot: u64 = if early {
            current_slot
        } else {
            end_slot
        };
        if early {
            match self.exits.cancel(Side::A, end_slot, rate, interval) {
                Ok(()) => {},
                Err(e) => { return Err(e); },
            }
        }
        match self.exits.advance(slot, &mut self.market, &mut self.bookkeeping) {
            Ok(_) => Ok(()),
            Err(e) => {
                if early {
                    proof {
                        lemma_register_undoes_cancel(
                            old(self)@.exits,
                            Side::A,
                            end_slot,
                            rate,
                            interval,
                        );
                    }
                    let undone = self.exits.register(Side::A, end_slot, rate, interval);
                }
                Err(e)
            },
        }
    }

    /// Settles the position for the last time and returns what is to be
    /// handed out: the proceeds in token B and the unconverted deposit in
    /// token A. On failure the records are left as they were.
    pub fn withdraw_tokens(&mut self, current_slot: u64) -> (r: Result<
        ClosePayout,
        CustomErrorCode,
    >)
        requires
            old(self)@.wf(),
            old(self).position_a.wf(),
        ensures
            match old(self)@.withdraw_tokens(current_slot) {
                Ok((after, payout)) => {
                    &&& r == Ok::<ClosePayout, CustomErrorCode>(payout)
                    &&& final(self)@ == after
                    &&& payout.swapped == proceeds(
                        old(self).position_a.rate() as u64,
                        PositionA::cross_counter(after.bookkeeping),
                        old(self).position_a.bookkeeping,
                    )
                    &&& payout.principal == unconverted(
                        old(self).position_a.end_slot,
                        settlement_slot(current_slot, old(self).position_a.end_slot),
                        after.position_a.total_no_trades,
                        old(self).position_a.rate() as u64,
                    )
                },
                Err(e) => r == Err::<ClosePayout, CustomErrorCode>(e) && final(self)@ == old(
                    self,
                )@,
            },
            final(self)@.wf(),
            final(self).position_a.wf(),
    {
        let slot: u64 = if current_slot < self.position_a.end_slot {
            current_slot
        } else {
            self.position_a.end_slot
        };
        let mut book: Bookkeeping = self.bookkeeping;
        match book.update(self.market.token_a_volume, self.market.token_b_volume, slot) {
            Ok(()) => {},
            Err(e) => { return Err(e); },
        }
        let mut position: PositionA = self.position_a;
        let swapped: u64 = match position.settle(&book) {
            Ok(amount) => amount,
            Err(e) => { return Err(e); },
        };
        let principal: u64 = match position.remaining(slot) {
            Some(amount) => amount,
            None => { return Err(CustomErrorCode::ArithmeticOverflow); },
        };
        self.bookkeeping = book;
        self.position_a = position;
        Ok(ClosePayout { swapped, principal })
    }

    /// Takes the flow of a position that is closed before its end off side
    /// A of the ledger. On failure the records are left as they were.
    pub fn update_market(&mut self, current_slot: u64) -> (r: Result<(), CustomErrorCode>)
        requires
            old(self)@.wf(),
            old(self).position_a.wf(),
        ensures
            match old(self)@.update_market(current_slot) {
                Ok(after) => r is Ok && final(self)@ == after,
                Err(e) => r == Err::<(), CustomErrorCode>(e) && final(self)@ == old(self)@,
            },
            final(self)@.wf(),
    {
        if current_slot < self.position_a.end_slot {
            let rate: u64 = self.position_a.get_volume();
            self.market.remove_volume(Side::A, rate)
        } else {
            Ok(())
        }
    }
}

/// What closing a position of token B works on: the records of the
/// market and the position.
pub struct ClosePositionB {
    pub market: Market,
    pub position_b: PositionB,
    pub bookkeeping: Bookkeeping,
    pub exits: Exits,
}

/// The contents of the records of closing a position of token B.
pub struct ClosePositionBView {
    pub market: Market,
    pub position_b: PositionB,
    pub bookkeeping: Bookkeeping,
    pub exits: ExitsView,
}

impl View for ClosePositionB {
    type V = ClosePositionBView;

    open spec fn view(&self) -> ClosePositionBView {
        ClosePositionBView {
            market: self.market,
            position_b: self.position_b,
            bookkeeping: self.bookkeeping,
            exits: self.exits@,
        }
    }
}

impl ClosePositionBView {
    /// The records fit together: the schedule is a ring and starts no
    /// later than the market.
    pub open spec fn wf(self) -> bool {
        &&& self.market.wf()
        &&& self.exits.wf()
        &&& self.exits.start_slot <= self.market.start_slot
    }

    /// Whether the position is closed before its end, so that its flow is
    /// still on the ledger and its expiry still ahead.
    pub open spec fn early(self, current_slot: u64) -> bool {
        current_slot < self.position_b.end_slot
    }

    /// The schedule once a position that is closed early has taken its
    /// expiry back; a position closed at or after its end leaves the
    /// schedule alone.
    pub open spec fn released(self, current_slot: u64) -> Option<ExitsView> {
        if self.early(current_slot) {
            self.exits.cancelled(
                Side::B,
                self.position_b.end_slot,
                self.position_b.rate() as u64,
                self.market.end_slot_interval,
            )
        } else {
            Some(self.exits)
        }
    }

    /// The records after the position's expiry was taken back, if it is
    /// still ahead, and the market caught up to the settlement slot.
    pub open spec fn update_exits(self, current_slot: u64) -> Result<
        ClosePositionBView,
        CustomErrorCode,
    > {
        let slot = settlement_slot(current_slot, self.position_b.end_slot);
        match self.released(current_slot) {
            Some(released) => match released.advanced(self.market, self.bookkeeping, slot) {
                Some(flow) => Ok(
                    ClosePositionBView {
                        market: flow.ledger(self.market),
                        bookkeeping: flow.book,
                        exits: ExitsView {
                            pointer: released.pointer_after(self.market, slot),
                            ..released
                        },
                        ..self
                    },
                ),
                None => Err(CustomErrorCode::ArithmeticOverflow),
            },
            None => Err(CustomErrorCode::ArithmeticOverflow),
        }
    }

    /// The records after the final settlement, and what it pays: the
    /// proceeds since the last settlement, and the deposit that was not
    /// converted, which counts the slots from the settlement slot to the
    /// position's end and every idle slot credited to the position.
    pub open spec fn withdraw_tokens(self, current_slot: u64) -> Result<
        (ClosePositionBView, ClosePayout),
        CustomErrorCode,
    > {
        let slot = settlement_slot(current_slot, self.position_b.end_slot);
        let rate = self.position_b.rate() as u64;
        match self.bookkeeping.updated(
            self.market.token_a_volume,
            self.market.token_b_volume,
            slot,
        ) {
            Some(book) => match self.position_b.settled(book) {
                Some(position) => if position.end_slot - slot + position.total_no_trades
                    <= u64::MAX && (position.end_slot - slot + position.total_no_trades) * rate
                    <= u64::MAX {
                    Ok(
                        (
                            ClosePositionBView {
                                bookkeeping: book,
                                position_b: position,
                                ..self
                            },
                            ClosePayout {
                                swapped: proceeds(
                                    rate,
                                    PositionB::cross_counter(book),
                                    self.position_b.bookkeeping,
                                ) as u64,
                                principal: unconverted(
                                    position.end_slot,
                                    slot,
                                    position.total_no_trades,
                                    rate,
                                ) as u64,
                            },
                        ),
                    )
                } else {
                    Err(CustomErrorCode::ArithmeticOverflow)
                },
                None => Err(CustomErrorCode::ArithmeticOverflow),
            },
            None => Err(CustomErrorCode::ArithmeticOverflow),
        }
    }

    /// The records after the flow of a position that is closed early left
    /// the ledger; the flow of a position closed at or after its end has
    /// left with its bucket.
    pub open spec fn update_market(self, current_slot: u64) -> Result<
        ClosePositionBView,
        CustomErrorCode,
    > {
        if self.early(current_slot) {
            match self.market.with_less(Side::B, self.position_b.rate() as u64) {
                Some(market) => Ok(ClosePositionBView { market, ..self }),
                None => Err(CustomErrorCode::ArithmeticOverflow),
            }
        } else {
            Ok(self)
        }
    }
}

impl ClosePositionBView {
    /// The whole closing: the expiry is taken back if it is still ahead
    /// and the market catches up, the position is settled for the last
    /// time, and its flow leaves the ledger if it is still on it. A failed
    /// step ends the closing with its error and nothing paid, and the
    /// records stay as the steps before it left them.
    pub open spec fn close(self, current_slot: u64) -> (
        ClosePositionBView,
        Result<ClosePayout, CustomErrorCode>,
    ) {
        match self.update_exits(current_slot) {
            Ok(caught_up) => match caught_up.withdraw_tokens(current_slot) {
                Ok((settled, payout)) => match settled.update_market(current_slot) {
                    Ok(left) => (left, Ok(payout)),
                    Err(e) => (settled, Err(e)),
                },
                Err(e) => (caught_up, Err(e)),
            },
            Err(e) => (self, Err(e)),
        }
    }
}

impl ClosePositionB {
    /// Takes the position's expiry out of the schedule if it is still
    /// ahead, then brings the market up to `current_slot`, or to the
    /// position's end where that is earlier. On failure the records are
    /// left as they were.
    pub fn update_exits(&mut self, current_slot: u64) -> (r: Result<(), CustomErrorCode>)
        requires
            old(self)@.wf(),
            old(self).position_b.wf(),
        ensures
            match old(self)@.update_exits(current_slot) {
                Ok(after) => r is Ok && final(self)@ == after,
                Err(e) => r == Err::<(), CustomErrorCode>(e) && final(self)@ == old(self)@,
            },
            final(self)@.wf(),
    {
        let rate: u64 = self.position_b.get_volume();
        let end_slot: u64 = self.position_b.end_slot;
        let interval: u64 = self.market.end_slot_interval;
        let early: bool = current_slot < end_slot;
        let slot: u64 = if early {
            current_slot
        } else {
            end_slot
        };
        if early {
            match self.exits.cancel(Side::B, end_slot, rate, interval) {
                Ok(()) => {},
                Err(e) => { return Err(e); },
            }
        }
        match self.exits.advance(slot, &mut self.market, &mut self.bookkeeping) {
            Ok(_) => Ok(()),
            Err(e) => {
                if early {
                    proof {
                        lemma_register_undoes_cancel(
                            old(self)@.exits,
                            Side::B,
                            end_slot,
                            rate,
                            interval,
                        );
                    }
                    let undone = self.exits.register(Side::B, end_slot, rate, interval);
                }
                Err(e)
            },
        }
    }

    /// Settles the position for the last time and returns what is to be
    /// handed out: the proceeds in token A and the unconverted deposit in
    /// token B. On failure the records are left as they were.
    pub fn withdraw_tokens(&mut self, current_slot: u64) -> (r: Result<
        ClosePayout,
        CustomErrorCode,
    >)
        requires
            old(self)@.wf(),
            old(self).position_b.wf(),
        ensures
            match old(self)@.withdraw_tokens(current_slot) {
                Ok((after, payout)) => {
                    &&& r == Ok::<ClosePayout, CustomErrorCode>(payout)
                    &&& final(self)@ == after
                    &&& payout.swapped == proceeds(
                        old(self).position_b.rate() as u64,
                        PositionB::cross_counter(after.bookkeeping),
                        old(self).position_b.bookkeeping,
                    )
                    &&& payout.principal == unconverted(
                        old(self).position_b.end_slot,
                        settlement_slot(current_slot, old(self).position_b.end_slot),
                        after.position_b.total_no_trades,
                        old(self).position_b.rate() as u64,
                    )
                },
                Err(e) => r == Err::<ClosePayout, CustomErrorCode>(e) && final(self)@ == old(
                    self,
                )@,
            },
            final(self)@.wf(),
            final(self).position_b.wf(),
    {
        let slot: u64 = if current_slot < self.position_b.end_slot {
            current_slot
        } else {
            self.position_b.end_slot
        };
        let mut book: Bookkeeping = self.bookkeeping;
        match book.update(self.market.token_a_volume, self.market.token_b_volume, slot) {
            Ok(()) => {},
            Err(e) => { return Err(e); },
        }
        let mut position: PositionB = self.position_b;
        let swapped: u64 = match position.settle(&book) {
            Ok(amount) => amount,
            Err(e) => { return Err(e); },
        };
        let principal: u64 = match position.remaining(slot) {
            Some(amount) => amount,
            None => { return Err(CustomErrorCode::ArithmeticOverflow); },
        };
        self.bookkeeping = book;
        self.position_b = position;
        Ok(ClosePayout { swapped, principal })
    }

    /// Takes the flow of a position that is closed before its end off side
    /// B of the ledger. On failure the records are left as they were.
    pub fn update_market(&mut self, current_slot: u64) -> (r: Result<(), CustomErrorCode>)
        requires
            old(self)@.wf(),
            old(self).position_b.wf(),
        ensures
            match old(self)@.update_market(current_slot) {
                Ok(after) => r is Ok && final(self)@ == after,
                Err(e) => r == Err::<(), CustomErrorCode>(e) && final(self)@ == old(self)@,
            },
            final(self)@.wf(),
    {
        if current_slot < self.position_b.end_slot {
            let rate: u64 = self.position_b.get_volume();
            self.market.remove_volume(Side::B, rate)
        } else {
            Ok(())
        }
    }
}

} // verus!
