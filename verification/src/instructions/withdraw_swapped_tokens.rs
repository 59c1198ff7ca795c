use vstd::prelude::*;
use crate::error::CustomErrorCode;
use crate::settlement::proceeds;
use crate::state::bookkeeping::Bookkeeping;
use crate::state::exits::{Exits, ExitsView};
use crate::state::market::Market;
use crate::state::position::{PositionA, PositionB};

verus! {

/// The slot up to which a position that ends at `end_slot` is settled at
/// `current_slot`: a position earns nothing after its end.
pub open spec fn settlement_slot(current_slot: u64, end_slot: u64) -> u64 {
    if current_slot < end_slot {
        current_slot
    } else {
        end_slot
    }
}

/// What a withdrawal of the token A that a position of token B has
/// earned works on: the records of the market and the position.
pub struct WithdrawSwappedTokensA {
    pub market: Market,
    pub position_b: PositionB,
    pub bookkeeping: Bookkeeping,
    pub exits: Exits,
}

/// The contents of the records of a withdrawal of token A.
pub struct WithdrawSwappedTokensAView {
    pub market: Market,
    pub position_b: PositionB,
    pub bookkeeping: Bookkeeping,
    pub exits: ExitsView,
}

impl View for WithdrawSwappedTokensA {
    type V = WithdrawSwappedTokensAView;

    open spec fn view(&self) -> WithdrawSwappedTokensAView {
        WithdrawSwappedTokensAView {
            market: self.market,
            position_b: self.position_b,
            bookkeeping: self.bookkeeping,
            exits: self.exits@,
        }
    }
}

impl WithdrawSwappedTokensAView {
    /// The records fit together: the schedule is a ring and starts no
    /// later than the market.
    pub open spec fn wf(self) -> bool {
        &&& self.market.wf()
        &&& self.exits.wf()
        &&& self.exits.start_slot <= self.market.start_slot
    }

    /// The records after the market caught up to the slot up to which the
    /// position is settled; before the market has started there is
    /// nothing to withdraw.
    pub open spec fn update_exits(self, current_slot: u64) -> Result<
        WithdrawSwappedTokensAView,
        CustomErrorCode,
    > {
        let slot = settlement_slot(current_slot, self.position_b.end_slot);
        if current_slot <= self.market.start_slot {
            Err(CustomErrorCode::NoTokensSwapped)
        } else {
            match self.exits.advanced(self.market, self.bookkeeping, slot) {
                Some(flow) => Ok(
                    WithdrawSwappedTokensAView {
                        market: flow.ledger(self.market),
                        bookkeeping: flow.book,
                        exits: ExitsView {
                            pointer: self.exits.pointer_after(self.market, slot),
                            ..self.exits
                        },
                        ..self
                    },
                ),
                None => Err(CustomErrorCode::ArithmeticOverflow),
            }
        }
    }

    /// The records after the position was settled, and the amount of
    /// token A that the settlement pays: the volumes are integrated up to
    /// the settlement slot, and the position earns its whole rate times
    /// what its counter gained since the last settlement.
    pub open spec fn withdraw_swapped_tokens(self, current_slot: u64) -> Result<
        (WithdrawSwappedTokensAView, u64),
        CustomErrorCode,
    > {
        let slot = settlement_slot(current_slot, self.position_b.end_slot);
        match self.bookkeeping.updated(
            self.market.token_a_volume,
            self.market.token_b_volume,
            slot,
        ) {
            Some(book) => match self.position_b.settled(book) {
                Some(position) => Ok(
                    (
                        WithdrawSwappedTokensAView {
                            bookkeeping: book,
                            position_b: position,
                            ..self
                        },
                        proceeds(
                            self.position_b.rate() as u64,
                            PositionB::cross_counter(book),
                            self.position_b.bookkeeping,
                        ) as u64,
                    ),
                ),
                None => Err(CustomErrorCode::ArithmeticOverflow),
            },
            None => Err(CustomErrorCode::ArithmeticOverflow),
        }
    }
}

impl WithdrawSwappedTokensAView {
    /// The whole withdrawal: the market catches up, then the position is
    /// settled. A failed step ends the withdrawal with its error and
    /// nothing paid, and the records stay as the steps before it left
    /// them.
    pub open spec fn withdraw(self, current_slot: u64) -> (
        WithdrawSwappedTokensAView,
        Result<u64, CustomErrorCode>,
    ) {
        match self.update_exits(current_slot) {
            Ok(caught_up) => match caught_up.withdraw_swapped_tokens(current_slot) {
                Ok((settled, amount)) => (settled, Ok(amount)),
                Err(e) => (caught_up, Err(e)),
            },
            Err(e) => (self, Err(e)),
        }
    }
}

impl WithdrawSwappedTokensA {
    /// Brings the market up to `current_slot`, or to the position's end
    /// where that is earlier. Before the market has started the withdrawal
    /// is turned down. On failure the records are left as they were.
    pub fn update_exits(&mut self, current_slot: u64) -> (r: Result<(), CustomErrorCode>)
        requires
            old(self)@.wf(),
        ensures
            match old(self)@.update_exits(current_slot) {
                Ok(after) => r is Ok && final(self)@ == after,
                Err(e) => r == Err::<(), CustomErrorCode>(e) && final(self)@ == old(self)@,
            },
            final(self)@.wf(),
    {
        if current_slot <= self.market.start_slot {
            return Err(CustomErrorCode::NoTokensSwapped);
        }
        let slot: u64 = if current_slot < self.position_b.end_slot {
            current_slot
        } else {
            self.position_b.end_slot
        };
        match self.exits.advance(slot, &mut self.market, &mut self.bookkeeping) {
            Ok(_) => Ok(()),
            Err(e) => Err(e),
        }
    }

    /// Settles the position and returns the amount of token A to hand
    /// out. On failure the records are left as they were.
    pub fn withdraw_swapped_tokens(&mut self, current_slot: u64) -> (r: Result<
        u64,
        CustomErrorCode,
    >)
        requires
            old(self)@.wf(),
            old(self).position_b.wf(),
        ensures
            match old(self)@.withdraw_swapped_tokens(current_slot) {
                Ok((after, amount)) => r == Ok::<u64, CustomErrorCode>(amount) && final(self)@
                    == after && amount == proceeds(
                    old(self).position_b.rate() as u64,
                    PositionB::cross_counter(after.bookkeeping),
                    old(self).position_b.bookkeeping,
                ),
                Err(e) => r == Err::<u64, CustomErrorCode>(e) && final(self)@ == old(self)@,
            },
            final(self)@.wf(),
            final(self).position_b.wf(),
    {
        let slot: u64 = if current_slot < self.position_b.end_slot {
            current_slot
        } else {
            self.position_b.end_slot
        };
        let mut book: Bookkeeping = self.bookkeeping;
        match book.update(self.market.token_a_volume, self.market.token_b_volume, slot) {
            Ok(()) => {},
            Err(e) => { return Err(e); },
        }
        match self.position_b.settle(&book) {
            Ok(amount) => {
                self.bookkeeping = book;
                Ok(amount)
            },
            Err(e) => Err(e),
        }
    }
}

/// What a withdrawal of the token B that a position of token A has
/// earned works on: the records of the market and the position.
pub struct WithdrawSwappedTokensB {
    pub market: Market,
    pub position_a: PositionA,
    pub bookkeeping: Bookkeeping,
    pub exits: Exits,
}

/// The contents of the records of a withdrawal of token B.
pub struct WithdrawSwappedTokensBView {
    pub market: Market,
    pub position_a: PositionA,
    pub bookkeeping: Bookkeeping,
    pub exits: ExitsView,
}

impl View for WithdrawSwappedTokensB {
    type V = WithdrawSwappedTokensBView;

    open spec fn view(&self) -> WithdrawSwappedTokensBView {
        WithdrawSwappedTokensBView {
            market: self.market,
            position_a: self.position_a,
            bookkeeping: self.bookkeeping,
            exits: self.exits@,
        }
    }
}

impl WithdrawSwappedTokensBView {
    /// The records fit together: the schedule is a ring and starts no
    /// later than the market.
    pub open spec fn wf(self) -> bool {
        &&& self.market.wf()
        &&& self.exits.wf()
        &&& self.exits.start_slot <= self.market.start_slot
    }

    /// The records after the market caught up to the slot up to which the
    /// position is settled; before the market has started there is
    /// nothing to withdraw.
    pub open spec fn update_exits(self, current_slot: u64) -> Result<
        WithdrawSwappedTokensBView,
        CustomErrorCode,
    > {
        let slot = settlement_slot(current_slot, self.position_a.end_slot);
        if current_slot <= self.market.start_slot {
            Err(CustomErrorCode::NoTokensSwapped)
        } else {
            match self.exits.advanced(self.market, self.bookkeeping, slot) {
                Some(flow) => Ok(
                    WithdrawSwappedTokensBView {
                        market: flow.ledger(self.market),
                        bookkeeping: flow.book,
                        exits: ExitsView {
                            pointer: self.exits.pointer_after(self.market, slot),
                            ..self.exits
                        },
                        ..self
                    },
                ),
                None => Err(CustomErrorCode::ArithmeticOverflow),
            }
        }
    }

    /// The records after the position was settled, and the amount of
    /// token B that the settlement pays: the volumes are integrated up to
    /// the settlement slot, and the position earns its whole rate times
    /// what its counter gained since the last settlement.
    pub open spec fn withdraw_swapped_tokens(self, current_slot: u64) -> Result<
        (WithdrawSwappedTokensBView, u64),
        CustomErrorCode,
    > {
        let slot = settlement_slot(current_slot, self.position_a.end_slot);
        match self.bookkeeping.updated(
            self.market.token_a_volume,
            self.market.token_b_volume,
            slot,
        ) {
            Some(book) => match self.position_a.settled(book) {
                Some(position) => Ok(
                    (
                        WithdrawSwappedTokensBView {
                            bookkeeping: book,
                            position_a: position,
                            ..self
                        },
                        proceeds(
                            self.position_a.rate() as u64,
                            PositionA::cross_counter(book),
                            self.position_a.bookkeeping,
                        ) as u64,
                    ),
                ),
                None => Err(CustomErrorCode::ArithmeticOverflow),
            },
            None => Err(CustomErrorCode::ArithmeticOverflow),
        }
    }
}

impl WithdrawSwappedTokensBView {
    /// The whole withdrawal: the market catches up, then the position is
    /// settled. A failed step ends the withdrawal with its error and
    /// nothing paid, and the records stay as the steps before it left
    /// them.
    pub open spec fn withdraw(self, current_slot: u64) -> (
        WithdrawSwappedTokensBView,
        Result<u64, CustomErrorCode>,
    ) {
        match self.update_exits(current_slot) {
            Ok(caught_up) => match caught_up.withdraw_swapped_tokens(current_slot) {
                Ok((settled, amount)) => (settled, Ok(amount)),
                Err(e) => (caught_up, Err(e)),
            },
            Err(e) => (self, Err(e)),
        }
    }
}

impl WithdrawSwappedTokensB {
    /// Brings the market up to `current_slot`, or to the position's end
    /// where that is earlier. Before the market has started the withdrawal
    /// is turned down. On failure the records are left as they were.
    pub fn update_exits(&mut self, current_slot: u64) -> (r: Result<(), CustomErrorCode>)
        requires
            old(self)@.wf(),
        ensures
            match old(self)@.update_exits(current_slot) {
                Ok(after) => r is Ok && final(self)@ == after,
                Err(e) => r == Err::<(), CustomErrorCode>(e) && final(self)@ == old(self)@,
            },
            final(self)@.wf(),
    {
        if current_slot <= self.market.start_slot {
            return Err(CustomErrorCode::NoTokensSwapped);
        }
        let slot: u64 = if current_slot < self.position_a.end_slot {
            current_slot
        } else {
            self.position_a.end_slot
        };
        match self.exits.advance(slot, &mut self.market, &mut self.bookkeeping) {
            Ok(_) => Ok(()),
            Err(e) => Err(e),
        }
    }

    /// Settles the position and returns the amount of token B to hand
    /// out. On failure the records are left as they were.
    pub fn withdraw_swapped_tokens(&mut self, current_slot: u64) -> (r: Result<
        u64,
        CustomErrorCode,
    >)
        requires
            old(self)@.wf(),
            old(self).position_a.wf(),
        ensures
            match old(self)@.withdraw_swapped_tokens(current_slot) {
                Ok((after, amount)) => r == Ok::<u64, CustomErrorCode>(amount) && final(self)@
                    == after && amount == proceeds(
                    old(self).position_a.rate() as u64,
                    PositionA::cross_counter(after.bookkeeping),
                    old(self).position_a.bookkeeping,
                ),
                Err(e) => r == Err::<u64, CustomErrorCode>(e) && final(self)@ == old(self)@,
            },
            final(self)@.wf(),
            final(self).position_a.wf(),
    {
        let slot: u64 = if current_slot < self.position_a.end_slot {
            current_slot
        } else {
            self.position_a.end_slot
        };
        let mut book: Bookkeeping = self.bookkeeping;
        match book.update(self.market.token_a_volume, self.market.token_b_volume, slot) {
            Ok(()) => {},
            Err(e) => { return Err(e); },
        }
        match self.position_a.settle(&book) {
            Ok(amount) => {
                self.bookkeeping = book;
                Ok(amount)
            },
            Err(e) => Err(e),
        }
    }
}

} // verus!
