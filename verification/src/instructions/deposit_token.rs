use vstd::prelude::*;
use vstd::arithmetic::div_mod::lemma_mod_bound;
use vstd::arithmetic::power::pow;
use crate::constants::{MINIMUM_DEPOSIT_AMOUNT, VOLUME_PRECISION};
use crate::error::CustomErrorCode;
use crate::power::power_of_ten_checked;
use crate::state::bookkeeping::Bookkeeping;
use crate::state::exits::{Exits, ExitsView};
use crate::state::market::{Market, Side};
use crate::state::position::{PositionA, PositionB};
use crate::state::prices::{Prices, PricesView};

verus! {

/// The smallest deposit of a token with `decimals` decimal places, in the
/// token's smallest unit.
pub open spec fn minimum_deposit(decimals: u8) -> int {
    MINIMUM_DEPOSIT_AMOUNT * pow(10, decimals as nat)
}

/// `end_slot` rounded to the nearest multiple of `interval`, halves
/// upwards.
pub open spec fn quantized_end(end_slot: u64, interval: u64) -> int {
    ((end_slot + interval / 2) / (interval as int)) * interval
}

/// The slot at which a deposit made at `current_slot` starts to flow: at
/// once, or with the market where that has not started yet.
pub open spec fn deposit_start(market: Market, current_slot: u64) -> u64 {
    if current_slot < market.start_slot {
        market.start_slot
    } else {
        current_slot
    }
}

/// The start and end slot of a deposit, or why it is turned down: an
/// amount below the minimum; an end that, once quantized, leaves less than
/// one interval after the start; an end or a scaled amount that is no
/// `u64`.
pub open spec fn deposit_terms(
    market: Market,
    decimals: u8,
    amount: u64,
    end_slot: u64,
    current_slot: u64,
) -> Result<(u64, u64), CustomErrorCode> {
    let start = deposit_start(market, current_slot);
    let end = quantized_end(end_slot, market.end_slot_interval);
    if amount < minimum_deposit(decimals) {
        Err(CustomErrorCode::DepositTooSmall)
    } else if end < start + market.end_slot_interval {
        Err(CustomErrorCode::EndSlotAlreadyPassed)
    } else if end > u64::MAX || VOLUME_PRECISION * amount > u64::MAX {
        Err(CustomErrorCode::ArithmeticOverflow)
    } else {
        Ok((start, end as u64))
    }
}

/// Computes [`deposit_terms`].
pub fn resolve_deposit_terms(
    market: &Market,
    decimals: u8,
    amount: u64,
    end_slot: u64,
    current_slot: u64,
) -> (terms: Result<(u64, u64), CustomErrorCode>)
    requires
        market.wf(),
    ensures
        terms == deposit_terms(*market, decimals, amount, end_slot, current_slot),
        terms matches Ok((start, end)) ==> start + market.end_slot_interval <= end,
{
    proof {
        assert(MINIMUM_DEPOSIT_AMOUNT * pow(10, decimals as nat) == pow(10, decimals as nat))
            by (nonlinear_arith)
            requires
                MINIMUM_DEPOSIT_AMOUNT == 1,
        ;
    }
    let unit: u64 = match power_of_ten_checked(decimals) {
        Some(unit) => unit,
        None => { return Err(CustomErrorCode::DepositTooSmall); },
    };
    proof {
        assert(MINIMUM_DEPOSIT_AMOUNT * unit == unit) by (nonlinear_arith)
            requires
                MINIMUM_DEPOSIT_AMOUNT == 1,
        ;
    }
    let minimum: u64 = match MINIMUM_DEPOSIT_AMOUNT.checked_mul(unit) {
        Some(minimum) => minimum,
        None => { return Err(CustomErrorCode::DepositTooSmall); },
    };
    if amount < minimum {
        return Err(CustomErrorCode::DepositTooSmall);
    }
    let start: u64 = if current_slot < market.start_slot {
        market.start_slot
    } else {
        current_slot
    };
    let interval: u64 = market.end_slot_interval;
    let wide: u128 = interval as u128;
    let whole: u128 = (end_slot as u128 + (interval / 2) as u128) / wide;
    proof {
        assert(whole * wide <= end_slot + interval / 2) by (nonlinear_arith)
            requires
                whole == (end_slot + interval / 2) / (wide as int),
                wide > 0,
        ;
        assert((end_slot + interval / 2) / (wide as int) == (end_slot + interval / 2) / (
        interval as int));
    }
    let end: u128 = whole * wide;
    if end < start as u128 + wide {
        return Err(CustomErrorCode::EndSlotAlreadyPassed);
    }
    if end > u64::MAX as u128 {
        return Err(CustomErrorCode::ArithmeticOverflow);
    }
    match VOLUME_PRECISION.checked_mul(amount) {
        Some(_) => Ok((start, end as u64)),
        None => Err(CustomErrorCode::ArithmeticOverflow),
    }
}

/// Taking back what was just registered restores the schedule.
pub proof fn lemma_cancel_undoes_register(
    exits: ExitsView,
    side: Side,
    slot: u64,
    amount: u64,
    interval: u64,
)
    requires
        exits.wf(),
        0 < interval,
        exits.registered(side, slot, amount, interval) is Some,
    ensures
        exits.registered(side, slot, amount, interval).unwrap().cancelled(
            side,
            slot,
            amount,
            interval,
        ) == Some(exits),
        exits.registered(side, slot, amount, interval).unwrap().wf(),
{
    let bucket = exits.bucket_of(slot, interval);
    lemma_mod_bound(crate::schedule::absolute_index(slot, exits.start_slot, interval), exits.len());
    let registered = exits.registered(side, slot, amount, interval).unwrap();
    let back = registered.cancelled(side, slot, amount, interval).unwrap();
    assert(back.token_a =~= exits.token_a);
    assert(back.token_b =~= exits.token_b);
}

/// The bump seed of the position that a deposit of token A creates.
#[derive(Clone, Copy, Debug, PartialEq, Eq, Structural)]
pub struct DepositTokenABumps {
    pub position_a: u8,
}

/// What a deposit of token A works on: the decimal places of the token,
/// the records of the market, and the position that the deposit creates.
pub struct DepositTokenA {
    pub decimals: u8,
    pub market: Market,
    pub position_a: PositionA,
    pub bookkeeping: Bookkeeping,
    pub exits: Exits,
    pub prices: Prices,
}

/// The contents of the records of a deposit of token A.
pub struct DepositTokenAView {
    pub decimals: u8,
    pub market: Market,
    pub position_a: PositionA,
    pub bookkeeping: Bookkeeping,
    pub exits: ExitsView,
    pub prices: PricesView,
}

impl View for DepositTokenA {
    type V = DepositTokenAView;

    open spec fn view(&self) -> DepositTokenAView {
        DepositTokenAView {
            decimals: self.decimals,
            market: self.market,
            position_a: self.position_a,
            bookkeeping: self.bookkeeping,
            exits: self.exits@,
            prices: self.prices@,
        }
    }
}

impl DepositTokenAView {
    /// The records fit together: the schedule and the history are rings of
    /// one length, and the schedule starts no later than the market.
    pub open spec fn wf(self) -> bool {
        &&& self.market.wf()
        &&& self.exits.wf()
        &&& self.prices.wf()
        &&& self.prices.len() == self.exits.len()
        &&& self.exits.start_slot <= self.market.start_slot
    }

    /// The records after the position was created, or why the deposit is
    /// turned down.
    pub open spec fn initialize_position_account(
        self,
        bumps: DepositTokenABumps,
        amount: u64,
        end_slot: u64,
        current_slot: u64,
    ) -> Result<DepositTokenAView, CustomErrorCode> {
        match deposit_terms(self.market, self.decimals, amount, end_slot, current_slot) {
            Ok((start, end)) => Ok(
                DepositTokenAView {
                    position_a: PositionA {
                        amount,
                        start_slot: start,
                        end_slot: end,
                        bookkeeping: 0,
                        no_trade_slots: 0,
                        total_no_trades: 0,
                        bump: bumps.position_a,
                    },
                    ..self
                },
            ),
            Err(e) => Err(e),
        }
    }

    /// The records after the position's expiry was registered and the
    /// market caught up to `current_slot`, in that order.
    pub open spec fn update_exits(self, current_slot: u64) -> Result<
        DepositTokenAView,
        CustomErrorCode,
    > {
        match self.exits.registered(
            Side::A,
            self.position_a.end_slot,
            self.position_a.rate() as u64,
            self.market.end_slot_interval,
        ) {
            Some(registered) => match registered.advanced(
                self.market,
                self.bookkeeping,
                current_slot,
            ) {
                Some(flow) => Ok(
                    DepositTokenAView {
                        market: flow.ledger(self.market),
                        bookkeeping: flow.book,
                        exits: ExitsView {
                            pointer: registered.pointer_after(self.market, current_slot),
                            ..registered
                        },
                        prices: registered.history_after(
                            self.prices,
                            self.market,
                            self.bookkeeping,
                            current_slot,
                        ),
                        ..self
                    },
                ),
                None => Err(CustomErrorCode::ArithmeticOverflow),
            },
            None => Err(CustomErrorCode::ArithmeticOverflow),
        }
    }

    /// The records after the position's flow joined the ledger. Once the
    /// market has started, the volumes as they were before are integrated
    /// up to `current_slot` and the position's checkpoints are set to the
    /// integrator's counters.
    pub open spec fn update_market(self, current_slot: u64) -> Result<
        DepositTokenAView,
        CustomErrorCode,
    > {
        match self.market.with_more(Side::A, self.position_a.rate() as u64) {
            Some(market) => if current_slot <= self.market.start_slot {
                Ok(DepositTokenAView { market, ..self })
            } else {
                match self.bookkeeping.updated(
                    self.market.token_a_volume,
                    self.market.token_b_volume,
                    current_slot,
                ) {
                    Some(book) => Ok(
                        DepositTokenAView {
                            market,
                            bookkeeping: book,
                            position_a: self.position_a.checkpointed(book),
                            ..self
                        },
                    ),
                    None => Err(CustomErrorCode::ArithmeticOverflow),
                }
            },
            None => Err(CustomErrorCode::ArithmeticOverflow),
        }
    }
}

impl DepositTokenAView {
    /// The whole deposit: the position is created, its expiry registered
    /// and the market caught up, and its flow joins the ledger. The first
    /// step that fails ends the deposit with its error, and the records
    /// stay as the steps before it left them.
    pub open spec fn deposit(
        self,
        bumps: DepositTokenABumps,
        amount: u64,
        end_slot: u64,
        current_slot: u64,
    ) -> (DepositTokenAView, Result<(), CustomErrorCode>) {
        match self.initialize_position_account(bumps, amount, end_slot, current_slot) {
            Ok(created) => match created.update_exits(current_slot) {
                Ok(caught_up) => match caught_up.update_market(current_slot) {
                    Ok(joined) => (joined, Ok(())),
                    Err(e) => (caught_up, Err(e)),
                },
                Err(e) => (created, Err(e)),
            },
            Err(e) => (self, Err(e)),
        }
    }
}

impl DepositTokenA {
    /// Validates a deposit of `amount` that is to be exchanged up to
    /// `end_slot` and creates its position: it starts at `current_slot`, or
    /// with the market where that is later, and ends at `end_slot` rounded
    /// to the nearest multiple of the market's interval. A deposit that is
    /// turned down leaves the records as they were.
    pub fn initialize_position_account(
        &mut self,
        bumps: &DepositTokenABumps,
        amount: u64,
        end_slot: u64,
        current_slot: u64,
    ) -> (r: Result<(), CustomErrorCode>)
        requires
            old(self)@.wf(),
        ensures
            match old(self)@.initialize_position_account(*bumps, amount, end_slot, current_slot) {
                Ok(after) => r is Ok && final(self)@ == after && after.position_a.wf(),
                Err(e) => r == Err::<(), CustomErrorCode>(e) && final(self)@ == old(self)@,
            },
            final(self)@.wf(),
    {
        match resolve_deposit_terms(&self.market, self.decimals, amount, end_slot, current_slot) {
            Ok((start, end)) => {
                self.position_a = PositionA::new(amount, start, end, bumps.position_a);
                Ok(())
            },
            Err(e) => Err(e),
        }
    }

    /// Registers the position's expiry in the schedule, then brings the
    /// market up to `current_slot`, recording the price history on the
    /// way. On failure the records are left as they were.
    pub fn update_exits(&mut self, current_slot: u64) -> (r: Result<(), CustomErrorCode>)
        requires
            old(self)@.wf(),
            old(self).position_a.wf(),
        ensures
            match old(self)@.update_exits(current_slot) {
                Ok(after) => r is Ok && final(self)@ == after,
                Err(e) => r == Err::<(), CustomErrorCode>(e) && final(self)@ == old(self)@,
            },
            final(self)@.wf(),
    {
        let rate: u64 = self.position_a.get_volume();
        let end_slot: u64 = self.position_a.end_slot;
        let interval: u64 = self.market.end_slot_interval;
        match self.exits.register(Side::A, end_slot, rate, interval) {
            Ok(()) => {},
            Err(e) => { return Err(e); },
        }
        match self.exits.advance_recording(
            current_slot,
            &mut self.market,
            &mut self.bookkeeping,
            &mut self.prices,
        ) {
            Ok(_) => Ok(()),
            Err(e) => {
                proof {
                    lemma_cancel_undoes_register(old(self)@.exits, Side::A, end_slot, rate, interval);
                }
                let undone = self.exits.cancel(Side::A, end_slot, rate, interval);
                Err(e)
            },
        }
    }

    /// Adds the position's flow to side A of the ledger. Once the market
    /// has started, the volumes as they were before are first integrated
    /// up to `current_slot`, and the position's checkpoints are set to the
    /// integrator's counters. On failure the records are left as they
    /// were.
    pub fn update_market(&mut self, current_slot: u64) -> (r: Result<(), CustomErrorCode>)
        requires
            old(self)@.wf(),
            old(self).position_a.wf(),
        ensures
            match old(self)@.update_market(current_slot) {
                Ok(after) => r is Ok && final(self)@ == after,
                Err(e) => r == Err::<(), CustomErrorCode>(e) && final(self)@ == old(self)@,
            },
            final(self)@.wf(),
            final(self).position_a.wf(),
    {
        let rate: u64 = self.position_a.get_volume();
        let mut market_after = Market {
            treasury_a: self.market.treasury_a,
            treasury_b: self.market.treasury_b,
            token_a_volume: self.market.token_a_volume,
            token_b_volume: self.market.token_b_volume,
            start_slot: self.market.start_slot,
            end_slot_interval: self.market.end_slot_interval,
            bump: self.market.bump,
        };
        match market_after.add_volume(Side::A, rate) {
            Ok(()) => {},
            Err(e) => { return Err(e); },
        }
        if current_slot <= self.market.start_slot {
            self.market = market_after;
            return Ok(());
        }
        let mut book: Bookkeeping = self.bookkeeping;
        match book.update(self.market.token_a_volume, self.market.token_b_volume, current_slot) {
            Ok(()) => {},
            Err(e) => { return Err(e); },
        }
        self.market = market_after;
        self.bookkeeping = book;
        self.position_a.bookkeeping = book.b_per_a;
        self.position_a.no_trade_slots = book.no_trade_slots;
        Ok(())
    }
}

/// The bump seed of the position that a deposit of token B creates.
#[derive(Clone, Copy, Debug, PartialEq, Eq, Structural)]
pub struct DepositTokenBBumps {
    pub position_b: u8,
}

/// What a deposit of token B works on: the decimal places of the token,
/// the records of the market, and the position that the deposit creates.
pub struct DepositTokenB {
    pub decimals: u8,
    pub market: Market,
    pub position_b: PositionB,
    pub bookkeeping: Bookkeeping,
    pub exits: Exits,
    pub prices: Prices,
}

/// The contents of the records of a deposit of token B.
pub struct DepositTokenBView {
    pub decimals: u8,
    pub market: Market,
    pub position_b: PositionB,
    pub bookkeeping: Bookkeeping,
    pub exits: ExitsView,
    pub prices: PricesView,
}

impl View for DepositTokenB {
    type V = DepositTokenBView;

    open spec fn view(&self) -> DepositTokenBView {
        DepositTokenBView {
            decimals: self.decimals,
            market: self.market,
            position_b: self.position_b,
            bookkeeping: self.bookkeeping,
            exits: self.exits@,
            prices: self.prices@,
        }
    }
}

impl DepositTokenBView {
    /// The records fit together: the schedule and the history are rings of
    /// one length, and the schedule starts no later than the market.
    pub open spec fn wf(self) -> bool {
        &&& self.market.wf()
        &&& self.exits.wf()
        &&& self.prices.wf()
        &&& self.prices.len() == self.exits.len()
        &&& self.exits.start_slot <= self.market.start_slot
    }

    /// The records after the position was created, or why the deposit is
    /// turned down.
    pub open spec fn initialize_position_account(
        self,
        bumps: DepositTokenBBumps,
        amount: u64,
        end_slot: u64,
        current_slot: u64,
    ) -> Result<DepositTokenBView, CustomErrorCode> {
        match deposit_terms(self.market, self.decimals, amount, end_slot, current_slot) {
            Ok((start, end)) => Ok(
                DepositTokenBView {
                    position_b: PositionB {
                        amount,
                        start_slot: start,
                        end_slot: end,
                        bookkeeping: 0,
                        no_trade_slots: 0,
                        total_no_trades: 0,
                        bump: bumps.position_b,
                    },
                    ..self
                },
            ),
            Err(e) => Err(e),
        }
    }

    /// The records after the position's expiry was registered and the
    /// market caught up to `current_slot`, in that order.
    pub open spec fn update_exits(self, current_slot: u64) -> Result<
        DepositTokenBView,
        CustomErrorCode,
    > {
        match self.exits.registered(
            Side::B,
            self.position_b.end_slot,
            self.position_b.rate() as u64,
            self.market.end_slot_interval,
        ) {
            Some(registered) => match registered.advanced(
                self.market,
                self.bookkeeping,
                current_slot,
            ) {
                Some(flow) => Ok(
                    DepositTokenBView {
                        market: flow.ledger(self.market),
                        bookkeeping: flow.book,
                        exits: ExitsView {
                            pointer: registered.pointer_after(self.market, current_slot),
                            ..registered
                        },
                        prices: registered.history_after(
                            self.prices,
                            self.market,
                            self.bookkeeping,
                            current_slot,
                        ),
                        ..self
                    },
                ),
                None => Err(CustomErrorCode::ArithmeticOverflow),
            },
            None => Err(CustomErrorCode::ArithmeticOverflow),
        }
    }

    /// The records after the position's flow joined the ledger. Once the
    /// market has started, the volumes as they were before are integrated
    /// up to `current_slot` and the position's checkpoints are set to the
    /// integrator's counters.
    pub open spec fn update_market(self, current_slot: u64) -> Result<
        DepositTokenBView,
        CustomErrorCode,
    > {
        match self.market.with_more(Side::B, self.position_b.rate() as u64) {
            Some(market) => if current_slot <= self.market.start_slot {
                Ok(DepositTokenBView { market, ..self })
            } else {
                match self.bookkeeping.updated(
                    self.market.token_a_volume,
                    self.market.token_b_volume,
                    current_slot,
                ) {
                    Some(book) => Ok(
                        DepositTokenBView {
                            market,
                            bookkeeping: book,
                            position_b: self.position_b.checkpointed(book),
                            ..self
                        },
                    ),
                    None => Err(CustomErrorCode::ArithmeticOverflow),
                }
            },
            None => Err(CustomErrorCode::ArithmeticOverflow),
        }
    }
}

impl DepositTokenBView {
    /// The whole deposit: the position is created, its expiry registered
    /// and the market caught up, and its flow joins the ledger. The first
    /// step that fails ends the deposit with its error, and the records
    /// stay as the steps before it left them.
    pub open spec fn deposit(
        self,
        bumps: DepositTokenBBumps,
        amount: u64,
        end_slot: u64,
        current_slot: u64,
    ) -> (DepositTokenBView, Result<(), CustomErrorCode>) {
        match self.initialize_position_account(bumps, amount, end_slot, current_slot) {
            Ok(created) => match created.update_exits(current_slot) {
                Ok(caught_up) => match caught_up.update_market(current_slot) {
                    Ok(joined) => (joined, Ok(())),
                    Err(e) => (caught_up, Err(e)),
                },
                Err(e) => (created, Err(e)),
            },
            Err(e) => (self, Err(e)),
        }
    }
}

impl DepositTokenB {
    /// Validates a deposit of `amount` that is to be exchanged up to
    /// `end_slot` and creates its position: it starts at `current_slot`, or
    /// with the market where that is later, and ends at `end_slot` rounded
    /// to the nearest multiple of the market's interval. A deposit that is
    /// turned down leaves the records as they were.
    pub fn initialize_position_account(
        &mut self,
        bumps: &DepositTokenBBumps,
        amount: u64,
        end_slot: u64,
        current_slot: u64,
    ) -> (r: Result<(), CustomErrorCode>)
        requires
            old(self)@.wf(),
        ensures
            match old(self)@.initialize_position_account(*bumps, amount, end_slot, current_slot) {
                Ok(after) => r is Ok && final(self)@ == after && after.position_b.wf(),
                Err(e) => r == Err::<(), CustomErrorCode>(e) && final(self)@ == old(self)@,
            },
            final(self)@.wf(),
    {
        match resolve_deposit_terms(&self.market, self.decimals, amount, end_slot, current_slot) {
            Ok((start, end)) => {
                self.position_b = PositionB::new(amount, start, end, bumps.position_b);
                Ok(())
            },
            Err(e) => Err(e),
        }
    }

    /// Registers the position's expiry in the schedule, then brings the
    /// market up to `current_slot`, recording the price history on the
    /// way. On failure the records are left as they were.
    pub fn update_exits(&mut self, current_slot: u64) -> (r: Result<(), CustomErrorCode>)
        requires
            old(self)@.wf(),
            old(self).position_b.wf(),
        ensures
            match old(self)@.update_exits(current_slot) {
                Ok(after) => r is Ok && final(self)@ == after,
                Err(e) => r == Err::<(), CustomErrorCode>(e) && final(self)@ == old(self)@,
            },
            final(self)@.wf(),
    {
        let rate: u64 = self.position_b.get_volume();
        let end_slot: u64 = self.position_b.end_slot;
        let interval: u64 = self.market.end_slot_interval;
        match self.exits.register(Side::B, end_slot, rate, interval) {
            Ok(()) => {},
            Err(e) => { return Err(e); },
        }
        match self.exits.advance_recording(
            current_slot,
            &mut self.market,
            &mut self.bookkeeping,
            &mut self.prices,
        ) {
            Ok(_) => Ok(()),
            Err(e) => {
                proof {
                    lemma_cancel_undoes_register(old(self)@.exits, Side::B, end_slot, rate, interval);
                }
                let undone = self.exits.cancel(Side::B, end_slot, rate, interval);
                Err(e)
            },
        }
    }

    /// Adds the position's flow to side B of the ledger. Once the market
    /// has started, the volumes as they were before are first integrated
    /// up to `current_slot`, and the position's checkpoints are set to the
    /// integrator's counters. On failure the records are left as they
    /// were.
    pub fn update_market(&mut self, current_slot: u64) -> (r: Result<(), CustomErrorCode>)
        requires
            old(self)@.wf(),
            old(self).position_b.wf(),
        ensures
            match old(self)@.update_market(current_slot) {
                Ok(after) => r is Ok && final(self)@ == after,
                Err(e) => r == Err::<(), CustomErrorCode>(e) && final(self)@ == old(self)@,
            },
            final(self)@.wf(),
            final(self).position_b.wf(),
    {
        let rate: u64 = self.position_b.get_volume();
        let mut market_after = Market {
            treasury_a: self.market.treasury_a,
            treasury_b: self.market.treasury_b,
            token_a_volume: self.market.token_a_volume,
            token_b_volume: self.market.token_b_volume,
            start_slot: self.market.start_slot,
            end_slot_interval: self.market.end_slot_interval,
            bump: self.market.bump,
        };
        match market_after.add_volume(Side::B, rate) {
            Ok(()) => {},
            Err(e) => { return Err(e); },
        }
        if current_slot <= self.market.start_slot {
            self.market = market_after;
            return Ok(());
        }
        let mut book: Bookkeeping = self.bookkeeping;
        match book.update(self.market.token_a_volume, self.market.token_b_volume, current_slot) {
            Ok(()) => {},
            Err(e) => { return Err(e); },
        }
        self.market = market_after;
        self.bookkeeping = book;
        self.position_b.bookkeeping = book.a_per_b;
        self.position_b.no_trade_slots = book.no_trade_slots;
        Ok(())
    }
}

} // verus!
