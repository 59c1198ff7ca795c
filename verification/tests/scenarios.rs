use anchor_lang::prelude::Pubkey;
use eki::error::CustomErrorCode;
use eki::instructions::close_position::{ClosePayout, ClosePositionA};
use eki::instructions::deposit_token::{DepositTokenA, DepositTokenABumps};
use eki::instructions::initialize_market::{InitializeMarket, InitializeMarketBumps};
use eki::state::bookkeeping::Bookkeeping;
use eki::state::exits::Exits;
use eki::state::market::{Market, Side};
use eki::state::position::PositionA;
use eki::state::prices::Prices;

fn key(byte: u8) -> Pubkey {
    Pubkey::new_from_array([byte; 32])
}

fn market_with_one_deposit(len: usize) -> DepositTokenA {
    let mut ctx = InitializeMarket {
        treasury_a: key(1),
        treasury_b: key(2),
        market: Market::new(key(0), key(0), 0, 1, 0),
        bookkeeping: Bookkeeping::new(0, 0),
        exits: Exits::with_length(len, 0),
    };
    let bumps = InitializeMarketBumps { market: 1, bookkeeping: 2 };
    assert_eq!(eki::initialize_market(&mut ctx, &bumps, 100, 10, 50), Ok(()));
    let mut deposit = DepositTokenA {
        decimals: 0,
        market: ctx.market,
        position_a: PositionA::new(0, 0, 0, 0),
        bookkeeping: ctx.bookkeeping,
        exits: ctx.exits,
        prices: Prices::with_length(len),
    };
    // 1000 units of A over the slots 100 up to 140
    assert_eq!(
        eki::deposit_token_a(&mut deposit, &DepositTokenABumps { position_a: 0 }, 1000, 140, 100),
        Ok(())
    );
    assert_eq!(deposit.position_a.get_volume(), 25 * 1_000_000);
    deposit
}

#[test]
fn four_buckets_fall_due_and_the_deposit_expires() {
    let mut d = market_with_one_deposit(8);
    assert_eq!(d.market.token_a_volume, 25_000_000);
    let processed =
        d.exits.advance_recording(141, &mut d.market, &mut d.bookkeeping, &mut d.prices);
    // the buckets of the slots 110, 120, 130 and 140
    assert_eq!(processed, Ok(4));
    assert_eq!(d.bookkeeping.last_slot, 140);
    assert_eq!(d.bookkeeping.no_trade_slots, 40);
    assert_eq!(d.market.token_a_volume, 0);
    assert_eq!(d.exits.pointer, 4);
    for bucket in 1..=4 {
        assert_eq!(d.prices.snapshot(bucket).unwrap().no_trade_slots, 10 * bucket as u64);
    }
    let again = d.exits.advance_recording(141, &mut d.market, &mut d.bookkeeping, &mut d.prices);
    assert_eq!(again, Ok(0));
    assert_eq!(d.bookkeeping.last_slot, 140);
    assert_eq!(d.market.token_a_volume, 0);
    assert_eq!(d.exits.pointer, 4);
}

#[test]
fn ring_of_four_processes_the_four_buckets_in_two_catch_ups() {
    let mut d = market_with_one_deposit(4);
    assert_eq!(d.exits.token_a, vec![25_000_000, 0, 0, 0]);
    assert_eq!(d.exits.advance(131, &mut d.market, &mut d.bookkeeping), Ok(3));
    assert_eq!(d.bookkeeping.last_slot, 130);
    assert_eq!(d.market.token_a_volume, 25_000_000);
    // the fourth bucket wraps round to ring position 0 and removes the deposit at slot 140
    assert_eq!(d.exits.advance(141, &mut d.market, &mut d.bookkeeping), Ok(1));
    assert_eq!(d.bookkeeping.last_slot, 140);
    assert_eq!(d.market.token_a_volume, 0);
    assert_eq!(d.exits.pointer, 0);
    assert_eq!(d.exits.advance(141, &mut d.market, &mut d.bookkeeping), Ok(0));
    assert_eq!(d.bookkeeping.last_slot, 140);
}

#[test]
fn ring_of_four_does_not_see_a_whole_lap() {
    // the target of slot 141 is a whole lap ahead and lands on the pointer itself:
    // nothing is due, and what the lap's buckets hold stays on the ledger
    let mut d = market_with_one_deposit(4);
    assert_eq!(d.exits.advance(141, &mut d.market, &mut d.bookkeeping), Ok(0));
    assert_eq!(d.exits.pointer, 0);
    assert_eq!(d.market.token_a_volume, 25_000_000);
    assert_eq!(d.bookkeeping.last_slot, 100);
}

#[test]
fn early_close_takes_its_share_out_of_the_shared_bucket() {
    let first = market_with_one_deposit(8);
    let x = first.position_a;
    let mut second = DepositTokenA {
        decimals: 0,
        market: first.market,
        position_a: PositionA::new(0, 0, 0, 0),
        bookkeeping: first.bookkeeping,
        exits: first.exits,
        prices: first.prices,
    };
    assert_eq!(
        eki::deposit_token_a(&mut second, &DepositTokenABumps { position_a: 0 }, 2000, 140, 100),
        Ok(())
    );
    // both expire in the bucket of slot 140
    assert_eq!(second.exits.pending(Side::A, 4), 75_000_000);
    assert_eq!(second.market.token_a_volume, 75_000_000);

    let mut close = ClosePositionA {
        market: second.market,
        position_a: x,
        bookkeeping: second.bookkeeping,
        exits: second.exits,
    };
    assert_eq!(
        eki::close_position_a(&mut close, 115),
        Ok(ClosePayout { swapped: 0, principal: 1000 })
    );
    // the bucket and the ledger both lose the closed position's rate
    assert_eq!(close.exits.pending(Side::A, 4), 50_000_000);
    assert_eq!(close.market.token_a_volume, 50_000_000);
    assert_eq!(close.exits.pointer, 1);

    // the scheduled expiry removes the other position's rate and no more
    assert_eq!(close.exits.advance(141, &mut close.market, &mut close.bookkeeping), Ok(3));
    assert_eq!(close.market.token_a_volume, 0);
}

#[test]
fn expiry_left_in_the_bucket_would_be_subtracted_twice() {
    let first = market_with_one_deposit(8);
    let mut market = first.market;
    let mut book = first.bookkeeping;
    let mut exits = first.exits;
    // the rate leaves the ledger, but its expiry stays in the schedule
    assert_eq!(market.remove_volume(Side::A, 25_000_000), Ok(()));
    assert_eq!(exits.advance(141, &mut market, &mut book), Err(CustomErrorCode::ArithmeticOverflow));
    // with the expiry cancelled as well the catch-up goes through
    assert_eq!(exits.cancel(Side::A, 140, 25_000_000, 10), Ok(()));
    assert_eq!(exits.advance(141, &mut market, &mut book), Ok(4));
    assert_eq!(market.token_a_volume, 0);
}

#[test]
fn ledger_carries_the_rates_of_the_positions_that_flow() {
    // three deposits of token A that end at 120, 130 and 130
    let mut ctx = market_with_one_deposit(8);
    let mut rates = vec![(ctx.position_a.end_slot, ctx.position_a.get_volume())];
    for (amount, end_slot, now) in [(300u64, 120u64, 100u64), (900, 130, 100), (600, 130, 105)] {
        ctx.position_a = PositionA::new(0, 0, 0, 0);
        assert_eq!(
            eki::deposit_token_a(&mut ctx, &DepositTokenABumps { position_a: 0 }, amount, end_slot, now),
            Ok(())
        );
        rates.push((ctx.position_a.end_slot, ctx.position_a.get_volume()));
    }
    for now in [105u64, 110, 119, 120, 125, 130, 139, 140, 141, 150] {
        assert!(ctx
            .exits
            .advance_recording(now, &mut ctx.market, &mut ctx.bookkeeping, &mut ctx.prices)
            .is_ok());
        let flowing: u64 = rates.iter().filter(|(end, _)| *end > now).map(|(_, rate)| *rate).sum();
        assert_eq!(ctx.market.token_a_volume, flowing);
        assert_eq!(ctx.market.token_b_volume, 0);
    }
}

#[test]
fn more_than_a_lap_behind_only_the_last_buckets_are_processed() {
    // slot 171 lies seven buckets ahead on a ring of four: the three buckets of the
    // slots 150, 160 and 170 are processed, those before them are passed over
    let mut d = market_with_one_deposit(4);
    assert_eq!(d.exits.advance(171, &mut d.market, &mut d.bookkeeping), Ok(3));
    assert_eq!(d.exits.pointer, 3);
    assert_eq!(d.bookkeeping.last_slot, 170);
    assert_eq!(d.bookkeeping.no_trade_slots, 70);
    assert_eq!(d.market.token_a_volume, 25_000_000);
}

#[test]
fn catch_up_within_one_interval_finds_nothing_due() {
    let mut d = market_with_one_deposit(8);
    assert_eq!(d.exits.advance(112, &mut d.market, &mut d.bookkeeping), Ok(1));
    for now in 112..120 {
        assert_eq!(d.exits.advance(now, &mut d.market, &mut d.bookkeeping), Ok(0));
        assert_eq!(d.bookkeeping.last_slot, 110);
    }
    assert_eq!(d.exits.advance(120, &mut d.market, &mut d.bookkeeping), Ok(1));
    assert_eq!(d.bookkeeping.last_slot, 120);
}

#[test]
fn counters_never_decrease_over_catch_ups() {
    let first = market_with_one_deposit(8);
    let mut market = first.market;
    let mut book = first.bookkeeping;
    let mut exits = first.exits;
    assert_eq!(exits.register(Side::B, 130, 40_000_000, 10), Ok(()));
    assert_eq!(market.add_volume(Side::B, 40_000_000), Ok(()));
    let mut processed = 0;
    for now in [101u64, 109, 110, 125, 125, 139, 140, 163, 500] {
        let before = book;
        let due = exits.advance(now, &mut market, &mut book).unwrap();
        assert!(due < 8);
        processed += due;
        assert!(book.a_per_b >= before.a_per_b);
        assert!(book.b_per_a >= before.b_per_a);
        assert!(book.no_trade_slots >= before.no_trade_slots);
        assert!(book.last_slot >= before.last_slot);
    }
    // three buckets at 25 against 40, then idle
    assert_eq!(book.a_per_b, 3 * 10 * 625_000);
    assert_eq!(book.b_per_a, 3 * 10 * 1_600_000);
    assert_eq!(market.token_a_volume, 0);
    assert_eq!(market.token_b_volume, 0);
    // six buckets one by one, and two of those that the jump to slot 500 leaves due
    assert_eq!(processed, 6 + 2);
}
