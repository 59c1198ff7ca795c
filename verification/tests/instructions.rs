use anchor_lang::prelude::Pubkey;
use eki::constants::{ANCHOR_DISCRIMINATOR, EXITS_LENGTH, PRICES_LENGTH};
use eki::error::CustomErrorCode;
use eki::instructions::close_position::{ClosePayout, ClosePositionA, ClosePositionB};
use eki::instructions::deposit_token::{
    resolve_deposit_terms, DepositTokenA, DepositTokenABumps, DepositTokenB, DepositTokenBBumps,
};
use eki::instructions::initialize_exits::{stamp, InitializeExits};
use eki::instructions::initialize_market::{
    get_start_slot, InitializeMarket, InitializeMarketBumps,
};
use eki::instructions::update_bookkeeping::UpdateBookkeeping;
use eki::instructions::withdraw_swapped_tokens::{WithdrawSwappedTokensA, WithdrawSwappedTokensB};
use eki::power::{is_power_of_ten, power_of_ten_checked};
use eki::settlement::{earned, principal_left};
use eki::state::bookkeeping::Bookkeeping;
use eki::state::exits::Exits;
use eki::state::market::Market;
use eki::state::position::{PositionA, PositionB};
use eki::state::prices::Prices;

fn key(byte: u8) -> Pubkey {
    Pubkey::new_from_array([byte; 32])
}

fn opened(len: usize, start_slot: u64, interval: u64, current_slot: u64) -> InitializeMarket {
    let mut ctx = InitializeMarket {
        treasury_a: key(1),
        treasury_b: key(2),
        market: Market::new(key(0), key(0), 0, 1, 0),
        bookkeeping: Bookkeeping::new(0, 0),
        exits: Exits::with_length(len, 0),
    };
    let bumps = InitializeMarketBumps { market: 254, bookkeeping: 253 };
    assert_eq!(
        eki::initialize_market(&mut ctx, &bumps, start_slot, interval, current_slot),
        Ok(())
    );
    ctx
}

fn deposit_a(
    ctx: InitializeMarket,
    len: usize,
    amount: u64,
    end_slot: u64,
    current_slot: u64,
) -> DepositTokenA {
    let mut deposit = DepositTokenA {
        decimals: 0,
        market: ctx.market,
        position_a: PositionA::new(0, 0, 0, 0),
        bookkeeping: ctx.bookkeeping,
        exits: ctx.exits,
        prices: Prices::with_length(len),
    };
    let bumps = DepositTokenABumps { position_a: 9 };
    assert_eq!(
        eki::deposit_token_a(&mut deposit, &bumps, amount, end_slot, current_slot),
        Ok(())
    );
    deposit
}

#[test]
fn powers_of_ten_are_recognized() {
    for n in [1u64, 10, 100, 1_000_000, 10_000_000_000_000_000_000] {
        assert!(is_power_of_ten(n));
    }
    for n in [0u64, 2, 11, 20, 101, 1_000_001, u64::MAX] {
        assert!(!is_power_of_ten(n));
    }
}

#[test]
fn powers_of_ten_are_computed() {
    assert_eq!(power_of_ten_checked(0), Some(1));
    assert_eq!(power_of_ten_checked(6), Some(1_000_000));
    assert_eq!(power_of_ten_checked(19), Some(10_000_000_000_000_000_000));
    assert_eq!(power_of_ten_checked(20), None);
    assert_eq!(power_of_ten_checked(255), None);
}

#[test]
fn full_size_rings_share_their_length() {
    assert_eq!(EXITS_LENGTH, PRICES_LENGTH);
    assert_eq!(Exits::INIT_SPACE, 2 * 8 * 420000 + 16);
}

#[test]
fn storage_too_small_is_turned_down() {
    let mut ctx = InitializeExits { exits: vec![7u8; ANCHOR_DISCRIMINATOR + Exits::INIT_SPACE - 1] };
    assert_eq!(eki::initialize_exits(&mut ctx), Err(CustomErrorCode::AccountTooSmall));
    assert!(ctx.exits.iter().all(|b| *b == 7));
    let mut empty = InitializeExits { exits: Vec::new() };
    assert_eq!(empty.initialize_exits(), Err(CustomErrorCode::AccountTooSmall));
}

#[test]
fn storage_is_stamped_with_the_discriminator() {
    let mut ctx = InitializeExits { exits: vec![7u8; ANCHOR_DISCRIMINATOR + Exits::INIT_SPACE] };
    assert_eq!(eki::initialize_exits(&mut ctx), Ok(()));
    // the first eight bytes of the SHA-256 digest of "account:Exits"
    assert_eq!(&ctx.exits[..8], &[240, 175, 85, 167, 2, 200, 2, 180]);
    assert!(ctx.exits[8..].iter().all(|b| *b == 7));
    assert_eq!(ctx.exits.len(), ANCHOR_DISCRIMINATOR + Exits::INIT_SPACE);
}

#[test]
fn stamp_copies_eight_bytes() {
    let mut data = vec![0u8; 10];
    let mut digest = [0u8; 32];
    for (i, byte) in digest.iter_mut().enumerate() {
        *byte = i as u8 + 1;
    }
    stamp(&mut data, &digest);
    assert_eq!(data, vec![1, 2, 3, 4, 5, 6, 7, 8, 0, 0]);
}

#[test]
fn market_opens_at_the_later_of_start_and_now() {
    let ctx = opened(4, 100, 10, 90);
    assert_eq!(ctx.market.start_slot, 100);
    assert_eq!(ctx.market.end_slot_interval, 10);
    assert_eq!(ctx.market.token_a_volume, 0);
    assert_eq!(ctx.market.token_b_volume, 0);
    assert_eq!(ctx.market.treasury_a, key(1));
    assert_eq!(ctx.market.treasury_b, key(2));
    assert_eq!(ctx.market.bump, 254);
    assert_eq!(ctx.bookkeeping, Bookkeeping::new(100, 253));
    assert_eq!(ctx.exits.start_slot, 100);
    assert_eq!(ctx.exits.pointer, 0);
    let late = opened(4, 100, 10, 237);
    assert_eq!(late.market.start_slot, 237);
    assert_eq!(late.bookkeeping.last_slot, 237);
    assert_eq!(late.exits.start_slot, 230);
}

#[test]
fn market_with_a_bad_interval_is_turned_down() {
    for interval in [0u64, 20, 15, 99] {
        let mut ctx = InitializeMarket {
            treasury_a: key(1),
            treasury_b: key(2),
            market: Market::new(key(3), key(4), 5, 1, 6),
            bookkeeping: Bookkeeping::new(7, 8),
            exits: Exits::with_length(4, 9),
        };
        let bumps = InitializeMarketBumps { market: 1, bookkeeping: 2 };
        assert_eq!(
            ctx.initialize_market(&bumps, 100, interval, 90),
            Err(CustomErrorCode::InvalidSlotInterval)
        );
        assert_eq!(ctx.market.start_slot, 5);
        assert_eq!(ctx.market.treasury_a, key(3));
        assert_eq!(ctx.bookkeeping, Bookkeeping::new(7, 8));
        assert_eq!(ctx.exits.start_slot, 9);
    }
}

#[test]
fn start_slot_is_estimated_from_the_time_left() {
    assert_eq!(get_start_slot(50, 50, 1000), Ok(1000));
    assert_eq!(get_start_slot(40, 50, 1000), Ok(1000));
    // 10 seconds at 400 ms to the slot
    assert_eq!(get_start_slot(60, 50, 1000), Ok(1025));
    assert_eq!(get_start_slot(51, 50, 0), Ok(2));
    assert_eq!(get_start_slot(i64::MAX, 0, 0), Err(CustomErrorCode::ArithmeticOverflow));
    assert_eq!(get_start_slot(i64::MAX, -1, 0), Err(CustomErrorCode::ArithmeticOverflow));
    assert_eq!(get_start_slot(4, 0, u64::MAX - 9), Err(CustomErrorCode::ArithmeticOverflow));
    assert_eq!(get_start_slot(4, 0, u64::MAX - 10), Ok(u64::MAX));
}

#[test]
fn deposit_terms_round_the_end_half_up() {
    let market = Market::new(key(1), key(2), 100, 10, 0);
    assert_eq!(resolve_deposit_terms(&market, 0, 1, 134, 100), Ok((100, 130)));
    assert_eq!(resolve_deposit_terms(&market, 0, 1, 135, 100), Ok((100, 140)));
    assert_eq!(resolve_deposit_terms(&market, 0, 1, 140, 100), Ok((100, 140)));
    // before the market starts the position starts with the market
    assert_eq!(resolve_deposit_terms(&market, 0, 1, 140, 3), Ok((100, 140)));
    assert_eq!(resolve_deposit_terms(&market, 0, 1, 140, 123), Ok((123, 140)));
}

#[test]
fn deposit_below_the_minimum_is_turned_down() {
    let market = Market::new(key(1), key(2), 100, 10, 0);
    assert_eq!(
        resolve_deposit_terms(&market, 3, 999, 140, 100),
        Err(CustomErrorCode::DepositTooSmall)
    );
    assert_eq!(resolve_deposit_terms(&market, 3, 1000, 140, 100), Ok((100, 140)));
    assert_eq!(
        resolve_deposit_terms(&market, 0, 0, 140, 100),
        Err(CustomErrorCode::DepositTooSmall)
    );
    assert_eq!(
        resolve_deposit_terms(&market, 20, u64::MAX, 140, 100),
        Err(CustomErrorCode::DepositTooSmall)
    );
}

#[test]
fn deposit_that_ends_too_soon_is_turned_down() {
    let market = Market::new(key(1), key(2), 100, 10, 0);
    assert_eq!(
        resolve_deposit_terms(&market, 0, 5, 104, 100),
        Err(CustomErrorCode::EndSlotAlreadyPassed)
    );
    assert_eq!(
        resolve_deposit_terms(&market, 0, 5, 114, 101),
        Err(CustomErrorCode::EndSlotAlreadyPassed)
    );
    assert_eq!(resolve_deposit_terms(&market, 0, 5, 105, 100), Ok((100, 110)));
    assert_eq!(
        resolve_deposit_terms(&market, 0, 5, 50, 100),
        Err(CustomErrorCode::EndSlotAlreadyPassed)
    );
}

#[test]
fn deposit_that_cannot_be_scaled_is_turned_down() {
    let market = Market::new(key(1), key(2), 100, 10, 0);
    assert_eq!(
        resolve_deposit_terms(&market, 0, u64::MAX / 1_000_000 + 1, 140, 100),
        Err(CustomErrorCode::ArithmeticOverflow)
    );
    assert_eq!(
        resolve_deposit_terms(&market, 0, u64::MAX / 1_000_000, 140, 100),
        Ok((100, 140))
    );
    // the nearest multiple of ten above the largest slot is no slot
    assert_eq!(
        resolve_deposit_terms(&market, 0, 5, u64::MAX, 100),
        Err(CustomErrorCode::ArithmeticOverflow)
    );
}

#[test]
fn a_turned_down_deposit_leaves_the_records_alone() {
    let ctx = opened(8, 100, 10, 90);
    let mut deposit = DepositTokenA {
        decimals: 2,
        market: ctx.market,
        position_a: PositionA::new(1, 2, 3, 4),
        bookkeeping: ctx.bookkeeping,
        exits: ctx.exits,
        prices: Prices::with_length(8),
    };
    let bumps = DepositTokenABumps { position_a: 9 };
    assert_eq!(
        eki::deposit_token_a(&mut deposit, &bumps, 99, 140, 100),
        Err(CustomErrorCode::DepositTooSmall)
    );
    assert_eq!(
        eki::deposit_token_a(&mut deposit, &bumps, 100, 104, 100),
        Err(CustomErrorCode::EndSlotAlreadyPassed)
    );
    assert_eq!(deposit.position_a, PositionA::new(1, 2, 3, 4));
    assert_eq!(deposit.market.token_a_volume, 0);
    assert_eq!(deposit.exits.token_a, vec![0; 8]);
    assert_eq!(deposit.bookkeeping, Bookkeeping::new(100, 253));
}

#[test]
fn deposit_creates_registers_and_joins() {
    let deposit = deposit_a(opened(8, 100, 10, 90), 8, 1000, 140, 100);
    assert_eq!(
        deposit.position_a,
        PositionA {
            amount: 1000,
            start_slot: 100,
            end_slot: 140,
            bookkeeping: 0,
            no_trade_slots: 0,
            total_no_trades: 0,
            bump: 9,
        }
    );
    assert_eq!(deposit.position_a.get_volume(), 25_000_000);
    assert_eq!(deposit.market.token_a_volume, 25_000_000);
    assert_eq!(deposit.market.token_b_volume, 0);
    assert_eq!(deposit.exits.token_a, vec![0, 0, 0, 0, 25_000_000, 0, 0, 0]);
    assert_eq!(deposit.exits.token_b, vec![0; 8]);
    assert_eq!(deposit.exits.pointer, 0);
    assert_eq!(deposit.bookkeeping, Bookkeeping::new(100, 253));
}

#[test]
fn deposit_after_the_start_catches_up_and_sets_checkpoints() {
    let first = deposit_a(opened(8, 100, 10, 90), 8, 1000, 140, 100);
    let mut second = DepositTokenB {
        decimals: 0,
        market: first.market,
        position_b: PositionB::new(0, 0, 0, 0),
        bookkeeping: first.bookkeeping,
        exits: first.exits,
        prices: first.prices,
    };
    let bumps = DepositTokenBBumps { position_b: 3 };
    assert_eq!(eki::deposit_token_b(&mut second, &bumps, 500, 150, 115), Ok(()));
    // bucket 110 was processed with side B empty, then five more idle slots up to 115
    assert_eq!(second.exits.pointer, 1);
    assert_eq!(second.bookkeeping.no_trade_slots, 15);
    assert_eq!(second.bookkeeping.last_slot, 115);
    assert_eq!(second.bookkeeping.a_per_b, 0);
    // the end was rounded to 150, so the rate is 1_000_000 * 500 / 35
    assert_eq!(second.position_b.start_slot, 115);
    assert_eq!(second.position_b.end_slot, 150);
    assert_eq!(second.position_b.get_volume(), 14_285_714);
    assert_eq!(second.position_b.bookkeeping, 0);
    assert_eq!(second.position_b.no_trade_slots, 15);
    assert_eq!(second.position_b.total_no_trades, 0);
    assert_eq!(second.market.token_a_volume, 25_000_000);
    assert_eq!(second.market.token_b_volume, 14_285_714);
    assert_eq!(second.exits.token_b, vec![0, 0, 0, 0, 0, 14_285_714, 0, 0]);
    assert_eq!(second.prices.snapshot(1).unwrap().no_trade_slots, 10);
}

#[test]
fn failed_catch_up_takes_the_registration_back() {
    let ctx = opened(8, 100, 10, 90);
    let mut deposit = DepositTokenA {
        decimals: 0,
        market: ctx.market,
        position_a: PositionA::new(1000, 100, 140, 0),
        bookkeeping: Bookkeeping::new(500, 0),
        exits: ctx.exits,
        prices: Prices::with_length(8),
    };
    // the integrator stands at slot 500, so a catch-up to slot 115 must fail
    assert_eq!(deposit.update_exits(115), Err(CustomErrorCode::ArithmeticOverflow));
    assert_eq!(deposit.exits.token_a, vec![0; 8]);
    assert_eq!(deposit.exits.pointer, 0);
    assert_eq!(deposit.update_market(115), Err(CustomErrorCode::ArithmeticOverflow));
    assert_eq!(deposit.market.token_a_volume, 0);
    assert_eq!(deposit.position_a, PositionA::new(1000, 100, 140, 0));
}

#[test]
fn withdrawal_before_the_start_is_turned_down() {
    let deposit = deposit_a(opened(8, 100, 10, 90), 8, 1000, 140, 95);
    let mut ctx = WithdrawSwappedTokensB {
        market: deposit.market,
        position_a: deposit.position_a,
        bookkeeping: deposit.bookkeeping,
        exits: deposit.exits,
    };
    assert_eq!(
        eki::withdraw_swapped_token_b(&mut ctx, 100),
        Err(CustomErrorCode::NoTokensSwapped)
    );
    assert_eq!(eki::withdraw_swapped_token_b(&mut ctx, 3), Err(CustomErrorCode::NoTokensSwapped));
    assert_eq!(ctx.exits.pointer, 0);
    assert_eq!(ctx.bookkeeping, Bookkeeping::new(100, 253));
}

#[test]
fn both_sides_trade_and_settle() {
    let a = deposit_a(opened(8, 100, 10, 90), 8, 1000, 140, 100);
    let position_a = a.position_a;
    let mut b = DepositTokenB {
        decimals: 0,
        market: a.market,
        position_b: PositionB::new(0, 0, 0, 0),
        bookkeeping: a.bookkeeping,
        exits: a.exits,
        prices: a.prices,
    };
    assert_eq!(
        eki::deposit_token_b(&mut b, &DepositTokenBBumps { position_b: 3 }, 2000, 140, 100),
        Ok(())
    );
    let position_b = b.position_b;
    assert_eq!(b.market.token_a_volume, 25_000_000);
    assert_eq!(b.market.token_b_volume, 50_000_000);

    // A withdraws at slot 120: 20 slots at 25 A per slot, two B for each A
    let mut w = WithdrawSwappedTokensB {
        market: b.market,
        position_a,
        bookkeeping: b.bookkeeping,
        exits: b.exits,
    };
    assert_eq!(eki::withdraw_swapped_token_b(&mut w, 120), Ok(1000));
    assert_eq!(w.bookkeeping.a_per_b, 10_000_000);
    assert_eq!(w.bookkeeping.b_per_a, 40_000_000);
    assert_eq!(w.bookkeeping.last_slot, 120);
    assert_eq!(w.exits.pointer, 2);
    assert_eq!(w.position_a.bookkeeping, 40_000_000);
    assert_eq!(w.position_a.total_no_trades, 0);
    // a second withdrawal at the same slot pays nothing more
    assert_eq!(eki::withdraw_swapped_token_b(&mut w, 120), Ok(0));
    let position_a = w.position_a;

    // B closes after its end: the catch-up stops at slot 140
    let mut c = ClosePositionB {
        market: w.market,
        position_b,
        bookkeeping: w.bookkeeping,
        exits: w.exits,
    };
    assert_eq!(
        eki::close_position_b(&mut c, 145),
        Ok(ClosePayout { swapped: 1000, principal: 0 })
    );
    assert_eq!(c.bookkeeping.a_per_b, 20_000_000);
    assert_eq!(c.bookkeeping.b_per_a, 80_000_000);
    assert_eq!(c.bookkeeping.last_slot, 140);
    assert_eq!(c.exits.pointer, 4);
    assert_eq!(c.market.token_a_volume, 0);
    assert_eq!(c.market.token_b_volume, 0);
    // the bucket has fired; closing at or after the end leaves it alone
    assert_eq!(c.exits.token_b[4], 50_000_000);

    // A closes at its end and is paid for the second half
    let mut d = ClosePositionA {
        market: c.market,
        position_a,
        bookkeeping: c.bookkeeping,
        exits: c.exits,
    };
    assert_eq!(
        eki::close_position_a(&mut d, 140),
        Ok(ClosePayout { swapped: 1000, principal: 0 })
    );
    assert_eq!(d.market.token_a_volume, 0);
    assert_eq!(d.exits.pointer, 4);
}

#[test]
fn withdrawal_of_token_a_by_a_position_of_token_b() {
    let a = deposit_a(opened(8, 100, 10, 90), 8, 4000, 140, 100);
    let mut b = DepositTokenB {
        decimals: 0,
        market: a.market,
        position_b: PositionB::new(0, 0, 0, 0),
        bookkeeping: a.bookkeeping,
        exits: a.exits,
        prices: a.prices,
    };
    assert_eq!(
        eki::deposit_token_b(&mut b, &DepositTokenBBumps { position_b: 3 }, 2000, 140, 100),
        Ok(())
    );
    let mut w = WithdrawSwappedTokensA {
        market: b.market,
        position_b: b.position_b,
        bookkeeping: b.bookkeeping,
        exits: b.exits,
    };
    // 10 slots at 50 B per slot, two A for each B
    assert_eq!(eki::withdraw_swapped_token_a(&mut w, 110), Ok(1000));
    assert_eq!(w.position_b.bookkeeping, w.bookkeeping.a_per_b);
    assert_eq!(w.bookkeeping.a_per_b, 20_000_000);
    assert_eq!(w.bookkeeping.b_per_a, 5_000_000);
    // past the end the settlement stops at the end slot
    assert_eq!(eki::withdraw_swapped_token_a(&mut w, 1000), Ok(3000));
    assert_eq!(w.bookkeeping.last_slot, 140);
    assert_eq!(w.exits.pointer, 4);
    assert_eq!(w.market.token_a_volume, 0);
    assert_eq!(w.market.token_b_volume, 0);
}

#[test]
fn idle_slots_are_handed_back_as_principal() {
    let deposit = deposit_a(opened(8, 100, 10, 90), 8, 1000, 140, 100);
    let mut close = ClosePositionA {
        market: deposit.market,
        position_a: deposit.position_a,
        bookkeeping: deposit.bookkeeping,
        exits: deposit.exits,
    };
    // nobody took the other side: all forty slots were idle
    assert_eq!(
        eki::close_position_a(&mut close, 140),
        Ok(ClosePayout { swapped: 0, principal: 1000 })
    );
    assert_eq!(close.position_a.total_no_trades, 40);
    assert_eq!(close.bookkeeping.no_trade_slots, 40);
    assert_eq!(close.market.token_a_volume, 0);
}

#[test]
fn tick_brings_the_market_up_to_date() {
    let deposit = deposit_a(opened(8, 100, 10, 90), 8, 1000, 140, 100);
    let mut tick = UpdateBookkeeping {
        market: deposit.market,
        bookkeeping: deposit.bookkeeping,
        exits: deposit.exits,
        prices: deposit.prices,
    };
    assert_eq!(eki::update_bookkeeping(&mut tick, 99), Ok(()));
    assert_eq!(tick.exits.pointer, 0);
    assert_eq!(eki::update_bookkeeping(&mut tick, 125), Ok(()));
    assert_eq!(tick.exits.pointer, 2);
    assert_eq!(tick.bookkeeping.last_slot, 120);
    assert_eq!(tick.bookkeeping.no_trade_slots, 20);
    assert_eq!(tick.market.token_a_volume, 25_000_000);
    assert_eq!(tick.prices.snapshot(2).unwrap().no_trade_slots, 20);
    assert_eq!(eki::update_bookkeeping(&mut tick, 120), Ok(()));
    assert_eq!(tick.exits.pointer, 2);
    assert_eq!(eki::update_bookkeeping(&mut tick, 100), Ok(()));
    assert_eq!(eki::update_bookkeeping(&mut tick, 110), Err(CustomErrorCode::ArithmeticOverflow));
    assert_eq!(tick.exits.pointer, 2);
    assert_eq!(tick.bookkeeping.last_slot, 120);
}

#[test]
fn proceeds_formula() {
    // whole rate 25, counter gain 40_000_000, scale 1_000_000
    assert_eq!(earned(25_000_000, 40_000_000, 0), Some(1000));
    // the rate is cut to whole units before it is multiplied
    assert_eq!(earned(25_999_999, 40_000_000, 0), Some(1000));
    assert_eq!(earned(999_999, 40_000_000, 0), Some(0));
    assert_eq!(earned(3_000_000, 1_999_999, 1_000_000), Some(2));
    assert_eq!(earned(3_000_000, 5, 6), None);
    assert_eq!(earned(u64::MAX, u64::MAX, 0), None);
}

#[test]
fn principal_formula() {
    assert_eq!(principal_left(140, 115, 15, 25_000_000), Some(1000));
    assert_eq!(principal_left(140, 140, 0, 25_000_000), Some(0));
    assert_eq!(principal_left(140, 140, 7, 14_285_714), Some(99));
    assert_eq!(principal_left(140, 141, 0, 1), None);
    assert_eq!(principal_left(u64::MAX, 0, 1, 1), None);
    assert_eq!(principal_left(u64::MAX, 0, 0, 2), None);
}

#[test]
fn position_settles_against_the_cross_counter() {
    let book = Bookkeeping { a_per_b: 3_000_000, b_per_a: 8_000_000, no_trade_slots: 12, last_slot: 0, bump: 0 };
    let mut a = PositionA::new(1000, 100, 140, 0);
    a.bookkeeping = 2_000_000;
    a.no_trade_slots = 2;
    a.total_no_trades = 1;
    assert_eq!(a.settle(&book), Ok(25 * 6));
    assert_eq!(a.bookkeeping, 8_000_000);
    assert_eq!(a.no_trade_slots, 12);
    assert_eq!(a.total_no_trades, 11);
    assert_eq!(a.remaining(120), Some((20 + 11) * 25));
    let mut b = PositionB::new(1000, 100, 140, 0);
    assert_eq!(b.settle(&book), Ok(25 * 3));
    assert_eq!(b.bookkeeping, 3_000_000);
    assert_eq!(b.total_no_trades, 12);
    // a counter below the checkpoint cannot be settled against
    let behind = Bookkeeping { a_per_b: 0, ..book };
    assert_eq!(b.settle(&behind), Err(CustomErrorCode::ArithmeticOverflow));
    assert_eq!(b.bookkeeping, 3_000_000);
    assert_eq!(b.total_no_trades, 12);
}
