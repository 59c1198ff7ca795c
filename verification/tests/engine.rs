use anchor_lang::prelude::Pubkey;
use eki::error::CustomErrorCode;
use eki::schedule::{catch_up, virtual_slot, CatchUp};
use eki::state::bookkeeping::Bookkeeping;
use eki::state::exits::{Exits, Flow};
use eki::state::market::{Market, Side};
use eki::state::prices::{Prices, Snapshot};

fn market(start_slot: u64, interval: u64) -> Market {
    Market::new(
        Pubkey::new_from_array([1u8; 32]),
        Pubkey::new_from_array([2u8; 32]),
        start_slot,
        interval,
        7,
    )
}

#[test]
fn new_bookkeeping_is_empty() {
    let book = Bookkeeping::new(100, 3);
    assert_eq!(
        book,
        Bookkeeping { a_per_b: 0, b_per_a: 0, no_trade_slots: 0, last_slot: 100, bump: 3 }
    );
}

#[test]
fn update_accrues_both_counters() {
    let mut book = Bookkeeping::new(100, 0);
    assert_eq!(book.update(3, 2, 110), Ok(()));
    // 1_000_000 * 3 / 2 = 1_500_000 per slot, 1_000_000 * 2 / 3 = 666_666 per slot
    assert_eq!(book.a_per_b, 15_000_000);
    assert_eq!(book.b_per_a, 6_666_660);
    assert_eq!(book.no_trade_slots, 0);
    assert_eq!(book.last_slot, 110);
}

#[test]
fn update_counts_idle_slots_when_a_side_is_empty() {
    let mut book = Bookkeeping::new(100, 0);
    assert_eq!(book.update(0, 5, 107), Ok(()));
    assert_eq!(book.update(5, 0, 110), Ok(()));
    assert_eq!(book.a_per_b, 0);
    assert_eq!(book.b_per_a, 0);
    assert_eq!(book.no_trade_slots, 10);
    assert_eq!(book.last_slot, 110);
}

#[test]
fn update_with_an_earlier_slot_fails_and_changes_nothing() {
    let mut book = Bookkeeping::new(100, 0);
    assert_eq!(book.update(1, 1, 99), Err(CustomErrorCode::ArithmeticOverflow));
    assert_eq!(book, Bookkeeping::new(100, 0));
}

#[test]
fn update_with_the_same_slot_changes_nothing() {
    let mut book = Bookkeeping::new(100, 0);
    assert_eq!(book.update(4, 2, 100), Ok(()));
    assert_eq!(book, Bookkeeping::new(100, 0));
}

#[test]
fn update_detects_overflow() {
    let mut book = Bookkeeping::new(0, 0);
    assert_eq!(book.update(u64::MAX, 1, 1), Err(CustomErrorCode::ArithmeticOverflow));
    assert_eq!(book.update(1_000_000_000_000, 1, 100), Err(CustomErrorCode::ArithmeticOverflow));
    assert_eq!(book, Bookkeeping::new(0, 0));
    let mut idle = Bookkeeping { no_trade_slots: u64::MAX - 1, ..Bookkeeping::new(0, 0) };
    assert_eq!(idle.update(0, 0, 2), Err(CustomErrorCode::ArithmeticOverflow));
    assert_eq!(idle.update(0, 0, 1), Ok(()));
    assert_eq!(idle.no_trade_slots, u64::MAX);
}

#[test]
fn counters_never_decrease() {
    let mut book = Bookkeeping::new(0, 0);
    let volumes = [(5u64, 3u64), (0, 3), (7, 7), (1, 1_000_000), (9, 0)];
    let mut slot = 0u64;
    for (a, b) in volumes {
        let before = book;
        slot += 13;
        assert_eq!(book.update(a, b, slot), Ok(()));
        assert!(book.a_per_b >= before.a_per_b);
        assert!(book.b_per_a >= before.b_per_a);
        assert!(book.no_trade_slots >= before.no_trade_slots);
        assert!(book.last_slot >= before.last_slot);
    }
}

#[test]
fn catch_up_without_wrap() {
    // (131 - 100) / 10 = 3: three buckets ahead of pointer 0
    assert_eq!(catch_up(0, 131, 100, 10, 4), Some(CatchUp { quotient: 0, first: 1, last: 3 }));
}

#[test]
fn catch_up_across_the_wrap() {
    // target 5 on a ring of 4 lands on position 1, behind pointer 3
    assert_eq!(catch_up(3, 151, 100, 10, 4), Some(CatchUp { quotient: 0, first: 4, last: 5 }));
    // target 9 = 2 * 4 + 1
    assert_eq!(catch_up(3, 195, 100, 10, 4), Some(CatchUp { quotient: 1, first: 4, last: 5 }));
}

#[test]
fn catch_up_at_the_pointer_is_empty() {
    assert_eq!(catch_up(2, 125, 100, 10, 4), Some(CatchUp { quotient: 0, first: 3, last: 2 }));
}

#[test]
fn catch_up_behind_the_start_is_refused() {
    // target 1 lies behind pointer 3 and no lap has been completed
    assert_eq!(catch_up(3, 110, 100, 10, 4), None);
}

#[test]
fn catch_up_never_covers_a_whole_lap() {
    for pointer in 0..4u64 {
        for current in 100..400u64 {
            if let Some(plan) = catch_up(pointer, current, 100, 10, 4) {
                assert!(plan.last + 1 - plan.first < 4);
                assert_eq!(plan.quotient * 4 + plan.last, (current - 100) / 10);
                assert_eq!(plan.last % 4, ((current - 100) / 10) % 4);
            }
        }
    }
}

#[test]
fn virtual_slot_recovers_the_absolute_slot() {
    assert_eq!(virtual_slot(1, 0, 100, 10, 4), 110);
    assert_eq!(virtual_slot(5, 0, 100, 10, 4), 150);
    assert_eq!(virtual_slot(4, 1, 100, 10, 4), 180);
}

#[test]
fn flow_step_integrates_then_removes() {
    let flow = Flow { book: Bookkeeping::new(100, 0), volume_a: 6, volume_b: 3 };
    let next = flow.process(2, 3, 110).unwrap();
    assert_eq!(next.volume_a, 4);
    assert_eq!(next.volume_b, 0);
    assert_eq!(next.book.a_per_b, 20_000_000);
    assert_eq!(next.book.b_per_a, 5_000_000);
    assert_eq!(next.book.last_slot, 110);
    assert_eq!(flow.process(7, 0, 110), None);
    assert_eq!(flow.process(0, 4, 110), None);
    assert_eq!(flow.process(0, 0, 99), None);
}

#[test]
fn register_adds_to_the_bucket_of_the_slot() {
    let mut exits = Exits::with_length(4, 100);
    assert_eq!(exits.register(Side::A, 140, 25, 10), Ok(()));
    assert_eq!(exits.register(Side::A, 120, 5, 10), Ok(()));
    assert_eq!(exits.register(Side::B, 120, 9, 10), Ok(()));
    assert_eq!(exits.token_a, vec![25, 0, 5, 0]);
    assert_eq!(exits.token_b, vec![0, 0, 9, 0]);
    assert_eq!(exits.pointer, 0);
    assert_eq!(exits.bucket(140, 10), Some(0));
    assert_eq!(exits.bucket(129, 10), Some(2));
    assert_eq!(exits.bucket(99, 10), None);
    assert_eq!(exits.pending(Side::A, 2), 5);
    assert_eq!(exits.pending(Side::B, 2), 9);
    assert_eq!(exits.len(), 4);
}

#[test]
fn register_failures_leave_the_schedule_alone() {
    let mut exits = Exits::with_length(4, 100);
    assert_eq!(exits.register(Side::A, 90, 1, 10), Err(CustomErrorCode::ArithmeticOverflow));
    assert_eq!(exits.register(Side::A, 110, u64::MAX, 10), Ok(()));
    assert_eq!(exits.register(Side::A, 110, 1, 10), Err(CustomErrorCode::ArithmeticOverflow));
    assert_eq!(exits.token_a, vec![0, u64::MAX, 0, 0]);
    assert_eq!(exits.cancel(Side::B, 110, 1, 10), Err(CustomErrorCode::ArithmeticOverflow));
    assert_eq!(exits.cancel(Side::A, 110, u64::MAX, 10), Ok(()));
    assert_eq!(exits.token_a, vec![0, 0, 0, 0]);
    assert_eq!(exits.token_b, vec![0, 0, 0, 0]);
}

#[test]
fn new_clears_the_schedule() {
    let mut exits = Exits::with_length(3, 100);
    exits.register(Side::A, 110, 4, 10).unwrap();
    exits.pointer = 2;
    exits.new(250);
    assert_eq!(exits.token_a, vec![0, 0, 0]);
    assert_eq!(exits.token_b, vec![0, 0, 0]);
    assert_eq!(exits.pointer, 0);
    assert_eq!(exits.start_slot, 250);
}

#[test]
fn advance_before_the_start_does_nothing() {
    let mut exits = Exits::with_length(4, 100);
    exits.register(Side::A, 110, 4, 10).unwrap();
    let mut m = market(105, 10);
    m.token_a_volume = 4;
    let mut book = Bookkeeping::new(105, 0);
    assert_eq!(exits.advance(105, &mut m, &mut book), Ok(0));
    assert_eq!(exits.advance(3, &mut m, &mut book), Ok(0));
    assert_eq!(m.token_a_volume, 4);
    assert_eq!(book, Bookkeeping::new(105, 0));
    assert_eq!(exits.pointer, 0);
}

#[test]
fn advance_processes_each_due_bucket_once() {
    let mut exits = Exits::with_length(8, 100);
    exits.register(Side::A, 120, 6, 10).unwrap();
    exits.register(Side::B, 130, 2, 10).unwrap();
    let mut m = market(100, 10);
    m.token_a_volume = 6;
    m.token_b_volume = 2;
    let mut book = Bookkeeping::new(100, 0);
    let mut prices = Prices::with_length(8);
    assert_eq!(exits.advance_recording(135, &mut m, &mut book, &mut prices), Ok(3));
    // slots 110 and 120 at 6 against 2, slot 130 with side A empty
    assert_eq!(book.a_per_b, 2 * 10 * 3_000_000);
    assert_eq!(book.b_per_a, 2 * 10 * 333_333);
    assert_eq!(book.no_trade_slots, 10);
    assert_eq!(book.last_slot, 130);
    assert_eq!(m.token_a_volume, 0);
    assert_eq!(m.token_b_volume, 0);
    assert_eq!(exits.pointer, 3);
    assert_eq!(
        prices.snapshot(1),
        Some(Snapshot { a_per_b: 30_000_000, b_per_a: 3_333_330, no_trade_slots: 0 })
    );
    assert_eq!(
        prices.snapshot(2),
        Some(Snapshot { a_per_b: 60_000_000, b_per_a: 6_666_660, no_trade_slots: 0 })
    );
    assert_eq!(
        prices.snapshot(3),
        Some(Snapshot { a_per_b: 60_000_000, b_per_a: 6_666_660, no_trade_slots: 10 })
    );
    assert_eq!(prices.snapshot(0), Some(Snapshot { a_per_b: 0, b_per_a: 0, no_trade_slots: 0 }));
    assert_eq!(prices.snapshot(4), Some(Snapshot { a_per_b: 0, b_per_a: 0, no_trade_slots: 0 }));
    assert_eq!(prices.snapshot(8), None);
}

#[test]
fn advance_twice_to_the_same_slot_is_idle_the_second_time() {
    let mut exits = Exits::with_length(8, 100);
    exits.register(Side::A, 120, 6, 10).unwrap();
    let mut m = market(100, 10);
    m.token_a_volume = 6;
    m.token_b_volume = 2;
    let mut book = Bookkeeping::new(100, 0);
    assert_eq!(exits.advance(127, &mut m, &mut book), Ok(2));
    let (pointer, volume_a, volume_b, counters) =
        (exits.pointer, m.token_a_volume, m.token_b_volume, book);
    assert_eq!(exits.advance(127, &mut m, &mut book), Ok(0));
    assert_eq!(exits.pointer, pointer);
    assert_eq!(m.token_a_volume, volume_a);
    assert_eq!(m.token_b_volume, volume_b);
    assert_eq!(book, counters);
}

#[test]
fn advance_failure_changes_nothing() {
    let mut exits = Exits::with_length(8, 100);
    // more leaves at slot 120 than the ledger holds
    exits.register(Side::A, 120, 7, 10).unwrap();
    let mut m = market(100, 10);
    m.token_a_volume = 6;
    m.token_b_volume = 2;
    let mut book = Bookkeeping::new(100, 0);
    let mut prices = Prices::with_length(8);
    assert_eq!(
        exits.advance_recording(135, &mut m, &mut book, &mut prices),
        Err(CustomErrorCode::ArithmeticOverflow)
    );
    assert_eq!(exits.pointer, 0);
    assert_eq!(m.token_a_volume, 6);
    assert_eq!(m.token_b_volume, 2);
    assert_eq!(book, Bookkeeping::new(100, 0));
    assert_eq!(prices.a_per_b, vec![0; 8]);
    assert_eq!(prices.b_per_a, vec![0; 8]);
    assert_eq!(prices.no_trade_slots, vec![0; 8]);
    assert_eq!(exits.advance(135, &mut m, &mut book), Err(CustomErrorCode::ArithmeticOverflow));
    assert_eq!(book, Bookkeeping::new(100, 0));
}

#[test]
fn advance_to_an_earlier_slot_is_refused() {
    let mut exits = Exits::with_length(4, 100);
    let mut m = market(100, 10);
    let mut book = Bookkeeping::new(100, 0);
    assert_eq!(exits.advance(135, &mut m, &mut book), Ok(3));
    assert_eq!(exits.advance(115, &mut m, &mut book), Err(CustomErrorCode::ArithmeticOverflow));
    assert_eq!(exits.pointer, 3);
    assert_eq!(book.last_slot, 130);
}

#[test]
fn advance_across_the_wrap_keeps_absolute_slots() {
    let mut exits = Exits::with_length(4, 100);
    let mut m = market(100, 10);
    let mut book = Bookkeeping::new(100, 0);
    assert_eq!(exits.advance(135, &mut m, &mut book), Ok(3));
    assert_eq!(book.last_slot, 130);
    assert_eq!(exits.advance(158, &mut m, &mut book), Ok(2));
    assert_eq!(book.last_slot, 150);
    assert_eq!(book.no_trade_slots, 50);
    assert_eq!(exits.pointer, 1);
    assert_eq!(exits.advance(199, &mut m, &mut book), Ok(0));
    assert_eq!(exits.advance(201, &mut m, &mut book), Ok(1));
    assert_eq!(book.last_slot, 200);
    assert_eq!(exits.pointer, 2);
}

#[test]
fn market_volume_moves() {
    let mut m = market(0, 10);
    assert_eq!(m.add_volume(Side::A, 5), Ok(()));
    assert_eq!(m.add_volume(Side::B, 7), Ok(()));
    assert_eq!(m.remove_volume(Side::A, 2), Ok(()));
    assert_eq!((m.token_a_volume, m.token_b_volume), (3, 7));
    assert_eq!(m.remove_volume(Side::A, 4), Err(CustomErrorCode::ArithmeticOverflow));
    assert_eq!(m.add_volume(Side::B, u64::MAX), Err(CustomErrorCode::ArithmeticOverflow));
    assert_eq!((m.token_a_volume, m.token_b_volume), (3, 7));
    assert_eq!(m.start_slot, 0);
    assert_eq!(m.end_slot_interval, 10);
    assert_eq!(m.bump, 7);
    assert_eq!(m.treasury_a, Pubkey::new_from_array([1u8; 32]));
    assert_eq!(m.treasury_b, Pubkey::new_from_array([2u8; 32]));
}

#[test]
fn prices_record_and_clear() {
    let mut prices = Prices::with_length(3);
    assert_eq!(prices.len(), 3);
    let book = Bookkeeping { a_per_b: 4, b_per_a: 5, no_trade_slots: 6, last_slot: 9, bump: 0 };
    prices.record(1, &book);
    assert_eq!(prices.snapshot(1), Some(Snapshot { a_per_b: 4, b_per_a: 5, no_trade_slots: 6 }));
    assert_eq!(prices.snapshot(0), Some(Snapshot { a_per_b: 0, b_per_a: 0, no_trade_slots: 0 }));
    prices.new();
    assert_eq!(prices.snapshot(1), Some(Snapshot { a_per_b: 0, b_per_a: 0, no_trade_slots: 0 }));
    assert_eq!(prices.len(), 3);
}

#[test]
fn error_messages() {
    assert_eq!(CustomErrorCode::EndSlotAlreadyPassed.message(), "End slot has already passed");
    assert_eq!(CustomErrorCode::AccountTooSmall.message(), "Account is too small");
    assert_eq!(
        CustomErrorCode::InvalidSlotInterval.message(),
        "Slot interval has to be power of 10"
    );
    assert_eq!(CustomErrorCode::DepositTooSmall.message(), "Deposit amount is too small");
    assert_eq!(CustomErrorCode::NoTokensSwapped.message(), "No tokens have been swapped yet");
    assert_eq!(CustomErrorCode::ArithmeticOverflow.message(), "Arithmetic overflow");
}

#[test]
fn fresh_rings_are_empty() {
    let exits = Exits::with_length(5, 300);
    assert_eq!(exits.token_a, vec![0; 5]);
    assert_eq!(exits.token_b, vec![0; 5]);
    assert_eq!(exits.pointer, 0);
    assert_eq!(exits.start_slot, 300);
    let prices = Prices::with_length(5);
    assert_eq!(prices.a_per_b, vec![0; 5]);
    assert_eq!(prices.b_per_a, vec![0; 5]);
    assert_eq!(prices.no_trade_slots, vec![0; 5]);
}

#[test]
fn new_market_has_no_volume() {
    let m = market(12, 100);
    assert_eq!(m.token_a_volume, 0);
    assert_eq!(m.token_b_volume, 0);
    assert_eq!(m.start_slot, 12);
    assert_eq!(m.end_slot_interval, 100);
}
