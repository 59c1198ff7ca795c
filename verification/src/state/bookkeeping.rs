use vstd::prelude::*;
use crate::constants::BOOKKEEPING_PRECISION_FACTOR;
use crate::error::CustomErrorCode;

verus! {

/// The price integrator of one market: two cumulative exchange-rate
/// counters, the count of slots in which nothing was exchanged, and the
/// last slot integrated.
#[derive(Clone, Copy, Debug, PartialEq, Eq, Structural)]
pub struct Bookkeeping {
    pub a_per_b: u64,
    pub b_per_a: u64,
    pub no_trade_slots: u64,
    pub last_slot: u64,
    pub bump: u8,
}

/// What one counter gains over `elapsed` slots while `numerator` flows
/// against `denominator`: the scaled rate, rounded down, times the slots.
pub open spec fn accrual(numerator: u64, denominator: u64, elapsed: int) -> int {
    (BOOKKEEPING_PRECISION_FACTOR * numerator / (denominator as int)) * elapsed
}

/// `later` has counters and a last slot that are no smaller than those of
/// `earlier`.
pub open spec fn no_less(earlier: Bookkeeping, later: Bookkeeping) -> bool {
    &&& earlier.a_per_b <= later.a_per_b
    &&& earlier.b_per_a <= later.b_per_a
    &&& earlier.no_trade_slots <= later.no_trade_slots
    &&& earlier.last_slot <= later.last_slot
}

/// What a counter gains is never negative.
pub proof fn lemma_accrual_nonnegative(numerator: u64, denominator: u64, elapsed: int)
    requires
        0 < denominator,
        0 <= elapsed,
    ensures
        0 <= accrual(numerator, denominator, elapsed),
{
    let scaled = BOOKKEEPING_PRECISION_FACTOR * numerator;
    assert(0 <= scaled) by (nonlinear_arith)
        requires
            scaled == BOOKKEEPING_PRECISION_FACTOR * numerator,
    ;
    assert(0 <= (scaled / (denominator as int)) * elapsed) by (nonlinear_arith)
        requires
            0 <= scaled,
            0 < denominator,
            0 <= elapsed,
    ;
}

/// One integration never lowers a counter, the idle count or the last
/// slot.
pub proof fn update_is_monotonic(book: Bookkeeping, volume_a: u64, volume_b: u64, slot: u64)
    requires
        book.updated(volume_a, volume_b, slot) is Some,
    ensures
        no_less(book, book.updated(volume_a, volume_b, slot).unwrap()),
{
    if volume_a != 0 && volume_b != 0 {
        lemma_accrual_nonnegative(volume_a, volume_b, slot - book.last_slot);
        lemma_accrual_nonnegative(volume_b, volume_a, slot - book.last_slot);
    }
}

impl Bookkeeping {
    pub const SEED_PREFIX: &'static str = "bookkeeping";

    /// An integrator with empty counters that starts at `last_slot`.
    pub fn new(last_slot: u64, bump: u8) -> (book: Self)
        ensures
            book == (Bookkeeping { a_per_b: 0, b_per_a: 0, no_trade_slots: 0, last_slot, bump }),
    {
        Self { a_per_b: 0, b_per_a: 0, no_trade_slots: 0, last_slot, bump }
    }

    /// The integrator after integrating the volumes up to `slot`, or `None`
    /// where `slot` lies before the last integrated slot or a counter would
    /// leave `u64`.
    pub open spec fn updated(self, volume_a: u64, volume_b: u64, slot: u64) -> Option<Bookkeeping> {
        let elapsed = slot - self.last_slot;
        if elapsed < 0 {
            None
        } else if volume_a == 0 || volume_b == 0 {
            if self.no_trade_slots + elapsed <= u64::MAX {
                Some(Bookkeeping {
                    no_trade_slots: (self.no_trade_slots + elapsed) as u64,
                    last_slot: slot,
                    ..self
                })
            } else {
                None
            }
        } else if BOOKKEEPING_PRECISION_FACTOR * volume_a <= u64::MAX
            && BOOKKEEPING_PRECISION_FACTOR * volume_b <= u64::MAX
            && self.a_per_b + accrual(volume_a, volume_b, elapsed) <= u64::MAX
            && self.b_per_a + accrual(volume_b, volume_a, elapsed) <= u64::MAX {
            Some(Bookkeeping {
                a_per_b: (self.a_per_b + accrual(volume_a, volume_b, elapsed)) as u64,
                b_per_a: (self.b_per_a + accrual(volume_b, volume_a, elapsed)) as u64,
                last_slot: slot,
                ..self
            })
        } else {
            None
        }
    }

    /// Integrates the rate that `volume_a` and `volume_b` set from the last
    /// integrated slot up to `current_slot`. With a side at zero nothing is
    /// exchanged and the slots are counted as idle instead. On failure the
    /// integrator is left as it was.
    pub fn update(&mut self, volume_a: u64, volume_b: u64, current_slot: u64) -> (r: Result<
        (),
        CustomErrorCode,
    >)
        ensures
            match old(self).updated(volume_a, volume_b, current_slot) {
                Some(book) => r is Ok && *final(self) == book,
                None => r == Err::<(), CustomErrorCode>(CustomErrorCode::ArithmeticOverflow)
                    && *final(self) == *old(self),
            },
            no_less(*old(self), *final(self)),
    {
        proof {
            if old(self).updated(volume_a, volume_b, current_slot) is Some {
                update_is_monotonic(*old(self), volume_a, volume_b, current_slot);
            }
        }
        let elapsed: u64 = match current_slot.checked_sub(self.last_slot) {
            Some(e) => e,
            None => { return Err(CustomErrorCode::ArithmeticOverflow); },
        };
        if volume_a == 0 || volume_b == 0 {
            match self.no_trade_slots.checked_add(elapsed) {
                Some(idle) => {
                    self.no_trade_slots = idle;
                    self.last_slot = current_slot;
                    Ok(())
                },
                None => Err(CustomErrorCode::ArithmeticOverflow),
            }
        } else {
            let scaled_a: u64 = match BOOKKEEPING_PRECISION_FACTOR.checked_mul(volume_a) {
                Some(v) => v,
                None => { return Err(CustomErrorCode::ArithmeticOverflow); },
            };
            let scaled_b: u64 = match BOOKKEEPING_PRECISION_FACTOR.checked_mul(volume_b) {
                Some(v) => v,
                None => { return Err(CustomErrorCode::ArithmeticOverflow); },
            };
            let gain_a: u64 = match (scaled_a / volume_b).checked_mul(elapsed) {
                Some(v) => v,
                None => { return Err(CustomErrorCode::ArithmeticOverflow); },
            };
            let gain_b: u64 = match (scaled_b / volume_a).checked_mul(elapsed) {
                Some(v) => v,
                None => { return Err(CustomErrorCode::ArithmeticOverflow); },
            };
            let a_per_b: u64 = match self.a_per_b.checked_add(gain_a) {
                Some(v) => v,
                None => { return Err(CustomErrorCode::ArithmeticOverflow); },
            };
            let b_per_a: u64 = match self.b_per_a.checked_add(gain_b) {
                Some(v) => v,
                None => { return Err(CustomErrorCode::ArithmeticOverflow); },
            };
            self.a_per_b = a_per_b;
            self.b_per_a = b_per_a;
            self.last_slot = current_slot;
            Ok(())
        }
    }
}

} // verus!
