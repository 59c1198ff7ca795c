use vstd::prelude::*;
use crate::constants::{BOOKKEEPING_PRECISION_FACTOR, VOLUME_PRECISION};

verus! {

/// The per-slot flow of `amount` spread evenly over the slots from
/// `start_slot` up to, but not including, `end_slot`, in scaled units.
pub open spec fn flow_rate(amount: u64, start_slot: u64, end_slot: u64) -> int {
    VOLUME_PRECISION * amount / (end_slot - start_slot)
}

/// What a flow of `rate` has earned of the other token while the
/// cumulative counter moved from `checkpoint` to `counter`.
pub open spec fn proceeds(rate: u64, counter: u64, checkpoint: u64) -> int {
    (rate / VOLUME_PRECISION) * (counter - checkpoint) / (BOOKKEEPING_PRECISION_FACTOR as int)
}

/// The deposit that a flow of `rate` has not converted by
/// `settlement_slot`: the slots still ahead of it up to `end_slot`, and the
/// `idle` slots in which nothing was exchanged, at the flow's rate.
pub open spec fn unconverted(end_slot: u64, settlement_slot: u64, idle: u64, rate: u64) -> int {
    (end_slot - settlement_slot + idle) * rate / (VOLUME_PRECISION as int)
}

/// Computes [`proceeds`]. `None` where the counter lies below the
/// checkpoint or the product of whole rate and counter gain leaves `u64`.
pub fn earned(rate: u64, counter: u64, checkpoint: u64) -> (amount: Option<u64>)
    ensures
        amount == (if checkpoint <= counter && (rate / VOLUME_PRECISION) * (counter - checkpoint)
            <= u64::MAX {
            Some(proceeds(rate, counter, checkpoint) as u64)
        } else {
            None::<u64>
        }),
        amount is Some ==> amount->0 == proceeds(rate, counter, checkpoint),
{
    let gain: u64 = match counter.checked_sub(checkpoint) {
        Some(g) => g,
        None => { return None; },
    };
    match (rate / VOLUME_PRECISION).checked_mul(gain) {
        Some(product) => Some(product / BOOKKEEPING_PRECISION_FACTOR),
        None => None,
    }
}

/// Computes [`unconverted`]. `None` where `settlement_slot` lies behind
/// `end_slot` or an intermediate value leaves `u64`.
pub fn principal_left(end_slot: u64, settlement_slot: u64, idle: u64, rate: u64) -> (amount: Option<
    u64,
>)
    ensures
        amount == (if settlement_slot <= end_slot && end_slot - settlement_slot + idle <= u64::MAX
            && (end_slot - settlement_slot + idle) * rate <= u64::MAX {
            Some(unconverted(end_slot, settlement_slot, idle, rate) as u64)
        } else {
            None::<u64>
        }),
        amount is Some ==> amount->0 == unconverted(end_slot, settlement_slot, idle, rate),
{
    let ahead: u64 = match end_slot.checked_sub(settlement_slot) {
        Some(a) => a,
        None => { return None; },
    };
    let slots: u64 = match ahead.checked_add(idle) {
        Some(s) => s,
        None => { return None; },
    };
    match slots.checked_mul(rate) {
        Some(product) => Some(product / VOLUME_PRECISION),
        None => {
            proof {
                assert((end_slot - settlement_slot + idle) * rate == slots * rate);
            }
            None
        },
    }
}

} // verus!
