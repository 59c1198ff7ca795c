use vstd::prelude::*;
use vstd::arithmetic::div_mod::{lemma_fundamental_div_mod, lemma_fundamental_div_mod_converse};

verus! {

/// The position of `slot` on the quantized time axis that begins at
/// `start_slot`: how many whole intervals lie between the two. Unlike a
/// ring position it is never wrapped.
pub open spec fn absolute_index(slot: u64, start_slot: u64, interval: u64) -> int {
    (slot - start_slot) / (interval as int)
}

/// The slot at which the bucket with absolute index `index` falls due.
pub open spec fn bucket_slot(index: int, start_slot: u64, interval: u64) -> int {
    start_slot + index * interval
}

/// The number of buckets that lie ahead of ring position `pointer` up to
/// and including the bucket of absolute index `target`, on a ring of `len`
/// buckets. It counts forward around the ring, so it is always below `len`.
pub open spec fn backlog(pointer: u64, target: int, len: int) -> int {
    (target - pointer) % len
}

/// A catch-up run in unwrapped ring coordinates: the virtual indices
/// `first ..= last` are visited in order, each standing for the bucket
/// `index % len` in lap `quotient` of the ring.
#[derive(Clone, Copy, Debug, PartialEq, Eq, Structural)]
pub struct CatchUp {
    pub quotient: u64,
    pub first: u64,
    pub last: u64,
}

impl CatchUp {
    /// How many buckets the run visits.
    pub open spec fn count(self) -> int {
        self.last - self.first + 1
    }
}

/// The backlog is a count of buckets on the ring: never negative and never
/// a whole lap.
pub proof fn lemma_backlog_bounded(pointer: u64, target: int, len: int)
    requires
        0 < len,
    ensures
        0 <= backlog(pointer, target, len) < len,
{
    lemma_fundamental_div_mod(target - pointer, len);
    assert(0 <= (target - pointer) % len < len) by (nonlinear_arith)
        requires
            0 < len,
    ;
}

/// Plans the catch-up from ring position `pointer` to the bucket that
/// holds `current_slot`. The run ends at that bucket and is as long as the
/// backlog; `None` means the backlog reaches back before the schedule's
/// first bucket, which only happens when `current_slot` lies behind what
/// `pointer` has already covered.
pub fn catch_up(pointer: u64, current_slot: u64, start_slot: u64, interval: u64, len: u64) -> (plan:
    Option<CatchUp>)
    requires
        0 < interval,
        0 < len,
        2 * len <= u64::MAX,
        pointer < len,
        start_slot <= current_slot,
    ensures
        ({
            let target = absolute_index(current_slot, start_slot, interval);
            let count = backlog(pointer, target, len as int);
            match plan {
                Some(p) => {
                    &&& count <= target
                    &&& p.first == pointer + 1
                    &&& p.last == pointer + count
                    &&& p.quotient * len + p.last == target
                },
                None => count > target,
            }
        }),
{
    let target: u64 = (current_slot - start_slot) / interval;
    let quotient: u64 = target / len;
    let new_pointer: u64 = target % len;
    proof {
        lemma_fundamental_div_mod(target as int, len as int);
        assert(target == len * quotient + new_pointer);
        assert(len * quotient == quotient * len) by (nonlinear_arith);
    }
    if new_pointer < pointer {
        if quotient == 0 {
            proof {
                assert(quotient * len == 0) by (nonlinear_arith)
                    requires
                        quotient == 0,
                ;
                assert(target - pointer == (-1) * (len as int) + (new_pointer + len - pointer));
                lemma_fundamental_div_mod_converse(
                    target - pointer,
                    len as int,
                    -1,
                    new_pointer + len - pointer,
                );
            }
            None
        } else {
            proof {
                assert((quotient - 1) * len == quotient * len - len) by (nonlinear_arith);
                lemma_fundamental_div_mod_converse(
                    target - pointer,
                    len as int,
                    quotient - 1,
                    new_pointer + len - pointer,
                );
                assert(new_pointer + len - pointer <= target) by (nonlinear_arith)
                    requires
                        target == quotient * len + new_pointer,
                        quotient >= 1,
                        len > 0,
                        pointer >= 0,
                ;
            }
            Some(CatchUp { quotient: quotient - 1, first: pointer + 1, last: new_pointer + len })
        }
    } else {
        proof {
            lemma_fundamental_div_mod_converse(
                target - pointer,
                len as int,
                quotient as int,
                new_pointer - pointer,
            );
            assert(quotient * len >= 0) by (nonlinear_arith)
                requires
                    quotient >= 0,
                    len > 0,
            ;
        }
        Some(CatchUp { quotient, first: pointer + 1, last: new_pointer })
    }
}

/// The slot of virtual index `index` in lap `quotient`: the three terms of
/// the sum are the offset within the lap, the start of the schedule and
/// the laps already completed.
pub fn virtual_slot(index: u64, quotient: u64, start_slot: u64, interval: u64, len: u64) -> (slot:
    u64)
    requires
        bucket_slot(quotient * len + index, start_slot, interval) <= u64::MAX,
    ensures
        slot == bucket_slot(quotient * len + index, start_slot, interval),
{
    proof {
        assert((quotient * len + index) * interval == index * interval + quotient * interval * len
            && index * interval >= 0 && quotient * interval * len >= 0 && quotient * interval >= 0
            && (interval > 0 && len > 0 ==> quotient * interval <= quotient * interval * len))
            by (nonlinear_arith);
    }
    if interval == 0 || len == 0 {
        proof {
            assert(quotient * interval * len == 0) by (nonlinear_arith)
                requires
                    interval == 0 || len == 0,
            ;
            assert(interval == 0 ==> index * interval == 0);
        }
        if interval == 0 {
            start_slot
        } else {
            index * interval + start_slot
        }
    } else {
        index * interval + start_slot + quotient * interval * len
    }
}

} // verus!
