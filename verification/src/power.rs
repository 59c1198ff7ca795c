use vstd::prelude::*;
use vstd::arithmetic::power::{lemma_pow_positive, pow};

verus! {

/// `n` is one of 1, 10, 100, ...
pub open spec fn power_of_ten(n: u64) -> bool {
    exists|e: nat| n == #[trigger] pow(10, e)
}

/// Ten times a positive number is a power of ten exactly when the number
/// is one.
proof fn lemma_tenfold(m: u64)
    requires
        0 < m,
        10 * m <= u64::MAX,
    ensures
        power_of_ten((10 * m) as u64) <==> power_of_ten(m),
{
    if power_of_ten(m) {
        let e = choose|e: nat| m == #[trigger] pow(10, e);
        assert(pow(10, e + 1) == 10 * pow(10, e)) by {
            reveal(pow);
        }
        assert(10 * m == pow(10, e + 1));
    }
    if power_of_ten((10 * m) as u64) {
        let e = choose|e: nat| 10 * m == #[trigger] pow(10, e);
        assert(e != 0) by {
            reveal(pow);
        }
        assert(pow(10, e) == 10 * pow(10, (e - 1) as nat)) by {
            reveal(pow);
        }
        assert(m == pow(10, (e - 1) as nat));
    }
}

/// A number that ten does not divide is a power of ten exactly when it is
/// one.
proof fn lemma_last_digit(m: u64)
    requires
        m % 10 != 0,
    ensures
        power_of_ten(m) <==> m == 1,
{
    if m == 1 {
        assert(pow(10, 0) == 1) by {
            reveal(pow);
        }
    }
    if power_of_ten(m) {
        let e = choose|e: nat| m == #[trigger] pow(10, e);
        if e != 0 {
            assert(pow(10, e) == 10 * pow(10, (e - 1) as nat)) by {
                reveal(pow);
            }
            assert((10 * pow(10, (e - 1) as nat)) % 10 == 0) by (nonlinear_arith);
        } else {
            assert(pow(10, 0) == 1) by {
                reveal(pow);
            }
        }
    }
}

/// Zero is no power of ten.
proof fn lemma_zero_is_none()
    ensures
        !power_of_ten(0),
{
    if power_of_ten(0) {
        let e = choose|e: nat| 0 == #[trigger] pow(10, e);
        lemma_pow_positive(10, e);
    }
}

/// Whether `n` is a power of ten.
pub fn is_power_of_ten(n: u64) -> (yes: bool)
    ensures
        yes == power_of_ten(n),
{
    if n == 0 {
        proof {
            lemma_zero_is_none();
        }
        return false;
    }
    let mut num: u64 = n;
    while num % 10 == 0
        invariant
            0 < num,
            power_of_ten(n) <==> power_of_ten(num),
        decreases num,
    {
        proof {
            lemma_tenfold(num / 10);
        }
        num = num / 10;
    }
    proof {
        lemma_last_digit(num);
    }
    num == 1
}

/// Ten to the power of `exponent`, or `None` where that is no `u64`.
pub fn power_of_ten_checked(exponent: u8) -> (power: Option<u64>)
    ensures
        power == (if pow(10, exponent as nat) <= u64::MAX {
            Some(pow(10, exponent as nat) as u64)
        } else {
            None::<u64>
        }),
        power matches Some(p) ==> p == pow(10, exponent as nat),
{
    let mut power: u64 = 1;
    let mut done: u8 = 0;
    proof {
        assert(pow(10, 0) == 1) by {
            reveal(pow);
        }
    }
    while done < exponent
        invariant
            done <= exponent,
            power == pow(10, done as nat),
        decreases exponent - done,
    {
        proof {
            assert(pow(10, (done + 1) as nat) == 10 * pow(10, done as nat)) by {
                reveal(pow);
            }
        }
        match power.checked_mul(10) {
            Some(next) => {
                power = next;
            },
            None => {
                proof {
                    lemma_pow_grows((done + 1) as nat, exponent as nat);
                }
                return None;
            },
        }
        done = done + 1;
    }
    Some(power)
}

/// Powers of ten do not shrink as the exponent grows.
proof fn lemma_pow_grows(low: nat, high: nat)
    requires
        low <= high,
    ensures
        pow(10, low) <= pow(10, high),
    decreases high - low,
{
    if low < high {
        lemma_pow_grows(low, (high - 1) as nat);
        lemma_pow_positive(10, (high - 1) as nat);
        assert(pow(10, high) == 10 * pow(10, (high - 1) as nat)) by {
            reveal(pow);
        }
    }
}

} // verus!
