use vstd::prelude::*;

verus! {

/// Largest number whose primality is decided here: trial division by odd
/// numbers up to the square root stays within `u64` below it.
pub const MAX_PRIME_INPUT: u64 = 0xFFFF_FFFE_0000_0000;

/// `n` is a prime: greater than 1, with no divisor strictly between 1 and
/// itself.
pub open spec fn is_prime_nat(n: nat) -> bool {
    n > 1 && forall|d: int| 1 < d < n ==> #[trigger] (n as int % d) != 0
}

/// Relies on `primes::is_prime`, which answers by trial division.
#[verifier::external_body]
fn trial_division(n: u64) -> (r: bool)
    requires
        n <= MAX_PRIME_INPUT,
    ensures
        r == is_prime_nat(n as nat),
{
    primes::is_prime(n)
}

/// Whether `n` is a prime; `None` where `n` is above `MAX_PRIME_INPUT`.
pub fn check_prime(n: u64) -> (r: Option<bool>)
    ensures
        n <= MAX_PRIME_INPUT ==> r == Some(is_prime_nat(n as nat)),
        n > MAX_PRIME_INPUT ==> r is None,
{
    if n <= MAX_PRIME_INPUT {
        Some(trial_division(n))
    } else {
        None
    }
}

} // verus!
