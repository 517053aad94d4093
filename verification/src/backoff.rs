//! Truncated exponential backoff for failed uploads. Delays are in milliseconds.

use rand::Rng;
use vstd::arithmetic::power2::{lemma2_to64, lemma_pow2_strictly_increases, lemma_pow2_unfold, pow2};
use vstd::prelude::*;

verus! {

/// The ceiling of a delay, in seconds.
pub const MAX_BACKOFF_SECS: u64 = 64;

/// The smaller of two numbers.
pub open spec fn least(a: int, b: int) -> int {
    if a <= b {
        a
    } else {
        b
    }
}

/// The delay after `attempts` attempts: two to the power of `attempts` seconds
/// and the jitter, at most 64 seconds.
pub open spec fn delay_ms(attempts: nat, jitter_ms: nat) -> int {
    least(1000 * least(pow2(attempts) as int, 64) + jitter_ms, 64_000)
}

/// The delay after `attempts` attempts in whole seconds, rounded up.
pub open spec fn delay_secs(attempts: nat, jitter_ms: nat) -> int {
    (delay_ms(attempts, jitter_ms) + 999) / 1000
}

/// The delay after `attempts` attempts (1 is after the first failure).
pub fn backoff_delay(attempts: u32, jitter_ms: u64) -> (r: u64)
    ensures
        r == delay_ms(attempts as nat, jitter_ms as nat),
{
    let mut base: u64 = 1;
    let mut i: u32 = 0;
    proof {
        lemma2_to64();
    }
    while i < attempts && base < MAX_BACKOFF_SECS
        invariant
            i <= attempts,
            1 <= base <= 64,
            base == pow2(i as nat),
            base < 64 ==> base <= 32,
        decreases attempts - i,
    {
        proof {
            lemma_pow2_unfold((i + 1) as nat);
            lemma2_to64();
            if i >= 6 {
                lemma_pow2_monotone(6, i as nat);
            }
        }
        base = base * 2;
        i += 1;
        proof {
            if i < 6 {
                assert(pow2(0) == 1 && pow2(1) == 2 && pow2(2) == 4 && pow2(3) == 8 && pow2(4)
                    == 16 && pow2(5) == 32);
            }
        }
    }
    proof {
        lemma_pow2_monotone(i as nat, attempts as nat);
    }
    let total: u64 = (base * 1000).saturating_add(jitter_ms);
    if total < MAX_BACKOFF_SECS * 1000 {
        total
    } else {
        MAX_BACKOFF_SECS * 1000
    }
}

/// The delay for callers that schedule in whole seconds: jitter below a second
/// is rounded up, so that it does not vanish.
pub fn backoff_delay_secs(attempts: u32, jitter_ms: u64) -> (r: i64)
    ensures
        r == delay_secs(attempts as nat, jitter_ms as nat),
{
    let ms: u64 = backoff_delay(attempts, jitter_ms);
    ((ms + 999) / 1000) as i64
}

/// `rand::rng().random_range(0..bound)`: a number below `bound`. Which one is a
/// matter of chance.
#[verifier::external_body]
fn random_below(bound: u64) -> (r: u64)
    requires
        bound > 0,
    ensures
        r < bound,
{
    rand::rng().random_range(0..bound)
}

/// True of a number that was drawn at random from those below `bound`: it is what
/// `random_below` returned. Nothing else makes this true, so a number that was chosen in
/// another way is none.
pub closed spec fn drawn_below(bound: u64, r: u64) -> bool {
    call_ensures(random_below, (bound,), r)
}

/// A number that was drawn is one that `random_below` returned.
proof fn a_drawn_number_was_returned(bound: u64, r: u64)
    requires
        drawn_below(bound, r),
    ensures
        call_ensures(random_below, (bound,), r),
        r < bound,
{
}

/// Draws a number.
fn draw<D: Fn(u64) -> u64>(source: D, bound: u64) -> (r: u64)
    requires
        call_requires(source, (bound,)),
    ensures
        call_ensures(source, (bound,), r),
{
    source(bound)
}

/// A jitter for `backoff_delay`, drawn at random. It spans several seconds, so that
/// schedules in whole seconds still spread.
pub fn jitter_ms() -> (r: u64)
    ensures
        r < 4000,
        drawn_below(4000, r),
{
    draw(random_below, 4000)
}

proof fn lemma_pow2_monotone(a: nat, b: nat)
    requires
        a <= b,
    ensures
        pow2(a) <= pow2(b),
{
    if a < b {
        lemma_pow2_strictly_increases(a, b);
    }
}

/// A delay is at least a second and at most 64 seconds, and in whole seconds it
/// is never shorter than in milliseconds.
pub proof fn delay_is_bounded(attempts: nat, jitter_ms: nat)
    ensures
        1000 <= delay_ms(attempts, jitter_ms) <= 64_000,
        1 <= delay_secs(attempts, jitter_ms) <= 64,
        delay_ms(attempts, jitter_ms) <= 1000 * delay_secs(attempts, jitter_ms)
            < delay_ms(attempts, jitter_ms) + 1000,
{
    lemma2_to64();
    lemma_pow2_monotone(0, attempts);
}

/// More attempts or more jitter never make a delay shorter.
pub proof fn delay_is_monotone(a: nat, b: nat, jitter_a: nat, jitter_b: nat)
    requires
        a <= b,
        jitter_a <= jitter_b,
    ensures
        delay_ms(a, jitter_a) <= delay_ms(b, jitter_b),
        delay_secs(a, jitter_a) <= delay_secs(b, jitter_b),
{
    lemma_pow2_monotone(a, b);
}

/// From the sixth attempt on every delay is at the ceiling.
pub proof fn delay_reaches_the_ceiling(attempts: nat, jitter_ms: nat)
    requires
        attempts >= 6,
    ensures
        delay_ms(attempts, jitter_ms) == 64_000,
        delay_secs(attempts, jitter_ms) == 64,
{
    lemma2_to64();
    lemma_pow2_monotone(6, attempts);
}

/// Without jitter a delay begins at one second and doubles with every attempt up to the
/// ceiling; jitter is added to it, up to the ceiling.
pub proof fn delay_doubles(attempts: nat, jitter_ms: nat)
    ensures
        delay_ms(0, 0) == 1000,
        attempts < 6 ==> delay_ms(attempts + 1, 0) == 2 * delay_ms(attempts, 0),
        delay_ms(attempts, 0) + jitter_ms <= 64_000 ==> delay_ms(attempts, jitter_ms) == delay_ms(
            attempts,
            0,
        ) + jitter_ms,
        delay_ms(attempts, 0) + jitter_ms > 64_000 ==> delay_ms(attempts, jitter_ms) == 64_000,
{
    lemma2_to64();
    lemma_pow2_monotone(0, attempts);
    lemma_pow2_unfold(attempts + 1);
    if attempts < 6 {
        lemma_pow2_monotone(attempts + 1, 6);
    }
}

} // verus!
