//! Emit-rate throttle for live transfer progress.
//!
//! Every progress event is folded into the application snapshot and broadcast,
//! so one event per chunk would flood the channel. The throttle lets through
//! about a hundred events per file: one per whole percent, and always the tick
//! at completion.

use vstd::prelude::*;

verus! {

/// The whole percent that `cum` bytes are of a file of `total` bytes. An empty
/// file, or one of which everything is there, is at 100.
pub open spec fn percent_of(total: nat, cum: nat) -> int {
    if total == 0 || cum >= total {
        100
    } else {
        (cum * 100) as int / total as int
    }
}

/// Tracks the last percent let through for one file.
#[derive(Debug)]
pub struct ProgressThrottle {
    total: u64,
    last_pct: i64,
}

impl ProgressThrottle {
    /// The expected size of the file.
    pub closed spec fn total(self) -> nat {
        self.total as nat
    }

    /// The percent let through last, or -1 before the first.
    pub closed spec fn last_pct(self) -> int {
        self.last_pct as int
    }

    /// A throttle for a file of `total` bytes that has let nothing through.
    pub fn new(total: u64) -> (r: Self)
        ensures
            r.total() == total,
            r.last_pct() == -1,
    {
        ProgressThrottle { total, last_pct: -1 }
    }

    /// True when the cumulative byte count `cum` is worth an event: its percent
    /// differs from the one let through last.
    #[must_use]
    pub fn should_emit(&mut self, cum: u64) -> (r: bool)
        ensures
            final(self).total() == old(self).total(),
            final(self).last_pct() == percent_of(old(self).total(), cum as nat),
            r == (percent_of(old(self).total(), cum as nat) != old(self).last_pct()),
    {
        let pct: i64 = if self.total == 0 || cum >= self.total {
            100
        } else {
            proof {
                lemma_percent_below(self.total as nat, cum as nat);
            }
            let q: u128 = cum as u128 * 100 / self.total as u128;
            q as i64
        };
        if pct != self.last_pct {
            self.last_pct = pct;
            true
        } else {
            false
        }
    }
}

/// A file of which something is missing is below 100 percent, and never below 0.
proof fn lemma_percent_below(total: nat, cum: nat)
    requires
        cum < total,
    ensures
        0 <= percent_of(total, cum) < 100,
{
    let scaled = (cum * 100) as int;
    let t = total as int;
    assert(0 <= scaled / t < 100) by (nonlinear_arith)
        requires
            0 <= scaled < 100 * t,
            t > 0,
    ;
}

/// More bytes of the same file are never a smaller percent of it.
pub proof fn percent_is_monotone(total: nat, a: nat, b: nat)
    requires
        a <= b,
    ensures
        0 <= percent_of(total, a) <= percent_of(total, b) <= 100,
{
    if b < total {
        let x = (a * 100) as int;
        let y = (b * 100) as int;
        lemma_percent_below(total, a);
        lemma_percent_below(total, b);
        vstd::arithmetic::div_mod::lemma_div_is_ordered(x, y, total as int);
    } else if a < total {
        lemma_percent_below(total, a);
    }
}

/// How many of the cumulative counts `cums`, fed in order to a throttle that
/// let `last` through before, are let through.
pub open spec fn emitted(total: nat, last: int, cums: Seq<nat>) -> nat
    decreases cums.len(),
{
    if cums.len() == 0 {
        0
    } else {
        let pct = percent_of(total, cums.first());
        (if pct != last { 1nat } else { 0nat }) + emitted(total, pct, cums.drop_first())
    }
}

/// A transfer whose cumulative counts never fall is announced at most once per
/// whole percent, from 0 to 100, whatever the number of chunks.
pub proof fn at_most_one_event_per_percent(total: nat, cums: Seq<nat>)
    requires
        forall|i: int, j: int| 0 <= i <= j < cums.len() ==> cums[i] <= cums[j],
    ensures
        emitted(total, -1, cums) <= 101,
{
    lemma_emitted_bound(total, -1, cums);
}

proof fn lemma_emitted_bound(total: nat, last: int, cums: Seq<nat>)
    requires
        -1 <= last <= 100,
        forall|i: int, j: int| 0 <= i <= j < cums.len() ==> cums[i] <= cums[j],
        cums.len() > 0 ==> last <= percent_of(total, cums[0]),
    ensures
        emitted(total, last, cums) <= 100 - last,
    decreases cums.len(),
{
    if cums.len() > 0 {
        let rest = cums.drop_first();
        let pct = percent_of(total, cums.first());
        percent_is_monotone(total, cums.first(), cums.first());
        if rest.len() > 0 {
            percent_is_monotone(total, cums[0], cums[1]);
        }
        assert forall|i: int, j: int| 0 <= i <= j < rest.len() implies rest[i] <= rest[j] by {
            assert(rest[i] == cums[i + 1] && rest[j] == cums[j + 1]);
        }
        lemma_emitted_bound(total, pct, rest);
    }
}

/// The count that completes a file is let through, unless the file was complete
/// at the last one let through.
pub proof fn completion_is_announced(total: nat, last: int, cum: nat)
    requires
        cum >= total,
        last != 100,
    ensures
        emitted(total, last, seq![cum]) == 1,
{
    let s = seq![cum];
    assert(s.drop_first().len() == 0);
    assert(emitted(total, percent_of(total, cum), s.drop_first()) == 0);
}

/// A percent is the part of a hundred that has come, rounded down: 100 exactly when all has
/// come, and otherwise the greatest whole number that is not above it.
pub proof fn a_percent_is_rounded_down(total: nat, cum: nat)
    ensures
        percent_of(total, cum) == 100 <==> cum >= total,
        cum < total ==> percent_of(total, cum) * total <= 100 * cum < (percent_of(total, cum) + 1)
            * total,
{
    if cum < total {
        lemma_percent_below(total, cum);
        vstd::arithmetic::div_mod::lemma_fundamental_div_mod((cum * 100) as int, total as int);
        let q = (cum * 100) as int / total as int;
        let r = (cum * 100) as int % total as int;
        let t = total as int;
        assert(0 <= r < t) by (nonlinear_arith)
            requires
                t > 0,
                r == (cum * 100) as int % t,
        ;
        assert((q + 1) * t == q * t + t) by (nonlinear_arith);
        assert(t * q == q * t) by (nonlinear_arith);
    }
}

} // verus!
