//! Counters for the investigation of performance.

use vstd::prelude::*;

verus! {

/// The counters of layout. They start over when they no longer fit.
#[derive(Debug)]
pub struct LayoutStats {
    /// Whether anything is counted. Counting costs something in every call.
    pub enabled: bool,
    /// Frames, nodes, nanoseconds in layout, measure calls, and nanoseconds in them.
    pub totals: [u64; 5],
    /// For each call of the solver its duration in nanoseconds and the size of the subtree.
    pub calls: Vec<(u64, u32)>,
    /// Nodes that were created, and nodes that were kept from the frame before.
    pub reuse: (u64, u64),
    /// What the solver's cache answered, and what it did not. Taffy tells neither, so both stay zero.
    pub cache: (u64, u64),
}

/// The sum of two counts, as it fits.
pub open spec fn sum(a: u64, b: u64) -> u64 {
    if a + b > u64::MAX {
        (a + b - u64::MAX - 1) as u64
    } else {
        (a + b) as u64
    }
}

/// Adds to a count, and starts over where the sum no longer fits.
pub fn count_up(a: u64, b: u64) -> (r: u64)
    ensures
        r == sum(a, b),
{
    if b > u64::MAX - a {
        b - (u64::MAX - a) - 1
    } else {
        a + b
    }
}

impl LayoutStats {
    pub fn new() -> (r: LayoutStats)
        ensures
            !r.enabled,
            forall|i: int| 0 <= i < 5 ==> r.totals@[i] == 0,
            r.calls@ == Seq::<(u64, u32)>::empty(),
            r.reuse == (0u64, 0u64),
            r.cache == (0u64, 0u64),
    {
        LayoutStats {
            enabled: false,
            totals: [0, 0, 0, 0, 0],
            calls: Vec::new(),
            reuse: (0, 0),
            cache: (0, 0),
        }
    }

    /// Adds to one of the totals.
    pub fn add_total(&mut self, index: usize, amount: u64)
        requires
            index < 5,
        ensures
            final(self).totals@ == old(self).totals@.update(
                index as int,
                sum(old(self).totals@[index as int], amount),
            ),
            *final(self) == (LayoutStats { totals: final(self).totals, ..*old(self) }),
    {
        self.totals[index] = count_up(self.totals[index], amount);
    }

    /// The counters after a measure call of a layout that counts.
    pub open spec fn measured(self, nanoseconds: u64, after: LayoutStats) -> bool {
        &&& after.totals@ == self.totals@.update(3, sum(self.totals@[3], 1)).update(
            4,
            sum(self.totals@[4], nanoseconds),
        )
        &&& after == LayoutStats { totals: after.totals, ..self }
    }

    /// Counts one measure call of a layout, if the layout counts.
    pub fn record_measure(&mut self, counts: bool, nanoseconds: u64)
        ensures
            counts ==> old(self).measured(nanoseconds, *final(self)),
            !counts ==> final(self).totals@ == old(self).totals@,
            *final(self) == (LayoutStats { totals: final(self).totals, ..*old(self) }),
            final(self).totals@ == if counts {
                old(self).totals@.update(3, sum(old(self).totals@[3], 1)).update(
                    4,
                    sum(old(self).totals@[4], nanoseconds),
                )
            } else {
                old(self).totals@
            },
    {
        if counts {
            self.add_total(3, 1);
            self.add_total(4, nanoseconds);
        }
    }
}

/// Turns the counters on or off.
pub fn enable_layout_stats(stats: &mut LayoutStats, on: bool)
    ensures
        *final(stats) == (LayoutStats { enabled: on, ..*old(stats) }),
{
    stats.enabled = on;
}

/// Returns and resets the totals.
pub fn take_layout_stats(stats: &mut LayoutStats) -> (r: [u64; 5])
    ensures
        r@ == old(stats).totals@,
        final(stats).totals@ == seq![0u64, 0, 0, 0, 0],
        *final(stats) == (LayoutStats { totals: final(stats).totals, ..*old(stats) }),
{
    let totals = stats.totals;
    stats.totals = [0, 0, 0, 0, 0];
    totals
}

/// Returns and drops the records of calls.
pub fn take_layout_calls(stats: &mut LayoutStats) -> (r: Vec<(u64, u32)>)
    ensures
        r == old(stats).calls,
        final(stats).calls@ == Seq::<(u64, u32)>::empty(),
        *final(stats) == (LayoutStats { calls: final(stats).calls, ..*old(stats) }),
{
    let mut calls: Vec<(u64, u32)> = Vec::new();
    std::mem::swap(&mut calls, &mut stats.calls);
    calls
}

/// Returns and resets how often the solver's cache had an answer, and how often it had none. Taffy
/// keeps no such counts, so with it the pair is always zero unless the field is written by hand.
pub fn take_taffy_cache_stats(stats: &mut LayoutStats) -> (r: (u64, u64))
    ensures
        r == old(stats).cache,
        *final(stats) == (LayoutStats { cache: (0u64, 0u64), ..*old(stats) }),
{
    let cache = stats.cache;
    stats.cache = (0, 0);
    cache
}

/// Returns and resets how many nodes were created and how many were kept.
pub fn take_reuse_stats(stats: &mut LayoutStats) -> (r: (u64, u64))
    ensures
        r == old(stats).reuse,
        *final(stats) == (LayoutStats { reuse: (0u64, 0u64), ..*old(stats) }),
{
    let reuse = stats.reuse;
    stats.reuse = (0, 0);
    reuse
}

/// Counts go round: the sum differs from the true one by nothing or by as many as there are counts, and
/// is the true one where that fits.
pub proof fn law_counts_start_over(a: u64, b: u64)
    ensures
        sum(a, b) == (a + b) % 0x1_0000_0000_0000_0000,
        a + b <= u64::MAX ==> sum(a, b) == a + b,
        sum(a, b) == sum(b, a),
        sum(a, 0) == a,
{
}

/// A measure call that counts is counted once, and its duration adds to that of all of them. The other
/// totals stay.
pub proof fn law_measure_calls_are_counted(
    stats: LayoutStats,
    nanoseconds: u64,
    after: LayoutStats,
)
    requires
        stats.measured(nanoseconds, after),
    ensures
        stats.totals@[3] < u64::MAX ==> after.totals@[3] == stats.totals@[3] + 1,
        stats.totals@[4] + nanoseconds <= u64::MAX ==> after.totals@[4] == stats.totals@[4]
            + nanoseconds,
        after.totals@[0] == stats.totals@[0],
        after.totals@[1] == stats.totals@[1],
        after.totals@[2] == stats.totals@[2],
        after.calls == stats.calls,
        after.reuse == stats.reuse,
{
}

} // verus!
