//! How often cached views were reused, and why they were not otherwise.

use vstd::prelude::*;

verus! {

/// Why a cached view was, or was not, reused.
#[derive(Clone, Copy, Debug, PartialEq, Eq, Structural)]
pub enum CacheOutcome {
    Hit,
    First,
    Bounds,
    Mask,
    TextStyle,
    Dirty,
    Refreshing,
    EntityDep,
    GlobalDep,
    Input,
}

/// The number of outcomes.
pub const CACHE_OUTCOMES: usize = 10;

impl CacheOutcome {
    pub open spec fn spec_index(self) -> int {
        match self {
            CacheOutcome::Hit => 0,
            CacheOutcome::First => 1,
            CacheOutcome::Bounds => 2,
            CacheOutcome::Mask => 3,
            CacheOutcome::TextStyle => 4,
            CacheOutcome::Dirty => 5,
            CacheOutcome::Refreshing => 6,
            CacheOutcome::EntityDep => 7,
            CacheOutcome::GlobalDep => 8,
            CacheOutcome::Input => 9,
        }
    }

    fn index(self) -> (r: usize)
        ensures
            r == self.spec_index(),
    {
        match self {
            CacheOutcome::Hit => 0,
            CacheOutcome::First => 1,
            CacheOutcome::Bounds => 2,
            CacheOutcome::Mask => 3,
            CacheOutcome::TextStyle => 4,
            CacheOutcome::Dirty => 5,
            CacheOutcome::Refreshing => 6,
            CacheOutcome::EntityDep => 7,
            CacheOutcome::GlobalDep => 8,
            CacheOutcome::Input => 9,
        }
    }
}

/// The names of the outcomes, in order.
pub open spec fn outcome_name(index: int) -> Seq<char> {
    if index == 0 {
        "hit"@
    } else if index == 1 {
        "first"@
    } else if index == 2 {
        "bounds"@
    } else if index == 3 {
        "mask"@
    } else if index == 4 {
        "text_style"@
    } else if index == 5 {
        "dirty"@
    } else if index == 6 {
        "refreshing"@
    } else if index == 7 {
        "entity_dep"@
    } else if index == 8 {
        "global_dep"@
    } else {
        "input"@
    }
}

/// How often each outcome was recorded. The counts start over when they no longer fit.
#[derive(Debug)]
pub struct ViewCacheStats {
    pub counts: [u64; 10],
}

impl ViewCacheStats {
    pub fn new() -> (r: ViewCacheStats)
        ensures
            forall|i: int| 0 <= i < CACHE_OUTCOMES ==> r.counts@[i] == 0,
    {
        ViewCacheStats { counts: [0, 0, 0, 0, 0, 0, 0, 0, 0, 0] }
    }

    pub fn record_outcome(&mut self, outcome: CacheOutcome)
        ensures
            final(self).counts@ == counted(old(self).counts@, outcome),
    {
        let i = outcome.index();
        let count = self.counts[i];
        self.counts[i] = if count == u64::MAX {
            0
        } else {
            count + 1
        };
    }
}

/// The counts with one more of an outcome.
pub open spec fn counted(counts: Seq<u64>, outcome: CacheOutcome) -> Seq<u64> {
    let count = counts[outcome.spec_index()];
    counts.update(
        outcome.spec_index(),
        if count == u64::MAX {
            0
        } else {
            (count + 1) as u64
        },
    )
}

/// Returns and resets how often cached views were reused, and why they were not otherwise, as pairs
/// of a reason and a count.
pub fn take_view_cache_stats(stats: &mut ViewCacheStats) -> (r: Vec<(&'static str, u64)>)
    ensures
        r@.len() == CACHE_OUTCOMES,
        forall|i: int|
            0 <= i < CACHE_OUTCOMES ==> {
                &&& (#[trigger] r@[i]).0@ == outcome_name(i)
                &&& r@[i].1 == old(stats).counts@[i]
                &&& final(stats).counts@[i] == 0
            },
{
    let counts = stats.counts;
    let mut pairs: Vec<(&'static str, u64)> = Vec::new();
    pairs.push(("hit", counts[0]));
    pairs.push(("first", counts[1]));
    pairs.push(("bounds", counts[2]));
    pairs.push(("mask", counts[3]));
    pairs.push(("text_style", counts[4]));
    pairs.push(("dirty", counts[5]));
    pairs.push(("refreshing", counts[6]));
    pairs.push(("entity_dep", counts[7]));
    pairs.push(("global_dep", counts[8]));
    pairs.push(("input", counts[9]));
    *stats = ViewCacheStats::new();
    pairs
}

// ---- laws --------------------------------------------------------------------------------------

/// Each outcome is reported under its own name, and counted apart from the others.
pub proof fn law_outcomes_are_reported_by_name(outcome: CacheOutcome, other: CacheOutcome)
    ensures
        0 <= outcome.spec_index() < 10,
        outcome != other ==> outcome.spec_index() != other.spec_index(),
        outcome is Hit ==> outcome_name(outcome.spec_index()) == "hit"@,
        outcome is First ==> outcome_name(outcome.spec_index()) == "first"@,
        outcome is Bounds ==> outcome_name(outcome.spec_index()) == "bounds"@,
        outcome is Mask ==> outcome_name(outcome.spec_index()) == "mask"@,
        outcome is TextStyle ==> outcome_name(outcome.spec_index()) == "text_style"@,
        outcome is Dirty ==> outcome_name(outcome.spec_index()) == "dirty"@,
        outcome is Refreshing ==> outcome_name(outcome.spec_index()) == "refreshing"@,
        outcome is EntityDep ==> outcome_name(outcome.spec_index()) == "entity_dep"@,
        outcome is GlobalDep ==> outcome_name(outcome.spec_index()) == "global_dep"@,
        outcome is Input ==> outcome_name(outcome.spec_index()) == "input"@,
{
}

/// Counting an outcome adds one to its count, which starts over behind the largest number, and leaves
/// the counts of the others.
pub proof fn law_one_outcome_is_counted(
    counts: Seq<u64>,
    outcome: CacheOutcome,
    other: CacheOutcome,
)
    requires
        counts.len() == 10,
    ensures
        counted(counts, outcome).len() == 10,
        counts[outcome.spec_index()] < u64::MAX ==> counted(counts, outcome)[outcome.spec_index()]
            == counts[outcome.spec_index()] + 1,
        counts[outcome.spec_index()] == u64::MAX ==> counted(counts, outcome)[outcome.spec_index()]
            == 0,
        other != outcome ==> counted(counts, outcome)[other.spec_index()]
            == counts[other.spec_index()],
{
}

} // verus!
