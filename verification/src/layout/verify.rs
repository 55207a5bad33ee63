//! The comparison of a layout with one that is computed from nothing.

use vstd::prelude::*;

verus! {

/// What the comparison found.
#[derive(Debug)]
pub struct VerifyReport {
    /// How many nodes were compared.
    pub total: usize,
    /// How many differ.
    pub bad: usize,
    /// The places of those that differ.
    pub listed: Vec<usize>,
}

/// The places at which nodes differ, in order.
pub open spec fn differing(differs: Seq<bool>) -> Seq<int>
    decreases differs.len(),
{
    if differs.len() == 0 {
        seq![]
    } else if differs.last() {
        differing(differs.drop_last()).push(differs.len() - 1)
    } else {
        differing(differs.drop_last())
    }
}

/// Sums up a comparison. `differs` says for each node whether its two layouts are too far apart.
pub fn verify_report(differs: &Vec<bool>) -> (r: VerifyReport)
    ensures
        r.total == differs@.len(),
        r.bad == differing(differs@).len(),
        r.listed@.map_values(|place: usize| place as int) == differing(differs@),
{
    let mut bad: usize = 0;
    let mut listed: Vec<usize> = Vec::new();
    let mut i: usize = 0;
    while i < differs.len()
        invariant
            i <= differs@.len(),
            bad <= i,
            bad == differing(differs@.take(i as int)).len(),
            listed@.map_values(|place: usize| place as int) =~= differing(
                differs@.take(i as int),
            ),
        decreases differs@.len() - i,
    {
        assert(differs@.take(i + 1).drop_last() =~= differs@.take(i as int));
        if differs[i] {
            listed.push(i);
            bad = bad + 1;
        }
        i = i + 1;
    }
    assert(differs@.take(i as int) =~= differs@);
    VerifyReport { total: differs.len(), bad, listed }
}

/// The places that are listed are those of the nodes that differ, all of them and no others, each once
/// and in order.
pub proof fn law_the_report_lists_what_differs(differs: Seq<bool>)
    ensures
        forall|place: int|
            0 <= place < differs.len() ==> (differing(differs).contains(place)
                <==> #[trigger] differs[place]),
        forall|i: int|
            0 <= i < differing(differs).len() ==> 0 <= #[trigger] differing(differs)[i]
                < differs.len(),
        forall|i: int, j: int|
            0 <= i < j < differing(differs).len() ==> #[trigger] differing(differs)[i]
                < #[trigger] differing(differs)[j],
        differing(differs).len() <= differs.len(),
    decreases differs.len(),
{
    if differs.len() > 0 {
        let shorter = differs.drop_last();
        law_the_report_lists_what_differs(shorter);
        let before = differing(shorter);
        let all = differing(differs);
        assert forall|place: int| 0 <= place < differs.len() implies (all.contains(place)
            <==> #[trigger] differs[place]) by {
            if place < shorter.len() {
                assert(shorter[place] == differs[place]);
                if before.contains(place) {
                    let k = choose|k: int| 0 <= k < before.len() && before[k] == place;
                    assert(all[k] == place);
                }
                if all.contains(place) {
                    let k = choose|k: int| 0 <= k < all.len() && all[k] == place;
                    assert(before[k] == place);
                }
            } else {
                if differs[place] {
                    assert(all[all.len() - 1] == place);
                } else if all.contains(place) {
                    let k = choose|k: int| 0 <= k < all.len() && all[k] == place;
                    assert(before[k] == place);
                }
            }
        }
    }
}

} // verus!
