//! Detail levels: how much context a label needs to stand apart.
//!
//! Every candidate starts at the minimal level. In each round, every
//! candidate whose label is also the label of another candidate moves one
//! level up, all of them at once, unless it has reached the ceiling. The
//! rounds end when no candidate moves.

use crate::matches::{views, TabMatch, TabMatchView};
use crate::workspace::TabView;
use vstd::prelude::*;

verus! {

/// The highest detail level a candidate is raised to.
pub const MAX_DETAIL: usize = 8;

/// No level lies above the ceiling.
pub open spec fn bounded(details: Seq<usize>) -> bool {
    forall|i: int| 0 <= i < details.len() ==> #[trigger] details[i] <= MAX_DETAIL
}

/// Tab `j` is another tab than `i` and renders the same label at its level.
pub open spec fn clash(tabs: Seq<TabView>, details: Seq<usize>, i: int, j: int) -> bool {
    j != i && tabs[i].label(details[i]) == tabs[j].label(details[j])
}

/// The label of tab `i` is also the label of another tab.
pub open spec fn collides(tabs: Seq<TabView>, details: Seq<usize>, i: int) -> bool {
    exists|j: int| 0 <= j < tabs.len() && #[trigger] clash(tabs, details, i, j)
}

/// The level of tab `i` after one round.
pub open spec fn raised(tabs: Seq<TabView>, details: Seq<usize>, i: int) -> usize {
    if details[i] < MAX_DETAIL && collides(tabs, details, i) {
        (details[i] + 1) as usize
    } else {
        details[i]
    }
}

/// The levels after one round.
pub open spec fn raise(tabs: Seq<TabView>, details: Seq<usize>) -> Seq<usize> {
    Seq::new(details.len(), |i: int| raised(tabs, details, i))
}

/// The room left below the ceiling, summed over all tabs.
pub open spec fn slack(details: Seq<usize>) -> int
    decreases details.len(),
{
    if details.len() == 0 {
        0
    } else {
        slack(details.drop_last()) + (MAX_DETAIL - details.last())
    }
}

/// The levels at which the rounds that start from `details` end.
pub open spec fn settle(tabs: Seq<TabView>, details: Seq<usize>) -> Seq<usize>
    decreases slack(details),
    when bounded(details)
    via settle_terminates
{
    if raise(tabs, details) == details {
        details
    } else {
        settle(tabs, raise(tabs, details))
    }
}

/// The detail level of each tab: the outcome of the rounds that start with
/// every tab at the minimal level.
pub open spec fn detail_levels(tabs: Seq<TabView>) -> Seq<usize> {
    settle(tabs, Seq::new(tabs.len(), |i: int| 0usize))
}

proof fn lemma_slack_drops(a: Seq<usize>, b: Seq<usize>)
    requires
        a.len() == b.len(),
        bounded(b),
        forall|i: int| 0 <= i < a.len() ==> a[i] <= b[i],
    ensures
        0 <= slack(b) <= slack(a),
        (exists|i: int| 0 <= i < a.len() && a[i] < b[i]) ==> slack(b) < slack(a),
    decreases a.len(),
{
    if a.len() > 0 {
        let a0 = a.drop_last();
        let b0 = b.drop_last();
        assert(bounded(b0)) by {
            assert forall|i: int| 0 <= i < b0.len() implies #[trigger] b0[i] <= MAX_DETAIL by {
                assert(b0[i] == b[i]);
            }
        }
        assert forall|i: int| 0 <= i < a0.len() implies a0[i] <= b0[i] by {
            assert(a0[i] == a[i] && b0[i] == b[i]);
        }
        lemma_slack_drops(a0, b0);
        assert(b.last() <= MAX_DETAIL);
        assert(a.last() <= b.last());
        if exists|i: int| 0 <= i < a.len() && a[i] < b[i] {
            let i = choose|i: int| 0 <= i < a.len() && a[i] < b[i];
            if i < a.len() - 1 {
                assert(a0[i] < b0[i]);
            }
        }
    }
}

/// A round keeps the levels bounded, lowers none, and uses up slack when it
/// moves any.
proof fn lemma_round(tabs: Seq<TabView>, details: Seq<usize>)
    requires
        bounded(details),
    ensures
        bounded(raise(tabs, details)),
        raise(tabs, details).len() == details.len(),
        forall|i: int| 0 <= i < details.len() ==> details[i] <= #[trigger] raise(tabs, details)[i],
        0 <= slack(raise(tabs, details)) <= slack(details),
        raise(tabs, details) != details ==> slack(raise(tabs, details)) < slack(details),
{
    let next = raise(tabs, details);
    assert forall|i: int| 0 <= i < next.len() implies #[trigger] next[i] <= MAX_DETAIL by {
        assert(details[i] <= MAX_DETAIL);
    }
    lemma_slack_drops(details, next);
    if next != details {
        if forall|i: int| 0 <= i < details.len() ==> next[i] == details[i] {
            assert(next =~= details);
        }
        let i = choose|i: int| 0 <= i < details.len() && next[i] != details[i];
        assert(details[i] < next[i]);
    }
}

#[via_fn]
proof fn settle_terminates(tabs: Seq<TabView>, details: Seq<usize>) {
    if bounded(details) {
        lemma_round(tabs, details);
    }
}

/// Where the rounds end, no level lies above the ceiling, none lies below
/// where it started, and another round moves nothing.
pub proof fn lemma_settle(tabs: Seq<TabView>, details: Seq<usize>)
    requires
        bounded(details),
    ensures
        settle(tabs, details).len() == details.len(),
        bounded(settle(tabs, details)),
        raise(tabs, settle(tabs, details)) == settle(tabs, details),
        forall|i: int| 0 <= i < details.len() ==> details[i] <= #[trigger] settle(tabs, details)[i],
    decreases slack(details),
{
    lemma_round(tabs, details);
    let next = raise(tabs, details);
    if next != details {
        lemma_settle(tabs, next);
        assert forall|i: int| 0 <= i < details.len() implies details[i] <= #[trigger] settle(
            tabs,
            details,
        )[i] by {
            assert(details[i] <= next[i]);
            assert(next[i] <= settle(tabs, next)[i]);
        }
    }
}

/// The detail levels leave every label unique or at the ceiling: a tab
/// whose label is still the label of another tab has reached the ceiling,
/// and so has the other.
pub proof fn lemma_detail_levels(tabs: Seq<TabView>)
    ensures
        detail_levels(tabs).len() == tabs.len(),
        bounded(detail_levels(tabs)),
        forall|i: int, j: int|
            0 <= i < tabs.len() && 0 <= j < tabs.len() && #[trigger] clash(
                tabs,
                detail_levels(tabs),
                i,
                j,
            ) ==> detail_levels(tabs)[i] == MAX_DETAIL && detail_levels(tabs)[j] == MAX_DETAIL,
{
    let start = Seq::new(tabs.len(), |i: int| 0usize);
    assert(bounded(start));
    lemma_settle(tabs, start);
    let levels = detail_levels(tabs);
    assert forall|i: int, j: int|
        0 <= i < tabs.len() && 0 <= j < tabs.len() && #[trigger] clash(
            tabs,
            levels,
            i,
            j,
        ) implies levels[i] == MAX_DETAIL && levels[j] == MAX_DETAIL by {
        assert(clash(tabs, levels, j, i));
        assert(collides(tabs, levels, i));
        assert(collides(tabs, levels, j));
        assert(raise(tabs, levels)[i] == levels[i]);
        assert(raise(tabs, levels)[j] == levels[j]);
        assert(levels[i] <= MAX_DETAIL);
        assert(levels[j] <= MAX_DETAIL);
    }
}

/// Labels that are unique from the start need no context: where no two
/// tabs render the same label at the minimal level, every tab stays there.
pub proof fn lemma_unique_labels_stay_minimal(tabs: Seq<TabView>)
    requires
        forall|i: int, j: int|
            0 <= i < tabs.len() && 0 <= j < tabs.len() && i != j ==> tabs[i].label(0)
                != tabs[j].label(0),
    ensures
        detail_levels(tabs) == Seq::new(tabs.len(), |i: int| 0usize),
{
    let start = Seq::new(tabs.len(), |i: int| 0usize);
    assert(bounded(start));
    assert forall|i: int| 0 <= i < tabs.len() implies !collides(tabs, start, i) by {
        assert forall|j: int| 0 <= j < tabs.len() implies !clash(tabs, start, i, j) by {}
    }
    assert(raise(tabs, start) =~= start);
}

/// The tabs that a list of candidates stands for.
pub open spec fn tabs_of(list: Seq<TabMatchView>) -> Seq<TabView> {
    list.map_values(|m: TabMatchView| m.item)
}

/// The candidates with their detail levels assigned: nothing else changes.
pub open spec fn with_details(list: Seq<TabMatchView>) -> Seq<TabMatchView> {
    Seq::new(
        list.len(),
        |i: int| TabMatchView { detail: detail_levels(tabs_of(list))[i], ..list[i] },
    )
}

/// Whether the label of candidate `i` at its level is also the label of
/// another candidate.
fn label_collides(list: &Vec<TabMatch>, details: &Vec<usize>, i: usize) -> (hit: bool)
    requires
        details.len() == list.len(),
        i < list.len(),
    ensures
        hit == collides(tabs_of(views(list@)), details@, i as int),
{
    let ghost tabs = tabs_of(views(list@));
    let mut j: usize = 0;
    let mut hit = false;
    while j < list.len() && !hit
        invariant
            j <= list.len(),
            details.len() == list.len(),
            i < list.len(),
            tabs == tabs_of(views(list@)),
            hit ==> collides(tabs, details@, i as int),
            !hit ==> forall|k: int| 0 <= k < j ==> !clash(tabs, details@, i as int, k),
        decreases list.len() - j + (if hit { 0int } else { 1int }),
    {
        if j != i && list[i].item.same_label(details[i], &list[j].item, details[j]) {
            proof {
                assert(tabs[i as int] == list[i as int].item@);
                assert(tabs[j as int] == list[j as int].item@);
                assert(clash(tabs, details@, i as int, j as int));
            }
            hit = true;
        } else {
            proof {
                assert(tabs[i as int] == list[i as int].item@);
                assert(tabs[j as int] == list[j as int].item@);
                assert(!clash(tabs, details@, i as int, j as int));
            }
            j += 1;
        }
    }
    hit
}

/// Assigns every candidate its detail level.
pub fn assign_details(list: &mut Vec<TabMatch>)
    ensures
        views(final(list)@) == with_details(views(old(list)@)),
{
    let n = list.len();
    let ghost tabs = tabs_of(views(list@));
    let mut details: Vec<usize> = Vec::new();
    let mut i: usize = 0;
    while i < n
        invariant
            i <= n,
            details.len() == i,
            forall|k: int| 0 <= k < i ==> details[k] == 0,
        decreases n - i,
    {
        details.push(0);
        i += 1;
    }
    assert(details@ =~= Seq::new(tabs.len(), |i: int| 0usize));
    let mut settled = false;
    while !settled
        invariant
            n == list.len(),
            list@ == old(list)@,
            tabs == tabs_of(views(list@)),
            details.len() == n,
            bounded(details@),
            settle(tabs, details@) == detail_levels(tabs),
            settled ==> raise(tabs, details@) == details@,
        decreases slack(details@) + (if settled { 0int } else { 1int }),
    {
        let mut next: Vec<usize> = Vec::new();
        let mut changed = false;
        let mut i: usize = 0;
        while i < n
            invariant
                i <= n,
                n == list.len(),
                tabs == tabs_of(views(list@)),
                details.len() == n,
                bounded(details@),
                next.len() == i,
                forall|k: int| 0 <= k < i ==> next[k] == raised(tabs, details@, k),
                changed <==> exists|k: int| 0 <= k < i && next[k] != details[k],
            decreases n - i,
        {
            let level = details[i];
            let up = level < MAX_DETAIL && label_collides(list, &details, i);
            if up {
                next.push(level + 1);
                changed = true;
            } else {
                next.push(level);
            }
            proof {
                assert(next[i as int] == raised(tabs, details@, i as int));
                if up {
                    assert(next[i as int] != details[i as int]);
                }
            }
            i += 1;
        }
        proof {
            assert(next@ =~= raise(tabs, details@));
            lemma_round(tabs, details@);
        }
        if changed {
            details = next;
        } else {
            proof {
                assert(next@ =~= details@);
            }
            settled = true;
        }
    }
    proof {
        lemma_settle(tabs, details@);
    }
    let mut i: usize = 0;
    while i < n
        invariant
            i <= n,
            n == list.len(),
            details.len() == n,
            details@ == detail_levels(tabs),
            tabs == tabs_of(views(old(list)@)),
            forall|k: int|
                0 <= k < i ==> (#[trigger] list[k])@ == (TabMatchView {
                    detail: details[k],
                    ..old(list)[k]@
                }),
            forall|k: int| i <= k < n ==> list[k] == old(list)[k],
        decreases n - i,
    {
        list[i].detail = details[i];
        i += 1;
    }
    assert(views(list@) =~= with_details(views(old(list)@)));
}

} // verus!
