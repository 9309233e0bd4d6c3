//! The order of the match list under a query.
//!
//! Every candidate of the baseline enumeration comes with the score the
//! fuzzy matcher gave its label, or with none. The list keeps the accepted
//! candidates, best score first, and leaves candidates of equal score in
//! baseline order.

use vstd::prelude::*;

verus! {

/// A candidate is listed only with a score above this threshold.
pub const ACCEPTANCE_THRESHOLD: u64 = 0;

/// Whether a score lets its candidate into the list. A candidate the
/// matcher rejected, or failed on, has no score.
pub open spec fn accepted(score: Option<u64>) -> bool {
    match score {
        Some(s) => s > ACCEPTANCE_THRESHOLD,
        None => false,
    }
}

/// The number a score counts for, with 0 for no score.
pub open spec fn value(score: Option<u64>) -> u64 {
    match score {
        Some(s) => s,
        None => 0,
    }
}

/// Candidate `i` is listed before candidate `j`: the higher score first, the
/// earlier candidate first among equal scores.
pub open spec fn precedes(scores: Seq<Option<u64>>, i: int, j: int) -> bool {
    value(scores[i]) > value(scores[j]) || (value(scores[i]) == value(scores[j]) && i < j)
}

/// `order` lists exactly the accepted candidates among the first `n`, each
/// once, in listing order.
pub open spec fn ranks_prefix(order: Seq<usize>, scores: Seq<Option<u64>>, n: nat) -> bool {
    &&& forall|k: int|
        0 <= k < order.len() ==> (#[trigger] order[k]) < n && accepted(scores[order[k] as int])
    &&& forall|i: int|
        0 <= i < n && accepted(#[trigger] scores[i]) ==> exists|k: int|
            0 <= k < order.len() && #[trigger] order[k] == i
    &&& forall|k: int, l: int|
        0 <= k < l < order.len() ==> precedes(
            scores,
            (#[trigger] order[k]) as int,
            (#[trigger] order[l]) as int,
        )
}

/// `order` is the match list of `scores`: only accepted candidates, all of
/// them, by descending score, ties in baseline order.
pub open spec fn is_ranking(order: Seq<usize>, scores: Seq<Option<u64>>) -> bool {
    ranks_prefix(order, scores, scores.len())
}

/// The match list of `scores`, as candidate positions.
pub open spec fn ranking(scores: Seq<Option<u64>>) -> Seq<usize> {
    choose|order: Seq<usize>| is_ranking(order, scores)
}

proof fn lemma_prefixes_agree(
    a: Seq<usize>,
    b: Seq<usize>,
    scores: Seq<Option<u64>>,
    n: nat,
    upto: int,
)
    requires
        ranks_prefix(a, scores, n),
        ranks_prefix(b, scores, n),
        n <= scores.len(),
        0 <= upto <= a.len(),
        upto <= b.len(),
    ensures
        forall|k: int| 0 <= k < upto ==> a[k] == b[k],
    decreases upto,
{
    if upto > 0 {
        lemma_prefixes_agree(a, b, scores, n, upto - 1);
        let at = upto - 1;
        let x = a[at];
        let y = b[at];
        assert(accepted(scores[x as int]));
        assert(accepted(scores[y as int]));
        let j = choose|j: int| 0 <= j < b.len() && #[trigger] b[j] == x as int;
        let i = choose|i: int| 0 <= i < a.len() && #[trigger] a[i] == y as int;
        if j < at {
            assert(a[j] == b[j]);
            assert(precedes(scores, a[j] as int, a[at] as int));
        } else if j > at {
            assert(precedes(scores, b[at] as int, b[j] as int));
            if i < at {
                assert(b[i] == a[i]);
                assert(precedes(scores, b[i] as int, b[at] as int));
            } else if i > at {
                assert(precedes(scores, a[at] as int, a[i] as int));
            }
        }
    }
}

/// Two match lists of the same scores are the same list.
pub proof fn lemma_ranking_unique(a: Seq<usize>, b: Seq<usize>, scores: Seq<Option<u64>>, n: nat)
    requires
        ranks_prefix(a, scores, n),
        ranks_prefix(b, scores, n),
        n <= scores.len(),
    ensures
        a == b,
{
    if a.len() > b.len() {
        lemma_prefixes_agree(a, b, scores, n, b.len() as int);
        let x = a[b.len() as int];
        assert(accepted(scores[x as int]));
        let j = choose|j: int| 0 <= j < b.len() && #[trigger] b[j] == x as int;
        assert(a[j] == b[j]);
        assert(precedes(scores, a[j] as int, a[b.len() as int] as int));
    } else if b.len() > a.len() {
        lemma_prefixes_agree(a, b, scores, n, a.len() as int);
        let x = b[a.len() as int];
        assert(accepted(scores[x as int]));
        let j = choose|j: int| 0 <= j < a.len() && #[trigger] a[j] == x as int;
        assert(a[j] == b[j]);
        assert(precedes(scores, b[j] as int, b[a.len() as int] as int));
    } else {
        lemma_prefixes_agree(a, b, scores, n, a.len() as int);
        assert(a =~= b);
    }
}

/// A candidate without an accepted score leaves the list as it is.
proof fn lemma_rank_skip(order: Seq<usize>, scores: Seq<Option<u64>>, n: nat)
    requires
        ranks_prefix(order, scores, n),
        n < scores.len(),
        !accepted(scores[n as int]),
    ensures
        ranks_prefix(order, scores, n + 1),
{
}

/// An accepted candidate enters the list behind every entry that scores at
/// least as high and before every entry that scores lower.
proof fn lemma_rank_insert(order: Seq<usize>, scores: Seq<Option<u64>>, n: nat, slot: int)
    requires
        ranks_prefix(order, scores, n),
        n < scores.len(),
        n <= usize::MAX,
        accepted(scores[n as int]),
        0 <= slot <= order.len(),
        forall|k: int| 0 <= k < slot ==> value(scores[(#[trigger] order[k]) as int]) >= value(scores[n as int]),
        forall|k: int|
            slot <= k < order.len() ==> value(scores[(#[trigger] order[k]) as int]) < value(
                scores[n as int],
            ),
    ensures
        ranks_prefix(order.insert(slot, n as usize), scores, n + 1),
{
    let next = order.insert(slot, n as usize);
    order.insert_ensures(slot, n as usize);
    assert forall|k: int| 0 <= k < next.len() implies (#[trigger] next[k]) < n + 1 && accepted(
        scores[next[k] as int],
    ) by {
        if k < slot {
            assert(next[k] == order[k]);
        } else if k > slot {
            assert(next[k] == order[k - 1]);
        }
    }
    assert forall|i: int| 0 <= i < n + 1 && accepted(#[trigger] scores[i]) implies exists|k: int|
        0 <= k < next.len() && #[trigger] next[k] == i by {
        if i == n {
            assert(next[slot] == i);
        } else {
            let k = choose|k: int| 0 <= k < order.len() && #[trigger] order[k] == i;
            if k < slot {
                assert(next[k] == i);
            } else {
                assert(next[k + 1] == order[k]);
            }
        }
    }
    assert forall|k: int, l: int| 0 <= k < l < next.len() implies precedes(
        scores,
        (#[trigger] next[k]) as int,
        (#[trigger] next[l]) as int,
    ) by {
        let sk = if k < slot { k } else { k - 1 };
        let sl = if l < slot { l } else { l - 1 };
        if k != slot {
            assert(next[k] == order[sk]);
        }
        if l != slot {
            assert(next[l] == order[sl]);
        }
        if k != slot && l != slot {
            assert(precedes(scores, order[sk] as int, order[sl] as int));
        }
    }
}

/// The place at which an accepted candidate `n` enters `order`.
proof fn lemma_slot(order: Seq<usize>, scores: Seq<Option<u64>>, n: nat, upto: int) -> (slot: int)
    requires
        ranks_prefix(order, scores, n),
        n < scores.len(),
        0 <= upto <= order.len(),
        forall|k: int|
            upto <= k < order.len() ==> value(scores[(#[trigger] order[k]) as int]) < value(
                scores[n as int],
            ),
    ensures
        0 <= slot <= order.len(),
        forall|k: int| 0 <= k < slot ==> value(scores[(#[trigger] order[k]) as int]) >= value(scores[n as int]),
        forall|k: int|
            slot <= k < order.len() ==> value(scores[(#[trigger] order[k]) as int]) < value(
                scores[n as int],
            ),
    decreases upto,
{
    if upto == 0 {
        0
    } else if value(scores[order[upto - 1] as int]) >= value(scores[n as int]) {
        assert forall|k: int| 0 <= k < upto implies value(scores[(#[trigger] order[k]) as int])
            >= value(scores[n as int]) by {
            if k < upto - 1 {
                assert(precedes(scores, order[k] as int, order[upto - 1] as int));
            }
        }
        upto
    } else {
        lemma_slot(order, scores, n, upto - 1)
    }
}

proof fn lemma_prefix_ranking_exists(scores: Seq<Option<u64>>, n: nat) -> (order: Seq<usize>)
    requires
        n <= scores.len() <= usize::MAX,
    ensures
        ranks_prefix(order, scores, n),
    decreases n,
{
    if n == 0 {
        Seq::empty()
    } else {
        let m = (n - 1) as nat;
        let before = lemma_prefix_ranking_exists(scores, m);
        if accepted(scores[m as int]) {
            let slot = lemma_slot(before, scores, m, before.len() as int);
            lemma_rank_insert(before, scores, m, slot);
            before.insert(slot, m as usize)
        } else {
            lemma_rank_skip(before, scores, m);
            before
        }
    }
}

/// Every score sequence has its match list: `ranking` names a list of
/// accepted candidates only, all of them, sorted by descending score with
/// ties in baseline order.
pub proof fn lemma_ranking(scores: Seq<Option<u64>>)
    requires
        scores.len() <= usize::MAX,
    ensures
        is_ranking(ranking(scores), scores),
{
    let witness = lemma_prefix_ranking_exists(scores, scores.len());
    assert(is_ranking(witness, scores));
}

/// The number a score counts for, with 0 for no score.
pub fn score_value(score: &Option<u64>) -> (v: u64)
    ensures
        v == value(*score),
{
    match score {
        Some(s) => *s,
        None => 0,
    }
}

/// Whether a score lets its candidate into the list.
pub fn is_accepted(score: &Option<u64>) -> (yes: bool)
    ensures
        yes == accepted(*score),
{
    match score {
        Some(s) => *s > ACCEPTANCE_THRESHOLD,
        None => false,
    }
}

/// The match list of `scores`, as positions in the baseline enumeration.
pub fn rank(scores: &Vec<Option<u64>>) -> (order: Vec<usize>)
    ensures
        order@ == ranking(scores@),
        is_ranking(order@, scores@),
{
    let mut order: Vec<usize> = Vec::new();
    let mut i: usize = 0;
    while i < scores.len()
        invariant
            i <= scores.len(),
            ranks_prefix(order@, scores@, i as nat),
        decreases scores.len() - i,
    {
        if is_accepted(&scores[i]) {
            let s = score_value(&scores[i]);
            let mut slot: usize = order.len();
            let mut placed = false;
            while slot > 0 && !placed
                invariant
                    slot <= order.len(),
                    i < scores.len(),
                    s == value(scores@[i as int]),
                    ranks_prefix(order@, scores@, i as nat),
                    forall|k: int|
                        slot <= k < order.len() ==> value(scores@[(#[trigger] order@[k]) as int]) < s,
                    placed ==> slot > 0 && value(scores@[order@[slot - 1] as int]) >= s,
                decreases slot + (if placed { 0int } else { 1int }),
            {
                let behind = order[slot - 1];
                if score_value(&scores[behind]) >= s {
                    placed = true;
                } else {
                    slot -= 1;
                }
            }
            proof {
                assert forall|k: int| 0 <= k < slot implies value(
                    scores@[(#[trigger] order@[k]) as int],
                ) >= s by {
                    if k < slot - 1 {
                        assert(precedes(scores@, order@[k] as int, order@[slot - 1] as int));
                    }
                }
                lemma_rank_insert(order@, scores@, i as nat, slot as int);
            }
            order.insert(slot, i);
        } else {
            proof {
                lemma_rank_skip(order@, scores@, i as nat);
            }
        }
        i += 1;
    }
    proof {
        assert(is_ranking(order@, scores@));
        lemma_ranking_unique(order@, ranking(scores@), scores@, scores@.len());
    }
    order
}

} // verus!
