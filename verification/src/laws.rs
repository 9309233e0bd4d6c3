//! What holds of every popup, proved over the mathematical values.
//!
//! The laws speak of a workspace `origin` as it stood when the popup opened
//! and of the workspace `now` after the host has performed every action the
//! popup answered with so far.

use crate::delegate::{restorable, restore_upto, restoring, DelegateView};
use crate::detail::with_details;
use crate::matches::{lemma_candidates, pick, TabMatchView};
use crate::ranking::{is_ranking, lemma_ranking, ranking};
use crate::workspace::{lemma_remove_keeps_distinct, PaneAction, PaneView, WorkspaceView};
use vstd::prelude::*;

verus! {

/// Whether the pane `id` lies in the scope of a popup opened from `pane`.
pub open spec fn in_scope(pane: u64, all_panes: bool, id: u64) -> bool {
    all_panes || id == pane
}

/// `now` is `origin` but for the visible tab of panes in scope: the same
/// panes with the same tabs, the same committed tabs and the same focus.
pub open spec fn drifted(origin: WorkspaceView, now: WorkspaceView, pane: u64, all_panes: bool) -> bool {
    &&& now.panes.len() == origin.panes.len()
    &&& forall|i: int|
        #![trigger now.panes[i]]
        0 <= i < origin.panes.len() ==> {
            &&& now.panes[i] == (PaneView { active: now.panes[i].active, ..origin.panes[i] })
            &&& now.panes[i].holds(now.panes[i].active)
            &&& now.panes[i].active != origin.panes[i].active ==> in_scope(
                pane,
                all_panes,
                origin.panes[i].id,
            )
        }
}

/// The popup `d` was opened on `origin`, and nothing but its own previews
/// has touched the workspace since: it holds the record of `origin`, every
/// row belongs to a pane in scope, and `now` has only drifted.
pub open spec fn tracks(d: DelegateView, origin: WorkspaceView, now: WorkspaceView) -> bool {
    &&& origin.wf()
    &&& drifted(origin, now, d.pane, d.is_all_panes)
    &&& d.original_items == origin.original_items(d.pane, d.is_all_panes)
    &&& forall|k: int|
        0 <= k < d.matches.len() ==> in_scope(d.pane, d.is_all_panes, (#[trigger] d.matches[k]).pane)
}

/// The popup and the workspace after the selections `rows`, each preview
/// performed by the host.
pub open spec fn browse(d: DelegateView, now: WorkspaceView, rows: Seq<usize>) -> (
    DelegateView,
    WorkspaceView,
)
    decreases rows.len(),
{
    if rows.len() == 0 {
        (d, now)
    } else {
        let (before, ws) = browse(d, now, rows.drop_last());
        (before.selected(rows.last()), ws.apply_opt(before.preview_action(ws, rows.last())))
    }
}

proof fn lemma_drifted_lookup(origin: WorkspaceView, now: WorkspaceView, pane: u64, all_panes: bool)
    requires
        drifted(origin, now, pane, all_panes),
    ensures
        now.pane_ids() == origin.pane_ids(),
        forall|p: u64| now.pane_index(p) == origin.pane_index(p),
        forall|p: u64, item: u64| now.locate(p, item) == origin.locate(p, item),
{
    assert(now.pane_ids() =~= origin.pane_ids()) by {
        assert forall|i: int| 0 <= i < now.panes.len() implies now.pane_ids()[i]
            == origin.pane_ids()[i] by {
            assert(now.panes[i].id == origin.panes[i].id);
        }
    }
    assert forall|p: u64, item: u64| now.locate(p, item) == origin.locate(p, item) by {
        origin.pane_ids().index_of_first_ensures(p);
        match origin.pane_index(p) {
            Some(at) => {
                assert(now.panes[at].items == origin.panes[at].items);
            },
            None => {},
        }
    }
}

/// In a well-formed workspace a pane is found at its own position.
proof fn lemma_pane_found(ws: WorkspaceView, at: int)
    requires
        ws.pane_ids().no_duplicates(),
        0 <= at < ws.panes.len(),
    ensures
        ws.pane_index(ws.panes[at].id) == Some(at),
{
    let ids = ws.pane_ids();
    ids.index_of_first_ensures(ws.panes[at].id);
    assert(ids[at] == ws.panes[at].id);
    assert(ids.contains(ws.panes[at].id));
}

/// Performing a list of actions and then one more is performing the
/// longer list.
pub proof fn lemma_apply_all_push(ws: WorkspaceView, actions: Seq<PaneAction>, last: PaneAction)
    ensures
        ws.apply_all(actions.push(last)) == ws.apply_all(actions).apply(last),
{
    assert(actions.push(last).drop_last() =~= actions);
}

/// Performing two lists one after the other is performing their
/// concatenation.
pub proof fn lemma_apply_all_concat(ws: WorkspaceView, first: Seq<PaneAction>, second: Seq<PaneAction>)
    ensures
        ws.apply_all(first + second) == ws.apply_all(first).apply_all(second),
    decreases second.len(),
{
    if second.len() == 0 {
        assert(first + second =~= first);
    } else {
        lemma_apply_all_concat(ws, first, second.drop_last());
        assert((first + second).drop_last() =~= first + second.drop_last());
        assert((first + second).last() == second.last());
    }
}

/// A popup tracks the workspace it was opened on.
pub proof fn law_opened_tracks(origin: WorkspaceView, pane: u64, select_last: bool, all_panes: bool)
    requires
        origin.wf(),
    ensures
        tracks(DelegateView::opened(origin, pane, select_last, all_panes), origin, origin),
        DelegateView::opened(origin, pane, select_last, all_panes).wf(),
        !DelegateView::opened(origin, pane, select_last, all_panes).restored_items,
{
    let d = DelegateView::opened(origin, pane, select_last, all_panes);
    lemma_rows_in_scope(origin, pane, all_panes);
    assert forall|i: int| #![trigger origin.panes[i]] 0 <= i < origin.panes.len() implies origin.panes[i]
        == (PaneView { active: origin.panes[i].active, ..origin.panes[i] })
        && origin.panes[i].holds(origin.panes[i].active) by {
        assert(origin.panes[i].wf());
    }
}

/// Every candidate of the baseline enumeration belongs to a pane in scope,
/// and so does every row of the list with its detail levels assigned.
proof fn lemma_rows_in_scope(ws: WorkspaceView, pane: u64, all_panes: bool)
    ensures
        forall|k: int|
            0 <= k < ws.candidates(pane, all_panes).len() ==> in_scope(
                pane,
                all_panes,
                (#[trigger] ws.candidates(pane, all_panes)[k]).pane,
            ),
        forall|k: int|
            0 <= k < with_details(ws.candidates(pane, all_panes)).len() ==> in_scope(
                pane,
                all_panes,
                (#[trigger] with_details(ws.candidates(pane, all_panes))[k]).pane,
            ),
{
    let list = ws.candidates(pane, all_panes);
    assert forall|k: int| 0 <= k < list.len() implies in_scope(
        pane,
        all_panes,
        (#[trigger] list[k]).pane,
    ) by {
        if !all_panes {
            ws.pane_ids().index_of_first_ensures(pane);
            let at = ws.pane_index(pane).unwrap();
            assert(ws.pane_ids()[at] == ws.panes[at].id);
            assert(list[k] == ws.panes[at].candidate(k));
        }
    }
    assert forall|k: int| 0 <= k < with_details(list).len() implies in_scope(
        pane,
        all_panes,
        (#[trigger] with_details(list)[k]).pane,
    ) by {
        assert(with_details(list)[k].pane == list[k].pane);
    }
}

/// A selection with its preview keeps the popup on track: the preview moves
/// the visible tab of one pane in scope and nothing else.
pub proof fn law_preview_keeps_track(d: DelegateView, origin: WorkspaceView, now: WorkspaceView, ix: usize)
    requires
        tracks(d, origin, now),
    ensures
        tracks(d.selected(ix), origin, now.apply_opt(d.preview_action(now, ix))),
        d.selected(ix).restored_items == d.restored_items,
        d.wf() ==> d.selected(ix).wf(),
{
    let after = now.apply_opt(d.preview_action(now, ix));
    lemma_drifted_lookup(origin, now, d.pane, d.is_all_panes);
    match d.resolved(now, ix) {
        Some((p, index)) => {
            let m = d.matches[ix as int];
            now.pane_ids().index_of_first_ensures(p);
            let at = now.pane_index(p).unwrap();
            now.panes[at].item_ids().index_of_first_ensures(m.item.id);
            assert(now.pane_ids()[at] == now.panes[at].id);
            assert(index < now.panes[at].items.len());
            assert(in_scope(d.pane, d.is_all_panes, origin.panes[at].id));
            assert forall|i: int| #![trigger after.panes[i]] 0 <= i < origin.panes.len() implies {
                &&& after.panes[i] == (PaneView { active: after.panes[i].active, ..origin.panes[i] })
                &&& after.panes[i].holds(after.panes[i].active)
                &&& after.panes[i].active != origin.panes[i].active ==> in_scope(
                    d.pane,
                    d.is_all_panes,
                    origin.panes[i].id,
                )
            } by {
                if i != at {
                    assert(after.panes[i] == now.panes[i]);
                }
            }
        },
        None => {},
    }
}

/// A query keeps the popup on track: the list it installs, at once or when
/// the scores of the candidates enumerated from `now` come back, holds rows
/// of panes in scope only.
pub proof fn law_recomputation_keeps_track(
    d: DelegateView,
    origin: WorkspaceView,
    now: WorkspaceView,
    query: Seq<char>,
    generation: u64,
    scores: Seq<Option<u64>>,
)
    requires
        tracks(d, origin, now),
        scores.len() <= usize::MAX,
    ensures
        tracks(d.after_update(query, now), origin, now),
        tracks(
            d.after_resume(generation, now.candidates(d.pane, d.is_all_panes), scores),
            origin,
            now,
        ),
{
    lemma_rows_in_scope(now, d.pane, d.is_all_panes);
    let candidates = now.candidates(d.pane, d.is_all_panes);
    let resumed = d.after_resume(generation, candidates, scores);
    if d.accepts(generation, candidates.len(), scores.len()) {
        lemma_ranking(scores);
        let order = ranking(scores);
        let list = pick(candidates, order);
        assert forall|k: int| 0 <= k < resumed.matches.len() implies in_scope(
            d.pane,
            d.is_all_panes,
            (#[trigger] resumed.matches[k]).pane,
        ) by {
            assert(order[k] < scores.len());
            assert(resumed.matches[k].pane == list[k].pane);
            assert(list[k] == candidates[order[k] as int]);
        }
    }
}

proof fn lemma_restore_all(origin: WorkspaceView, now: WorkspaceView, pane: u64, n: int)
    requires
        origin.wf(),
        drifted(origin, now, pane, true),
        0 <= n <= origin.panes.len(),
    ensures
        ({
            let w = now.apply_all(restore_upto(now, origin.original_items(pane, true), n));
            &&& w.panes.len() == origin.panes.len()
            &&& forall|i: int| 0 <= i < n ==> #[trigger] w.panes[i] == origin.panes[i]
            &&& forall|i: int| n <= i < origin.panes.len() ==> #[trigger] w.panes[i] == now.panes[i]
        }),
    decreases n,
{
    let record = origin.original_items(pane, true);
    if n > 0 {
        lemma_restore_all(origin, now, pane, n - 1);
        lemma_drifted_lookup(origin, now, pane, true);
        let before = restore_upto(now, record, n - 1);
        let w0 = now.apply_all(before);
        let entry = record[n - 1];
        assert(entry == (origin.panes[n - 1].id, origin.panes[n - 1].active));
        lemma_pane_found(origin, n - 1);
        assert(now.pane_index(entry.0) == Some(n - 1));
        assert(origin.panes[n - 1].wf());
        assert(now.panes[n - 1] == (PaneView {
            active: now.panes[n - 1].active,
            ..origin.panes[n - 1]
        }));
        if restorable(now, entry) {
            lemma_apply_all_push(now, before, restoring(entry));
            assert(w0.pane_ids() =~= now.pane_ids()) by {
                assert forall|i: int| 0 <= i < w0.panes.len() implies w0.pane_ids()[i]
                    == now.pane_ids()[i] by {
                    if i < n - 1 {
                        assert(w0.panes[i] == origin.panes[i]);
                        assert(now.panes[i].id == origin.panes[i].id);
                    } else {
                        assert(w0.panes[i] == now.panes[i]);
                    }
                }
            }
            assert(w0.pane_index(entry.0) == Some(n - 1));
            assert(w0.panes[n - 1] == now.panes[n - 1]);
            let w = w0.apply(restoring(entry));
            assert(w.panes[n - 1] == origin.panes[n - 1]);
            assert forall|i: int| 0 <= i < n implies #[trigger] w.panes[i] == origin.panes[i] by {
                if i < n - 1 {
                    assert(w.panes[i] == w0.panes[i]);
                }
            }
            assert forall|i: int| n <= i < origin.panes.len() implies #[trigger] w.panes[i]
                == now.panes[i] by {
                assert(w.panes[i] == w0.panes[i]);
            }
        } else {
            assert(now.panes[n - 1].items.len() == 0);
            assert(now.panes[n - 1].holds(now.panes[n - 1].active));
            assert(now.panes[n - 1] == origin.panes[n - 1]);
            assert forall|i: int| 0 <= i < n implies #[trigger] w0.panes[i] == origin.panes[i] by {
                if i == n - 1 {
                    assert(w0.panes[i] == now.panes[i]);
                }
            }
        }
    } else {
        assert(restore_upto(now, record, 0) =~= Seq::<PaneAction>::empty());
    }
}

/// The restoring activations undo every preview: performed on a workspace
/// that has only drifted from `origin`, they give `origin` back.
pub proof fn law_restoration(d: DelegateView, origin: WorkspaceView, now: WorkspaceView)
    requires
        tracks(d, origin, now),
    ensures
        now.apply_all(d.restore_actions(now)) == origin,
{
    let record = d.original_items;
    let w = now.apply_all(d.restore_actions(now));
    lemma_drifted_lookup(origin, now, d.pane, d.is_all_panes);
    if d.is_all_panes {
        lemma_restore_all(origin, now, d.pane, origin.panes.len() as int);
        assert(w.panes =~= origin.panes);
    } else {
        origin.pane_ids().index_of_first_ensures(d.pane);
        match origin.pane_index(d.pane) {
            Some(at) => {
                let entry = (origin.panes[at].id, origin.panes[at].active);
                assert(origin.pane_ids()[at] == origin.panes[at].id);
                assert(record =~= seq![entry]);
                assert(restore_upto(now, record, 0) =~= Seq::<PaneAction>::empty());
                assert(now.apply_all(Seq::<PaneAction>::empty()) == now);
                assert(origin.panes[at].wf());
                assert(now.panes[at] == (PaneView {
                    active: now.panes[at].active,
                    ..origin.panes[at]
                }));
                assert(now.panes[at].holds(now.panes[at].active));
                assert forall|i: int| 0 <= i < origin.panes.len() && i != at implies now.panes[i]
                    == origin.panes[i] by {
                    assert(now.panes[i] == (PaneView {
                        active: now.panes[i].active,
                        ..origin.panes[i]
                    }));
                    if origin.panes[i].id == d.pane {
                        assert(origin.pane_ids()[i] == origin.pane_ids()[at]);
                    }
                }
                if restorable(now, entry) {
                    lemma_apply_all_push(now, Seq::<PaneAction>::empty(), restoring(entry));
                    assert(restore_upto(now, record, 1) == Seq::<PaneAction>::empty().push(
                        restoring(entry),
                    ));
                    assert(w == now.apply(restoring(entry)));
                    assert(w.panes[at] == origin.panes[at]);
                    assert(w.panes =~= origin.panes);
                } else {
                    assert(restore_upto(now, record, 1) == restore_upto(now, record, 0));
                    assert(now.panes[at] == origin.panes[at]);
                    assert(w.panes =~= origin.panes);
                }
            },
            None => {
                assert(record =~= Seq::<(u64, usize)>::empty());
                assert(restore_upto(now, record, 0) =~= Seq::<PaneAction>::empty());
                assert forall|i: int| 0 <= i < origin.panes.len() implies now.panes[i]
                    == origin.panes[i] by {
                    assert(now.panes[i] == (PaneView {
                        active: now.panes[i].active,
                        ..origin.panes[i]
                    }));
                    assert(origin.pane_ids()[i] == origin.panes[i].id);
                    assert(origin.pane_ids().contains(origin.panes[i].id));
                }
                assert(w.panes =~= origin.panes);
            },
        }
    }
}

/// Dismissing an unconfirmed popup gives the workspace back as it was when
/// the popup opened: every pane shows the tab it showed then.
pub proof fn law_dismiss_restores(d: DelegateView, origin: WorkspaceView, now: WorkspaceView)
    requires
        tracks(d, origin, now),
        !d.restored_items,
    ensures
        now.apply_all(d.dismiss_actions(now)) == origin,
{
    law_restoration(d, origin, now);
}

/// Confirming leaves exactly the chosen tab active in its pane, committed
/// and focused, and every other pane as it was when the popup opened. If
/// the chosen tab no longer resolves, the whole workspace is as it was.
pub proof fn law_confirm_commits(d: DelegateView, origin: WorkspaceView, now: WorkspaceView)
    requires
        tracks(d, origin, now),
        d.confirms(),
    ensures
        ({
            let after = now.apply_all(d.confirm_actions(now));
            match d.resolved(origin, d.selected_index) {
                Some((pane, index)) => {
                    &&& origin.pane_index(pane) matches Some(at)
                    &&& after.panes.len() == origin.panes.len()
                    &&& index < origin.panes[at].items.len()
                    &&& origin.panes[at].items[index as int].id
                        == d.matches[d.selected_index as int].item.id
                    &&& after.panes[at] == (PaneView {
                        active: index,
                        committed: index,
                        focused: true,
                        ..origin.panes[at]
                    })
                    &&& forall|i: int|
                        0 <= i < origin.panes.len() && i != at ==> #[trigger] after.panes[i]
                            == origin.panes[i]
                },
                None => after == origin,
            }
        }),
{
    law_restoration(d, origin, now);
    lemma_drifted_lookup(origin, now, d.pane, d.is_all_panes);
    let restore = d.restore_actions(now);
    let commit = d.commit_action(now);
    lemma_apply_all_concat(now, restore, commit);
    assert(d.resolved(now, d.selected_index) == d.resolved(origin, d.selected_index));
    match d.resolved(origin, d.selected_index) {
        Some((pane, index)) => {
            let m = d.matches[d.selected_index as int];
            let action = PaneAction::Activate { pane, index, permanent: true, focus: true };
            assert(commit =~= Seq::<PaneAction>::empty().push(action));
            lemma_apply_all_push(origin, Seq::<PaneAction>::empty(), action);
            assert(origin.apply_all(Seq::<PaneAction>::empty()) == origin);
            origin.pane_ids().index_of_first_ensures(pane);
            let at = origin.pane_index(pane).unwrap();
            origin.panes[at].item_ids().index_of_first_ensures(m.item.id);
            assert(origin.panes[at].item_ids()[index as int] == origin.panes[at].items[index as int].id);
        },
        None => {
            assert(commit =~= Seq::<PaneAction>::empty());
        },
    }
}

/// Browsing keeps the popup on track, leaves it unrestored, and leaves
/// its record alone.
pub proof fn law_browse_keeps_track(d: DelegateView, origin: WorkspaceView, now: WorkspaceView, rows: Seq<usize>)
    requires
        tracks(d, origin, now),
    ensures
        tracks(browse(d, now, rows).0, origin, browse(d, now, rows).1),
        browse(d, now, rows).0.restored_items == d.restored_items,
        browse(d, now, rows).0.original_items == d.original_items,
    decreases rows.len(),
{
    if rows.len() > 0 {
        law_browse_keeps_track(d, origin, now, rows.drop_last());
        let (before, ws) = browse(d, now, rows.drop_last());
        law_preview_keeps_track(before, origin, ws, rows.last());
    }
}

/// Whatever rows were selected and previewed in between, dismissing the
/// popup gives back the workspace it was opened on.
pub proof fn law_dismiss_after_browsing(
    origin: WorkspaceView,
    pane: u64,
    select_last: bool,
    all_panes: bool,
    rows: Seq<usize>,
)
    requires
        origin.wf(),
    ensures
        ({
            let (d, now) = browse(
                DelegateView::opened(origin, pane, select_last, all_panes),
                origin,
                rows,
            );
            now.apply_all(d.dismiss_actions(now)) == origin
        }),
{
    let opened = DelegateView::opened(origin, pane, select_last, all_panes);
    law_opened_tracks(origin, pane, select_last, all_panes);
    law_browse_keeps_track(opened, origin, origin, rows);
    let (d, now) = browse(opened, origin, rows);
    law_dismiss_restores(d, origin, now);
}

/// Whatever rows were selected and previewed in between, confirming leaves
/// the chosen tab active in its pane, committed and focused, and every other
/// pane as it was when the popup opened.
pub proof fn law_confirm_after_browsing(
    origin: WorkspaceView,
    pane: u64,
    select_last: bool,
    all_panes: bool,
    rows: Seq<usize>,
)
    requires
        origin.wf(),
    ensures
        ({
            let (d, now) = browse(
                DelegateView::opened(origin, pane, select_last, all_panes),
                origin,
                rows,
            );
            let after = now.apply_all(d.confirm_actions(now));
            d.confirms() ==> match d.resolved(origin, d.selected_index) {
                Some((p, index)) => {
                    &&& origin.pane_index(p) matches Some(at)
                    &&& after.panes.len() == origin.panes.len()
                    &&& after.panes[at] == (PaneView {
                        active: index,
                        committed: index,
                        focused: true,
                        ..origin.panes[at]
                    })
                    &&& forall|i: int|
                        0 <= i < origin.panes.len() && i != at ==> #[trigger] after.panes[i]
                            == origin.panes[i]
                },
                None => after == origin,
            }
        }),
{
    let opened = DelegateView::opened(origin, pane, select_last, all_panes);
    law_opened_tracks(origin, pane, select_last, all_panes);
    law_browse_keeps_track(opened, origin, origin, rows);
    let (d, now) = browse(opened, origin, rows);
    if d.confirms() {
        law_confirm_commits(d, origin, now);
    }
}

/// Restoration happens at most once: after a dismissal, or after a
/// confirmation that acted, a dismissal asks for nothing, tells nobody and
/// changes nothing, and so does a second confirmation.
pub proof fn law_restores_once(d: DelegateView, later: WorkspaceView)
    requires
        d.wf(),
    ensures
        d.after_dismiss().dismiss_actions(later) == Seq::<PaneAction>::empty(),
        d.after_dismiss().restored_items,
        d.after_dismiss().after_dismiss() == d.after_dismiss(),
        d.after_dismiss().confirm_actions(later) == Seq::<PaneAction>::empty(),
        d.after_dismiss().after_confirm() == d.after_dismiss(),
        d.confirms() ==> d.after_confirm().dismiss_actions(later) == Seq::<PaneAction>::empty(),
        d.confirms() ==> d.after_confirm().restored_items,
        d.confirms() ==> d.after_confirm().after_dismiss() == d.after_confirm(),
        d.confirms() ==> d.after_confirm().confirm_actions(later) == Seq::<PaneAction>::empty(),
        d.confirms() ==> d.after_confirm().after_confirm() == d.after_confirm(),
{
}

/// A request that was superseded is never applied: once a newer query has
/// been handled, scores under the older generation change nothing.
pub proof fn law_last_query_wins(
    d: DelegateView,
    first: Seq<char>,
    ws: WorkspaceView,
    second: Seq<char>,
    later: WorkspaceView,
    candidates: Seq<TabMatchView>,
    scores: Seq<Option<u64>>,
)
    requires
        d.issues(first),
    ensures
        ({
            let stale = d.after_update(first, ws).generation;
            let newer = d.after_update(first, ws).after_update(second, later);
            newer.after_resume(stale, candidates, scores) == newer
        }),
{
}

/// A popup that has ended takes no scores.
pub proof fn law_ended_takes_no_scores(
    d: DelegateView,
    generation: u64,
    candidates: Seq<TabMatchView>,
    scores: Seq<Option<u64>>,
)
    requires
        d.wf(),
        d.restored_items,
    ensures
        d.after_resume(generation, candidates, scores) == d,
{
}

/// A closed tab stays out: once the host has performed the close action of
/// a row, no candidate of a later enumeration stands for that row's tab, so
/// neither the baseline list nor any ranked list holds it again.
pub proof fn law_closed_tab_stays_out(
    d: DelegateView,
    ws: WorkspaceView,
    ix: usize,
    query: Seq<char>,
    generation: u64,
    scores: Seq<Option<u64>>,
)
    requires
        ws.wf(),
        ix < d.matches.len(),
        scores.len() <= usize::MAX,
    ensures
        ({
            let gone = d.matches[ix as int];
            let after = ws.apply_opt(d.close_action(ws, ix));
            let closed = d.after_close(ix);
            let candidates = after.candidates(closed.pane, closed.is_all_panes);
            let resumed = closed.after_update(query, after).after_resume(
                generation,
                candidates,
                scores,
            );
            &&& closed.matches == d.matches.remove(ix as int)
            &&& forall|k: int|
                0 <= k < candidates.len() ==> !(#[trigger] candidates[k]).names(
                    gone.pane,
                    gone.item.id,
                )
            &&& query.len() == 0 && closed.phase is Active ==> forall|k: int|
                0 <= k < closed.after_update(query, after).matches.len() ==> !(
                #[trigger] closed.after_update(query, after).matches[k]).names(
                    gone.pane,
                    gone.item.id,
                )
            &&& closed.after_update(query, after).accepts(
                generation,
                candidates.len(),
                scores.len(),
            ) ==> forall|k: int|
                0 <= k < resumed.matches.len() ==> !(#[trigger] resumed.matches[k]).names(
                    gone.pane,
                    gone.item.id,
                )
        }),
{
    let gone = d.matches[ix as int];
    let after = ws.apply_opt(d.close_action(ws, ix));
    let closed = d.after_close(ix);
    let candidates = after.candidates(closed.pane, closed.is_all_panes);
    let updated = closed.after_update(query, after);
    let resumed = updated.after_resume(generation, candidates, scores);
    lemma_closed_tab_is_gone(ws, gone.pane, gone.item.id, after);
    assert forall|k: int| 0 <= k < candidates.len() implies !(#[trigger] candidates[k]).names(
        gone.pane,
        gone.item.id,
    ) by {
        lemma_candidates(after, closed.pane, closed.is_all_panes, k);
        let (at, index) = choose|at: int, index: int|
            0 <= at < after.panes.len() && 0 <= index < after.panes[at].items.len()
                && candidates[k] == #[trigger] after.panes[at].candidate(index);
        let strip = after.panes[at];
        assert(candidates[k].pane == strip.id);
        assert(candidates[k].item == strip.items[index]);
        assert(strip.item_ids()[index] == strip.items[index].id);
        assert(strip.item_ids().contains(candidates[k].item.id));
        if strip.id == gone.pane {
            assert(!strip.item_ids().contains(gone.item.id));
        }
    }
    if query.len() == 0 && closed.phase is Active {
        assert forall|k: int| 0 <= k < updated.matches.len() implies !(
        #[trigger] updated.matches[k]).names(gone.pane, gone.item.id) by {
            assert(updated.matches[k].pane == candidates[k].pane);
            assert(updated.matches[k].item == candidates[k].item);
            assert(!candidates[k].names(gone.pane, gone.item.id));
        }
    }
    if updated.accepts(generation, candidates.len(), scores.len()) {
        lemma_ranking(scores);
        let order = ranking(scores);
        let list = pick(candidates, order);
        assert forall|k: int| 0 <= k < resumed.matches.len() implies !(
        #[trigger] resumed.matches[k]).names(gone.pane, gone.item.id) by {
            assert(order[k] < scores.len());
            assert(list[k] == candidates[order[k] as int]);
            assert(resumed.matches[k].pane == list[k].pane);
            assert(resumed.matches[k].item == list[k].item);
            assert(!candidates[order[k] as int].names(gone.pane, gone.item.id));
        }
    }
}

/// After the close action for the tab `item` of the pane `pane` was
/// performed, no live pane of that identity holds a tab of that identity.
proof fn lemma_closed_tab_is_gone(ws: WorkspaceView, pane: u64, item: u64, after: WorkspaceView)
    requires
        ws.wf(),
        after == (match ws.locate(pane, item) {
            Some(index) => ws.apply(PaneAction::Close { pane, index: index as usize }),
            None => ws,
        }),
    ensures
        forall|at: int|
            0 <= at < after.panes.len() && (#[trigger] after.panes[at]).id == pane
                ==> !after.panes[at].item_ids().contains(item),
{
    let ids = ws.pane_ids();
    ids.index_of_first_ensures(pane);
    match ws.pane_index(pane) {
        Some(home) => {
            let strip = ws.panes[home];
            assert(strip.wf());
            strip.item_ids().index_of_first_ensures(item);
            assert(ids[home] == strip.id);
            match strip.index_for_item(item) {
                Some(index) => {
                    lemma_remove_keeps_distinct(strip.item_ids(), index);
                    assert(strip.close(index as usize).item_ids() =~= strip.item_ids().remove(
                        index,
                    ));
                    assert forall|at: int|
                        0 <= at < after.panes.len() && (#[trigger] after.panes[at]).id
                            == pane implies !after.panes[at].item_ids().contains(item) by {
                        if at != home {
                            assert(after.panes[at] == ws.panes[at]);
                            assert(ids[at] == ws.panes[at].id);
                        }
                    }
                },
                None => {
                    assert forall|at: int|
                        0 <= at < ws.panes.len() && (#[trigger] ws.panes[at]).id
                            == pane implies !ws.panes[at].item_ids().contains(item) by {
                        if at != home {
                            assert(ids[at] == ws.panes[at].id);
                        }
                    }
                },
            }
        },
        None => {
            assert forall|at: int|
                0 <= at < ws.panes.len() && (#[trigger] ws.panes[at]).id
                    == pane implies !ws.panes[at].item_ids().contains(item) by {
                assert(ids[at] == ws.panes[at].id);
                assert(ids.contains(pane));
            }
        },
    }
}

/// The list after scores were applied lists exactly the accepted
/// candidates, by descending score, with ties in baseline order.
pub proof fn law_ranked_list(
    d: DelegateView,
    generation: u64,
    candidates: Seq<TabMatchView>,
    scores: Seq<Option<u64>>,
)
    requires
        d.accepts(generation, candidates.len(), scores.len()),
        scores.len() <= usize::MAX,
    ensures
        ({
            let list = d.after_resume(generation, candidates, scores).matches;
            let order = ranking(scores);
            &&& is_ranking(order, scores)
            &&& list.len() == order.len()
            &&& forall|k: int|
                0 <= k < list.len() ==> (#[trigger] list[k]).pane == candidates[order[k] as int].pane
                    && list[k].item == candidates[order[k] as int].item && list[k].item_index
                    == candidates[order[k] as int].item_index
            &&& d.after_resume(generation, candidates, scores).selected_index == 0
        }),
{
    lemma_ranking(scores);
}

} // verus!
