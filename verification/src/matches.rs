//! Candidates: one entry per open tab in scope.
//!
//! The baseline enumeration walks the panes in pane order and each pane's
//! tabs in strip order. It only reads the workspace.

use crate::workspace::{Pane, PaneView, Tab, TabView, Workspace, WorkspaceView};
use vstd::prelude::*;

verus! {

/// One candidate of the match list.
///
/// `pane` names the owning pane without keeping it alive, `item_index` is
/// the tab's position at enumeration time and serves as context only: later
/// lookups go by the identity of `item`.
#[derive(Debug, PartialEq, Eq)]
pub struct TabMatch {
    pub pane: u64,
    pub item_index: usize,
    pub item: Tab,
    pub detail: usize,
    pub preview: bool,
}

/// The mathematical value of a [`TabMatch`].
pub struct TabMatchView {
    pub pane: u64,
    pub item_index: usize,
    pub item: TabView,
    pub detail: usize,
    pub preview: bool,
}

impl TabMatchView {
    /// The label the candidate renders at its detail level.
    pub open spec fn label(self) -> Seq<char> {
        self.item.label(self.detail)
    }

    /// Whether the candidate stands for the tab `item` of the pane `pane`.
    pub open spec fn names(self, pane: u64, item: u64) -> bool {
        self.pane == pane && self.item.id == item
    }
}

impl View for TabMatch {
    type V = TabMatchView;

    open spec fn view(&self) -> TabMatchView {
        TabMatchView {
            pane: self.pane,
            item_index: self.item_index,
            item: self.item@,
            detail: self.detail,
            preview: self.preview,
        }
    }
}

impl Clone for TabMatch {
    fn clone(&self) -> (res: Self)
        ensures
            res@ == self@,
    {
        TabMatch {
            pane: self.pane,
            item_index: self.item_index,
            item: self.item.clone(),
            detail: self.detail,
            preview: self.preview,
        }
    }
}

impl TabMatch {
    /// The label the candidate renders at its detail level.
    pub fn label(&self) -> (text: String)
        ensures
            text@ == self@.label(),
    {
        self.item.label(self.detail)
    }
}

/// The values of a list of candidates.
pub open spec fn views(list: Seq<TabMatch>) -> Seq<TabMatchView> {
    list.map_values(|m: TabMatch| m@)
}

/// The candidates at the positions `order`, in that order.
pub open spec fn pick(candidates: Seq<TabMatchView>, order: Seq<usize>) -> Seq<TabMatchView> {
    Seq::new(order.len(), |k: int| candidates[order[k] as int])
}

impl PaneView {
    /// The candidate for the tab at `index` of this pane, at the minimal
    /// detail level.
    pub open spec fn candidate(self, index: int) -> TabMatchView {
        TabMatchView {
            pane: self.id,
            item_index: index as usize,
            item: self.items[index],
            detail: 0,
            preview: self.items[index].preview,
        }
    }

    /// One candidate per tab of this pane, in strip order.
    pub open spec fn candidates(self) -> Seq<TabMatchView> {
        Seq::new(self.items.len(), |index: int| self.candidate(index))
    }
}

impl WorkspaceView {
    /// The candidates of the first `n` panes, pane after pane.
    pub open spec fn candidates_upto(self, n: int) -> Seq<TabMatchView>
        decreases n,
    {
        if n <= 0 {
            Seq::empty()
        } else {
            self.candidates_upto(n - 1) + self.panes[n - 1].candidates()
        }
    }

    /// The baseline enumeration: every open tab in scope, in pane order and
    /// then strip order. The scope is every pane, or the pane `pane` alone
    /// for as long as it exists.
    pub open spec fn candidates(self, pane: u64, all_panes: bool) -> Seq<TabMatchView> {
        if all_panes {
            self.candidates_upto(self.panes.len() as int)
        } else {
            match self.pane_index(pane) {
                Some(at) => self.panes[at].candidates(),
                None => Seq::empty(),
            }
        }
    }

    /// The visible tab of every pane in scope, as pairs of a pane and a
    /// position in its strip.
    pub open spec fn original_items(self, pane: u64, all_panes: bool) -> Seq<(u64, usize)> {
        if all_panes {
            self.panes.map_values(|p: PaneView| (p.id, p.active))
        } else {
            match self.pane_index(pane) {
                Some(at) => seq![(self.panes[at].id, self.panes[at].active)],
                None => Seq::empty(),
            }
        }
    }
}

/// Every candidate of the first `n` panes stands for a tab that one of those
/// panes holds.
pub proof fn lemma_candidates_upto(ws: WorkspaceView, n: int, k: int)
    requires
        0 <= n <= ws.panes.len(),
        0 <= k < ws.candidates_upto(n).len(),
    ensures
        exists|at: int, index: int|
            0 <= at < n && 0 <= index < ws.panes[at].items.len() && ws.candidates_upto(n)[k]
                == #[trigger] ws.panes[at].candidate(index),
    decreases n,
{
    if n > 0 {
        let before = ws.candidates_upto(n - 1);
        if k < before.len() {
            lemma_candidates_upto(ws, n - 1, k);
            let (at, index) = choose|at: int, index: int|
                0 <= at < n - 1 && 0 <= index < ws.panes[at].items.len() && before[k]
                    == #[trigger] ws.panes[at].candidate(index);
            assert(ws.candidates_upto(n)[k] == ws.panes[at].candidate(index));
        } else {
            let index = k - before.len();
            assert(ws.candidates_upto(n)[k] == ws.panes[n - 1].candidate(index));
        }
    }
}

/// Every candidate of the baseline enumeration stands for a tab that a live
/// pane holds.
pub proof fn lemma_candidates(ws: WorkspaceView, pane: u64, all_panes: bool, k: int)
    requires
        0 <= k < ws.candidates(pane, all_panes).len(),
    ensures
        exists|at: int, index: int|
            0 <= at < ws.panes.len() && 0 <= index < ws.panes[at].items.len() && ws.candidates(
                pane,
                all_panes,
            )[k] == #[trigger] ws.panes[at].candidate(index),
{
    if all_panes {
        lemma_candidates_upto(ws, ws.panes.len() as int, k);
    } else {
        ws.pane_ids().index_of_first_ensures(pane);
        let at = ws.pane_index(pane).unwrap();
        assert(ws.candidates(pane, all_panes)[k] == ws.panes[at].candidate(k));
    }
}

impl Pane {
    /// Appends one candidate per tab of this pane to `out`.
    pub fn push_candidates(&self, out: &mut Vec<TabMatch>)
        ensures
            views(final(out)@) == views(old(out)@) + self@.candidates(),
    {
        let mut index: usize = 0;
        while index < self.items.len()
            invariant
                index <= self.items.len(),
                views(out@) == views(old(out)@) + self@.candidates().take(index as int),
            decreases self.items.len() - index,
        {
            let item = self.items[index].clone();
            let preview = item.preview;
            let entry = TabMatch { pane: self.id, item_index: index, item, detail: 0, preview };
            let ghost before = out@;
            out.push(entry);
            proof {
                assert(entry@ == self@.candidate(index as int));
                assert(views(out@) =~= views(before).push(entry@));
                assert(self@.candidates().take(index + 1) =~= self@.candidates().take(
                    index as int,
                ).push(self@.candidate(index as int)));
                assert(views(out@) =~= views(old(out)@) + self@.candidates().take(index + 1));
            }
            index += 1;
        }
        assert(self@.candidates().take(index as int) =~= self@.candidates());
    }
}

impl Workspace {
    /// The baseline enumeration of the tabs in scope.
    pub fn candidates(&self, pane: u64, all_panes: bool) -> (list: Vec<TabMatch>)
        ensures
            views(list@) == self@.candidates(pane, all_panes),
    {
        let mut list: Vec<TabMatch> = Vec::new();
        assert(views(list@) =~= Seq::<TabMatchView>::empty());
        if all_panes {
            let mut at: usize = 0;
            while at < self.panes.len()
                invariant
                    at <= self.panes.len(),
                    views(list@) == self@.candidates_upto(at as int),
                decreases self.panes.len() - at,
            {
                self.panes[at].push_candidates(&mut list);
                proof {
                    assert(self@.panes[at as int] == self.panes[at as int]@);
                }
                at += 1;
            }
        } else {
            match self.pane_index(pane) {
                Some(at) => {
                    self.panes[at].push_candidates(&mut list);
                    proof {
                        assert(self@.panes[at as int] == self.panes[at as int]@);
                        assert(views(list@) =~= self@.panes[at as int].candidates());
                    }
                },
                None => {},
            }
        }
        list
    }

    /// The visible tab of every pane in scope.
    pub fn original_items(&self, pane: u64, all_panes: bool) -> (record: Vec<(u64, usize)>)
        ensures
            record@ == self@.original_items(pane, all_panes),
    {
        let mut record: Vec<(u64, usize)> = Vec::new();
        if all_panes {
            let mut at: usize = 0;
            while at < self.panes.len()
                invariant
                    at <= self.panes.len(),
                    record@.len() == at,
                    forall|k: int|
                        0 <= k < at ==> record@[k] == (self@.panes[k].id, self@.panes[k].active),
                decreases self.panes.len() - at,
            {
                record.push((self.panes[at].id, self.panes[at].active));
                at += 1;
            }
            assert(record@ =~= self@.original_items(pane, all_panes));
        } else {
            match self.pane_index(pane) {
                Some(at) => {
                    record.push((self.panes[at].id, self.panes[at].active));
                    assert(record@ =~= self@.original_items(pane, all_panes));
                },
                None => {
                    assert(record@ =~= self@.original_items(pane, all_panes));
                },
            }
        }
        record
    }
}

/// The candidates at the positions `order`, in that order.
pub fn select(candidates: &Vec<TabMatch>, order: &Vec<usize>) -> (list: Vec<TabMatch>)
    requires
        forall|k: int| 0 <= k < order.len() ==> (#[trigger] order[k]) < candidates.len(),
    ensures
        views(list@) == pick(views(candidates@), order@),
{
    let mut list: Vec<TabMatch> = Vec::new();
    let mut k: usize = 0;
    while k < order.len()
        invariant
            k <= order.len(),
            list.len() == k,
            forall|k: int| 0 <= k < order.len() ==> (#[trigger] order[k]) < candidates.len(),
            forall|j: int| 0 <= j < k ==> (#[trigger] list[j])@ == candidates[order[j] as int]@,
        decreases order.len() - k,
    {
        list.push(candidates[order[k]].clone());
        k += 1;
    }
    assert(views(list@) =~= pick(views(candidates@), order@));
    list
}

} // verus!
