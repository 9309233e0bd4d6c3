//! The switcher's state machine.
//!
//! A delegate is opened on a workspace, which records the visible tab of
//! every pane in scope and lists every open tab. While it is active, moving
//! the selection previews the selected tab, a query re-ranks the list, and a
//! tab can be closed from the list. Confirming or dismissing ends it: both
//! put every recorded pane back, and confirming then commits the chosen tab.
//!
//! The delegate never touches a pane. Each operation reads a snapshot of the
//! workspace and answers with the actions the host is to perform.

use crate::detail::{assign_details, with_details};
use crate::matches::{pick, select, views, TabMatch, TabMatchView};
use crate::ranking::{is_ranking, rank, ranking};
use crate::workspace::{PaneAction, Workspace, WorkspaceView};
use vstd::prelude::*;

verus! {

/// Where a popup stands in its life. `Confirmed` and `Dismissed` are final
/// and exclude each other.
#[derive(Clone, Copy, Debug, PartialEq, Eq)]
pub enum Phase {
    Active,
    Confirmed,
    Dismissed,
}

/// How a row offers its close button.
#[derive(Clone, Copy, Debug, PartialEq, Eq)]
pub enum CloseAffordance {
    /// The button takes the end of the row.
    Always,
    /// The tab's indicator takes the end of the row, and the button replaces
    /// it while the pointer is over the row.
    OnHover,
}

/// How a row's label is rendered.
#[derive(Clone, Copy, Debug, PartialEq, Eq)]
pub struct TabContentParams {
    pub detail: Option<usize>,
    pub selected: bool,
    pub preview: bool,
    pub deemphasized: bool,
}

/// What the list widget needs to draw one row.
#[derive(Debug, PartialEq, Eq)]
pub struct MatchRow {
    pub index: usize,
    pub label: String,
    pub params: TabContentParams,
    pub toggled: bool,
    pub close: CloseAffordance,
}

/// A request to score the candidates of one recomputation. The generation
/// is the token under which the scores are accepted later.
#[derive(Debug, PartialEq, Eq)]
pub struct ScoringRequest {
    pub generation: u64,
    pub query: String,
    pub candidates: Vec<TabMatch>,
}

/// What a dismissal asks of the host.
#[derive(Debug, PartialEq, Eq)]
pub struct Dismissal {
    /// The restoring activations, in record order.
    pub actions: Vec<PaneAction>,
    /// Whether the hosting container is to be told that the popup closed.
    pub notify: bool,
}

/// The state of one popup.
pub struct HarpoonDelegate {
    select_last: bool,
    selected_index: usize,
    pane: u64,
    matches: Vec<TabMatch>,
    original_items: Vec<(u64, usize)>,
    is_all_panes: bool,
    restored_items: bool,
    phase: Phase,
    generation: u64,
    awaiting: bool,
}

/// The mathematical value of a [`HarpoonDelegate`].
pub struct DelegateView {
    pub select_last: bool,
    pub selected_index: usize,
    pub pane: u64,
    pub matches: Seq<TabMatchView>,
    pub original_items: Seq<(u64, usize)>,
    pub is_all_panes: bool,
    pub restored_items: bool,
    pub phase: Phase,
    pub generation: u64,
    pub awaiting: bool,
}

/// The preview activation that puts a recorded pane back.
pub open spec fn restoring(entry: (u64, usize)) -> PaneAction {
    PaneAction::Activate { pane: entry.0, index: entry.1, permanent: false, focus: false }
}

/// Whether a recorded pane can be put back: it is alive and its strip still
/// reaches the recorded position.
pub open spec fn restorable(ws: WorkspaceView, entry: (u64, usize)) -> bool {
    match ws.pane_index(entry.0) {
        Some(at) => entry.1 < ws.panes[at].items.len(),
        None => false,
    }
}

/// The restoring activations for the first `n` entries of a record.
pub open spec fn restore_upto(ws: WorkspaceView, record: Seq<(u64, usize)>, n: int) -> Seq<
    PaneAction,
>
    decreases n,
{
    if n <= 0 {
        Seq::empty()
    } else if restorable(ws, record[n - 1]) {
        restore_upto(ws, record, n - 1).push(restoring(record[n - 1]))
    } else {
        restore_upto(ws, record, n - 1)
    }
}

impl DelegateView {
    /// The selection points into the list (or is 0 for an empty list), the
    /// guard flag is set exactly in the final phases, and a popup past its
    /// end holds no list and awaits no scores.
    pub open spec fn wf(self) -> bool {
        &&& if self.matches.len() == 0 {
            self.selected_index == 0
        } else {
            self.selected_index < self.matches.len()
        }
        &&& self.restored_items == !(self.phase is Active)
        &&& !(self.phase is Active) ==> self.matches.len() == 0 && !self.awaiting
    }

    /// The popup as it opens on `ws`: the record of visible tabs, the
    /// baseline list with its detail levels, and the first row selected.
    pub open spec fn opened(ws: WorkspaceView, pane: u64, select_last: bool, is_all_panes: bool) -> DelegateView {
        DelegateView {
            select_last,
            selected_index: 0,
            pane,
            matches: with_details(ws.candidates(pane, is_all_panes)),
            original_items: ws.original_items(pane, is_all_panes),
            is_all_panes,
            restored_items: false,
            phase: Phase::Active,
            generation: 0,
            awaiting: false,
        }
    }

    /// The pane and the position at which the tab of row `ix` still
    /// resolves: none when the index is out of range, the pane is gone, or
    /// the pane no longer holds the tab.
    pub open spec fn resolved(self, ws: WorkspaceView, ix: usize) -> Option<(u64, usize)> {
        if ix < self.matches.len() {
            let m = self.matches[ix as int];
            match ws.locate(m.pane, m.item.id) {
                Some(index) => Some((m.pane, index as usize)),
                None => None,
            }
        } else {
            None
        }
    }

    /// The preview activation for row `ix`: none when the index is out of
    /// range, the pane is gone, or the pane no longer holds the tab.
    pub open spec fn preview_action(self, ws: WorkspaceView, ix: usize) -> Option<PaneAction> {
        match self.resolved(ws, ix) {
            Some((pane, index)) => Some(
                PaneAction::Activate { pane, index, permanent: false, focus: false },
            ),
            None => None,
        }
    }

    /// The state after row `ix` was selected. An index out of range changes
    /// nothing.
    pub open spec fn selected(self, ix: usize) -> DelegateView {
        if ix < self.matches.len() {
            DelegateView { selected_index: ix, ..self }
        } else {
            self
        }
    }

    /// The activations that put every recorded pane back on its recorded
    /// tab, in record order.
    pub open spec fn restore_actions(self, ws: WorkspaceView) -> Seq<PaneAction> {
        restore_upto(ws, self.original_items, self.original_items.len() as int)
    }

    /// Whether a confirmation acts: the popup is active and a row is
    /// selected.
    pub open spec fn confirms(self) -> bool {
        self.phase is Active && self.selected_index < self.matches.len()
    }

    /// The permanent activation of the selected tab, if it still resolves.
    pub open spec fn commit_action(self, ws: WorkspaceView) -> Seq<PaneAction> {
        match self.resolved(ws, self.selected_index) {
            Some((pane, index)) => seq![
                PaneAction::Activate { pane, index, permanent: true, focus: true },
            ],
            None => Seq::empty(),
        }
    }

    /// What a confirmation asks of the host: every recorded pane back, then
    /// the selected tab committed.
    pub open spec fn confirm_actions(self, ws: WorkspaceView) -> Seq<PaneAction> {
        if self.confirms() {
            self.restore_actions(ws) + self.commit_action(ws)
        } else {
            Seq::empty()
        }
    }

    /// The popup after it ended in `phase`: guarded, without list.
    pub open spec fn ended(self, phase: Phase) -> DelegateView {
        DelegateView {
            selected_index: 0,
            matches: Seq::empty(),
            restored_items: true,
            phase,
            awaiting: false,
            ..self
        }
    }

    /// The state after a confirmation.
    pub open spec fn after_confirm(self) -> DelegateView {
        if self.confirms() {
            self.ended(Phase::Confirmed)
        } else {
            self
        }
    }

    /// What a dismissal asks of the host: nothing once the guard is set.
    pub open spec fn dismiss_actions(self, ws: WorkspaceView) -> Seq<PaneAction> {
        if self.restored_items {
            Seq::empty()
        } else {
            self.restore_actions(ws)
        }
    }

    /// The state after a dismissal.
    pub open spec fn after_dismiss(self) -> DelegateView {
        if self.restored_items {
            self
        } else {
            self.ended(Phase::Dismissed)
        }
    }

    /// The close action for row `ix`: none when the index is out of range,
    /// the pane is gone, or the pane no longer holds the tab.
    pub open spec fn close_action(self, ws: WorkspaceView, ix: usize) -> Option<PaneAction> {
        match self.resolved(ws, ix) {
            Some((pane, index)) => Some(PaneAction::Close { pane, index }),
            None => None,
        }
    }

    /// The state after row `ix` was closed: the row is gone, later rows
    /// moved up by one, the selection is clamped, and scores still awaited
    /// are no longer accepted.
    pub open spec fn after_close(self, ix: usize) -> DelegateView {
        if ix < self.matches.len() {
            let rest = self.matches.remove(ix as int);
            DelegateView {
                matches: rest,
                selected_index: if self.selected_index < rest.len() {
                    self.selected_index
                } else if rest.len() == 0 {
                    0
                } else {
                    (rest.len() - 1) as usize
                },
                awaiting: false,
                ..self
            }
        } else {
            self
        }
    }

    /// Whether a query leads to a scoring request.
    pub open spec fn issues(self, query: Seq<char>) -> bool {
        self.phase is Active && query.len() > 0 && self.generation < u64::MAX
    }

    /// The state after a query arrived. An empty query installs the
    /// baseline list at once. Any other query starts a new generation and
    /// leaves the list alone until its scores arrive; once the generations
    /// are used up it only cancels the request in flight.
    pub open spec fn after_update(self, query: Seq<char>, ws: WorkspaceView) -> DelegateView {
        if !(self.phase is Active) {
            self
        } else if query.len() == 0 {
            DelegateView {
                matches: with_details(ws.candidates(self.pane, self.is_all_panes)),
                selected_index: 0,
                awaiting: false,
                ..self
            }
        } else if self.generation < u64::MAX {
            DelegateView { generation: (self.generation + 1) as u64, awaiting: true, ..self }
        } else {
            DelegateView { awaiting: false, ..self }
        }
    }

    /// Whether scores that come back under `generation` are applied: they
    /// answer the latest request, which nothing has superseded, and there is
    /// one score per candidate.
    pub open spec fn accepts(self, generation: u64, candidates: nat, scores: nat) -> bool {
        self.phase is Active && self.awaiting && generation == self.generation && candidates
            == scores
    }

    /// The state after scores came back. Accepted scores replace the list
    /// as a whole; others leave no trace.
    pub open spec fn after_resume(
        self,
        generation: u64,
        candidates: Seq<TabMatchView>,
        scores: Seq<Option<u64>>,
    ) -> DelegateView {
        if self.accepts(generation, candidates.len(), scores.len()) {
            DelegateView {
                matches: with_details(pick(candidates, ranking(scores))),
                selected_index: 0,
                awaiting: false,
                ..self
            }
        } else {
            self
        }
    }
}

impl View for HarpoonDelegate {
    type V = DelegateView;

    closed spec fn view(&self) -> DelegateView {
        DelegateView {
            select_last: self.select_last,
            selected_index: self.selected_index,
            pane: self.pane,
            matches: views(self.matches@),
            original_items: self.original_items@,
            is_all_panes: self.is_all_panes,
            restored_items: self.restored_items,
            phase: self.phase,
            generation: self.generation,
            awaiting: self.awaiting,
        }
    }
}

impl HarpoonDelegate {
    /// Opens a popup on `workspace`, scoped to the pane `pane` or to all
    /// panes. Only reads the workspace.
    pub fn new(workspace: &Workspace, pane: u64, select_last: bool, is_all_panes: bool) -> (delegate: Self)
        ensures
            delegate@ == DelegateView::opened(workspace@, pane, select_last, is_all_panes),
            delegate@.wf(),
    {
        let original_items = workspace.original_items(pane, is_all_panes);
        let mut matches = workspace.candidates(pane, is_all_panes);
        assign_details(&mut matches);
        HarpoonDelegate {
            select_last,
            selected_index: 0,
            pane,
            matches,
            original_items,
            is_all_panes,
            restored_items: false,
            phase: Phase::Active,
            generation: 0,
            awaiting: false,
        }
    }

    pub fn placeholder_text(&self) -> (text: &'static str)
        ensures
            text@ == "Search all tabs…"@,
    {
        "Search all tabs…"
    }

    pub fn no_matches_text(&self) -> (text: Option<&'static str>)
        ensures
            text matches Some(t) && t@ == "No tabs"@,
    {
        Some("No tabs")
    }

    pub fn match_count(&self) -> (count: usize)
        ensures
            count == self@.matches.len(),
    {
        self.matches.len()
    }

    pub fn selected_index(&self) -> (ix: usize)
        ensures
            ix == self@.selected_index,
    {
        self.selected_index
    }

    /// The list has no separators.
    pub fn separators_after_indices(&self) -> (indices: Vec<usize>)
        ensures
            indices@.len() == 0,
    {
        Vec::new()
    }

    pub fn select_last(&self) -> (flag: bool)
        ensures
            flag == self@.select_last,
    {
        self.select_last
    }

    pub fn is_all_panes(&self) -> (flag: bool)
        ensures
            flag == self@.is_all_panes,
    {
        self.is_all_panes
    }

    pub fn pane(&self) -> (pane: u64)
        ensures
            pane == self@.pane,
    {
        self.pane
    }

    pub fn restored_items(&self) -> (flag: bool)
        ensures
            flag == self@.restored_items,
    {
        self.restored_items
    }

    pub fn phase(&self) -> (phase: Phase)
        ensures
            phase == self@.phase,
    {
        self.phase
    }

    pub fn generation(&self) -> (generation: u64)
        ensures
            generation == self@.generation,
    {
        self.generation
    }

    /// Whether scores of the latest request are still awaited.
    pub fn awaiting(&self) -> (flag: bool)
        ensures
            flag == self@.awaiting,
    {
        self.awaiting
    }

    /// The current list.
    pub fn matches(&self) -> (list: &Vec<TabMatch>)
        ensures
            views(list@) == self@.matches,
    {
        &self.matches
    }

    /// The record of the visible tabs at opening time.
    pub fn original_items(&self) -> (record: &Vec<(u64, usize)>)
        ensures
            record@ == self@.original_items,
    {
        &self.original_items
    }

    fn is_active(&self) -> (active: bool)
        ensures
            active == (self@.phase is Active),
    {
        match self.phase {
            Phase::Active => true,
            _ => false,
        }
    }

    /// The pane and position at which row `ix` still resolves.
    fn resolve(&self, workspace: &Workspace, ix: usize) -> (found: Option<(u64, usize)>)
        ensures
            found == self@.resolved(workspace@, ix),
    {
        if ix < self.matches.len() {
            let m = &self.matches[ix];
            assert(self@.matches[ix as int] == m@);
            match workspace.locate(m.pane, m.item.id) {
                Some(index) => Some((m.pane, index)),
                None => None,
            }
        } else {
            None
        }
    }

    fn restore_actions(&self, workspace: &Workspace) -> (actions: Vec<PaneAction>)
        ensures
            actions@ == self@.restore_actions(workspace@),
    {
        let mut actions: Vec<PaneAction> = Vec::new();
        let mut n: usize = 0;
        while n < self.original_items.len()
            invariant
                n <= self.original_items.len(),
                actions@ == restore_upto(workspace@, self.original_items@, n as int),
            decreases self.original_items.len() - n,
        {
            let entry = self.original_items[n];
            let live = match workspace.pane_index(entry.0) {
                Some(at) => {
                    assert(workspace@.panes[at as int] == workspace.panes[at as int]@);
                    entry.1 < workspace.panes[at].items.len()
                },
                None => false,
            };
            assert(live == restorable(workspace@, entry));
            if live {
                actions.push(
                    PaneAction::Activate {
                        pane: entry.0,
                        index: entry.1,
                        permanent: false,
                        focus: false,
                    },
                );
            }
            n += 1;
        }
        actions
    }

    fn end(&mut self, phase: Phase)
        ensures
            final(self)@ == old(self)@.ended(phase),
    {
        self.matches = Vec::new();
        self.selected_index = 0;
        self.restored_items = true;
        self.phase = phase;
        self.awaiting = false;
        assert(views(self.matches@) =~= Seq::<TabMatchView>::empty());
    }

    /// Selects row `ix` and previews its tab.
    ///
    /// The answer is the preview activation for the host to perform: not
    /// permanent, without focus. There is none when the tab no longer
    /// resolves; the selection moves all the same. An index out of range
    /// changes nothing.
    pub fn set_selected_index(&mut self, ix: usize, workspace: &Workspace) -> (action: Option<
        PaneAction,
    >)
        ensures
            final(self)@ == old(self)@.selected(ix),
            action == old(self)@.preview_action(workspace@, ix),
            old(self)@.wf() ==> final(self)@.wf(),
    {
        if ix >= self.matches.len() {
            return None;
        }
        let found = self.resolve(workspace, ix);
        self.selected_index = ix;
        match found {
            Some((pane, index)) => Some(
                PaneAction::Activate { pane, index, permanent: false, focus: false },
            ),
            None => None,
        }
    }

    /// Handles a query.
    ///
    /// An empty query installs the baseline list at once. Any other query
    /// supersedes the request in flight, if any, and answers with a new
    /// request: the host scores each candidate's label against the query and
    /// hands the scores to [`Self::resume_matches`]. A popup that has ended
    /// ignores the query; one that has used up its generations cancels the
    /// request in flight and issues none.
    pub fn update_matches(&mut self, raw_query: String, workspace: &Workspace) -> (request: Option<
        ScoringRequest,
    >)
        ensures
            final(self)@ == old(self)@.after_update(raw_query@, workspace@),
            match request {
                Some(r) => old(self)@.issues(raw_query@) && r.generation == old(self)@.generation
                    + 1 && r.query@ == raw_query@ && views(r.candidates@)
                    == workspace@.candidates(old(self)@.pane, old(self)@.is_all_panes),
                None => !old(self)@.issues(raw_query@),
            },
            old(self)@.wf() ==> final(self)@.wf(),
    {
        if !self.is_active() {
            return None;
        }
        if raw_query.as_str().is_empty() {
            let mut matches = workspace.candidates(self.pane, self.is_all_panes);
            assign_details(&mut matches);
            self.matches = matches;
            self.selected_index = 0;
            self.awaiting = false;
            return None;
        }
        if self.generation == u64::MAX {
            self.awaiting = false;
            return None;
        }
        self.generation = self.generation + 1;
        self.awaiting = true;
        let candidates = workspace.candidates(self.pane, self.is_all_panes);
        Some(ScoringRequest { generation: self.generation, query: raw_query, candidates })
    }

    /// Takes the scores for `request`, one per candidate and in candidate
    /// order, with no score for a candidate the matcher rejected.
    ///
    /// Scores for the latest request replace the list: the accepted
    /// candidates by descending score, ties in baseline order, detail levels
    /// assigned anew, first row selected. Scores for a superseded request, or
    /// for a popup that has ended, are dropped and change nothing.
    pub fn resume_matches(&mut self, request: &ScoringRequest, scores: &Vec<Option<u64>>) -> (applied: bool)
        ensures
            applied == old(self)@.accepts(
                request.generation,
                request.candidates@.len(),
                scores@.len(),
            ),
            final(self)@ == old(self)@.after_resume(
                request.generation,
                views(request.candidates@),
                scores@,
            ),
            applied ==> is_ranking(ranking(scores@), scores@),
            old(self)@.wf() ==> final(self)@.wf(),
    {
        if !self.is_active() || !self.awaiting || request.generation != self.generation
            || request.candidates.len() != scores.len() {
            return false;
        }
        let order = rank(scores);
        let mut matches = select(&request.candidates, &order);
        assign_details(&mut matches);
        self.matches = matches;
        self.selected_index = 0;
        self.awaiting = false;
        true
    }

    /// Confirms the selected row.
    ///
    /// Without a selected row, or after the popup has ended, nothing
    /// happens. Otherwise the answer puts every recorded pane back with a
    /// preview activation and then activates the chosen tab permanently and
    /// with focus, if it still resolves; the popup ends as confirmed.
    pub fn confirm(&mut self, secondary: bool, workspace: &Workspace) -> (actions: Vec<PaneAction>)
        ensures
            actions@ == old(self)@.confirm_actions(workspace@),
            final(self)@ == old(self)@.after_confirm(),
            old(self)@.wf() ==> final(self)@.wf(),
    {
        if !self.is_active() || self.selected_index >= self.matches.len() {
            return Vec::new();
        }
        let mut actions = self.restore_actions(workspace);
        let ghost restore = actions@;
        match self.resolve(workspace, self.selected_index) {
            Some((pane, index)) => {
                actions.push(PaneAction::Activate { pane, index, permanent: true, focus: true });
            },
            None => {},
        }
        assert(actions@ =~= restore + self@.commit_action(workspace@));
        self.end(Phase::Confirmed);
        actions
    }

    /// Dismisses the popup.
    ///
    /// The first dismissal of an unconfirmed popup puts every recorded pane
    /// back and tells the host to close. Once the guard is set, by a
    /// confirmation or by an earlier dismissal, nothing happens.
    pub fn dismissed(&mut self, workspace: &Workspace) -> (outcome: Dismissal)
        ensures
            outcome.actions@ == old(self)@.dismiss_actions(workspace@),
            outcome.notify == !old(self)@.restored_items,
            final(self)@ == old(self)@.after_dismiss(),
            old(self)@.wf() ==> final(self)@.wf(),
    {
        if self.restored_items {
            return Dismissal { actions: Vec::new(), notify: false };
        }
        let actions = self.restore_actions(workspace);
        self.end(Phase::Dismissed);
        Dismissal { actions, notify: true }
    }

    /// Closes the tab of row `ix` and takes the row off the list.
    ///
    /// The answer is the close action for the host to perform; there is none
    /// when the tab no longer resolves, and the row leaves the list all the
    /// same. An index out of range changes nothing.
    pub fn close_item_at(&mut self, ix: usize, workspace: &Workspace) -> (action: Option<
        PaneAction,
    >)
        ensures
            action == old(self)@.close_action(workspace@, ix),
            final(self)@ == old(self)@.after_close(ix),
            old(self)@.wf() ==> final(self)@.wf(),
    {
        if ix >= self.matches.len() {
            return None;
        }
        let found = self.resolve(workspace, ix);
        let ghost before = self.matches@;
        self.matches.remove(ix);
        assert(views(self.matches@) =~= views(before).remove(ix as int));
        let left = self.matches.len();
        if self.selected_index >= left {
            self.selected_index = if left == 0 {
                0
            } else {
                left - 1
            };
        }
        self.awaiting = false;
        match found {
            Some((pane, index)) => Some(PaneAction::Close { pane, index }),
            None => None,
        }
    }

    /// What the list widget needs to draw row `ix`, or nothing for an index
    /// out of range. The label is rendered at the row's detail level; the
    /// selected row shows its close button at all times.
    pub fn render_match(&self, ix: usize, selected: bool) -> (row: Option<MatchRow>)
        ensures
            match row {
                Some(r) => ix < self@.matches.len() && r.index == ix && r.label@
                    == self@.matches[ix as int].label() && r.params == (TabContentParams {
                    detail: Some(self@.matches[ix as int].detail),
                    selected: true,
                    preview: self@.matches[ix as int].preview,
                    deemphasized: false,
                }) && r.toggled == selected && r.close == (if self@.selected_index == ix {
                    CloseAffordance::Always
                } else {
                    CloseAffordance::OnHover
                }),
                None => ix >= self@.matches.len(),
            },
    {
        if ix >= self.matches.len() {
            return None;
        }
        let m = &self.matches[ix];
        assert(self@.matches[ix as int] == m@);
        let params = TabContentParams {
            detail: Some(m.detail),
            selected: true,
            preview: m.preview,
            deemphasized: false,
        };
        let close = if self.selected_index == ix {
            CloseAffordance::Always
        } else {
            CloseAffordance::OnHover
        };
        Some(MatchRow { index: ix, label: m.label(), params, toggled: selected, close })
    }
}

} // verus!
