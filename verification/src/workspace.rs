//! A plain-value model of the panes and tabs a switcher works on.
//!
//! A pane is an ordered strip of tabs with one visible tab. Tabs and panes
//! are known by integer handles; whether a handle still resolves is an
//! existence lookup, so every consumer branches on liveness.

use vstd::prelude::*;

verus! {

/// An open document: its identity, the label it renders at each detail
/// level (index 0 is the shortest), and whether it is an unpinned preview tab.
#[derive(Debug, PartialEq, Eq)]
pub struct Tab {
    pub id: u64,
    pub labels: Vec<String>,
    pub preview: bool,
}

/// The mathematical value of a [`Tab`].
pub struct TabView {
    pub id: u64,
    pub labels: Seq<Seq<char>>,
    pub preview: bool,
}

impl TabView {
    /// The label rendered at `detail`: the entry of that level, the last
    /// entry once the levels run out, and the empty text for a tab without
    /// labels.
    pub open spec fn label(self, detail: usize) -> Seq<char> {
        if self.labels.len() == 0 {
            Seq::empty()
        } else if detail < self.labels.len() {
            self.labels[detail as int]
        } else {
            self.labels.last()
        }
    }
}

impl View for Tab {
    type V = TabView;

    open spec fn view(&self) -> TabView {
        TabView {
            id: self.id,
            labels: self.labels@.map_values(|s: String| s@),
            preview: self.preview,
        }
    }
}

impl Clone for Tab {
    fn clone(&self) -> (res: Self)
        ensures
            res@ == self@,
    {
        let mut labels: Vec<String> = Vec::new();
        let mut i: usize = 0;
        while i < self.labels.len()
            invariant
                i <= self.labels.len(),
                labels.len() == i,
                forall|j: int| 0 <= j < i ==> labels[j]@ == self.labels[j]@,
            decreases self.labels.len() - i,
        {
            labels.push(self.labels[i].clone());
            i += 1;
        }
        let res = Tab { id: self.id, labels, preview: self.preview };
        assert(res@.labels =~= self@.labels);
        res
    }
}

impl Tab {
    pub fn new(id: u64, labels: Vec<String>, preview: bool) -> (tab: Tab)
        ensures
            tab.id == id,
            tab.labels == labels,
            tab.preview == preview,
    {
        Tab { id, labels, preview }
    }

    /// The label this tab renders at `detail`.
    pub fn label(&self, detail: usize) -> (text: String)
        ensures
            text@ == self@.label(detail),
    {
        let n = self.labels.len();
        if n == 0 {
            String::new()
        } else if detail < n {
            self.labels[detail].clone()
        } else {
            self.labels[n - 1].clone()
        }
    }

    /// Whether this tab at `detail` renders the same text as `other` at
    /// `other_detail`.
    pub fn same_label(&self, detail: usize, other: &Tab, other_detail: usize) -> (same: bool)
        ensures
            same == (self@.label(detail) == other@.label(other_detail)),
    {
        let a = self.label(detail);
        let b = other.label(other_detail);
        a == b
    }
}

/// Where an index lands after the item at `closed` left a strip that held
/// `len_before` items: indices behind the gap move down by one, and an index
/// on the last item falls back to the new last item.
pub open spec fn slide(current: usize, closed: usize, len_before: nat) -> usize {
    if closed < current || (current + 1 == len_before && current > 0) {
        (current - 1) as usize
    } else {
        current
    }
}

/// A strip of tabs: which one is visible (`active`), which one was last
/// activated permanently (`committed`), and whether the strip took focus.
#[derive(Debug, PartialEq, Eq)]
pub struct Pane {
    pub id: u64,
    pub items: Vec<Tab>,
    pub active: usize,
    pub committed: usize,
    pub focused: bool,
}

/// The mathematical value of a [`Pane`].
pub struct PaneView {
    pub id: u64,
    pub items: Seq<TabView>,
    pub active: usize,
    pub committed: usize,
    pub focused: bool,
}

impl PaneView {
    pub open spec fn item_ids(self) -> Seq<u64> {
        self.items.map_values(|t: TabView| t.id)
    }

    /// An index into the strip, or 0 when the strip is empty.
    pub open spec fn holds(self, index: usize) -> bool {
        if self.items.len() == 0 {
            index == 0
        } else {
            index < self.items.len()
        }
    }

    /// No tab occurs twice, both marks point into the strip, and the strip
    /// is no longer than a machine can hold.
    pub open spec fn wf(self) -> bool {
        &&& self.items.len() <= usize::MAX
        &&& self.item_ids().no_duplicates()
        &&& self.holds(self.active)
        &&& self.holds(self.committed)
    }

    /// The position of the tab `item`, if the strip still contains it.
    pub open spec fn index_for_item(self, item: u64) -> Option<int> {
        self.item_ids().index_of_first(item)
    }

    /// The strip after `index` was activated. An index outside the strip
    /// changes nothing. A preview activation (`permanent == false`) moves
    /// only the visible mark.
    pub open spec fn activate(self, index: usize, permanent: bool, focus: bool) -> PaneView {
        if index < self.items.len() {
            PaneView {
                active: index,
                committed: if permanent {
                    index
                } else {
                    self.committed
                },
                focused: self.focused || focus,
                ..self
            }
        } else {
            self
        }
    }

    /// The strip after the tab at `index` was closed. An index outside the
    /// strip changes nothing.
    pub open spec fn close(self, index: usize) -> PaneView {
        if index < self.items.len() {
            PaneView {
                items: self.items.remove(index as int),
                active: slide(self.active, index, self.items.len()),
                committed: slide(self.committed, index, self.items.len()),
                ..self
            }
        } else {
            self
        }
    }
}

impl View for Pane {
    type V = PaneView;

    open spec fn view(&self) -> PaneView {
        PaneView {
            id: self.id,
            items: self.items@.map_values(|t: Tab| t@),
            active: self.active,
            committed: self.committed,
            focused: self.focused,
        }
    }
}

/// Removing one entry of a sequence without duplicates leaves none.
pub proof fn lemma_remove_keeps_distinct(ids: Seq<u64>, index: int)
    requires
        ids.no_duplicates(),
        0 <= index < ids.len(),
    ensures
        ids.remove(index).no_duplicates(),
        !ids.remove(index).contains(ids[index]),
{
    let rest = ids.remove(index);
    assert forall|i: int, j: int| 0 <= i < rest.len() && 0 <= j < rest.len() && i != j implies rest[i]
        != rest[j] by {
        let si = if i < index { i } else { i + 1 };
        let sj = if j < index { j } else { j + 1 };
        assert(rest[i] == ids[si]);
        assert(rest[j] == ids[sj]);
    }
    assert forall|i: int| 0 <= i < rest.len() implies rest[i] != ids[index] by {
        let si = if i < index { i } else { i + 1 };
        assert(rest[i] == ids[si]);
    }
}

impl Pane {
    /// An empty strip.
    pub fn new(id: u64) -> (pane: Pane)
        ensures
            pane@.id == id,
            pane@.items.len() == 0,
            pane@.active == 0,
            pane@.committed == 0,
            !pane@.focused,
            pane@.wf(),
    {
        let pane = Pane { id, items: Vec::new(), active: 0, committed: 0, focused: false };
        assert(pane@.item_ids() =~= Seq::<u64>::empty());
        pane
    }

    /// Appends `tab` unless the strip already holds a tab of that identity.
    /// The marks do not move.
    pub fn add_item(&mut self, tab: Tab) -> (added: bool)
        ensures
            added == old(self)@.index_for_item(tab.id).is_none(),
            added ==> final(self)@ == (PaneView {
                items: old(self)@.items.push(tab@),
                ..old(self)@
            }),
            !added ==> final(self)@ == old(self)@,
            old(self)@.wf() ==> final(self)@.wf(),
    {
        let found = self.index_for_item(tab.id);
        if found.is_some() {
            return false;
        }
        let ghost before = self@;
        let ghost id = tab.id;
        let ghost tv = tab@;
        self.items.push(tab);
        let held = self.items.len();
        proof {
            assert(self@.items.len() == held);
            assert(self@.items =~= before.items.push(tv));
            assert(self@.item_ids() =~= before.item_ids().push(id));
            before.item_ids().index_of_first_ensures(id);
            if before.wf() {
                let ids = self@.item_ids();
                assert forall|i: int, j: int| 0 <= i < ids.len() && 0 <= j < ids.len() && i != j implies ids[i]
                    != ids[j] by {
                    if i < before.item_ids().len() {
                        assert(before.item_ids().contains(ids[i]));
                    }
                    if j < before.item_ids().len() {
                        assert(before.item_ids().contains(ids[j]));
                    }
                }
            }
        }
        true
    }

    /// The position of the tab `item`, if the strip still contains it.
    pub fn index_for_item(&self, item: u64) -> (found: Option<usize>)
        ensures
            match found {
                Some(i) => self@.index_for_item(item) == Some(i as int) && i < self.items.len()
                    && self.items[i as int].id == item,
                None => self@.index_for_item(item).is_none(),
            },
    {
        let ghost ids = self@.item_ids();
        let mut i: usize = 0;
        while i < self.items.len()
            invariant
                i <= self.items.len(),
                ids == self@.item_ids(),
                forall|j: int| 0 <= j < i ==> ids[j] != item,
            decreases self.items.len() - i,
        {
            if self.items[i].id == item {
                proof {
                    assert(ids[i as int] == item);
                    ids.index_of_first_ensures(item);
                }
                return Some(i);
            }
            i += 1;
        }
        proof {
            ids.index_of_first_ensures(item);
        }
        None
    }

    /// Makes the tab at `index` the visible one. A permanent activation also
    /// commits it; a preview activation does not.
    pub fn activate_item(&mut self, index: usize, permanent: bool, focus: bool)
        ensures
            final(self)@ == old(self)@.activate(index, permanent, focus),
            old(self)@.wf() ==> final(self)@.wf(),
    {
        if index < self.items.len() {
            self.active = index;
            if permanent {
                self.committed = index;
            }
            if focus {
                self.focused = true;
            }
        }
    }

    /// Removes the tab at `index` from the strip.
    pub fn close_item(&mut self, index: usize)
        ensures
            final(self)@ == old(self)@.close(index),
            old(self)@.wf() ==> final(self)@.wf(),
    {
        let n = self.items.len();
        if index < n {
            let ghost before = self@;
            self.items.remove(index);
            if index < self.active || (self.active + 1 == n && self.active > 0) {
                self.active = self.active - 1;
            }
            if index < self.committed || (self.committed + 1 == n && self.committed > 0) {
                self.committed = self.committed - 1;
            }
            proof {
                assert(self@.items =~= before.items.remove(index as int));
                if before.wf() {
                    assert(self@.item_ids() =~= before.item_ids().remove(index as int));
                    lemma_remove_keeps_distinct(before.item_ids(), index as int);
                }
            }
        }
    }
}

/// What a switcher asks a pane to do.
#[derive(Clone, Copy, Debug, PartialEq, Eq)]
pub enum PaneAction {
    /// Make the item at `index` the visible one of pane `pane`.
    Activate { pane: u64, index: usize, permanent: bool, focus: bool },
    /// Remove the item at `index` from pane `pane`.
    Close { pane: u64, index: usize },
}

/// The panes of one window, in pane order.
#[derive(Debug, PartialEq, Eq)]
pub struct Workspace {
    pub panes: Vec<Pane>,
}

/// The mathematical value of a [`Workspace`].
pub struct WorkspaceView {
    pub panes: Seq<PaneView>,
}

impl WorkspaceView {
    pub open spec fn pane_ids(self) -> Seq<u64> {
        self.panes.map_values(|p: PaneView| p.id)
    }

    /// No pane occurs twice, every pane is well formed, and there are no
    /// more panes than a machine can hold.
    pub open spec fn wf(self) -> bool {
        &&& self.panes.len() <= usize::MAX
        &&& self.pane_ids().no_duplicates()
        &&& forall|i: int| 0 <= i < self.panes.len() ==> (#[trigger] self.panes[i]).wf()
    }

    /// The position of the pane `pane`, if it is still alive.
    pub open spec fn pane_index(self, pane: u64) -> Option<int> {
        self.pane_ids().index_of_first(pane)
    }

    /// The position of the tab `item` in the strip of the pane `pane`, if
    /// the pane is still alive and still contains the tab.
    pub open spec fn locate(self, pane: u64, item: u64) -> Option<int> {
        match self.pane_index(pane) {
            Some(at) => self.panes[at].index_for_item(item),
            None => None,
        }
    }

    /// The workspace with the pane at position `at` replaced.
    pub open spec fn with_pane(self, at: int, pane: PaneView) -> WorkspaceView {
        WorkspaceView { panes: self.panes.update(at, pane) }
    }

    /// The workspace after one action. An action addressed to a pane that no
    /// longer exists changes nothing.
    pub open spec fn apply(self, action: PaneAction) -> WorkspaceView {
        match action {
            PaneAction::Activate { pane, index, permanent, focus } => match self.pane_index(pane) {
                Some(at) => self.with_pane(at, self.panes[at].activate(index, permanent, focus)),
                None => self,
            },
            PaneAction::Close { pane, index } => match self.pane_index(pane) {
                Some(at) => self.with_pane(at, self.panes[at].close(index)),
                None => self,
            },
        }
    }

    /// The workspace after an optional action.
    pub open spec fn apply_opt(self, action: Option<PaneAction>) -> WorkspaceView {
        match action {
            Some(a) => self.apply(a),
            None => self,
        }
    }

    /// The workspace after the actions, taken first to last.
    pub open spec fn apply_all(self, actions: Seq<PaneAction>) -> WorkspaceView
        decreases actions.len(),
    {
        if actions.len() == 0 {
            self
        } else {
            self.apply_all(actions.drop_last()).apply(actions.last())
        }
    }
}

impl View for Workspace {
    type V = WorkspaceView;

    open spec fn view(&self) -> WorkspaceView {
        WorkspaceView { panes: self.panes@.map_values(|p: Pane| p@) }
    }
}

/// An action keeps a well-formed workspace well formed, and keeps its panes
/// in place.
pub proof fn lemma_apply_keeps_wf(ws: WorkspaceView, action: PaneAction)
    requires
        ws.wf(),
    ensures
        ws.apply(action).wf(),
        ws.apply(action).pane_ids() == ws.pane_ids(),
{
    let after = ws.apply(action);
    ws.pane_ids().index_of_first_ensures(action_pane(action));
    match ws.pane_index(action_pane(action)) {
        Some(at) => {
            let p = ws.panes[at];
            assert(p.wf());
            match action {
                PaneAction::Activate { index, permanent, focus, .. } => {
                    assert(p.activate(index, permanent, focus).wf());
                },
                PaneAction::Close { index, .. } => {
                    if index < p.items.len() {
                        assert(p.close(index).item_ids() =~= p.item_ids().remove(index as int));
                        lemma_remove_keeps_distinct(p.item_ids(), index as int);
                    }
                    assert(p.close(index).wf());
                },
            }
            assert(after.pane_ids() =~= ws.pane_ids());
            assert forall|i: int| 0 <= i < after.panes.len() implies (#[trigger] after.panes[i]).wf() by {
                if i != at {
                    assert(after.panes[i] == ws.panes[i]);
                }
            }
        },
        None => {},
    }
}

/// The pane an action is addressed to.
pub open spec fn action_pane(action: PaneAction) -> u64 {
    match action {
        PaneAction::Activate { pane, .. } => pane,
        PaneAction::Close { pane, .. } => pane,
    }
}

impl Workspace {
    /// A workspace without panes.
    pub fn new() -> (ws: Workspace)
        ensures
            ws@.panes.len() == 0,
            ws@.wf(),
    {
        let ws = Workspace { panes: Vec::new() };
        assert(ws@.pane_ids() =~= Seq::<u64>::empty());
        ws
    }

    /// Appends `pane` unless a pane of that identity is already there.
    pub fn add_pane(&mut self, pane: Pane) -> (added: bool)
        ensures
            added == old(self)@.pane_index(pane.id).is_none(),
            added ==> final(self)@.panes == old(self)@.panes.push(pane@),
            !added ==> final(self)@ == old(self)@,
            old(self)@.wf() && pane@.wf() ==> final(self)@.wf(),
    {
        let found = self.pane_index(pane.id);
        if found.is_some() {
            return false;
        }
        let ghost before = self@;
        let ghost id = pane.id;
        let ghost pv = pane@;
        self.panes.push(pane);
        let held = self.panes.len();
        proof {
            assert(self@.panes.len() == held);
            assert(self@.panes =~= before.panes.push(pv));
            assert(self@.pane_ids() =~= before.pane_ids().push(id));
            before.pane_ids().index_of_first_ensures(id);
            if before.wf() && pv.wf() {
                let ids = self@.pane_ids();
                assert forall|i: int, j: int| 0 <= i < ids.len() && 0 <= j < ids.len() && i != j implies ids[i]
                    != ids[j] by {
                    if i < before.pane_ids().len() {
                        assert(before.pane_ids().contains(ids[i]));
                    }
                    if j < before.pane_ids().len() {
                        assert(before.pane_ids().contains(ids[j]));
                    }
                }
                assert forall|i: int| 0 <= i < self@.panes.len() implies (#[trigger] self@.panes[i]).wf() by {
                    if i < before.panes.len() {
                        assert(self@.panes[i] == before.panes[i]);
                    }
                }
            }
        }
        true
    }

    /// The position of the pane `pane`, if it is still alive.
    pub fn pane_index(&self, pane: u64) -> (found: Option<usize>)
        ensures
            match found {
                Some(i) => self@.pane_index(pane) == Some(i as int) && i < self.panes.len()
                    && self.panes[i as int].id == pane,
                None => self@.pane_index(pane).is_none(),
            },
    {
        let ghost ids = self@.pane_ids();
        let mut i: usize = 0;
        while i < self.panes.len()
            invariant
                i <= self.panes.len(),
                ids == self@.pane_ids(),
                forall|j: int| 0 <= j < i ==> ids[j] != pane,
            decreases self.panes.len() - i,
        {
            if self.panes[i].id == pane {
                proof {
                    assert(ids[i as int] == pane);
                    ids.index_of_first_ensures(pane);
                }
                return Some(i);
            }
            i += 1;
        }
        proof {
            ids.index_of_first_ensures(pane);
        }
        None
    }

    /// The position of the tab `item` in the strip of the pane `pane`, if
    /// the pane is still alive and still contains the tab.
    pub fn locate(&self, pane: u64, item: u64) -> (found: Option<usize>)
        ensures
            match found {
                Some(index) => self@.locate(pane, item) == Some(index as int),
                None => self@.locate(pane, item).is_none(),
            },
    {
        match self.pane_index(pane) {
            Some(at) => {
                assert(self@.panes[at as int] == self.panes[at as int]@);
                self.panes[at].index_for_item(item)
            },
            None => None,
        }
    }

    /// Performs one action on the model.
    pub fn apply(&mut self, action: &PaneAction)
        ensures
            final(self)@ == old(self)@.apply(*action),
            old(self)@.wf() ==> final(self)@.wf(),
    {
        let ghost before = self@;
        proof {
            if before.wf() {
                lemma_apply_keeps_wf(before, *action);
            }
        }
        match *action {
            PaneAction::Activate { pane, index, permanent, focus } => {
                match self.pane_index(pane) {
                    Some(at) => {
                        self.panes[at].activate_item(index, permanent, focus);
                        assert(self@.panes =~= before.panes.update(
                            at as int,
                            before.panes[at as int].activate(index, permanent, focus),
                        ));
                    },
                    None => {},
                }
            },
            PaneAction::Close { pane, index } => {
                match self.pane_index(pane) {
                    Some(at) => {
                        self.panes[at].close_item(index);
                        assert(self@.panes =~= before.panes.update(
                            at as int,
                            before.panes[at as int].close(index),
                        ));
                    },
                    None => {},
                }
            },
        }
    }

    /// Performs the actions on the model, first to last.
    pub fn apply_all(&mut self, actions: &Vec<PaneAction>)
        ensures
            final(self)@ == old(self)@.apply_all(actions@),
            old(self)@.wf() ==> final(self)@.wf(),
    {
        let mut i: usize = 0;
        while i < actions.len()
            invariant
                i <= actions.len(),
                self@ == old(self)@.apply_all(actions@.take(i as int)),
                old(self)@.wf() ==> self@.wf(),
            decreases actions.len() - i,
        {
            self.apply(&actions[i]);
            proof {
                assert(actions@.take(i + 1).drop_last() =~= actions@.take(i as int));
            }
            i += 1;
        }
        assert(actions@.take(i as int) =~= actions@);
    }
}

} // verus!
