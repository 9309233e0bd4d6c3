//! The popup that hosts a delegate, and the two actions that open it.

use crate::delegate::{DelegateView, HarpoonDelegate};
use crate::workspace::{PaneAction, Workspace};
use vstd::prelude::*;

verus! {

/// Opens the switcher on the current pane, or cycles the selection of an
/// open switcher.
#[derive(Clone, Copy, Debug, PartialEq, Eq)]
pub struct Toggle {
    pub select_last: bool,
}

impl Default for Toggle {
    fn default() -> (toggle: Toggle)
        ensures
            !toggle.select_last,
    {
        Toggle { select_last: false }
    }
}

/// The modifier keys held down when the popup opened.
#[derive(Clone, Copy, Debug, PartialEq, Eq)]
pub struct Modifiers {
    pub control: bool,
    pub alt: bool,
    pub shift: bool,
    pub platform: bool,
    pub function: bool,
}

/// What a toggle action leads to.
#[derive(Clone, Copy, Debug, PartialEq, Eq)]
pub enum ToggleResponse {
    /// No switcher is open: open one with this scope.
    Open { select_last: bool, is_all_panes: bool },
    /// A switcher is open: move its selection on by one.
    CycleSelection,
}

/// An open switcher: the picker's state and the modifiers it opened with.
pub struct Harpoon {
    pub picker: HarpoonDelegate,
    pub init_modifiers: Option<Modifiers>,
}

/// The row after `selected` in a list of `count` rows, wrapping to the
/// first row behind the last.
pub open spec fn next_row(selected: usize, count: nat) -> usize {
    if selected + 1 >= count {
        0
    } else {
        (selected + 1) as usize
    }
}

impl Harpoon {
    /// Opens a switcher on `workspace`, scoped to the pane `pane` or to all
    /// panes.
    pub fn open(
        workspace: &Workspace,
        pane: u64,
        select_last: bool,
        is_all_panes: bool,
        init_modifiers: Option<Modifiers>,
    ) -> (popup: Harpoon)
        ensures
            popup.picker@ == DelegateView::opened(workspace@, pane, select_last, is_all_panes),
            popup.picker@.wf(),
            popup.init_modifiers == init_modifiers,
    {
        Harpoon { picker: HarpoonDelegate::new(workspace, pane, select_last, is_all_panes), init_modifiers }
    }

    /// The toggle scoped to the current pane: opens a switcher, or cycles
    /// the one that is open (`open`).
    pub fn toggle(open: bool, action: &Toggle) -> (response: ToggleResponse)
        ensures
            response == (if open {
                ToggleResponse::CycleSelection
            } else {
                ToggleResponse::Open { select_last: action.select_last, is_all_panes: false }
            }),
    {
        if open {
            ToggleResponse::CycleSelection
        } else {
            ToggleResponse::Open { select_last: action.select_last, is_all_panes: false }
        }
    }

    /// The toggle scoped to all panes: opens a switcher, or cycles the one
    /// that is open (`open`).
    pub fn toggle_all(open: bool) -> (response: ToggleResponse)
        ensures
            response == (if open {
                ToggleResponse::CycleSelection
            } else {
                ToggleResponse::Open { select_last: false, is_all_panes: true }
            }),
    {
        if open {
            ToggleResponse::CycleSelection
        } else {
            ToggleResponse::Open { select_last: false, is_all_panes: true }
        }
    }

    /// Moves the selection on by one row, back to the first row behind the
    /// last, and previews the row it lands on. An empty list stays as it is.
    pub fn cycle_selection(&mut self, workspace: &Workspace) -> (action: Option<PaneAction>)
        ensures
            final(self).picker@ == old(self).picker@.selected(
                next_row(old(self).picker@.selected_index, old(self).picker@.matches.len()),
            ),
            action == old(self).picker@.preview_action(
                workspace@,
                next_row(old(self).picker@.selected_index, old(self).picker@.matches.len()),
            ),
            final(self).init_modifiers == old(self).init_modifiers,
            old(self).picker@.wf() ==> final(self).picker@.wf(),
    {
        let count = self.picker.match_count();
        let selected = self.picker.selected_index();
        let next = if selected >= count || selected + 1 == count {
            0
        } else {
            selected + 1
        };
        self.picker.set_selected_index(next, workspace)
    }
}

} // verus!
