use harpoon::delegate::{CloseAffordance, HarpoonDelegate, Phase, TabContentParams};
use harpoon::popup::{Harpoon, Modifiers, Toggle, ToggleResponse};
use harpoon::workspace::{Pane, PaneAction, Tab, Workspace};

fn tab(id: u64, name: &str) -> Tab {
    Tab::new(id, vec![name.to_string()], false)
}

fn pane(id: u64, tabs: Vec<Tab>) -> Pane {
    let mut pane = Pane::new(id);
    for t in tabs {
        assert!(pane.add_item(t));
    }
    pane
}

fn one_pane() -> Workspace {
    let mut ws = Workspace::new();
    assert!(ws.add_pane(pane(7, vec![tab(1, "A"), tab(2, "B"), tab(3, "C")])));
    ws
}

fn two_panes() -> Workspace {
    let mut ws = Workspace::new();
    assert!(ws.add_pane(pane(7, vec![tab(1, "A"), tab(2, "B"), tab(3, "C")])));
    let mut second = pane(8, vec![tab(1, "D"), tab(5, "E")]);
    second.activate_item(1, true, false);
    assert!(ws.add_pane(second));
    ws
}

fn labels(d: &HarpoonDelegate) -> Vec<String> {
    d.matches().iter().map(|m| m.label()).collect()
}

fn preview(pane: u64, index: usize) -> PaneAction {
    PaneAction::Activate { pane, index, permanent: false, focus: false }
}

#[test]
fn baseline_lists_tabs_in_strip_order_with_first_selected() {
    let ws = one_pane();
    let d = HarpoonDelegate::new(&ws, 7, false, true);
    assert_eq!(labels(&d), vec!["A", "B", "C"]);
    assert_eq!(d.match_count(), 3);
    assert_eq!(d.selected_index(), 0);
    assert_eq!(d.original_items(), &vec![(7, 0)]);
    assert_eq!(d.phase(), Phase::Active);
    assert!(!d.restored_items());
    assert_eq!(d.generation(), 0);
}

#[test]
fn selecting_previews_and_dismissing_restores() {
    let mut ws = one_pane();
    let origin = one_pane();
    let mut d = HarpoonDelegate::new(&ws, 7, false, true);
    let action = d.set_selected_index(2, &ws);
    assert_eq!(action, Some(preview(7, 2)));
    ws.apply(&action.unwrap());
    assert_eq!(d.selected_index(), 2);
    assert_eq!(ws.panes[0].active, 2);
    assert_eq!(ws.panes[0].committed, 0);
    assert!(!ws.panes[0].focused);
    let outcome = d.dismissed(&ws);
    assert!(outcome.notify);
    assert_eq!(outcome.actions, vec![preview(7, 0)]);
    ws.apply_all(&outcome.actions);
    assert_eq!(ws.panes[0].active, 0);
    assert_eq!(ws, origin);
    assert_eq!(d.phase(), Phase::Dismissed);
    assert_eq!(d.match_count(), 0);
}

#[test]
fn selecting_then_confirming_commits_the_choice() {
    let mut ws = one_pane();
    let mut d = HarpoonDelegate::new(&ws, 7, false, true);
    let action = d.set_selected_index(2, &ws).unwrap();
    ws.apply(&action);
    let actions = d.confirm(false, &ws);
    assert_eq!(
        actions,
        vec![preview(7, 0), PaneAction::Activate { pane: 7, index: 2, permanent: true, focus: true }]
    );
    ws.apply_all(&actions);
    assert_eq!(ws.panes[0].active, 2);
    assert_eq!(ws.panes[0].committed, 2);
    assert!(ws.panes[0].focused);
    assert_eq!(d.phase(), Phase::Confirmed);
    assert!(d.restored_items());
    let outcome = d.dismissed(&ws);
    assert!(outcome.actions.is_empty());
    assert!(!outcome.notify);
    ws.apply_all(&outcome.actions);
    assert_eq!(ws.panes[0].active, 2);
}

#[test]
fn query_filters_and_closing_the_row_empties_the_list() {
    let mut ws = one_pane();
    let mut d = HarpoonDelegate::new(&ws, 7, false, true);
    let request = d.update_matches("b".to_string(), &ws).unwrap();
    assert_eq!(request.generation, 1);
    assert_eq!(request.query, "b");
    assert_eq!(request.candidates.len(), 3);
    assert!(d.resume_matches(&request, &vec![None, Some(5), None]));
    assert_eq!(labels(&d), vec!["B"]);
    assert_eq!(d.selected_index(), 0);
    let action = d.close_item_at(0, &ws);
    assert_eq!(action, Some(PaneAction::Close { pane: 7, index: 1 }));
    ws.apply(&action.unwrap());
    assert_eq!(d.match_count(), 0);
    assert_eq!(d.selected_index(), 0);
    let left: Vec<u64> = ws.panes[0].items.iter().map(|t| t.id).collect();
    assert_eq!(left, vec![1, 3]);
    let request = d.update_matches("b".to_string(), &ws).unwrap();
    assert_eq!(request.candidates.len(), 2);
    assert!(request.candidates.iter().all(|c| c.item.id != 2));
    assert!(d.update_matches(String::new(), &ws).is_none());
    assert_eq!(labels(&d), vec!["A", "C"]);
}

#[test]
fn confirm_restores_other_panes_and_commits_one() {
    let mut ws = two_panes();
    let origin = two_panes();
    let mut d = HarpoonDelegate::new(&ws, 7, false, true);
    assert_eq!(labels(&d), vec!["A", "B", "C", "D", "E"]);
    assert_eq!(d.original_items(), &vec![(7, 0), (8, 1)]);
    for ix in [3usize, 1, 4, 2, 3] {
        if let Some(a) = d.set_selected_index(ix, &ws) {
            ws.apply(&a);
        }
    }
    assert_eq!(ws.panes[0].active, 2);
    assert_eq!(ws.panes[1].active, 0);
    let actions = d.confirm(true, &ws);
    assert_eq!(
        actions,
        vec![
            preview(7, 0),
            preview(8, 1),
            PaneAction::Activate { pane: 8, index: 0, permanent: true, focus: true },
        ]
    );
    ws.apply_all(&actions);
    assert_eq!(ws.panes[0], origin.panes[0]);
    assert_eq!(ws.panes[1].active, 0);
    assert_eq!(ws.panes[1].committed, 0);
    assert!(ws.panes[1].focused);
}

#[test]
fn dismiss_restores_every_pane_after_any_browsing() {
    let origin = two_panes();
    for rows in [vec![], vec![4usize], vec![0, 1, 2, 3, 4], vec![9, 3, 3, 1], vec![2, 4, 0, 3]] {
        let mut ws = two_panes();
        let mut d = HarpoonDelegate::new(&ws, 8, true, true);
        for ix in rows {
            if let Some(a) = d.set_selected_index(ix, &ws) {
                ws.apply(&a);
            }
        }
        let outcome = d.dismissed(&ws);
        ws.apply_all(&outcome.actions);
        assert_eq!(ws, origin);
    }
}

#[test]
fn restoration_happens_at_most_once() {
    let mut ws = one_pane();
    let mut d = HarpoonDelegate::new(&ws, 7, false, true);
    let a = d.set_selected_index(1, &ws).unwrap();
    ws.apply(&a);
    let first = d.dismissed(&ws);
    assert_eq!(first.actions.len(), 1);
    assert!(first.notify);
    let second = d.dismissed(&ws);
    assert!(second.actions.is_empty());
    assert!(!second.notify);
    assert!(d.confirm(false, &ws).is_empty());
    assert_eq!(d.phase(), Phase::Dismissed);
}

#[test]
fn confirm_without_a_selected_row_does_nothing() {
    let mut ws = Workspace::new();
    assert!(ws.add_pane(Pane::new(7)));
    let mut d = HarpoonDelegate::new(&ws, 7, false, true);
    assert_eq!(d.match_count(), 0);
    assert_eq!(d.original_items(), &vec![(7, 0)]);
    assert!(d.confirm(false, &ws).is_empty());
    assert_eq!(d.phase(), Phase::Active);
    assert!(!d.restored_items());
    let outcome = d.dismissed(&ws);
    assert!(outcome.actions.is_empty());
    assert!(outcome.notify);
}

#[test]
fn out_of_range_indices_change_nothing() {
    let ws = one_pane();
    let mut d = HarpoonDelegate::new(&ws, 7, false, true);
    assert_eq!(d.set_selected_index(1, &ws), Some(preview(7, 1)));
    assert_eq!(d.set_selected_index(3, &ws), None);
    assert_eq!(d.selected_index(), 1);
    assert_eq!(d.close_item_at(3, &ws), None);
    assert_eq!(d.match_count(), 3);
    assert!(d.render_match(3, false).is_none());
}

#[test]
fn stale_panes_and_tabs_are_skipped_silently() {
    let ws = two_panes();
    let mut d = HarpoonDelegate::new(&ws, 7, false, true);
    let mut later = Workspace::new();
    assert!(later.add_pane(pane(7, vec![tab(3, "C"), tab(1, "A")])));
    assert_eq!(d.set_selected_index(1, &later), None);
    assert_eq!(d.selected_index(), 1);
    assert_eq!(d.set_selected_index(2, &later), Some(preview(7, 0)));
    assert_eq!(d.set_selected_index(3, &later), None);
    assert_eq!(d.close_item_at(4, &later), None);
    assert_eq!(labels(&d), vec!["A", "B", "C", "D"]);
    assert_eq!(d.close_item_at(1, &later), None);
    assert_eq!(labels(&d), vec!["A", "C", "D"]);
    assert_eq!(d.selected_index(), 2);
    let actions = d.confirm(false, &later);
    assert_eq!(actions, vec![preview(7, 0)]);
}

#[test]
fn closing_shifts_later_rows_and_clamps_the_selection() {
    let ws = one_pane();
    let mut d = HarpoonDelegate::new(&ws, 7, false, true);
    d.set_selected_index(2, &ws);
    assert_eq!(d.close_item_at(0, &ws), Some(PaneAction::Close { pane: 7, index: 0 }));
    assert_eq!(labels(&d), vec!["B", "C"]);
    assert_eq!(d.matches()[0].item_index, 1);
    assert_eq!(d.selected_index(), 1);
    assert_eq!(d.close_item_at(1, &ws), Some(PaneAction::Close { pane: 7, index: 2 }));
    assert_eq!(d.selected_index(), 0);
    assert_eq!(labels(&d), vec!["B"]);
}

#[test]
fn current_pane_scope_lists_and_records_one_pane() {
    let mut ws = two_panes();
    let origin = two_panes();
    let mut d = HarpoonDelegate::new(&ws, 8, false, false);
    assert_eq!(labels(&d), vec!["D", "E"]);
    assert_eq!(d.original_items(), &vec![(8, 1)]);
    assert!(!d.is_all_panes());
    assert_eq!(d.pane(), 8);
    let a = d.set_selected_index(0, &ws).unwrap();
    assert_eq!(a, preview(8, 0));
    ws.apply(&a);
    let outcome = d.dismissed(&ws);
    assert_eq!(outcome.actions, vec![preview(8, 1)]);
    ws.apply_all(&outcome.actions);
    assert_eq!(ws, origin);
    let gone = HarpoonDelegate::new(&ws, 99, false, false);
    assert_eq!(gone.match_count(), 0);
    assert!(gone.original_items().is_empty());
}

#[test]
fn rows_carry_label_detail_and_close_affordance() {
    let ws = one_pane();
    let mut d = HarpoonDelegate::new(&ws, 7, false, true);
    d.set_selected_index(1, &ws);
    let row = d.render_match(1, true).unwrap();
    assert_eq!(row.index, 1);
    assert_eq!(row.label, "B");
    assert_eq!(
        row.params,
        TabContentParams { detail: Some(0), selected: true, preview: false, deemphasized: false }
    );
    assert!(row.toggled);
    assert_eq!(row.close, CloseAffordance::Always);
    let other = d.render_match(0, false).unwrap();
    assert_eq!(other.close, CloseAffordance::OnHover);
    assert!(!other.toggled);
    assert_eq!(other.label, "A");
}

#[test]
fn texts_and_separators() {
    let ws = Workspace::new();
    let d = HarpoonDelegate::new(&ws, 0, true, true);
    assert_eq!(d.placeholder_text(), "Search all tabs…");
    assert_eq!(d.no_matches_text(), Some("No tabs"));
    assert!(d.separators_after_indices().is_empty());
    assert!(d.select_last());
    assert!(!d.awaiting());
}

#[test]
fn toggles_open_or_cycle() {
    assert_eq!(
        Harpoon::toggle(false, &Toggle { select_last: true }),
        ToggleResponse::Open { select_last: true, is_all_panes: false }
    );
    assert_eq!(
        Harpoon::toggle(false, &Toggle::default()),
        ToggleResponse::Open { select_last: false, is_all_panes: false }
    );
    assert_eq!(Harpoon::toggle(true, &Toggle { select_last: true }), ToggleResponse::CycleSelection);
    assert_eq!(
        Harpoon::toggle_all(false),
        ToggleResponse::Open { select_last: false, is_all_panes: true }
    );
    assert_eq!(Harpoon::toggle_all(true), ToggleResponse::CycleSelection);
}

#[test]
fn cycling_wraps_around_and_previews() {
    let mut ws = one_pane();
    let held = Modifiers { control: true, alt: false, shift: false, platform: false, function: false };
    let mut popup = Harpoon::open(&ws, 7, false, true, Some(held));
    assert_eq!(popup.init_modifiers, Some(held));
    let mut seen = Vec::new();
    for _ in 0..4 {
        let a = popup.cycle_selection(&ws).unwrap();
        ws.apply(&a);
        seen.push((popup.picker.selected_index(), ws.panes[0].active));
    }
    assert_eq!(seen, vec![(1, 1), (2, 2), (0, 0), (1, 1)]);
    let mut empty = Harpoon::open(&Workspace::new(), 7, false, true, None);
    assert_eq!(empty.cycle_selection(&ws), None);
    assert_eq!(empty.picker.selected_index(), 0);
}
