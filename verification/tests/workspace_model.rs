use harpoon::workspace::{Pane, PaneAction, Tab, Workspace};

fn strip(id: u64, ids: &[u64]) -> Pane {
    let mut pane = Pane::new(id);
    for i in ids {
        assert!(pane.add_item(Tab::new(*i, vec![format!("t{}", i)], false)));
    }
    pane
}

fn ids(pane: &Pane) -> Vec<u64> {
    pane.items.iter().map(|t| t.id).collect()
}

#[test]
fn a_new_pane_is_empty() {
    let pane = Pane::new(3);
    assert_eq!(pane.id, 3);
    assert!(pane.items.is_empty());
    assert_eq!((pane.active, pane.committed, pane.focused), (0, 0, false));
}

#[test]
fn a_tab_is_added_once() {
    let mut pane = strip(1, &[10, 11]);
    assert!(!pane.add_item(Tab::new(10, vec![], true)));
    assert_eq!(ids(&pane), vec![10, 11]);
    assert!(pane.add_item(Tab::new(12, vec![], true)));
    assert_eq!(ids(&pane), vec![10, 11, 12]);
    assert_eq!(pane.active, 0);
}

#[test]
fn a_pane_is_added_once() {
    let mut ws = Workspace::new();
    assert!(ws.add_pane(strip(1, &[10])));
    assert!(!ws.add_pane(strip(1, &[11])));
    assert!(ws.add_pane(strip(2, &[10])));
    assert_eq!(ws.panes.len(), 2);
    assert_eq!(ws.pane_index(2), Some(1));
    assert_eq!(ws.pane_index(3), None);
}

#[test]
fn tabs_are_found_by_identity() {
    let pane = strip(1, &[10, 11, 12]);
    assert_eq!(pane.index_for_item(12), Some(2));
    assert_eq!(pane.index_for_item(10), Some(0));
    assert_eq!(pane.index_for_item(13), None);
    let mut ws = Workspace::new();
    ws.add_pane(pane);
    ws.add_pane(strip(2, &[12]));
    assert_eq!(ws.locate(1, 12), Some(2));
    assert_eq!(ws.locate(2, 12), Some(0));
    assert_eq!(ws.locate(2, 10), None);
    assert_eq!(ws.locate(3, 10), None);
}

#[test]
fn preview_activation_moves_only_the_visible_mark() {
    let mut pane = strip(1, &[10, 11, 12]);
    pane.activate_item(2, false, false);
    assert_eq!((pane.active, pane.committed, pane.focused), (2, 0, false));
    pane.activate_item(1, true, true);
    assert_eq!((pane.active, pane.committed, pane.focused), (1, 1, true));
    pane.activate_item(0, false, false);
    assert_eq!((pane.active, pane.committed, pane.focused), (0, 1, true));
    pane.activate_item(3, true, true);
    assert_eq!((pane.active, pane.committed, pane.focused), (0, 1, true));
}

#[test]
fn closing_slides_the_marks() {
    let mut pane = strip(1, &[10, 11, 12, 13]);
    pane.activate_item(2, true, false);
    pane.close_item(0);
    assert_eq!(ids(&pane), vec![11, 12, 13]);
    assert_eq!((pane.active, pane.committed), (1, 1));
    pane.close_item(2);
    assert_eq!(ids(&pane), vec![11, 12]);
    assert_eq!((pane.active, pane.committed), (1, 1));
    pane.close_item(1);
    assert_eq!(ids(&pane), vec![11]);
    assert_eq!((pane.active, pane.committed), (0, 0));
    pane.close_item(5);
    assert_eq!(ids(&pane), vec![11]);
    pane.close_item(0);
    assert!(pane.items.is_empty());
    assert_eq!((pane.active, pane.committed), (0, 0));
}

#[test]
fn closing_the_visible_tab_shows_its_successor() {
    let mut pane = strip(1, &[10, 11, 12]);
    pane.activate_item(1, false, false);
    pane.close_item(1);
    assert_eq!(ids(&pane), vec![10, 12]);
    assert_eq!(pane.active, 1);
    assert_eq!(pane.committed, 0);
}

#[test]
fn actions_on_missing_panes_change_nothing() {
    let mut ws = Workspace::new();
    ws.add_pane(strip(1, &[10, 11]));
    let before = {
        let mut w = Workspace::new();
        w.add_pane(strip(1, &[10, 11]));
        w
    };
    ws.apply(&PaneAction::Activate { pane: 9, index: 1, permanent: true, focus: true });
    ws.apply(&PaneAction::Close { pane: 9, index: 0 });
    ws.apply(&PaneAction::Activate { pane: 1, index: 2, permanent: true, focus: true });
    ws.apply(&PaneAction::Close { pane: 1, index: 2 });
    assert_eq!(ws, before);
}

#[test]
fn actions_are_performed_first_to_last() {
    let mut ws = Workspace::new();
    ws.add_pane(strip(1, &[10, 11, 12]));
    ws.add_pane(strip(2, &[20]));
    ws.apply_all(&vec![
        PaneAction::Activate { pane: 1, index: 2, permanent: false, focus: false },
        PaneAction::Close { pane: 1, index: 0 },
        PaneAction::Activate { pane: 2, index: 0, permanent: true, focus: true },
        PaneAction::Activate { pane: 1, index: 0, permanent: true, focus: false },
    ]);
    assert_eq!(ids(&ws.panes[0]), vec![11, 12]);
    assert_eq!((ws.panes[0].active, ws.panes[0].committed, ws.panes[0].focused), (0, 0, false));
    assert_eq!((ws.panes[1].active, ws.panes[1].committed, ws.panes[1].focused), (0, 0, true));
}

#[test]
fn a_cloned_tab_keeps_identity_labels_and_flag() {
    let t = Tab::new(5, vec!["a".to_string(), "b/a".to_string()], true);
    let c = t.clone();
    assert_eq!(c, t);
    assert_eq!(c.labels, vec!["a", "b/a"]);
}

#[test]
fn enumeration_walks_panes_then_strips() {
    let mut ws = Workspace::new();
    ws.add_pane(strip(2, &[20, 21]));
    ws.add_pane(strip(1, &[10]));
    let all: Vec<(u64, usize, u64)> =
        ws.candidates(1, true).iter().map(|m| (m.pane, m.item_index, m.item.id)).collect();
    assert_eq!(all, vec![(2, 0, 20), (2, 1, 21), (1, 0, 10)]);
    let one: Vec<(u64, usize, u64)> =
        ws.candidates(1, false).iter().map(|m| (m.pane, m.item_index, m.item.id)).collect();
    assert_eq!(one, vec![(1, 0, 10)]);
    assert!(ws.candidates(7, false).is_empty());
    assert_eq!(ws.original_items(7, true), vec![(2, 0), (1, 0)]);
    assert_eq!(ws.original_items(2, false), vec![(2, 0)]);
    assert!(ws.original_items(7, false).is_empty());
}
