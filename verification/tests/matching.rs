use harpoon::delegate::HarpoonDelegate;
use harpoon::detail::{assign_details, MAX_DETAIL};
use harpoon::matches::{select, TabMatch};
use harpoon::ranking::{is_accepted, rank, score_value, ACCEPTANCE_THRESHOLD};
use harpoon::workspace::{Pane, Tab, Workspace};

fn named(id: u64, names: &[&str]) -> Tab {
    Tab::new(id, names.iter().map(|n| n.to_string()).collect(), false)
}

fn workspace_of(tabs: Vec<Tab>) -> Workspace {
    let mut pane = Pane::new(1);
    for t in tabs {
        assert!(pane.add_item(t));
    }
    let mut ws = Workspace::new();
    assert!(ws.add_pane(pane));
    ws
}

fn details(list: &[TabMatch]) -> Vec<usize> {
    list.iter().map(|m| m.detail).collect()
}

#[test]
fn ranking_sorts_by_descending_score() {
    assert_eq!(rank(&vec![Some(3), Some(9), Some(5)]), vec![1, 2, 0]);
}

#[test]
fn ranking_keeps_baseline_order_among_equal_scores() {
    assert_eq!(rank(&vec![Some(4), Some(7), Some(4), Some(7), Some(4)]), vec![1, 3, 0, 2, 4]);
}

#[test]
fn ranking_drops_rejected_and_threshold_scores() {
    assert_eq!(ACCEPTANCE_THRESHOLD, 0);
    assert_eq!(rank(&vec![None, Some(0), Some(1), None, Some(u64::MAX)]), vec![4, 2]);
    assert!(rank(&vec![None, Some(0)]).is_empty());
    assert!(rank(&vec![]).is_empty());
}

#[test]
fn scores_count_for_their_number() {
    assert_eq!(score_value(&Some(12)), 12);
    assert_eq!(score_value(&None), 0);
    assert!(is_accepted(&Some(1)));
    assert!(!is_accepted(&Some(0)));
    assert!(!is_accepted(&None));
}

#[test]
fn select_picks_candidates_in_the_given_order() {
    let ws = workspace_of(vec![named(1, &["a"]), named(2, &["b"]), named(3, &["c"])]);
    let candidates = ws.candidates(1, true);
    let picked = select(&candidates, &vec![2, 0]);
    let ids: Vec<u64> = picked.iter().map(|m| m.item.id).collect();
    assert_eq!(ids, vec![3, 1]);
    assert_eq!(picked[0].item_index, 2);
    assert_eq!(picked[0].pane, 1);
}

#[test]
fn unique_labels_stay_at_the_minimal_detail() {
    let ws = workspace_of(vec![named(1, &["a", "x/a"]), named(2, &["b", "y/b"])]);
    let mut list = ws.candidates(1, true);
    assert_eq!(list.len(), 2);
    assert_eq!(list[1].item_index, 1);
    assert_eq!(list[1].pane, 1);
    assert!(!list[1].preview);
    assert_eq!(list[1].detail, 0);
    assign_details(&mut list);
    assert_eq!(details(&list), vec![0, 0]);
}

#[test]
fn colliding_labels_gain_detail_until_unique() {
    let ws = workspace_of(vec![
        named(1, &["mod.rs", "a/mod.rs", "src/a/mod.rs"]),
        named(2, &["mod.rs", "a/mod.rs", "lib/a/mod.rs"]),
        named(3, &["mod.rs", "b/mod.rs"]),
        named(4, &["main.rs", "bin/main.rs"]),
    ]);
    let d = HarpoonDelegate::new(&ws, 1, false, true);
    assert_eq!(details(d.matches()), vec![2, 2, 1, 0]);
    let texts: Vec<String> = d.matches().iter().map(|m| m.label()).collect();
    assert_eq!(texts, vec!["src/a/mod.rs", "lib/a/mod.rs", "b/mod.rs", "main.rs"]);
}

#[test]
fn labels_that_never_part_stop_at_the_ceiling() {
    assert_eq!(MAX_DETAIL, 8);
    let ws = workspace_of(vec![named(1, &["same"]), named(2, &["same"]), named(3, &["other"])]);
    let d = HarpoonDelegate::new(&ws, 1, false, true);
    assert_eq!(details(d.matches()), vec![8, 8, 0]);
}

#[test]
fn a_late_collision_still_raises_the_detail() {
    let ws = workspace_of(vec![
        named(1, &["x", "p/x"]),
        named(2, &["x", "q"]),
        named(3, &["q", "r/q"]),
    ]);
    let d = HarpoonDelegate::new(&ws, 1, false, true);
    assert_eq!(details(d.matches()), vec![1, 2, 1]);
}

#[test]
fn tabs_without_labels_render_empty_text() {
    let t = named(1, &[]);
    assert_eq!(t.label(0), "");
    assert_eq!(t.label(5), "");
    let u = named(2, &["a", "b/a"]);
    assert_eq!(u.label(0), "a");
    assert_eq!(u.label(1), "b/a");
    assert_eq!(u.label(7), "b/a");
    assert!(u.same_label(1, &u, 9));
    assert!(!u.same_label(0, &u, 1));
}

#[test]
fn details_are_assigned_anew_after_filtering() {
    let ws = workspace_of(vec![
        named(1, &["mod.rs", "a/mod.rs"]),
        named(2, &["mod.rs", "b/mod.rs"]),
        named(3, &["lib.rs", "c/lib.rs"]),
    ]);
    let mut d = HarpoonDelegate::new(&ws, 1, false, true);
    assert_eq!(details(d.matches()), vec![1, 1, 0]);
    let request = d.update_matches("mod".to_string(), &ws).unwrap();
    assert_eq!(details(&request.candidates), vec![0, 0, 0]);
    assert!(d.resume_matches(&request, &vec![None, Some(3), Some(1)]));
    let ids: Vec<u64> = d.matches().iter().map(|m| m.item.id).collect();
    assert_eq!(ids, vec![2, 3]);
    assert_eq!(details(d.matches()), vec![0, 0]);
}

#[test]
fn ranked_list_selects_the_first_row() {
    let ws = workspace_of(vec![named(1, &["a"]), named(2, &["b"]), named(3, &["c"])]);
    let mut d = HarpoonDelegate::new(&ws, 1, false, true);
    d.set_selected_index(2, &ws);
    let request = d.update_matches("q".to_string(), &ws).unwrap();
    assert_eq!(d.selected_index(), 2);
    assert_eq!(d.match_count(), 3);
    assert!(d.awaiting());
    assert!(d.resume_matches(&request, &vec![Some(2), Some(2), Some(8)]));
    let ids: Vec<u64> = d.matches().iter().map(|m| m.item.id).collect();
    assert_eq!(ids, vec![3, 1, 2]);
    assert_eq!(d.selected_index(), 0);
    assert!(!d.awaiting());
}

#[test]
fn superseded_scores_are_dropped() {
    let ws = workspace_of(vec![named(1, &["a"]), named(2, &["b"])]);
    let mut d = HarpoonDelegate::new(&ws, 1, false, true);
    let first = d.update_matches("a".to_string(), &ws).unwrap();
    let second = d.update_matches("b".to_string(), &ws).unwrap();
    assert_eq!((first.generation, second.generation), (1, 2));
    assert!(!d.resume_matches(&first, &vec![Some(1), None]));
    assert_eq!(d.match_count(), 2);
    assert!(d.resume_matches(&second, &vec![None, Some(1)]));
    assert_eq!(d.match_count(), 1);
    assert_eq!(d.matches()[0].item.id, 2);
    assert!(!d.resume_matches(&second, &vec![Some(1), Some(1)]));
    assert_eq!(d.match_count(), 1);
}

#[test]
fn an_empty_query_supersedes_and_restores_the_baseline() {
    let ws = workspace_of(vec![named(1, &["a"]), named(2, &["b"])]);
    let mut d = HarpoonDelegate::new(&ws, 1, false, true);
    let request = d.update_matches("a".to_string(), &ws).unwrap();
    assert!(d.resume_matches(&request, &vec![Some(1), None]));
    assert_eq!(d.match_count(), 1);
    let pending = d.update_matches("ab".to_string(), &ws).unwrap();
    assert!(d.update_matches(String::new(), &ws).is_none());
    assert_eq!(d.match_count(), 2);
    assert_eq!(d.generation(), 2);
    assert!(!d.resume_matches(&pending, &vec![Some(1), Some(1)]));
    assert_eq!(d.match_count(), 2);
}

#[test]
fn scores_of_the_wrong_length_are_dropped() {
    let ws = workspace_of(vec![named(1, &["a"]), named(2, &["b"])]);
    let mut d = HarpoonDelegate::new(&ws, 1, false, true);
    let request = d.update_matches("a".to_string(), &ws).unwrap();
    assert!(!d.resume_matches(&request, &vec![Some(1)]));
    assert_eq!(d.match_count(), 2);
    assert!(d.awaiting());
    assert!(d.resume_matches(&request, &vec![Some(1), Some(2)]));
}

#[test]
fn an_ended_popup_ignores_queries_and_scores() {
    let ws = workspace_of(vec![named(1, &["a"]), named(2, &["b"])]);
    let mut d = HarpoonDelegate::new(&ws, 1, false, true);
    let request = d.update_matches("a".to_string(), &ws).unwrap();
    let outcome = d.dismissed(&ws);
    assert!(outcome.notify);
    assert!(!d.resume_matches(&request, &vec![Some(1), Some(1)]));
    assert_eq!(d.match_count(), 0);
    assert!(d.update_matches("a".to_string(), &ws).is_none());
    assert!(d.update_matches(String::new(), &ws).is_none());
    assert_eq!(d.match_count(), 0);
    assert_eq!(d.generation(), 1);
}

#[test]
fn closing_a_row_cancels_the_scores_in_flight() {
    let ws = workspace_of(vec![named(1, &["a"]), named(2, &["b"])]);
    let mut d = HarpoonDelegate::new(&ws, 1, false, true);
    let request = d.update_matches("a".to_string(), &ws).unwrap();
    d.close_item_at(0, &ws);
    assert!(!d.resume_matches(&request, &vec![Some(1), Some(1)]));
    assert_eq!(d.match_count(), 1);
    assert_eq!(d.matches()[0].item.id, 2);
}

#[test]
fn preview_tabs_are_marked_in_their_rows() {
    let mut pane = Pane::new(1);
    assert!(pane.add_item(Tab::new(4, vec!["p".to_string()], true)));
    let mut ws = Workspace::new();
    assert!(ws.add_pane(pane));
    let d = HarpoonDelegate::new(&ws, 1, false, true);
    assert!(d.matches()[0].preview);
    assert!(d.render_match(0, false).unwrap().params.preview);
}
