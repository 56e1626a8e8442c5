use bevy_granite::entity::EntityId;
use bevy_granite::hierarchy::HierarchyEntry;
use bevy_granite::node_tree::{
    drag_drop_check_stops, external_change_check_stops, handle_drag_drop, handle_external_selection_change, handle_selection, perform_range_selection,
    process_selection_changes, update_tree_click_protection, EntityEvent, NodeTreeTabData,
};

fn e(n: u64) -> EntityId {
    EntityId(n)
}

fn row(entity: u64, parent: Option<u64>) -> HierarchyEntry {
    HierarchyEntry { entity: e(entity), parent: parent.map(e), is_expanded: false }
}

fn tab() -> NodeTreeTabData {
    let mut data = NodeTreeTabData::new();
    data.hierarchy = vec![row(1, None), row(2, Some(1)), row(3, Some(2)), row(4, Some(1))];
    data
}

fn order() -> Vec<EntityId> {
    vec![e(1), e(2), e(3), e(4)]
}

#[test]
fn plain_click_replaces_selection() {
    let mut data = tab();
    handle_selection(e(2), "Two", &mut data, false, false);
    let events = process_selection_changes(&mut data, &order());
    assert_eq!(events, vec![EntityEvent::Select { target: e(2), additive: false }]);
    assert_eq!(data.active_selection, Some(e(2)));
    assert_eq!(data.previous_active_selection, None);
    assert_eq!(data.tree_click_frames_remaining, 3);
    assert!(!data.clicked_via_node_tree);
    assert_eq!(data.new_selection, None);
}

#[test]
fn additive_click_toggles() {
    let mut data = tab();
    data.selected_entities = vec![e(3)];
    handle_selection(e(3), "Three", &mut data, true, false);
    let events = process_selection_changes(&mut data, &order());
    assert_eq!(events, vec![EntityEvent::Deselect { target: e(3) }]);
    handle_selection(e(4), "Four", &mut data, true, false);
    let events = process_selection_changes(&mut data, &order());
    assert_eq!(events, vec![EntityEvent::Select { target: e(4), additive: true }]);
    assert_eq!(data.active_selection, Some(e(4)));
    assert_eq!(data.previous_active_selection, Some(e(3)));
    assert!(!data.additive_selection);
}

#[test]
fn range_click_selects_the_span_in_visual_order() {
    let mut data = tab();
    data.active_selection = Some(e(4));
    handle_selection(e(2), "Two", &mut data, false, true);
    let events = process_selection_changes(&mut data, &order());
    assert_eq!(
        events,
        vec![
            EntityEvent::Select { target: e(2), additive: false },
            EntityEvent::Select { target: e(3), additive: true },
            EntityEvent::Select { target: e(4), additive: true },
        ]
    );
    assert_eq!(data.active_selection, Some(e(2)));
    assert_eq!(data.previous_active_selection, Some(e(4)));
    assert!(!data.range_selection);
}

#[test]
fn range_click_without_active_selects_one() {
    let mut data = tab();
    handle_selection(e(3), "Three", &mut data, false, true);
    let events = process_selection_changes(&mut data, &order());
    assert_eq!(events, vec![EntityEvent::Select { target: e(3), additive: false }]);
}

#[test]
fn range_with_hidden_end_selects_nothing() {
    assert_eq!(perform_range_selection(e(1), e(9), &order()), vec![]);
    assert_eq!(perform_range_selection(e(3), e(3), &order()), vec![EntityEvent::Select { target: e(3), additive: false }]);
}

#[test]
fn no_pending_click_only_resets_flags() {
    let mut data = tab();
    data.active_selection = Some(e(1));
    data.additive_selection = true;
    data.range_selection = true;
    let events = process_selection_changes(&mut data, &order());
    assert!(events.is_empty());
    assert_eq!(data.active_selection, Some(e(1)));
    assert!(!data.additive_selection && !data.range_selection);
}

#[test]
fn click_protection_counts_down_to_zero() {
    let mut data = tab();
    handle_selection(e(2), "Two", &mut data, false, false);
    process_selection_changes(&mut data, &order());
    for expected in [2, 1, 0, 0] {
        update_tree_click_protection(&mut data);
        assert_eq!(data.tree_click_frames_remaining, expected);
    }
}

#[test]
fn tree_click_is_not_an_external_change() {
    let mut data = tab();
    handle_selection(e(3), "Three", &mut data, false, false);
    process_selection_changes(&mut data, &order());
    handle_external_selection_change(&mut data, None);
    assert!(!data.should_scroll_to_selection);
    assert!(data.hierarchy.iter().all(|r| !r.is_expanded));
}

#[test]
fn external_change_unfolds_and_scrolls() {
    let mut data = tab();
    data.active_selection = Some(e(3));
    handle_external_selection_change(&mut data, Some(e(4)));
    assert!(data.should_scroll_to_selection);
    let expanded: Vec<bool> = data.hierarchy.iter().map(|r| r.is_expanded).collect();
    assert_eq!(expanded, vec![true, true, false, false]);
}

#[test]
fn unchanged_selection_does_not_scroll() {
    let mut data = tab();
    data.active_selection = Some(e(3));
    data.should_scroll_to_selection = true;
    handle_external_selection_change(&mut data, Some(e(3)));
    assert!(!data.should_scroll_to_selection);
}

#[test]
fn drag_ignored_while_searching() {
    let mut data = tab();
    handle_drag_drop(true, true, true, e(4), &mut data, "abc");
    assert!(data.drag_payload.is_none());
    assert!(data.drop_target.is_none());
}

#[test]
fn drag_of_selected_row_carries_the_selection() {
    let mut data = tab();
    data.selected_entities = vec![e(3), e(4)];
    handle_drag_drop(true, false, false, e(4), &mut data, "");
    assert_eq!(data.drag_payload, Some(vec![e(3), e(4)]));
    let mut data = tab();
    data.selected_entities = vec![e(3)];
    handle_drag_drop(true, false, false, e(4), &mut data, "");
    assert_eq!(data.drag_payload, Some(vec![e(4)]));
}

#[test]
fn release_over_valid_target_records_drop() {
    let mut data = tab();
    data.drag_payload = Some(vec![e(3)]);
    handle_drag_drop(false, true, true, e(4), &mut data, "");
    assert_eq!(data.drop_target, Some(e(4)));
}

#[test]
fn release_over_descendant_records_nothing() {
    let mut data = tab();
    data.drag_payload = Some(vec![e(1)]);
    handle_drag_drop(false, true, true, e(3), &mut data, "");
    assert_eq!(data.drop_target, None);
}

#[test]
fn release_elsewhere_records_nothing() {
    let mut data = tab();
    data.drag_payload = Some(vec![e(3)]);
    handle_drag_drop(false, true, false, e(4), &mut data, "");
    assert_eq!(data.drop_target, None);
    handle_drag_drop(false, false, true, e(4), &mut data, "");
    assert_eq!(data.drop_target, None);
}

#[test]
fn second_processing_finds_nothing() {
    let mut data = tab();
    handle_selection(e(2), "Two", &mut data, false, false);
    process_selection_changes(&mut data, &order());
    let events = process_selection_changes(&mut data, &order());
    assert!(events.is_empty());
    assert_eq!(data.active_selection, Some(e(2)));
    assert_eq!(data.tree_click_frames_remaining, 3);
}

#[test]
fn reveal_resumes_after_protection_frames() {
    let mut data = tab();
    handle_selection(e(3), "Three", &mut data, false, false);
    process_selection_changes(&mut data, &order());
    for _ in 0..3 {
        handle_external_selection_change(&mut data, None);
        assert!(!data.should_scroll_to_selection);
        update_tree_click_protection(&mut data);
    }
    handle_external_selection_change(&mut data, None);
    assert!(data.should_scroll_to_selection);
    assert!(data.hierarchy[0].is_expanded && data.hierarchy[1].is_expanded);
}

#[test]
fn drop_check_refused_only_on_an_endless_loop() {
    let mut data = tab();
    data.drag_payload = Some(vec![e(3)]);
    assert!(drag_drop_check_stops(false, true, true, e(4), &data, ""));
    data.hierarchy = vec![row(1, Some(2)), row(2, Some(1)), row(5, Some(1))];
    assert!(!drag_drop_check_stops(false, true, true, e(5), &data, ""));
    // Meeting the dragged entity on the loop stops the walk.
    data.drag_payload = Some(vec![e(2)]);
    assert!(drag_drop_check_stops(false, true, true, e(5), &data, ""));
    // No drop is checked while searching, without a release or off the row.
    data.drag_payload = Some(vec![e(7)]);
    assert!(drag_drop_check_stops(false, true, true, e(5), &data, "x"));
    assert!(drag_drop_check_stops(false, false, true, e(5), &data, ""));
    assert!(drag_drop_check_stops(false, true, false, e(5), &data, ""));
    // A drag that starts on the row carries the row itself.
    assert!(drag_drop_check_stops(true, true, true, e(5), &data, ""));
}

#[test]
fn external_change_refused_only_when_it_would_unfold_a_loop() {
    let mut data = tab();
    data.hierarchy = vec![row(1, Some(2)), row(2, Some(1)), row(5, Some(1))];
    data.active_selection = Some(e(5));
    assert!(!external_change_check_stops(&data, Some(e(4))));
    // Nothing is unfolded when the selection did not change or the tree made it.
    assert!(external_change_check_stops(&data, Some(e(5))));
    data.clicked_via_node_tree = true;
    assert!(external_change_check_stops(&data, Some(e(4))));
    data.clicked_via_node_tree = false;
    data.tree_click_frames_remaining = 2;
    assert!(external_change_check_stops(&data, Some(e(4))));
    let mut data = tab();
    data.active_selection = Some(e(3));
    assert!(external_change_check_stops(&data, Some(e(4))));
}
