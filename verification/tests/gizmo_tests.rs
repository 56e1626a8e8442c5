use bevy_granite::entity::EntityId;
use bevy_granite::gizmo::{
    begin_rotate_drag, handle_rotate_input, hide_unselected_axes, reset_rotate_drag, root_entities, ButtonState,
    DragFlags, GizmoAxis, RotateDragEvent, VisibilityState,
};

fn button(just_pressed: bool, pressed: bool, just_released: bool) -> ButtonState {
    ButtonState { any: just_pressed || pressed || just_released, just_pressed, pressed, just_released }
}

#[test]
fn press_starts_a_drag() {
    let r = handle_rotate_input(button(true, true, false), false, true, true, false);
    assert_eq!(r, Some(RotateDragEvent::Init));
}

#[test]
fn press_over_ui_starts_nothing() {
    let r = handle_rotate_input(button(true, true, false), true, true, true, false);
    assert_eq!(r, None);
}

#[test]
fn held_button_continues_the_drag() {
    let r = handle_rotate_input(button(false, true, false), false, true, true, true);
    assert_eq!(r, Some(RotateDragEvent::Dragging));
}

#[test]
fn release_ends_the_drag() {
    let r = handle_rotate_input(button(false, false, true), false, true, true, true);
    assert_eq!(r, Some(RotateDragEvent::Reset));
}

#[test]
fn other_tool_or_no_single_selection_does_nothing() {
    assert_eq!(handle_rotate_input(button(true, true, false), false, false, true, false), None);
    assert_eq!(handle_rotate_input(button(true, true, false), false, true, false, false), None);
    assert_eq!(handle_rotate_input(button(false, false, false), false, true, true, true), None);
}

#[test]
fn dragged_axis_stays_visible() {
    let axes = [GizmoAxis::X, GizmoAxis::Y, GizmoAxis::Z, GizmoAxis::All];
    assert_eq!(
        hide_unselected_axes(GizmoAxis::Y, &axes),
        vec![VisibilityState::Hidden, VisibilityState::Visible, VisibilityState::Hidden, VisibilityState::Hidden]
    );
}

#[test]
fn roots_skip_children_of_selected() {
    let e = EntityId;
    let selected = [e(1), e(2), e(3), e(4)];
    let parents = [None, Some(e(1)), Some(e(9)), Some(e(2))];
    assert_eq!(root_entities(&selected, &parents), vec![e(1), e(3)]);
}

#[test]
fn roots_of_empty_selection() {
    assert_eq!(root_entities(&[], &[]), vec![]);
}

fn idle() -> DragFlags {
    DragFlags { dragging: false, locked_axis: None, drag_ended: false }
}

const AXES: [GizmoAxis; 4] = [GizmoAxis::X, GizmoAxis::Y, GizmoAxis::Z, GizmoAxis::All];

#[test]
fn press_on_handle_starts_a_locked_drag() {
    let mut state = idle();
    let start = begin_rotate_drag(true, true, Some(GizmoAxis::Z), true, false, &AXES, &mut state);
    assert!(start.started);
    assert!(!start.duplicate);
    assert_eq!(
        start.axis_visibility,
        Some(vec![VisibilityState::Hidden, VisibilityState::Hidden, VisibilityState::Visible, VisibilityState::Hidden])
    );
    assert_eq!(state, DragFlags { dragging: true, locked_axis: Some(GizmoAxis::Z), drag_ended: false });
}

#[test]
fn shift_press_duplicates_the_selection() {
    let mut state = idle();
    let start = begin_rotate_drag(true, true, Some(GizmoAxis::All), true, true, &AXES, &mut state);
    assert!(start.started);
    assert!(start.duplicate);
}

#[test]
fn press_on_mesh_or_without_single_selection_starts_nothing() {
    for (hit, single, axis) in [(false, true, Some(GizmoAxis::X)), (true, false, Some(GizmoAxis::X)), (true, true, None)] {
        let mut state = idle();
        let start = begin_rotate_drag(hit, single, axis, true, true, &AXES, &mut state);
        assert!(!start.started);
        assert!(!start.duplicate);
        assert_eq!(start.axis_visibility, None);
        assert_eq!(state, idle());
    }
}

#[test]
fn press_without_parent_hides_handles_but_starts_nothing() {
    let mut state = idle();
    let start = begin_rotate_drag(true, true, Some(GizmoAxis::X), false, true, &AXES, &mut state);
    assert!(!start.started);
    assert!(!start.duplicate);
    assert_eq!(start.axis_visibility.map(|v| v[0]), Some(VisibilityState::Visible));
    assert_eq!(state, idle());
}

#[test]
fn reset_shows_every_handle_and_ends_the_drag() {
    let mut state = DragFlags { dragging: true, locked_axis: Some(GizmoAxis::Y), drag_ended: false };
    let vis = reset_rotate_drag(&mut state, 4);
    assert_eq!(vis, vec![VisibilityState::Visible; 4]);
    assert_eq!(state, DragFlags { dragging: false, locked_axis: None, drag_ended: true });
}

#[test]
fn dragging_exactly_while_an_axis_is_locked() {
    let mut state = idle();
    assert_eq!(state.dragging, state.locked_axis.is_some());
    begin_rotate_drag(true, true, Some(GizmoAxis::NoAxis), true, false, &AXES, &mut state);
    assert!(state.dragging);
    assert_eq!(state.dragging, state.locked_axis.is_some());
    reset_rotate_drag(&mut state, 0);
    assert!(!state.dragging);
    assert_eq!(state.dragging, state.locked_axis.is_some());
}
