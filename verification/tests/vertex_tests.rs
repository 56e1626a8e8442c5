use bevy_granite::entity::EntityId;
use bevy_granite::vertex::{deselect_all_vertices, handle_vertex_click, InputButton, VertexCommand};

#[test]
fn plain_click_replaces_vertex_selection() {
    let e = EntityId;
    let mut selected = vec![e(1), e(2)];
    let cmds = handle_vertex_click(e(5), &[InputButton::Other], &[e(1), e(2)], &mut selected);
    assert_eq!(cmds, vec![VertexCommand::Unmark(e(1)), VertexCommand::Unmark(e(2)), VertexCommand::Mark(e(5))]);
    assert_eq!(selected, vec![e(5)]);
}

#[test]
fn shift_click_adds_to_vertex_selection() {
    let e = EntityId;
    let mut selected = vec![e(1)];
    let cmds = handle_vertex_click(e(5), &[InputButton::ShiftRight], &[e(1)], &mut selected);
    assert_eq!(cmds, vec![VertexCommand::Mark(e(5))]);
    assert_eq!(selected, vec![e(1), e(5)]);
}

#[test]
fn escape_clears_vertex_selection() {
    let e = EntityId;
    let mut selected = vec![e(1), e(2)];
    let cmds = deselect_all_vertices(&[InputButton::Escape], false, &[e(2)], &mut selected);
    assert_eq!(cmds, Some(vec![VertexCommand::Unmark(e(2))]));
    assert!(selected.is_empty());
}

#[test]
fn no_escape_keeps_vertex_selection() {
    let e = EntityId;
    let mut selected = vec![e(1)];
    assert_eq!(deselect_all_vertices(&[InputButton::ShiftLeft], false, &[e(1)], &mut selected), None);
    assert_eq!(selected, vec![e(1)]);
}

#[test]
fn click_in_empty_space_clears_vertex_selection() {
    let e = EntityId;
    let mut selected = vec![e(1), e(2)];
    let cmds = deselect_all_vertices(&[], true, &[e(1), e(2)], &mut selected);
    assert_eq!(cmds, Some(vec![VertexCommand::Unmark(e(1)), VertexCommand::Unmark(e(2))]));
    assert!(selected.is_empty());
}
