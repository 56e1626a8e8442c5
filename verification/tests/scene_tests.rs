use bevy_granite::entity::EntityId;
use bevy_granite::gizmo::VisibilityState;
use bevy_granite::scene::{insert_fallback_materials, update_empty_children};

#[test]
fn hidden_children() {
    let e = EntityId;
    assert_eq!(
        update_empty_children(true, &[e(1), e(2)]),
        vec![(e(1), VisibilityState::Hidden), (e(2), VisibilityState::Hidden)]
    );
    assert_eq!(update_empty_children(false, &[e(3)]), vec![(e(3), VisibilityState::Inherited)]);
}

#[test]
fn fallback_materials_go_first() {
    let mut materials = Some(vec!["brick"]);
    insert_fallback_materials(&mut materials, "None", "default");
    assert_eq!(materials, Some(vec!["None", "default", "brick"]));
    let mut none: Option<Vec<&str>> = None;
    insert_fallback_materials(&mut none, "None", "default");
    assert_eq!(none, Some(vec!["None", "default"]));
}

#[test]
fn entity_bits_round_trip() {
    let e = EntityId::from_bits(42);
    assert_eq!(e.to_bits(), 42);
}
