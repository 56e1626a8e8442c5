use bevy_granite::entity::EntityId;
use bevy_granite::hierarchy::{
    descendant_walk_terminates, drop_check_terminates, expand_to_entity, find_entry_index, has_finite_chain, is_descendant_of, is_forest, is_valid_drop,
    nth_ancestor_of, parent_of, HierarchyEntry,
};

fn e(n: u64) -> EntityId {
    EntityId(n)
}

fn row(entity: u64, parent: Option<u64>) -> HierarchyEntry {
    HierarchyEntry { entity: e(entity), parent: parent.map(e), is_expanded: false }
}

/// 1 is the root; 2 and 4 are its children; 3 is a child of 2.
fn sample() -> Vec<HierarchyEntry> {
    vec![row(1, None), row(2, Some(1)), row(3, Some(2)), row(4, Some(1))]
}

#[test]
fn descendant_through_two_links() {
    let h = sample();
    assert!(is_descendant_of(e(3), e(1), &h));
    assert!(is_descendant_of(e(3), e(2), &h));
    assert!(is_descendant_of(e(2), e(1), &h));
}

#[test]
fn ancestor_is_not_descendant() {
    let h = sample();
    assert!(!is_descendant_of(e(1), e(3), &h));
    assert!(!is_descendant_of(e(4), e(2), &h));
}

#[test]
fn entity_is_not_its_own_descendant() {
    let h = sample();
    for x in 1..=4 {
        assert!(!is_descendant_of(e(x), e(x), &h));
    }
}

#[test]
fn unknown_entity_has_no_ancestors() {
    let h = sample();
    assert!(!is_descendant_of(e(9), e(1), &h));
}

#[test]
fn dangling_parent_is_an_ancestor_but_ends_the_chain() {
    // 5's parent 7 has no row: 7 counts as an ancestor, nothing above it.
    let h = vec![row(5, Some(7))];
    assert!(is_descendant_of(e(5), e(7), &h));
    assert!(!is_descendant_of(e(5), e(8), &h));
}

#[test]
fn first_row_of_an_entity_decides_its_parent() {
    let h = vec![row(2, Some(1)), row(2, Some(3)), row(1, None), row(3, None)];
    assert_eq!(find_entry_index(&h, e(2)), Some(0));
    assert_eq!(parent_of(&h, e(2)), Some(e(1)));
    assert!(is_descendant_of(e(2), e(1), &h));
    assert!(!is_descendant_of(e(2), e(3), &h));
}

#[test]
fn descends_from_is_transitive_on_a_chain() {
    // 3 below 2, 2 below 1: then 3 below 1.
    let h = sample();
    assert!(is_descendant_of(e(3), e(2), &h) && is_descendant_of(e(2), e(1), &h));
    assert!(is_descendant_of(e(3), e(1), &h));
}

#[test]
fn drop_onto_dragged_entity_is_invalid() {
    let h = sample();
    assert!(!is_valid_drop(&[e(2), e(4)], e(4), &h));
}

#[test]
fn drop_parent_onto_its_descendant_is_invalid() {
    let h = sample();
    assert!(!is_valid_drop(&[e(1)], e(3), &h));
    assert!(!is_valid_drop(&[e(4), e(2)], e(3), &h));
}

#[test]
fn drop_onto_unrelated_entity_is_valid() {
    let h = sample();
    assert!(is_valid_drop(&[e(3)], e(4), &h));
    assert!(is_valid_drop(&[e(4)], e(2), &h));
    assert!(is_valid_drop(&[], e(2), &h));
}

fn reparent(h: &[HierarchyEntry], dragged: &[EntityId], target: EntityId) -> Vec<HierarchyEntry> {
    h.iter()
        .map(|r| HierarchyEntry {
            entity: r.entity,
            parent: if dragged.contains(&r.entity) { Some(target) } else { r.parent },
            is_expanded: r.is_expanded,
        })
        .collect()
}

#[test]
fn valid_drop_keeps_every_chain_finite() {
    let h = sample();
    let dragged = [e(2), e(4)];
    // 3 is below 2, so dropping 2 and 4 onto 3 is refused; dropping 3 onto 4 is not.
    assert!(!is_valid_drop(&dragged, e(3), &h));
    assert!(is_valid_drop(&[e(3)], e(4), &h));
    let after = reparent(&h, &[e(3)], e(4));
    for x in 1..=4 {
        assert!(!is_descendant_of(e(x), e(x), &after));
    }
    assert!(is_descendant_of(e(3), e(1), &after));
}

#[test]
fn invalid_drop_would_make_a_cycle() {
    let h = sample();
    assert!(!is_valid_drop(&[e(1)], e(3), &h));
    // Dropping 1 onto 3 would make 1 its own ancestor.
    let after = reparent(&h, &[e(1)], e(3));
    assert!(is_descendant_of(e(1), e(1), &after));
}

#[test]
fn expand_unfolds_exactly_the_ancestors() {
    let mut h = sample();
    expand_to_entity(&mut h, e(3));
    let expanded: Vec<bool> = h.iter().map(|r| r.is_expanded).collect();
    assert_eq!(expanded, vec![true, true, false, false]);
    let parents: Vec<Option<EntityId>> = h.iter().map(|r| r.parent).collect();
    assert_eq!(parents, vec![None, Some(e(1)), Some(e(2)), Some(e(1))]);
}

#[test]
fn expand_is_idempotent() {
    let mut once = sample();
    expand_to_entity(&mut once, e(3));
    let mut twice = once.clone();
    expand_to_entity(&mut twice, e(3));
    assert_eq!(once, twice);
}

#[test]
fn expand_root_changes_nothing() {
    let mut h = sample();
    expand_to_entity(&mut h, e(1));
    assert_eq!(h, sample());
}

#[test]
fn expand_marks_only_first_row_of_an_ancestor() {
    let mut h = vec![row(1, None), row(1, None), row(2, Some(1))];
    expand_to_entity(&mut h, e(2));
    assert!(h[0].is_expanded);
    assert!(!h[1].is_expanded);
    assert!(!h[2].is_expanded);
}

#[test]
fn nth_ancestor_walks_up() {
    let h = sample();
    assert_eq!(nth_ancestor_of(&h, e(3), 0), Some(e(3)));
    assert_eq!(nth_ancestor_of(&h, e(3), 1), Some(e(2)));
    assert_eq!(nth_ancestor_of(&h, e(3), 2), Some(e(1)));
    assert_eq!(nth_ancestor_of(&h, e(3), 3), None);
    assert_eq!(nth_ancestor_of(&h, e(3), 10), None);
}

#[test]
fn forest_detection() {
    assert!(is_forest(&sample()));
    assert!(has_finite_chain(&sample(), e(3)));
    assert!(is_forest(&[]));
    // 1 and 2 are each other's parent.
    let looped = vec![row(1, Some(2)), row(2, Some(1)), row(3, None)];
    assert!(!is_forest(&looped));
    assert!(!has_finite_chain(&looped, e(1)));
    assert!(has_finite_chain(&looped, e(3)));
    assert!(has_finite_chain(&looped, e(9)));
}

#[test]
fn self_parent_is_a_loop() {
    let looped = vec![row(4, Some(4))];
    assert!(!has_finite_chain(&looped, e(4)));
    // The walk meets the ancestor on the loop and stops.
    assert!(is_descendant_of(e(4), e(4), &looped));
}

#[test]
fn longest_chain_fits_the_row_count() {
    // A chain through every row ends right after the last one.
    let h = vec![row(4, Some(3)), row(3, Some(2)), row(2, Some(1)), row(1, None)];
    assert_eq!(nth_ancestor_of(&h, e(4), 3), Some(e(1)));
    assert_eq!(nth_ancestor_of(&h, e(4), h.len() + 1), None);
    assert!(has_finite_chain(&h, e(4)));
}

#[test]
fn walk_stops_on_finite_chains_and_on_loops_that_meet_the_ancestor() {
    assert!(descendant_walk_terminates(e(3), e(9), &sample()));
    // 1 -> 2 -> 1 loops; 5 hangs below it.
    let looped = vec![row(1, Some(2)), row(2, Some(1)), row(5, Some(1))];
    assert!(descendant_walk_terminates(e(5), e(2), &looped));
    assert!(descendant_walk_terminates(e(5), e(1), &looped));
    assert!(!descendant_walk_terminates(e(5), e(7), &looped));
}

#[test]
fn drop_check_stops_exactly_when_the_walk_does() {
    let looped = vec![row(1, Some(2)), row(2, Some(1)), row(5, Some(1))];
    assert!(drop_check_terminates(&[e(5)], e(5), &looped));
    assert!(drop_check_terminates(&[], e(5), &looped));
    assert!(drop_check_terminates(&[e(2), e(7)], e(5), &looped));
    assert!(!drop_check_terminates(&[e(7)], e(5), &looped));
    assert!(drop_check_terminates(&[e(7)], e(3), &sample()));
}
