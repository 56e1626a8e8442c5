use vstd::prelude::*;

use crate::entity::EntityId;
use crate::gizmo::VisibilityState;

verus! {

/// The visibility given to the children of an empty: hidden when the empty
/// hides its children, otherwise inherited from it.
pub open spec fn children_visibility(hide_children: bool) -> VisibilityState {
    if hide_children {
        VisibilityState::Hidden
    } else {
        VisibilityState::Inherited
    }
}

/// The visibility to set on each child of an updated empty.
pub fn update_empty_children(hide_children: bool, children: &[EntityId]) -> (r: Vec<(EntityId, VisibilityState)>)
    ensures
        r@.len() == children@.len(),
        forall|i: int| 0 <= i < children@.len() ==> #[trigger] r@[i] == (children@[i], children_visibility(hide_children)),
{
    let visibility = if hide_children {
        VisibilityState::Hidden
    } else {
        VisibilityState::Inherited
    };
    let mut out: Vec<(EntityId, VisibilityState)> = Vec::new();
    let mut i: usize = 0;
    while i < children.len()
        invariant
            i <= children@.len(),
            visibility == children_visibility(hide_children),
            out@.len() == i,
            forall|j: int| 0 <= j < i ==> #[trigger] out@[j] == (children@[j], children_visibility(hide_children)),
        decreases children@.len() - i,
    {
        out.push((children[i], visibility));
        i = i + 1;
    }
    out
}

/// Puts the special "None" material and the default material in front of
/// the available materials, creating the list when there is none.
pub fn insert_fallback_materials<T>(materials: &mut Option<Vec<T>>, none_material: T, default_material: T)
    ensures
        *final(materials) matches Some(v) && v@ == seq![none_material, default_material] + match *old(materials) {
            Some(old_v) => old_v@,
            None => Seq::empty(),
        },
{
    match materials {
        Some(list) => {
            let ghost before = list@;
            list.insert(0, none_material);
            list.insert(1, default_material);
            assert(list@ =~= seq![none_material, default_material] + before);
        },
        None => {
            let mut list: Vec<T> = Vec::new();
            list.push(none_material);
            list.push(default_material);
            assert(list@ =~= seq![none_material, default_material] + Seq::<T>::empty());
            *materials = Some(list);
        },
    }
}

} // verus!
