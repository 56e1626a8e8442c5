use vstd::prelude::*;

use crate::entity::{contains_entity, EntityId};

verus! {

/// The handle of a gizmo that the user grabbed.
#[derive(Clone, Copy, Debug, PartialEq, Eq, Structural)]
pub enum GizmoAxis {
    X,
    Y,
    Z,
    /// The free-rotation handle.
    All,
    /// No handle.
    NoAxis,
}

/// Whether an entity is drawn.
#[derive(Clone, Copy, Debug, PartialEq, Eq, Structural)]
pub enum VisibilityState {
    Visible,
    Hidden,
    /// Drawn when its parent is.
    Inherited,
}

/// The state of a mouse button in the current frame.
#[derive(Clone, Copy, Debug, PartialEq, Eq, Structural)]
pub struct ButtonState {
    /// Pressed, just pressed or just released.
    pub any: bool,
    pub just_pressed: bool,
    pub pressed: bool,
    pub just_released: bool,
}

/// The step of a rotation drag that the input asks for.
#[derive(Clone, Copy, Debug, PartialEq, Eq, Structural)]
pub enum RotateDragEvent {
    /// Start a drag.
    Init,
    /// Continue the drag.
    Dragging,
    /// End the drag.
    Reset,
}

/// The rotation-drag step for this frame's left mouse button: start when
/// the button goes down outside the UI and no drag runs, continue while it
/// stays down, end when it comes up. Nothing unless the rotate gizmo is the
/// chosen tool and exactly one entity is active.
pub open spec fn rotate_input_spec(
    mouse_left: ButtonState,
    mouse_over_ui: bool,
    rotate_tool: bool,
    single_active: bool,
    dragging: bool,
) -> Option<RotateDragEvent> {
    if !mouse_left.any || !rotate_tool || !single_active {
        None
    } else if mouse_left.just_pressed && !dragging && !mouse_over_ui {
        Some(RotateDragEvent::Init)
    } else if mouse_left.pressed && dragging {
        Some(RotateDragEvent::Dragging)
    } else if mouse_left.just_released && dragging {
        Some(RotateDragEvent::Reset)
    } else {
        None
    }
}

/// How the left mouse button drives a rotation drag: nothing happens unless
/// the button is involved, the rotate tool is chosen and exactly one entity
/// is active; then a press away from the UI starts a drag when none runs, a
/// held button continues a running drag, and a release ends it wherever the
/// pointer is. Only the start of a drag depends on the pointer being over
/// the UI, and a continue or end happens only while a drag runs.
pub proof fn law_rotate_input_decisions(
    b: ButtonState,
    over_ui: bool,
    rotate_tool: bool,
    single_active: bool,
    dragging: bool,
)
    ensures
        !b.any || !rotate_tool || !single_active ==> rotate_input_spec(b, over_ui, rotate_tool, single_active, dragging)
            is None,
        b.any && rotate_tool && single_active && !dragging && b.just_pressed && !over_ui ==> rotate_input_spec(
            b,
            over_ui,
            rotate_tool,
            single_active,
            dragging,
        ) == Some(RotateDragEvent::Init),
        b.any && rotate_tool && single_active && dragging && b.pressed ==> rotate_input_spec(
            b,
            over_ui,
            rotate_tool,
            single_active,
            dragging,
        ) == Some(RotateDragEvent::Dragging),
        b.any && rotate_tool && single_active && dragging && b.just_released && !b.pressed ==> rotate_input_spec(
            b,
            over_ui,
            rotate_tool,
            single_active,
            dragging,
        ) == Some(RotateDragEvent::Reset),
        rotate_input_spec(b, over_ui, rotate_tool, single_active, dragging) == Some(RotateDragEvent::Init) ==> !over_ui
            && !dragging && b.just_pressed,
        rotate_input_spec(b, over_ui, rotate_tool, single_active, dragging) == Some(RotateDragEvent::Dragging)
            ==> dragging && b.pressed,
        rotate_input_spec(b, over_ui, rotate_tool, single_active, dragging) == Some(RotateDragEvent::Reset)
            ==> dragging && b.just_released,
        rotate_input_spec(b, true, rotate_tool, single_active, dragging) == if rotate_input_spec(
            b,
            false,
            rotate_tool,
            single_active,
            dragging,
        ) == Some(RotateDragEvent::Init) {
            None
        } else {
            rotate_input_spec(b, false, rotate_tool, single_active, dragging)
        },
{
}

/// Decides the rotation-drag event of a frame from the left mouse button.
pub fn handle_rotate_input(
    mouse_left: ButtonState,
    mouse_over_ui: bool,
    rotate_tool: bool,
    single_active: bool,
    dragging: bool,
) -> (r: Option<RotateDragEvent>)
    ensures
        r == rotate_input_spec(mouse_left, mouse_over_ui, rotate_tool, single_active, dragging),
        mouse_left.any && rotate_tool && single_active && dragging && mouse_left.just_released && !mouse_left.pressed
            ==> r == Some(RotateDragEvent::Reset),
        mouse_left.any && rotate_tool && single_active && dragging && mouse_left.pressed ==> r == Some(
            RotateDragEvent::Dragging,
        ),
        r == Some(RotateDragEvent::Init) ==> !mouse_over_ui && !dragging && mouse_left.just_pressed,
{
    proof {
        law_rotate_input_decisions(mouse_left, mouse_over_ui, rotate_tool, single_active, dragging);
    }
    if !mouse_left.any {
        return None;
    }
    if !rotate_tool {
        return None;
    }
    if !single_active {
        return None;
    }
    if mouse_left.just_pressed && !dragging && !mouse_over_ui {
        Some(RotateDragEvent::Init)
    } else if mouse_left.pressed && dragging {
        Some(RotateDragEvent::Dragging)
    } else if mouse_left.just_released && dragging {
        Some(RotateDragEvent::Reset)
    } else {
        None
    }
}

/// The visibility of each handle (given by its axis) while `selected` is
/// dragged: the dragged handle stays, the others hide.
pub open spec fn visibility_while_dragging(selected: GizmoAxis, axes: Seq<GizmoAxis>) -> Seq<VisibilityState> {
    Seq::new(
        axes.len(),
        |i: int|
            if axes[i] == selected {
                VisibilityState::Visible
            } else {
                VisibilityState::Hidden
            },
    )
}

/// The visibility of each handle while `selected_axis` is dragged: the
/// dragged handle stays, the others hide.
pub fn hide_unselected_axes(selected_axis: GizmoAxis, axes: &[GizmoAxis]) -> (r: Vec<VisibilityState>)
    ensures
        r@ == visibility_while_dragging(selected_axis, axes@),
{
    let mut out: Vec<VisibilityState> = Vec::new();
    let mut i: usize = 0;
    while i < axes.len()
        invariant
            i <= axes@.len(),
            out@.len() == i,
            forall|j: int|
                0 <= j < i ==> #[trigger] out@[j] == if axes@[j] == selected_axis {
                    VisibilityState::Visible
                } else {
                    VisibilityState::Hidden
                },
        decreases axes@.len() - i,
    {
        if axes[i] == selected_axis {
            out.push(VisibilityState::Visible);
        } else {
            out.push(VisibilityState::Hidden);
        }
        i = i + 1;
    }
    assert(out@ =~= visibility_while_dragging(selected_axis, axes@));
    out
}

/// The part of a rotation drag that lives between frames and is not an
/// angle or a position.
#[derive(Clone, Copy, Debug, PartialEq, Eq, Structural)]
pub struct DragFlags {
    /// A drag runs.
    pub dragging: bool,
    /// The handle that the running drag turns about.
    pub locked_axis: Option<GizmoAxis>,
    /// The last drag has ended.
    pub drag_ended: bool,
}

/// A drag runs exactly when a handle is locked.
pub open spec fn drag_flags_consistent(s: DragFlags) -> bool {
    s.dragging <==> s.locked_axis is Some
}

/// A press starts a drag when it hit a gizmo handle (not a mesh, not
/// nothing), exactly one entity is active, the handle's axis is known and
/// the gizmo's parent has a transform.
pub open spec fn starts_rotate_drag(
    hit_is_gizmo: bool,
    single_active: bool,
    axis: Option<GizmoAxis>,
    parent_found: bool,
) -> bool {
    hit_is_gizmo && single_active && axis is Some && parent_found
}

/// The flags after a press: a started drag locks the grabbed handle, and
/// otherwise nothing changes.
pub open spec fn flags_after_press(
    s: DragFlags,
    hit_is_gizmo: bool,
    single_active: bool,
    axis: Option<GizmoAxis>,
    parent_found: bool,
) -> DragFlags {
    if starts_rotate_drag(hit_is_gizmo, single_active, axis, parent_found) {
        DragFlags { dragging: true, locked_axis: axis, drag_ended: s.drag_ended }
    } else {
        s
    }
}

/// The flags after a drag is reset: none runs, no handle is locked, and the
/// drag is marked ended.
pub open spec fn flags_after_reset(s: DragFlags) -> DragFlags {
    DragFlags { dragging: false, locked_axis: None, drag_ended: true }
}

/// What a press on the rotate gizmo asks of the scene.
#[derive(Debug)]
pub struct RotateDragStart {
    /// The visibility of each handle, once the grabbed handle is known.
    pub axis_visibility: Option<Vec<VisibilityState>>,
    /// A drag started.
    pub started: bool,
    /// The selection is to be duplicated before it turns.
    pub duplicate: bool,
}

/// Starts a rotation drag on a press: the grabbed handle stays visible and
/// the others hide as soon as the handle is known; the drag starts, locked
/// to that handle, when the gizmo's parent has a transform; with Shift held
/// a started drag first duplicates the selection.
pub fn begin_rotate_drag(
    hit_is_gizmo: bool,
    single_active: bool,
    axis: Option<GizmoAxis>,
    parent_found: bool,
    shift_pressed: bool,
    axes: &[GizmoAxis],
    state: &mut DragFlags,
) -> (r: RotateDragStart)
    ensures
        r.axis_visibility is Some <==> (hit_is_gizmo && single_active && axis is Some),
        r.axis_visibility is Some ==> r.axis_visibility->0@ == visibility_while_dragging(axis->0, axes@),
        r.started == starts_rotate_drag(hit_is_gizmo, single_active, axis, parent_found),
        r.duplicate == (r.started && shift_pressed),
        *final(state) == flags_after_press(*old(state), hit_is_gizmo, single_active, axis, parent_found),
{
    if !hit_is_gizmo || !single_active {
        return RotateDragStart { axis_visibility: None, started: false, duplicate: false };
    }
    match axis {
        None => RotateDragStart { axis_visibility: None, started: false, duplicate: false },
        Some(a) => {
            let visibility = hide_unselected_axes(a, axes);
            if !parent_found {
                return RotateDragStart { axis_visibility: Some(visibility), started: false, duplicate: false };
            }
            state.dragging = true;
            state.locked_axis = Some(a);
            RotateDragStart { axis_visibility: Some(visibility), started: true, duplicate: shift_pressed }
        },
    }
}

/// Ends a rotation drag: every one of the `n_axes` handles shows again, no
/// drag runs, no handle is locked, and the drag is marked ended.
pub fn reset_rotate_drag(state: &mut DragFlags, n_axes: usize) -> (vis: Vec<VisibilityState>)
    ensures
        *final(state) == flags_after_reset(*old(state)),
        vis@ == Seq::new(n_axes as nat, |i: int| VisibilityState::Visible),
{
    let mut vis: Vec<VisibilityState> = Vec::new();
    let mut i: usize = 0;
    while i < n_axes
        invariant
            i <= n_axes,
            vis@ == Seq::new(i as nat, |j: int| VisibilityState::Visible),
        decreases n_axes - i,
    {
        vis.push(VisibilityState::Visible);
        i = i + 1;
        assert(vis@ =~= Seq::new(i as nat, |j: int| VisibilityState::Visible));
    }
    state.dragging = false;
    state.locked_axis = None;
    state.drag_ended = true;
    vis
}

/// A drag runs exactly when a handle is locked, before and after any press
/// and any reset; after a reset no drag runs, whatever ran before.
pub proof fn law_drag_runs_iff_axis_locked(
    s: DragFlags,
    hit_is_gizmo: bool,
    single_active: bool,
    axis: Option<GizmoAxis>,
    parent_found: bool,
)
    requires
        drag_flags_consistent(s),
    ensures
        drag_flags_consistent(flags_after_press(s, hit_is_gizmo, single_active, axis, parent_found)),
        drag_flags_consistent(flags_after_reset(s)),
        !flags_after_reset(flags_after_press(s, hit_is_gizmo, single_active, axis, parent_found)).dragging,
{
}

/// A selected entity is a root of the selection when its parent is not
/// selected too.
pub open spec fn is_selection_root(selected: Seq<EntityId>, parent: Option<EntityId>) -> bool {
    match parent {
        Some(p) => !selected.contains(p),
        None => true,
    }
}

/// The roots among the first `n` selected entities, in selection order.
pub open spec fn selection_roots(selected: Seq<EntityId>, parents: Seq<Option<EntityId>>, n: nat) -> Seq<EntityId>
    decreases n,
{
    if n == 0 {
        Seq::empty()
    } else {
        let before = selection_roots(selected, parents, (n - 1) as nat);
        if is_selection_root(selected, parents[n - 1]) {
            before.push(selected[n - 1])
        } else {
            before
        }
    }
}

/// The selected entities whose parent is not selected (`parents[i]` is the
/// parent of `selected[i]`): the ones a rotation is applied to, since their
/// selected children follow them through the hierarchy.
pub fn root_entities(selected: &[EntityId], parents: &[Option<EntityId>]) -> (roots: Vec<EntityId>)
    requires
        parents@.len() == selected@.len(),
    ensures
        roots@ == selection_roots(selected@, parents@, selected@.len()),
        roots@ == unparented_indices(selected@, parents@, selected@.len()).map_values(|i: int| selected@[i]),
        forall|e: EntityId|
            #[trigger] roots@.contains(e) <==> exists|i: int|
                0 <= i < selected@.len() && selected@[i] == e && (parents@[i] is None || !selected@.contains(
                    parents@[i].unwrap(),
                )),
{
    proof {
        law_roots_are_exactly_the_unparented(selected@, parents@, selected@.len());
        law_roots_in_selection_order(selected@, parents@, selected@.len());
    }
    let mut roots: Vec<EntityId> = Vec::new();
    let mut i: usize = 0;
    while i < selected.len()
        invariant
            i <= selected@.len(),
            parents@.len() == selected@.len(),
            roots@ == selection_roots(selected@, parents@, i as nat),
        decreases selected@.len() - i,
    {
        let is_child_of_selected = match parents[i] {
            Some(parent) => contains_entity(selected, parent),
            None => false,
        };
        if !is_child_of_selected {
            roots.push(selected[i]);
        }
        i = i + 1;
    }
    roots
}

/// The indices among the first `n` selected entities whose parent is
/// missing or lies outside the whole selection, in increasing order.
pub open spec fn unparented_indices(selected: Seq<EntityId>, parents: Seq<Option<EntityId>>, n: nat) -> Seq<int> {
    Seq::new(n, |i: int| i).filter(|i: int| parents[i] is None || !selected.contains(parents[i].unwrap()))
}

/// The roots, in selection order, are the selected entities whose parent is
/// missing or lies outside the whole selection: each such entity once per
/// place it holds in the selection, and no other.
pub proof fn law_roots_in_selection_order(selected: Seq<EntityId>, parents: Seq<Option<EntityId>>, n: nat)
    requires
        n <= selected.len(),
        parents.len() == selected.len(),
    ensures
        selection_roots(selected, parents, n) == unparented_indices(selected, parents, n).map_values(
            |i: int| selected[i],
        ),
    decreases n,
{
    let pred = |i: int| parents[i] is None || !selected.contains(parents[i].unwrap());
    reveal(Seq::filter);
    if n == 0 {
        assert(Seq::new(0, |i: int| i).filter(pred) =~= Seq::<int>::empty());
        assert(selection_roots(selected, parents, n) =~= unparented_indices(selected, parents, n).map_values(
            |i: int| selected[i],
        ));
    } else {
        let m = (n - 1) as nat;
        law_roots_in_selection_order(selected, parents, m);
        let idx = Seq::new(n, |i: int| i);
        assert(idx.drop_last() =~= Seq::new(m, |i: int| i));
        assert(idx.last() == m as int);
        let before = unparented_indices(selected, parents, m);
        if pred(m as int) {
            assert(unparented_indices(selected, parents, n) == before.push(m as int));
            assert(before.push(m as int).map_values(|i: int| selected[i]) =~= before.map_values(
                |i: int| selected[i],
            ).push(selected[m as int]));
        } else {
            assert(unparented_indices(selected, parents, n) == before);
        }
    }
}

/// Among the first `n` selected entities, the roots are exactly those whose
/// parent is missing or lies outside the whole selection.
pub proof fn law_roots_are_exactly_the_unparented(selected: Seq<EntityId>, parents: Seq<Option<EntityId>>, n: nat)
    requires
        n <= selected.len(),
        parents.len() == selected.len(),
    ensures
        forall|e: EntityId|
            #[trigger] selection_roots(selected, parents, n).contains(e) <==> exists|i: int|
                0 <= i < n && selected[i] == e && (parents[i] is None || !selected.contains(parents[i].unwrap())),
    decreases n,
{
    if n > 0 {
        let m = (n - 1) as nat;
        law_roots_are_exactly_the_unparented(selected, parents, m);
        let before = selection_roots(selected, parents, m);
        let now = selection_roots(selected, parents, n);
        assert forall|e: EntityId| #[trigger] now.contains(e) <==> exists|i: int|
            0 <= i < n && selected[i] == e && (parents[i] is None || !selected.contains(parents[i].unwrap())) by {
            let last_root = parents[m as int] is None || !selected.contains(parents[m as int].unwrap());
            if now.contains(e) {
                if before.contains(e) {
                    let i = choose|i: int|
                        0 <= i < m && selected[i] == e && (parents[i] is None || !selected.contains(
                            parents[i].unwrap(),
                        ));
                    assert(0 <= i < n);
                } else {
                    let k = choose|k: int| 0 <= k < now.len() && now[k] == e;
                    assert(k == before.len());
                    assert(selected[m as int] == e && last_root);
                }
            }
            if exists|i: int|
                0 <= i < n && selected[i] == e && (parents[i] is None || !selected.contains(parents[i].unwrap())) {
                let i = choose|i: int|
                    0 <= i < n && selected[i] == e && (parents[i] is None || !selected.contains(parents[i].unwrap()));
                if i < m {
                    assert(before.contains(e));
                    let k = choose|k: int| 0 <= k < before.len() && before[k] == e;
                    if last_root {
                        assert(now[k] == e);
                    }
                } else {
                    assert(now[before.len() as int] == e);
                }
            }
        }
    }
}

/// The roots are selected entities whose parent is not selected, and every
/// selected entity whose parent is not selected is a root; the others have
/// their parent in the selection.
pub proof fn law_selection_roots(selected: Seq<EntityId>, parents: Seq<Option<EntityId>>, n: nat)
    requires
        n <= selected.len(),
        parents.len() == selected.len(),
    ensures
        forall|e: EntityId| selection_roots(selected, parents, n).contains(e) ==> selected.subrange(0, n as int).contains(e),
        forall|i: int|
            0 <= i < n && is_selection_root(selected, parents[i]) ==> selection_roots(selected, parents, n).contains(
                #[trigger] selected[i],
            ),
        forall|i: int|
            0 <= i < n && !is_selection_root(selected, #[trigger] parents[i]) ==> selected.contains(parents[i].unwrap()),
    decreases n,
{
    if n > 0 {
        let m = (n - 1) as nat;
        law_selection_roots(selected, parents, m);
        let before = selection_roots(selected, parents, m);
        let now = selection_roots(selected, parents, n);
        assert forall|e: EntityId| now.contains(e) implies selected.subrange(0, n as int).contains(e) by {
            if before.contains(e) {
                let j = choose|j: int| 0 <= j < m && selected.subrange(0, m as int)[j] == e;
                assert(selected.subrange(0, n as int)[j] == e);
            } else {
                let k = choose|k: int| 0 <= k < now.len() && now[k] == e;
                assert(k == before.len());
                assert(selected.subrange(0, n as int)[m as int] == e);
            }
        }
        assert forall|i: int| 0 <= i < n && is_selection_root(selected, parents[i]) implies now.contains(#[trigger] selected[i]) by {
            if i < m {
                let k = choose|k: int| 0 <= k < before.len() && before[k] == selected[i];
                if is_selection_root(selected, parents[m as int]) {
                    assert(now[k] == selected[i]);
                }
            } else {
                assert(now[before.len() as int] == selected[i]);
            }
        }
    }
}

} // verus!
