use vstd::prelude::*;

use crate::entity::EntityId;

verus! {

/// Marks a vertex as selected.
pub struct SelectedVertex;

/// Marks an entity that has vertex visualizations spawned for it.
pub struct HasVertexVisualizations;

/// A button held in the current frame, as far as vertex editing cares.
#[derive(Clone, Copy, Debug, PartialEq, Eq, Structural)]
pub enum InputButton {
    ShiftLeft,
    ShiftRight,
    Escape,
    /// Any other key or button.
    Other,
}

/// A change to the `SelectedVertex` markers.
#[derive(Clone, Copy, Debug, PartialEq, Eq, Structural)]
pub enum VertexCommand {
    /// Remove the marker from the vertex.
    Unmark(EntityId),
    /// Put the marker on the vertex.
    Mark(EntityId),
}

/// A shift key is held: clicks add to the vertex selection.
pub open spec fn shift_held(inputs: Seq<InputButton>) -> bool {
    exists|i: int| 0 <= i < inputs.len() && (inputs[i] == InputButton::ShiftLeft || inputs[i] == InputButton::ShiftRight)
}

/// Escape is held: the vertex selection is cleared.
pub open spec fn escape_held(inputs: Seq<InputButton>) -> bool {
    exists|i: int| 0 <= i < inputs.len() && inputs[i] == InputButton::Escape
}

/// Commands that remove the marker from each of `marked`, in order.
pub open spec fn unmark_all(marked: Seq<EntityId>) -> Seq<VertexCommand> {
    marked.map_values(|e: EntityId| VertexCommand::Unmark(e))
}

/// Either Shift key makes a vertex click additive, and nothing else does;
/// holding Escape is what the Escape test sees.
pub proof fn law_shift_and_escape_inputs(inputs: Seq<InputButton>)
    ensures
        shift_held(inputs) <==> (inputs.contains(InputButton::ShiftLeft) || inputs.contains(InputButton::ShiftRight)),
        escape_held(inputs) <==> inputs.contains(InputButton::Escape),
{
    if inputs.contains(InputButton::ShiftLeft) {
        let i = choose|i: int| 0 <= i < inputs.len() && inputs[i] == InputButton::ShiftLeft;
        assert(inputs[i] == InputButton::ShiftLeft);
    }
    if inputs.contains(InputButton::ShiftRight) {
        let i = choose|i: int| 0 <= i < inputs.len() && inputs[i] == InputButton::ShiftRight;
        assert(inputs[i] == InputButton::ShiftRight);
    }
    if shift_held(inputs) {
        let i = choose|i: int|
            0 <= i < inputs.len() && (inputs[i] == InputButton::ShiftLeft || inputs[i] == InputButton::ShiftRight);
        assert(inputs.contains(inputs[i]));
    }
    if escape_held(inputs) {
        let i = choose|i: int| 0 <= i < inputs.len() && inputs[i] == InputButton::Escape;
        assert(inputs.contains(inputs[i]));
    }
}

/// Whether a shift key is among the held buttons.
pub fn is_additive_input(inputs: &[InputButton]) -> (r: bool)
    ensures
        r == shift_held(inputs@),
        r <==> (inputs@.contains(InputButton::ShiftLeft) || inputs@.contains(InputButton::ShiftRight)),
{
    proof {
        law_shift_and_escape_inputs(inputs@);
    }
    let mut i: usize = 0;
    while i < inputs.len()
        invariant
            i <= inputs@.len(),
            forall|j: int| 0 <= j < i ==> inputs@[j] != InputButton::ShiftLeft && inputs@[j] != InputButton::ShiftRight,
        decreases inputs@.len() - i,
    {
        if inputs[i] == InputButton::ShiftLeft || inputs[i] == InputButton::ShiftRight {
            return true;
        }
        i = i + 1;
    }
    false
}

/// Whether Escape is among the held buttons.
pub fn is_escape_input(inputs: &[InputButton]) -> (r: bool)
    ensures
        r == escape_held(inputs@),
        r <==> inputs@.contains(InputButton::Escape),
{
    proof {
        law_shift_and_escape_inputs(inputs@);
    }
    let mut i: usize = 0;
    while i < inputs.len()
        invariant
            i <= inputs@.len(),
            forall|j: int| 0 <= j < i ==> inputs@[j] != InputButton::Escape,
        decreases inputs@.len() - i,
    {
        if inputs[i] == InputButton::Escape {
            return true;
        }
        i = i + 1;
    }
    false
}

fn unmark_commands(marked: &[EntityId]) -> (r: Vec<VertexCommand>)
    ensures
        r@ == unmark_all(marked@),
{
    let mut out: Vec<VertexCommand> = Vec::new();
    let mut i: usize = 0;
    while i < marked.len()
        invariant
            i <= marked@.len(),
            out@ == unmark_all(marked@.subrange(0, i as int)),
        decreases marked@.len() - i,
    {
        out.push(VertexCommand::Unmark(marked[i]));
        assert(unmark_all(marked@.subrange(0, i + 1)) =~= unmark_all(marked@.subrange(0, i as int)).push(
            VertexCommand::Unmark(marked@[i as int]),
        ));
        i = i + 1;
    }
    assert(marked@.subrange(0, marked@.len() as int) =~= marked@);
    out
}

/// Handles a click on a vertex marker: without shift the previous vertex
/// selection (`marked` holds the vertices that carry the marker) is
/// cleared first; then the clicked vertex is marked and recorded.
pub fn handle_vertex_click(
    vertex: EntityId,
    inputs: &[InputButton],
    marked: &[EntityId],
    selected_vertices: &mut Vec<EntityId>,
) -> (commands: Vec<VertexCommand>)
    ensures
        shift_held(inputs@) ==> commands@ == seq![VertexCommand::Mark(vertex)] && final(selected_vertices)@ == old(
            selected_vertices,
        )@.push(vertex),
        !shift_held(inputs@) ==> commands@ == unmark_all(marked@).push(VertexCommand::Mark(vertex))
            && final(selected_vertices)@ == seq![vertex],
        inputs@.contains(InputButton::ShiftLeft) || inputs@.contains(InputButton::ShiftRight) ==> commands@ == seq![
            VertexCommand::Mark(vertex),
        ] && final(selected_vertices)@ == old(selected_vertices)@.push(vertex),
        !inputs@.contains(InputButton::ShiftLeft) && !inputs@.contains(InputButton::ShiftRight)
            ==> final(selected_vertices)@ == seq![vertex] && commands@.len() == marked@.len() + 1 && commands@.last()
            == VertexCommand::Mark(vertex) && forall|i: int|
            0 <= i < marked@.len() ==> #[trigger] commands@[i] == VertexCommand::Unmark(marked@[i]),
{
    proof {
        law_shift_and_escape_inputs(inputs@);
    }
    let is_additive = is_additive_input(inputs);
    let mut commands: Vec<VertexCommand> = Vec::new();
    if !is_additive {
        commands = unmark_commands(marked);
        selected_vertices.clear();
    }
    commands.push(VertexCommand::Mark(vertex));
    selected_vertices.push(vertex);
    proof {
        if is_additive {
            assert(commands@ =~= seq![VertexCommand::Mark(vertex)]);
        } else {
            assert(selected_vertices@ =~= seq![vertex]);
        }
    }
    commands
}

/// The vertex selection is cleared: Escape is held, or the user clicked in
/// empty space.
pub open spec fn deselect_requested(inputs: Seq<InputButton>, clicked_empty_space: bool) -> bool {
    escape_held(inputs) || clicked_empty_space
}

/// Deselects all vertices when Escape is held or the user clicked in empty
/// space: every marked vertex loses its marker and the recorded selection
/// is emptied. `None`, with nothing changed, otherwise.
pub fn deselect_all_vertices(
    inputs: &[InputButton],
    clicked_empty_space: bool,
    marked: &[EntityId],
    selected_vertices: &mut Vec<EntityId>,
) -> (commands: Option<Vec<VertexCommand>>)
    ensures
        deselect_requested(inputs@, clicked_empty_space) ==> (commands matches Some(c) && c@ == unmark_all(marked@)),
        deselect_requested(inputs@, clicked_empty_space) ==> final(selected_vertices)@.len() == 0,
        !deselect_requested(inputs@, clicked_empty_space) ==> commands is None && final(selected_vertices)@ == old(
            selected_vertices,
        )@,
        inputs@.contains(InputButton::Escape) || clicked_empty_space ==> final(selected_vertices)@.len() == 0,
        inputs@.contains(InputButton::Escape) || clicked_empty_space ==> (commands matches Some(c) && c@.len()
            == marked@.len() && forall|i: int|
            0 <= i < marked@.len() ==> #[trigger] c@[i] == VertexCommand::Unmark(marked@[i])),
        !inputs@.contains(InputButton::Escape) && !clicked_empty_space ==> commands is None,
{
    proof {
        law_shift_and_escape_inputs(inputs@);
    }
    if clicked_empty_space || is_escape_input(inputs) {
        let commands = unmark_commands(marked);
        selected_vertices.clear();
        Some(commands)
    } else {
        None
    }
}

} // verus!
