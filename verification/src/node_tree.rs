use vstd::prelude::*;

use crate::entity::{
    contains_entity, first_position, is_first_position, lemma_first_position_contains, position_of, EntityId,
};
use crate::hierarchy::{
    chain_ends, drop_check_terminates, drop_check_stops, drop_is_valid, expand_spec, expand_to_entity,
    has_finite_chain, is_valid_drop,
    HierarchyEntry,
};

verus! {

/// A selection request sent to the selection system.
#[derive(Clone, Copy, Debug, PartialEq, Eq, Structural)]
pub enum EntityEvent {
    /// Select `target`; `additive` keeps the current selection.
    Select { target: EntityId, additive: bool },
    /// Remove `target` from the selection.
    Deselect { target: EntityId },
}

/// The state of the node-tree tab: its rows, the selection it mirrors, the
/// click being processed and the drag in progress.
pub struct NodeTreeTabData {
    pub hierarchy: Vec<HierarchyEntry>,
    pub selected_entities: Vec<EntityId>,
    pub active_selection: Option<EntityId>,
    pub previous_active_selection: Option<EntityId>,
    pub new_selection: Option<EntityId>,
    pub clicked_via_node_tree: bool,
    pub additive_selection: bool,
    pub range_selection: bool,
    pub tree_click_frames_remaining: u32,
    pub drag_payload: Option<Vec<EntityId>>,
    pub drop_target: Option<EntityId>,
    pub should_scroll_to_selection: bool,
}

/// Frames during which a click made in the tree is not treated as an
/// outside selection change.
pub const TREE_CLICK_PROTECTION_FRAMES: u32 = 3;

impl NodeTreeTabData {
    /// An empty tab: no rows, no selection, nothing pending.
    pub fn new() -> (r: NodeTreeTabData)
        ensures
            r.hierarchy@.len() == 0,
            r.selected_entities@.len() == 0,
            r.active_selection is None,
            r.previous_active_selection is None,
            r.new_selection is None,
            !r.clicked_via_node_tree,
            !r.additive_selection,
            !r.range_selection,
            r.tree_click_frames_remaining == 0,
            r.drag_payload is None,
            r.drop_target is None,
            !r.should_scroll_to_selection,
    {
        NodeTreeTabData {
            hierarchy: Vec::new(),
            selected_entities: Vec::new(),
            active_selection: None,
            previous_active_selection: None,
            new_selection: None,
            clicked_via_node_tree: false,
            additive_selection: false,
            range_selection: false,
            tree_click_frames_remaining: 0,
            drag_payload: None,
            drop_target: None,
            should_scroll_to_selection: false,
        }
    }
}

/// The events of a range selection from `start` to `end` in the visual
/// order: the first entity of the range replaces the selection, the others
/// are added to it. Nothing when either end is not shown.
pub open spec fn range_events(visual_order: Seq<EntityId>, start: EntityId, end: EntityId) -> Seq<EntityEvent> {
    match (first_position(visual_order, start), first_position(visual_order, end)) {
        (Some(a), Some(b)) => {
            let lo = if a <= b { a } else { b };
            let hi = if a <= b { b } else { a };
            Seq::new(
                (hi - lo + 1) as nat,
                |k: int| EntityEvent::Select { target: visual_order[lo + k], additive: k > 0 },
            )
        },
        _ => Seq::empty(),
    }
}

/// `ev` holds an event that selects `x`.
pub open spec fn selects(ev: Seq<EntityEvent>, x: EntityId) -> bool {
    exists|j: int| 0 <= j < ev.len() && (#[trigger] ev[j] matches EntityEvent::Select { target, .. } && target == x)
}

/// `k` lies between `a` and `b`, both included, whichever comes first.
pub open spec fn index_between(k: int, a: int, b: int) -> bool {
    (a <= k && k <= b) || (b <= k && k <= a)
}

/// A range selection selects exactly the shown rows between its two ends,
/// both ends included, in either direction: one event per row, the first
/// replacing the selection and the others adding to it; swapping the ends
/// selects the same rows.
pub proof fn law_range_selection_is_the_span(order: Seq<EntityId>, start: EntityId, end: EntityId)
    requires
        order.contains(start),
        order.contains(end),
    ensures
        ({
            let a = first_position(order, start).unwrap();
            let b = first_position(order, end).unwrap();
            let ev = range_events(order, start, end);
            &&& ev.len() == (if a <= b { b - a } else { a - b }) + 1
            &&& selects(ev, start)
            &&& selects(ev, end)
            &&& forall|k: int| 0 <= k < order.len() && index_between(k, a, b) ==> selects(ev, #[trigger] order[k])
            &&& forall|x: EntityId|
                selects(ev, x) ==> exists|k: int| 0 <= k < order.len() && index_between(k, a, b) && order[k] == x
            &&& forall|x: EntityId| selects(ev, x) == selects(range_events(order, end, start), x)
            &&& forall|j: int|
                0 <= j < ev.len() ==> (#[trigger] ev[j] matches EntityEvent::Select { additive, .. } && additive == (j
                    > 0))
            &&& forall|j: int|
                0 <= j < ev.len() ==> (#[trigger] ev[j] matches EntityEvent::Select { target, .. } && target == order[(
                if a <= b {
                    a
                } else {
                    b
                }) + j])
        }),
{
    lemma_first_position_contains(order, start);
    lemma_first_position_contains(order, end);
    let a = first_position(order, start).unwrap();
    let b = first_position(order, end).unwrap();
    assert(is_first_position(order, start, a));
    assert(is_first_position(order, end, b));
    let lo = if a <= b { a } else { b };
    let hi = if a <= b { b } else { a };
    let ev = range_events(order, start, end);
    let ve = range_events(order, end, start);
    assert(ev.len() == hi - lo + 1);
    assert(ve.len() == hi - lo + 1);
    assert forall|k: int| 0 <= k < order.len() && index_between(k, a, b) implies selects(ev, #[trigger] order[k]) by {
        assert(ev[k - lo] matches EntityEvent::Select { target, .. } && target == order[k]);
    }
    assert(order[a] == start);
    assert(order[b] == end);
    assert(selects(ev, order[a]));
    assert(selects(ev, order[b]));
    assert forall|x: EntityId| selects(ev, x) implies exists|k: int|
        0 <= k < order.len() && index_between(k, a, b) && order[k] == x by {
        let j = choose|j: int| 0 <= j < ev.len() && (#[trigger] ev[j] matches EntityEvent::Select { target, .. } && target == x);
        assert(index_between(lo + j, a, b) && order[lo + j] == x);
    }
    assert forall|x: EntityId| selects(ev, x) == selects(ve, x) by {
        if selects(ev, x) {
            let j = choose|j: int| 0 <= j < ev.len() && (#[trigger] ev[j] matches EntityEvent::Select { target, .. } && target == x);
            assert(ve[j] matches EntityEvent::Select { target, .. } && target == x);
        }
        if selects(ve, x) {
            let j = choose|j: int| 0 <= j < ve.len() && (#[trigger] ve[j] matches EntityEvent::Select { target, .. } && target == x);
            assert(ev[j] matches EntityEvent::Select { target, .. } && target == x);
        }
    }
}

/// The events of a click on `clicked` in the tree.
pub open spec fn click_events(
    selected: Seq<EntityId>,
    active: Option<EntityId>,
    clicked: EntityId,
    additive: bool,
    range: bool,
    visual_order: Seq<EntityId>,
) -> Seq<EntityEvent> {
    if range {
        match active {
            Some(prev) => range_events(visual_order, prev, clicked),
            None => seq![EntityEvent::Select { target: clicked, additive: false }],
        }
    } else if additive {
        if selected.contains(clicked) {
            seq![EntityEvent::Deselect { target: clicked }]
        } else {
            seq![EntityEvent::Select { target: clicked, additive: true }]
        }
    } else {
        seq![EntityEvent::Select { target: clicked, additive: false }]
    }
}

/// A plain click selects the clicked row alone; a Ctrl-click toggles it; a
/// Shift-click selects the span from the active row to the clicked one,
/// both included (the clicked row alone when nothing is active, nothing when
/// either end is not shown).
pub proof fn law_click_events(
    selected: Seq<EntityId>,
    active: Option<EntityId>,
    clicked: EntityId,
    additive: bool,
    range: bool,
    order: Seq<EntityId>,
)
    ensures
        !range && !additive ==> click_events(selected, active, clicked, additive, range, order) == seq![
            EntityEvent::Select { target: clicked, additive: false },
        ],
        !range && additive && selected.contains(clicked) ==> click_events(
            selected,
            active,
            clicked,
            additive,
            range,
            order,
        ) == seq![EntityEvent::Deselect { target: clicked }],
        !range && additive && !selected.contains(clicked) ==> click_events(
            selected,
            active,
            clicked,
            additive,
            range,
            order,
        ) == seq![EntityEvent::Select { target: clicked, additive: true }],
        range && active is None ==> click_events(selected, active, clicked, additive, range, order) == seq![
            EntityEvent::Select { target: clicked, additive: false },
        ],
        range && active is Some && order.contains(active.unwrap()) && order.contains(clicked) ==> {
            let ev = click_events(selected, active, clicked, additive, range, order);
            &&& selects(ev, clicked)
            &&& selects(ev, active.unwrap())
            &&& forall|k: int|
                0 <= k < order.len() && index_between(
                    k,
                    first_position(order, active.unwrap()).unwrap(),
                    first_position(order, clicked).unwrap(),
                ) ==> selects(ev, #[trigger] order[k])
        },
        range && active is Some && !(order.contains(active.unwrap()) && order.contains(clicked)) ==> click_events(
            selected,
            active,
            clicked,
            additive,
            range,
            order,
        ).len() == 0,
{
    if range && active is Some {
        lemma_first_position_contains(order, active.unwrap());
        lemma_first_position_contains(order, clicked);
        if order.contains(active.unwrap()) && order.contains(clicked) {
            law_range_selection_is_the_span(order, active.unwrap(), clicked);
        }
    }
}

/// The payload after a drag frame: what starts being dragged now, or what
/// was already dragged.
pub open spec fn payload_after(
    selected: Seq<EntityId>,
    payload: Option<Vec<EntityId>>,
    drag_started: bool,
    entity: EntityId,
) -> Option<Seq<EntityId>> {
    if drag_started {
        if selected.contains(entity) {
            Some(selected)
        } else {
            Some(seq![entity])
        }
    } else {
        match payload {
            Some(v) => Some(v@),
            None => None,
        }
    }
}

/// The part of the tab's state that selection handling reads and writes.
pub struct SelectionFlags {
    pub active: Option<EntityId>,
    pub previous_active: Option<EntityId>,
    pub new_selection: Option<EntityId>,
    pub clicked: bool,
    pub additive: bool,
    pub range: bool,
    pub frames: u32,
}

/// The selection flags of a tab.
pub open spec fn flags_of(d: NodeTreeTabData) -> SelectionFlags {
    SelectionFlags {
        active: d.active_selection,
        previous_active: d.previous_active_selection,
        new_selection: d.new_selection,
        clicked: d.clicked_via_node_tree,
        additive: d.additive_selection,
        range: d.range_selection,
        frames: d.tree_click_frames_remaining,
    }
}

/// A click on a row is recorded.
pub open spec fn record_click(f: SelectionFlags, entity: EntityId, additive: bool, range: bool) -> SelectionFlags {
    SelectionFlags { new_selection: Some(entity), clicked: true, additive, range, ..f }
}

/// A recorded click is processed: a click made in the tree makes the
/// clicked entity active and starts the protection frames; the pending
/// click is cleared in any case.
pub open spec fn process_click(f: SelectionFlags) -> SelectionFlags {
    match f.new_selection {
        Some(clicked) if f.clicked => SelectionFlags {
            active: Some(clicked),
            previous_active: f.active,
            new_selection: None,
            clicked: false,
            additive: false,
            range: false,
            frames: TREE_CLICK_PROTECTION_FRAMES,
        },
        _ => SelectionFlags { new_selection: None, additive: false, range: false, ..f },
    }
}

/// One frame of click protection passes.
pub open spec fn count_down(f: SelectionFlags) -> SelectionFlags {
    SelectionFlags { frames: if f.frames > 0 { (f.frames - 1) as u32 } else { 0 }, ..f }
}

/// The active entity counts as selected from outside the tree: it changed
/// since `previous`, and no click in the tree is pending or protected.
pub open spec fn reveals_external_selection(f: SelectionFlags, previous: Option<EntityId>) -> bool {
    match f.active {
        Some(a) => previous != Some(a) && !f.clicked && f.frames == 0,
        None => false,
    }
}

/// After a click in the tree is processed, the newly active entity is not
/// taken for an outside selection change during the protection frames, and
/// is once they have passed (when it differs from the previous selection).
pub proof fn law_tree_click_is_not_an_external_change(
    f: SelectionFlags,
    entity: EntityId,
    additive: bool,
    range: bool,
    previous: Option<EntityId>,
)
    ensures
        process_click(record_click(f, entity, additive, range)).active == Some(entity),
        !reveals_external_selection(process_click(record_click(f, entity, additive, range)), previous),
        !reveals_external_selection(count_down(process_click(record_click(f, entity, additive, range))), previous),
        !reveals_external_selection(
            count_down(count_down(process_click(record_click(f, entity, additive, range)))),
            previous,
        ),
        reveals_external_selection(
            count_down(count_down(count_down(process_click(record_click(f, entity, additive, range))))),
            previous,
        ) <==> previous != Some(entity),
{
}

/// Processing the pending click twice is processing it once; the second
/// pass finds nothing pending.
pub proof fn law_process_click_idempotent(f: SelectionFlags)
    ensures
        process_click(process_click(f)) == process_click(f),
        process_click(f).new_selection is None,
{
}

/// Performs range selection between two entities in the visual order.
pub fn perform_range_selection(start_entity: EntityId, end_entity: EntityId, visual_order: &[EntityId]) -> (events: Vec<EntityEvent>)
    ensures
        events@ == range_events(visual_order@, start_entity, end_entity),
        visual_order@.contains(start_entity) && visual_order@.contains(end_entity) ==> {
            let a = first_position(visual_order@, start_entity).unwrap();
            let b = first_position(visual_order@, end_entity).unwrap();
            &&& selects(events@, start_entity)
            &&& selects(events@, end_entity)
            &&& forall|k: int|
                0 <= k < visual_order@.len() && index_between(k, a, b) ==> selects(events@, #[trigger] visual_order@[k])
            &&& forall|x: EntityId|
                selects(events@, x) ==> exists|k: int|
                    0 <= k < visual_order@.len() && index_between(k, a, b) && visual_order@[k] == x
            &&& events@.len() == (if a <= b { b - a } else { a - b }) + 1
            &&& forall|j: int|
                0 <= j < events@.len() ==> (#[trigger] events@[j] matches EntityEvent::Select { target, additive }
                    && additive == (j > 0) && target == visual_order@[(if a <= b {
                    a
                } else {
                    b
                }) + j])
        },
        !(visual_order@.contains(start_entity) && visual_order@.contains(end_entity)) ==> events@.len() == 0,
{
    let start_index = position_of(visual_order, start_entity);
    let end_index = position_of(visual_order, end_entity);
    let mut events: Vec<EntityEvent> = Vec::new();
    match (start_index, end_index) {
        (Some(start_idx), Some(end_idx)) => {
            let min_idx = if start_idx <= end_idx { start_idx } else { end_idx };
            let max_idx = if start_idx <= end_idx { end_idx } else { start_idx };
            let ghost expected = range_events(visual_order@, start_entity, end_entity);
            events.push(EntityEvent::Select { target: visual_order[min_idx], additive: false });
            let mut i: usize = min_idx + 1;
            while i <= max_idx
                invariant
                    min_idx < i <= max_idx + 1,
                    max_idx < visual_order@.len(),
                    expected.len() == max_idx - min_idx + 1,
                    expected == range_events(visual_order@, start_entity, end_entity),
                    forall|k: int| 0 <= k < expected.len() ==> #[trigger] expected[k] == (EntityEvent::Select { target: visual_order@[min_idx + k], additive: k > 0 }),
                    events@ == expected.subrange(0, i - min_idx),
                decreases max_idx + 1 - i,
            {
                events.push(EntityEvent::Select { target: visual_order[i], additive: true });
                assert(expected[i - min_idx] == (EntityEvent::Select { target: visual_order@[i as int], additive: true }));
                assert(events@ =~= expected.subrange(0, i + 1 - min_idx));
                i = i + 1;
            }
            assert(events@ =~= expected);
        },
        _ => {},
    }
    proof {
        lemma_first_position_contains(visual_order@, start_entity);
        lemma_first_position_contains(visual_order@, end_entity);
        if visual_order@.contains(start_entity) && visual_order@.contains(end_entity) {
            law_range_selection_is_the_span(visual_order@, start_entity, end_entity);
        }
    }
    events
}

/// Handles entity selection logic: records the click for the next
/// `process_selection_changes`.
pub fn handle_selection(entity: EntityId, name: &str, data: &mut NodeTreeTabData, additive: bool, range: bool)
    ensures
        flags_of(*final(data)) == record_click(flags_of(*old(data)), entity, additive, range),
        final(data).clicked_via_node_tree,
        final(data).new_selection == Some(entity),
        final(data).additive_selection == additive,
        final(data).range_selection == range,
        final(data).hierarchy == old(data).hierarchy,
        final(data).selected_entities == old(data).selected_entities,
        final(data).active_selection == old(data).active_selection,
        final(data).previous_active_selection == old(data).previous_active_selection,
        final(data).tree_click_frames_remaining == old(data).tree_click_frames_remaining,
        final(data).drag_payload == old(data).drag_payload,
        final(data).drop_target == old(data).drop_target,
        final(data).should_scroll_to_selection == old(data).should_scroll_to_selection,
{
    data.clicked_via_node_tree = true;
    data.new_selection = Some(entity);
    data.additive_selection = additive;
    data.range_selection = range;
}

/// Processes selection changes: turns a pending click made in the tree into
/// selection events, makes the clicked entity the active one, and clears
/// the pending click.
pub fn process_selection_changes(data: &mut NodeTreeTabData, visual_order: &[EntityId]) -> (events: Vec<EntityEvent>)
    ensures
        flags_of(*final(data)) == process_click(flags_of(*old(data))),
        final(data).new_selection is None,
        !final(data).additive_selection,
        !final(data).range_selection,
        final(data).hierarchy == old(data).hierarchy,
        final(data).selected_entities == old(data).selected_entities,
        final(data).drag_payload == old(data).drag_payload,
        final(data).drop_target == old(data).drop_target,
        final(data).should_scroll_to_selection == old(data).should_scroll_to_selection,
        match old(data).new_selection {
            Some(clicked) if old(data).clicked_via_node_tree => {
                &&& events@ == click_events(
                    old(data).selected_entities@,
                    old(data).active_selection,
                    clicked,
                    old(data).additive_selection,
                    old(data).range_selection,
                    visual_order@,
                )
                &&& final(data).active_selection == Some(clicked)
                &&& final(data).previous_active_selection == old(data).active_selection
                &&& final(data).tree_click_frames_remaining == TREE_CLICK_PROTECTION_FRAMES
                &&& !final(data).clicked_via_node_tree
            },
            _ => {
                &&& events@.len() == 0
                &&& final(data).active_selection == old(data).active_selection
                &&& final(data).previous_active_selection == old(data).previous_active_selection
                &&& final(data).tree_click_frames_remaining == old(data).tree_click_frames_remaining
                &&& final(data).clicked_via_node_tree == old(data).clicked_via_node_tree
            },
        },
{
    let mut events: Vec<EntityEvent> = Vec::new();
    if let Some(new_selection) = data.new_selection {
        if data.clicked_via_node_tree {
            if data.range_selection {
                if let Some(prev_active) = data.active_selection {
                    events = perform_range_selection(prev_active, new_selection, visual_order);
                } else {
                    events.push(EntityEvent::Select { target: new_selection, additive: false });
                }
            } else if data.additive_selection {
                let already_selected = contains_entity(data.selected_entities.as_slice(), new_selection);
                if already_selected {
                    events.push(EntityEvent::Deselect { target: new_selection });
                } else {
                    events.push(EntityEvent::Select { target: new_selection, additive: true });
                }
            } else {
                events.push(EntityEvent::Select { target: new_selection, additive: false });
            }
            data.previous_active_selection = data.active_selection;
            data.active_selection = Some(new_selection);
            data.tree_click_frames_remaining = TREE_CLICK_PROTECTION_FRAMES;
            data.clicked_via_node_tree = false;
        }
    }
    data.new_selection = None;
    data.additive_selection = false;
    data.range_selection = false;
    events
}

/// Whether `handle_drag_drop` can answer for these arguments: when a drop
/// on the row is to be checked, the check of it stops.
pub fn drag_drop_check_stops(
    drag_started: bool,
    pointer_released: bool,
    hovered: bool,
    entity: EntityId,
    data: &NodeTreeTabData,
    search_term: &str,
) -> (r: bool)
    ensures
        r == (search_term@.len() == 0 && pointer_released && hovered ==> match payload_after(
            data.selected_entities@,
            data.drag_payload,
            drag_started,
            entity,
        ) {
            Some(p) => drop_check_stops(p, entity, data.hierarchy@),
            None => true,
        }),
{
    if search_term.unicode_len() != 0 || !pointer_released || !hovered {
        return true;
    }
    if drag_started {
        if contains_entity(data.selected_entities.as_slice(), entity) {
            drop_check_terminates(data.selected_entities.as_slice(), entity, data.hierarchy.as_slice())
        } else {
            let single = vec![entity];
            assert(single@ == seq![entity]);
            drop_check_terminates(single.as_slice(), entity, data.hierarchy.as_slice())
        }
    } else {
        match &data.drag_payload {
            Some(v) => drop_check_terminates(v.as_slice(), entity, data.hierarchy.as_slice()),
            None => true,
        }
    }
}

/// Handles drag and drop state management for one tree row: a drag that
/// starts on the row picks up the selection (or the row alone), and a
/// release over the row records it as the drop target when the drop is
/// valid. Nothing happens while the tree is filtered by a search.
pub fn handle_drag_drop(
    drag_started: bool,
    pointer_released: bool,
    hovered: bool,
    entity: EntityId,
    data: &mut NodeTreeTabData,
    search_term: &str,
)
    requires
        search_term@.len() == 0 && pointer_released && hovered ==> match payload_after(
            old(data).selected_entities@,
            old(data).drag_payload,
            drag_started,
            entity,
        ) {
            Some(p) => drop_check_stops(p, entity, old(data).hierarchy@),
            None => true,
        },
    ensures
        final(data).hierarchy == old(data).hierarchy,
        final(data).selected_entities == old(data).selected_entities,
        final(data).active_selection == old(data).active_selection,
        final(data).previous_active_selection == old(data).previous_active_selection,
        final(data).new_selection == old(data).new_selection,
        final(data).clicked_via_node_tree == old(data).clicked_via_node_tree,
        final(data).additive_selection == old(data).additive_selection,
        final(data).range_selection == old(data).range_selection,
        final(data).tree_click_frames_remaining == old(data).tree_click_frames_remaining,
        final(data).should_scroll_to_selection == old(data).should_scroll_to_selection,
        search_term@.len() != 0 ==> final(data).drag_payload == old(data).drag_payload && final(data).drop_target
            == old(data).drop_target,
        search_term@.len() == 0 ==> {
            let p = payload_after(old(data).selected_entities@, old(data).drag_payload, drag_started, entity);
            &&& match final(data).drag_payload {
                Some(v) => p == Some(v@),
                None => p is None,
            }
            &&& final(data).drop_target == if pointer_released && hovered && p is Some && drop_is_valid(
                p.unwrap(),
                entity,
                old(data).hierarchy@,
            ) {
                Some(entity)
            } else {
                old(data).drop_target
            }
        },
{
    if !search_term.is_empty() {
        return;
    }
    let ghost p = payload_after(data.selected_entities@, data.drag_payload, drag_started, entity);
    if drag_started {
        let entities_to_drag = if contains_entity(data.selected_entities.as_slice(), entity) {
            let v = data.selected_entities.clone();
            assert(v@ == data.selected_entities@);
            v
        } else {
            let v = vec![entity];
            assert(v@ == seq![entity]);
            v
        };
        data.drag_payload = Some(entities_to_drag);
    }
    assert(match data.drag_payload {
        Some(v) => p == Some(v@),
        None => p is None,
    });
    if data.drag_payload.is_some() && pointer_released {
        if hovered {
            match &data.drag_payload {
                Some(dragged_entities) => {
                    if is_valid_drop(dragged_entities.as_slice(), entity, data.hierarchy.as_slice()) {
                        data.drop_target = Some(entity);
                    }
                },
                None => {},
            }
        }
    }
}

/// Whether `handle_external_selection_change` can answer: when it is to
/// reveal the active entity, the chain above that entity ends.
pub fn external_change_check_stops(data: &NodeTreeTabData, previous_selection: Option<EntityId>) -> (r: bool)
    ensures
        r == match data.active_selection {
            Some(a) => reveals_external_selection(flags_of(*data), previous_selection) ==> chain_ends(
                data.hierarchy@,
                a,
            ),
            None => true,
        },
{
    match data.active_selection {
        Some(a) => {
            let same = match previous_selection {
                Some(p) => p == a,
                None => false,
            };
            if !same && !data.clicked_via_node_tree && data.tree_click_frames_remaining == 0 {
                has_finite_chain(data.hierarchy.as_slice(), a)
            } else {
                true
            }
        },
        None => true,
    }
}

/// Handles selection changes made outside the tree (gizmos, viewport): a new
/// active entity that the tree did not just click is revealed by unfolding
/// its ancestors, and the tree is asked to scroll to it.
pub fn handle_external_selection_change(data: &mut NodeTreeTabData, previous_selection: Option<EntityId>)
    requires
        match old(data).active_selection {
            Some(a) => reveals_external_selection(flags_of(*old(data)), previous_selection) ==> chain_ends(
                old(data).hierarchy@,
                a,
            ),
            None => true,
        },
    ensures
        final(data).selected_entities == old(data).selected_entities,
        final(data).active_selection == old(data).active_selection,
        final(data).previous_active_selection == old(data).previous_active_selection,
        final(data).new_selection == old(data).new_selection,
        final(data).clicked_via_node_tree == old(data).clicked_via_node_tree,
        final(data).additive_selection == old(data).additive_selection,
        final(data).range_selection == old(data).range_selection,
        final(data).tree_click_frames_remaining == old(data).tree_click_frames_remaining,
        final(data).drag_payload == old(data).drag_payload,
        final(data).drop_target == old(data).drop_target,
        flags_of(*final(data)) == flags_of(*old(data)),
        match old(data).active_selection {
            Some(a) => if reveals_external_selection(flags_of(*old(data)), previous_selection) {
                &&& final(data).hierarchy@ == expand_spec(old(data).hierarchy@, a)
                &&& final(data).should_scroll_to_selection
            } else {
                &&& final(data).hierarchy == old(data).hierarchy
                &&& !final(data).should_scroll_to_selection
            },
            None => {
                &&& final(data).hierarchy == old(data).hierarchy
                &&& final(data).should_scroll_to_selection == old(data).should_scroll_to_selection
            },
        },
{
    if let Some(new_active) = data.active_selection {
        let same = match previous_selection {
            Some(p) => p == new_active,
            None => false,
        };
        if !same && !data.clicked_via_node_tree && data.tree_click_frames_remaining == 0 {
            expand_to_entity(&mut data.hierarchy, new_active);
            data.should_scroll_to_selection = true;
        } else {
            data.should_scroll_to_selection = false;
        }
    }
}

/// Decrements the tree click frame counter, stopping at zero.
pub fn update_tree_click_protection(data: &mut NodeTreeTabData)
    ensures
        flags_of(*final(data)) == count_down(flags_of(*old(data))),
        final(data).tree_click_frames_remaining == if old(data).tree_click_frames_remaining > 0 {
            (old(data).tree_click_frames_remaining - 1) as u32
        } else {
            0
        },
        final(data).hierarchy == old(data).hierarchy,
        final(data).selected_entities == old(data).selected_entities,
        final(data).active_selection == old(data).active_selection,
        final(data).previous_active_selection == old(data).previous_active_selection,
        final(data).new_selection == old(data).new_selection,
        final(data).clicked_via_node_tree == old(data).clicked_via_node_tree,
        final(data).additive_selection == old(data).additive_selection,
        final(data).range_selection == old(data).range_selection,
        final(data).drag_payload == old(data).drag_payload,
        final(data).drop_target == old(data).drop_target,
        final(data).should_scroll_to_selection == old(data).should_scroll_to_selection,
{
    if data.tree_click_frames_remaining > 0 {
        data.tree_click_frames_remaining = data.tree_click_frames_remaining - 1;
    }
}

} // verus!
