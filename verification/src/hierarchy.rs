use vstd::prelude::*;

use crate::entity::{contains_entity, EntityId};

verus! {

/// One row of the node tree: an entity, its parent (if any) and whether the
/// row is unfolded in the tree view.
#[derive(Clone, Copy, Debug, PartialEq, Eq, Structural)]
pub struct HierarchyEntry {
    pub entity: EntityId,
    pub parent: Option<EntityId>,
    pub is_expanded: bool,
}

// ---------------------------------------------------------------------------
// The model: lookups go to the first row that names an entity, and an
// entity's parent is the parent recorded in that row.
// ---------------------------------------------------------------------------

/// Row `i` is the first row of `h` whose entity is `e`.
pub open spec fn is_first_index(h: Seq<HierarchyEntry>, e: EntityId, i: int) -> bool {
    &&& 0 <= i < h.len()
    &&& h[i].entity == e
    &&& forall|j: int| 0 <= j < i ==> h[j].entity != e
}

/// The first row of `h` that names `e`, if any.
pub open spec fn first_index(h: Seq<HierarchyEntry>, e: EntityId) -> Option<int> {
    if exists|i: int| is_first_index(h, e, i) {
        Some(choose|i: int| is_first_index(h, e, i))
    } else {
        None
    }
}

/// The parent of `e`: the parent of the first row naming `e`; `None` when no
/// row names `e` or that row has no parent.
pub open spec fn parent_step(h: Seq<HierarchyEntry>, e: EntityId) -> Option<EntityId> {
    match first_index(h, e) {
        Some(i) => h[i].parent,
        None => None,
    }
}

/// The entity reached from `e` by following `n` parent links (`e` itself for
/// `n == 0`); `None` once the chain has stopped.
pub open spec fn nth_ancestor(h: Seq<HierarchyEntry>, e: EntityId, n: nat) -> Option<EntityId>
    decreases n,
{
    if n == 0 {
        Some(e)
    } else {
        match nth_ancestor(h, e, (n - 1) as nat) {
            Some(x) => parent_step(h, x),
            None => None,
        }
    }
}

/// `a` is a proper ancestor of `d`: it is reached from `d` by one or more
/// parent links.
pub open spec fn descends_from(h: Seq<HierarchyEntry>, d: EntityId, a: EntityId) -> bool {
    exists|k: nat| k >= 1 && #[trigger] nth_ancestor(h, d, k) == Some(a)
}

/// Following parent links from `e` stops after finitely many steps.
pub open spec fn chain_ends(h: Seq<HierarchyEntry>, e: EntityId) -> bool {
    exists|n: nat| #[trigger] nth_ancestor(h, e, n) is None
}

/// Every chain of parent links stops: the rows describe a forest.
pub open spec fn is_acyclic(h: Seq<HierarchyEntry>) -> bool {
    forall|e: EntityId| #[trigger] chain_ends(h, e)
}

/// The walk of `is_descendant_of` stops: the chain from `d` ends or meets `a`.
pub open spec fn descendant_walk_stops(h: Seq<HierarchyEntry>, d: EntityId, a: EntityId) -> bool {
    chain_ends(h, d) || descends_from(h, d, a)
}

/// Dropping `entities` onto `target` keeps the tree a tree: the target is
/// not dragged itself and is not below any dragged entity.
pub open spec fn drop_is_valid(entities: Seq<EntityId>, target: EntityId, h: Seq<HierarchyEntry>) -> bool {
    &&& !entities.contains(target)
    &&& forall|j: int| 0 <= j < entities.len() ==> !descends_from(h, target, #[trigger] entities[j])
}

/// The checks of `is_valid_drop` stop: it answers at once, or the chain above
/// the target ends, or the first dragged entity lies on that chain.
pub open spec fn drop_check_stops(entities: Seq<EntityId>, target: EntityId, h: Seq<HierarchyEntry>) -> bool {
    ||| entities.contains(target)
    ||| entities.len() == 0
    ||| chain_ends(h, target)
    ||| descends_from(h, target, entities[0])
}

/// The rows after unfolding the path to `target`: the first row of every
/// proper ancestor of `target` is marked expanded; nothing else changes.
pub open spec fn expand_spec(h: Seq<HierarchyEntry>, target: EntityId) -> Seq<HierarchyEntry> {
    Seq::new(
        h.len(),
        |i: int|
            HierarchyEntry {
                entity: h[i].entity,
                parent: h[i].parent,
                is_expanded: h[i].is_expanded || (first_index(h, h[i].entity) == Some(i)
                    && descends_from(h, target, h[i].entity)),
            },
    )
}

// ---------------------------------------------------------------------------
// Lemmas on the model
// ---------------------------------------------------------------------------

pub proof fn lemma_first_index_unique(h: Seq<HierarchyEntry>, e: EntityId, i: int)
    requires
        is_first_index(h, e, i),
    ensures
        first_index(h, e) == Some(i),
{
    let j = choose|j: int| is_first_index(h, e, j);
    assert(is_first_index(h, e, j));
    if j < i {
        assert(h[j].entity != e);
    } else if i < j {
        assert(h[i].entity != e);
    }
}

pub proof fn lemma_first_index_none(h: Seq<HierarchyEntry>, e: EntityId)
    requires
        forall|j: int| 0 <= j < h.len() ==> h[j].entity != e,
    ensures
        first_index(h, e) is None,
{
}

/// Two row sequences that name the same entities in the same places find
/// the same first row for every entity.
pub proof fn lemma_first_index_same_entities(h1: Seq<HierarchyEntry>, h2: Seq<HierarchyEntry>, e: EntityId)
    requires
        h1.len() == h2.len(),
        forall|j: int| 0 <= j < h1.len() ==> h1[j].entity == h2[j].entity,
    ensures
        first_index(h1, e) == first_index(h2, e),
{
    if exists|i: int| is_first_index(h1, e, i) {
        let i = choose|i: int| is_first_index(h1, e, i);
        assert(is_first_index(h2, e, i));
        lemma_first_index_unique(h1, e, i);
        lemma_first_index_unique(h2, e, i);
    } else {
        assert forall|i: int| !is_first_index(h2, e, i) by {
            if is_first_index(h2, e, i) {
                assert(is_first_index(h1, e, i));
            }
        }
    }
}

/// Once the chain has stopped it stays stopped.
pub proof fn lemma_nth_ancestor_stays_none(h: Seq<HierarchyEntry>, e: EntityId, n: nat, m: nat)
    requires
        nth_ancestor(h, e, n) is None,
        n <= m,
    ensures
        nth_ancestor(h, e, m) is None,
    decreases m - n,
{
    if n < m {
        lemma_nth_ancestor_stays_none(h, e, n, (m - 1) as nat);
    }
}

/// Following `a + b` links is following `a` links, then `b` more.
pub proof fn lemma_nth_ancestor_add(h: Seq<HierarchyEntry>, e: EntityId, a: nat, b: nat)
    ensures
        nth_ancestor(h, e, a + b) == match nth_ancestor(h, e, a) {
            Some(y) => nth_ancestor(h, y, b),
            None => None,
        },
    decreases b,
{
    if b > 0 {
        lemma_nth_ancestor_add(h, e, a, (b - 1) as nat);
        assert(nth_ancestor(h, e, a + b) == match nth_ancestor(h, e, (a + b - 1) as nat) {
            Some(x) => parent_step(h, x),
            None => None,
        });
        assert((a + b - 1) as nat == a + (b - 1) as nat);
    }
}

// ---------------------------------------------------------------------------
// Executable operations
// ---------------------------------------------------------------------------

/// The index of the first row naming `e`.
pub fn find_entry_index(hierarchy: &[HierarchyEntry], e: EntityId) -> (r: Option<usize>)
    ensures
        match r {
            Some(i) => first_index(hierarchy@, e) == Some(i as int),
            None => first_index(hierarchy@, e) is None,
        },
{
    let mut i: usize = 0;
    while i < hierarchy.len()
        invariant
            i <= hierarchy@.len(),
            forall|j: int| 0 <= j < i ==> hierarchy@[j].entity != e,
        decreases hierarchy@.len() - i,
    {
        if hierarchy[i].entity == e {
            proof {
                lemma_first_index_unique(hierarchy@, e, i as int);
            }
            return Some(i);
        }
        i = i + 1;
    }
    proof {
        lemma_first_index_none(hierarchy@, e);
    }
    None
}

/// The parent recorded for `e`, read from the first row that names it.
pub fn parent_of(hierarchy: &[HierarchyEntry], e: EntityId) -> (r: Option<EntityId>)
    ensures
        r == parent_step(hierarchy@, e),
{
    match find_entry_index(hierarchy, e) {
        Some(i) => hierarchy[i].parent,
        None => None,
    }
}

/// Check if `potential_descendant` is a descendant of `ancestor`: walks the
/// parent links up from `potential_descendant` until it meets `ancestor`
/// (answer `true`) or the chain stops (answer `false`).
pub fn is_descendant_of(
    potential_descendant: EntityId,
    ancestor: EntityId,
    hierarchy: &[HierarchyEntry],
) -> (r: bool)
    requires
        descendant_walk_stops(hierarchy@, potential_descendant, ancestor),
    ensures
        r == descends_from(hierarchy@, potential_descendant, ancestor),
{
    let ghost h = hierarchy@;
    let ghost d = potential_descendant;
    let ghost a = ancestor;
    let ghost bound: nat = if chain_ends(h, d) {
        choose|n: nat| nth_ancestor(h, d, n) is None
    } else {
        choose|k: nat| k >= 1 && nth_ancestor(h, d, k) == Some(a)
    };
    let mut current = potential_descendant;
    let ghost mut i: nat = 0;
    loop
        invariant
            h == hierarchy@,
            d == potential_descendant,
            a == ancestor,
            nth_ancestor(h, d, i) == Some(current),
            forall|j: nat| 1 <= j <= i ==> #[trigger] nth_ancestor(h, d, j) != Some(a),
            chain_ends(h, d) ==> nth_ancestor(h, d, bound) is None,
            !chain_ends(h, d) ==> bound >= 1 && nth_ancestor(h, d, bound) == Some(a),
            i < bound,
        decreases bound - i,
    {
        let step = parent_of(hierarchy, current);
        let ghost i1: nat = i + 1;
        assert(nth_ancestor(h, d, i1) == step);
        match step {
            None => {
                proof {
                    assert forall|k: nat| k >= 1 implies #[trigger] nth_ancestor(h, d, k) != Some(a) by {
                        if k > i {
                            lemma_nth_ancestor_stays_none(h, d, i1, k);
                        }
                    }
                }
                return false;
            },
            Some(p) => {
                if p == ancestor {
                    assert(nth_ancestor(h, d, i1) == Some(a));
                    return true;
                }
                current = p;
                proof {
                    if chain_ends(h, d) {
                        if bound <= i1 {
                            lemma_nth_ancestor_stays_none(h, d, bound, i1);
                        }
                    }
                    i = i1;
                }
            },
        }
    }
}

/// Check if dropping the entities onto the target would create a valid
/// hierarchy: the target must not be dragged itself and must not lie below
/// any dragged entity.
pub fn is_valid_drop(entities: &[EntityId], target: EntityId, hierarchy: &[HierarchyEntry]) -> (r: bool)
    requires
        drop_check_stops(entities@, target, hierarchy@),
    ensures
        r == drop_is_valid(entities@, target, hierarchy@),
{
    let mut i: usize = 0;
    while i < entities.len()
        invariant
            i <= entities@.len(),
            forall|j: int| 0 <= j < i ==> entities@[j] != target,
        decreases entities@.len() - i,
    {
        if entities[i] == target {
            assert(entities@.contains(target));
            return false;
        }
        i = i + 1;
    }
    assert(!entities@.contains(target));
    let mut k: usize = 0;
    while k < entities.len()
        invariant
            k <= entities@.len(),
            !entities@.contains(target),
            drop_check_stops(entities@, target, hierarchy@),
            k > 0 ==> chain_ends(hierarchy@, target),
            forall|j: int| 0 <= j < k ==> !descends_from(hierarchy@, target, #[trigger] entities@[j]),
        decreases entities@.len() - k,
    {
        if is_descendant_of(target, entities[k], hierarchy) {
            return false;
        }
        k = k + 1;
    }
    true
}

/// Expands the tree to show the path to a specific entity: every proper
/// ancestor of `target_entity` is unfolded.
pub fn expand_to_entity(hierarchy: &mut Vec<HierarchyEntry>, target_entity: EntityId)
    requires
        chain_ends(old(hierarchy)@, target_entity),
    ensures
        final(hierarchy)@ == expand_spec(old(hierarchy)@, target_entity),
{
    let ghost h = hierarchy@;
    let ghost t = target_entity;
    let ghost bound: nat = choose|n: nat| nth_ancestor(h, t, n) is None;
    let mut ancestors: Vec<EntityId> = Vec::new();
    let mut current_parent = parent_of(hierarchy.as_slice(), target_entity);
    assert(nth_ancestor(h, t, 0) == Some(t));
    assert(nth_ancestor(h, t, 1) == current_parent);
    loop
        invariant
            hierarchy@ == h,
            nth_ancestor(h, t, bound) is None,
            forall|j: int| 0 <= j < ancestors@.len() ==> nth_ancestor(h, t, (j + 1) as nat) == Some(#[trigger] ancestors@[j]),
            current_parent == nth_ancestor(h, t, (ancestors@.len() + 1) as nat),
            ancestors@.len() < bound,
        ensures
            hierarchy@ == h,
            forall|j: int| 0 <= j < ancestors@.len() ==> nth_ancestor(h, t, (j + 1) as nat) == Some(#[trigger] ancestors@[j]),
            nth_ancestor(h, t, (ancestors@.len() + 1) as nat) is None,
        decreases bound - ancestors@.len(),
    {
        match current_parent {
            None => {
                break;
            },
            Some(p) => {
                let ghost n = ancestors@.len();
                let ghost prev = ancestors@;
                proof {
                    if bound <= n + 1 {
                        lemma_nth_ancestor_stays_none(h, t, bound, (n + 1) as nat);
                    }
                }
                ancestors.push(p);
                current_parent = parent_of(hierarchy.as_slice(), p);
                assert(nth_ancestor(h, t, (n + 2) as nat) == current_parent);
                assert forall|j: int| 0 <= j < ancestors@.len() implies nth_ancestor(h, t, (j + 1) as nat) == Some(#[trigger] ancestors@[j]) by {
                    if j < n {
                        assert(ancestors@[j] == prev[j]);
                    }
                }
            },
        }
    }
    // Every proper ancestor of the target is in `ancestors`, and only those.
    proof {
        let len = ancestors@.len();
        assert forall|e: EntityId| descends_from(h, t, e) <==> ancestors@.contains(e) by {
            if descends_from(h, t, e) {
                let k = choose|k: nat| k >= 1 && nth_ancestor(h, t, k) == Some(e);
                if k > len {
                    lemma_nth_ancestor_stays_none(h, t, (len + 1) as nat, k);
                }
                assert(ancestors@[k - 1] == e);
            }
            if ancestors@.contains(e) {
                let j = choose|j: int| 0 <= j < ancestors@.len() && ancestors@[j] == e;
                assert(nth_ancestor(h, t, (j + 1) as nat) == Some(e));
            }
        }
    }
    let mut k: usize = 0;
    while k < ancestors.len()
        invariant
            k <= ancestors@.len(),
            hierarchy@.len() == h.len(),
            forall|e: EntityId| descends_from(h, t, e) <==> ancestors@.contains(e),
            forall|i: int|
                0 <= i < h.len() ==> {
                    &&& (#[trigger] hierarchy@[i]).entity == h[i].entity
                    &&& hierarchy@[i].parent == h[i].parent
                    &&& hierarchy@[i].is_expanded == (h[i].is_expanded || (first_index(h, h[i].entity) == Some(i)
                        && ancestors@.subrange(0, k as int).contains(h[i].entity)))
                },
        decreases ancestors@.len() - k,
    {
        let ghost before = hierarchy@;
        let a = ancestors[k];
        proof {
            assert forall|e: EntityId| first_index(before, e) == first_index(h, e) by {
                lemma_first_index_same_entities(before, h, e);
            }
        }
        let ghost sub_old = ancestors@.subrange(0, k as int);
        let ghost sub_new = ancestors@.subrange(0, k + 1);
        assert(sub_new =~= sub_old.push(a));
        assert(forall|x: EntityId| sub_new.contains(x) <==> (sub_old.contains(x) || x == a)) by {
            assert forall|x: EntityId| sub_new.contains(x) implies (sub_old.contains(x) || x == a) by {
                let j = choose|j: int| 0 <= j < sub_new.len() && sub_new[j] == x;
                if j < k {
                    assert(sub_old[j] == x);
                }
            }
            assert forall|x: EntityId| (sub_old.contains(x) || x == a) implies sub_new.contains(x) by {
                if x == a {
                    assert(sub_new[k as int] == a);
                } else {
                    let j = choose|j: int| 0 <= j < sub_old.len() && sub_old[j] == x;
                    assert(sub_new[j] == x);
                }
            }
        }
        match find_entry_index(hierarchy.as_slice(), a) {
            Some(idx) => {
                let mut entry = hierarchy[idx];
                entry.is_expanded = true;
                hierarchy.set(idx, entry);
                proof {
                    assert(first_index(h, a) == Some(idx as int));
                    assert(is_first_index(before, a, idx as int));
                }
                assert forall|i: int| 0 <= i < h.len() implies {
                    &&& (#[trigger] hierarchy@[i]).entity == h[i].entity
                    &&& hierarchy@[i].parent == h[i].parent
                    &&& hierarchy@[i].is_expanded == (h[i].is_expanded || (first_index(h, h[i].entity) == Some(i)
                        && sub_new.contains(h[i].entity)))
                } by {
                    if i != idx {
                        assert(hierarchy@[i] == before[i]);
                        if first_index(h, h[i].entity) == Some(i) && h[i].entity == a {
                            assert(i == idx);
                        }
                    }
                }
            },
            None => {
                assert forall|i: int| 0 <= i < h.len() implies {
                    &&& (#[trigger] hierarchy@[i]).entity == h[i].entity
                    &&& hierarchy@[i].parent == h[i].parent
                    &&& hierarchy@[i].is_expanded == (h[i].is_expanded || (first_index(h, h[i].entity) == Some(i)
                        && sub_new.contains(h[i].entity)))
                } by {
                    assert(hierarchy@[i] == before[i]);
                    if first_index(h, h[i].entity) == Some(i) && h[i].entity == a {
                        assert(first_index(h, a) is Some);
                    }
                }
            },
        }
        k = k + 1;
    }
    assert(ancestors@.subrange(0, ancestors@.len() as int) == ancestors@);
    assert(hierarchy@ =~= expand_spec(h, t));
}

/// The entity `n` parent links above `e`, or `None` once the chain stopped.
pub fn nth_ancestor_of(hierarchy: &[HierarchyEntry], e: EntityId, n: usize) -> (r: Option<EntityId>)
    ensures
        r == nth_ancestor(hierarchy@, e, n as nat),
{
    let mut current: Option<EntityId> = Some(e);
    let mut i: usize = 0;
    assert(nth_ancestor(hierarchy@, e, 0) == Some(e));
    while i < n
        invariant
            i <= n,
            current == nth_ancestor(hierarchy@, e, i as nat),
        decreases n - i,
    {
        current = match current {
            Some(x) => parent_of(hierarchy, x),
            None => None,
        };
        assert(current == nth_ancestor(hierarchy@, e, (i + 1) as nat));
        i = i + 1;
    }
    current
}

/// Whether following parent links from `e` stops.
pub fn has_finite_chain(hierarchy: &[HierarchyEntry], e: EntityId) -> (r: bool)
    ensures
        r == chain_ends(hierarchy@, e),
{
    let last = nth_ancestor_of(hierarchy, e, hierarchy.len());
    let beyond = match last {
        Some(x) => parent_of(hierarchy, x),
        None => None,
    };
    let ghost l = hierarchy@.len();
    assert(beyond == nth_ancestor(hierarchy@, e, l + 1));
    proof {
        if chain_ends(hierarchy@, e) {
            crate::tree_laws::law_chains_end_within_row_count(hierarchy@, e);
        }
    }
    beyond.is_none()
}

/// Whether the walk of `is_descendant_of` from `potential_descendant` up
/// toward `ancestor` stops: the chain above it ends, or it meets `ancestor`.
pub fn descendant_walk_terminates(
    potential_descendant: EntityId,
    ancestor: EntityId,
    hierarchy: &[HierarchyEntry],
) -> (r: bool)
    ensures
        r == descendant_walk_stops(hierarchy@, potential_descendant, ancestor),
{
    if has_finite_chain(hierarchy, potential_descendant) {
        return true;
    }
    let ghost h = hierarchy@;
    let ghost d = potential_descendant;
    let ghost a = ancestor;
    let n = hierarchy.len();
    let mut current = parent_of(hierarchy, potential_descendant);
    let mut i: usize = 0;
    assert(nth_ancestor(h, d, 0) == Some(d));
    assert(current == nth_ancestor(h, d, 1));
    loop
        invariant
            h == hierarchy@,
            d == potential_descendant,
            a == ancestor,
            n == h.len(),
            !chain_ends(h, d),
            i <= n,
            current == nth_ancestor(h, d, (i + 1) as nat),
            forall|k: nat| 1 <= k <= i ==> #[trigger] nth_ancestor(h, d, k) != Some(a),
        decreases n - i,
    {
        match current {
            None => {
                assert(chain_ends(h, d));
                return true;
            },
            Some(x) => {
                if x == ancestor {
                    assert(descends_from(h, d, a));
                    return true;
                }
                if i == n {
                    proof {
                        if descends_from(h, d, a) {
                            crate::tree_laws::lemma_ancestor_within_row_count(h, d, a);
                        }
                    }
                    return false;
                }
                current = parent_of(hierarchy, x);
                assert(current == nth_ancestor(h, d, (i + 2) as nat));
                i = i + 1;
            },
        }
    }
}

/// Whether the checks of `is_valid_drop` stop for dropping `entities` onto
/// `target`.
pub fn drop_check_terminates(entities: &[EntityId], target: EntityId, hierarchy: &[HierarchyEntry]) -> (r: bool)
    ensures
        r == drop_check_stops(entities@, target, hierarchy@),
{
    if contains_entity(entities, target) || entities.len() == 0 {
        true
    } else {
        descendant_walk_terminates(target, entities[0], hierarchy)
    }
}

/// Whether the rows describe a forest: every chain of parent links stops.
pub fn is_forest(hierarchy: &[HierarchyEntry]) -> (r: bool)
    ensures
        r == is_acyclic(hierarchy@),
{
    let mut i: usize = 0;
    while i < hierarchy.len()
        invariant
            i <= hierarchy@.len(),
            forall|j: int| 0 <= j < i ==> chain_ends(hierarchy@, #[trigger] hierarchy@[j].entity),
        decreases hierarchy@.len() - i,
    {
        if !has_finite_chain(hierarchy, hierarchy[i].entity) {
            return false;
        }
        i = i + 1;
    }
    proof {
        assert forall|e: EntityId| #[trigger] chain_ends(hierarchy@, e) by {
            if first_index(hierarchy@, e) is None {
                assert(nth_ancestor(hierarchy@, e, 0) == Some(e));
                assert(nth_ancestor(hierarchy@, e, 1) is None);
            } else {
                let k = first_index(hierarchy@, e).unwrap();
                assert(is_first_index(hierarchy@, e, k));
                assert(chain_ends(hierarchy@, hierarchy@[k].entity));
            }
        }
    }
    true
}

} // verus!
