use vstd::prelude::*;

use crate::entity::EntityId;
use crate::hierarchy::{
    chain_ends, descendant_walk_stops, descends_from, drop_check_stops, drop_is_valid, expand_spec,
    first_index, is_acyclic, is_first_index, lemma_first_index_same_entities, lemma_nth_ancestor_add,
    lemma_nth_ancestor_stays_none, nth_ancestor, parent_step, HierarchyEntry,
};

verus! {

/// The rows after dropping `dragged` onto `target`: every row of a dragged
/// entity takes `target` as its parent.
pub open spec fn reparent(h: Seq<HierarchyEntry>, dragged: Seq<EntityId>, target: EntityId) -> Seq<HierarchyEntry> {
    Seq::new(
        h.len(),
        |i: int|
            HierarchyEntry {
                entity: h[i].entity,
                parent: if dragged.contains(h[i].entity) {
                    Some(target)
                } else {
                    h[i].parent
                },
                is_expanded: h[i].is_expanded,
            },
    )
}

/// Two row sequences with the same entities and parents row by row.
pub open spec fn same_links(h1: Seq<HierarchyEntry>, h2: Seq<HierarchyEntry>) -> bool {
    &&& h1.len() == h2.len()
    &&& forall|i: int| 0 <= i < h1.len() ==> h1[i].entity == h2[i].entity && h1[i].parent == h2[i].parent
}

proof fn lemma_reparent_step(h: Seq<HierarchyEntry>, dragged: Seq<EntityId>, target: EntityId, x: EntityId)
    ensures
        parent_step(reparent(h, dragged, target), x) == if dragged.contains(x) && first_index(h, x) is Some {
            Some(target)
        } else {
            parent_step(h, x)
        },
{
    let h2 = reparent(h, dragged, target);
    lemma_first_index_same_entities(h, h2, x);
    match first_index(h, x) {
        Some(i) => {
            assert(is_first_index(h, x, i));
        },
        None => {},
    }
}

proof fn lemma_same_links_nth(h1: Seq<HierarchyEntry>, h2: Seq<HierarchyEntry>, x: EntityId, n: nat)
    requires
        same_links(h1, h2),
    ensures
        nth_ancestor(h1, x, n) == nth_ancestor(h2, x, n),
    decreases n,
{
    if n > 0 {
        lemma_same_links_nth(h1, h2, x, (n - 1) as nat);
        match nth_ancestor(h1, x, (n - 1) as nat) {
            Some(y) => {
                lemma_first_index_same_entities(h1, h2, y);
                match first_index(h1, y) {
                    Some(i) => {
                        assert(is_first_index(h1, y, i));
                    },
                    None => {},
                }
            },
            None => {},
        }
    }
}

/// Rows with the same entities and parents have the same ancestry.
pub proof fn law_same_links_same_ancestry(h1: Seq<HierarchyEntry>, h2: Seq<HierarchyEntry>)
    requires
        same_links(h1, h2),
    ensures
        forall|x: EntityId, n: nat| #[trigger] nth_ancestor(h1, x, n) == nth_ancestor(h2, x, n),
        forall|x: EntityId, y: EntityId| #[trigger] descends_from(h1, x, y) == descends_from(h2, x, y),
        is_acyclic(h1) == is_acyclic(h2),
{
    assert forall|x: EntityId, n: nat| #[trigger] nth_ancestor(h1, x, n) == nth_ancestor(h2, x, n) by {
        lemma_same_links_nth(h1, h2, x, n);
    }
    assert forall|x: EntityId, y: EntityId| #[trigger] descends_from(h1, x, y) == descends_from(h2, x, y) by {
        if descends_from(h1, x, y) {
            let k = choose|k: nat| k >= 1 && nth_ancestor(h1, x, k) == Some(y);
            assert(nth_ancestor(h2, x, k) == Some(y));
        }
        if descends_from(h2, x, y) {
            let k = choose|k: nat| k >= 1 && nth_ancestor(h2, x, k) == Some(y);
            assert(nth_ancestor(h1, x, k) == Some(y));
        }
    }
    assert forall|x: EntityId| chain_ends(h1, x) == chain_ends(h2, x) by {
        if chain_ends(h1, x) {
            let n = choose|n: nat| nth_ancestor(h1, x, n) is None;
            assert(nth_ancestor(h2, x, n) is None);
        }
        if chain_ends(h2, x) {
            let n = choose|n: nat| nth_ancestor(h2, x, n) is None;
            assert(nth_ancestor(h1, x, n) is None);
        }
    }
}

/// Unfolding the path to an entity changes neither entities nor parents: the
/// ancestry of every entity, and whether the rows form a forest, stay as
/// they were.
pub proof fn law_expand_keeps_ancestry(h: Seq<HierarchyEntry>, target: EntityId)
    ensures
        same_links(h, expand_spec(h, target)),
        forall|x: EntityId, y: EntityId| #[trigger] descends_from(expand_spec(h, target), x, y) == descends_from(h, x, y),
        is_acyclic(expand_spec(h, target)) == is_acyclic(h),
{
    law_same_links_same_ancestry(h, expand_spec(h, target));
}

/// Unfolding the path to the same entity twice is the same as once.
pub proof fn law_expand_idempotent(h: Seq<HierarchyEntry>, target: EntityId)
    ensures
        expand_spec(expand_spec(h, target), target) == expand_spec(h, target),
{
    let e1 = expand_spec(h, target);
    law_same_links_same_ancestry(h, e1);
    assert forall|x: EntityId| first_index(e1, x) == first_index(h, x) by {
        lemma_first_index_same_entities(e1, h, x);
    }
    assert(expand_spec(e1, target) =~= e1);
}

/// Following links from `c` reaches `b`, and from `b` reaches `a`: then
/// following links from `c` reaches `a`.
pub proof fn law_descends_from_transitive(h: Seq<HierarchyEntry>, a: EntityId, b: EntityId, c: EntityId)
    requires
        descends_from(h, c, b),
        descends_from(h, b, a),
    ensures
        descends_from(h, c, a),
{
    let k1 = choose|k: nat| k >= 1 && nth_ancestor(h, c, k) == Some(b);
    let k2 = choose|k: nat| k >= 1 && nth_ancestor(h, b, k) == Some(a);
    lemma_nth_ancestor_add(h, c, k1, k2);
    assert(nth_ancestor(h, c, k1 + k2) == Some(a));
}

proof fn lemma_cycle_never_ends(h: Seq<HierarchyEntry>, x: EntityId, k: nat, j: nat)
    requires
        k >= 1,
        nth_ancestor(h, x, k) == Some(x),
    ensures
        nth_ancestor(h, x, j) is Some,
    decreases j,
{
    if j < k {
        if nth_ancestor(h, x, j) is None {
            lemma_nth_ancestor_stays_none(h, x, j, k);
        }
    } else {
        let r = (j - k) as nat;
        lemma_cycle_never_ends(h, x, k, r);
        lemma_nth_ancestor_add(h, x, k, r);
        assert(k + r == j);
    }
}

/// An entity whose chain of parents ends is never its own ancestor; in a
/// forest no entity is.
pub proof fn law_no_entity_is_its_own_ancestor(h: Seq<HierarchyEntry>, x: EntityId)
    requires
        chain_ends(h, x),
    ensures
        !descends_from(h, x, x),
{
    if descends_from(h, x, x) {
        let k = choose|k: nat| k >= 1 && nth_ancestor(h, x, k) == Some(x);
        let n = choose|n: nat| nth_ancestor(h, x, n) is None;
        lemma_cycle_never_ends(h, x, k, n);
    }
}

proof fn lemma_chain_off_dragged(
    h: Seq<HierarchyEntry>,
    dragged: Seq<EntityId>,
    target: EntityId,
    x: EntityId,
    n: nat,
)
    requires
        forall|k: nat|
            k < n ==> match #[trigger] nth_ancestor(h, x, k) {
                Some(y) => !dragged.contains(y),
                None => true,
            },
    ensures
        nth_ancestor(reparent(h, dragged, target), x, n) == nth_ancestor(h, x, n),
    decreases n,
{
    if n > 0 {
        let m = (n - 1) as nat;
        lemma_chain_off_dragged(h, dragged, target, x, m);
        assert(match nth_ancestor(h, x, m) {
            Some(y) => !dragged.contains(y),
            None => true,
        });
        match nth_ancestor(h, x, m) {
            Some(y) => {
                lemma_reparent_step(h, dragged, target, y);
            },
            None => {},
        }
    }
}

proof fn lemma_reparented_chain_ends(
    h: Seq<HierarchyEntry>,
    dragged: Seq<EntityId>,
    target: EntityId,
    x: EntityId,
    n: nat,
)
    requires
        nth_ancestor(h, x, n) is None,
        chain_ends(reparent(h, dragged, target), target),
    ensures
        chain_ends(reparent(h, dragged, target), x),
    decreases n,
{
    let h2 = reparent(h, dragged, target);
    assert(nth_ancestor(h2, x, 0) == Some(x));
    assert(nth_ancestor(h, x, 0) == Some(x));
    lemma_reparent_step(h, dragged, target, x);
    assert(nth_ancestor(h2, x, 1) == parent_step(h2, x));
    assert(nth_ancestor(h, x, 1) == parent_step(h, x));
    if dragged.contains(x) && first_index(h, x) is Some {
        let m = choose|m: nat| nth_ancestor(h2, target, m) is None;
        lemma_nth_ancestor_add(h2, x, 1, m);
        assert(nth_ancestor(h2, x, 1 + m) is None);
    } else {
        match parent_step(h, x) {
            None => {
                assert(nth_ancestor(h2, x, 1) is None);
            },
            Some(p) => {
                let r = (n - 1) as nat;
                lemma_nth_ancestor_add(h, x, 1, r);
                assert(1 + r == n);
                lemma_reparented_chain_ends(h, dragged, target, p, r);
                let m = choose|m: nat| nth_ancestor(h2, p, m) is None;
                lemma_nth_ancestor_add(h2, x, 1, m);
                assert(nth_ancestor(h2, x, 1 + m) is None);
            },
        }
    }
}

/// A drop that `is_valid_drop` accepts keeps a forest a forest: when the
/// dragged entities take the target as their parent, every chain of parent
/// links still ends.
pub proof fn law_valid_drop_keeps_forest(h: Seq<HierarchyEntry>, dragged: Seq<EntityId>, target: EntityId)
    requires
        is_acyclic(h),
        drop_is_valid(dragged, target, h),
    ensures
        is_acyclic(reparent(h, dragged, target)),
{
    let h2 = reparent(h, dragged, target);
    // The chain above the target never meets a dragged entity, so it is
    // the same after the drop, and it ends.
    assert forall|k: nat|
        match #[trigger] nth_ancestor(h, target, k) {
            Some(y) => !dragged.contains(y),
            None => true,
        } by {
        if k == 0 {
            assert(nth_ancestor(h, target, 0) == Some(target));
        } else {
            match nth_ancestor(h, target, k) {
                Some(y) => {
                    if dragged.contains(y) {
                        let j = choose|j: int| 0 <= j < dragged.len() && dragged[j] == y;
                        assert(!descends_from(h, target, dragged[j]));
                        assert(descends_from(h, target, y));
                    }
                },
                None => {},
            }
        }
    }
    assert(chain_ends(h, target));
    let n = choose|n: nat| nth_ancestor(h, target, n) is None;
    lemma_chain_off_dragged(h, dragged, target, target, n);
    assert(nth_ancestor(h2, target, n) is None);
    assert(chain_ends(h2, target));
    assert forall|x: EntityId| #[trigger] chain_ends(h2, x) by {
        assert(chain_ends(h, x));
        let m = choose|m: nat| nth_ancestor(h, x, m) is None;
        lemma_reparented_chain_ends(h, dragged, target, x, m);
    }
}

proof fn lemma_repeat_means_endless(h: Seq<HierarchyEntry>, e: EntityId, a: nat, b: nat, y: EntityId)
    requires
        a < b,
        nth_ancestor(h, e, a) == Some(y),
        nth_ancestor(h, e, b) == Some(y),
    ensures
        !chain_ends(h, e),
{
    let k = (b - a) as nat;
    lemma_nth_ancestor_add(h, e, a, k);
    assert(a + k == b);
    assert(nth_ancestor(h, y, k) == Some(y));
    assert forall|n: nat| !(#[trigger] nth_ancestor(h, e, n) is None) by {
        if n <= a {
            if nth_ancestor(h, e, n) is None {
                lemma_nth_ancestor_stays_none(h, e, n, a);
            }
        } else {
            let m = (n - a) as nat;
            lemma_nth_ancestor_add(h, e, a, m);
            assert(a + m == n);
            lemma_cycle_never_ends(h, y, k, m);
        }
    }
}

/// A chain still alive after one link more than there are rows meets some
/// entity twice among its first `h.len() + 1` entities.
proof fn lemma_long_chain_repeats(h: Seq<HierarchyEntry>, e: EntityId)
    requires
        nth_ancestor(h, e, h.len() + 1) is Some,
    ensures
        exists|j1: nat, j2: nat|
            j1 < j2 <= h.len() && #[trigger] nth_ancestor(h, e, j1) is Some && nth_ancestor(h, e, j1)
                == #[trigger] nth_ancestor(h, e, j2),
{
    let l = h.len();
    // Every chain element up to step l + 1 is live and found in some row.
    assert forall|j: nat| j <= l + 1 implies #[trigger] nth_ancestor(h, e, j) is Some by {
        if nth_ancestor(h, e, j) is None {
            lemma_nth_ancestor_stays_none(h, e, j, l + 1);
        }
    }
    let f = |j: int| first_index(h, nth_ancestor(h, e, j as nat).unwrap()).unwrap();
    assert forall|j: int| 0 <= j <= l implies {
        &&& #[trigger] first_index(h, nth_ancestor(h, e, j as nat).unwrap()) is Some
        &&& 0 <= f(j) < l
        &&& h[f(j)].entity == nth_ancestor(h, e, j as nat).unwrap()
    } by {
        let x = nth_ancestor(h, e, j as nat).unwrap();
        assert(nth_ancestor(h, e, (j + 1) as nat) is Some);
        assert(nth_ancestor(h, e, (j + 1) as nat) == parent_step(h, x));
        let i = first_index(h, x).unwrap();
        assert(is_first_index(h, x, i));
    }
    if !exists|j1: nat, j2: nat|
        j1 < j2 <= l && #[trigger] nth_ancestor(h, e, j1) is Some && nth_ancestor(h, e, j1)
            == #[trigger] nth_ancestor(h, e, j2) {
        let xs = vstd::set_lib::set_int_range(0, l as int + 1);
        let ys = xs.map(f);
        vstd::set_lib::lemma_int_range(0, l as int + 1);
        vstd::set_lib::lemma_int_range(0, l as int);
        assert forall|j1: int, j2: int| xs.contains(j1) && xs.contains(j2) && #[trigger] f(j1) == #[trigger] f(j2) implies j1
            == j2 by {
            let x1 = nth_ancestor(h, e, j1 as nat).unwrap();
            let x2 = nth_ancestor(h, e, j2 as nat).unwrap();
            assert(h[f(j1)].entity == x1);
            assert(h[f(j2)].entity == x2);
            if j1 < j2 {
                assert(nth_ancestor(h, e, j1 as nat) == nth_ancestor(h, e, j2 as nat));
            } else if j2 < j1 {
                assert(nth_ancestor(h, e, j2 as nat) == nth_ancestor(h, e, j1 as nat));
            }
        }
        assert(vstd::relations::injective_on(f, xs));
        vstd::set_lib::lemma_map_size(xs, ys, f);
        assert forall|i: int| ys.contains(i) implies vstd::set_lib::set_int_range(0, l as int).contains(i) by {
            let j = choose|j: int| xs.contains(j) && f(j) == i;
            assert(0 <= j <= l);
        }
        vstd::set_lib::lemma_len_subset(ys, vstd::set_lib::set_int_range(0, l as int));
    }
}

/// A chain of parent links that ends does so within one link more than
/// there are rows: every step of a live chain goes through a row of its own.
pub proof fn law_chains_end_within_row_count(h: Seq<HierarchyEntry>, e: EntityId)
    requires
        chain_ends(h, e),
    ensures
        nth_ancestor(h, e, h.len() + 1) is None,
{
    if nth_ancestor(h, e, h.len() + 1) is Some {
        lemma_long_chain_repeats(h, e);
        let (j1, j2) = choose|j1: nat, j2: nat|
            j1 < j2 <= h.len() && #[trigger] nth_ancestor(h, e, j1) is Some && nth_ancestor(h, e, j1)
                == #[trigger] nth_ancestor(h, e, j2);
        lemma_repeat_means_endless(h, e, j1, j2, nth_ancestor(h, e, j1).unwrap());
    }
}

proof fn lemma_fold_into_period(
    h: Seq<HierarchyEntry>,
    d: EntityId,
    a: EntityId,
    j1: nat,
    j2: nat,
    k: nat,
) -> (r: nat)
    requires
        j1 < j2,
        nth_ancestor(h, d, j1) is Some,
        nth_ancestor(h, d, j1) == nth_ancestor(h, d, j2),
        k > j1,
        nth_ancestor(h, d, k) == Some(a),
    ensures
        j1 < r <= j2,
        nth_ancestor(h, d, r) == Some(a),
    decreases k,
{
    if k <= j2 {
        k
    } else {
        let m = (k - j2) as nat;
        let p = (j2 - j1) as nat;
        lemma_nth_ancestor_add(h, d, j2, m);
        lemma_nth_ancestor_add(h, d, j1, m);
        assert(j2 + m == k);
        assert((j1 + m) as nat == (k - p) as nat);
        lemma_fold_into_period(h, d, a, j1, j2, (k - p) as nat)
    }
}

/// When `a` lies above `d`, the walk up from `d` meets it within one link
/// more than there are rows.
pub proof fn lemma_ancestor_within_row_count(h: Seq<HierarchyEntry>, d: EntityId, a: EntityId)
    requires
        descends_from(h, d, a),
    ensures
        exists|k: nat| 1 <= k <= h.len() + 1 && #[trigger] nth_ancestor(h, d, k) == Some(a),
{
    let k0 = choose|k: nat| k >= 1 && #[trigger] nth_ancestor(h, d, k) == Some(a);
    if k0 > h.len() + 1 {
        if nth_ancestor(h, d, h.len() + 1) is None {
            lemma_nth_ancestor_stays_none(h, d, h.len() + 1, k0);
        }
        lemma_long_chain_repeats(h, d);
        let (j1, j2) = choose|j1: nat, j2: nat|
            j1 < j2 <= h.len() && #[trigger] nth_ancestor(h, d, j1) is Some && nth_ancestor(h, d, j1)
                == #[trigger] nth_ancestor(h, d, j2);
        let r = lemma_fold_into_period(h, d, a, j1, j2, k0);
        assert(nth_ancestor(h, d, r) == Some(a));
    }
}

/// In a forest every walk of the tree operations stops: the preconditions
/// of `is_descendant_of`, `is_valid_drop` and `expand_to_entity` hold for
/// all arguments.
pub proof fn law_forest_walks_stop(h: Seq<HierarchyEntry>, d: EntityId, a: EntityId, dragged: Seq<EntityId>)
    requires
        is_acyclic(h),
    ensures
        descendant_walk_stops(h, d, a),
        drop_check_stops(dragged, d, h),
        chain_ends(h, d),
{
    assert(chain_ends(h, d));
}

} // verus!
