use vstd::prelude::*;

verus! {

/// An entity of the scene, identified by the 64-bit value that the ECS
/// gives it (generation and index packed together).
#[derive(Clone, Copy, Debug, PartialEq, Eq, Structural, Hash)]
pub struct EntityId(pub u64);

impl EntityId {
    /// Builds the identifier from its packed bits.
    pub fn from_bits(bits: u64) -> (r: EntityId)
        ensures
            r.0 == bits,
    {
        EntityId(bits)
    }

    /// The packed bits of the identifier.
    pub fn to_bits(&self) -> (r: u64)
        ensures
            r == self.0,
    {
        self.0
    }
}

/// Position `i` holds the first occurrence of `x` in `s`.
pub open spec fn is_first_position(s: Seq<EntityId>, x: EntityId, i: int) -> bool {
    &&& 0 <= i < s.len()
    &&& s[i] == x
    &&& forall|j: int| 0 <= j < i ==> s[j] != x
}

/// The position of the first occurrence of `x` in `s`, if any.
pub open spec fn first_position(s: Seq<EntityId>, x: EntityId) -> Option<int> {
    if exists|i: int| is_first_position(s, x, i) {
        Some(choose|i: int| is_first_position(s, x, i))
    } else {
        None
    }
}

pub proof fn lemma_first_position_unique(s: Seq<EntityId>, x: EntityId, i: int)
    requires
        is_first_position(s, x, i),
    ensures
        first_position(s, x) == Some(i),
{
    let j = choose|j: int| is_first_position(s, x, j);
    assert(is_first_position(s, x, j));
    if j < i {
        assert(s[j] != x);
    } else if i < j {
        assert(s[i] != x);
    }
}

pub proof fn lemma_first_position_contains(s: Seq<EntityId>, x: EntityId)
    ensures
        first_position(s, x) is Some <==> s.contains(x),
{
    if s.contains(x) {
        let i = choose|i: int| 0 <= i < s.len() && s[i] == x;
        lemma_smallest_is_first(s, x, i);
    }
}

proof fn lemma_smallest_is_first(s: Seq<EntityId>, x: EntityId, j: int)
    requires
        0 <= j < s.len(),
        s[j] == x,
    ensures
        exists|k: int| is_first_position(s, x, k),
    decreases j,
{
    if exists|l: int| 0 <= l < j && s[l] == x {
        let l = choose|l: int| 0 <= l < j && s[l] == x;
        lemma_smallest_is_first(s, x, l);
    } else {
        assert(is_first_position(s, x, j));
    }
}

/// The position of the first occurrence of `e` in `v`.
pub fn position_of(v: &[EntityId], e: EntityId) -> (r: Option<usize>)
    ensures
        match r {
            Some(i) => first_position(v@, e) == Some(i as int),
            None => first_position(v@, e) is None && !v@.contains(e),
        },
{
    let mut i: usize = 0;
    while i < v.len()
        invariant
            i <= v@.len(),
            forall|j: int| 0 <= j < i ==> v@[j] != e,
        decreases v@.len() - i,
    {
        if v[i] == e {
            proof {
                lemma_first_position_unique(v@, e, i as int);
            }
            return Some(i);
        }
        i = i + 1;
    }
    proof {
        lemma_first_position_contains(v@, e);
    }
    None
}

/// Whether `v` holds `e`.
pub fn contains_entity(v: &[EntityId], e: EntityId) -> (r: bool)
    ensures
        r == v@.contains(e),
{
    let mut i: usize = 0;
    while i < v.len()
        invariant
            i <= v@.len(),
            forall|j: int| 0 <= j < i ==> v@[j] != e,
        decreases v@.len() - i,
    {
        if v[i] == e {
            assert(v@[i as int] == e);
            return true;
        }
        i = i + 1;
    }
    false
}

} // verus!
