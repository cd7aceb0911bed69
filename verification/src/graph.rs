//! The knowledge graph: which relationships touch an entity, and which
//! entities lie within a number of hops of another.

use crate::table::has_key;
use crate::types::{EntityView, RelationshipView};
use vstd::prelude::*;

verus! {

/// The relationship is current.
pub open spec fn is_live(r: RelationshipView) -> bool {
    r.valid_until is None
}

/// The entity `id` is an endpoint of the relationship.
pub open spec fn touches(r: RelationshipView, id: u64) -> bool {
    r.source_entity_id == id || r.target_entity_id == id
}

/// The endpoint of the relationship that lies across from `id`.
pub open spec fn other_end(r: RelationshipView, id: u64) -> u64 {
    if r.source_entity_id == id {
        r.target_entity_id
    } else {
        r.source_entity_id
    }
}

/// The current relationships that touch `id`, in the order of the store.
pub open spec fn incident(rels: Seq<RelationshipView>, id: u64) -> Seq<RelationshipView>
    decreases rels.len(),
{
    if rels.len() == 0 {
        Seq::empty()
    } else {
        let rest = incident(rels.drop_last(), id);
        if is_live(rels.last()) && touches(rels.last(), id) {
            rest.push(rels.last())
        } else {
            rest
        }
    }
}

/// Some current relationship joins `a` and `b`.
pub open spec fn linked(rels: Seq<RelationshipView>, a: u64, b: u64) -> bool {
    exists|i: int|
        0 <= i < rels.len() && is_live(#[trigger] rels[i]) && touches(rels[i], a) && other_end(
            rels[i],
            a,
        ) == b
}

/// The ids of the entities that a walk of at most `depth` hops from `start`
/// reaches. A walk passes only through entities that exist.
pub open spec fn within(
    es: Seq<EntityView>,
    rels: Seq<RelationshipView>,
    start: u64,
    depth: nat,
) -> Set<u64>
    decreases depth,
{
    if depth == 0 {
        if has_key(es, start) {
            set![start]
        } else {
            Set::empty()
        }
    } else {
        let inner = within(es, rels, start, (depth - 1) as nat);
        Set::new(
            |id: u64|
                inner.contains(id) || (has_key(es, id) && exists|a: u64|
                    inner.contains(a) && linked(rels, a, id)),
        )
    }
}

/// More hops reach at least as far.
pub proof fn lemma_within_grows(
    es: Seq<EntityView>,
    rels: Seq<RelationshipView>,
    start: u64,
    depth: nat,
    id: u64,
)
    requires
        within(es, rels, start, depth).contains(id),
    ensures
        within(es, rels, start, depth + 1).contains(id),
        has_key(es, id),
    decreases depth,
{
    if depth > 0 {
        let inner = within(es, rels, start, (depth - 1) as nat);
        if inner.contains(id) {
            lemma_within_grows(es, rels, start, (depth - 1) as nat, id);
        }
    }
}

/// A walk of more hops reaches whatever a walk of fewer hops reaches.
pub proof fn lemma_within_mono(
    es: Seq<EntityView>,
    rels: Seq<RelationshipView>,
    start: u64,
    d: nat,
    k: nat,
    id: u64,
)
    requires
        d <= k,
        within(es, rels, start, d).contains(id),
    ensures
        within(es, rels, start, k).contains(id),
    decreases k - d,
{
    if d < k {
        lemma_within_grows(es, rels, start, d, id);
        lemma_within_mono(es, rels, start, d + 1, k, id);
    }
}

/// Once one more hop reaches nothing new, no number of hops does.
pub proof fn lemma_within_fixpoint(
    es: Seq<EntityView>,
    rels: Seq<RelationshipView>,
    start: u64,
    d: nat,
    k: nat,
)
    requires
        d <= k,
        forall|id: u64|
            within(es, rels, start, d + 1).contains(id) ==> within(es, rels, start, d).contains(
                id,
            ),
    ensures
        forall|id: u64|
            within(es, rels, start, k).contains(id) <==> within(es, rels, start, d).contains(id),
    decreases k,
{
    if d < k {
        lemma_within_fixpoint(es, rels, start, d, (k - 1) as nat);
        assert forall|id: u64| within(es, rels, start, k).contains(id) implies within(
            es,
            rels,
            start,
            d,
        ).contains(id) by {
            let inner = within(es, rels, start, (k - 1) as nat);
            if !inner.contains(id) {
                let a = choose|a: u64| inner.contains(a) && linked(rels, a, id);
                assert(within(es, rels, start, d).contains(a));
                assert(within(es, rels, start, d + 1).contains(id));
            }
        }
        assert forall|id: u64| within(es, rels, start, d).contains(id) implies within(
            es,
            rels,
            start,
            k,
        ).contains(id) by {
            lemma_within_mono(es, rels, start, d, k, id);
        }
    }
}

} // verus!
