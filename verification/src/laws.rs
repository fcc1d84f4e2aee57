//! The store's laws: properties of the operations, stated over the
//! collection model and proved once and for all.

use vstd::prelude::*;

use crate::codec::{spec_decode, spec_encode};
use crate::model::{Pokemon, PokemonView};
use crate::store::{
    create_effect, create_outcome, delete_effect, delete_outcome, get_outcome, has_id, index_of,
    unique_ids, update_collides, update_effect, update_outcome, PokemonStore, StoreError,
};

verus! {

/// The collection after a whole sequence of `Create` calls, applied in
/// order.
pub open spec fn create_all(s: Seq<PokemonView>, ps: Seq<PokemonView>) -> Seq<PokemonView>
    decreases ps.len(),
{
    if ps.len() == 0 {
        s
    } else {
        create_all(create_effect(s, ps[0]), ps.drop_first())
    }
}

/// One `Create` keeps the ids unique, and a colliding `Create` signals
/// `Conflict` and leaves the collection untouched.
pub proof fn lemma_create_uniqueness(s: Seq<PokemonView>, p: PokemonView)
    requires
        unique_ids(s),
    ensures
        unique_ids(create_effect(s, p)),
        has_id(s, p.id) ==> create_effect(s, p) == s && create_outcome(s, p) == Err::<
            (),
            StoreError,
        >(StoreError::Conflict),
{
    if !has_id(s, p.id) {
        crate::store::lemma_push_fresh_keeps_unique(s, p);
    }
}

/// Uniqueness: after any sequence of `Create` calls on a well-formed
/// collection, no two records share an id.
pub proof fn lemma_creates_keep_ids_unique(s: Seq<PokemonView>, ps: Seq<PokemonView>)
    requires
        unique_ids(s),
    ensures
        unique_ids(create_all(s, ps)),
    decreases ps.len(),
{
    if ps.len() > 0 {
        lemma_create_uniqueness(s, ps[0]);
        lemma_creates_keep_ids_unique(create_effect(s, ps[0]), ps.drop_first());
    }
}

/// Round-trip: a `Create(p)` that succeeds, followed by `Get(p.id)`,
/// yields `p` itself.
pub proof fn lemma_create_then_get(s: Seq<PokemonView>, p: PokemonView)
    requires
        unique_ids(s),
        !has_id(s, p.id),
    ensures
        get_outcome(create_effect(s, p), p.id) == Ok::<PokemonView, StoreError>(p),
{
    let t = s.push(p);
    crate::store::lemma_push_fresh_keeps_unique(s, p);
    crate::store::lemma_index_of_agrees(t, p.id, s.len() as int);
}

/// An `Update(id, p)` that succeeds replaces exactly one record: the one
/// at `id` becomes `p`, every other record and the collection's length are
/// unchanged, and the ids stay unique.
pub proof fn lemma_update_replaces_exactly_one(s: Seq<PokemonView>, id: u64, p: PokemonView)
    requires
        unique_ids(s),
        update_outcome(s, id, p) == Ok::<(), StoreError>(()),
    ensures
        update_effect(s, id, p).len() == s.len(),
        0 <= index_of(s, id) < s.len(),
        update_effect(s, id, p)[index_of(s, id)] == p,
        forall|k: int|
            0 <= k < s.len() && k != index_of(s, id) ==> update_effect(s, id, p)[k] == s[k],
        unique_ids(update_effect(s, id, p)),
{
    assert(has_id(s, id));
    assert(!update_collides(s, id, p));
    crate::store::lemma_update_keeps_unique(s, id, p);
}

/// Delete is idempotent in effect on an absent id: it signals `NotFound`,
/// changes nothing, and a second call does the same again.
pub proof fn lemma_delete_absent_idempotent(s: Seq<PokemonView>, id: u64)
    requires
        !has_id(s, id),
    ensures
        delete_effect(s, id) == s,
        delete_outcome(s, id) == Err::<(), StoreError>(StoreError::NotFound),
        delete_effect(delete_effect(s, id), id) == s,
        delete_outcome(delete_effect(s, id), id) == Err::<(), StoreError>(StoreError::NotFound),
{
}

/// Stats consistency: whatever operations produced the store, the count
/// `stats` reports equals the length of the snapshot `list` returns — both
/// are the length of the collection's model.
pub proof fn lemma_stats_matches_list(store: PokemonStore, snapshot: Vec<Pokemon>, count: usize)
    requires
        snapshot.deep_view() == store@,
        count == store@.len(),
    ensures
        count == snapshot.len(),
{
}

/// Persistence fidelity: the text the store persists for its collection
/// reads back as exactly that collection.
pub proof fn lemma_persistence_fidelity(store: PokemonStore)
    ensures
        spec_decode(spec_encode(store@)) == Some(store@),
{
    crate::codec::lemma_decode_encode(store@);
}

} // verus!
