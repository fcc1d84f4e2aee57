//! The record store: an ordered collection of records with a unique-id
//! invariant, and the six operations the handlers call on it.

use vstd::prelude::*;

use crate::model::{Pokemon, PokemonView};

verus! {

/// The two recoverable outcomes an operation can signal: `Conflict` when an
/// id would collide with an existing record, `NotFound` when the addressed
/// id is absent.
#[derive(Clone, Copy, PartialEq, Eq, Structural, Debug)]
pub enum StoreError {
    Conflict,
    NotFound,
}

/// True when some record of `s` carries the id `id`.
pub open spec fn has_id(s: Seq<PokemonView>, id: u64) -> bool {
    exists|i: int| 0 <= i < s.len() && s[i].id == id
}

/// An index of `s` whose record carries `id`; under `unique_ids` it is the
/// only one. Meaningful only when `has_id(s, id)` holds.
pub open spec fn index_of(s: Seq<PokemonView>, id: u64) -> int {
    choose|i: int| 0 <= i < s.len() && s[i].id == id
}

/// The collection invariant: no two records share an id.
pub open spec fn unique_ids(s: Seq<PokemonView>) -> bool {
    forall|i: int, j: int| 0 <= i < j < s.len() ==> s[i].id != s[j].id
}

/// The collection after `Create(p)`: appended when `p.id` is fresh,
/// unchanged on a conflict.
pub open spec fn create_effect(s: Seq<PokemonView>, p: PokemonView) -> Seq<PokemonView> {
    if has_id(s, p.id) {
        s
    } else {
        s.push(p)
    }
}

/// The outcome `Create(p)` signals.
pub open spec fn create_outcome(s: Seq<PokemonView>, p: PokemonView) -> Result<(), StoreError> {
    if has_id(s, p.id) {
        Err(StoreError::Conflict)
    } else {
        Ok(())
    }
}

/// The outcome of `Get(id)`: the record carrying `id`, or `NotFound`.
pub open spec fn get_outcome(s: Seq<PokemonView>, id: u64) -> Result<PokemonView, StoreError> {
    if has_id(s, id) {
        Ok(s[index_of(s, id)])
    } else {
        Err(StoreError::NotFound)
    }
}

/// True when replacing the record at `id` by `p` would collide with a
/// different existing record: the replacement changes the id, and the new
/// id is already taken.
pub open spec fn update_collides(s: Seq<PokemonView>, id: u64, p: PokemonView) -> bool {
    p.id != id && has_id(s, p.id)
}

/// The collection after `Update(id, p)`: the record at `id` replaced by
/// `p` in place, unchanged on `NotFound` or on a collision.
pub open spec fn update_effect(s: Seq<PokemonView>, id: u64, p: PokemonView) -> Seq<PokemonView> {
    if !has_id(s, id) {
        s
    } else if update_collides(s, id, p) {
        s
    } else {
        s.update(index_of(s, id), p)
    }
}

/// The outcome `Update(id, p)` signals.
pub open spec fn update_outcome(s: Seq<PokemonView>, id: u64, p: PokemonView) -> Result<
    (),
    StoreError,
> {
    if !has_id(s, id) {
        Err(StoreError::NotFound)
    } else if update_collides(s, id, p) {
        Err(StoreError::Conflict)
    } else {
        Ok(())
    }
}

/// The collection after `Delete(id)`: the record carrying `id` removed,
/// later records shifted left; unchanged when `id` is absent.
pub open spec fn delete_effect(s: Seq<PokemonView>, id: u64) -> Seq<PokemonView> {
    if has_id(s, id) {
        s.remove(index_of(s, id))
    } else {
        s
    }
}

/// The outcome `Delete(id)` signals.
pub open spec fn delete_outcome(s: Seq<PokemonView>, id: u64) -> Result<(), StoreError> {
    if has_id(s, id) {
        Ok(())
    } else {
        Err(StoreError::NotFound)
    }
}

/// The in-memory collection of records. Insertion order is kept; no two
/// records share an id.
pub struct PokemonStore {
    records: Vec<Pokemon>,
}

impl View for PokemonStore {
    type V = Seq<PokemonView>;

    closed spec fn view(&self) -> Seq<PokemonView> {
        self.records.deep_view()
    }
}

impl PokemonStore {
    /// The collection invariant: every constructor establishes it and every
    /// operation preserves it.
    pub open spec fn wf(&self) -> bool {
        unique_ids(self@)
    }

    /// A fresh, empty store.
    pub fn new() -> (s: Self)
        ensures
            s@ == Seq::<PokemonView>::empty(),
            s.wf(),
    {
        let s = PokemonStore { records: Vec::new() };
        proof {
            assert(s@ =~= Seq::<PokemonView>::empty());
        }
        s
    }

    /// The index of the record carrying `id`, if any.
    fn find_index(&self, id: u64) -> (r: Option<usize>)
        ensures
            match r {
                Some(i) => i < self@.len() && self@[i as int].id == id,
                None => !has_id(self@, id),
            },
    {
        let n = self.records.len();
        let mut j: usize = 0;
        while j < n
            invariant
                n == self@.len(),
                j <= n,
                forall|k: int| 0 <= k < j ==> self@[k].id != id,
            decreases n - j,
        {
            if self.records[j].id == id {
                return Some(j);
            }
            j += 1;
        }
        None
    }

    /// `List()`: a snapshot of all records, in current order.
    pub fn list(&self) -> (r: Vec<Pokemon>)
        ensures
            r.deep_view() == self@,
    {
        let n = self.records.len();
        let mut out: Vec<Pokemon> = Vec::new();
        let mut j: usize = 0;
        while j < n
            invariant
                n == self@.len(),
                j <= n,
                out.deep_view() == self@.take(j as int),
            decreases n - j,
        {
            let ghost prev = out.deep_view();
            out.push(self.records[j].clone());
            proof {
                assert(out.deep_view() =~= prev.push(self@[j as int]));
                assert(self@.take(j as int + 1) =~= self@.take(j as int).push(self@[j as int]));
            }
            j += 1;
        }
        proof {
            assert(self@.take(n as int) =~= self@);
        }
        out
    }

    /// `Stats()`: the current record count.
    pub fn stats(&self) -> (r: usize)
        ensures
            r == self@.len(),
    {
        self.records.len()
    }

    /// `Get(id)`: the record carrying `id`, or `NotFound`.
    pub fn get(&self, id: u64) -> (r: Result<Pokemon, StoreError>)
        requires
            self.wf(),
        ensures
            match r {
                Ok(p) => get_outcome(self@, id) == Ok::<PokemonView, StoreError>(p@),
                Err(e) => get_outcome(self@, id) == Err::<PokemonView, StoreError>(e),
            },
    {
        match self.find_index(id) {
            Some(i) => {
                let p = self.records[i].clone();
                proof {
                    lemma_index_of_agrees(self@, id, i as int);
                }
                Ok(p)
            },
            None => Err(StoreError::NotFound),
        }
    }

    /// `Create(p)`: append `p` when its id is fresh; signal `Conflict` and
    /// leave the collection unchanged when the id is already taken.
    pub fn create(&mut self, p: Pokemon) -> (r: Result<(), StoreError>)
        requires
            old(self).wf(),
        ensures
            final(self).wf(),
            final(self)@ == create_effect(old(self)@, p@),
            r == create_outcome(old(self)@, p@),
    {
        match self.find_index(p.id) {
            Some(_) => Err(StoreError::Conflict),
            None => {
                let ghost s0 = self@;
                let ghost pv = p@;
                self.records.push(p);
                proof {
                    assert(self@ =~= s0.push(pv));
                    lemma_push_fresh_keeps_unique(s0, pv);
                }
                Ok(())
            },
        }
    }

    /// `Update(id, p)`: replace the record carrying `id` by `p` in place.
    /// Signals `NotFound` when `id` is absent, and `Conflict` when `p`
    /// changes the id to one another record already carries; either way the
    /// collection is left unchanged.
    pub fn update(&mut self, id: u64, p: Pokemon) -> (r: Result<(), StoreError>)
        requires
            old(self).wf(),
        ensures
            final(self).wf(),
            final(self)@ == update_effect(old(self)@, id, p@),
            r == update_outcome(old(self)@, id, p@),
    {
        let ghost s0 = self@;
        let ghost pv = p@;
        match self.find_index(id) {
            None => Err(StoreError::NotFound),
            Some(i) => {
                proof {
                    lemma_index_of_agrees(s0, id, i as int);
                }
                if p.id != id {
                    if self.find_index(p.id).is_some() {
                        return Err(StoreError::Conflict);
                    }
                }
                self.records[i] = p;
                proof {
                    assert(self@ =~= s0.update(i as int, pv));
                    lemma_update_keeps_unique(s0, id, pv);
                }
                Ok(())
            },
        }
    }

    /// `Delete(id)`: remove the record carrying `id`; signal `NotFound` and
    /// leave the collection unchanged when it is absent.
    pub fn delete(&mut self, id: u64) -> (r: Result<(), StoreError>)
        requires
            old(self).wf(),
        ensures
            final(self).wf(),
            final(self)@ == delete_effect(old(self)@, id),
            r == delete_outcome(old(self)@, id),
    {
        let ghost s0 = self@;
        match self.find_index(id) {
            None => Err(StoreError::NotFound),
            Some(i) => {
                proof {
                    lemma_index_of_agrees(s0, id, i as int);
                }
                self.records.remove(i);
                proof {
                    assert(self@ =~= s0.remove(i as int));
                    lemma_remove_keeps_unique(s0, i as int);
                }
                Ok(())
            },
        }
    }
}

/// Under `unique_ids`, any index that carries `id` is the one `index_of`
/// picks.
pub proof fn lemma_index_of_agrees(s: Seq<PokemonView>, id: u64, i: int)
    requires
        unique_ids(s),
        0 <= i < s.len(),
        s[i].id == id,
    ensures
        has_id(s, id),
        index_of(s, id) == i,
{
    assert(has_id(s, id));
    let j = index_of(s, id);
    assert(0 <= j < s.len() && s[j].id == id);
    if i < j {
        assert(s[i].id != s[j].id);
    } else if j < i {
        assert(s[j].id != s[i].id);
    }
}

/// Appending a record with a fresh id preserves the invariant.
pub proof fn lemma_push_fresh_keeps_unique(s: Seq<PokemonView>, p: PokemonView)
    requires
        unique_ids(s),
        !has_id(s, p.id),
    ensures
        unique_ids(s.push(p)),
{
    let t = s.push(p);
    assert forall|i: int, j: int| 0 <= i < j < t.len() implies t[i].id != t[j].id by {
        if j == s.len() {
            assert(t[i] == s[i]);
            assert(t[j] == p);
            assert(s[i].id != p.id) by {
                if s[i].id == p.id {
                    assert(has_id(s, p.id));
                }
            }
        } else {
            assert(t[i] == s[i]);
            assert(t[j] == s[j]);
        }
    }
}

/// Replacing the record at `id` by one whose id collides with no other
/// record preserves the invariant.
pub proof fn lemma_update_keeps_unique(s: Seq<PokemonView>, id: u64, p: PokemonView)
    requires
        unique_ids(s),
        has_id(s, id),
        !update_collides(s, id, p),
    ensures
        unique_ids(s.update(index_of(s, id), p)),
{
    let k = index_of(s, id);
    let t = s.update(k, p);
    assert forall|i: int, j: int| 0 <= i < j < t.len() implies t[i].id != t[j].id by {
        if i != k && j != k {
            assert(t[i] == s[i]);
            assert(t[j] == s[j]);
        } else {
            let other = if i == k { j } else { i };
            assert(t[other] == s[other]);
            if p.id == id {
                assert(s[other].id != id) by {
                    if s[other].id == id {
                        lemma_index_of_agrees(s, id, other);
                    }
                }
            } else {
                assert(s[other].id != p.id) by {
                    if s[other].id == p.id {
                        assert(has_id(s, p.id));
                    }
                }
            }
        }
    }
}

/// Removing one record preserves the invariant.
pub proof fn lemma_remove_keeps_unique(s: Seq<PokemonView>, k: int)
    requires
        unique_ids(s),
        0 <= k < s.len(),
    ensures
        unique_ids(s.remove(k)),
{
    let t = s.remove(k);
    assert forall|i: int, j: int| 0 <= i < j < t.len() implies t[i].id != t[j].id by {
        let i0 = if i < k { i } else { i + 1 };
        let j0 = if j < k { j } else { j + 1 };
        assert(t[i] == s[i0]);
        assert(t[j] == s[j0]);
    }
}

} // verus!
