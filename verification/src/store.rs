//! The record store: get / put / delete / exists for one entity kind,
//! keyed by entity id.

use crate::error::AppError;
use vstd::prelude::*;

verus! {

/// Index of the first record keyed by `id`, if any.
pub open spec fn store_index<V>(m: Seq<(Seq<char>, V)>, id: Seq<char>) -> Option<int>
    decreases m.len(),
{
    if m.len() == 0 {
        None
    } else if m[0].0 == id {
        Some(0int)
    } else {
        match store_index(m.drop_first(), id) {
            Some(i) => Some(i + 1),
            None => None,
        }
    }
}

/// Every record carries a different id: the representation invariant the
/// store's operations maintain.
pub open spec fn store_keys_unique<V>(m: Seq<(Seq<char>, V)>) -> bool {
    forall|i: int, j: int| 0 <= i < j < m.len() ==> m[i].0 != m[j].0
}

/// Whether a record keyed by `id` exists.
pub open spec fn store_has<V>(m: Seq<(Seq<char>, V)>, id: Seq<char>) -> bool {
    store_index(m, id) is Some
}

/// The record keyed by `id`, if any.
pub open spec fn store_get<V>(m: Seq<(Seq<char>, V)>, id: Seq<char>) -> Option<V> {
    match store_index(m, id) {
        Some(i) => Some(m[i].1),
        None => None,
    }
}

/// Store after writing `v` under `id`: the existing record is overwritten
/// in place, or a new record is appended.
pub open spec fn spec_store_put<V>(m: Seq<(Seq<char>, V)>, id: Seq<char>, v: V) -> Seq<
    (Seq<char>, V),
> {
    match store_index(m, id) {
        Some(i) => m.update(i, (id, v)),
        None => m.push((id, v)),
    }
}

/// `store_index` finds the first record keyed by `id`.
pub proof fn lemma_store_index_props<V>(m: Seq<(Seq<char>, V)>, id: Seq<char>)
    ensures
        match store_index(m, id) {
            Some(i) => {
                &&& 0 <= i < m.len()
                &&& m[i].0 == id
                &&& forall|j: int| 0 <= j < i ==> m[j].0 != id
            },
            None => forall|j: int| 0 <= j < m.len() ==> m[j].0 != id,
        },
    decreases m.len(),
{
    if m.len() > 0 && m[0].0 != id {
        lemma_store_index_props(m.drop_first(), id);
        assert forall|j: int| 1 <= j < m.len() implies m.drop_first()[j - 1] == m[j] by {}
    }
}

/// The first matching position determines `store_index`.
pub proof fn lemma_store_index_at<V>(m: Seq<(Seq<char>, V)>, id: Seq<char>, i: int)
    requires
        0 <= i < m.len(),
        m[i].0 == id,
        forall|j: int| 0 <= j < i ==> m[j].0 != id,
    ensures
        store_index(m, id) == Some(i),
{
    lemma_store_index_props(m, id);
    match store_index(m, id) {
        Some(i2) => {
            if i2 < i {
                assert(m[i2].0 != id);
            } else if i < i2 {
                assert(m[i].0 != id);
            }
        },
        None => {
            assert(m[i].0 != id);
        },
    }
}

/// Law: writing a record and reading it back by the same id yields the
/// value that was written, whatever the store held before.
pub proof fn lemma_put_get_round_trip<V>(m: Seq<(Seq<char>, V)>, id: Seq<char>, v: V)
    ensures
        store_get(spec_store_put(m, id, v), id) == Some(v),
{
    lemma_store_index_props(m, id);
    match store_index(m, id) {
        Some(i) => {
            let m2 = m.update(i, (id, v));
            assert forall|j: int| 0 <= j < i implies m2[j].0 != id by {
                assert(m2[j] == m[j]);
            }
            lemma_store_index_at(m2, id, i);
        },
        None => {
            let m2 = m.push((id, v));
            assert forall|j: int| 0 <= j < m.len() implies m2[j].0 != id by {
                assert(m2[j] == m[j]);
            }
            lemma_store_index_at(m2, id, m.len() as int);
        },
    }
}

/// Law: writing a record leaves every other id's record unchanged.
pub proof fn lemma_put_preserves_others<V>(
    m: Seq<(Seq<char>, V)>,
    id: Seq<char>,
    v: V,
    other: Seq<char>,
)
    requires
        other != id,
    ensures
        store_get(spec_store_put(m, id, v), other) == store_get(m, other),
{
    lemma_store_index_props(m, id);
    lemma_store_index_props(m, other);
    let m2 = spec_store_put(m, id, v);
    match store_index(m, id) {
        Some(i) => {
            assert(forall|j: int| 0 <= j < m2.len() && j != i ==> m2[j] == m[j]);
            match store_index(m, other) {
                Some(k) => {
                    assert(m2[k].0 == other);
                    assert forall|j: int| 0 <= j < k implies m2[j].0 != other by {
                        if j != i {
                            assert(m2[j] == m[j]);
                        }
                    }
                    lemma_store_index_at(m2, other, k);
                },
                None => {
                    lemma_store_index_props(m2, other);
                    match store_index(m2, other) {
                        Some(k2) => {
                            if k2 != i {
                                assert(m2[k2] == m[k2]);
                            }
                        },
                        None => {},
                    }
                },
            }
        },
        None => {
            match store_index(m, other) {
                Some(k) => {
                    assert(m2[k].0 == other);
                    assert(forall|j: int| 0 <= j < k ==> m2[j] == m[j]);
                    lemma_store_index_at(m2, other, k);
                },
                None => {
                    lemma_store_index_props(m2, other);
                    match store_index(m2, other) {
                        Some(k2) => {
                            if k2 < m.len() {
                                assert(m2[k2] == m[k2]);
                            }
                        },
                        None => {},
                    }
                },
            }
        },
    }
}

/// Law: removing the record at position `i` leaves every id with a
/// different key unreadable only there: other ids resolve as before.
pub proof fn lemma_remove_preserves_others<V>(m: Seq<(Seq<char>, V)>, i: int, other: Seq<char>)
    requires
        0 <= i < m.len(),
        m[i].0 != other,
    ensures
        store_get(m.remove(i), other) == store_get(m, other),
{
    let m2 = m.remove(i);
    lemma_store_index_props(m, other);
    match store_index(m, other) {
        Some(k) => {
            if k < i {
                assert(m2[k] == m[k]);
                assert forall|j: int| 0 <= j < k implies m2[j].0 != other by {
                    assert(m2[j] == m[j]);
                }
                lemma_store_index_at(m2, other, k);
            } else {
                assert(k != i);
                assert(m2[k - 1] == m[k]);
                assert forall|j: int| 0 <= j < k - 1 implies m2[j].0 != other by {
                    if j < i {
                        assert(m2[j] == m[j]);
                    } else {
                        assert(m2[j] == m[j + 1]);
                    }
                }
                lemma_store_index_at(m2, other, k - 1);
            }
        },
        None => {
            lemma_store_index_props(m2, other);
            match store_index(m2, other) {
                Some(k2) => {
                    if k2 < i {
                        assert(m2[k2] == m[k2]);
                    } else {
                        assert(m2[k2] == m[k2 + 1]);
                    }
                },
                None => {},
            }
        },
    }
}

/// With keys unique, removing the record keyed `id` leaves no record for
/// `id`, and the remaining keys stay unique.
pub proof fn lemma_remove_key<V>(m: Seq<(Seq<char>, V)>, id: Seq<char>)
    requires
        forall|i: int, j: int| 0 <= i < j < m.len() ==> m[i].0 != m[j].0,
        store_index(m, id) is Some,
    ensures
        store_get(m.remove(store_index(m, id)->Some_0), id) is None,
        forall|i: int, j: int|
            0 <= i < j < m.remove(store_index(m, id)->Some_0).len() ==> m.remove(
                store_index(m, id)->Some_0,
            )[i].0 != m.remove(store_index(m, id)->Some_0)[j].0,
{
    lemma_store_index_props(m, id);
    let p = store_index(m, id)->Some_0;
    let r = m.remove(p);
    assert forall|k: int| 0 <= k < r.len() implies r[k].0 != id by {
        if k < p {
            assert(r[k] == m[k]);
            assert(m[k].0 != m[p].0);
        } else {
            assert(r[k] == m[k + 1]);
            assert(m[p].0 != m[k + 1].0);
        }
    }
    lemma_store_index_props(r, id);
    match store_index(r, id) {
        Some(i2) => {
            assert(r[i2].0 != id);
        },
        None => {},
    }
    assert forall|i: int, j: int| 0 <= i < j < r.len() implies r[i].0 != r[j].0 by {
        if j < p {
            assert(r[i] == m[i] && r[j] == m[j]);
        } else if i < p {
            assert(r[i] == m[i] && r[j] == m[j + 1]);
        } else {
            assert(r[i] == m[i + 1] && r[j] == m[j + 1]);
        }
    }
}

/// An in-memory record store for one entity kind.
pub struct Store<T> {
    entries: Vec<(String, T)>,
}

impl<T: View> View for Store<T> {
    type V = Seq<(Seq<char>, T::V)>;

    closed spec fn view(&self) -> Seq<(Seq<char>, T::V)> {
        Seq::new(self.entries@.len(), |i: int| (self.entries@[i].0@, self.entries@[i].1@))
    }
}

impl<T: View> Store<T> {
    /// Create an empty store.
    pub fn new() -> (r: Self)
        ensures
            r@ == Seq::<(Seq<char>, T::V)>::empty(),
            store_keys_unique(r@),
    {
        let r = Store { entries: Vec::new() };
        proof {
            assert(r@ =~= Seq::<(Seq<char>, T::V)>::empty());
        }
        r
    }

    /// Index of the record keyed by `id`, if any.
    fn index_of(&self, id: &String) -> (r: Option<usize>)
        ensures
            match r {
                Some(i) => {
                    &&& i < self.entries.len()
                    &&& store_index(self@, id@) == Some(i as int)
                    &&& self@[i as int].0 == id@
                },
                None => store_index(self@, id@) is None,
            },
    {
        let n: usize = self.entries.len();
        let mut i: usize = 0;
        while i < n
            invariant
                i <= n,
                n == self.entries.len(),
                forall|j: int| 0 <= j < i ==> self@[j].0 != id@,
            decreases n - i,
        {
            if self.entries[i].0 == *id {
                proof {
                    assert(self@[i as int].0 == id@);
                    lemma_store_index_at(self@, id@, i as int);
                }
                return Some(i);
            }
            proof {
                assert(self@[i as int].0 == self.entries@[i as int].0@);
            }
            i = i + 1;
        }
        proof {
            lemma_store_index_props(self@, id@);
            match store_index(self@, id@) {
                Some(i2) => {
                    assert(self@[i2].0 != id@);
                },
                None => {},
            }
        }
        None
    }

    /// Whether a record keyed by `id` exists.
    pub fn contains(&self, id: &String) -> (r: bool)
        ensures
            r == store_has(self@, id@),
    {
        match self.index_of(id) {
            Some(_) => true,
            None => false,
        }
    }

    /// Read the record keyed by `id`; absent ids are reported.
    pub fn get(&self, id: &String) -> (r: Result<&T, AppError>)
        ensures
            match store_get(self@, id@) {
                Some(v) => r matches Ok(t) && t@ == v,
                None => r matches Err(e) && e is FileReadError,
            },
    {
        match self.index_of(id) {
            Some(i) => Ok(&self.entries[i].1),
            None => Err(AppError::FileReadError(String::from_str("record not found"))),
        }
    }

    /// Write `value` under `id`, overwriting any prior record.
    pub fn put(&mut self, id: String, value: T)
        ensures
            final(self)@ == spec_store_put(old(self)@, id@, value@),
            store_keys_unique(old(self)@) ==> store_keys_unique(final(self)@),
    {
        let ghost m0 = self@;
        match self.index_of(&id) {
            Some(i) => {
                self.entries.set(i, (id, value));
                proof {
                    assert(self@ =~= m0.update(i as int, (self.entries@[i as int].0@, value@)));
                    if store_keys_unique(m0) {
                        assert forall|a: int, b: int| 0 <= a < b < self@.len() implies self@[a].0
                            != self@[b].0 by {
                            assert(self@[a].0 == m0[a].0);
                            assert(self@[b].0 == m0[b].0);
                        }
                    }
                }
            },
            None => {
                self.entries.push((id, value));
                proof {
                    assert(self@ =~= m0.push((self.entries@[m0.len() as int].0@, value@)));
                    if store_keys_unique(m0) {
                        lemma_store_index_props(m0, id@);
                        assert forall|a: int, b: int| 0 <= a < b < self@.len() implies self@[a].0
                            != self@[b].0 by {
                            if b == m0.len() as int {
                                assert(self@[a] == m0[a]);
                            } else {
                                assert(self@[a] == m0[a]);
                                assert(self@[b] == m0[b]);
                            }
                        }
                    }
                }
            },
        }
    }

    /// Remove the record keyed by `id`; absent ids are reported. Every
    /// other id's record is untouched, and since the store keeps its keys
    /// unique, the deleted id is no longer readable afterwards.
    pub fn delete(&mut self, id: &String) -> (r: Result<(), AppError>)
        ensures
            match store_index(old(self)@, id@) {
                Some(i) => {
                    &&& r is Ok
                    &&& final(self)@ == old(self)@.remove(i)
                    &&& forall|other: Seq<char>|
                        other != id@ ==> #[trigger] store_get(final(self)@, other) == store_get(
                            old(self)@,
                            other,
                        )
                    &&& store_keys_unique(old(self)@) ==> store_get(final(self)@, id@) is None
                },
                None => {
                    &&& r matches Err(e) && e is FileDeleteError
                    &&& final(self)@ == old(self)@
                },
            },
            store_keys_unique(old(self)@) ==> store_keys_unique(final(self)@),
    {
        let ghost m0 = self@;
        match self.index_of(id) {
            Some(i) => {
                self.entries.remove(i);
                proof {
                    assert(self@ =~= m0.remove(i as int));
                    assert forall|other: Seq<char>| other != id@ implies #[trigger] store_get(
                        self@,
                        other,
                    ) == store_get(m0, other) by {
                        lemma_remove_preserves_others(m0, i as int, other);
                    }
                    if store_keys_unique(m0) {
                        lemma_remove_key(m0, id@);
                    }
                }
                Ok(())
            },
            None => Err(AppError::FileDeleteError(String::from_str("record not found"))),
        }
    }
}

} // verus!
