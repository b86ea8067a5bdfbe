use vstd::prelude::*;
use std::collections::HashMap;
use vstd::std_specs::iter::IteratorSpec;

verus! {

broadcast use vstd::std_specs::hash::group_hash_axioms;

/// The entries of `m` that `isolate` does not own.
pub open spec fn without_isolate<V>(m: Map<i64, (i64, V)>, isolate: i64) -> Map<i64, (i64, V)> {
    Map::new(|id: i64| m.contains_key(id) && m[id].0 != isolate, |id: i64| m[id])
}

/// Every key is below the counter `next`, which starts at 1.
pub open spec fn keys_below<V>(next: int, m: Map<i64, (i64, V)>) -> bool {
    &&& 1 <= next
    &&& forall|id: i64| m.contains_key(id) ==> id < next
}

/// Entries keyed by id, each owned by an isolate.
pub struct Registry<V> {
    entries: HashMap<i64, (i64, V)>,
}

impl<V> View for Registry<V> {
    type V = Map<i64, (i64, V)>;

    closed spec fn view(&self) -> Map<i64, (i64, V)> {
        self.entries@
    }
}

impl<V> Registry<V> {
    pub fn new() -> (res: Self)
        ensures
            res@ == Map::<i64, (i64, V)>::empty(),
    {
        Registry { entries: HashMap::new() }
    }

    pub fn insert(&mut self, id: i64, isolate: i64, value: V)
        ensures
            final(self)@ == old(self)@.insert(id, (isolate, value)),
    {
        self.entries.insert(id, (isolate, value));
    }

    pub fn contains(&self, id: i64) -> (res: bool)
        ensures
            res == self@.contains_key(id),
    {
        self.entries.contains_key(&id)
    }

    pub fn get(&self, id: i64) -> (res: Option<&(i64, V)>)
        ensures
            match res {
                Some(e) => self@.contains_key(id) && *e == self@[id],
                None => !self@.contains_key(id),
            },
    {
        self.entries.get(&id)
    }

    pub fn remove(&mut self, id: i64) -> (res: Option<(i64, V)>)
        ensures
            final(self)@ == old(self)@.remove(id),
            match res {
                Some(e) => old(self)@.contains_key(id) && e == old(self)@[id],
                None => !old(self)@.contains_key(id),
            },
    {
        self.entries.remove(&id)
    }

    /// Removes the entries owned by `isolate` and hands them out with their ids.
    pub fn remove_isolate(&mut self, isolate: i64) -> (removed: Vec<(i64, V)>)
        ensures
            final(self)@ == without_isolate(old(self)@, isolate),
            removed@.map_values(|e: (i64, V)| e.0).no_duplicates(),
            forall|i: int| 0 <= i < removed@.len() ==> old(self)@.contains_key(#[trigger] removed@[i].0)
                && old(self)@[removed@[i].0] == (isolate, removed@[i].1),
            forall|id: i64| old(self)@.contains_key(id) && old(self)@[id].0 == isolate
                ==> exists|i: int| 0 <= i < removed@.len() && #[trigger] removed@[i].0 == id,
    {
        let ghost m0 = self@;
        let ids = self.ids_of_isolate(isolate);
        let mut removed: Vec<(i64, V)> = Vec::new();
        let mut i: usize = 0;
        while i < ids.len()
            invariant
                i <= ids@.len(),
                ids@.no_duplicates(),
                forall|id: i64| ids@.contains(id) <==> (m0.contains_key(id) && m0[id].0 == isolate),
                removed@.len() == i,
                forall|j: int| 0 <= j < i ==> #[trigger] removed@[j].0 == ids@[j],
                forall|j: int| 0 <= j < i ==> m0.contains_key(ids@[j]) && m0[ids@[j]] == (isolate, #[trigger] removed@[j].1),
                self@ == m0.remove_keys(ids@.take(i as int).to_set()),
            decreases ids@.len() - i,
        {
            let id = ids[i];
            assert(ids@.contains(id));
            proof {
                assert(!ids@.take(i as int).contains(id)) by {
                    if ids@.take(i as int).contains(id) {
                        let j = choose|j: int| 0 <= j < i && ids@.take(i as int)[j] == id;
                        assert(ids@[j] == ids@[i as int]);
                    }
                }
            }
            let ghost before = self@;
            let e = self.remove(id);
            match e {
                Some(entry) => {
                    removed.push((id, entry.1));
                }
                None => {
                    assert(false);
                }
            }
            proof {
                assert(ids@.take(i + 1) == ids@.take(i as int).push(id));
                ids@.take(i as int).lemma_push_to_set_commute(id);
                assert(ids@.take(i + 1).to_set() =~= ids@.take(i as int).to_set().insert(id));
                assert(self@ =~= m0.remove_keys(ids@.take(i + 1).to_set()));
            }
            i = i + 1;
        }
        proof {
            assert(ids@.take(i as int) == ids@);
            assert(removed@.map_values(|e: (i64, V)| e.0) =~= ids@);
            assert(self@ =~= without_isolate(m0, isolate)) by {
                assert forall|id: i64| #[trigger] self@.contains_key(id) == without_isolate(m0, isolate).contains_key(id) by {
                    assert(ids@.to_set().contains(id) == ids@.contains(id));
                }
            }
            assert forall|id: i64| m0.contains_key(id) && m0[id].0 == isolate
                implies exists|j: int| 0 <= j < removed@.len() && #[trigger] removed@[j].0 == id by {
                assert(ids@.contains(id));
                let j = choose|j: int| 0 <= j < ids@.len() && ids@[j] == id;
                assert(removed@[j].0 == id);
            }
            assert forall|j: int| 0 <= j < removed@.len() implies m0.contains_key(#[trigger] removed@[j].0)
                && m0[removed@[j].0] == (isolate, removed@[j].1) by {
                assert(ids@.contains(ids@[j]));
            }
        }
        removed
    }

    /// Ids of the entries owned by `isolate`.
    pub fn ids_of_isolate(&self, isolate: i64) -> (ids: Vec<i64>)
        ensures
            ids@.no_duplicates(),
            forall|id: i64| ids@.contains(id) <==> (self@.contains_key(id) && self@[id].0 == isolate),
    {
        let mut ids: Vec<i64> = Vec::new();
        let ghost keys = vstd::std_specs::hash::spec_keys_iter(&self.entries).remaining();
        for k in it: self.entries.keys()
            invariant
                it.seq() == keys,
                keys == vstd::std_specs::hash::spec_keys_iter(&self.entries).remaining(),
                it.seq().no_duplicates(),
                ids@.no_duplicates(),
                forall|id: i64| ids@.contains(id) <==> (exists|j: int| 0 <= j < it.index() && *it.seq()[j] == id && self@.contains_key(id) && self@[id].0 == isolate),
        {
            let ghost i0 = it.index();
            let ghost ids0 = ids@;
            assert(*k == *it.seq()[i0]);
            let e = self.entries.get(k);
            let mut hit = false;
            match e {
                Some(entry) => {
                    if entry.0 == isolate {
                        hit = true;
                    }
                }
                None => {}
            }
            proof {
                if ids0.contains(*k) {
                    let j = choose|j: int| 0 <= j < i0 && *it.seq()[j] == *k;
                    assert(it.seq()[j] == it.seq()[i0]);
                }
            }
            assert(hit == (self@.contains_key(*k) && self@[*k].0 == isolate));
            if hit {
                ids.push(*k);
            }
            assert(hit ==> ids@ == ids0.push(*k));
            assert(!hit ==> ids@ == ids0);
            proof {
                assert forall|id: i64| ids@.contains(id) <==> (exists|j: int| 0 <= j < i0 + 1 && *it.seq()[j] == id && self@.contains_key(id) && self@[id].0 == isolate) by {
                    if ids@.contains(id) {
                        let m = choose|m: int| 0 <= m < ids@.len() && ids@[m] == id;
                        if m < ids0.len() {
                            assert(ids0[m] == id);
                            assert(ids0.contains(id));
                            let j = choose|j: int| 0 <= j < i0 && *it.seq()[j] == id && self@.contains_key(id) && self@[id].0 == isolate;
                            assert(0 <= j < i0 + 1 && *it.seq()[j] == id && self@.contains_key(id) && self@[id].0 == isolate);
                        } else {
                            assert(hit);
                            assert(id == *k);
                            assert(0 <= i0 < i0 + 1 && *it.seq()[i0] == id && self@.contains_key(id) && self@[id].0 == isolate);
                        }
                    }
                    if exists|j: int| 0 <= j < i0 + 1 && *it.seq()[j] == id && self@.contains_key(id) && self@[id].0 == isolate {
                        let j = choose|j: int| 0 <= j < i0 + 1 && *it.seq()[j] == id && self@.contains_key(id) && self@[id].0 == isolate;
                        if j < i0 {
                            assert(ids0.contains(id));
                            let m = choose|m: int| 0 <= m < ids0.len() && ids0[m] == id;
                            assert(ids@[m] == id);
                        } else {
                            assert(id == *k);
                            assert(hit);
                            assert(ids@[ids@.len() - 1] == id);
                        }
                    }
                }
            }
        }
        proof {
            assert forall|id: i64| self@.contains_key(id) && self@[id].0 == isolate implies ids@.contains(id) by {
                assert(keys.unref().to_set().contains(id));
                let j = choose|j: int| 0 <= j < keys.len() && keys.unref()[j] == id;
                assert(*keys[j] == id);
            }
        }
        ids
    }
}

} // verus!
