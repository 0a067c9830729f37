//! A small table keyed by session id.
use std::collections::HashMap;
use vstd::prelude::*;
use vstd::std_specs::iter::IteratorSpec;

verus! {

broadcast use vstd::std_specs::hash::group_hash_axioms;

/// Values keyed by a `u64` id (a session id).
pub struct IdTable<S> {
    map: HashMap<u64, S>,
}

impl<S> IdTable<S> {
    /// What is under each id.
    pub closed spec fn map(&self) -> Map<u64, S> {
        self.map@
    }

    /// The table holds finitely many ids.
    pub closed spec fn wf(&self) -> bool {
        self.map@.dom().finite()
    }

    pub fn new() -> (r: Self)
        ensures
            r.wf(),
            r.map() == Map::<u64, S>::empty(),
    {
        IdTable { map: HashMap::new() }
    }

    /// Put `sub` under `id`, handing back what was there before.
    pub fn insert(&mut self, id: u64, sub: S) -> (r: Option<S>)
        requires
            old(self).wf(),
        ensures
            final(self).wf(),
            final(self).map() == old(self).map().insert(id, sub),
            match r {
                Some(s) => old(self).map().contains_key(id) && s == old(self).map()[id],
                None => !old(self).map().contains_key(id),
            },
    {
        self.map.insert(id, sub)
    }

    /// What is under `id`.
    pub fn get(&self, id: u64) -> (r: Option<&S>)
        requires
            self.wf(),
        ensures
            match r {
                Some(s) => self.map().contains_key(id) && *s == self.map()[id],
                None => !self.map().contains_key(id),
            },
    {
        self.map.get(&id)
    }

    /// Take out what is under `id`.
    pub fn remove(&mut self, id: u64) -> (r: Option<S>)
        requires
            old(self).wf(),
        ensures
            final(self).wf(),
            final(self).map() == old(self).map().remove(id),
            match r {
                Some(s) => old(self).map().contains_key(id) && s == old(self).map()[id],
                None => !old(self).map().contains_key(id) && final(self).map() == old(self).map(),
            },
    {
        let r = self.map.remove(&id);
        proof {
            if r is None {
                assert(old(self).map().remove(id) =~= old(self).map());
            }
        }
        r
    }

    /// Take out everything, in no particular order: each id's value once.
    pub fn drain(&mut self) -> (r: Vec<S>)
        requires
            old(self).wf(),
        ensures
            final(self).wf(),
            final(self).map() == Map::<u64, S>::empty(),
            exists|ids: Seq<u64>|
                {
                    &&& ids.no_duplicates()
                    &&& ids.to_set() == old(self).map().dom()
                    &&& ids.len() == r@.len()
                    &&& forall|i: int|
                        0 <= i < r@.len() ==> #[trigger] r@[i] == old(self).map()[ids[i]]
                },
    {
        let mut ids: Vec<u64> = Vec::new();
        let ghost all = vstd::std_specs::hash::spec_keys_iter(&self.map).remaining();
        for k in it: self.map.keys()
            invariant
                it.seq() == all,
                all.unref().to_set() == self.map@.dom(),
                all.no_duplicates(),
                ids@ == all.unref().take(it.index()),
        {
            ids.push(*k);
            assert(ids@ =~= all.unref().take(it.index() + 1));
        }
        assert(ids@ =~= all.unref());
        let ghost m = self.map@;
        let mut out: Vec<S> = Vec::new();
        let mut i: usize = 0;
        while i < ids.len()
            invariant
                i <= ids@.len(),
                m == old(self).map@,
                ids@.no_duplicates(),
                ids@.to_set() == m.dom(),
                self.map@ == m.remove_keys(ids@.take(i as int).to_set()),
                out@.len() == i,
                forall|j: int| 0 <= j < i ==> #[trigger] out@[j] == m[ids@[j]],
            decreases ids@.len() - i,
        {
            let id = ids[i];
            assert(m.dom().contains(id)) by {
                assert(ids@.to_set().contains(ids@[i as int]));
            }
            assert(!ids@.take(i as int).to_set().contains(id)) by {
                if ids@.take(i as int).to_set().contains(id) {
                    let j = choose|j: int| 0 <= j < i && ids@.take(i as int)[j] == id;
                    assert(ids@[j] == ids@[i as int]);
                }
            }
            match self.map.remove(&id) {
                Some(v) => {
                    out.push(v);
                },
                None => {
                    assert(false);
                },
            }
            assert(ids@.take(i + 1).to_set() =~= ids@.take(i as int).to_set().insert(id)) by {
                assert(ids@.take(i + 1) =~= ids@.take(i as int).push(id));
                ids@.take(i as int).lemma_push_to_set_commute(id);
            }
            assert(self.map@ =~= m.remove_keys(ids@.take(i + 1).to_set()));
            i = i + 1;
        }
        assert(ids@.take(i as int) =~= ids@);
        assert(self.map@ =~= Map::<u64, S>::empty());
        out
    }
}

} // verus!
