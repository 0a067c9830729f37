//! The set of live sessions.
//!
//! Generic over the session type, so a process that hosts several kinds of
//! session (an SSH connection beside a local shell) can keep trait objects
//! here without the registry, or anything above it, knowing the difference.
use vstd::prelude::*;

use crate::session::{Session, SessionId, SessionKind};

verus! {

/// What the UI needs to render one row in the sidebar.
#[derive(Debug, Clone)]
pub struct SessionSummary {
    pub id: SessionId,
    pub kind: SessionKind,
    pub label: String,
    pub elevated: bool,
}

/// The live sessions of one process, of whatever session type `S` it hosts
/// (a boxed trait object where several kinds sit side by side).
pub struct Registry<S: Session> {
    /// Ids of the live sessions. No id appears twice.
    ids: Vec<SessionId>,
    /// The live sessions, `sessions[i]` holding `ids[i]`.
    sessions: Vec<S>,
    /// Sidebar order. A map alone would shuffle tabs on every render.
    order: Vec<SessionId>,
}

impl<S: Session> Registry<S> {
    /// The ids of the live sessions, in the order they are stored.
    pub closed spec fn ids(&self) -> Seq<SessionId> {
        self.ids@
    }

    /// The sidebar order: one entry per insertion still live.
    pub closed spec fn order(&self) -> Seq<SessionId> {
        self.order@
    }

    /// The live sessions, by id.
    pub closed spec fn live(&self) -> Map<SessionId, S> {
        Map::new(
            |id: SessionId| self.ids@.contains(id),
            |id: SessionId| self.sessions@[self.ids@.index_of(id)],
        )
    }

    /// Whether a session with this id is live.
    pub open spec fn has(&self, id: SessionId) -> bool {
        self.ids().contains(id)
    }

    /// Ids are unique, and the sidebar order names exactly the live sessions.
    pub closed spec fn wf(&self) -> bool {
        &&& self.ids@.len() == self.sessions@.len()
        &&& forall|i: int, j: int| 0 <= i < j < self.ids@.len() ==> self.ids@[i] != self.ids@[j]
        &&& forall|i: int| 0 <= i < self.order@.len() ==> self.ids@.contains(#[trigger] self.order@[i])
        &&& forall|i: int| 0 <= i < self.ids@.len() ==> self.order@.contains(#[trigger] self.ids@[i])
    }

    pub fn new() -> (r: Self)
        ensures
            r.wf(),
            r.ids() == Seq::<SessionId>::empty(),
            r.order() == Seq::<SessionId>::empty(),
            r.live() == Map::<SessionId, S>::empty(),
    {
        let r = Registry { ids: Vec::new(), sessions: Vec::new(), order: Vec::new() };
        assert(r.live() =~= Map::<SessionId, S>::empty());
        r
    }

    fn position(&self, id: SessionId) -> (r: Option<usize>)
        ensures
            match r {
                Some(i) => i < self.ids@.len() && self.ids@[i as int] == id,
                None => !self.ids@.contains(id),
            },
    {
        let mut i: usize = 0;
        while i < self.ids.len()
            invariant
                i <= self.ids@.len(),
                forall|j: int| 0 <= j < i ==> self.ids@[j] != id,
            decreases self.ids@.len() - i,
        {
            if self.ids[i] == id {
                return Some(i);
            }
            i = i + 1;
        }
        None
    }

    /// Add a session and put it at the end of the sidebar.
    ///
    /// A session whose id is already live replaces the one holding it, which
    /// is dropped.
    pub fn insert(&mut self, session: S) -> (id: SessionId)
        requires
            old(self).wf(),
        ensures
            id == session.id_view(),
            final(self).wf(),
            final(self).order() == old(self).order().push(id),
            final(self).ids().to_set() == old(self).ids().to_set().insert(id),
            final(self).live() == old(self).live().insert(id, session),
    {
        let id = session.id();
        let pos = self.position(id);
        match pos {
            Some(i) => {
                self.sessions.set(i, session);
                assert(self.ids@[i as int] == id);
                assert(self.ids@.len() == self.sessions@.len());
            },
            None => {
                self.sessions.push(session);
                self.ids.push(id);
                assert(self.ids@ == old(self).ids@.push(id));
                assert(self.ids@[self.ids@.len() - 1] == id);
                assert(self.ids@.len() == self.sessions@.len());
            },
        }
        self.order.push(id);
        proof {
            assert(self.ids@.contains(id));
            assert forall|i: int, j: int| 0 <= i < j < self.ids@.len() implies self.ids@[i]
                != self.ids@[j] by {
                if pos is None && j == self.ids@.len() - 1 {
                    assert(old(self).ids@[i] == self.ids@[i]);
                }
            }
            assert forall|x: SessionId| self.ids@.contains(x) implies old(
                self,
            ).ids@.to_set().insert(id).contains(x) by {
                let k = choose|k: int| 0 <= k < self.ids@.len() && self.ids@[k] == x;
                if x != id {
                    assert(old(self).ids@[k] == x);
                }
            }
            assert forall|x: SessionId| old(self).ids@.to_set().insert(id).contains(x) implies self.ids@.contains(x) by {
                if x != id {
                    let k = choose|k: int| 0 <= k < old(self).ids@.len() && old(self).ids@[k] == x;
                    assert(self.ids@[k] == x);
                }
            }
            assert(self.ids@.to_set() =~= old(self).ids@.to_set().insert(id));
            assert forall|i: int| 0 <= i < self.order@.len() implies self.ids@.contains(
                #[trigger] self.order@[i],
            ) by {
                if i < old(self).order@.len() {
                    assert(old(self).order@[i] == self.order@[i]);
                    assert(old(self).ids@.contains(self.order@[i]));
                    assert(self.ids@.to_set().contains(self.order@[i]));
                }
            }
            assert forall|i: int| 0 <= i < self.ids@.len() implies self.order@.contains(
                #[trigger] self.ids@[i],
            ) by {
                let x = self.ids@[i];
                if x == id {
                    assert(self.order@[self.order@.len() - 1] == id);
                } else {
                    assert(old(self).ids@.to_set().insert(id).contains(x));
                    let k = choose|k: int| 0 <= k < old(self).ids@.len() && old(self).ids@[k] == x;
                    assert(old(self).order@.contains(old(self).ids@[k]));
                    let m = choose|m: int| 0 <= m < old(self).order@.len() && old(self).order@[m] == x;
                    assert(self.order@[m] == x);
                }
            }
        }
        id
    }

    /// The session with this id, to drive it.
    pub fn get_mut(&mut self, id: SessionId) -> (r: Option<&mut S>)
        requires
            old(self).wf(),
        ensures
            r.is_some() == old(self).has(id),
            match r {
                Some(s) => *s == old(self).live()[id] && final(self).live() == old(self).live().insert(
                    id,
                    *final(s),
                ),
                None => final(self).live() == old(self).live(),
            },
            final(self).wf(),
            final(self).ids() == old(self).ids(),
            final(self).order() == old(self).order(),
    {
        match self.position(id) {
            Some(i) => Some(&mut self.sessions[i]),
            None => None,
        }
    }

    /// Remove a session, handing back ownership so the caller decides when it
    /// dies (dropping it tears down the PTY and its job object).
    pub fn remove(&mut self, id: SessionId) -> (r: Option<S>)
        requires
            old(self).wf(),
        ensures
            r == (if old(self).has(id) {
                Some(old(self).live()[id])
            } else {
                None::<S>
            }),
            final(self).wf(),
            final(self).live() == old(self).live().remove(id),
            final(self).order() == old(self).order().filter(|x: SessionId| x != id),
            final(self).ids().to_set() == old(self).ids().to_set().remove(id),
    {
        let ghost pred = |x: SessionId| x != id;
        let mut kept: Vec<SessionId> = Vec::new();
        let mut i: usize = 0;
        while i < self.order.len()
            invariant
                i <= self.order@.len(),
                self.order@ == old(self).order@,
                pred == (|x: SessionId| x != id),
                kept@ == self.order@.take(i as int).filter(pred),
            decreases self.order@.len() - i,
        {
            let x = self.order[i];
            assert(self.order@.take(i + 1).drop_last() =~= self.order@.take(i as int));
            assert(self.order@.take(i + 1).last() == x);
            reveal_with_fuel(Seq::filter, 1);
            assert(self.order@.take(i + 1).filter(pred) == (if pred(x) {
                self.order@.take(i as int).filter(pred).push(x)
            } else {
                self.order@.take(i as int).filter(pred)
            }));
            if x != id {
                kept.push(x);
            }
            i = i + 1;
        }
        assert(self.order@.take(i as int) =~= self.order@);
        self.order = kept;
        let found = self.position(id);
        let r = match found {
            Some(p) => {
                self.ids.remove(p);
                let session = self.sessions.remove(p);
                Some(session)
            },
            None => None,
        };
        proof {
            let ord = old(self).order@;
            // Every kept sidebar entry is live and is not `id`.
            assert forall|i: int| 0 <= i < self.order@.len() implies self.ids@.contains(
                #[trigger] self.order@[i],
            ) by {
                let x = self.order@[i];
                ord.lemma_filter_pred(pred, i);
                ord.lemma_filter_contains_rev(pred, x);
                let m = choose|m: int| 0 <= m < ord.len() && ord[m] == x;
                assert(old(self).ids@.contains(ord[m]));
                let k = choose|k: int| 0 <= k < old(self).ids@.len() && old(self).ids@[k] == x;
                match found {
                    Some(p) => {
                        if k < p {
                            assert(self.ids@[k] == x);
                        } else {
                            assert(k != p);
                            assert(self.ids@[k - 1] == x);
                        }
                    },
                    None => {
                        assert(self.ids@[k] == x);
                    },
                }
            }
            assert forall|i: int| 0 <= i < self.ids@.len() implies self.order@.contains(
                #[trigger] self.ids@[i],
            ) by {
                let x = self.ids@[i];
                let k: int = match found {
                    Some(p) => if i < p {
                        i
                    } else {
                        i + 1
                    },
                    None => i,
                };
                assert(old(self).ids@[k] == x);
                assert(x != id);
                assert(ord.contains(old(self).ids@[k]));
                let m = choose|m: int| 0 <= m < ord.len() && ord[m] == x;
                ord.lemma_filter_contains(pred, m);
            }
            assert forall|x: SessionId| self.ids@.contains(x) implies old(self).ids@.to_set().remove(id).contains(x) by {
                let k = choose|k: int| 0 <= k < self.ids@.len() && self.ids@[k] == x;
                match found {
                    Some(p) => {
                        if k < p {
                            assert(old(self).ids@[k] == x);
                        } else {
                            assert(old(self).ids@[k + 1] == x);
                        }
                    },
                    None => {
                        assert(old(self).ids@[k] == x);
                    },
                }
            }
            assert forall|x: SessionId| old(self).ids@.to_set().remove(id).contains(x) implies self.ids@.contains(x) by {
                let k = choose|k: int| 0 <= k < old(self).ids@.len() && old(self).ids@[k] == x;
                match found {
                    Some(p) => {
                        if k < p {
                            assert(self.ids@[k] == x);
                        } else {
                            assert(k != p);
                            assert(self.ids@[k - 1] == x);
                        }
                    },
                    None => {
                        assert(self.ids@[k] == x);
                    },
                }
            }
            assert(self.ids@.to_set() =~= old(self).ids@.to_set().remove(id));
        }
        r
    }

    /// Sidebar contents, in the order sessions were opened.
    pub fn list(&self) -> (r: Vec<SessionSummary>)
        requires
            self.wf(),
        ensures
            r@.len() == self.order().len(),
            forall|i: int|
                0 <= i < r@.len() ==> {
                    let s = #[trigger] r@[i];
                    let live = self.live()[self.order()[i]];
                    &&& self.live().dom().contains(self.order()[i])
                    &&& s.id == self.order()[i]
                    &&& s.kind == live.kind_view()
                    &&& s.label@ == live.kind_view().label_view()
                    &&& s.elevated == live.elevated_view()
                },
    {
        let mut out: Vec<SessionSummary> = Vec::new();
        let mut i: usize = 0;
        while i < self.order.len()
            invariant
                self.wf(),
                i <= self.order@.len(),
                out@.len() == i,
                forall|k: int|
                    0 <= k < i ==> {
                        let s = #[trigger] out@[k];
                        let live = self.live()[self.order()[k]];
                        &&& self.live().dom().contains(self.order()[k])
                        &&& s.id == self.order()[k]
                        &&& s.kind == live.kind_view()
                        &&& s.label@ == live.kind_view().label_view()
                        &&& s.elevated == live.elevated_view()
                    },
            decreases self.order@.len() - i,
        {
            let id = self.order[i];
            assert(self.ids@.contains(self.order@[i as int]));
            match self.position(id) {
                Some(p) => {
                    assert(self.live()[id] == self.sessions@[p as int]) by {
                        assert(self.ids@.contains(id));
                        let j = self.ids@.index_of(id);
                        assert(0 <= j < self.ids@.len() && self.ids@[j] == id);
                        if j < p {
                            assert(self.ids@[j] != self.ids@[p as int]);
                        } else if j > p {
                            assert(self.ids@[p as int] != self.ids@[j]);
                        }
                    }
                    let session = &self.sessions[p];
                    let kind = session.kind().duplicate();
                    let label = kind.label();
                    let elevated = session.elevated();
                    out.push(SessionSummary { id, kind, label, elevated });
                },
                None => {},
            }
            i = i + 1;
        }
        out
    }

    /// The live sessions are exactly the stored ids, each stored once.
    pub proof fn lemma_live_count(&self)
        requires
            self.wf(),
        ensures
            self.ids().no_duplicates(),
            self.live().dom() == self.ids().to_set(),
            self.live().dom().finite(),
            self.live().dom().len() == self.ids().len(),
    {
        assert(self.live().dom() =~= self.ids@.to_set());
        assert forall|i: int, j: int|
            0 <= i < self.ids@.len() && 0 <= j < self.ids@.len() && i != j implies self.ids@[i]
            != self.ids@[j] by {
            if i < j {
                assert(self.ids@[i] != self.ids@[j]);
            } else {
                assert(self.ids@[j] != self.ids@[i]);
            }
        }
        self.ids@.unique_seq_to_set();
    }

    /// How many sessions are live.
    pub fn len(&self) -> (r: usize)
        requires
            self.wf(),
        ensures
            r == self.ids().len(),
            r == self.live().dom().len(),
    {
        proof {
            self.lemma_live_count();
        }
        self.ids.len()
    }

    pub fn is_empty(&self) -> (r: bool)
        requires
            self.wf(),
        ensures
            r == (self.ids().len() == 0),
            r == (self.live().dom().len() == 0),
    {
        proof {
            self.lemma_live_count();
        }
        self.ids.len() == 0
    }
}

} // verus!
