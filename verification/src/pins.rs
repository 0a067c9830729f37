//! Pinned connections — the quick-open strip along the bottom of the window.
//!
//! Two rules shape this store:
//!
//! * **A pin stores what to open, never how it looks.** It is a shell profile
//!   id or a saved-connection id, and the name shown in the strip is resolved
//!   from the profile list or the connection store every time it is drawn — so
//!   renaming a saved connection renames its pin. [`Pin::label`] is only a
//!   fallback for a target that has since gone away.
//! * **One row per target.** Pinning something already pinned refreshes its
//!   stored label instead of adding a second, identical button.
use vstd::prelude::*;

use crate::text::str_eq;

verus! {

/// What kind of thing a pin points at.
#[derive(Debug, Clone, Copy, PartialEq, Eq, Structural)]
pub enum PinKind {
    /// A detected shell, identified by its profile id.
    Local,
    /// A saved SSH connection, identified by its store id.
    Saved,
}

/// One button on the quick-open strip.
#[derive(Debug, Clone, PartialEq, Eq)]
pub struct Pin {
    pub kind: PinKind,
    /// Profile id, or saved-connection id — whichever [`Pin::kind`] says.
    pub target: String,
    /// The name at the time of pinning. Display fallback only; the live name
    /// wins whenever the target still resolves.
    pub label: String,
}

/// A pin as plain values: kind, target, label.
pub type PinView = (PinKind, Seq<char>, Seq<char>);

impl View for Pin {
    type V = PinView;

    open spec fn view(&self) -> PinView {
        (self.kind, self.target@, self.label@)
    }
}

/// Whether the pin `p` opens `(kind, target)`.
pub open spec fn opens(p: PinView, kind: PinKind, target: Seq<char>) -> bool {
    p.0 == kind && p.1 == target
}

/// Whether some pin of the strip opens `(kind, target)`.
pub open spec fn holds(s: Seq<PinView>, kind: PinKind, target: Seq<char>) -> bool {
    exists|i: int| 0 <= i < s.len() && opens(#[trigger] s[i], kind, target)
}

/// No two pins of the strip open the same thing.
pub open spec fn one_per_target(s: Seq<PinView>) -> bool {
    forall|i: int, j: int|
        0 <= i < j < s.len() ==> !opens(#[trigger] s[i], s[j].0, #[trigger] s[j].1)
}

impl Pin {
    /// Pins are the same button if they open the same thing. The label is
    /// deliberately not part of this — a renamed target is not a new pin.
    fn points_at(&self, kind: PinKind, target: &str) -> (r: bool)
        ensures
            r == opens(self@, kind, target@),
    {
        self.kind == kind && str_eq(self.target.as_str(), target)
    }

    /// A copy of this pin.
    pub fn duplicate(&self) -> (r: Pin)
        ensures
            r@ == self@,
    {
        Pin { kind: self.kind, target: self.target.clone(), label: self.label.clone() }
    }
}

#[derive(Debug)]
pub struct Store {
    pins: Vec<Pin>,
}

impl View for Store {
    type V = Seq<PinView>;

    closed spec fn view(&self) -> Seq<PinView> {
        self.pins@.map_values(|p: Pin| p@)
    }
}

impl Default for Store {
    fn default() -> (r: Self)
        ensures
            r@ == Seq::<PinView>::empty(),
    {
        let r = Store { pins: Vec::new() };
        assert(r@ =~= Seq::<PinView>::empty());
        r
    }
}

impl Store {
    /// An empty strip.
    pub fn new() -> (r: Self)
        ensures
            r@ == Seq::<PinView>::empty(),
    {
        let r = Store { pins: Vec::new() };
        assert(r@ =~= Seq::<PinView>::empty());
        r
    }

    /// A strip holding these pins, in this order, as read back from disk.
    pub fn from_pins(pins: Vec<Pin>) -> (r: Self)
        ensures
            r@ == pins@.map_values(|p: Pin| p@),
    {
        Store { pins }
    }

    /// Every pin, in the order they were added — which is the order they appear
    /// in the strip, so it must stay stable.
    pub fn list(&self) -> (r: Vec<Pin>)
        ensures
            r@.map_values(|p: Pin| p@) == self@,
    {
        let mut out: Vec<Pin> = Vec::new();
        let mut i: usize = 0;
        while i < self.pins.len()
            invariant
                i <= self.pins@.len(),
                out@.map_values(|p: Pin| p@) == self@.take(i as int),
            decreases self.pins@.len() - i,
        {
            let ghost before = out@.map_values(|p: Pin| p@);
            out.push(self.pins[i].duplicate());
            assert(out@.map_values(|p: Pin| p@) =~= before.push(self@[i as int]));
            i = i + 1;
            assert(out@.map_values(|p: Pin| p@) =~= self@.take(i as int));
        }
        assert(self@.take(i as int) =~= self@);
        out
    }

    fn position(&self, kind: PinKind, target: &str) -> (r: Option<usize>)
        ensures
            match r {
                Some(i) => i < self@.len() && opens(self@[i as int], kind, target@) && i
                    == first_opening(self@, kind, target@),
                None => !holds(self@, kind, target@),
            },
    {
        let mut i: usize = 0;
        while i < self.pins.len()
            invariant
                i <= self.pins@.len(),
                forall|j: int| 0 <= j < i ==> !opens(#[trigger] self@[j], kind, target@),
            decreases self.pins@.len() - i,
        {
            if self.pins[i].points_at(kind, target) {
                proof {
                    lemma_first_opening(self@, kind, target@, i as int);
                }
                return Some(i);
            }
            i = i + 1;
        }
        None
    }

    /// Add a pin, or refresh the stored label of the one already holding that
    /// target. Returns whether the strip actually gained a button.
    pub fn add(&mut self, pin: Pin) -> (added: bool)
        ensures
            one_per_target(old(self)@) ==> one_per_target(final(self)@),
            added == !holds(old(self)@, pin@.0, pin@.1),
            holds(final(self)@, pin@.0, pin@.1),
            added ==> final(self)@ == old(self)@.push(pin@),
            !added ==> final(self)@ == old(self)@.update(
                first_opening(old(self)@, pin@.0, pin@.1),
                pin@,
            ),
    {
        match self.position(pin.kind, pin.target.as_str()) {
            Some(i) => {
                let mut existing = self.pins.remove(i);
                existing.label = pin.label;
                self.pins.insert(i, existing);
                assert(self@ =~= old(self)@.update(i as int, pin@));
                assert(opens(self@[i as int], pin@.0, pin@.1));
                assert(one_per_target(old(self)@) ==> one_per_target(self@)) by {
                    if one_per_target(old(self)@) {
                        assert forall|a: int, b: int| 0 <= a < b < self@.len() implies !opens(
                            #[trigger] self@[a],
                            self@[b].0,
                            #[trigger] self@[b].1,
                        ) by {
                            assert(!opens(old(self)@[a], old(self)@[b].0, old(self)@[b].1));
                        }
                    }
                }
                false
            },
            None => {
                self.pins.push(pin);
                assert(self@ =~= old(self)@.push(pin@));
                assert(opens(self@[self@.len() - 1], pin@.0, pin@.1));
                true
            },
        }
    }

    /// Move a pin to `index`, counted in the list *as it will be afterwards*.
    ///
    /// Applied to whatever is on disk right now rather than by overwriting the
    /// order wholesale, so a second window that pinned something in the
    /// meantime does not lose it to a stale list. Returns false if that pin
    /// isn't there.
    pub fn move_to(&mut self, kind: PinKind, target: &str, index: usize) -> (moved: bool)
        ensures
            one_per_target(old(self)@) ==> one_per_target(final(self)@),
            moved == holds(old(self)@, kind, target@),
            !moved ==> final(self)@ == old(self)@,
            moved ==> final(self)@ == moved_strip(
                old(self)@,
                first_opening(old(self)@, kind, target@),
                index as int,
            ),
    {
        let from = match self.position(kind, target) {
            Some(from) => from,
            None => return false,
        };
        let pin = self.pins.remove(from);
        // Clamped against the shortened list: dropping past the right-hand end
        // is a normal gesture, not an error.
        let len = self.pins.len();
        let at = if index < len {
            index
        } else {
            len
        };
        self.pins.insert(at, pin);
        let ghost shortened = old(self)@.remove(from as int);
        assert(self@ =~= shortened.insert(at as int, old(self)@[from as int]));
        proof {
            if one_per_target(old(self)@) {
                lemma_move_keeps_one_per_target(old(self)@, from as int, at as int);
            }
        }
        true
    }

    /// Remove every pin that opens `(kind, target)`. Returns whether there was
    /// one.
    pub fn remove(&mut self, kind: PinKind, target: &str) -> (removed: bool)
        ensures
            one_per_target(old(self)@) ==> one_per_target(final(self)@),
            removed == holds(old(self)@, kind, target@),
            !holds(final(self)@, kind, target@),
            final(self)@ == old(self)@.filter(|p: PinView| !opens(p, kind, target@)),
    {
        let ghost keep = |p: PinView| !opens(p, kind, target@);
        let mut kept: Vec<Pin> = Vec::new();
        let mut i: usize = 0;
        let mut dropped = false;
        while i < self.pins.len()
            invariant
                i <= self.pins@.len(),
                self@ == old(self)@,
                keep == (|p: PinView| !opens(p, kind, target@)),
                kept@.map_values(|p: Pin| p@) == self@.take(i as int).filter(keep),
                dropped == holds(self@.take(i as int), kind, target@),
            decreases self.pins@.len() - i,
        {
            let ghost before = kept@.map_values(|p: Pin| p@);
            let ghost pre = self@.take(i as int);
            let ghost post = self@.take(i + 1);
            assert(post.drop_last() =~= pre);
            assert(post.last() == self@[i as int]);
            reveal_with_fuel(Seq::filter, 1);
            let hit = self.pins[i].points_at(kind, target);
            if hit {
                dropped = true;
            } else {
                kept.push(self.pins[i].duplicate());
                assert(kept@.map_values(|p: Pin| p@) =~= before.push(self@[i as int]));
            }
            proof {
                if holds(pre, kind, target@) {
                    let j = choose|j: int| 0 <= j < pre.len() && opens(pre[j], kind, target@);
                    assert(post[j] == pre[j]);
                }
                if hit {
                    assert(opens(post[i as int], kind, target@));
                } else if holds(post, kind, target@) {
                    let j = choose|j: int| 0 <= j < post.len() && opens(post[j], kind, target@);
                    assert(j != i);
                    assert(pre[j] == post[j]);
                }
            }
            i = i + 1;
        }
        assert(self@.take(i as int) =~= self@);
        self.pins = kept;
        proof {
            let s = old(self)@;
            if holds(self@, kind, target@) {
                let j = choose|j: int| 0 <= j < self@.len() && opens(self@[j], kind, target@);
                s.lemma_filter_pred(keep, j);
            }
            if one_per_target(s) {
                assert forall|a: int, b: int| 0 <= a < b < self@.len() implies !opens(
                    #[trigger] self@[a],
                    self@[b].0,
                    #[trigger] self@[b].1,
                ) by {
                    lemma_filter_keeps_one_per_target(s, keep, a, b);
                }
            }
        }
        dropped
    }

    pub fn contains(&self, kind: PinKind, target: &str) -> (r: bool)
        ensures
            r == holds(self@, kind, target@),
    {
        match self.position(kind, target) {
            Some(i) => {
                assert(opens(self@[i as int], kind, target@));
                true
            },
            None => false,
        }
    }

    /// Drop the pin for a saved connection that has been deleted — otherwise the
    /// strip keeps a button that can no longer open anything.
    pub fn forget_connection(&mut self, id: &str) -> (removed: bool)
        ensures
            one_per_target(old(self)@) ==> one_per_target(final(self)@),
            removed == holds(old(self)@, PinKind::Saved, id@),
            !holds(final(self)@, PinKind::Saved, id@),
            final(self)@ == old(self)@.filter(|p: PinView| !opens(p, PinKind::Saved, id@)),
    {
        self.remove(PinKind::Saved, id)
    }
}

/// The index of the first pin of the strip that opens `(kind, target)`.
pub open spec fn first_opening(s: Seq<PinView>, kind: PinKind, target: Seq<char>) -> int {
    choose|i: int|
        0 <= i < s.len() && opens(s[i], kind, target) && forall|j: int|
            0 <= j < i ==> !opens(#[trigger] s[j], kind, target)
}

proof fn lemma_first_opening(s: Seq<PinView>, kind: PinKind, target: Seq<char>, i: int)
    requires
        0 <= i < s.len(),
        opens(s[i], kind, target),
        forall|j: int| 0 <= j < i ==> !opens(#[trigger] s[j], kind, target),
    ensures
        first_opening(s, kind, target) == i,
{
    let f = first_opening(s, kind, target);
    assert(0 <= f < s.len() && opens(s[f], kind, target));
    if f < i {
        assert(!opens(s[f], kind, target));
    }
    if f > i {
        assert(!opens(s[i], kind, target));
    }
}

/// The strip after its pin at `from` is dropped at `index`: taken out, then
/// put back at `index` in the shortened strip, or at its end.
pub open spec fn moved_strip(s: Seq<PinView>, from: int, index: int) -> Seq<PinView> {
    s.remove(from).insert(clamp_index(index, s.len() - 1), s[from])
}

/// Where a pin dropped at `index` lands in a strip of `last + 1` pins.
pub open spec fn clamp_index(index: int, last: int) -> int {
    if index < last {
        index
    } else {
        last
    }
}

proof fn lemma_move_keeps_one_per_target(s: Seq<PinView>, from: int, at: int)
    requires
        one_per_target(s),
        0 <= from < s.len(),
        0 <= at < s.len(),
    ensures
        one_per_target(s.remove(from).insert(at, s[from])),
{
    let t = s.remove(from).insert(at, s[from]);
    // Every element of `t` comes from a distinct position of `s`.
    let src = |k: int|
        if k == at {
            from
        } else {
            let r = if k < at {
                k
            } else {
                k - 1
            };
            if r < from {
                r
            } else {
                r + 1
            }
        };
    assert forall|k: int| 0 <= k < t.len() implies #[trigger] t[k] == s[src(k)] && 0 <= src(k) < s.len() by {
    }
    assert forall|a: int, b: int| 0 <= a < b < t.len() implies !opens(
        #[trigger] t[a],
        t[b].0,
        #[trigger] t[b].1,
    ) by {
        assert(t[a] == s[src(a)]);
        assert(t[b] == s[src(b)]);
        assert(src(a) != src(b));
        if src(a) < src(b) {
            assert(!opens(s[src(a)], s[src(b)].0, s[src(b)].1));
        } else {
            assert(!opens(s[src(b)], s[src(a)].0, s[src(a)].1));
        }
    }
}

proof fn lemma_filter_keeps_one_per_target(
    s: Seq<PinView>,
    keep: spec_fn(PinView) -> bool,
    a: int,
    b: int,
)
    requires
        one_per_target(s),
        0 <= a < b < s.filter(keep).len(),
    ensures
        !opens(s.filter(keep)[a], s.filter(keep)[b].0, s.filter(keep)[b].1),
    decreases s.len(),
{
    reveal_with_fuel(Seq::filter, 1);
    let rest = s.drop_last();
    assert forall|i: int, j: int| 0 <= i < j < rest.len() implies !opens(
        #[trigger] rest[i],
        rest[j].0,
        #[trigger] rest[j].1,
    ) by {
        assert(rest[i] == s[i]);
        assert(rest[j] == s[j]);
    }
    rest.lemma_filter_len(keep);
    if keep(s.last()) && b == s.filter(keep).len() - 1 {
        // `b` is the last element of `s`; `a` comes from earlier in `s`.
        let x = s.filter(keep)[a];
        assert(x == rest.filter(keep)[a]);
        rest.lemma_filter_contains_rev(keep, x);
        rest.lemma_filter_pred(keep, a);
        assert(rest.filter(keep).contains(x));
        let k = choose|k: int| 0 <= k < rest.len() && rest[k] == x;
        assert(s[k] == x);
        assert(!opens(s[k], s[s.len() - 1].0, s[s.len() - 1].1));
    } else {
        lemma_filter_keeps_one_per_target(rest, keep, a, b);
    }
}

/// Moving a pin never duplicates or drops one: the strip afterwards holds
/// exactly the pins it held before, in some order.
pub proof fn lemma_move_is_a_permutation(s: Seq<PinView>, from: int, index: int)
    requires
        0 <= from < s.len(),
        0 <= index,
    ensures
        moved_strip(s, from, index).to_multiset() == s.to_multiset(),
{
    broadcast use vstd::seq_lib::group_to_multiset_ensures;

    let shortened = s.remove(from);
    let at = clamp_index(index, s.len() - 1);
    vstd::seq_lib::to_multiset_remove(s, from);
    vstd::seq_lib::to_multiset_insert(shortened, at, s[from]);
    assert(s.to_multiset().remove(s[from]).insert(s[from]) =~= s.to_multiset());
}

} // verus!
