//! The routing table between live sessions and the windows watching them.
//!
//! A session used to write straight into the channel handed over by whichever
//! window opened it, which welded the two together for life: moving a terminal
//! to another window was impossible because its output had nowhere else to go.
//! One level of indirection is what makes the drag work: the channel becomes a
//! slot that can be emptied and refilled, and a session whose slot is empty
//! keeps its bytes until someone asks for them.
use vstd::prelude::*;
use vstd::slice::{slice_subrange, slice_to_vec};

use crate::table::IdTable;

verus! {

/// Most a detached session may pile up before the oldest bytes are dropped.
///
/// Only ever reached if a handover stalls: the gap between one window letting
/// go of a terminal and another taking it is a few milliseconds, so this is a
/// ceiling on a pathological case, not a working buffer size.
pub const MAX_HELD_BYTES: usize = 256 * 1024;

/// The newest [`MAX_HELD_BYTES`] of `s`.
pub open spec fn keep_recent(s: Seq<u8>) -> Seq<u8> {
    if s.len() > MAX_HELD_BYTES {
        s.skip(s.len() - MAX_HELD_BYTES)
    } else {
        s
    }
}

/// What is held for a session, or nothing.
pub open spec fn held_or_empty(m: Map<u64, Seq<u8>>, id: u64) -> Seq<u8> {
    if m.contains_key(id) {
        m[id]
    } else {
        Seq::empty()
    }
}

/// Where each session's output goes (`S`, a window's channel), and what it
/// said while it had nowhere to go.
pub struct Outputs<S> {
    sinks: IdTable<S>,
    held: IdTable<Vec<u8>>,
}

impl<S> Outputs<S> {
    /// The window each attached session's output goes to.
    pub closed spec fn sinks(&self) -> Map<u64, S> {
        self.sinks.map()
    }

    /// Output produced while a session had no window. Replayed on attach.
    pub closed spec fn held(&self) -> Map<u64, Seq<u8>> {
        self.held.map().map_values(|v: Vec<u8>| v@)
    }

    pub closed spec fn wf(&self) -> bool {
        self.sinks.wf() && self.held.wf()
    }

    pub fn new() -> (r: Self)
        ensures
            r.wf(),
            r.sinks() == Map::<u64, S>::empty(),
            r.held() == Map::<u64, Seq<u8>>::empty(),
    {
        let r = Outputs { sinks: IdTable::new(), held: IdTable::new() };
        assert(r.held() =~= Map::<u64, Seq<u8>>::empty());
        r
    }

    /// Route one chunk of a session's output.
    ///
    /// With a window attached the chunk is handed back, to be sent there.
    /// Without one it is held, and once more than [`MAX_HELD_BYTES`] is held
    /// the oldest bytes are dropped. That can bisect an escape sequence, which
    /// is the lesser evil: the alternative is an unbounded buffer behind a
    /// window that may never arrive.
    pub fn deliver(&mut self, id: u64, chunk: Vec<u8>) -> (r: Option<Vec<u8>>)
        requires
            old(self).wf(),
        ensures
            final(self).wf(),
            final(self).sinks() == old(self).sinks(),
            old(self).sinks().contains_key(id) ==> (r matches Some(c) && c@ == chunk@)
                && final(self).held() == old(self).held(),
            !old(self).sinks().contains_key(id) ==> r is None && final(self).held() == old(
                self,
            ).held().insert(id, keep_recent(held_or_empty(old(self).held(), id) + chunk@)),
    {
        if self.sinks.get(id).is_some() {
            return Some(chunk);
        }
        let ghost c = chunk@;
        let mut chunk = chunk;
        let mut buf = match self.held.remove(id) {
            Some(b) => b,
            None => Vec::new(),
        };
        let ghost before = buf@;
        buf.append(&mut chunk);
        let kept = if buf.len() > MAX_HELD_BYTES {
            let start = buf.len() - MAX_HELD_BYTES;
            let end = buf.len();
            slice_to_vec(slice_subrange(buf.as_slice(), start, end))
        } else {
            buf
        };
        assert(kept@ =~= keep_recent(before + c));
        self.held.insert(id, kept);
        proof {
            assert(before == held_or_empty(old(self).held(), id));
            assert(self.held() =~= old(self).held().insert(
                id,
                keep_recent(held_or_empty(old(self).held(), id) + c),
            ));
        }
        None
    }

    /// Where a session's output goes, if a window has it.
    pub fn sink(&self, id: u64) -> (r: Option<&S>)
        requires
            self.wf(),
        ensures
            match r {
                Some(s) => self.sinks().contains_key(id) && *s == self.sinks()[id],
                None => !self.sinks().contains_key(id),
            },
    {
        self.sinks.get(id)
    }

    /// Point a session at a window, handing back whatever it produced
    /// meanwhile.
    pub fn bind(&mut self, id: u64, sink: S) -> (r: Vec<u8>)
        requires
            old(self).wf(),
        ensures
            final(self).wf(),
            final(self).sinks() == old(self).sinks().insert(id, sink),
            final(self).held() == old(self).held().remove(id),
            r@ == held_or_empty(old(self).held(), id),
    {
        self.sinks.insert(id, sink);
        let r = match self.held.remove(id) {
            Some(b) => b,
            None => Vec::new(),
        };
        assert(self.held() =~= old(self).held().remove(id));
        r
    }

    /// Let go of a session without losing what it says next.
    pub fn unbind(&mut self, id: u64)
        requires
            old(self).wf(),
        ensures
            final(self).wf(),
            final(self).sinks() == old(self).sinks().remove(id),
            final(self).held() == old(self).held(),
    {
        self.sinks.remove(id);
    }

    /// Drop everything about a session that has ended.
    pub fn forget(&mut self, id: u64)
        requires
            old(self).wf(),
        ensures
            final(self).wf(),
            final(self).sinks() == old(self).sinks().remove(id),
            final(self).held() == old(self).held().remove(id),
    {
        self.sinks.remove(id);
        self.held.remove(id);
        assert(self.held() =~= old(self).held().remove(id));
    }
}

/// What is held after each chunk in turn is delivered to a session with no
/// window, starting from `held`.
pub open spec fn held_after(held: Seq<u8>, chunks: Seq<Seq<u8>>) -> Seq<u8>
    decreases chunks.len(),
{
    if chunks.len() == 0 {
        held
    } else {
        keep_recent(held_after(held, chunks.drop_last()) + chunks.last())
    }
}

/// Every chunk, in order.
pub open spec fn joined(chunks: Seq<Seq<u8>>) -> Seq<u8>
    decreases chunks.len(),
{
    if chunks.len() == 0 {
        Seq::empty()
    } else {
        joined(chunks.drop_last()) + chunks.last()
    }
}

/// Trimming as each chunk arrives keeps exactly what trimming once at the
/// end would.
pub proof fn lemma_keep_recent_absorbs(a: Seq<u8>, b: Seq<u8>)
    ensures
        keep_recent(keep_recent(a) + b) == keep_recent(a + b),
{
    let m = MAX_HELD_BYTES as int;
    if a.len() > m {
        let ka = a.skip(a.len() - m);
        let x = ka + b;
        let y = a + b;
        assert(x.len() > m || x.len() == m);
        if x.len() > m {
            assert(x.skip(x.len() - m) =~= y.skip(y.len() - m));
        } else {
            assert(b.len() == 0);
            assert(x =~= y.skip(y.len() - m));
        }
    }
}

/// A session reattached after a detour shows the newest [`MAX_HELD_BYTES`] of
/// everything it said while detached (after whatever was held before), in
/// order, with nothing invented.
pub proof fn lemma_reattach_shows_recent_output(held: Seq<u8>, chunks: Seq<Seq<u8>>)
    ensures
        held_after(keep_recent(held), chunks) == keep_recent(held + joined(chunks)),
    decreases chunks.len(),
{
    if chunks.len() == 0 {
        assert(held + joined(chunks) =~= held);
        if held.len() > MAX_HELD_BYTES {
            let k = held.skip(held.len() - MAX_HELD_BYTES);
            assert(keep_recent(held) == k);
        }
    } else {
        let rest = chunks.drop_last();
        lemma_reattach_shows_recent_output(held, rest);
        lemma_keep_recent_absorbs(held + joined(rest), chunks.last());
        assert(held + joined(chunks) =~= (held + joined(rest)) + chunks.last());
    }
}

} // verus!
