//! Framing for the app <-> helper channel.
//!
//! Deliberately tiny and hand-rolled. Control payloads are JSON (readable when
//! debugging), but terminal output is passed as raw bytes: it is by far the
//! highest-volume traffic and must not pay for base64 or escaping.
//!
//! Frame layout:
//!
//! ```text
//!   u8      tag
//!   u64le   session id
//!   u32le   payload length
//!   bytes   payload
//! ```
use vstd::prelude::*;
use vstd::bytes::{
    lemma_auto_spec_u32_to_from_le_bytes, lemma_auto_spec_u64_to_from_le_bytes,
    spec_u32_from_le_bytes, spec_u32_to_le_bytes, spec_u64_from_le_bytes, spec_u64_to_le_bytes,
    u32_from_le_bytes, u32_to_le_bytes, u64_from_le_bytes, u64_to_le_bytes,
};
use vstd::slice::{slice_subrange, slice_to_vec};

use crate::text::{decimal, push_decimal, push_str};
use crate::Error;

verus! {

/// Cap on a single frame, so a desynchronised stream can't trigger a huge
/// allocation.
pub const MAX_FRAME: usize = 8 * 1024 * 1024;

/// Bytes before the payload: tag, id, length.
pub const HEADER_LEN: usize = 13;

// App -> helper.
pub const TAG_OPEN: u8 = 1;

pub const TAG_WRITE: u8 = 2;

pub const TAG_RESIZE: u8 = 3;

pub const TAG_KILL: u8 = 4;

// Helper -> app.
pub const TAG_DATA: u8 = 10;

pub const TAG_EXIT: u8 = 11;

pub const TAG_ERROR: u8 = 12;

pub const TAG_READY: u8 = 13;

/// Payload of [`TAG_OPEN`], as JSON.
#[derive(Debug, Clone)]
pub struct OpenRequest {
    pub program: String,
    pub args: Vec<String>,
    pub cwd: Option<String>,
    pub cols: u16,
    pub rows: u16,
}

/// Payload of [`TAG_RESIZE`], as JSON.
#[derive(Debug, Clone, Copy)]
pub struct ResizeRequest {
    pub cols: u16,
    pub rows: u16,
}

#[derive(Debug, Clone)]
pub struct Frame {
    pub tag: u8,
    pub id: u64,
    pub payload: Vec<u8>,
}

/// The fixed part of a frame, decoded.
#[derive(Debug, Clone, Copy, PartialEq, Eq)]
pub struct FrameHeader {
    pub tag: u8,
    pub id: u64,
    pub len: usize,
}

/// The bytes of one frame. The length field holds the payload's length
/// modulo 2^32, as a `u32` cast would.
pub open spec fn frame_bytes(tag: u8, id: u64, payload: Seq<u8>) -> Seq<u8> {
    seq![tag] + spec_u64_to_le_bytes(id) + spec_u32_to_le_bytes(payload.len() as u32) + payload
}

/// The session id in a header.
pub open spec fn header_id(s: Seq<u8>) -> u64 {
    spec_u64_from_le_bytes(s.subrange(1, 9))
}

/// The payload length in a header.
pub open spec fn header_len(s: Seq<u8>) -> u32 {
    spec_u32_from_le_bytes(s.subrange(9, 13))
}

/// What a reader says of a frame whose length field is too large.
pub open spec fn too_large_message(len: nat) -> Seq<char> {
    "frame of "@ + decimal(len) + " bytes exceeds the "@ + decimal(MAX_FRAME as nat)
        + " limit; stream is probably desynchronised"@
}

/// What a reader says when the stream ends inside a frame.
pub open spec fn truncated_message() -> Seq<char> {
    "failed to fill whole buffer"@
}

/// Append one frame to `w`.
///
/// The header and body go out in one buffer; the pipe writer flushes it in
/// one go.
pub fn write_frame(w: &mut Vec<u8>, tag: u8, id: u64, payload: &[u8])
    ensures
        final(w)@ == old(w)@ + frame_bytes(tag, id, payload@),
{
    let len = payload.len() as u32;
    w.push(tag);
    let mut id_bytes = u64_to_le_bytes(id);
    let mut len_bytes = u32_to_le_bytes(len);
    w.append(&mut id_bytes);
    w.append(&mut len_bytes);
    w.extend_from_slice(payload);
    assert(final(w)@ =~= old(w)@ + frame_bytes(tag, id, payload@));
}

/// Decode a frame header, refusing a length over [`MAX_FRAME`].
pub fn read_header(header: &[u8]) -> (r: Result<FrameHeader, Error>)
    requires
        header@.len() == HEADER_LEN,
    ensures
        header_len(header@) <= MAX_FRAME ==> r == Ok::<FrameHeader, Error>(
            FrameHeader {
                tag: header@[0],
                id: header_id(header@),
                len: header_len(header@) as usize,
            },
        ),
        header_len(header@) > MAX_FRAME ==> (r matches Err(Error::Io(m)) && m@ == too_large_message(
            header_len(header@) as nat,
        )),
{
    let tag = header[0];
    let id = u64_from_le_bytes(slice_subrange(header, 1, 9));
    let len = u32_from_le_bytes(slice_subrange(header, 9, 13)) as usize;
    if len > MAX_FRAME {
        let mut m = String::new();
        push_str(&mut m, "frame of ");
        push_decimal(&mut m, len as u64);
        push_str(&mut m, " bytes exceeds the ");
        push_decimal(&mut m, MAX_FRAME as u64);
        push_str(&mut m, " limit; stream is probably desynchronised");
        assert(m@ =~= too_large_message(len as nat));
        return Err(Error::Io(m));
    }
    Ok(FrameHeader { tag, id, len })
}

/// An in-memory byte stream that frames are read from.
pub struct ByteReader {
    bytes: Vec<u8>,
    pos: usize,
}

impl ByteReader {
    #[verifier::type_invariant]
    spec fn inv(self) -> bool {
        self.pos <= self.bytes@.len()
    }

    /// The bytes not read yet.
    pub closed spec fn remaining(&self) -> Seq<u8> {
        self.bytes@.skip(self.pos as int)
    }

    /// A reader positioned at the start of `bytes`.
    pub fn new(bytes: Vec<u8>) -> (r: Self)
        ensures
            r.remaining() == bytes@,
    {
        let r = ByteReader { bytes, pos: 0 };
        assert(r.bytes@.skip(0) =~= r.bytes@);
        r
    }

    /// How many bytes are left.
    pub fn remaining_len(&self) -> (n: usize)
        ensures
            n == self.remaining().len(),
    {
        proof {
            use_type_invariant(self);
        }
        self.bytes.len() - self.pos
    }

    /// Consume the next `n` bytes, or everything left if fewer remain
    /// (`None` then).
    fn take(&mut self, n: usize) -> (r: Option<Vec<u8>>)
        ensures
            n <= old(self).remaining().len() ==> (r matches Some(v) && v@ == old(
                self,
            ).remaining().take(n as int) && final(self).remaining() == old(self).remaining().skip(
                n as int,
            )),
            n > old(self).remaining().len() ==> r is None && final(self).remaining() == Seq::<
                u8,
            >::empty(),
    {
        proof {
            use_type_invariant(&*self);
        }
        let left = self.bytes.len() - self.pos;
        if n > left {
            self.pos = self.bytes.len();
            assert(self.bytes@.skip(self.pos as int) =~= Seq::<u8>::empty());
            return None;
        }
        let start = self.pos;
        let v = slice_to_vec(slice_subrange(self.bytes.as_slice(), start, start + n));
        self.pos = start + n;
        assert(v@ =~= old(self).remaining().take(n as int));
        assert(self.bytes@.skip(self.pos as int) =~= old(self).remaining().skip(n as int));
        Some(v)
    }
}

/// Read one frame. Returns `Ok(None)` on a clean end of stream.
///
/// The peer closing between frames (fewer bytes left than a header) is normal
/// shutdown, not an error. A length over [`MAX_FRAME`] is refused before
/// anything is allocated for it; a stream that ends inside a payload is an
/// error.
pub fn read_frame(r: &mut ByteReader) -> (res: Result<Option<Frame>, Error>)
    ensures
        ({
            let s = old(r).remaining();
            if s.len() < HEADER_LEN {
                res matches Ok(None) && final(r).remaining() == Seq::<u8>::empty()
            } else if header_len(s) > MAX_FRAME {
                &&& res matches Err(Error::Io(m)) && m@ == too_large_message(header_len(s) as nat)
                &&& final(r).remaining() == s.skip(HEADER_LEN as int)
            } else if s.len() < HEADER_LEN + header_len(s) {
                &&& res matches Err(Error::Io(m)) && m@ == truncated_message()
                &&& final(r).remaining() == Seq::<u8>::empty()
            } else {
                &&& res matches Ok(Some(f)) && f.tag == s[0] && f.id == header_id(s) && f.payload@
                    == s.subrange(HEADER_LEN as int, HEADER_LEN + header_len(s))
                &&& final(r).remaining() == s.skip(HEADER_LEN + header_len(s))
            }
        }),
{
    let ghost s = r.remaining();
    let header = match r.take(HEADER_LEN) {
        Some(h) => h,
        None => return Ok(None),
    };
    assert(header@.subrange(1, 9) =~= s.subrange(1, 9));
    assert(header@.subrange(9, 13) =~= s.subrange(9, 13));
    let h = match read_header(header.as_slice()) {
        Ok(h) => h,
        Err(e) => return Err(e),
    };
    match r.take(h.len) {
        Some(payload) => {
            assert(s.skip(HEADER_LEN as int).take(h.len as int) =~= s.subrange(
                HEADER_LEN as int,
                HEADER_LEN + h.len,
            ));
            assert(s.skip(HEADER_LEN as int).skip(h.len as int) =~= s.skip(HEADER_LEN + h.len));
            Ok(Some(Frame { tag: h.tag, id: h.id, payload }))
        },
        None => {
            let mut m = String::new();
            push_str(&mut m, "failed to fill whole buffer");
            assert(m@ =~= truncated_message());
            Err(Error::Io(m))
        },
    }
}

/// What is written is what is read back: a frame written with a payload no
/// longer than [`MAX_FRAME`], followed by anything, reads back as the same
/// tag, id and payload, and leaves exactly what followed it.
pub proof fn lemma_frame_round_trip(tag: u8, id: u64, payload: Seq<u8>, rest: Seq<u8>)
    requires
        payload.len() <= MAX_FRAME,
    ensures
        ({
            let s = frame_bytes(tag, id, payload) + rest;
            &&& s.len() == HEADER_LEN + payload.len() + rest.len()
            &&& s[0] == tag
            &&& header_id(s) == id
            &&& header_len(s) == payload.len()
            &&& s.subrange(HEADER_LEN as int, HEADER_LEN + header_len(s)) == payload
            &&& s.skip(HEADER_LEN + header_len(s)) == rest
        }),
{
    lemma_auto_spec_u64_to_from_le_bytes();
    lemma_auto_spec_u32_to_from_le_bytes();
    let ib = spec_u64_to_le_bytes(id);
    let lb = spec_u32_to_le_bytes(payload.len() as u32);
    let s = frame_bytes(tag, id, payload) + rest;
    assert(ib.len() == 8);
    assert(lb.len() == 4);
    assert(s.subrange(1, 9) =~= ib);
    assert(s.subrange(9, 13) =~= lb);
    assert(spec_u32_from_le_bytes(lb) == payload.len() as u32);
    assert(header_len(s) == payload.len());
    assert(s.subrange(HEADER_LEN as int, HEADER_LEN + payload.len()) =~= payload);
    assert(s.skip(HEADER_LEN + payload.len()) =~= rest);
}

/// The bytes of several frames written one after another.
pub open spec fn frames_bytes(fs: Seq<(u8, u64, Seq<u8>)>) -> Seq<u8>
    decreases fs.len(),
{
    if fs.len() == 0 {
        Seq::empty()
    } else {
        frame_bytes(fs[0].0, fs[0].1, fs[0].2) + frames_bytes(fs.drop_first())
    }
}

/// Writing one more frame appends its bytes.
proof fn lemma_frames_bytes_push(fs: Seq<(u8, u64, Seq<u8>)>, f: (u8, u64, Seq<u8>))
    ensures
        frames_bytes(fs.push(f)) == frames_bytes(fs) + frame_bytes(f.0, f.1, f.2),
    decreases fs.len(),
{
    if fs.len() == 0 {
        let g = fs.push(f);
        assert(g.drop_first() =~= Seq::<(u8, u64, Seq<u8>)>::empty());
        assert(g[0] == f);
        assert(frames_bytes(g.drop_first()) == Seq::<u8>::empty());
        assert(frames_bytes(g) == frame_bytes(f.0, f.1, f.2) + frames_bytes(g.drop_first()));
        assert(frames_bytes(fs) == Seq::<u8>::empty());
        assert(frames_bytes(g) =~= frames_bytes(fs) + frame_bytes(f.0, f.1, f.2));
    } else {
        lemma_frames_bytes_push(fs.drop_first(), f);
        assert(fs.push(f).drop_first() =~= fs.drop_first().push(f));
        assert(frames_bytes(fs.push(f)) =~= frames_bytes(fs) + frame_bytes(f.0, f.1, f.2));
    }
}

/// Frames written back to back are read back one by one, in order: frames
/// written one after another, each payload no longer than [`MAX_FRAME`],
/// make the stream `frames_bytes(fs)` (each write appends one frame); from
/// the `k`-th on, the stream holds a whole frame that reads back as the
/// `k`-th written and leaves the stream of the ones after it; and when all
/// have been read, nothing is left, which reads as a clean end.
pub proof fn lemma_frames_read_back_in_order(fs: Seq<(u8, u64, Seq<u8>)>)
    requires
        forall|i: int| 0 <= i < fs.len() ==> (#[trigger] fs[i]).2.len() <= MAX_FRAME,
    ensures
        forall|f: (u8, u64, Seq<u8>)| #[trigger] frames_bytes(fs.push(f)) == frames_bytes(fs) + frame_bytes(f.0, f.1, f.2),
        frames_bytes(fs.skip(fs.len() as int)) == Seq::<u8>::empty(),
        forall|k: int|
            0 <= k < fs.len() ==> {
                let s = #[trigger] frames_bytes(fs.skip(k));
                &&& s.len() >= HEADER_LEN
                &&& header_len(s) <= MAX_FRAME
                &&& s.len() >= HEADER_LEN + header_len(s)
                &&& s[0] == fs[k].0
                &&& header_id(s) == fs[k].1
                &&& s.subrange(HEADER_LEN as int, HEADER_LEN + header_len(s)) == fs[k].2
                &&& s.skip(HEADER_LEN + header_len(s)) == frames_bytes(fs.skip(k + 1))
            },
{
    assert forall|f: (u8, u64, Seq<u8>)| #[trigger] frames_bytes(fs.push(f)) == frames_bytes(fs) + frame_bytes(f.0, f.1, f.2) by {
        lemma_frames_bytes_push(fs, f);
    }
    assert(fs.skip(fs.len() as int) =~= Seq::<(u8, u64, Seq<u8>)>::empty());
    assert forall|k: int|
        0 <= k < fs.len() implies {
            let s = #[trigger] frames_bytes(fs.skip(k));
            &&& s.len() >= HEADER_LEN
            &&& header_len(s) <= MAX_FRAME
            &&& s.len() >= HEADER_LEN + header_len(s)
            &&& s[0] == fs[k].0
            &&& header_id(s) == fs[k].1
            &&& s.subrange(HEADER_LEN as int, HEADER_LEN + header_len(s)) == fs[k].2
            &&& s.skip(HEADER_LEN + header_len(s)) == frames_bytes(fs.skip(k + 1))
        } by {
        let t = fs.skip(k);
        assert(t[0] == fs[k]);
        assert(t.drop_first() =~= fs.skip(k + 1));
        let f = fs[k];
        assert(f.2.len() <= MAX_FRAME);
        assert(t.len() > 0);
        assert(frames_bytes(t) == frame_bytes(f.0, f.1, f.2) + frames_bytes(fs.skip(k + 1)));
        lemma_frame_round_trip(f.0, f.1, f.2, frames_bytes(fs.skip(k + 1)));
    }
}

} // verus!
