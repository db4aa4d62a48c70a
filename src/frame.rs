//! Frames on the wire, and the assembly of frames from a byte stream that
//! arrives in arbitrary chunks.
//!
//! A frame begins with a 16-byte header: its total length (header included)
//! as a little-endian `u32`, a kind word as a little-endian `u32`, and a
//! correlation id as a little-endian `u64`. The payload follows.
use vstd::prelude::*;

verus! {

/// Bytes of the length prefix at the start of every frame.
pub const SIZE_PREFIX_LEN: usize = 4;

/// Bytes of the whole frame header; no frame is shorter.
pub const HEADER_LEN: usize = 16;

/// A frame that cannot be taken from the stream.
#[derive(Debug, Clone, Copy, PartialEq, Eq, Structural)]
pub enum FrameError {
    /// The length prefix announces fewer bytes than a frame header holds.
    Malformed,
    /// The stream ended; `true` when it ended in the middle of a frame.
    Closed(bool),
    /// A header's kind word is neither a request nor a response.
    UnknownKind,
    /// A payload too long for a frame's length prefix.
    TooLarge,
}

/// The little-endian value of the four bytes of `b` from `i` on.
pub open spec fn u32_le_at(b: Seq<u8>, i: int) -> nat {
    (b[i] as nat) + 256 * (b[i + 1] as nat) + 65536 * (b[i + 2] as nat) + 16777216 * (
    b[i + 3] as nat)
}

/// The little-endian value of the eight bytes of `b` from `i` on.
pub open spec fn u64_le_at(b: Seq<u8>, i: int) -> nat {
    u32_le_at(b, i) + 4294967296 * u32_le_at(b, i + 4)
}

/// The length that the prefix of `b` announces.
pub open spec fn declared_len(b: Seq<u8>) -> nat {
    u32_le_at(b, 0)
}

/// `f` is one whole frame: its prefix announces exactly its length.
pub open spec fn is_frame(f: Seq<u8>) -> bool {
    f.len() >= HEADER_LEN && declared_len(f) == f.len()
}

/// The bytes of a sequence of frames, one after the other.
pub open spec fn concat(frames: Seq<Seq<u8>>) -> Seq<u8>
    decreases frames.len(),
{
    if frames.len() == 0 {
        Seq::empty()
    } else {
        frames[0] + concat(frames.drop_first())
    }
}

/// The bytes of each frame of `v`.
pub open spec fn frame_views(v: Seq<Vec<u8>>) -> Seq<Seq<u8>> {
    v.map_values(|f: Vec<u8>| f@)
}

/// Takes whole frames from the front of `s` as long as there are any: the
/// frames taken and the bytes left over, or `None` where a prefix is
/// malformed before the end of what is buffered.
pub open spec fn split(s: Seq<u8>) -> Option<(Seq<Seq<u8>>, Seq<u8>)>
    decreases s.len(),
{
    if s.len() < SIZE_PREFIX_LEN {
        Some((Seq::empty(), s))
    } else if declared_len(s) < HEADER_LEN {
        None
    } else if s.len() < declared_len(s) {
        Some((Seq::empty(), s))
    } else {
        match split(s.subrange(declared_len(s) as int, s.len() as int)) {
            None => None,
            Some(r) => Some((seq![s.subrange(0, declared_len(s) as int)] + r.0, r.1)),
        }
    }
}

/// Whether the front of `s` holds a whole frame, or a malformed prefix.
pub open spec fn front_is_decided(s: Seq<u8>) -> bool {
    s.len() >= SIZE_PREFIX_LEN && (declared_len(s) < HEADER_LEN || s.len() >= declared_len(s))
}

/// What successive calls of `FrameAssembler::feed` hand up, starting from the
/// buffered bytes `p` and feeding `chunks` in order: the frames of every call
/// one after the other and the bytes left buffered, or `None` once a call
/// fails.
pub open spec fn feed_all(p: Seq<u8>, chunks: Seq<Seq<u8>>) -> Option<(Seq<Seq<u8>>, Seq<u8>)>
    decreases chunks.len(),
{
    if chunks.len() == 0 {
        Some((Seq::empty(), p))
    } else {
        match split(p + chunks[0]) {
            None => None,
            Some(t) => match feed_all(t.1, chunks.drop_first()) {
                None => None,
                Some(u) => Some((t.0 + u.0, u.1)),
            },
        }
    }
}

/// Splitting more bytes takes the same frames first: appending `d` to `s`
/// changes only what follows the frames taken from `s`.
pub proof fn lemma_split_append(s: Seq<u8>, d: Seq<u8>)
    ensures
        split(s + d) == match split(s) {
            None => None,
            Some(t) => match split(t.1 + d) {
                None => None,
                Some(u) => Some((t.0 + u.0, u.1)),
            },
        },
    decreases s.len(),
{
    let sd = s + d;
    if s.len() >= SIZE_PREFIX_LEN {
        assert(sd[0] == s[0] && sd[1] == s[1] && sd[2] == s[2] && sd[3] == s[3]);
        assert(declared_len(sd) == declared_len(s));
    }
    if s.len() < SIZE_PREFIX_LEN || (declared_len(s) >= HEADER_LEN && s.len() < declared_len(s)) {
        match split(sd) {
            None => {},
            Some(u) => {
                assert(Seq::<Seq<u8>>::empty() + u.0 =~= u.0);
            },
        }
    } else if declared_len(s) < HEADER_LEN {
    } else {
        let n = declared_len(s) as int;
        let rest = s.subrange(n, s.len() as int);
        assert(sd.subrange(0, n) =~= s.subrange(0, n));
        assert(sd.subrange(n, sd.len() as int) =~= rest + d);
        lemma_split_append(rest, d);
        match split(rest) {
            None => {},
            Some(t) => {
                match split(t.1 + d) {
                    None => {},
                    Some(u) => {
                        assert(seq![s.subrange(0, n)] + (t.0 + u.0) =~= (seq![s.subrange(0, n)]
                            + t.0) + u.0);
                    },
                }
            },
        }
    }
}

/// The bytes of whole frames, one after the other, split back into exactly
/// those frames with nothing left over.
pub proof fn lemma_split_concat(frames: Seq<Seq<u8>>)
    requires
        forall|i: int| 0 <= i < frames.len() ==> is_frame(#[trigger] frames[i]),
    ensures
        split(concat(frames)) == Some((frames, Seq::<u8>::empty())),
    decreases frames.len(),
{
    if frames.len() == 0 {
        assert(split(concat(frames)) == Some((Seq::<Seq<u8>>::empty(), Seq::<u8>::empty())));
        assert(frames =~= Seq::<Seq<u8>>::empty());
    } else {
        let f = frames[0];
        let rest = frames.drop_first();
        assert(is_frame(f));
        assert forall|i: int| 0 <= i < rest.len() implies is_frame(#[trigger] rest[i]) by {
            assert(rest[i] == frames[i + 1]);
        }
        lemma_split_concat(rest);
        let c = concat(frames);
        assert(c == f + concat(rest));
        assert(c[0] == f[0] && c[1] == f[1] && c[2] == f[2] && c[3] == f[3]);
        assert(c.subrange(0, f.len() as int) =~= f);
        assert(c.subrange(f.len() as int, c.len() as int) =~= concat(rest));
        assert(seq![f] + rest =~= frames);
    }
}

/// Feeding chunks one call at a time, from a buffer that holds no whole
/// frame, hands up what splitting all of their bytes at once gives.
pub proof fn lemma_feed_all_split(p: Seq<u8>, chunks: Seq<Seq<u8>>)
    requires
        split(p) == Some((Seq::<Seq<u8>>::empty(), p)),
    ensures
        feed_all(p, chunks) == split(p + concat(chunks)),
    decreases chunks.len(),
{
    if chunks.len() == 0 {
        assert(p + concat(chunks) =~= p);
    } else {
        let c0 = chunks[0];
        let rest = chunks.drop_first();
        assert(p + concat(chunks) =~= (p + c0) + concat(rest));
        lemma_split_append(p + c0, concat(rest));
        match split(p + c0) {
            None => {},
            Some(t) => {
                lemma_split_whole(p + c0);
                lemma_feed_all_split(t.1, rest);
            },
        }
    }
}

/// Every frame that splitting takes is whole.
pub proof fn lemma_split_takes_frames(s: Seq<u8>)
    ensures
        split(s) matches Some(t) ==> forall|i: int| 0 <= i < t.0.len() ==> is_frame(#[trigger] t.0[i]),
    decreases s.len(),
{
    if s.len() >= SIZE_PREFIX_LEN && declared_len(s) >= HEADER_LEN && s.len() >= declared_len(s) {
        let n = declared_len(s) as int;
        let f = s.subrange(0, n);
        assert(f[0] == s[0] && f[1] == s[1] && f[2] == s[2] && f[3] == s[3]);
        lemma_split_takes_frames(s.subrange(n, s.len() as int));
        match split(s.subrange(n, s.len() as int)) {
            None => {},
            Some(r) => {
                let all = seq![f] + r.0;
                assert forall|i: int| 0 <= i < all.len() implies is_frame(#[trigger] all[i]) by {
                    if i > 0 {
                        assert(all[i] == r.0[i - 1]);
                    }
                }
            },
        }
    }
}

/// Splitting never leaves a whole frame behind: the leftover splits into no
/// frames and itself.
pub proof fn lemma_split_whole(s: Seq<u8>)
    ensures
        split(s) matches Some(t) ==> split(t.1) == Some((Seq::<Seq<u8>>::empty(), t.1)),
    decreases s.len(),
{
    if s.len() >= SIZE_PREFIX_LEN && declared_len(s) >= HEADER_LEN && s.len() >= declared_len(s) {
        lemma_split_whole(s.subrange(declared_len(s) as int, s.len() as int));
    }
}

/// However the bytes of a sequence of frames are cut into chunks (mid-frame,
/// several frames at once, one byte at a time), feeding the chunks in order
/// hands up exactly those frames, whole and in order, and leaves nothing
/// buffered.
pub proof fn lemma_chunking_irrelevant(frames: Seq<Seq<u8>>, chunks: Seq<Seq<u8>>)
    requires
        forall|i: int| 0 <= i < frames.len() ==> is_frame(#[trigger] frames[i]),
        concat(chunks) == concat(frames),
    ensures
        feed_all(Seq::empty(), chunks) == Some((frames, Seq::<u8>::empty())),
{
    assert(split(Seq::<u8>::empty()) == Some((Seq::<Seq<u8>>::empty(), Seq::<u8>::empty())));
    lemma_feed_all_split(Seq::empty(), chunks);
    assert(Seq::<u8>::empty() + concat(chunks) =~= concat(frames));
    lemma_split_concat(frames);
}

/// The length announced by the prefix of `buf`, or `None` while fewer than
/// four bytes are buffered.
pub fn peek_size(buf: &[u8]) -> (r: Option<usize>)
    ensures
        buf@.len() < SIZE_PREFIX_LEN ==> r.is_none(),
        buf@.len() >= SIZE_PREFIX_LEN ==> r == Some(declared_len(buf@) as usize),
{
    if buf.len() < SIZE_PREFIX_LEN {
        None
    } else {
        let v: u32 = buf[0] as u32 + (buf[1] as u32) * 256 + (buf[2] as u32) * 65536 + (
        buf[3] as u32) * 16777216;
        Some(v as usize)
    }
}

/// The bytes received on one stream and not yet handed up as frames.
pub struct FrameAssembler {
    pending: Vec<u8>,
}

impl View for FrameAssembler {
    type V = Seq<u8>;

    closed spec fn view(&self) -> Seq<u8> {
        self.pending@
    }
}

impl FrameAssembler {
    /// An assembler with nothing buffered.
    pub fn new() -> (r: Self)
        ensures
            r@ == Seq::<u8>::empty(),
    {
        FrameAssembler { pending: Vec::new() }
    }

    /// How many bytes are buffered.
    pub fn pending_len(&self) -> (r: usize)
        ensures
            r == self@.len(),
    {
        self.pending.len()
    }

    /// Takes one whole frame off the front of the buffer, if there is one.
    pub fn next_frame(&mut self) -> (r: Result<Option<Vec<u8>>, FrameError>)
        ensures
            match r {
                Err(e) => {
                    &&& e == FrameError::Malformed
                    &&& old(self)@.len() >= SIZE_PREFIX_LEN
                    &&& declared_len(old(self)@) < HEADER_LEN
                    &&& split(old(self)@).is_none()
                    &&& final(self)@ == old(self)@
                },
                Ok(None) => !front_is_decided(old(self)@) && final(self)@ == old(self)@,
                Ok(Some(f)) => {
                    &&& front_is_decided(old(self)@)
                    &&& is_frame(f@)
                    &&& f@ == old(self)@.subrange(0, declared_len(old(self)@) as int)
                    &&& old(self)@ == f@ + final(self)@
                    &&& split(old(self)@) == match split(final(self)@) {
                        None => None,
                        Some(t) => Some((seq![f@] + t.0, t.1)),
                    }
                },
            },
    {
        match peek_size(self.pending.as_slice()) {
            None => Ok(None),
            Some(size) => {
                if size < HEADER_LEN {
                    Err(FrameError::Malformed)
                } else if self.pending.len() < size {
                    Ok(None)
                } else {
                    let ghost before = self.pending@;
                    let mut frame = self.pending.split_off(size);
                    std::mem::swap(&mut frame, &mut self.pending);
                    assert(before == frame@ + self.pending@);
                    assert(frame@ == before.subrange(0, size as int));
                    assert(self.pending@ == before.subrange(size as int, before.len() as int));
                    Ok(Some(frame))
                }
            }
        }
    }

    /// Appends what was read from the stream and takes every whole frame
    /// that the buffer then starts with, in stream order.
    pub fn feed(&mut self, chunk: &[u8]) -> (r: Result<Vec<Vec<u8>>, FrameError>)
        ensures
            match split(old(self)@ + chunk@) {
                None => r == Err::<Vec<Vec<u8>>, FrameError>(FrameError::Malformed),
                Some(t) => r.is_ok() && frame_views(r->Ok_0@) == t.0
                    && final(self)@ == t.1,
            },
            r matches Ok(frames) ==> forall|i: int|
                0 <= i < frames@.len() ==> is_frame(#[trigger] frames@[i]@),
    {
        self.pending.extend_from_slice(chunk);
        let ghost all = self.pending@;
        assert(all == old(self)@ + chunk@);
        let mut out: Vec<Vec<u8>> = Vec::new();
        loop
            invariant
                all == old(self)@ + chunk@,
                split(all) == match split(self@) {
                    None => None,
                    Some(t) => Some((frame_views(out@) + t.0, t.1)),
                },
            decreases self@.len(),
        {
            let ghost prev = self@;
            match self.next_frame() {
                Err(e) => {
                    return Err(e);
                },
                Ok(None) => {
                    assert(split(prev) == Some((Seq::<Seq<u8>>::empty(), prev)));
                    assert(frame_views(out@) + Seq::<Seq<u8>>::empty()
                        =~= frame_views(out@));
                    assert forall|i: int| 0 <= i < out@.len() implies is_frame(
                        #[trigger] out@[i]@,
                    ) by {
                        lemma_split_takes_frames(all);
                        let taken = split(all)->Some_0.0;
                        assert(taken == frame_views(out@));
                        assert(is_frame(taken[i]));
                        assert(frame_views(out@)[i] == out@[i]@);
                    }
                    return Ok(out);
                },
                Ok(Some(f)) => {
                    let ghost fv = f@;
                    let ghost before = frame_views(out@);
                    out.push(f);
                    assert(frame_views(out@) =~= before.push(fv));
                    proof {
                        match split(self@) {
                            None => {},
                            Some(t) => {
                                assert(before + (seq![fv] + t.0) =~= before.push(fv) + t.0);
                            },
                        }
                    }
                },
            }
        }
    }
}

} // verus!
