//! Messages carried one per frame: a request or a response, its correlation
//! id, and an opaque payload.
use crate::frame::{
    is_frame, u32_le_at, u64_le_at, FrameError, HEADER_LEN,
};
use vstd::prelude::*;

verus! {

/// Kind word of a request.
pub const KIND_REQUEST: u32 = 0;

/// Kind word of a response.
pub const KIND_RESPONSE: u32 = 1;

/// Largest payload that a frame's `u32` length prefix can describe.
pub const MAX_PAYLOAD_LEN: usize = 4294967279;

/// Whether a message asks the peer something or answers one of its
/// requests.
#[derive(Debug, Clone, Copy, PartialEq, Eq, Structural)]
pub enum MsgKind {
    Request,
    Response,
}

/// One message of the wire protocol.
#[derive(Debug)]
pub struct Message {
    pub kind: MsgKind,
    /// Shared by a request and its response.
    pub msg_id: u64,
    pub payload: Vec<u8>,
}

/// The kind word that a header carries for `k`.
pub open spec fn kind_word(k: MsgKind) -> nat {
    match k {
        MsgKind::Request => KIND_REQUEST as nat,
        MsgKind::Response => KIND_RESPONSE as nat,
    }
}

/// `f` is the frame of a message of kind `k`, id `id` and payload `p`.
pub open spec fn encodes(f: Seq<u8>, k: MsgKind, id: u64, p: Seq<u8>) -> bool {
    &&& is_frame(f)
    &&& u32_le_at(f, 4) == kind_word(k)
    &&& u64_le_at(f, 8) == id
    &&& f.subrange(HEADER_LEN as int, f.len() as int) == p
}

/// Splits `x` into its four little-endian bytes.
fn u32_to_le(x: u32) -> (r: [u8; 4])
    ensures
        u32_le_at(r@, 0) == x,
{
    let b0: u32 = x & 0xff;
    let b1: u32 = (x >> 8u32) & 0xff;
    let b2: u32 = (x >> 16u32) & 0xff;
    let b3: u32 = (x >> 24u32) & 0xff;
    assert(b0 < 256 && b1 < 256 && b2 < 256 && b3 < 256) by (bit_vector)
        requires
            b0 == x & 0xff,
            b1 == (x >> 8u32) & 0xff,
            b2 == (x >> 16u32) & 0xff,
            b3 == (x >> 24u32) & 0xff,
    ;
    assert(x == b0 + b1 * 256 + b2 * 65536 + b3 * 16777216) by (bit_vector)
        requires
            b0 == x & 0xff,
            b1 == (x >> 8u32) & 0xff,
            b2 == (x >> 16u32) & 0xff,
            b3 == (x >> 24u32) & 0xff,
    ;
    [b0 as u8, b1 as u8, b2 as u8, b3 as u8]
}

/// Reads the little-endian `u32` of `b` at `i`.
fn read_u32(b: &[u8], i: usize) -> (r: u32)
    requires
        i + 4 <= b@.len(),
    ensures
        r == u32_le_at(b@, i as int),
{
    b[i] as u32 + (b[i + 1] as u32) * 256 + (b[i + 2] as u32) * 65536 + (b[i + 3] as u32)
        * 16777216
}

impl Message {
    /// The frame that carries this message.
    pub fn encode(&self) -> (r: Vec<u8>)
        requires
            self.payload@.len() <= MAX_PAYLOAD_LEN,
        ensures
            encodes(r@, self.kind, self.msg_id, self.payload@),
    {
        let size: u32 = (self.payload.len() + HEADER_LEN) as u32;
        let kind: u32 = match self.kind {
            MsgKind::Request => KIND_REQUEST,
            MsgKind::Response => KIND_RESPONSE,
        };
        let x = self.msg_id;
        let lo: u64 = x & 0xffff_ffff;
        let hi: u64 = x >> 32u64;
        assert(lo < 4294967296 && hi < 4294967296 && x == lo + hi * 4294967296) by (bit_vector)
            requires
                lo == x & 0xffff_ffff,
                hi == x >> 32u64,
        ;
        let a0 = u32_to_le(size);
        let a1 = u32_to_le(kind);
        let a2 = u32_to_le(lo as u32);
        let a3 = u32_to_le(hi as u32);
        let mut r: Vec<u8> = Vec::new();
        r.extend_from_slice(&a0);
        r.extend_from_slice(&a1);
        r.extend_from_slice(&a2);
        r.extend_from_slice(&a3);
        let ghost header = r@;
        assert(header =~= a0@ + a1@ + a2@ + a3@);
        r.extend_from_slice(self.payload.as_slice());
        assert(r@ =~= header + self.payload@);
        assert(r@.subrange(HEADER_LEN as int, r@.len() as int) =~= self.payload@);
        r
    }

    /// The message that a whole frame carries.
    pub fn decode(frame: &Vec<u8>) -> (r: Result<Message, FrameError>)
        requires
            is_frame(frame@),
        ensures
            match r {
                Ok(m) => encodes(frame@, m.kind, m.msg_id, m.payload@),
                Err(e) => e == FrameError::UnknownKind && u32_le_at(frame@, 4) != KIND_REQUEST
                    && u32_le_at(frame@, 4) != KIND_RESPONSE,
            },
    {
        let b = frame.as_slice();
        let kind_word = read_u32(b, 4);
        let kind = if kind_word == KIND_REQUEST {
            MsgKind::Request
        } else if kind_word == KIND_RESPONSE {
            MsgKind::Response
        } else {
            return Err(FrameError::UnknownKind);
        };
        let lo = read_u32(b, 8);
        let hi = read_u32(b, 12);
        let msg_id: u64 = lo as u64 + (hi as u64) * 4294967296;
        let mut payload: Vec<u8> = Vec::new();
        let mut i: usize = HEADER_LEN;
        while i < b.len()
            invariant
                HEADER_LEN <= i <= b@.len(),
                b@ == frame@,
                payload@ == b@.subrange(HEADER_LEN as int, i as int),
            decreases b@.len() - i,
        {
            payload.push(b[i]);
            i = i + 1;
            assert(payload@ =~= b@.subrange(HEADER_LEN as int, i as int));
        }
        Ok(Message { kind, msg_id, payload })
    }

    /// Whether this message asks the peer something.
    pub fn is_request(&self) -> (r: bool)
        ensures
            r == (self.kind == MsgKind::Request),
    {
        match self.kind {
            MsgKind::Request => true,
            MsgKind::Response => false,
        }
    }
}

/// A frame carries one message: any two messages that it encodes agree, so
/// decoding the frame of a message gives back that message.
pub proof fn lemma_encoding_unique(
    f: Seq<u8>,
    kind_a: MsgKind,
    id_a: u64,
    payload_a: Seq<u8>,
    kind_b: MsgKind,
    id_b: u64,
    payload_b: Seq<u8>,
)
    requires
        encodes(f, kind_a, id_a, payload_a),
        encodes(f, kind_b, id_b, payload_b),
    ensures
        kind_a == kind_b && id_a == id_b && payload_a == payload_b,
{
}

} // verus!
