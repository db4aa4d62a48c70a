//! The decisions of the two pumps that own a connection's stream: the read
//! pump turns bytes into messages, the write pump messages into bytes. The
//! reads and writes themselves are left to the caller.
use crate::frame::{split, FrameAssembler, FrameError};
use crate::frame::u32_le_at;
use crate::message::{
    encodes, lemma_encoding_unique, Message, KIND_REQUEST, KIND_RESPONSE, MAX_PAYLOAD_LEN,
};
use vstd::prelude::*;

verus! {

/// What a pump does after a unit of work.
#[derive(Debug, Clone, Copy, PartialEq, Eq, Structural)]
pub enum PumpOutcome {
    /// Wait for the next unit.
    Continue,
    /// The kill switch reads false: stop without error.
    Stopped,
    /// Stop with this error.
    Failed(FrameError),
}

/// What the read pump hands up after one read.
pub struct ReadStep {
    /// Whole messages, in stream order, to publish.
    pub messages: Vec<Message>,
    pub outcome: PumpOutcome,
}

/// Whether the header of frame `f` names a request or a response.
pub open spec fn known_kind(f: Seq<u8>) -> bool {
    u32_le_at(f, 4) == KIND_REQUEST || u32_le_at(f, 4) == KIND_RESPONSE
}

/// `msgs` are the messages carried by the first frames of `frames`, one for
/// one.
pub open spec fn carried_prefix(msgs: Seq<Message>, frames: Seq<Seq<u8>>) -> bool {
    &&& msgs.len() <= frames.len()
    &&& forall|i: int|
        0 <= i < msgs.len() ==> encodes(
            #[trigger] frames[i],
            msgs[i].kind,
            msgs[i].msg_id,
            msgs[i].payload@,
        )
}

/// `msgs` are the messages carried by `frames`, one for one, up to the first
/// frame whose kind is unknown: all of them when every kind is known.
pub open spec fn carried(msgs: Seq<Message>, frames: Seq<Seq<u8>>) -> bool {
    &&& carried_prefix(msgs, frames)
    &&& msgs.len() < frames.len() ==> !known_kind(frames[msgs.len() as int])
}

/// The messages handed up for a sequence of frames are fixed by the frames:
/// any two sequences that they carry agree in length and in every message.
/// With `lemma_chunking_irrelevant`, what the read pump hands up depends on
/// the bytes of the stream alone, not on how the reads cut them.
pub proof fn lemma_carried_unique(a: Seq<Message>, b: Seq<Message>, frames: Seq<Seq<u8>>)
    requires
        carried(a, frames),
        carried(b, frames),
    ensures
        a.len() == b.len(),
        forall|i: int|
            0 <= i < a.len() ==> #[trigger] a[i].kind == b[i].kind && a[i].msg_id == b[i].msg_id
                && a[i].payload@ == b[i].payload@,
{
    if a.len() < b.len() {
        assert(encodes(frames[a.len() as int], b[a.len() as int].kind, b[a.len() as int].msg_id, b[a.len() as int].payload@));
    }
    if b.len() < a.len() {
        assert(encodes(frames[b.len() as int], a[b.len() as int].kind, a[b.len() as int].msg_id, a[b.len() as int].payload@));
    }
    assert forall|i: int| 0 <= i < a.len() implies #[trigger] a[i].kind == b[i].kind && a[i].msg_id
        == b[i].msg_id && a[i].payload@ == b[i].payload@ by {
        assert(encodes(frames[i], a[i].kind, a[i].msg_id, a[i].payload@));
        assert(encodes(frames[i], b[i].kind, b[i].msg_id, b[i].payload@));
        lemma_encoding_unique(
            frames[i],
            a[i].kind,
            a[i].msg_id,
            a[i].payload@,
            b[i].kind,
            b[i].msg_id,
            b[i].payload@,
        );
    }
}

/// The read pump of one connection: the bytes read and not yet handed up.
pub struct ReadPump {
    assembler: FrameAssembler,
}

impl View for ReadPump {
    type V = Seq<u8>;

    closed spec fn view(&self) -> Seq<u8> {
        self.assembler@
    }
}

impl ReadPump {
    /// A pump with nothing buffered.
    pub fn new() -> (r: Self)
        ensures
            r@ == Seq::<u8>::empty(),
    {
        ReadPump { assembler: FrameAssembler::new() }
    }

    /// Takes what one read of the stream gave (`chunk`, empty at the end of
    /// the stream) and whether the kill switch still reads true afterwards.
    /// Hands up every message whose frame is now whole, in order; stops at
    /// the end of the stream, on a malformed frame, or when the switch is off.
    pub fn on_read(&mut self, chunk: &[u8], alive: bool) -> (r: ReadStep)
        ensures
            chunk@.len() == 0 ==> r.messages@.len() == 0 && r.outcome == PumpOutcome::Failed(
                FrameError::Closed(old(self)@.len() > 0),
            ),
            chunk@.len() > 0 ==> match split(old(self)@ + chunk@) {
                None => r.messages@.len() == 0 && r.outcome == PumpOutcome::Failed(
                    FrameError::Malformed,
                ),
                Some(t) => {
                    &&& final(self)@ == t.1
                    &&& carried(r.messages@, t.0)
                    &&& r.messages@.len() == t.0.len() ==> r.outcome == (if alive {
                        PumpOutcome::Continue
                    } else {
                        PumpOutcome::Stopped
                    })
                    &&& r.messages@.len() < t.0.len() ==> r.outcome == PumpOutcome::Failed(
                        FrameError::UnknownKind,
                    )
                },
            },
    {
        let mut messages: Vec<Message> = Vec::new();
        if chunk.len() == 0 {
            let mid_frame = self.assembler.pending_len() > 0;
            return ReadStep { messages, outcome: PumpOutcome::Failed(FrameError::Closed(mid_frame)) };
        }
        let frames = match self.assembler.feed(chunk) {
            Err(e) => {
                return ReadStep { messages, outcome: PumpOutcome::Failed(e) };
            },
            Ok(frames) => frames,
        };
        let ghost fv = crate::frame::frame_views(frames@);
        proof {
            crate::frame::lemma_split_takes_frames(old(self)@ + chunk@);
        }
        let mut i: usize = 0;
        while i < frames.len()
            invariant
                0 <= i <= frames@.len(),
                chunk@.len() > 0,
                split(old(self)@ + chunk@) == Some((fv, self@)),
                fv == crate::frame::frame_views(frames@),
                fv.len() == frames@.len(),
                forall|j: int| 0 <= j < fv.len() ==> crate::frame::is_frame(#[trigger] fv[j]),
                messages@.len() == i,
                carried_prefix(messages@, fv),
            decreases frames@.len() - i,
        {
            assert(fv[i as int] == frames@[i as int]@);
            match Message::decode(&frames[i]) {
                Err(e) => {
                    return ReadStep { messages, outcome: PumpOutcome::Failed(e) };
                },
                Ok(m) => {
                    messages.push(m);
                },
            }
            i = i + 1;
        }
        let outcome = if alive {
            PumpOutcome::Continue
        } else {
            PumpOutcome::Stopped
        };
        ReadStep { messages, outcome }
    }
}

/// The bytes that the write pump writes for one message.
pub fn frame_for_send(msg: &Message) -> (r: Result<Vec<u8>, FrameError>)
    ensures
        match r {
            Ok(f) => msg.payload@.len() <= MAX_PAYLOAD_LEN && encodes(
                f@,
                msg.kind,
                msg.msg_id,
                msg.payload@,
            ),
            Err(e) => e == FrameError::TooLarge && msg.payload@.len() > MAX_PAYLOAD_LEN,
        },
{
    if msg.payload.len() > MAX_PAYLOAD_LEN {
        Err(FrameError::TooLarge)
    } else {
        Ok(msg.encode())
    }
}

/// Whether the write pump takes the next message after writing one: a
/// message that could not be encoded or written ends the pump, and so does
/// the kill switch.
pub fn write_pump_continues(written: bool, alive: bool) -> (r: bool)
    ensures
        r == (written && alive),
{
    written && alive
}

/// What a pump or task does once a unit of work is done, given what the kill
/// switch reads.
pub fn after_unit(alive: bool) -> (r: PumpOutcome)
    ensures
        r == (if alive {
            PumpOutcome::Continue
        } else {
            PumpOutcome::Stopped
        }),
{
    if alive {
        PumpOutcome::Continue
    } else {
        PumpOutcome::Stopped
    }
}

} // verus!
