//! The decisions of the tasks that run one connection, and of the listener
//! that accepts connections. Every direction of traffic shares one stream:
//! requests and responses of both peers are told apart by kind and
//! correlation id alone.
use crate::message::{Message, MsgKind};
use crate::tracker::{take, RespondTrack};
use vstd::prelude::*;

verus! {

/// Where a message read from the stream goes.
pub enum Inbound<R> {
    /// The peer asks something: hand it to the application, and write back
    /// whatever response the application gives, whenever it does.
    Dispatch(Message),
    /// The response to one of our requests: fulfil this completion with it.
    Fulfil(R, Message),
    /// A response that no request of ours waits for: drop it.
    Unmatched(Message),
}

/// Routes one message read from the stream. A response is matched with the
/// pending request that has its id, which then stops being pending.
pub fn route_inbound<R>(track: &mut RespondTrack<R>, msg: Message) -> (r: Inbound<R>)
    ensures
        msg.kind == MsgKind::Request ==> final(track)@ == old(track)@ && r == Inbound::<R>::Dispatch(
            msg,
        ),
        msg.kind == MsgKind::Response ==> {
            &&& final(track)@ == take(old(track)@, msg.msg_id).1
            &&& match take(old(track)@, msg.msg_id).0 {
                Some(c) => r == Inbound::Fulfil(c, msg),
                None => r == Inbound::<R>::Unmatched(msg),
            }
        },
{
    if msg.is_request() {
        Inbound::Dispatch(msg)
    } else {
        match track.respond(msg) {
            Ok((c, msg)) => Inbound::Fulfil(c, msg),
            Err(msg) => Inbound::Unmatched(msg),
        }
    }
}

/// Registers the completion of a request of ours before the request goes to
/// the stream, so that its response can never arrive unexpected. Hands back
/// the request to write, and a completion that was pending under the same id,
/// which loses its place.
pub fn register_outbound<R>(track: &mut RespondTrack<R>, msg: Message, respond: R) -> (r: (
    Message,
    Option<R>,
))
    ensures
        final(track)@ == old(track)@.insert(msg.msg_id, respond),
        r.0 == msg,
        r.1 == (if old(track)@.contains_key(msg.msg_id) {
            Some(old(track)@[msg.msg_id])
        } else {
            None
        }),
{
    let displaced = track.register(msg.msg_id, respond);
    (msg, displaced)
}

/// Whether the listener goes on accepting after one accept, which may have
/// failed. A failed accept alone never stops it; the kill switch does.
pub fn listener_continues(accepted: bool, alive: bool) -> (r: bool)
    ensures
        r == alive,
{
    alive
}

} // verus!
