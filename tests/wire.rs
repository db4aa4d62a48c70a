use lair_ipc::connection::{listener_continues, register_outbound, route_inbound, Inbound};
use lair_ipc::frame::{peek_size, FrameAssembler, FrameError, HEADER_LEN};
use lair_ipc::kill_switch::KillSwitch;
use lair_ipc::message::{Message, MsgKind, KIND_RESPONSE};
use lair_ipc::pump::{after_unit, frame_for_send, write_pump_continues, PumpOutcome, ReadPump};
use lair_ipc::tracker::RespondTrack;

fn msg(kind: MsgKind, msg_id: u64, payload: &[u8]) -> Message {
    Message { kind, msg_id, payload: payload.to_vec() }
}

fn frame(kind: MsgKind, msg_id: u64, payload: &[u8]) -> Vec<u8> {
    msg(kind, msg_id, payload).encode()
}

#[test]
fn encode_lays_out_header_then_payload() {
    let f = frame(MsgKind::Response, 0x0102030405060708, b"ab");
    assert_eq!(
        f,
        vec![18, 0, 0, 0, 1, 0, 0, 0, 8, 7, 6, 5, 4, 3, 2, 1, b'a', b'b']
    );
}

#[test]
fn decode_reads_back_encoded_message() {
    let f = frame(MsgKind::Request, 7, b"hello");
    let m = Message::decode(&f).unwrap();
    assert_eq!(m.kind, MsgKind::Request);
    assert_eq!(m.msg_id, 7);
    assert_eq!(m.payload, b"hello".to_vec());
}

#[test]
fn decode_rejects_unknown_kind() {
    let mut f = frame(MsgKind::Request, 1, b"");
    f[4] = 9;
    assert!(matches!(Message::decode(&f), Err(FrameError::UnknownKind)));
    f[4] = KIND_RESPONSE as u8;
    assert_eq!(Message::decode(&f).unwrap().kind, MsgKind::Response);
}

#[test]
fn peek_size_needs_four_bytes() {
    assert_eq!(peek_size(&[1, 2, 3]), None);
    assert_eq!(peek_size(&[0x10, 0x01, 0, 0, 9]), Some(272));
    assert_eq!(peek_size(&[0xff, 0xff, 0xff, 0xff]), Some(4294967295));
}

#[test]
fn assembler_takes_only_whole_frames() {
    let f = frame(MsgKind::Request, 3, b"xyz");
    let mut a = FrameAssembler::new();
    assert!(a.feed(&f[..10]).unwrap().is_empty());
    assert_eq!(a.pending_len(), 10);
    let out = a.feed(&f[10..]).unwrap();
    assert_eq!(out, vec![f.clone()]);
    assert_eq!(a.pending_len(), 0);
}

#[test]
fn assembler_rejects_short_length_prefix() {
    let mut a = FrameAssembler::new();
    assert!(matches!(a.feed(&[3, 0, 0, 0, 1]), Err(FrameError::Malformed)));
    let mut b = FrameAssembler::new();
    assert!(matches!(b.next_frame(), Ok(None)));
}

#[test]
fn chunking_gives_the_same_frames() {
    let frames = vec![
        frame(MsgKind::Request, 1, b"first"),
        frame(MsgKind::Response, 2, b""),
        frame(MsgKind::Request, 3, &[7u8; 300]),
    ];
    let all: Vec<u8> = frames.concat();
    for size in [1usize, 2, 5, 16, 17, 40, all.len()] {
        let mut a = FrameAssembler::new();
        let mut out = Vec::new();
        for chunk in all.chunks(size) {
            out.extend(a.feed(chunk).unwrap());
        }
        assert_eq!(out, frames, "chunk size {}", size);
        assert_eq!(a.pending_len(), 0);
    }
}

#[test]
fn read_pump_stops_mid_frame_without_partial_message() {
    let f = frame(MsgKind::Request, 5, b"payload");
    let mut p = ReadPump::new();
    let step = p.on_read(&f[..9], true);
    assert!(step.messages.is_empty());
    assert_eq!(step.outcome, PumpOutcome::Continue);
    let end = p.on_read(&[], true);
    assert!(end.messages.is_empty());
    assert_eq!(end.outcome, PumpOutcome::Failed(FrameError::Closed(true)));
}

#[test]
fn read_pump_end_between_frames() {
    let mut p = ReadPump::new();
    let end = p.on_read(&[], true);
    assert_eq!(end.outcome, PumpOutcome::Failed(FrameError::Closed(false)));
}

#[test]
fn read_pump_stops_when_switch_is_off() {
    let f = frame(MsgKind::Response, 4, b"r");
    let mut p = ReadPump::new();
    let step = p.on_read(&f, false);
    assert_eq!(step.messages.len(), 1);
    assert_eq!(step.outcome, PumpOutcome::Stopped);
    assert_eq!(after_unit(false), PumpOutcome::Stopped);
    assert_eq!(after_unit(true), PumpOutcome::Continue);
}

#[test]
fn read_pump_fails_on_unknown_kind_after_good_frames() {
    let good = frame(MsgKind::Request, 1, b"a");
    let mut bad = frame(MsgKind::Request, 2, b"b");
    bad[4] = 5;
    let mut bytes = good.clone();
    bytes.extend_from_slice(&bad);
    let mut p = ReadPump::new();
    let step = p.on_read(&bytes, true);
    assert_eq!(step.messages.len(), 1);
    assert_eq!(step.messages[0].msg_id, 1);
    assert_eq!(step.outcome, PumpOutcome::Failed(FrameError::UnknownKind));
}

#[test]
fn read_pump_fails_on_malformed_prefix() {
    let mut p = ReadPump::new();
    let step = p.on_read(&[2, 0, 0, 0], true);
    assert!(step.messages.is_empty());
    assert_eq!(step.outcome, PumpOutcome::Failed(FrameError::Malformed));
}

#[test]
fn frame_for_send_encodes() {
    let m = msg(MsgKind::Request, 11, b"q");
    let f = frame_for_send(&m).unwrap();
    assert_eq!(f.len(), HEADER_LEN + 1);
    assert_eq!(f[8], 11);
}

#[test]
fn server_request_answered_by_client() {
    // the server asks with id 7; another request of its own, id 9, waits too
    let mut server = RespondTrack::new();
    let (out, displaced) = register_outbound(&mut server, msg(MsgKind::Request, 7, b"unlock?"), "caller-7");
    assert!(displaced.is_none());
    register_outbound(&mut server, msg(MsgKind::Request, 9, b"other"), "caller-9");
    let wire = frame_for_send(&out).unwrap();

    // the client reads it and is asked
    let mut client_pump = ReadPump::new();
    let mut client: RespondTrack<&str> = RespondTrack::new();
    let mut step = client_pump.on_read(&wire, true);
    let got = step.messages.remove(0);
    let asked = match route_inbound(&mut client, got) {
        Inbound::Dispatch(m) => m,
        _ => panic!("a request goes to the application"),
    };
    assert_eq!(asked.msg_id, 7);

    // the client answers with id 7 and payload P
    let answer = frame_for_send(&msg(MsgKind::Response, 7, b"P")).unwrap();
    let mut server_pump = ReadPump::new();
    let mut step = server_pump.on_read(&answer, true);
    match route_inbound(&mut server, step.messages.remove(0)) {
        Inbound::Fulfil(c, m) => {
            assert_eq!(c, "caller-7");
            assert_eq!(m.payload, b"P".to_vec());
        }
        _ => panic!("the response fulfils the pending request"),
    }
    assert!(server.is_pending(9));
    assert!(!server.is_pending(7));
    assert_eq!(server.len(), 1);
}

#[test]
fn responses_out_of_order_reach_their_callers() {
    let mut client = RespondTrack::new();
    register_outbound(&mut client, msg(MsgKind::Request, 1, b"one"), 100u32);
    register_outbound(&mut client, msg(MsgKind::Request, 2, b"two"), 200u32);
    let mut bytes = frame(MsgKind::Response, 2, b"answer-2");
    bytes.extend(frame(MsgKind::Response, 1, b"answer-1"));
    let mut pump = ReadPump::new();
    let step = pump.on_read(&bytes, true);
    let mut got = Vec::new();
    for m in step.messages {
        match route_inbound(&mut client, m) {
            Inbound::Fulfil(c, m) => got.push((c, m.payload)),
            _ => panic!("both responses are expected"),
        }
    }
    assert_eq!(got, vec![(200, b"answer-2".to_vec()), (100, b"answer-1".to_vec())]);
    assert_eq!(client.len(), 0);
}

#[test]
fn response_fulfilled_at_most_once() {
    let mut t = RespondTrack::new();
    assert!(t.register(4, 'a').is_none());
    assert!(matches!(t.respond(msg(MsgKind::Response, 4, b"x")), Ok(('a', _))));
    let again = t.respond(msg(MsgKind::Response, 4, b"y"));
    match again {
        Err(m) => assert_eq!(m.payload, b"y".to_vec()),
        Ok(_) => panic!("a second response finds nothing"),
    }
}

#[test]
fn unmatched_response_is_dropped() {
    let mut t: RespondTrack<u8> = RespondTrack::new();
    t.register(1, 1);
    match route_inbound(&mut t, msg(MsgKind::Response, 2, b"late")) {
        Inbound::Unmatched(m) => assert_eq!(m.msg_id, 2),
        _ => panic!("nothing waits for id 2"),
    }
    assert!(t.is_pending(1));
}

#[test]
fn register_same_id_hands_back_old_completion() {
    let mut t = RespondTrack::new();
    t.register(3, "old");
    assert_eq!(t.register(3, "new"), Some("old"));
    assert_eq!(t.len(), 1);
}

#[test]
fn listener_goes_on_after_failed_accept() {
    assert!(listener_continues(false, true));
    assert!(listener_continues(true, true));
    assert!(!listener_continues(true, false));
}

#[test]
fn kill_switch_drop_stops_every_clone() {
    let a = KillSwitch::new();
    let b = a.clone();
    let c = b.clone();
    assert!(a.cont() && b.cont() && c.cont());
    drop(b);
    assert!(!a.cont());
    assert!(!c.cont());
    assert!(KillSwitch::default().cont());
}

#[test]
fn write_pump_ends_on_failed_write() {
    assert!(write_pump_continues(true, true));
    assert!(!write_pump_continues(false, true));
    assert!(!write_pump_continues(true, false));
}

#[test]
fn read_pump_hands_up_every_frame_of_a_read() {
    let frames = vec![
        frame(MsgKind::Request, 1, b"a"),
        frame(MsgKind::Response, 2, b"bb"),
        frame(MsgKind::Request, 3, b""),
    ];
    let mut bytes = frames.concat();
    let next = frame(MsgKind::Response, 4, b"tail");
    bytes.extend_from_slice(&next[..6]);
    let mut p = ReadPump::new();
    let step = p.on_read(&bytes, false);
    let ids: Vec<u64> = step.messages.iter().map(|m| m.msg_id).collect();
    assert_eq!(ids, vec![1, 2, 3]);
    assert_eq!(step.outcome, PumpOutcome::Stopped);
}

#[test]
fn read_pump_messages_do_not_depend_on_chunking() {
    let all: Vec<u8> = vec![
        frame(MsgKind::Request, 10, b"x"),
        frame(MsgKind::Response, 11, &[1u8; 40]),
        frame(MsgKind::Request, 12, b"zz"),
    ]
    .concat();
    let mut runs = Vec::new();
    for size in [1usize, 3, 16, 23, all.len()] {
        let mut p = ReadPump::new();
        let mut got = Vec::new();
        for chunk in all.chunks(size) {
            let step = p.on_read(chunk, true);
            assert_eq!(step.outcome, PumpOutcome::Continue);
            for m in step.messages {
                got.push((m.kind, m.msg_id, m.payload));
            }
        }
        runs.push(got);
    }
    assert_eq!(runs[0].len(), 3);
    for r in &runs {
        assert_eq!(r, &runs[0]);
    }
}
