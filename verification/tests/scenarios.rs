use momento_ws::actor::{ConnectionActor, Effect, Event};
use momento_ws::cache_request;
use momento_ws::cache_response;
use momento_ws::codec::{decode_request, encode_response};
use momento_ws::commands::{
    build_get_request, build_set_request, classify_get_response, classify_set_response,
    GetOutcome, SetOutcome,
};
use momento_ws::error::Error;
use momento_ws::get_response;
use momento_ws::intake::{IntakePoll, IntakeQueue, Submission};
use momento_ws::socket_request;
use momento_ws::socket_response;
use momento_ws::socket_response::CacheResponse;
use momento_ws::websocket::{GetResponse, SetResponse, SocketResponse};

/// A model cache standing in for the remote peer: it decodes the frame
/// the actor wrote, applies the operation, and answers under the same
/// correlation id.
fn peer_answer(cache: &mut Vec<(Vec<u8>, Vec<u8>)>, frame: &Vec<u8>) -> Vec<u8> {
    let req = decode_request(frame).expect("the actor writes well-formed frames");
    let kind = match req.kind {
        Some(socket_request::Kind::Cache(c)) => c.kind,
        None => None,
    };
    let resp_kind = match kind.expect("the actor forwards a cache operation") {
        cache_request::Kind::Get(g) => {
            let mut found = None;
            for (k, v) in cache.iter() {
                if *k == g.cache_key {
                    found = Some(v.clone());
                }
            }
            let gk = match found {
                Some(v) => get_response::Kind::Hit(v),
                None => get_response::Kind::Miss(true),
            };
            cache_response::Kind::Get(GetResponse { kind: Some(gk) })
        }
        cache_request::Kind::SetOp(s) => {
            cache.retain(|(k, _)| *k != s.cache_key);
            cache.push((s.cache_key, s.cache_body));
            cache_response::Kind::SetOp(SetResponse {})
        }
    };
    let resp = SocketResponse {
        request_id: req.request_id,
        kind: Some(socket_response::Kind::Cache(CacheResponse { kind: Some(resp_kind) })),
    };
    encode_response(&resp)
}

/// Drain the intake queue while the transport is write-ready, as the
/// actor's second phase does, collecting the frames it sends.
fn accept_all(actor: &mut ConnectionActor, intake: &mut IntakeQueue) -> Vec<Vec<u8>> {
    let mut frames = Vec::new();
    loop {
        match intake.poll_next() {
            IntakePoll::Item(s) => match actor.step(Event::Accept(s)) {
                Effect::Send { frame } => frames.push(frame),
                _ => panic!("accepting a submission must yield a frame"),
            },
            _ => break,
        }
    }
    frames
}

fn deliver(actor: &mut ConnectionActor, frame: Vec<u8>) -> (u64, SocketResponse) {
    match actor.step(Event::Frame(frame)) {
        Effect::Deliver { token, response } => (token, response),
        _ => panic!("a matched reply must be delivered"),
    }
}

#[test]
fn scenario_a_set_then_get_round_trip() {
    let mut actor = ConnectionActor::new();
    let mut intake = IntakeQueue::new(16);
    let mut cache: Vec<(Vec<u8>, Vec<u8>)> = Vec::new();

    let set = build_set_request(b"a".to_vec(), vec![1, 2, 3], 60000);
    let get = build_get_request(b"a".to_vec());
    assert!(intake.try_submit(Submission { request: set, token: 1 }).is_ok());
    assert!(intake.try_submit(Submission { request: get, token: 2 }).is_ok());

    let frames = accept_all(&mut actor, &mut intake);
    assert_eq!(frames.len(), 2);

    let set_reply = peer_answer(&mut cache, &frames[0]);
    let get_reply = peer_answer(&mut cache, &frames[1]);

    let (t1, r1) = deliver(&mut actor, set_reply);
    assert_eq!(t1, 1);
    assert_eq!(classify_set_response(&r1), SetOutcome::Stored);

    let (t2, r2) = deliver(&mut actor, get_reply);
    assert_eq!(t2, 2);
    assert_eq!(classify_get_response(r2), GetOutcome::Hit(vec![1, 2, 3]));
    assert_eq!(actor.pending_count(), 0);
}

#[test]
fn scenario_b_get_on_empty_cache_resolves_miss() {
    let mut actor = ConnectionActor::new();
    let mut intake = IntakeQueue::new(16);
    let mut cache: Vec<(Vec<u8>, Vec<u8>)> = Vec::new();

    let get = build_get_request(b"missing".to_vec());
    assert!(intake.try_submit(Submission { request: get, token: 7 }).is_ok());
    let frames = accept_all(&mut actor, &mut intake);
    let reply = peer_answer(&mut cache, &frames[0]);
    let (t, r) = deliver(&mut actor, reply);
    assert_eq!(t, 7);
    assert_eq!(classify_get_response(r), GetOutcome::Miss);
}

#[test]
fn scenario_c_transport_failure_broadcasts_to_all_pending() {
    let mut actor = ConnectionActor::new();
    let mut intake = IntakeQueue::new(16);

    for token in 1..=3u64 {
        let get = build_get_request(b"k".to_vec());
        assert!(intake.try_submit(Submission { request: get, token }).is_ok());
    }
    let frames = accept_all(&mut actor, &mut intake);
    assert_eq!(frames.len(), 3);
    assert_eq!(actor.pending_count(), 3);

    match actor.step(Event::ReadFailed) {
        Effect::Fail { tokens, error } => {
            assert_eq!(error, Error::Socket);
            assert_eq!(tokens, vec![1, 2, 3]);
        }
        _ => panic!("read failure must broadcast"),
    }
    assert!(actor.terminated());
    assert_eq!(actor.pending_count(), 0);

    // The event loop drops the receiving end on its way out: a command
    // submitted afterward is not accepted.
    intake.close_receiver();
    let late = build_get_request(b"late".to_vec());
    assert_eq!(intake.try_submit(Submission { request: late, token: 4 }), Err(Error::Closed));
}

#[test]
fn scenario_d_saturated_intake_returns_full_synchronously() {
    let mut actor = ConnectionActor::new();
    let mut intake = IntakeQueue::new(2);

    for token in 1..=2u64 {
        let get = build_get_request(b"k".to_vec());
        assert!(intake.try_submit(Submission { request: get, token }).is_ok());
    }
    let excess = build_get_request(b"k".to_vec());
    assert_eq!(intake.try_submit(Submission { request: excess, token: 3 }), Err(Error::Full));
    // Nothing moved: the queue still holds exactly the two accepted
    // submissions and the actor saw none of this.
    assert_eq!(intake.len(), 2);
    assert_eq!(actor.issued_count(), 0);
    assert_eq!(actor.pending_count(), 0);
}

#[test]
fn scenario_e_abandoned_receiver_is_harmless() {
    let mut actor = ConnectionActor::new();
    let mut intake = IntakeQueue::new(16);
    let mut cache: Vec<(Vec<u8>, Vec<u8>)> = Vec::new();
    cache.push((b"a".to_vec(), vec![5]));

    let get = build_get_request(b"a".to_vec());
    assert!(intake.try_submit(Submission { request: get, token: 1 }).is_ok());
    let frames = accept_all(&mut actor, &mut intake);
    let reply = peer_answer(&mut cache, &frames[0]);
    // The caller abandoned its reply channel: the delivery is simply
    // discarded, and the actor is unaffected.
    let (abandoned, _discarded) = deliver(&mut actor, reply);
    assert_eq!(abandoned, 1);
    assert!(!actor.terminated());

    // An unrelated command submitted afterwards still completes.
    let get2 = build_get_request(b"a".to_vec());
    assert!(intake.try_submit(Submission { request: get2, token: 2 }).is_ok());
    let frames2 = accept_all(&mut actor, &mut intake);
    let reply2 = peer_answer(&mut cache, &frames2[0]);
    let (t, r) = deliver(&mut actor, reply2);
    assert_eq!(t, 2);
    assert_eq!(classify_get_response(r), GetOutcome::Hit(vec![5]));
}

#[test]
fn correlation_ids_increase_in_submission_order() {
    let mut actor = ConnectionActor::new();
    let mut intake = IntakeQueue::new(16);
    for token in 10..13u64 {
        let get = build_get_request(b"k".to_vec());
        assert!(intake.try_submit(Submission { request: get, token }).is_ok());
    }
    let frames = accept_all(&mut actor, &mut intake);
    let mut expected: u64 = 0;
    for frame in &frames {
        let req = decode_request(frame).expect("well-formed frame");
        assert_eq!(req.request_id, expected);
        expected += 1;
    }
    assert_eq!(actor.issued_count(), 3);
}

#[test]
fn out_of_order_replies_resolve_the_right_callers() {
    let mut actor = ConnectionActor::new();
    let mut intake = IntakeQueue::new(16);
    let mut cache: Vec<(Vec<u8>, Vec<u8>)> = Vec::new();
    cache.push((b"x".to_vec(), vec![1]));

    for token in [100u64, 200, 300] {
        let get = build_get_request(b"x".to_vec());
        assert!(intake.try_submit(Submission { request: get, token }).is_ok());
    }
    let frames = accept_all(&mut actor, &mut intake);
    // The peer answers newest-first; correlation ids still route each
    // reply to the caller that asked.
    let replies: Vec<Vec<u8>> =
        frames.iter().rev().map(|f| peer_answer(&mut cache, f)).collect();
    let mut tokens = Vec::new();
    for reply in replies {
        let (t, _r) = deliver(&mut actor, reply);
        tokens.push(t);
    }
    assert_eq!(tokens, vec![300, 200, 100]);
}

#[test]
fn duplicate_reply_is_ignored() {
    let mut actor = ConnectionActor::new();
    let mut intake = IntakeQueue::new(16);
    let mut cache: Vec<(Vec<u8>, Vec<u8>)> = Vec::new();

    let set = build_set_request(b"a".to_vec(), vec![1], 60000);
    assert!(intake.try_submit(Submission { request: set, token: 1 }).is_ok());
    let frames = accept_all(&mut actor, &mut intake);
    let reply = peer_answer(&mut cache, &frames[0]);
    let (t, _r) = deliver(&mut actor, reply.clone());
    assert_eq!(t, 1);
    // The same correlation id arrives a second time: discarded, not
    // delivered twice and not fatal.
    match actor.step(Event::Frame(reply)) {
        Effect::Ignore => {}
        _ => panic!("a duplicate reply must be ignored"),
    }
    assert!(!actor.terminated());
}

#[test]
fn unmatched_reply_is_discarded_not_fatal() {
    let mut actor = ConnectionActor::new();
    let stray = SocketResponse { request_id: 42, kind: None };
    let bytes = encode_response(&stray);
    match actor.step(Event::Frame(bytes)) {
        Effect::Ignore => {}
        _ => panic!("an unmatched reply must be ignored"),
    }
    assert!(!actor.terminated());
}

#[test]
fn corrupt_frame_fails_all_pending_with_decode_error() {
    let mut actor = ConnectionActor::new();
    let mut intake = IntakeQueue::new(16);
    let get = build_get_request(b"k".to_vec());
    assert!(intake.try_submit(Submission { request: get, token: 1 }).is_ok());
    accept_all(&mut actor, &mut intake);

    match actor.step(Event::Frame(vec![0xff, 0x00, 0x01])) {
        Effect::Fail { tokens, error } => {
            assert_eq!(error, Error::Decode);
            assert_eq!(tokens, vec![1]);
        }
        _ => panic!("protocol corruption must broadcast"),
    }
    assert!(actor.terminated());
}

#[test]
fn write_failure_fails_all_pending() {
    let mut actor = ConnectionActor::new();
    let mut intake = IntakeQueue::new(16);
    let get = build_get_request(b"k".to_vec());
    assert!(intake.try_submit(Submission { request: get, token: 9 }).is_ok());
    accept_all(&mut actor, &mut intake);

    match actor.step(Event::WriteFailed) {
        Effect::Fail { tokens, error } => {
            assert_eq!(error, Error::Socket);
            assert_eq!(tokens, vec![9]);
        }
        _ => panic!("a write failure must broadcast"),
    }
    assert!(actor.terminated());
}

#[test]
fn intake_closed_stops_gracefully() {
    let mut actor = ConnectionActor::new();
    let mut intake = IntakeQueue::new(16);
    let get = build_get_request(b"k".to_vec());
    assert!(intake.try_submit(Submission { request: get, token: 5 }).is_ok());
    accept_all(&mut actor, &mut intake);

    intake.close_senders();
    match intake.poll_next() {
        IntakePoll::Disconnected => {}
        _ => panic!("an empty queue with no senders reports disconnection"),
    }
    match actor.step(Event::IntakeClosed) {
        Effect::Stop { tokens } => assert_eq!(tokens, vec![5]),
        _ => panic!("losing every handle stops the actor"),
    }
    assert!(actor.terminated());
}

#[test]
fn intake_dequeues_in_submission_order() {
    let mut intake = IntakeQueue::new(16);
    for token in [3u64, 1, 2] {
        let get = build_get_request(b"k".to_vec());
        assert!(intake.try_submit(Submission { request: get, token }).is_ok());
    }
    let mut seen = Vec::new();
    loop {
        match intake.poll_next() {
            IntakePoll::Item(s) => seen.push(s.token),
            IntakePoll::Pending => break,
            IntakePoll::Disconnected => panic!("senders are still alive"),
        }
    }
    assert_eq!(seen, vec![3, 1, 2]);
}
