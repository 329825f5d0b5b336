use rtsp_core::codec::{parse, serialize};
use rtsp_core::msg::{ParseOutcome, Request, Status};
use rtsp_core::ports::{PortAllocator, SessionIdGen};
use rtsp_core::session::{
    handle_message, run_requests, step, on_disconnect, ConnState, Stage, StepAction,
};

fn decode(b: &[u8]) -> Request {
    match parse(b) {
        ParseOutcome::Complete(req) => req,
        other => panic!("expected a complete request, got {:?}", other),
    }
}

#[test]
fn setup_then_play_scenario() {
    let mut alloc = PortAllocator::new(6000, 8);
    let mut ids = SessionIdGen::new();
    let mut conn = ConnState::new();

    let req = decode(
        b"SETUP rtsp://x RTSP/1.0\r\nCSeq: 1\r\nTransport: RTP/AVP;client_port=5000-5001\r\n\r\n",
    );
    let (resp, act) = step(&mut conn, &req, &mut alloc, &mut ids);
    assert_eq!(act, StepAction::Continue);
    assert_eq!(conn.stage, Stage::Ready);
    let expected: &[u8] = b"RTSP/1.0 200 OK\r\nCSeq: 1\r\nSession: 1\r\nTransport: RTP/AVP;client_port=5000-5001;server_port=6000-6001\r\n\r\n";
    assert_eq!(serialize(&resp), expected.to_vec());

    let req = decode(b"PLAY rtsp://x RTSP/1.0\r\nCSeq: 2\r\nSession: 1\r\n\r\n");
    let (resp, act) = step(&mut conn, &req, &mut alloc, &mut ids);
    assert_eq!(conn.stage, Stage::Playing);
    match act {
        StepAction::Attach(s) => {
            assert_eq!(s.id, 1);
            assert_eq!((s.client_rtp, s.client_rtcp), (5000, 5001));
            assert_eq!((s.server_rtp, s.server_rtcp), (6000, 6001));
        }
        other => panic!("expected an attach, got {:?}", other),
    }
    assert_eq!(serialize(&resp), b"RTSP/1.0 200 OK\r\nCSeq: 2\r\n\r\n".to_vec());
}

#[test]
fn repeated_play_attaches_only_once() {
    let mut alloc = PortAllocator::new(6000, 8);
    let mut ids = SessionIdGen::new();
    let mut conn = ConnState::new();
    let setup = decode(
        b"SETUP rtsp://x RTSP/1.0\r\nCSeq: 1\r\nTransport: RTP/AVP;client_port=5000-5001\r\n\r\n",
    );
    let play1 = decode(b"PLAY rtsp://x RTSP/1.0\r\nCSeq: 2\r\n\r\n");
    let play2 = decode(b"PLAY rtsp://x RTSP/1.0\r\nCSeq: 3\r\n\r\n");
    let mut attach_count = 0;
    for req in [&setup, &play1, &play2] {
        let (resp, act) = step(&mut conn, req, &mut alloc, &mut ids);
        assert_eq!(resp.status, Status::Success);
        if let StepAction::Attach(_) = act {
            attach_count += 1;
        }
    }
    assert_eq!(attach_count, 1);
    assert_eq!(conn.stage, Stage::Playing);
}

#[test]
fn play_before_setup_is_session_not_found() {
    let mut alloc = PortAllocator::new(6000, 8);
    let mut ids = SessionIdGen::new();
    let mut conn = ConnState::new();
    let req = decode(b"PLAY rtsp://x RTSP/1.0\r\nCSeq: 1\r\n\r\n");
    let (resp, act) = step(&mut conn, &req, &mut alloc, &mut ids);
    assert_eq!(resp.status, Status::SessionNotFound);
    assert!(!matches!(act, StepAction::Attach(_)));
    assert_eq!(conn.stage, Stage::Init);
    assert_eq!(
        serialize(&resp),
        b"RTSP/1.0 454 Session Not Found\r\nCSeq: 1\r\n\r\n".to_vec(),
    );
}

#[test]
fn duplicate_setup_is_refused() {
    let mut alloc = PortAllocator::new(6000, 8);
    let mut ids = SessionIdGen::new();
    let mut conn = ConnState::new();
    let setup = decode(
        b"SETUP rtsp://x RTSP/1.0\r\nCSeq: 1\r\nTransport: RTP/AVP;client_port=5000-5001\r\n\r\n",
    );
    let (resp, _) = step(&mut conn, &setup, &mut alloc, &mut ids);
    assert_eq!(resp.status, Status::Success);
    let setup2 = decode(
        b"SETUP rtsp://x RTSP/1.0\r\nCSeq: 2\r\nTransport: RTP/AVP;client_port=5002-5003\r\n\r\n",
    );
    let (resp, act) = step(&mut conn, &setup2, &mut alloc, &mut ids);
    assert_eq!(resp.status, Status::BadRequest);
    assert_eq!(act, StepAction::Continue);
    assert_eq!(conn.stage, Stage::Ready);
}

#[test]
fn setup_without_transport_is_bad_request() {
    let mut alloc = PortAllocator::new(6000, 8);
    let mut ids = SessionIdGen::new();
    let mut conn = ConnState::new();
    let req = decode(b"SETUP rtsp://x RTSP/1.0\r\nCSeq: 1\r\n\r\n");
    let (resp, _) = step(&mut conn, &req, &mut alloc, &mut ids);
    assert_eq!(resp.status, Status::BadRequest);
    assert_eq!(conn.stage, Stage::Init);
}

#[test]
fn setup_on_exhausted_pool_is_internal_error() {
    let mut alloc = PortAllocator::new(6000, 0);
    let mut ids = SessionIdGen::new();
    let mut conn = ConnState::new();
    let req = decode(
        b"SETUP rtsp://x RTSP/1.0\r\nCSeq: 1\r\nTransport: RTP/AVP;client_port=5000-5001\r\n\r\n",
    );
    let (resp, _) = step(&mut conn, &req, &mut alloc, &mut ids);
    assert_eq!(resp.status, Status::InternalError);
    assert_eq!(conn.stage, Stage::Init);
    assert_eq!(
        serialize(&resp),
        b"RTSP/1.0 500 Internal Server Error\r\nCSeq: 1\r\n\r\n".to_vec(),
    );
}

#[test]
fn teardown_frees_ports_for_another_connection() {
    let mut alloc = PortAllocator::new(6000, 1);
    let mut ids = SessionIdGen::new();

    let mut conn1 = ConnState::new();
    let setup = decode(
        b"SETUP rtsp://x RTSP/1.0\r\nCSeq: 1\r\nTransport: RTP/AVP;client_port=5000-5001\r\n\r\n",
    );
    let (resp, _) = step(&mut conn1, &setup, &mut alloc, &mut ids);
    assert_eq!(resp.status, Status::Success);
    let teardown = decode(b"TEARDOWN rtsp://x RTSP/1.0\r\nCSeq: 2\r\n\r\n");
    let (resp, act) = step(&mut conn1, &teardown, &mut alloc, &mut ids);
    assert_eq!(resp.status, Status::Success);
    assert_eq!(act, StepAction::CloseAfterResponse);
    assert_eq!(conn1.stage, Stage::Closed);

    let mut conn2 = ConnState::new();
    let setup2 = decode(
        b"SETUP rtsp://y RTSP/1.0\r\nCSeq: 1\r\nTransport: RTP/AVP;client_port=5002-5003\r\n\r\n",
    );
    let (resp, _) = step(&mut conn2, &setup2, &mut alloc, &mut ids);
    assert_eq!(resp.status, Status::Success);
    let s = conn2.session.expect("second connection must negotiate");
    assert_eq!((s.server_rtp, s.server_rtcp), (6000, 6001));
    assert_ne!(s.id, 1);
}

#[test]
fn disconnect_frees_ports() {
    let mut alloc = PortAllocator::new(6000, 1);
    let mut ids = SessionIdGen::new();
    let mut conn = ConnState::new();
    let setup = decode(
        b"SETUP rtsp://x RTSP/1.0\r\nCSeq: 1\r\nTransport: RTP/AVP;client_port=5000-5001\r\n\r\n",
    );
    let (resp, _) = step(&mut conn, &setup, &mut alloc, &mut ids);
    assert_eq!(resp.status, Status::Success);
    on_disconnect(&mut conn, &mut alloc);
    assert_eq!(conn.stage, Stage::Closed);
    assert!(alloc.allocate().is_some());
}

#[test]
fn other_commands_are_acknowledged() {
    let mut alloc = PortAllocator::new(6000, 8);
    let mut ids = SessionIdGen::new();
    let mut conn = ConnState::new();
    let req = decode(b"OPTIONS rtsp://x RTSP/1.0\r\nCSeq: 1\r\n\r\n");
    let (resp, act) = step(&mut conn, &req, &mut alloc, &mut ids);
    assert_eq!(resp.status, Status::Success);
    assert_eq!(act, StepAction::Continue);
    assert_eq!(conn.stage, Stage::Init);
}

#[test]
fn malformed_message_answered_without_advancing() {
    let mut alloc = PortAllocator::new(6000, 8);
    let mut ids = SessionIdGen::new();
    let mut conn = ConnState::new();
    let outcome = parse(b"PLAY rtsp://x RTSP/1.0\r\nCSeq: nope\r\n\r\n");
    let (resp, act) = handle_message(&mut conn, &outcome, &mut alloc, &mut ids);
    let resp = resp.expect("a rejection with a readable boundary is answered");
    assert_eq!(resp.status, Status::BadRequest);
    assert_eq!(act, StepAction::Continue);
    assert_eq!(conn.stage, Stage::Init);
}

#[test]
fn untrustworthy_message_closes_without_response() {
    let mut alloc = PortAllocator::new(6000, 8);
    let mut ids = SessionIdGen::new();
    let mut conn = ConnState::new();
    let outcome = parse(b"GARBAGE\r\n\r\n");
    let (resp, act) = handle_message(&mut conn, &outcome, &mut alloc, &mut ids);
    assert!(resp.is_none());
    assert_eq!(act, StepAction::CloseNoResponse);
    assert_eq!(conn.stage, Stage::Closed);
}

#[test]
fn incomplete_input_asks_for_more() {
    let mut alloc = PortAllocator::new(6000, 8);
    let mut ids = SessionIdGen::new();
    let mut conn = ConnState::new();
    let outcome = parse(b"PLAY rtsp://x RTSP");
    let (resp, act) = handle_message(&mut conn, &outcome, &mut alloc, &mut ids);
    assert!(resp.is_none());
    assert_eq!(act, StepAction::Continue);
    assert_eq!(conn.stage, Stage::Init);
}

#[test]
fn responses_come_back_in_request_order() {
    let mut alloc = PortAllocator::new(6000, 8);
    let mut ids = SessionIdGen::new();
    let mut conn = ConnState::new();
    let reqs = vec![
        decode(
            b"SETUP rtsp://x RTSP/1.0\r\nCSeq: 10\r\nTransport: RTP/AVP;client_port=5000-5001\r\n\r\n",
        ),
        decode(b"PLAY rtsp://x RTSP/1.0\r\nCSeq: 11\r\n\r\n"),
        decode(b"OPTIONS rtsp://x RTSP/1.0\r\nCSeq: 12\r\n\r\n"),
    ];
    let resps = run_requests(&mut conn, &reqs, &mut alloc, &mut ids);
    assert_eq!(resps.len(), 3);
    assert_eq!(resps[0].sequence_number, 10);
    assert_eq!(resps[1].sequence_number, 11);
    assert_eq!(resps[2].sequence_number, 12);
    assert_eq!(conn.stage, Stage::Playing);
}

#[test]
fn run_stops_after_teardown() {
    let mut alloc = PortAllocator::new(6000, 8);
    let mut ids = SessionIdGen::new();
    let mut conn = ConnState::new();
    let reqs = vec![
        decode(b"TEARDOWN rtsp://x RTSP/1.0\r\nCSeq: 1\r\n\r\n"),
        decode(b"PLAY rtsp://x RTSP/1.0\r\nCSeq: 2\r\n\r\n"),
    ];
    let resps = run_requests(&mut conn, &reqs, &mut alloc, &mut ids);
    assert_eq!(resps.len(), 1);
    assert_eq!(resps[0].sequence_number, 1);
    assert_eq!(conn.stage, Stage::Closed);
}

#[test]
fn concurrent_connections_get_disjoint_ports() {
    let mut alloc = PortAllocator::new(6000, 8);
    let mut ids = SessionIdGen::new();
    let mut sessions = Vec::new();
    for _ in 0..4 {
        let mut conn = ConnState::new();
        let setup = decode(
            b"SETUP rtsp://x RTSP/1.0\r\nCSeq: 1\r\nTransport: RTP/AVP;client_port=5000-5001\r\n\r\n",
        );
        let (resp, _) = step(&mut conn, &setup, &mut alloc, &mut ids);
        assert_eq!(resp.status, Status::Success);
        sessions.push(conn.session.expect("each connection negotiates"));
    }
    for i in 0..sessions.len() {
        for j in 0..sessions.len() {
            if i != j {
                let a = &sessions[i];
                let b = &sessions[j];
                assert_ne!(a.id, b.id);
                for x in [a.server_rtp, a.server_rtcp] {
                    for y in [b.server_rtp, b.server_rtcp] {
                        assert_ne!(x, y);
                    }
                }
            }
        }
    }
}
