use rtsp_core::codec::{message_end, parse, serialize};
use rtsp_core::msg::{
    Command, EchoTransport, MalformedKind, ParseOutcome, Response, Status,
};

fn parse_bytes(b: &[u8]) -> ParseOutcome {
    parse(b)
}

#[test]
fn incomplete_until_terminator() {
    let r = parse_bytes(b"SETUP rtsp://x RTSP/1.0\r\nCSeq: 1\r\n");
    assert!(matches!(r, ParseOutcome::Incomplete));
    let r = parse_bytes(b"");
    assert!(matches!(r, ParseOutcome::Incomplete));
}

#[test]
fn setup_request_parses() {
    let r = parse_bytes(
        b"SETUP rtsp://x RTSP/1.0\r\nCSeq: 1\r\nTransport: RTP/AVP;client_port=5000-5001\r\n\r\n",
    );
    match r {
        ParseOutcome::Complete(req) => {
            assert_eq!(req.command, Command::Setup);
            assert_eq!(req.sequence_number, 1);
            assert_eq!(req.target, b"rtsp://x".to_vec());
            let t = req.transport.expect("transport must parse");
            assert_eq!(t.protocol, b"RTP/AVP".to_vec());
            assert_eq!(t.client_rtp, 5000);
            assert_eq!(t.client_rtcp, 5001);
        }
        other => panic!("expected a complete request, got {:?}", other),
    }
}

#[test]
fn missing_sequence_rejected() {
    let r = parse_bytes(
        b"SETUP rtsp://x RTSP/1.0\r\nTransport: RTP/AVP;client_port=5000-5001\r\n\r\n",
    );
    match r {
        ParseOutcome::Malformed(e) => {
            assert_eq!(e.kind, MalformedKind::MissingSequence);
            assert_eq!(e.sequence_number, None);
        }
        other => panic!("expected a rejection, got {:?}", other),
    }
}

#[test]
fn non_numeric_sequence_rejected() {
    let r = parse_bytes(b"PLAY rtsp://x RTSP/1.0\r\nCSeq: abc\r\n\r\n");
    match r {
        ParseOutcome::Malformed(e) => assert_eq!(e.kind, MalformedKind::InvalidSequence),
        other => panic!("expected a rejection, got {:?}", other),
    }
}

#[test]
fn oversized_sequence_rejected() {
    let r = parse_bytes(b"PLAY rtsp://x RTSP/1.0\r\nCSeq: 4294967296\r\n\r\n");
    match r {
        ParseOutcome::Malformed(e) => assert_eq!(e.kind, MalformedKind::InvalidSequence),
        other => panic!("expected a rejection, got {:?}", other),
    }
}

#[test]
fn untrustworthy_request_line_rejected() {
    let r = parse_bytes(b"GARBAGE\r\nCSeq: 1\r\n\r\n");
    match r {
        ParseOutcome::Malformed(e) => assert_eq!(e.kind, MalformedKind::RequestLine),
        other => panic!("expected a rejection, got {:?}", other),
    }
    let r = parse_bytes(b"\r\n\r\n");
    match r {
        ParseOutcome::Malformed(e) => assert_eq!(e.kind, MalformedKind::RequestLine),
        other => panic!("expected a rejection, got {:?}", other),
    }
}

#[test]
fn unrecognized_command_is_other() {
    let r = parse_bytes(b"OPTIONS rtsp://x RTSP/1.0\r\nCSeq: 3\r\n\r\n");
    match r {
        ParseOutcome::Complete(req) => {
            assert_eq!(req.command, Command::Other);
            assert_eq!(req.sequence_number, 3);
            assert!(req.transport.is_none());
        }
        other => panic!("expected a complete request, got {:?}", other),
    }
}

#[test]
fn command_matching_is_case_sensitive() {
    let r = parse_bytes(b"setup rtsp://x RTSP/1.0\r\nCSeq: 4\r\n\r\n");
    match r {
        ParseOutcome::Complete(req) => assert_eq!(req.command, Command::Other),
        other => panic!("expected a complete request, got {:?}", other),
    }
}

#[test]
fn bad_transport_on_setup_rejected() {
    let r = parse_bytes(
        b"SETUP rtsp://x RTSP/1.0\r\nCSeq: 9\r\nTransport: RTP/AVP;client_port=abc-def\r\n\r\n",
    );
    match r {
        ParseOutcome::Malformed(e) => {
            assert_eq!(e.kind, MalformedKind::BadTransport);
            assert_eq!(e.sequence_number, Some(9));
        }
        other => panic!("expected a rejection, got {:?}", other),
    }
    let r = parse_bytes(b"SETUP rtsp://x RTSP/1.0\r\nCSeq: 9\r\nTransport: RTP/AVP\r\n\r\n");
    assert!(matches!(r, ParseOutcome::Malformed(_)));
}

#[test]
fn setup_without_transport_header_is_complete() {
    let r = parse_bytes(b"SETUP rtsp://x RTSP/1.0\r\nCSeq: 5\r\n\r\n");
    match r {
        ParseOutcome::Complete(req) => {
            assert_eq!(req.command, Command::Setup);
            assert!(req.transport.is_none());
        }
        other => panic!("expected a complete request, got {:?}", other),
    }
}

#[test]
fn bad_transport_ignored_on_other_commands() {
    let r = parse_bytes(
        b"PLAY rtsp://x RTSP/1.0\r\nCSeq: 2\r\nTransport: RTP/AVP;client_port=abc-def\r\n\r\n",
    );
    match r {
        ParseOutcome::Complete(req) => {
            assert_eq!(req.command, Command::Play);
            assert!(req.transport.is_none());
        }
        other => panic!("expected a complete request, got {:?}", other),
    }
}

#[test]
fn header_names_are_case_insensitive() {
    let r = parse_bytes(b"PLAY rtsp://x RTSP/1.0\r\ncseq:  7 \r\n\r\n");
    match r {
        ParseOutcome::Complete(req) => assert_eq!(req.sequence_number, 7),
        other => panic!("expected a complete request, got {:?}", other),
    }
    let r = parse_bytes(b"PLAY rtsp://x RTSP/1.0\r\nCSEQ: 8\r\n\r\n");
    match r {
        ParseOutcome::Complete(req) => assert_eq!(req.sequence_number, 8),
        other => panic!("expected a complete request, got {:?}", other),
    }
}

#[test]
fn serialize_success_with_session_and_transport() {
    let resp = Response {
        status: Status::Success,
        sequence_number: 1,
        session_id: Some(1),
        transport: Some(EchoTransport {
            protocol: b"RTP/AVP".to_vec(),
            client_rtp: 5000,
            client_rtcp: 5001,
            server_rtp: 6000,
            server_rtcp: 6001,
        }),
    };
    let bytes = serialize(&resp);
    let expected: &[u8] = b"RTSP/1.0 200 OK\r\nCSeq: 1\r\nSession: 1\r\nTransport: RTP/AVP;client_port=5000-5001;server_port=6000-6001\r\n\r\n";
    assert_eq!(bytes, expected.to_vec());
}

#[test]
fn serialize_plain_statuses() {
    let mk = |status, n| Response {
        status,
        sequence_number: n,
        session_id: None,
        transport: None,
    };
    assert_eq!(
        serialize(&mk(Status::Success, 2)),
        b"RTSP/1.0 200 OK\r\nCSeq: 2\r\n\r\n".to_vec(),
    );
    assert_eq!(
        serialize(&mk(Status::BadRequest, 0)),
        b"RTSP/1.0 400 Bad Request\r\nCSeq: 0\r\n\r\n".to_vec(),
    );
    assert_eq!(
        serialize(&mk(Status::SessionNotFound, 7)),
        b"RTSP/1.0 454 Session Not Found\r\nCSeq: 7\r\n\r\n".to_vec(),
    );
    assert_eq!(
        serialize(&mk(Status::InternalError, 123)),
        b"RTSP/1.0 500 Internal Server Error\r\nCSeq: 123\r\n\r\n".to_vec(),
    );
}

#[test]
fn parse_reads_only_the_first_message() {
    let r = parse_bytes(
        b"PLAY rtsp://x RTSP/1.0\r\nCSeq: 2\r\n\r\nTEARDOWN rtsp://x RTSP/1.0\r\nCSeq: 3\r\n\r\n",
    );
    match r {
        ParseOutcome::Complete(req) => {
            assert_eq!(req.command, Command::Play);
            assert_eq!(req.sequence_number, 2);
        }
        other => panic!("expected a complete request, got {:?}", other),
    }
}

#[test]
fn message_end_frames_the_buffer() {
    let mut buf: Vec<u8> = Vec::new();
    let wire = b"PLAY rtsp://x RTSP/1.0\r\nCSeq: 2\r\n\r\nOPTIONS rtsp://x RTSP/1.0\r\nCSeq: 3\r\n\r\n";
    assert_eq!(message_end(&buf), None);
    for chunk in wire.chunks(7) {
        buf.extend_from_slice(chunk);
    }
    let end = message_end(&buf).expect("first message is complete");
    assert_eq!(end, 35);
    match parse(&buf[..end]) {
        ParseOutcome::Complete(req) => assert_eq!(req.sequence_number, 2),
        other => panic!("expected a complete request, got {:?}", other),
    }
    buf.drain(..end);
    let end = message_end(&buf).expect("second message is complete");
    assert_eq!(end, buf.len());
    match parse(&buf[..end]) {
        ParseOutcome::Complete(req) => assert_eq!(req.sequence_number, 3),
        other => panic!("expected a complete request, got {:?}", other),
    }
}

#[test]
fn transport_rejection_echoes_the_sequence() {
    let r = parse_bytes(
        b"SETUP rtsp://x RTSP/1.0\r\nCSeq: 41\r\nTransport: RTP/AVP;client_port=70000-70001\r\n\r\n",
    );
    match r {
        ParseOutcome::Malformed(e) => {
            assert_eq!(e.kind, MalformedKind::BadTransport);
            assert_eq!(e.sequence_number, Some(41));
        }
        other => panic!("expected a rejection, got {:?}", other),
    }
}
