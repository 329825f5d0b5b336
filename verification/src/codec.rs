//! The message codec: parses the bytes received so far into a decoded
//! request (or a rejection, or "keep reading"), and serializes a response
//! into wire bytes. Both directions are proved equal to spec-level
//! definitions over byte sequences, so parsing and serialization are
//! deterministic functions of their input.

use vstd::prelude::*;

use crate::bytes::{
    all_digits, bytes_eq, dec_of, dec_val, find_byte, find_byte_exec, find_term,
    find_term_exec, lemma_find_byte, lemma_find_term, lemma_split_byte_min_len,
    lemma_split_crlf_min_len, line_views, parse_dec, push_bytes, render_dec, split_byte,
    split_byte_exec, split_crlf, split_crlf_exec, starts_with, starts_with_exec, to_lower,
    term_at, to_lower_exec, trim_exec, trimmed, COLON, CR, DASH, LF, SEMI, SP,
};
use crate::msg::{
    Command, EchoTransportV, MalformedError, MalformedKind, ParseOutcome, ParseOutcomeV,
    Request, RequestV, Response, ResponseV, Status, Transport, TransportV,
};

verus! {

/// The `SETUP` method token.
pub open spec fn tok_setup() -> Seq<u8> {
    // "SETUP"
    seq![83u8, 69u8, 84u8, 85u8, 80u8]
}

fn tok_setup_exec() -> (r: Vec<u8>)
    ensures
        r@ == tok_setup(),
{
    let mut v: Vec<u8> = Vec::new();
    v.push(83);
    v.push(69);
    v.push(84);
    v.push(85);
    v.push(80);
    proof {
        assert(v@ =~= tok_setup());
    }
    v
}

/// The `PLAY` method token.
pub open spec fn tok_play() -> Seq<u8> {
    // "PLAY"
    seq![80u8, 76u8, 65u8, 89u8]
}

fn tok_play_exec() -> (r: Vec<u8>)
    ensures
        r@ == tok_play(),
{
    let mut v: Vec<u8> = Vec::new();
    v.push(80);
    v.push(76);
    v.push(65);
    v.push(89);
    proof {
        assert(v@ =~= tok_play());
    }
    v
}

/// The `TEARDOWN` method token.
pub open spec fn tok_teardown() -> Seq<u8> {
    // "TEARDOWN"
    seq![84u8, 69u8, 65u8, 82u8, 68u8, 79u8, 87u8, 78u8]
}

fn tok_teardown_exec() -> (r: Vec<u8>)
    ensures
        r@ == tok_teardown(),
{
    let mut v: Vec<u8> = Vec::new();
    v.push(84);
    v.push(69);
    v.push(65);
    v.push(82);
    v.push(68);
    v.push(79);
    v.push(87);
    v.push(78);
    proof {
        assert(v@ =~= tok_teardown());
    }
    v
}

/// The sequence header name, case folded.
pub open spec fn key_cseq() -> Seq<u8> {
    // "cseq"
    seq![99u8, 115u8, 101u8, 113u8]
}

fn key_cseq_exec() -> (r: Vec<u8>)
    ensures
        r@ == key_cseq(),
{
    let mut v: Vec<u8> = Vec::new();
    v.push(99);
    v.push(115);
    v.push(101);
    v.push(113);
    proof {
        assert(v@ =~= key_cseq());
    }
    v
}

/// The transport header name, case folded.
pub open spec fn key_transport() -> Seq<u8> {
    // "transport"
    seq![116u8, 114u8, 97u8, 110u8, 115u8, 112u8, 111u8, 114u8, 116u8]
}

fn key_transport_exec() -> (r: Vec<u8>)
    ensures
        r@ == key_transport(),
{
    let mut v: Vec<u8> = Vec::new();
    v.push(116);
    v.push(114);
    v.push(97);
    v.push(110);
    v.push(115);
    v.push(112);
    v.push(111);
    v.push(114);
    v.push(116);
    proof {
        assert(v@ =~= key_transport());
    }
    v
}

/// The client-port sub-field prefix of the transport header.
pub open spec fn key_client_port() -> Seq<u8> {
    // "client_port="
    seq![99u8, 108u8, 105u8, 101u8, 110u8, 116u8, 95u8, 112u8, 111u8, 114u8, 116u8, 61u8]
}

fn key_client_port_exec() -> (r: Vec<u8>)
    ensures
        r@ == key_client_port(),
{
    let mut v: Vec<u8> = Vec::new();
    v.push(99);
    v.push(108);
    v.push(105);
    v.push(101);
    v.push(110);
    v.push(116);
    v.push(95);
    v.push(112);
    v.push(111);
    v.push(114);
    v.push(116);
    v.push(61);
    proof {
        assert(v@ =~= key_client_port());
    }
    v
}
// ---------------------------------------------------------------------------
// Parsing: spec
// ---------------------------------------------------------------------------

/// The command named by a method token. Matching is case sensitive, as
/// the wire protocol requires; an unrecognized token is `Other`, not an
/// error.
pub open spec fn command_of(tok: Seq<u8>) -> Command {
    if tok == tok_setup() {
        Command::Setup
    } else if tok == tok_play() {
        Command::Play
    } else if tok == tok_teardown() {
        Command::Teardown
    } else {
        Command::Other
    }
}

/// The value of the first header line whose name, trimmed and case
/// folded, equals `key`. Header order does not matter beyond first match;
/// a line without a colon names no header.
pub open spec fn header_value(lines: Seq<Seq<u8>>, key: Seq<u8>) -> Option<Seq<u8>>
    decreases lines.len(),
{
    if lines.len() == 0 {
        None
    } else {
        let l = lines[0];
        match find_byte(l, COLON) {
            Some(c) => if to_lower(trimmed(l.take(c))) == key {
                Some(l.skip(c + 1))
            } else {
                header_value(lines.skip(1), key)
            },
            None => header_value(lines.skip(1), key),
        }
    }
}

/// Two dash-separated port numerals, each in range.
pub open spec fn parse_ports(s: Seq<u8>) -> Option<(u16, u16)> {
    let nums = split_byte(s, DASH);
    if nums.len() == 2 {
        let a = trimmed(nums[0]);
        let b = trimmed(nums[1]);
        if a.len() > 0 && all_digits(a) && dec_val(a) < 65536 && b.len() > 0 && all_digits(b)
            && dec_val(b) < 65536 {
            Some(((dec_val(a)) as u16, (dec_val(b)) as u16))
        } else {
            None
        }
    } else {
        None
    }
}

/// The value of the first `client_port=` sub-field among the
/// semicolon-separated parts, if any.
pub open spec fn client_port_arg(parts: Seq<Seq<u8>>) -> Option<Seq<u8>>
    decreases parts.len(),
{
    if parts.len() == 0 {
        None
    } else {
        let p = trimmed(parts[0]);
        if starts_with(p, key_client_port()) {
            Some(p.skip(key_client_port().len() as int))
        } else {
            client_port_arg(parts.skip(1))
        }
    }
}

/// A transport header value: the protocol token, then a `client_port=`
/// sub-field carrying the two client ports.
pub open spec fn parse_transport(v: Seq<u8>) -> Option<TransportV> {
    let parts = split_byte(v, SEMI);
    match client_port_arg(parts.skip(1)) {
        None => None,
        Some(arg) => match parse_ports(arg) {
            None => None,
            Some((rtp, rtcp)) => Some(
                TransportV { protocol: trimmed(parts[0]), client_rtp: rtp, client_rtcp: rtcp },
            ),
        },
    }
}

/// A complete message (the bytes before the blank-line terminator),
/// decoded. The request line must have at least the three-token shape
/// `<method> <target> <version>`; the sequence header must be present and
/// numeric; on `Setup`, a present transport header must parse, while a
/// malformed transport on any other command is ignored.
pub open spec fn parse_message(msg: Seq<u8>) -> ParseOutcomeV {
    let lines = split_crlf(msg);
    let toks = split_byte(lines[0], SP);
    if toks.len() < 3 || toks[0].len() == 0 {
        ParseOutcomeV::Malformed(
            MalformedError { kind: MalformedKind::RequestLine, sequence_number: None },
        )
    } else {
        let cmd = command_of(toks[0]);
        let headers = lines.skip(1);
        match header_value(headers, key_cseq()) {
            None => ParseOutcomeV::Malformed(
                MalformedError { kind: MalformedKind::MissingSequence, sequence_number: None },
            ),
            Some(v0) => {
                let v = trimmed(v0);
                if !(v.len() > 0 && all_digits(v) && dec_val(v) < 0x1_0000_0000) {
                    ParseOutcomeV::Malformed(
                        MalformedError {
                            kind: MalformedKind::InvalidSequence,
                            sequence_number: None,
                        },
                    )
                } else {
                    let seqno = (dec_val(v)) as u32;
                    if cmd == Command::Setup {
                        match header_value(headers, key_transport()) {
                            None => ParseOutcomeV::Complete(
                                RequestV {
                                    command: cmd,
                                    sequence_number: seqno,
                                    transport: None,
                                    target: toks[1],
                                },
                            ),
                            Some(tv) => match parse_transport(tv) {
                                None => ParseOutcomeV::Malformed(
                                    MalformedError {
                                        kind: MalformedKind::BadTransport,
                                        sequence_number: Some(seqno),
                                    },
                                ),
                                Some(tr) => ParseOutcomeV::Complete(
                                    RequestV {
                                        command: cmd,
                                        sequence_number: seqno,
                                        transport: Some(tr),
                                        target: toks[1],
                                    },
                                ),
                            },
                        }
                    } else {
                        ParseOutcomeV::Complete(
                            RequestV {
                                command: cmd,
                                sequence_number: seqno,
                                transport: None,
                                target: toks[1],
                            },
                        )
                    }
                }
            }
        }
    }
}

/// What the codec makes of the bytes received so far: `Incomplete` until
/// a blank-line terminator arrives, then the first message decoded.
pub open spec fn parse_spec(buf: Seq<u8>) -> ParseOutcomeV {
    match find_term(buf) {
        None => ParseOutcomeV::Incomplete,
        Some(t) => parse_message(buf.take(t)),
    }
}

// ---------------------------------------------------------------------------
// Parsing: executable
// ---------------------------------------------------------------------------

fn command_of_exec(tok: &[u8]) -> (r: Command)
    ensures
        r == command_of(tok@),
{
    let s = tok_setup_exec();
    if bytes_eq(tok, s.as_slice()) {
        return Command::Setup;
    }
    let p = tok_play_exec();
    if bytes_eq(tok, p.as_slice()) {
        return Command::Play;
    }
    let t = tok_teardown_exec();
    if bytes_eq(tok, t.as_slice()) {
        return Command::Teardown;
    }
    Command::Other
}

/// Looks `key` up among the header lines `lines[start..]`.
fn header_value_exec(lines: &Vec<Vec<u8>>, start: usize, key: &[u8]) -> (r: Option<Vec<u8>>)
    requires
        start <= lines@.len(),
    ensures
        match r {
            Some(v) => header_value(line_views(lines@).skip(start as int), key@) == Some(v@),
            None => header_value(line_views(lines@).skip(start as int), key@) is None,
        },
{
    let ghost hv = line_views(lines@);
    let mut i: usize = start;
    while i < lines.len()
        invariant
            start <= i <= lines@.len(),
            hv == line_views(lines@),
            hv.len() == lines@.len(),
            header_value(hv.skip(start as int), key@) == header_value(hv.skip(i as int), key@),
        decreases lines@.len() - i,
    {
        let line = &lines[i];
        proof {
            assert(hv.skip(i as int)[0] == hv[i as int]);
            assert(hv.skip(i as int).skip(1) =~= hv.skip(i + 1));
        }
        match find_byte_exec(line.as_slice(), COLON) {
            Some(c) => {
                proof {
                    lemma_find_byte(line@, COLON);
                    assert(find_byte(line@, COLON) == Some(c as int));
                    assert(0 <= c < line@.len());
                }
                let key_part = vstd::slice::slice_subrange(line.as_slice(), 0, c);
                let folded = to_lower_exec(trim_exec(key_part));
                if bytes_eq(folded.as_slice(), key) {
                    let n = line.len();
                    let v = vstd::slice::slice_to_vec(
                        vstd::slice::slice_subrange(line.as_slice(), c + 1, n),
                    );
                    proof {
                        assert(line@.take(c as int) == line@.subrange(0, c as int));
                        assert(header_value(hv.skip(i as int), key@) == Some(
                            line@.skip(c + 1),
                        ));
                    }
                    return Some(v);
                }
            }
            None => {}
        }
        i += 1;
    }
    proof {
        assert(hv.skip(i as int).len() == 0);
    }
    None
}

/// Parses a dash-separated pair of port numerals.
fn parse_ports_exec(s: &[u8]) -> (r: Option<(u16, u16)>)
    ensures
        r == parse_ports(s@),
{
    let nums = split_byte_exec(s, DASH);
    proof {
        assert(line_views(nums@).len() == nums@.len());
    }
    if nums.len() != 2 {
        return None;
    }
    let a = trim_exec(nums[0].as_slice());
    let b = trim_exec(nums[1].as_slice());
    let av = match parse_dec(a) {
        Some(x) => x,
        None => {
            return None;
        }
    };
    let bv = match parse_dec(b) {
        Some(x) => x,
        None => {
            return None;
        }
    };
    if av >= 65536 || bv >= 65536 {
        return None;
    }
    Some((av as u16, bv as u16))
}

/// Parses a transport header value.
fn parse_transport_exec(s: &[u8]) -> (r: Option<Transport>)
    ensures
        match r {
            Some(t) => parse_transport(s@) == Some(t@),
            None => parse_transport(s@) is None,
        },
{
    let parts = split_byte_exec(s, SEMI);
    let ghost pv = line_views(parts@);
    proof {
        lemma_split_byte_min_len(s@, SEMI);
        assert(pv.len() == parts@.len());
    }
    let key = key_client_port_exec();
    let mut i: usize = 1;
    while i < parts.len()
        invariant
            1 <= i <= parts@.len(),
            pv == line_views(parts@),
            pv == split_byte(s@, SEMI),
            pv.len() == parts@.len(),
            pv.len() >= 1,
            key@ == key_client_port(),
            client_port_arg(pv.skip(1)) == client_port_arg(pv.skip(i as int)),
        decreases parts@.len() - i,
    {
        proof {
            assert(pv.skip(i as int)[0] == pv[i as int]);
            assert(pv.skip(i as int).skip(1) =~= pv.skip(i + 1));
        }
        let p = trim_exec(parts[i].as_slice());
        if starts_with_exec(p, key.as_slice()) {
            proof {
                assert(key_client_port().len() == 12);
                assert(p@.skip(12) == p@.subrange(12, p@.len() as int));
            }
            let arg = vstd::slice::slice_subrange(p, 12, p.len());
            proof {
                assert(client_port_arg(pv.skip(1)) == Some(arg@));
            }
            match parse_ports_exec(arg) {
                Some(pp) => {
                    proof {
                        assert(pv[0] == parts@[0]@);
                    }
                    let protocol = vstd::slice::slice_to_vec(trim_exec(parts[0].as_slice()));
                    let t = Transport {
                        protocol,
                        client_rtp: pp.0,
                        client_rtcp: pp.1,
                    };
                    return Some(t);
                }
                None => {
                    return None;
                }
            }
        }
        i += 1;
    }
    proof {
        assert(pv.skip(i as int).len() == 0);
    }
    None
}

/// Decodes one complete message (the bytes before the terminator).
fn parse_message_exec(msg: &[u8]) -> (r: ParseOutcome)
    ensures
        r@ == parse_message(msg@),
{
    let lines = split_crlf_exec(msg);
    proof {
        lemma_split_crlf_min_len(msg@);
        assert(line_views(lines@).len() == lines@.len());
    }
    let toks = split_byte_exec(lines[0].as_slice(), SP);
    proof {
        lemma_split_byte_min_len(lines@[0]@, SP);
        assert(line_views(toks@).len() == toks@.len());
        assert(line_views(toks@)[0] == toks@[0]@);
    }
    if toks.len() < 3 || toks[0].len() == 0 {
        return ParseOutcome::Malformed(
            MalformedError { kind: MalformedKind::RequestLine, sequence_number: None },
        );
    }
    let cmd = command_of_exec(toks[0].as_slice());
    let key_c = key_cseq_exec();
    let cseq_raw = match header_value_exec(&lines, 1, key_c.as_slice()) {
        Some(v) => v,
        None => {
            return ParseOutcome::Malformed(
                MalformedError { kind: MalformedKind::MissingSequence, sequence_number: None },
            );
        }
    };
    let cseq_trimmed = trim_exec(cseq_raw.as_slice());
    let seq64 = match parse_dec(cseq_trimmed) {
        Some(x) => x,
        None => {
            return ParseOutcome::Malformed(
                MalformedError { kind: MalformedKind::InvalidSequence, sequence_number: None },
            );
        }
    };
    if seq64 > 0xFFFF_FFFF {
        return ParseOutcome::Malformed(
            MalformedError { kind: MalformedKind::InvalidSequence, sequence_number: None },
        );
    }
    let seqno = seq64 as u32;
    let target = vstd::slice::slice_to_vec(toks[1].as_slice());
    proof {
        assert(line_views(toks@)[1] == toks@[1]@);
    }
    if cmd == Command::Setup {
        let key_t = key_transport_exec();
        match header_value_exec(&lines, 1, key_t.as_slice()) {
            None => ParseOutcome::Complete(
                Request { command: cmd, sequence_number: seqno, transport: None, target },
            ),
            Some(tv) => match parse_transport_exec(tv.as_slice()) {
                None => ParseOutcome::Malformed(
                    MalformedError {
                        kind: MalformedKind::BadTransport,
                        sequence_number: Some(seqno),
                    },
                ),
                Some(tr) => ParseOutcome::Complete(
                    Request {
                        command: cmd,
                        sequence_number: seqno,
                        transport: Some(tr),
                        target,
                    },
                ),
            },
        }
    } else {
        ParseOutcome::Complete(
            Request { command: cmd, sequence_number: seqno, transport: None, target },
        )
    }
}

/// One past the end of the first complete message in the buffer (its
/// blank-line terminator included), if one has arrived: how much a
/// caller consumes before decoding the next message.
pub fn message_end(buf: &[u8]) -> (r: Option<usize>)
    ensures
        match r {
            Some(e) => find_term(buf@) == Some(e - 4) && 4 <= e <= buf@.len(),
            None => find_term(buf@) is None,
        },
{
    let n = buf.len();
    match find_term_exec(buf) {
        Some(t) => {
            proof {
                lemma_find_term(buf@);
                assert(term_at(buf@, t as int));
                assert(t + 4 <= n);
            }
            Some(t + 4)
        }
        None => None,
    }
}

/// Feeds the bytes received so far to the codec: `Incomplete` until a
/// blank-line terminator arrives, then the first message decoded exactly
/// as `parse_spec` says.
pub fn parse(buf: &[u8]) -> (r: ParseOutcome)
    ensures
        r@ == parse_spec(buf@),
{
    match find_term_exec(buf) {
        None => ParseOutcome::Incomplete,
        Some(t) => {
            proof {
                lemma_find_term(buf@);
                assert(buf@.subrange(0, t as int) == buf@.take(t as int));
            }
            let msg = vstd::slice::slice_subrange(buf, 0, t);
            parse_message_exec(msg)
        }
    }
}


// ---------------------------------------------------------------------------
// Serialization: spec
// ---------------------------------------------------------------------------

/// The protocol-version token of every status line.
pub open spec fn lit_proto_ver() -> Seq<u8> {
    // "RTSP/1.0"
    seq![82u8, 84u8, 83u8, 80u8, 47u8, 49u8, 46u8, 48u8]
}

fn lit_proto_ver_exec() -> (r: Vec<u8>)
    ensures
        r@ == lit_proto_ver(),
{
    let mut v: Vec<u8> = Vec::new();
    v.push(82);
    v.push(84);
    v.push(83);
    v.push(80);
    v.push(47);
    v.push(49);
    v.push(46);
    v.push(48);
    proof {
        assert(v@ =~= lit_proto_ver());
    }
    v
}

/// Code and reason of a success response.
pub open spec fn status_success_text() -> Seq<u8> {
    // "200 OK"
    seq![50u8, 48u8, 48u8, 32u8, 79u8, 75u8]
}

fn status_success_text_exec() -> (r: Vec<u8>)
    ensures
        r@ == status_success_text(),
{
    let mut v: Vec<u8> = Vec::new();
    v.push(50);
    v.push(48);
    v.push(48);
    v.push(32);
    v.push(79);
    v.push(75);
    proof {
        assert(v@ =~= status_success_text());
    }
    v
}

/// Code and reason of a malformed-request response.
pub open spec fn status_bad_request_text() -> Seq<u8> {
    // "400 Bad Request"
    seq![52u8, 48u8, 48u8, 32u8, 66u8, 97u8, 100u8, 32u8, 82u8, 101u8, 113u8, 117u8, 101u8, 115u8, 116u8]
}

fn status_bad_request_text_exec() -> (r: Vec<u8>)
    ensures
        r@ == status_bad_request_text(),
{
    let mut v: Vec<u8> = Vec::new();
    v.push(52);
    v.push(48);
    v.push(48);
    v.push(32);
    v.push(66);
    v.push(97);
    v.push(100);
    v.push(32);
    v.push(82);
    v.push(101);
    v.push(113);
    v.push(117);
    v.push(101);
    v.push(115);
    v.push(116);
    proof {
        assert(v@ =~= status_bad_request_text());
    }
    v
}

/// Code and reason of a session-not-found response.
pub open spec fn status_not_found_text() -> Seq<u8> {
    // "454 Session Not Found"
    seq![52u8, 53u8, 52u8, 32u8, 83u8, 101u8, 115u8, 115u8, 105u8, 111u8, 110u8, 32u8, 78u8, 111u8, 116u8, 32u8, 70u8, 111u8, 117u8, 110u8, 100u8]
}

fn status_not_found_text_exec() -> (r: Vec<u8>)
    ensures
        r@ == status_not_found_text(),
{
    let mut v: Vec<u8> = Vec::new();
    v.push(52);
    v.push(53);
    v.push(52);
    v.push(32);
    v.push(83);
    v.push(101);
    v.push(115);
    v.push(115);
    v.push(105);
    v.push(111);
    v.push(110);
    v.push(32);
    v.push(78);
    v.push(111);
    v.push(116);
    v.push(32);
    v.push(70);
    v.push(111);
    v.push(117);
    v.push(110);
    v.push(100);
    proof {
        assert(v@ =~= status_not_found_text());
    }
    v
}

/// Code and reason of an internal-failure response.
pub open spec fn status_internal_text() -> Seq<u8> {
    // "500 Internal Server Error"
    seq![53u8, 48u8, 48u8, 32u8, 73u8, 110u8, 116u8, 101u8, 114u8, 110u8, 97u8, 108u8, 32u8, 83u8, 101u8, 114u8, 118u8, 101u8, 114u8, 32u8, 69u8, 114u8, 114u8, 111u8, 114u8]
}

fn status_internal_text_exec() -> (r: Vec<u8>)
    ensures
        r@ == status_internal_text(),
{
    let mut v: Vec<u8> = Vec::new();
    v.push(53);
    v.push(48);
    v.push(48);
    v.push(32);
    v.push(73);
    v.push(110);
    v.push(116);
    v.push(101);
    v.push(114);
    v.push(110);
    v.push(97);
    v.push(108);
    v.push(32);
    v.push(83);
    v.push(101);
    v.push(114);
    v.push(118);
    v.push(101);
    v.push(114);
    v.push(32);
    v.push(69);
    v.push(114);
    v.push(114);
    v.push(111);
    v.push(114);
    proof {
        assert(v@ =~= status_internal_text());
    }
    v
}

/// The echoed sequence header name.
pub open spec fn hdr_cseq() -> Seq<u8> {
    // "CSeq: "
    seq![67u8, 83u8, 101u8, 113u8, 58u8, 32u8]
}

fn hdr_cseq_exec() -> (r: Vec<u8>)
    ensures
        r@ == hdr_cseq(),
{
    let mut v: Vec<u8> = Vec::new();
    v.push(67);
    v.push(83);
    v.push(101);
    v.push(113);
    v.push(58);
    v.push(32);
    proof {
        assert(v@ =~= hdr_cseq());
    }
    v
}

/// The session header name.
pub open spec fn hdr_session() -> Seq<u8> {
    // "Session: "
    seq![83u8, 101u8, 115u8, 115u8, 105u8, 111u8, 110u8, 58u8, 32u8]
}

fn hdr_session_exec() -> (r: Vec<u8>)
    ensures
        r@ == hdr_session(),
{
    let mut v: Vec<u8> = Vec::new();
    v.push(83);
    v.push(101);
    v.push(115);
    v.push(115);
    v.push(105);
    v.push(111);
    v.push(110);
    v.push(58);
    v.push(32);
    proof {
        assert(v@ =~= hdr_session());
    }
    v
}

/// The transport header name.
pub open spec fn hdr_transport() -> Seq<u8> {
    // "Transport: "
    seq![84u8, 114u8, 97u8, 110u8, 115u8, 112u8, 111u8, 114u8, 116u8, 58u8, 32u8]
}

fn hdr_transport_exec() -> (r: Vec<u8>)
    ensures
        r@ == hdr_transport(),
{
    let mut v: Vec<u8> = Vec::new();
    v.push(84);
    v.push(114);
    v.push(97);
    v.push(110);
    v.push(115);
    v.push(112);
    v.push(111);
    v.push(114);
    v.push(116);
    v.push(58);
    v.push(32);
    proof {
        assert(v@ =~= hdr_transport());
    }
    v
}

/// The client-port sub-field of the echoed transport.
pub open spec fn param_client_port() -> Seq<u8> {
    // ";client_port="
    seq![59u8, 99u8, 108u8, 105u8, 101u8, 110u8, 116u8, 95u8, 112u8, 111u8, 114u8, 116u8, 61u8]
}

fn param_client_port_exec() -> (r: Vec<u8>)
    ensures
        r@ == param_client_port(),
{
    let mut v: Vec<u8> = Vec::new();
    v.push(59);
    v.push(99);
    v.push(108);
    v.push(105);
    v.push(101);
    v.push(110);
    v.push(116);
    v.push(95);
    v.push(112);
    v.push(111);
    v.push(114);
    v.push(116);
    v.push(61);
    proof {
        assert(v@ =~= param_client_port());
    }
    v
}

/// The server-port sub-field of the echoed transport.
pub open spec fn param_server_port() -> Seq<u8> {
    // ";server_port="
    seq![59u8, 115u8, 101u8, 114u8, 118u8, 101u8, 114u8, 95u8, 112u8, 111u8, 114u8, 116u8, 61u8]
}

fn param_server_port_exec() -> (r: Vec<u8>)
    ensures
        r@ == param_server_port(),
{
    let mut v: Vec<u8> = Vec::new();
    v.push(59);
    v.push(115);
    v.push(101);
    v.push(114);
    v.push(118);
    v.push(101);
    v.push(114);
    v.push(95);
    v.push(112);
    v.push(111);
    v.push(114);
    v.push(116);
    v.push(61);
    proof {
        assert(v@ =~= param_server_port());
    }
    v
}

/// The code-and-reason text of a status class.
pub open spec fn status_text(st: Status) -> Seq<u8> {
    match st {
        Status::Success => status_success_text(),
        Status::BadRequest => status_bad_request_text(),
        Status::SessionNotFound => status_not_found_text(),
        Status::InternalError => status_internal_text(),
    }
}

/// The status line of a response.
pub open spec fn status_line(st: Status) -> Seq<u8> {
    lit_proto_ver() + seq![SP] + status_text(st) + seq![CR, LF]
}

/// The echoed sequence header line.
pub open spec fn cseq_line(n: u32) -> Seq<u8> {
    hdr_cseq() + dec_of(n as int) + seq![CR, LF]
}

/// The session header line.
pub open spec fn session_line(id: u64) -> Seq<u8> {
    hdr_session() + dec_of(id as int) + seq![CR, LF]
}

/// The echoed transport header line: client ports echoed, server ports
/// filled in.
pub open spec fn transport_line(t: EchoTransportV) -> Seq<u8> {
    hdr_transport() + t.protocol + param_client_port() + dec_of(t.client_rtp as int) + seq![DASH]
        + dec_of(t.client_rtcp as int) + param_server_port() + dec_of(t.server_rtp as int)
        + seq![DASH] + dec_of(t.server_rtcp as int) + seq![CR, LF]
}

/// The wire bytes of a response: status line, echoed sequence header, the
/// optional session and transport headers, and the blank-line terminator.
/// Deterministic in the response value.
pub open spec fn serialize_spec(r: ResponseV) -> Seq<u8> {
    status_line(r.status) + cseq_line(r.sequence_number) + (match r.session_id {
        Some(id) => session_line(id),
        None => Seq::empty(),
    }) + (match r.transport {
        Some(t) => transport_line(t),
        None => Seq::empty(),
    }) + seq![CR, LF]
}

// ---------------------------------------------------------------------------
// Serialization: executable
// ---------------------------------------------------------------------------

/// Serializes a response into wire bytes, exactly as `serialize_spec`
/// says.
#[verifier::rlimit(60)]
pub fn serialize(r: &Response) -> (out: Vec<u8>)
    ensures
        out@ == serialize_spec(r@),
{
    let mut out: Vec<u8> = Vec::new();
    let pv = lit_proto_ver_exec();
    push_bytes(&mut out, pv.as_slice());
    out.push(SP);
    match r.status {
        Status::Success => {
            let t = status_success_text_exec();
            push_bytes(&mut out, t.as_slice());
        }
        Status::BadRequest => {
            let t = status_bad_request_text_exec();
            push_bytes(&mut out, t.as_slice());
        }
        Status::SessionNotFound => {
            let t = status_not_found_text_exec();
            push_bytes(&mut out, t.as_slice());
        }
        Status::InternalError => {
            let t = status_internal_text_exec();
            push_bytes(&mut out, t.as_slice());
        }
    }
    out.push(CR);
    out.push(LF);
    let ghost part_status = status_line(r@.status);
    proof {
        assert(out@ =~= part_status);
    }
    let hc = hdr_cseq_exec();
    push_bytes(&mut out, hc.as_slice());
    let dc = render_dec(r.sequence_number as u64);
    push_bytes(&mut out, dc.as_slice());
    out.push(CR);
    out.push(LF);
    let ghost part_cseq = part_status + cseq_line(r@.sequence_number);
    proof {
        assert(out@ =~= part_cseq);
    }
    let ghost part_session = part_cseq + (match r@.session_id {
        Some(id) => session_line(id),
        None => Seq::empty(),
    });
    match r.session_id {
        Some(id) => {
            let hs = hdr_session_exec();
            push_bytes(&mut out, hs.as_slice());
            let ds = render_dec(id);
            push_bytes(&mut out, ds.as_slice());
            out.push(CR);
            out.push(LF);
            proof {
                assert(out@ =~= part_session);
            }
        }
        None => {
            proof {
                assert(out@ =~= part_session);
            }
        }
    }
    let ghost part_transport = part_session + (match r@.transport {
        Some(t) => transport_line(t),
        None => Seq::empty(),
    });
    match &r.transport {
        Some(t) => {
            let ht = hdr_transport_exec();
            push_bytes(&mut out, ht.as_slice());
            push_bytes(&mut out, t.protocol.as_slice());
            let pc = param_client_port_exec();
            push_bytes(&mut out, pc.as_slice());
            let d1 = render_dec(t.client_rtp as u64);
            push_bytes(&mut out, d1.as_slice());
            out.push(DASH);
            let d2 = render_dec(t.client_rtcp as u64);
            push_bytes(&mut out, d2.as_slice());
            let ps = param_server_port_exec();
            push_bytes(&mut out, ps.as_slice());
            let d3 = render_dec(t.server_rtp as u64);
            push_bytes(&mut out, d3.as_slice());
            out.push(DASH);
            let d4 = render_dec(t.server_rtcp as u64);
            push_bytes(&mut out, d4.as_slice());
            out.push(CR);
            out.push(LF);
            proof {
                assert(out@ =~= part_transport);
            }
        }
        None => {
            proof {
                assert(out@ =~= part_transport);
            }
        }
    }
    out.push(CR);
    out.push(LF);
    proof {
        assert(out@ =~= serialize_spec(r@));
    }
    out
}

} // verus!
