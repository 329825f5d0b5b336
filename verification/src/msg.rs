//! Message types of the control protocol: decoded requests, parse
//! outcomes, and responses, together with their spec-level views.

use vstd::prelude::*;

verus! {

/// A protocol command. Only the commands that change session state are
/// distinguished; every other recognized method is `Other`.
#[derive(Clone, Copy, PartialEq, Eq, Structural, Debug)]
pub enum Command {
    Setup,
    Play,
    Teardown,
    Other,
}

/// The client's requested transport: the protocol token of the transport
/// header and the two client-side port numbers.
#[derive(Clone, Debug)]
pub struct Transport {
    pub protocol: Vec<u8>,
    pub client_rtp: u16,
    pub client_rtcp: u16,
}

/// Spec-level view of a `Transport`.
pub ghost struct TransportV {
    pub protocol: Seq<u8>,
    pub client_rtp: u16,
    pub client_rtcp: u16,
}

impl View for Transport {
    type V = TransportV;

    open spec fn view(&self) -> TransportV {
        TransportV {
            protocol: self.protocol@,
            client_rtp: self.client_rtp,
            client_rtcp: self.client_rtcp,
        }
    }
}

/// One decoded client message.
#[derive(Clone, Debug)]
pub struct Request {
    /// The command named on the request line.
    pub command: Command,
    /// The value of the required per-message sequence header.
    pub sequence_number: u32,
    /// The parsed transport header; present only on `Setup`.
    pub transport: Option<Transport>,
    /// The addressed resource, kept opaque.
    pub target: Vec<u8>,
}

/// Spec-level view of a `Request`.
pub ghost struct RequestV {
    pub command: Command,
    pub sequence_number: u32,
    pub transport: Option<TransportV>,
    pub target: Seq<u8>,
}

impl View for Request {
    type V = RequestV;

    open spec fn view(&self) -> RequestV {
        RequestV {
            command: self.command,
            sequence_number: self.sequence_number,
            transport: match self.transport {
                Some(t) => Some(t@),
                None => None,
            },
            target: self.target@,
        }
    }
}

/// Why a complete message was rejected by the codec.
#[derive(Clone, Copy, PartialEq, Eq, Structural, Debug)]
pub enum MalformedKind {
    /// The request line does not have the three-token shape; no further
    /// message boundary can be trusted.
    RequestLine,
    /// The required sequence header is absent.
    MissingSequence,
    /// The sequence header is present but not a numeral in range.
    InvalidSequence,
    /// A `Setup` carries a transport header whose sub-fields do not parse.
    BadTransport,
}

/// A rejected message, with the sequence number to echo when one was read.
#[derive(Clone, Copy, PartialEq, Eq, Structural, Debug)]
pub struct MalformedError {
    pub kind: MalformedKind,
    pub sequence_number: Option<u32>,
}

/// Outcome of feeding the bytes received so far to the codec.
#[derive(Clone, Debug)]
pub enum ParseOutcome {
    /// No blank-line terminator yet: keep reading.
    Incomplete,
    /// A complete message arrived but was rejected.
    Malformed(MalformedError),
    /// A complete message was decoded.
    Complete(Request),
}

/// Spec-level view of a `ParseOutcome`.
pub ghost enum ParseOutcomeV {
    Incomplete,
    Malformed(MalformedError),
    Complete(RequestV),
}

impl View for ParseOutcome {
    type V = ParseOutcomeV;

    open spec fn view(&self) -> ParseOutcomeV {
        match self {
            ParseOutcome::Incomplete => ParseOutcomeV::Incomplete,
            ParseOutcome::Malformed(e) => ParseOutcomeV::Malformed(*e),
            ParseOutcome::Complete(r) => ParseOutcomeV::Complete(r@),
        }
    }
}

/// Response status classes of the protocol.
#[derive(Clone, Copy, PartialEq, Eq, Structural, Debug)]
pub enum Status {
    /// 200: success.
    Success,
    /// 400: malformed request.
    BadRequest,
    /// 454: session not found.
    SessionNotFound,
    /// 500: internal failure, such as port exhaustion.
    InternalError,
}

/// The transport header echoed on a successful `Setup`: client ports
/// echoed, server ports filled in.
#[derive(Clone, Debug)]
pub struct EchoTransport {
    pub protocol: Vec<u8>,
    pub client_rtp: u16,
    pub client_rtcp: u16,
    pub server_rtp: u16,
    pub server_rtcp: u16,
}

/// Spec-level view of an `EchoTransport`.
pub ghost struct EchoTransportV {
    pub protocol: Seq<u8>,
    pub client_rtp: u16,
    pub client_rtcp: u16,
    pub server_rtp: u16,
    pub server_rtcp: u16,
}

impl View for EchoTransport {
    type V = EchoTransportV;

    open spec fn view(&self) -> EchoTransportV {
        EchoTransportV {
            protocol: self.protocol@,
            client_rtp: self.client_rtp,
            client_rtcp: self.client_rtcp,
            server_rtp: self.server_rtp,
            server_rtcp: self.server_rtcp,
        }
    }
}

/// One response, derived deterministically from a request and the current
/// session.
#[derive(Clone, Debug)]
pub struct Response {
    pub status: Status,
    /// The echoed sequence number.
    pub sequence_number: u32,
    /// The session identifier; present only on a successful `Setup`.
    pub session_id: Option<u64>,
    /// The negotiated transport; present only on a successful `Setup`.
    pub transport: Option<EchoTransport>,
}

/// Spec-level view of a `Response`.
pub ghost struct ResponseV {
    pub status: Status,
    pub sequence_number: u32,
    pub session_id: Option<u64>,
    pub transport: Option<EchoTransportV>,
}

impl View for Response {
    type V = ResponseV;

    open spec fn view(&self) -> ResponseV {
        ResponseV {
            status: self.status,
            sequence_number: self.sequence_number,
            session_id: self.session_id,
            transport: match self.transport {
                Some(t) => Some(t@),
                None => None,
            },
        }
    }
}

} // verus!
