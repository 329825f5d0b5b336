//! The per-connection session state machine. One connection owns one
//! `ConnState`; each complete request advances it, producing a response
//! and an action for the caller to carry out (attach media delivery,
//! close the stream). The whole transition relation is a spec-level
//! function, and the executable step is proved equal to it.

use vstd::prelude::*;

use crate::msg::{
    Command, EchoTransport, EchoTransportV, MalformedError, MalformedKind, ParseOutcome,
    ParseOutcomeV, Request, RequestV, Response, ResponseV, Status,
};
use crate::ports::{lemma_distinct_pairs_disjoint, PortAllocator, SessionIdGen};

verus! {

/// Lifecycle stage of one connection's session.
#[derive(Clone, Copy, PartialEq, Eq, Structural, Debug)]
pub enum Stage {
    /// Connection accepted, no session negotiated yet.
    Init,
    /// A successful `Setup` allocated ports and assigned an identifier.
    Ready,
    /// A successful `Play` fired the attach callback.
    Playing,
    /// Terminal: reached via `Teardown`, connection error, or end of
    /// input.
    Closed,
}

/// One client's negotiated transport: the identifier, the client ports
/// copied from the `Setup` request, and the server ports allocated from
/// the shared pool (`pair_index` names the pool slot they came from).
#[derive(Clone, Copy, PartialEq, Eq, Structural, Debug)]
pub struct Session {
    pub id: u64,
    pub client_rtp: u16,
    pub client_rtcp: u16,
    pub server_rtp: u16,
    pub server_rtcp: u16,
    pub pair_index: u16,
}

/// The state a connection handler owns: the lifecycle stage, and the
/// session once one exists.
#[derive(Clone, Copy, PartialEq, Eq, Structural, Debug)]
pub struct ConnState {
    pub stage: Stage,
    pub session: Option<Session>,
}

impl ConnState {
    /// The state of a freshly accepted connection.
    pub fn new() -> (r: ConnState)
        ensures
            r.stage == Stage::Init,
            r.session is None,
            conn_wf(r),
    {
        ConnState { stage: Stage::Init, session: None }
    }
}

/// What the caller must do after a step, besides writing the response.
#[derive(Clone, Copy, PartialEq, Eq, Structural, Debug)]
pub enum StepAction {
    /// Keep reading from the connection.
    Continue,
    /// Invoke the attach callback with this session (exactly this once),
    /// then keep reading.
    Attach(Session),
    /// Write the response, then close the connection.
    CloseAfterResponse,
    /// Close the connection without writing anything.
    CloseNoResponse,
}

/// A session exists exactly in the `Ready` and `Playing` stages.
pub open spec fn conn_wf(c: ConnState) -> bool {
    match c.stage {
        Stage::Init => c.session is None,
        Stage::Ready => c.session is Some,
        Stage::Playing => c.session is Some,
        Stage::Closed => c.session is None,
    }
}

/// The session's server ports are exactly the ports of its pool slot,
/// and that slot is allocated (not free) in the shared pool.
pub open spec fn session_registered(s: Session, a: PortAllocator) -> bool {
    &&& a.is_allocated(s.pair_index)
    &&& s.server_rtp == a.rtp_port(s.pair_index)
    &&& s.server_rtcp == a.rtcp_port(s.pair_index)
}

/// `session_registered` for the connection's session, if any.
pub open spec fn conn_registered(c: ConnState, a: PortAllocator) -> bool {
    match c.session {
        Some(s) => session_registered(s, a),
        None => true,
    }
}

/// The model of one step: the next connection state, the response, the
/// action, and how the shared pool and identifier counter move.
pub ghost struct StepModel {
    pub conn: ConnState,
    pub resp: ResponseV,
    pub action: StepAction,
    /// A pair was taken from the end of the free list.
    pub allocated: bool,
    /// This pair index was returned to the free list.
    pub released: Option<u16>,
    /// A session identifier was consumed.
    pub issued_id: bool,
}

/// The free list after a step.
pub open spec fn free_after(m: StepModel, free: Seq<u16>) -> Seq<u16> {
    if m.allocated {
        free.drop_last()
    } else {
        match m.released {
            Some(k) => free.push(k),
            None => free,
        }
    }
}

/// The identifier counter after a step.
pub open spec fn next_id_after(m: StepModel, next_id: u64) -> u64 {
    if m.issued_id {
        (next_id + 1) as u64
    } else {
        next_id
    }
}

/// A response with neither session nor transport header.
pub open spec fn plain_resp(st: Status, n: u32) -> ResponseV {
    ResponseV { status: st, sequence_number: n, session_id: None, transport: None }
}

/// A step that only answers, changing no state.
pub open spec fn answer_only(c: ConnState, st: Status, n: u32) -> StepModel {
    StepModel {
        conn: c,
        resp: plain_resp(st, n),
        action: StepAction::Continue,
        allocated: false,
        released: None,
        issued_id: false,
    }
}

/// The transition relation of the state machine, over the connection
/// state, the decoded request, and the models of the shared pool (its
/// base port, pair count and free list) and of the identifier counter.
///
/// Guards, per the protocol: a first `Setup` with a parsed transport
/// negotiates a session when a pair is available (`InternalError` when
/// the pool is exhausted, `BadRequest` when the transport is missing); a
/// repeated `Setup` is refused; `Play` attaches exactly on the
/// `Ready` to `Playing` edge and is an idempotent success afterwards,
/// but `SessionNotFound` before any successful `Setup`; `Teardown`
/// releases the pair and closes; any other command is acknowledged
/// generically.
pub open spec fn spec_step(
    c: ConnState,
    req: RequestV,
    base: u16,
    npairs: u16,
    free: Seq<u16>,
    next_id: u64,
) -> StepModel {
    match req.command {
        Command::Setup => match c.stage {
            Stage::Init => match req.transport {
                None => answer_only(c, Status::BadRequest, req.sequence_number),
                Some(t) => if free.len() > 0 {
                    let k = free.last();
                    let s = Session {
                        id: next_id,
                        client_rtp: t.client_rtp,
                        client_rtcp: t.client_rtcp,
                        server_rtp: (base + 2 * k) as u16,
                        server_rtcp: (base + 2 * k + 1) as u16,
                        pair_index: k,
                    };
                    StepModel {
                        conn: ConnState { stage: Stage::Ready, session: Some(s) },
                        resp: ResponseV {
                            status: Status::Success,
                            sequence_number: req.sequence_number,
                            session_id: Some(next_id),
                            transport: Some(
                                EchoTransportV {
                                    protocol: t.protocol,
                                    client_rtp: t.client_rtp,
                                    client_rtcp: t.client_rtcp,
                                    server_rtp: s.server_rtp,
                                    server_rtcp: s.server_rtcp,
                                },
                            ),
                        },
                        action: StepAction::Continue,
                        allocated: true,
                        released: None,
                        issued_id: true,
                    }
                } else {
                    answer_only(c, Status::InternalError, req.sequence_number)
                },
            },
            _ => answer_only(c, Status::BadRequest, req.sequence_number),
        },
        Command::Play => match c.stage {
            Stage::Ready => StepModel {
                conn: ConnState { stage: Stage::Playing, session: c.session },
                resp: plain_resp(Status::Success, req.sequence_number),
                action: StepAction::Attach(c.session->Some_0),
                allocated: false,
                released: None,
                issued_id: false,
            },
            Stage::Playing => answer_only(c, Status::Success, req.sequence_number),
            _ => answer_only(c, Status::SessionNotFound, req.sequence_number),
        },
        Command::Teardown => StepModel {
            conn: ConnState { stage: Stage::Closed, session: None },
            resp: plain_resp(Status::Success, req.sequence_number),
            action: StepAction::CloseAfterResponse,
            allocated: false,
            released: match c.session {
                Some(s) => Some(s.pair_index),
                None => None,
            },
            issued_id: false,
        },
        Command::Other => answer_only(c, Status::Success, req.sequence_number),
    }
}

/// Advances the connection by one decoded request, exactly as
/// `spec_step` says: the response and action are the model's, the pool
/// and counter move as the model says, and well-formedness is preserved.
pub fn step(
    conn: &mut ConnState,
    req: &Request,
    alloc: &mut PortAllocator,
    ids: &mut SessionIdGen,
) -> (r: (Response, StepAction))
    requires
        old(conn).stage != Stage::Closed,
        conn_wf(*old(conn)),
        conn_registered(*old(conn), *old(alloc)),
        old(alloc).wf(),
        old(ids).next_id() < u64::MAX,
    ensures
        ({
            let m = spec_step(
                *old(conn),
                req@,
                old(alloc).base_port(),
                old(alloc).num_pairs(),
                old(alloc).free_list(),
                old(ids).next_id(),
            );
            &&& *final(conn) == m.conn
            &&& r.0@ == m.resp
            &&& r.1 == m.action
            &&& final(alloc).free_list() == free_after(m, old(alloc).free_list())
            &&& final(ids).next_id() == next_id_after(m, old(ids).next_id())
        }),
        final(alloc).wf(),
        final(alloc).base_port() == old(alloc).base_port(),
        final(alloc).num_pairs() == old(alloc).num_pairs(),
        conn_wf(*final(conn)),
        conn_registered(*final(conn), *final(alloc)),
{
    match req.command {
        Command::Setup => match conn.stage {
            Stage::Init => match &req.transport {
                None => (
                    Response {
                        status: Status::BadRequest,
                        sequence_number: req.sequence_number,
                        session_id: None,
                        transport: None,
                    },
                    StepAction::Continue,
                ),
                Some(t) => match alloc.allocate() {
                    Some((k, srtp, srtcp)) => {
                        proof {
                            alloc.lemma_ports_in_range(k);
                        }
                        let id = ids.fresh();
                        let s = Session {
                            id,
                            client_rtp: t.client_rtp,
                            client_rtcp: t.client_rtcp,
                            server_rtp: srtp,
                            server_rtcp: srtcp,
                            pair_index: k,
                        };
                        conn.stage = Stage::Ready;
                        conn.session = Some(s);
                        let echo = EchoTransport {
                            protocol: vstd::slice::slice_to_vec(t.protocol.as_slice()),
                            client_rtp: t.client_rtp,
                            client_rtcp: t.client_rtcp,
                            server_rtp: srtp,
                            server_rtcp: srtcp,
                        };
                        (
                            Response {
                                status: Status::Success,
                                sequence_number: req.sequence_number,
                                session_id: Some(id),
                                transport: Some(echo),
                            },
                            StepAction::Continue,
                        )
                    }
                    None => (
                        Response {
                            status: Status::InternalError,
                            sequence_number: req.sequence_number,
                            session_id: None,
                            transport: None,
                        },
                        StepAction::Continue,
                    ),
                },
            },
            _ => (
                Response {
                    status: Status::BadRequest,
                    sequence_number: req.sequence_number,
                    session_id: None,
                    transport: None,
                },
                StepAction::Continue,
            ),
        },
        Command::Play => match conn.stage {
            Stage::Ready => match conn.session {
                Some(s) => {
                    conn.stage = Stage::Playing;
                    (
                        Response {
                            status: Status::Success,
                            sequence_number: req.sequence_number,
                            session_id: None,
                            transport: None,
                        },
                        StepAction::Attach(s),
                    )
                }
                None => {
                    proof {
                        assert(false);
                    }
                    (
                        Response {
                            status: Status::Success,
                            sequence_number: req.sequence_number,
                            session_id: None,
                            transport: None,
                        },
                        StepAction::Continue,
                    )
                }
            },
            Stage::Playing => (
                Response {
                    status: Status::Success,
                    sequence_number: req.sequence_number,
                    session_id: None,
                    transport: None,
                },
                StepAction::Continue,
            ),
            _ => (
                Response {
                    status: Status::SessionNotFound,
                    sequence_number: req.sequence_number,
                    session_id: None,
                    transport: None,
                },
                StepAction::Continue,
            ),
        },
        Command::Teardown => {
            match conn.session {
                Some(s) => {
                    alloc.release(s.pair_index);
                }
                None => {}
            }
            conn.stage = Stage::Closed;
            conn.session = None;
            (
                Response {
                    status: Status::Success,
                    sequence_number: req.sequence_number,
                    session_id: None,
                    transport: None,
                },
                StepAction::CloseAfterResponse,
            )
        }
        Command::Other => (
            Response {
                status: Status::Success,
                sequence_number: req.sequence_number,
                session_id: None,
                transport: None,
            },
            StepAction::Continue,
        ),
    }
}

/// Closes the connection outside the protocol (end of input or a stream
/// error): the session's pair, if any, goes back to the pool, and the
/// stage becomes `Closed`.
pub fn on_disconnect(conn: &mut ConnState, alloc: &mut PortAllocator)
    requires
        conn_wf(*old(conn)),
        conn_registered(*old(conn), *old(alloc)),
        old(alloc).wf(),
    ensures
        final(conn).stage == Stage::Closed,
        final(conn).session is None,
        final(alloc).wf(),
        final(alloc).base_port() == old(alloc).base_port(),
        final(alloc).num_pairs() == old(alloc).num_pairs(),
        final(alloc).free_list() == match old(conn).session {
            Some(s) => old(alloc).free_list().push(s.pair_index),
            None => old(alloc).free_list(),
        },
{
    match conn.session {
        Some(s) => {
            alloc.release(s.pair_index);
        }
        None => {}
    }
    conn.stage = Stage::Closed;
    conn.session = None;
}


// ---------------------------------------------------------------------------
// Handling one codec outcome
// ---------------------------------------------------------------------------

/// The model of handling one codec outcome: like `StepModel`, but the
/// response is optional (nothing is written for incomplete input or an
/// untrustworthy message).
pub ghost struct HandleModel {
    pub conn: ConnState,
    pub resp: Option<ResponseV>,
    pub action: StepAction,
    pub allocated: bool,
    pub released: Option<u16>,
    pub issued_id: bool,
}

/// The sequence number a rejection echoes: the one read from the
/// message, or zero when none was read.
pub open spec fn echo_seq(e: MalformedError) -> u32 {
    match e.sequence_number {
        Some(n) => n,
        None => 0,
    }
}

/// The free list after handling one outcome.
pub open spec fn handle_free_after(h: HandleModel, free: Seq<u16>) -> Seq<u16> {
    if h.allocated {
        free.drop_last()
    } else {
        match h.released {
            Some(k) => free.push(k),
            None => free,
        }
    }
}

/// The identifier counter after handling one outcome.
pub open spec fn handle_next_id_after(h: HandleModel, next_id: u64) -> u64 {
    if h.issued_id {
        (next_id + 1) as u64
    } else {
        next_id
    }
}

/// How a connection reacts to one codec outcome. Incomplete input asks
/// for more bytes. A message whose request line cannot be trusted closes
/// the connection without a response, releasing its pair. Any other
/// rejection is answered with `BadRequest` and changes no session state.
/// A decoded request advances the state machine by `spec_step`.
pub open spec fn spec_handle(
    c: ConnState,
    out: ParseOutcomeV,
    base: u16,
    npairs: u16,
    free: Seq<u16>,
    next_id: u64,
) -> HandleModel {
    match out {
        ParseOutcomeV::Incomplete => HandleModel {
            conn: c,
            resp: None,
            action: StepAction::Continue,
            allocated: false,
            released: None,
            issued_id: false,
        },
        ParseOutcomeV::Malformed(e) => if e.kind == MalformedKind::RequestLine {
            HandleModel {
                conn: ConnState { stage: Stage::Closed, session: None },
                resp: None,
                action: StepAction::CloseNoResponse,
                allocated: false,
                released: match c.session {
                    Some(s) => Some(s.pair_index),
                    None => None,
                },
                issued_id: false,
            }
        } else {
            HandleModel {
                conn: c,
                resp: Some(plain_resp(Status::BadRequest, echo_seq(e))),
                action: StepAction::Continue,
                allocated: false,
                released: None,
                issued_id: false,
            }
        },
        ParseOutcomeV::Complete(req) => {
            let m = spec_step(c, req, base, npairs, free, next_id);
            HandleModel {
                conn: m.conn,
                resp: Some(m.resp),
                action: m.action,
                allocated: m.allocated,
                released: m.released,
                issued_id: m.issued_id,
            }
        },
    }
}

/// Reacts to one codec outcome, exactly as `spec_handle` says.
pub fn handle_message(
    conn: &mut ConnState,
    outcome: &ParseOutcome,
    alloc: &mut PortAllocator,
    ids: &mut SessionIdGen,
) -> (r: (Option<Response>, StepAction))
    requires
        old(conn).stage != Stage::Closed,
        conn_wf(*old(conn)),
        conn_registered(*old(conn), *old(alloc)),
        old(alloc).wf(),
        old(ids).next_id() < u64::MAX,
    ensures
        ({
            let h = spec_handle(
                *old(conn),
                outcome@,
                old(alloc).base_port(),
                old(alloc).num_pairs(),
                old(alloc).free_list(),
                old(ids).next_id(),
            );
            &&& *final(conn) == h.conn
            &&& match r.0 {
                Some(resp) => h.resp == Some(resp@),
                None => h.resp is None,
            }
            &&& r.1 == h.action
            &&& final(alloc).free_list() == handle_free_after(h, old(alloc).free_list())
            &&& final(ids).next_id() == handle_next_id_after(h, old(ids).next_id())
        }),
        final(alloc).wf(),
        final(alloc).base_port() == old(alloc).base_port(),
        final(alloc).num_pairs() == old(alloc).num_pairs(),
        conn_wf(*final(conn)),
        conn_registered(*final(conn), *final(alloc)),
{
    match outcome {
        ParseOutcome::Incomplete => (None, StepAction::Continue),
        ParseOutcome::Malformed(e) => {
            if e.kind == MalformedKind::RequestLine {
                match conn.session {
                    Some(s) => {
                        alloc.release(s.pair_index);
                    }
                    None => {}
                }
                conn.stage = Stage::Closed;
                conn.session = None;
                (None, StepAction::CloseNoResponse)
            } else {
                let n = match e.sequence_number {
                    Some(n) => n,
                    None => 0,
                };
                (
                    Some(
                        Response {
                            status: Status::BadRequest,
                            sequence_number: n,
                            session_id: None,
                            transport: None,
                        },
                    ),
                    StepAction::Continue,
                )
            }
        }
        ParseOutcome::Complete(req) => {
            let (resp, act) = step(conn, req, alloc, ids);
            (Some(resp), act)
        }
    }
}

// ---------------------------------------------------------------------------
// Driving a whole request sequence
// ---------------------------------------------------------------------------

/// The views of a sequence of requests.
pub open spec fn request_views(l: Seq<Request>) -> Seq<RequestV> {
    Seq::new(l.len(), |i: int| l[i]@)
}

/// The views of a sequence of responses.
pub open spec fn response_views(l: Seq<Response>) -> Seq<ResponseV> {
    Seq::new(l.len(), |i: int| l[i]@)
}

/// The model of a run: the final connection state, the responses in
/// order, and the final pool and counter models.
pub ghost struct RunModel {
    pub conn: ConnState,
    pub resps: Seq<ResponseV>,
    pub free: Seq<u16>,
    pub next_id: u64,
}

/// Processing a sequence of decoded requests, strictly in order: each
/// request is stepped in turn and contributes exactly one response, in
/// the position where it arrived, until the sequence ends or the
/// connection closes.
pub open spec fn spec_run(
    c: ConnState,
    reqs: Seq<RequestV>,
    base: u16,
    npairs: u16,
    free: Seq<u16>,
    next_id: u64,
) -> RunModel
    decreases reqs.len(),
{
    if reqs.len() == 0 || c.stage is Closed {
        RunModel { conn: c, resps: Seq::empty(), free, next_id }
    } else {
        let m = spec_step(c, reqs[0], base, npairs, free, next_id);
        let rest = spec_run(
            m.conn,
            reqs.skip(1),
            base,
            npairs,
            free_after(m, free),
            next_id_after(m, next_id),
        );
        RunModel {
            conn: rest.conn,
            resps: seq![m.resp] + rest.resps,
            free: rest.free,
            next_id: rest.next_id,
        }
    }
}

/// Steps a connection through a sequence of decoded requests, collecting
/// the responses in arrival order, exactly as `spec_run` says.
pub fn run_requests(
    conn: &mut ConnState,
    reqs: &Vec<Request>,
    alloc: &mut PortAllocator,
    ids: &mut SessionIdGen,
) -> (resps: Vec<Response>)
    requires
        conn_wf(*old(conn)),
        conn_registered(*old(conn), *old(alloc)),
        old(alloc).wf(),
        old(ids).next_id() as int + reqs@.len() <= u64::MAX,
    ensures
        ({
            let rm = spec_run(
                *old(conn),
                request_views(reqs@),
                old(alloc).base_port(),
                old(alloc).num_pairs(),
                old(alloc).free_list(),
                old(ids).next_id(),
            );
            &&& *final(conn) == rm.conn
            &&& response_views(resps@) == rm.resps
            &&& final(alloc).free_list() == rm.free
            &&& final(ids).next_id() == rm.next_id
        }),
        final(alloc).wf(),
        final(alloc).base_port() == old(alloc).base_port(),
        final(alloc).num_pairs() == old(alloc).num_pairs(),
        conn_wf(*final(conn)),
        conn_registered(*final(conn), *final(alloc)),
{
    let ghost c0 = *conn;
    let ghost rv = request_views(reqs@);
    let ghost base = alloc.base_port();
    let ghost np = alloc.num_pairs();
    let ghost free0 = alloc.free_list();
    let ghost id0 = ids.next_id();
    let mut resps: Vec<Response> = Vec::new();
    let mut i: usize = 0;
    proof {
        assert(rv.skip(0) =~= rv);
        assert(response_views(resps@) + spec_run(*conn, rv, base, np, free0, id0).resps
            =~= spec_run(*conn, rv, base, np, free0, id0).resps);
    }
    while i < reqs.len() && conn.stage != Stage::Closed
        invariant
            0 <= i <= reqs@.len(),
            rv == request_views(reqs@),
            rv.len() == reqs@.len(),
            conn_wf(*conn),
            conn_registered(*conn, *alloc),
            alloc.wf(),
            alloc.base_port() == base,
            alloc.num_pairs() == np,
            ids.next_id() as int + (reqs@.len() - i) <= u64::MAX,
            ({
                let rest = spec_run(*conn, rv.skip(i as int), base, np, alloc.free_list(), ids.next_id());
                let whole = spec_run(c0, rv, base, np, free0, id0);
                &&& whole.conn == rest.conn
                &&& whole.resps == response_views(resps@) + rest.resps
                &&& whole.free == rest.free
                &&& whole.next_id == rest.next_id
            }),
        decreases reqs@.len() - i,
    {
        proof {
            assert(rv.skip(i as int)[0] == rv[i as int]);
            assert(rv[i as int] == reqs@[i as int]@);
            assert(rv.skip(i as int).skip(1) =~= rv.skip(i + 1));
        }
        let (resp, _act) = step(conn, &reqs[i], alloc, ids);
        proof {
            let ghost old_views = response_views(resps@);
            assert(response_views(resps@.push(resp)) =~= old_views.push(resp@));
        }
        resps.push(resp);
        proof {
            let rest_now = spec_run(*conn, rv.skip(i + 1), base, np, alloc.free_list(), ids.next_id());
            assert(response_views(resps@) + rest_now.resps =~= (response_views(
                resps@,
            ).drop_last()) + (seq![resp@] + rest_now.resps));
        }
        i += 1;
    }
    proof {
        if i >= rv.len() {
            assert(rv.skip(i as int).len() == 0);
        }
        let rest = spec_run(*conn, rv.skip(i as int), base, np, alloc.free_list(), ids.next_id());
        assert(rest.resps =~= Seq::<ResponseV>::empty());
        assert(response_views(resps@) + rest.resps =~= response_views(resps@));
    }
    resps
}


// ---------------------------------------------------------------------------
// Laws of the state machine
// ---------------------------------------------------------------------------

/// Law: the attach callback fires exactly once per session. A `Play` in
/// `Ready` attaches the session and moves to `Playing`; a second `Play`
/// on the same session is an idempotent success that does not attach
/// again.
pub proof fn lemma_play_attaches_once(
    c: ConnState,
    req1: RequestV,
    req2: RequestV,
    base: u16,
    npairs: u16,
    free: Seq<u16>,
    next_id: u64,
)
    requires
        conn_wf(c),
        c.stage == Stage::Ready,
        req1.command == Command::Play,
        req2.command == Command::Play,
    ensures
        ({
            let m1 = spec_step(c, req1, base, npairs, free, next_id);
            let m2 = spec_step(
                m1.conn,
                req2,
                base,
                npairs,
                free_after(m1, free),
                next_id_after(m1, next_id),
            );
            &&& m1.action == StepAction::Attach(c.session->Some_0)
            &&& m1.conn.stage == Stage::Playing
            &&& m1.resp.status == Status::Success
            &&& m2.conn == m1.conn
            &&& m2.resp.status == Status::Success
            &&& !(m2.action is Attach)
        }),
{
}

/// Law: a `Play` with no prior successful `Setup` is answered
/// `SessionNotFound`, does not attach, and changes nothing.
pub proof fn lemma_play_before_setup(
    c: ConnState,
    req: RequestV,
    base: u16,
    npairs: u16,
    free: Seq<u16>,
    next_id: u64,
)
    requires
        conn_wf(c),
        c.stage == Stage::Init,
        req.command == Command::Play,
    ensures
        ({
            let m = spec_step(c, req, base, npairs, free, next_id);
            &&& m.conn == c
            &&& m.resp.status == Status::SessionNotFound
            &&& !(m.action is Attach)
            &&& free_after(m, free) == free
            &&& next_id_after(m, next_id) == next_id
        }),
{
}

/// Law: a message rejected by the codec for anything but an
/// untrustworthy request line (a missing or invalid sequence header, a
/// bad transport) is answered `BadRequest` and advances nothing: not the
/// stage, not the pool, not the identifier counter, and it never
/// attaches.
pub proof fn lemma_malformed_no_advance(
    c: ConnState,
    e: MalformedError,
    base: u16,
    npairs: u16,
    free: Seq<u16>,
    next_id: u64,
)
    requires
        e.kind != MalformedKind::RequestLine,
    ensures
        ({
            let h = spec_handle(c, ParseOutcomeV::Malformed(e), base, npairs, free, next_id);
            &&& h.conn == c
            &&& h.resp == Some(plain_resp(Status::BadRequest, echo_seq(e)))
            &&& !(h.action is Attach)
            &&& handle_free_after(h, free) == free
            &&& handle_next_id_after(h, next_id) == next_id
        }),
{
}

/// Law: a successful `Setup` hands out a fresh identifier and a server
/// port pair disjoint from every currently registered session's pair —
/// on this connection or any other — because the new pair comes off the
/// free list and a registered pair is never on it.
pub proof fn lemma_setup_fresh(
    c: ConnState,
    req: RequestV,
    a: PortAllocator,
    next_id: u64,
    other: Session,
)
    requires
        conn_wf(c),
        c.stage == Stage::Init,
        req.command == Command::Setup,
        req.transport is Some,
        a.wf(),
        a.free_list().len() > 0,
        session_registered(other, a),
        other.id < next_id,
    ensures
        ({
            let m = spec_step(c, req, a.base_port(), a.num_pairs(), a.free_list(), next_id);
            let s = m.conn.session->Some_0;
            &&& m.conn.stage == Stage::Ready
            &&& m.resp.status == Status::Success
            &&& m.resp.session_id == Some(s.id)
            &&& s.id == next_id
            &&& s.id != other.id
            &&& s.server_rtp != other.server_rtp
            &&& s.server_rtp != other.server_rtcp
            &&& s.server_rtcp != other.server_rtp
            &&& s.server_rtcp != other.server_rtcp
        }),
{
    let k = a.free_list().last();
    assert(a.free_list().contains(k));
    assert(a.is_free(k));
    crate::ports::lemma_free_in_range(a, k);
    a.lemma_ports_in_range(k);
    assert(k != other.pair_index);
    lemma_distinct_pairs_disjoint(a, k, other.pair_index);
}

/// Law: `Teardown` releases the session's pair such that the very next
/// `Setup` — on any connection — is allocated exactly the same server
/// ports again.
pub proof fn lemma_teardown_then_setup_reuses_ports(
    c1: ConnState,
    req1: RequestV,
    c2: ConnState,
    req2: RequestV,
    a: PortAllocator,
    id1: u64,
    id2: u64,
)
    requires
        conn_wf(c1),
        c1.session is Some,
        c1.stage != Stage::Closed,
        req1.command == Command::Teardown,
        conn_registered(c1, a),
        a.wf(),
        conn_wf(c2),
        c2.stage == Stage::Init,
        req2.command == Command::Setup,
        req2.transport is Some,
    ensures
        ({
            let s = c1.session->Some_0;
            let m1 = spec_step(c1, req1, a.base_port(), a.num_pairs(), a.free_list(), id1);
            let free2 = free_after(m1, a.free_list());
            let m2 = spec_step(c2, req2, a.base_port(), a.num_pairs(), free2, id2);
            &&& m1.conn.stage == Stage::Closed
            &&& m1.released == Some(s.pair_index)
            &&& m2.conn.stage == Stage::Ready
            &&& m2.conn.session->Some_0.server_rtp == s.server_rtp
            &&& m2.conn.session->Some_0.server_rtcp == s.server_rtcp
        }),
{
    let s = c1.session->Some_0;
    a.lemma_ports_in_range(s.pair_index);
}

/// Law: a run never produces more responses than it was given requests
/// (one response per fully received request).
pub proof fn lemma_run_response_per_request(
    c: ConnState,
    reqs: Seq<RequestV>,
    base: u16,
    npairs: u16,
    free: Seq<u16>,
    next_id: u64,
)
    ensures
        spec_run(c, reqs, base, npairs, free, next_id).resps.len() <= reqs.len(),
    decreases reqs.len(),
{
    if reqs.len() == 0 || c.stage is Closed {
    } else {
        let m = spec_step(c, reqs[0], base, npairs, free, next_id);
        lemma_run_response_per_request(
            m.conn,
            reqs.skip(1),
            base,
            npairs,
            free_after(m, free),
            next_id_after(m, next_id),
        );
    }
}

/// Law: responses are emitted in arrival order: the response at
/// position `i` of a run is exactly the response of request `i`, stepped
/// from the state the first `i` requests produced. No reordering is
/// possible.
pub proof fn lemma_run_in_order(
    c: ConnState,
    reqs: Seq<RequestV>,
    base: u16,
    npairs: u16,
    free: Seq<u16>,
    next_id: u64,
    i: int,
)
    requires
        0 <= i < spec_run(c, reqs, base, npairs, free, next_id).resps.len(),
    ensures
        ({
            let pre = spec_run(c, reqs.take(i), base, npairs, free, next_id);
            spec_run(c, reqs, base, npairs, free, next_id).resps[i] == spec_step(
                pre.conn,
                reqs[i],
                base,
                npairs,
                pre.free,
                pre.next_id,
            ).resp
        }),
    decreases i,
{
    lemma_run_response_per_request(c, reqs, base, npairs, free, next_id);
    if c.stage is Closed {
        assert(false);
    }
    assert(0 <= i < reqs.len());
    let m = spec_step(c, reqs[0], base, npairs, free, next_id);
    if i == 0 {
        assert(reqs.take(0) =~= Seq::<RequestV>::empty());
    } else {
        lemma_run_in_order(
            m.conn,
            reqs.skip(1),
            base,
            npairs,
            free_after(m, free),
            next_id_after(m, next_id),
            i - 1,
        );
        assert(reqs.skip(1).take(i - 1) =~= reqs.take(i).skip(1));
        assert(reqs.take(i)[0] == reqs[0]);
        assert(reqs.skip(1)[i - 1] == reqs[i]);
    }
}

} // verus!
