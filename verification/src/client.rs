//! One connection of the load generator.
//!
//! A connection sends its first request at once. In a burst it sends one more. It closes at a fixed
//! time; where a request is under way then, once that has been answered or has failed.
//! `Client::step` takes the outcome of the last piece of outside work and says what to do next.

use crate::csv::{are_cells, is_cell, join, law_split_undoes_join, split, Row};
use crate::metrics::{micros_between, whole_micros};
use crate::summary::lemma_decimal_is_cell;
use crate::text::{decimal, law_signed_round_trip, law_unsigned_round_trip};
use crate::text::{signed_of, unsigned_of};
use crate::wire::{decode_response, encode_request, request_bytes, response_of};
use crate::wire::{REQUEST_HEADER_LEN, RESPONSE_LEN};
use crate::worker::wrap64;
use crate::workload::{as_micros32, micros32, BurstSpec};
use vstd::prelude::*;
use vstd::string::*;

verus! {

/// One row per request: completed, failed, or never sent because connecting failed.
#[derive(Debug)]
pub struct ConnRow {
    pub conn_id: u64,
    pub seq: u32,
    /// `accept` for the first request, `burst` for the one of a burst, `error` for a request that
    /// failed, `drop` where connecting failed.
    pub kind: &'static str,
    pub worker_id: Option<u32>,
    pub send_ns: i64,
    pub recv_ns: i64,
    pub service_us: u32,
    pub label: String,
}

/// The latency of a completed request, in whole microseconds.
pub open spec fn latency_of(row: ConnRow) -> Option<int> {
    match row.worker_id {
        Some(_) => Some(whole_micros(row.recv_ns - row.send_ns)),
        None => None,
    }
}

/// The cells of a row. Worker and latency are empty where the request was not completed.
pub open spec fn row_cells(row: ConnRow) -> Seq<Seq<char>> {
    seq![
        decimal(row.conn_id as int),
        decimal(row.seq as int),
        row.kind@,
        match row.worker_id {
            Some(w) => decimal(w as int),
            None => Seq::empty(),
        },
        decimal(row.send_ns as int),
        decimal(row.recv_ns as int),
        match latency_of(row) {
            Some(l) => decimal(l),
            None => Seq::empty(),
        },
        decimal(row.service_us as int),
        row.label@,
    ]
}

/// The header cells of the rows.
pub open spec fn header_cells() -> Seq<Seq<char>> {
    seq![
        "conn_id"@,
        "seq"@,
        "kind"@,
        "worker_id"@,
        "send_ns"@,
        "recv_ns"@,
        "latency_us"@,
        "service_us"@,
        "label"@,
    ]
}

/// Whether `row` is the row of a completed request.
pub open spec fn is_ok_row(
    row: ConnRow,
    conn_id: u64,
    seq: u32,
    kind: Seq<char>,
    worker_id: u32,
    send_ns: i64,
    recv_ns: i64,
    service_us: u32,
    label: Seq<char>,
) -> bool {
    &&& row.conn_id == conn_id
    &&& row.seq == seq
    &&& row.kind@ == kind
    &&& row.worker_id == Some(worker_id)
    &&& row.send_ns == send_ns
    &&& row.recv_ns == recv_ns
    &&& row.service_us == service_us
    &&& row.label@ == label
}

/// Whether `row` is the row of a request that failed.
pub open spec fn is_failed_row(
    row: ConnRow,
    conn_id: u64,
    seq: u32,
    kind: Seq<char>,
    label: Seq<char>,
) -> bool {
    &&& row.conn_id == conn_id
    &&& row.seq == seq
    &&& row.kind@ == kind
    &&& row.worker_id.is_none()
    &&& row.send_ns == 0
    &&& row.recv_ns == 0
    &&& row.service_us == 0
    &&& row.label@ == label
}

impl ConnRow {
    /// The row of a completed request.
    pub fn ok(
        conn_id: u64,
        seq: u32,
        kind: &'static str,
        worker_id: u32,
        send_ns: i64,
        recv_ns: i64,
        service_us: u32,
        label: &String,
    ) -> (row: ConnRow)
        ensures
            is_ok_row(
                row,
                conn_id,
                seq,
                kind@,
                worker_id,
                send_ns,
                recv_ns,
                service_us,
                label@,
            ),
    {
        ConnRow {
            conn_id,
            seq,
            kind,
            worker_id: Some(worker_id),
            send_ns,
            recv_ns,
            service_us,
            label: label.clone(),
        }
    }

    /// The row of a request that failed.
    pub fn failed(conn_id: u64, seq: u32, kind: &'static str, label: &String) -> (row: ConnRow)
        ensures
            is_failed_row(row, conn_id, seq, kind@, label@),
    {
        ConnRow {
            conn_id,
            seq,
            kind,
            worker_id: None,
            send_ns: 0,
            recv_ns: 0,
            service_us: 0,
            label: label.clone(),
        }
    }

    /// The latency of a completed request, in whole microseconds.
    pub fn latency_us(&self) -> (r: Option<i64>)
        ensures
            r.is_some() == latency_of(*self).is_some(),
            r.is_some() ==> r.unwrap() == latency_of(*self).unwrap(),
    {
        match self.worker_id {
            Some(_) => Some(micros_between(self.send_ns, self.recv_ns)),
            None => None,
        }
    }

    /// Writes the row.
    pub fn to_csv_line(&self) -> (line: String)
        ensures
            line@ == join(row_cells(*self)),
    {
        let mut r: Row = Row::new();
        proof {
            reveal_strlit("");
        }
        r.add_u64(self.conn_id);
        r.add_u64(self.seq as u64);
        r.add_text(self.kind);
        match self.worker_id {
            Some(w) => r.add_u64(w as u64),
            None => r.add_text(""),
        }
        r.add_i64(self.send_ns);
        r.add_i64(self.recv_ns);
        match self.latency_us() {
            Some(l) => r.add_i64(l),
            None => r.add_text(""),
        }
        r.add_u64(self.service_us as u64);
        r.add_text(self.label.as_str());
        assert(""@ =~= Seq::<char>::empty());
        assert(r@ =~= row_cells(*self));
        r.finish()
    }
}

/// The header line of the rows.
pub fn csv_header() -> (line: String)
    ensures
        line@ == join(header_cells()),
{
    let mut r: Row = Row::new();
    r.add_text("conn_id");
    r.add_text("seq");
    r.add_text("kind");
    r.add_text("worker_id");
    r.add_text("send_ns");
    r.add_text("recv_ns");
    r.add_text("latency_us");
    r.add_text("service_us");
    r.add_text("label");
    assert(r@ =~= header_cells());
    r.finish()
}

/// A time span as a timestamp: nanoseconds, cut to 64 bits.
pub fn now_ns(elapsed: u128) -> (ns: i64)
    ensures
        ns == wrap64(elapsed as int),
{
    let low: u64 = (elapsed % 0x1_0000_0000_0000_0000) as u64;
    if low < 0x8000_0000_0000_0000 {
        low as i64
    } else {
        -((0xffff_ffff_ffff_ffff - low) as i64) - 1
    }
}

/// What a request is.
#[derive(Debug, Clone, Copy, PartialEq, Eq, Structural)]
pub enum RequestKind {
    First,
    Burst,
}

/// The name of a request's kind in its row.
pub open spec fn kind_name(kind: RequestKind) -> Seq<char> {
    match kind {
        RequestKind::First => "accept"@,
        RequestKind::Burst => "burst"@,
    }
}

impl RequestKind {
    /// The name of the kind in a row.
    pub fn as_str(&self) -> (s: &'static str)
        ensures
            s@ == kind_name(*self),
    {
        match self {
            RequestKind::First => "accept",
            RequestKind::Burst => "burst",
        }
    }
}

/// A request under way.
#[derive(Debug, Clone, Copy, PartialEq, Eq, Structural)]
pub struct Request {
    pub seq: u32,
    pub service_us: u32,
    pub kind: RequestKind,
}

/// What a connection waits for.
#[derive(Debug, Clone, Copy, PartialEq, Eq, Structural)]
pub enum ClientPhase {
    Connecting,
    /// The time at which a request is sent.
    SendClock(Request),
    /// The sending of a request.
    Sending { req: Request, send_ns: i64 },
    /// The response.
    Receiving(Request),
    /// The time at which a response has come.
    RecvClock { req: Request, rseq: u32, worker_id: u32, echoed_ns: i64 },
    /// The time of the burst, or the time to close.
    Idle,
    Done,
}

/// What a connection asks for.
#[derive(Debug, Clone, Copy)]
pub enum ClientAction {
    Connect,
    ReadClock,
    Send { bytes: [u8; REQUEST_HEADER_LEN] },
    Receive,
    /// Wait until the time to close; also until the time of the burst, from the start, where there
    /// is one to come.
    Wait { burst_at: Option<u128> },
    Finish,
}

/// The outcome of what a connection asked for.
#[derive(Debug, Clone, Copy)]
pub enum ClientEvent {
    Connected { ok: bool },
    /// The time since the start.
    Clock { elapsed: u128 },
    Sent { ok: bool },
    /// The response; none where receiving it failed.
    Received { bytes: Option<[u8; RESPONSE_LEN]> },
    CloseDue,
    BurstDue,
}

/// The state of a connection.
#[verifier::ext_equal]
pub struct ClientState {
    pub conn_id: u64,
    pub first_service_us: u32,
    pub burst: Option<BurstSpec>,
    /// Whether the burst is still to come.
    pub burst_pending: bool,
    /// The sequence number of the next request.
    pub seq: u32,
    pub phase: ClientPhase,
}

/// What a row says of a request, as far as the state decides it.
pub enum RowView {
    Completed { seq: u32, kind: RequestKind, worker_id: u32, send_ns: i64, recv_ns: i64, service_us: u32 },
    Error { seq: u32 },
    Drop,
}

/// Whether a row says this of a connection's request.
pub open spec fn says(row: ConnRow, v: RowView, conn_id: u64, label: Seq<char>) -> bool {
    match v {
        RowView::Completed { seq, kind, worker_id, send_ns, recv_ns, service_us } => is_ok_row(
            row,
            conn_id,
            seq,
            kind_name(kind),
            worker_id,
            send_ns,
            recv_ns,
            service_us,
            label,
        ),
        RowView::Error { seq } => is_failed_row(row, conn_id, seq, "error"@, label),
        RowView::Drop => is_failed_row(row, conn_id, 0, "drop"@, label),
    }
}

/// The state of a connection before it connects.
pub open spec fn client_start(
    conn_id: u64,
    first_service_us: u32,
    burst: Option<BurstSpec>,
) -> ClientState {
    ClientState {
        conn_id,
        first_service_us,
        burst,
        burst_pending: burst.is_some(),
        seq: 0,
        phase: ClientPhase::Connecting,
    }
}

/// Whether `a` is what a state asks for.
pub open spec fn client_wants(s: ClientState, a: ClientAction) -> bool {
    match s.phase {
        ClientPhase::Connecting => a == ClientAction::Connect,
        ClientPhase::SendClock(_) => a == ClientAction::ReadClock,
        ClientPhase::Sending { req, send_ns } => a matches ClientAction::Send { bytes } && bytes@
            == request_bytes(req.seq, req.service_us, send_ns),
        ClientPhase::Receiving(_) => a == ClientAction::Receive,
        ClientPhase::RecvClock { .. } => a == ClientAction::ReadClock,
        ClientPhase::Idle => a == (ClientAction::Wait {
            burst_at: match s.burst {
                Some(b) => if s.burst_pending {
                    Some(b.at)
                } else {
                    None
                },
                None => None,
            },
        }),
        ClientPhase::Done => a == ClientAction::Finish,
    }
}

/// The state after an event. An event that the state does not wait for changes nothing.
pub open spec fn client_after(s: ClientState, e: ClientEvent) -> ClientState {
    match (s.phase, e) {
        (ClientPhase::Connecting, ClientEvent::Connected { ok }) => ClientState {
            phase: if ok {
                ClientPhase::SendClock(
                    Request {
                        seq: 0,
                        service_us: s.first_service_us,
                        kind: RequestKind::First,
                    },
                )
            } else {
                ClientPhase::Done
            },
            ..s
        },
        (ClientPhase::SendClock(req), ClientEvent::Clock { elapsed }) => ClientState {
            phase: ClientPhase::Sending { req, send_ns: wrap64(elapsed as int) },
            ..s
        },
        (ClientPhase::Sending { req, .. }, ClientEvent::Sent { ok }) => ClientState {
            phase: if ok {
                ClientPhase::Receiving(req)
            } else {
                ClientPhase::Done
            },
            ..s
        },
        (ClientPhase::Receiving(req), ClientEvent::Received { bytes }) => match bytes {
            Some(b) => ClientState {
                phase: ClientPhase::RecvClock {
                    req,
                    rseq: response_of(b@).0,
                    worker_id: response_of(b@).1,
                    echoed_ns: response_of(b@).2,
                },
                ..s
            },
            None => ClientState { phase: ClientPhase::Done, ..s },
        },
        (ClientPhase::RecvClock { req, .. }, ClientEvent::Clock { .. }) => ClientState {
            seq: ((req.seq + 1) % 0x1_0000_0000) as u32,
            phase: ClientPhase::Idle,
            ..s
        },
        (ClientPhase::Idle, ClientEvent::CloseDue) => ClientState { phase: ClientPhase::Done, ..s },
        (ClientPhase::Idle, ClientEvent::BurstDue) => match s.burst {
            Some(b) => if s.burst_pending {
                ClientState {
                    burst_pending: false,
                    phase: ClientPhase::SendClock(
                        Request {
                            seq: s.seq,
                            service_us: micros32(b.service),
                            kind: RequestKind::Burst,
                        },
                    ),
                    ..s
                }
            } else {
                s
            },
            None => s,
        },
        _ => s,
    }
}

/// The row that an event gives rise to.
pub open spec fn row_for(s: ClientState, e: ClientEvent) -> Option<RowView> {
    match (s.phase, e) {
        (ClientPhase::Connecting, ClientEvent::Connected { ok: false }) => Some(RowView::Drop),
        (ClientPhase::Sending { req, .. }, ClientEvent::Sent { ok: false }) => Some(
            RowView::Error { seq: req.seq },
        ),
        (ClientPhase::Receiving(req), ClientEvent::Received { bytes: None }) => Some(
            RowView::Error { seq: req.seq },
        ),
        (
            ClientPhase::RecvClock { req, rseq, worker_id, echoed_ns },
            ClientEvent::Clock { elapsed },
        ) => Some(
            RowView::Completed {
                seq: rseq,
                kind: req.kind,
                worker_id,
                send_ns: echoed_ns,
                recv_ns: wrap64(elapsed as int),
                service_us: req.service_us,
            },
        ),
        _ => None,
    }
}

/// One connection.
#[derive(Debug)]
pub struct Client {
    conn_id: u64,
    first_service_us: u32,
    burst: Option<BurstSpec>,
    burst_pending: bool,
    seq: u32,
    phase: ClientPhase,
    label: String,
}

impl View for Client {
    type V = ClientState;

    closed spec fn view(&self) -> ClientState {
        ClientState {
            conn_id: self.conn_id,
            first_service_us: self.first_service_us,
            burst: self.burst,
            burst_pending: self.burst_pending,
            seq: self.seq,
            phase: self.phase,
        }
    }
}

impl Client {
    /// The text in the last column of the connection's rows.
    pub closed spec fn label(&self) -> Seq<char> {
        self.label@
    }

    /// A connection before it connects.
    pub fn new(
        conn_id: u64,
        first_service_us: u32,
        burst: Option<BurstSpec>,
        label: String,
    ) -> (c: Client)
        ensures
            c@ == client_start(conn_id, first_service_us, burst),
            c.label() == label@,
    {
        Client {
            conn_id,
            first_service_us,
            burst,
            burst_pending: burst.is_some(),
            seq: 0,
            phase: ClientPhase::Connecting,
            label,
        }
    }

    /// What the connection asks for now.
    pub fn wants(&self) -> (a: ClientAction)
        ensures
            client_wants(self@, a),
    {
        match self.phase {
            ClientPhase::Connecting => ClientAction::Connect,
            ClientPhase::SendClock(_) => ClientAction::ReadClock,
            ClientPhase::Sending { req, send_ns } => {
                let mut bytes: [u8; REQUEST_HEADER_LEN] = [
                    0, 0, 0, 0, 0, 0, 0, 0, 0, 0, 0, 0, 0, 0, 0, 0, 0, 0, 0, 0, 0, 0, 0, 0,
                ];
                encode_request(req.seq, req.service_us, send_ns, &mut bytes);
                ClientAction::Send { bytes }
            },
            ClientPhase::Receiving(_) => ClientAction::Receive,
            ClientPhase::RecvClock { .. } => ClientAction::ReadClock,
            ClientPhase::Idle => {
                let burst_at: Option<u128> = match self.burst {
                    Some(b) => if self.burst_pending {
                        Some(b.at)
                    } else {
                        None
                    },
                    None => None,
                };
                ClientAction::Wait { burst_at }
            },
            ClientPhase::Done => ClientAction::Finish,
        }
    }

    /// Takes the outcome of what was asked for. Says what is next, and gives the row that it gives
    /// rise to.
    pub fn step(&mut self, event: ClientEvent) -> (r: (ClientAction, Option<ConnRow>))
        ensures
            final(self)@ == client_after(old(self)@, event),
            final(self).label() == old(self).label(),
            client_wants(final(self)@, r.0),
            r.1.is_some() == row_for(old(self)@, event).is_some(),
            r.1.is_some() ==> says(
                r.1.unwrap(),
                row_for(old(self)@, event).unwrap(),
                old(self)@.conn_id,
                old(self).label(),
            ),
    {
        let mut row: Option<ConnRow> = None;
        match (self.phase, event) {
            (ClientPhase::Connecting, ClientEvent::Connected { ok }) => {
                if ok {
                    self.phase = ClientPhase::SendClock(
                        Request {
                            seq: 0,
                            service_us: self.first_service_us,
                            kind: RequestKind::First,
                        },
                    );
                } else {
                    row = Some(ConnRow::failed(self.conn_id, 0, "drop", &self.label));
                    self.phase = ClientPhase::Done;
                }
            },
            (ClientPhase::SendClock(req), ClientEvent::Clock { elapsed }) => {
                self.phase = ClientPhase::Sending { req, send_ns: now_ns(elapsed) };
            },
            (ClientPhase::Sending { req, .. }, ClientEvent::Sent { ok }) => {
                if ok {
                    self.phase = ClientPhase::Receiving(req);
                } else {
                    row = Some(ConnRow::failed(self.conn_id, req.seq, "error", &self.label));
                    self.phase = ClientPhase::Done;
                }
            },
            (ClientPhase::Receiving(req), ClientEvent::Received { bytes }) => match bytes {
                Some(b) => {
                    let (rseq, worker_id, echoed_ns) = decode_response(&b);
                    self.phase = ClientPhase::RecvClock { req, rseq, worker_id, echoed_ns };
                },
                None => {
                    row = Some(ConnRow::failed(self.conn_id, req.seq, "error", &self.label));
                    self.phase = ClientPhase::Done;
                },
            },
            (
                ClientPhase::RecvClock { req, rseq, worker_id, echoed_ns },
                ClientEvent::Clock { elapsed },
            ) => {
                row = Some(
                    ConnRow::ok(
                        self.conn_id,
                        rseq,
                        req.kind.as_str(),
                        worker_id,
                        echoed_ns,
                        now_ns(elapsed),
                        req.service_us,
                        &self.label,
                    ),
                );
                self.seq = req.seq.wrapping_add(1);
                self.phase = ClientPhase::Idle;
            },
            (ClientPhase::Idle, ClientEvent::CloseDue) => {
                self.phase = ClientPhase::Done;
            },
            (ClientPhase::Idle, ClientEvent::BurstDue) => match self.burst {
                Some(b) => {
                    if self.burst_pending {
                        self.burst_pending = false;
                        self.phase = ClientPhase::SendClock(
                            Request {
                                seq: self.seq,
                                service_us: as_micros32(b.service),
                                kind: RequestKind::Burst,
                            },
                        );
                    }
                },
                None => {},
            },
            _ => {},
        }
        (self.wants(), row)
    }
}

/// What holds of a connection at any time: the first request has number zero and the one of the
/// burst number one, and no request of a burst is under way before the burst.
pub open spec fn client_inv(s: ClientState) -> bool {
    &&& s.burst_pending ==> s.burst.is_some()
    &&& request_under_way(s.phase) matches Some(req) ==> (if req.kind == RequestKind::First {
        req.seq == 0 && s.seq == 0 && s.burst_pending == s.burst.is_some()
    } else {
        req.seq == 1 && s.seq == 1 && !s.burst_pending && s.burst.is_some()
    })
    &&& s.phase == ClientPhase::Connecting ==> s.seq == 0 && s.burst_pending == s.burst.is_some()
    &&& s.phase == ClientPhase::Idle ==> (if s.burst_pending || s.burst.is_none() {
        s.seq == 1
    } else {
        s.seq == 2
    })
}

/// The request that a phase belongs to.
pub open spec fn request_under_way(p: ClientPhase) -> Option<Request> {
    match p {
        ClientPhase::SendClock(req) => Some(req),
        ClientPhase::Sending { req, .. } => Some(req),
        ClientPhase::Receiving(req) => Some(req),
        ClientPhase::RecvClock { req, .. } => Some(req),
        _ => None,
    }
}

/// A connection sends at most one request of each kind: its first, and one in the burst, with the
/// sequence numbers zero and one.
pub proof fn law_client_sends_each_once(s: ClientState, e: ClientEvent)
    requires
        client_inv(s),
    ensures
        client_inv(client_after(s, e)),
        !s.burst_pending ==> !client_after(s, e).burst_pending,
{
}

/// A connection starts as it should.
pub proof fn law_client_starts_well(
    conn_id: u64,
    first_service_us: u32,
    burst: Option<BurstSpec>,
)
    ensures
        client_inv(client_start(conn_id, first_service_us, burst)),
{
}

/// A connection that ends does so with a row, but for the one whose time to close has come: a
/// failure is never silent.
pub proof fn law_client_failures_are_recorded(s: ClientState, e: ClientEvent)
    requires
        s.phase != ClientPhase::Done,
        client_after(s, e).phase == ClientPhase::Done,
    ensures
        e == ClientEvent::CloseDue || (row_for(s, e) matches Some(v) && (v is Error || v is Drop)),
{
}

/// The latency of a completed request is measured between the client's own clock readings, where
/// the worker echoes the request: from the reading sent in it to the reading at the response.
pub proof fn law_latency_is_on_one_clock(
    s: ClientState,
    sent: u128,
    received: u128,
    req: Request,
    worker_id: u32,
    b: [u8; RESPONSE_LEN],
)
    requires
        s.phase == ClientPhase::SendClock(req),
        b@ == crate::wire::response_bytes(req.seq, worker_id, wrap64(sent as int)),
    ensures
        ({
            let s1 = client_after(s, ClientEvent::Clock { elapsed: sent });
            let s2 = client_after(s1, ClientEvent::Sent { ok: true });
            let s3 = client_after(s2, ClientEvent::Received { bytes: Some(b) });
            row_for(s3, ClientEvent::Clock { elapsed: received }) == Some(
                RowView::Completed {
                    seq: req.seq,
                    kind: req.kind,
                    worker_id,
                    send_ns: wrap64(sent as int),
                    recv_ns: wrap64(received as int),
                    service_us: req.service_us,
                },
            )
        }),
{
    crate::wire::law_response_round_trip(req.seq, worker_id, wrap64(sent as int));
}

/// A request from the time it is sent at to its answer.
proof fn lemma_request_steps(s: ClientState, req: Request, sent: u128, b: [u8; RESPONSE_LEN])
    requires
        s.phase == ClientPhase::SendClock(req),
        sent < 0x8000_0000_0000_0000,
    ensures
        client_after(s, ClientEvent::Clock { elapsed: sent }) == (ClientState {
            phase: ClientPhase::Sending { req, send_ns: sent as i64 },
            ..s
        }),
        client_after(
            client_after(s, ClientEvent::Clock { elapsed: sent }),
            ClientEvent::Sent { ok: true },
        ) == (ClientState { phase: ClientPhase::Receiving(req), ..s }),
        client_after(
            client_after(
                client_after(s, ClientEvent::Clock { elapsed: sent }),
                ClientEvent::Sent { ok: true },
            ),
            ClientEvent::Received { bytes: Some(b) },
        ) == (ClientState {
            phase: ClientPhase::RecvClock {
                req,
                rseq: response_of(b@).0,
                worker_id: response_of(b@).1,
                echoed_ns: response_of(b@).2,
            },
            ..s
        }),
{
    let s2 = client_after(s, ClientEvent::Clock { elapsed: sent });
    assert(s2 == (ClientState { phase: ClientPhase::Sending { req, send_ns: sent as i64 }, ..s }));
    let s3 = client_after(s2, ClientEvent::Sent { ok: true });
    assert(s3 == (ClientState { phase: ClientPhase::Receiving(req), ..s }));
}

/// The first request of a connection, from connecting to the answer. It goes out with number zero,
/// the cost that the connection was made with and the time at which it is sent; its row has that
/// cost, the number, worker and time that the response echoes, and the time at which that came.
pub proof fn law_first_request(
    conn_id: u64,
    cost: u32,
    burst: Option<BurstSpec>,
    sent: u128,
    b: [u8; RESPONSE_LEN],
    received: u128,
    a: ClientAction,
)
    requires
        sent < 0x8000_0000_0000_0000,
        received < 0x8000_0000_0000_0000,
    ensures
        ({
            let s0 = client_start(conn_id, cost, burst);
            let s1 = client_after(s0, ClientEvent::Connected { ok: true });
            let s2 = client_after(s1, ClientEvent::Clock { elapsed: sent });
            let s3 = client_after(s2, ClientEvent::Sent { ok: true });
            let s4 = client_after(s3, ClientEvent::Received { bytes: Some(b) });
            let s5 = client_after(s4, ClientEvent::Clock { elapsed: received });
            &&& client_wants(s0, a) ==> a == ClientAction::Connect
            &&& client_wants(s1, a) ==> a == ClientAction::ReadClock
            &&& client_wants(s2, a) ==> (a matches ClientAction::Send { bytes } && bytes@
                == request_bytes(0, cost, sent as i64))
            &&& client_wants(s3, a) ==> a == ClientAction::Receive
            &&& client_wants(s4, a) ==> a == ClientAction::ReadClock
            &&& row_for(s4, ClientEvent::Clock { elapsed: received }) == Some(
                RowView::Completed {
                    seq: response_of(b@).0,
                    kind: RequestKind::First,
                    worker_id: response_of(b@).1,
                    send_ns: response_of(b@).2,
                    recv_ns: received as i64,
                    service_us: cost,
                },
            )
            &&& client_wants(s5, a) ==> a == (ClientAction::Wait {
                burst_at: match burst {
                    Some(x) => Some(x.at),
                    None => None,
                },
            })
            &&& s5.seq == 1
        }),
{
    let s0 = client_start(conn_id, cost, burst);
    let s1 = client_after(s0, ClientEvent::Connected { ok: true });
    let req = Request { seq: 0, service_us: cost, kind: RequestKind::First };
    assert(s1 == (ClientState { phase: ClientPhase::SendClock(req), ..s0 }));
    lemma_request_steps(s1, req, sent, b);
}

/// The request of a burst, from the time it is due to the answer: it goes out with the next number,
/// the burst's cost in microseconds and the time at which it is sent, and the connection waits for
/// its close after it.
pub proof fn law_burst_request(
    s: ClientState,
    burst: BurstSpec,
    sent: u128,
    b: [u8; RESPONSE_LEN],
    received: u128,
    a: ClientAction,
)
    requires
        s.phase == ClientPhase::Idle,
        s.burst == Some(burst),
        s.burst_pending,
        burst.service < 0x1_0000_0000 * 1_000,
        sent < 0x8000_0000_0000_0000,
        received < 0x8000_0000_0000_0000,
    ensures
        ({
            let s1 = client_after(s, ClientEvent::BurstDue);
            let s2 = client_after(s1, ClientEvent::Clock { elapsed: sent });
            let s3 = client_after(s2, ClientEvent::Sent { ok: true });
            let s4 = client_after(s3, ClientEvent::Received { bytes: Some(b) });
            let s5 = client_after(s4, ClientEvent::Clock { elapsed: received });
            &&& client_wants(s1, a) ==> a == ClientAction::ReadClock
            &&& client_wants(s2, a) ==> (a matches ClientAction::Send { bytes } && bytes@
                == request_bytes(s.seq, (burst.service / 1_000) as u32, sent as i64))
            &&& row_for(s4, ClientEvent::Clock { elapsed: received }) == Some(
                RowView::Completed {
                    seq: response_of(b@).0,
                    kind: RequestKind::Burst,
                    worker_id: response_of(b@).1,
                    send_ns: response_of(b@).2,
                    recv_ns: received as i64,
                    service_us: (burst.service / 1_000) as u32,
                },
            )
            &&& client_wants(s5, a) ==> a == (ClientAction::Wait { burst_at: None })
        }),
{
    let s1 = client_after(s, ClientEvent::BurstDue);
    let req = Request {
        seq: s.seq,
        service_us: (burst.service / 1_000) as u32,
        kind: RequestKind::Burst,
    };
    assert(s1 == (ClientState {
        burst_pending: false,
        phase: ClientPhase::SendClock(req),
        ..s
    }));
    lemma_request_steps(s1, req, sent, b);
}

/// A failure ends the connection with one row: a drop where connecting failed, an error with the
/// number of the request where sending or receiving failed. Closing in time leaves no row.
pub proof fn law_failures_have_rows(s: ClientState, a: ClientAction)
    ensures
        s.phase == ClientPhase::Connecting ==> row_for(s, ClientEvent::Connected { ok: false })
            == Some(RowView::Drop) && (client_wants(
            client_after(s, ClientEvent::Connected { ok: false }),
            a,
        ) ==> a == ClientAction::Finish),
        s.phase matches ClientPhase::Sending { req, .. } ==> row_for(
            s,
            ClientEvent::Sent { ok: false },
        ) == Some(RowView::Error { seq: req.seq }) && (client_wants(
            client_after(s, ClientEvent::Sent { ok: false }),
            a,
        ) ==> a == ClientAction::Finish),
        s.phase matches ClientPhase::Receiving(req) ==> row_for(
            s,
            ClientEvent::Received { bytes: None },
        ) == Some(RowView::Error { seq: req.seq }) && (client_wants(
            client_after(s, ClientEvent::Received { bytes: None }),
            a,
        ) ==> a == ClientAction::Finish),
        s.phase == ClientPhase::Idle ==> row_for(s, ClientEvent::CloseDue).is_none() && (
        client_wants(client_after(s, ClientEvent::CloseDue), a) ==> a == ClientAction::Finish),
{
}

/// What the rows hold: of a completed request its number, kind, worker, times and cost; of one that
/// failed its number and kind, and zeros; always the connection's number and the run's label.
pub proof fn law_rows_hold_their_requests(
    row: ConnRow,
    v: RowView,
    conn_id: u64,
    label: Seq<char>,
)
    requires
        says(row, v, conn_id, label),
    ensures
        row.conn_id == conn_id,
        row.label@ == label,
        v matches RowView::Completed { seq, kind, worker_id, send_ns, recv_ns, service_us } ==> {
            &&& row.seq == seq
            &&& row.worker_id == Some(worker_id)
            &&& row.send_ns == send_ns
            &&& row.recv_ns == recv_ns
            &&& row.service_us == service_us
            &&& row.kind@ == (if kind == RequestKind::First {
                "accept"@
            } else {
                "burst"@
            })
        },
        v matches RowView::Error { seq } ==> row.seq == seq && row.kind@ == "error"@
            && row.worker_id.is_none() && row.send_ns == 0 && row.recv_ns == 0 && row.service_us
            == 0,
        v is Drop ==> row.seq == 0 && row.kind@ == "drop"@ && row.worker_id.is_none() && row.send_ns
            == 0 && row.recv_ns == 0 && row.service_us == 0,
{
}

/// A written row can be read back column by column; worker and latency are empty where the request
/// was not completed, and the latency is in whole microseconds between the two times.
pub proof fn law_request_row_reads_back(row: ConnRow)
    requires
        is_cell(row.kind@),
        is_cell(row.label@),
    ensures
        split(join(row_cells(row))).len() == 9,
        unsigned_of(split(join(row_cells(row)))[0], u64::MAX as int) == Some(row.conn_id as int),
        unsigned_of(split(join(row_cells(row)))[1], u32::MAX as int) == Some(row.seq as int),
        split(join(row_cells(row)))[2] == row.kind@,
        row.worker_id matches Some(w) ==> unsigned_of(
            split(join(row_cells(row)))[3],
            u32::MAX as int,
        ) == Some(w as int),
        signed_of(split(join(row_cells(row)))[4]) == Some(row.send_ns as int),
        signed_of(split(join(row_cells(row)))[5]) == Some(row.recv_ns as int),
        row.worker_id.is_some() ==> (signed_of(
            split(join(row_cells(row)))[6],
        ) matches Some(latency) && (row.send_ns <= row.recv_ns ==> 1_000 * latency <= row.recv_ns
            - row.send_ns < 1_000 * (latency + 1)) && (row.recv_ns <= row.send_ns ==> 1_000 * (
        -latency) <= row.send_ns - row.recv_ns < 1_000 * (-latency + 1))),
        row.worker_id.is_none() ==> split(join(row_cells(row)))[3].len() == 0 && split(
            join(row_cells(row)),
        )[6].len() == 0,
        unsigned_of(split(join(row_cells(row)))[7], u32::MAX as int) == Some(
            row.service_us as int,
        ),
        split(join(row_cells(row)))[8] == row.label@,
{
    let latency = whole_micros(row.recv_ns - row.send_ns);
    lemma_decimal_is_cell(row.conn_id as int);
    lemma_decimal_is_cell(row.seq as int);
    lemma_decimal_is_cell(row.send_ns as int);
    lemma_decimal_is_cell(row.recv_ns as int);
    lemma_decimal_is_cell(latency);
    lemma_decimal_is_cell(row.service_us as int);
    law_unsigned_round_trip(row.conn_id as nat, u64::MAX as int);
    law_unsigned_round_trip(row.seq as nat, u32::MAX as int);
    law_unsigned_round_trip(row.service_us as nat, u32::MAX as int);
    law_signed_round_trip(row.send_ns);
    law_signed_round_trip(row.recv_ns);
    law_signed_round_trip(latency as i64);
    if let Some(w) = row.worker_id {
        lemma_decimal_is_cell(w as int);
        law_unsigned_round_trip(w as nat, u32::MAX as int);
    }
    assert(is_cell(Seq::<char>::empty()));
    assert(are_cells(row_cells(row)));
    law_split_undoes_join(row_cells(row));
}

/// What stays as it is: the connection's number, its first cost and its burst never change, and
/// requests are counted when they have been answered.
pub proof fn law_client_keeps_the_rest(s: ClientState, e: ClientEvent)
    ensures
        client_after(s, e).conn_id == s.conn_id,
        client_after(s, e).first_service_us == s.first_service_us,
        client_after(s, e).burst == s.burst,
        !(s.phase is RecvClock) ==> client_after(s, e).seq == s.seq,
        s.phase != ClientPhase::Idle ==> client_after(s, e).burst_pending == s.burst_pending,
{
}

} // verus!
