//! The transport state machine of one session.
//!
//! A session starts `Connecting`, is served by long-polling once the handshake
//! is done, may be handed over to a WebSocket, and ends `Closed`. Every method
//! here is one event: it moves the state and says what is to be written or
//! handed on. Timers, sockets and waiters live with the caller.

use vstd::prelude::*;
use crate::ack::{
    failures, due_at, has_id, increasing, live_at, other_than, AckError, AckFailure, AckHandle,
    AckRegistry, PendingAck,
};
use crate::application::{
    is_binary, packet_in, representable, text_of, ApplicationPacket, ApplicationView, PacketKind,
};
use crate::error::DecodeError;
use crate::handshake::OpenPacket;
use crate::packet::{
    frame_of, packet_in as frame_packet, Encoding, FramingError, Packet, PacketView,
};
use crate::wire::blobs;

verus! {

/// Where a session stands in its life.
#[derive(Clone, Copy, Debug, PartialEq, Eq, Structural)]
pub enum SessionState {
    /// Created; the handshake has not been answered yet.
    Connecting,
    /// Served by long-polling.
    Polling,
    /// A WebSocket has been probed; long-polling still serves.
    Upgrading,
    /// Served by the WebSocket.
    WebSocket,
    /// Closed to the application; the close indication is still to be written.
    Closing,
    Closed,
}

/// The two transports.
#[derive(Clone, Copy, Debug, PartialEq, Eq, Structural)]
pub enum TransportKind {
    Polling,
    WebSocket,
}

/// Why a session closed.
#[derive(Clone, Copy, Debug, PartialEq, Eq, Structural)]
pub enum CloseReason {
    PingTimeout,
    /// The client sent a close packet.
    ClientClose,
    TransportError,
    /// A packet came that the state does not allow.
    ProtocolViolation,
    /// A frame could not be parsed.
    FramingError,
    /// The server shuts down.
    Shutdown,
}

/// The words that go with a close reason.
pub open spec fn reason_text(reason: CloseReason) -> Seq<char> {
    match reason {
        CloseReason::PingTimeout => "ping timeout"@,
        CloseReason::ClientClose => "client close"@,
        CloseReason::TransportError => "transport error"@,
        CloseReason::ProtocolViolation => "protocol violation"@,
        CloseReason::FramingError => "framing error"@,
        CloseReason::Shutdown => "server shutdown"@,
    }
}

impl CloseReason {
    /// The reason in words, for the close callback.
    pub fn text(&self) -> (r: &'static str)
        ensures
            r@ == reason_text(*self),
    {
        match self {
            CloseReason::PingTimeout => "ping timeout",
            CloseReason::ClientClose => "client close",
            CloseReason::TransportError => "transport error",
            CloseReason::ProtocolViolation => "protocol violation",
            CloseReason::FramingError => "framing error",
            CloseReason::Shutdown => "server shutdown",
        }
    }
}

/// Why an event was not taken.
#[derive(Clone, Copy, Debug, PartialEq, Eq)]
pub enum SessionError {
    /// The session was closing or closed already; nothing changed.
    Closed,
    /// The event does not fit the state; the session has been closed for it.
    ProtocolViolation,
    /// The frame did not parse; the session has been closed for it.
    Framing(FramingError),
    /// The application packet did not parse; the session stays open.
    Decode(DecodeError),
    /// The table holds no session with this id.
    UnknownSession,
}

/// The timing and limits that the handshake announces.
#[derive(Clone, Copy, Debug, PartialEq, Eq, Structural)]
pub struct Config {
    /// Milliseconds between two pings.
    pub ping_interval: u64,
    /// Milliseconds that a pong may take.
    pub ping_timeout: u64,
    /// The largest payload, in bytes, that the client may send at once.
    pub max_payload: u64,
    /// Milliseconds that the reply to an ack may take.
    pub ack_timeout: u64,
}

/// What an inbound packet comes to.
#[derive(Debug, PartialEq, Eq)]
pub enum Inbound {
    /// Nothing for the application.
    Nothing,
    /// A packet to write at once on the transport that the inbound one came on.
    Reply(Packet),
    /// The WebSocket has taken over; a long-poll request that still waits is
    /// to be answered with a noop.
    Upgraded,
    /// The client closed the session.
    Closed,
    /// An application packet, complete with its attachments.
    Packet { packet: ApplicationPacket, attachments: Vec<Vec<u8>> },
    /// The reply to an ack that was waiting, complete with its attachments.
    Ack { packet: ApplicationPacket, attachments: Vec<Vec<u8>> },
}

/// The mathematical content of an [`Inbound`].
pub enum InboundView {
    Nothing,
    Reply(PacketView),
    Upgraded,
    Closed,
    Packet { packet: ApplicationView, attachments: Seq<Seq<u8>> },
    Ack { packet: ApplicationView, attachments: Seq<Seq<u8>> },
}

impl View for Inbound {
    type V = InboundView;

    open spec fn view(&self) -> InboundView {
        match self {
            Inbound::Nothing => InboundView::Nothing,
            Inbound::Reply(p) => InboundView::Reply(p@),
            Inbound::Upgraded => InboundView::Upgraded,
            Inbound::Closed => InboundView::Closed,
            Inbound::Packet { packet, attachments } => InboundView::Packet {
                packet: packet@,
                attachments: blobs(attachments@),
            },
            Inbound::Ack { packet, attachments } => InboundView::Ack {
                packet: packet@,
                attachments: blobs(attachments@),
            },
        }
    }
}

/// The content of a result of [`Session::receive`].
pub open spec fn outcome(r: Result<Inbound, SessionError>) -> Result<InboundView, SessionError> {
    match r {
        Ok(inbound) => Ok(inbound@),
        Err(e) => Err(e),
    }
}

/// A binary packet whose attachments have not all come yet.
pub struct PartialView {
    pub packet: ApplicationView,
    pub received: Seq<Seq<u8>>,
}

struct PartialPacket {
    packet: ApplicationPacket,
    received: Vec<Vec<u8>>,
}

/// The mathematical content of a [`Session`].
pub struct SessionView {
    pub sid: Seq<u8>,
    pub encoding: Encoding,
    pub config: Config,
    pub state: SessionState,
    /// The transport that writes.
    pub transport: TransportKind,
    pub last_activity: u64,
    /// When the last ping was queued, or the handshake answered.
    pub last_ping: u64,
    /// When the ping was queued that no pong has answered yet.
    pub ping_sent_at: Option<u64>,
    /// What the writing transport has not taken yet, oldest first.
    pub queue: Seq<Packet>,
    /// What was produced while `Upgrading`, oldest first.
    pub held: Seq<Packet>,
    pub acks: Seq<PendingAck>,
    pub next_ack: u64,
    /// The waiters that are to be failed and have not been collected yet.
    pub failed: Seq<AckFailure>,
    pub partial: Option<PartialView>,
    pub close_reason: Option<CloseReason>,
}

/// One logical client connection.
pub struct Session {
    sid: Vec<u8>,
    encoding: Encoding,
    config: Config,
    state: SessionState,
    transport: TransportKind,
    last_activity: u64,
    last_ping: u64,
    ping_sent_at: Option<u64>,
    queue: Vec<Packet>,
    held: Vec<Packet>,
    acks: AckRegistry,
    failed: Vec<AckFailure>,
    partial: Option<PartialPacket>,
    close_reason: Option<CloseReason>,
}

/// The states in which packets flow.
pub open spec fn is_open(state: SessionState) -> bool {
    state == SessionState::Polling || state == SessionState::Upgrading || state
        == SessionState::WebSocket
}

/// The reasons for which the client is sent a close indication.
pub open spec fn notifies(reason: CloseReason) -> bool {
    reason == CloseReason::ProtocolViolation || reason == CloseReason::FramingError || reason
        == CloseReason::Shutdown
}

/// What must hold of a session at all times.
pub open spec fn well_formed(s: SessionView) -> bool {
    &&& increasing(s.acks)
    &&& forall|i: int| 0 <= i < s.acks.len() ==> s.acks[i].id < s.next_ack
    &&& s.state != SessionState::Upgrading ==> s.held.len() == 0
    &&& s.state == SessionState::WebSocket ==> s.transport == TransportKind::WebSocket
    &&& s.state == SessionState::Connecting || s.state == SessionState::Polling || s.state
        == SessionState::Upgrading ==> s.transport == TransportKind::Polling
    &&& !is_open(s.state) ==> s.acks.len() == 0 && s.partial is None
    &&& s.partial matches Some(partial) ==> is_binary(partial.packet.kind)
        && partial.received.len() < partial.packet.attachments
}

/// The session after it closed for `reason`.
///
/// An open session that closes for a reason that [`notifies`] is `Closing`
/// with the close packet queued; otherwise it is `Closed`. Either way what
/// was queued is dropped, the partial packet is discarded and every waiting
/// ack is failed as closed. A session that is `Closing` already becomes
/// `Closed`; a closed one stays as it is.
pub open spec fn shut(s: SessionView, reason: CloseReason) -> SessionView {
    if s.state == SessionState::Closed {
        s
    } else if s.state == SessionState::Closing {
        SessionView { state: SessionState::Closed, queue: Seq::empty(), ..s }
    } else {
        let notify = notifies(reason) && is_open(s.state);
        SessionView {
            state: if notify {
                SessionState::Closing
            } else {
                SessionState::Closed
            },
            queue: if notify {
                seq![Packet::Close]
            } else {
                Seq::empty()
            },
            held: Seq::empty(),
            acks: Seq::empty(),
            failed: s.failed + failures(s.acks, AckError::Closed),
            partial: None,
            ping_sent_at: None,
            close_reason: Some(reason),
            ..s
        }
    }
}

/// The session after `packet` was produced for the client: held back while
/// `Upgrading`, queued for the writing transport otherwise.
pub open spec fn enqueued(s: SessionView, packet: Packet) -> SessionView {
    if s.state == SessionState::Upgrading {
        SessionView { held: s.held.push(packet), ..s }
    } else {
        SessionView { queue: s.queue.push(packet), ..s }
    }
}

/// What [`Session::push`] does.
pub open spec fn pushed(s: SessionView, packet: Packet) -> (SessionView, Result<(), Packet>) {
    if is_open(s.state) {
        (enqueued(s, packet), Ok(()))
    } else {
        (s, Err(packet))
    }
}

/// What [`Session::take_outbound`] does: the writing transport of a session
/// that is open or closing takes the whole queue, and a closing session is
/// closed by that; any other request takes nothing.
pub open spec fn taken(s: SessionView, transport: TransportKind) -> (SessionView, Seq<Packet>) {
    if transport == s.transport && (is_open(s.state) || s.state == SessionState::Closing) {
        (
            SessionView {
                queue: Seq::empty(),
                state: if s.state == SessionState::Closing {
                    SessionState::Closed
                } else {
                    s.state
                },
                ..s
            },
            s.queue,
        )
    } else {
        (s, Seq::empty())
    }
}

/// What [`Session::handshake`] does.
pub open spec fn greeted(s: SessionView, now: u64) -> (SessionView, Result<(), SessionError>) {
    if s.state == SessionState::Connecting {
        (
            SessionView {
                state: SessionState::Polling,
                last_activity: now,
                last_ping: now,
                ..s
            },
            Ok(()),
        )
    } else if is_open(s.state) {
        (shut(s, CloseReason::ProtocolViolation), Err(SessionError::ProtocolViolation))
    } else {
        (s, Err(SessionError::Closed))
    }
}

/// The session closed for a protocol violation, and the error that says so.
pub open spec fn violated(s: SessionView) -> (SessionView, Result<InboundView, SessionError>) {
    (shut(s, CloseReason::ProtocolViolation), Err(SessionError::ProtocolViolation))
}

/// What a complete application packet comes to: the reply to a waiting ack
/// ends the wait and goes to the waiter; a reply that nothing waits for is
/// dropped; any other packet goes to the application.
pub open spec fn delivered(s: SessionView, packet: ApplicationView, attachments: Seq<Seq<u8>>) -> (
    SessionView,
    Result<InboundView, SessionError>,
) {
    if packet.kind == PacketKind::Ack || packet.kind == PacketKind::BinaryAck {
        match packet.ack_id {
            Some(id) => if has_id(s.acks, id) {
                (
                    SessionView { acks: s.acks.filter(other_than(id)), ..s },
                    Ok(InboundView::Ack { packet, attachments }),
                )
            } else {
                (s, Ok(InboundView::Nothing))
            },
            None => (s, Ok(InboundView::Nothing)),
        }
    } else {
        (s, Ok(InboundView::Packet { packet, attachments }))
    }
}

/// What a message on the writing transport comes to.
///
/// A message that comes while attachments are awaited is a violation. A
/// message that does not parse is reported and changes nothing but the time
/// of the last activity. A binary packet that announces attachments is kept
/// until they have come; any other packet is complete.
pub open spec fn message_received(s: SessionView, data: Seq<u8>, now: u64) -> (
    SessionView,
    Result<InboundView, SessionError>,
) {
    if s.partial is Some {
        violated(s)
    } else {
        let active = SessionView { last_activity: now, ..s };
        match packet_in(data) {
            Err(e) => (active, Err(SessionError::Decode(e))),
            Ok(packet) => if is_binary(packet.kind) && packet.attachments > 0 {
                (
                    SessionView {
                        partial: Some(PartialView { packet, received: Seq::empty() }),
                        ..active
                    },
                    Ok(InboundView::Nothing),
                )
            } else {
                delivered(active, packet, Seq::empty())
            },
        }
    }
}

/// `transport` is the one that carries the session's packets.
pub open spec fn carries(s: SessionView, transport: TransportKind) -> bool {
    is_open(s.state) && transport == s.transport
}

/// What [`Session::receive`] does.
///
/// On the writing transport a pong answers the ping, a message is read as an
/// application packet and a close packet closes the session. On a WebSocket
/// that does not write yet, the probe ping of a polling session starts the
/// upgrade and is answered by the probe pong, and the upgrade packet of an
/// upgrading session completes it: what was held back joins the queue behind
/// what was queued before. Everything else is a protocol violation.
pub open spec fn received(s: SessionView, transport: TransportKind, packet: PacketView, now: u64)
    -> (SessionView, Result<InboundView, SessionError>) {
    if !is_open(s.state) && s.state != SessionState::Connecting {
        (s, Err(SessionError::Closed))
    } else if carries(s, transport) {
        match packet {
            PacketView::Pong { probe: false } => (
                SessionView { ping_sent_at: None, last_activity: now, ..s },
                Ok(InboundView::Nothing),
            ),
            PacketView::Message(data) => message_received(s, data, now),
            PacketView::Close => (shut(s, CloseReason::ClientClose), Ok(InboundView::Closed)),
            _ => violated(s),
        }
    } else if s.state == SessionState::Polling && transport == TransportKind::WebSocket {
        match packet {
            PacketView::Ping { probe: true } => (
                SessionView { state: SessionState::Upgrading, last_activity: now, ..s },
                Ok(InboundView::Reply(PacketView::Pong { probe: true })),
            ),
            _ => violated(s),
        }
    } else if s.state == SessionState::Upgrading && transport == TransportKind::WebSocket {
        match packet {
            PacketView::Upgrade => (
                SessionView {
                    state: SessionState::WebSocket,
                    transport: TransportKind::WebSocket,
                    queue: s.queue + s.held,
                    held: Seq::empty(),
                    last_activity: now,
                    ..s
                },
                Ok(InboundView::Upgraded),
            ),
            _ => violated(s),
        }
    } else {
        violated(s)
    }
}

/// What [`Session::receive_binary`] does: an attachment on the writing
/// transport fills the next free slot of the packet that awaits it, and the
/// packet is complete when the last slot is filled. An attachment that
/// nothing awaits, or on another transport, is a protocol violation.
pub open spec fn attachment_received(
    s: SessionView,
    transport: TransportKind,
    data: Seq<u8>,
    now: u64,
) -> (SessionView, Result<InboundView, SessionError>) {
    if !is_open(s.state) && s.state != SessionState::Connecting {
        (s, Err(SessionError::Closed))
    } else if carries(s, transport) && s.partial is Some {
        let partial = s.partial.unwrap();
        let received = partial.received.push(data);
        if received.len() == partial.packet.attachments {
            delivered(
                SessionView { partial: None, last_activity: now, ..s },
                partial.packet,
                received,
            )
        } else {
            (
                SessionView {
                    partial: Some(PartialView { packet: partial.packet, received }),
                    last_activity: now,
                    ..s
                },
                Ok(InboundView::Nothing),
            )
        }
    } else {
        violated(s)
    }
}

/// The ping that `now` answers with a timeout: one that has waited for its
/// pong for the whole ping timeout.
pub open spec fn ping_timed_out(s: SessionView, now: u64) -> bool {
    s.ping_sent_at matches Some(sent) && now >= sent && now - sent >= s.config.ping_timeout
}

/// A ping is due at `now`: none waits for its pong, and the ping interval has
/// passed since the last one.
pub open spec fn ping_due(s: SessionView, now: u64) -> bool {
    s.ping_sent_at is None && now >= s.last_ping && now - s.last_ping >= s.config.ping_interval
}

/// What [`Session::tick`] does to an open session: a ping timeout closes it;
/// otherwise the acks whose deadline has come are failed as timed out, and a
/// ping is queued if one is due.
pub open spec fn ticked(s: SessionView, now: u64) -> SessionView {
    if !is_open(s.state) {
        s
    } else if ping_timed_out(s, now) {
        shut(s, CloseReason::PingTimeout)
    } else {
        let expired = SessionView {
            acks: s.acks.filter(live_at(now)),
            failed: s.failed + failures(s.acks.filter(due_at(now)), AckError::Timeout),
            ..s
        };
        if ping_due(s, now) {
            enqueued(
                SessionView { ping_sent_at: Some(now), last_ping: now, ..expired },
                Packet::Ping { probe: false },
            )
        } else {
            expired
        }
    }
}

/// The deadline of an ack registered at `now`.
pub open spec fn ack_deadline(s: SessionView, now: u64) -> u64 {
    if now + s.config.ack_timeout > u64::MAX {
        u64::MAX
    } else {
        (now + s.config.ack_timeout) as u64
    }
}

/// What [`Session::register_ack`] does: an open session whose ids are not
/// used up makes its next id wait.
pub open spec fn ack_registered(s: SessionView, now: u64) -> (SessionView, Option<AckHandle>) {
    if is_open(s.state) && s.next_ack < u64::MAX {
        (
            SessionView {
                acks: s.acks.push(PendingAck { id: s.next_ack, deadline: ack_deadline(s, now) }),
                next_ack: (s.next_ack + 1) as u64,
                ..s
            },
            Some(AckHandle { id: s.next_ack }),
        )
    } else {
        (s, None)
    }
}

/// What [`Session::receive_frame`] does: a frame that parses is received as
/// its packet; one that does not closes the session.
pub open spec fn frame_received(s: SessionView, transport: TransportKind, frame: Seq<u8>, now: u64)
    -> (SessionView, Result<InboundView, SessionError>) {
    if !is_open(s.state) && s.state != SessionState::Connecting {
        (s, Err(SessionError::Closed))
    } else {
        match frame_packet(frame, s.encoding) {
            Err(e) => (shut(s, CloseReason::FramingError), Err(SessionError::Framing(e))),
            Ok(packet) => received(s, transport, packet, now),
        }
    }
}

impl View for Session {
    type V = SessionView;

    closed spec fn view(&self) -> SessionView {
        SessionView {
            sid: self.sid@,
            encoding: self.encoding,
            config: self.config,
            state: self.state,
            transport: self.transport,
            last_activity: self.last_activity,
            last_ping: self.last_ping,
            ping_sent_at: self.ping_sent_at,
            queue: self.queue@,
            held: self.held@,
            acks: self.acks.pending(),
            next_ack: self.acks.next_id(),
            failed: self.failed@,
            partial: match self.partial {
                Some(partial) => Some(
                    PartialView { packet: partial.packet@, received: blobs(partial.received@) },
                ),
                None => None,
            },
            close_reason: self.close_reason,
        }
    }
}

impl Session {
    /// What must hold of a session at all times.
    pub open spec fn wf(&self) -> bool {
        well_formed(self@)
    }

    /// A session that waits for its handshake.
    pub fn new(sid: Vec<u8>, encoding: Encoding, config: Config) -> (r: Self)
        ensures
            r.wf(),
            r@ == (SessionView {
                sid: sid@,
                encoding,
                config,
                state: SessionState::Connecting,
                transport: TransportKind::Polling,
                last_activity: 0,
                last_ping: 0,
                ping_sent_at: None,
                queue: Seq::empty(),
                held: Seq::empty(),
                acks: Seq::empty(),
                next_ack: 0,
                failed: Seq::empty(),
                partial: None,
                close_reason: None,
            }),
    {
        Session {
            sid,
            encoding,
            config,
            state: SessionState::Connecting,
            transport: TransportKind::Polling,
            last_activity: 0,
            last_ping: 0,
            ping_sent_at: None,
            queue: Vec::new(),
            held: Vec::new(),
            acks: AckRegistry::new(),
            failed: Vec::new(),
            partial: None,
            close_reason: None,
        }
    }

    pub fn sid(&self) -> (r: &Vec<u8>)
        ensures
            r@ == self@.sid,
    {
        &self.sid
    }

    pub fn state(&self) -> (r: SessionState)
        ensures
            r == self@.state,
    {
        self.state
    }

    pub fn transport(&self) -> (r: TransportKind)
        ensures
            r == self@.transport,
    {
        self.transport
    }

    pub fn encoding(&self) -> (r: Encoding)
        ensures
            r == self@.encoding,
    {
        self.encoding
    }

    pub fn close_reason(&self) -> (r: Option<CloseReason>)
        ensures
            r == self@.close_reason,
    {
        self.close_reason
    }

    pub fn last_activity(&self) -> (r: u64)
        ensures
            r == self@.last_activity,
    {
        self.last_activity
    }

    /// The number of acks that wait for a reply.
    pub fn pending_acks(&self) -> (r: usize)
        ensures
            r == self@.acks.len(),
    {
        self.acks.len()
    }

    fn is_open(&self) -> (r: bool)
        ensures
            r == is_open(self@.state),
    {
        match self.state {
            SessionState::Polling => true,
            SessionState::Upgrading => true,
            SessionState::WebSocket => true,
            _ => false,
        }
    }

    /// Closes the session for `reason`.
    pub fn close(&mut self, reason: CloseReason)
        requires
            old(self).wf(),
        ensures
            final(self).wf(),
            final(self)@ == shut(old(self)@, reason),
    {
        match self.state {
            SessionState::Closed => {},
            SessionState::Closing => {
                self.state = SessionState::Closed;
                self.queue = Vec::new();
            },
            _ => {
                let notify = self.is_open() && match reason {
                    CloseReason::ProtocolViolation => true,
                    CloseReason::FramingError => true,
                    CloseReason::Shutdown => true,
                    _ => false,
                };
                let mut failed = self.acks.cancel_all(AckError::Closed);
                self.failed.append(&mut failed);
                self.queue = Vec::new();
                if notify {
                    self.queue.push(Packet::Close);
                    self.state = SessionState::Closing;
                } else {
                    self.state = SessionState::Closed;
                }
                self.held = Vec::new();
                self.partial = None;
                self.ping_sent_at = None;
                self.close_reason = Some(reason);
                assert(self@.queue =~= shut(old(self)@, reason).queue);
            },
        }
    }

    fn enqueue(&mut self, packet: Packet)
        ensures
            final(self)@ == enqueued(old(self)@, packet),
    {
        match self.state {
            SessionState::Upgrading => self.held.push(packet),
            _ => self.queue.push(packet),
        }
    }

    /// Hands `packet` to the session for the client. A session that is not
    /// open gives it back.
    pub fn push(&mut self, packet: Packet) -> (r: Result<(), Packet>)
        requires
            old(self).wf(),
        ensures
            final(self).wf(),
            (final(self)@, r) == pushed(old(self)@, packet),
    {
        if self.is_open() {
            self.enqueue(packet);
            Ok(())
        } else {
            Err(packet)
        }
    }

    /// Takes what `transport` is to write now, oldest first.
    pub fn take_outbound(&mut self, transport: TransportKind) -> (out: Vec<Packet>)
        requires
            old(self).wf(),
        ensures
            final(self).wf(),
            (final(self)@, out@) == taken(old(self)@, transport),
    {
        let mut out: Vec<Packet> = Vec::new();
        let same = match (transport, self.transport) {
            (TransportKind::Polling, TransportKind::Polling) => true,
            (TransportKind::WebSocket, TransportKind::WebSocket) => true,
            _ => false,
        };
        let closing = match self.state {
            SessionState::Closing => true,
            _ => false,
        };
        if same && (self.is_open() || closing) {
            core::mem::swap(&mut out, &mut self.queue);
            if closing {
                self.state = SessionState::Closed;
            }
        }
        out
    }

    /// Collects the waiters that are to be failed.
    pub fn take_failed_acks(&mut self) -> (failed: Vec<AckFailure>)
        requires
            old(self).wf(),
        ensures
            final(self).wf(),
            failed@ == old(self)@.failed,
            final(self)@ == (SessionView { failed: Seq::empty(), ..old(self)@ }),
    {
        let mut failed: Vec<AckFailure> = Vec::new();
        core::mem::swap(&mut failed, &mut self.failed);
        failed
    }

    /// Answers the first request of the session with the handshake.
    pub fn handshake(&mut self, now: u64) -> (r: Result<OpenPacket, SessionError>)
        requires
            old(self).wf(),
        ensures
            final(self).wf(),
            final(self)@ == greeted(old(self)@, now).0,
            match greeted(old(self)@, now).1 {
                Ok(_) => r matches Ok(open) && open.sid@ == old(self)@.sid
                    && open.websocket_upgrade && open.ping_interval == old(
                    self,
                )@.config.ping_interval && open.ping_timeout == old(self)@.config.ping_timeout
                    && open.max_payload == old(self)@.config.max_payload,
                Err(e) => r matches Err(e2) && e2 == e,
            },
    {
        match self.state {
            SessionState::Connecting => {
                self.state = SessionState::Polling;
                self.last_activity = now;
                self.last_ping = now;
                Ok(
                    OpenPacket {
                        sid: self.sid.clone(),
                        websocket_upgrade: true,
                        ping_interval: self.config.ping_interval,
                        ping_timeout: self.config.ping_timeout,
                        max_payload: self.config.max_payload,
                    },
                )
            },
            SessionState::Closing => Err(SessionError::Closed),
            SessionState::Closed => Err(SessionError::Closed),
            _ => {
                self.close(CloseReason::ProtocolViolation);
                Err(SessionError::ProtocolViolation)
            },
        }
    }

    /// Makes the next ack id wait for its reply, from `now` on.
    pub fn register_ack(&mut self, now: u64) -> (r: Option<AckHandle>)
        requires
            old(self).wf(),
        ensures
            final(self).wf(),
            (final(self)@, r) == ack_registered(old(self)@, now),
    {
        if !self.is_open() {
            return None;
        }
        let id = self.acks.next();
        let deadline = now.saturating_add(self.config.ack_timeout);
        self.acks.register_pending(id, deadline)
    }

    /// Lets time pass until `now`.
    pub fn tick(&mut self, now: u64)
        requires
            old(self).wf(),
        ensures
            final(self).wf(),
            final(self)@ == ticked(old(self)@, now),
    {
        if !self.is_open() {
            return ;
        }
        let timed_out = match self.ping_sent_at {
            Some(sent) => now >= sent && now - sent >= self.config.ping_timeout,
            None => false,
        };
        if timed_out {
            self.close(CloseReason::PingTimeout);
            return ;
        }
        let mut expired = self.acks.expire(now);
        self.failed.append(&mut expired);
        proof {
            old(self)@.acks.lemma_filter_len(live_at(now));
        }
        if self.ping_sent_at.is_none() && now >= self.last_ping && now - self.last_ping
            >= self.config.ping_interval {
            self.ping_sent_at = Some(now);
            self.last_ping = now;
            self.enqueue(Packet::Ping { probe: false });
        }
    }

    fn carries(&self, transport: TransportKind) -> (r: bool)
        ensures
            r == carries(self@, transport),
    {
        self.is_open() && match (transport, self.transport) {
            (TransportKind::Polling, TransportKind::Polling) => true,
            (TransportKind::WebSocket, TransportKind::WebSocket) => true,
            _ => false,
        }
    }

    fn violation(&mut self) -> (r: Result<Inbound, SessionError>)
        requires
            old(self).wf(),
        ensures
            final(self).wf(),
            (final(self)@, outcome(r)) == violated(old(self)@),
    {
        self.close(CloseReason::ProtocolViolation);
        Err(SessionError::ProtocolViolation)
    }

    fn deliver(&mut self, packet: ApplicationPacket, attachments: Vec<Vec<u8>>) -> (r: Result<
        Inbound,
        SessionError,
    >)
        requires
            old(self).wf(),
        ensures
            final(self).wf(),
            (final(self)@, outcome(r)) == delivered(old(self)@, packet@, blobs(attachments@)),
    {
        let is_ack = match packet.kind {
            PacketKind::Ack => true,
            PacketKind::BinaryAck => true,
            _ => false,
        };
        if !is_ack {
            return Ok(Inbound::Packet { packet, attachments });
        }
        match packet.ack_id {
            Some(id) => {
                proof {
                    if !has_id(self@.acks, id) {
                        crate::ack::lemma_filter_all(self@.acks, other_than(id));
                    }
                    self@.acks.lemma_filter_len(other_than(id));
                }
                match self.acks.resolve(id, ()) {
                    Some(_) => Ok(Inbound::Ack { packet, attachments }),
                    None => Ok(Inbound::Nothing),
                }
            },
            None => Ok(Inbound::Nothing),
        }
    }

    fn receive_message(&mut self, data: Vec<u8>, now: u64) -> (r: Result<Inbound, SessionError>)
        requires
            old(self).wf(),
            is_open(old(self)@.state),
        ensures
            final(self).wf(),
            (final(self)@, outcome(r)) == message_received(old(self)@, data@, now),
    {
        if self.partial.is_some() {
            return self.violation();
        }
        self.last_activity = now;
        match ApplicationPacket::decode(data.as_slice()) {
            Err(e) => Err(SessionError::Decode(e)),
            Ok(packet) => {
                if packet.kind.is_binary() && packet.attachments > 0 {
                    let received: Vec<Vec<u8>> = Vec::new();
                    assert(blobs(received@) =~= Seq::<Seq<u8>>::empty());
                    self.partial = Some(PartialPacket { packet, received });
                    Ok(Inbound::Nothing)
                } else {
                    let attachments: Vec<Vec<u8>> = Vec::new();
                    assert(blobs(attachments@) =~= Seq::<Seq<u8>>::empty());
                    self.deliver(packet, attachments)
                }
            },
        }
    }

    /// Takes a packet that came on `transport` at `now`.
    pub fn receive(&mut self, transport: TransportKind, packet: Packet, now: u64) -> (r: Result<
        Inbound,
        SessionError,
    >)
        requires
            old(self).wf(),
        ensures
            final(self).wf(),
            (final(self)@, outcome(r)) == received(old(self)@, transport, packet@, now),
    {
        match self.state {
            SessionState::Closing => {
                return Err(SessionError::Closed);
            },
            SessionState::Closed => {
                return Err(SessionError::Closed);
            },
            _ => {},
        }
        if self.carries(transport) {
            return match packet {
                Packet::Pong { probe } => {
                    if probe {
                        self.violation()
                    } else {
                        self.ping_sent_at = None;
                        self.last_activity = now;
                        Ok(Inbound::Nothing)
                    }
                },
                Packet::Message(data) => self.receive_message(data, now),
                Packet::Close => {
                    self.close(CloseReason::ClientClose);
                    Ok(Inbound::Closed)
                },
                _ => self.violation(),
            };
        }
        let candidate = match transport {
            TransportKind::WebSocket => true,
            TransportKind::Polling => false,
        };
        match self.state {
            SessionState::Polling => {
                let probed = match packet {
                    Packet::Ping { probe } => probe,
                    _ => false,
                };
                if candidate && probed {
                    self.state = SessionState::Upgrading;
                    self.last_activity = now;
                    Ok(Inbound::Reply(Packet::Pong { probe: true }))
                } else {
                    self.violation()
                }
            },
            SessionState::Upgrading => {
                let confirmed = match packet {
                    Packet::Upgrade => true,
                    _ => false,
                };
                if candidate && confirmed {
                    self.state = SessionState::WebSocket;
                    self.transport = TransportKind::WebSocket;
                    let mut held: Vec<Packet> = Vec::new();
                    core::mem::swap(&mut held, &mut self.held);
                    self.queue.append(&mut held);
                    self.last_activity = now;
                    Ok(Inbound::Upgraded)
                } else {
                    self.violation()
                }
            },
            _ => self.violation(),
        }
    }

    /// Takes a binary attachment that came on `transport` at `now`.
    pub fn receive_binary(&mut self, transport: TransportKind, data: Vec<u8>, now: u64) -> (r:
        Result<Inbound, SessionError>)
        requires
            old(self).wf(),
        ensures
            final(self).wf(),
            (final(self)@, outcome(r)) == attachment_received(old(self)@, transport, data@, now),
    {
        match self.state {
            SessionState::Closing => {
                return Err(SessionError::Closed);
            },
            SessionState::Closed => {
                return Err(SessionError::Closed);
            },
            _ => {},
        }
        if !self.carries(transport) {
            return self.violation();
        }
        let mut awaited: Option<PartialPacket> = None;
        core::mem::swap(&mut awaited, &mut self.partial);
        match awaited {
            None => self.violation(),
            Some(partial) => {
                let PartialPacket { packet, received } = partial;
                let mut received = received;
                let ghost before = blobs(received@);
                received.push(data);
                assert(blobs(received@) =~= before.push(data@));
                self.last_activity = now;
                if received.len() as u64 == packet.attachments {
                    self.deliver(packet, received)
                } else {
                    self.partial = Some(PartialPacket { packet, received });
                    Ok(Inbound::Nothing)
                }
            },
        }
    }

    /// Takes a frame that came on `transport` at `now`.
    pub fn receive_frame(&mut self, transport: TransportKind, frame: &[u8], now: u64) -> (r:
        Result<Inbound, SessionError>)
        requires
            old(self).wf(),
        ensures
            final(self).wf(),
            (final(self)@, outcome(r)) == frame_received(old(self)@, transport, frame@, now),
    {
        match self.state {
            SessionState::Closing => {
                return Err(SessionError::Closed);
            },
            SessionState::Closed => {
                return Err(SessionError::Closed);
            },
            _ => {},
        }
        match Packet::decode(frame, self.encoding) {
            Err(e) => {
                self.close(CloseReason::FramingError);
                Err(SessionError::Framing(e))
            },
            Ok(packet) => self.receive(transport, packet, now),
        }
    }
}

/// One event of a handover: the application produces a packet, a transport
/// asks for what it is to write, the probe ping comes on the WebSocket, or the
/// upgrade packet does.
pub enum HandoverStep {
    Push(Packet),
    Take(TransportKind),
    Probe { now: u64 },
    Upgrade { now: u64 },
}

/// The session after `step`, and what the step gave a transport to write.
pub open spec fn handover_step(s: SessionView, step: HandoverStep) -> (SessionView, Seq<Packet>) {
    match step {
        HandoverStep::Push(packet) => (pushed(s, packet).0, Seq::empty()),
        HandoverStep::Take(transport) => taken(s, transport),
        HandoverStep::Probe { now } => (
            received(s, TransportKind::WebSocket, PacketView::Ping { probe: true }, now).0,
            Seq::empty(),
        ),
        HandoverStep::Upgrade { now } => (
            received(s, TransportKind::WebSocket, PacketView::Upgrade, now).0,
            Seq::empty(),
        ),
    }
}

/// The session after `steps`, and all that the transports were given to
/// write, in the order in which they were given it.
pub open spec fn handover_run(s: SessionView, steps: Seq<HandoverStep>) -> (
    SessionView,
    Seq<Packet>,
)
    decreases steps.len(),
{
    if steps.len() == 0 {
        (s, Seq::empty())
    } else {
        let (before, written) = handover_run(s, steps.drop_last());
        let (after, more) = handover_step(before, steps.last());
        (after, written + more)
    }
}

/// The packets that `steps` produce, in order.
pub open spec fn produced(steps: Seq<HandoverStep>) -> Seq<Packet>
    decreases steps.len(),
{
    if steps.len() == 0 {
        Seq::empty()
    } else {
        match steps.last() {
            HandoverStep::Push(packet) => produced(steps.drop_last()).push(packet),
            _ => produced(steps.drop_last()),
        }
    }
}

proof fn lemma_handover_step(s: SessionView, step: HandoverStep)
    requires
        well_formed(s),
    ensures
        well_formed(handover_step(s, step).0),
        !is_open(s.state) ==> !is_open(handover_step(s, step).0.state),
        is_open(s.state) && is_open(handover_step(s, step).0.state) ==> handover_step(s, step).1
            + handover_step(s, step).0.queue + handover_step(s, step).0.held =~= s.queue + s.held
            + match step {
            HandoverStep::Push(packet) => seq![packet],
            _ => Seq::empty(),
        },
{
}

/// A handover loses nothing, repeats nothing and keeps the order: as long as
/// the session stays open, what the transports were given to write, followed
/// by what still waits in the session, is what waited at the start followed by
/// what was produced since. Once the WebSocket writes, nothing is held back.
pub proof fn lemma_handover(s: SessionView, steps: Seq<HandoverStep>)
    requires
        well_formed(s),
        is_open(s.state),
        is_open(handover_run(s, steps).0.state),
    ensures
        well_formed(handover_run(s, steps).0),
        handover_run(s, steps).1 + handover_run(s, steps).0.queue + handover_run(s, steps).0.held
            == s.queue + s.held + produced(steps),
        handover_run(s, steps).0.state == SessionState::WebSocket ==> handover_run(
            s,
            steps,
        ).0.held.len() == 0,
    decreases steps.len(),
{
    if steps.len() == 0 {
        assert(handover_run(s, steps).1 + s.queue + s.held =~= s.queue + s.held + produced(steps));
    } else {
        let (before, written) = handover_run(s, steps.drop_last());
        let (after, more) = handover_step(before, steps.last());
        lemma_handover_closed(s, steps.drop_last());
        lemma_handover_step(before, steps.last());
        lemma_handover(s, steps.drop_last());
        assert((written + more) + after.queue + after.held =~= written + (more + after.queue
            + after.held));
        assert(written + (before.queue + before.held + match steps.last() {
            HandoverStep::Push(packet) => seq![packet],
            _ => Seq::empty(),
        }) =~= (written + before.queue + before.held) + match steps.last() {
            HandoverStep::Push(packet) => seq![packet],
            _ => Seq::empty(),
        });
    }
}

proof fn lemma_handover_closed(s: SessionView, steps: Seq<HandoverStep>)
    requires
        well_formed(s),
    ensures
        well_formed(handover_run(s, steps).0),
        !is_open(s.state) ==> !is_open(handover_run(s, steps).0.state),
    decreases steps.len(),
{
    if steps.len() > 0 {
        lemma_handover_closed(s, steps.drop_last());
        lemma_handover_step(handover_run(s, steps.drop_last()).0, steps.last());
    }
}

/// A ping that has waited for its pong for the whole ping timeout closes the
/// session at the next tick, and in that same step every waiting ack is
/// handed out as failed.
pub proof fn lemma_heartbeat_timeout(s: SessionView, now: u64)
    requires
        well_formed(s),
        is_open(s.state),
        ping_timed_out(s, now),
    ensures
        ticked(s, now).state == SessionState::Closed,
        ticked(s, now).close_reason == Some(CloseReason::PingTimeout),
        ticked(s, now).acks.len() == 0,
        ticked(s, now).failed == s.failed + failures(s.acks, AckError::Closed),
{
}

/// Only a pong answers a ping. While a ping waits for its pong, producing
/// packets, writing them, registering acks and ticks before the timeout leave
/// it waiting; so does every inbound packet but the pong, unless it closes the
/// session.
pub proof fn lemma_ping_waits(
    s: SessionView,
    transport: TransportKind,
    inbound: PacketView,
    outbound: Packet,
    now: u64,
)
    requires
        well_formed(s),
        is_open(s.state),
        s.ping_sent_at is Some,
    ensures
        pushed(s, outbound).0.ping_sent_at == s.ping_sent_at,
        taken(s, transport).0.ping_sent_at == s.ping_sent_at,
        ack_registered(s, now).0.ping_sent_at == s.ping_sent_at,
        !ping_timed_out(s, now) ==> ticked(s, now).ping_sent_at == s.ping_sent_at,
        inbound != (PacketView::Pong { probe: false }) ==> received(
            s,
            transport,
            inbound,
            now,
        ).0.ping_sent_at == s.ping_sent_at || !is_open(
            received(s, transport, inbound, now).0.state,
        ),
{
}

/// What is sent is what arrives: the frame of a message that carries a
/// representable application packet, taken on the transport that carries the
/// session, hands that very packet to the application. (A binary packet that
/// announces attachments waits for them first, and the reply to an ack goes to
/// its waiter; neither is meant here.)
pub proof fn lemma_message_arrives(
    s: SessionView,
    transport: TransportKind,
    packet: ApplicationView,
    now: u64,
)
    requires
        well_formed(s),
        carries(s, transport),
        s.partial is None,
        representable(packet),
        packet.kind != PacketKind::Ack,
        packet.kind != PacketKind::BinaryAck,
        packet.attachments == 0,
    ensures
        frame_received(
            s,
            transport,
            frame_of(PacketView::Message(text_of(packet)), s.encoding),
            now,
        ) == (
            SessionView { last_activity: now, ..s },
            Ok::<_, SessionError>(InboundView::Packet { packet, attachments: Seq::empty() }),
        ),
{
    crate::packet::lemma_decode_encode(PacketView::Message(text_of(packet)), s.encoding);
    crate::application::lemma_decode_encode(packet);
}

} // verus!
