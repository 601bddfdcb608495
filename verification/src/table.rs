//! The table of sessions.
//!
//! The table owns every session and is the one place through which a session
//! is reached: by its id. An event for one session leaves all others as they
//! are.

use vstd::prelude::*;
use crate::ack::{lemma_filter_take_step, AckFailure, AckHandle};
use crate::handshake::OpenPacket;
use crate::packet::{Encoding, Packet};
use crate::session::{
    ack_registered, attachment_received, frame_received, outcome, pushed, shut, taken,
    ticked, well_formed, CloseReason, Config, Inbound, InboundView, Session, SessionError,
    SessionState, SessionView, TransportKind,
};
use crate::wire::same_bytes;

verus! {

/// Some session of `t` has the id `sid`.
pub open spec fn known(t: Seq<SessionView>, sid: Seq<u8>) -> bool {
    exists|i: int| 0 <= i < t.len() && t[i].sid == sid
}

/// The place in `t` of the session with the id `sid`.
pub open spec fn place(t: Seq<SessionView>, sid: Seq<u8>) -> int {
    choose|i: int| 0 <= i < t.len() && t[i].sid == sid
}

/// Every session is well formed and no two have the same id.
pub open spec fn table_well_formed(t: Seq<SessionView>) -> bool {
    &&& forall|i: int| 0 <= i < t.len() ==> well_formed(#[trigger] t[i])
    &&& forall|i: int, j: int| 0 <= i < j < t.len() ==> t[i].sid != t[j].sid
}

/// Holds of the sessions that are closed.
pub open spec fn is_closed() -> spec_fn(SessionView) -> bool {
    |s: SessionView| s.state == SessionState::Closed
}

/// Holds of the sessions that are not closed.
pub open spec fn is_alive() -> spec_fn(SessionView) -> bool {
    |s: SessionView| s.state != SessionState::Closed
}

/// The session that a handshake with these parameters creates: it is served
/// by long-polling, and its clocks start at `now`.
pub open spec fn opened(sid: Seq<u8>, encoding: Encoding, config: Config, now: u64) -> SessionView {
    SessionView {
        sid,
        encoding,
        config,
        state: SessionState::Polling,
        transport: TransportKind::Polling,
        last_activity: now,
        last_ping: now,
        ping_sent_at: None,
        queue: Seq::empty(),
        held: Seq::empty(),
        acks: Seq::empty(),
        next_ack: 0,
        failed: Seq::empty(),
        partial: None,
        close_reason: None,
    }
}

/// The contents of a list of sessions.
pub open spec fn session_views(sessions: Seq<Session>) -> Seq<SessionView> {
    Seq::new(sessions.len(), |i: int| sessions[i]@)
}

/// All sessions of a server, oldest first.
pub struct SessionTable {
    sessions: Vec<Session>,
}

impl View for SessionTable {
    type V = Seq<SessionView>;

    closed spec fn view(&self) -> Seq<SessionView> {
        session_views(self.sessions@)
    }
}

impl SessionTable {
    /// What must hold of the table at all times.
    pub open spec fn wf(&self) -> bool {
        table_well_formed(self@)
    }

    /// A table without sessions.
    pub fn new() -> (r: Self)
        ensures
            r.wf(),
            r@ == Seq::<SessionView>::empty(),
    {
        let r = SessionTable { sessions: Vec::new() };
        assert(r@ =~= Seq::<SessionView>::empty());
        r
    }

    /// The number of sessions.
    pub fn len(&self) -> (n: usize)
        ensures
            n == self@.len(),
    {
        self.sessions.len()
    }

    fn find(&self, sid: &[u8]) -> (r: Option<usize>)
        requires
            self.wf(),
        ensures
            match r {
                Some(at) => known(self@, sid@) && at == place(self@, sid@) && at < self@.len()
                    && self@[at as int].sid == sid@,
                None => !known(self@, sid@),
            },
    {
        let mut i: usize = 0;
        while i < self.sessions.len()
            invariant
                i <= self.sessions.len(),
                self.wf(),
                forall|k: int| 0 <= k < i ==> self@[k].sid != sid@,
            decreases self.sessions.len() - i,
        {
            if same_bytes(self.sessions[i].sid().as_slice(), sid) {
                assert(self@[i as int].sid == sid@);
                return Some(i);
            }
            i += 1;
        }
        None
    }

    /// Whether the table holds a session with the id `sid`.
    pub fn contains(&self, sid: &[u8]) -> (r: bool)
        requires
            self.wf(),
        ensures
            r == known(self@, sid@),
    {
        self.find(sid).is_some()
    }

    /// The state of the session `sid`, if there is one.
    pub fn state(&self, sid: &[u8]) -> (r: Option<SessionState>)
        requires
            self.wf(),
        ensures
            r == if known(self@, sid@) {
                Some(self@[place(self@, sid@)].state)
            } else {
                None
            },
    {
        match self.find(sid) {
            Some(at) => Some(self.sessions[at].state()),
            None => None,
        }
    }

    fn take(&mut self, at: usize) -> (session: Session)
        requires
            old(self).wf(),
            at < old(self)@.len(),
        ensures
            session@ == old(self)@[at as int],
            session.wf(),
            session_views(final(self).sessions@) == old(self)@.remove(at as int),
            final(self).sessions@.len() == old(self)@.len() - 1,
    {
        assert(well_formed(self@[at as int]));
        let session = self.sessions.remove(at);
        assert(session_views(self.sessions@) =~= old(self)@.remove(at as int));
        session
    }

    fn put(&mut self, at: usize, session: Session, Ghost(before): Ghost<Seq<SessionView>>)
        requires
            at <= old(self).sessions@.len(),
            table_well_formed(before),
            at < before.len(),
            session_views(old(self).sessions@) == before.remove(at as int),
            session.wf(),
            session@.sid == before[at as int].sid,
        ensures
            final(self).wf(),
            final(self)@ == before.update(at as int, session@),
            final(self).sessions@.len() == before.len(),
    {
        let ghost rest = session_views(self.sessions@);
        let ghost others = self.sessions@;
        assert(rest.len() == before.len() - 1);
        assert(others.len() == rest.len());
        self.sessions.insert(at, session);
        assert(self.sessions@ == others.insert(at as int, session));
        assert(self@.len() == before.len());
        assert forall|k: int| 0 <= k < before.len() implies #[trigger] self@[k] == before.update(
            at as int,
            session@,
        )[k] by {
            if k < at {
                assert(self.sessions@[k] == others[k]);
                assert(rest[k] == others[k]@);
                assert(before.remove(at as int)[k] == before[k]);
            } else if k > at {
                assert(self.sessions@[k] == others[k - 1]);
                assert(rest[k - 1] == others[k - 1]@);
                assert(before.remove(at as int)[k - 1] == before[k]);
            }
        }
        assert(self@ =~= before.update(at as int, session@));
    }

    /// Answers a handshake: creates the session `sid` and gives its open
    /// packet. An id that is taken creates nothing.
    pub fn open(&mut self, sid: Vec<u8>, encoding: Encoding, config: Config, now: u64) -> (r:
        Option<OpenPacket>)
        requires
            old(self).wf(),
        ensures
            final(self).wf(),
            if known(old(self)@, sid@) {
                r is None && final(self)@ == old(self)@
            } else {
                &&& final(self)@ == old(self)@.push(opened(sid@, encoding, config, now))
                &&& r matches Some(open) && open.sid@ == sid@ && open.websocket_upgrade
                    && open.ping_interval == config.ping_interval && open.ping_timeout
                    == config.ping_timeout && open.max_payload == config.max_payload
            },
    {
        if self.find(sid.as_slice()).is_some() {
            return None;
        }
        let mut session = Session::new(sid, encoding, config);
        let r = session.handshake(now);
        self.sessions.push(session);
        assert(self@ =~= old(self)@.push(opened(sid@, encoding, config, now)));
        match r {
            Ok(open) => Some(open),
            Err(_) => None,
        }
    }

    /// Hands `packet` to the session `sid` for its client. Without such a
    /// session, or where it is not open, the packet comes back.
    pub fn push(&mut self, sid: &[u8], packet: Packet) -> (r: Result<(), Packet>)
        requires
            old(self).wf(),
        ensures
            final(self).wf(),
            if known(old(self)@, sid@) {
                let at = place(old(self)@, sid@);
                final(self)@ == old(self)@.update(at, pushed(old(self)@[at], packet).0) && r
                    == pushed(old(self)@[at], packet).1
            } else {
                final(self)@ == old(self)@ && r == Err::<(), _>(packet)
            },
    {
        match self.find(sid) {
            None => Err(packet),
            Some(at) => {
                let ghost before = self@;
                let mut session = self.take(at);
                let r = session.push(packet);
                self.put(at, session, Ghost(before));
                r
            },
        }
    }

    /// Takes what `transport` is to write now for the session `sid`.
    pub fn take_outbound(&mut self, sid: &[u8], transport: TransportKind) -> (out: Vec<Packet>)
        requires
            old(self).wf(),
        ensures
            final(self).wf(),
            if known(old(self)@, sid@) {
                let at = place(old(self)@, sid@);
                final(self)@ == old(self)@.update(at, taken(old(self)@[at], transport).0) && out@
                    == taken(old(self)@[at], transport).1
            } else {
                final(self)@ == old(self)@ && out@ == Seq::<Packet>::empty()
            },
    {
        match self.find(sid) {
            None => Vec::new(),
            Some(at) => {
                let ghost before = self@;
                let mut session = self.take(at);
                let out = session.take_outbound(transport);
                self.put(at, session, Ghost(before));
                out
            },
        }
    }

    /// Collects the waiters of the session `sid` that are to be failed.
    pub fn take_failed_acks(&mut self, sid: &[u8]) -> (failed: Vec<AckFailure>)
        requires
            old(self).wf(),
        ensures
            final(self).wf(),
            if known(old(self)@, sid@) {
                let at = place(old(self)@, sid@);
                final(self)@ == old(self)@.update(
                    at,
                    SessionView { failed: Seq::empty(), ..old(self)@[at] },
                ) && failed@ == old(self)@[at].failed
            } else {
                final(self)@ == old(self)@ && failed@ == Seq::<AckFailure>::empty()
            },
    {
        match self.find(sid) {
            None => Vec::new(),
            Some(at) => {
                let ghost before = self@;
                let mut session = self.take(at);
                let failed = session.take_failed_acks();
                self.put(at, session, Ghost(before));
                failed
            },
        }
    }

    /// Makes the next ack id of the session `sid` wait for its reply.
    pub fn register_ack(&mut self, sid: &[u8], now: u64) -> (r: Option<AckHandle>)
        requires
            old(self).wf(),
        ensures
            final(self).wf(),
            if known(old(self)@, sid@) {
                let at = place(old(self)@, sid@);
                final(self)@ == old(self)@.update(at, ack_registered(old(self)@[at], now).0) && r
                    == ack_registered(old(self)@[at], now).1
            } else {
                final(self)@ == old(self)@ && r is None
            },
    {
        match self.find(sid) {
            None => None,
            Some(at) => {
                let ghost before = self@;
                let mut session = self.take(at);
                let r = session.register_ack(now);
                self.put(at, session, Ghost(before));
                r
            },
        }
    }

    /// Takes a frame that came for the session `sid` on `transport` at `now`.
    pub fn receive_frame(&mut self, sid: &[u8], transport: TransportKind, frame: &[u8], now: u64)
        -> (r: Result<Inbound, SessionError>)
        requires
            old(self).wf(),
        ensures
            final(self).wf(),
            if known(old(self)@, sid@) {
                let at = place(old(self)@, sid@);
                final(self)@ == old(self)@.update(
                    at,
                    frame_received(old(self)@[at], transport, frame@, now).0,
                ) && outcome(r) == frame_received(old(self)@[at], transport, frame@, now).1
            } else {
                final(self)@ == old(self)@ && outcome(r) == Err::<InboundView, _>(
                    SessionError::UnknownSession,
                )
            },
    {
        match self.find(sid) {
            None => Err(SessionError::UnknownSession),
            Some(at) => {
                let ghost before = self@;
                let mut session = self.take(at);
                let r = session.receive_frame(transport, frame, now);
                self.put(at, session, Ghost(before));
                r
            },
        }
    }

    /// Takes a binary attachment that came for the session `sid` on
    /// `transport` at `now`.
    pub fn receive_binary(
        &mut self,
        sid: &[u8],
        transport: TransportKind,
        data: Vec<u8>,
        now: u64,
    ) -> (r: Result<Inbound, SessionError>)
        requires
            old(self).wf(),
        ensures
            final(self).wf(),
            if known(old(self)@, sid@) {
                let at = place(old(self)@, sid@);
                final(self)@ == old(self)@.update(
                    at,
                    attachment_received(old(self)@[at], transport, data@, now).0,
                ) && outcome(r) == attachment_received(old(self)@[at], transport, data@, now).1
            } else {
                final(self)@ == old(self)@ && outcome(r) == Err::<InboundView, _>(
                    SessionError::UnknownSession,
                )
            },
    {
        match self.find(sid) {
            None => Err(SessionError::UnknownSession),
            Some(at) => {
                let ghost before = self@;
                let mut session = self.take(at);
                let r = session.receive_binary(transport, data, now);
                self.put(at, session, Ghost(before));
                r
            },
        }
    }

    /// Closes the session `sid` for `reason`. Without such a session nothing
    /// happens.
    pub fn close(&mut self, sid: &[u8], reason: CloseReason)
        requires
            old(self).wf(),
        ensures
            final(self).wf(),
            if known(old(self)@, sid@) {
                let at = place(old(self)@, sid@);
                final(self)@ == old(self)@.update(at, shut(old(self)@[at], reason))
            } else {
                final(self)@ == old(self)@
            },
    {
        match self.find(sid) {
            None => {},
            Some(at) => {
                let ghost before = self@;
                let mut session = self.take(at);
                session.close(reason);
                self.put(at, session, Ghost(before));
            },
        }
    }

    /// Lets time pass until `now` for every session.
    pub fn tick(&mut self, now: u64)
        requires
            old(self).wf(),
        ensures
            final(self).wf(),
            final(self)@ == Seq::new(old(self)@.len(), |i: int| ticked(old(self)@[i], now)),
    {
        let ghost start = self@;
        let mut i: usize = 0;
        while i < self.sessions.len()
            invariant
                i <= self.sessions.len(),
                self.wf(),
                self@.len() == start.len(),
                self.sessions@.len() == start.len(),
                forall|k: int| 0 <= k < i ==> self@[k] == ticked(start[k], now),
                forall|k: int| i <= k < start.len() ==> self@[k] == start[k],
                forall|k: int| 0 <= k < start.len() ==> self@[k].sid == start[k].sid,
            decreases self.sessions.len() - i,
        {
            let ghost before = self@;
            let mut session = self.take(i);
            session.tick(now);
            self.put(i, session, Ghost(before));
            i += 1;
        }
        assert(self@ =~= Seq::new(start.len(), |i: int| ticked(start[i], now)));
    }

    /// Closes every session because the server shuts down.
    pub fn shutdown(&mut self)
        requires
            old(self).wf(),
        ensures
            final(self).wf(),
            final(self)@ == Seq::new(
                old(self)@.len(),
                |i: int| shut(old(self)@[i], CloseReason::Shutdown),
            ),
    {
        let ghost start = self@;
        let mut i: usize = 0;
        while i < self.sessions.len()
            invariant
                i <= self.sessions.len(),
                self.wf(),
                self@.len() == start.len(),
                self.sessions@.len() == start.len(),
                forall|k: int| 0 <= k < i ==> self@[k] == shut(start[k], CloseReason::Shutdown),
                forall|k: int| i <= k < start.len() ==> self@[k] == start[k],
                forall|k: int| 0 <= k < start.len() ==> self@[k].sid == start[k].sid,
            decreases self.sessions.len() - i,
        {
            let ghost before = self@;
            let mut session = self.take(i);
            session.close(CloseReason::Shutdown);
            self.put(i, session, Ghost(before));
            i += 1;
        }
        assert(self@ =~= Seq::new(start.len(), |i: int| shut(start[i], CloseReason::Shutdown)));
    }

    /// Removes the sessions that are closed and hands them out, oldest first.
    /// The others stay, in their order.
    pub fn reap(&mut self) -> (closed: Vec<Session>)
        requires
            old(self).wf(),
        ensures
            final(self).wf(),
            final(self)@ == old(self)@.filter(is_alive()),
            session_views(closed@) == old(self)@.filter(is_closed()),
    {
        let ghost start = self@;
        let mut closed: Vec<Session> = Vec::new();
        let mut i: usize = 0;
        proof {
            reveal(Seq::filter);
            assert(start.take(0).filter(is_alive()) =~= self@.take(0));
            assert(start.take(0).filter(is_closed()) =~= session_views(closed@));
            assert(self@.skip(0) =~= start.skip(0));
        }
        while i < self.sessions.len()
            invariant
                i <= self.sessions.len(),
                self.sessions@.len() == self@.len(),
                self.wf(),
                i + closed@.len() + (self@.len() - i) == start.len(),
                self@.take(i as int) == start.take(i + closed@.len()).filter(is_alive()),
                session_views(closed@) == start.take(i + closed@.len()).filter(is_closed()),
                self@.skip(i as int) == start.skip(i + closed@.len()),
            decreases self.sessions.len() - i,
        {
            let ghost at = i + closed@.len();
            let ghost before = self@;
            let ghost done = session_views(closed@);
            proof {
                lemma_filter_take_step(start, at, is_alive());
                lemma_filter_take_step(start, at, is_closed());
                assert(before[i as int] == before.skip(i as int)[0]);
                assert(start[at] == start.skip(at)[0]);
                assert(before.skip(i as int).skip(1) =~= before.skip(i + 1));
                assert(start.skip(at).skip(1) =~= start.skip(at + 1));
            }
            let gone = match self.sessions[i].state() {
                SessionState::Closed => true,
                _ => false,
            };
            if gone {
                let session = self.sessions.remove(i);
                closed.push(session);
                proof {
                    assert(self@ =~= before.remove(i as int));
                    assert(self@.take(i as int) =~= before.take(i as int));
                    assert(self@.skip(i as int) =~= before.skip(i + 1));
                    assert(session_views(closed@) =~= done.push(start[at]));
                }
            } else {
                proof {
                    assert(before.take(i + 1) =~= before.take(i as int).push(start[at]));
                    assert(before.skip(i + 1) =~= start.skip(at + 1));
                }
                i += 1;
            }
        }
        proof {
            assert(self@.take(i as int) =~= self@);
            assert(start.take(i + closed@.len()) =~= start);
        }
        closed
    }
}

} // verus!
