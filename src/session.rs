//! The live connection to one server process, as a state machine that the
//! caller drives: it says what to write and which waiter to wake, and the
//! caller does the writing, reading and waiting.
//!
//! `Starting → Handshaking → Ready → ShuttingDown → Terminated`; a failure
//! (spawn, handshake, or the reader stopping) leads straight to
//! `Terminated`. Only the three middle phases count as alive: anything sent
//! outside them is refused before a byte is framed, and reaching
//! `Terminated` drops every pending waiter.

use vstd::prelude::*;

use crate::correlator::{lemma_register_ids_increase, register_all, Correlator, CorrelatorView};
use crate::frame::{encode_frame, frame_bytes};
use crate::message::{encode_notification, encode_request, notification_body, request_body};

verus! {

/// Where a session is in its life.
#[derive(Debug, Clone, Copy, PartialEq, Eq)]
pub enum Phase {
    Starting,
    Handshaking,
    Ready,
    ShuttingDown,
    Terminated,
}

/// What happened to the session.
#[derive(Debug, Clone, Copy, PartialEq, Eq)]
pub enum LifecycleEvent {
    /// The server process started.
    Spawned,
    /// The capability negotiation was answered.
    HandshakeSucceeded,
    /// Shutdown was asked for.
    ShutdownRequested,
    /// Spawning or the handshake failed, or the reader stopped.
    Failed,
    /// The process exited, or was killed after the grace period.
    Exited,
}

/// The phase after an event; an event that does not apply changes nothing.
pub open spec fn phase_after(p: Phase, e: LifecycleEvent) -> Phase {
    match (p, e) {
        (Phase::Terminated, _) => Phase::Terminated,
        (_, LifecycleEvent::Failed) => Phase::Terminated,
        (Phase::Starting, LifecycleEvent::Spawned) => Phase::Handshaking,
        (Phase::Handshaking, LifecycleEvent::HandshakeSucceeded) => Phase::Ready,
        (Phase::Ready, LifecycleEvent::ShutdownRequested) => Phase::ShuttingDown,
        (Phase::ShuttingDown, LifecycleEvent::Exited) => Phase::Terminated,
        _ => p,
    }
}

/// The phase after a run of events.
pub open spec fn phase_after_all(p: Phase, es: Seq<LifecycleEvent>) -> Phase
    decreases es.len(),
{
    if es.len() == 0 {
        p
    } else {
        phase_after(phase_after_all(p, es.drop_last()), es.last())
    }
}

/// Whether messages may be sent in a phase.
pub open spec fn is_live(p: Phase) -> bool {
    p == Phase::Handshaking || p == Phase::Ready || p == Phase::ShuttingDown
}

/// Once a session has terminated, no event brings it back.
pub proof fn lemma_terminated_stays(es: Seq<LifecycleEvent>)
    ensures
        phase_after_all(Phase::Terminated, es) == Phase::Terminated,
    decreases es.len(),
{
    if es.len() > 0 {
        lemma_terminated_stays(es.drop_last());
    }
}

/// Once the reader has stopped (a failure, in whatever phase), the session
/// is not alive whatever happens next: `begin_request` and `notification`
/// then refuse every message before framing a byte.
pub proof fn lemma_no_sends_after_failure(p: Phase, es: Seq<LifecycleEvent>)
    ensures
        !is_live(phase_after_all(phase_after(p, LifecycleEvent::Failed), es)),
{
    lemma_terminated_stays(es);
}

/// Why a request or notification did not go out, or did not get an answer.
#[derive(Debug, Clone, Copy, PartialEq, Eq)]
pub enum SessionError {
    /// The server is not running (not started yet, failed, or shut down).
    NotRunning,
    /// Every request identifier has been used.
    IdsExhausted,
    /// No response came within the timeout.
    TimedOut,
    /// The connection was lost while waiting.
    ConnectionLost,
}

/// A request ready to be written.
pub struct OutgoingRequest {
    pub id: i64,
    /// The framed request.
    pub frame: Vec<u8>,
}

/// What to do with a message read from the server.
pub enum Delivery<W> {
    /// Wake this waiter with the message.
    Resolved(W),
    /// Nobody waits for this identifier (it timed out, or never was).
    Unmatched(i64),
    /// A notification from the server.
    Notification,
}

/// How waiting for a response ended.
pub enum WaitOutcome<R> {
    Answered(R),
    /// The waiter was dropped: the connection is gone.
    Closed,
    TimedOut,
}

/// The session as a mathematical value.
pub struct SessionView<W> {
    pub phase: Phase,
    pub requests: CorrelatorView<W>,
}

impl<W> SessionView<W> {
    /// The requests are well formed, and nothing waits unless alive.
    pub open spec fn wf(self) -> bool {
        &&& self.requests.wf()
        &&& !is_live(self.phase) ==> self.requests.pending.is_empty()
    }
}

/// The protocol state of a connection to one server process.
pub struct Session<W> {
    phase: Phase,
    requests: Correlator<W>,
}

impl<W> View for Session<W> {
    type V = SessionView<W>;

    closed spec fn view(&self) -> SessionView<W> {
        SessionView { phase: self.phase, requests: self.requests@ }
    }
}

impl<W> Session<W> {
    /// A session whose process has not started yet.
    pub fn new() -> (r: Session<W>)
        ensures
            r@.wf(),
            r@.phase == Phase::Starting,
            r@.requests.next_id == 1,
            r@.requests.pending.is_empty(),
    {
        Session { phase: Phase::Starting, requests: Correlator::new() }
    }

    /// Where the session is in its life.
    pub fn phase(&self) -> (r: Phase)
        ensures
            r == self@.phase,
    {
        self.phase
    }

    /// Whether messages may be sent.
    pub fn is_alive(&self) -> (r: bool)
        ensures
            r == is_live(self@.phase),
    {
        match self.phase {
            Phase::Handshaking | Phase::Ready | Phase::ShuttingDown => true,
            _ => false,
        }
    }

    /// How many requests wait for a response.
    pub fn pending_count(&self) -> (r: usize)
        ensures
            r == self@.requests.pending.len(),
    {
        self.requests.pending_count()
    }

    /// Moves to the phase after `e`. On reaching `Terminated` every pending
    /// waiter is dropped, so that its caller fails at once; returns how many
    /// were.
    pub fn on_event(&mut self, e: LifecycleEvent) -> (r: usize)
        ensures
            old(self)@.wf() ==> final(self)@.wf(),
            final(self)@.phase == phase_after(old(self)@.phase, e),
            final(self)@.requests.next_id == old(self)@.requests.next_id,
            is_live(final(self)@.phase) ==> final(self)@.requests == old(self)@.requests && r == 0,
            !is_live(final(self)@.phase) ==> final(self)@.requests.pending.is_empty() && r == old(
                self,
            )@.requests.pending.len(),
    {
        let next = match (self.phase, e) {
            (Phase::Terminated, _) => Phase::Terminated,
            (_, LifecycleEvent::Failed) => Phase::Terminated,
            (Phase::Starting, LifecycleEvent::Spawned) => Phase::Handshaking,
            (Phase::Handshaking, LifecycleEvent::HandshakeSucceeded) => Phase::Ready,
            (Phase::Ready, LifecycleEvent::ShutdownRequested) => Phase::ShuttingDown,
            (Phase::ShuttingDown, LifecycleEvent::Exited) => Phase::Terminated,
            (p, _) => p,
        };
        self.phase = next;
        match next {
            Phase::Handshaking | Phase::Ready | Phase::ShuttingDown => 0,
            _ => self.requests.drain_all(),
        }
    }

    /// Registers `waiter` under the next identifier and frames the request.
    /// Refused, with nothing registered, when the session is not alive or
    /// the identifiers are used up.
    pub fn begin_request(&mut self, waiter: W, method: &str, params: &[u8]) -> (r: Result<
        OutgoingRequest,
        SessionError,
    >)
        ensures
            old(self)@.wf() ==> final(self)@.wf(),
            final(self)@.phase == old(self)@.phase,
            !is_live(old(self)@.phase) ==> r == Err::<OutgoingRequest, SessionError>(
                SessionError::NotRunning,
            ) && final(self)@ == old(self)@,
            is_live(old(self)@.phase) && !old(self)@.requests.can_register() ==> r == Err::<
                OutgoingRequest,
                SessionError,
            >(SessionError::IdsExhausted) && final(self)@ == old(self)@,
            is_live(old(self)@.phase) && old(self)@.requests.can_register() ==> {
                &&& r matches Ok(req) && req.id == old(self)@.requests.next_id && req.frame@
                    == frame_bytes(request_body(req.id, method@, params@))
                &&& final(self)@.requests == old(self)@.requests.registered(waiter)
            },
            final(self)@ == after_request(old(self)@, waiter),
    {
        if !self.is_alive() {
            return Err(SessionError::NotRunning);
        }
        match self.requests.register(waiter) {
            None => Err(SessionError::IdsExhausted),
            Some(id) => {
                let body = encode_request(id, method, params);
                let frame = encode_frame(body.as_slice());
                Ok(OutgoingRequest { id, frame })
            },
        }
    }

    /// Frames a notification; refused when the session is not alive.
    pub fn notification(&self, method: &str, params: &[u8]) -> (r: Result<Vec<u8>, SessionError>)
        ensures
            !is_live(self@.phase) ==> r == Err::<Vec<u8>, SessionError>(SessionError::NotRunning),
            is_live(self@.phase) ==> (r matches Ok(f) && f@ == frame_bytes(
                notification_body(method@, params@),
            )),
    {
        if !self.is_alive() {
            return Err(SessionError::NotRunning);
        }
        let body = encode_notification(method, params);
        Ok(encode_frame(body.as_slice()))
    }

    /// Routes a message read from the server by its identifier: the waiter
    /// registered under exactly that identifier is taken out and returned.
    pub fn deliver(&mut self, id: Option<i64>) -> (r: Delivery<W>)
        ensures
            old(self)@.wf() ==> final(self)@.wf(),
            final(self)@.phase == old(self)@.phase,
            final(self)@.requests.next_id == old(self)@.requests.next_id,
            match id {
                None => r is Notification && final(self)@ == old(self)@,
                Some(k) => {
                    &&& final(self)@.requests.pending == old(self)@.requests.pending.remove(k)
                    &&& if old(self)@.requests.pending.contains_key(k) {
                        r == Delivery::<W>::Resolved(old(self)@.requests.pending[k])
                    } else {
                        r == Delivery::<W>::Unmatched(k)
                    }
                },
            },
    {
        match id {
            None => Delivery::Notification,
            Some(k) => match self.requests.resolve(k) {
                Some(w) => Delivery::Resolved(w),
                None => Delivery::Unmatched(k),
            },
        }
    }

    /// Gives up on request `id` (its write failed, say): its entry goes, so
    /// that a late response is discarded.
    pub fn abandon(&mut self, id: i64) -> (r: bool)
        ensures
            old(self)@.wf() ==> final(self)@.wf(),
            final(self)@.phase == old(self)@.phase,
            final(self)@.requests.next_id == old(self)@.requests.next_id,
            final(self)@.requests.pending == old(self)@.requests.pending.remove(id),
            r == old(self)@.requests.pending.contains_key(id),
    {
        self.requests.abandon(id)
    }

    /// Ends the wait for request `id`: its entry is gone afterwards whatever
    /// the outcome, and the caller gets the answer, a timeout, or the lost
    /// connection.
    pub fn finish_wait<R>(&mut self, id: i64, outcome: WaitOutcome<R>) -> (r: Result<
        R,
        SessionError,
    >)
        ensures
            old(self)@.wf() ==> final(self)@.wf(),
            final(self)@ == after_wait(old(self)@, id),
            r == wait_result(outcome),
    {
        self.requests.abandon(id);
        match outcome {
            WaitOutcome::Answered(a) => Ok(a),
            WaitOutcome::Closed => Err(SessionError::ConnectionLost),
            WaitOutcome::TimedOut => Err(SessionError::TimedOut),
        }
    }
}

/// The session after the wait for request `id` ended: that request is no
/// longer pending, and nothing else changes.
pub open spec fn after_wait<W>(v: SessionView<W>, id: i64) -> SessionView<W> {
    SessionView {
        phase: v.phase,
        requests: CorrelatorView { next_id: v.requests.next_id, pending: v.requests.pending.remove(id) },
    }
}

/// What the caller gets when a wait ends.
pub open spec fn wait_result<R>(outcome: WaitOutcome<R>) -> Result<R, SessionError> {
    match outcome {
        WaitOutcome::Answered(a) => Ok(a),
        WaitOutcome::Closed => Err(SessionError::ConnectionLost),
        WaitOutcome::TimedOut => Err(SessionError::TimedOut),
    }
}

/// When no response came in time, the request's entry leaves the pending
/// map (which then holds one entry fewer, none for that identifier) and the
/// caller gets the timeout error.
pub proof fn lemma_timeout_cleans_up<W, R>(v: SessionView<W>, id: i64)
    requires
        v.wf(),
        v.requests.pending.contains_key(id),
    ensures
        after_wait(v, id).requests.pending.len() == v.requests.pending.len() - 1,
        !after_wait(v, id).requests.pending.contains_key(id),
        after_wait(v, id).wf(),
        wait_result::<R>(WaitOutcome::TimedOut) == Err::<R, SessionError>(SessionError::TimedOut),
{
}

/// The session after a request from waiter `w`, as `begin_request` leaves
/// it: `w` registered under the next identifier while the session is alive
/// and identifiers last, nothing changed otherwise.
pub open spec fn after_request<W>(v: SessionView<W>, w: W) -> SessionView<W> {
    if is_live(v.phase) && v.requests.can_register() {
        SessionView { phase: v.phase, requests: v.requests.registered(w) }
    } else {
        v
    }
}

/// Requests from the waiters `ws`, one after another: the final session and
/// the identifiers the accepted requests carry, in order.
pub open spec fn request_all<W>(v: SessionView<W>, ws: Seq<W>) -> (SessionView<W>, Seq<i64>)
    decreases ws.len(),
{
    if ws.len() == 0 {
        (v, seq![])
    } else {
        let (before, ids) = request_all(v, ws.drop_last());
        if is_live(before.phase) && before.requests.can_register() {
            (after_request(before, ws.last()), ids.push(before.requests.next_id))
        } else {
            (before, ids)
        }
    }
}

proof fn lemma_request_all_registers<W>(v: SessionView<W>, ws: Seq<W>)
    ensures
        request_all(v, ws).0.phase == v.phase,
        is_live(v.phase) ==> request_all(v, ws).0.requests == register_all(v.requests, ws).0
            && request_all(v, ws).1 == register_all(v.requests, ws).1,
        !is_live(v.phase) ==> request_all(v, ws).0 == v && request_all(v, ws).1.len() == 0,
    decreases ws.len(),
{
    if ws.len() > 0 {
        lemma_request_all_registers(v, ws.drop_last());
    }
}

/// Requests issued one after another on a session carry identifiers that
/// increase strictly in the order of the calls, so no two are equal, and
/// each is above every identifier pending (or issued) before them. While
/// the session is alive and identifiers last, every call gets one and each
/// waiter is pending under its own.
pub proof fn lemma_request_ids_increase<W>(v: SessionView<W>, ws: Seq<W>)
    requires
        v.wf(),
    ensures
        ({
            let (after, ids) = request_all(v, ws);
            &&& after.wf()
            &&& forall|i: int, j: int| 0 <= i < j < ids.len() ==> ids[i] < ids[j]
            &&& forall|i: int, k: i64|
                0 <= i < ids.len() && #[trigger] v.requests.pending.contains_key(k) ==> k
                    < #[trigger] ids[i]
            &&& forall|i: int| 0 <= i < ids.len() ==> v.requests.next_id <= #[trigger] ids[i]
            &&& is_live(v.phase) && v.requests.next_id + ws.len() <= i64::MAX ==> {
                &&& ids.len() == ws.len()
                &&& forall|i: int|
                    0 <= i < ids.len() ==> after.requests.pending.contains_key(#[trigger] ids[i])
                        && after.requests.pending[ids[i]] == ws[i]
            }
        }),
{
    lemma_request_all_registers(v, ws);
    if is_live(v.phase) {
        lemma_register_ids_increase(v.requests, ws);
    }
}

} // verus!
