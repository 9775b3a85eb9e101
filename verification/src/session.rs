//! The session: one child process's transport state.  It owns the lifecycle
//! state machine, the pending-request table and the frame decoder.  Callers
//! encode sends through it; the single dispatcher loop feeds it the bytes
//! read from the process and takes dispatch steps.
//!
//! The session computes; it performs no input or output.  The surrounding
//! program writes the frames a send returns, reads chunks and feeds them in,
//! and fulfills the completion handles a step hands back.  The handle type
//! is a parameter: the session stores each handle and returns it exactly
//! once, with what it is to be fulfilled with.

use vstd::prelude::*;

use crate::body::{
    body_bytes, decodes_to, json_string_bytes, lit_method, lit_notification_open,
    lit_request_open, params_suffix, shape_ok,
};
use crate::codec::{dec_u64, frame_bytes, poll_spec, DecodeStep, FrameDecoder, PollSpec};
use crate::json::json_parsed;
use crate::msg::{Message, Outcome, RequestId};
use crate::table::{distinct_ids, has_id, PendingEntry, PendingTable};
use vstd::string::StringExecFns;

verus! {

/// The session lifecycle.
#[derive(Clone, Copy, PartialEq, Eq, Structural, Debug)]
pub enum SessionState {
    /// Spawned and wired up, not yet accepting sends.
    Starting,
    /// Accepting sends.
    Running,
    /// Termination requested: no new sends, in-flight traffic still drains.
    Draining,
    /// Terminal: every pending request has been resolved.
    Terminated,
}

/// Why a send was refused.
#[derive(Clone, Copy, PartialEq, Eq, Structural, Debug)]
pub enum SendError {
    /// The session is not in the running state.
    SessionNotReady,
    /// The allocator produced an identifier that is still outstanding; this
    /// can arise only after the counter wrapped its whole range.
    DuplicateIdentifier,
}

/// How many malformed frames in a row the dispatcher tolerates before it
/// declares the stream corrupt and terminates the session.
pub const MALFORMED_LIMIT: u64 = 8;

/// What one dispatch step did, and what the caller must do with it.
pub enum DispatchStep<T> {
    /// No complete frame is buffered; read more bytes.
    Idle,
    /// A response matched the outstanding request `entry`: fulfil its
    /// handle, exactly once, with `outcome`.
    Completed { entry: PendingEntry<T>, outcome: Outcome },
    /// A notification or a server-initiated request: hand it to the
    /// registered handler, off the dispatcher loop.
    Incoming { message: Message },
    /// A response whose identifier matches no outstanding request: a
    /// protocol violation to report, not a crash.
    UnknownIdentifier { id: RequestId },
    /// A malformed frame or body was dropped: report it, the loop goes on.
    Malformed,
    /// Too many consecutive malformed frames: the stream is corrupt, the
    /// session is terminated; fail every returned entry's handle with a
    /// transport error.
    Corrupted { abandoned: Vec<PendingEntry<T>> },
}

/// The wire body of a request this session sends.
pub open spec fn request_body_bytes(
    id: u64,
    method: Seq<char>,
    params: Option<serde_json::Value>,
) -> Seq<u8> {
    lit_request_open() + dec_u64(id as nat) + lit_method() + json_string_bytes(method)
        + params_suffix(params) + seq![125u8]
}

/// The wire body of a notification this session sends.
pub open spec fn notification_body_bytes(
    method: Seq<char>,
    params: Option<serde_json::Value>,
) -> Seq<u8> {
    lit_notification_open() + json_string_bytes(method) + params_suffix(params) + seq![125u8]
}

pub struct Session<T> {
    state: SessionState,
    table: PendingTable<T>,
    decoder: FrameDecoder,
    malformed_streak: u64,
}

impl<T> Session<T> {
    pub closed spec fn state_spec(self) -> SessionState {
        self.state
    }

    /// The outstanding requests, in registration order.
    pub closed spec fn pending(self) -> Seq<PendingEntry<T>> {
        self.table.entries_seq()
    }

    /// The identifier the next request will carry.
    pub closed spec fn next_id_spec(self) -> u64 {
        self.table.next_id_spec()
    }

    /// The bytes fed but not yet consumed by the dispatcher.
    pub closed spec fn buffered(self) -> Seq<u8> {
        self.decoder.buffered()
    }

    /// How many malformed frames arrived in a row.
    pub closed spec fn streak(self) -> u64 {
        self.malformed_streak
    }

    /// The session invariant: outstanding identifiers are distinct, the
    /// malformed streak is below its limit, and a terminated session has
    /// no pending request left.
    pub open spec fn wf(self) -> bool {
        &&& distinct_ids(self.pending())
        &&& self.streak() < MALFORMED_LIMIT
        &&& self.state_spec() == SessionState::Terminated ==> self.pending().len() == 0
    }

    /// A fresh session for one spawned process, not yet accepting sends.
    pub fn new() -> (r: Self)
        ensures
            r.wf(),
            r.state_spec() == SessionState::Starting,
            r.pending() == Seq::<PendingEntry<T>>::empty(),
            r.buffered() == Seq::<u8>::empty(),
            r.next_id_spec() == 1u64,
            r.streak() == 0u64,
    {
        Session {
            state: SessionState::Starting,
            table: PendingTable::new(),
            decoder: FrameDecoder::new(),
            malformed_streak: 0,
        }
    }

    pub fn state(&self) -> (r: SessionState)
        ensures
            r == self.state_spec(),
    {
        self.state
    }

    /// How many requests are outstanding.
    pub fn pending_count(&self) -> (r: usize)
        ensures
            r == self.pending().len(),
    {
        self.table.pending_count()
    }

    /// Starts accepting sends, once the process is wired up.
    pub fn activate(&mut self)
        requires
            old(self).wf(),
            old(self).state_spec() == SessionState::Starting,
        ensures
            final(self).wf(),
            final(self).state_spec() == SessionState::Running,
            final(self).pending() == old(self).pending(),
            final(self).buffered() == old(self).buffered(),
            final(self).next_id_spec() == old(self).next_id_spec(),
            final(self).streak() == old(self).streak(),
    {
        self.state = SessionState::Running;
    }

    /// Requests termination: no new sends are accepted, in-flight traffic
    /// still drains.
    pub fn begin_drain(&mut self)
        requires
            old(self).wf(),
            old(self).state_spec() == SessionState::Running,
        ensures
            final(self).wf(),
            final(self).state_spec() == SessionState::Draining,
            final(self).pending() == old(self).pending(),
            final(self).buffered() == old(self).buffered(),
            final(self).next_id_spec() == old(self).next_id_spec(),
            final(self).streak() == old(self).streak(),
    {
        self.state = SessionState::Draining;
    }

    /// Ends the session: the output stream ended or the transport failed.
    /// Every still-outstanding request is handed back, exactly once, for the
    /// caller to fail with the transport error, and the state is terminal.
    pub fn terminate(&mut self) -> (r: Vec<PendingEntry<T>>)
        requires
            old(self).wf(),
        ensures
            final(self).wf(),
            final(self).state_spec() == SessionState::Terminated,
            final(self).pending() == Seq::<PendingEntry<T>>::empty(),
            r@ == old(self).pending(),
            final(self).buffered() == old(self).buffered(),
            final(self).next_id_spec() == old(self).next_id_spec(),
            final(self).streak() == 0u64,
    {
        self.state = SessionState::Terminated;
        self.malformed_streak = 0;
        self.table.drain_all()
    }

    /// Allocates an identifier, registers the completion handle under it,
    /// and returns the identifier with the encoded frame to write.  Refused
    /// outside the running state, with nothing registered.
    pub fn send_request(
        &mut self,
        method: &str,
        params: Option<serde_json::Value>,
        handle: T,
    ) -> (r: Result<(u64, Vec<u8>), SendError>)
        requires
            old(self).wf(),
        ensures
            final(self).wf(),
            final(self).state_spec() == old(self).state_spec(),
            final(self).buffered() == old(self).buffered(),
            final(self).streak() == old(self).streak(),
            match r {
                Ok(p) => {
                    &&& old(self).state_spec() == SessionState::Running
                    &&& p.0 == old(self).next_id_spec()
                    &&& !has_id(old(self).pending(), p.0)
                    &&& final(self).pending().len() == old(self).pending().len() + 1
                    &&& final(self).pending().take(old(self).pending().len() as int) == old(
                        self,
                    ).pending()
                    &&& final(self).pending().last().id == p.0
                    &&& final(self).pending().last().method@ == method@
                    &&& final(self).pending().last().handle == handle
                    &&& p.1@ == frame_bytes(request_body_bytes(p.0, method@, params))
                    &&& final(self).next_id_spec() as int == (if old(self).next_id_spec()
                        < u64::MAX {
                        old(self).next_id_spec() as int + 1
                    } else {
                        0
                    })
                },
                Err(e) => {
                    &&& final(self).pending() == old(self).pending()
                    &&& match e {
                        SendError::SessionNotReady => {
                            &&& old(self).state_spec() != SessionState::Running
                            &&& final(self).next_id_spec() == old(self).next_id_spec()
                        },
                        SendError::DuplicateIdentifier => {
                            &&& old(self).state_spec() == SessionState::Running
                            &&& has_id(old(self).pending(), old(self).next_id_spec())
                            &&& final(self).next_id_spec() as int == (if old(self).next_id_spec()
                                < u64::MAX {
                                old(self).next_id_spec() as int + 1
                            } else {
                                0
                            })
                        },
                    }
                },
            },
    {
        match self.state {
            SessionState::Running => {},
            _ => {
                return Err(SendError::SessionNotReady);
            },
        }
        let id = self.table.allocate();
        let method_string = String::from_str(method);
        let method_copy = method_string.clone();
        match self.table.register(id, method_string, handle) {
            Err(_) => Err(SendError::DuplicateIdentifier),
            Ok(()) => {
                let m = Message::Request { id: RequestId::Num(id), method: method_copy, params };
                let frame = crate::body::encode_message_frame(&m);
                proof {
                    assert(body_bytes(m) == request_body_bytes(id, method@, params));
                    assert(final(self).pending().take(old(self).pending().len() as int) =~= old(
                        self,
                    ).pending());
                }
                Ok((id, frame))
            },
        }
    }

    /// Encodes a notification frame to write.  No completion is tracked.
    /// Refused outside the running state.
    pub fn send_notification(
        &mut self,
        method: &str,
        params: Option<serde_json::Value>,
    ) -> (r: Result<Vec<u8>, SendError>)
        requires
            old(self).wf(),
        ensures
            final(self).wf(),
            *final(self) == *old(self),
            match r {
                Ok(frame) => old(self).state_spec() == SessionState::Running && frame@
                    == frame_bytes(notification_body_bytes(method@, params)),
                Err(e) => e == SendError::SessionNotReady && old(self).state_spec()
                    != SessionState::Running,
            },
    {
        match self.state {
            SessionState::Running => {},
            _ => {
                return Err(SendError::SessionNotReady);
            },
        }
        let method_string = String::from_str(method);
        let m = Message::Notification { method: method_string, params };
        let frame = crate::body::encode_message_frame(&m);
        proof {
            assert(body_bytes(m) == notification_body_bytes(method@, params));
        }
        Ok(frame)
    }

    /// Buffers one chunk read from the process's output stream.
    pub fn feed(&mut self, chunk: &[u8])
        requires
            old(self).wf(),
        ensures
            final(self).wf(),
            final(self).buffered() == old(self).buffered() + chunk@,
            final(self).state_spec() == old(self).state_spec(),
            final(self).pending() == old(self).pending(),
            final(self).next_id_spec() == old(self).next_id_spec(),
            final(self).streak() == old(self).streak(),
    {
        self.decoder.feed(chunk);
    }

    /// Counts one malformed frame; at the limit the stream is declared
    /// corrupt and the session terminates.
    fn note_malformed(&mut self) -> (r: DispatchStep<T>)
        requires
            old(self).wf(),
        ensures
            final(self).wf(),
            final(self).buffered() == old(self).buffered(),
            final(self).next_id_spec() == old(self).next_id_spec(),
            match r {
                DispatchStep::Malformed => {
                    &&& old(self).streak() + 1 < MALFORMED_LIMIT
                    &&& final(self).streak() == old(self).streak() + 1
                    &&& final(self).state_spec() == old(self).state_spec()
                    &&& final(self).pending() == old(self).pending()
                },
                DispatchStep::Corrupted { abandoned } => {
                    &&& old(self).streak() + 1 >= MALFORMED_LIMIT
                    &&& abandoned@ == old(self).pending()
                    &&& final(self).state_spec() == SessionState::Terminated
                    &&& final(self).pending().len() == 0
                    &&& final(self).streak() == 0u64
                },
                _ => false,
            },
    {
        let s = self.malformed_streak + 1;
        if s >= MALFORMED_LIMIT {
            let abandoned = self.terminate();
            DispatchStep::Corrupted { abandoned }
        } else {
            self.malformed_streak = s;
            DispatchStep::Malformed
        }
    }

    /// One dispatcher step: attempts to decode one frame from the buffered
    /// bytes and routes it.  A response fulfils the matching outstanding
    /// request; a response nobody awaits is reported as unknown; any other
    /// message goes to the handler; malformed traffic is reported and,
    /// repeated beyond the limit, terminates the session.
    pub fn step(&mut self) -> (r: DispatchStep<T>)
        requires
            old(self).wf(),
            old(self).state_spec() != SessionState::Terminated,
        ensures
            final(self).wf(),
            final(self).next_id_spec() == old(self).next_id_spec(),
            match r {
                DispatchStep::Idle => {
                    &&& poll_spec(old(self).buffered()) is Need
                    &&& final(self).buffered() == old(self).buffered()
                    &&& final(self).state_spec() == old(self).state_spec()
                    &&& final(self).pending() == old(self).pending()
                    &&& final(self).streak() == old(self).streak()
                },
                DispatchStep::Completed { entry, outcome } => {
                    &&& poll_spec(old(self).buffered()) matches PollSpec::Msg { body, consumed }
                        && final(self).buffered() == old(self).buffered().skip(consumed) && (
                    json_parsed(body) matches Some(v) && decodes_to(
                        v,
                        Message::Response { id: RequestId::Num(entry.id), outcome },
                    ))
                    &&& has_id(old(self).pending(), entry.id)
                    &&& exists|i: int|
                        {
                            &&& 0 <= i < old(self).pending().len()
                            &&& old(self).pending()[i] == entry
                            &&& final(self).pending() == old(self).pending().remove(i)
                        }
                    &&& !has_id(final(self).pending(), entry.id)
                    &&& final(self).state_spec() == old(self).state_spec()
                    &&& final(self).streak() == 0u64
                },
                DispatchStep::Incoming { message } => {
                    &&& poll_spec(old(self).buffered()) matches PollSpec::Msg { body, consumed }
                        && final(self).buffered() == old(self).buffered().skip(consumed) && (
                    json_parsed(body) matches Some(v) && decodes_to(v, message))
                    &&& ((message matches Message::Request { .. }) || (message
                        matches Message::Notification { .. }))
                    &&& final(self).state_spec() == old(self).state_spec()
                    &&& final(self).pending() == old(self).pending()
                    &&& final(self).streak() == 0u64
                },
                DispatchStep::UnknownIdentifier { id } => {
                    &&& poll_spec(old(self).buffered()) matches PollSpec::Msg { body, consumed }
                        && final(self).buffered() == old(self).buffered().skip(consumed) && (
                    json_parsed(body) matches Some(v) && exists|outcome: Outcome|
                        decodes_to(v, Message::Response { id, outcome }))
                    &&& (id matches RequestId::Num(n) ==> !has_id(old(self).pending(), n))
                    &&& final(self).state_spec() == old(self).state_spec()
                    &&& final(self).pending() == old(self).pending()
                    &&& final(self).streak() == 0u64
                },
                DispatchStep::Malformed => {
                    &&& old(self).streak() + 1 < MALFORMED_LIMIT
                    &&& final(self).streak() == old(self).streak() + 1
                    &&& final(self).state_spec() == old(self).state_spec()
                    &&& final(self).pending() == old(self).pending()
                    &&& match poll_spec(old(self).buffered()) {
                        PollSpec::Bad { consumed } => final(self).buffered() == old(
                            self,
                        ).buffered().skip(consumed),
                        PollSpec::Msg { body, consumed } => final(self).buffered() == old(
                            self,
                        ).buffered().skip(consumed) && (json_parsed(body) is None || (json_parsed(
                            body,
                        ) matches Some(v) && !shape_ok(v))),
                        PollSpec::Need => false,
                    }
                },
                DispatchStep::Corrupted { abandoned } => {
                    &&& old(self).streak() + 1 >= MALFORMED_LIMIT
                    &&& abandoned@ == old(self).pending()
                    &&& final(self).state_spec() == SessionState::Terminated
                    &&& final(self).pending().len() == 0
                    &&& final(self).streak() == 0u64
                    &&& match poll_spec(old(self).buffered()) {
                        PollSpec::Bad { consumed } => final(self).buffered() == old(
                            self,
                        ).buffered().skip(consumed),
                        PollSpec::Msg { body, consumed } => final(self).buffered() == old(
                            self,
                        ).buffered().skip(consumed) && (json_parsed(body) is None || (json_parsed(
                            body,
                        ) matches Some(v) && !shape_ok(v))),
                        PollSpec::Need => false,
                    }
                },
            },
    {
        match self.decoder.poll() {
            DecodeStep::NeedMoreData => DispatchStep::Idle,
            DecodeStep::MalformedHeader => self.note_malformed(),
            DecodeStep::Frame(body) => {
                match crate::body::decode_message(&body) {
                    Err(_) => self.note_malformed(),
                    Ok(m) => {
                        self.malformed_streak = 0;
                        match m {
                            Message::Response { id, outcome } => {
                                match id {
                                    RequestId::Num(n) => {
                                        let ghost o = outcome;
                                        match self.table.complete(n) {
                                            Ok(entry) => DispatchStep::Completed { entry, outcome },
                                            Err(_) => {
                                                proof {
                                                    assert(exists|oc: Outcome|
                                                        decodes_to(
                                                            json_parsed(body@)->Some_0,
                                                            Message::Response {
                                                                id: RequestId::Num(n),
                                                                outcome: oc,
                                                            },
                                                        )) by {
                                                        let v = json_parsed(body@)->Some_0;
                                                        assert(decodes_to(
                                                            v,
                                                            Message::Response {
                                                                id: RequestId::Num(n),
                                                                outcome: o,
                                                            },
                                                        ));
                                                    }
                                                }
                                                DispatchStep::UnknownIdentifier {
                                                    id: RequestId::Num(n),
                                                }
                                            },
                                        }
                                    },
                                    RequestId::Text(s) => {
                                        let ghost o = outcome;
                                        let ghost sid = RequestId::Text(s);
                                        proof {
                                            let v = json_parsed(body@)->Some_0;
                                            assert(decodes_to(
                                                v,
                                                Message::Response { id: sid, outcome: o },
                                            ));
                                        }
                                        DispatchStep::UnknownIdentifier { id: RequestId::Text(s) }
                                    },
                                }
                            },
                            Message::Request { id, method, params } => {
                                DispatchStep::Incoming {
                                    message: Message::Request { id, method, params },
                                }
                            },
                            Message::Notification { method, params } => {
                                DispatchStep::Incoming {
                                    message: Message::Notification { method, params },
                                }
                            },
                        }
                    },
                }
            },
        }
    }
}

} // verus!