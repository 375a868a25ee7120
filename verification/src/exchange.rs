//! What a microVM and its memory backend say to each other, as a state machine over mathematical
//! values: the state in which an exchange can be, what the outside world can answer, and what is
//! done and asked next.

use vstd::prelude::*;

use crate::connection::{
    buffer_after, fill_result, line_result, reply_result,
};
use crate::protocol::{
    ConnectionError, MemBackendErrorKind, MemBackendRegion, MemBackendRequest, MemRange,
    Notification, Reply, Response, SnapshotError,
};
use crate::snapshot::SnapshotType;

verus! {

/// How often things have happened on the connection. A counter that is full starts over.
#[derive(Clone, Copy, Debug, PartialEq, Eq, Structural)]
pub struct Metrics {
    /// Requests received.
    pub requests: u64,
    /// Requests that were answered with an error.
    pub request_fails: u64,
    /// Snapshots requested from the backend.
    pub snapshot_requests: u64,
    /// Snapshots that the backend was asked for in vain.
    pub snapshot_fails: u64,
    /// Connections lost.
    pub disconnects: u64,
}

/// A counter, one further.
pub open spec fn counted(n: u64) -> u64 {
    if n == u64::MAX {
        0
    } else {
        (n + 1) as u64
    }
}

/// What the dirty ranges are needed for.
#[derive(Clone, Copy, Debug, PartialEq, Eq, Structural)]
pub enum Purpose {
    /// A diff snapshot.
    Snapshot,
    /// A request of the backend.
    Request,
}

/// What an exchange is waiting for.
#[derive(Clone, Copy, Debug, PartialEq, Eq, Structural)]
pub enum Phase {
    /// Nothing: a snapshot may be started, or the socket may become readable.
    Idle,
    /// The dirty bitmap of the hypervisor.
    TakingBitmap(Purpose),
    /// The ranges that are dirty.
    ComputingRanges(Purpose),
    /// The ranges that are plugged.
    ListingPlugged,
    /// The current regions, for a snapshot of the given type.
    Describing(SnapshotType),
    /// The snapshot request to be sent.
    Notifying,
    /// More bytes, for the reply to be complete.
    AwaitingReply,
    /// The reply in parsed form.
    ParsingReply,
    /// The bytes that the socket has become readable for.
    Reading,
    /// The request in parsed form.
    ParsingRequest,
    /// The response to be sent.
    Responding,
}

/// What is done to the dirty tracking of the microVM.
#[derive(Debug)]
pub enum Effect<B> {
    /// Devices are made to track again whatever they write from here on.
    PrepareDirtyTrackingReset,
    /// The memory of the virtio queues is marked dirty.
    MarkVirtioQueueMemoryDirty,
    /// The dirty bitmaps of the hypervisor and of the microVM are reset.
    ResetDirtyTracking,
    /// The given dirty bitmap of the hypervisor is folded into that of the microVM.
    StoreDirtyBitmap(B),
}

/// What is asked of the outside world.
#[verifier::ext_equal]
pub enum Question {
    /// Take the dirty bitmap of the hypervisor.
    GetDirtyBitmap,
    /// Compute the dirty ranges from the bitmap taken and that of the microVM.
    DirtyRanges,
    /// Compute the ranges of the plugged slots.
    PluggedRanges,
    /// Describe the current regions.
    DescribeForBackend,
    /// Send a notification.
    Notify(Notification),
    /// Send a response.
    Respond(Response),
    /// Read from the socket, once.
    Read,
    /// Parse a line as a reply.
    ParseReply(Seq<u8>),
    /// Parse a line as a request.
    ParseRequest(Seq<u8>),
    /// Nothing further: the snapshot is done, with this result.
    SnapshotFinished(Result<(), SnapshotError>),
    /// Nothing further: the bytes that were there have been dealt with. Tells whether the backend
    /// is still there, and the error for which it was given up, if it was for one.
    EventFinished { connected: bool, error: Option<ConnectionError> },
}

/// An answer of the outside world.
pub enum Answer<B> {
    /// The dirty bitmap of the hypervisor.
    DirtyBitmap(Result<B, Seq<char>>),
    /// The dirty ranges.
    Ranges(Result<Seq<MemRange>, Seq<char>>),
    /// The ranges of the plugged slots.
    Plugged(Seq<MemRange>),
    /// The current regions.
    Regions(Seq<MemBackendRegion>),
    /// Whether a message was sent.
    Sent(Result<(), ConnectionError>),
    /// What a read gave: nothing, where the peer closed the connection.
    Read(Result<Seq<u8>, ConnectionError>),
    /// The parsed reply; `None` where the line is no reply.
    Reply(Option<Reply>),
    /// The parsed request, or what is wrong with the line.
    Request(Result<MemBackendRequest, Seq<char>>),
}

/// What is done, in this order, and then asked.
#[verifier::ext_equal]
pub struct Output<B> {
    /// What is done to the dirty tracking.
    pub effects: Seq<Effect<B>>,
    /// What is asked afterwards.
    pub ask: Question,
}

/// The state of a microVM, as far as its memory backend is concerned.
#[verifier::ext_equal]
pub struct State<B> {
    /// Whether the hypervisor is KVM.
    pub kvm: bool,
    /// What has been received and not been taken yet; `None` without a connection.
    pub buffer: Option<Seq<u8>>,
    /// The counters.
    pub metrics: Metrics,
    /// What the exchange is waiting for.
    pub phase: Phase,
    /// The dirty bitmap that was taken from the hypervisor, until it is consumed or given back.
    pub bitmap: Option<B>,
    /// The ranges to copy, until they are sent.
    pub ranges: Seq<MemRange>,
    /// The line that is being parsed as a reply.
    pub line: Seq<u8>,
}

/// Whether `answer` is of the kind that `phase` waits for.
pub open spec fn expected<B>(phase: Phase, answer: Answer<B>) -> bool {
    match phase {
        Phase::Idle => false,
        Phase::TakingBitmap(_) => answer is DirtyBitmap,
        Phase::ComputingRanges(_) => answer is Ranges,
        Phase::ListingPlugged => answer is Plugged,
        Phase::Describing(_) => answer is Regions,
        Phase::Notifying => answer is Sent,
        Phase::AwaitingReply => answer is Read,
        Phase::ParsingReply => answer is Reply,
        Phase::Reading => answer is Read,
        Phase::ParsingRequest => answer is Request,
        Phase::Responding => answer is Sent,
    }
}

impl<B> State<B> {
    /// Whether the phase needs a connection. A request is served up to its response without one.
    pub open spec fn needs_connection(self) -> bool {
        match self.phase {
            Phase::Idle => false,
            Phase::ParsingRequest => false,
            Phase::TakingBitmap(purpose) => purpose is Snapshot,
            Phase::ComputingRanges(purpose) => purpose is Snapshot,
            _ => true,
        }
    }

    /// Whether the exchange holds what its phase needs: a connection and KVM wherever they are
    /// used, and a dirty bitmap only between taking it and settling what becomes of it.
    pub open spec fn well_formed(self) -> bool {
        &&& self.bitmap is Some ==> self.kvm
        &&& self.needs_connection() ==> self.buffer is Some
        &&& match self.phase {
            Phase::Idle => self.bitmap is None,
            Phase::TakingBitmap(_) => self.kvm && self.bitmap is None,
            Phase::ComputingRanges(_) => self.bitmap is Some,
            Phase::ListingPlugged => self.kvm && self.bitmap is None,
            Phase::Describing(snapshot_type) => self.kvm && (self.bitmap is Some <==> snapshot_type
                == SnapshotType::Diff),
            Phase::Notifying => self.kvm,
            Phase::AwaitingReply => self.kvm,
            Phase::ParsingReply => self.kvm,
            Phase::Reading => self.bitmap is None,
            Phase::ParsingRequest => self.bitmap is None,
            Phase::Responding => true,
        }
    }

    /// The connection is lost: it is counted and closed.
    pub open spec fn disconnected(self) -> Self {
        State {
            buffer: None,
            metrics: Metrics { disconnects: counted(self.metrics.disconnects), ..self.metrics },
            ..self
        }
    }

    /// The dirty ranges are wanted: devices are prepared and the hypervisor is asked for its
    /// bitmap.
    pub open spec fn dirty_ranges(self, purpose: Purpose) -> (Self, Output<B>) {
        if self.kvm {
            (
                State { phase: Phase::TakingBitmap(purpose), ..self },
                Output {
                    effects: seq![
                        Effect::PrepareDirtyTrackingReset,
                        Effect::MarkVirtioQueueMemoryDirty,
                    ],
                    ask: Question::GetDirtyBitmap,
                },
            )
        } else {
            self.dirty_ranges_failed(purpose, SnapshotError::NotKvm)
        }
    }

    /// The dirty ranges cannot be had: a bitmap that was taken for them is given back, and the
    /// snapshot fails or the request is answered with an error.
    pub open spec fn dirty_ranges_failed(self, purpose: Purpose, error: SnapshotError) -> (
        Self,
        Output<B>,
    ) {
        let effects = match self.bitmap {
            Some(bitmap) => seq![Effect::StoreDirtyBitmap(bitmap)],
            None => seq![],
        };
        match purpose {
            Purpose::Snapshot => (
                State { phase: Phase::Idle, bitmap: None, ..self },
                Output { effects, ask: Question::SnapshotFinished(Err(error)) },
            ),
            Purpose::Request => (State {
                bitmap: None,
                metrics: Metrics {
                    request_fails: counted(self.metrics.request_fails),
                    ..self.metrics
                },
                ..self
            }).respond(
                effects,
                Response::Error { kind: MemBackendErrorKind::Internal, message: error.text() },
            ),
        }
    }

    /// A snapshot of the given type is wanted.
    pub open spec fn snapshot(self, snapshot_type: SnapshotType) -> (Self, Output<B>) {
        if self.buffer is None {
            (
                self,
                Output {
                    effects: seq![],
                    ask: Question::SnapshotFinished(
                        Err(SnapshotError::Backend(ConnectionError::NotConnected)),
                    ),
                },
            )
        } else if snapshot_type == SnapshotType::Diff {
            self.dirty_ranges(Purpose::Snapshot)
        } else if self.kvm {
            (
                State { phase: Phase::ListingPlugged, ..self },
                Output { effects: seq![], ask: Question::PluggedRanges },
            )
        } else {
            (
                self,
                Output {
                    effects: seq![],
                    ask: Question::SnapshotFinished(Err(SnapshotError::NotKvm)),
                },
            )
        }
    }

    /// The reply is looked for in what has been received. One over the maximum size fails the
    /// snapshot.
    pub open spec fn await_reply(self) -> (Self, Output<B>) {
        match line_result(self.buffer->0) {
            Ok(Some((line, rest))) => (
                State { phase: Phase::ParsingReply, buffer: Some(rest), line, ..self },
                Output { effects: seq![], ask: Question::ParseReply(line) },
            ),
            Ok(None) => (
                State { phase: Phase::AwaitingReply, ..self },
                Output { effects: seq![], ask: Question::Read },
            ),
            Err(error) => self.snapshot_settled(Err(error)),
        }
    }

    /// The snapshot is done. A successful one consumes the dirty state, a failed diff gives the
    /// dirty bitmap back, and a lost connection is closed.
    pub open spec fn snapshot_settled(self, result: Result<(), ConnectionError>) -> (
        Self,
        Output<B>,
    ) {
        let settled = State {
            phase: Phase::Idle,
            bitmap: None,
            line: seq![],
            metrics: if result is Err {
                Metrics { snapshot_fails: counted(self.metrics.snapshot_fails), ..self.metrics }
            } else {
                self.metrics
            },
            ..self
        };
        (
            if result == Err::<(), _>(ConnectionError::Disconnected) {
                settled.disconnected()
            } else {
                settled
            },
            Output {
                effects: match (result, self.bitmap) {
                    (Ok(_), _) => seq![Effect::ResetDirtyTracking],
                    (Err(_), Some(bitmap)) => seq![Effect::StoreDirtyBitmap(bitmap)],
                    (Err(_), None) => seq![],
                },
                ask: Question::SnapshotFinished(
                    match result {
                        Ok(_) => Ok(()),
                        Err(error) => Err(SnapshotError::Backend(error)),
                    },
                ),
            },
        )
    }

    /// The socket is readable.
    pub open spec fn readable(self) -> (Self, Output<B>) {
        if self.buffer is None {
            (
                self,
                Output {
                    effects: seq![],
                    ask: Question::EventFinished { connected: false, error: None },
                },
            )
        } else {
            (
                State { phase: Phase::Reading, ..self },
                Output { effects: seq![], ask: Question::Read },
            )
        }
    }

    /// The next request is looked for in what has been received. One over the maximum size has the
    /// connection given up.
    pub open spec fn serve_next(self, effects: Seq<Effect<B>>) -> (Self, Output<B>) {
        match self.buffer {
            Some(buffer) => match line_result(buffer) {
                Ok(Some((line, rest))) => (
                    State { phase: Phase::ParsingRequest, buffer: Some(rest), ..self },
                    Output { effects, ask: Question::ParseRequest(line) },
                ),
                Ok(None) => (
                    State { phase: Phase::Idle, ..self },
                    Output {
                        effects,
                        ask: Question::EventFinished { connected: true, error: None },
                    },
                ),
                Err(error) => self.gone(effects, Some(error)),
            },
            None => (
                State { phase: Phase::Idle, ..self },
                Output { effects, ask: Question::EventFinished { connected: true, error: None } },
            ),
        }
    }

    /// The connection is lost, or given up for an error, while the backend's requests are being
    /// served.
    pub open spec fn gone(self, effects: Seq<Effect<B>>, error: Option<ConnectionError>) -> (
        Self,
        Output<B>,
    ) {
        (
            State { phase: Phase::Idle, ..self.disconnected() },
            Output { effects, ask: Question::EventFinished { connected: false, error } },
        )
    }

    /// A request is served: it is counted, and one that is no request is answered with an error.
    pub open spec fn serve(self, request: Result<MemBackendRequest, Seq<char>>) -> (
        Self,
        Output<B>,
    ) {
        let requests = counted(self.metrics.requests);
        match request {
            Ok(_) => (State {
                metrics: Metrics { requests, ..self.metrics },
                ..self
            }).dirty_ranges(Purpose::Request),
            Err(message) => (State {
                metrics: Metrics {
                    requests,
                    request_fails: counted(self.metrics.request_fails),
                    ..self.metrics
                },
                ..self
            }).respond(
                seq![],
                Response::Error { kind: MemBackendErrorKind::UnknownRequest, message },
            ),
        }
    }

    /// A response is sent.
    pub open spec fn respond(self, effects: Seq<Effect<B>>, response: Response) -> (
        Self,
        Output<B>,
    ) {
        if self.buffer is Some {
            (
                State { phase: Phase::Responding, ..self },
                Output { effects, ask: Question::Respond(response) },
            )
        } else {
            self.response_settled(effects, Err(ConnectionError::NotConnected))
        }
    }

    /// A response was sent, or could not be. Dirty ranges that were delivered consume the dirty
    /// state; otherwise the dirty bitmap is given back. Without an error the next request is
    /// served.
    pub open spec fn response_settled(
        self,
        effects: Seq<Effect<B>>,
        sent: Result<(), ConnectionError>,
    ) -> (Self, Output<B>) {
        let settled = State { bitmap: None, ..self };
        let all = effects + match (self.bitmap, sent) {
            (Some(_), Ok(_)) => seq![Effect::ResetDirtyTracking],
            (Some(bitmap), Err(_)) => seq![Effect::StoreDirtyBitmap(bitmap)],
            (None, _) => seq![],
        };
        match sent {
            Ok(_) => settled.serve_next(all),
            Err(error) => settled.gone(all, Some(error)),
        }
    }

    /// What follows an answer.
    pub open spec fn next(self, answer: Answer<B>) -> (Self, Output<B>) {
        match (self.phase, answer) {
            (Phase::TakingBitmap(purpose), Answer::DirtyBitmap(Ok(bitmap))) => (
                State {
                    phase: Phase::ComputingRanges(purpose),
                    bitmap: Some(bitmap),
                    ..self
                },
                Output { effects: seq![], ask: Question::DirtyRanges },
            ),
            (Phase::TakingBitmap(purpose), Answer::DirtyBitmap(Err(text))) =>
            self.dirty_ranges_failed(purpose, SnapshotError::DirtyBitmap(text)),
            (Phase::ComputingRanges(Purpose::Snapshot), Answer::Ranges(Ok(ranges))) => (
                State { phase: Phase::Describing(SnapshotType::Diff), ranges, ..self },
                Output { effects: seq![], ask: Question::DescribeForBackend },
            ),
            (Phase::ComputingRanges(Purpose::Request), Answer::Ranges(Ok(ranges))) => self.respond(
                seq![],
                Response::DirtyRanges { ranges },
            ),
            (Phase::ComputingRanges(purpose), Answer::Ranges(Err(text))) =>
            self.dirty_ranges_failed(purpose, SnapshotError::Memory(text)),
            (Phase::ListingPlugged, Answer::Plugged(ranges)) => (
                State { phase: Phase::Describing(SnapshotType::Full), ranges, ..self },
                Output { effects: seq![], ask: Question::DescribeForBackend },
            ),
            (Phase::Describing(snapshot_type), Answer::Regions(regions)) => (
                State {
                    phase: Phase::Notifying,
                    ranges: seq![],
                    metrics: Metrics {
                        snapshot_requests: counted(self.metrics.snapshot_requests),
                        ..self.metrics
                    },
                    ..self
                },
                Output {
                    effects: seq![],
                    ask: Question::Notify(
                        Notification::SnapshotRequest {
                            snapshot_type,
                            regions,
                            ranges: self.ranges,
                        },
                    ),
                },
            ),
            (Phase::Notifying, Answer::Sent(Ok(_))) => self.await_reply(),
            (Phase::Notifying, Answer::Sent(Err(error))) => self.snapshot_settled(Err(error)),
            (Phase::AwaitingReply, Answer::Read(read)) => {
                let filled = State {
                    buffer: Some(buffer_after(self.buffer->0, read)),
                    ..self
                };
                match fill_result(self.buffer->0, read) {
                    Ok(true) => filled.await_reply(),
                    Ok(false) => filled.snapshot_settled(Err(ConnectionError::Disconnected)),
                    Err(error) => filled.snapshot_settled(Err(error)),
                }
            },
            (Phase::ParsingReply, Answer::Reply(reply)) => self.snapshot_settled(
                reply_result(self.line, reply),
            ),
            (Phase::Reading, Answer::Read(read)) => {
                let filled = State {
                    buffer: Some(buffer_after(self.buffer->0, read)),
                    ..self
                };
                match fill_result(self.buffer->0, read) {
                    Ok(true) => filled.serve_next(seq![]),
                    Ok(false) => filled.gone(seq![], None),
                    Err(error) => filled.gone(seq![], Some(error)),
                }
            },
            (Phase::ParsingRequest, Answer::Request(request)) => self.serve(request),
            (Phase::Responding, Answer::Sent(sent)) => self.response_settled(seq![], sent),
            _ => (
                self,
                Output {
                    effects: seq![],
                    ask: Question::EventFinished { connected: true, error: None },
                },
            ),
        }
    }
}

} // verus!
