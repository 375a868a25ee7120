//! A microVM's side of the exchange with its memory backend.
//!
//! [`Vmm`] decides; it touches neither the socket nor the guest. Each of its steps returns an
//! [`Action`]: effects on dirty tracking that are to be carried out in their order, and then a
//! question whose answer is handed to [`Vmm::step`], until the exchange is finished.

use vstd::prelude::*;

use crate::connection::{read_view, result_view, MemBackendConnection};
use crate::exchange::{
    counted, expected, Answer, Effect, Metrics, Output, Phase, Purpose, Question, State,
};
use crate::protocol::{
    MemBackendError, MemBackendErrorKind, MemBackendNotification, MemBackendRegion,
    MemBackendReply, MemBackendRequest, MemBackendResponse, MemBackendSnapshotError, MemRange,
};
use crate::snapshot::SnapshotType;

verus! {

/// What is asked of the outside world.
#[derive(Debug)]
pub enum Ask {
    /// Take the dirty bitmap of the hypervisor. Answered by [`Event::DirtyBitmap`].
    GetDirtyBitmap,
    /// Compute the dirty ranges of the guest memory from [`Vmm::dirty_bitmap`] and from the dirty
    /// bitmap of the microVM. Answered by [`Event::Ranges`].
    DirtyRanges,
    /// Compute the ranges of the plugged slots. Answered by [`Event::Plugged`].
    PluggedRanges,
    /// Describe the current regions. Answered by [`Event::Regions`].
    DescribeForBackend,
    /// Send a notification. Answered by [`Event::Sent`].
    Notify(MemBackendNotification),
    /// Send a response. Answered by [`Event::Sent`].
    Respond(MemBackendResponse),
    /// Read from the socket, once. Answered by [`Event::Read`].
    Read,
    /// Parse a line as a reply. Answered by [`Event::Reply`].
    ParseReply(Vec<u8>),
    /// Parse a line as a request. Answered by [`Event::Request`].
    ParseRequest(Vec<u8>),
    /// Nothing further: the snapshot is done, with this result.
    SnapshotFinished(Result<(), MemBackendSnapshotError>),
    /// Nothing further: what was readable has been dealt with.
    EventFinished {
        /// Whether the backend is still there.
        connected: bool,
        /// The error for which it was given up, if it was for one.
        error: Option<MemBackendError>,
    },
}

impl View for Ask {
    type V = Question;

    open spec fn view(&self) -> Question {
        match *self {
            Ask::GetDirtyBitmap => Question::GetDirtyBitmap,
            Ask::DirtyRanges => Question::DirtyRanges,
            Ask::PluggedRanges => Question::PluggedRanges,
            Ask::DescribeForBackend => Question::DescribeForBackend,
            Ask::Notify(notification) => Question::Notify(notification@),
            Ask::Respond(response) => Question::Respond(response@),
            Ask::Read => Question::Read,
            Ask::ParseReply(line) => Question::ParseReply(line@),
            Ask::ParseRequest(line) => Question::ParseRequest(line@),
            Ask::SnapshotFinished(result) => Question::SnapshotFinished(
                match result {
                    Ok(_) => Ok(()),
                    Err(error) => Err(error@),
                },
            ),
            Ask::EventFinished { connected, error } => Question::EventFinished {
                connected,
                error: match error {
                    Some(error) => Some(error@),
                    None => None,
                },
            },
        }
    }
}

/// What is to be done, in this order, and then asked.
#[derive(Debug)]
pub struct Action<B> {
    /// What is to be done to the dirty tracking.
    pub effects: Vec<Effect<B>>,
    /// What is to be asked afterwards.
    pub ask: Ask,
}

impl<B> View for Action<B> {
    type V = Output<B>;

    open spec fn view(&self) -> Output<B> {
        Output { effects: self.effects@, ask: self.ask@ }
    }
}

/// An answer of the outside world.
#[derive(Debug)]
pub enum Event<B> {
    /// The dirty bitmap of the hypervisor, or why there is none.
    DirtyBitmap(Result<B, String>),
    /// The dirty ranges, or why there are none.
    Ranges(Result<Vec<MemRange>, String>),
    /// The ranges of the plugged slots.
    Plugged(Vec<MemRange>),
    /// The current regions.
    Regions(Vec<MemBackendRegion>),
    /// Whether a message was sent.
    Sent(Result<(), MemBackendError>),
    /// What a read gave: nothing, where the peer closed the connection.
    Read(Result<Vec<u8>, MemBackendError>),
    /// The parsed reply; `None` where the line is no reply.
    Reply(Option<MemBackendReply>),
    /// The parsed request, or what is wrong with the line.
    Request(Result<MemBackendRequest, String>),
}

impl<B> View for Event<B> {
    type V = Answer<B>;

    open spec fn view(&self) -> Answer<B> {
        match *self {
            Event::DirtyBitmap(Ok(bitmap)) => Answer::DirtyBitmap(Ok(bitmap)),
            Event::DirtyBitmap(Err(text)) => Answer::DirtyBitmap(Err(text@)),
            Event::Ranges(Ok(ranges)) => Answer::Ranges(Ok(ranges@)),
            Event::Ranges(Err(text)) => Answer::Ranges(Err(text@)),
            Event::Plugged(ranges) => Answer::Plugged(ranges@),
            Event::Regions(regions) => Answer::Regions(regions@),
            Event::Sent(sent) => Answer::Sent(result_view(sent)),
            Event::Read(read) => Answer::Read(read_view(read)),
            Event::Reply(Some(reply)) => Answer::Reply(Some(reply@)),
            Event::Reply(None) => Answer::Reply(None),
            Event::Request(Ok(request)) => Answer::Request(Ok(request)),
            Event::Request(Err(text)) => Answer::Request(Err(text@)),
        }
    }
}

/// A microVM, as far as its memory backend is concerned. `B` is what the hypervisor hands out as
/// its dirty bitmap: it is kept and handed on, and never looked into.
#[derive(Debug)]
pub struct Vmm<B> {
    /// Whether the hypervisor is KVM.
    kvm: bool,
    /// The connection to the memory backend.
    mem_backend: Option<MemBackendConnection>,
    /// The counters.
    metrics: Metrics,
    /// What the exchange is waiting for.
    phase: Phase,
    /// The dirty bitmap that was taken from the hypervisor, until it is consumed or given back.
    bitmap: Option<B>,
    /// The ranges to copy, until they are sent.
    ranges: Vec<MemRange>,
    /// The line that is being parsed as a reply.
    line: Vec<u8>,
}

impl<B> View for Vmm<B> {
    type V = State<B>;

    closed spec fn view(&self) -> State<B> {
        State {
            kvm: self.kvm,
            buffer: match self.mem_backend {
                Some(connection) => Some(connection@),
                None => None,
            },
            metrics: self.metrics,
            phase: self.phase,
            bitmap: self.bitmap,
            ranges: self.ranges@,
            line: self.line@,
        }
    }
}

/// A counter, one further.
fn count(n: u64) -> (r: u64)
    ensures
        r == counted(n),
{
    n.wrapping_add(1)
}

impl<B> Vmm<B> {
    /// A microVM with or without a connection to a memory backend.
    pub fn new(kvm: bool, mem_backend: Option<MemBackendConnection>) -> (r: Self)
        ensures
            r@ == (State::<B> {
                kvm,
                buffer: match mem_backend {
                    Some(connection) => Some(connection@),
                    None => None,
                },
                metrics: Metrics {
                    requests: 0,
                    request_fails: 0,
                    snapshot_requests: 0,
                    snapshot_fails: 0,
                    disconnects: 0,
                },
                phase: Phase::Idle,
                bitmap: None,
                ranges: seq![],
                line: seq![],
            }),
            r@.well_formed(),
    {
        let r = Vmm {
            kvm,
            mem_backend,
            metrics: Metrics {
                requests: 0,
                request_fails: 0,
                snapshot_requests: 0,
                snapshot_fails: 0,
                disconnects: 0,
            },
            phase: Phase::Idle,
            bitmap: None,
            ranges: Vec::new(),
            line: Vec::new(),
        };
        assert(r.ranges@ =~= seq![]);
        assert(r.line@ =~= seq![]);
        r
    }

    /// The counters.
    pub fn metrics(&self) -> (r: Metrics)
        ensures
            r == self@.metrics,
    {
        self.metrics
    }

    /// What the exchange is waiting for.
    pub fn phase(&self) -> (r: Phase)
        ensures
            r == self@.phase,
    {
        self.phase
    }

    /// The connection to the memory backend.
    pub fn mem_backend(&self) -> (r: Option<&MemBackendConnection>)
        ensures
            match r {
                Some(connection) => self@.buffer == Some(connection@),
                None => self@.buffer is None,
            },
    {
        self.mem_backend.as_ref()
    }

    /// The dirty bitmap that was taken from the hypervisor and has neither been consumed nor given
    /// back.
    pub fn dirty_bitmap(&self) -> (r: Option<&B>)
        ensures
            match r {
                Some(bitmap) => self@.bitmap == Some(*bitmap),
                None => self@.bitmap is None,
            },
    {
        self.bitmap.as_ref()
    }

    /// Whether `event` is the kind of answer that the exchange is waiting for.
    pub fn expects(&self, event: &Event<B>) -> (r: bool)
        ensures
            r == expected(self@.phase, event@),
    {
        match (self.phase, event) {
            (Phase::TakingBitmap(_), Event::DirtyBitmap(_)) => true,
            (Phase::ComputingRanges(_), Event::Ranges(_)) => true,
            (Phase::ListingPlugged, Event::Plugged(_)) => true,
            (Phase::Describing(_), Event::Regions(_)) => true,
            (Phase::Notifying, Event::Sent(_)) => true,
            (Phase::AwaitingReply, Event::Read(_)) => true,
            (Phase::ParsingReply, Event::Reply(_)) => true,
            (Phase::Reading, Event::Read(_)) => true,
            (Phase::ParsingRequest, Event::Request(_)) => true,
            (Phase::Responding, Event::Sent(_)) => true,
            _ => false,
        }
    }

    /// Starts computing the dirty ranges of the guest memory as the memory backend sees them,
    /// without resetting any bitmap. The bitmap of the hypervisor is kept, so that it can be folded
    /// back on failure.
    fn mem_backend_dirty_ranges(&mut self, purpose: Purpose) -> (r: Action<B>)
        requires
            old(self)@.well_formed(),
            purpose is Snapshot ==> old(self)@.buffer is Some,
            old(self)@.bitmap is None,
        ensures
            (final(self)@, r@) == old(self)@.dirty_ranges(purpose),
            final(self)@.well_formed(),
    {
        if !self.kvm {
            return self.dirty_ranges_failed(purpose, MemBackendSnapshotError::NotKvm);
        }
        self.phase = Phase::TakingBitmap(purpose);
        // Devices keep running after this (the microVM may not even be paused), so whatever they
        // write later has to be tracked again after the reset that follows.
        let effects: Vec<Effect<B>> = vec![
            Effect::PrepareDirtyTrackingReset,
            Effect::MarkVirtioQueueMemoryDirty,
        ];
        Action { effects, ask: Ask::GetDirtyBitmap }
    }

    /// Gives up computing the dirty ranges: folds back what was taken for them, and fails the
    /// snapshot or answers the request with an error.
    fn dirty_ranges_failed(&mut self, purpose: Purpose, error: MemBackendSnapshotError) -> (r:
        Action<B>)
        requires
            old(self)@.well_formed(),
        ensures
            (final(self)@, r@) == old(self)@.dirty_ranges_failed(purpose, error@),
            final(self)@.well_formed(),
    {
        let mut effects: Vec<Effect<B>> = Vec::new();
        if let Some(bitmap) = self.bitmap.take() {
            effects.push(Effect::StoreDirtyBitmap(bitmap));
        }
        match purpose {
            Purpose::Snapshot => {
                self.phase = Phase::Idle;
                Action { effects, ask: Ask::SnapshotFinished(Err(error)) }
            },
            Purpose::Request => {
                self.metrics.request_fails = count(self.metrics.request_fails);
                let message: String = error.text();
                self.respond(
                    effects,
                    MemBackendResponse::Error { kind: MemBackendErrorKind::Internal, message },
                )
            },
        }
    }

    /// Hands the guest memory over to the memory backend for a snapshot of `snapshot_type`, and
    /// goes on until the backend reports completion.
    ///
    /// Nothing else may run in the meantime, so that guest memory cannot change while the backend
    /// copies it. On success, dirty tracking is reset.
    pub fn snapshot_memory_to_backend(&mut self, snapshot_type: SnapshotType) -> (r: Action<B>)
        requires
            old(self)@.well_formed(),
            old(self)@.phase is Idle,
        ensures
            (final(self)@, r@) == old(self)@.snapshot(snapshot_type),
            final(self)@.well_formed(),
    {
        if self.mem_backend.is_none() {
            return Action {
                effects: Vec::new(),
                ask: Ask::SnapshotFinished(
                    Err(MemBackendSnapshotError::Backend(MemBackendError::NotConnected)),
                ),
            };
        }
        match snapshot_type {
            SnapshotType::Diff => self.mem_backend_dirty_ranges(Purpose::Snapshot),
            SnapshotType::Full => {
                if !self.kvm {
                    return Action {
                        effects: Vec::new(),
                        ask: Ask::SnapshotFinished(Err(MemBackendSnapshotError::NotKvm)),
                    };
                }
                self.phase = Phase::ListingPlugged;
                Action { effects: Vec::new(), ask: Ask::PluggedRanges }
            },
        }
    }

    /// Looks for the backend's reply in what has been received.
    fn await_reply(&mut self, read: Option<Result<Vec<u8>, MemBackendError>>) -> (r: Action<B>)
        requires
            old(self)@.well_formed(),
            old(self)@.phase is Notifying && read is None || old(self)@.phase is AwaitingReply
                && read is Some,
        ensures
            (final(self)@, r@) == match read {
                None => old(self)@.await_reply(),
                Some(read) => old(self)@.next(Answer::Read(read_view(read))),
            },
            final(self)@.well_formed(),
    {
        let received = match &mut self.mem_backend {
            Some(connection) => connection.recv_line(read),
            None => Err(MemBackendError::NotConnected),
        };
        match received {
            Ok(Some(line)) => {
                self.phase = Phase::ParsingReply;
                self.line = line.clone();
                assert(self.line@ =~= line@);
                Action { effects: Vec::new(), ask: Ask::ParseReply(line) }
            },
            Ok(None) => {
                self.phase = Phase::AwaitingReply;
                Action { effects: Vec::new(), ask: Ask::Read }
            },
            Err(error) => self.snapshot_settled(Err(error)),
        }
    }

    /// Settles a snapshot: resets dirty tracking after a successful one, keeps the dirty pages of a
    /// failed diff, and closes a lost connection.
    fn snapshot_settled(&mut self, result: Result<(), MemBackendError>) -> (r: Action<B>)
        requires
            old(self)@.well_formed(),
        ensures
            (final(self)@, r@) == old(self)@.snapshot_settled(result_view(result)),
            final(self)@.well_formed(),
    {
        self.phase = Phase::Idle;
        self.line = Vec::new();
        assert(self.line@ =~= seq![]);
        let mut effects: Vec<Effect<B>> = Vec::new();
        let bitmap: Option<B> = self.bitmap.take();
        match result {
            Ok(_) => {
                effects.push(Effect::ResetDirtyTracking);
                Action { effects, ask: Ask::SnapshotFinished(Ok(())) }
            },
            Err(error) => {
                self.metrics.snapshot_fails = count(self.metrics.snapshot_fails);
                if let Some(bitmap) = bitmap {
                    effects.push(Effect::StoreDirtyBitmap(bitmap));
                }
                if let MemBackendError::Disconnected = &error {
                    self.mem_backend_disconnected();
                }
                Action {
                    effects,
                    ask: Ask::SnapshotFinished(Err(MemBackendSnapshotError::Backend(error))),
                }
            },
        }
    }

    /// Called when the memory backend socket is readable: has it read once, and serves every
    /// complete request. Finishes with `false` if the backend went away.
    pub fn process_mem_backend_event(&mut self) -> (r: Action<B>)
        requires
            old(self)@.well_formed(),
            old(self)@.phase is Idle,
        ensures
            (final(self)@, r@) == old(self)@.readable(),
            final(self)@.well_formed(),
    {
        if self.mem_backend.is_none() {
            return Action {
                effects: Vec::new(),
                ask: Ask::EventFinished { connected: false, error: None },
            };
        }
        self.phase = Phase::Reading;
        Action { effects: Vec::new(), ask: Ask::Read }
    }

    /// Takes in what the socket was readable for.
    fn event_read(&mut self, read: Result<Vec<u8>, MemBackendError>) -> (r: Action<B>)
        requires
            old(self)@.well_formed(),
            old(self)@.phase is Reading,
        ensures
            (final(self)@, r@) == old(self)@.next(Answer::Read(read_view(read))),
            final(self)@.well_formed(),
    {
        let filled = match &mut self.mem_backend {
            Some(connection) => connection.fill(read),
            None => Ok(false),
        };
        match filled {
            Ok(true) => self.serve_next(Vec::new()),
            Ok(false) => self.gone(Vec::new(), None),
            Err(error) => self.gone(Vec::new(), Some(error)),
        }
    }

    /// Goes on to the next complete request that has been received.
    fn serve_next(&mut self, effects: Vec<Effect<B>>) -> (r: Action<B>)
        requires
            old(self)@.bitmap is None,
        ensures
            (final(self)@, r@) == old(self)@.serve_next(effects@),
            final(self)@.well_formed(),
    {
        let line = match &mut self.mem_backend {
            Some(connection) => connection.recv_line(None),
            None => Ok(None),
        };
        match line {
            Ok(Some(line)) => {
                self.phase = Phase::ParsingRequest;
                Action { effects, ask: Ask::ParseRequest(line) }
            },
            Ok(None) => {
                self.phase = Phase::Idle;
                Action { effects, ask: Ask::EventFinished { connected: true, error: None } }
            },
            Err(error) => self.gone(effects, Some(error)),
        }
    }

    /// Stops serving a backend that went away.
    fn gone(&mut self, effects: Vec<Effect<B>>, error: Option<MemBackendError>) -> (r: Action<B>)
        requires
            old(self)@.bitmap is None,
        ensures
            (final(self)@, r@) == old(self)@.gone(
                effects@,
                match error {
                    Some(error) => Some(error@),
                    None => None,
                },
            ),
            final(self)@.well_formed(),
    {
        self.mem_backend_disconnected();
        self.phase = Phase::Idle;
        Action { effects, ask: Ask::EventFinished { connected: false, error } }
    }

    /// Handles one request received from the memory backend.
    fn serve_mem_backend_request(&mut self, request: Result<MemBackendRequest, String>) -> (r:
        Action<B>)
        requires
            old(self)@.well_formed(),
            old(self)@.phase is ParsingRequest,
        ensures
            (final(self)@, r@) == old(self)@.next((Event::<B>::Request(request))@),
            final(self)@.well_formed(),
    {
        self.metrics.requests = count(self.metrics.requests);
        match request {
            Ok(MemBackendRequest::GetDirtyRanges {  }) => self.serve_get_dirty_ranges(),
            Err(message) => {
                self.metrics.request_fails = count(self.metrics.request_fails);
                self.respond(
                    Vec::new(),
                    MemBackendResponse::Error {
                        kind: MemBackendErrorKind::UnknownRequest,
                        message,
                    },
                )
            },
        }
    }

    /// Serves a `GetDirtyRanges` request: goes on to reply with the dirty ranges, and resets dirty
    /// tracking once the reply is out. If the reply cannot be sent, as without a connection, the
    /// dirty pages are kept.
    pub fn serve_get_dirty_ranges(&mut self) -> (r: Action<B>)
        requires
            old(self)@.well_formed(),
            old(self)@.phase is ParsingRequest,
        ensures
            (final(self)@, r@) == old(self)@.dirty_ranges(Purpose::Request),
            final(self)@.well_formed(),
    {
        self.mem_backend_dirty_ranges(Purpose::Request)
    }

    /// Sends a response.
    fn respond(&mut self, effects: Vec<Effect<B>>, response: MemBackendResponse) -> (r: Action<B>)
        requires
            old(self)@.bitmap is Some ==> old(self)@.kvm,
        ensures
            (final(self)@, r@) == old(self)@.respond(effects@, response@),
            final(self)@.well_formed(),
    {
        if self.mem_backend.is_none() {
            return self.response_settled(effects, Err(MemBackendError::NotConnected));
        }
        self.phase = Phase::Responding;
        Action { effects, ask: Ask::Respond(response) }
    }

    /// Settles a response: resets dirty tracking if dirty ranges were delivered, keeps the dirty
    /// pages if they were not, and goes on to the next request or stops.
    fn response_settled(
        &mut self,
        effects: Vec<Effect<B>>,
        sent: Result<(), MemBackendError>,
    ) -> (r: Action<B>)
        ensures
            (final(self)@, r@) == old(self)@.response_settled(effects@, result_view(sent)),
            final(self)@.well_formed(),
    {
        let mut effects: Vec<Effect<B>> = effects;
        let ghost before = effects@;
        match self.bitmap.take() {
            Some(bitmap) => {
                if sent.is_ok() {
                    effects.push(Effect::ResetDirtyTracking);
                } else {
                    effects.push(Effect::StoreDirtyBitmap(bitmap));
                }
            },
            None => {
                assert(before + seq![] =~= before);
            },
        }
        match sent {
            Ok(_) => self.serve_next(effects),
            Err(error) => self.gone(effects, Some(error)),
        }
    }

    /// Closes the connection to a memory backend that went away. Snapshots are no longer possible
    /// for this microVM.
    fn mem_backend_disconnected(&mut self)
        ensures
            final(self)@ == old(self)@.disconnected(),
    {
        self.metrics.disconnects = count(self.metrics.disconnects);
        self.mem_backend = None;
    }

    /// Goes on with the exchange once the outside world has answered what was asked last.
    pub fn step(&mut self, event: Event<B>) -> (r: Action<B>)
        requires
            old(self)@.well_formed(),
            expected(old(self)@.phase, event@),
        ensures
            (final(self)@, r@) == old(self)@.next(event@),
            final(self)@.well_formed(),
    {
        match (self.phase, event) {
            (Phase::TakingBitmap(purpose), Event::DirtyBitmap(Ok(bitmap))) => {
                self.phase = Phase::ComputingRanges(purpose);
                self.bitmap = Some(bitmap);
                Action { effects: Vec::new(), ask: Ask::DirtyRanges }
            },
            (Phase::TakingBitmap(purpose), Event::DirtyBitmap(Err(text))) => {
                self.dirty_ranges_failed(purpose, MemBackendSnapshotError::DirtyBitmap(text))
            },
            (Phase::ComputingRanges(purpose), Event::Ranges(Ok(ranges))) => {
                match purpose {
                    Purpose::Snapshot => {
                        self.phase = Phase::Describing(SnapshotType::Diff);
                        self.ranges = ranges;
                        Action { effects: Vec::new(), ask: Ask::DescribeForBackend }
                    },
                    Purpose::Request => self.respond(
                        Vec::new(),
                        MemBackendResponse::DirtyRanges { ranges },
                    ),
                }
            },
            (Phase::ComputingRanges(purpose), Event::Ranges(Err(text))) => {
                self.dirty_ranges_failed(purpose, MemBackendSnapshotError::Memory(text))
            },
            (Phase::ListingPlugged, Event::Plugged(ranges)) => {
                self.phase = Phase::Describing(SnapshotType::Full);
                self.ranges = ranges;
                Action { effects: Vec::new(), ask: Ask::DescribeForBackend }
            },
            (Phase::Describing(snapshot_type), Event::Regions(regions)) => {
                self.request_snapshot(snapshot_type, regions)
            },
            (Phase::Notifying, Event::Sent(Ok(_))) => self.await_reply(None),
            (Phase::Notifying, Event::Sent(Err(error))) => self.snapshot_settled(Err(error)),
            (Phase::AwaitingReply, Event::Read(read)) => self.await_reply(Some(read)),
            (Phase::ParsingReply, Event::Reply(reply)) => {
                let result = match &self.mem_backend {
                    Some(connection) => connection.snapshot_reply(&self.line, reply),
                    None => Err(MemBackendError::NotConnected),
                };
                self.snapshot_settled(result)
            },
            (Phase::Reading, Event::Read(read)) => self.event_read(read),
            (Phase::ParsingRequest, Event::Request(request)) => {
                self.serve_mem_backend_request(request)
            },
            (Phase::Responding, Event::Sent(sent)) => self.response_settled(Vec::new(), sent),
            _ => Action {
                effects: Vec::new(),
                ask: Ask::EventFinished { connected: true, error: None },
            },
        }
    }

    /// Has the backend asked for a snapshot.
    fn request_snapshot(&mut self, snapshot_type: SnapshotType, regions: Vec<MemBackendRegion>)
        -> (r: Action<B>)
        requires
            old(self)@.well_formed(),
            old(self)@.phase == Phase::Describing(snapshot_type),
        ensures
            (final(self)@, r@) == old(self)@.next(Answer::Regions(regions@)),
            final(self)@.well_formed(),
    {
        let mut ranges: Vec<MemRange> = Vec::new();
        core::mem::swap(&mut ranges, &mut self.ranges);
        assert(self.ranges@ =~= seq![]);
        self.phase = Phase::Notifying;
        self.metrics.snapshot_requests = count(self.metrics.snapshot_requests);
        let notification = match &self.mem_backend {
            Some(connection) => connection.snapshot_request(snapshot_type, regions, ranges),
            None => MemBackendNotification::SnapshotRequest { snapshot_type, regions, ranges },
        };
        Action { effects: Vec::new(), ask: Ask::Notify(notification) }
    }
}

} // verus!
