//! What each step of an exchange does, in terms of the state it starts from, of what happens, and of
//! what comes out of it.

use vstd::prelude::*;

use crate::connection::{lemma_line_len, line_len, lossy_utf8};
use crate::connection_laws::{
    a_read_appends_what_it_gave, a_read_leaves_the_connection_open_within_the_maximum,
    the_next_line_ends_at_the_first_newline,
};
use crate::exchange::{
    counted, expected, Answer, Effect, Metrics, Output, Phase, Purpose, Question, State,
};
use crate::exchange_laws::{
    advance, after, answers_only, follows, outputs, performed_all, possible, reported,
    steps_keep_the_exchange_well_formed, tracking_after, tracking_next, Input, Tracking, World,
};
use crate::protocol::{
    ConnectionError, MemBackendErrorKind, MemBackendRegion, MemBackendRequest, MemRange,
    Notification, Reply, Response, SnapshotError,
};
use crate::snapshot::SnapshotType;

verus! {

/// Whether a counter went on by one. After its largest value it starts over.
pub open spec fn one_more(before: u64, after: u64) -> bool {
    after as int == (before + 1) % 0x1_0000_0000_0000_0000
}

/// Counting goes on by one.
pub proof fn counting_goes_on_by_one(n: u64)
    ensures
        one_more(n, counted(n)),
{
}

/// Whether a step does nothing to dirty tracking, asks `ask`, and leaves `next`.
pub open spec fn just_asks<B>(step: (State<B>, Output<B>), next: State<B>, ask: Question) -> bool {
    step.0 == next && step.1.effects.len() == 0 && step.1.ask == ask
}

/// The effects by which a bitmap, if one is held, is given back.
pub open spec fn given_back<B>(bitmap: Option<B>) -> Seq<Effect<B>> {
    match bitmap {
        Some(bitmap) => seq![Effect::StoreDirtyBitmap(bitmap)],
        None => seq![],
    }
}

/// Starting a snapshot: without a connection it fails, without KVM it fails, and nothing has
/// changed. Otherwise a full one asks for the plugged ranges and touches nothing, and a diff asks
/// for the hypervisor's bitmap, once the devices are prepared and the queues marked.
pub proof fn a_snapshot_of_the_type_asked_for_is_started<B>(state: State<B>)
    requires
        state.phase is Idle,
        state.bitmap is None,
    ensures
        forall|snapshot_type: SnapshotType|
            #![trigger state.snapshot(snapshot_type)]
            state.buffer is None ==> just_asks(
                state.snapshot(snapshot_type),
                state,
                Question::SnapshotFinished(
                    Err(SnapshotError::Backend(ConnectionError::NotConnected)),
                ),
            ),
        forall|snapshot_type: SnapshotType|
            #![trigger state.snapshot(snapshot_type)]
            state.buffer is Some && !state.kvm ==> just_asks(
                state.snapshot(snapshot_type),
                state,
                Question::SnapshotFinished(Err(SnapshotError::NotKvm)),
            ),
        state.buffer is Some && state.kvm ==> just_asks(
            state.snapshot(SnapshotType::Full),
            State { phase: Phase::ListingPlugged, ..state },
            Question::PluggedRanges,
        ),
        state.buffer is Some && state.kvm ==> state.snapshot(SnapshotType::Diff) == (
            State { phase: Phase::TakingBitmap(Purpose::Snapshot), ..state },
            Output::<B> {
                effects: seq![
                    Effect::PrepareDirtyTrackingReset,
                    Effect::MarkVirtioQueueMemoryDirty,
                ],
                ask: Question::GetDirtyBitmap,
            },
        ),
{
}

/// A readable socket is read once, if there is one.
pub proof fn a_readable_socket_is_read<B>(state: State<B>)
    ensures
        state.buffer is Some ==> just_asks(
            state.readable(),
            State { phase: Phase::Reading, ..state },
            Question::Read,
        ),
        state.buffer is None ==> just_asks(
            state.readable(),
            state,
            Question::EventFinished { connected: false, error: None },
        ),
{
}

/// The bitmap that the hypervisor hands out is held, and the ranges are asked for of it.
pub proof fn the_bitmap_taken_is_held<B>(state: State<B>, purpose: Purpose, bitmap: B)
    requires
        state.phase == Phase::TakingBitmap(purpose),
    ensures
        just_asks(
            state.next(Answer::DirtyBitmap(Ok(bitmap))),
            State {
                phase: Phase::ComputingRanges(purpose),
                bitmap: Some(bitmap),
                ..state
            },
            Question::DirtyRanges,
        ),
{
}

/// A response names the ranges that were computed for it, all of them and no others, and the bitmap
/// they were computed from is held until it is known whether it was sent.
pub proof fn a_response_names_what_was_computed<B>(state: State<B>, ranges: Seq<MemRange>)
    requires
        state.phase == Phase::ComputingRanges(Purpose::Request),
        state.buffer is Some,
    ensures
        just_asks(
            state.next(Answer::Ranges(Ok(ranges))),
            State { phase: Phase::Responding, ..state },
            Question::Respond(Response::DirtyRanges { ranges }),
        ),
{
}

/// The ranges of a snapshot, dirty ones for a diff and plugged ones for a full snapshot, are kept
/// until they are sent, and the regions are asked for.
pub proof fn the_ranges_of_a_snapshot_are_kept<B>(state: State<B>, ranges: Seq<MemRange>)
    ensures
        state.phase == Phase::ComputingRanges(Purpose::Snapshot) ==> just_asks(
            state.next(Answer::Ranges(Ok(ranges))),
            State { phase: Phase::Describing(SnapshotType::Diff), ranges, ..state },
            Question::DescribeForBackend,
        ),
        state.phase == Phase::ListingPlugged ==> just_asks(
            state.next(Answer::Plugged(ranges)),
            State { phase: Phase::Describing(SnapshotType::Full), ranges, ..state },
            Question::DescribeForBackend,
        ),
{
}

/// A snapshot request holds the type, the ranges that were kept and the regions that came, and is
/// counted.
pub proof fn a_snapshot_request_is_sent_and_counted<B>(
    state: State<B>,
    snapshot_type: SnapshotType,
    regions: Seq<MemBackendRegion>,
)
    requires
        state.phase == Phase::Describing(snapshot_type),
    ensures
        ({
            let (next, output) = state.next(Answer::Regions(regions));
            &&& output.effects.len() == 0
            &&& output.ask == Question::Notify(
                Notification::SnapshotRequest { snapshot_type, regions, ranges: state.ranges },
            )
            &&& next == (State {
                phase: Phase::Notifying,
                ranges: seq![],
                metrics: next.metrics,
                ..state
            })
            &&& next.metrics == (Metrics {
                snapshot_requests: next.metrics.snapshot_requests,
                ..state.metrics
            })
            &&& one_more(state.metrics.snapshot_requests, next.metrics.snapshot_requests)
        }),
{
}

/// What a diff snapshot fails with that cannot have its dirty ranges: the reason, after the bitmap,
/// if one was taken, is given back. Nothing is counted and the connection stays.
pub proof fn a_diff_without_ranges_fails_with_the_reason<B>(state: State<B>, text: Seq<char>)
    ensures
        state.phase == Phase::TakingBitmap(Purpose::Snapshot) ==> state.next(
            Answer::DirtyBitmap(Err(text)),
        ) == (
            State { phase: Phase::Idle, bitmap: None, ..state },
            Output {
                effects: given_back(state.bitmap),
                ask: Question::SnapshotFinished(Err(SnapshotError::DirtyBitmap(text))),
            },
        ),
        state.phase == Phase::ComputingRanges(Purpose::Snapshot) ==> state.next(
            Answer::Ranges(Err(text)),
        ) == (
            State { phase: Phase::Idle, bitmap: None, ..state },
            Output {
                effects: given_back(state.bitmap),
                ask: Question::SnapshotFinished(Err(SnapshotError::Memory(text))),
            },
        ),
{
}

/// Whether a step answers a request with an error of the given kind and text, having given back
/// the bitmap that was held, if any, and counted the failure and `requests` more requests; or, where
/// there is no connection to answer on, gives up for that.
pub open spec fn answers_with_error<B>(
    state: State<B>,
    step: (State<B>, Output<B>),
    kind: MemBackendErrorKind,
    message: Seq<char>,
    requests: int,
) -> bool {
    let (next, output) = step;
    &&& output.effects == given_back(state.bitmap)
    &&& next.bitmap is None
    &&& next.kvm == state.kvm
    &&& next.ranges == state.ranges
    &&& next.line == state.line
    &&& next.buffer == state.buffer
    &&& next.metrics.requests as int == (state.metrics.requests + requests)
        % 0x1_0000_0000_0000_0000
    &&& one_more(state.metrics.request_fails, next.metrics.request_fails)
    &&& next.metrics.snapshot_requests == state.metrics.snapshot_requests
    &&& next.metrics.snapshot_fails == state.metrics.snapshot_fails
    &&& if state.buffer is Some {
        &&& next.phase is Responding
        &&& next.metrics.disconnects == state.metrics.disconnects
        &&& output.ask == Question::Respond(Response::Error { kind, message })
    } else {
        &&& next.phase is Idle
        &&& one_more(state.metrics.disconnects, next.metrics.disconnects)
        &&& output.ask == Question::EventFinished {
            connected: false,
            error: Some(ConnectionError::NotConnected),
        }
    }
}

/// What a request is answered that cannot be served: that it is no request, that there is no KVM,
/// that there is no dirty bitmap, or that there are no ranges, each with its reason.
pub proof fn a_request_that_fails_is_answered<B>(state: State<B>, text: Seq<char>)
    ensures
        state.phase is ParsingRequest && state.bitmap is None ==> answers_with_error(
            state,
            state.next(Answer::Request(Err(text))),
            MemBackendErrorKind::UnknownRequest,
            text,
            1,
        ),
        state.phase is ParsingRequest && state.bitmap is None && !state.kvm
            ==> answers_with_error(
            state,
            state.next(Answer::Request(Ok(MemBackendRequest::GetDirtyRanges {  }))),
            MemBackendErrorKind::Internal,
            "Snapshots require KVM"@,
            1,
        ),
        state.phase == Phase::TakingBitmap(Purpose::Request) ==> answers_with_error(
            state,
            state.next(Answer::DirtyBitmap(Err(text))),
            MemBackendErrorKind::Internal,
            "Cannot get dirty bitmap: "@ + text,
            0,
        ),
        state.phase == Phase::ComputingRanges(Purpose::Request) ==> answers_with_error(
            state,
            state.next(Answer::Ranges(Err(text))),
            MemBackendErrorKind::Internal,
            "Cannot compute the dirty ranges: "@ + text,
            0,
        ),
{
    assert(given_back::<B>(state.bitmap) + seq![] =~= given_back(state.bitmap));
    assert(Seq::<Effect<B>>::empty() + seq![] =~= seq![]);
}

/// A request for the dirty ranges is counted, and has the hypervisor's bitmap asked for, once the
/// devices are prepared and the queues marked.
pub proof fn a_request_for_dirty_ranges_is_counted_and_served<B>(state: State<B>)
    requires
        state.phase is ParsingRequest,
        state.kvm,
    ensures
        ({
            let (next, output) = state.next(
                Answer::Request(Ok(MemBackendRequest::GetDirtyRanges {  })),
            );
            &&& output.effects == seq![
                Effect::<B>::PrepareDirtyTrackingReset,
                Effect::MarkVirtioQueueMemoryDirty,
            ]
            &&& output.ask is GetDirtyBitmap
            &&& next == (State {
                phase: Phase::TakingBitmap(Purpose::Request),
                metrics: next.metrics,
                ..state
            })
            &&& next.metrics == (Metrics { requests: next.metrics.requests, ..state.metrics })
            &&& one_more(state.metrics.requests, next.metrics.requests)
        }),
{
}

/// Whether a step fails a snapshot with an error, `received` being what is then buffered: the bitmap
/// is given back if one is held, the failure is counted and told, and the connection is closed, and
/// that counted, if and only if the backend closed it.
pub open spec fn fails_snapshot<B>(
    state: State<B>,
    received: Seq<u8>,
    step: (State<B>, Output<B>),
    error: ConnectionError,
) -> bool {
    let (next, output) = step;
    &&& output.effects == given_back(state.bitmap)
    &&& output.ask == Question::SnapshotFinished(Err(SnapshotError::Backend(error)))
    &&& next.phase is Idle
    &&& next.bitmap is None
    &&& next.line.len() == 0
    &&& next.kvm == state.kvm
    &&& next.ranges == state.ranges
    &&& next.metrics.requests == state.metrics.requests
    &&& next.metrics.request_fails == state.metrics.request_fails
    &&& next.metrics.snapshot_requests == state.metrics.snapshot_requests
    &&& one_more(state.metrics.snapshot_fails, next.metrics.snapshot_fails)
    &&& if error is Disconnected {
        next.buffer is None && one_more(state.metrics.disconnects, next.metrics.disconnects)
    } else {
        next.buffer == Some(received) && next.metrics.disconnects == state.metrics.disconnects
    }
}

/// The error that a message over the maximum size is.
pub open spec fn message_too_long() -> ConnectionError {
    ConnectionError::Protocol("message from memory backend too long"@)
}

/// What can go wrong with a snapshot once it is requested: that the request cannot be sent, that a
/// read fails, that the backend closes the connection, and that a read makes the reply too long.
pub proof fn a_snapshot_fails_with_what_went_wrong<B>(
    state: State<B>,
    error: ConnectionError,
    chunk: Seq<u8>,
)
    requires
        state.buffer is Some,
    ensures
        state.phase is Notifying ==> fails_snapshot(
            state,
            state.buffer->0,
            state.next(Answer::Sent(Err(error))),
            error,
        ),
        state.phase is AwaitingReply ==> fails_snapshot(
            state,
            state.buffer->0,
            state.next(Answer::Read(Err(error))),
            error,
        ),
        state.phase is AwaitingReply ==> fails_snapshot(
            state,
            state.buffer->0,
            state.next(Answer::Read(Ok(Seq::empty()))),
            ConnectionError::Disconnected,
        ),
        state.phase is AwaitingReply && chunk.len() > 0 && (state.buffer->0 + chunk).len() > 65536
            && !(state.buffer->0 + chunk).take(65537).contains(10) ==> fails_snapshot(
            state,
            state.buffer->0 + chunk,
            state.next(Answer::Read(Ok(chunk))),
            message_too_long(),
        ),
{
    a_read_leaves_the_connection_open_within_the_maximum(state.buffer->0, chunk, error);
    a_read_leaves_the_connection_open_within_the_maximum(state.buffer->0, seq![], error);
}

/// Once the snapshot request is sent, and on each read that does not make it too long, the reply is
/// looked for: a line in what has been received is taken as the reply, and what follows it stays;
/// without a line more is read, and everything received stays.
pub proof fn a_reply_is_the_first_line_received<B>(
    state: State<B>,
    answer: Answer<B>,
    received: Seq<u8>,
    line: Seq<u8>,
    rest: Seq<u8>,
)
    requires
        state.buffer is Some,
        !line.contains(10),
        received == line || received == line + seq![10u8] + rest,
        state.phase is Notifying && answer == Answer::<B>::Sent(Ok(())) && received
            == state.buffer->0 || state.phase is AwaitingReply && (answer matches Answer::Read(
            Ok(chunk),
        ) && chunk.len() > 0 && received == state.buffer->0 + chunk && (received.len() <= 65536
            || received.take(65537).contains(10))),
    ensures
        received == line ==> just_asks(
            state.next(answer),
            State { phase: Phase::AwaitingReply, buffer: Some(received), ..state },
            Question::Read,
        ),
        received == line + seq![10u8] + rest && line.len() <= 65536 ==> just_asks(
            state.next(answer),
            State { phase: Phase::ParsingReply, buffer: Some(rest), line, ..state },
            Question::ParseReply(line),
        ),
        received == line + seq![10u8] + rest && line.len() > 65536 ==> fails_snapshot(
            state,
            received,
            state.next(answer),
            message_too_long(),
        ),
{
    the_next_line_ends_at_the_first_newline(line, rest);
    if let Answer::Read(Ok(chunk)) = answer {
        a_read_leaves_the_connection_open_within_the_maximum(
            state.buffer->0,
            chunk,
            ConnectionError::Disconnected,
        );
        a_read_appends_what_it_gave(state.buffer->0, chunk, ConnectionError::Disconnected);
    }
}

/// What the reply makes of the snapshot. Success resets dirty tracking and is told; nothing is
/// counted and the connection stays. A failure is told in the backend's words, and a line that is no
/// reply is quoted.
pub proof fn a_snapshot_ends_as_the_reply_says<B>(state: State<B>, message: Seq<char>)
    requires
        state.phase is ParsingReply,
        state.buffer is Some,
    ensures
        state.next(Answer::Reply(Some(Reply::SnapshotDone { success: true, message }))) == (
            State { phase: Phase::Idle, bitmap: None, line: seq![], ..state },
            Output {
                effects: seq![Effect::<B>::ResetDirtyTracking],
                ask: Question::SnapshotFinished(Ok(())),
            },
        ),
        fails_snapshot(
            state,
            state.buffer->0,
            state.next(Answer::Reply(Some(Reply::SnapshotDone { success: false, message }))),
            ConnectionError::SnapshotFailed(message),
        ),
        fails_snapshot(
            state,
            state.buffer->0,
            state.next(Answer::Reply(None)),
            ConnectionError::Protocol(lossy_utf8(state.line)),
        ),
{
}

/// Whether a step gives the backend up while its requests are being served, after `effects`: the
/// connection is closed, that is counted and told, with the error if it was for one.
pub open spec fn gives_up<B>(
    state: State<B>,
    step: (State<B>, Output<B>),
    effects: Seq<Effect<B>>,
    error: Option<ConnectionError>,
) -> bool {
    let (next, output) = step;
    &&& output.effects == effects
    &&& output.ask == Question::EventFinished { connected: false, error }
    &&& next == (State {
        phase: Phase::Idle,
        buffer: None,
        bitmap: None,
        metrics: next.metrics,
        ..state
    })
    &&& next.metrics == (Metrics { disconnects: next.metrics.disconnects, ..state.metrics })
    &&& one_more(state.metrics.disconnects, next.metrics.disconnects)
}

/// When the backend is given up while its requests are being served: when it closed the connection,
/// when a read fails, when a read makes the next request too long, and when a response cannot be
/// sent, in which case the bitmap held for it is given back.
pub proof fn the_backend_is_given_up_for_what_went_wrong<B>(
    state: State<B>,
    error: ConnectionError,
    chunk: Seq<u8>,
)
    requires
        state.buffer is Some,
    ensures
        state.phase is Reading && state.bitmap is None ==> {
            &&& gives_up(state, state.next(Answer::Read(Ok(Seq::empty()))), seq![], None)
            &&& gives_up(state, state.next(Answer::Read(Err(error))), seq![], Some(error))
        },
        state.phase is Reading && state.bitmap is None && chunk.len() > 0 && (state.buffer->0
            + chunk).len() > 65536 && !(state.buffer->0 + chunk).take(65537).contains(10)
            ==> gives_up(
            state,
            state.next(Answer::Read(Ok(chunk))),
            seq![],
            Some(message_too_long()),
        ),
        state.phase is Responding ==> gives_up(
            state,
            state.next(Answer::Sent(Err(error))),
            given_back(state.bitmap),
            Some(error),
        ),
{
    a_read_leaves_the_connection_open_within_the_maximum(state.buffer->0, chunk, error);
    a_read_leaves_the_connection_open_within_the_maximum(state.buffer->0, seq![], error);
    assert(Seq::<Effect<B>>::empty() + given_back(state.bitmap) =~= given_back(state.bitmap));
}

/// A read that succeeds, and each response that was sent, has the next request served: a line in
/// what has been received is taken as a request, and what follows it stays; without a line the event
/// ends with the backend still there, and everything received stays. A response for which a bitmap
/// is held has consumed what was dirty once it is sent: dirty tracking is reset, and only then.
pub proof fn a_request_is_the_first_line_received<B>(
    state: State<B>,
    answer: Answer<B>,
    received: Seq<u8>,
    line: Seq<u8>,
    rest: Seq<u8>,
)
    requires
        state.buffer is Some,
        !line.contains(10),
        received == line || received == line + seq![10u8] + rest,
        state.phase is Responding && answer == Answer::<B>::Sent(Ok(())) && received
            == state.buffer->0 || state.phase is Reading && state.bitmap is None && (
        answer matches Answer::Read(Ok(chunk)) && chunk.len() > 0 && received == state.buffer->0
            + chunk && (received.len() <= 65536 || received.take(65537).contains(10))),
    ensures
        ({
            let (next, output) = state.next(answer);
            let effects = if state.bitmap is Some {
                seq![Effect::<B>::ResetDirtyTracking]
            } else {
                seq![]
            };
            &&& received == line ==> {
                &&& output.effects == effects
                &&& output.ask == Question::EventFinished { connected: true, error: None }
                &&& next == (State {
                    phase: Phase::Idle,
                    buffer: Some(received),
                    bitmap: None,
                    ..state
                })
            }
            &&& received == line + seq![10u8] + rest && line.len() <= 65536 ==> {
                &&& output.effects == effects
                &&& output.ask == Question::ParseRequest(line)
                &&& next == (State {
                    phase: Phase::ParsingRequest,
                    buffer: Some(rest),
                    bitmap: None,
                    ..state
                })
            }
            &&& received == line + seq![10u8] + rest && line.len() > 65536 ==> gives_up(
                state,
                (next, output),
                effects,
                Some(message_too_long()),
            )
        }),
{
    the_next_line_ends_at_the_first_newline(line, rest);
    assert(Seq::<Effect<B>>::empty() + seq![Effect::<B>::ResetDirtyTracking] =~= seq![
        Effect::<B>::ResetDirtyTracking,
    ]);
    assert(Seq::<Effect<B>>::empty() + seq![] =~= seq![]);
    if let Answer::Read(Ok(chunk)) = answer {
        a_read_leaves_the_connection_open_within_the_maximum(
            state.buffer->0,
            chunk,
            ConnectionError::Disconnected,
        );
        a_read_appends_what_it_gave(state.buffer->0, chunk, ConnectionError::Disconnected);
    }
}

/// A response for which there is no connection is given up for that, and the bitmap that was taken
/// for it is given back.
pub proof fn a_response_needs_a_connection<B>(state: State<B>, ranges: Seq<MemRange>)
    requires
        state.phase == Phase::ComputingRanges(Purpose::Request),
        state.buffer is None,
    ensures
        gives_up(
            state,
            state.next(Answer::Ranges(Ok(ranges))),
            given_back(state.bitmap),
            Some(ConnectionError::NotConnected),
        ),
{
    assert(Seq::<Effect<B>>::empty() + given_back(state.bitmap) =~= given_back(state.bitmap));
}

/// Computing the dirty ranges starts with the devices prepared and the queues marked, in this order
/// and for whatever they are computed. Without KVM a snapshot fails and a request is answered so.
pub proof fn computing_dirty_ranges_starts_with_marking_the_queues<B>(
    state: State<B>,
    purpose: Purpose,
)
    requires
        state.bitmap is None,
    ensures
        state.kvm ==> state.dirty_ranges(purpose) == (
            State { phase: Phase::TakingBitmap(purpose), ..state },
            Output::<B> {
                effects: seq![
                    Effect::PrepareDirtyTrackingReset,
                    Effect::MarkVirtioQueueMemoryDirty,
                ],
                ask: Question::GetDirtyBitmap,
            },
        ),
        !state.kvm && purpose is Snapshot ==> just_asks(
            state.dirty_ranges(purpose),
            State { phase: Phase::Idle, ..state },
            Question::SnapshotFinished(Err(SnapshotError::NotKvm)),
        ),
        !state.kvm && purpose is Request ==> answers_with_error(
            state,
            state.dirty_ranges(purpose),
            MemBackendErrorKind::Internal,
            "Snapshots require KVM"@,
            0,
        ),
{
    assert(Seq::<Effect<B>>::empty() + seq![] =~= seq![]);
}

/// Whenever the hypervisor's bitmap is asked for, in whatever state and on whatever input, the
/// devices have been prepared and the queues marked in that step, and never otherwise.
pub proof fn the_bitmap_is_asked_for_with_the_queues_marked<B>(state: State<B>, input: Input<B>)
    requires
        state.well_formed(),
        possible(state, input),
    ensures
        ({
            let output = advance(state, input).1;
            &&& output.ask is GetDirtyBitmap ==> output.effects == seq![
                Effect::<B>::PrepareDirtyTrackingReset,
                Effect::MarkVirtioQueueMemoryDirty,
            ]
            &&& !(output.ask is GetDirtyBitmap) ==> !output.effects.contains(
                Effect::PrepareDirtyTrackingReset,
            ) && !output.effects.contains(Effect::MarkVirtioQueueMemoryDirty)
        }),
{
    let effects = advance(state, input).1.effects;
    assert(effects.len() == 1 ==> effects.contains(effects[0]));
}

/// The pages of the virtio queues are among those that the dirty ranges are computed from, each time
/// that dirty ranges are asked for, for a snapshot or for a request.
pub proof fn queue_pages_are_always_reported<B>(
    world: World<B>,
    state: State<B>,
    inputs: Seq<Input<B>>,
    tracking: Tracking,
)
    requires
        state.well_formed(),
        state.phase is TakingBitmap ==> world.queues.subset_of(tracking.own),
        follows(state, inputs),
        inputs.len() > 0,
        outputs(state, inputs).last().ask is DirtyRanges,
    ensures
        world.queues.subset_of(
            reported(
                world,
                after(state, inputs),
                tracking_after(world, state, inputs, tracking),
            ),
        ),
    decreases inputs.len(),
{
    let (next, output) = advance(state, inputs[0]);
    let rest = inputs.skip(1);
    let left = tracking_next(world, state, inputs[0], tracking);
    assert(follows(next, rest));
    steps_keep_the_exchange_well_formed(state, inputs[0]);
    the_bitmap_is_asked_for_with_the_queues_marked(state, inputs[0]);
    reveal_with_fuel(performed_all, 3);
    if next.phase is TakingBitmap {
        let effects = output.effects;
        assert(effects.skip(1)[0] == effects[1]);
        assert(effects.skip(1).skip(1).len() == 0);
    }
    if rest.len() == 0 {
        assert(outputs(next, rest).len() == 0);
        assert(outputs(state, inputs).last() == output);
        assert(after(next, rest) == next);
        assert(tracking_after(world, next, rest, left) == left);
    } else {
        assert(outputs(next, rest).len() > 0);
        assert(outputs(state, inputs).last() == outputs(next, rest).last());
        queue_pages_are_always_reported(world, next, rest, left);
    }
}

/// A snapshot is of the type that was asked for: however it goes, whatever snapshot request is sent
/// until it is over is of that type.
pub proof fn the_snapshot_requested_is_of_the_type_asked_for<B>(
    state: State<B>,
    snapshot_type: SnapshotType,
    answers: Seq<Answer<B>>,
    i: int,
)
    requires
        state.well_formed(),
        state.phase is Idle,
        follows(state.snapshot(snapshot_type).0, answers_only(answers)),
        0 <= i < outputs(state.snapshot(snapshot_type).0, answers_only(answers)).len(),
    ensures
        outputs(state.snapshot(snapshot_type).0, answers_only(answers))[i].ask matches
            Question::Notify(Notification::SnapshotRequest { snapshot_type: sent, .. }) ==> sent
            == snapshot_type,
{
    a_snapshot_of_the_type_asked_for_is_started(state);
    let first = state.snapshot(snapshot_type).0;
    if first.phase is Idle {
        assert(answers_only(answers).len() == 0) by {
            if answers.len() > 0 {
                assert(answers_only(answers)[0] == Input::Answered(answers[0]));
            }
        }
    } else {
        lemma_type_is_kept(first, snapshot_type, answers, i);
    }
}

/// Whether the snapshot that a phase belongs to is of a type, or its request has been sent.
spec fn is_of_type(phase: Phase, snapshot_type: SnapshotType) -> bool {
    match phase {
        Phase::TakingBitmap(purpose) => purpose is Snapshot && snapshot_type is Diff,
        Phase::ComputingRanges(purpose) => purpose is Snapshot && snapshot_type is Diff,
        Phase::ListingPlugged => snapshot_type is Full,
        Phase::Describing(described) => described == snapshot_type,
        Phase::Notifying => true,
        Phase::AwaitingReply => true,
        Phase::ParsingReply => true,
        Phase::Idle => true,
        _ => false,
    }
}

proof fn lemma_type_is_kept<B>(
    state: State<B>,
    snapshot_type: SnapshotType,
    answers: Seq<Answer<B>>,
    i: int,
)
    requires
        is_of_type(state.phase, snapshot_type),
        follows(state, answers_only(answers)),
        0 <= i < outputs(state, answers_only(answers)).len(),
    ensures
        outputs(state, answers_only(answers))[i].ask matches Question::Notify(
            Notification::SnapshotRequest { snapshot_type: sent, .. },
        ) ==> sent == snapshot_type,
    decreases answers.len(),
{
    let inputs = answers_only(answers);
    assert(inputs.len() > 0);
    assert(inputs[0] == Input::Answered(answers[0]));
    let (next, output) = advance(state, inputs[0]);
    let rest = answers_only(answers.skip(1));
    assert(inputs.skip(1) =~= rest);
    if i > 0 {
        assert(outputs(state, inputs)[i] == outputs(next, rest)[i - 1]);
        lemma_type_is_kept(next, snapshot_type, answers.skip(1), i - 1);
    }
}

/// A read never costs the connection if it succeeds, gives at least one byte and does not make the
/// next message too long: the bytes are served or stay, and a request may come in as many reads as
/// it likes.
pub proof fn a_good_read_never_costs_the_connection<B>(
    state: State<B>,
    chunk: Seq<u8>,
)
    requires
        state.phase is Reading || state.phase is AwaitingReply,
        state.buffer is Some,
        chunk.len() > 0,
        (state.buffer->0 + chunk).len() <= 65536 || (state.buffer->0 + chunk).take(65537).contains(
            10,
        ),
    ensures
        ({
            let received = state.buffer->0 + chunk;
            let (next, output) = state.next(Answer::Read(Ok(chunk)));
            &&& next.buffer is Some
            &&& next.metrics == state.metrics
            &&& !received.contains(10) ==> next.buffer == Some(received)
            &&& !received.contains(10) && state.phase is Reading ==> next.phase is Idle
                && output.ask == Question::EventFinished { connected: true, error: None }
            &&& !received.contains(10) && state.phase is AwaitingReply ==> next.phase
                is AwaitingReply && output.ask is Read
            &&& received.contains(10) && state.phase is Reading ==> output.ask is ParseRequest
            &&& received.contains(10) && state.phase is AwaitingReply ==> output.ask is ParseReply
        }),
{
    let received = state.buffer->0 + chunk;
    a_read_leaves_the_connection_open_within_the_maximum(
        state.buffer->0,
        chunk,
        ConnectionError::Disconnected,
    );
    a_read_appends_what_it_gave(state.buffer->0, chunk, ConnectionError::Disconnected);
    lemma_line_len(received);
}

/// Neither does a response that was sent, unless the next request that has been received is too
/// long.
pub proof fn a_response_sent_never_costs_the_connection<B>(state: State<B>)
    requires
        state.phase is Responding,
        state.buffer is Some,
        state.buffer->0.len() <= 65536 || !state.buffer->0.contains(10)
            || state.buffer->0.take(65537).contains(10),
    ensures
        ({
            let (next, output) = state.next(Answer::Sent(Ok(())));
            &&& next.buffer is Some
            &&& next.metrics == state.metrics
            &&& output.ask is ParseRequest <==> state.buffer->0.contains(10)
            &&& !(output.ask is ParseRequest) ==> next.buffer == state.buffer && output.ask
                == Question::EventFinished { connected: true, error: None }
        }),
{
    let bytes = state.buffer->0;
    lemma_line_len(bytes);
    if bytes.len() > 65536 && bytes.take(65537).contains(10) {
        let first = bytes.take(65537);
        let i = choose|i: int| 0 <= i < first.len() && first[i] == 10;
        assert(bytes[i] == 10);
        assert(line_len(bytes) <= 65536);
    }
}

/// The bytes that an input brings in.
pub open spec fn bytes_read<B>(input: Input<B>) -> Seq<u8> {
    match input {
        Input::Answered(Answer::Read(Ok(chunk))) => chunk,
        _ => seq![],
    }
}

/// The bytes that are taken from the buffer with what is asked.
pub open spec fn bytes_taken(ask: Question) -> Seq<u8> {
    match ask {
        Question::ParseReply(line) => line + seq![10u8],
        Question::ParseRequest(line) => line + seq![10u8],
        _ => seq![],
    }
}

/// No byte is lost, made up or moved: what was buffered and what is read are what is taken as a
/// line, with its newline, and what stays buffered, in this order, as long as there is a connection.
pub proof fn steps_keep_every_byte<B>(state: State<B>, input: Input<B>)
    requires
        state.well_formed(),
        possible(state, input),
        advance(state, input).0.buffer is Some,
    ensures
        state.buffer is Some,
        state.buffer->0 + bytes_read(input) == bytes_taken(advance(state, input).1.ask) + advance(
            state,
            input,
        ).0.buffer->0,
{
    let all = state.buffer->0 + bytes_read(input);
    let next = advance(state, input).0;
    let taken = bytes_taken(advance(state, input).1.ask);
    lemma_line_len(all);
    if let Input::Answered(Answer::Read(Ok(chunk))) = input {
        a_read_appends_what_it_gave(state.buffer->0, chunk, ConnectionError::Disconnected);
    } else {
        assert(all =~= state.buffer->0);
    }
    assert(all =~= taken + next.buffer->0);
}

/// All bytes that inputs bring in.
pub open spec fn all_bytes_read<B>(inputs: Seq<Input<B>>) -> Seq<u8>
    decreases inputs.len(),
{
    if inputs.len() == 0 {
        seq![]
    } else {
        bytes_read(inputs[0]) + all_bytes_read(inputs.skip(1))
    }
}

/// All bytes that are taken from the buffer.
pub open spec fn all_bytes_taken<B>(outputs: Seq<Output<B>>) -> Seq<u8>
    decreases outputs.len(),
{
    if outputs.len() == 0 {
        seq![]
    } else {
        bytes_taken(outputs[0].ask) + all_bytes_taken(outputs.skip(1))
    }
}

/// Over however many exchanges, the lines that are parsed and what is still buffered are, byte for
/// byte and in their order, what was buffered and all that was read.
pub proof fn exchanges_keep_every_byte<B>(state: State<B>, inputs: Seq<Input<B>>)
    requires
        state.well_formed(),
        follows(state, inputs),
        after(state, inputs).buffer is Some,
    ensures
        state.buffer is Some,
        state.buffer->0 + all_bytes_read(inputs) == all_bytes_taken(outputs(state, inputs)) + after(
            state,
            inputs,
        ).buffer->0,
    decreases inputs.len(),
{
    if inputs.len() > 0 {
        let (next, output) = advance(state, inputs[0]);
        let rest = inputs.skip(1);
        steps_keep_the_exchange_well_formed(state, inputs[0]);
        exchanges_keep_every_byte(next, rest);
        steps_keep_every_byte(state, inputs[0]);
        assert(outputs(state, inputs).skip(1) =~= outputs(next, rest));
        assert(outputs(state, inputs)[0] == output);
        let buffer = state.buffer->0;
        let taken = bytes_taken(output.ask);
        assert(buffer + (bytes_read(inputs[0]) + all_bytes_read(rest)) =~= (buffer + bytes_read(
            inputs[0],
        )) + all_bytes_read(rest));
        assert((taken + next.buffer->0) + all_bytes_read(rest) =~= taken + (next.buffer->0
            + all_bytes_read(rest)));
        assert(taken + (all_bytes_taken(outputs(next, rest)) + after(next, rest).buffer->0) =~= (
        taken + all_bytes_taken(outputs(next, rest))) + after(next, rest).buffer->0);
    } else {
        assert(state.buffer->0 + all_bytes_read(inputs) =~= all_bytes_taken(
            outputs(state, inputs),
        ) + state.buffer->0);
    }
}

/// The hypervisor is what it is.
pub proof fn exchanges_do_not_change_the_hypervisor<B>(state: State<B>, inputs: Seq<Input<B>>)
    ensures
        after(state, inputs).kvm == state.kvm,
    decreases inputs.len(),
{
    if inputs.len() > 0 {
        exchanges_do_not_change_the_hypervisor(advance(state, inputs[0]).0, inputs.skip(1));
    }
}

/// The answer that is expected is the answer to what was asked, and when nothing is asked none is.
pub proof fn what_was_asked_is_what_is_expected<B>(
    state: State<B>,
    input: Input<B>,
    answer: Answer<B>,
)
    requires
        state.well_formed(),
        possible(state, input),
    ensures
        expected(advance(state, input).0.phase, answer) <==> match advance(state, input).1.ask {
            Question::GetDirtyBitmap => answer is DirtyBitmap,
            Question::DirtyRanges => answer is Ranges,
            Question::PluggedRanges => answer is Plugged,
            Question::DescribeForBackend => answer is Regions,
            Question::Notify(_) => answer is Sent,
            Question::Respond(_) => answer is Sent,
            Question::Read => answer is Read,
            Question::ParseReply(_) => answer is Reply,
            Question::ParseRequest(_) => answer is Request,
            Question::SnapshotFinished(_) => false,
            Question::EventFinished { .. } => false,
        },
{
    steps_keep_the_exchange_well_formed(state, input);
}

/// Whether an exchange is well-formed depends on what it waits for, on KVM, and on whether it has a
/// connection and holds a bitmap: never on the counters, nor on what was received or is to be sent,
/// nor on which bitmap it is.
pub proof fn well_formedness_is_about_the_phase<B>(a: State<B>, b: State<B>)
    requires
        a.phase == b.phase,
        a.kvm == b.kvm,
        a.buffer is Some <==> b.buffer is Some,
        a.bitmap is Some <==> b.bitmap is Some,
    ensures
        a.well_formed() == b.well_formed(),
{
}

/// An idle microVM that holds no bitmap is well-formed, with or without KVM or a connection, so that
/// a snapshot can be asked for and the socket can be read in it.
pub proof fn an_idle_microvm_is_ready<B>(state: State<B>)
    requires
        state.phase is Idle,
        state.bitmap is None,
    ensures
        state.well_formed(),
{
}

} // verus!
