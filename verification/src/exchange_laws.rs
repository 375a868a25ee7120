//! What holds of every exchange between a microVM and its memory backend.

use vstd::prelude::*;

use crate::connection::{buffer_after, lemma_line_len, MAX_MESSAGE_LEN, NEWLINE};
use crate::connection_laws::{lines, unfinished};
use crate::exchange::{
    counted, expected, Answer, Effect, Output, Phase, Purpose, Question, State,
};
use crate::protocol::{
    ConnectionError, MemBackendRegion, MemRange, Notification, Reply, Response, SnapshotError,
};
use crate::snapshot::SnapshotType;

verus! {

/// What can happen to a microVM: an exchange is started, or the outside world answers.
pub enum Input<B> {
    /// A snapshot is wanted.
    Snapshot(SnapshotType),
    /// The socket is readable.
    Readable,
    /// What was asked last is answered.
    Answered(Answer<B>),
}

/// Whether an input can come in a state: an exchange is started only while none is under way, and
/// an answer is of the kind that is waited for.
pub open spec fn possible<B>(state: State<B>, input: Input<B>) -> bool {
    match input {
        Input::Snapshot(_) => state.phase is Idle,
        Input::Readable => state.phase is Idle,
        Input::Answered(answer) => expected(state.phase, answer),
    }
}

/// What follows an input.
pub open spec fn advance<B>(state: State<B>, input: Input<B>) -> (State<B>, Output<B>) {
    match input {
        Input::Snapshot(snapshot_type) => state.snapshot(snapshot_type),
        Input::Readable => state.readable(),
        Input::Answered(answer) => state.next(answer),
    }
}

/// Whether each of `inputs` can come when it comes.
pub open spec fn follows<B>(state: State<B>, inputs: Seq<Input<B>>) -> bool
    decreases inputs.len(),
{
    inputs.len() > 0 ==> possible(state, inputs[0]) && follows(
        advance(state, inputs[0]).0,
        inputs.skip(1),
    )
}

/// The state after `inputs`.
pub open spec fn after<B>(state: State<B>, inputs: Seq<Input<B>>) -> State<B>
    decreases inputs.len(),
{
    if inputs.len() == 0 {
        state
    } else {
        after(advance(state, inputs[0]).0, inputs.skip(1))
    }
}

/// What is done and asked on `inputs`.
pub open spec fn outputs<B>(state: State<B>, inputs: Seq<Input<B>>) -> Seq<Output<B>>
    decreases inputs.len(),
{
    if inputs.len() == 0 {
        seq![]
    } else {
        let (next, output) = advance(state, inputs[0]);
        seq![output] + outputs(next, inputs.skip(1))
    }
}

/// Whether a phase is the one in which the answer to a question is waited for. An exchange that is
/// finished waits for nothing.
pub open spec fn waits_for(phase: Phase, ask: Question) -> bool {
    match phase {
        Phase::Idle => ask is SnapshotFinished || ask is EventFinished,
        Phase::TakingBitmap(_) => ask is GetDirtyBitmap,
        Phase::ComputingRanges(_) => ask is DirtyRanges,
        Phase::ListingPlugged => ask is PluggedRanges,
        Phase::Describing(_) => ask is DescribeForBackend,
        Phase::Notifying => ask is Notify,
        Phase::AwaitingReply => ask is Read,
        Phase::ParsingReply => ask is ParseReply,
        Phase::Reading => ask is Read,
        Phase::ParsingRequest => ask is ParseRequest,
        Phase::Responding => ask is Respond,
    }
}

/// An exchange holds what it needs at every step, and waits for the answer to just what it asked.
pub proof fn steps_keep_the_exchange_well_formed<B>(state: State<B>, input: Input<B>)
    requires
        state.well_formed(),
        possible(state, input),
    ensures
        advance(state, input).0.well_formed(),
        waits_for(advance(state, input).0.phase, advance(state, input).1.ask),
{
}

/// Whether an exchange that is under way has a connection. Only a request that is served without
/// having been read from one does not.
pub open spec fn attached<B>(state: State<B>) -> bool {
    !(state.phase is Idle) ==> state.buffer is Some
}

/// An exchange that has a connection keeps it until it is over.
pub proof fn steps_keep_the_exchange_attached<B>(state: State<B>, input: Input<B>)
    requires
        state.well_formed(),
        attached(state),
        possible(state, input),
    ensures
        attached(advance(state, input).0),
{
}

/// However long it goes on, and over however many exchanges, a microVM stays well-formed.
pub proof fn exchanges_stay_well_formed<B>(state: State<B>, inputs: Seq<Input<B>>)
    requires
        state.well_formed(),
        follows(state, inputs),
    ensures
        after(state, inputs).well_formed(),
    decreases inputs.len(),
{
    if inputs.len() > 0 {
        steps_keep_the_exchange_well_formed(state, inputs[0]);
        exchanges_stay_well_formed(advance(state, inputs[0]).0, inputs.skip(1));
    }
}

/// No line is parsed, as a reply or as a request, that is over the maximum size of a message.
pub proof fn parsed_messages_are_bounded<B>(state: State<B>, input: Input<B>)
    requires
        state.well_formed(),
        possible(state, input),
    ensures
        advance(state, input).1.ask matches Question::ParseReply(line) ==> line.len()
            <= MAX_MESSAGE_LEN,
        advance(state, input).1.ask matches Question::ParseRequest(line) ==> line.len()
            <= MAX_MESSAGE_LEN,
{
    if state.buffer is Some {
        lemma_line_len(state.buffer->0);
        if let Input::Answered(Answer::Read(read)) = input {
            lemma_line_len(buffer_after(state.buffer->0, read));
        }
    }
}

/// What the outside world is like, as far as dirty pages are concerned.
#[verifier::reject_recursive_types(B)]
pub struct World<B> {
    /// The pages in a dirty bitmap of the hypervisor.
    pub pages: spec_fn(B) -> Set<int>,
    /// The pages of the virtio queues.
    pub queues: Set<int>,
}

/// The pages that the outside world knows to be dirty.
#[verifier::ext_equal]
pub struct Tracking {
    /// The pages in the log of the hypervisor.
    pub hypervisor: Set<int>,
    /// The pages in the bitmap of the microVM.
    pub own: Set<int>,
}

/// What an input leaves of the pages known to be dirty: handing out its bitmap clears the log of
/// the hypervisor.
pub open spec fn answered<B>(tracking: Tracking, input: Input<B>) -> Tracking {
    match input {
        Input::Answered(Answer::DirtyBitmap(Ok(_))) => Tracking {
            hypervisor: Set::empty(),
            ..tracking
        },
        _ => tracking,
    }
}

/// Whether a bitmap that was handed out holds the pages that are cleared from the log for it.
pub open spec fn complete<B>(world: World<B>, tracking: Tracking, input: Input<B>) -> bool {
    input matches Input::Answered(Answer::DirtyBitmap(Ok(bitmap))) ==> tracking.hypervisor.subset_of(
        (world.pages)(bitmap),
    )
}

/// Whether it holds no others.
pub open spec fn exact<B>(world: World<B>, tracking: Tracking, input: Input<B>) -> bool {
    input matches Input::Answered(Answer::DirtyBitmap(Ok(bitmap))) ==> (world.pages)(
        bitmap,
    ).subset_of(tracking.hypervisor)
}

/// What an effect leaves of the pages known to be dirty, or adds to them.
pub open spec fn performed<B>(world: World<B>, tracking: Tracking, effect: Effect<B>) -> Tracking {
    match effect {
        Effect::PrepareDirtyTrackingReset => tracking,
        Effect::MarkVirtioQueueMemoryDirty => Tracking {
            own: tracking.own.union(world.queues),
            ..tracking
        },
        Effect::ResetDirtyTracking => Tracking { hypervisor: Set::empty(), own: Set::empty() },
        Effect::StoreDirtyBitmap(bitmap) => Tracking {
            own: tracking.own.union((world.pages)(bitmap)),
            ..tracking
        },
    }
}

/// What effects leave of the pages known to be dirty.
pub open spec fn performed_all<B>(
    world: World<B>,
    tracking: Tracking,
    effects: Seq<Effect<B>>,
) -> Tracking
    decreases effects.len(),
{
    if effects.len() == 0 {
        tracking
    } else {
        performed_all(world, performed(world, tracking, effects[0]), effects.skip(1))
    }
}

/// What a step leaves of the pages known to be dirty.
pub open spec fn tracking_next<B>(
    world: World<B>,
    state: State<B>,
    input: Input<B>,
    tracking: Tracking,
) -> Tracking {
    performed_all(world, answered(tracking, input), advance(state, input).1.effects)
}

/// What `inputs` leave of the pages known to be dirty.
pub open spec fn tracking_after<B>(
    world: World<B>,
    state: State<B>,
    inputs: Seq<Input<B>>,
    tracking: Tracking,
) -> Tracking
    decreases inputs.len(),
{
    if inputs.len() == 0 {
        tracking
    } else {
        tracking_after(
            world,
            advance(state, inputs[0]).0,
            inputs.skip(1),
            tracking_next(world, state, inputs[0], tracking),
        )
    }
}

/// Whether every bitmap that is handed out on `inputs` is complete.
pub open spec fn all_complete<B>(
    world: World<B>,
    state: State<B>,
    inputs: Seq<Input<B>>,
    tracking: Tracking,
) -> bool
    decreases inputs.len(),
{
    inputs.len() > 0 ==> complete(world, tracking, inputs[0]) && all_complete(
        world,
        advance(state, inputs[0]).0,
        inputs.skip(1),
        tracking_next(world, state, inputs[0], tracking),
    )
}

/// Whether every bitmap that is handed out on `inputs` is exact.
pub open spec fn all_exact<B>(
    world: World<B>,
    state: State<B>,
    inputs: Seq<Input<B>>,
    tracking: Tracking,
) -> bool
    decreases inputs.len(),
{
    inputs.len() > 0 ==> exact(world, tracking, inputs[0]) && all_exact(
        world,
        advance(state, inputs[0]).0,
        inputs.skip(1),
        tracking_next(world, state, inputs[0], tracking),
    )
}

/// The pages that are dirty in the bitmap that the exchange holds or in that of the microVM: those
/// that the dirty ranges are computed from.
pub open spec fn reported<B>(world: World<B>, state: State<B>, tracking: Tracking) -> Set<int> {
    match state.bitmap {
        Some(bitmap) => tracking.own.union((world.pages)(bitmap)),
        None => tracking.own,
    }
}

/// All pages that are known to be dirty, in the outside world or in the bitmap that the exchange
/// holds.
pub open spec fn dirty<B>(world: World<B>, state: State<B>, tracking: Tracking) -> Set<int> {
    tracking.hypervisor.union(reported(world, state, tracking))
}

/// Whether dirty tracking is reset.
pub open spec fn resets<B>(output: Output<B>) -> bool {
    output.effects.contains(Effect::ResetDirtyTracking)
}

/// Whether dirty tracking is reset on `inputs`.
pub open spec fn resets_on<B>(state: State<B>, inputs: Seq<Input<B>>) -> bool {
    exists|i: int|
        0 <= i < outputs(state, inputs).len() && resets(#[trigger] outputs(state, inputs)[i])
}

/// What holds of all outputs of a run holds of the first, and of those of the rest.
proof fn lemma_first_and_rest<B>(state: State<B>, inputs: Seq<Input<B>>)
    requires
        inputs.len() > 0,
        !resets_on(state, inputs),
    ensures
        !resets(advance(state, inputs[0]).1),
        !resets_on(advance(state, inputs[0]).0, inputs.skip(1)),
{
    let all = outputs(state, inputs);
    let rest = outputs(advance(state, inputs[0]).0, inputs.skip(1));
    assert(all[0] == advance(state, inputs[0]).1);
    assert forall|i: int| 0 <= i < rest.len() implies !resets(#[trigger] rest[i]) by {
        assert(all[i + 1] == rest[i]);
    }
}

/// No step forgets a dirty page, unless it resets dirty tracking.
pub proof fn steps_keep_dirty_pages<B>(
    world: World<B>,
    state: State<B>,
    input: Input<B>,
    tracking: Tracking,
)
    requires
        state.well_formed(),
        possible(state, input),
        complete(world, tracking, input),
        !resets(advance(state, input).1),
    ensures
        dirty(world, state, tracking).subset_of(
            dirty(
                world,
                advance(state, input).0,
                tracking_next(world, state, input, tracking),
            ),
        ),
{
    lemma_effects(world, state, input, answered(tracking, input));
}

/// No step makes a page dirty but those of the virtio queues.
pub proof fn steps_dirty_only_queues<B>(
    world: World<B>,
    state: State<B>,
    input: Input<B>,
    tracking: Tracking,
)
    requires
        state.well_formed(),
        possible(state, input),
        exact(world, tracking, input),
    ensures
        dirty(
            world,
            advance(state, input).0,
            tracking_next(world, state, input, tracking),
        ).subset_of(dirty(world, state, tracking).union(world.queues)),
{
    lemma_effects(world, state, input, answered(tracking, input));
}

/// What the effects of a step, of which there are at most two, leave of the pages known to be
/// dirty.
proof fn lemma_effects<B>(world: World<B>, state: State<B>, input: Input<B>, tracking: Tracking)
    requires
        state.well_formed(),
        possible(state, input),
    ensures
        ({
            let effects = advance(state, input).1.effects;
            &&& effects.len() <= 2
            &&& performed_all(world, tracking, effects) == if effects.len() == 0 {
                tracking
            } else if effects.len() == 1 {
                performed(world, tracking, effects[0])
            } else {
                performed(world, performed(world, tracking, effects[0]), effects[1])
            }
            &&& effects.len() == 1 ==> (resets(advance(state, input).1) <==> effects[0]
                == Effect::<B>::ResetDirtyTracking)
            &&& effects.len() == 2 ==> effects[0] == Effect::<B>::PrepareDirtyTrackingReset
                && effects[1] == Effect::<B>::MarkVirtioQueueMemoryDirty
        }),
{
    let effects = advance(state, input).1.effects;
    reveal_with_fuel(performed_all, 3);
    if effects.len() == 1 {
        assert(effects.contains(effects[0]));
        assert(effects.skip(1).len() == 0);
    }
    if effects.len() == 2 {
        assert(effects.skip(1)[0] == effects[1]);
        assert(effects.skip(1).skip(1).len() == 0);
    }
}

/// No dirty page is lost: whatever happens, over however many exchanges, as long as dirty tracking
/// is not reset, a page that was dirty stays dirty.
pub proof fn no_dirty_page_is_lost<B>(
    world: World<B>,
    state: State<B>,
    inputs: Seq<Input<B>>,
    tracking: Tracking,
)
    requires
        state.well_formed(),
        follows(state, inputs),
        all_complete(world, state, inputs, tracking),
        !resets_on(state, inputs),
    ensures
        dirty(world, state, tracking).subset_of(
            dirty(
                world,
                after(state, inputs),
                tracking_after(world, state, inputs, tracking),
            ),
        ),
    decreases inputs.len(),
{
    if inputs.len() > 0 {
        lemma_first_and_rest(state, inputs);
        steps_keep_the_exchange_well_formed(state, inputs[0]);
        steps_keep_dirty_pages(world, state, inputs[0], tracking);
        no_dirty_page_is_lost(
            world,
            advance(state, inputs[0]).0,
            inputs.skip(1),
            tracking_next(world, state, inputs[0], tracking),
        );
    }
}

/// No page becomes dirty without being written: whatever happens, over however many exchanges,
/// only the pages of the virtio queues, which are marked dirty anew, join those that were dirty.
pub proof fn exchanges_dirty_only_queues<B>(
    world: World<B>,
    state: State<B>,
    inputs: Seq<Input<B>>,
    tracking: Tracking,
)
    requires
        state.well_formed(),
        follows(state, inputs),
        all_exact(world, state, inputs, tracking),
    ensures
        dirty(
            world,
            after(state, inputs),
            tracking_after(world, state, inputs, tracking),
        ).subset_of(dirty(world, state, tracking).union(world.queues)),
    decreases inputs.len(),
{
    if inputs.len() > 0 {
        steps_keep_the_exchange_well_formed(state, inputs[0]);
        steps_dirty_only_queues(world, state, inputs[0], tracking);
        exchanges_dirty_only_queues(
            world,
            advance(state, inputs[0]).0,
            inputs.skip(1),
            tracking_next(world, state, inputs[0], tracking),
        );
    }
}

/// Once an exchange is over, the outside world has all dirty pages: nothing is held back.
pub proof fn a_finished_exchange_holds_no_bitmap<B>(
    world: World<B>,
    state: State<B>,
    tracking: Tracking,
)
    requires
        state.well_formed(),
        state.phase is Idle,
    ensures
        dirty(world, state, tracking) == tracking.hypervisor.union(tracking.own),
{
}

/// When the dirty ranges are asked for, they are asked for of all dirty pages: taking the bitmap
/// has left nothing in the log of the hypervisor.
pub proof fn dirty_ranges_are_those_of_all_dirty_pages<B>(
    world: World<B>,
    state: State<B>,
    input: Input<B>,
    tracking: Tracking,
)
    requires
        state.well_formed(),
        possible(state, input),
        advance(state, input).1.ask is DirtyRanges,
    ensures
        ({
            let next = advance(state, input).0;
            let left = tracking_next(world, state, input, tracking);
            dirty(world, next, left) == reported(world, next, left)
        }),
{
    lemma_effects(world, state, input, answered(tracking, input));
    let next = advance(state, input).0;
    let left = tracking_next(world, state, input, tracking);
    assert(dirty(world, next, left) =~= reported(world, next, left));
}

/// A page that is dirty is reported by the next dirty ranges, whatever happens before them, unless
/// dirty tracking is reset.
pub proof fn a_dirty_page_is_reported_next<B>(
    world: World<B>,
    state: State<B>,
    inputs: Seq<Input<B>>,
    tracking: Tracking,
)
    requires
        state.well_formed(),
        follows(state, inputs),
        all_complete(world, state, inputs, tracking),
        !resets_on(state, inputs),
        inputs.len() > 0,
        outputs(state, inputs).last().ask is DirtyRanges,
    ensures
        dirty(world, state, tracking).subset_of(
            reported(
                world,
                after(state, inputs),
                tracking_after(world, state, inputs, tracking),
            ),
        ),
    decreases inputs.len(),
{
    let (next, output) = advance(state, inputs[0]);
    let rest = inputs.skip(1);
    let left = tracking_next(world, state, inputs[0], tracking);
    lemma_first_and_rest(state, inputs);
    steps_keep_the_exchange_well_formed(state, inputs[0]);
    steps_keep_dirty_pages(world, state, inputs[0], tracking);
    if rest.len() == 0 {
        assert(outputs(next, rest).len() == 0);
        assert(outputs(state, inputs).last() == output);
        dirty_ranges_are_those_of_all_dirty_pages(world, state, inputs[0], tracking);
        assert(after(next, rest) == next);
        assert(tracking_after(world, next, rest, left) == left);
    } else {
        assert(outputs(next, rest).len() > 0);
        assert(outputs(state, inputs).last() == outputs(next, rest).last());
        a_dirty_page_is_reported_next(world, next, rest, left);
    }
}

/// Whether `inputs` are a request for the dirty ranges and the answers that serve it, up to its
/// response.
pub open spec fn request_up_to_response<B>(inputs: Seq<Input<B>>) -> bool {
    &&& inputs.len() >= 2
    &&& inputs[0] matches Input::Answered(Answer::Request(Ok(_)))
    &&& if inputs.len() == 2 {
        inputs[1] matches Input::Answered(Answer::DirtyBitmap(Err(_)))
    } else {
        &&& inputs.len() == 3
        &&& inputs[1] matches Input::Answered(Answer::DirtyBitmap(Ok(_)))
        &&& inputs[2] matches Input::Answered(Answer::Ranges(_))
    }
}

/// Whether `inputs` are a request for the dirty ranges that cannot be served: the bitmap cannot be
/// had, or no ranges can be computed from it.
pub open spec fn unserved_request<B>(inputs: Seq<Input<B>>) -> bool {
    &&& request_up_to_response(inputs)
    &&& inputs.len() == 3 ==> inputs[2] matches Input::Answered(Answer::Ranges(Err(_)))
}

/// A request that cannot be served is answered with an internal error, and changes nothing: no
/// bitmap is reset or lost, only the pages of the virtio queues become dirty, and what was dirty
/// before it is reported by the next dirty ranges, unless something else resets dirty tracking
/// before them.
pub proof fn a_failed_request_loses_no_dirty_page<B>(
    world: World<B>,
    state: State<B>,
    failure: Seq<Input<B>>,
    later: Seq<Input<B>>,
    tracking: Tracking,
)
    requires
        state.well_formed(),
        state.phase is ParsingRequest,
        state.buffer is Some,
        state.kvm,
        unserved_request(failure),
        follows(state, failure),
        all_complete(world, state, failure, tracking),
    ensures
        ({
            let failed = after(state, failure);
            let left = tracking_after(world, state, failure, tracking);
            &&& outputs(state, failure).last().ask matches Question::Respond(
                Response::Error { kind, .. },
            )
            &&& kind is Internal
            &&& !resets_on(state, failure)
            &&& failed.bitmap is None
            &&& dirty(world, state, tracking).subset_of(left.hypervisor.union(left.own))
            &&& all_exact(world, state, failure, tracking) ==> left.hypervisor.union(
                left.own,
            ).subset_of(dirty(world, state, tracking).union(world.queues))
            &&& follows(failed, later) && all_complete(world, failed, later, left) && !resets_on(
                failed,
                later,
            ) && later.len() > 0 && outputs(failed, later).last().ask is DirtyRanges ==> dirty(
                world,
                state,
                tracking,
            ).subset_of(
                reported(
                    world,
                    after(failed, later),
                    tracking_after(world, failed, later, left),
                ),
            )
        }),
{
    let failed = after(state, failure);
    let left = tracking_after(world, state, failure, tracking);
    lemma_unserved_request(state, failure);
    exchanges_stay_well_formed(state, failure);
    no_dirty_page_is_lost(world, state, failure, tracking);
    assert(dirty(world, failed, left) =~= left.hypervisor.union(left.own));
    if all_exact(world, state, failure, tracking) {
        exchanges_dirty_only_queues(world, state, failure, tracking);
    }
    if follows(failed, later) && all_complete(world, failed, later, left) && !resets_on(
        failed,
        later,
    ) && later.len() > 0 && outputs(failed, later).last().ask is DirtyRanges {
        a_dirty_page_is_reported_next(world, failed, later, left);
    }
}

proof fn lemma_unserved_request<B>(state: State<B>, failure: Seq<Input<B>>)
    requires
        state.well_formed(),
        state.phase is ParsingRequest,
        state.buffer is Some,
        state.kvm,
        unserved_request(failure),
    ensures
        outputs(state, failure).last().ask matches Question::Respond(Response::Error { kind, .. })
            && kind is Internal,
        !resets_on(state, failure),
        after(state, failure).bitmap is None,
{
    reveal_with_fuel(after, 4);
    reveal_with_fuel(outputs, 4);
    let all = outputs(state, failure);
    assert(failure.skip(1)[0] == failure[1]);
    if failure.len() == 2 {
        assert(failure.skip(1).skip(1).len() == 0);
        assert(all.len() == 2);
    } else {
        assert(failure.skip(1).skip(1)[0] == failure[2]);
        assert(failure.skip(1).skip(1).skip(1).len() == 0);
        assert(all.len() == 3);
    }
    assert forall|i: int| 0 <= i < all.len() implies !resets(#[trigger] all[i]) by {
        let effects = all[i].effects;
        assert forall|k: int| 0 <= k < effects.len() implies effects[k] != Effect::<
            B,
        >::ResetDirtyTracking by {}
    }
}

/// A response that cannot be sent for want of a connection keeps the dirty pages: the bitmap that
/// was taken for it is given back, and the exchange ends with the error.
pub proof fn a_response_without_a_connection_gives_the_bitmap_back<B>(
    state: State<B>,
    ranges: Result<Seq<MemRange>, Seq<char>>,
)
    requires
        state.well_formed(),
        state.phase == Phase::ComputingRanges(Purpose::Request),
        state.buffer is None,
    ensures
        ({
            let (next, output) = state.next(Answer::Ranges(ranges));
            &&& output.effects == seq![Effect::StoreDirtyBitmap(state.bitmap->0)]
            &&& output.ask == Question::EventFinished {
                connected: false,
                error: Some(ConnectionError::NotConnected),
            }
            &&& next.bitmap is None
            &&& next.phase is Idle
        }),
{
}

/// A request that is served without a connection ends with that error, and loses nothing: whether
/// or not the dirty ranges could be computed for it, nothing is reset, and every page that was dirty
/// is known to be dirty in the outside world once it is over.
pub proof fn a_request_without_a_connection_loses_no_dirty_page<B>(
    world: World<B>,
    state: State<B>,
    inputs: Seq<Input<B>>,
    tracking: Tracking,
)
    requires
        state.well_formed(),
        state.phase is ParsingRequest,
        state.buffer is None,
        state.kvm,
        request_up_to_response(inputs),
        follows(state, inputs),
        all_complete(world, state, inputs, tracking),
    ensures
        ({
            let end = tracking_after(world, state, inputs, tracking);
            &&& outputs(state, inputs).last().ask == Question::EventFinished {
                connected: false,
                error: Some(ConnectionError::NotConnected),
            }
            &&& after(state, inputs).phase is Idle
            &&& !resets_on(state, inputs)
            &&& dirty(world, state, tracking).subset_of(end.hypervisor.union(end.own))
        }),
{
    reveal_with_fuel(after, 4);
    reveal_with_fuel(outputs, 4);
    let all = outputs(state, inputs);
    assert(inputs.skip(1)[0] == inputs[1]);
    if inputs.len() == 2 {
        assert(inputs.skip(1).skip(1).len() == 0);
        assert(all.len() == 2);
    } else {
        assert(inputs.skip(1).skip(1)[0] == inputs[2]);
        assert(inputs.skip(1).skip(1).skip(1).len() == 0);
        assert(all.len() == 3);
    }
    assert forall|i: int| 0 <= i < all.len() implies !resets(#[trigger] all[i]) by {
        let effects = all[i].effects;
        assert forall|k: int| 0 <= k < effects.len() implies effects[k] != Effect::<
            B,
        >::ResetDirtyTracking by {}
    }
    exchanges_stay_well_formed(state, inputs);
    no_dirty_page_is_lost(world, state, inputs, tracking);
    a_finished_exchange_holds_no_bitmap(
        world,
        after(state, inputs),
        tracking_after(world, state, inputs, tracking),
    );
}

/// A request consumes what it reports: once its answer is delivered no page is known to be dirty,
/// so that whatever happens next, over however many exchanges, only the pages of the virtio queues
/// are reported again, as long as nothing is written.
pub proof fn a_request_consumes_what_it_reports<B>(
    world: World<B>,
    state: State<B>,
    later: Seq<Input<B>>,
    tracking: Tracking,
)
    requires
        state.well_formed(),
        state.phase is Responding,
        state.bitmap is Some,
    ensures
        ({
            let sent = Input::Answered(Answer::Sent(Ok(())));
            let next = advance(state, sent).0;
            let left = tracking_next(world, state, sent, tracking);
            &&& left == (Tracking { hypervisor: Set::empty(), own: Set::empty() })
            &&& next.bitmap is None
            &&& follows(next, later) && all_exact(world, next, later, left) ==> reported(
                world,
                after(next, later),
                tracking_after(world, next, later, left),
            ).subset_of(world.queues)
        }),
{
    let sent = Input::Answered(Answer::Sent(Ok(())));
    let next = advance(state, sent).0;
    let left = tracking_next(world, state, sent, tracking);
    steps_keep_the_exchange_well_formed(state, sent);
    lemma_effects(world, state, sent, answered(tracking, sent));
    assert(advance(state, sent).1.effects =~= seq![Effect::<B>::ResetDirtyTracking]);
    assert(dirty(world, next, left) =~= Set::empty());
    if follows(next, later) && all_exact(world, next, later, left) {
        let end = after(next, later);
        let known = tracking_after(world, next, later, left);
        exchanges_dirty_only_queues(world, next, later, left);
        assert forall|page: int| #[trigger] reported(world, end, known).contains(
            page,
        ) implies world.queues.contains(page) by {
            assert(dirty(world, end, known).contains(page));
        }
    }
}

/// Dirty tracking is reset exactly if the backend has what was dirty: it reported that a snapshot
/// succeeded, or the dirty ranges were sent to it.
pub proof fn resets_only_what_was_delivered<B>(state: State<B>, answer: Answer<B>)
    requires
        state.well_formed(),
        expected(state.phase, answer),
    ensures
        resets(state.next(answer).1) <==> {
            ||| state.phase is ParsingReply && (answer matches Answer::Reply(
                Some(Reply::SnapshotDone { success, .. }),
            ) && success)
            ||| state.phase is Responding && state.bitmap is Some && (answer matches Answer::Sent(
                Ok(_),
            ))
        },
{
    let effects = state.next(answer).1.effects;
    if effects.len() == 1 {
        assert(effects.contains(effects[0]));
    }
}

/// A snapshot succeeds exactly if the backend says so, and then dirty tracking is reset. One that
/// fails resets nothing.
pub proof fn a_snapshot_succeeds_as_the_backend_says<B>(state: State<B>, answer: Answer<B>)
    requires
        state.well_formed(),
        expected(state.phase, answer),
    ensures
        (state.next(answer).1.ask == Question::SnapshotFinished(Ok(()))) <==> (state.phase
            is ParsingReply && (answer matches Answer::Reply(
            Some(Reply::SnapshotDone { success, .. }),
        ) && success)),
        state.next(answer).1.ask matches Question::SnapshotFinished(result) ==> (result is Ok
            <==> resets(state.next(answer).1)),
{
    resets_only_what_was_delivered(state, answer);
}

/// A snapshot that fails, at whichever step, loses no dirty page: once it is over, every page that
/// was dirty is known to be dirty in the outside world, so that the next diff has it again.
pub proof fn a_failed_snapshot_loses_no_dirty_page<B>(
    world: World<B>,
    state: State<B>,
    inputs: Seq<Input<B>>,
    tracking: Tracking,
)
    requires
        state.well_formed(),
        takes_snapshot(state.phase),
        follows(state, inputs),
        all_complete(world, state, inputs, tracking),
        ends_in_failure(state, inputs),
    ensures
        ({
            let end = tracking_after(world, state, inputs, tracking);
            dirty(world, state, tracking).subset_of(end.hypervisor.union(end.own))
        }),
{
    lemma_a_failed_snapshot_resets_nothing(state, inputs);
    exchanges_stay_well_formed(state, inputs);
    no_dirty_page_is_lost(world, state, inputs, tracking);
    a_finished_exchange_holds_no_bitmap(
        world,
        after(state, inputs),
        tracking_after(world, state, inputs, tracking),
    );
}

/// Whether the last of `inputs`, and no earlier one, ends a snapshot, which fails.
pub open spec fn ends_in_failure<B>(state: State<B>, inputs: Seq<Input<B>>) -> bool {
    &&& ends_a_snapshot(state, inputs)
    &&& outputs(state, inputs).last().ask matches Question::SnapshotFinished(result) && result
        is Err
}

/// A snapshot that fails resets nothing on the way, and ends the exchange.
proof fn lemma_a_failed_snapshot_resets_nothing<B>(state: State<B>, inputs: Seq<Input<B>>)
    requires
        state.well_formed(),
        takes_snapshot(state.phase),
        follows(state, inputs),
        ends_in_failure(state, inputs),
    ensures
        after(state, inputs).phase is Idle,
        !resets_on(state, inputs),
    decreases inputs.len(),
{
    let (next, output) = advance(state, inputs[0]);
    let rest = inputs.skip(1);
    let all = outputs(state, inputs);
    let answer = inputs[0]->Answered_0;
    assert(all =~= seq![output] + outputs(next, rest));
    assert(follows(next, rest));
    steps_keep_the_exchange_well_formed(state, inputs[0]);
    a_snapshot_is_not_interrupted(state, answer);
    a_snapshot_succeeds_as_the_backend_says(state, answer);
    resets_only_what_was_delivered(state, answer);
    assert(all[0] == output);
    if rest.len() == 0 {
        assert(outputs(next, rest).len() == 0);
        assert(all.last() == output);
        assert(after(next, rest) == next);
    } else {
        assert(outputs(next, rest).len() > 0);
        assert(all.last() == outputs(next, rest).last());
        assert forall|i: int| 0 <= i < outputs(next, rest).len() - 1 implies !((
        #[trigger] outputs(next, rest)[i]).ask is SnapshotFinished) by {
            assert(all[i + 1] == outputs(next, rest)[i]);
        }
        lemma_a_failed_snapshot_resets_nothing(next, rest);
        assert forall|i: int| 0 <= i < all.len() implies !resets(#[trigger] all[i]) by {
            if i > 0 {
                assert(all[i] == outputs(next, rest)[i - 1]);
            }
        }
    }
}

/// A snapshot for which no dirty bitmap was taken, such as a full one, does nothing to dirty
/// tracking unless it succeeds.
pub proof fn a_failed_full_snapshot_leaves_dirty_tracking_alone<B>(
    state: State<B>,
    answer: Answer<B>,
)
    requires
        state.well_formed(),
        expected(state.phase, answer),
        takes_snapshot(state.phase),
        state.bitmap is None,
    ensures
        state.next(answer).1.effects.len() == 0 || state.next(answer).1.ask
            == Question::SnapshotFinished(Ok(())),
{
}

/// A backend that reports failure has its message surfaced, whatever the snapshot's type, and the
/// connection stays.
pub proof fn a_reported_failure_is_surfaced<B>(state: State<B>, message: Seq<char>)
    requires
        state.well_formed(),
        state.phase is ParsingReply,
    ensures
        ({
            let (next, output) = state.next(
                Answer::Reply(Some(Reply::SnapshotDone { success: false, message })),
            );
            &&& output.ask == Question::SnapshotFinished(
                Err(SnapshotError::Backend(ConnectionError::SnapshotFailed(message))),
            )
            &&& next.buffer == state.buffer
        }),
{
}

/// A snapshot request names the ranges and the regions that were computed for it, and its type.
pub proof fn a_snapshot_request_names_what_was_computed<B>(
    state: State<B>,
    ranges: Seq<MemRange>,
    regions: Seq<MemBackendRegion>,
)
    requires
        state.well_formed(),
    ensures
        state.phase == Phase::ListingPlugged ==> {
            let described = state.next(Answer::Plugged(ranges)).0;
            described.next(Answer::Regions(regions)).1.ask == Question::Notify(
                Notification::SnapshotRequest {
                    snapshot_type: SnapshotType::Full,
                    regions,
                    ranges,
                },
            )
        },
        state.phase == Phase::ComputingRanges(Purpose::Snapshot) ==> {
            let described = state.next(Answer::Ranges(Ok(ranges))).0;
            described.next(Answer::Regions(regions)).1.ask == Question::Notify(
                Notification::SnapshotRequest {
                    snapshot_type: SnapshotType::Diff,
                    regions,
                    ranges,
                },
            )
        },
{
}

/// Whether an exchange is about a snapshot.
pub open spec fn takes_snapshot(phase: Phase) -> bool {
    match phase {
        Phase::TakingBitmap(purpose) => purpose is Snapshot,
        Phase::ComputingRanges(purpose) => purpose is Snapshot,
        Phase::ListingPlugged => true,
        Phase::Describing(_) => true,
        Phase::Notifying => true,
        Phase::AwaitingReply => true,
        Phase::ParsingReply => true,
        _ => false,
    }
}

/// While a snapshot is taken nothing else is: until its result is there, each step goes on with it.
pub proof fn a_snapshot_is_not_interrupted<B>(state: State<B>, answer: Answer<B>)
    requires
        state.well_formed(),
        expected(state.phase, answer),
        takes_snapshot(state.phase),
    ensures
        takes_snapshot(state.next(answer).0.phase) || state.next(answer).1.ask is SnapshotFinished,
{
}

/// A connection that is lost stays lost: snapshots then fail, and nothing is read, done or changed.
pub proof fn a_lost_connection_stays_lost<B>(state: State<B>, snapshot_type: SnapshotType)
    requires
        state.phase is Idle,
        state.buffer is None,
    ensures
        state.snapshot(snapshot_type) == (
            state,
            Output::<B> {
                effects: seq![],
                ask: Question::SnapshotFinished(
                    Err(SnapshotError::Backend(ConnectionError::NotConnected)),
                ),
            },
        ),
        state.readable() == (
            state,
            Output::<B> {
                effects: seq![],
                ask: Question::EventFinished { connected: false, error: None },
            },
        ),
{
}

/// The last step of a run is the step from the state before it.
proof fn lemma_last_step<B>(state: State<B>, inputs: Seq<Input<B>>)
    requires
        state.well_formed(),
        follows(state, inputs),
        inputs.len() > 0,
    ensures
        ({
            let before = after(state, inputs.drop_last());
            &&& before.well_formed()
            &&& possible(before, inputs.last())
            &&& after(state, inputs) == advance(before, inputs.last()).0
            &&& outputs(state, inputs).last() == advance(before, inputs.last()).1
        }),
    decreases inputs.len(),
{
    let (next, output) = advance(state, inputs[0]);
    let rest = inputs.skip(1);
    assert(follows(next, rest));
    if rest.len() == 0 {
        assert(inputs.drop_last().len() == 0);
        assert(inputs.last() == inputs[0]);
        assert(after(next, rest) == next);
        assert(outputs(next, rest).len() == 0);
        assert(outputs(state, inputs).last() == output);
    } else {
        steps_keep_the_exchange_well_formed(state, inputs[0]);
        lemma_last_step(next, rest);
        assert(inputs.drop_last().skip(1) =~= rest.drop_last());
        assert(inputs.drop_last()[0] == inputs[0]);
        assert(inputs.last() == rest.last());
        assert(outputs(next, rest).len() > 0);
        assert(outputs(state, inputs).last() == outputs(next, rest).last());
    }
}

/// What an event ends with says whether the backend is still there: however a run goes that ends
/// with one, it tells that the backend is connected exactly if there is a connection.
pub proof fn an_event_tells_whether_the_backend_is_there<B>(
    state: State<B>,
    inputs: Seq<Input<B>>,
)
    requires
        state.well_formed(),
        follows(state, inputs),
        inputs.len() > 0,
        outputs(state, inputs).last().ask is EventFinished,
    ensures
        after(state, inputs).phase is Idle,
        outputs(state, inputs).last().ask matches Question::EventFinished { connected, error } && (
        connected <==> after(state, inputs).buffer is Some) && (connected ==> error is None),
{
    lemma_last_step(state, inputs);
}

/// Whether the last of `inputs`, and no earlier one, ends a snapshot.
pub open spec fn ends_a_snapshot<B>(state: State<B>, inputs: Seq<Input<B>>) -> bool {
    let all = outputs(state, inputs);
    &&& inputs.len() > 0
    &&& all.last().ask is SnapshotFinished
    &&& forall|i: int| 0 <= i < all.len() - 1 ==> !((#[trigger] all[i]).ask is SnapshotFinished)
}

/// A snapshot leaves no connection exactly if it ends because the backend closed it: whatever else
/// it fails for, the connection stays.
pub proof fn a_snapshot_costs_the_connection_only_if_it_is_closed<B>(
    state: State<B>,
    inputs: Seq<Input<B>>,
)
    requires
        state.well_formed(),
        takes_snapshot(state.phase),
        follows(state, inputs),
        ends_a_snapshot(state, inputs),
    ensures
        after(state, inputs).phase is Idle,
        after(state, inputs).buffer is None <==> outputs(state, inputs).last().ask
            == Question::SnapshotFinished(
            Err(SnapshotError::Backend(ConnectionError::Disconnected)),
        ),
    decreases inputs.len(),
{
    let (next, output) = advance(state, inputs[0]);
    let rest = inputs.skip(1);
    let all = outputs(state, inputs);
    assert(all =~= seq![output] + outputs(next, rest));
    assert(all[0] == output);
    assert(follows(next, rest));
    steps_keep_the_exchange_well_formed(state, inputs[0]);
    a_snapshot_is_not_interrupted(state, inputs[0]->Answered_0);
    if rest.len() == 0 {
        assert(outputs(next, rest).len() == 0);
        assert(all.last() == output);
        assert(after(next, rest) == next);
    } else {
        assert(outputs(next, rest).len() > 0);
        assert(all.last() == outputs(next, rest).last());
        assert forall|i: int| 0 <= i < outputs(next, rest).len() - 1 implies !((
        #[trigger] outputs(next, rest)[i]).ask is SnapshotFinished) by {
            assert(all[i + 1] == outputs(next, rest)[i]);
        }
        a_snapshot_costs_the_connection_only_if_it_is_closed(next, rest);
    }
}

/// Losing a connection, and nothing else, is counted as a disconnect.
pub proof fn lost_connections_are_counted<B>(state: State<B>, answer: Answer<B>)
    requires
        state.well_formed(),
        attached(state),
        expected(state.phase, answer),
    ensures
        state.next(answer).0.metrics.disconnects == if state.next(answer).0.buffer is None {
            counted(state.metrics.disconnects)
        } else {
            state.metrics.disconnects
        },
{
}

/// The other counters say how many requests were read, how many of them were answered with an
/// error, how many snapshots were requested of the backend, and how many of those failed.
pub proof fn counters_say_what_happened<B>(state: State<B>, answer: Answer<B>)
    requires
        state.well_formed(),
        attached(state),
        expected(state.phase, answer),
    ensures
        ({
            let (next, output) = state.next(answer);
            let before = state.metrics;
            let failed = output.ask matches Question::Respond(response) && response is Error;
            let failed_snapshot = output.ask matches Question::SnapshotFinished(Err(error))
                && error is Backend;
            &&& next.metrics.requests == if answer is Request {
                counted(before.requests)
            } else {
                before.requests
            }
            &&& next.metrics.request_fails == if failed {
                counted(before.request_fails)
            } else {
                before.request_fails
            }
            &&& next.metrics.snapshot_requests == if output.ask is Notify {
                counted(before.snapshot_requests)
            } else {
                before.snapshot_requests
            }
            &&& next.metrics.snapshot_fails == if failed_snapshot {
                counted(before.snapshot_fails)
            } else {
                before.snapshot_fails
            }
        }),
{
}

/// Whether a request has been read and not been responded to.
pub open spec fn unanswered(phase: Phase) -> int {
    match phase {
        Phase::ParsingRequest => 1,
        Phase::TakingBitmap(purpose) => if purpose is Request { 1 } else { 0 },
        Phase::ComputingRanges(purpose) => if purpose is Request { 1 } else { 0 },
        _ => 0,
    }
}

/// The requests that are read, in their order.
pub open spec fn requests_read<B>(outputs: Seq<Output<B>>) -> Seq<Seq<u8>>
    decreases outputs.len(),
{
    if outputs.len() == 0 {
        seq![]
    } else {
        request_read(outputs[0]) + requests_read(outputs.skip(1))
    }
}

/// The request that is read, if one is.
pub open spec fn request_read<B>(output: Output<B>) -> Seq<Seq<u8>> {
    match output.ask {
        Question::ParseRequest(line) => seq![line],
        _ => seq![],
    }
}

/// How many responses are sent.
pub open spec fn responses_sent<B>(outputs: Seq<Output<B>>) -> int
    decreases outputs.len(),
{
    if outputs.len() == 0 {
        0
    } else {
        responses_sent(outputs.skip(1)) + if outputs[0].ask is Respond { 1int } else { 0int }
    }
}

/// Every request that is read is responded to, once: over any exchanges as many responses are sent
/// as requests are read, but for one that is still being served.
pub proof fn each_request_gets_one_response<B>(state: State<B>, inputs: Seq<Input<B>>)
    requires
        state.well_formed(),
        attached(state),
        follows(state, inputs),
    ensures
        unanswered(state.phase) + requests_read(outputs(state, inputs)).len() == unanswered(
            after(state, inputs).phase,
        ) + responses_sent(outputs(state, inputs)),
    decreases inputs.len(),
{
    if inputs.len() > 0 {
        let (next, output) = advance(state, inputs[0]);
        let rest = inputs.skip(1);
        steps_keep_the_exchange_well_formed(state, inputs[0]);
        steps_keep_the_exchange_attached(state, inputs[0]);
        each_request_gets_one_response(next, rest);
        assert(outputs(state, inputs).skip(1) =~= outputs(next, rest));
        assert(unanswered(state.phase) + request_read(output).len() == unanswered(next.phase) + (
        if output.ask is Respond { 1int } else { 0int }));
    }
}

/// Whether the backend's requests are being served.
pub open spec fn serves_requests(phase: Phase) -> bool {
    match phase {
        Phase::ParsingRequest => true,
        Phase::TakingBitmap(purpose) => purpose is Request,
        Phase::ComputingRanges(purpose) => purpose is Request,
        Phase::Responding => true,
        _ => false,
    }
}

/// `answers`, as inputs.
pub open spec fn answers_only<B>(answers: Seq<Answer<B>>) -> Seq<Input<B>> {
    answers.map_values(|answer: Answer<B>| Input::Answered(answer))
}

/// While requests are being served, each step takes the next complete line from what was received
/// or none, unless the connection is lost.
proof fn lemma_serving_takes_lines<B>(state: State<B>, answer: Answer<B>)
    requires
        state.well_formed(),
        expected(state.phase, answer),
        serves_requests(state.phase),
        state.next(answer).0.buffer is Some,
    ensures
        ({
            let (next, output) = state.next(answer);
            &&& lines(state.buffer->0) == request_read(output) + lines(next.buffer->0)
            &&& unfinished(state.buffer->0) == unfinished(next.buffer->0)
            &&& serves_requests(next.phase) || output.ask is EventFinished
                && lines(next.buffer->0).len() == 0 && unfinished(next.buffer->0)
                == next.buffer->0
        }),
{
    lemma_line_len(state.buffer->0);
    let bytes = state.buffer->0;
    if !bytes.contains(NEWLINE) {
        assert(lines(bytes) =~= seq![]);
    }
}

/// The requests that are read while requests are being served are the lines that were received, in
/// their order, and in the end only what is unfinished is left.
proof fn lemma_all_lines_are_served<B>(state: State<B>, answers: Seq<Answer<B>>)
    requires
        state.well_formed(),
        attached(state),
        serves_requests(state.phase),
        follows(state, answers_only(answers)),
        after(state, answers_only(answers)).phase is Idle,
        after(state, answers_only(answers)).buffer is Some,
    ensures
        requests_read(outputs(state, answers_only(answers))) == lines(state.buffer->0),
        after(state, answers_only(answers)).buffer->0 == unfinished(state.buffer->0),
    decreases answers.len(),
{
    let inputs = answers_only(answers);
    assert(inputs.len() > 0);
    assert(inputs[0] == Input::Answered(answers[0]));
    let (next, output) = advance(state, inputs[0]);
    let rest = answers_only(answers.skip(1));
    assert(inputs.skip(1) =~= rest);
    assert(follows(next, rest));
    steps_keep_the_exchange_well_formed(state, inputs[0]);
    steps_keep_the_exchange_attached(state, inputs[0]);
    if next.phase is Idle {
        if rest.len() > 0 {
            assert(rest[0] == Input::Answered(answers[1]));
        }
        assert(rest.len() == 0);
        assert(after(next, rest) == next);
    }
    lemma_serving_takes_lines(state, answers[0]);
    assert(outputs(state, inputs).skip(1) =~= outputs(next, rest));
    if serves_requests(next.phase) {
        lemma_all_lines_are_served(next, answers.skip(1));
    } else {
        assert(requests_read(outputs(next, rest)) =~= seq![]);
    }
}

/// Every complete request is served: when the bytes of a read have been dealt with and the backend
/// is still there, the requests that were read are exactly the complete lines of what had been
/// received, in their order, and just what is unfinished is left.
pub proof fn every_complete_request_is_served<B>(
    state: State<B>,
    read: Result<Seq<u8>, ConnectionError>,
    answers: Seq<Answer<B>>,
)
    requires
        state.well_formed(),
        state.phase is Reading,
        follows(state.next(Answer::Read(read)).0, answers_only(answers)),
        ({
            let end = after(state.next(Answer::Read(read)).0, answers_only(answers));
            end.phase is Idle && end.buffer is Some
        }),
    ensures
        ({
            let (first, output) = state.next(Answer::Read(read));
            let received = buffer_after(state.buffer->0, read);
            &&& request_read(output) + requests_read(outputs(first, answers_only(answers)))
                == lines(received)
            &&& after(first, answers_only(answers)).buffer->0 == unfinished(received)
        }),
{
    let bytes = buffer_after(state.buffer->0, read);
    lemma_line_len(bytes);
    let (first, output) = state.next(Answer::Read(read));
    let inputs = answers_only(answers);
    if first.phase is Idle {
        if inputs.len() > 0 {
            assert(inputs[0] == Input::Answered(answers[0]));
        }
        assert(inputs.len() == 0);
        assert(after(first, inputs) == first);
        assert(requests_read(outputs(first, inputs)) =~= seq![]);
        assert(lines(bytes) =~= seq![]);
    } else {
        lemma_all_lines_are_served(first, answers);
    }
}

/// A request that cannot be served is answered with the reason, and leaves no trace in dirty
/// tracking but for a bitmap that is given back.
pub proof fn a_failed_request_is_answered_with_the_reason<B>(state: State<B>, text: Seq<char>)
    requires
        state.well_formed(),
        attached(state),
    ensures
        state.phase == Phase::TakingBitmap(Purpose::Request) ==> {
            let output = state.next(Answer::DirtyBitmap(Err(text))).1;
            &&& output.effects.len() == 0
            &&& output.ask matches Question::Respond(Response::Error { kind, message })
            &&& kind is Internal
            &&& message == SnapshotError::DirtyBitmap(text).text()
        },
        state.phase == Phase::ComputingRanges(Purpose::Request) ==> {
            let output = state.next(Answer::Ranges(Err(text))).1;
            &&& output.effects == seq![Effect::StoreDirtyBitmap(state.bitmap->0)]
            &&& output.ask matches Question::Respond(Response::Error { kind, message })
            &&& kind is Internal
            &&& message == SnapshotError::Memory(text).text()
        },
        state.phase == Phase::ParsingRequest ==> {
            let output = state.next(Answer::Request(Err(text))).1;
            &&& output.effects.len() == 0
            &&& output.ask matches Question::Respond(Response::Error { kind, message })
            &&& kind is UnknownRequest
            &&& message == text
        },
{
}

} // verus!
