//! What the messages, errors, questions and answers of an exchange hold is all there is to them.

use vstd::prelude::*;

use crate::connection::{read_view, result_view};
use crate::exchange::{Answer, Effect, Question};
use crate::protocol::{
    ConnectionError, MemBackendError, MemBackendErrorKind, MemBackendNotification,
    MemBackendRegion, MemBackendReply, MemBackendRequest, MemBackendResponse,
    MemBackendSnapshotError, MemRange, Notification, Reply, Response, SnapshotError,
};
use crate::snapshot::SnapshotType;
use crate::vmm::{Action, Ask, Event};

verus! {

/// A message is what it holds, field by field.
pub proof fn messages_are_what_they_hold(
    snapshot_type: SnapshotType,
    regions: Vec<MemBackendRegion>,
    ranges: Vec<MemRange>,
    kind: MemBackendErrorKind,
    success: bool,
    message: String,
)
    ensures
        (MemBackendNotification::SnapshotRequest { snapshot_type, regions, ranges })@ == (
        Notification::SnapshotRequest { snapshot_type, regions: regions@, ranges: ranges@ }),
        (MemBackendResponse::DirtyRanges { ranges })@ == (Response::DirtyRanges {
            ranges: ranges@,
        }),
        (MemBackendResponse::Error { kind, message })@ == (Response::Error {
            kind,
            message: message@,
        }),
        (MemBackendReply::SnapshotDone { success, message })@ == (Reply::SnapshotDone {
            success,
            message: message@,
        }),
{
}

/// An error is its kind and the text or the error that it holds.
pub proof fn errors_are_what_they_hold(text: String, error: MemBackendError)
    ensures
        MemBackendError::Connect(text)@ == ConnectionError::Connect(text@),
        MemBackendError::Handshake(text)@ == ConnectionError::Handshake(text@),
        MemBackendError::Io(text)@ == ConnectionError::Io(text@),
        MemBackendError::Serialize(text)@ == ConnectionError::Serialize(text@),
        MemBackendError::Disconnected@ == ConnectionError::Disconnected,
        MemBackendError::Protocol(text)@ == ConnectionError::Protocol(text@),
        MemBackendError::SnapshotFailed(text)@ == ConnectionError::SnapshotFailed(text@),
        MemBackendError::NotConnected@ == ConnectionError::NotConnected,
        MemBackendSnapshotError::NotKvm@ == SnapshotError::NotKvm,
        MemBackendSnapshotError::DirtyBitmap(text)@ == SnapshotError::DirtyBitmap(text@),
        MemBackendSnapshotError::Memory(text)@ == SnapshotError::Memory(text@),
        MemBackendSnapshotError::Backend(error)@ == SnapshotError::Backend(error@),
{
}

/// What an error of the connection is described with: what could not be done, and why.
pub proof fn connection_errors_say_what_went_wrong(text: Seq<char>)
    ensures
        ConnectionError::Connect(text).text() == "Cannot connect to the memory backend socket: "@
            + text,
        ConnectionError::Handshake(text).text()
            == "Cannot send the handshake to the memory backend: "@ + text,
        ConnectionError::Io(text).text() == "I/O error on the memory backend connection: "@ + text,
        ConnectionError::Serialize(text).text()
            == "Cannot serialize a message for the memory backend: "@ + text,
        ConnectionError::Disconnected.text() == "The memory backend closed the connection"@,
        ConnectionError::Protocol(text).text() == "Unexpected message from the memory backend: "@
            + text,
        ConnectionError::SnapshotFailed(text).text()
            == "The memory backend failed to take the snapshot: "@ + text,
        ConnectionError::NotConnected.text() == "No memory backend is connected"@,
{
}

/// What an error of a snapshot is described with. One of the connection is described by what it is
/// itself described with.
pub proof fn snapshot_errors_say_what_went_wrong(text: Seq<char>, error: ConnectionError)
    ensures
        SnapshotError::NotKvm.text() == "Snapshots require KVM"@,
        SnapshotError::DirtyBitmap(text).text() == "Cannot get dirty bitmap: "@ + text,
        SnapshotError::Memory(text).text() == "Cannot compute the dirty ranges: "@ + text,
        SnapshotError::Backend(error).text() == "Memory backend error: "@ + error.text(),
{
}

/// An action is its effects, in their order, and its question; a question is what is asked and what
/// it is asked of.
pub proof fn actions_are_what_they_hold<B>(
    effects: Vec<Effect<B>>,
    ask: Ask,
    notification: MemBackendNotification,
    response: MemBackendResponse,
    line: Vec<u8>,
    error: MemBackendError,
    snapshot_error: MemBackendSnapshotError,
    connected: bool,
)
    ensures
        (Action { effects, ask })@.effects == effects@,
        (Action { effects, ask })@.ask == ask@,
        Ask::GetDirtyBitmap@ == Question::GetDirtyBitmap,
        Ask::DirtyRanges@ == Question::DirtyRanges,
        Ask::PluggedRanges@ == Question::PluggedRanges,
        Ask::DescribeForBackend@ == Question::DescribeForBackend,
        Ask::Notify(notification)@ == Question::Notify(notification@),
        Ask::Respond(response)@ == Question::Respond(response@),
        Ask::Read@ == Question::Read,
        Ask::ParseReply(line)@ == Question::ParseReply(line@),
        Ask::ParseRequest(line)@ == Question::ParseRequest(line@),
        Ask::SnapshotFinished(Ok(()))@ == Question::SnapshotFinished(Ok(())),
        Ask::SnapshotFinished(Err(snapshot_error))@ == Question::SnapshotFinished(
            Err(snapshot_error@),
        ),
        (Ask::EventFinished { connected, error: None })@ == (Question::EventFinished {
            connected,
            error: None,
        }),
        (Ask::EventFinished { connected, error: Some(error) })@ == (Question::EventFinished {
            connected,
            error: Some(error@),
        }),
{
}

/// An answer is what was answered.
pub proof fn answers_are_what_they_hold<B>(
    bitmap: B,
    text: String,
    ranges: Vec<MemRange>,
    regions: Vec<MemBackendRegion>,
    error: MemBackendError,
    chunk: Vec<u8>,
    reply: MemBackendReply,
    request: MemBackendRequest,
)
    ensures
        Event::DirtyBitmap(Ok(bitmap))@ == Answer::DirtyBitmap(Ok(bitmap)),
        Event::<B>::DirtyBitmap(Err(text))@ == Answer::<B>::DirtyBitmap(Err(text@)),
        Event::<B>::Ranges(Ok(ranges))@ == Answer::<B>::Ranges(Ok(ranges@)),
        Event::<B>::Ranges(Err(text))@ == Answer::<B>::Ranges(Err(text@)),
        Event::<B>::Plugged(ranges)@ == Answer::<B>::Plugged(ranges@),
        Event::<B>::Regions(regions)@ == Answer::<B>::Regions(regions@),
        Event::<B>::Sent(Ok(()))@ == Answer::<B>::Sent(Ok(())),
        Event::<B>::Sent(Err(error))@ == Answer::<B>::Sent(Err(error@)),
        Event::<B>::Read(Ok(chunk))@ == Answer::<B>::Read(Ok(chunk@)),
        Event::<B>::Read(Err(error))@ == Answer::<B>::Read(Err(error@)),
        Event::<B>::Reply(Some(reply))@ == Answer::<B>::Reply(Some(reply@)),
        Event::<B>::Reply(None)@ == Answer::<B>::Reply(None),
        Event::<B>::Request(Ok(request))@ == Answer::<B>::Request(Ok(request)),
        Event::<B>::Request(Err(text))@ == Answer::<B>::Request(Err(text@)),
{
}

/// What a read or another call gave is the bytes or the value, or the error.
pub proof fn results_are_what_they_hold<T>(
    chunk: Vec<u8>,
    value: T,
    error: MemBackendError,
)
    ensures
        read_view(Ok(chunk)) == Ok::<_, ConnectionError>(chunk@),
        read_view(Err(error)) == Err::<Seq<u8>, _>(error@),
        result_view(Ok::<T, MemBackendError>(value)) == Ok::<_, ConnectionError>(value),
        result_view(Err::<T, MemBackendError>(error)) == Err::<T, _>(error@),
{
}

} // verus!
