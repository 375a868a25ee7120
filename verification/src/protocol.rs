//! The messages between a microVM and an external *memory backend* process, and what can go wrong
//! with them.
//!
//! A memory backend is a trusted process that receives the memfd backing the guest memory (and,
//! when restoring from a snapshot, the userfaultfd used to populate it) over a Unix domain socket,
//! and that is then responsible for extracting guest memory for snapshots.
//!
//! The connection is opened with a single [`MemBackendHandshake`] message that carries the file
//! descriptors. It then stays open for the lifetime of the microVM and carries newline-delimited
//! messages:
//!
//! - the backend may send a [`MemBackendRequest`] at any time and gets a [`MemBackendResponse`];
//! - when a snapshot is to be created, a [`MemBackendNotification::SnapshotRequest`] is sent, and
//!   the backend answers it with a [`MemBackendReply::SnapshotDone`].

use vstd::prelude::*;
use vstd::string::StringExecFns;

use crate::snapshot::SnapshotType;

verus! {

broadcast use vstd::string::group_string_axioms;

/// Name of the guest memfd in [`MemBackendHandshake::fds`].
pub const FD_NAME_MEMFD: &'static str = "memfd";

/// Name of the userfaultfd in [`MemBackendHandshake::fds`].
pub const FD_NAME_UFFD: &'static str = "uffd";

/// A page-aligned range of the memory file, in bytes.
#[derive(Clone, Copy, Debug, PartialEq, Eq, Structural)]
pub struct MemRange {
    /// Offset of the first byte of the range.
    pub offset: u64,
    /// Length of the range in bytes.
    pub len: u64,
}

/// A guest memory region as the memory backend sees it.
#[derive(Clone, Debug, PartialEq, Eq)]
pub struct MemBackendRegion {
    /// Guest physical address of the region.
    pub guest_addr: u64,
    /// Size of the region in bytes.
    pub size: u64,
    /// Offset of the region in the memfd, and in a memory snapshot file.
    pub file_offset: u64,
    /// Address of the region in the microVM's own address space.
    pub host_virt_addr: u64,
    /// Kind of the region.
    pub region_type: String,
    /// Size in bytes of the slots that the region is plugged in.
    pub slot_size: u64,
    /// For each slot, whether it is plugged.
    pub plugged: Vec<bool>,
}

/// First message sent to the backend on the connection, together with the file descriptors.
#[derive(Clone, Debug, PartialEq, Eq)]
pub struct MemBackendHandshake {
    /// Names of the file descriptors attached to this message, in order. `memfd` is always
    /// present; `uffd` is present when restoring from a snapshot.
    pub fds: Vec<String>,
    /// Host page size used for dirty tracking. Ranges are multiples of this.
    pub page_size: usize,
    /// Whether KVM dirty page tracking is enabled for this microVM.
    pub track_dirty_pages: bool,
    /// Total size of the guest memory, i.e. of the memfd and of a full snapshot file.
    pub total_size: u64,
    /// The guest memory regions.
    pub regions: Vec<MemBackendRegion>,
}

/// Requests the backend may send at any time.
#[derive(Clone, Debug, PartialEq, Eq)]
pub enum MemBackendRequest {
    /// Ask for the pages dirtied since the last time dirty tracking was reset. Consuming: the
    /// dirty bitmaps are reset once the response has been sent.
    GetDirtyRanges {},
}

/// Kinds of errors reported to the backend.
#[derive(Clone, Copy, Debug, PartialEq, Eq, Structural)]
pub enum MemBackendErrorKind {
    /// The message could not be parsed or is not a known request.
    UnknownRequest,
    /// A valid request could not be served. No state was changed.
    Internal,
}

/// Responses to [`MemBackendRequest`]s.
#[derive(Clone, Debug, PartialEq, Eq)]
pub enum MemBackendResponse {
    /// Response to [`MemBackendRequest::GetDirtyRanges`].
    DirtyRanges {
        /// Sorted, merged, page aligned ranges of the memory file that contain dirty pages.
        ranges: Vec<MemRange>,
    },
    /// The request could not be served.
    Error {
        /// Error category.
        kind: MemBackendErrorKind,
        /// Human readable details.
        message: String,
    },
}

/// A response, with its contents as mathematical values.
pub enum Response {
    /// See [`MemBackendResponse::DirtyRanges`].
    DirtyRanges { ranges: Seq<MemRange> },
    /// See [`MemBackendResponse::Error`].
    Error { kind: MemBackendErrorKind, message: Seq<char> },
}

impl View for MemBackendResponse {
    type V = Response;

    open spec fn view(&self) -> Response {
        match *self {
            MemBackendResponse::DirtyRanges { ranges } => Response::DirtyRanges { ranges: ranges@ },
            MemBackendResponse::Error { kind, message } => Response::Error {
                kind,
                message: message@,
            },
        }
    }
}

/// Messages sent to the backend on the microVM's own initiative.
#[derive(Clone, Debug, PartialEq, Eq)]
pub enum MemBackendNotification {
    /// A snapshot has been requested. The backend must copy `ranges` out of the memfd and answer
    /// with [`MemBackendReply::SnapshotDone`]. Nothing else is processed until the reply arrives,
    /// so the guest memory is guaranteed not to change in between.
    SnapshotRequest {
        /// Full or Diff.
        snapshot_type: SnapshotType,
        /// The current regions, including their `plugged` state.
        regions: Vec<MemBackendRegion>,
        /// The ranges to copy: all plugged slots for `Full`, the dirty pages for `Diff`.
        ranges: Vec<MemRange>,
    },
}

/// A notification, with its contents as mathematical values.
pub enum Notification {
    /// See [`MemBackendNotification::SnapshotRequest`].
    SnapshotRequest {
        snapshot_type: SnapshotType,
        regions: Seq<MemBackendRegion>,
        ranges: Seq<MemRange>,
    },
}

impl View for MemBackendNotification {
    type V = Notification;

    open spec fn view(&self) -> Notification {
        match *self {
            MemBackendNotification::SnapshotRequest { snapshot_type, regions, ranges } =>
            Notification::SnapshotRequest { snapshot_type, regions: regions@, ranges: ranges@ },
        }
    }
}

/// Replies expected to a [`MemBackendNotification`].
#[derive(Clone, Debug, PartialEq, Eq)]
pub enum MemBackendReply {
    /// The backend has finished (or failed) handling a `SnapshotRequest`.
    SnapshotDone {
        /// Whether the memory was copied successfully.
        success: bool,
        /// Details, surfaced to the API client on failure.
        message: String,
    },
}

/// A reply, with its contents as mathematical values.
pub enum Reply {
    /// See [`MemBackendReply::SnapshotDone`].
    SnapshotDone { success: bool, message: Seq<char> },
}

impl View for MemBackendReply {
    type V = Reply;

    open spec fn view(&self) -> Reply {
        match *self {
            MemBackendReply::SnapshotDone { success, message } => Reply::SnapshotDone {
                success,
                message: message@,
            },
        }
    }
}

/// Errors of the memory backend connection. An error of the operating system or of the message
/// format is held by the text that describes it.
#[derive(Debug)]
pub enum MemBackendError {
    /// Cannot connect to the memory backend socket.
    Connect(String),
    /// Cannot send the handshake to the memory backend.
    Handshake(String),
    /// I/O error on the memory backend connection.
    Io(String),
    /// Cannot serialize a message for the memory backend.
    Serialize(String),
    /// The memory backend closed the connection.
    Disconnected,
    /// Unexpected message from the memory backend.
    Protocol(String),
    /// The memory backend failed to take the snapshot.
    SnapshotFailed(String),
    /// No memory backend is connected.
    NotConnected,
}

/// A connection error, with its contents as mathematical values.
pub enum ConnectionError {
    /// See [`MemBackendError::Connect`].
    Connect(Seq<char>),
    /// See [`MemBackendError::Handshake`].
    Handshake(Seq<char>),
    /// See [`MemBackendError::Io`].
    Io(Seq<char>),
    /// See [`MemBackendError::Serialize`].
    Serialize(Seq<char>),
    /// See [`MemBackendError::Disconnected`].
    Disconnected,
    /// See [`MemBackendError::Protocol`].
    Protocol(Seq<char>),
    /// See [`MemBackendError::SnapshotFailed`].
    SnapshotFailed(Seq<char>),
    /// See [`MemBackendError::NotConnected`].
    NotConnected,
}

impl View for MemBackendError {
    type V = ConnectionError;

    open spec fn view(&self) -> ConnectionError {
        match *self {
            MemBackendError::Connect(text) => ConnectionError::Connect(text@),
            MemBackendError::Handshake(text) => ConnectionError::Handshake(text@),
            MemBackendError::Io(text) => ConnectionError::Io(text@),
            MemBackendError::Serialize(text) => ConnectionError::Serialize(text@),
            MemBackendError::Disconnected => ConnectionError::Disconnected,
            MemBackendError::Protocol(text) => ConnectionError::Protocol(text@),
            MemBackendError::SnapshotFailed(text) => ConnectionError::SnapshotFailed(text@),
            MemBackendError::NotConnected => ConnectionError::NotConnected,
        }
    }
}

impl ConnectionError {
    /// The text that describes the error.
    pub open spec fn text(self) -> Seq<char> {
        match self {
            ConnectionError::Connect(text) => "Cannot connect to the memory backend socket: "@
                + text,
            ConnectionError::Handshake(text) => "Cannot send the handshake to the memory backend: "@
                + text,
            ConnectionError::Io(text) => "I/O error on the memory backend connection: "@ + text,
            ConnectionError::Serialize(text) =>
            "Cannot serialize a message for the memory backend: "@ + text,
            ConnectionError::Disconnected => "The memory backend closed the connection"@,
            ConnectionError::Protocol(text) => "Unexpected message from the memory backend: "@
                + text,
            ConnectionError::SnapshotFailed(text) =>
            "The memory backend failed to take the snapshot: "@ + text,
            ConnectionError::NotConnected => "No memory backend is connected"@,
        }
    }
}

/// `prefix` followed by `text`.
fn join(prefix: &str, text: &String) -> (r: String)
    ensures
        r@ == prefix@ + text@,
{
    let mut joined: String = prefix.to_string();
    joined.append(text.as_str());
    joined
}

impl MemBackendError {
    /// The text that describes the error.
    pub fn text(&self) -> (r: String)
        ensures
            r@ == self@.text(),
    {
        match self {
            MemBackendError::Connect(text) => join(
                "Cannot connect to the memory backend socket: ",
                text,
            ),
            MemBackendError::Handshake(text) => join(
                "Cannot send the handshake to the memory backend: ",
                text,
            ),
            MemBackendError::Io(text) => join("I/O error on the memory backend connection: ", text),
            MemBackendError::Serialize(text) => join(
                "Cannot serialize a message for the memory backend: ",
                text,
            ),
            MemBackendError::Disconnected => "The memory backend closed the connection".to_string(),
            MemBackendError::Protocol(text) => join(
                "Unexpected message from the memory backend: ",
                text,
            ),
            MemBackendError::SnapshotFailed(text) => join(
                "The memory backend failed to take the snapshot: ",
                text,
            ),
            MemBackendError::NotConnected => "No memory backend is connected".to_string(),
        }
    }
}

/// Errors of the memory-backend snapshot path. An error of the hypervisor or of the guest memory
/// is held by the text that describes it.
#[derive(Debug)]
pub enum MemBackendSnapshotError {
    /// Snapshots require KVM.
    NotKvm,
    /// Cannot get dirty bitmap.
    DirtyBitmap(String),
    /// Cannot compute the dirty ranges.
    Memory(String),
    /// Memory backend error.
    Backend(MemBackendError),
}

/// A snapshot error, with its contents as mathematical values.
pub enum SnapshotError {
    /// See [`MemBackendSnapshotError::NotKvm`].
    NotKvm,
    /// See [`MemBackendSnapshotError::DirtyBitmap`].
    DirtyBitmap(Seq<char>),
    /// See [`MemBackendSnapshotError::Memory`].
    Memory(Seq<char>),
    /// See [`MemBackendSnapshotError::Backend`].
    Backend(ConnectionError),
}

impl View for MemBackendSnapshotError {
    type V = SnapshotError;

    open spec fn view(&self) -> SnapshotError {
        match *self {
            MemBackendSnapshotError::NotKvm => SnapshotError::NotKvm,
            MemBackendSnapshotError::DirtyBitmap(text) => SnapshotError::DirtyBitmap(text@),
            MemBackendSnapshotError::Memory(text) => SnapshotError::Memory(text@),
            MemBackendSnapshotError::Backend(error) => SnapshotError::Backend(error@),
        }
    }
}

impl SnapshotError {
    /// The text that describes the error.
    pub open spec fn text(self) -> Seq<char> {
        match self {
            SnapshotError::NotKvm => "Snapshots require KVM"@,
            SnapshotError::DirtyBitmap(text) => "Cannot get dirty bitmap: "@ + text,
            SnapshotError::Memory(text) => "Cannot compute the dirty ranges: "@ + text,
            SnapshotError::Backend(error) => "Memory backend error: "@ + error.text(),
        }
    }
}

impl MemBackendSnapshotError {
    /// The text that describes the error.
    pub fn text(&self) -> (r: String)
        ensures
            r@ == self@.text(),
    {
        match self {
            MemBackendSnapshotError::NotKvm => "Snapshots require KVM".to_string(),
            MemBackendSnapshotError::DirtyBitmap(text) => join("Cannot get dirty bitmap: ", text),
            MemBackendSnapshotError::Memory(text) => join(
                "Cannot compute the dirty ranges: ",
                text,
            ),
            MemBackendSnapshotError::Backend(error) => {
                let text: String = error.text();
                join("Memory backend error: ", &text)
            },
        }
    }
}

} // verus!
