//! The byte stream of a memory backend connection, cut into newline-delimited messages.
//!
//! The socket itself is read and written elsewhere: what a read gave is handed to
//! [`MemBackendConnection`], and what is to be written is taken from it.

use vstd::prelude::*;

use crate::protocol::{
    ConnectionError, MemBackendError, MemBackendNotification, MemBackendRegion, MemBackendReply,
    MemRange, Notification, Reply,
};
use crate::snapshot::SnapshotType;

verus! {

broadcast use vstd::string::group_string_axioms;

/// The byte that ends a message.
pub const NEWLINE: u8 = 10;

/// Maximum size of a single message received from the backend.
pub const MAX_MESSAGE_LEN: usize = 64 * 1024;

/// `message` as it is sent: followed by a newline.
pub open spec fn framed(message: Seq<u8>) -> Seq<u8> {
    message.push(NEWLINE)
}

/// How many bytes come before the first newline; all of them if there is none.
pub open spec fn line_len(bytes: Seq<u8>) -> int
    decreases bytes.len(),
{
    if bytes.len() == 0 || bytes[0] == NEWLINE {
        0
    } else {
        1 + line_len(bytes.skip(1))
    }
}

/// The bytes before the first newline.
pub open spec fn first_line(bytes: Seq<u8>) -> Seq<u8> {
    bytes.take(line_len(bytes))
}

/// The bytes after the first newline.
pub open spec fn after_line(bytes: Seq<u8>) -> Seq<u8> {
    bytes.skip(line_len(bytes) + 1)
}

/// Finding the first newline: no byte before it is one, and it is one, unless none is.
pub proof fn lemma_line_len(bytes: Seq<u8>)
    ensures
        0 <= line_len(bytes) <= bytes.len(),
        forall|i: int| 0 <= i < line_len(bytes) ==> #[trigger] bytes[i] != NEWLINE,
        line_len(bytes) < bytes.len() ==> bytes[line_len(bytes)] == NEWLINE,
        bytes.contains(NEWLINE) <==> line_len(bytes) < bytes.len(),
    decreases bytes.len(),
{
    if bytes.len() > 0 && bytes[0] != NEWLINE {
        let rest = bytes.skip(1);
        lemma_line_len(rest);
        assert forall|i: int| 0 <= i < line_len(bytes) implies #[trigger] bytes[i] != NEWLINE by {
            if i > 0 {
                assert(rest[i - 1] != NEWLINE);
            }
        }
    }
}

/// The bytes before the first newline are determined by what [`lemma_line_len`] says of them.
pub proof fn lemma_line_len_is(bytes: Seq<u8>, n: int)
    requires
        0 <= n < bytes.len(),
        bytes[n] == NEWLINE,
        forall|i: int| 0 <= i < n ==> #[trigger] bytes[i] != NEWLINE,
    ensures
        line_len(bytes) == n,
{
    lemma_line_len(bytes);
    if line_len(bytes) < n {
        assert(bytes[line_len(bytes)] != NEWLINE);
    }
}

/// A read's outcome, with its contents as mathematical values.
pub open spec fn read_view(read: Result<Vec<u8>, MemBackendError>) -> Result<
    Seq<u8>,
    ConnectionError,
> {
    match read {
        Ok(chunk) => Ok(chunk@),
        Err(error) => Err(error@),
    }
}

/// A result, with its error as a mathematical value.
pub open spec fn result_view<T>(result: Result<T, MemBackendError>) -> Result<T, ConnectionError> {
    match result {
        Ok(value) => Ok(value),
        Err(error) => Err(error@),
    }
}

/// What is buffered after a read.
pub open spec fn buffer_after(buffer: Seq<u8>, read: Result<Seq<u8>, ConnectionError>) -> Seq<u8> {
    match read {
        Ok(chunk) => buffer + chunk,
        Err(_) => buffer,
    }
}

/// The error that a message over the maximum size is.
pub open spec fn too_long() -> ConnectionError {
    ConnectionError::Protocol("message from memory backend too long"@)
}

/// Whether the next message, finished or not, is over the maximum size.
pub open spec fn over_maximum(buffer: Seq<u8>) -> bool {
    line_len(buffer) > MAX_MESSAGE_LEN
}

/// Whether a read leaves the connection open: not if it failed, if it gave nothing, which means
/// that the peer closed the connection, or if it made the next message, finished or not, too long.
pub open spec fn fill_result(buffer: Seq<u8>, read: Result<Seq<u8>, ConnectionError>) -> Result<
    bool,
    ConnectionError,
> {
    match read {
        Err(error) => Err(error),
        Ok(chunk) => if chunk.len() == 0 {
            Ok(false)
        } else if over_maximum(buffer + chunk) {
            Err(too_long())
        } else {
            Ok(true)
        },
    }
}

/// The next complete line and what it leaves in the buffer, if there is one. One over the maximum
/// size is an error.
pub open spec fn line_result(buffer: Seq<u8>) -> Result<
    Option<(Seq<u8>, Seq<u8>)>,
    ConnectionError,
> {
    if !buffer.contains(NEWLINE) {
        Ok(None)
    } else if over_maximum(buffer) {
        Err(too_long())
    } else {
        Ok(Some((first_line(buffer), after_line(buffer))))
    }
}

/// What a message received in reply to a snapshot request means. `reply` is the message in parsed
/// form, where it has one.
pub open spec fn reply_result(line: Seq<u8>, reply: Option<Reply>) -> Result<(), ConnectionError> {
    match reply {
        Some(Reply::SnapshotDone { success, message }) => if success {
            Ok(())
        } else {
            Err(ConnectionError::SnapshotFailed(message))
        },
        None => Err(ConnectionError::Protocol(lossy_utf8(line))),
    }
}

/// The text that `String::from_utf8_lossy` makes of bytes.
pub uninterp spec fn lossy_utf8(bytes: Seq<u8>) -> Seq<char>;

/// Calls `String::from_utf8_lossy`, which gives valid UTF-8 back as it is. What it puts in the
/// place of other bytes is not stated, only that it depends on the bytes alone.
#[verifier::external_body]
fn to_text(bytes: &Vec<u8>) -> (r: String)
    ensures
        r@ == lossy_utf8(bytes@),
        vstd::utf8::valid_utf8(bytes@) ==> r@ == vstd::utf8::decode_utf8(bytes@),
{
    String::from_utf8_lossy(bytes).into_owned()
}

/// What has been received from a memory backend and not been taken yet.
#[derive(Debug)]
pub struct MemBackendConnection {
    /// Bytes received but not yet consumed as a full line.
    buf: Vec<u8>,
}

impl View for MemBackendConnection {
    type V = Seq<u8>;

    closed spec fn view(&self) -> Seq<u8> {
        self.buf@
    }
}

impl MemBackendConnection {
    /// Opens the connection: nothing has been received yet, and the handshake goes out first, as
    /// the bytes that are returned.
    pub fn connect(handshake: Vec<u8>) -> (r: (Self, Vec<u8>))
        ensures
            r.0@ == Seq::<u8>::empty(),
            r.1@ == framed(handshake@),
            r.1@ == handshake@ + seq![10u8],
    {
        let mut bytes: Vec<u8> = handshake;
        bytes.push(NEWLINE);
        (MemBackendConnection { buf: Vec::new() }, bytes)
    }

    /// The bytes that one message is sent as.
    pub fn send(&self, message: Vec<u8>) -> (r: Vec<u8>)
        ensures
            r@ == framed(message@),
            r@ == message@ + seq![10u8],
    {
        let mut bytes: Vec<u8> = message;
        bytes.push(NEWLINE);
        bytes
    }

    /// Takes in what a single read on the socket gave, appending to the internal buffer.
    ///
    /// Returns `Ok(false)` if the peer closed the connection.
    pub fn fill(&mut self, read: Result<Vec<u8>, MemBackendError>) -> (r: Result<
        bool,
        MemBackendError,
    >)
        ensures
            final(self)@ == buffer_after(old(self)@, read_view(read)),
            result_view(r) == fill_result(old(self)@, read_view(read)),
            match read {
                Ok(chunk) => final(self)@ == old(self)@ + chunk@,
                Err(_) => final(self)@ == old(self)@,
            },
            match (read, r) {
                (Err(error), Err(e)) => e@ == error@,
                (Ok(chunk), Ok(open)) => {
                    let received = old(self)@ + chunk@;
                    &&& open == (chunk@.len() > 0)
                    &&& open ==> received.len() <= 65536 || received.take(65537).contains(10)
                },
                (Ok(chunk), Err(error)) => {
                    let received = old(self)@ + chunk@;
                    &&& chunk@.len() > 0
                    &&& error@ == ConnectionError::Protocol(
                        "message from memory backend too long"@,
                    )
                    &&& received.len() > 65536
                    &&& !received.take(65537).contains(10)
                },
                _ => false,
            },
    {
        let chunk: Vec<u8> = match read {
            Ok(chunk) => chunk,
            Err(error) => {
                return Err(error);
            },
        };
        if chunk.len() == 0 {
            assert(self@ =~= old(self)@ + chunk@);
            return Ok(false);
        }
        self.buf.extend_from_slice(chunk.as_slice());
        assert(self.buf@ =~= old(self)@ + chunk@);
        proof {
            lemma_line_len(self@);
        }
        let end: usize = match self.line_end() {
            Some(end) => end,
            None => self.buf.len(),
        };
        if end > MAX_MESSAGE_LEN {
            return Err(Self::message_too_long());
        }
        proof {
            if self@.len() > 65536 {
                assert(self@.take(65537)[end as int] == 10);
            }
        }
        Ok(true)
    }

    /// The error that a message over the maximum size is.
    fn message_too_long() -> (r: MemBackendError)
        ensures
            r@ == too_long(),
    {
        MemBackendError::Protocol("message from memory backend too long".to_string())
    }

    /// Where the first newline is.
    fn line_end(&self) -> (r: Option<usize>)
        ensures
            match r {
                Some(end) => end == line_len(self@) && end < self@.len(),
                None => !self@.contains(NEWLINE),
            },
    {
        let mut i: usize = 0;
        while i < self.buf.len()
            invariant
                i <= self@.len(),
                self@ == self.buf@,
                forall|j: int| 0 <= j < i ==> #[trigger] self@[j] != NEWLINE,
            decreases self@.len() - i,
        {
            if self.buf[i] == NEWLINE {
                proof {
                    lemma_line_len_is(self@, i as int);
                }
                return Some(i);
            }
            i += 1;
        }
        None
    }

    /// Removes and returns the next complete line from the buffer, without the newline. It is not
    /// held to the maximum size here: see [`Self::fill`] and [`Self::recv_line`].
    pub fn next_line(&mut self) -> (r: Option<Vec<u8>>)
        ensures
            match r {
                Some(line) => old(self)@.contains(NEWLINE) && line@ == first_line(old(self)@)
                    && final(self)@ == after_line(old(self)@),
                None => !old(self)@.contains(NEWLINE) && final(self)@ == old(self)@,
            },
            match r {
                Some(line) => {
                    &&& !line@.contains(10)
                    &&& old(self)@ == line@ + seq![10u8] + final(self)@
                },
                None => !old(self)@.contains(10) && final(self)@ == old(self)@,
            },
    {
        let end: usize = match self.line_end() {
            Some(end) => end,
            None => {
                return None;
            },
        };
        proof {
            lemma_line_len(self@);
        }
        assert(end < self.buf.len());
        let mut line: Vec<u8> = self.buf.split_off(end + 1);
        core::mem::swap(&mut line, &mut self.buf);
        line.pop();
        assert(line@ =~= first_line(old(self)@));
        assert(self@ =~= after_line(old(self)@));
        assert(old(self)@ =~= line@ + seq![10u8] + self@);
        Some(line)
    }

    /// Goes on receiving until a complete line is there, which is returned. `read` is what the last
    /// read on the socket gave, if there was one yet; `Ok(None)` asks for another.
    ///
    /// A line over the maximum size is an error, and stays in the buffer.
    pub fn recv_line(&mut self, read: Option<Result<Vec<u8>, MemBackendError>>) -> (r: Result<
        Option<Vec<u8>>,
        MemBackendError,
    >)
        ensures
            ({
                let (buffer, filled) = match read {
                    None => (old(self)@, Ok(true)),
                    Some(read) => (
                        buffer_after(old(self)@, read_view(read)),
                        fill_result(old(self)@, read_view(read)),
                    ),
                };
                match filled {
                    Ok(true) => match line_result(buffer) {
                        Ok(Some((first, rest))) => {
                            &&& r matches Ok(Some(line))
                            &&& line@ == first
                            &&& final(self)@ == rest
                        },
                        Ok(None) => r matches Ok(None) && final(self)@ == buffer,
                        Err(error) => (r matches Err(e) && e@ == error) && final(self)@ == buffer,
                    },
                    Ok(false) => r matches Err(MemBackendError::Disconnected) && final(self)@
                        == buffer,
                    Err(error) => (r matches Err(e) && e@ == error) && final(self)@ == buffer,
                }
            }),
            r matches Ok(Some(line)) ==> line@.len() <= MAX_MESSAGE_LEN,
            ({
                let received = match read {
                    Some(Ok(chunk)) => old(self)@ + chunk@,
                    _ => old(self)@,
                };
                let opened = match read {
                    None => true,
                    Some(Ok(chunk)) => chunk@.len() > 0,
                    Some(Err(_)) => false,
                };
                match r {
                    Ok(Some(line)) => {
                        &&& opened
                        &&& !line@.contains(10)
                        &&& line@.len() <= 65536
                        &&& received == line@ + seq![10u8] + final(self)@
                    },
                    Ok(None) => opened && !received.contains(10) && final(self)@ == received,
                    Err(error) => {
                        &&& final(self)@ == received
                        &&& match read {
                            Some(Err(e)) => error@ == e@,
                            _ => if opened {
                                &&& error@ == ConnectionError::Protocol(
                                    "message from memory backend too long"@,
                                )
                                &&& received.len() > 65536
                                &&& !received.take(65537).contains(10)
                                &&& read is Some || received.contains(10)
                            } else {
                                error is Disconnected
                            },
                        }
                    },
                }
            }),
    {
        if let Some(read) = read {
            match self.fill(read) {
                Ok(true) => {},
                Ok(false) => {
                    return Err(MemBackendError::Disconnected);
                },
                Err(error) => {
                    return Err(error);
                },
            }
        }
        proof {
            lemma_line_len(self@);
        }
        if let Some(end) = self.line_end() {
            if end > MAX_MESSAGE_LEN {
                return Err(Self::message_too_long());
            }
        }
        Ok(self.next_line())
    }

    /// The notification with which a snapshot is requested.
    pub fn snapshot_request(
        &self,
        snapshot_type: SnapshotType,
        regions: Vec<MemBackendRegion>,
        ranges: Vec<MemRange>,
    ) -> (r: MemBackendNotification)
        ensures
            r@ == (Notification::SnapshotRequest {
                snapshot_type,
                regions: regions@,
                ranges: ranges@,
            }),
    {
        MemBackendNotification::SnapshotRequest { snapshot_type, regions, ranges }
    }

    /// What the line that came in reply to a snapshot request means. `reply` is the line in parsed
    /// form, or `None` where it is no reply.
    pub fn snapshot_reply(&self, line: &Vec<u8>, reply: Option<MemBackendReply>) -> (r: Result<
        (),
        MemBackendError,
    >)
        ensures
            result_view(r) == reply_result(
                line@,
                match reply {
                    Some(reply) => Some(reply@),
                    None => None,
                },
            ),
            match reply {
                Some(MemBackendReply::SnapshotDone { success, message }) => if success {
                    r is Ok
                } else {
                    r matches Err(MemBackendError::SnapshotFailed(text)) && text@ == message@
                },
                None => r matches Err(MemBackendError::Protocol(text)) && text@ == lossy_utf8(
                    line@,
                ),
            },
            reply is None && vstd::utf8::valid_utf8(line@) ==> result_view(r) == Err::<(), _>(
                ConnectionError::Protocol(vstd::utf8::decode_utf8(line@)),
            ),
    {
        match reply {
            Some(MemBackendReply::SnapshotDone { success, message }) => {
                if success {
                    Ok(())
                } else {
                    Err(MemBackendError::SnapshotFailed(message))
                }
            },
            None => Err(MemBackendError::Protocol(to_text(line))),
        }
    }
}

} // verus!
