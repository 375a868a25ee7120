//! What holds of every stream of messages, however its bytes are cut into reads.

use vstd::prelude::*;

use crate::connection::{
    after_line, buffer_after, fill_result, first_line, framed, lemma_line_len, lemma_line_len_is,
    line_len, line_result, lossy_utf8, reply_result, too_long, MAX_MESSAGE_LEN, NEWLINE,
};
use crate::protocol::{ConnectionError, Reply};

verus! {

/// The complete lines in a buffer, in the order in which they are taken from it.
pub open spec fn lines(bytes: Seq<u8>) -> Seq<Seq<u8>>
    decreases bytes.len(),
{
    if 0 <= line_len(bytes) < bytes.len() {
        seq![first_line(bytes)] + lines(after_line(bytes))
    } else {
        seq![]
    }
}

/// What is left in a buffer once its complete lines have been taken.
pub open spec fn unfinished(bytes: Seq<u8>) -> Seq<u8>
    decreases bytes.len(),
{
    if 0 <= line_len(bytes) < bytes.len() {
        unfinished(after_line(bytes))
    } else {
        bytes
    }
}

/// The bytes that are sent for `messages`.
pub open spec fn stream(messages: Seq<Seq<u8>>) -> Seq<u8>
    decreases messages.len(),
{
    if messages.len() == 0 {
        seq![]
    } else {
        framed(messages[0]) + stream(messages.skip(1))
    }
}

/// A message without a newline in it, sent and followed by whatever else was sent, is the first
/// line that is received, and taking it leaves what followed.
pub proof fn a_message_sent_is_received(message: Seq<u8>, rest: Seq<u8>)
    requires
        !message.contains(NEWLINE),
    ensures
        (framed(message) + rest).contains(NEWLINE),
        first_line(framed(message) + rest) == message,
        after_line(framed(message) + rest) == rest,
{
    let bytes = framed(message) + rest;
    assert(bytes[message.len() as int] == NEWLINE);
    assert forall|i: int| 0 <= i < message.len() implies #[trigger] bytes[i] != NEWLINE by {
        assert(message.contains(message[i]));
    }
    lemma_line_len_is(bytes, message.len() as int);
    assert(first_line(bytes) =~= message);
    assert(after_line(bytes) =~= rest);
}

/// Messages without newlines in them come out of the stream as they went in, in their order, and
/// leave nothing behind.
pub proof fn a_stream_is_its_messages(messages: Seq<Seq<u8>>)
    requires
        forall|i: int| 0 <= i < messages.len() ==> !(#[trigger] messages[i]).contains(NEWLINE),
    ensures
        lines(stream(messages)) == messages,
        unfinished(stream(messages)) == Seq::<u8>::empty(),
    decreases messages.len(),
{
    if messages.len() > 0 {
        let rest = messages.skip(1);
        a_message_sent_is_received(messages[0], stream(rest));
        lemma_line_len(stream(messages));
        a_stream_is_its_messages(rest);
        assert(messages =~= seq![messages[0]] + rest);
    }
}

/// Where a read ends makes no difference: taking the complete lines of what came first, and then
/// those of what it left together with what came after it, gives the lines of the whole.
pub proof fn cuts_make_no_difference(a: Seq<u8>, b: Seq<u8>)
    ensures
        lines(a + b) == lines(a) + lines(unfinished(a) + b),
        unfinished(a + b) == unfinished(unfinished(a) + b),
    decreases a.len(),
{
    lemma_line_len(a);
    let n = line_len(a);
    if n < a.len() {
        let bytes = a + b;
        assert forall|i: int| 0 <= i < n implies #[trigger] bytes[i] != NEWLINE by {
            assert(a[i] != NEWLINE);
        }
        lemma_line_len_is(bytes, n);
        assert(first_line(bytes) =~= first_line(a));
        assert(after_line(bytes) =~= after_line(a) + b);
        cuts_make_no_difference(after_line(a), b);
        assert(lines(bytes) =~= lines(a) + lines(unfinished(a) + b));
    } else {
        assert(lines(a) + lines(a + b) =~= lines(a + b));
    }
}

/// No line holds a newline, and what is left unfinished holds none either.
pub proof fn lines_hold_no_newline(bytes: Seq<u8>)
    ensures
        forall|i: int| 0 <= i < lines(bytes).len() ==> !(#[trigger] lines(bytes)[i]).contains(
            NEWLINE,
        ),
        !unfinished(bytes).contains(NEWLINE),
    decreases bytes.len(),
{
    lemma_line_len(bytes);
    if line_len(bytes) < bytes.len() {
        lines_hold_no_newline(after_line(bytes));
        assert forall|i: int| 0 <= i < lines(bytes).len() implies !(
        #[trigger] lines(bytes)[i]).contains(NEWLINE) by {
            if i > 0 {
                assert(lines(bytes)[i] == lines(after_line(bytes))[i - 1]);
            }
        }
    }
}

/// No message is over the maximum size, in whatever pieces it comes: a read that leaves the
/// connection open leaves the next message, finished or not, within the maximum, and one that makes
/// it longer, even if it also finishes it, is an error.
pub proof fn messages_are_bounded(buffer: Seq<u8>, chunk: Seq<u8>)
    requires
        chunk.len() > 0,
    ensures
        ({
            let filled = buffer_after(buffer, Ok(chunk));
            match fill_result(buffer, Ok(chunk)) {
                Ok(open) => {
                    &&& open
                    &&& first_line(filled).len() <= MAX_MESSAGE_LEN
                    &&& !filled.contains(NEWLINE) ==> filled.len() <= MAX_MESSAGE_LEN
                },
                Err(error) => error == too_long() && first_line(filled).len() > MAX_MESSAGE_LEN,
            }
        }),
{
    lemma_line_len(buffer + chunk);
}

/// No line that is taken from what has been received is over the maximum size either, however much
/// was received before it.
pub proof fn lines_taken_are_bounded(buffer: Seq<u8>)
    ensures
        line_result(buffer) matches Ok(Some((line, rest))) ==> line.len() <= MAX_MESSAGE_LEN
            && buffer == framed(line) + rest,
        line_result(buffer) matches Err(error) ==> error == too_long() && first_line(buffer).len()
            > MAX_MESSAGE_LEN,
{
    lemma_line_len(buffer);
    if buffer.contains(NEWLINE) {
        assert(buffer =~= framed(first_line(buffer)) + after_line(buffer));
    }
}

/// A message without a newline in it is sent as one line: it ends in a newline and holds no other.
pub proof fn a_message_is_sent_as_one_line(message: Seq<u8>, i: int)
    requires
        !message.contains(NEWLINE),
        0 <= i < framed(message).len(),
    ensures
        framed(message)[i] == NEWLINE <==> i == framed(message).len() - 1,
        lines(framed(message)) == seq![message],
        unfinished(framed(message)) == Seq::<u8>::empty(),
{
    if i < message.len() {
        assert(message.contains(message[i]));
    }
    a_stream_is_its_messages(seq![message]);
    assert(seq![message].skip(1).len() == 0);
    assert(stream(seq![message].skip(1)) =~= seq![]);
    assert(stream(seq![message]) =~= framed(message));
}

/// What receiving a line comes to, over any number of reads: the line and what it leaves in the
/// buffer, or that more is to be read, or an error. Reads are taken only as long as no complete line
/// is there.
pub open spec fn received_line(
    buffer: Seq<u8>,
    reads: Seq<Result<Seq<u8>, ConnectionError>>,
) -> Result<Option<(Seq<u8>, Seq<u8>)>, ConnectionError>
    decreases reads.len(),
{
    match line_result(buffer) {
        Ok(None) => if reads.len() == 0 {
            Ok(None)
        } else {
            match fill_result(buffer, reads[0]) {
                Ok(true) => received_line(buffer_after(buffer, reads[0]), reads.skip(1)),
                Ok(false) => Err(ConnectionError::Disconnected),
                Err(error) => Err(error),
            }
        },
        result => result,
    }
}

/// Everything that was received, over any number of reads.
pub open spec fn received(
    buffer: Seq<u8>,
    reads: Seq<Result<Seq<u8>, ConnectionError>>,
) -> Seq<u8>
    decreases reads.len(),
{
    if reads.len() == 0 {
        buffer
    } else {
        received(buffer_after(buffer, reads[0]), reads.skip(1))
    }
}

/// Over any reads, the line that is received is the first line of everything that was received, what
/// stays in the buffer is the beginning of what follows it, and as long as none is received there is
/// no complete line in all of it.
pub proof fn the_line_received_is_the_first(
    buffer: Seq<u8>,
    reads: Seq<Result<Seq<u8>, ConnectionError>>,
)
    ensures
        received_line(buffer, reads) matches Ok(Some((line, rest))) ==> {
            let all = received(buffer, reads);
            &&& all.contains(NEWLINE)
            &&& line == first_line(all)
            &&& rest.is_prefix_of(after_line(all))
            &&& line.len() <= MAX_MESSAGE_LEN
        },
        received_line(buffer, reads) matches Ok(None) ==> !received(buffer, reads).contains(
            NEWLINE,
        ),
    decreases reads.len(),
{
    lemma_line_len(buffer);
    if buffer.contains(NEWLINE) {
        lemma_reads_append(buffer, reads);
        let all = received(buffer, reads);
        let n = line_len(buffer);
        assert forall|i: int| 0 <= i < n implies #[trigger] all[i] != NEWLINE by {
            assert(buffer[i] != NEWLINE);
        }
        assert(all[n] == buffer[n]);
        lemma_line_len_is(all, n);
        lemma_line_len(all);
        assert(first_line(all) =~= first_line(buffer));
        assert forall|i: int| 0 <= i < after_line(buffer).len() implies after_line(buffer)[i]
            == after_line(all)[i] by {
            assert(all[i + n + 1] == buffer[i + n + 1]);
        }
    } else if reads.len() > 0 {
        the_line_received_is_the_first(buffer_after(buffer, reads[0]), reads.skip(1));
    }
}

/// Reads only append to what was received before.
proof fn lemma_reads_append(buffer: Seq<u8>, reads: Seq<Result<Seq<u8>, ConnectionError>>)
    ensures
        buffer.len() <= received(buffer, reads).len(),
        forall|i: int|
            0 <= i < buffer.len() ==> buffer[i] == #[trigger] received(buffer, reads)[i],
    decreases reads.len(),
{
    if reads.len() > 0 {
        let filled = buffer_after(buffer, reads[0]);
        lemma_reads_append(filled, reads.skip(1));
        assert forall|i: int| 0 <= i < buffer.len() implies buffer[i] == #[trigger] received(
            buffer,
            reads,
        )[i] by {
            assert(filled[i] == received(filled, reads.skip(1))[i]);
        }
    }
}

/// A read appends exactly the bytes that it gave to what was buffered; one that fails leaves it.
pub proof fn a_read_appends_what_it_gave(
    buffer: Seq<u8>,
    chunk: Seq<u8>,
    error: ConnectionError,
)
    ensures
        buffer_after(buffer, Ok(chunk)).len() == buffer.len() + chunk.len(),
        forall|i: int|
            0 <= i < buffer.len() ==> #[trigger] buffer_after(buffer, Ok(chunk))[i] == buffer[i],
        forall|i: int|
            0 <= i < chunk.len() ==> buffer_after(buffer, Ok(chunk))[buffer.len() + i]
                == #[trigger] chunk[i],
        buffer_after(buffer, Err(error)) == buffer,
{
}

/// What a read means for the connection depends on nothing but the read and the first 65537 bytes
/// that are then there: a failure is passed on, nothing read means that the peer is gone, and an
/// error is made of a first message that does not end within its maximum of 65536 bytes.
pub proof fn a_read_leaves_the_connection_open_within_the_maximum(
    buffer: Seq<u8>,
    chunk: Seq<u8>,
    error: ConnectionError,
)
    ensures
        fill_result(buffer, Err(error)) == Err::<bool, _>(error),
        chunk.len() == 0 ==> fill_result(buffer, Ok(chunk)) == Ok::<_, ConnectionError>(false),
        chunk.len() > 0 && ((buffer + chunk).len() <= 65536 || (buffer + chunk).take(
            65537,
        ).contains(10)) ==> fill_result(buffer, Ok(chunk)) == Ok::<_, ConnectionError>(true),
        chunk.len() > 0 && (buffer + chunk).len() > 65536 && !(buffer + chunk).take(
            65537,
        ).contains(10) ==> fill_result(buffer, Ok(chunk)) == Err::<bool, _>(
            ConnectionError::Protocol("message from memory backend too long"@),
        ),
{
    let all = buffer + chunk;
    lemma_line_len(all);
    if all.len() > 65536 {
        let first = all.take(65537);
        if first.contains(10) {
            let i = choose|i: int| 0 <= i < first.len() && first[i] == 10;
            assert(all[i] == 10);
        } else {
            if line_len(all) <= 65536 {
                assert(first[line_len(all)] == 10);
            }
        }
    }
}

/// The next line is what comes before the first newline, and what comes after that newline stays:
/// whatever the line and whatever follows it, unless it is over the maximum of 65536 bytes. Without
/// a newline there is no line.
pub proof fn the_next_line_ends_at_the_first_newline(line: Seq<u8>, rest: Seq<u8>)
    requires
        !line.contains(10),
    ensures
        line_result(line) == Ok::<Option<(Seq<u8>, Seq<u8>)>, ConnectionError>(None),
        line.len() <= 65536 ==> line_result(line + seq![10u8] + rest) == Ok::<
            _,
            ConnectionError,
        >(Some((line, rest))),
        line.len() > 65536 ==> line_result(line + seq![10u8] + rest) == Err::<
            Option<(Seq<u8>, Seq<u8>)>,
            _,
        >(ConnectionError::Protocol("message from memory backend too long"@)),
        first_line(line + seq![10u8] + rest) == line,
        after_line(line + seq![10u8] + rest) == rest,
{
    a_message_sent_is_received(line, rest);
    assert(framed(line) =~= line + seq![10u8]);
    lemma_line_len(line + seq![10u8] + rest);
}

/// Everything that was received is what was buffered, followed by all that the reads gave, in their
/// order.
pub proof fn what_was_read_is_what_was_received(
    buffer: Seq<u8>,
    reads: Seq<Result<Seq<u8>, ConnectionError>>,
    chunks: Seq<Seq<u8>>,
)
    requires
        reads.len() == chunks.len(),
        forall|i: int|
            0 <= i < chunks.len() ==> reads[i] == Ok::<_, ConnectionError>(#[trigger] chunks[i]),
    ensures
        received(buffer, reads) == buffer + chunks.flatten(),
    decreases chunks.len(),
{
    if chunks.len() > 0 {
        assert(reads[0] == Ok::<_, ConnectionError>(chunks[0]));
        let rest = chunks.drop_first();
        assert forall|i: int| 0 <= i < rest.len() implies reads.skip(1)[i] == Ok::<
            _,
            ConnectionError,
        >(#[trigger] rest[i]) by {
            assert(reads[i + 1] == Ok::<_, ConnectionError>(chunks[i + 1]));
        }
        what_was_read_is_what_was_received(buffer + chunks[0], reads.skip(1), rest);
        assert(buffer + chunks[0] + rest.flatten() =~= buffer + (chunks[0] + rest.flatten()));
    } else {
        assert(buffer + chunks.flatten() =~= buffer);
    }
}

/// The stream of messages is each of them followed by a newline, one after the other.
pub proof fn a_stream_is_its_messages_with_newlines(
    messages: Seq<Seq<u8>>,
    ended: Seq<Seq<u8>>,
)
    requires
        ended.len() == messages.len(),
        forall|i: int|
            0 <= i < messages.len() ==> #[trigger] ended[i] == messages[i] + seq![10u8],
    ensures
        stream(messages) == ended.flatten(),
    decreases messages.len(),
{
    if messages.len() > 0 {
        assert(framed(messages[0]) =~= ended[0]);
        assert forall|i: int| 0 <= i < messages.skip(1).len() implies #[trigger] ended.drop_first()[i]
            == messages.skip(1)[i] + seq![10u8] by {
            assert(ended[i + 1] == messages[i + 1] + seq![10u8]);
        }
        a_stream_is_its_messages_with_newlines(messages.skip(1), ended.drop_first());
    }
}

/// Messages survive any cut: sent as a stream and read in whatever pieces, they are received as
/// they were sent, all of them, in their order, with nothing left over.
pub proof fn messages_survive_any_cut(
    messages: Seq<Seq<u8>>,
    reads: Seq<Result<Seq<u8>, ConnectionError>>,
    chunks: Seq<Seq<u8>>,
)
    requires
        forall|i: int| 0 <= i < messages.len() ==> !(#[trigger] messages[i]).contains(10),
        reads.len() == chunks.len(),
        forall|i: int|
            0 <= i < chunks.len() ==> reads[i] == Ok::<_, ConnectionError>(#[trigger] chunks[i]),
        chunks.flatten() == stream(messages),
    ensures
        lines(received(seq![], reads)) == messages,
        unfinished(received(seq![], reads)) == Seq::<u8>::empty(),
{
    what_was_read_is_what_was_received(seq![], reads, chunks);
    assert(seq![] + chunks.flatten() =~= chunks.flatten());
    a_stream_is_its_messages(messages);
}

/// Nothing that is received gets lost or is made up: the lines, each with its newline, and what is
/// unfinished are all of it.
pub proof fn lines_and_the_unfinished_are_all_that_was_received(bytes: Seq<u8>)
    ensures
        stream(lines(bytes)) + unfinished(bytes) == bytes,
    decreases bytes.len(),
{
    lemma_line_len(bytes);
    if line_len(bytes) < bytes.len() {
        let rest = after_line(bytes);
        lines_and_the_unfinished_are_all_that_was_received(rest);
        assert(lines(bytes).skip(1) =~= lines(rest));
        assert(lines(bytes)[0] == first_line(bytes));
        assert(stream(lines(bytes)) + unfinished(bytes) =~= framed(first_line(bytes)) + (stream(
            lines(rest),
        ) + unfinished(rest)));
        assert(bytes =~= framed(first_line(bytes)) + rest);
    } else {
        assert(lines(bytes) =~= seq![]);
        assert(stream(lines(bytes)) + unfinished(bytes) =~= bytes);
    }
}

/// A reply means what it says: success is success, a failure is the backend's own message, and a
/// line that is no reply is quoted.
pub proof fn a_reply_means_what_it_says(line: Seq<u8>, message: Seq<char>)
    ensures
        reply_result(line, Some(Reply::SnapshotDone { success: true, message })) == Ok::<
            (),
            ConnectionError,
        >(()),
        reply_result(line, Some(Reply::SnapshotDone { success: false, message })) == Err::<(), _>(
            ConnectionError::SnapshotFailed(message),
        ),
        reply_result(line, None) == Err::<(), _>(ConnectionError::Protocol(lossy_utf8(line))),
{
}

} // verus!
