use mem_backend::connection::{MemBackendConnection, MAX_MESSAGE_LEN};
use mem_backend::protocol::{
    MemBackendError, MemBackendNotification, MemBackendReply, MemBackendSnapshotError, MemRange,
    FD_NAME_MEMFD, FD_NAME_UFFD,
};
use mem_backend::snapshot::SnapshotType;

fn connection() -> MemBackendConnection {
    MemBackendConnection::connect(Vec::new()).0
}

fn done(success: bool, message: &str) -> Option<MemBackendReply> {
    Some(MemBackendReply::SnapshotDone {
        success,
        message: message.to_string(),
    })
}

#[test]
fn handshake_and_messages_end_in_a_newline() {
    let (conn, bytes) = MemBackendConnection::connect(b"{\"fds\":[]}".to_vec());
    assert_eq!(bytes, b"{\"fds\":[]}\n");
    assert_eq!(conn.send(b"abc".to_vec()), b"abc\n");
    assert_eq!(conn.send(Vec::new()), b"\n");
    assert_eq!(FD_NAME_MEMFD, "memfd");
    assert_eq!(FD_NAME_UFFD, "uffd");
}

#[test]
fn reply_in_two_reads() {
    let mut conn = connection();
    assert_eq!(conn.recv_line(None).unwrap(), None);
    let reply = br#"{"SnapshotDone":{"success":true,"message":""}}"#;
    let (a, b) = reply.split_at(5);
    assert_eq!(conn.recv_line(Some(Ok(a.to_vec()))).unwrap(), None);
    assert_eq!(conn.recv_line(Some(Ok(b.to_vec()))).unwrap(), None);
    let line = conn.recv_line(Some(Ok(b"\n".to_vec()))).unwrap().unwrap();
    assert_eq!(line, reply);
    assert!(conn.snapshot_reply(&line, done(true, "")).is_ok());
    let err = conn.snapshot_reply(&line, done(false, "disk full")).unwrap_err();
    assert!(matches!(err, MemBackendError::SnapshotFailed(m) if m == "disk full"));
    // Peer gone: a disconnect is reported.
    assert!(matches!(
        conn.recv_line(Some(Ok(Vec::new()))).unwrap_err(),
        MemBackendError::Disconnected
    ));
}

#[test]
fn lines_come_out_as_they_went_in() {
    let messages: [&[u8]; 4] = [b"one", b"", b"three 3", b"four"];
    let conn = connection();
    let mut stream = Vec::new();
    for m in messages {
        stream.extend(conn.send(m.to_vec()));
    }
    stream.extend_from_slice(b"unfinished");
    for size in 1..stream.len() + 1 {
        let mut conn = connection();
        let mut received = Vec::new();
        for chunk in stream.chunks(size) {
            assert!(conn.fill(Ok(chunk.to_vec())).unwrap());
            while let Some(line) = conn.next_line() {
                received.push(line);
            }
        }
        assert_eq!(received, messages);
        assert_eq!(conn.next_line(), None);
        assert!(conn.fill(Ok(b"\n".to_vec())).unwrap());
        assert_eq!(conn.next_line().unwrap(), b"unfinished");
    }
}

#[test]
fn a_line_that_is_there_is_taken_without_a_read() {
    let mut conn = connection();
    assert!(conn.fill(Ok(b"a\nb\nc".to_vec())).unwrap());
    assert_eq!(conn.recv_line(None).unwrap().unwrap(), b"a");
    assert_eq!(conn.recv_line(None).unwrap().unwrap(), b"b");
    assert_eq!(conn.recv_line(None).unwrap(), None);
    assert_eq!(conn.recv_line(Some(Ok(b"\n".to_vec()))).unwrap().unwrap(), b"c");
}

#[test]
fn messages_are_bounded() {
    let mut conn = connection();
    assert!(conn.fill(Ok(vec![b'a'; MAX_MESSAGE_LEN])).unwrap());
    let err = conn.fill(Ok(vec![b'a'])).unwrap_err();
    assert!(
        matches!(err, MemBackendError::Protocol(m) if m == "message from memory backend too long")
    );

    // A message that the same read finishes is too long all the same.
    let mut conn = connection();
    assert!(conn.fill(Ok(vec![b'a'; MAX_MESSAGE_LEN])).unwrap());
    let err = conn.recv_line(Some(Ok(b"a\n".to_vec()))).unwrap_err();
    assert!(
        matches!(err, MemBackendError::Protocol(m) if m == "message from memory backend too long")
    );

    // One of just the maximum is not.
    let mut conn = connection();
    assert!(conn.fill(Ok(vec![b'a'; MAX_MESSAGE_LEN])).unwrap());
    let line = conn.recv_line(Some(Ok(b"\n".to_vec()))).unwrap().unwrap();
    assert_eq!(line.len(), MAX_MESSAGE_LEN);
    assert_eq!(conn.recv_line(None).unwrap(), None);

    // What follows a short message does not count towards it, and is tested in its turn.
    let mut conn = connection();
    let mut bytes = b"short\n".to_vec();
    bytes.extend(vec![b'a'; MAX_MESSAGE_LEN + 1]);
    bytes.push(b'\n');
    assert!(conn.fill(Ok(bytes)).unwrap());
    assert_eq!(conn.recv_line(None).unwrap().unwrap(), b"short");
    assert!(matches!(
        conn.recv_line(None).unwrap_err(),
        MemBackendError::Protocol(m) if m == "message from memory backend too long"
    ));

    let mut conn = connection();
    assert!(conn.fill(Ok(vec![b'a'; MAX_MESSAGE_LEN])).unwrap());
    assert!(matches!(
        conn.recv_line(Some(Ok(vec![b'a'; 4096]))).unwrap_err(),
        MemBackendError::Protocol(_)
    ));
}

#[test]
fn closed_and_failed_reads() {
    let mut conn = connection();
    assert!(!conn.fill(Ok(Vec::new())).unwrap());
    let err = conn
        .fill(Err(MemBackendError::Io("reset".to_string())))
        .unwrap_err();
    assert!(matches!(err, MemBackendError::Io(m) if m == "reset"));
    let err = conn
        .recv_line(Some(Err(MemBackendError::Io("reset".to_string()))))
        .unwrap_err();
    assert!(matches!(err, MemBackendError::Io(m) if m == "reset"));
}

#[test]
fn a_line_that_is_no_reply_is_quoted() {
    let conn = connection();
    let err = conn.snapshot_reply(&b"{\"x\":\"\xc3\xa9\"}".to_vec(), None).unwrap_err();
    assert!(matches!(err, MemBackendError::Protocol(m) if m == "{\"x\":\"é\"}"));
    let err = conn.snapshot_reply(&b"a\xffb".to_vec(), None).unwrap_err();
    assert!(matches!(err, MemBackendError::Protocol(m) if m == "a\u{fffd}b"));
}

#[test]
fn snapshot_requests_hold_what_they_are_made_of() {
    let conn = connection();
    let range = MemRange {
        offset: 4096,
        len: 8192,
    };
    assert_eq!(
        conn.snapshot_request(SnapshotType::Diff, vec![], vec![range]),
        MemBackendNotification::SnapshotRequest {
            snapshot_type: SnapshotType::Diff,
            regions: vec![],
            ranges: vec![range],
        }
    );
}

#[test]
fn error_texts() {
    let s = |text: &str| text.to_string();
    let texts = [
        (
            MemBackendError::Connect(s("x")),
            "Cannot connect to the memory backend socket: x",
        ),
        (
            MemBackendError::Handshake(s("x")),
            "Cannot send the handshake to the memory backend: x",
        ),
        (
            MemBackendError::Io(s("x")),
            "I/O error on the memory backend connection: x",
        ),
        (
            MemBackendError::Serialize(s("x")),
            "Cannot serialize a message for the memory backend: x",
        ),
        (
            MemBackendError::Disconnected,
            "The memory backend closed the connection",
        ),
        (
            MemBackendError::Protocol(s("x")),
            "Unexpected message from the memory backend: x",
        ),
        (
            MemBackendError::SnapshotFailed(s("x")),
            "The memory backend failed to take the snapshot: x",
        ),
        (
            MemBackendError::NotConnected,
            "No memory backend is connected",
        ),
    ];
    for (error, text) in texts {
        assert_eq!(error.text(), text);
    }
    let texts = [
        (MemBackendSnapshotError::NotKvm, "Snapshots require KVM"),
        (
            MemBackendSnapshotError::DirtyBitmap(s("x")),
            "Cannot get dirty bitmap: x",
        ),
        (
            MemBackendSnapshotError::Memory(s("x")),
            "Cannot compute the dirty ranges: x",
        ),
        (
            MemBackendSnapshotError::Backend(MemBackendError::NotConnected),
            "Memory backend error: No memory backend is connected",
        ),
    ];
    for (error, text) in texts {
        assert_eq!(error.text(), text);
    }
}
