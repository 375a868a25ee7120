use mem_backend::connection::MemBackendConnection;
use mem_backend::exchange::{Effect, Metrics, Phase};
use mem_backend::protocol::{
    MemBackendError, MemBackendErrorKind, MemBackendNotification, MemBackendRegion,
    MemBackendReply, MemBackendRequest, MemBackendResponse, MemBackendSnapshotError, MemRange,
};
use mem_backend::snapshot::SnapshotType;
use mem_backend::vmm::{Action, Ask, Event, Vmm};

/// A dirty bitmap of the hypervisor: the pages in it.
type Bitmap = Vec<u64>;

fn connected() -> Vmm<Bitmap> {
    Vmm::new(true, Some(MemBackendConnection::connect(Vec::new()).0))
}

fn step(vmm: &mut Vmm<Bitmap>, event: Event<Bitmap>) -> Action<Bitmap> {
    assert!(vmm.expects(&event));
    vmm.step(event)
}

fn ranges() -> Vec<MemRange> {
    vec![MemRange {
        offset: 4096,
        len: 8192,
    }]
}

fn regions() -> Vec<MemBackendRegion> {
    vec![MemBackendRegion {
        guest_addr: 0,
        size: 65536,
        file_offset: 0,
        host_virt_addr: 140000000000000,
        region_type: "Dram".to_string(),
        slot_size: 65536,
        plugged: vec![true],
    }]
}

fn stored(effects: &[Effect<Bitmap>]) -> Option<&Bitmap> {
    match effects {
        [Effect::StoreDirtyBitmap(bitmap)] => Some(bitmap),
        _ => None,
    }
}

fn done(success: bool, message: &str) -> Event<Bitmap> {
    Event::Reply(Some(MemBackendReply::SnapshotDone {
        success,
        message: message.to_string(),
    }))
}

/// Drives a snapshot up to the point where its request is to be sent.
fn request(vmm: &mut Vmm<Bitmap>, snapshot_type: SnapshotType) -> MemBackendNotification {
    let action = vmm.snapshot_memory_to_backend(snapshot_type);
    let action = match snapshot_type {
        SnapshotType::Diff => {
            assert!(matches!(
                action.effects[..],
                [
                    Effect::PrepareDirtyTrackingReset,
                    Effect::MarkVirtioQueueMemoryDirty
                ]
            ));
            assert!(matches!(action.ask, Ask::GetDirtyBitmap));
            let action = step(vmm, Event::DirtyBitmap(Ok(vec![1, 2])));
            assert!(matches!(action.ask, Ask::DirtyRanges));
            assert_eq!(vmm.dirty_bitmap(), Some(&vec![1, 2]));
            step(vmm, Event::Ranges(Ok(ranges())))
        }
        SnapshotType::Full => {
            assert!(action.effects.is_empty());
            assert!(matches!(action.ask, Ask::PluggedRanges));
            step(vmm, Event::Plugged(ranges()))
        }
    };
    assert!(action.effects.is_empty());
    assert!(matches!(action.ask, Ask::DescribeForBackend));
    let action = step(vmm, Event::Regions(regions()));
    match action.ask {
        Ask::Notify(notification) => notification,
        _ => panic!("no notification"),
    }
}

/// Drives a snapshot up to the point where its reply has been parsed.
fn reply(vmm: &mut Vmm<Bitmap>, line: &[u8]) -> Vec<u8> {
    let action = step(vmm, Event::Sent(Ok(())));
    assert!(matches!(action.ask, Ask::Read));
    let (a, b) = line.split_at(line.len() / 2);
    let action = step(vmm, Event::Read(Ok(a.to_vec())));
    assert!(matches!(action.ask, Ask::Read));
    let mut rest = b.to_vec();
    rest.push(b'\n');
    match step(vmm, Event::Read(Ok(rest))).ask {
        Ask::ParseReply(line) => line,
        _ => panic!("no reply"),
    }
}

#[test]
fn snapshot_that_succeeds() {
    for snapshot_type in [SnapshotType::Full, SnapshotType::Diff] {
        let mut vmm = connected();
        assert_eq!(
            request(&mut vmm, snapshot_type),
            MemBackendNotification::SnapshotRequest {
                snapshot_type,
                regions: regions(),
                ranges: ranges(),
            }
        );
        assert_eq!(reply(&mut vmm, b"done"), b"done");
        let action = step(&mut vmm, done(true, ""));
        assert!(matches!(action.effects[..], [Effect::ResetDirtyTracking]));
        assert!(matches!(action.ask, Ask::SnapshotFinished(Ok(()))));
        assert_eq!(vmm.phase(), Phase::Idle);
        assert_eq!(vmm.dirty_bitmap(), None);
        assert_eq!(
            vmm.metrics(),
            Metrics {
                requests: 0,
                request_fails: 0,
                snapshot_requests: 1,
                snapshot_fails: 0,
                disconnects: 0,
            }
        );
    }
}

#[test]
fn snapshot_that_the_backend_fails() {
    for snapshot_type in [SnapshotType::Full, SnapshotType::Diff] {
        let mut vmm = connected();
        request(&mut vmm, snapshot_type);
        reply(&mut vmm, b"no");
        let action = step(&mut vmm, done(false, "disk full"));
        match snapshot_type {
            SnapshotType::Diff => assert_eq!(stored(&action.effects), Some(&vec![1, 2])),
            SnapshotType::Full => assert!(action.effects.is_empty()),
        }
        assert!(matches!(
            action.ask,
            Ask::SnapshotFinished(Err(MemBackendSnapshotError::Backend(
                MemBackendError::SnapshotFailed(m)
            ))) if m == "disk full"
        ));
        assert!(vmm.mem_backend().is_some());
        assert_eq!(vmm.metrics().snapshot_fails, 1);
    }
}

#[test]
fn snapshot_answered_with_something_else() {
    let mut vmm = connected();
    request(&mut vmm, SnapshotType::Diff);
    assert_eq!(reply(&mut vmm, b"nonsense"), b"nonsense");
    let action = step(&mut vmm, Event::Reply(None));
    assert_eq!(stored(&action.effects), Some(&vec![1, 2]));
    assert!(matches!(
        action.ask,
        Ask::SnapshotFinished(Err(MemBackendSnapshotError::Backend(
            MemBackendError::Protocol(m)
        ))) if m == "nonsense"
    ));
    assert!(vmm.mem_backend().is_some());
}

#[test]
fn snapshot_during_which_the_backend_goes_away() {
    let mut vmm = connected();
    request(&mut vmm, SnapshotType::Diff);
    step(&mut vmm, Event::Sent(Ok(())));
    let action = step(&mut vmm, Event::Read(Ok(Vec::new())));
    assert_eq!(stored(&action.effects), Some(&vec![1, 2]));
    assert!(matches!(
        action.ask,
        Ask::SnapshotFinished(Err(MemBackendSnapshotError::Backend(
            MemBackendError::Disconnected
        )))
    ));
    assert!(vmm.mem_backend().is_none());
    assert_eq!(vmm.metrics().disconnects, 1);
    assert_eq!(vmm.metrics().snapshot_fails, 1);

    // Snapshots are no longer possible, and nothing is read any more.
    let action = vmm.snapshot_memory_to_backend(SnapshotType::Full);
    assert!(action.effects.is_empty());
    assert!(matches!(
        action.ask,
        Ask::SnapshotFinished(Err(MemBackendSnapshotError::Backend(
            MemBackendError::NotConnected
        )))
    ));
    assert!(matches!(
        vmm.process_mem_backend_event().ask,
        Ask::EventFinished { connected: false, error: None }
    ));
    assert_eq!(vmm.metrics().disconnects, 1);
    assert_eq!(vmm.metrics().snapshot_fails, 1);
}

#[test]
fn snapshot_request_that_cannot_be_sent() {
    let mut vmm = connected();
    request(&mut vmm, SnapshotType::Diff);
    let action = step(
        &mut vmm,
        Event::Sent(Err(MemBackendError::Io("broken pipe".to_string()))),
    );
    assert_eq!(stored(&action.effects), Some(&vec![1, 2]));
    assert!(matches!(
        action.ask,
        Ask::SnapshotFinished(Err(MemBackendSnapshotError::Backend(MemBackendError::Io(m))))
            if m == "broken pipe"
    ));
    assert!(vmm.mem_backend().is_some());
}

#[test]
fn reply_that_is_too_long() {
    let mut vmm = connected();
    request(&mut vmm, SnapshotType::Full);
    step(&mut vmm, Event::Sent(Ok(())));
    let mut action = step(&mut vmm, Event::Read(Ok(vec![b'a'; 4096])));
    for _ in 1..16 {
        assert!(matches!(action.ask, Ask::Read));
        action = step(&mut vmm, Event::Read(Ok(vec![b'a'; 4096])));
    }
    assert!(matches!(action.ask, Ask::Read));
    let action = step(&mut vmm, Event::Read(Ok(vec![b'a'])));
    assert!(matches!(
        action.ask,
        Ask::SnapshotFinished(Err(MemBackendSnapshotError::Backend(
            MemBackendError::Protocol(m)
        ))) if m == "message from memory backend too long"
    ));
}

#[test]
fn snapshots_require_kvm() {
    for snapshot_type in [SnapshotType::Full, SnapshotType::Diff] {
        let mut vmm: Vmm<Bitmap> =
            Vmm::new(false, Some(MemBackendConnection::connect(Vec::new()).0));
        let action = vmm.snapshot_memory_to_backend(snapshot_type);
        assert!(action.effects.is_empty());
        assert!(matches!(
            action.ask,
            Ask::SnapshotFinished(Err(MemBackendSnapshotError::NotKvm))
        ));
        assert_eq!(vmm.metrics().snapshot_requests, 0);
        assert_eq!(vmm.metrics().snapshot_fails, 0);
    }
    // Without a connection that is what is missing first.
    let mut vmm: Vmm<Bitmap> = Vmm::new(false, None);
    assert!(matches!(
        vmm.snapshot_memory_to_backend(SnapshotType::Diff).ask,
        Ask::SnapshotFinished(Err(MemBackendSnapshotError::Backend(
            MemBackendError::NotConnected
        )))
    ));
}

#[test]
fn snapshot_without_dirty_bitmap_or_ranges() {
    let mut vmm = connected();
    vmm.snapshot_memory_to_backend(SnapshotType::Diff);
    let action = step(&mut vmm, Event::DirtyBitmap(Err("no log".to_string())));
    assert!(action.effects.is_empty());
    assert!(matches!(
        action.ask,
        Ask::SnapshotFinished(Err(MemBackendSnapshotError::DirtyBitmap(m))) if m == "no log"
    ));

    vmm.snapshot_memory_to_backend(SnapshotType::Diff);
    step(&mut vmm, Event::DirtyBitmap(Ok(vec![3])));
    let action = step(&mut vmm, Event::Ranges(Err("bad slot".to_string())));
    assert_eq!(stored(&action.effects), Some(&vec![3]));
    assert!(matches!(
        action.ask,
        Ask::SnapshotFinished(Err(MemBackendSnapshotError::Memory(m))) if m == "bad slot"
    ));
    assert_eq!(vmm.metrics().snapshot_requests, 0);
    assert_eq!(vmm.phase(), Phase::Idle);
}

/// Has `bytes` read, up to the first request in them.
fn readable(vmm: &mut Vmm<Bitmap>, bytes: &[u8]) -> Ask {
    let action = vmm.process_mem_backend_event();
    assert!(action.effects.is_empty());
    assert!(matches!(action.ask, Ask::Read));
    let action = step(vmm, Event::Read(Ok(bytes.to_vec())));
    assert!(action.effects.is_empty());
    action.ask
}

fn get_dirty_ranges() -> Event<Bitmap> {
    Event::Request(Ok(MemBackendRequest::GetDirtyRanges {}))
}

#[test]
fn dirty_ranges_are_served_and_consumed() {
    let mut vmm = connected();
    let ask = readable(&mut vmm, b"get\nget again\nrest");
    assert!(matches!(ask, Ask::ParseRequest(line) if line == b"get"));
    let action = step(&mut vmm, get_dirty_ranges());
    assert!(matches!(
        action.effects[..],
        [
            Effect::PrepareDirtyTrackingReset,
            Effect::MarkVirtioQueueMemoryDirty
        ]
    ));
    assert!(matches!(action.ask, Ask::GetDirtyBitmap));
    let action = step(&mut vmm, Event::DirtyBitmap(Ok(vec![7])));
    assert!(matches!(action.ask, Ask::DirtyRanges));
    let action = step(&mut vmm, Event::Ranges(Ok(ranges())));
    assert!(action.effects.is_empty());
    assert!(matches!(
        action.ask,
        Ask::Respond(MemBackendResponse::DirtyRanges { ranges: r }) if r == ranges()
    ));

    // Once the response is out dirty tracking is reset, and the next request is served.
    let action = step(&mut vmm, Event::Sent(Ok(())));
    assert!(matches!(action.effects[..], [Effect::ResetDirtyTracking]));
    assert!(matches!(action.ask, Ask::ParseRequest(line) if line == b"get again"));
    step(&mut vmm, get_dirty_ranges());
    step(&mut vmm, Event::DirtyBitmap(Ok(vec![])));
    step(&mut vmm, Event::Ranges(Ok(vec![])));
    let action = step(&mut vmm, Event::Sent(Ok(())));
    assert!(matches!(action.effects[..], [Effect::ResetDirtyTracking]));
    assert!(matches!(action.ask, Ask::EventFinished { connected: true, error: None }));

    // What was unfinished is completed by a later read.
    let ask = readable(&mut vmm, b" of it\n");
    assert!(matches!(ask, Ask::ParseRequest(line) if line == b"rest of it"));
    assert_eq!(vmm.metrics().requests, 2);
    assert_eq!(vmm.metrics().request_fails, 0);
}

#[test]
fn dirty_ranges_that_cannot_be_sent_are_kept() {
    let mut vmm = connected();
    readable(&mut vmm, b"get\nget\n");
    step(&mut vmm, get_dirty_ranges());
    step(&mut vmm, Event::DirtyBitmap(Ok(vec![7])));
    step(&mut vmm, Event::Ranges(Ok(ranges())));
    let action = step(
        &mut vmm,
        Event::Sent(Err(MemBackendError::Io("broken pipe".to_string()))),
    );
    assert_eq!(stored(&action.effects), Some(&vec![7]));
    assert!(matches!(
        action.ask,
        Ask::EventFinished { connected: false, error: Some(MemBackendError::Io(m)) }
            if m == "broken pipe"
    ));
    assert!(vmm.mem_backend().is_none());
    assert_eq!(vmm.metrics().disconnects, 1);
}

#[test]
fn requests_that_cannot_be_served() {
    let mut vmm = connected();
    readable(&mut vmm, b"what\nget\nget\n");
    let action = step(&mut vmm, Event::Request(Err("expected value".to_string())));
    assert!(action.effects.is_empty());
    assert!(matches!(
        action.ask,
        Ask::Respond(MemBackendResponse::Error {
            kind: MemBackendErrorKind::UnknownRequest,
            message,
        }) if message == "expected value"
    ));
    let action = step(&mut vmm, Event::Sent(Ok(())));
    assert!(action.effects.is_empty());

    step(&mut vmm, get_dirty_ranges());
    let action = step(&mut vmm, Event::DirtyBitmap(Err("no log".to_string())));
    assert!(action.effects.is_empty());
    assert!(matches!(
        action.ask,
        Ask::Respond(MemBackendResponse::Error {
            kind: MemBackendErrorKind::Internal,
            message,
        }) if message == "Cannot get dirty bitmap: no log"
    ));
    let action = step(&mut vmm, Event::Sent(Ok(())));
    assert!(action.effects.is_empty());

    step(&mut vmm, get_dirty_ranges());
    step(&mut vmm, Event::DirtyBitmap(Ok(vec![9])));
    let action = step(&mut vmm, Event::Ranges(Err("bad slot".to_string())));
    assert_eq!(stored(&action.effects), Some(&vec![9]));
    assert!(matches!(
        action.ask,
        Ask::Respond(MemBackendResponse::Error {
            kind: MemBackendErrorKind::Internal,
            message,
        }) if message == "Cannot compute the dirty ranges: bad slot"
    ));
    let action = step(&mut vmm, Event::Sent(Ok(())));
    assert!(action.effects.is_empty());
    assert!(matches!(action.ask, Ask::EventFinished { connected: true, error: None }));
    assert_eq!(vmm.metrics().requests, 3);
    assert_eq!(vmm.metrics().request_fails, 3);
}

#[test]
fn requests_without_kvm() {
    let mut vmm: Vmm<Bitmap> = Vmm::new(false, Some(MemBackendConnection::connect(Vec::new()).0));
    readable(&mut vmm, b"get\n");
    let action = step(&mut vmm, get_dirty_ranges());
    assert!(action.effects.is_empty());
    assert!(matches!(
        action.ask,
        Ask::Respond(MemBackendResponse::Error {
            kind: MemBackendErrorKind::Internal,
            message,
        }) if message == "Snapshots require KVM"
    ));
}

#[test]
fn backend_that_goes_away() {
    for (read, text) in [
        (Ok(Vec::new()), None),
        (
            Err(MemBackendError::Io("reset".to_string())),
            Some("I/O error on the memory backend connection: reset"),
        ),
        (
            Ok(vec![b'a'; 65537]),
            Some(
                "Unexpected message from the memory backend: message from memory backend too long",
            ),
        ),
    ] {
        let mut vmm = connected();
        vmm.process_mem_backend_event();
        let action = step(&mut vmm, Event::Read(read));
        assert!(action.effects.is_empty());
        match action.ask {
            Ask::EventFinished { connected, error } => {
                assert!(!connected);
                assert_eq!(error.map(|error| error.text()).as_deref(), text);
            }
            _ => panic!("the event goes on"),
        }
        assert!(vmm.mem_backend().is_none());
        assert_eq!(vmm.metrics().disconnects, 1);
        assert_eq!(vmm.phase(), Phase::Idle);
    }
}

#[test]
fn reply_is_taken_from_what_was_received_before() {
    let mut vmm = connected();
    request(&mut vmm, SnapshotType::Full);
    step(&mut vmm, Event::Sent(Ok(())));
    let action = step(&mut vmm, Event::Read(Ok(b"reply\nlater\n".to_vec())));
    assert!(matches!(action.ask, Ask::ParseReply(line) if line == b"reply"));
    step(&mut vmm, done(true, ""));
    request(&mut vmm, SnapshotType::Full);
    let action = step(&mut vmm, Event::Sent(Ok(())));
    assert!(matches!(action.ask, Ask::ParseReply(line) if line == b"later"));
    assert_eq!(vmm.metrics().snapshot_requests, 2);
}

#[test]
fn only_what_was_asked_for_is_expected() {
    let mut vmm = connected();
    let events = || -> Vec<Event<Bitmap>> {
        vec![
            Event::DirtyBitmap(Ok(vec![])),
            Event::Ranges(Ok(vec![])),
            Event::Plugged(vec![]),
            Event::Regions(vec![]),
            Event::Sent(Ok(())),
            Event::Read(Ok(vec![])),
            Event::Reply(None),
            Event::Request(Err(String::new())),
        ]
    };
    assert!(events().iter().all(|e| !vmm.expects(e)));
    vmm.process_mem_backend_event();
    let expected: Vec<bool> = events().iter().map(|e| vmm.expects(e)).collect();
    assert_eq!(
        expected,
        [false, false, false, false, false, true, false, false]
    );
}

#[test]
fn later_messages_that_are_too_long() {
    let mut long = vec![b'a'; 65537];
    long.push(b'\n');

    // A reply that was received together with an earlier one.
    let mut vmm = connected();
    request(&mut vmm, SnapshotType::Diff);
    step(&mut vmm, Event::Sent(Ok(())));
    let mut bytes = b"reply\n".to_vec();
    bytes.extend(&long);
    let action = step(&mut vmm, Event::Read(Ok(bytes)));
    assert!(matches!(action.ask, Ask::ParseReply(line) if line == b"reply"));
    step(&mut vmm, done(true, ""));
    request(&mut vmm, SnapshotType::Diff);
    let action = step(&mut vmm, Event::Sent(Ok(())));
    assert_eq!(stored(&action.effects), Some(&vec![1, 2]));
    assert!(matches!(
        action.ask,
        Ask::SnapshotFinished(Err(MemBackendSnapshotError::Backend(
            MemBackendError::Protocol(m)
        ))) if m == "message from memory backend too long"
    ));

    // A request that was received together with an earlier one: that one is answered, then the
    // connection is given up.
    let mut vmm = connected();
    let mut bytes = b"get\n".to_vec();
    bytes.extend(&long);
    let ask = readable(&mut vmm, &bytes);
    assert!(matches!(ask, Ask::ParseRequest(line) if line == b"get"));
    step(&mut vmm, get_dirty_ranges());
    step(&mut vmm, Event::DirtyBitmap(Ok(vec![7])));
    step(&mut vmm, Event::Ranges(Ok(ranges())));
    let action = step(&mut vmm, Event::Sent(Ok(())));
    assert!(matches!(action.effects[..], [Effect::ResetDirtyTracking]));
    assert!(matches!(
        action.ask,
        Ask::EventFinished { connected: false, error: Some(MemBackendError::Protocol(m)) }
            if m == "message from memory backend too long"
    ));
    assert!(vmm.mem_backend().is_none());
    assert_eq!(vmm.metrics().disconnects, 1);
}

/// Carries out effects on the pages that a microVM knows to be dirty.
fn perform(own: &mut Vec<u64>, action: &Action<Bitmap>) {
    for effect in &action.effects {
        match effect {
            Effect::PrepareDirtyTrackingReset => {}
            Effect::MarkVirtioQueueMemoryDirty => own.push(100),
            Effect::ResetDirtyTracking => own.clear(),
            Effect::StoreDirtyBitmap(bitmap) => own.extend(bitmap),
        }
    }
}

#[test]
fn requests_consume_what_they_report_and_keep_what_they_do_not() {
    let mut vmm = connected();
    let mut own = vec![5];
    readable(&mut vmm, b"get\nget\nget\n");

    // The first request fails after the bitmap was taken: nothing is lost.
    perform(&mut own, &step(&mut vmm, get_dirty_ranges()));
    perform(&mut own, &step(&mut vmm, Event::DirtyBitmap(Ok(vec![1, 2]))));
    perform(&mut own, &step(&mut vmm, Event::Ranges(Err("no".to_string()))));
    assert_eq!(own, [5, 100, 1, 2]);
    perform(&mut own, &step(&mut vmm, Event::Sent(Ok(()))));

    // The second reports all of it, and consumes it.
    perform(&mut own, &step(&mut vmm, get_dirty_ranges()));
    perform(&mut own, &step(&mut vmm, Event::DirtyBitmap(Ok(vec![]))));
    for page in [1, 2, 5] {
        assert!(own.contains(&page));
    }
    perform(&mut own, &step(&mut vmm, Event::Ranges(Ok(ranges()))));
    perform(&mut own, &step(&mut vmm, Event::Sent(Ok(()))));
    assert!(own.is_empty());

    // The third reports only the queues, which are marked anew.
    perform(&mut own, &step(&mut vmm, get_dirty_ranges()));
    perform(&mut own, &step(&mut vmm, Event::DirtyBitmap(Ok(vec![]))));
    assert_eq!(own, [100]);
}

#[test]
fn a_request_that_was_read_may_be_served_directly() {
    let mut vmm = connected();
    readable(&mut vmm, b"get\n");
    assert_eq!(vmm.phase(), Phase::ParsingRequest);
    let action = vmm.serve_get_dirty_ranges();
    assert!(matches!(action.ask, Ask::GetDirtyBitmap));
    step(&mut vmm, Event::DirtyBitmap(Ok(vec![7])));
    step(&mut vmm, Event::Ranges(Ok(ranges())));
    let action = step(&mut vmm, Event::Sent(Ok(())));
    assert!(matches!(action.effects[..], [Effect::ResetDirtyTracking]));
    assert!(matches!(
        action.ask,
        Ask::EventFinished { connected: true, error: None }
    ));
}
