use runc_sandboxer::transfer::{CountedRead, CountedWrite, Progress, ReadEvent, WriteEvent};

#[test]
fn fragmented_read_yields_exact_count() {
    let mut r = CountedRead::new(6);
    assert_eq!(r.remaining(), 6);
    assert_eq!(r.feed(ReadEvent::Data(vec![1, 2])), Progress::Pending);
    assert_eq!(r.feed(ReadEvent::Interrupted), Progress::Pending);
    assert_eq!(r.remaining(), 4);
    assert_eq!(r.feed(ReadEvent::Data(vec![3])), Progress::Pending);
    assert!(!r.is_complete());
    assert_eq!(r.feed(ReadEvent::Data(vec![4, 5, 6])), Progress::Complete);
    assert!(r.is_complete());
    assert_eq!(r.into_bytes(), vec![1, 2, 3, 4, 5, 6]);
}

#[test]
fn read_from_closed_peer_reports_closure() {
    let mut r = CountedRead::new(4);
    assert_eq!(r.feed(ReadEvent::Data(vec![9])), Progress::Pending);
    assert_eq!(r.feed(ReadEvent::Data(Vec::new())), Progress::Closed);
    assert_eq!(r.remaining(), 3);
    assert_eq!(r.into_bytes(), vec![9]);
}

#[test]
fn read_failure_is_reported() {
    let mut r = CountedRead::new(4);
    assert_eq!(r.feed(ReadEvent::Failed(9)), Progress::Failed(9));
    assert_eq!(r.remaining(), 4);
}

#[test]
fn read_of_nothing_is_complete_at_once() {
    let mut r = CountedRead::new(0);
    assert!(r.is_complete());
    assert_eq!(r.feed(ReadEvent::Data(Vec::new())), Progress::Complete);
}

#[test]
fn fragmented_write_sends_everything() {
    let mut w = CountedWrite::new(vec![1, 2, 3, 4, 5]);
    assert_eq!(w.pending(), &[1, 2, 3, 4, 5]);
    assert_eq!(w.feed(WriteEvent::Wrote(2)), Progress::Pending);
    assert_eq!(w.pending(), &[3, 4, 5]);
    assert_eq!(w.feed(WriteEvent::Interrupted), Progress::Pending);
    assert_eq!(w.pending(), &[3, 4, 5]);
    assert_eq!(w.feed(WriteEvent::Wrote(3)), Progress::Complete);
    assert!(w.is_complete());
    assert!(w.pending().is_empty());
}

#[test]
fn write_failure_is_reported() {
    let mut w = CountedWrite::new(vec![1]);
    assert_eq!(w.feed(WriteEvent::Failed(32)), Progress::Failed(32));
    assert!(!w.is_complete());
    assert_eq!(w.pending(), &[1]);
}
