use std::cell::RefCell;
use std::rc::Rc;

use timely_progress::event::{Event, EventIterator, EventLink, EventPusher, EventReader, EventWriter};

#[test]
fn avoid_stack_overflow_in_drop() {
    let limit = 1_000_000;
    let event1 = Rc::new(RefCell::new(EventLink::<(), ()>::new()));
    let _event2 = Rc::clone(&event1);
    for _ in 0..limit {
        event1.borrow_mut().push(Event::Progress(vec![]));
    }
}

#[test]
fn link_reads_back_in_order() {
    let mut link: EventLink<u64, Vec<u8>> = EventLink::default();
    assert!(link.reader().next().is_none());
    link.push(Event::Progress(vec![(0, 1)]));
    link.push(Event::Messages(3, vec![7, 8]));
    link.push(Event::Progress(vec![(0, -1), (4, 1)]));
    let mut reader = link.reader();
    match reader.next() {
        Some(Event::Progress(p)) => assert_eq!(p, &vec![(0, 1)]),
        other => panic!("unexpected {:?}", other),
    }
    match reader.next() {
        Some(Event::Messages(t, d)) => {
            assert_eq!(*t, 3);
            assert_eq!(d, &vec![7, 8]);
        }
        other => panic!("unexpected {:?}", other),
    }
    match reader.next() {
        Some(Event::Progress(p)) => assert_eq!(p, &vec![(0, -1), (4, 1)]),
        other => panic!("unexpected {:?}", other),
    }
    assert!(reader.next().is_none());
    assert_eq!(reader.position(), 3);
}

#[test]
fn link_serves_every_reader_from_the_start() {
    let mut link: EventLink<u64, Vec<u8>> = EventLink::new();
    link.push(Event::Messages(1, vec![1]));
    link.push(Event::Messages(2, vec![2]));
    let mut first = link.reader();
    let mut second = link.reader();
    assert!(matches!(first.next(), Some(Event::Messages(1, _))));
    assert!(matches!(first.next(), Some(Event::Messages(2, _))));
    assert!(first.next().is_none());
    assert!(matches!(second.next(), Some(Event::Messages(1, _))));
    let resumed = second.position();
    link.push(Event::Messages(3, vec![3]));
    let mut later = link.reader_at(resumed);
    assert!(matches!(later.next(), Some(Event::Messages(2, _))));
    assert!(matches!(later.next(), Some(Event::Messages(3, _))));
    assert!(later.next().is_none());
    assert_eq!(link.len(), 3);
}

#[test]
fn frames_round_trip() {
    let mut writer: EventWriter<u64, Vec<u8>> = EventWriter::new();
    writer.push_frame(&vec![1, 2, 3]);
    writer.push_frame(&vec![]);
    writer.push_frame(&vec![255; 300]);
    let bytes = writer.take_bytes();
    assert_eq!(bytes.len(), 8 + 3 + 8 + 8 + 300);
    assert_eq!(&bytes[0..11], &[3, 0, 0, 0, 0, 0, 0, 0, 1, 2, 3]);
    assert_eq!(&bytes[19..27], &[44, 1, 0, 0, 0, 0, 0, 0]);

    let mut reader: EventReader<u64, Vec<u8>> = EventReader::new();
    reader.feed(&bytes);
    assert_eq!(reader.next_frame(), Some(vec![1, 2, 3]));
    assert_eq!(reader.next_frame(), Some(vec![]));
    assert_eq!(reader.next_frame(), Some(vec![255; 300]));
    assert_eq!(reader.next_frame(), None);
}

#[test]
fn partial_frame_waits_for_the_rest() {
    let mut writer: EventWriter<u64, Vec<u8>> = EventWriter::new();
    writer.push_frame(&vec![5, 6, 7, 8]);
    let bytes = writer.take_bytes();
    let mut reader: EventReader<u64, Vec<u8>> = EventReader::new();
    reader.feed(&bytes[0..5].to_vec());
    assert_eq!(reader.next_frame(), None);
    reader.feed(&bytes[5..10].to_vec());
    assert_eq!(reader.next_frame(), None);
    reader.feed(&bytes[10..].to_vec());
    assert_eq!(reader.next_frame(), Some(vec![5, 6, 7, 8]));
    assert_eq!(reader.next_frame(), None);
}
