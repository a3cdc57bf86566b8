use std::cell::{Cell, RefCell};

use coretech_wirestorm::roster::{broadcast_message, frame_bytes, Destinations};

struct Sink {
    name: u8,
    open: Cell<bool>,
    got: RefCell<Vec<u8>>,
}

fn sink(name: u8) -> std::rc::Rc<Sink> {
    std::rc::Rc::new(Sink { name, open: Cell::new(true), got: RefCell::new(Vec::new()) })
}

fn write_to(sink: &std::rc::Rc<Sink>, bytes: &[u8]) -> bool {
    if sink.open.get() {
        sink.got.borrow_mut().extend_from_slice(bytes);
        true
    } else {
        false
    }
}

const HELLO_HEADER: [u8; 8] = [0xCC, 0x00, 0x00, 0x05, 0x00, 0x00, 0x00, 0x00];
const HELLO_FRAME: [u8; 13] =
    [0xCC, 0x00, 0x00, 0x05, 0x00, 0x00, 0x00, 0x00, 0x48, 0x65, 0x6C, 0x6C, 0x6F];

#[test]
fn new_roster_is_empty() {
    let roster: Destinations<u8> = Destinations::new();
    assert_eq!(roster.len(), 0);
    assert!(roster.is_empty());
}

#[test]
fn add_appends_without_deduplication() {
    let mut roster: Destinations<u8> = Destinations::new();
    roster.add(7);
    roster.add(7);
    roster.add(9);
    assert_eq!(roster.len(), 3);
    assert!(!roster.is_empty());
}

#[test]
fn frame_bytes_is_header_then_payload() {
    assert_eq!(frame_bytes(&HELLO_HEADER, b"Hello"), HELLO_FRAME.to_vec());
    assert_eq!(frame_bytes(&[], &[]), Vec::<u8>::new());
    assert_eq!(frame_bytes(&[1, 2], &[]), vec![1, 2]);
    assert_eq!(frame_bytes(&[], &[3]), vec![3]);
}

#[test]
fn broadcast_to_empty_roster_does_nothing() {
    let mut roster: Destinations<std::rc::Rc<Sink>> = Destinations::new();
    let outcomes = broadcast_message(&HELLO_HEADER, b"Hello", &mut roster, write_to);
    assert!(outcomes.is_empty());
    assert_eq!(roster.len(), 0);
}

#[test]
fn non_sensitive_relay_reaches_every_destination() {
    let a = sink(1);
    let b = sink(2);
    let c = sink(3);
    let mut roster = Destinations::new();
    roster.add(a.clone());
    roster.add(b.clone());
    roster.add(c.clone());
    let outcomes = broadcast_message(&HELLO_HEADER, b"Hello", &mut roster, write_to);
    assert_eq!(outcomes, vec![true, true, true]);
    assert_eq!(roster.len(), 3);
    assert_eq!(*a.got.borrow(), HELLO_FRAME.to_vec());
    assert_eq!(*b.got.borrow(), HELLO_FRAME.to_vec());
    assert_eq!(*c.got.borrow(), HELLO_FRAME.to_vec());
}

#[test]
fn sensitive_relay_keeps_the_real_checksum() {
    let a = sink(1);
    let mut roster = Destinations::new();
    roster.add(a.clone());
    let header = [0xCC, 0x40, 0x00, 0x04, 0xC9, 0x50, 0x00, 0x00];
    let payload = [0xDE, 0xAD, 0xBE, 0xEF];
    let outcomes = broadcast_message(&header, &payload, &mut roster, write_to);
    assert_eq!(outcomes, vec![true]);
    assert_eq!(
        *a.got.borrow(),
        vec![0xCC, 0x40, 0x00, 0x04, 0xC9, 0x50, 0x00, 0x00, 0xDE, 0xAD, 0xBE, 0xEF]
    );
}

#[test]
fn destination_that_fails_is_evicted_and_the_other_goes_on() {
    let a = sink(1);
    let b = sink(2);
    let mut roster = Destinations::new();
    roster.add(a.clone());
    roster.add(b.clone());
    let first = broadcast_message(&HELLO_HEADER, b"Hello", &mut roster, write_to);
    assert_eq!(first, vec![true, true]);

    a.open.set(false);
    let second = broadcast_message(&HELLO_HEADER, b"World", &mut roster, write_to);
    assert_eq!(second, vec![false, true]);
    assert_eq!(roster.len(), 1);
    assert_eq!(std::rc::Rc::strong_count(&a), 1);
    assert_eq!(std::rc::Rc::strong_count(&b), 2);

    let third = broadcast_message(&HELLO_HEADER, b"Again", &mut roster, write_to);
    assert_eq!(third, vec![true]);
    assert_eq!(roster.len(), 1);

    assert_eq!(*a.got.borrow(), HELLO_FRAME.to_vec());
    let mut expected = HELLO_FRAME.to_vec();
    expected.extend_from_slice(&HELLO_HEADER);
    expected.extend_from_slice(b"World");
    expected.extend_from_slice(&HELLO_HEADER);
    expected.extend_from_slice(b"Again");
    assert_eq!(*b.got.borrow(), expected);
}

#[test]
fn evicted_sink_is_dropped_before_the_next_is_tried() {
    let a = sink(1);
    let b = sink(2);
    a.open.set(false);
    let mut roster = Destinations::new();
    roster.add(a.clone());
    roster.add(b.clone());
    let seen = Cell::new(0usize);
    let outcomes = broadcast_message(
        &HELLO_HEADER,
        b"Hello",
        &mut roster,
        |s: &std::rc::Rc<Sink>, bytes: &[u8]| {
            if s.name == 2 {
                seen.set(std::rc::Rc::strong_count(&a));
            }
            write_to(s, bytes)
        },
    );
    assert_eq!(outcomes, vec![false, true]);
    assert_eq!(seen.get(), 1);
}

#[test]
fn eviction_keeps_the_order_of_the_rest() {
    let mut roster: Destinations<u8> = Destinations::new();
    for name in 0..6u8 {
        roster.add(name);
    }
    let order = RefCell::new(Vec::new());
    let outcomes = broadcast_message(&HELLO_HEADER, b"Hello", &mut roster, |s: &u8, _: &[u8]| {
        order.borrow_mut().push(*s);
        *s % 2 == 1
    });
    assert_eq!(outcomes, vec![false, true, false, true, false, true]);
    assert_eq!(*order.borrow(), vec![0, 1, 2, 3, 4, 5]);
    assert_eq!(roster.len(), 3);

    order.borrow_mut().clear();
    let outcomes = broadcast_message(&HELLO_HEADER, b"Hello", &mut roster, |s: &u8, _: &[u8]| {
        order.borrow_mut().push(*s);
        true
    });
    assert_eq!(outcomes, vec![true, true, true]);
    assert_eq!(*order.borrow(), vec![1, 3, 5]);
}

#[test]
fn every_sink_may_fail() {
    let mut roster: Destinations<u8> = Destinations::new();
    roster.add(1);
    roster.add(2);
    let outcomes = broadcast_message(&HELLO_HEADER, b"Hello", &mut roster, |_: &u8, _: &[u8]| false);
    assert_eq!(outcomes, vec![false, false]);
    assert!(roster.is_empty());
}

#[test]
fn each_attempt_gets_the_whole_frame() {
    let mut roster: Destinations<u8> = Destinations::new();
    roster.add(1);
    roster.add(2);
    let lengths = RefCell::new(Vec::new());
    let _ = broadcast_message(&HELLO_HEADER, b"Hello", &mut roster, |_: &u8, bytes: &[u8]| {
        lengths.borrow_mut().push(bytes.to_vec());
        true
    });
    assert_eq!(*lengths.borrow(), vec![HELLO_FRAME.to_vec(), HELLO_FRAME.to_vec()]);
}
