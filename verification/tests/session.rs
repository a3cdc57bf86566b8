use coretech_wirestorm::admission::{AdmissionError, AdmissionSlot};
use coretech_wirestorm::frame::HeaderError;
use coretech_wirestorm::roster::{broadcast_message, Destinations};
use coretech_wirestorm::session::{handle_transmitter, SourceSession, Step, Termination};

const HELLO_HEADER: [u8; 8] = [0xCC, 0x00, 0x00, 0x05, 0x00, 0x00, 0x00, 0x00];

fn admitted() -> AdmissionSlot<u32> {
    let mut slot = AdmissionSlot::new();
    assert_eq!(slot.try_admit(1), Ok(()));
    slot
}

fn forwarded(step: Step) -> Option<(Vec<u8>, Vec<u8>)> {
    match step {
        Step::Forward { header, payload } => Some((header, payload)),
        _ => None,
    }
}

#[test]
fn new_session_asks_for_a_header() {
    let session = SourceSession::new();
    assert_eq!(session.wanted(), 8);
    assert!(!session.is_closed());
}

#[test]
fn non_sensitive_frame_is_forwarded() {
    let mut slot = admitted();
    let mut session = SourceSession::new();
    let step = handle_transmitter(&mut session, Some(HELLO_HEADER.to_vec()), &mut slot);
    assert!(matches!(step, Step::NeedPayload(5)));
    assert_eq!(session.wanted(), 5);
    let step = handle_transmitter(&mut session, Some(b"Hello".to_vec()), &mut slot);
    assert_eq!(forwarded(step), Some((HELLO_HEADER.to_vec(), b"Hello".to_vec())));
    assert_eq!(session.wanted(), 8);
    assert!(!session.is_closed());
    assert!(slot.is_occupied());
}

#[test]
fn sensitive_frame_with_its_checksum_is_forwarded() {
    let mut slot = admitted();
    let mut session = SourceSession::new();
    let header = vec![0xCC, 0x40, 0x00, 0x04, 0xC9, 0x50, 0x00, 0x00];
    let payload = vec![0xDE, 0xAD, 0xBE, 0xEF];
    let step = handle_transmitter(&mut session, Some(header.clone()), &mut slot);
    assert!(matches!(step, Step::NeedPayload(4)));
    let step = handle_transmitter(&mut session, Some(payload.clone()), &mut slot);
    assert_eq!(forwarded(step), Some((header, payload)));
}

#[test]
fn sensitive_frame_with_wrong_checksum_is_dropped_and_session_goes_on() {
    let mut slot = admitted();
    let mut session = SourceSession::new();
    let header = vec![0xCC, 0x40, 0x00, 0x04, 0xC9, 0x51, 0x00, 0x00];
    let step = handle_transmitter(&mut session, Some(header), &mut slot);
    assert!(matches!(step, Step::NeedPayload(4)));
    let step = handle_transmitter(&mut session, Some(vec![0xDE, 0xAD, 0xBE, 0xEF]), &mut slot);
    assert!(matches!(step, Step::Dropped));
    assert!(!session.is_closed());
    assert!(slot.is_occupied());
    assert_eq!(session.wanted(), 8);

    let step = handle_transmitter(&mut session, Some(HELLO_HEADER.to_vec()), &mut slot);
    assert!(matches!(step, Step::NeedPayload(5)));
    let step = handle_transmitter(&mut session, Some(b"Hello".to_vec()), &mut slot);
    assert_eq!(forwarded(step), Some((HELLO_HEADER.to_vec(), b"Hello".to_vec())));
}

#[test]
fn bad_magic_closes_the_session_and_frees_the_slot() {
    let mut slot = admitted();
    let mut session = SourceSession::new();
    let header = vec![0xAB, 0x00, 0x00, 0x05, 0x00, 0x00, 0x00, 0x00];
    let step = handle_transmitter(&mut session, Some(header), &mut slot);
    assert!(matches!(step, Step::Closed(Termination::InvalidHeader(HeaderError::InvalidMagic))));
    assert!(session.is_closed());
    assert_eq!(session.wanted(), 0);
    assert!(!slot.is_occupied());
    assert_eq!(slot.try_admit(2), Ok(()));
}

#[test]
fn bad_padding_and_bad_length_close_the_session() {
    let mut slot = admitted();
    let mut session = SourceSession::new();
    let header = vec![0xCC, 0x00, 0x00, 0x05, 0x00, 0x00, 0x00, 0x01];
    let step = handle_transmitter(&mut session, Some(header), &mut slot);
    assert!(matches!(step, Step::Closed(Termination::InvalidHeader(HeaderError::InvalidPadding))));
    assert!(!slot.is_occupied());

    let mut slot = admitted();
    let mut session = SourceSession::new();
    let header = vec![0xCC, 0x00, 0x00, 0x00, 0x00, 0x00, 0x00, 0x00];
    let step = handle_transmitter(&mut session, Some(header), &mut slot);
    assert!(matches!(step, Step::Closed(Termination::InvalidHeader(HeaderError::InvalidLength))));
    assert!(!slot.is_occupied());
}

#[test]
fn short_header_read_closes_the_session() {
    let mut slot = admitted();
    let mut session = SourceSession::new();
    let step = handle_transmitter(&mut session, None, &mut slot);
    assert!(matches!(step, Step::Closed(Termination::ShortRead)));
    assert!(session.is_closed());
    assert!(!slot.is_occupied());
}

#[test]
fn short_payload_read_closes_the_session() {
    let mut slot = admitted();
    let mut session = SourceSession::new();
    let step = handle_transmitter(&mut session, Some(HELLO_HEADER.to_vec()), &mut slot);
    assert!(matches!(step, Step::NeedPayload(5)));
    let step = handle_transmitter(&mut session, None, &mut slot);
    assert!(matches!(step, Step::Closed(Termination::ShortRead)));
    assert!(!slot.is_occupied());
}

#[test]
fn report_of_the_wrong_size_closes_the_session() {
    let mut slot = admitted();
    let mut session = SourceSession::new();
    let step = handle_transmitter(&mut session, Some(vec![0xCC, 0x00, 0x00]), &mut slot);
    assert!(matches!(step, Step::Closed(Termination::ShortRead)));

    let mut slot = admitted();
    let mut session = SourceSession::new();
    let _ = handle_transmitter(&mut session, Some(HELLO_HEADER.to_vec()), &mut slot);
    let step = handle_transmitter(&mut session, Some(b"Hello!".to_vec()), &mut slot);
    assert!(matches!(step, Step::Closed(Termination::ShortRead)));
    assert!(!slot.is_occupied());
}

#[test]
fn closed_session_stays_closed_and_leaves_the_slot_alone() {
    let mut slot = admitted();
    let mut session = SourceSession::new();
    let _ = handle_transmitter(&mut session, None, &mut slot);
    assert!(!slot.is_occupied());
    assert_eq!(slot.try_admit(2), Ok(()));
    let step = handle_transmitter(&mut session, Some(HELLO_HEADER.to_vec()), &mut slot);
    assert!(matches!(step, Step::Closed(Termination::ShortRead)));
    assert!(session.is_closed());
    assert_eq!(slot.clear(), Some(2));
}

#[test]
fn second_source_is_turned_away_while_the_first_runs() {
    let mut slot = admitted();
    let mut session = SourceSession::new();
    assert_eq!(slot.try_admit(2), Err(AdmissionError::SourceAlreadyActive));
    let step = handle_transmitter(&mut session, Some(HELLO_HEADER.to_vec()), &mut slot);
    assert!(matches!(step, Step::NeedPayload(5)));
    assert_eq!(slot.try_admit(3), Err(AdmissionError::SourceAlreadyActive));
    assert_eq!(slot.clear(), Some(1));
}

#[test]
fn payload_of_the_largest_length_is_asked_for() {
    let mut slot = admitted();
    let mut session = SourceSession::new();
    let header = vec![0xCC, 0x00, 0xFF, 0xFF, 0x00, 0x00, 0x00, 0x00];
    let step = handle_transmitter(&mut session, Some(header.clone()), &mut slot);
    assert!(matches!(step, Step::NeedPayload(65535)));
    assert_eq!(session.wanted(), 65535);
    let payload = vec![0x5A; 65535];
    let step = handle_transmitter(&mut session, Some(payload.clone()), &mut slot);
    assert_eq!(forwarded(step), Some((header, payload)));
}

#[test]
fn relay_drops_the_bad_frame_and_forwards_the_good_one() {
    let mut slot = admitted();
    let mut session = SourceSession::new();
    let mut roster: Destinations<u8> = Destinations::new();
    roster.add(1);
    roster.add(2);
    let log = std::cell::RefCell::new(Vec::new());
    let reads: Vec<Vec<u8>> = vec![
        vec![0xCC, 0x40, 0x00, 0x04, 0xC9, 0x4F, 0x00, 0x00],
        vec![0xDE, 0xAD, 0xBE, 0xEF],
        HELLO_HEADER.to_vec(),
        b"Hello".to_vec(),
    ];
    for bytes in reads {
        assert_eq!(bytes.len(), session.wanted());
        if let Step::Forward { header, payload } =
            handle_transmitter(&mut session, Some(bytes), &mut slot)
        {
            let _ = broadcast_message(&header, &payload, &mut roster, |s: &u8, b: &[u8]| {
                log.borrow_mut().push((*s, b.to_vec()));
                true
            });
        }
    }
    let mut frame = HELLO_HEADER.to_vec();
    frame.extend_from_slice(b"Hello");
    assert_eq!(*log.borrow(), vec![(1, frame.clone()), (2, frame)]);
    assert!(slot.is_occupied());
}

#[test]
fn non_sensitive_frame_is_forwarded_whatever_its_payload() {
    let payloads: Vec<Vec<u8>> = vec![
        vec![0x00],
        vec![0xFF; 3],
        vec![0xCC, 0x40, 0x00, 0x04, 0xC9, 0x51, 0x00, 0x00],
        (0..=255u8).collect(),
    ];
    let mut slot = admitted();
    let mut session = SourceSession::new();
    for payload in payloads {
        let header =
            vec![0xCC, 0x00, (payload.len() >> 8) as u8, (payload.len() & 0xFF) as u8, 0, 0, 0, 0];
        let step = handle_transmitter(&mut session, Some(header.clone()), &mut slot);
        assert!(matches!(step, Step::NeedPayload(n) if n as usize == payload.len()));
        let step = handle_transmitter(&mut session, Some(payload.clone()), &mut slot);
        assert_eq!(forwarded(step), Some((header, payload)));
    }
    assert!(slot.is_occupied());
}

#[test]
fn one_flipped_bit_makes_a_sensitive_frame_drop() {
    let header = vec![0xCC, 0x40, 0x00, 0x04, 0xC9, 0x50, 0x00, 0x00];
    let payload = vec![0xDE, 0xAD, 0xBE, 0xEF];
    for byte in 0..payload.len() {
        for bit in 0..8 {
            let mut slot = admitted();
            let mut session = SourceSession::new();
            let mut changed = payload.clone();
            changed[byte] ^= 1 << bit;
            let _ = handle_transmitter(&mut session, Some(header.clone()), &mut slot);
            let step = handle_transmitter(&mut session, Some(changed), &mut slot);
            assert!(matches!(step, Step::Dropped));
            assert!(!session.is_closed());
        }
    }
}
