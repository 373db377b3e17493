use crosslink::relay::{relay_header, ReceiveBuffer, RelayAction, RELAY_CAPACITY};

#[test]
fn two_phase_assembly() {
    let mut rx = ReceiveBuffer::new();
    assert!(!rx.ready());
    assert_eq!(rx.expected_size(), None);
    assert_eq!(rx.wanted(), 2);

    assert_eq!(rx.accept(&[0x00, 0x05]), RelayAction::LengthAccepted);
    assert_eq!(rx.expected_size(), Some(5));
    assert!(!rx.ready());
    assert_eq!(rx.wanted(), 5);
    // The tick loop finds nothing yet.
    assert_eq!(rx.consume(), None);

    assert_eq!(rx.accept(&[11, 22]), RelayAction::Stored);
    assert_eq!(rx.filled(), 2);
    assert_eq!(rx.wanted(), 3);
    assert_eq!(rx.accept(&[33, 44, 55]), RelayAction::Complete);
    assert!(rx.ready());
    assert_eq!(rx.expected_size(), Some(5));
    assert_eq!(&rx.bytes()[..5], &[11, 22, 33, 44, 55]);
    assert_eq!(rx.wanted(), 0);

    let (storage, len) = rx.consume().unwrap();
    assert_eq!(len, 5);
    assert_eq!(&storage[..len], &[11, 22, 33, 44, 55]);
    assert!(!rx.ready());
    assert_eq!(rx.expected_size(), None);
    assert_eq!(rx.filled(), 0);
    assert_eq!(rx.consume(), None);

    // A second relay with another length.
    assert_eq!(rx.accept(&[0x00, 0x02]), RelayAction::LengthAccepted);
    assert_eq!(rx.accept(&[7, 8]), RelayAction::Complete);
    assert_eq!(rx.expected_size(), Some(2));
    let (storage, len) = rx.consume().unwrap();
    assert_eq!(&storage[..len], &[7, 8]);
}

#[test]
fn malformed_lengths_are_ignored() {
    let mut rx = ReceiveBuffer::new();
    let idle = rx;
    assert_eq!(rx.accept(&[0, 0]), RelayAction::Ignored);
    assert_eq!(rx.accept(&[0x04, 0x01]), RelayAction::Ignored);
    assert_eq!(rx.accept(&[0xff, 0xff]), RelayAction::Ignored);
    assert_eq!(rx.accept(&[5]), RelayAction::Ignored);
    assert_eq!(rx.accept(&[0, 1, 2]), RelayAction::Ignored);
    assert_eq!(rx.accept(&[]), RelayAction::Ignored);
    assert_eq!(rx, idle);
    // The largest length that fits is taken.
    assert_eq!(rx.accept(&[0x04, 0x00]), RelayAction::LengthAccepted);
    assert_eq!(rx.expected_size(), Some(1024));
}

#[test]
fn length_is_read_big_endian() {
    let mut rx = ReceiveBuffer::new();
    assert_eq!(rx.accept(&[0x01, 0x02]), RelayAction::LengthAccepted);
    assert_eq!(rx.expected_size(), Some(258));
}

#[test]
fn surplus_and_late_deliveries_are_ignored() {
    let mut rx = ReceiveBuffer::new();
    rx.accept(&[0, 3]);
    rx.accept(&[1]);
    let partial = rx;
    assert_eq!(rx.accept(&[2, 3, 4]), RelayAction::Ignored);
    assert_eq!(rx.accept(&[]), RelayAction::Ignored);
    assert_eq!(rx, partial);
    assert_eq!(rx.accept(&[2, 3]), RelayAction::Complete);
    let full = rx;
    // Until the tick loop has consumed the payload nothing more is taken.
    assert_eq!(rx.accept(&[0, 1]), RelayAction::Ignored);
    assert_eq!(rx.accept(&[9]), RelayAction::Ignored);
    assert_eq!(rx, full);
}

#[test]
fn a_full_buffer_can_be_relayed() {
    let payload: Vec<u8> = (0..RELAY_CAPACITY).map(|i| (i * 7 % 256) as u8).collect();
    let header = relay_header(payload.len()).unwrap();
    assert_eq!(header, [0x04, 0x00]);
    let mut rx = ReceiveBuffer::new();
    assert_eq!(rx.accept(&header), RelayAction::LengthAccepted);
    let mut at = 0;
    while !rx.ready() {
        let n = rx.wanted().min(100);
        let action = rx.accept(&payload[at..at + n]);
        at += n;
        assert_eq!(action == RelayAction::Complete, at == payload.len());
    }
    let (storage, len) = rx.consume().unwrap();
    assert_eq!(&storage[..len], &payload[..]);
}

#[test]
fn headers_exist_for_lengths_the_receiver_takes() {
    assert_eq!(relay_header(0), None);
    assert_eq!(relay_header(1), Some([0, 1]));
    assert_eq!(relay_header(5), Some([0, 5]));
    assert_eq!(relay_header(1024), Some([4, 0]));
    assert_eq!(relay_header(1025), None);
}
