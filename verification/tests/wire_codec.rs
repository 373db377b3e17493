use crosslink::error::CodecError;
use crosslink::wire::{
    catalog_request, resource_request, u16_from_be, u16_to_be, ResourceDescriptor, CMD_GET,
    CMD_LIST,
};

#[test]
fn sixteen_bit_fields_are_big_endian() {
    assert_eq!(u16_from_be(0x00, 0x05), 5);
    assert_eq!(u16_from_be(0x01, 0x00), 256);
    assert_eq!(u16_from_be(0xff, 0xff), 65535);
    assert_eq!(u16_to_be(0x1234), [0x12, 0x34]);
    assert_eq!(u16_to_be(0), [0, 0]);
    assert_eq!(u16_to_be(0xffff), [0xff, 0xff]);
}

#[test]
fn request_frames() {
    assert_eq!(CMD_LIST, 1);
    assert_eq!(CMD_GET, 2);
    assert_eq!(catalog_request(), [0, 0, 0, 1]);
    assert_eq!(resource_request(1), [0, 1, 0, 2]);
    assert_eq!(resource_request(0xabcd), [0xab, 0xcd, 0, 2]);
}

#[test]
fn entry_wire_form() {
    let d: ResourceDescriptor<8> = ResourceDescriptor::new(0x0102, "pong").unwrap();
    assert_eq!(d.encode(), vec![1, 2, 0, 4, b'p', b'o', b'n', b'g']);
    assert_eq!(d.id(), 0x0102);
    assert_eq!(d.name_len(), 4);
    assert_eq!(d.name_bytes(), b"pong");
    assert_eq!(d.name(), "pong");
}

#[test]
fn entry_round_trip() {
    for (id, name) in [(0u16, ""), (7, "a"), (65535, "12345678"), (300, "h\u{e9}llo"), (9, "\u{1f600}")] {
        let d: ResourceDescriptor<8> = ResourceDescriptor::new(id, name).unwrap();
        let mut frame = d.encode();
        let len = frame.len();
        frame.extend([0xff, 0xfe]);
        let (back, used) = ResourceDescriptor::<8>::decode(&frame).unwrap();
        assert_eq!(used, len);
        assert_eq!(back, d);
        assert_eq!(back.name(), name);
    }
}

#[test]
fn name_longer_than_the_buffer_is_refused() {
    assert!(ResourceDescriptor::<4>::new(1, "12345").is_none());
    assert!(ResourceDescriptor::<4>::new(1, "1234").is_some());
    // Three bytes of UTF-8 for one character.
    assert!(ResourceDescriptor::<2>::new(1, "\u{20ac}").is_none());
    assert_eq!(
        ResourceDescriptor::<4>::from_bytes(1, b"12345"),
        Err(CodecError::FrameTooLarge)
    );
    assert_eq!(
        ResourceDescriptor::<4>::decode(&[0, 1, 0, 5, 1, 2, 3, 4, 5]),
        Err(CodecError::FrameTooLarge)
    );
    // The length is judged before the frame is found short.
    assert_eq!(ResourceDescriptor::<4>::decode(&[0, 1, 0, 5]), Err(CodecError::FrameTooLarge));
}

#[test]
fn malformed_utf8_is_refused() {
    assert_eq!(
        ResourceDescriptor::<4>::from_bytes(1, &[0xff, 0x41]),
        Err(CodecError::InvalidEncoding)
    );
    assert_eq!(
        ResourceDescriptor::<4>::decode(&[0, 1, 0, 2, 0xc3, 0x28]),
        Err(CodecError::InvalidEncoding)
    );
    // A truncated multi-byte character.
    assert_eq!(
        ResourceDescriptor::<4>::decode(&[0, 1, 0, 1, 0xe2]),
        Err(CodecError::InvalidEncoding)
    );
}

#[test]
fn short_frames_are_incomplete() {
    assert_eq!(ResourceDescriptor::<4>::decode(&[]), Err(CodecError::Incomplete));
    assert_eq!(ResourceDescriptor::<4>::decode(&[0, 1, 0]), Err(CodecError::Incomplete));
    assert_eq!(ResourceDescriptor::<4>::decode(&[0, 1, 0, 3, b'a', b'b']), Err(CodecError::Incomplete));
}

#[test]
fn unused_name_storage_is_zeroed() {
    let a: ResourceDescriptor<8> = ResourceDescriptor::from_bytes(3, b"ab").unwrap();
    let (b, _) = ResourceDescriptor::<8>::decode(&[0, 3, 0, 2, b'a', b'b', 9, 9, 9]).unwrap();
    assert_eq!(a, b);
}

#[test]
fn utf8_is_judged_as_the_standard_has_it() {
    // Overlong, surrogate, beyond the last scalar, and a byte that starts nothing.
    for bad in [
        &[0xc0, 0x80][..],
        &[0xe0, 0x80, 0x80],
        &[0xed, 0xa0, 0x80],
        &[0xf4, 0x90, 0x80, 0x80],
        &[0xf8, 0x88, 0x80, 0x80],
        &[0x80],
    ] {
        assert_eq!(ResourceDescriptor::<8>::from_bytes(1, bad), Err(CodecError::InvalidEncoding));
    }
    // The last scalar, and the ones on either side of the surrogates.
    for good in [&[0xf4, 0x8f, 0xbf, 0xbf][..], &[0xed, 0x9f, 0xbf], &[0xee, 0x80, 0x80]] {
        let d = ResourceDescriptor::<8>::from_bytes(1, good).unwrap();
        assert_eq!(d.name().as_bytes(), good);
        assert_eq!(d.name().chars().count(), 1);
    }
}
