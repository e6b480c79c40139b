//! Decoding scenarios: whole packets through `from_vec`.

use osc_wire::{from_vec, Bundle, Message, OscArg, OscError, Packet};

fn msg_bytes(address: &[u8], typetag: &[u8], payload: &[u8]) -> Vec<u8> {
    let mut out = Vec::new();
    out.extend_from_slice(address);
    out.extend_from_slice(&vec![0u8; 4 - address.len() % 4]);
    out.extend_from_slice(typetag);
    out.extend_from_slice(&vec![0u8; 4 - typetag.len() % 4]);
    out.extend_from_slice(payload);
    out
}

#[test]
fn message_with_one_int() {
    let bytes = msg_bytes(b"/foo", b",i", &[0x00, 0x00, 0x00, 0x2A]);
    let pkt = from_vec(&bytes).unwrap();
    assert_eq!(
        pkt,
        Packet::Msg(Message {
            address: b"/foo".to_vec(),
            typetags: b"i".to_vec(),
            args: vec![OscArg::I(42)],
        })
    );
}

#[test]
fn message_with_empty_typestring() {
    let bytes = msg_bytes(b"/ab", b",", &[]);
    let pkt = from_vec(&bytes).unwrap();
    assert_eq!(
        pkt,
        Packet::Msg(Message { address: b"/ab".to_vec(), typetags: Vec::new(), args: Vec::new() })
    );
}

#[test]
fn bundle_with_one_message() {
    let mut bytes: Vec<u8> = Vec::new();
    bytes.extend_from_slice(b"#bundle\0");
    bytes.extend_from_slice(&[0, 0, 0, 1, 0, 0, 0, 0]);
    bytes.extend_from_slice(&[0, 0, 0, 8]);
    bytes.extend_from_slice(b"/a\0\0,\0\0\0");
    let pkt = from_vec(&bytes).unwrap();
    assert_eq!(
        pkt,
        Packet::Bun(Bundle {
            sec: 1,
            frac: 0,
            elements: vec![Packet::Msg(Message {
                address: b"/a".to_vec(),
                typetags: Vec::new(),
                args: Vec::new(),
            })],
        })
    );
}

#[test]
fn blob_of_length_three_needs_one_pad_byte() {
    let bytes = msg_bytes(b"/b", b",b", &[0, 0, 0, 3, 0xDE, 0xAD, 0xBE, 0x00]);
    let pkt = from_vec(&bytes).unwrap();
    assert_eq!(
        pkt,
        Packet::Msg(Message {
            address: b"/b".to_vec(),
            typetags: b"b".to_vec(),
            args: vec![OscArg::B(vec![0xDE, 0xAD, 0xBE])],
        })
    );
    // one byte fewer: the pad byte is missing, so the packet is short
    let short = msg_bytes(b"/b", b",b", &[0, 0, 0, 3, 0xDE, 0xAD, 0xBE]);
    assert_eq!(from_vec(&short), Err(OscError::EndOfData));
}

#[test]
fn blob_of_length_four_needs_no_pad_byte() {
    let bytes = msg_bytes(b"/b", b",b", &[0, 0, 0, 4, 0xDE, 0xAD, 0xBE, 0xEF]);
    let pkt = from_vec(&bytes).unwrap();
    assert_eq!(
        pkt,
        Packet::Msg(Message {
            address: b"/b".to_vec(),
            typetags: b"b".to_vec(),
            args: vec![OscArg::B(vec![0xDE, 0xAD, 0xBE, 0xEF])],
        })
    );
}

#[test]
fn unknown_type_code_is_rejected() {
    let bytes = msg_bytes(b"/a", b",z", &[1, 2, 3, 4]);
    assert_eq!(from_vec(&bytes), Err(OscError::UnknownType(b'z')));
    let no_payload = msg_bytes(b"/a", b",z", &[]);
    assert_eq!(from_vec(&no_payload), Err(OscError::UnknownType(b'z')));
}

#[test]
fn negative_int_is_two_s_complement() {
    let bytes = msg_bytes(b"/n", b",i", &[0xFF, 0xFF, 0xFF, 0xFF]);
    let pkt = from_vec(&bytes).unwrap();
    assert_eq!(
        pkt,
        Packet::Msg(Message {
            address: b"/n".to_vec(),
            typetags: b"i".to_vec(),
            args: vec![OscArg::I(-1)],
        })
    );
}

#[test]
fn float_argument_carries_its_bits() {
    let bits = 42.5f32.to_bits();
    let bytes = msg_bytes(b"/f", b",f", &bits.to_be_bytes());
    let pkt = from_vec(&bytes).unwrap();
    match pkt {
        Packet::Msg(m) => {
            assert_eq!(m.args, vec![OscArg::F(bits)]);
            match &m.args[0] {
                OscArg::F(b) => assert_eq!(f32::from_bits(*b), 42.5f32),
                _ => panic!("wrong kind"),
            }
        }
        _ => panic!("expected a message"),
    }
}

#[test]
fn string_argument_round_trips_bytes() {
    let bytes = msg_bytes(b"/s", b",s", b"hi\0\0");
    let pkt = from_vec(&bytes).unwrap();
    assert_eq!(
        pkt,
        Packet::Msg(Message {
            address: b"/s".to_vec(),
            typetags: b"s".to_vec(),
            args: vec![OscArg::S(b"hi".to_vec())],
        })
    );
}

#[test]
fn bad_token_padding_is_rejected() {
    // non-null byte after the terminating null inside the address chunk
    let bytes = b"/a\0x,\0\0\0".to_vec();
    assert_eq!(from_vec(&bytes), Err(OscError::BadPadding));
}

#[test]
fn nonzero_blob_padding_is_rejected() {
    let bytes = msg_bytes(b"/b", b",b", &[0, 0, 0, 3, 0xDE, 0xAD, 0xBE, 0x07]);
    assert_eq!(from_vec(&bytes), Err(OscError::BadPadding));
}

#[test]
fn truncated_input_is_out_of_data() {
    assert_eq!(from_vec(&b"/a".to_vec()), Err(OscError::EndOfData));
    let bytes = msg_bytes(b"/a", b",i", &[0, 0]);
    assert_eq!(from_vec(&bytes), Err(OscError::EndOfData));
}

#[test]
fn leading_token_must_be_address_or_marker() {
    let bytes = msg_bytes(b"xyz", b",", &[]);
    assert_eq!(from_vec(&bytes), Err(OscError::MalformedPacket));
}

#[test]
fn typestring_must_begin_with_comma() {
    let bytes = msg_bytes(b"/a", b"i", &[0, 0, 0, 1]);
    assert_eq!(from_vec(&bytes), Err(OscError::MalformedPacket));
}

#[test]
fn invalid_utf8_token_is_rejected() {
    let bytes = msg_bytes(&[b'/', 0xFF], b",", &[]);
    assert_eq!(from_vec(&bytes), Err(OscError::StrParseError));
}

#[test]
fn trailing_bytes_are_a_framing_error() {
    let mut bytes = msg_bytes(b"/ab", b",", &[]);
    bytes.extend_from_slice(&[0, 0, 0, 0]);
    assert_eq!(from_vec(&bytes), Err(OscError::FramingMismatch));
}

#[test]
fn element_size_must_match_its_content() {
    let mut bytes: Vec<u8> = Vec::new();
    bytes.extend_from_slice(b"#bundle\0");
    bytes.extend_from_slice(&[0, 0, 0, 0, 0, 0, 0, 0]);
    bytes.extend_from_slice(&[0, 0, 0, 12]);
    bytes.extend_from_slice(b"/a\0\0,\0\0\0");
    bytes.extend_from_slice(&[0, 0, 0, 0]);
    assert_eq!(from_vec(&bytes), Err(OscError::FramingMismatch));
}

#[test]
fn bundle_remainder_too_small_for_a_prefix() {
    let mut bytes: Vec<u8> = Vec::new();
    bytes.extend_from_slice(b"#bundle\0");
    bytes.extend_from_slice(&[0, 0, 0, 0, 0, 0, 0, 0]);
    bytes.extend_from_slice(&[0, 0]);
    assert_eq!(from_vec(&bytes), Err(OscError::FramingMismatch));
}

#[test]
fn nested_bundles_decode() {
    let inner = {
        let mut b: Vec<u8> = Vec::new();
        b.extend_from_slice(b"#bundle\0");
        b.extend_from_slice(&[0, 0, 0, 0, 0, 0, 0, 2]);
        b
    };
    let mut outer: Vec<u8> = Vec::new();
    outer.extend_from_slice(b"#bundle\0");
    outer.extend_from_slice(&[0, 0, 0, 0, 0, 0, 0, 1]);
    outer.extend_from_slice(&(inner.len() as u32).to_be_bytes());
    outer.extend_from_slice(&inner);
    let pkt = from_vec(&outer).unwrap();
    assert_eq!(
        pkt,
        Packet::Bun(Bundle {
            sec: 0,
            frac: 1,
            elements: vec![Packet::Bun(Bundle { sec: 0, frac: 2, elements: Vec::new() })],
        })
    );
}

#[test]
fn nesting_deeper_than_the_guard_is_rejected() {
    // a bundle nested 40 levels deep, each level wrapped as a sized element
    let mut pkt: Vec<u8> = Vec::new();
    pkt.extend_from_slice(b"#bundle\0");
    pkt.extend_from_slice(&[0, 0, 0, 0, 0, 0, 0, 0]);
    for _ in 0..40 {
        let mut outer: Vec<u8> = Vec::new();
        outer.extend_from_slice(b"#bundle\0");
        outer.extend_from_slice(&[0, 0, 0, 0, 0, 0, 0, 0]);
        outer.extend_from_slice(&(pkt.len() as u32).to_be_bytes());
        outer.extend_from_slice(&pkt);
        pkt = outer;
    }
    assert_eq!(from_vec(&pkt), Err(OscError::MalformedPacket));
}
