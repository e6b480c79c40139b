//! The pull protocol: `OscDeserializer::parse_next`, the primitive readers,
//! the bundle visitor, and encode–decode round trips.

use osc_wire::{
    encode_message, from_vec, BundleItem, BundleVisitor, Message, OscArg, OscDeserializer,
    OscError, Packet, MAX_BUNDLE_DEPTH,
};

#[test]
fn pull_yields_address_then_each_argument() {
    let mut bytes: Vec<u8> = Vec::new();
    bytes.extend_from_slice(b"/foo\0\0\0\0");
    bytes.extend_from_slice(b",is\0");
    bytes.extend_from_slice(&[0, 0, 0, 42]);
    bytes.extend_from_slice(b"hey\0");
    let mut de = OscDeserializer::new(bytes);
    assert_eq!(de.parse_next(), Ok(OscArg::S(b"/foo".to_vec())));
    assert_eq!(de.parse_next(), Ok(OscArg::I(42)));
    assert_eq!(de.parse_next(), Ok(OscArg::S(b"hey".to_vec())));
    // one more than the typestring announced
    assert_eq!(de.parse_next(), Err(OscError::ArgMiscount));
    assert_eq!(de.remaining(), 0);
}

#[test]
fn pull_with_no_arguments_reports_miscount_at_once() {
    let mut de = OscDeserializer::new(b"/ab\0,\0\0\0".to_vec());
    assert_eq!(de.parse_next(), Ok(OscArg::S(b"/ab".to_vec())));
    assert_eq!(de.parse_next(), Err(OscError::ArgMiscount));
}

#[test]
fn dispatcher_with_no_code_is_a_miscount() {
    let mut de = OscDeserializer::new(Vec::new());
    assert_eq!(de.parse_arg(None), Err(OscError::ArgMiscount));
}

#[test]
fn primitive_readers_agree_with_the_wire() {
    let mut de = OscDeserializer::new(vec![0xFF, 0xFF, 0xFF, 0xFE, 0x41, 0x20, 0x00, 0x00]);
    assert_eq!(de.parse_i32(), Ok(-2));
    assert_eq!(de.parse_float_bits(), Ok(0x41200000));
    assert_eq!(de.parse_i32(), Err(OscError::EndOfData));
}

#[test]
fn token_reader_returns_bytes_before_the_null() {
    let mut de = OscDeserializer::new(b"hello\0\0\0rest".to_vec());
    assert_eq!(de.read_0term_bytes(), Ok(b"hello".to_vec()));
    assert_eq!(de.remaining(), 4);
}

#[test]
fn parse_str_interprets_utf8() {
    let mut de = OscDeserializer::new("caf\u{e9}\0\0\0\0".as_bytes().to_vec());
    assert_eq!(de.parse_str(), Ok(String::from("caf\u{e9}")));
}

#[test]
fn parse_str_rejects_invalid_utf8() {
    let mut de = OscDeserializer::new(vec![0xC3, 0x28, 0x00, 0x00]);
    assert_eq!(de.parse_str(), Err(OscError::StrParseError));
}

#[test]
fn parse_typetag_keeps_the_comma() {
    let mut de = OscDeserializer::new(b",if\0".to_vec());
    assert_eq!(de.parse_typetag(), Ok(b",if".to_vec()));
}

#[test]
fn parse_blob_reads_length_payload_padding() {
    let mut de = OscDeserializer::new(vec![0, 0, 0, 2, 7, 8, 0, 0]);
    assert_eq!(de.parse_blob(), Ok(vec![7, 8]));
    assert_eq!(de.remaining(), 0);
}

#[test]
fn bundle_visitor_yields_timetag_elements_then_none() {
    // the bundle body, after its marker token
    let mut body: Vec<u8> = Vec::new();
    body.extend_from_slice(&[0, 0, 0, 1, 0, 0, 0, 0]);
    body.extend_from_slice(&[0, 0, 0, 8]);
    body.extend_from_slice(b"/a\0\0,\0\0\0");
    let mut bv = BundleVisitor::new(OscDeserializer::new(body));
    assert_eq!(bv.next_item(MAX_BUNDLE_DEPTH), Ok(Some(BundleItem::TimeTag(1, 0))));
    match bv.next_item(MAX_BUNDLE_DEPTH) {
        Ok(Some(BundleItem::Element(Packet::Msg(m)))) => {
            assert_eq!(m.address, b"/a".to_vec());
            assert_eq!(m.typetags, Vec::<u8>::new());
        }
        other => panic!("unexpected item: {:?}", other),
    }
    assert_eq!(bv.next_item(MAX_BUNDLE_DEPTH), Ok(None));
}

#[test]
fn bundle_visitor_reports_framing_mismatch() {
    let mut body: Vec<u8> = Vec::new();
    body.extend_from_slice(&[0, 0, 0, 0, 0, 0, 0, 0]);
    body.extend_from_slice(&[0, 0, 0, 12]);
    body.extend_from_slice(b"/a\0\0,\0\0\0");
    body.extend_from_slice(&[0, 0, 0, 0]);
    let mut bv = BundleVisitor::new(OscDeserializer::new(body));
    assert_eq!(bv.next_item(MAX_BUNDLE_DEPTH), Ok(Some(BundleItem::TimeTag(0, 0))));
    assert_eq!(bv.next_item(MAX_BUNDLE_DEPTH), Err(OscError::FramingMismatch));
}

fn round_trip(m: Message) {
    let bytes = encode_message(&m);
    assert_eq!(bytes.len() % 4, 0);
    assert_eq!(from_vec(&bytes), Ok(Packet::Msg(m)));
}

#[test]
fn encode_decode_round_trip() {
    round_trip(Message {
        address: b"/audio/play".to_vec(),
        typetags: b"ifsb".to_vec(),
        args: vec![
            OscArg::I(-7),
            OscArg::F(1.5f32.to_bits()),
            OscArg::S(b"name".to_vec()),
            OscArg::B(vec![1, 2, 3]),
        ],
    });
    round_trip(Message { address: b"/x".to_vec(), typetags: Vec::new(), args: Vec::new() });
    round_trip(Message {
        address: b"/caf\xc3\xa9".to_vec(),
        typetags: b"ss".to_vec(),
        args: vec![OscArg::S(Vec::new()), OscArg::S(b"caf\xc3\xa9".to_vec())],
    });
}

#[test]
fn token_padding_appends_one_to_four_nulls() {
    // byte length L gets 4 - (L mod 4) nulls: an aligned address still
    // carries a whole null chunk
    for (addr, expect) in [
        (&b"/a"[..], 4usize + 4),   // 2 bytes + 2 nulls, then ",\0\0\0"
        (&b"/ab"[..], 4 + 4),       // 3 bytes + 1 null
        (&b"/abc"[..], 8 + 4),      // 4 bytes + 4 nulls
        (&b"/abcd"[..], 8 + 4),     // 5 bytes + 3 nulls
    ] {
        let m = Message { address: addr.to_vec(), typetags: Vec::new(), args: Vec::new() };
        let bytes = encode_message(&m);
        assert_eq!(bytes.len(), expect);
        assert_eq!(from_vec(&bytes), Ok(Packet::Msg(m)));
    }
}
