use thrift_codec::binary::TBinaryReader;
use thrift_codec::binary::TBinaryWriter;
use thrift_codec::codec::framed::FramedHeader;
use thrift_codec::codec::ttheader::RawPayloadCodec;
use thrift_codec::codec::Decoded;
use thrift_codec::codec::PayloadDecoder;
use thrift_codec::codec::PayloadEncoder;
use thrift_codec::thrift::TFieldIdentifier;
use thrift_codec::thrift::TListIdentifier;
use thrift_codec::thrift::TMapIdentifier;
use thrift_codec::thrift::TMessageIdentifier;
use thrift_codec::thrift::TMessageType;
use thrift_codec::thrift::TType;
use thrift_codec::CodecErrorKind;

const VALID_TAGS: [u8; 14] = [0, 1, 2, 3, 4, 6, 8, 10, 11, 12, 13, 14, 15, 16];

#[test]
fn ttype_wire_roundtrip() {
    for &b in VALID_TAGS.iter() {
        let t = TType::try_from(b).expect("valid tag must parse");
        assert_eq!(t.as_u8(), b);
    }
}

#[test]
fn ttype_rejects_all_other_bytes() {
    for b in 0..=255u8 {
        if VALID_TAGS.contains(&b) {
            continue;
        }
        let e = TType::try_from(b).unwrap_err();
        assert!(matches!(e.kind, CodecErrorKind::InvalidData));
    }
}

#[test]
fn tmessage_type_roundtrip() {
    for b in 1..=4u8 {
        let t = TMessageType::try_from(b).expect("valid kind must parse");
        assert_eq!(t.as_u8(), b);
    }
    for b in [0u8, 5, 6, 100, 255] {
        let e = TMessageType::try_from(b).unwrap_err();
        assert!(matches!(e.kind, CodecErrorKind::InvalidData));
    }
}

#[test]
fn primitive_roundtrips() {
    let mut w = TBinaryWriter::new(Vec::new());
    w.write_bool(true);
    w.write_bool(false);
    w.write_i8(-5);
    w.write_i16(-12345);
    w.write_i32(-123456789);
    w.write_i64(-1234567890123456789);
    w.write_double_bits(3.5f64.to_bits());
    w.write_byte(0xAB);
    let uuid: Vec<u8> = (0u8..16).collect();
    w.write_uuid(&uuid);
    let (buf, stack) = w.into_inner();
    assert!(stack.is_empty());

    let mut r = TBinaryReader::new(buf);
    assert_eq!(r.read_bool().unwrap(), true);
    assert_eq!(r.read_bool().unwrap(), false);
    assert_eq!(r.read_i8().unwrap(), -5);
    assert_eq!(r.read_i16().unwrap(), -12345);
    assert_eq!(r.read_i32().unwrap(), -123456789);
    assert_eq!(r.read_i64().unwrap(), -1234567890123456789);
    assert_eq!(f64::from_bits(r.read_double_bits().unwrap()), 3.5);
    assert_eq!(r.read_byte().unwrap(), 0xAB);
    assert_eq!(r.read_uuid().unwrap(), uuid);
}

#[test]
fn bytes_and_string_roundtrip() {
    let mut w = TBinaryWriter::new(Vec::new());
    w.write_bytes(&vec![1, 2, 3, 4, 5]);
    w.write_string("hello ttheader");
    let (buf, _) = w.into_inner();
    let mut r = TBinaryReader::new(buf);
    assert_eq!(r.read_bytes().unwrap(), vec![1, 2, 3, 4, 5]);
    assert_eq!(r.read_string().unwrap(), "hello ttheader");
}

#[test]
fn i32_exact_wire_bytes() {
    let mut w = TBinaryWriter::new(Vec::new());
    w.write_i32(0x0102_0304);
    w.write_i32(-2);
    let (buf, _) = w.into_inner();
    assert_eq!(buf, vec![0x01, 0x02, 0x03, 0x04, 0xFF, 0xFF, 0xFF, 0xFE]);
}

/// E1: the ping call over the framed transport, byte for byte.
#[test]
fn ping_roundtrip_over_framed() {
    let mut w = TBinaryWriter::new(Vec::new());
    let id = TMessageIdentifier::new(b"ping".to_vec(), TMessageType::Call, 1);
    w.write_message_begin(&id);
    w.write_field_stop();
    w.write_message_end();
    let (payload, _) = w.into_inner();

    let codec = FramedHeader::new(RawPayloadCodec::new());
    let mut frame = Vec::new();
    codec.encode(&payload, &mut frame).unwrap();
    let expected: Vec<u8> = vec![
        0x00, 0x00, 0x00, 0x11, 0x80, 0x01, 0x00, 0x01, 0x00, 0x00, 0x00, 0x04, 0x70, 0x69, 0x6E,
        0x67, 0x00, 0x00, 0x00, 0x01, 0x00,
    ];
    assert_eq!(frame, expected);

    let body = match codec.decode(&frame).unwrap() {
        Decoded::Complete(b) => b,
        Decoded::InsufficientAtLeast(_) => panic!("frame is complete"),
    };
    let mut r = TBinaryReader::new(body);
    let back = r.read_message_begin().unwrap();
    assert_eq!(back.name, b"ping".to_vec());
    assert_eq!(back.message_type, TMessageType::Call);
    assert_eq!(back.sequence_number, 1);
    let f = r.read_field_begin().unwrap();
    assert_eq!(f.field_type, TType::Stop);
    r.read_message_end().unwrap();
}

/// E3: a positive first word is a pre-versioned message.
#[test]
fn bad_version_positive_word() {
    let mut r = TBinaryReader::new(vec![0x00, 0x00, 0x00, 0x01]);
    let e = r.read_message_begin().unwrap_err();
    assert!(matches!(e.kind, CodecErrorKind::BadVersion));
    assert_eq!(e.message, "Missing version in ReadMessageBegin");
}

/// P4: wrong version bits on a negative word.
#[test]
fn bad_version_wrong_bits() {
    let mut r = TBinaryReader::new(vec![0xFF, 0xFE, 0x00, 0x01, 0, 0, 0, 0]);
    let e = r.read_message_begin().unwrap_err();
    assert!(matches!(e.kind, CodecErrorKind::BadVersion));
    assert_eq!(e.message, "Bad version in ReadMessageBegin");
}

#[test]
fn bad_message_kind_nibble() {
    // correct version bits, kind nibble 9
    let mut r = TBinaryReader::new(vec![0x80, 0x01, 0x00, 0x09, 0, 0, 0, 0]);
    let e = r.read_message_begin().unwrap_err();
    assert!(matches!(e.kind, CodecErrorKind::InvalidData));
}

/// P6: the string accessor validates UTF-8, the bytes accessor does not.
#[test]
fn utf8_gate() {
    let raw = vec![0x00, 0x00, 0x00, 0x02, 0xFF, 0xFE];
    let mut r = TBinaryReader::new(raw.clone());
    let e = r.read_string().unwrap_err();
    assert!(matches!(e.kind, CodecErrorKind::InvalidData));
    assert_eq!(e.message, "not a valid utf8 string");

    let mut r2 = TBinaryReader::new(raw);
    assert_eq!(r2.read_bytes().unwrap(), vec![0xFF, 0xFE]);
}

#[test]
fn empty_string_accepted() {
    let mut r = TBinaryReader::new(vec![0, 0, 0, 0]);
    assert_eq!(r.read_string().unwrap(), "");
}

#[test]
fn negative_byte_length_rejected() {
    let mut r = TBinaryReader::new(vec![0xFF, 0xFF, 0xFF, 0xFF, 1, 2, 3]);
    let e = r.read_bytes().unwrap_err();
    assert!(matches!(e.kind, CodecErrorKind::InvalidData));
}

fn nested_map_struct_bytes() -> Vec<u8> {
    // struct { field id=7: map<i32, list<i16>> { 99 -> [10, 20, 30] } } stop
    let mut w = TBinaryWriter::new(Vec::new());
    w.write_field_begin(TType::TMap, 7);
    w.write_map_begin(&TMapIdentifier::new(TType::I32, TType::List, 1));
    w.write_i32(99);
    w.write_list_begin(&TListIdentifier::new(TType::I16, 3));
    w.write_i16(10);
    w.write_i16(20);
    w.write_i16(30);
    w.write_list_end(3);
    w.write_map_end(1);
    w.write_field_stop();
    let (buf, stack) = w.into_inner();
    assert!(stack.is_empty());
    buf
}

/// E2: skipping the struct consumes exactly its encoding and no more.
#[test]
fn skip_over_nested_map() {
    let body = nested_map_struct_bytes();
    let len = body.len();

    let mut exact = TBinaryReader::new(body.clone());
    exact.skip_field(TType::Struct).unwrap();
    assert_eq!(exact.position(), len);

    let mut with_trailing = body.clone();
    with_trailing.extend_from_slice(&[0xAA, 0xBB, 0xCC]);
    let mut r = TBinaryReader::new(with_trailing);
    r.skip_field(TType::Struct).unwrap();
    assert_eq!(r.position(), len);
}

/// P2: skipping lands where element-wise reading lands.
#[test]
fn skip_matches_reads() {
    let body = nested_map_struct_bytes();
    let mut reader = TBinaryReader::new(body.clone());
    let f = reader.read_field_begin().unwrap();
    assert_eq!(f.field_type, TType::TMap);
    assert_eq!(f.id, Some(7));
    let m = reader.read_map_begin().unwrap();
    assert_eq!((m.key_type, m.value_type, m.size), (TType::I32, TType::List, 1));
    assert_eq!(reader.read_i32().unwrap(), 99);
    let l = reader.read_list_begin().unwrap();
    assert_eq!((l.element_type, l.size), (TType::I16, 3));
    assert_eq!(reader.read_i16().unwrap(), 10);
    assert_eq!(reader.read_i16().unwrap(), 20);
    assert_eq!(reader.read_i16().unwrap(), 30);
    reader.read_list_end().unwrap();
    reader.read_map_end().unwrap();
    let stop = reader.read_field_begin().unwrap();
    assert_eq!(stop.field_type, TType::Stop);
    let read_pos = reader.position();

    let mut skipper = TBinaryReader::new(body);
    skipper.skip_field(TType::Struct).unwrap();
    assert_eq!(skipper.position(), read_pos);
}

/// E4: a truncated map fails without reading past the buffer.
#[test]
fn truncated_map_fails() {
    let bytes = vec![0x0D, 0x08, 0x08, 0x00, 0x00, 0x00, 0x02, 0x00, 0x00, 0x00, 0x01];
    let mut r = TBinaryReader::new(bytes);
    let tag = r.read_byte().unwrap();
    let t = TType::try_from(tag).unwrap();
    assert_eq!(t, TType::TMap);
    // field id
    let _ = r.read_i16().unwrap();
    // map<i32,i32> size=2 followed by only one 4-byte value
    let e = r.skip_field(TType::TMap).unwrap_err();
    assert!(matches!(e.kind, CodecErrorKind::InvalidData));
}

#[test]
fn truncated_map_fails_raw() {
    // map header alone: key/value both i32, 2 entries, 4 data bytes present
    let bytes = vec![0x08, 0x08, 0x00, 0x00, 0x00, 0x02, 0x00, 0x00, 0x00, 0x01];
    let mut r = TBinaryReader::new(bytes);
    let e = r.skip_field(TType::TMap).unwrap_err();
    assert!(matches!(e.kind, CodecErrorKind::InvalidData));
    assert_eq!(r.position(), 0);
}

/// P5: a bad tag inside a skipped struct is InvalidData.
#[test]
fn skip_rejects_bad_tag() {
    // field tag 5 is a wire gap
    let bytes = vec![0x05, 0x00, 0x01, 0x00];
    let mut r = TBinaryReader::new(bytes);
    let e = r.skip_field(TType::Struct).unwrap_err();
    assert!(matches!(e.kind, CodecErrorKind::InvalidData));
}

#[test]
fn skip_rejects_stop_and_void_values() {
    for t in [TType::Stop, TType::Void] {
        let mut r = TBinaryReader::new(vec![0x00, 0x00]);
        let e = r.skip_field(t).unwrap_err();
        assert!(matches!(e.kind, CodecErrorKind::InvalidData));
    }
}

/// P3: ten thousand levels of nesting skip in bounded stack.
#[test]
fn skip_deeply_nested() {
    let depth = 10_000usize;
    let mut bytes = Vec::with_capacity(depth * 5);
    for _ in 0..depth - 1 {
        bytes.push(0x0F); // element type: list
        bytes.extend_from_slice(&[0x00, 0x00, 0x00, 0x01]);
    }
    bytes.push(0x03); // innermost element type: i8
    bytes.extend_from_slice(&[0x00, 0x00, 0x00, 0x00]);
    let len = bytes.len();
    let mut r = TBinaryReader::new(bytes);
    r.skip_field(TType::List).unwrap();
    assert_eq!(r.position(), len);
}

#[test]
fn skip_message_consumes_whole_message() {
    let mut w = TBinaryWriter::new(Vec::new());
    let id = TMessageIdentifier::new(b"m".to_vec(), TMessageType::Reply, 9);
    w.write_message_begin(&id);
    w.write_field_begin(TType::I32, 1);
    w.write_i32(5);
    w.write_field_stop();
    let (buf, _) = w.into_inner();
    let len = buf.len();
    let mut r = TBinaryReader::new(buf);
    r.skip_message().unwrap();
    assert_eq!(r.position(), len);
}

/// P9: the four bytes at the recorded offset hold the patched count.
#[test]
fn map_end_backpatches_count() {
    let mut w = TBinaryWriter::new(Vec::new());
    w.write_map_begin(&TMapIdentifier::new(TType::I8, TType::I8, 0));
    // offset of the count placeholder: after key type + value type
    let patch_at = 2;
    w.write_i8(1);
    w.write_i8(2);
    w.write_i8(3);
    w.write_i8(4);
    w.write_map_end(2);
    let (buf, stack) = w.into_inner();
    assert!(stack.is_empty());
    assert_eq!(&buf[patch_at..patch_at + 4], &[0x00, 0x00, 0x00, 0x02]);
}

#[test]
fn list_and_set_end_backpatch() {
    let mut w = TBinaryWriter::new(Vec::new());
    w.write_list_begin(&TListIdentifier::new(TType::I8, 0));
    w.write_i8(7);
    w.write_list_end(1);
    w.write_set_begin(&thrift_codec::thrift::TSetIdentifier::new(TType::I8, 0));
    w.write_i8(8);
    w.write_i8(9);
    w.write_set_end(2);
    let (buf, stack) = w.into_inner();
    assert!(stack.is_empty());
    // list: [elem type, 4-byte count, one element]
    assert_eq!(&buf[0..6], &[0x03, 0x00, 0x00, 0x00, 0x01, 0x07]);
    // set follows
    assert_eq!(&buf[6..12], &[0x03, 0x00, 0x00, 0x00, 0x02, 0x08]);
}

#[test]
fn field_begin_exact_bytes() {
    let mut w = TBinaryWriter::new(Vec::new());
    w.write_field_begin(TType::I64, -2);
    let (buf, _) = w.into_inner();
    assert_eq!(buf, vec![0x0A, 0xFF, 0xFE]);
}

#[test]
fn field_identifier_carries_implicit_zero_for_stop() {
    let mut r = TBinaryReader::new(vec![0x00]);
    let f: TFieldIdentifier = r.read_field_begin().unwrap();
    assert_eq!(f.field_type, TType::Stop);
    assert_eq!(f.id, Some(0));
}

#[test]
fn from_parts_and_into_inner() {
    let r = TBinaryReader::from_parts(vec![1, 2, 3], 1usize);
    let (buf, pos) = r.into_inner();
    assert_eq!(buf, vec![1, 2, 3]);
    assert_eq!(pos, 1);
}
