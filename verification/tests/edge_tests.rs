use thrift_codec::binary::TBinaryReader;
use thrift_codec::binary::TBinaryWriter;
use thrift_codec::thrift::TListIdentifier;
use thrift_codec::thrift::TMessageIdentifier;
use thrift_codec::thrift::TMessageType;
use thrift_codec::thrift::TSetIdentifier;
use thrift_codec::thrift::TType;
use thrift_codec::CodecError;
use thrift_codec::CodecErrorKind;

#[test]
fn skip_covers_every_fixed_width_and_binary() {
    let mut w = TBinaryWriter::new(Vec::new());
    w.write_field_begin(TType::Bool, 1);
    w.write_bool(true);
    w.write_field_begin(TType::I8, 2);
    w.write_i8(1);
    w.write_field_begin(TType::I16, 3);
    w.write_i16(2);
    w.write_field_begin(TType::I32, 4);
    w.write_i32(3);
    w.write_field_begin(TType::I64, 5);
    w.write_i64(4);
    w.write_field_begin(TType::Double, 6);
    w.write_double_bits(1.25f64.to_bits());
    w.write_field_begin(TType::Uuid, 7);
    let uuid: Vec<u8> = (100u8..116).collect();
    w.write_uuid(&uuid);
    w.write_field_begin(TType::Binary, 8);
    w.write_bytes(&b"blob".to_vec());
    w.write_field_stop();
    let (buf, _) = w.into_inner();
    let len = buf.len();
    let mut r = TBinaryReader::new(buf);
    r.skip_field(TType::Struct).unwrap();
    assert_eq!(r.position(), len);
}

#[test]
fn skip_empty_and_nonfixed_collections() {
    // empty list of i32
    let mut w = TBinaryWriter::new(Vec::new());
    w.write_list_begin(&TListIdentifier::new(TType::I32, 0));
    w.write_list_end(0);
    let (buf, _) = w.into_inner();
    let len = buf.len();
    let mut r = TBinaryReader::new(buf);
    r.skip_field(TType::List).unwrap();
    assert_eq!(r.position(), len);

    // set of two byte strings: elements have no fixed width
    let mut w = TBinaryWriter::new(Vec::new());
    w.write_set_begin(&TSetIdentifier::new(TType::Binary, 0));
    w.write_bytes(&b"one".to_vec());
    w.write_bytes(&b"two!".to_vec());
    w.write_set_end(2);
    let (buf, _) = w.into_inner();
    let len = buf.len();
    let mut r = TBinaryReader::new(buf);
    r.skip_field(TType::TSet).unwrap();
    assert_eq!(r.position(), len);
}

#[test]
fn multibyte_utf8_string_roundtrip() {
    let mut w = TBinaryWriter::new(Vec::new());
    w.write_string("héllo wörld ✓");
    let (buf, _) = w.into_inner();
    let mut r = TBinaryReader::new(buf);
    assert_eq!(r.read_string().unwrap(), "héllo wörld ✓");
}

#[test]
fn empty_message_name_roundtrip() {
    let mut w = TBinaryWriter::new(Vec::new());
    let id = TMessageIdentifier::new(Vec::new(), TMessageType::Exception, -1);
    w.write_message_begin(&id);
    let (buf, _) = w.into_inner();
    let mut r = TBinaryReader::new(buf);
    let back = r.read_message_begin().unwrap();
    assert_eq!(back.name, Vec::<u8>::new());
    assert_eq!(back.message_type, TMessageType::Exception);
    assert_eq!(back.sequence_number, -1);
}

#[test]
fn all_message_kinds_roundtrip() {
    for kind in [
        TMessageType::Call,
        TMessageType::Reply,
        TMessageType::Exception,
        TMessageType::OneWay,
    ] {
        let mut w = TBinaryWriter::new(Vec::new());
        let id = TMessageIdentifier::new(b"m".to_vec(), kind, 3);
        w.write_message_begin(&id);
        let (buf, _) = w.into_inner();
        let mut r = TBinaryReader::new(buf);
        assert_eq!(r.read_message_begin().unwrap().message_type, kind);
    }
}

#[test]
fn reader_rejects_truncated_primitives() {
    let mut r = TBinaryReader::new(vec![0x01]);
    assert!(matches!(r.read_i16(), Err(CodecError { kind: CodecErrorKind::InvalidData, .. })));
    assert!(matches!(r.read_i32(), Err(CodecError { kind: CodecErrorKind::InvalidData, .. })));
    assert!(matches!(r.read_i64(), Err(CodecError { kind: CodecErrorKind::InvalidData, .. })));
    assert!(matches!(r.read_uuid(), Err(CodecError { kind: CodecErrorKind::InvalidData, .. })));
    // the byte itself is still readable afterwards
    assert_eq!(r.read_byte().unwrap(), 0x01);
}

#[test]
fn error_kind_names() {
    assert_eq!(CodecErrorKind::InvalidData.as_str(), "InvalidData");
    assert_eq!(CodecErrorKind::BadVersion.as_str(), "BadVersion");
    assert_eq!(CodecErrorKind::IOError.as_str(), "IOError");
    let e = CodecError::new(CodecErrorKind::NotImplemented, "transforms");
    assert_eq!(e.kind.as_str(), "NotImplemented");
    assert_eq!(e.message, "transforms");
}

#[test]
fn struct_begin_and_ends_consume_nothing() {
    let mut r = TBinaryReader::new(vec![1, 2, 3]);
    let s = r.read_struct_begin().unwrap();
    assert_eq!(s.name, None);
    r.read_struct_end().unwrap();
    r.read_field_end().unwrap();
    r.read_message_end().unwrap();
    assert_eq!(r.position(), 0);
}

#[test]
fn length_estimates_match_written_bytes() {
    let id = TMessageIdentifier::new(b"ping".to_vec(), TMessageType::Call, 1);
    let mut w = TBinaryWriter::new(Vec::new());
    w.write_message_begin(&id);
    let (buf, _) = w.into_inner();
    assert_eq!(thrift_codec::protocol::message_begin_len(&id), buf.len());

    let mut w = TBinaryWriter::new(Vec::new());
    w.write_string("héllo");
    let (buf, _) = w.into_inner();
    assert_eq!(thrift_codec::protocol::string_len("héllo"), buf.len());

    let mut w = TBinaryWriter::new(Vec::new());
    w.write_bytes(&vec![1, 2, 3]);
    let (buf, _) = w.into_inner();
    assert_eq!(thrift_codec::protocol::bytes_len(&vec![1, 2, 3]), buf.len());

    let mut w = TBinaryWriter::new(Vec::new());
    w.write_field_begin(TType::I32, 9);
    w.write_i32(5);
    w.write_field_stop();
    let (buf, _) = w.into_inner();
    assert_eq!(
        thrift_codec::protocol::field_begin_len(TType::I32, Some(9))
            + thrift_codec::protocol::i32_len(5)
            + thrift_codec::protocol::field_stop_len(),
        buf.len()
    );

    let mut w = TBinaryWriter::new(Vec::new());
    w.write_list_begin(&TListIdentifier::new(TType::I8, 0));
    w.write_list_end(0);
    let (buf, _) = w.into_inner();
    assert_eq!(
        thrift_codec::protocol::list_begin_len(TListIdentifier::new(TType::I8, 0))
            + thrift_codec::protocol::list_end_len(),
        buf.len()
    );
}

#[test]
fn container_begin_emits_zero_placeholder() {
    let mut w = TBinaryWriter::new(Vec::new());
    w.write_list_begin(&TListIdentifier::new(TType::I8, 3));
    let (buf, _) = w.into_inner();
    assert_eq!(buf, vec![0x03, 0x00, 0x00, 0x00, 0x00]);

    let mut w = TBinaryWriter::new(Vec::new());
    w.write_map_begin(&thrift_codec::thrift::TMapIdentifier::new(TType::I8, TType::I8, 7));
    let (buf, _) = w.into_inner();
    assert_eq!(buf, vec![0x03, 0x03, 0x00, 0x00, 0x00, 0x00]);
}
