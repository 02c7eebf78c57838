use thrift_codec::binary::TBinaryReader;
use thrift_codec::binary::TBinaryWriter;
use thrift_codec::codec::Decoded;
use thrift_codec::thrift::TMessageIdentifier;
use thrift_codec::thrift::TMessageType;
use thrift_codec::thrift::TType;
use thrift_codec::CodecErrorKind;

fn message_37_bytes() -> Vec<u8> {
    // 4 (version word) + 4 (name length) + 13 (name) + 4 (sequence)
    // + 3 (field header) + 8 (i64) + 1 (stop) = 37
    let mut w = TBinaryWriter::new(Vec::new());
    let id = TMessageIdentifier::new(b"callmethod123".to_vec(), TMessageType::Call, 7);
    w.write_message_begin(&id);
    w.write_field_begin(TType::I64, 1);
    w.write_i64(-42);
    w.write_field_stop();
    let (buf, _) = w.into_inner();
    assert_eq!(buf.len(), 37);
    buf
}

/// E6: the incremental reader fed one byte at a time produces the same
/// values as the plain reader over the whole buffer.
#[test]
fn chunked_message_equals_sync() {
    let full = message_37_bytes();

    let mut sync = TBinaryReader::new(full.clone());
    let sid = sync.read_message_begin().unwrap();
    let sf = sync.read_field_begin().unwrap();
    let sv = sync.read_i64().unwrap();
    let sstop = sync.read_field_begin().unwrap();
    let sync_end = sync.position();

    let mut inc = TBinaryReader::new(Vec::new());
    let mut delivered = 0usize;
    let id = loop {
        match inc.try_read_message_begin().unwrap() {
            Decoded::Complete(id) => break id,
            Decoded::InsufficientAtLeast(_) => {
                assert!(delivered < full.len(), "reader must not starve");
                inc.feed(&vec![full[delivered]]);
                delivered += 1;
            },
        }
    };
    let f = loop {
        match inc.try_read_field_begin().unwrap() {
            Decoded::Complete(f) => break f,
            Decoded::InsufficientAtLeast(_) => {
                inc.feed(&vec![full[delivered]]);
                delivered += 1;
            },
        }
    };
    let v = loop {
        match inc.try_read_i64() {
            Decoded::Complete(v) => break v,
            Decoded::InsufficientAtLeast(_) => {
                inc.feed(&vec![full[delivered]]);
                delivered += 1;
            },
        }
    };
    let stop = loop {
        match inc.try_read_field_begin().unwrap() {
            Decoded::Complete(f) => break f,
            Decoded::InsufficientAtLeast(_) => {
                inc.feed(&vec![full[delivered]]);
                delivered += 1;
            },
        }
    };

    assert_eq!(id, sid);
    assert_eq!(f, sf);
    assert_eq!(v, sv);
    assert_eq!(stop, sstop);
    assert_eq!(inc.position(), sync_end);
}

/// P10: a skip over chunked delivery ends where the one-shot skip ends.
#[test]
fn chunked_skip_equals_sync() {
    let mut w = TBinaryWriter::new(Vec::new());
    w.write_field_begin(TType::Binary, 3);
    w.write_bytes(&vec![9; 30]);
    w.write_field_stop();
    let (body, _) = w.into_inner();

    let mut sync = TBinaryReader::new(body.clone());
    sync.skip_field(TType::Struct).unwrap();
    let sync_end = sync.position();

    let mut inc = TBinaryReader::new(Vec::new());
    let mut delivered = 0usize;
    loop {
        match inc.try_skip_field(TType::Struct).unwrap() {
            Decoded::Complete(()) => break,
            Decoded::InsufficientAtLeast(_) => {
                let take = (delivered + 7).min(body.len());
                inc.feed(&body[delivered..take].to_vec());
                delivered = take;
            },
        }
    }
    assert_eq!(inc.position(), sync_end);
}

#[test]
fn chunked_skip_message() {
    let mut w = TBinaryWriter::new(Vec::new());
    let id = TMessageIdentifier::new(b"x".to_vec(), TMessageType::OneWay, 1);
    w.write_message_begin(&id);
    w.write_field_stop();
    let (body, _) = w.into_inner();

    let mut inc = TBinaryReader::new(Vec::new());
    let mut delivered = 0usize;
    loop {
        match inc.try_skip_message().unwrap() {
            Decoded::Complete(()) => break,
            Decoded::InsufficientAtLeast(_) => {
                inc.feed(&vec![body[delivered]]);
                delivered += 1;
            },
        }
    }
    assert_eq!(inc.position(), body.len());
}

#[test]
fn try_read_primitives_report_need_and_keep_cursor() {
    let mut r = TBinaryReader::new(vec![0x01, 0x02]);
    match r.try_read_i32() {
        Decoded::InsufficientAtLeast(n) => assert_eq!(n, 4),
        Decoded::Complete(_) => panic!("two bytes cannot hold an i32"),
    }
    assert_eq!(r.position(), 0);
    r.feed(&vec![0x03, 0x04]);
    match r.try_read_i32() {
        Decoded::Complete(v) => assert_eq!(v, 0x01020304),
        Decoded::InsufficientAtLeast(_) => panic!("four bytes are enough"),
    }
    assert_eq!(r.position(), 4);
}

#[test]
fn try_read_bytes_reports_total_need() {
    let mut r = TBinaryReader::new(vec![0x00, 0x00, 0x00, 0x05, 0xAA]);
    match r.try_read_bytes().unwrap() {
        Decoded::InsufficientAtLeast(n) => assert_eq!(n, 9),
        Decoded::Complete(_) => panic!("body is truncated"),
    }
    r.feed(&vec![0xBB, 0xCC, 0xDD, 0xEE]);
    match r.try_read_bytes().unwrap() {
        Decoded::Complete(v) => assert_eq!(v, vec![0xAA, 0xBB, 0xCC, 0xDD, 0xEE]),
        Decoded::InsufficientAtLeast(_) => panic!("body is complete"),
    }
}

#[test]
fn try_read_message_begin_rejects_bad_version_immediately() {
    let mut r = TBinaryReader::new(vec![0x00, 0x00, 0x00, 0x01]);
    let e = r.try_read_message_begin().unwrap_err();
    assert!(matches!(e.kind, CodecErrorKind::BadVersion));
    assert_eq!(r.position(), 0);
}

#[test]
fn try_skip_rejects_malformed_without_more_input() {
    // tag 7 is a wire gap: no amount of extra bytes can make it a value
    let mut r = TBinaryReader::new(vec![0x07, 0x00, 0x01]);
    let e = r.try_skip_field(TType::Struct).unwrap_err();
    assert!(matches!(e.kind, CodecErrorKind::InvalidData));
}
