use thrift_codec::codec::framed::FramedHeader;
use thrift_codec::codec::ttheader::IntMetaKey;
use thrift_codec::codec::ttheader::ProtocolId;
use thrift_codec::codec::ttheader::RawPayloadCodec;
use thrift_codec::codec::ttheader::TTHeader;
use thrift_codec::codec::ttheader::TTHeaderDecoder;
use thrift_codec::codec::ttheader::TTHeaderEncoder;
use thrift_codec::codec::ttheader::TTHeaderPayload;
use thrift_codec::codec::ttheader::TTHeaderPayloadDecoder;
use thrift_codec::codec::ttheader::TTHeaderPayloadEncoder;
use thrift_codec::codec::Decoded;
use thrift_codec::codec::PayloadDecoder;
use thrift_codec::codec::PayloadEncoder;
use thrift_codec::CodecErrorKind;

fn be32(b: &[u8]) -> u32 {
    ((b[0] as u32) << 24) | ((b[1] as u32) << 16) | ((b[2] as u32) << 8) | (b[3] as u32)
}

/// E5: a TTHeader with one int key-value survives the round trip, pads to
/// a 4-byte boundary, and reconstructs the total length exactly.
#[test]
fn int_kv_roundtrip() {
    let mut hdr = TTHeader::new_for_encode(0);
    hdr.seq_id = 42;
    hdr.protocol_id = ProtocolId::Binary;
    hdr.set_int_header(IntMetaKey::RPCTimeoutMs, b"500".to_vec());

    let enc = TTHeaderEncoder::new();
    let mut frame = Vec::new();
    enc.encode(&hdr, &mut frame).unwrap();

    // magic
    assert_eq!(&frame[4..6], &[0x10, 0x00]);
    // the header area after length word and ten fixed bytes is 4-aligned
    assert_eq!((frame.len() - 14) % 4, 0);
    // the length word counts everything after itself (payload is empty)
    assert_eq!(be32(&frame[0..4]) as usize, frame.len() - 4);

    let dec = TTHeaderDecoder::new();
    let back = match dec.decode(&frame).unwrap() {
        Decoded::Complete(h) => h,
        Decoded::InsufficientAtLeast(_) => panic!("frame is complete"),
    };
    assert_eq!(back.seq_id, 42);
    assert_eq!(back.payload_length, 0);
    assert_eq!(back.header_length as usize, frame.len() - 14);
    assert_eq!(
        back.get_int_header(IntMetaKey::RPCTimeoutMs).map(|v| v.clone()),
        Some(b"500".to_vec())
    );
    // reconstruct total_length: header + payload + ten fixed bytes
    assert_eq!(back.header_length + back.payload_length + 10, be32(&frame[0..4]));
}

#[test]
fn str_kv_and_ext_roundtrip() {
    let mut hdr = TTHeader::new_for_encode(0);
    hdr.str_headers.push((b"user".to_vec(), b"alice".to_vec()));
    hdr.str_headers.push((b"env".to_vec(), b"prod".to_vec()));
    hdr.int_headers_ext.push((200, b"spill".to_vec()));

    let enc = TTHeaderEncoder::new();
    let mut frame = Vec::new();
    enc.encode(&hdr, &mut frame).unwrap();

    let dec = TTHeaderDecoder::new();
    let back = match dec.decode(&frame).unwrap() {
        Decoded::Complete(h) => h,
        Decoded::InsufficientAtLeast(_) => panic!("frame is complete"),
    };
    assert_eq!(
        back.str_headers,
        vec![(b"user".to_vec(), b"alice".to_vec()), (b"env".to_vec(), b"prod".to_vec())]
    );
    assert_eq!(back.int_headers_ext, vec![(200, b"spill".to_vec())]);
}

#[test]
fn duplicate_str_key_last_wins() {
    // a hand-built header area whose string block holds the same key twice
    let mut area = Vec::new();
    area.push(0u8); // protocol id: binary
    area.push(0u8); // transform count
    area.push(0x01); // string kv block
    area.extend_from_slice(&[0x00, 0x02]); // two pairs
    for (k, v) in [(b"k".to_vec(), b"old".to_vec()), (b"k".to_vec(), b"new".to_vec())] {
        area.extend_from_slice(&[0x00, k.len() as u8]);
        area.extend_from_slice(&k);
        area.extend_from_slice(&[0x00, v.len() as u8]);
        area.extend_from_slice(&v);
    }
    while area.len() % 4 != 0 {
        area.push(0);
    }
    let mut frame = Vec::new();
    frame.extend_from_slice(&[0, 0, 0, 0]); // length, patched below
    frame.extend_from_slice(&[0x10, 0x00]); // magic
    frame.extend_from_slice(&[0x00, 0x00]); // flags
    frame.extend_from_slice(&[0x00, 0x00, 0x00, 0x05]); // seq id
    frame.extend_from_slice(&((area.len() / 4) as u16).to_be_bytes()); // header size
    frame.extend_from_slice(&area);
    let total = (frame.len() - 4) as u32;
    frame[0..4].copy_from_slice(&total.to_be_bytes());

    let dec = TTHeaderDecoder::new();
    let back = match dec.decode(&frame).unwrap() {
        Decoded::Complete(h) => h,
        Decoded::InsufficientAtLeast(_) => panic!("frame is complete"),
    };
    assert_eq!(back.str_headers, vec![(b"k".to_vec(), b"new".to_vec())]);
    assert_eq!(back.seq_id, 5);
}

/// P7: wrong magic is rejected outright.
#[test]
fn wrong_magic_rejected() {
    let mut frame = vec![0u8; 14];
    frame[4] = 0x12;
    frame[5] = 0x34;
    let dec = TTHeaderDecoder::new();
    let e = dec.decode(&frame).unwrap_err();
    assert!(matches!(e.kind, CodecErrorKind::InvalidData));
}

/// P7: too few bytes ask for at least the fixed prefix; a declared header
/// size beyond the buffer asks for the full header area.
#[test]
fn insufficiency_staging() {
    let dec = TTHeaderDecoder::new();
    match dec.decode(&vec![0u8; 5]).unwrap() {
        Decoded::InsufficientAtLeast(n) => assert_eq!(n, 14),
        Decoded::Complete(_) => panic!("five bytes are not a frame"),
    }

    let mut frame = vec![0u8; 14];
    frame[4] = 0x10;
    frame[5] = 0x00;
    frame[12] = 0x00;
    frame[13] = 0x08; // header size: 8 units = 32 bytes
    match dec.decode(&frame).unwrap() {
        Decoded::InsufficientAtLeast(n) => assert_eq!(n, 32 + 14),
        Decoded::Complete(_) => panic!("header area is not buffered"),
    }
}

/// P7: a zero header size is rejected (the protocol byte must fit).
#[test]
fn zero_header_size_rejected() {
    let mut frame = vec![0u8; 14];
    frame[0..4].copy_from_slice(&10u32.to_be_bytes());
    frame[4] = 0x10;
    frame[5] = 0x00;
    // header size stays zero
    let dec = TTHeaderDecoder::new();
    let e = dec.decode(&frame).unwrap_err();
    assert!(matches!(e.kind, CodecErrorKind::InvalidData));
}

fn frame_with_area(area: &[u8]) -> Vec<u8> {
    assert!(area.len() % 4 == 0);
    let mut frame = Vec::new();
    frame.extend_from_slice(&((10 + area.len()) as u32).to_be_bytes());
    frame.extend_from_slice(&[0x10, 0x00]);
    frame.extend_from_slice(&[0, 0]);
    frame.extend_from_slice(&[0, 0, 0, 1]);
    let units = (area.len() / 4) as u16;
    frame.extend_from_slice(&units.to_be_bytes());
    frame.extend_from_slice(area);
    frame
}

/// P7: a declared header string longer than the cap fails.
#[test]
fn oversized_header_string_rejected() {
    let mut area = vec![0u8, 0u8, 0x11]; // protocol, transforms, acl token
    area.extend_from_slice(&5000u16.to_be_bytes());
    while area.len() % 4 != 0 {
        area.push(0);
    }
    let dec = TTHeaderDecoder::new();
    let e = dec.decode(&frame_with_area(&area)).unwrap_err();
    assert!(matches!(e.kind, CodecErrorKind::InvalidData));
}

/// P7: a string block declaring more pairs than the cap fails.
#[test]
fn oversized_kv_count_rejected() {
    let mut area = vec![0u8, 0u8, 0x01];
    area.extend_from_slice(&2000u16.to_be_bytes());
    while area.len() % 4 != 0 {
        area.push(0);
    }
    let dec = TTHeaderDecoder::new();
    let e = dec.decode(&frame_with_area(&area)).unwrap_err();
    assert!(matches!(e.kind, CodecErrorKind::InvalidData));
}

#[test]
fn unknown_info_id_rejected() {
    let mut area = vec![0u8, 0u8, 0x42, 0u8];
    while area.len() % 4 != 0 {
        area.push(0);
    }
    let dec = TTHeaderDecoder::new();
    let e = dec.decode(&frame_with_area(&area)).unwrap_err();
    assert!(matches!(e.kind, CodecErrorKind::InvalidData));
    assert_eq!(e.message, "unexpected info id in ttheader");
}

#[test]
fn unknown_protocol_id_defaults_to_binary() {
    let area = vec![0x42u8, 0u8, 0u8, 0u8]; // unknown protocol, then padding
    let dec = TTHeaderDecoder::new();
    let back = match dec.decode(&frame_with_area(&area)).unwrap() {
        Decoded::Complete(h) => h,
        Decoded::InsufficientAtLeast(_) => panic!("frame is complete"),
    };
    assert_eq!(back.protocol_id, ProtocolId::Binary);
}

#[test]
fn acl_token_decoded() {
    let mut area = vec![0u8, 0u8, 0x11];
    area.extend_from_slice(&3u16.to_be_bytes());
    area.extend_from_slice(b"tok");
    while area.len() % 4 != 0 {
        area.push(0);
    }
    let dec = TTHeaderDecoder::new();
    let back = match dec.decode(&frame_with_area(&area)).unwrap() {
        Decoded::Complete(h) => h,
        Decoded::InsufficientAtLeast(_) => panic!("frame is complete"),
    };
    assert_eq!(back.acl_token, Some(b"tok".to_vec()));
}

/// P8: whatever metadata goes in, the emitted header area is a multiple of
/// four bytes and its padding bytes are zero.
#[test]
fn encoder_pads_with_zeros() {
    let mut hdr = TTHeader::new_for_encode(0);
    hdr.str_headers.push((b"a".to_vec(), b"b".to_vec())); // odd-sized meta
    let enc = TTHeaderEncoder::new();
    let mut frame = Vec::new();
    enc.encode(&hdr, &mut frame).unwrap();
    assert_eq!((frame.len() - 14) % 4, 0);
    // meta: 2 fixed + str block (1 + 2 + 2+1 + 2+1) + int block (1 + 2) = 14
    let meta_len = 14;
    for &b in &frame[14 + meta_len..] {
        assert_eq!(b, 0);
    }
}

#[test]
fn payload_codec_roundtrip() {
    let payload = b"PAYLOAD".to_vec();
    let mut hdr = TTHeader::new_for_encode(payload.len() as u32);
    hdr.seq_id = 77;
    let item = TTHeaderPayload { ttheader: hdr, payload: Some(payload.clone()) };

    let enc = TTHeaderPayloadEncoder::new(RawPayloadCodec::new());
    let mut frame = Vec::new();
    enc.encode(&item, &mut frame).unwrap();
    assert_eq!(be32(&frame[0..4]) as usize, frame.len() - 4);

    let dec = TTHeaderPayloadDecoder::new(RawPayloadCodec::new());
    let back = match dec.decode(&frame).unwrap() {
        Decoded::Complete(p) => p,
        Decoded::InsufficientAtLeast(_) => panic!("frame is complete"),
    };
    assert_eq!(back.ttheader.seq_id, 77);
    assert_eq!(back.ttheader.payload_length as usize, payload.len());
    assert_eq!(back.payload, Some(payload));
}

#[test]
fn payload_decoder_waits_for_whole_frame() {
    let item = TTHeaderPayload {
        ttheader: TTHeader::new_for_encode(4),
        payload: Some(vec![1, 2, 3, 4]),
    };
    let enc = TTHeaderPayloadEncoder::new(RawPayloadCodec::new());
    let mut frame = Vec::new();
    enc.encode(&item, &mut frame).unwrap();

    let dec = TTHeaderPayloadDecoder::new(RawPayloadCodec::new());
    let partial = frame[..frame.len() - 2].to_vec();
    match dec.decode(&partial).unwrap() {
        Decoded::InsufficientAtLeast(n) => assert_eq!(n, frame.len()),
        Decoded::Complete(_) => panic!("two bytes are missing"),
    }
}

#[test]
fn framed_staging_and_rejection() {
    let codec = FramedHeader::new(RawPayloadCodec::new());
    match codec.decode(&vec![0, 0]).unwrap() {
        Decoded::InsufficientAtLeast(n) => assert_eq!(n, 4),
        Decoded::Complete(_) => panic!("no length word yet"),
    }
    match codec.decode(&vec![0, 0, 0, 5, 1, 2]).unwrap() {
        Decoded::InsufficientAtLeast(n) => assert_eq!(n, 9),
        Decoded::Complete(_) => panic!("body is truncated"),
    }
    let e = codec.decode(&vec![0, 0, 0, 0]).unwrap_err();
    assert!(matches!(e.kind, CodecErrorKind::InvalidData));
    let e = codec.decode(&vec![0xFF, 0, 0, 1, 9]).unwrap_err();
    assert!(matches!(e.kind, CodecErrorKind::InvalidData));
}

#[test]
fn framed_encode_prefixes_length() {
    let codec = FramedHeader::new(RawPayloadCodec::new());
    let mut out = Vec::new();
    codec.encode(&b"abc".to_vec(), &mut out).unwrap();
    assert_eq!(out, vec![0, 0, 0, 3, b'a', b'b', b'c']);
}

#[test]
fn int_meta_keys_are_dense() {
    for k in [
        IntMetaKey::TransportType,
        IntMetaKey::LogId,
        IntMetaKey::FromService,
        IntMetaKey::ToMethod,
        IntMetaKey::RPCTimeoutMs,
        IntMetaKey::ClusterShardId,
    ] {
        assert!((k.as_u16() as usize) < thrift_codec::codec::ttheader::INDEX_TABLE_SIZE);
    }
    assert_eq!(IntMetaKey::ClusterShardId.as_u16(), 26);
}

#[test]
fn protocol_id_values() {
    assert_eq!(ProtocolId::Binary.as_u8(), 0);
    assert_eq!(ProtocolId::Compact.as_u8(), 2);
    assert_eq!(ProtocolId::CompactV2.as_u8(), 3);
    assert_eq!(ProtocolId::Protobuf.as_u8(), 4);
    assert!(ProtocolId::try_from(1).is_err());
    assert!(matches!(ProtocolId::try_from(4), Ok(ProtocolId::Protobuf)));
}

#[test]
fn acl_token_is_not_emitted() {
    // the encoder leaves the ACL token out, so a round trip drops it
    let mut hdr = TTHeader::new_for_encode(0);
    hdr.acl_token = Some(b"secret-token".to_vec());
    let enc = TTHeaderEncoder::new();
    let mut frame = Vec::new();
    enc.encode(&hdr, &mut frame).unwrap();
    let dec = TTHeaderDecoder::new();
    let back = match dec.decode(&frame).unwrap() {
        Decoded::Complete(h) => h,
        Decoded::InsufficientAtLeast(_) => panic!("frame is complete"),
    };
    assert_eq!(back.acl_token, None);
}

#[test]
fn get_str_header_finds_decoded_pairs() {
    let mut hdr = TTHeader::new_for_encode(0);
    hdr.str_headers.push((b"user".to_vec(), b"alice".to_vec()));
    let enc = TTHeaderEncoder::new();
    let mut frame = Vec::new();
    enc.encode(&hdr, &mut frame).unwrap();
    let dec = TTHeaderDecoder::new();
    let back = match dec.decode(&frame).unwrap() {
        Decoded::Complete(h) => h,
        Decoded::InsufficientAtLeast(_) => panic!("frame is complete"),
    };
    assert_eq!(back.get_str_header(&b"user".to_vec()), Some(&b"alice".to_vec()));
    assert_eq!(back.get_str_header(&b"absent".to_vec()), None);
}
