use quique::protocol::{
    get_bytes, get_str, get_u32, put_bytes, put_status, put_str, put_u32, Header, Op, ProtoError,
    Status, HEADER_LEN, MAGIC, VERSION,
};

fn sample_header() -> Header {
    Header {
        magic: MAGIC,
        version: VERSION,
        op: Op::Produce,
        flags: 0,
        stream_id: 0xdead_beef,
        body_len: 7,
    }
}

#[test]
fn header_encodes_big_endian() {
    let mut out = Vec::new();
    sample_header().encode(&mut out);
    assert_eq!(
        out,
        vec![0x51, 0x42, 0x55, 0x53, 1, 2, 0, 0, 0xde, 0xad, 0xbe, 0xef, 0, 0, 0, 7]
    );
}

#[test]
fn header_round_trips() {
    let h = sample_header();
    let mut buf = Vec::new();
    h.encode(&mut buf);
    buf.extend_from_slice(b"rest");
    let got = Header::decode(&mut buf).unwrap().unwrap();
    assert_eq!(got, h);
    assert_eq!(buf, b"rest".to_vec());
}

#[test]
fn header_round_trips_every_opcode() {
    for op in [
        Op::CreateTopic,
        Op::Produce,
        Op::Consume,
        Op::Metadata,
        Op::Read,
        Op::CreateQueue,
        Op::BindQueue,
    ] {
        let h = Header { op, flags: 9, ..sample_header() };
        let mut buf = Vec::new();
        h.encode(&mut buf);
        assert_eq!(Header::decode(&mut buf), Ok(Some(h)));
        assert!(buf.is_empty());
    }
}

#[test]
fn decode_short_buffer_is_incomplete_and_keeps_bytes() {
    let mut buf = Vec::new();
    sample_header().encode(&mut buf);
    buf.truncate(HEADER_LEN - 1);
    let before = buf.clone();
    assert_eq!(Header::decode(&mut buf), Ok(None));
    assert_eq!(buf, before);
}

#[test]
fn decode_rejects_bad_magic_version_and_opcode() {
    let mut good = Vec::new();
    sample_header().encode(&mut good);

    let mut b = good.clone();
    b[0] = 0;
    assert_eq!(Header::decode(&mut b), Err(ProtoError::InvalidMagic(0x00425553)));
    assert_eq!(b.len(), HEADER_LEN);

    let mut b = good.clone();
    b[4] = 2;
    assert_eq!(Header::decode(&mut b), Err(ProtoError::InvalidVersion(2)));

    let mut b = good.clone();
    b[5] = 0x09;
    assert_eq!(Header::decode(&mut b), Err(ProtoError::InvalidOpcode(0x09)));
}

#[test]
fn opcode_and_status_codes() {
    assert_eq!(Op::CreateQueue.code(), 0x06);
    assert_eq!(Op::BindQueue.code(), 0x07);
    assert_eq!(Op::try_from(0x05), Ok(Op::Read));
    assert_eq!(Op::try_from(0x00), Err(ProtoError::InvalidOpcode(0)));
    assert_eq!(Status::BadRequest.code(), 400);
    assert_eq!(Status::from_code(12), Some(Status::ResourceExists));
    assert_eq!(Status::from_code(1), None);
    let mut out = Vec::new();
    put_status(&mut out, Status::ServerError);
    assert_eq!(out, vec![0x01, 0xf4]);
}

#[test]
fn u32_round_trips() {
    let mut buf = Vec::new();
    put_u32(&mut buf, 0x0102_0304);
    assert_eq!(buf, vec![1, 2, 3, 4]);
    let mut cur: &[u8] = &buf;
    assert_eq!(get_u32(&mut cur), Some(0x0102_0304));
    assert!(cur.is_empty());
}

#[test]
fn str_round_trips() {
    let mut buf = Vec::new();
    put_str(&mut buf, "héllo").unwrap();
    assert_eq!(&buf[..2], &[0, 6]);
    buf.push(9);
    let mut cur: &[u8] = &buf;
    assert_eq!(get_str(&mut cur), Some("héllo".to_string()));
    assert_eq!(cur, &[9]);
}

#[test]
fn bytes_round_trip_including_empty() {
    let mut buf = Vec::new();
    put_bytes(&mut buf, b"\x00\xffab");
    put_bytes(&mut buf, b"");
    assert_eq!(buf, vec![0, 0, 0, 4, 0, 0xff, b'a', b'b', 0, 0, 0, 0]);
    let mut cur: &[u8] = &buf;
    assert_eq!(get_bytes(&mut cur), Some(vec![0, 0xff, b'a', b'b']));
    assert_eq!(get_bytes(&mut cur), Some(vec![]));
    assert!(cur.is_empty());
}

#[test]
fn getters_return_none_on_underflow_without_consuming() {
    let short: Vec<u8> = vec![0, 5, b'a', b'b'];
    let mut cur: &[u8] = &short;
    assert_eq!(get_str(&mut cur), None);
    assert_eq!(cur.len(), 4);
    let mut cur: &[u8] = &short[..1];
    assert_eq!(get_str(&mut cur), None);
    let mut cur: &[u8] = &short[..3];
    assert_eq!(get_u32(&mut cur), None);
    assert_eq!(cur.len(), 3);
    let lying: Vec<u8> = vec![0, 0, 0, 9, 1, 2];
    let mut cur: &[u8] = &lying;
    assert_eq!(get_bytes(&mut cur), None);
    assert_eq!(cur.len(), 6);
}

#[test]
fn str_of_65535_bytes_round_trips() {
    let s = "x".repeat(65535);
    let mut buf = Vec::new();
    assert_eq!(put_str(&mut buf, &s), Ok(()));
    assert_eq!(&buf[..2], &[0xff, 0xff]);
    let mut cur: &[u8] = &buf;
    assert_eq!(get_str(&mut cur), Some(s));
}

#[test]
fn str_of_65536_bytes_is_rejected() {
    let s = "x".repeat(65536);
    let mut buf = vec![7u8];
    assert_eq!(put_str(&mut buf, &s), Err(ProtoError::StrTooLong(65536)));
    assert_eq!(buf, vec![7u8]);
}

#[test]
fn invalid_utf8_is_decoded_with_replacement() {
    let buf: Vec<u8> = vec![0, 3, b'a', 0xff, b'b'];
    let mut cur: &[u8] = &buf;
    assert_eq!(get_str(&mut cur), Some("a\u{fffd}b".to_string()));
}
