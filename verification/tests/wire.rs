use respkv::codec::bulk_response;
use respkv::codec::decode;
use respkv::codec::encode;
use respkv::codec::DecodeError;
use respkv::codec::Reply;

#[test]
fn decode_ping_frame() {
    let buf = b"*1\r\n$4\r\nPING\r\n".to_vec();
    let (frame, used) = decode(&buf).unwrap();
    assert_eq!(used, 14);
    assert_eq!(frame.elems.len(), 1);
    assert_eq!(frame.elems[0], b"PING".to_vec());
}

#[test]
fn decode_three_elements() {
    let buf = b"*3\r\n$3\r\nSET\r\n$3\r\nfoo\r\n$3\r\nbar\r\n".to_vec();
    let (frame, used) = decode(&buf).unwrap();
    assert_eq!(used, buf.len());
    assert_eq!(frame.elems.len(), 3);
    assert_eq!(frame.elems[0], b"SET".to_vec());
    assert_eq!(frame.elems[1], b"foo".to_vec());
    assert_eq!(frame.elems[2], b"bar".to_vec());
}

#[test]
fn decode_empty_element() {
    let buf = b"*1\r\n$0\r\n\r\n".to_vec();
    let (frame, used) = decode(&buf).unwrap();
    assert_eq!(used, buf.len());
    assert_eq!(frame.elems.len(), 1);
    assert_eq!(frame.elems[0], Vec::<u8>::new());
}

#[test]
fn decode_incomplete_prefixes_need_more() {
    let full = b"*2\r\n$4\r\nECHO\r\n$5\r\nhello\r\n";
    for cut in 0..full.len() {
        let buf = full[..cut].to_vec();
        assert_eq!(decode(&buf), Err(DecodeError::NeedMoreData), "cut at {cut}");
    }
    assert!(decode(&full.to_vec()).is_ok());
}

#[test]
fn decode_missing_header_is_protocol_error() {
    let buf = b"PING\r\n".to_vec();
    assert_eq!(decode(&buf), Err(DecodeError::Protocol));
}

#[test]
fn decode_nonnumeric_count_is_protocol_error() {
    let buf = b"*x\r\n".to_vec();
    assert_eq!(decode(&buf), Err(DecodeError::Protocol));
}

#[test]
fn decode_count_mismatch_is_protocol_error() {
    // Declared count 3, but only 2 elements before the next frame starts.
    let buf = b"*3\r\n$3\r\nfoo\r\n$3\r\nbar\r\n*1\r\n$4\r\nPING\r\n".to_vec();
    assert_eq!(decode(&buf), Err(DecodeError::Protocol));
}

#[test]
fn decode_length_mismatch_is_protocol_error() {
    // Declared length 5 over a 3-byte payload puts the delimiter off target.
    let buf = b"*1\r\n$5\r\nfoo\r\nrest-of-buffer".to_vec();
    assert_eq!(decode(&buf), Err(DecodeError::Protocol));
}

#[test]
fn decode_oversized_length_is_protocol_error() {
    let buf = b"*1\r\n$1234567890123\r\n".to_vec();
    assert_eq!(decode(&buf), Err(DecodeError::Protocol));
}

#[test]
fn decode_reports_consumed_bytes_for_pipelining() {
    let buf = b"*1\r\n$4\r\nPING\r\n*2\r\n$4\r\nECHO\r\n$2\r\nhi\r\n".to_vec();
    let (first, used) = decode(&buf).unwrap();
    assert_eq!(first.elems[0], b"PING".to_vec());
    assert_eq!(used, 14);
    let rest = buf[used..].to_vec();
    let (second, used2) = decode(&rest).unwrap();
    assert_eq!(used2, rest.len());
    assert_eq!(second.elems[0], b"ECHO".to_vec());
    assert_eq!(second.elems[1], b"hi".to_vec());
}

#[test]
fn encode_status() {
    let out = encode(&Reply::Status(b"PONG".to_vec()));
    assert_eq!(out, b"+PONG\r\n".to_vec());
}

#[test]
fn encode_error() {
    let out = encode(&Reply::Error(b"ERR protocol error".to_vec()));
    assert_eq!(out, b"-ERR protocol error\r\n".to_vec());
}

#[test]
fn encode_bulk() {
    let out = encode(&Reply::Bulk(b"hello".to_vec()));
    assert_eq!(out, b"$5\r\nhello\r\n".to_vec());
}

#[test]
fn encode_empty_bulk() {
    let out = encode(&Reply::Bulk(Vec::new()));
    assert_eq!(out, b"$0\r\n\r\n".to_vec());
}

#[test]
fn encode_null_bulk() {
    let out = encode(&Reply::Null);
    assert_eq!(out, b"$-1\r\n".to_vec());
}

#[test]
fn encode_array() {
    let out = encode(&Reply::Array(vec![b"dir".to_vec(), b"/tmp".to_vec()]));
    assert_eq!(out, b"*2\r\n$3\r\ndir\r\n$4\r\n/tmp\r\n".to_vec());
}

#[test]
fn bulk_response_builds_array_reply() {
    let items = vec![b"dir".to_vec(), b"/data/store".to_vec()];
    let out = bulk_response(&items);
    assert_eq!(out, b"*2\r\n$3\r\ndir\r\n$11\r\n/data/store\r\n".to_vec());
}

#[test]
fn bulk_response_empty_array() {
    let out = bulk_response(&Vec::new());
    assert_eq!(out, b"*0\r\n".to_vec());
}

#[test]
fn round_trip_encoded_array_decodes_back() {
    let items = vec![b"GET".to_vec(), b"some-key".to_vec(), Vec::new()];
    let wire = bulk_response(&items);
    let (frame, used) = decode(&wire).unwrap();
    assert_eq!(used, wire.len());
    assert_eq!(frame.elems, items);
}
