use bytes::BytesMut;
use simple_redis::{
    process_buffer, Backend, BulkString, CommandExecutor, HGetAll, HSet, RespArray, RespDecode,
    RespEncode, RespError, RespFrame, RespSet,
};

fn serve(backend: &mut Backend, input: &[u8]) -> (Result<(), RespError>, Vec<u8>, BytesMut) {
    let mut buf = BytesMut::from(input);
    let mut out = Vec::new();
    let r = process_buffer(backend, &mut buf, &mut out);
    (r, out, buf)
}

#[test]
fn simple_get_miss() {
    let mut backend = Backend::new();
    let (r, out, buf) = serve(&mut backend, b"*2\r\n$3\r\nGET\r\n$5\r\nhello\r\n");
    assert_eq!(r, Ok(()));
    assert_eq!(out, b"_\r\n");
    assert!(buf.is_empty());
}

#[test]
fn set_then_get() {
    let mut backend = Backend::new();
    let (r, out, _) = serve(&mut backend, b"*3\r\n$3\r\nSET\r\n$5\r\nhello\r\n$5\r\nworld\r\n");
    assert_eq!(r, Ok(()));
    assert_eq!(out, b"+OK\r\n");
    let (r, out, _) = serve(&mut backend, b"*2\r\n$3\r\nGET\r\n$5\r\nhello\r\n");
    assert_eq!(r, Ok(()));
    assert_eq!(out, b"$5\r\nworld\r\n");
}

#[test]
fn pipelined_requests_answer_in_order() {
    let mut backend = Backend::new();
    let (r, out, buf) = serve(
        &mut backend,
        b"*3\r\n$3\r\nSET\r\n$5\r\nhello\r\n$5\r\nworld\r\n*2\r\n$3\r\nGET\r\n$5\r\nhello\r\n*2\r\n$3\r\nGE",
    );
    assert_eq!(r, Ok(()));
    assert_eq!(out, b"+OK\r\n$5\r\nworld\r\n");
    assert_eq!(&buf[..], b"*2\r\n$3\r\nGE");
}

#[test]
fn hset_hgetall_with_sort() {
    let mut backend = Backend::new();
    HSet { key: "map".to_string(), field: "hello".to_string(), value: BulkString::from("world").into() }
        .execute(&mut backend);
    HSet { key: "map".to_string(), field: "goodbye".to_string(), value: BulkString::from("lin").into() }
        .execute(&mut backend);
    let answer = HGetAll { key: "map".to_string(), sort: true }.execute(&mut backend);
    assert_eq!(answer.encode(), b"*4\r\n$7\r\ngoodbye\r\n$3\r\nlin\r\n$5\r\nhello\r\n$5\r\nworld\r\n");
}

#[test]
fn partial_frame() {
    let mut buf = BytesMut::from(&b"$5\r\nhel"[..]);
    assert_eq!(RespFrame::decode(&mut buf).unwrap_err(), RespError::NotComplete);
    assert_eq!(&buf[..], b"$5\r\nhel");
    buf.extend_from_slice(b"lo\r\n");
    assert_eq!(RespFrame::decode(&mut buf).unwrap(), RespFrame::BulkString(BulkString::from("hello")));
    assert!(buf.is_empty());
}

#[test]
fn malformed_command() {
    let mut backend = Backend::new();
    let (r, out, _) = serve(&mut backend, b"*1\r\n$7\r\nUNKNOWN\r\n");
    assert_eq!(r, Ok(()));
    assert!(out.starts_with(b"-Invalid command:"));
    assert!(out.ends_with(b"\r\n"));
    let (r, out, _) = serve(&mut backend, b"*2\r\n$3\r\nGET\r\n$5\r\nhello\r\n");
    assert_eq!(r, Ok(()));
    assert_eq!(out, b"_\r\n");
}

#[test]
fn nested_aggregate_round_trip() {
    let frame: RespFrame = RespSet::new([
        RespArray::new([1234.into(), true.into()]).into(),
        BulkString::new("world").into(),
    ])
    .into();
    let bytes = frame.clone().encode();
    assert_eq!(bytes, b"~2\r\n*2\r\n:+1234\r\n#t\r\n$5\r\nworld\r\n");
    let mut buf = BytesMut::from(&bytes[..]);
    assert_eq!(RespFrame::decode(&mut buf).unwrap(), frame);
}

#[test]
fn protocol_error_stops_the_connection() {
    let mut backend = Backend::new();
    let (r, out, buf) = serve(&mut backend, b"*2\r\n$3\r\nGET\r\n$1\r\nk\r\n!oops\r\n");
    assert_eq!(r, Err(RespError::InvalidFrameType(b'!')));
    assert_eq!(out, b"_\r\n");
    assert_eq!(&buf[..], b"!oops\r\n");
}
