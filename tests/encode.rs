use bytes::BytesMut;
use simple_redis::{
    BulkString, RespArray, RespDecode, RespDouble, RespEncode, RespFrame, RespMap, RespNull,
    RespNullArray, RespNullBulkString, RespSet, SimpleError, SimpleString,
};

fn double(x: f64) -> RespFrame {
    RespDouble::from_scientific(&format!("{:e}", x)).unwrap().into()
}

#[test]
fn test_simple_string_encode() {
    let frame: RespFrame = SimpleString::new("OK").into();
    assert_eq!(frame.encode(), b"+OK\r\n");
}

#[test]
fn test_error_encode() {
    let frame: RespFrame = SimpleError::new("Error message").into();
    assert_eq!(frame.encode(), b"-Error message\r\n");
}

#[test]
fn test_integer_encode() {
    let frame: RespFrame = 123.into();
    assert_eq!(frame.encode(), b":+123\r\n");

    let frame: RespFrame = (-123).into();
    assert_eq!(frame.encode(), b":-123\r\n");
}

#[test]
fn test_bulk_string_encode() {
    let frame: RespFrame = BulkString::new(b"hello").into();
    assert_eq!(frame.encode(), b"$5\r\nhello\r\n");
}

#[test]
fn test_null_bulk_string_encode() {
    let frame: RespFrame = RespNullBulkString.into();
    assert_eq!(frame.encode(), b"$-1\r\n");
}

#[test]
fn test_array_encode() {
    let frame: RespFrame = RespArray::new(vec![
        BulkString::new("set".to_string()).into(),
        BulkString::new("hello".to_string()).into(),
        BulkString::new("world".to_string()).into(),
    ])
    .into();
    assert_eq!(&frame.encode(), b"*3\r\n$3\r\nset\r\n$5\r\nhello\r\n$5\r\nworld\r\n");
}

#[test]
fn test_null_array_encode() {
    let frame: RespFrame = RespNullArray.into();
    assert_eq!(frame.encode(), b"*-1\r\n");
}

#[test]
fn test_null_encode() {
    let frame: RespFrame = RespNull.into();
    assert_eq!(frame.encode(), b"_\r\n");
}

#[test]
fn test_boolean_encode() {
    let frame: RespFrame = true.into();
    assert_eq!(frame.encode(), b"#t\r\n");

    let frame: RespFrame = false.into();
    assert_eq!(frame.encode(), b"#f\r\n");
}

#[test]
fn test_set_encode() {
    let frame: RespFrame = RespSet::new([
        RespArray::new([1234.into(), true.into()]).into(),
        BulkString::new("world").into(),
    ])
    .into();
    assert_eq!(frame.encode(), b"~2\r\n*2\r\n:+1234\r\n#t\r\n$5\r\nworld\r\n");
}

#[test]
fn encode_integer_limits() {
    let frame: RespFrame = i64::MIN.into();
    assert_eq!(frame.encode(), b":-9223372036854775808\r\n");
    let frame: RespFrame = 0.into();
    assert_eq!(frame.encode(), b":+0\r\n");
}

#[test]
fn encode_map_sorts_keys() {
    let mut map = RespMap::new();
    map.insert("hello".to_string(), BulkString::new("world").into());
    map.insert("foo".to_string(), 7.into());
    map.insert("hello".to_string(), BulkString::new("again").into());
    let frame: RespFrame = map.into();
    assert_eq!(frame.encode(), b"%2\r\n+foo\r\n:+7\r\n+hello\r\n$5\r\nagain\r\n");
}

#[test]
fn encode_empty_aggregates() {
    assert_eq!(RespFrame::Array(RespArray::new(vec![])).encode(), b"*0\r\n");
    assert_eq!(RespFrame::RespSet(RespSet::new(vec![])).encode(), b"~0\r\n");
    assert_eq!(RespFrame::RespMap(RespMap::new()).encode(), b"%0\r\n");
}

fn round_trip(frame: RespFrame) {
    let bytes = frame.clone().encode();
    let mut buf = BytesMut::from(&bytes[..]);
    buf.extend_from_slice(b"tail");
    let back = RespFrame::decode(&mut buf).unwrap();
    assert_eq!(back, frame);
    assert_eq!(&buf[..], b"tail");
}

#[test]
fn round_trip_every_variant() {
    let mut map = RespMap::new();
    map.insert("k".to_string(), RespFrame::Null(RespNull));
    round_trip(SimpleString::new("OK").into());
    round_trip(SimpleError::new("ERR bad").into());
    round_trip((-42).into());
    round_trip(BulkString::new(b"bin\r\nary").into());
    round_trip(RespNullBulkString.into());
    round_trip(RespNullArray.into());
    round_trip(RespNull.into());
    round_trip(true.into());
    round_trip(RespArray::new(vec![]).into());
    round_trip(RespSet::new(vec![]).into());
    round_trip(RespMap::new().into());
    round_trip(map.into());
    round_trip(
        RespArray::new(vec![
            1.into(),
            BulkString::new("x").into(),
            RespArray::new(vec![true.into()]).into(),
        ])
        .into(),
    );
}

#[test]
fn every_prefix_needs_more() {
    let frame: RespFrame = RespSet::new([
        RespArray::new([1234.into(), true.into()]).into(),
        BulkString::new("world").into(),
    ])
    .into();
    let bytes = frame.clone().encode();
    for n in 0..bytes.len() {
        let mut buf = BytesMut::from(&bytes[..n]);
        assert_eq!(RespFrame::decode(&mut buf).unwrap_err(), simple_redis::RespError::NotComplete);
        assert_eq!(buf.len(), n);
        buf.extend_from_slice(&bytes[n..]);
        assert_eq!(RespFrame::decode(&mut buf).unwrap(), frame);
    }
}

#[test]
fn test_double_encode() {
    let frame: RespFrame = double(123.456);
    assert_eq!(frame.encode(), b",+123.456\r\n");

    let frame: RespFrame = double(-123.456);
    assert_eq!(frame.encode(), b",-123.456\r\n");

    let frame: RespFrame = double(1.23456e+8);
    assert_eq!(frame.encode(), b",+1.23456e8\r\n");

    let frame: RespFrame = double(-1.23456e-9);
    assert_eq!(&frame.encode(), b",-1.23456e-9\r\n");
}

#[test]
fn test_map_encode() {
    let mut map = RespMap::new();
    map.insert("hello".to_string(), BulkString::new("world").into());
    map.insert("foo".to_string(), double(-123456.789));

    let frame: RespFrame = map.into();
    assert_eq!(&frame.encode(), b"%2\r\n+foo\r\n,-123456.789\r\n+hello\r\n$5\r\nworld\r\n");
}

#[test]
fn double_notation_boundaries() {
    assert_eq!(double(1e8).encode(), b",+100000000\r\n");
    assert_eq!(double(2e8).encode(), b",+2e8\r\n");
    assert_eq!(double(-9e8).encode(), b",-9e8\r\n");
    assert_eq!(double(100000000.5).encode(), b",+1.000000005e8\r\n");
    assert_eq!(double(1e-8).encode(), b",+0.00000001\r\n");
    assert_eq!(double(0.0).encode(), b",+0\r\n");
    assert_eq!(double(1.5e-9).encode(), b",+1.5e-9\r\n");
    assert_eq!(double(100.0).encode(), b",+100\r\n");
    assert_eq!(double(0.25).encode(), b",+0.25\r\n");
    assert!(RespDouble::from_scientific("inf").is_none());
    assert!(RespDouble::from_scientific("1.e5").is_none());
}

#[test]
fn double_round_trip_keeps_value() {
    for x in [123.456, -0.5, 1.23456e8, -1.23456e-9, 42.0] {
        let frame = double(x);
        let mut buf = BytesMut::from(&frame.clone().encode()[..]);
        let back = RespFrame::decode(&mut buf).unwrap();
        assert_eq!(back, frame);
        match back {
            RespFrame::Double(d) => assert_eq!(std::str::from_utf8(&d.0).unwrap().parse::<f64>().unwrap(), x),
            other => panic!("{:?}", other),
        }
    }
}

#[test]
fn map_encodes_in_key_order_whatever_the_insertion_order() {
    let mut map = RespMap::new();
    map.insert("b".to_string(), RespNull.into());
    map.insert("a".to_string(), RespNull.into());
    let frame: RespFrame = map.into();
    let bytes = frame.clone().encode();
    assert_eq!(bytes, b"%2\r\n+a\r\n_\r\n+b\r\n_\r\n");
    let mut buf = BytesMut::from(&bytes[..]);
    assert_eq!(RespFrame::decode(&mut buf).unwrap(), frame);
}
