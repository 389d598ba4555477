use bytes::{BufMut, BytesMut};
use simple_redis::{
    calc_total_length, extract_simple_frame_data, find_crlf, parse_length, BulkString, RespArray, RespDecode, RespDouble, RespError,
    RespFrame, RespMap, RespNull, RespNullArray, RespNullBulkString, RespSet, SimpleError,
    SimpleString,
};

fn double_value(d: &RespDouble) -> f64 {
    std::str::from_utf8(&d.0).unwrap().parse::<f64>().unwrap()
}

#[test]
fn test_simple_string_decode() -> Result<(), RespError> {
    let mut buf = BytesMut::new();
    buf.extend_from_slice(b"+OK\r\n");
    let frame = SimpleString::decode(&mut buf)?;
    assert_eq!(frame, SimpleString::new("OK".to_string()));

    buf.extend_from_slice(b"+hello\r");
    let ret = SimpleString::decode(&mut buf);
    assert_eq!(ret.unwrap_err(), RespError::NotComplete);

    buf.put_u8(b'\n');
    let frame = SimpleString::decode(&mut buf)?;
    assert_eq!(frame, SimpleString::new("hello".to_string()));
    Ok(())
}

#[test]
fn test_simple_error_decode() -> Result<(), RespError> {
    let mut buf = BytesMut::new();
    buf.extend_from_slice(b"-Error message\r\n");
    let frame = SimpleError::decode(&mut buf)?;
    assert_eq!(frame, SimpleError::new("Error message".to_string()));
    Ok(())
}

#[test]
fn test_integer_decode() -> Result<(), RespError> {
    let mut buf = BytesMut::new();
    buf.extend_from_slice(b":+123\r\n");
    let frame = i64::decode(&mut buf)?;
    assert_eq!(frame, 123);

    buf.extend_from_slice(b":-123\r\n");
    let frame = i64::decode(&mut buf)?;
    assert_eq!(frame, -123);
    Ok(())
}

#[test]
fn test_bulk_string_decode() -> Result<(), RespError> {
    let mut buf = BytesMut::new();
    buf.extend_from_slice(b"$5\r\nhello\r\n");
    let frame = BulkString::decode(&mut buf)?;
    assert_eq!(frame, BulkString::new(b"hello"));

    buf.extend_from_slice(b"$5\r\nhello");
    let ret = BulkString::decode(&mut buf);
    assert_eq!(ret.unwrap_err(), RespError::NotComplete);

    buf.extend_from_slice(b"\r\n");
    let frame = BulkString::decode(&mut buf)?;
    assert_eq!(frame, BulkString::new(b"hello"));
    Ok(())
}

#[test]
fn test_null_bulk_string_decode() -> Result<(), RespError> {
    let mut buf = BytesMut::new();
    buf.extend_from_slice(b"$-1\r\n");
    let frame = RespNullBulkString::decode(&mut buf)?;
    assert_eq!(frame, RespNullBulkString);
    Ok(())
}

#[test]
fn test_null_array_decode() -> Result<(), RespError> {
    let mut buf = BytesMut::new();
    buf.extend_from_slice(b"*-1\r\n");
    let frame = RespNullArray::decode(&mut buf)?;
    assert_eq!(frame, RespNullArray);

    // Bytes after the null marker belong to the next frame and stay in the buffer.
    buf.extend_from_slice(b"*-1\r\nkkk");
    let frame = RespNullArray::decode(&mut buf)?;
    assert_eq!(frame, RespNullArray);
    assert_eq!(&buf[..], b"kkk");
    Ok(())
}

#[test]
fn test_null_decode() -> Result<(), RespError> {
    let mut buf = BytesMut::new();
    buf.extend_from_slice(b"_\r\n");
    let frame = RespNull::decode(&mut buf)?;
    assert_eq!(frame, RespNull);

    // Bytes after the null marker belong to the next frame and stay in the buffer.
    buf.extend_from_slice(b"_\r\nkkk");
    let frame = RespNull::decode(&mut buf)?;
    assert_eq!(frame, RespNull);
    assert_eq!(&buf[..], b"kkk");

    buf.clear();
    buf.extend_from_slice(b"_\r");
    let ret = RespNull::decode(&mut buf);
    assert_eq!(ret.unwrap_err(), RespError::NotComplete);
    buf.clear();
    Ok(())
}

#[test]
fn test_boolean_decode() -> Result<(), RespError> {
    let mut buf = BytesMut::new();
    buf.extend_from_slice(b"#t\r\n");
    let frame = bool::decode(&mut buf)?;
    assert!(frame);

    buf.extend_from_slice(b"#f\r\n");
    let frame = bool::decode(&mut buf)?;
    assert!(!frame);

    buf.extend_from_slice(b"#f\r");
    let ret = bool::decode(&mut buf);
    assert_eq!(ret.unwrap_err(), RespError::NotComplete);

    buf.put_u8(b'\n');
    let frame = bool::decode(&mut buf)?;
    assert!(!frame);
    Ok(())
}

#[test]
fn test_array_decode() -> Result<(), RespError> {
    let mut buf = BytesMut::new();
    buf.extend_from_slice(b"*2\r\n$3\r\nset\r\n$5\r\nhello\r\n");
    let frame = RespArray::decode(&mut buf)?;
    assert_eq!(frame, RespArray::new([b"set".into(), b"hello".into()]));

    buf.extend_from_slice(b"*2\r\n$3\r\nset\r\n");
    let ret = RespArray::decode(&mut buf);
    assert_eq!(ret.unwrap_err(), RespError::NotComplete);

    buf.extend_from_slice(b"$5\r\nhello\r\n");
    let frame = RespArray::decode(&mut buf)?;
    assert_eq!(frame, RespArray::new([b"set".into(), b"hello".into()]));
    Ok(())
}

#[test]
fn test_double_decode() -> Result<(), RespError> {
    let mut buf = BytesMut::new();
    buf.extend_from_slice(b",123.45\r\n");
    let frame = RespDouble::decode(&mut buf)?;
    assert_eq!(double_value(&frame), 123.45);

    buf.extend_from_slice(b",+1.23456e-9\r\n");
    let frame = RespDouble::decode(&mut buf)?;
    assert_eq!(double_value(&frame), 1.23456e-9);
    Ok(())
}

#[test]
fn test_map_decode() -> Result<(), RespError> {
    let mut buf = BytesMut::new();
    buf.extend_from_slice(b"%2\r\n+hello\r\n$5\r\nworld\r\n+foo\r\n$3\r\nbar\r\n");
    let frame = RespMap::decode(&mut buf)?;
    let mut map = RespMap::new();
    map.insert("hello".to_string(), BulkString::new(b"world".to_vec()).into());
    map.insert("foo".to_string(), BulkString::new(b"bar".to_vec()).into());
    assert_eq!(frame, map);
    Ok(())
}

#[test]
fn test_set_decode() -> Result<(), RespError> {
    let mut buf = BytesMut::new();
    buf.extend_from_slice(b"~2\r\n$3\r\nset\r\n$5\r\nhello\r\n");
    let frame = RespSet::decode(&mut buf)?;
    assert_eq!(
        frame,
        RespSet::new(vec![
            BulkString::new(b"set".to_vec()).into(),
            BulkString::new(b"hello".to_vec()).into()
        ])
    );
    Ok(())
}

#[test]
fn test_calc_array_length() -> Result<(), RespError> {
    let buf = b"*2\r\n$3\r\nset\r\n$5\r\nhello\r\n";
    let (end, len) = parse_length(buf, "*")?;
    let total_len = calc_total_length(buf, end, len, "*")?;
    assert_eq!(total_len, buf.len());

    let buf = b"*2\r\n$3\r\nset\r\n";
    let (end, len) = parse_length(buf, "*")?;
    let ret = calc_total_length(buf, end, len, "*");
    assert_eq!(ret.unwrap_err(), RespError::NotComplete);
    Ok(())
}

#[test]
fn decode_keeps_trailing_bytes() -> Result<(), RespError> {
    let mut buf = BytesMut::from(&b":7\r\n+next"[..]);
    let frame = RespFrame::decode(&mut buf)?;
    assert_eq!(frame, RespFrame::Integer(7));
    assert_eq!(&buf[..], b"+next");
    Ok(())
}

#[test]
fn decode_empty_buffer_needs_more() {
    let mut buf = BytesMut::new();
    assert_eq!(RespFrame::decode(&mut buf).unwrap_err(), RespError::NotComplete);
}

#[test]
fn decode_empty_aggregates() -> Result<(), RespError> {
    let mut buf = BytesMut::from(&b"*0\r\n~0\r\n%0\r\n$0\r\n\r\n"[..]);
    assert_eq!(RespFrame::decode(&mut buf)?, RespFrame::Array(RespArray::new(vec![])));
    assert_eq!(RespFrame::decode(&mut buf)?, RespFrame::RespSet(RespSet::new(vec![])));
    assert_eq!(RespFrame::decode(&mut buf)?, RespFrame::RespMap(RespMap::new()));
    assert_eq!(RespFrame::decode(&mut buf)?, RespFrame::BulkString(BulkString::new(vec![])));
    assert!(buf.is_empty());
    Ok(())
}

#[test]
fn decode_bulk_string_is_binary_safe() -> Result<(), RespError> {
    let mut buf = BytesMut::from(&b"$4\r\na\r\nb\r\n"[..]);
    assert_eq!(BulkString::decode(&mut buf)?, BulkString::new(b"a\r\nb".to_vec()));
    Ok(())
}

#[test]
fn decode_errors_leave_the_buffer() {
    let cases: Vec<(&[u8], RespError)> = vec![
        (b"?x\r\n", RespError::InvalidFrameType(b'?')),
        (b"$-5\r\n", RespError::InvalidFrameLength(-5)),
        (b"*x\r\n", RespError::InvalidFrameLength(-1)),
        (b"~-1\r\n", RespError::InvalidFrameLength(-1)),
        (b":12a\r\n", RespError::ParseIntError),
        (b":99999999999999999999\r\n", RespError::ParseIntError),
        (b",1.2.3\r\n", RespError::ParseFloatError),
        (b"+\xff\xfe\r\n", RespError::Utf8Error),
        (b"$3\r\nabcde\r\n", RespError::InvalidFrame),
        (b"#x\r\n", RespError::InvalidFrame),
        (b"+a\nb\r\n", RespError::InvalidFrame),
        (b"%1\r\n:1\r\n:2\r\n", RespError::InvalidFrameType(b':')),
    ];
    for (bytes, err) in cases {
        let mut buf = BytesMut::from(bytes);
        assert_eq!(RespFrame::decode(&mut buf).unwrap_err(), err, "{:?}", bytes);
        assert_eq!(&buf[..], bytes);
    }
}

#[test]
fn decode_integer_limits() -> Result<(), RespError> {
    let mut buf = BytesMut::from(&b":-9223372036854775808\r\n:9223372036854775807\r\n"[..]);
    assert_eq!(i64::decode(&mut buf)?, i64::MIN);
    assert_eq!(i64::decode(&mut buf)?, i64::MAX);
    Ok(())
}

#[test]
fn decode_map_keeps_last_duplicate_and_sorts() -> Result<(), RespError> {
    let mut buf = BytesMut::from(&b"%3\r\n+b\r\n:1\r\n+a\r\n:2\r\n+b\r\n:3\r\n"[..]);
    let map = RespMap::decode(&mut buf)?;
    assert_eq!(
        map.entries().clone(),
        vec![("a".to_string(), RespFrame::Integer(2)), ("b".to_string(), RespFrame::Integer(3))]
    );
    Ok(())
}

#[test]
fn decode_double_is_canonical() -> Result<(), RespError> {
    let mut buf = BytesMut::from(&b",1.5E3\r\n"[..]);
    let d = RespDouble::decode(&mut buf)?;
    assert_eq!(d.0, b"+1.5e3".to_vec());
    Ok(())
}

#[test]
fn expect_length_measures_without_consuming() {
    let buf = b"*2\r\n$3\r\nset\r\n$5\r\nhello\r\ntrailing";
    assert_eq!(RespFrame::expect_length(buf), Ok(24));
    assert_eq!(RespArray::expect_length(buf), Ok(24));
    assert_eq!(SimpleString::expect_length(buf), Err(RespError::InvalidFrameType(b'*')));
}

#[test]
fn find_crlf_counts_pairs_after_the_type_byte() {
    let buf = b"+a\r\nb\r\n";
    assert_eq!(find_crlf(buf, 1), Some(2));
    assert_eq!(find_crlf(buf, 2), Some(5));
    assert_eq!(find_crlf(buf, 3), None);
    assert_eq!(find_crlf(buf, 0), None);
    assert_eq!(find_crlf(b"", 1), None);
}

#[test]
fn header_line_helpers() {
    assert_eq!(extract_simple_frame_data(b"+OK\r\n", "+"), Ok(3));
    assert_eq!(extract_simple_frame_data(b"+O", "+"), Err(RespError::NotComplete));
    assert_eq!(extract_simple_frame_data(b"-OK\r\n", "+"), Err(RespError::InvalidFrameType(b'-')));
    assert_eq!(extract_simple_frame_data(b"+OK", "+"), Err(RespError::NotComplete));
    assert_eq!(parse_length(b"*-3\r\n", "*"), Err(RespError::InvalidFrameLength(-3)));
    assert_eq!(parse_length(b"*abc\r\n", "*"), Err(RespError::InvalidFrameLength(-1)));
    let buf = b"%1\r\n+k\r\n:1\r\n";
    let (end, len) = parse_length(buf, "%").unwrap();
    assert_eq!(calc_total_length(buf, end, len, "%"), Ok(buf.len()));
    assert_eq!(calc_total_length(buf, end, len, "$"), Err(RespError::InvalidFrameType(b'$')));
}
