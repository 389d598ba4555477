use bytes::BytesMut;
use simple_redis::{
    Backend, BulkString, Command, CommandError, CommandExecutor, Get, HGet, HGetAll, HSet,
    RespArray, RespDecode, RespFrame, RespNull, SetValue, SimpleString,
};

fn ok() -> RespFrame {
    SimpleString::new("OK").into()
}

fn array_of(bytes: &[u8]) -> RespArray {
    let mut buf = BytesMut::from(bytes);
    RespArray::decode(&mut buf).unwrap()
}

#[test]
fn test_hget_from_resp_array() -> Result<(), CommandError> {
    let mut buf = BytesMut::new();
    buf.extend_from_slice(b"*3\r\n$4\r\nhget\r\n$3\r\nmap\r\n$5\r\nhello\r\n");
    let frame = RespArray::decode(&mut buf)?;
    let result: HGet = frame.try_into()?;
    assert_eq!(result.key, "map");
    assert_eq!(result.field, "hello");
    Ok(())
}

#[test]
fn test_hgetall_from_resp_array() -> Result<(), CommandError> {
    let mut buf = BytesMut::new();
    buf.extend_from_slice(b"*2\r\n$7\r\nhgetall\r\n$3\r\nmap\r\n");
    let frame = RespArray::decode(&mut buf)?;
    let result: HGetAll = frame.try_into()?;
    assert_eq!(result.key, "map");
    Ok(())
}

#[test]
fn test_hset_from_resp_array() -> Result<(), CommandError> {
    let mut buf = BytesMut::new();
    buf.extend_from_slice(b"*4\r\n$4\r\nhset\r\n$3\r\nmap\r\n$5\r\nhello\r\n$5\r\nworld\r\n");
    let frame = RespArray::decode(&mut buf)?;
    let result: HSet = frame.try_into()?;
    assert_eq!(result.key, "map");
    assert_eq!(result.field, "hello");
    assert_eq!(result.value, RespFrame::BulkString(b"world".into()));
    Ok(())
}

#[test]
fn test_hset_hget_hgetall_commands() -> Result<(), CommandError> {
    let mut backend = Backend::new();
    let cmd = HSet {
        key: "map".to_string(),
        field: "hello".to_string(),
        value: RespFrame::BulkString(b"world".into()),
    };
    let result = cmd.execute(&mut backend);
    assert_eq!(result, ok());

    let cmd = HSet {
        key: "map".to_string(),
        field: "hello1".to_string(),
        value: RespFrame::BulkString(b"world1".into()),
    };
    cmd.execute(&mut backend);

    let cmd = HGet { key: "map".to_string(), field: "hello".to_string() };
    let result = cmd.execute(&mut backend);
    assert_eq!(result, RespFrame::BulkString(b"world".into()));

    let cmd = HGetAll { key: "map".to_string(), sort: true };
    let result = cmd.execute(&mut backend);
    let expected = RespArray::new([
        BulkString::from("hello").into(),
        BulkString::from("world").into(),
        BulkString::from("hello1").into(),
        BulkString::from("world1").into(),
    ]);
    assert_eq!(result, expected.into());
    Ok(())
}

#[test]
fn test_get_from_resp_array() -> Result<(), CommandError> {
    let mut buf = BytesMut::new();
    buf.extend_from_slice(b"*2\r\n$3\r\nget\r\n$5\r\nhello\r\n");
    let frame = RespArray::decode(&mut buf)?;
    let result: Get = frame.try_into()?;
    assert_eq!(result.key, "hello");
    Ok(())
}

#[test]
fn test_set_from_resp_array() -> Result<(), CommandError> {
    let mut buf = BytesMut::new();
    buf.extend_from_slice(b"*3\r\n$3\r\nset\r\n$5\r\nhello\r\n$5\r\nworld\r\n");
    let frame = RespArray::decode(&mut buf)?;
    let result: SetValue = frame.try_into()?;
    assert_eq!(result.key, "hello");
    assert_eq!(result.value, RespFrame::BulkString(b"world".into()));
    Ok(())
}

#[test]
fn test_set_get_command() -> Result<(), CommandError> {
    let mut backend = Backend::new();
    let cmd = SetValue { key: "hello".to_string(), value: RespFrame::BulkString(b"world".into()) };
    let result = cmd.execute(&mut backend);
    assert_eq!(result, ok());

    let cmd = Get { key: "hello".to_string() };
    let result = cmd.execute(&mut backend);
    assert_eq!(result, RespFrame::BulkString(b"world".into()));
    Ok(())
}

#[test]
fn test_command() -> Result<(), CommandError> {
    let mut buf = BytesMut::new();
    buf.extend_from_slice(b"*2\r\n$3\r\nget\r\n$5\r\nhello\r\n");
    let frame = RespArray::decode(&mut buf)?;
    let cmd: Command = frame.try_into()?;
    let mut backend = Backend::new();
    let ret = cmd.execute(&mut backend);
    assert_eq!(ret, RespFrame::Null(RespNull));
    Ok(())
}

#[test]
fn command_names_ignore_case() {
    for name in ["get", "GET", "Get", "gEt"] {
        let text = format!("*2\r\n$3\r\n{}\r\n$1\r\nk\r\n", name);
        let cmd = Command::from_array(array_of(text.as_bytes())).unwrap();
        match cmd {
            Command::Get(g) => assert_eq!(g.key, "k"),
            other => panic!("{:?}", other),
        }
    }
    let cmd = Command::from_array(array_of(b"*2\r\n$7\r\nHGetAll\r\n$1\r\nk\r\n")).unwrap();
    assert!(matches!(cmd, Command::HGetAll(_)));
}

#[test]
fn command_errors() {
    let unknown = Command::from_array(array_of(b"*1\r\n$7\r\nUNKNOWN\r\n")).unwrap_err();
    assert_eq!(unknown, CommandError::InvalidCommand("Invalid command: UNKNOWN".to_string()));
    assert_eq!(unknown.message(), "Invalid command: UNKNOWN");

    let lossy = Command::from_array(array_of(b"*1\r\n$2\r\na\xff\r\n")).unwrap_err();
    assert_eq!(lossy, CommandError::InvalidCommand("Invalid command: a\u{fffd}".to_string()));

    let arity = Command::from_array(array_of(b"*3\r\n$3\r\nget\r\n$1\r\na\r\n$1\r\nb\r\n")).unwrap_err();
    assert!(matches!(arity, CommandError::InvalidArgument(_)));

    let not_bulk = Command::from_array(array_of(b"*2\r\n$3\r\nget\r\n:1\r\n")).unwrap_err();
    assert!(matches!(not_bulk, CommandError::InvalidArgument(_)));

    let utf8 = Command::from_array(array_of(b"*2\r\n$3\r\nget\r\n$1\r\n\xff\r\n")).unwrap_err();
    assert_eq!(utf8, CommandError::Utf8Error);

    let unnamed = Command::from_array(array_of(b"*1\r\n:1\r\n")).unwrap_err();
    assert!(matches!(unnamed, CommandError::InvalidCommand(_)));

    let empty = Command::from_array(array_of(b"*0\r\n")).unwrap_err();
    assert!(matches!(empty, CommandError::InvalidCommand(_)));

    let not_array = Command::from_frame(RespFrame::Integer(1)).unwrap_err();
    assert!(matches!(not_array, CommandError::InvalidCommand(_)));
}

#[test]
fn last_set_wins() {
    let mut backend = Backend::new();
    for v in ["a", "b", "c"] {
        SetValue { key: "k".to_string(), value: BulkString::from(v).into() }.execute(&mut backend);
    }
    let got = Get { key: "k".to_string() }.execute(&mut backend);
    assert_eq!(got, BulkString::from("c").into());
}

#[test]
fn hget_and_hgetall_on_missing_keys() {
    let mut backend = Backend::new();
    assert_eq!(HGet { key: "h".to_string(), field: "f".to_string() }.execute(&mut backend), RespFrame::Null(RespNull));
    assert_eq!(
        HGetAll { key: "h".to_string(), sort: true }.execute(&mut backend),
        RespFrame::Array(RespArray::new(vec![]))
    );
    HSet { key: "h".to_string(), field: "f".to_string(), value: 1.into() }.execute(&mut backend);
    assert_eq!(HGet { key: "h".to_string(), field: "g".to_string() }.execute(&mut backend), RespFrame::Null(RespNull));
    assert_eq!(backend.hget("h", "f"), Some(RespFrame::Integer(1)));
    assert_eq!(backend.get("h"), None);
}

#[test]
fn hgetall_sorted_and_unsorted_agree_on_entries() {
    let mut backend = Backend::new();
    for (f, v) in [("zeta", 1), ("alpha", 2), ("mid", 3), ("alpha", 4)] {
        HSet { key: "h".to_string(), field: f.to_string(), value: RespFrame::Integer(v) }.execute(&mut backend);
    }
    let sorted = HGetAll { key: "h".to_string(), sort: true }.execute(&mut backend);
    let expected: RespFrame = RespArray::new(vec![
        BulkString::from("alpha").into(),
        RespFrame::Integer(4),
        BulkString::from("mid").into(),
        RespFrame::Integer(3),
        BulkString::from("zeta").into(),
        RespFrame::Integer(1),
    ])
    .into();
    assert_eq!(sorted, expected);
    let unsorted = HGetAll { key: "h".to_string(), sort: false }.execute(&mut backend);
    match unsorted {
        RespFrame::Array(a) => assert_eq!(a.0.len(), 6),
        other => panic!("{:?}", other),
    }
}
