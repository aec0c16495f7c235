use bytes::Bytes;
use w_redis::connection::{Connection, ReadOutcome};
use w_redis::decimal::{parse_decimal, write_decimal};
use w_redis::frame::Frame;
use w_redis::text::str_eq;
use w_redis::Error;

fn written(frame: &Frame) -> Vec<u8> {
    let mut connection = Connection::new();
    connection.write_frame(frame);
    connection.take_output()
}

#[test]
fn writes_simple() {
    assert_eq!(written(&Frame::Simple("OK".to_string())), b"+OK\r\n".to_vec());
}

#[test]
fn writes_error() {
    assert_eq!(written(&Frame::Error("ERR bad".to_string())), b"-ERR bad\r\n".to_vec());
}

#[test]
fn writes_integer() {
    assert_eq!(written(&Frame::Integer(0)), b":0\r\n".to_vec());
    assert_eq!(written(&Frame::Integer(1000)), b":1000\r\n".to_vec());
    assert_eq!(written(&Frame::Integer(u64::MAX)), b":18446744073709551615\r\n".to_vec());
}

#[test]
fn writes_bulk() {
    assert_eq!(written(&Frame::Bulk(Bytes::from_static(b"bar"))), b"$3\r\nbar\r\n".to_vec());
    assert_eq!(written(&Frame::Bulk(Bytes::new())), b"$0\r\n\r\n".to_vec());
    assert_eq!(
        written(&Frame::Bulk(Bytes::from_static(b"0123456789ab"))),
        b"$12\r\n0123456789ab\r\n".to_vec()
    );
}

#[test]
fn writes_null() {
    assert_eq!(written(&Frame::Null), b"$-1\r\n".to_vec());
}

#[test]
fn writes_array() {
    let frame = Frame::Array(vec![
        Frame::Bulk(Bytes::from_static(b"GET")),
        Frame::Bulk(Bytes::from_static(b"foo")),
    ]);
    assert_eq!(written(&frame), b"*2\r\n$3\r\nGET\r\n$3\r\nfoo\r\n".to_vec());
    assert_eq!(written(&Frame::Array(vec![])), b"*0\r\n".to_vec());
}

#[test]
fn writes_nested_array() {
    let frame = Frame::Array(vec![
        Frame::Array(vec![Frame::Integer(1), Frame::Null]),
        Frame::Simple("x".to_string()),
    ]);
    assert_eq!(written(&frame), b"*2\r\n*2\r\n:1\r\n$-1\r\n+x\r\n".to_vec());
}

#[test]
fn write_value_writes_what_is_no_array() {
    let mut connection = Connection::new();
    connection.write_value(&Frame::Integer(7));
    connection.write_value(&Frame::Null);
    assert_eq!(connection.take_output(), b":7\r\n$-1\r\n".to_vec());
}

#[test]
fn write_decimal_ends_the_line() {
    let mut connection = Connection::new();
    connection.write_decimal(250);
    assert_eq!(connection.take_output(), b"250\r\n".to_vec());
}

#[test]
fn writes_follow_each_other() {
    let mut connection = Connection::new();
    connection.write_frame(&Frame::Simple("OK".to_string()));
    connection.write_frame(&Frame::Null);
    assert_eq!(connection.take_output(), b"+OK\r\n$-1\r\n".to_vec());
    assert_eq!(connection.take_output(), Vec::<u8>::new());
}

#[test]
fn decimal_digits_are_exact() {
    let cases: Vec<(u64, &str)> = vec![
        (0, "0"),
        (9, "9"),
        (10, "10"),
        (99, "99"),
        (100, "100"),
        (1234567890, "1234567890"),
        (9999999999999999999, "9999999999999999999"),
        (10000000000000000000, "10000000000000000000"),
        (u64::MAX, "18446744073709551615"),
    ];
    for (value, text) in cases {
        let mut out = vec![b'#'];
        write_decimal(value, &mut out);
        assert_eq!(out, format!("#{}", text).into_bytes());
        assert_eq!(parse_decimal(text.as_bytes()), Some(value));
    }
}

#[test]
fn parse_decimal_takes_digits_only() {
    assert_eq!(parse_decimal(b"0"), Some(0));
    assert_eq!(parse_decimal(b"007"), Some(7));
    assert_eq!(parse_decimal(b"18446744073709551615"), Some(u64::MAX));
    assert_eq!(parse_decimal(b"000000000000000000000000000001"), Some(1));
    assert_eq!(parse_decimal(b"18446744073709551616"), None);
    assert_eq!(parse_decimal(b""), None);
    assert_eq!(parse_decimal(b"+1"), None);
    assert_eq!(parse_decimal(b"-0"), None);
    assert_eq!(parse_decimal(b"1 "), None);
    assert_eq!(parse_decimal(b" 1"), None);
    assert_eq!(parse_decimal(b"1x"), None);
    assert_eq!(parse_decimal(b"/"), None);
    assert_eq!(parse_decimal(b":"), None);
}

#[test]
fn str_eq_compares_text() {
    assert!(str_eq("EX", "EX"));
    assert!(!str_eq("EX", "ex"));
    assert!(!str_eq("EX", "EXX"));
    assert!(!str_eq("", "a"));
    assert!(str_eq("", ""));
}

#[test]
fn nothing_buffered_gives_no_frame() {
    let mut connection = Connection::new();
    assert_eq!(connection.parse_frame(), Ok(None));
}

#[test]
fn clean_close_between_frames() {
    let mut connection = Connection::new();
    assert_eq!(connection.read_frame(b""), Ok(ReadOutcome::Closed));
    assert_eq!(
        connection.read_frame(b"+OK\r\n"),
        Ok(ReadOutcome::Frame(Frame::Simple("OK".to_string())))
    );
    assert_eq!(connection.read_frame(b""), Ok(ReadOutcome::Closed));
}

#[test]
fn close_inside_a_frame_is_a_reset() {
    let mut connection = Connection::new();
    assert_eq!(connection.read_frame(b"$3\r\nfo"), Ok(ReadOutcome::Pending));
    assert_eq!(connection.read_frame(b""), Err(Error::ConnectionReset));
}

#[test]
fn frame_arrives_in_pieces() {
    let mut connection = Connection::new();
    assert_eq!(connection.read_frame(b"*2\r\n$3\r\nGE"), Ok(ReadOutcome::Pending));
    assert_eq!(connection.read_frame(b"T\r\n$3\r"), Ok(ReadOutcome::Pending));
    assert_eq!(
        connection.read_frame(b"\nfoo\r\n"),
        Ok(ReadOutcome::Frame(Frame::Array(vec![
            Frame::Bulk(Bytes::from_static(b"GET")),
            Frame::Bulk(Bytes::from_static(b"foo")),
        ])))
    );
    assert_eq!(connection.parse_frame(), Ok(None));
}

#[test]
fn split_at_every_offset_gives_the_same_frame() {
    let bytes = b"*3\r\n$3\r\nSET\r\n$3\r\nfoo\r\n*2\r\n:12\r\n+ok\r\n".to_vec();
    let frame = Frame::Array(vec![
        Frame::Bulk(Bytes::from_static(b"SET")),
        Frame::Bulk(Bytes::from_static(b"foo")),
        Frame::Array(vec![Frame::Integer(12), Frame::Simple("ok".to_string())]),
    ]);
    for cut in 1..bytes.len() {
        let mut connection = Connection::new();
        assert_eq!(connection.read_frame(&bytes[..cut]), Ok(ReadOutcome::Pending));
        match connection.read_frame(&bytes[cut..]) {
            Ok(ReadOutcome::Frame(got)) => assert_eq!(got, frame),
            other => panic!("cut at {}: {:?}", cut, other),
        }
        assert_eq!(connection.parse_frame(), Ok(None));
        assert_eq!(connection.read_frame(b""), Ok(ReadOutcome::Closed));
    }
}

#[test]
fn two_frames_in_one_read() {
    let mut connection = Connection::new();
    assert_eq!(
        connection.read_frame(b":1\r\n:2\r\n:3"),
        Ok(ReadOutcome::Frame(Frame::Integer(1)))
    );
    assert_eq!(connection.parse_frame(), Ok(Some(Frame::Integer(2))));
    assert_eq!(connection.parse_frame(), Ok(None));
    assert_eq!(connection.read_frame(b"\r\n"), Ok(ReadOutcome::Frame(Frame::Integer(3))));
}

#[test]
fn malformed_input_is_an_error_and_stays_buffered() {
    let mut connection = Connection::new();
    assert_eq!(connection.read_frame(b"!oops\r\n"), Err(Error::InvalidFrameType(b'!')));
    assert_eq!(connection.parse_frame(), Err(Error::InvalidFrameType(b'!')));
    let mut connection = Connection::new();
    assert_eq!(connection.read_frame(b":1x\r\n"), Err(Error::InvalidFrameFormat));
    let mut connection = Connection::new();
    assert_eq!(connection.read_frame(b"+\xff\r\n"), Err(Error::InvalidText));
}

#[test]
fn reading_leaves_written_bytes_alone() {
    let mut connection = Connection::new();
    connection.write_frame(&Frame::Null);
    assert_eq!(connection.read_frame(b":5\r\n"), Ok(ReadOutcome::Frame(Frame::Integer(5))));
    assert_eq!(connection.take_output(), b"$-1\r\n".to_vec());
}
