use bytes::Bytes;
use std::time::Duration;
use w_redis::cmd::{Command, Get, SetCmd, Unknown};
use w_redis::connection::Connection;
use w_redis::db::Db;
use w_redis::frame::Frame;
use w_redis::parse::{Parse, ParseError};
use w_redis::Error;

fn bulk(bytes: &'static [u8]) -> Frame {
    Frame::Bulk(Bytes::from_static(bytes))
}

fn request(parts: Vec<Frame>) -> Frame {
    Frame::Array(parts)
}

fn parse_error(frame: Frame) -> Error {
    match Command::from_frame(frame) {
        Err(e) => e,
        Ok(cmd) => panic!("expected an error, got {:?}", cmd),
    }
}

#[test]
fn parse_needs_an_array() {
    assert!(matches!(Parse::new(Frame::Null), Err(ParseError::Other(Error::ExpectedArray))));
    assert!(matches!(
        Parse::new(Frame::Simple("GET".to_string())),
        Err(ParseError::Other(Error::ExpectedArray))
    ));
    assert!(Parse::new(Frame::Array(vec![])).is_ok());
}

#[test]
fn parse_hands_out_in_order() {
    let frames = vec![Frame::Integer(1), Frame::Integer(2), Frame::Null];
    let mut parse = Parse::new(request(frames)).unwrap();
    assert_eq!(parse.next().unwrap(), Frame::Integer(1));
    assert_eq!(parse.next().unwrap(), Frame::Integer(2));
    assert_eq!(parse.next().unwrap(), Frame::Null);
    assert_eq!(parse.next().unwrap_err(), ParseError::EndOfStream);
    assert_eq!(parse.next().unwrap_err(), ParseError::EndOfStream);
}

#[test]
fn next_string_takes_simple_and_bulk() {
    let mut parse = Parse::new(request(vec![
        Frame::Simple("one".to_string()),
        bulk(b"two"),
        bulk(b"\xff"),
        Frame::Integer(3),
        Frame::Null,
    ]))
    .unwrap();
    assert_eq!(parse.next_string(), Ok("one".to_string()));
    assert_eq!(parse.next_string(), Ok("two".to_string()));
    assert_eq!(parse.next_string(), Err(ParseError::Other(Error::InvalidString)));
    assert_eq!(parse.next_string(), Err(ParseError::Other(Error::ExpectedString)));
    assert_eq!(parse.next_string(), Err(ParseError::Other(Error::ExpectedString)));
    assert_eq!(parse.next_string(), Err(ParseError::EndOfStream));
}

#[test]
fn next_bytes_takes_simple_and_bulk() {
    let mut parse = Parse::new(request(vec![
        Frame::Simple("one".to_string()),
        bulk(b"\xff\x00"),
        Frame::Integer(3),
    ]))
    .unwrap();
    assert_eq!(parse.next_bytes(), Ok(Bytes::from_static(b"one")));
    assert_eq!(parse.next_bytes(), Ok(Bytes::from_static(b"\xff\x00")));
    assert_eq!(parse.next_bytes(), Err(ParseError::Other(Error::ExpectedBytes)));
    assert_eq!(parse.next_bytes(), Err(ParseError::EndOfStream));
}

#[test]
fn next_int_takes_integers_and_decimal_text() {
    let mut parse = Parse::new(request(vec![
        Frame::Integer(7),
        Frame::Simple("12".to_string()),
        bulk(b"0034"),
        bulk(b"3x"),
        Frame::Simple("-1".to_string()),
        bulk(b"18446744073709551616"),
        Frame::Null,
    ]))
    .unwrap();
    assert_eq!(parse.next_int(), Ok(7));
    assert_eq!(parse.next_int(), Ok(12));
    assert_eq!(parse.next_int(), Ok(34));
    assert_eq!(parse.next_int(), Err(ParseError::Other(Error::InvalidNumber)));
    assert_eq!(parse.next_int(), Err(ParseError::Other(Error::InvalidNumber)));
    assert_eq!(parse.next_int(), Err(ParseError::Other(Error::InvalidNumber)));
    assert_eq!(parse.next_int(), Err(ParseError::Other(Error::ExpectedInteger)));
    assert_eq!(parse.next_int(), Err(ParseError::EndOfStream));
}

#[test]
fn finish_wants_nothing_left() {
    let mut parse = Parse::new(request(vec![Frame::Null])).unwrap();
    assert_eq!(parse.finish(), Err(ParseError::Other(Error::TrailingArguments)));
    assert_eq!(parse.finish(), Ok(()));
}

#[test]
fn parse_error_converts_both_ways() {
    assert_eq!(ParseError::from(Error::InvalidString), ParseError::Other(Error::InvalidString));
    assert_eq!(Error::from(ParseError::EndOfStream), Error::EndOfStream);
    assert_eq!(Error::from(ParseError::Other(Error::ExpectedArray)), Error::ExpectedArray);
    assert_eq!(ParseError::EndOfStream.message(), "protocol error; unexpected end of stream");
    assert_eq!(ParseError::Other(Error::InvalidString).message(), "protocol error; invalid string");
}

#[test]
fn get_is_parsed() {
    match Command::from_frame(request(vec![bulk(b"GET"), bulk(b"foo")])) {
        Ok(Command::Get(get)) => assert_eq!(get.key(), "foo"),
        other => panic!("{:?}", other),
    }
}

#[test]
fn command_name_is_taken_in_any_case() {
    for name in [&b"get"[..], b"Get", b"gEt", b"GET"] {
        let frame = request(vec![Frame::Bulk(Bytes::copy_from_slice(name)), bulk(b"k")]);
        assert!(matches!(Command::from_frame(frame), Ok(Command::Get(_))));
    }
    let frame = request(vec![Frame::Simple("sEt".to_string()), bulk(b"k"), bulk(b"v")]);
    assert!(matches!(Command::from_frame(frame), Ok(Command::SetCmd(_))));
}

#[test]
fn get_without_key_ends_early() {
    assert_eq!(parse_error(request(vec![bulk(b"GET")])), Error::EndOfStream);
}

#[test]
fn get_with_more_than_a_key_is_refused() {
    assert_eq!(
        parse_error(request(vec![bulk(b"GET"), bulk(b"a"), bulk(b"b")])),
        Error::TrailingArguments
    );
}

#[test]
fn get_key_must_be_text() {
    assert_eq!(parse_error(request(vec![bulk(b"GET"), Frame::Integer(1)])), Error::ExpectedString);
    assert_eq!(parse_error(request(vec![bulk(b"GET"), bulk(b"\xff")])), Error::InvalidString);
}

#[test]
fn request_must_be_an_array_with_a_name() {
    assert_eq!(parse_error(bulk(b"GET")), Error::ExpectedArray);
    assert_eq!(parse_error(Frame::Array(vec![])), Error::EndOfStream);
    assert_eq!(parse_error(request(vec![Frame::Integer(1)])), Error::ExpectedString);
    assert_eq!(parse_error(request(vec![bulk(b"\xff")])), Error::InvalidString);
}

#[test]
fn set_is_parsed() {
    match Command::from_frame(request(vec![bulk(b"SET"), bulk(b"foo"), bulk(b"\xffbar")])) {
        Ok(Command::SetCmd(set)) => {
            assert_eq!(set.key(), "foo");
            assert_eq!(set.value(), &Bytes::from_static(b"\xffbar"));
            assert_eq!(set.expire(), None);
        }
        other => panic!("{:?}", other),
    }
}

#[test]
fn set_with_seconds() {
    let frame = request(vec![bulk(b"SET"), bulk(b"k"), bulk(b"v"), bulk(b"EX"), bulk(b"90")]);
    match Command::from_frame(frame) {
        Ok(Command::SetCmd(set)) => assert_eq!(set.expire(), Some(Duration::from_secs(90))),
        other => panic!("{:?}", other),
    }
}

#[test]
fn set_with_milliseconds() {
    match Command::from_frame(request(vec![
        bulk(b"SET"),
        bulk(b"k"),
        bulk(b"v"),
        bulk(b"PX"),
        Frame::Integer(2569),
    ])) {
        Ok(Command::SetCmd(set)) => {
            assert_eq!(set.expire(), Some(Duration::new(2, 569_000_000)));
        }
        other => panic!("{:?}", other),
    }
}

#[test]
fn set_with_largest_durations() {
    match Command::from_frame(request(vec![
        bulk(b"SET"),
        bulk(b"k"),
        bulk(b"v"),
        bulk(b"EX"),
        bulk(b"18446744073709551615"),
    ])) {
        Ok(Command::SetCmd(set)) => assert_eq!(set.expire(), Some(Duration::from_secs(u64::MAX))),
        other => panic!("{:?}", other),
    }
    match Command::from_frame(request(vec![
        bulk(b"SET"),
        bulk(b"k"),
        bulk(b"v"),
        bulk(b"PX"),
        bulk(b"18446744073709551615"),
    ])) {
        Ok(Command::SetCmd(set)) => {
            assert_eq!(set.expire(), Some(Duration::new(18446744073709551, 615_000_000)))
        }
        other => panic!("{:?}", other),
    }
}

#[test]
fn set_option_must_be_ex_or_px() {
    assert_eq!(
        parse_error(request(vec![bulk(b"SET"), bulk(b"k"), bulk(b"v"), bulk(b"NX")])),
        Error::UnsupportedSetOption
    );
    assert_eq!(
        parse_error(request(vec![bulk(b"SET"), bulk(b"k"), bulk(b"v"), bulk(b"ex"), bulk(b"1")])),
        Error::UnsupportedSetOption
    );
    assert_eq!(
        parse_error(request(vec![bulk(b"SET"), bulk(b"k"), bulk(b"v"), bulk(b"")])),
        Error::UnsupportedSetOption
    );
    assert_eq!(
        parse_error(request(vec![bulk(b"SET"), bulk(b"k"), bulk(b"v"), Frame::Integer(1)])),
        Error::ExpectedString
    );
}

#[test]
fn set_arguments_are_checked() {
    assert_eq!(parse_error(request(vec![bulk(b"SET")])), Error::EndOfStream);
    assert_eq!(parse_error(request(vec![bulk(b"SET"), bulk(b"k")])), Error::EndOfStream);
    assert_eq!(
        parse_error(request(vec![bulk(b"SET"), bulk(b"k"), Frame::Null])),
        Error::ExpectedBytes
    );
    assert_eq!(
        parse_error(request(vec![bulk(b"SET"), bulk(b"k"), bulk(b"v"), bulk(b"EX")])),
        Error::EndOfStream
    );
    assert_eq!(
        parse_error(request(vec![
            bulk(b"SET"),
            bulk(b"k"),
            bulk(b"v"),
            bulk(b"EX"),
            bulk(b"soon"),
        ])),
        Error::InvalidNumber
    );
    assert_eq!(
        parse_error(request(vec![bulk(b"SET"), bulk(b"k"), bulk(b"v"), bulk(b"PX"), Frame::Null])),
        Error::ExpectedInteger
    );
    assert_eq!(
        parse_error(request(vec![
            bulk(b"SET"),
            bulk(b"k"),
            bulk(b"v"),
            bulk(b"EX"),
            bulk(b"1"),
            bulk(b"more"),
        ])),
        Error::TrailingArguments
    );
}

#[test]
fn unknown_command_is_no_error() {
    match Command::from_frame(request(vec![bulk(b"PING"), bulk(b"a"), Frame::Null])) {
        Ok(Command::Unknown(unknown)) => assert_eq!(unknown.get_name(), "ping"),
        other => panic!("{:?}", other),
    }
}

#[test]
fn from_name_takes_the_name_as_it_is() {
    let mut parse = Parse::new(request(vec![bulk(b"k")])).unwrap();
    assert!(matches!(Command::from_name("get".to_string(), &mut parse), Ok(Command::Get(_))));
    let mut parse = Parse::new(request(vec![bulk(b"k")])).unwrap();
    match Command::from_name("GET".to_string(), &mut parse) {
        Ok(Command::Unknown(unknown)) => assert_eq!(unknown.get_name(), "GET"),
        other => panic!("{:?}", other),
    }
}

#[test]
fn builders_and_getters() {
    let get = Get::new("foo");
    assert_eq!(get.key(), "foo");
    let set = SetCmd::new("k", Bytes::from_static(b"v"), Some(Duration::from_millis(5)));
    assert_eq!(set.key(), "k");
    assert_eq!(set.value(), &Bytes::from_static(b"v"));
    assert_eq!(set.expire(), Some(Duration::from_millis(5)));
    let unknown = Unknown::new("flushall");
    assert_eq!(unknown.get_name(), "flushall");
}

#[test]
fn get_replies_with_value_or_null() {
    let mut db = Db::new();
    let mut dst = Connection::new();
    Get::new("foo").apply(&db, &mut dst);
    assert_eq!(dst.take_output(), b"$-1\r\n".to_vec());
    db.set("foo".to_string(), Bytes::from_static(b"bar"), None, 0);
    Get::new("foo").apply(&db, &mut dst);
    assert_eq!(dst.take_output(), b"$3\r\nbar\r\n".to_vec());
}

#[test]
fn set_stores_and_replies_ok() {
    let mut db = Db::new();
    let mut dst = Connection::new();
    let wake = SetCmd::new("foo", Bytes::from_static(b"bar"), None).apply(&mut db, &mut dst, 10);
    assert!(!wake);
    assert_eq!(dst.take_output(), b"+OK\r\n".to_vec());
    assert_eq!(db.get("foo"), Some(Bytes::from_static(b"bar")));
    let again = SetCmd::new("foo", Bytes::from_static(b"baz"), Some(Duration::from_secs(1)));
    let wake = again.apply(&mut db, &mut dst, 10);
    assert!(wake);
    assert_eq!(dst.take_output(), b"+OK\r\n".to_vec());
    assert_eq!(db.next_expiration(), Some(1_000_000_010));
}

#[test]
fn unknown_command_writes_nothing() {
    let mut db = Db::new();
    let mut dst = Connection::new();
    let cmd = Command::from_frame(request(vec![bulk(b"PING")])).unwrap();
    assert!(!cmd.apply(&mut db, &mut dst, 0));
    assert_eq!(dst.take_output(), Vec::<u8>::new());
}
