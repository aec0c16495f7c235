use bytes::Bytes;
use w_redis::connection::Connection;
use w_redis::cursor::Cursor;
use w_redis::frame::{get_decimal, get_line, get_u8, peer_u8, skip, Error, Frame};

fn parse_all(bytes: &[u8]) -> Result<Frame, Error> {
    let mut cursor = Cursor::new(bytes);
    Frame::parse(&mut cursor)
}

fn check_all(bytes: &[u8]) -> Result<usize, Error> {
    let mut cursor = Cursor::new(bytes);
    Frame::check(&mut cursor)?;
    Ok(cursor.position())
}

fn bulk(bytes: &'static [u8]) -> Frame {
    Frame::Bulk(Bytes::from_static(bytes))
}

fn encoded(frame: &Frame) -> Vec<u8> {
    let mut connection = Connection::new();
    connection.write_frame(frame);
    connection.take_output()
}

fn sample_frames() -> Vec<Frame> {
    vec![
        Frame::Simple("OK".to_string()),
        Frame::Simple(String::new()),
        Frame::Simple("caf\u{e9} \u{1f600}".to_string()),
        Frame::Simple("lone\rreturn and lone\nfeed".to_string()),
        Frame::Error("ERR unknown command".to_string()),
        Frame::Integer(0),
        Frame::Integer(42),
        Frame::Integer(u64::MAX),
        bulk(b""),
        bulk(b"bar"),
        bulk(b"\xff\xfe not text \r\n with a terminator inside"),
        Frame::Null,
        Frame::Array(vec![]),
        Frame::Array(vec![bulk(b"SET"), bulk(b"foo"), bulk(b"bar")]),
        Frame::Array(vec![
            Frame::Integer(1),
            Frame::Array(vec![Frame::Null, Frame::Array(vec![Frame::Simple("deep".to_string())])]),
            bulk(b"tail"),
        ]),
    ]
}

#[test]
fn parses_simple_string() {
    assert_eq!(parse_all(b"+OK\r\n"), Ok(Frame::Simple("OK".to_string())));
}

#[test]
fn parses_error_string() {
    assert_eq!(parse_all(b"-ERR no\r\n"), Ok(Frame::Error("ERR no".to_string())));
}

#[test]
fn parses_integer() {
    assert_eq!(parse_all(b":1234\r\n"), Ok(Frame::Integer(1234)));
    assert_eq!(parse_all(b":0\r\n"), Ok(Frame::Integer(0)));
}

#[test]
fn parses_integer_with_leading_zeros() {
    assert_eq!(parse_all(b":0042\r\n"), Ok(Frame::Integer(42)));
}

#[test]
fn parses_largest_integer_and_refuses_the_next() {
    assert_eq!(parse_all(b":18446744073709551615\r\n"), Ok(Frame::Integer(u64::MAX)));
    assert_eq!(
        parse_all(b":18446744073709551616\r\n"),
        Err(Error::Other(w_redis::Error::InvalidFrameFormat))
    );
    assert_eq!(
        check_all(b":99999999999999999999999\r\n"),
        Err(Error::Other(w_redis::Error::InvalidFrameFormat))
    );
}

#[test]
fn parses_bulk_string() {
    let mut cursor = Cursor::new(b"$3\r\nbar\r\nrest");
    assert_eq!(Frame::check(&mut cursor), Ok(()));
    assert_eq!(cursor.position(), 9);
    cursor.set_position(0);
    assert_eq!(Frame::parse(&mut cursor), Ok(bulk(b"bar")));
    assert_eq!(cursor.position(), 9);
}

#[test]
fn parses_empty_bulk_string() {
    assert_eq!(parse_all(b"$0\r\n\r\n"), Ok(bulk(b"")));
}

#[test]
fn parses_bulk_with_terminator_inside() {
    assert_eq!(parse_all(b"$4\r\na\r\nb\r\n"), Ok(bulk(b"a\r\nb")));
}

#[test]
fn parses_null() {
    assert_eq!(parse_all(b"$-1\r\n"), Ok(Frame::Null));
    assert_eq!(check_all(b"$-1\r\n"), Ok(5));
}

#[test]
fn parses_array() {
    assert_eq!(
        parse_all(b"*3\r\n$3\r\nSET\r\n$3\r\nfoo\r\n$3\r\nbar\r\n"),
        Ok(Frame::Array(vec![bulk(b"SET"), bulk(b"foo"), bulk(b"bar")]))
    );
}

#[test]
fn parses_nested_array() {
    assert_eq!(
        parse_all(b"*2\r\n*2\r\n:1\r\n$-1\r\n+x\r\n"),
        Ok(Frame::Array(vec![
            Frame::Array(vec![Frame::Integer(1), Frame::Null]),
            Frame::Simple("x".to_string()),
        ]))
    );
}

#[test]
fn parses_empty_array() {
    assert_eq!(parse_all(b"*0\r\n"), Ok(Frame::Array(vec![])));
    assert_eq!(check_all(b"*0\r\n"), Ok(4));
}

#[test]
fn line_may_hold_a_lone_return() {
    assert_eq!(parse_all(b"+a\rb\r\n"), Ok(Frame::Simple("a\rb".to_string())));
}

#[test]
fn line_stops_at_first_terminator() {
    let mut cursor = Cursor::new(b"+a\r\nb\r\n");
    assert_eq!(Frame::parse(&mut cursor), Ok(Frame::Simple("a".to_string())));
    assert_eq!(cursor.position(), 4);
}

#[test]
fn empty_input_is_incomplete() {
    assert_eq!(check_all(b""), Err(Error::Incomplete));
    assert_eq!(parse_all(b""), Err(Error::Incomplete));
}

#[test]
fn unknown_type_byte_is_refused() {
    assert_eq!(check_all(b"?3\r\n"), Err(Error::Other(w_redis::Error::InvalidFrameType(b'?'))));
    assert_eq!(parse_all(b"_x\r\n"), Err(Error::Other(w_redis::Error::InvalidFrameType(b'_'))));
}

#[test]
fn unknown_type_byte_inside_array_is_refused() {
    assert_eq!(
        check_all(b"*2\r\n:1\r\n!\r\n"),
        Err(Error::Other(w_redis::Error::InvalidFrameType(b'!')))
    );
}

#[test]
fn malformed_digits_are_a_protocol_error() {
    let format = Err(Error::Other(w_redis::Error::InvalidFrameFormat));
    assert_eq!(check_all(b":12a\r\n"), format);
    assert_eq!(check_all(b":\r\n"), format);
    assert_eq!(check_all(b":+5\r\n"), format);
    assert_eq!(check_all(b":-5\r\n"), format);
    assert_eq!(check_all(b":5 \r\n"), format);
    assert_eq!(check_all(b"*x\r\n"), format);
    assert_eq!(check_all(b"$3x\r\nabc\r\n"), format);
    assert_eq!(parse_all(b":12a\r\n"), Err(Error::Other(w_redis::Error::InvalidFrameFormat)));
}

#[test]
fn malformed_digits_without_terminator_are_incomplete() {
    assert_eq!(check_all(b":12a"), Err(Error::Incomplete));
}

#[test]
fn null_must_be_minus_one() {
    let format = Err(Error::Other(w_redis::Error::InvalidFrameFormat));
    assert_eq!(check_all(b"$-2\r\n"), format);
    assert_eq!(check_all(b"$-10\r\n"), format);
    assert_eq!(parse_all(b"$-\r\n"), Err(Error::Other(w_redis::Error::InvalidFrameFormat)));
}

#[test]
fn bulk_must_end_with_terminator() {
    let format = Err(Error::Other(w_redis::Error::InvalidFrameFormat));
    assert_eq!(check_all(b"$3\r\nfooXY"), format);
    assert_eq!(check_all(b"$3\r\nfoo\rY"), format);
    assert_eq!(
        parse_all(b"$3\r\nfoobar\r\n"),
        Err(Error::Other(w_redis::Error::InvalidFrameFormat))
    );
}

#[test]
fn bulk_shorter_than_declared_is_incomplete() {
    assert_eq!(check_all(b"$10\r\nabc\r\n"), Err(Error::Incomplete));
    assert_eq!(check_all(b"$3\r\nabc"), Err(Error::Incomplete));
    assert_eq!(check_all(b"$3\r\nabc\r"), Err(Error::Incomplete));
    assert_eq!(check_all(b"$18446744073709551615\r\nabc\r\n"), Err(Error::Incomplete));
}

#[test]
fn array_shorter_than_declared_is_incomplete() {
    assert_eq!(check_all(b"*3\r\n:1\r\n:2\r\n"), Err(Error::Incomplete));
    assert_eq!(parse_all(b"*18446744073709551615\r\n:1\r\n"), Err(Error::Incomplete));
}

#[test]
fn text_that_is_not_utf8_passes_check_and_fails_parse() {
    assert_eq!(check_all(b"+\xff\xfe\r\n"), Ok(5));
    assert_eq!(parse_all(b"+\xff\xfe\r\n"), Err(Error::Other(w_redis::Error::InvalidText)));
    assert_eq!(parse_all(b"-\xc3\r\n"), Err(Error::Other(w_redis::Error::InvalidText)));
}

#[test]
fn check_and_parse_stop_at_the_same_byte() {
    for frame in sample_frames() {
        let mut bytes = encoded(&frame);
        let len = bytes.len();
        bytes.extend_from_slice(b"+more\r\n");
        assert_eq!(check_all(&bytes), Ok(len));
        let mut cursor = Cursor::new(&bytes);
        assert_eq!(Frame::parse(&mut cursor), Ok(frame));
        assert_eq!(cursor.position(), len);
    }
}

#[test]
fn encode_then_decode_gives_the_frame_back() {
    for frame in sample_frames() {
        let bytes = encoded(&frame);
        assert_eq!(check_all(&bytes), Ok(bytes.len()));
        assert_eq!(parse_all(&bytes), Ok(frame));
    }
}

#[test]
fn every_proper_prefix_is_incomplete() {
    for frame in sample_frames() {
        let bytes = encoded(&frame);
        for cut in 0..bytes.len() {
            assert_eq!(check_all(&bytes[..cut]), Err(Error::Incomplete));
        }
    }
}

#[test]
fn text_with_terminator_inside_does_not_come_back() {
    let frame = Frame::Simple("a\r\nb".to_string());
    let bytes = encoded(&frame);
    assert_eq!(bytes, b"+a\r\nb\r\n".to_vec());
    assert_eq!(parse_all(&bytes), Ok(Frame::Simple("a".to_string())));
}

#[test]
fn get_u8_reads_and_moves() {
    let mut cursor = Cursor::new(b"ab");
    assert_eq!(get_u8(&mut cursor), Ok(b'a'));
    assert_eq!(get_u8(&mut cursor), Ok(b'b'));
    assert_eq!(get_u8(&mut cursor), Err(Error::Incomplete));
    assert_eq!(cursor.position(), 2);
}

#[test]
fn peer_u8_reads_and_stays() {
    let mut cursor = Cursor::new(b"ab");
    assert_eq!(peer_u8(&mut cursor), Ok(b'a'));
    assert_eq!(cursor.position(), 0);
    cursor.set_position(2);
    assert_eq!(peer_u8(&mut cursor), Err(Error::Incomplete));
}

#[test]
fn skip_moves_or_reports_incomplete() {
    let mut cursor = Cursor::new(b"abcd");
    assert_eq!(skip(&mut cursor, 3), Ok(()));
    assert_eq!(cursor.position(), 3);
    assert_eq!(skip(&mut cursor, 2), Err(Error::Incomplete));
    assert_eq!(cursor.position(), 3);
    assert_eq!(skip(&mut cursor, 1), Ok(()));
    assert_eq!(skip(&mut cursor, 0), Ok(()));
    assert_eq!(cursor.position(), 4);
}

#[test]
fn get_line_takes_up_to_terminator() {
    let mut cursor = Cursor::new(b"one\r\ntwo\r\nthree");
    assert_eq!(get_line(&mut cursor), Ok(&b"one"[..]));
    assert_eq!(cursor.position(), 5);
    assert_eq!(get_line(&mut cursor), Ok(&b"two"[..]));
    assert_eq!(cursor.position(), 10);
    assert_eq!(get_line(&mut cursor), Err(Error::Incomplete));
    assert_eq!(cursor.position(), 10);
}

#[test]
fn get_line_on_empty_input_is_incomplete() {
    let mut cursor = Cursor::new(b"");
    assert_eq!(get_line(&mut cursor), Err(Error::Incomplete));
    let mut cursor = Cursor::new(b"\r");
    assert_eq!(get_line(&mut cursor), Err(Error::Incomplete));
    let mut cursor = Cursor::new(b"\r\n");
    assert_eq!(get_line(&mut cursor), Ok(&b""[..]));
}

#[test]
fn get_decimal_reads_a_number_line() {
    let mut cursor = Cursor::new(b"250\r\nx");
    assert_eq!(get_decimal(&mut cursor), Ok(250));
    assert_eq!(cursor.position(), 5);
    let mut cursor = Cursor::new(b"25o\r\n");
    assert_eq!(get_decimal(&mut cursor), Err(Error::Other(w_redis::Error::InvalidFrameFormat)));
    let mut cursor = Cursor::new(b"250");
    assert_eq!(get_decimal(&mut cursor), Err(Error::Incomplete));
}

#[test]
fn cursor_reports_what_is_left() {
    let mut cursor = Cursor::new(b"abc");
    assert_eq!(cursor.remaining(), 3);
    assert!(cursor.has_remaining());
    assert_eq!(cursor.chunk(), b"abc");
    cursor.advance(2);
    assert_eq!(cursor.remaining(), 1);
    assert_eq!(cursor.chunk(), b"c");
    assert_eq!(cursor.get_u8(), b'c');
    assert!(!cursor.has_remaining());
    assert_eq!(cursor.chunk(), b"");
    cursor.set_position(10);
    assert_eq!(cursor.remaining(), 0);
    assert_eq!(cursor.get_ref(), b"abc");
}

#[test]
fn frame_error_becomes_crate_error() {
    assert_eq!(w_redis::Error::from(Error::Incomplete), w_redis::Error::Incomplete);
    assert_eq!(
        w_redis::Error::from(Error::Other(w_redis::Error::InvalidText)),
        w_redis::Error::InvalidText
    );
}
