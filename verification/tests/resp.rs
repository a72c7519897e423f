//! RESP2 values: encoding, parsing, and the streaming buffer.
use distributed_cache::resp::debug::tagged;
use distributed_cache::resp::model::ErrorKind;
use distributed_cache::resp::parser::{parse_frame, FrameError, RespBuffer, RespValue};


// ---- SimpleString -----------------------------------------------------

#[test]
fn parse_simple_string_ok() {
    let input = b"+OK\r\n";
    let (rem, val) = parse_frame(input).unwrap();
    assert!(rem.is_empty());
    assert_eq!(val, RespValue::SimpleString("OK".into()));
}

#[test]
fn parse_simple_string_with_spaces() {
    let input = b"+hello world\r\n";
    let (rem, val) = parse_frame(input).unwrap();
    assert!(rem.is_empty());
    assert_eq!(val, RespValue::SimpleString("hello world".into()));
}

#[test]
fn encode_simple_string_roundtrip() {
    let v = RespValue::SimpleString("PONG".into());
    assert_eq!(v.encode(), b"+PONG\r\n");
    let (_, parsed) = parse_frame(&v.encode()).unwrap();
    assert_eq!(parsed, v);
}

// ---- Error ------------------------------------------------------------

#[test]
fn parse_error_ok() {
    let input = b"-ERR\r\n";
    let (rem, val) = parse_frame(input).unwrap();
    assert!(rem.is_empty());
    assert_eq!(val, RespValue::Error("ERR".into()));
}

#[test]
fn parse_error_with_message() {
    let input =
        b"-WRONGTYPE Operation against a key holding the wrong kind of value\r\n";
    let (rem, val) = parse_frame(input).unwrap();
    assert!(rem.is_empty());
    assert_eq!(
        val,
        RespValue::Error(
            "WRONGTYPE Operation against a key holding the wrong kind of value"
                .into()
        )
    );
}

#[test]
fn encode_error_roundtrip() {
    let v = RespValue::Error("ERR unknown command".into());
    assert_eq!(v.encode(), b"-ERR unknown command\r\n");
    let (_, parsed) = parse_frame(&v.encode()).unwrap();
    assert_eq!(parsed, v);
}

// ---- Integer ----------------------------------------------------------

#[test]
fn parse_integer_positive() {
    let input = b":1000\r\n";
    let (rem, val) = parse_frame(input).unwrap();
    assert!(rem.is_empty());
    assert_eq!(val, RespValue::Integer(1000));
}

#[test]
fn parse_integer_zero() {
    let input = b":0\r\n";
    let (rem, val) = parse_frame(input).unwrap();
    assert!(rem.is_empty());
    assert_eq!(val, RespValue::Integer(0));
}

#[test]
fn parse_integer_negative() {
    let input = b":-1\r\n";
    let (rem, val) = parse_frame(input).unwrap();
    assert!(rem.is_empty());
    assert_eq!(val, RespValue::Integer(-1));
}

#[test]
fn encode_integer_roundtrip() {
    let v = RespValue::Integer(-42);
    assert_eq!(v.encode(), b":-42\r\n");
    let (_, parsed) = parse_frame(&v.encode()).unwrap();
    assert_eq!(parsed, v);
}

// ---- BulkString -------------------------------------------------------

#[test]
fn parse_bulk_string() {
    let input = b"$5\r\nhello\r\n";
    let (rem, val) = parse_frame(input).unwrap();
    assert!(rem.is_empty());
    assert_eq!(val, RespValue::BulkString(Some(b"hello".to_vec())));
}

#[test]
fn parse_null_bulk_string() {
    let input = b"$-1\r\n";
    let (rem, val) = parse_frame(input).unwrap();
    assert!(rem.is_empty());
    assert_eq!(val, RespValue::BulkString(None));
}

#[test]
fn parse_empty_bulk_string() {
    let input = b"$0\r\n\r\n";
    let (rem, val) = parse_frame(input).unwrap();
    assert!(rem.is_empty());
    assert_eq!(val, RespValue::BulkString(Some(b"".to_vec())));
}

#[test]
fn parse_bulk_string_binary() {
    // Bulk strings can contain \r\n inside the data itself
    let data = b"he\r\nllo";
    let input = format!("${}\r\n", data.len());
    let mut full = input.into_bytes();
    full.extend_from_slice(data);
    full.extend_from_slice(b"\r\n");

    let (rem, val) = parse_frame(&full).unwrap();
    assert!(rem.is_empty());
    assert_eq!(val, RespValue::BulkString(Some(data.to_vec())));
}

#[test]
fn encode_bulk_string_roundtrip() {
    let v = RespValue::BulkString(Some(b"world".to_vec()));
    assert_eq!(v.encode(), b"$5\r\nworld\r\n");
    let (_, parsed) = parse_frame(&v.encode()).unwrap();
    assert_eq!(parsed, v);
}

#[test]
fn encode_null_bulk_string_roundtrip() {
    let v = RespValue::BulkString(None);
    assert_eq!(v.encode(), b"$-1\r\n");
    let (_, parsed) = parse_frame(&v.encode()).unwrap();
    assert_eq!(parsed, v);
}

// ---- Array ------------------------------------------------------------

#[test]
fn parse_array_two_simple_strings() {
    let input = b"*2\r\n+OK\r\n+NO\r\n";
    let (rem, val) = parse_frame(input).unwrap();
    assert!(rem.is_empty());
    assert_eq!(
        val,
        RespValue::Array(Some(vec![
            RespValue::SimpleString("OK".into()),
            RespValue::SimpleString("NO".into()),
        ]))
    );
}

#[test]
fn parse_null_array() {
    let input = b"*-1\r\n";
    let (rem, val) = parse_frame(input).unwrap();
    assert!(rem.is_empty());
    assert_eq!(val, RespValue::Array(None));
}

#[test]
fn parse_empty_array() {
    let input = b"*0\r\n";
    let (rem, val) = parse_frame(input).unwrap();
    assert!(rem.is_empty());
    assert_eq!(val, RespValue::Array(Some(vec![])));
}

#[test]
fn parse_array_mixed_types() {
    // *3\r\n+OK\r\n:42\r\n$-1\r\n
    let input = b"*3\r\n+OK\r\n:42\r\n$-1\r\n";
    let (rem, val) = parse_frame(input).unwrap();
    assert!(rem.is_empty());
    assert_eq!(
        val,
        RespValue::Array(Some(vec![
            RespValue::SimpleString("OK".into()),
            RespValue::Integer(42),
            RespValue::BulkString(None),
        ]))
    );
}

#[test]
fn parse_nested_array() {
    // *2\r\n*1\r\n+OK\r\n+NO\r\n
    let input = b"*2\r\n*1\r\n+OK\r\n+NO\r\n";
    let (rem, val) = parse_frame(input).unwrap();
    assert!(rem.is_empty());
    assert_eq!(
        val,
        RespValue::Array(Some(vec![
            RespValue::Array(Some(vec![RespValue::SimpleString("OK".into())])),
            RespValue::SimpleString("NO".into()),
        ]))
    );
}

#[test]
fn parse_array_bulk_strings() {
    // *2\r\n$3\r\nSET\r\n$5\r\nmykey\r\n
    let input = b"*2\r\n$3\r\nSET\r\n$5\r\nmykey\r\n";
    let (rem, val) = parse_frame(input).unwrap();
    assert!(rem.is_empty());
    assert_eq!(
        val,
        RespValue::Array(Some(vec![
            RespValue::BulkString(Some(b"SET".to_vec())),
            RespValue::BulkString(Some(b"mykey".to_vec())),
        ]))
    );
}

#[test]
fn encode_array_roundtrip() {
    let v = RespValue::Array(Some(vec![
        RespValue::BulkString(Some(b"GET".to_vec())),
        RespValue::BulkString(Some(b"key".to_vec())),
    ]));
    assert_eq!(v.encode(), b"*2\r\n$3\r\nGET\r\n$3\r\nkey\r\n");
    let (_, parsed) = parse_frame(&v.encode()).unwrap();
    assert_eq!(parsed, v);
}

#[test]
fn encode_null_array() {
    let v = RespValue::Array(None);
    assert_eq!(v.encode(), b"*-1\r\n");
}

// ---- Edge cases -------------------------------------------------------

#[test]
fn empty_input_returns_incomplete() {
    let result = parse_frame(b"");
    assert!(matches!(result, Err(FrameError::Incomplete)));
}

#[test]
fn partial_input_returns_incomplete() {
    // Only "$5\r\nhel" — not enough data
    let result = parse_frame(b"$5\r\nhel");
    assert!(matches!(result, Err(FrameError::Incomplete)));
}

#[test]
fn invalid_first_byte_returns_error() {
    let result = parse_frame(b"~hello\r\n");
    assert!(result.is_err());
}

// ---- Streaming buffer tests -------------------------------------------

#[test]
fn resp_buffer_accumulates_and_extracts() {
    let mut buf = RespBuffer::new();

    // Feed partial data
    buf.feed(b"+OK\r");
    assert!(buf.try_parse().unwrap().is_none());

    // Now feed the rest
    buf.feed(b"\n");
    let val = buf.try_parse().unwrap().expect("should parse now");
    assert_eq!(val, RespValue::SimpleString("OK".into()));
    assert!(buf.pending().is_empty());
}

#[test]
fn resp_buffer_multiple_frames() {
    let mut buf = RespBuffer::new();
    buf.feed(b"+OK\r\n+GOOD\r\n");

    let v1 = buf.try_parse().unwrap().expect("first frame");
    assert_eq!(v1, RespValue::SimpleString("OK".into()));

    let v2 = buf.try_parse().unwrap().expect("second frame");
    assert_eq!(v2, RespValue::SimpleString("GOOD".into()));

    assert!(buf.pending().is_empty());
}

#[test]
fn resp_buffer_handles_garbage() {
    let mut buf = RespBuffer::new();
    buf.feed(b"~garbage\r\n+OK\r\n");

    // Every call skips a byte, so go on until a valid frame appears.
    let val = loop {
        match buf.try_parse() {
            Ok(Some(v)) => break v,
            Err(_) => continue, // draining garbage
            Ok(None) => panic!("unexpected incomplete frame"),
        }
    };

    assert_eq!(val, RespValue::SimpleString("OK".into()));
}

#[test]
fn resp_buffer_keeps_remaining() {
    let mut buf = RespBuffer::new();
    buf.feed(b"+A\r\n+");

    let val = buf.try_parse().unwrap().expect("first frame");
    assert_eq!(val, RespValue::SimpleString("A".into()));

    // Buffer should now contain "+", and more data is needed
    assert!(buf.try_parse().unwrap().is_none());
}

// ---- Round trips and errors -------------------------------------------------

fn sample_values() -> Vec<RespValue> {
    vec![
        RespValue::SimpleString("".into()),
        RespValue::SimpleString("na\rïve \n text".into()),
        RespValue::Error("ERR something".into()),
        RespValue::Integer(i64::MIN),
        RespValue::Integer(i64::MAX),
        RespValue::Integer(0),
        RespValue::BulkString(None),
        RespValue::BulkString(Some(vec![0, 13, 10, 255])),
        RespValue::Array(None),
        RespValue::Array(Some(vec![])),
        RespValue::Array(Some(vec![
            RespValue::Array(Some(vec![RespValue::Integer(-7)])),
            RespValue::BulkString(Some(b"x".to_vec())),
        ])),
    ]
}

#[test]
fn every_value_is_read_back() {
    for v in sample_values() {
        let mut bytes = v.encode();
        let size = bytes.len();
        bytes.extend_from_slice(b"+REST\r\n");
        let (rest, parsed) = parse_frame(&bytes).unwrap();
        assert_eq!(parsed, v);
        assert_eq!(rest, &bytes[size..]);
    }
}

#[test]
fn every_prefix_is_incomplete() {
    for v in sample_values() {
        let bytes = v.encode();
        for n in 0..bytes.len() {
            assert_eq!(parse_frame(&bytes[..n]), Err(FrameError::Incomplete));
        }
    }
}

#[test]
fn text_with_a_line_end_is_not_read_back() {
    let v = RespValue::SimpleString("a\r\nb".into());
    let bytes = v.encode();
    let (rest, parsed) = parse_frame(&bytes).unwrap();
    assert_eq!(parsed, RespValue::SimpleString("a".into()));
    assert_eq!(rest, b"b\r\n");
}

#[test]
fn pieces_do_not_matter() {
    let mut stream = Vec::new();
    for v in sample_values() {
        stream.extend_from_slice(&v.encode());
    }
    for size in 1..9 {
        let mut buf = RespBuffer::new();
        let mut seen = Vec::new();
        for piece in stream.chunks(size) {
            buf.feed(piece);
            while let Some(v) = buf.try_parse().unwrap() {
                seen.push(v);
            }
        }
        assert_eq!(seen, sample_values());
        assert!(buf.pending().is_empty());
    }
}

#[test]
fn text_that_is_no_utf8_is_replaced() {
    let (_, val) = parse_frame(b"+a\xffb\r\n").unwrap();
    assert_eq!(val, RespValue::SimpleString("a\u{fffd}b".into()));
    let (_, val) = parse_frame(b"+caf\xc3\xa9\r\n").unwrap();
    assert_eq!(val, RespValue::SimpleString("café".into()));
}

#[test]
fn errors_tell_what_was_expected() {
    let err = |code, at| Err(FrameError::Error { code, at });
    assert_eq!(parse_frame(b"~x"), err(ErrorKind::Char, 0));
    assert_eq!(parse_frame(b":x\r\n"), err(ErrorKind::Char, 0));
    assert_eq!(parse_frame(b"$1\r\nab"), err(ErrorKind::Char, 0));
    assert_eq!(parse_frame(b"*x\r\n"), err(ErrorKind::Digit, 1));
    assert_eq!(parse_frame(b"*-\r\n"), err(ErrorKind::Digit, 2));
    assert_eq!(parse_frame(b"*99999999999999999999\r\n"), err(ErrorKind::MapRes, 1));
    assert_eq!(parse_frame(b"*1x\r\n"), err(ErrorKind::CrLf, 2));
    assert_eq!(parse_frame(b"*2\r\n+a\r\n~"), err(ErrorKind::Char, 8));
    // No length and no count is below -1.
    assert_eq!(parse_frame(b"*-2\r\n+a\r\n"), err(ErrorKind::MapRes, 1));
    assert_eq!(parse_frame(b"$-2\r\n"), err(ErrorKind::Char, 0));
    assert_eq!(parse_frame(b"*1\r\n*-9223372036854775808\r\n"), err(ErrorKind::MapRes, 5));
    assert_eq!(parse_frame(b"*-2"), Err(FrameError::Incomplete));
}

#[test]
fn error_messages_and_skipped_bytes() {
    let mut buf = RespBuffer::default();
    buf.feed(b"~*x\r\n*1x*99999999999999999999\r\n");
    assert_eq!(buf.try_parse(), Err("RESP parse error: Char".to_string()));
    assert_eq!(buf.pending(), b"*x\r\n*1x*99999999999999999999\r\n");
    assert_eq!(buf.try_parse(), Err("RESP parse error: Digit".to_string()));
    assert_eq!(buf.pending(), b"x\r\n*1x*99999999999999999999\r\n");
    for _ in 0..3 {
        assert_eq!(buf.try_parse(), Err("RESP parse error: Char".to_string()));
    }
    assert_eq!(buf.try_parse(), Err("RESP parse error: CrLf".to_string()));
    assert_eq!(buf.pending(), b"x*99999999999999999999\r\n");
    assert_eq!(buf.try_parse(), Err("RESP parse error: Char".to_string()));
    assert_eq!(buf.try_parse(), Err("RESP parse error: MapRes".to_string()));
    assert_eq!(buf.pending(), b"99999999999999999999\r\n");
}

#[test]
fn lengths_below_minus_one_are_no_resp2() {
    let mut buf = RespBuffer::new();
    buf.feed(b"$-2\r\n");
    assert!(buf.try_parse().is_err());
    assert_eq!(buf.pending(), b"-2\r\n");
    let mut buf = RespBuffer::new();
    buf.feed(b"*-3\r\n+OK\r\n");
    assert_eq!(buf.try_parse(), Err("RESP parse error: MapRes".to_string()));
    assert_eq!(buf.pending(), b"-3\r\n+OK\r\n");
}

#[test]
fn no_encoding_is_a_prefix_of_another() {
    let values = sample_values();
    for (i, v) in values.iter().enumerate() {
        for (j, w) in values.iter().enumerate() {
            assert_eq!(w.encode().starts_with(&v.encode()), i == j);
        }
    }
}

#[test]
fn values_are_shown_as_debug_shows_them() {
    for v in sample_values() {
        assert_eq!(v.debug_string(), format!("{:?}", v));
    }
    let quoted = RespValue::SimpleString("a\"b\\c\n\u{1f600}".into());
    assert_eq!(quoted.debug_string(), format!("{:?}", quoted));
    assert_eq!(
        RespValue::BulkString(Some(b"hi".to_vec())).debug_string(),
        "BulkString(Some([104, 105]))"
    );
}

#[test]
fn tags() {
    assert_eq!(tagged("Error", "\"x\""), "Error(\"x\")");
}

#[test]
fn a_clone_is_equal() {
    for v in sample_values() {
        assert_eq!(v.clone(), v);
    }
}
