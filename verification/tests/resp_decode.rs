use bytes::BytesMut;
use simple_redis::resp::decode::decode_frame;
use simple_redis::resp::error::RespError;
use simple_redis::resp::frame::{
    Double, NullArray, NullBulkString, RespFrame, RespMap, RespNull, RespSet, SimpleError,
    SimpleString,
};
use simple_redis::resp::typed::{RespDecode, RespEncode, MAX_DEPTH};

fn as_f64(value: &Double) -> f64 {
    let bytes = value.encode();
    let text = String::from_utf8(bytes[1..bytes.len() - 2].to_vec()).unwrap();
    text.parse::<f64>().unwrap()
}

fn simple(text: &str) -> RespFrame {
    RespFrame::SimpleString(SimpleString::new(text))
}

#[test]
fn test_string_decode() {
    let bytes = BytesMut::from("+ok\r\n");
    let (simple_string, used) = SimpleString::decode(&bytes).unwrap();
    assert_eq!(simple_string, SimpleString::from("ok"));
    assert_eq!(used, 5);
}

#[test]
fn test_i64_decode() {
    let bytes = BytesMut::from(":+12\r\n");
    let num = i64::decode(&bytes).unwrap().0;
    assert_eq!(num, 12);

    let bytes = BytesMut::from(":-121\r\n");
    let num = i64::decode(&bytes).unwrap().0;
    assert_eq!(num, -121);
}

#[test]
fn test_bulk_string_decode() {
    let bytes = BytesMut::from("$12\r\nhello world!\r\n");
    let (bulk_string, used) = Vec::<u8>::decode(&bytes).unwrap();
    assert_eq!(bulk_string, Vec::from("hello world!"));
    assert_eq!(used, 19);
}

#[test]
fn test_null_bulk_string_decode() {
    let bytes = BytesMut::from("$-1\r\n");
    let null_bulk_string = NullBulkString::decode(&bytes).unwrap().0;
    assert_eq!(null_bulk_string, NullBulkString::default());
}

#[test]
fn test_null_array_decode() {
    let bytes = BytesMut::from("*-1\r\n");
    let null_array = NullArray::decode(&bytes).unwrap().0;
    assert_eq!(null_array, NullArray::default());
}

#[test]
fn test_resp_null_decode() {
    let bytes = BytesMut::from("_\r\n");
    let resp_null = RespNull::decode(&bytes).unwrap().0;
    assert_eq!(resp_null, RespNull::default());
}

#[test]
fn test_bool_decode() {
    let bytes = BytesMut::from("#t\r\n");
    let true_value = bool::decode(&bytes).unwrap().0;
    assert_eq!(true_value, true);

    let bytes = BytesMut::from("#f\r\n");
    let false_value = bool::decode(&bytes).unwrap().0;
    assert_eq!(false_value, false);
}

#[test]
fn test_double_decode() {
    let bytes = BytesMut::from(",+12.1\r\n");
    let value = Double::decode(&bytes).unwrap().0;
    assert_eq!(value, Double::Finite { negative: false, mantissa: 121, exponent: -1 });
    assert_eq!(as_f64(&value), 12.1_f64);

    let bytes = BytesMut::from(",12.1\r\n");
    let value = Double::decode(&bytes).unwrap().0;
    assert_eq!(value, Double::Finite { negative: false, mantissa: 121, exponent: -1 });
    assert_eq!(as_f64(&value), 12.1_f64);

    let bytes = BytesMut::from(",-31.415\r\n");
    let value = Double::decode(&bytes).unwrap().0;
    assert_eq!(value, Double::Finite { negative: true, mantissa: 31415, exponent: -3 });
    assert_eq!(as_f64(&value), -31.415_f64);

    let bytes = BytesMut::from(",abcder\r\n");
    let value = Double::decode(&bytes).unwrap().0;
    assert_eq!(value, Double::Nan);
    assert!(f64::is_nan(as_f64(&value)));

    let bytes = BytesMut::from(",+inf\r\n");
    let value = Double::decode(&bytes).unwrap().0;
    assert_eq!(value, Double::Infinity { negative: false });
    assert!(f64::is_sign_positive(as_f64(&value)) && f64::is_infinite(as_f64(&value)));

    let bytes = BytesMut::from(",-inf\r\n");
    let value = Double::decode(&bytes).unwrap().0;
    assert_eq!(value, Double::Infinity { negative: true });
    assert!(f64::is_sign_negative(as_f64(&value)) && f64::is_infinite(as_f64(&value)));
}

#[test]
fn decodes_an_array_and_counts_its_bytes() {
    let (frame, used) = decode_frame(b"*2\r\n+a\r\n+b\r\n", MAX_DEPTH).unwrap();
    assert_eq!(frame, RespFrame::Array(vec![simple("a"), simple("b")]));
    assert_eq!(used, 12);
}

#[test]
fn leaves_what_follows_the_frame_alone() {
    let (frame, used) = decode_frame(b":+7\r\n+next\r\n", MAX_DEPTH).unwrap();
    assert_eq!(frame, RespFrame::Integer(7));
    assert_eq!(used, 5);
}

#[test]
fn decodes_nested_containers() {
    let bytes = b"*2\r\n*1\r\n:-3\r\n%1\r\n+k\r\n~2\r\n#t\r\n_\r\n";
    let (frame, used) = decode_frame(bytes, MAX_DEPTH).unwrap();
    let mut set = RespSet::new();
    assert!(set.insert(RespFrame::Boolean(true)));
    assert!(set.insert(RespFrame::Null(RespNull)));
    let mut map = RespMap::new();
    assert_eq!(map.insert(simple("k"), RespFrame::RespSet(set)), None);
    let expected = RespFrame::Array(vec![
        RespFrame::Array(vec![RespFrame::Integer(-3)]),
        RespFrame::RespMap(map),
    ]);
    assert_eq!(frame, expected);
    assert_eq!(used, bytes.len());
}

#[test]
fn a_key_that_comes_again_gets_the_later_value() {
    let (frame, used) = decode_frame(b"%2\r\n+a\r\n:+1\r\n+a\r\n:+2\r\n", MAX_DEPTH).unwrap();
    let mut map = RespMap::new();
    map.insert(simple("a"), RespFrame::Integer(2));
    assert_eq!(frame, RespFrame::RespMap(map));
    assert_eq!(used, 22);
}

#[test]
fn a_member_that_comes_again_is_passed_over() {
    let (frame, _) = decode_frame(b"~3\r\n+a\r\n+b\r\n+a\r\n", MAX_DEPTH).unwrap();
    let mut set = RespSet::new();
    set.insert(simple("a"));
    set.insert(simple("b"));
    assert_eq!(set.len(), 2);
    assert_eq!(frame, RespFrame::RespSet(set));
}

#[test]
fn an_empty_buffer_asks_for_more() {
    assert_eq!(decode_frame(b"", MAX_DEPTH), Err(RespError::NotComplete));
}

#[test]
fn an_unknown_tag_fails_at_once() {
    assert_eq!(
        decode_frame(b"?", MAX_DEPTH),
        Err(RespError::InvalidFrameType("not support type".to_string()))
    );
}

#[test]
fn a_line_without_its_end_asks_for_more() {
    assert_eq!(decode_frame(b"+ok", MAX_DEPTH), Err(RespError::NotComplete));
    assert_eq!(decode_frame(b"+ok\r", MAX_DEPTH), Err(RespError::NotComplete));
    assert_eq!(decode_frame(b"$3\r\nab", MAX_DEPTH), Err(RespError::NotComplete));
    assert_eq!(decode_frame(b"*2\r\n+a\r\n", MAX_DEPTH), Err(RespError::NotComplete));
    assert_eq!(decode_frame(b"%1\r\n+a\r\n", MAX_DEPTH), Err(RespError::NotComplete));
    assert_eq!(decode_frame(b"_", MAX_DEPTH), Err(RespError::NotComplete));
    assert_eq!(decode_frame(b"_\r", MAX_DEPTH), Err(RespError::NotComplete));
}

#[test]
fn text_that_is_not_utf8_is_refused() {
    assert_eq!(
        decode_frame(b"+\xff\r\n", MAX_DEPTH),
        Err(RespError::InvalidFrame("invalid utf-8 text".to_string()))
    );
    assert_eq!(
        decode_frame(b"-\xc3\r\n", MAX_DEPTH),
        Err(RespError::InvalidFrame("invalid utf-8 text".to_string()))
    );
}

#[test]
fn an_integer_that_is_none_is_refused() {
    for bad in [&b":\r\n"[..], b":+\r\n", b":12a\r\n", b":--1\r\n", b":9223372036854775808\r\n"] {
        assert_eq!(
            decode_frame(bad, MAX_DEPTH),
            Err(RespError::InvalidFrame("invalid integer".to_string()))
        );
    }
    assert_eq!(
        decode_frame(b":-9223372036854775808\r\n", MAX_DEPTH),
        Ok((RespFrame::Integer(i64::MIN), 23))
    );
    assert_eq!(
        decode_frame(b":9223372036854775807\r\n", MAX_DEPTH),
        Ok((RespFrame::Integer(i64::MAX), 22))
    );
    assert_eq!(decode_frame(b":007\r\n", MAX_DEPTH), Ok((RespFrame::Integer(7), 6)));
}

#[test]
fn a_boolean_that_is_neither_is_refused() {
    assert_eq!(
        decode_frame(b"#x\r\n", MAX_DEPTH),
        Err(RespError::InvalidFrame("expect: bool(t|f)".to_string()))
    );
    assert_eq!(
        decode_frame(b"#tt\r\n", MAX_DEPTH),
        Err(RespError::InvalidFrame("expect: bool(t|f)".to_string()))
    );
}

#[test]
fn a_null_with_anything_in_it_is_refused() {
    assert_eq!(
        decode_frame(b"_x", MAX_DEPTH),
        Err(RespError::InvalidFrameType("expect: RespNull(_)".to_string()))
    );
    assert_eq!(
        decode_frame(b"_\rx", MAX_DEPTH),
        Err(RespError::InvalidFrameType("expect: RespNull(_)".to_string()))
    );
}

#[test]
fn a_header_that_is_no_count_is_refused() {
    assert_eq!(
        decode_frame(b"$abc\r\n", MAX_DEPTH),
        Err(RespError::InvalidFrame("parse length err".to_string()))
    );
    assert_eq!(
        decode_frame(b"*\r\n", MAX_DEPTH),
        Err(RespError::InvalidFrame("parse length err".to_string()))
    );
    assert_eq!(
        decode_frame(b"$-2\r\n", MAX_DEPTH),
        Err(RespError::InvalidFrameType("negative length".to_string()))
    );
    assert_eq!(
        decode_frame(b"%-1\r\n", MAX_DEPTH),
        Err(RespError::InvalidFrameType("negative length".to_string()))
    );
    assert_eq!(
        decode_frame(b"*99999999999999999999999999\r\n", MAX_DEPTH),
        Err(RespError::InvalidFrame("parse length err".to_string()))
    );
}

#[test]
fn a_bulk_string_must_end_where_its_header_says() {
    assert_eq!(decode_frame(b"$5\r\nhel", MAX_DEPTH), Err(RespError::NotComplete));
    assert_eq!(decode_frame(b"$5\r\nhello\r", MAX_DEPTH), Err(RespError::NotComplete));
    assert_eq!(
        decode_frame(b"$5\r\nhelloXY", MAX_DEPTH),
        Err(RespError::InvalidFrameLength(5))
    );
    assert_eq!(
        decode_frame(b"$5\r\nhello world\r\n", MAX_DEPTH),
        Err(RespError::InvalidFrameLength(5))
    );
    assert_eq!(
        decode_frame(b"$5\r\nhe\r\no\r\n", MAX_DEPTH),
        Ok((RespFrame::BulkString(b"he\r\no".to_vec()), 11))
    );
    assert_eq!(decode_frame(b"$0\r\n\r\n", MAX_DEPTH), Ok((RespFrame::BulkString(vec![]), 6)));
}

#[test]
fn containers_nest_as_deep_as_allowed_and_no_deeper() {
    let bytes = b"*1\r\n*1\r\n*0\r\n";
    assert_eq!(
        decode_frame(bytes, 2),
        Err(RespError::InvalidFrame("nesting too deep".to_string()))
    );
    let expected = RespFrame::Array(vec![RespFrame::Array(vec![RespFrame::Array(vec![])])]);
    assert_eq!(decode_frame(bytes, 3), Ok((expected, 12)));
    assert_eq!(
        decode_frame(b"*0\r\n", 0),
        Err(RespError::InvalidFrame("nesting too deep".to_string()))
    );
    assert_eq!(decode_frame(b"*-1\r\n", 0), Ok((RespFrame::NullArray(NullArray), 5)));
    assert_eq!(decode_frame(b"+deep\r\n", 0), Ok((simple("deep"), 7)));
}

#[test]
fn a_value_decodes_from_its_own_frame_alone() {
    let bytes = BytesMut::from(":+1\r\n");
    assert_eq!(
        SimpleString::decode(&bytes),
        Err(RespError::InvalidFrameType("expect: SimpleString(+)".to_string()))
    );
    assert_eq!(
        bool::decode(&bytes),
        Err(RespError::InvalidFrameType("expect: bool(#)".to_string()))
    );
    let bytes = BytesMut::from("$-1\r\n");
    assert_eq!(
        Vec::<u8>::decode(&bytes),
        Err(RespError::InvalidFrameType("expect: Vec<u8>($)".to_string()))
    );
    let bytes = BytesMut::from("$1\r\na\r\n");
    assert_eq!(
        NullBulkString::decode(&bytes),
        Err(RespError::InvalidFrameType("expect: NullBulkString($-1)".to_string()))
    );
    let bytes = BytesMut::from("");
    assert_eq!(i64::decode(&bytes), Err(RespError::NotComplete));
    let bytes = BytesMut::from("-oops\r\n");
    assert_eq!(SimpleError::decode(&bytes), Ok((SimpleError::new("oops"), 7)));
    let bytes = BytesMut::from("*1\r\n:+1\r\n");
    assert_eq!(Vec::<RespFrame>::decode(&bytes), Ok((vec![RespFrame::Integer(1)], 9)));
}

#[test]
fn taking_a_frame_drains_exactly_its_bytes() {
    let mut buffer = BytesMut::from("+a\r\n:+2\r\n$3\r\nab");
    assert_eq!(RespFrame::take_from(&mut buffer, MAX_DEPTH), Ok(simple("a")));
    assert_eq!(&buffer[..], b":+2\r\n$3\r\nab");
    assert_eq!(RespFrame::take_from(&mut buffer, MAX_DEPTH), Ok(RespFrame::Integer(2)));
    assert_eq!(&buffer[..], b"$3\r\nab");
    assert_eq!(RespFrame::take_from(&mut buffer, MAX_DEPTH), Err(RespError::NotComplete));
    assert_eq!(&buffer[..], b"$3\r\nab");
    buffer.extend_from_slice(b"c\r\n");
    assert_eq!(
        RespFrame::take_from(&mut buffer, MAX_DEPTH),
        Ok(RespFrame::BulkString(b"abc".to_vec()))
    );
    assert!(buffer.is_empty());
}

#[test]
fn a_double_reads_as_its_canonical_number() {
    let cases: [(&str, Double); 9] = [
        ("0", Double::Finite { negative: false, mantissa: 0, exponent: 0 }),
        ("-0.000", Double::Finite { negative: true, mantissa: 0, exponent: 0 }),
        ("1200", Double::Finite { negative: false, mantissa: 12, exponent: 2 }),
        ("+001.500", Double::Finite { negative: false, mantissa: 15, exponent: -1 }),
        ("0.00012", Double::Finite { negative: false, mantissa: 12, exponent: -5 }),
        ("18446744073709551615", Double::Finite { negative: false, mantissa: u64::MAX, exponent: 0 }),
        ("18446744073709551616", Double::Nan),
        ("1.", Double::Nan),
        (".5", Double::Nan),
    ];
    for (text, expected) in cases {
        assert_eq!(Double::parse_text(text.as_bytes()), expected, "{}", text);
    }
    assert_eq!(Double::parse_text(b"nan"), Double::Nan);
    assert_eq!(Double::parse_text(b"inf"), Double::Infinity { negative: false });
}

#[test]
fn test_invalid_frame_macro() {
    let err = RespError::invalid_frame(format!("there is a err: {}", "yes!"));
    assert_eq!(err, RespError::InvalidFrame(format!("there is a err: {}", "yes!")));
    assert!(!err.is_retryable());
    assert!(RespError::NotComplete.is_retryable());
    assert_eq!(RespError::invalid_frame_length(3), RespError::InvalidFrameLength(3));
    assert_eq!(
        RespError::invalid_frame_type("t".to_string()),
        RespError::InvalidFrameType("t".to_string())
    );
}

#[test]
fn an_error_says_what_it_is() {
    assert_eq!(
        RespError::InvalidFrame("invalid integer".to_string()).to_string(),
        "Invliad frame: invalid integer"
    );
    assert_eq!(
        RespError::InvalidFrameType("not support type".to_string()).to_string(),
        "Invliad frame type: not support type"
    );
    assert_eq!(RespError::InvalidFrameLength(-12).to_string(), "Invliad frame length: -12");
    assert_eq!(RespError::InvalidFrameLength(5).to_string(), "Invliad frame length: 5");
    assert_eq!(RespError::NotComplete.to_string(), "Frame is not complete");
}
