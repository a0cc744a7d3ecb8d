use bytes::BytesMut;
use simple_redis::resp::decode::decode_frame;
use simple_redis::resp::error::RespError;
use simple_redis::resp::frame::{
    Double, NullArray, NullBulkString, RespFrame, RespMap, RespNull, RespSet, SimpleError,
    SimpleString,
};
use simple_redis::resp::typed::{RespDecode, RespEncode, MAX_DEPTH};

fn double_of(value: f64) -> Double {
    Double::parse_text(format!("{}", value).as_bytes())
}

fn sample_frames() -> Vec<RespFrame> {
    let mut set = RespSet::new();
    set.insert(RespFrame::Integer(i64::MIN));
    set.insert(RespFrame::BulkString(b"\r\n\x00\xff".to_vec()));
    let mut map = RespMap::new();
    map.insert(RespFrame::Double(double_of(-0.5)), RespFrame::RespSet(set));
    map.insert(RespFrame::Null(RespNull), RespFrame::Array(vec![]));
    vec![
        RespFrame::SimpleString(SimpleString::new("ok")),
        RespFrame::SimpleString(SimpleString::new("")),
        RespFrame::SimpleString(SimpleString::new("tail\r")),
        RespFrame::Error(SimpleError::new("ERR unknown command")),
        RespFrame::Integer(0),
        RespFrame::Integer(-121),
        RespFrame::Integer(i64::MAX),
        RespFrame::BulkString(b"hello world!".to_vec()),
        RespFrame::BulkString(vec![]),
        RespFrame::NullBulkString(NullBulkString),
        RespFrame::NullArray(NullArray),
        RespFrame::Null(RespNull),
        RespFrame::Boolean(true),
        RespFrame::Boolean(false),
        RespFrame::Double(Double::Nan),
        RespFrame::Double(Double::Infinity { negative: true }),
        RespFrame::Double(double_of(1.23)),
        RespFrame::Double(double_of(1e22)),
        RespFrame::Double(double_of(5e-324)),
        RespFrame::Double(double_of(-0.0)),
        RespFrame::Array(vec![
            RespFrame::SimpleString(SimpleString::new("a")),
            RespFrame::Array(vec![RespFrame::Boolean(true)]),
        ]),
        RespFrame::RespMap(map),
    ]
}

#[test]
fn test_vec_u8_encoding() {
    let bulk_string: Vec<u8> = "hello".into();
    let stream = bulk_string.encode();
    println!("encode result: {:?}", String::from_utf8_lossy(&stream));

    assert_eq!("$5\r\nhello\r\n".to_string().as_bytes(), stream);
}

#[test]
fn test_double_encoding() {
    let v: f64 = std::f64::NAN;
    let stream = double_of(v).encode();
    println!("encode result: {:?}", String::from_utf8_lossy(&stream));

    assert_eq!(",nan\r\n".to_string().as_bytes(), stream);
    assert_eq!(",+1.23\r\n".to_string().as_bytes(), double_of(1.23).encode());
    assert_eq!(",inf\r\n".to_string().as_bytes(), double_of(f64::INFINITY).encode());
    assert_eq!(
        ",-inf\r\n".to_string().as_bytes(),
        double_of(f64::NEG_INFINITY).encode()
    );
    let unsigned = BytesMut::from(",1.23\r\n");
    assert_eq!(Double::decode(&unsigned), Ok((double_of(1.23), 7)));
}

#[test]
fn test_map_encoding() {
    let mut m = RespMap::new();
    m.insert(RespFrame::SimpleString("one_key".into()), RespFrame::SimpleString("Hello".into()));
    m.insert(RespFrame::SimpleString("one_value".into()), RespFrame::SimpleString("World".into()));

    println!("{:?}", String::from_utf8_lossy(&RespFrame::RespMap(m).encode()));
    let mut m = RespMap::new();
    m.insert(RespFrame::SimpleString("one_key".into()), RespFrame::SimpleString("Hello".into()));
    m.insert(RespFrame::SimpleString("one_value".into()), RespFrame::SimpleString("World".into()));
    assert_eq!(
        m.encode(),
        b"%2\r\n+one_key\r\n+Hello\r\n+one_value\r\n+World\r\n".to_vec()
    );
}

#[test]
fn test_set_encoding() {
    let mut m = RespSet::new();
    m.insert(RespFrame::SimpleString("See".into()));
    m.insert(RespFrame::SimpleString("You".into()));

    println!("{:?}", String::from_utf8_lossy(&RespFrame::RespSet(m).encode()));
    let mut m = RespSet::new();
    m.insert(RespFrame::SimpleString("See".into()));
    m.insert(RespFrame::SimpleString("You".into()));
    assert!(!m.insert(RespFrame::SimpleString("See".into())));
    assert_eq!(m.encode(), b"~2\r\n+See\r\n+You\r\n".to_vec());
}

#[test]
fn each_frame_has_its_exact_bytes() {
    let expected: Vec<&[u8]> = vec![
        b"+ok\r\n",
        b"+\r\n",
        b"+tail\r\r\n",
        b"-ERR unknown command\r\n",
        b":+0\r\n",
        b":-121\r\n",
        b":+9223372036854775807\r\n",
        b"$12\r\nhello world!\r\n",
        b"$0\r\n\r\n",
        b"$-1\r\n",
        b"*-1\r\n",
        b"_\r\n",
        b"#t\r\n",
        b"#f\r\n",
        b",nan\r\n",
        b",-inf\r\n",
        b",+1.23\r\n",
        b",+10000000000000000000000\r\n",
    ];
    let frames = sample_frames();
    for (frame, bytes) in frames.into_iter().zip(expected) {
        assert_eq!(frame.encode(), bytes.to_vec());
    }
    assert_eq!(
        RespFrame::Array(vec![
            RespFrame::SimpleString(SimpleString::new("a")),
            RespFrame::SimpleString(SimpleString::new("b")),
        ])
        .encode(),
        b"*2\r\n+a\r\n+b\r\n".to_vec()
    );
    assert_eq!(RespFrame::Double(double_of(-0.0)).encode(), b",-0\r\n".to_vec());
    assert_eq!(RespFrame::Double(double_of(0.001)).encode(), b",+0.001\r\n".to_vec());
    assert_eq!(
        RespFrame::Double(Double::Finite { negative: false, mantissa: 120, exponent: -1 }).encode(),
        b",+12.0\r\n".to_vec()
    );
    assert_eq!((-5i64).encode(), b":-5\r\n".to_vec());
    assert_eq!(true.encode(), b"#t\r\n".to_vec());
    assert_eq!(SimpleError::new("e").encode(), b"-e\r\n".to_vec());
    assert_eq!(NullArray.encode(), b"*-1\r\n".to_vec());
    assert_eq!(NullBulkString.encode(), b"$-1\r\n".to_vec());
    assert_eq!(RespNull.encode(), b"_\r\n".to_vec());
    assert_eq!(vec![RespFrame::Integer(1)].encode(), b"*1\r\n:+1\r\n".to_vec());
}

#[test]
fn what_is_encoded_decodes_to_itself() {
    for frame in sample_frames() {
        let shown = format!("{:?}", frame);
        let copy = decode_frame(&frame.encode(), MAX_DEPTH).unwrap().0;
        let bytes = copy.encode();
        let (decoded, used) = decode_frame(&bytes, MAX_DEPTH).unwrap();
        assert_eq!(format!("{:?}", decoded), shown);
        assert_eq!(used, bytes.len());

        let mut longer = bytes.clone();
        longer.extend_from_slice(b"+more\r\n");
        let (again, taken) = decode_frame(&longer, MAX_DEPTH).unwrap();
        assert_eq!(format!("{:?}", again), shown);
        assert_eq!(taken, bytes.len());
    }
}

#[test]
fn every_proper_beginning_asks_for_more() {
    for frame in sample_frames() {
        let bytes = frame.encode();
        for cut in 0..bytes.len() {
            assert_eq!(
                decode_frame(&bytes[..cut], MAX_DEPTH),
                Err(RespError::NotComplete),
                "{:?} cut at {}",
                String::from_utf8_lossy(&bytes),
                cut
            );
        }
    }
}

#[test]
fn a_double_of_the_machine_survives_the_wire() {
    for value in [0.0_f64, 1.0, -1.5, 12.1, 1e300, 1.7976931348623157e308, 5e-324, 0.1 + 0.2] {
        let bytes = double_of(value).encode();
        let text = String::from_utf8(bytes[1..bytes.len() - 2].to_vec()).unwrap();
        assert_eq!(text.parse::<f64>().unwrap(), value);
        let back = Double::decode(&BytesMut::from(&bytes[..])).unwrap().0;
        assert_eq!(back, double_of(value));
    }
}

#[test]
fn text_with_a_delimiter_in_it_does_not_come_back() {
    let frame = RespFrame::SimpleString(SimpleString::new("a\r\nb"));
    let bytes = frame.encode();
    assert_eq!(bytes, b"+a\r\nb\r\n".to_vec());
    let (decoded, used) = decode_frame(&bytes, MAX_DEPTH).unwrap();
    assert_eq!(decoded, RespFrame::SimpleString(SimpleString::new("a")));
    assert_eq!(used, 4);
}

#[test]
fn a_finite_double_is_made_canonical() {
    assert_eq!(
        Double::finite(false, 1200, -1),
        Some(Double::Finite { negative: false, mantissa: 12, exponent: 1 })
    );
    assert_eq!(
        Double::finite(true, 0, -7),
        Some(Double::Finite { negative: true, mantissa: 0, exponent: 0 })
    );
    assert_eq!(
        Double::finite(false, 7, i16::MIN),
        Some(Double::Finite { negative: false, mantissa: 7, exponent: i16::MIN })
    );
    assert_eq!(Double::finite(false, 10, i16::MAX), None);
    assert_eq!(
        Double::finite(false, 123, -2).map(|d| d.encode()),
        Some(b",+1.23\r\n".to_vec())
    );
}

#[test]
fn a_well_formed_frame_is_one_that_comes_back() {
    for frame in sample_frames() {
        assert!(frame.is_well_formed(), "{:?}", frame);
        assert!(frame.nests_within(3), "{:?}", frame);
        let (decoded, _) = decode_frame(&frame.encode(), 3).unwrap();
        assert!(decoded.is_well_formed());
        assert!(decoded.nests_within(3));
    }
    let nested = RespFrame::Array(vec![RespFrame::Array(vec![])]);
    assert!(nested.nests_within(2));
    assert!(!nested.nests_within(1));
    assert!(!RespFrame::Array(vec![]).nests_within(0));
    assert!(RespFrame::Integer(1).nests_within(0));

    assert!(!RespFrame::SimpleString(SimpleString::new("a\r\nb")).is_well_formed());
    assert!(RespFrame::SimpleString(SimpleString::new("a\rb\n")).is_well_formed());
    assert!(!RespFrame::Error(SimpleError::new("\r\n")).is_well_formed());
    let loose = Double::Finite { negative: false, mantissa: 10, exponent: 0 };
    assert!(!loose.canonical());
    assert!(!RespFrame::Array(vec![RespFrame::Double(loose)]).is_well_formed());
    assert!(Double::Nan.canonical());
    assert_eq!(
        decode_frame(&RespFrame::Double(loose).encode(), 0),
        Ok((RespFrame::Double(Double::Finite { negative: false, mantissa: 1, exponent: 1 }), 6))
    );
}

#[test]
fn whatever_decodes_comes_back_from_its_own_bytes() {
    let pieces: [&[u8]; 24] = [
        b"+", b"-", b":", b"$", b"*", b"_", b"#", b",", b"%", b"~", b"\r\n", b"\r\n", b"\r\n",
        b"0", b"1", b"2", b"10", b".", b"t", b"f", b"inf", b"x", b"-1", b"\r",
    ];
    let mut state: u64 = 0x2545_f491_4f6c_dd1d;
    let mut next = move || {
        state ^= state << 13;
        state ^= state >> 7;
        state ^= state << 17;
        state
    };
    let mut decoded_some = 0;
    for _ in 0..100_000 {
        let count = 1 + (next() % 9) as usize;
        let mut input: Vec<u8> = Vec::new();
        for _ in 0..count {
            input.extend_from_slice(pieces[(next() % pieces.len() as u64) as usize]);
        }
        if let Ok((frame, used)) = decode_frame(&input, 3) {
            decoded_some += 1;
            assert!(0 < used && used <= input.len());
            assert!(frame.is_well_formed(), "{:?}", frame);
            assert!(frame.nests_within(3), "{:?}", frame);
            let shown = format!("{:?}", frame);
            let bytes = frame.encode();
            let (again, taken) = decode_frame(&bytes, 3).unwrap();
            assert_eq!(format!("{:?}", again), shown);
            assert_eq!(taken, bytes.len());
            for cut in 0..bytes.len() {
                assert_eq!(decode_frame(&bytes[..cut], 3), Err(RespError::NotComplete));
            }
        }
    }
    assert!(decoded_some > 1000, "{}", decoded_some);
}
