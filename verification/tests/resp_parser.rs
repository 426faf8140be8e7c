use miniredis::resp_parser::{
    parse_array, parse_bulk_string, parse_error, parse_integer, parse_rdb_frame, parse_resp,
    parse_simple_string, ParseError, RespData,
};
use miniredis::resp_encode::{
    encode_integer, encode_null_bulk, encode_resp, encode_simple_string, make_bulk_string,
};
use miniredis::digits::{fmt_i64, fmt_u64, parse_i64, parse_u64};

fn expect_parsed(
    res: Result<(usize, RespData), ParseError>,
    input: &[u8],
) -> (RespData, Vec<u8>) {
    let (used, value) = res.expect("expected a parsed value");
    (value, input[used..].to_vec())
}

#[test]
fn simple_ok() {
    let input = b"+OK\r\n";
    let (value, rest) = expect_parsed(parse_simple_string(input), input);
    assert_eq!(value, RespData::SimpleString(b"OK".to_vec()));
    assert_eq!(rest, b"");
}

#[test]
fn integer_ok() {
    let input = b":1000\r\n";
    let (value, rest) = expect_parsed(parse_integer(input), input);
    assert_eq!(value, RespData::Integer(1000));
    assert_eq!(rest, b"");
}

#[test]
fn bulkstring_ok() {
    let input = b"$4\r\nPING\r\n";
    let (value, rest) = expect_parsed(parse_bulk_string(input), input);
    assert_eq!(value, RespData::BulkString(b"PING".to_vec()));
    assert_eq!(rest, b"");
}

#[test]
fn array_has_one_element() {
    let input = b"*1\r\n$4\r\nPING\r\n";
    let (value, rest) = expect_parsed(parse_array(input), input);
    assert_eq!(value, RespData::Array(vec![RespData::BulkString(b"PING".to_vec())]));
    assert_eq!(rest, b"");
}

#[test]
fn array_has_two_element() {
    let input = b"*2\r\n$4\r\nECHO\r\n$5\r\nHello\r\n";
    let (value, rest) = expect_parsed(parse_array(input), input);
    assert_eq!(
        value,
        RespData::Array(vec![
            RespData::BulkString(b"ECHO".to_vec()),
            RespData::BulkString(b"Hello".to_vec()),
        ])
    );
    assert_eq!(rest, b"");
}

#[test]
fn array_has_multiple_type_element() {
    let input = b"*3\r\n$4\r\nECHO\r\n:1000\r\n$5\r\nHello\r\n";
    let (value, rest) = expect_parsed(parse_array(input), input);
    assert_eq!(
        value,
        RespData::Array(vec![
            RespData::BulkString(b"ECHO".to_vec()),
            RespData::Integer(1000),
            RespData::BulkString(b"Hello".to_vec()),
        ])
    );
    assert_eq!(rest, b"");
}

#[test]
fn has_remain_input() {
    let input = b"*3\r\n$4\r\nECHO\r\n:1000\r\n$5\r\nHello\r\n*3\r\n$4\r\nECHO\r\n:1000\r\n$5\r\nHello\r\n";
    let (value, rest) = expect_parsed(parse_array(input), input);
    assert_eq!(
        value,
        RespData::Array(vec![
            RespData::BulkString(b"ECHO".to_vec()),
            RespData::Integer(1000),
            RespData::BulkString(b"Hello".to_vec()),
        ])
    );
    assert_eq!(rest, b"*3\r\n$4\r\nECHO\r\n:1000\r\n$5\r\nHello\r\n");
}

#[test]
fn parse_error_value() {
    let input = b"-ERR unknown\r\n";
    let (value, rest) = expect_parsed(parse_error(input), input);
    assert_eq!(value, RespData::Error(b"ERR unknown".to_vec()));
    assert_eq!(rest, b"");
}

#[test]
fn parse_null_bulk() {
    let input = b"$-1\r\n";
    let (value, rest) = expect_parsed(parse_bulk_string(input), input);
    assert_eq!(value, RespData::BulkStringNull);
    assert_eq!(rest, b"");
}

#[test]
fn parse_negative_integer() {
    let input = b":-42\r\n";
    let (value, _) = expect_parsed(parse_resp(input), input);
    assert_eq!(value, RespData::Integer(-42));
}

#[test]
fn parse_dispatches_on_marker() {
    let (value, _) = expect_parsed(parse_resp(b"+PONG\r\n"), b"+PONG\r\n");
    assert_eq!(value, RespData::SimpleString(b"PONG".to_vec()));
    assert_eq!(parse_resp(b"?what\r\n"), Err(ParseError::Malformed));
}

#[test]
fn parse_incomplete_inputs() {
    assert_eq!(parse_resp(b""), Err(ParseError::Incomplete));
    assert_eq!(parse_resp(b"+OK"), Err(ParseError::Incomplete));
    assert_eq!(parse_resp(b"+OK\r"), Err(ParseError::Incomplete));
    assert_eq!(parse_resp(b":12"), Err(ParseError::Incomplete));
    assert_eq!(parse_resp(b"$4\r\nPI"), Err(ParseError::Incomplete));
    assert_eq!(parse_resp(b"$4\r\nPING"), Err(ParseError::Incomplete));
    assert_eq!(parse_resp(b"$4\r\nPING\r"), Err(ParseError::Incomplete));
    assert_eq!(parse_resp(b"*2\r\n$4\r\nECHO\r\n"), Err(ParseError::Incomplete));
}

#[test]
fn parse_malformed_inputs() {
    assert_eq!(parse_resp(b":12a\r\n"), Err(ParseError::Malformed));
    assert_eq!(parse_resp(b"$x\r\nno\r\n"), Err(ParseError::Malformed));
    assert_eq!(parse_resp(b"$-2\r\n"), Err(ParseError::Malformed));
    assert_eq!(parse_resp(b"*-1\r\n"), Err(ParseError::Malformed));
    assert_eq!(parse_resp(b"$4\r\nPINGxy"), Err(ParseError::Malformed));
}

#[test]
fn round_trip_concrete_value() {
    let v = RespData::Array(vec![
        RespData::SimpleString(b"hello".to_vec()),
        RespData::Error(b"ERR oops".to_vec()),
        RespData::Integer(-12345),
        RespData::BulkString(b"some\r\nbinary\x00data".to_vec()),
        RespData::Array(vec![RespData::Integer(0), RespData::BulkString(b"".to_vec())]),
    ]);
    let enc = encode_resp(&v);
    let (used, back) = parse_resp(enc.as_slice()).expect("round trip must parse");
    assert_eq!(used, enc.len());
    assert_eq!(back, v);
}

#[test]
fn round_trip_null_bulk_top_level() {
    let enc = encode_resp(&RespData::BulkStringNull);
    assert_eq!(enc, b"$-1\r\n".to_vec());
    let (used, back) = parse_resp(enc.as_slice()).expect("null bulk must parse");
    assert_eq!(used, 5);
    assert_eq!(back, RespData::BulkStringNull);
}

#[test]
fn every_strict_prefix_is_incomplete() {
    let v = RespData::Array(vec![
        RespData::BulkString(b"SET".to_vec()),
        RespData::BulkString(b"foo".to_vec()),
        RespData::Integer(7),
    ]);
    let enc = encode_resp(&v);
    for k in 0..enc.len() {
        assert_eq!(parse_resp(&enc[..k]), Err(ParseError::Incomplete), "prefix length {}", k);
    }
}

#[test]
fn encoder_exact_bytes() {
    assert_eq!(make_bulk_string(b"bar"), b"$3\r\nbar\r\n".to_vec());
    assert_eq!(make_bulk_string(b""), b"$0\r\n\r\n".to_vec());
    assert_eq!(encode_simple_string(b"OK"), b"+OK\r\n".to_vec());
    assert_eq!(encode_integer(0), b":0\r\n".to_vec());
    assert_eq!(encode_integer(-7), b":-7\r\n".to_vec());
    assert_eq!(encode_null_bulk(), b"$-1\r\n".to_vec());
}

#[test]
fn rdb_frame_has_no_trailing_crlf() {
    let input = b"$3\r\nabcREST";
    let used = parse_rdb_frame(input).expect("snapshot frame must parse");
    assert_eq!(used, 7);
    assert_eq!(&input[used..], b"REST");
    assert_eq!(parse_rdb_frame(b"$5\r\nab"), Err(ParseError::Incomplete));
    assert_eq!(parse_rdb_frame(b"$-1\r\n"), Err(ParseError::Malformed));
}

#[test]
fn decimal_parse_bounds() {
    assert_eq!(parse_u64(b"0"), Some(0));
    assert_eq!(parse_u64(b"18446744073709551615"), Some(u64::MAX));
    assert_eq!(parse_u64(b"18446744073709551616"), None);
    assert_eq!(parse_u64(b""), None);
    assert_eq!(parse_u64(b"12x"), None);
    assert_eq!(parse_i64(b"9223372036854775807"), Some(i64::MAX));
    assert_eq!(parse_i64(b"-9223372036854775808"), Some(i64::MIN));
    assert_eq!(parse_i64(b"9223372036854775808"), None);
    assert_eq!(parse_i64(b"-"), None);
    assert_eq!(parse_i64(b"+5"), None);
}

#[test]
fn decimal_format_round_trip() {
    assert_eq!(fmt_u64(0), b"0".to_vec());
    assert_eq!(fmt_u64(90210), b"90210".to_vec());
    assert_eq!(fmt_u64(u64::MAX), b"18446744073709551615".to_vec());
    assert_eq!(fmt_i64(-1), b"-1".to_vec());
    assert_eq!(fmt_i64(i64::MIN), b"-9223372036854775808".to_vec());
    assert_eq!(parse_i64(fmt_i64(-4807).as_slice()), Some(-4807));
}
