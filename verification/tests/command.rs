use miniredis::command::{parse_command, parse_px, ConfigGet, RedisCommand, ReplConf};
use miniredis::handler::{decode_hex, empty_rdb};
use miniredis::resp_parser::{parse_resp, RespData};

fn bulk(s: &[u8]) -> RespData {
    RespData::BulkString(s.to_vec())
}

fn command_of(wire: &[u8]) -> Option<RedisCommand> {
    let (used, value) = parse_resp(wire).expect("frame must parse");
    assert_eq!(used, wire.len());
    parse_command(&value)
}

#[test]
fn classify_ping_any_case() {
    assert_eq!(command_of(b"*1\r\n$4\r\nPING\r\n"), Some(RedisCommand::Ping));
    assert_eq!(command_of(b"*1\r\n$4\r\nping\r\n"), Some(RedisCommand::Ping));
    assert_eq!(command_of(b"*1\r\n$4\r\nPiNg\r\n"), Some(RedisCommand::Ping));
    assert_eq!(command_of(b"*2\r\n$4\r\nPING\r\n$1\r\nx\r\n"), None);
}

#[test]
fn classify_echo() {
    assert_eq!(
        command_of(b"*2\r\n$4\r\nECHO\r\n$5\r\nhello\r\n"),
        Some(RedisCommand::Echo(b"hello".to_vec()))
    );
    assert_eq!(command_of(b"*1\r\n$4\r\nECHO\r\n"), None);
}

#[test]
fn classify_set_with_and_without_px() {
    assert_eq!(
        command_of(b"*3\r\n$3\r\nSET\r\n$3\r\nfoo\r\n$3\r\nbar\r\n"),
        Some(RedisCommand::SetKey(b"foo".to_vec(), b"bar".to_vec(), None))
    );
    assert_eq!(
        command_of(b"*5\r\n$3\r\nset\r\n$1\r\nx\r\n$1\r\n1\r\n$2\r\npx\r\n$3\r\n100\r\n"),
        Some(RedisCommand::SetKey(b"x".to_vec(), b"1".to_vec(), Some(100)))
    );
    // A malformed PX option leaves the write without a lifetime.
    assert_eq!(
        command_of(b"*5\r\n$3\r\nSET\r\n$1\r\nx\r\n$1\r\n1\r\n$2\r\nPX\r\n$3\r\nabc\r\n"),
        Some(RedisCommand::SetKey(b"x".to_vec(), b"1".to_vec(), None))
    );
    assert_eq!(command_of(b"*2\r\n$3\r\nSET\r\n$1\r\nx\r\n"), None);
}

#[test]
fn px_option_needs_exactly_two_bulks() {
    assert_eq!(parse_px(&[bulk(b"PX"), bulk(b"250")]), Some(250));
    assert_eq!(parse_px(&[bulk(b"px"), bulk(b"250")]), Some(250));
    assert_eq!(parse_px(&[bulk(b"EX"), bulk(b"250")]), None);
    assert_eq!(parse_px(&[bulk(b"PX")]), None);
    assert_eq!(parse_px(&[]), None);
    assert_eq!(parse_px(&[bulk(b"PX"), RespData::Integer(250)]), None);
}

#[test]
fn classify_get() {
    assert_eq!(
        command_of(b"*2\r\n$3\r\nGET\r\n$3\r\nfoo\r\n"),
        Some(RedisCommand::Get(b"foo".to_vec()))
    );
    assert_eq!(command_of(b"*1\r\n$3\r\nGET\r\n"), None);
}

#[test]
fn classify_info_only_replication() {
    assert_eq!(command_of(b"*2\r\n$4\r\nINFO\r\n$11\r\nreplication\r\n"), Some(RedisCommand::Info));
    assert_eq!(command_of(b"*2\r\n$4\r\nINFO\r\n$6\r\nserver\r\n"), None);
    assert_eq!(command_of(b"*2\r\n$4\r\nINFO\r\n$11\r\nREPLICATION\r\n"), None);
}

#[test]
fn classify_replconf_variants() {
    assert_eq!(
        command_of(b"*3\r\n$8\r\nREPLCONF\r\n$14\r\nlistening-port\r\n$4\r\n6380\r\n"),
        Some(RedisCommand::ReplConf(ReplConf::ListeningPort(6380)))
    );
    assert_eq!(
        command_of(b"*3\r\n$8\r\nREPLCONF\r\n$4\r\ncapa\r\n$6\r\npsync2\r\n"),
        Some(RedisCommand::ReplConf(ReplConf::Capa))
    );
    assert_eq!(
        command_of(b"*3\r\n$8\r\nREPLCONF\r\n$6\r\nGETACK\r\n$1\r\n*\r\n"),
        Some(RedisCommand::ReplConf(ReplConf::GetAck))
    );
    assert_eq!(
        command_of(b"*3\r\n$8\r\nREPLCONF\r\n$3\r\nACK\r\n$2\r\n37\r\n"),
        Some(RedisCommand::ReplConf(ReplConf::Ack(37)))
    );
    assert_eq!(
        command_of(b"*3\r\n$8\r\nREPLCONF\r\n$14\r\nlistening-port\r\n$5\r\n70000\r\n"),
        None
    );
    assert_eq!(command_of(b"*3\r\n$8\r\nREPLCONF\r\n$5\r\nnovel\r\n$1\r\nx\r\n"), None);
}

#[test]
fn classify_psync() {
    assert_eq!(
        command_of(b"*3\r\n$5\r\nPSYNC\r\n$1\r\n?\r\n$2\r\n-1\r\n"),
        Some(RedisCommand::PSync)
    );
}

#[test]
fn classify_wait() {
    assert_eq!(
        command_of(b"*3\r\n$4\r\nWAIT\r\n$1\r\n2\r\n$3\r\n500\r\n"),
        Some(RedisCommand::Wait(2, 500))
    );
    assert_eq!(command_of(b"*3\r\n$4\r\nWAIT\r\n$1\r\nx\r\n$3\r\n500\r\n"), None);
}

#[test]
fn classify_config_get() {
    assert_eq!(
        command_of(b"*3\r\n$6\r\nCONFIG\r\n$3\r\nGET\r\n$3\r\ndir\r\n"),
        Some(RedisCommand::ConfigGet(ConfigGet::Dir))
    );
    assert_eq!(
        command_of(b"*3\r\n$6\r\nCONFIG\r\n$3\r\nget\r\n$10\r\ndbfilename\r\n"),
        Some(RedisCommand::ConfigGet(ConfigGet::Dbfilename))
    );
    assert_eq!(command_of(b"*3\r\n$6\r\nCONFIG\r\n$3\r\nGET\r\n$4\r\nport\r\n"), None);
    assert_eq!(command_of(b"*3\r\n$6\r\nCONFIG\r\n$3\r\nSET\r\n$3\r\ndir\r\n"), None);
}

#[test]
fn classify_rejects_odd_shapes() {
    assert_eq!(command_of(b"*1\r\n$7\r\nUNKNOWN\r\n"), None);
    assert_eq!(command_of(b"*0\r\n"), None);
    assert_eq!(command_of(b"+PING\r\n"), None);
    assert_eq!(command_of(b"*1\r\n:4\r\n"), None);
}

#[test]
fn hex_decoding() {
    assert_eq!(decode_hex(b"ff00"), Some(vec![255, 0]));
    assert_eq!(decode_hex(b"DEadBEef"), Some(vec![0xde, 0xad, 0xbe, 0xef]));
    assert_eq!(decode_hex(b""), Some(vec![]));
    assert_eq!(decode_hex(b"abc"), None);
    assert_eq!(decode_hex(b"zz"), None);
}

#[test]
fn snapshot_matches_its_hex_form() {
    let hex = b"524544495330303131fa0972656469732d76657205372e322e30fa0a72656469732d62697473c040fa056374696d65c26d08bc65fa08757365642d6d656dc2b0c41000fa08616f662d62617365c000fff06e3bfec0ff5aa2";
    let decoded = decode_hex(hex).expect("the snapshot hex is well formed");
    assert_eq!(decoded.len(), 88);
    assert_eq!(decoded, empty_rdb());
}
