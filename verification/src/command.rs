use vstd::prelude::*;
use crate::digits::{dec_val, parse_u64, valid_unsigned};
use crate::resp_parser::{RespData, RespVal};

verus! {

/// The `REPLCONF` subcommands the server understands.
#[derive(Debug, PartialEq)]
pub enum ReplConf {
    ListeningPort(u16),
    Capa,
    GetAck,
    Ack(u64),
}

/// The parameters `CONFIG GET` can ask for.
#[derive(Debug, PartialEq)]
pub enum ConfigGet {
    Dir,
    Dbfilename,
}

/// A classified client command. Key, value and message payloads are raw
/// bytes, exactly as they stood in the request's bulk strings.
#[derive(Debug, PartialEq)]
pub enum RedisCommand {
    Ping,
    Echo(Vec<u8>),
    SetKey(Vec<u8>, Vec<u8>, Option<u64>),
    Get(Vec<u8>),
    Info,
    ReplConf(ReplConf),
    PSync,
    Wait(u64, u64),
    ConfigGet(ConfigGet),
}

/// The mathematical model of a classified command.
pub enum CmdVal {
    Ping,
    Echo(Seq<u8>),
    SetKey(Seq<u8>, Seq<u8>, Option<u64>),
    Get(Seq<u8>),
    Info,
    ReplConf(ReplConf),
    PSync,
    Wait(u64, u64),
    ConfigGet(ConfigGet),
}

impl DeepView for RedisCommand {
    type V = CmdVal;

    open spec fn deep_view(&self) -> CmdVal {
        match self {
            RedisCommand::Ping => CmdVal::Ping,
            RedisCommand::Echo(m) => CmdVal::Echo(m@),
            RedisCommand::SetKey(k, v, px) => CmdVal::SetKey(k@, v@, *px),
            RedisCommand::Get(k) => CmdVal::Get(k@),
            RedisCommand::Info => CmdVal::Info,
            RedisCommand::ReplConf(c) => CmdVal::ReplConf(*c),
            RedisCommand::PSync => CmdVal::PSync,
            RedisCommand::Wait(n, t) => CmdVal::Wait(*n, *t),
            RedisCommand::ConfigGet(p) => CmdVal::ConfigGet(*p),
        }
    }
}

/// Folds an ASCII lowercase letter to its uppercase form; other bytes pass
/// through unchanged.
pub open spec fn ascii_upper(b: u8) -> u8 {
    if 97 <= b <= 122 {
        (b - 32) as u8
    } else {
        b
    }
}

/// Byte-wise ASCII uppercasing.
pub open spec fn upper_seq(s: Seq<u8>) -> Seq<u8> {
    s.map_values(|b: u8| ascii_upper(b))
}

/// Command names, already uppercased.
pub open spec fn kw_ping() -> Seq<u8> {
    seq![80u8, 73u8, 78u8, 71u8]
}

pub open spec fn kw_echo() -> Seq<u8> {
    seq![69u8, 67u8, 72u8, 79u8]
}

pub open spec fn kw_set() -> Seq<u8> {
    seq![83u8, 69u8, 84u8]
}

pub open spec fn kw_get() -> Seq<u8> {
    seq![71u8, 69u8, 84u8]
}

pub open spec fn kw_info() -> Seq<u8> {
    seq![73u8, 78u8, 70u8, 79u8]
}

pub open spec fn kw_replconf() -> Seq<u8> {
    seq![82u8, 69u8, 80u8, 76u8, 67u8, 79u8, 78u8, 70u8]
}

pub open spec fn kw_psync() -> Seq<u8> {
    seq![80u8, 83u8, 89u8, 78u8, 67u8]
}

pub open spec fn kw_wait() -> Seq<u8> {
    seq![87u8, 65u8, 73u8, 84u8]
}

pub open spec fn kw_config() -> Seq<u8> {
    seq![67u8, 79u8, 78u8, 70u8, 73u8, 71u8]
}

pub open spec fn kw_px() -> Seq<u8> {
    seq![80u8, 88u8]
}

pub open spec fn kw_listening_port() -> Seq<u8> {
    seq![76u8, 73u8, 83u8, 84u8, 69u8, 78u8, 73u8, 78u8, 71u8, 45u8, 80u8, 79u8, 82u8, 84u8]
}

pub open spec fn kw_capa() -> Seq<u8> {
    seq![67u8, 65u8, 80u8, 65u8]
}

pub open spec fn kw_getack() -> Seq<u8> {
    seq![71u8, 69u8, 84u8, 65u8, 67u8, 75u8]
}

pub open spec fn kw_ack() -> Seq<u8> {
    seq![65u8, 67u8, 75u8]
}

/// The literal argument `replication`, compared case-sensitively.
pub open spec fn kw_replication() -> Seq<u8> {
    seq![114u8, 101u8, 112u8, 108u8, 105u8, 99u8, 97u8, 116u8, 105u8, 111u8, 110u8]
}

/// The literal parameter `dir`.
pub open spec fn kw_dir() -> Seq<u8> {
    seq![100u8, 105u8, 114u8]
}

/// The literal parameter `dbfilename`.
pub open spec fn kw_dbfilename() -> Seq<u8> {
    seq![100u8, 98u8, 102u8, 105u8, 108u8, 101u8, 110u8, 97u8, 109u8, 101u8]
}

/// The trailing `PX <ms>` option of `SET`: exactly two bulk strings, the
/// first spelling `PX` in any case, the second a decimal that fits a `u64`.
pub open spec fn spec_parse_px(rest: Seq<RespVal>) -> Option<u64> {
    if rest.len() == 2 && rest[0] is BulkString && rest[1] is BulkString && upper_seq(
        rest[0]->BulkString_0,
    ) == kw_px() && valid_unsigned(rest[1]->BulkString_0) && dec_val(rest[1]->BulkString_0)
        <= u64::MAX {
        Some(dec_val(rest[1]->BulkString_0) as u64)
    } else {
        None
    }
}

/// Classifies a command array whose uppercased name is `cmd` and whose
/// remaining elements are `args`.
pub open spec fn spec_dispatch(cmd: Seq<u8>, args: Seq<RespVal>) -> Option<CmdVal> {
    if cmd == kw_ping() {
        if args.len() == 0 {
            Some(CmdVal::Ping)
        } else {
            None
        }
    } else if cmd == kw_echo() {
        if args.len() == 1 && args[0] is BulkString {
            Some(CmdVal::Echo(args[0]->BulkString_0))
        } else {
            None
        }
    } else if cmd == kw_set() {
        if args.len() >= 2 && args[0] is BulkString && args[1] is BulkString {
            Some(
                CmdVal::SetKey(
                    args[0]->BulkString_0,
                    args[1]->BulkString_0,
                    spec_parse_px(args.skip(2)),
                ),
            )
        } else {
            None
        }
    } else if cmd == kw_get() {
        if args.len() == 1 && args[0] is BulkString {
            Some(CmdVal::Get(args[0]->BulkString_0))
        } else {
            None
        }
    } else if cmd == kw_info() {
        if args.len() == 1 && args[0] is BulkString && args[0]->BulkString_0 == kw_replication() {
            Some(CmdVal::Info)
        } else {
            None
        }
    } else if cmd == kw_replconf() {
        if args.len() == 2 && args[0] is BulkString && args[1] is BulkString {
            spec_dispatch_replconf(upper_seq(args[0]->BulkString_0), args[1]->BulkString_0)
        } else {
            None
        }
    } else if cmd == kw_psync() {
        Some(CmdVal::PSync)
    } else if cmd == kw_wait() {
        if args.len() == 2 && args[0] is BulkString && args[1] is BulkString && valid_unsigned(
            args[0]->BulkString_0,
        ) && dec_val(args[0]->BulkString_0) <= u64::MAX && valid_unsigned(args[1]->BulkString_0)
            && dec_val(args[1]->BulkString_0) <= u64::MAX {
            Some(
                CmdVal::Wait(
                    dec_val(args[0]->BulkString_0) as u64,
                    dec_val(args[1]->BulkString_0) as u64,
                ),
            )
        } else {
            None
        }
    } else if cmd == kw_config() {
        if args.len() == 2 && args[0] is BulkString && args[1] is BulkString && upper_seq(
            args[0]->BulkString_0,
        ) == kw_get() {
            if args[1]->BulkString_0 == kw_dir() {
                Some(CmdVal::ConfigGet(ConfigGet::Dir))
            } else if args[1]->BulkString_0 == kw_dbfilename() {
                Some(CmdVal::ConfigGet(ConfigGet::Dbfilename))
            } else {
                None
            }
        } else {
            None
        }
    } else {
        None
    }
}

/// Classifies a `REPLCONF` by its uppercased subcommand name and raw value.
pub open spec fn spec_dispatch_replconf(conf: Seq<u8>, value: Seq<u8>) -> Option<CmdVal> {
    if conf == kw_listening_port() {
        if valid_unsigned(value) && dec_val(value) <= u16::MAX {
            Some(CmdVal::ReplConf(ReplConf::ListeningPort(dec_val(value) as u16)))
        } else {
            None
        }
    } else if conf == kw_capa() {
        Some(CmdVal::ReplConf(ReplConf::Capa))
    } else if conf == kw_getack() {
        Some(CmdVal::ReplConf(ReplConf::GetAck))
    } else if conf == kw_ack() {
        if valid_unsigned(value) && dec_val(value) <= u64::MAX {
            Some(CmdVal::ReplConf(ReplConf::Ack(dec_val(value) as u64)))
        } else {
            None
        }
    } else {
        None
    }
}

/// What a RESP value is as a command: a nonempty array whose first element
/// is a bulk string naming the command, case-insensitively.
pub open spec fn spec_classify(v: RespVal) -> Option<CmdVal> {
    match v {
        RespVal::Array(elems) => {
            if elems.len() == 0 {
                None
            } else {
                match elems[0] {
                    RespVal::BulkString(name) => spec_dispatch(
                        upper_seq(name),
                        elems.drop_first(),
                    ),
                    _ => None,
                }
            }
        },
        _ => None,
    }
}

/// Uppercases ASCII letters in place of `to_uppercase`; command names are
/// plain ASCII on the wire.
pub fn to_upper(s: &[u8]) -> (r: Vec<u8>)
    ensures
        r@ == upper_seq(s@),
{
    let mut v: Vec<u8> = Vec::new();
    let mut j: usize = 0;
    while j < s.len()
        invariant
            0 <= j <= s@.len(),
            v@ == upper_seq(s@.take(j as int)),
        decreases s@.len() - j,
    {
        let b = s[j];
        let u: u8 = if 97 <= b && b <= 122 {
            b - 32
        } else {
            b
        };
        v.push(u);
        proof {
            assert(upper_seq(s@.take(j + 1)) =~= upper_seq(s@.take(j as int)).push(
                ascii_upper(s@[j as int]),
            ));
        }
        j = j + 1;
    }
    proof {
        assert(s@.take(s@.len() as int) =~= s@);
    }
    v
}

/// Byte-string equality.
pub fn bytes_eq(a: &[u8], b: &[u8]) -> (r: bool)
    ensures
        r == (a@ == b@),
{
    if a.len() != b.len() {
        return false;
    }
    let mut j: usize = 0;
    while j < a.len()
        invariant
            a@.len() == b@.len(),
            0 <= j <= a@.len(),
            forall|k: int| 0 <= k < j ==> a@[k] == #[trigger] b@[k],
        decreases a@.len() - j,
    {
        if a[j] != b[j] {
            return false;
        }
        j = j + 1;
    }
    proof {
        assert(a@ =~= b@);
    }
    true
}

/// Copies a byte vector.
pub fn clone_bytes(s: &Vec<u8>) -> (r: Vec<u8>)
    ensures
        r@ == s@,
{
    let r = s.clone();
    proof {
        assert forall|i: int| 0 <= i < r@.len() implies r@[i] == s@[i] by {
            assert(cloned::<u8>(s@[i], r@[i]));
        }
        assert(r@ =~= s@);
    }
    r
}

/// Reads the trailing `PX <ms>` option of a `SET` command.
pub fn parse_px(args: &[RespData]) -> (r: Option<u64>)
    ensures
        r == spec_parse_px(args.deep_view()),
{
    if args.len() != 2 {
        return None;
    }
    let a0 = vstd::slice::slice_index_get(args, 0);
    let a1 = vstd::slice::slice_index_get(args, 1);
    proof {
        assert(args.deep_view()[0] == args@[0].deep_view());
        assert(args.deep_view()[1] == args@[1].deep_view());
    }
    match a0 {
        RespData::BulkString(px) => {
            match a1 {
                RespData::BulkString(ms) => {
                    let up = to_upper(px.as_slice());
                    let kw: Vec<u8> = vec![80u8, 88u8];
                    proof {
                        assert(kw@ =~= kw_px());
                    }
                    if bytes_eq(up.as_slice(), kw.as_slice()) {
                        parse_u64(ms.as_slice())
                    } else {
                        None
                    }
                },
                _ => None,
            }
        },
        _ => None,
    }
}


/// Classifies one framed RESP value as a command: a nonempty array of bulk
/// strings whose first element names the command, case-insensitively.
/// `None` when the value is not a well-formed command.
pub fn parse_command(data: &RespData) -> (r: Option<RedisCommand>)
    ensures
        r.deep_view() == spec_classify(data.deep_view()),
{
    let elems = match data {
        RespData::Array(elems) => elems,
        _ => {
            return None;
        },
    };
    if elems.len() == 0 {
        return None;
    }
    let ghost dv = data.deep_view()->Array_0;
    proof {
        assert(data.deep_view() == RespData::Array(*elems).deep_view());
        assert(dv.len() == elems@.len());
        assert(forall|k: int| 0 <= k < elems@.len() ==> dv[k] == #[trigger] elems@[k].deep_view());
    }
    let e0: &RespData = &elems[0];
    proof {
        assert(*e0 == elems@[0]);
        assert(dv[0] == elems@[0].deep_view());
    }
    let name = match e0 {
        RespData::BulkString(name) => name,
        _ => {
            proof {
                assert(!(elems@[0].deep_view() is BulkString));
            }
            return None;
        },
    };
    let ghost args = dv.drop_first();
    proof {
        assert(elems@[0].deep_view() == RespVal::BulkString(name@));
        assert(args.len() == dv.len() - 1);
        assert(forall|k: int| 0 <= k < args.len() ==> #[trigger] args[k] == dv[k + 1]);
        assert(dv[0] == RespVal::BulkString(name@));
    }
    let up = to_upper(name.as_slice());

    let kw: Vec<u8> = vec![80u8, 73u8, 78u8, 71u8];
    proof {
        assert(kw@ =~= kw_ping());
    }
    if bytes_eq(up.as_slice(), kw.as_slice()) {
        return if elems.len() == 1 {
            Some(RedisCommand::Ping)
        } else {
            None
        };
    }

    let kw: Vec<u8> = vec![69u8, 67u8, 72u8, 79u8];
    proof {
        assert(kw@ =~= kw_echo());
    }
    if bytes_eq(up.as_slice(), kw.as_slice()) {
        if elems.len() != 2 {
            return None;
        }
        let e1: &RespData = &elems[1];
        proof {
            assert(*e1 == elems@[1]);
            assert(args[0] == elems@[1].deep_view());
        }
        return match e1 {
            RespData::BulkString(m) => Some(RedisCommand::Echo(clone_bytes(m))),
            _ => None,
        };
    }

    let kw: Vec<u8> = vec![83u8, 69u8, 84u8];
    proof {
        assert(kw@ =~= kw_set());
    }
    if bytes_eq(up.as_slice(), kw.as_slice()) {
        if elems.len() < 3 {
            return None;
        }
        let e1: &RespData = &elems[1];
        let e2: &RespData = &elems[2];
        proof {
            assert(*e1 == elems@[1]);
            assert(*e2 == elems@[2]);
            assert(args[0] == elems@[1].deep_view());
            assert(args[1] == elems@[2].deep_view());
        }
        let key = match e1 {
            RespData::BulkString(k) => k,
            _ => {
                return None;
            },
        };
        let value = match e2 {
            RespData::BulkString(v) => v,
            _ => {
                return None;
            },
        };
        let tail = vstd::slice::slice_subrange(elems.as_slice(), 3, elems.len());
        proof {
            assert(tail.deep_view() =~= args.skip(2));
        }
        let px = parse_px(tail);
        return Some(RedisCommand::SetKey(clone_bytes(key), clone_bytes(value), px));
    }

    let kw: Vec<u8> = vec![71u8, 69u8, 84u8];
    proof {
        assert(kw@ =~= kw_get());
    }
    if bytes_eq(up.as_slice(), kw.as_slice()) {
        if elems.len() != 2 {
            return None;
        }
        let e1: &RespData = &elems[1];
        proof {
            assert(*e1 == elems@[1]);
            assert(args[0] == elems@[1].deep_view());
        }
        return match e1 {
            RespData::BulkString(k) => Some(RedisCommand::Get(clone_bytes(k))),
            _ => None,
        };
    }

    let kw: Vec<u8> = vec![73u8, 78u8, 70u8, 79u8];
    proof {
        assert(kw@ =~= kw_info());
    }
    if bytes_eq(up.as_slice(), kw.as_slice()) {
        if elems.len() != 2 {
            return None;
        }
        let e1: &RespData = &elems[1];
        proof {
            assert(*e1 == elems@[1]);
            assert(args[0] == elems@[1].deep_view());
        }
        let role = match e1 {
            RespData::BulkString(rl) => rl,
            _ => {
                return None;
            },
        };
        let lit: Vec<u8> = vec![114u8, 101u8, 112u8, 108u8, 105u8, 99u8, 97u8, 116u8, 105u8, 111u8, 110u8];
        proof {
            assert(lit@ =~= kw_replication());
        }
        return if bytes_eq(role.as_slice(), lit.as_slice()) {
            Some(RedisCommand::Info)
        } else {
            None
        };
    }

    let kw: Vec<u8> = vec![82u8, 69u8, 80u8, 76u8, 67u8, 79u8, 78u8, 70u8];
    proof {
        assert(kw@ =~= kw_replconf());
    }
    if bytes_eq(up.as_slice(), kw.as_slice()) {
        if elems.len() != 3 {
            return None;
        }
        let e1: &RespData = &elems[1];
        let e2: &RespData = &elems[2];
        proof {
            assert(*e1 == elems@[1]);
            assert(*e2 == elems@[2]);
            assert(args[0] == elems@[1].deep_view());
            assert(args[1] == elems@[2].deep_view());
        }
        let conf = match e1 {
            RespData::BulkString(c) => c,
            _ => {
                return None;
            },
        };
        let value = match e2 {
            RespData::BulkString(v) => v,
            _ => {
                return None;
            },
        };
        let up2 = to_upper(conf.as_slice());

        let kw2: Vec<u8> = vec![76u8, 73u8, 83u8, 84u8, 69u8, 78u8, 73u8, 78u8, 71u8, 45u8, 80u8, 79u8, 82u8, 84u8];
        proof {
            assert(kw2@ =~= kw_listening_port());
        }
        if bytes_eq(up2.as_slice(), kw2.as_slice()) {
            return match parse_u64(value.as_slice()) {
                Some(port) => {
                    if port <= u16::MAX as u64 {
                        Some(RedisCommand::ReplConf(ReplConf::ListeningPort(port as u16)))
                    } else {
                        None
                    }
                },
                None => None,
            };
        }

        let kw2: Vec<u8> = vec![67u8, 65u8, 80u8, 65u8];
        proof {
            assert(kw2@ =~= kw_capa());
        }
        if bytes_eq(up2.as_slice(), kw2.as_slice()) {
            return Some(RedisCommand::ReplConf(ReplConf::Capa));
        }

        let kw2: Vec<u8> = vec![71u8, 69u8, 84u8, 65u8, 67u8, 75u8];
        proof {
            assert(kw2@ =~= kw_getack());
        }
        if bytes_eq(up2.as_slice(), kw2.as_slice()) {
            return Some(RedisCommand::ReplConf(ReplConf::GetAck));
        }

        let kw2: Vec<u8> = vec![65u8, 67u8, 75u8];
        proof {
            assert(kw2@ =~= kw_ack());
        }
        if bytes_eq(up2.as_slice(), kw2.as_slice()) {
            return match parse_u64(value.as_slice()) {
                Some(off) => Some(RedisCommand::ReplConf(ReplConf::Ack(off))),
                None => None,
            };
        }
        return None;
    }

    let kw: Vec<u8> = vec![80u8, 83u8, 89u8, 78u8, 67u8];
    proof {
        assert(kw@ =~= kw_psync());
    }
    if bytes_eq(up.as_slice(), kw.as_slice()) {
        return Some(RedisCommand::PSync);
    }

    let kw: Vec<u8> = vec![87u8, 65u8, 73u8, 84u8];
    proof {
        assert(kw@ =~= kw_wait());
    }
    if bytes_eq(up.as_slice(), kw.as_slice()) {
        if elems.len() != 3 {
            return None;
        }
        let e1: &RespData = &elems[1];
        let e2: &RespData = &elems[2];
        proof {
            assert(*e1 == elems@[1]);
            assert(*e2 == elems@[2]);
            assert(args[0] == elems@[1].deep_view());
            assert(args[1] == elems@[2].deep_view());
        }
        let numreplicas = match e1 {
            RespData::BulkString(n) => n,
            _ => {
                return None;
            },
        };
        let timeout = match e2 {
            RespData::BulkString(t) => t,
            _ => {
                return None;
            },
        };
        let n = match parse_u64(numreplicas.as_slice()) {
            Some(n) => n,
            None => {
                return None;
            },
        };
        let t = match parse_u64(timeout.as_slice()) {
            Some(t) => t,
            None => {
                return None;
            },
        };
        return Some(RedisCommand::Wait(n, t));
    }

    let kw: Vec<u8> = vec![67u8, 79u8, 78u8, 70u8, 73u8, 71u8];
    proof {
        assert(kw@ =~= kw_config());
    }
    if bytes_eq(up.as_slice(), kw.as_slice()) {
        if elems.len() != 3 {
            return None;
        }
        let e1: &RespData = &elems[1];
        let e2: &RespData = &elems[2];
        proof {
            assert(*e1 == elems@[1]);
            assert(*e2 == elems@[2]);
            assert(args[0] == elems@[1].deep_view());
            assert(args[1] == elems@[2].deep_view());
        }
        let sub = match e1 {
            RespData::BulkString(c) => c,
            _ => {
                return None;
            },
        };
        let param = match e2 {
            RespData::BulkString(v) => v,
            _ => {
                return None;
            },
        };
        let up2 = to_upper(sub.as_slice());
        let kw2: Vec<u8> = vec![71u8, 69u8, 84u8];
        proof {
            assert(kw2@ =~= kw_get());
        }
        if !bytes_eq(up2.as_slice(), kw2.as_slice()) {
            return None;
        }
        let lit: Vec<u8> = vec![100u8, 105u8, 114u8];
        proof {
            assert(lit@ =~= kw_dir());
        }
        if bytes_eq(param.as_slice(), lit.as_slice()) {
            return Some(RedisCommand::ConfigGet(ConfigGet::Dir));
        }
        let lit: Vec<u8> = vec![100u8, 98u8, 102u8, 105u8, 108u8, 101u8, 110u8, 97u8, 109u8, 101u8];
        proof {
            assert(lit@ =~= kw_dbfilename());
        }
        if bytes_eq(param.as_slice(), lit.as_slice()) {
            return Some(RedisCommand::ConfigGet(ConfigGet::Dbfilename));
        }
        return None;
    }

    None
}


/// Uppercasing text that holds no lowercase letter changes nothing.
pub proof fn lemma_upper_fixed(s: Seq<u8>)
    requires
        forall|i: int| 0 <= i < s.len() ==> !(97 <= #[trigger] s[i] <= 122),
    ensures
        upper_seq(s) == s,
{
    assert(upper_seq(s) =~= s);
}

/// The uppercase keywords are their own uppercase forms.
pub proof fn lemma_keywords_upper()
    ensures
        upper_seq(kw_set()) == kw_set(),
        upper_seq(kw_px()) == kw_px(),
        upper_seq(kw_replconf()) == kw_replconf(),
        upper_seq(kw_getack()) == kw_getack(),
        upper_seq(kw_ack()) == kw_ack(),
{
    assert(kw_set()[0] == 83 && kw_set()[1] == 69 && kw_set()[2] == 84);
    lemma_upper_fixed(kw_set());
    assert(kw_px()[0] == 80 && kw_px()[1] == 88);
    lemma_upper_fixed(kw_px());
    assert(kw_replconf()[0] == 82 && kw_replconf()[1] == 69 && kw_replconf()[2] == 80
        && kw_replconf()[3] == 76 && kw_replconf()[4] == 67 && kw_replconf()[5] == 79
        && kw_replconf()[6] == 78 && kw_replconf()[7] == 70);
    lemma_upper_fixed(kw_replconf());
    assert(kw_getack()[0] == 71 && kw_getack()[1] == 69 && kw_getack()[2] == 84 && kw_getack()[3]
        == 65 && kw_getack()[4] == 67 && kw_getack()[5] == 75);
    lemma_upper_fixed(kw_getack());
    assert(kw_ack()[0] == 65 && kw_ack()[1] == 67 && kw_ack()[2] == 75);
    lemma_upper_fixed(kw_ack());
}

} // verus!
