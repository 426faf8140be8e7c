use vstd::prelude::*;
use crate::command::{kw_dbfilename, kw_dir, ConfigGet, RedisCommand, ReplConf};
use crate::coordinator::{Message, MsgVal};
use crate::digits::{fmt_u64, spec_dec};
use crate::resp_encode::{
    encode_array_header, encode_simple_string, lemma_encode_elems_app, lemma_encode_elems_one,
    make_bulk_string, push_all, spec_encode,
};
use crate::resp_parser::RespVal;

verus! {

/// The fixed replication id this server reports: forty hexadecimal digits.
pub open spec fn replid() -> Seq<u8> {
    seq![56u8, 51u8, 55u8, 49u8, 98u8, 52u8, 102u8, 98u8, 49u8, 49u8, 53u8, 53u8, 98u8, 55u8, 49u8, 102u8, 52u8, 97u8, 48u8, 52u8, 100u8, 51u8, 101u8, 49u8, 98u8, 99u8, 51u8, 101u8, 49u8, 56u8, 99u8, 52u8, 97u8, 57u8, 57u8, 48u8, 97u8, 101u8, 101u8, 98u8]
}

/// The payload of an `INFO replication` reply: the role line, the
/// replication id line, and the offset line, joined by `\r\n`.
pub open spec fn info_payload(replica_role: bool) -> Seq<u8> {
    (if replica_role {
        seq![114u8, 111u8, 108u8, 101u8, 58u8, 115u8, 108u8, 97u8, 118u8, 101u8]
    } else {
        seq![114u8, 111u8, 108u8, 101u8, 58u8, 109u8, 97u8, 115u8, 116u8, 101u8, 114u8]
    }) + seq![13u8, 10u8] + seq![109u8, 97u8, 115u8, 116u8, 101u8, 114u8, 95u8, 114u8, 101u8, 112u8, 108u8, 105u8, 100u8, 58u8] + replid() + seq![13u8, 10u8] + seq![109u8, 97u8, 115u8, 116u8, 101u8, 114u8, 95u8, 114u8, 101u8, 112u8, 108u8, 95u8, 111u8, 102u8, 102u8, 115u8, 101u8, 116u8, 58u8, 48u8]
}

/// The whole `INFO replication` reply: the payload as one bulk string.
pub open spec fn info_reply(replica_role: bool) -> Seq<u8> {
    spec_encode(RespVal::BulkString(info_payload(replica_role)))
}

/// The `+FULLRESYNC <replid> 0\r\n` line a `PSYNC` is answered with.
pub open spec fn fullresync_line() -> Seq<u8> {
    spec_encode(RespVal::SimpleString(seq![70u8, 85u8, 76u8, 76u8, 82u8, 69u8, 83u8, 89u8, 78u8, 67u8, 32u8] + replid() + seq![32u8, 48u8]))
}

/// The fixed, well-formed empty snapshot emitted after `PSYNC`.
pub open spec fn spec_empty_rdb() -> Seq<u8> {
    seq![82u8, 69u8, 68u8, 73u8, 83u8, 48u8, 48u8, 49u8, 49u8, 250u8, 9u8, 114u8, 101u8, 100u8, 105u8, 115u8, 45u8, 118u8, 101u8, 114u8, 5u8, 55u8, 46u8, 50u8, 46u8, 48u8, 250u8, 10u8, 114u8, 101u8, 100u8, 105u8, 115u8, 45u8, 98u8, 105u8, 116u8, 115u8, 192u8, 64u8, 250u8, 5u8, 99u8, 116u8, 105u8, 109u8, 101u8, 194u8, 109u8, 8u8, 188u8, 101u8, 250u8, 8u8, 117u8, 115u8, 101u8, 100u8, 45u8, 109u8, 101u8, 109u8, 194u8, 176u8, 196u8, 16u8, 0u8, 250u8, 8u8, 97u8, 111u8, 102u8, 45u8, 98u8, 97u8, 115u8, 101u8, 192u8, 0u8, 255u8, 240u8, 110u8, 59u8, 254u8, 192u8, 255u8, 90u8, 162u8]
}

/// The snapshot transfer: a bulk-string length header, then the snapshot
/// bytes, with no trailing `\r\n`.
pub open spec fn rdb_transfer() -> Seq<u8> {
    seq![36u8] + spec_dec(spec_empty_rdb().len()) + seq![13u8, 10u8] + spec_empty_rdb()
}

/// What the handler decides for one classified command, in order: bytes to
/// write back to this client, messages to the coordinator, and the switch
/// of this connection into replica-link mode after a `PSYNC`.
#[derive(Debug, PartialEq)]
pub enum HandlerStep {
    Reply(Vec<u8>),
    Send(Message),
    BecomeReplica,
}

/// The mathematical model of a handler step.
pub enum HandlerStepVal {
    Reply(Seq<u8>),
    Send(MsgVal),
    BecomeReplica,
}

impl DeepView for HandlerStep {
    type V = HandlerStepVal;

    open spec fn deep_view(&self) -> HandlerStepVal {
        match self {
            HandlerStep::Reply(d) => HandlerStepVal::Reply(d@),
            HandlerStep::Send(m) => HandlerStepVal::Send(m.deep_view()),
            HandlerStep::BecomeReplica => HandlerStepVal::BecomeReplica,
        }
    }
}

/// Builds a two-element array of bulk strings, the shape of a `CONFIG GET`
/// reply.
pub fn encode_array2(a: &[u8], b: &[u8]) -> (r: Vec<u8>)
    ensures
        r@ == spec_encode(
            RespVal::Array(seq![RespVal::BulkString(a@), RespVal::BulkString(b@)]),
        ),
{
    let mut out = encode_array_header(2);
    let mut pa = make_bulk_string(a);
    let mut pb = make_bulk_string(b);
    out.append(&mut pa);
    out.append(&mut pb);
    proof {
        let ea = RespVal::BulkString(a@);
        let eb = RespVal::BulkString(b@);
        assert(seq![ea, eb] =~= seq![ea] + seq![eb]);
        lemma_encode_elems_app(seq![ea], seq![eb]);
        lemma_encode_elems_one(ea);
        lemma_encode_elems_one(eb);
        assert(out@ =~= spec_encode(RespVal::Array(seq![ea, eb])));
    }
    out
}

/// Builds the fixed empty snapshot.
pub fn empty_rdb() -> (r: Vec<u8>)
    ensures
        r@ == spec_empty_rdb(),
{
    let v: Vec<u8> = vec![82u8, 69u8, 68u8, 73u8, 83u8, 48u8, 48u8, 49u8, 49u8, 250u8, 9u8, 114u8, 101u8, 100u8, 105u8, 115u8, 45u8, 118u8, 101u8, 114u8, 5u8, 55u8, 46u8, 50u8, 46u8, 48u8, 250u8, 10u8, 114u8, 101u8, 100u8, 105u8, 115u8, 45u8, 98u8, 105u8, 116u8, 115u8, 192u8, 64u8, 250u8, 5u8, 99u8, 116u8, 105u8, 109u8, 101u8, 194u8, 109u8, 8u8, 188u8, 101u8, 250u8, 8u8, 117u8, 115u8, 101u8, 100u8, 45u8, 109u8, 101u8, 109u8, 194u8, 176u8, 196u8, 16u8, 0u8, 250u8, 8u8, 97u8, 111u8, 102u8, 45u8, 98u8, 97u8, 115u8, 101u8, 192u8, 0u8, 255u8, 240u8, 110u8, 59u8, 254u8, 192u8, 255u8, 90u8, 162u8];
    proof {
        assert(v@ =~= spec_empty_rdb());
    }
    v
}

/// A hexadecimal digit, upper or lower case.
pub open spec fn is_hex_digit(b: u8) -> bool {
    (48 <= b <= 57) || (97 <= b <= 102) || (65 <= b <= 70)
}

/// The value of a hexadecimal digit.
pub open spec fn hex_val(b: u8) -> int {
    if 48 <= b <= 57 {
        b - 48
    } else if 97 <= b <= 102 {
        b - 87
    } else {
        b - 55
    }
}

/// Decodes a hexadecimal text into bytes, two digits each; `None` when the
/// length is odd or some byte is no hexadecimal digit.
pub fn decode_hex(s: &[u8]) -> (r: Option<Vec<u8>>)
    ensures
        r is Some <==> s@.len() % 2 == 0 && (forall|i: int|
            0 <= i < s@.len() ==> is_hex_digit(#[trigger] s@[i])),
        r matches Some(v) ==> v@.len() == s@.len() / 2 && (forall|i: int|
            0 <= i < v@.len() ==> #[trigger] v@[i] == 16 * hex_val(s@[2 * i]) + hex_val(
                s@[2 * i + 1],
            )),
{
    if s.len() % 2 != 0 {
        return None;
    }
    let mut out: Vec<u8> = Vec::new();
    let mut i: usize = 0;
    while i < s.len()
        invariant
            s@.len() % 2 == 0,
            0 <= i <= s@.len(),
            i % 2 == 0,
            out@.len() == i / 2,
            forall|j: int| 0 <= j < i ==> is_hex_digit(#[trigger] s@[j]),
            forall|j: int|
                0 <= j < out@.len() ==> #[trigger] out@[j] == 16 * hex_val(s@[2 * j]) + hex_val(
                    s@[2 * j + 1],
                ),
        decreases s@.len() - i,
    {
        let hi = s[i];
        let lo = s[i + 1];
        let h: u8 = if 48 <= hi && hi <= 57 {
            hi - 48
        } else if 97 <= hi && hi <= 102 {
            hi - 87
        } else if 65 <= hi && hi <= 70 {
            hi - 55
        } else {
            proof {
                assert(!is_hex_digit(s@[i as int]));
            }
            return None;
        };
        let l: u8 = if 48 <= lo && lo <= 57 {
            lo - 48
        } else if 97 <= lo && lo <= 102 {
            lo - 87
        } else if 65 <= lo && lo <= 70 {
            lo - 55
        } else {
            proof {
                assert(!is_hex_digit(s@[i as int + 1]));
            }
            return None;
        };
        out.push(16 * h + l);
        i = i + 2;
    }
    Some(out)
}


/// The `+OK\r\n` reply.
pub open spec fn ok_reply() -> Seq<u8> {
    spec_encode(RespVal::SimpleString(seq![79u8, 75u8]))
}

/// The `+PONG\r\n` reply.
pub open spec fn pong_reply() -> Seq<u8> {
    spec_encode(RespVal::SimpleString(seq![80u8, 79u8, 78u8, 71u8]))
}

/// Builds the `INFO replication` reply.
pub fn build_info_reply(replica_role: bool) -> (r: Vec<u8>)
    ensures
        r@ == info_reply(replica_role),
{
    let mut payload: Vec<u8> = if replica_role {
        vec![114u8, 111u8, 108u8, 101u8, 58u8, 115u8, 108u8, 97u8, 118u8, 101u8]
    } else {
        vec![114u8, 111u8, 108u8, 101u8, 58u8, 109u8, 97u8, 115u8, 116u8, 101u8, 114u8]
    };
    proof {
        if replica_role {
            assert(payload@ =~= seq![114u8, 111u8, 108u8, 101u8, 58u8, 115u8, 108u8, 97u8, 118u8, 101u8]);
        } else {
            assert(payload@ =~= seq![114u8, 111u8, 108u8, 101u8, 58u8, 109u8, 97u8, 115u8, 116u8, 101u8, 114u8]);
        }
    }
    payload.push(13);
    payload.push(10);
    let label: Vec<u8> = vec![109u8, 97u8, 115u8, 116u8, 101u8, 114u8, 95u8, 114u8, 101u8, 112u8, 108u8, 105u8, 100u8, 58u8];
    let rid: Vec<u8> = vec![56u8, 51u8, 55u8, 49u8, 98u8, 52u8, 102u8, 98u8, 49u8, 49u8, 53u8, 53u8, 98u8, 55u8, 49u8, 102u8, 52u8, 97u8, 48u8, 52u8, 100u8, 51u8, 101u8, 49u8, 98u8, 99u8, 51u8, 101u8, 49u8, 56u8, 99u8, 52u8, 97u8, 57u8, 57u8, 48u8, 97u8, 101u8, 101u8, 98u8];
    proof {
        assert(label@ =~= seq![109u8, 97u8, 115u8, 116u8, 101u8, 114u8, 95u8, 114u8, 101u8, 112u8, 108u8, 105u8, 100u8, 58u8]);
        assert(rid@ =~= replid());
    }
    push_all(&mut payload, label.as_slice());
    push_all(&mut payload, rid.as_slice());
    payload.push(13);
    payload.push(10);
    let off: Vec<u8> = vec![109u8, 97u8, 115u8, 116u8, 101u8, 114u8, 95u8, 114u8, 101u8, 112u8, 108u8, 95u8, 111u8, 102u8, 102u8, 115u8, 101u8, 116u8, 58u8, 48u8];
    proof {
        assert(off@ =~= seq![109u8, 97u8, 115u8, 116u8, 101u8, 114u8, 95u8, 114u8, 101u8, 112u8, 108u8, 95u8, 111u8, 102u8, 102u8, 115u8, 101u8, 116u8, 58u8, 48u8]);
    }
    push_all(&mut payload, off.as_slice());
    proof {
        assert(payload@ =~= info_payload(replica_role));
    }
    make_bulk_string(payload.as_slice())
}

/// Builds the `+FULLRESYNC <replid> 0\r\n` line.
pub fn build_fullresync() -> (r: Vec<u8>)
    ensures
        r@ == fullresync_line(),
{
    let mut payload: Vec<u8> = vec![70u8, 85u8, 76u8, 76u8, 82u8, 69u8, 83u8, 89u8, 78u8, 67u8, 32u8];
    let rid: Vec<u8> = vec![56u8, 51u8, 55u8, 49u8, 98u8, 52u8, 102u8, 98u8, 49u8, 49u8, 53u8, 53u8, 98u8, 55u8, 49u8, 102u8, 52u8, 97u8, 48u8, 52u8, 100u8, 51u8, 101u8, 49u8, 98u8, 99u8, 51u8, 101u8, 49u8, 56u8, 99u8, 52u8, 97u8, 57u8, 57u8, 48u8, 97u8, 101u8, 101u8, 98u8];
    proof {
        assert(payload@ =~= seq![70u8, 85u8, 76u8, 76u8, 82u8, 69u8, 83u8, 89u8, 78u8, 67u8, 32u8]);
        assert(rid@ =~= replid());
    }
    push_all(&mut payload, rid.as_slice());
    payload.push(32);
    payload.push(48);
    proof {
        assert(payload@ =~= seq![70u8, 85u8, 76u8, 76u8, 82u8, 69u8, 83u8, 89u8, 78u8, 67u8, 32u8] + replid() + seq![32u8, 48u8]);
    }
    encode_simple_string(payload.as_slice())
}

/// Builds the snapshot transfer: length header, then the snapshot bytes,
/// with no trailing `\r\n`.
pub fn build_rdb_transfer() -> (r: Vec<u8>)
    ensures
        r@ == rdb_transfer(),
{
    let payload = empty_rdb();
    let mut out: Vec<u8> = Vec::new();
    out.push(36);
    let digits = fmt_u64(payload.len() as u64);
    push_all(&mut out, digits.as_slice());
    out.push(13);
    out.push(10);
    push_all(&mut out, payload.as_slice());
    proof {
        assert(out@ =~= rdb_transfer());
    }
    out
}

/// Decides what one classified client command does, in order: what is
/// written back to this client, what is sent to the coordinator, and the
/// switch into replica-link mode after a `PSYNC`. A `SET` first reaches the
/// store, then acknowledges the client, then fans out the raw frame, in
/// that order.
pub fn handle_command(
    conn: u64,
    cmd: RedisCommand,
    raw: &[u8],
    replica_role: bool,
    dir: &[u8],
    dbfilename: &[u8],
) -> (r: Vec<HandlerStep>)
    ensures
        r.deep_view() == match cmd {
            RedisCommand::Ping => seq![HandlerStepVal::Reply(pong_reply())],
            RedisCommand::Echo(m) => seq![
                HandlerStepVal::Reply(spec_encode(RespVal::SimpleString(m@))),
            ],
            RedisCommand::SetKey(k, v, px) => seq![
                HandlerStepVal::Send(MsgVal::SetKey(k@, v@, px)),
                HandlerStepVal::Reply(ok_reply()),
                HandlerStepVal::Send(MsgVal::Data(raw@)),
            ],
            RedisCommand::Get(k) => seq![HandlerStepVal::Send(MsgVal::Get(conn, k@))],
            RedisCommand::Info => seq![HandlerStepVal::Reply(info_reply(replica_role))],
            RedisCommand::ReplConf(c) => match c {
                ReplConf::Ack(off) => seq![HandlerStepVal::Send(MsgVal::UpdateOffset(conn, off))],
                _ => seq![HandlerStepVal::Reply(ok_reply())],
            },
            RedisCommand::PSync => seq![
                HandlerStepVal::Reply(fullresync_line()),
                HandlerStepVal::Reply(rdb_transfer()),
                HandlerStepVal::BecomeReplica,
                HandlerStepVal::Send(MsgVal::NewConnection(conn)),
            ],
            RedisCommand::Wait(n, t) => seq![
                HandlerStepVal::Send(MsgVal::WaitHandshake(conn, n, t)),
            ],
            RedisCommand::ConfigGet(p) => seq![
                HandlerStepVal::Reply(
                    spec_encode(
                        RespVal::Array(
                            seq![
                                RespVal::BulkString(
                                    match p {
                                        ConfigGet::Dir => kw_dir(),
                                        ConfigGet::Dbfilename => kw_dbfilename(),
                                    },
                                ),
                                RespVal::BulkString(
                                    match p {
                                        ConfigGet::Dir => dir@,
                                        ConfigGet::Dbfilename => dbfilename@,
                                    },
                                ),
                            ],
                        ),
                    ),
                ),
            ],
        },
{
    let mut r: Vec<HandlerStep> = Vec::new();
    match cmd {
        RedisCommand::Ping => {
            let pong: Vec<u8> = vec![80u8, 79u8, 78u8, 71u8];
            proof {
                assert(pong@ =~= seq![80u8, 79u8, 78u8, 71u8]);
            }
            r.push(HandlerStep::Reply(encode_simple_string(pong.as_slice())));
            proof {
                assert(r.deep_view() =~= seq![r@[0].deep_view()]);
            }
        },
        RedisCommand::Echo(m) => {
            r.push(HandlerStep::Reply(encode_simple_string(m.as_slice())));
            proof {
                assert(r.deep_view() =~= seq![r@[0].deep_view()]);
            }
        },
        RedisCommand::SetKey(k, v, px) => {
            r.push(HandlerStep::Send(Message::SetKey(k, v, px)));
            let ok: Vec<u8> = vec![79u8, 75u8];
            proof {
                assert(ok@ =~= seq![79u8, 75u8]);
            }
            r.push(HandlerStep::Reply(encode_simple_string(ok.as_slice())));
            r.push(HandlerStep::Send(Message::Data(vstd::slice::slice_to_vec(raw))));
            proof {
                assert(r.deep_view() =~= seq![
                    r@[0].deep_view(),
                    r@[1].deep_view(),
                    r@[2].deep_view(),
                ]);
            }
        },
        RedisCommand::Get(k) => {
            r.push(HandlerStep::Send(Message::Get(conn, k)));
            proof {
                assert(r.deep_view() =~= seq![r@[0].deep_view()]);
            }
        },
        RedisCommand::Info => {
            r.push(HandlerStep::Reply(build_info_reply(replica_role)));
            proof {
                assert(r.deep_view() =~= seq![r@[0].deep_view()]);
            }
        },
        RedisCommand::ReplConf(c) => {
            match c {
                ReplConf::Ack(off) => {
                    r.push(HandlerStep::Send(Message::UpdateOffset(conn, off)));
                },
                _ => {
                    let ok: Vec<u8> = vec![79u8, 75u8];
                    proof {
                        assert(ok@ =~= seq![79u8, 75u8]);
                    }
                    r.push(HandlerStep::Reply(encode_simple_string(ok.as_slice())));
                },
            }
            proof {
                assert(r.deep_view() =~= seq![r@[0].deep_view()]);
            }
        },
        RedisCommand::PSync => {
            r.push(HandlerStep::Reply(build_fullresync()));
            r.push(HandlerStep::Reply(build_rdb_transfer()));
            r.push(HandlerStep::BecomeReplica);
            r.push(HandlerStep::Send(Message::NewConnection(conn)));
            proof {
                assert(r.deep_view() =~= seq![
                    r@[0].deep_view(),
                    r@[1].deep_view(),
                    r@[2].deep_view(),
                    r@[3].deep_view(),
                ]);
            }
        },
        RedisCommand::Wait(n, t) => {
            r.push(HandlerStep::Send(Message::WaitHandshake(conn, n, t)));
            proof {
                assert(r.deep_view() =~= seq![r@[0].deep_view()]);
            }
        },
        RedisCommand::ConfigGet(p) => {
            let name: Vec<u8> = match p {
                ConfigGet::Dir => vec![100u8, 105u8, 114u8],
                ConfigGet::Dbfilename => vec![100u8, 98u8, 102u8, 105u8, 108u8, 101u8, 110u8, 97u8, 109u8, 101u8],
            };
            proof {
                match p {
                    ConfigGet::Dir => {
                        assert(name@ =~= kw_dir());
                    },
                    ConfigGet::Dbfilename => {
                        assert(name@ =~= kw_dbfilename());
                    },
                }
            }
            let value: &[u8] = match p {
                ConfigGet::Dir => dir,
                ConfigGet::Dbfilename => dbfilename,
            };
            r.push(HandlerStep::Reply(encode_array2(name.as_slice(), value)));
            proof {
                assert(r.deep_view() =~= seq![r@[0].deep_view()]);
            }
        },
    }
    r
}

} // verus!
