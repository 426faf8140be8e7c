use vstd::prelude::*;
use crate::command::{
    clone_bytes, kw_ack, kw_px, kw_replconf, kw_set, spec_classify, upper_seq, CmdVal,
    RedisCommand, ReplConf,
};
use crate::digits::{
    fmt_u64, lemma_dec_val_spec_dec, lemma_spec_dec_digits, lemma_spec_dec_len_u64, spec_dec,
    valid_unsigned,
};
use crate::resp_encode::{
    encode_array_header, lemma_encode_elems_app, lemma_encode_elems_one, lemma_encode_len_pos,
    lemma_parse_encode, make_bulk_string, spec_encode, wf_elems, wf_resp,
};
use crate::resp_parser::{spec_parse, ParseOutcome, RespVal};
use crate::store::{spec_expiry, EntrySpec};

verus! {

/// The literal argument `listening-port`, as the handshake sends it.
pub open spec fn lit_listening_port() -> Seq<u8> {
    seq![
        108u8, 105u8, 115u8, 116u8, 101u8, 110u8, 105u8, 110u8, 103u8, 45u8, 112u8, 111u8, 114u8,
        116u8,
    ]
}

/// The literal argument `capa`.
pub open spec fn lit_capa() -> Seq<u8> {
    seq![99u8, 97u8, 112u8, 97u8]
}

/// The literal argument `psync2`.
pub open spec fn lit_psync2() -> Seq<u8> {
    seq![112u8, 115u8, 121u8, 110u8, 99u8, 50u8]
}

/// The literal argument `?`.
pub open spec fn lit_question() -> Seq<u8> {
    seq![63u8]
}

/// The literal argument `-1`.
pub open spec fn lit_minus_one() -> Seq<u8> {
    seq![45u8, 49u8]
}

/// The `PING` the handshake opens with: a one-element array.
pub open spec fn ping_frame() -> Seq<u8> {
    spec_encode(RespVal::Array(seq![RespVal::BulkString(crate::command::kw_ping())]))
}

/// Builds the opening `PING` of the handshake.
pub fn handshake_ping() -> (r: Vec<u8>)
    ensures
        r@ == ping_frame(),
{
    let mut out = encode_array_header(1);
    let kw: Vec<u8> = vec![80u8, 73u8, 78u8, 71u8];
    proof {
        assert(kw@ =~= crate::command::kw_ping());
    }
    let mut piece = make_bulk_string(kw.as_slice());
    out.append(&mut piece);
    proof {
        lemma_encode_elems_one(RespVal::BulkString(crate::command::kw_ping()));
        assert(out@ =~= ping_frame());
    }
    out
}

/// Builds a three-element array of bulk strings.
pub fn encode_array3(a: &[u8], b: &[u8], c: &[u8]) -> (r: Vec<u8>)
    ensures
        r@ == spec_encode(
            RespVal::Array(
                seq![
                    RespVal::BulkString(a@),
                    RespVal::BulkString(b@),
                    RespVal::BulkString(c@),
                ],
            ),
        ),
{
    let mut out = encode_array_header(3);
    let mut pa = make_bulk_string(a);
    let mut pb = make_bulk_string(b);
    let mut pc = make_bulk_string(c);
    out.append(&mut pa);
    out.append(&mut pb);
    out.append(&mut pc);
    proof {
        let ea = RespVal::BulkString(a@);
        let eb = RespVal::BulkString(b@);
        let ec = RespVal::BulkString(c@);
        let es = seq![ea, eb, ec];
        assert(es =~= seq![ea] + (seq![eb] + seq![ec]));
        lemma_encode_elems_app(seq![ea], seq![eb] + seq![ec]);
        lemma_encode_elems_app(seq![eb], seq![ec]);
        lemma_encode_elems_one(ea);
        lemma_encode_elems_one(eb);
        lemma_encode_elems_one(ec);
        assert(out@ =~= spec_encode(RespVal::Array(es)));
    }
    out
}

/// Builds `REPLCONF listening-port <port>` for the handshake.
pub fn handshake_listening_port(port: u16) -> (r: Vec<u8>)
    ensures
        r@ == spec_encode(
            RespVal::Array(
                seq![
                    RespVal::BulkString(kw_replconf()),
                    RespVal::BulkString(lit_listening_port()),
                    RespVal::BulkString(spec_dec(port as nat)),
                ],
            ),
        ),
{
    let kw: Vec<u8> = vec![82u8, 69u8, 80u8, 76u8, 67u8, 79u8, 78u8, 70u8];
    let arg: Vec<u8> = vec![
        108u8, 105u8, 115u8, 116u8, 101u8, 110u8, 105u8, 110u8, 103u8, 45u8, 112u8, 111u8, 114u8,
        116u8,
    ];
    proof {
        assert(kw@ =~= kw_replconf());
        assert(arg@ =~= lit_listening_port());
    }
    let digits = fmt_u64(port as u64);
    encode_array3(kw.as_slice(), arg.as_slice(), digits.as_slice())
}

/// Builds `REPLCONF capa psync2` for the handshake.
pub fn handshake_capa() -> (r: Vec<u8>)
    ensures
        r@ == spec_encode(
            RespVal::Array(
                seq![
                    RespVal::BulkString(kw_replconf()),
                    RespVal::BulkString(lit_capa()),
                    RespVal::BulkString(lit_psync2()),
                ],
            ),
        ),
{
    let kw: Vec<u8> = vec![82u8, 69u8, 80u8, 76u8, 67u8, 79u8, 78u8, 70u8];
    let arg: Vec<u8> = vec![99u8, 97u8, 112u8, 97u8];
    let val: Vec<u8> = vec![112u8, 115u8, 121u8, 110u8, 99u8, 50u8];
    proof {
        assert(kw@ =~= kw_replconf());
        assert(arg@ =~= lit_capa());
        assert(val@ =~= lit_psync2());
    }
    encode_array3(kw.as_slice(), arg.as_slice(), val.as_slice())
}

/// Builds `PSYNC ? -1` for the handshake.
pub fn handshake_psync() -> (r: Vec<u8>)
    ensures
        r@ == spec_encode(
            RespVal::Array(
                seq![
                    RespVal::BulkString(crate::command::kw_psync()),
                    RespVal::BulkString(lit_question()),
                    RespVal::BulkString(lit_minus_one()),
                ],
            ),
        ),
{
    let kw: Vec<u8> = vec![80u8, 83u8, 89u8, 78u8, 67u8];
    let arg: Vec<u8> = vec![63u8];
    let val: Vec<u8> = vec![45u8, 49u8];
    proof {
        assert(kw@ =~= crate::command::kw_psync());
        assert(arg@ =~= lit_question());
        assert(val@ =~= lit_minus_one());
    }
    encode_array3(kw.as_slice(), arg.as_slice(), val.as_slice())
}

/// The `REPLCONF ACK <offset>` frame a replica answers `GETACK` with.
pub open spec fn ack_frame(offset: u64) -> Seq<u8> {
    spec_encode(
        RespVal::Array(
            seq![
                RespVal::BulkString(kw_replconf()),
                RespVal::BulkString(kw_ack()),
                RespVal::BulkString(spec_dec(offset as nat)),
            ],
        ),
    )
}

/// The RESP value the ACK frame encodes.
pub open spec fn ack_value(offset: u64) -> RespVal {
    RespVal::Array(
        seq![
            RespVal::BulkString(kw_replconf()),
            RespVal::BulkString(kw_ack()),
            RespVal::BulkString(spec_dec(offset as nat)),
        ],
    )
}

/// The ACK frame a replica sends is the encoding of `REPLCONF ACK
/// <offset>`, and whatever follows it on the wire, the primary that frames
/// and classifies it reads back exactly the offset the replica reported.
pub proof fn lemma_ack_frame_meaning(offset: u64, rest: Seq<u8>)
    ensures
        ack_frame(offset) == spec_encode(ack_value(offset)),
        spec_parse(ack_frame(offset) + rest) == (ParseOutcome::Parsed {
            used: ack_frame(offset).len() as int,
            val: ack_value(offset),
        }),
        spec_classify(ack_value(offset)) == Some(CmdVal::ReplConf(ReplConf::Ack(offset))),
{
    let ea = RespVal::BulkString(kw_replconf());
    let eb = RespVal::BulkString(kw_ack());
    let ec = RespVal::BulkString(spec_dec(offset as nat));
    let es = seq![ea, eb, ec];
    lemma_spec_dec_digits(offset as nat);
    lemma_dec_val_spec_dec(offset as nat);
    lemma_spec_dec_len_u64(offset as nat);
    reveal_with_fuel(wf_elems, 5);
    assert(wf_resp(ack_value(offset))) by {
        assert(wf_resp(ea) && wf_resp(eb) && wf_resp(ec));
        assert(es.drop_first() =~= es.subrange(1, 3));
        assert(es.drop_first().drop_first() =~= es.subrange(2, 3));
        assert(es.drop_first().drop_first().drop_first() =~= Seq::<RespVal>::empty());
        assert(wf_elems(es));
        assert(ack_value(offset)->Array_0 == es);
    }
    lemma_parse_encode(ack_value(offset), rest);
    crate::command::lemma_keywords_upper();
    let args = es.drop_first();
    assert(args[0] == eb && args[1] == ec);
    assert(valid_unsigned(spec_dec(offset as nat)));
}

/// What one step of the replay loop does besides advancing the offset.
#[derive(Debug, PartialEq)]
pub enum ReplicaAction {
    /// Answer the primary with these bytes.
    SendAck(Vec<u8>),
    /// Apply this write to the local store.
    ApplySet(Vec<u8>, Vec<u8>, Option<u64>),
    /// Nothing: any other command is ignored.
    Ignore,
}

/// The mathematical model of a replay-loop step's action.
pub enum ReplicaActionVal {
    SendAck(Seq<u8>),
    ApplySet(Seq<u8>, Seq<u8>, Option<u64>),
    Ignore,
}

impl DeepView for ReplicaAction {
    type V = ReplicaActionVal;

    open spec fn deep_view(&self) -> ReplicaActionVal {
        match self {
            ReplicaAction::SendAck(d) => ReplicaActionVal::SendAck(d@),
            ReplicaAction::ApplySet(k, v, px) => ReplicaActionVal::ApplySet(k@, v@, *px),
            ReplicaAction::Ignore => ReplicaActionVal::Ignore,
        }
    }
}

/// One step of the replica's replay loop: a `GETACK` is answered with the
/// offset as it stood before this frame, a `SET` is applied locally, and
/// anything else is ignored; in every case the frame's raw byte length is
/// then added to the offset.
pub fn replica_step(cmd: &RedisCommand, frame_len: u64, offset: u64) -> (r: (ReplicaAction, u64))
    requires
        offset + frame_len <= u64::MAX,
    ensures
        r.1 == offset + frame_len,
        r.0.deep_view() == match cmd {
            RedisCommand::ReplConf(ReplConf::GetAck) => ReplicaActionVal::SendAck(
                ack_frame(offset),
            ),
            RedisCommand::SetKey(k, v, px) => ReplicaActionVal::ApplySet(k@, v@, *px),
            _ => ReplicaActionVal::Ignore,
        },
{
    match cmd {
        RedisCommand::ReplConf(ReplConf::GetAck) => {
            let kw: Vec<u8> = vec![82u8, 69u8, 80u8, 76u8, 67u8, 79u8, 78u8, 70u8];
            let arg: Vec<u8> = vec![65u8, 67u8, 75u8];
            proof {
                assert(kw@ =~= kw_replconf());
                assert(arg@ =~= kw_ack());
            }
            let digits = fmt_u64(offset);
            let ack = encode_array3(kw.as_slice(), arg.as_slice(), digits.as_slice());
            (ReplicaAction::SendAck(ack), offset + frame_len)
        },
        RedisCommand::SetKey(k, v, px) => {
            (ReplicaAction::ApplySet(clone_bytes(k), clone_bytes(v), *px), offset + frame_len)
        },
        _ => (ReplicaAction::Ignore, offset + frame_len),
    }
}

/// A single write: key, value, optional lifetime in milliseconds.
pub struct WriteCmd {
    pub key: Seq<u8>,
    pub value: Seq<u8>,
    pub px: Option<u64>,
}

/// The `SET` array the primary propagates for a write, as a RESP value.
pub open spec fn set_value(w: WriteCmd) -> RespVal {
    RespVal::Array(
        seq![
            RespVal::BulkString(kw_set()),
            RespVal::BulkString(w.key),
            RespVal::BulkString(w.value),
        ] + match w.px {
            Some(ms) => seq![
                RespVal::BulkString(kw_px()),
                RespVal::BulkString(spec_dec(ms as nat)),
            ],
            None => Seq::empty(),
        },
    )
}

/// The raw bytes of a propagated write.
pub open spec fn set_frame(w: WriteCmd) -> Seq<u8> {
    spec_encode(set_value(w))
}

/// The replication stream a run of writes produces: their frames, in order.
pub open spec fn frames_of(writes: Seq<WriteCmd>) -> Seq<u8>
    decreases writes.len(),
{
    if writes.len() == 0 {
        Seq::empty()
    } else {
        set_frame(writes[0]) + frames_of(writes.drop_first())
    }
}

/// A write whose key and value fit a bulk string's length numeral.
pub open spec fn wf_write(w: WriteCmd) -> bool {
    w.key.len() <= i64::MAX && w.value.len() <= i64::MAX
}

pub open spec fn wf_writes(writes: Seq<WriteCmd>) -> bool {
    forall|i: int| 0 <= i < writes.len() ==> wf_write(#[trigger] writes[i])
}

/// The store after a run of writes is applied directly, in order, each
/// stamped at instant `now`.
pub open spec fn apply_writes(
    m: Map<Seq<u8>, EntrySpec>,
    writes: Seq<WriteCmd>,
    now: u64,
) -> Map<Seq<u8>, EntrySpec>
    decreases writes.len(),
{
    if writes.len() == 0 {
        m
    } else {
        apply_writes(
            m.insert(
                writes[0].key,
                EntrySpec { value: writes[0].value, expires_at: spec_expiry(now, writes[0].px) },
            ),
            writes.drop_first(),
            now,
        )
    }
}

/// What one classified value does to a replica's store: a `SET` is applied,
/// everything else changes nothing.
pub open spec fn apply_cmd(m: Map<Seq<u8>, EntrySpec>, val: RespVal, now: u64) -> Map<
    Seq<u8>,
    EntrySpec,
> {
    match spec_classify(val) {
        Some(CmdVal::SetKey(k, v, px)) => m.insert(
            k,
            EntrySpec { value: v, expires_at: spec_expiry(now, px) },
        ),
        _ => m,
    }
}

/// The store a replica reaches by framing commands off `stream` one by one
/// and applying each, stamped at instant `now`, until the stream runs out.
pub open spec fn replay(stream: Seq<u8>, m: Map<Seq<u8>, EntrySpec>, now: u64) -> Map<
    Seq<u8>,
    EntrySpec,
>
    decreases stream.len(),
{
    match spec_parse(stream) {
        ParseOutcome::Parsed { used, val } => {
            if 0 < used <= stream.len() {
                replay(stream.skip(used), apply_cmd(m, val, now), now)
            } else {
                m
            }
        },
        _ => m,
    }
}

/// A propagated write frame is well formed.
proof fn lemma_wf_set_value(w: WriteCmd)
    requires
        wf_write(w),
    ensures
        wf_resp(set_value(w)),
{
    let es = set_value(w)->Array_0;
    reveal_with_fuel(wf_elems, 7);
    match w.px {
        Some(ms) => {
            lemma_spec_dec_len_u64(ms as nat);
            assert(wf_resp(es[0]) && wf_resp(es[1]) && wf_resp(es[2]) && wf_resp(es[3])
                && wf_resp(es[4]));
            assert(es.len() == 5);
            assert(es.drop_first() =~= es.subrange(1, 5));
            assert(es.drop_first().drop_first() =~= es.subrange(2, 5));
            assert(es.drop_first().drop_first().drop_first() =~= es.subrange(3, 5));
            assert(es.drop_first().drop_first().drop_first().drop_first() =~= es.subrange(4, 5));
            assert(es.drop_first().drop_first().drop_first().drop_first().drop_first()
                =~= Seq::<RespVal>::empty());
            assert(wf_elems(es));
        },
        None => {
            assert(es.len() == 3);
            assert(wf_resp(es[0]) && wf_resp(es[1]) && wf_resp(es[2]));
            assert(es.drop_first() =~= es.subrange(1, 3));
            assert(es.drop_first().drop_first() =~= es.subrange(2, 3));
            assert(es.drop_first().drop_first().drop_first() =~= Seq::<RespVal>::empty());
            assert(wf_elems(es));
        },
    }
}

/// The propagated `SET` array classifies back to exactly its write.
proof fn lemma_classify_set(w: WriteCmd)
    ensures
        spec_classify(set_value(w)) == Some(CmdVal::SetKey(w.key, w.value, w.px)),
{
    let es = set_value(w)->Array_0;
    assert(es[0] == RespVal::BulkString(kw_set()));
    crate::command::lemma_keywords_upper();
    let args = es.drop_first();
    assert(args[0] == RespVal::BulkString(w.key));
    assert(args[1] == RespVal::BulkString(w.value));
    match w.px {
        Some(ms) => {
            assert(args.len() == 4);
            assert(args.skip(2) =~= seq![
                RespVal::BulkString(kw_px()),
                RespVal::BulkString(spec_dec(ms as nat)),
            ]);

            lemma_spec_dec_digits(ms as nat);
            lemma_dec_val_spec_dec(ms as nat);
            assert(valid_unsigned(spec_dec(ms as nat)));
        },
        None => {
            assert(args.len() == 2);
            assert(args.skip(2) =~= Seq::<RespVal>::empty());
        },
    }
}

/// Fan-out preservation: replaying the concatenated `SET` frames of any run
/// of writes against a store model applies exactly those writes, in order;
/// once the stream is drained, a replica's store equals the store of a
/// primary that applied the same writes directly.
pub proof fn lemma_fan_out_preservation(
    writes: Seq<WriteCmd>,
    m: Map<Seq<u8>, EntrySpec>,
    now: u64,
)
    requires
        wf_writes(writes),
    ensures
        replay(frames_of(writes), m, now) == apply_writes(m, writes, now),
    decreases writes.len(),
{
    if writes.len() == 0 {
        assert(frames_of(writes) =~= Seq::<u8>::empty());
    } else {
        let w0 = writes[0];
        let rest = writes.drop_first();
        let f0 = set_frame(w0);
        let fr = frames_of(rest);
        assert(frames_of(writes) == f0 + fr);
        assert(wf_write(w0));
        lemma_wf_set_value(w0);
        lemma_parse_encode(set_value(w0), fr);
        lemma_encode_len_pos(set_value(w0));
        assert((f0 + fr).skip(f0.len() as int) =~= fr);
        lemma_classify_set(w0);
        let m1 = m.insert(
            w0.key,
            EntrySpec { value: w0.value, expires_at: spec_expiry(now, w0.px) },
        );
        assert(apply_cmd(m, set_value(w0), now) == m1);
        assert(wf_writes(rest)) by {
            assert(forall|i: int| 0 <= i < rest.len() ==> #[trigger] rest[i] == writes[i + 1]);
        }
        lemma_fan_out_preservation(rest, m1, now);
    }
}

} // verus!
