use vstd::prelude::*;
use vstd::pervasive::VecAdditionalExecFns;
use crate::command::{kw_getack, kw_replconf, spec_classify, CmdVal, ReplConf};
use crate::digits::fmt_u64;
use crate::resp_encode::{
    encode_null_bulk, lemma_encode_elems_app, lemma_encode_elems_one, lemma_parse_encode,
    make_bulk_string, push_all, spec_encode, wf_elems, wf_resp,
};
use crate::resp_parser::{spec_parse, ParseOutcome, RespVal};
use crate::store::{spec_expiry, spec_get, EntrySpec, Store};

verus! {

broadcast use vstd::set::group_set_axioms;

/// A message from a connection handler to the coordinator. Connections are
/// named by numeric identifiers that the surrounding process assigns; the
/// coordinator never touches a socket itself.
#[derive(Debug, PartialEq)]
pub enum Message {
    /// A replica finished `PSYNC` on this connection: attach it.
    NewConnection(u64),
    /// The reader of this replica connection saw it close: drop it.
    DisconnectReplica(u64),
    /// Fan this raw frame out to every replica and account for it.
    Data(Vec<u8>),
    /// Apply a write to the store.
    SetKey(Vec<u8>, Vec<u8>, Option<u64>),
    /// Read a key and answer the client that asked.
    Get(u64, Vec<u8>),
    /// A `WAIT numreplicas timeout_ms` barrier from this client.
    WaitHandshake(u64, u64, u64),
    /// A replica reported its processed-byte offset.
    UpdateOffset(u64, u64),
}

/// The mathematical model of a message.
pub enum MsgVal {
    NewConnection(u64),
    DisconnectReplica(u64),
    Data(Seq<u8>),
    SetKey(Seq<u8>, Seq<u8>, Option<u64>),
    Get(u64, Seq<u8>),
    WaitHandshake(u64, u64, u64),
    UpdateOffset(u64, u64),
}

impl DeepView for Message {
    type V = MsgVal;

    open spec fn deep_view(&self) -> MsgVal {
        match self {
            Message::NewConnection(id) => MsgVal::NewConnection(*id),
            Message::DisconnectReplica(id) => MsgVal::DisconnectReplica(*id),
            Message::Data(d) => MsgVal::Data(d@),
            Message::SetKey(k, v, px) => MsgVal::SetKey(k@, v@, *px),
            Message::Get(c, k) => MsgVal::Get(*c, k@),
            Message::WaitHandshake(c, n, t) => MsgVal::WaitHandshake(*c, *n, *t),
            Message::UpdateOffset(id, off) => MsgVal::UpdateOffset(*id, *off),
        }
    }
}

/// What the coordinator decides; the surrounding process carries it out.
#[derive(Debug, PartialEq)]
pub enum Action {
    /// Write these bytes to every attached replica, in attachment order.
    SendToReplicas(Vec<u8>),
    /// Write these bytes to this client.
    Reply(u64, Vec<u8>),
    /// Start a timer of this many milliseconds for this client; when it
    /// fires, hand the recorded ack target to `wait_timer_fired`.
    StartWaitTimer(u64, u64, u64),
}

/// The mathematical model of an action.
pub enum ActionVal {
    SendToReplicas(Seq<u8>),
    Reply(u64, Seq<u8>),
    StartWaitTimer(u64, u64, u64),
}

impl DeepView for Action {
    type V = ActionVal;

    open spec fn deep_view(&self) -> ActionVal {
        match self {
            Action::SendToReplicas(d) => ActionVal::SendToReplicas(d@),
            Action::Reply(c, d) => ActionVal::Reply(*c, d@),
            Action::StartWaitTimer(c, t, g) => ActionVal::StartWaitTimer(*c, *t, *g),
        }
    }
}

/// The raw `REPLCONF GETACK *` frame the primary fans out when a `WAIT`
/// arrives: `*3\r\n$8\r\nREPLCONF\r\n$6\r\nGETACK\r\n$1\r\n*\r\n`.
pub open spec fn getack_frame() -> Seq<u8> {
    seq![
        42u8, 51u8, 13u8, 10u8, 36u8, 56u8, 13u8, 10u8, 82u8, 69u8, 80u8, 76u8, 67u8, 79u8, 78u8,
        70u8, 13u8, 10u8, 36u8, 54u8, 13u8, 10u8, 71u8, 69u8, 84u8, 65u8, 67u8, 75u8, 13u8, 10u8,
        36u8, 49u8, 13u8, 10u8, 42u8, 13u8, 10u8,
    ]
}

/// The immediate reply `:0\r\n`.
pub open spec fn zero_reply() -> Seq<u8> {
    seq![58u8, 48u8, 13u8, 10u8]
}

/// The mapping a list of (replica id, acked offset) pairs denotes.
pub open spec fn ids_map(s: Seq<(u64, u64)>) -> Map<u64, u64>
    decreases s.len(),
{
    if s.len() == 0 {
        Map::empty()
    } else {
        ids_map(s.drop_last()).insert(s.last().0, s.last().1)
    }
}

/// No replica id is held twice.
pub open spec fn unique_ids(s: Seq<(u64, u64)>) -> bool {
    forall|i: int, j: int| 0 <= i < j < s.len() ==> (#[trigger] s[i]).0 != (#[trigger] s[j]).0
}

/// How many replicas have acknowledged exactly `target`, read off the list.
pub open spec fn count_matched(s: Seq<(u64, u64)>, target: u64) -> nat
    decreases s.len(),
{
    if s.len() == 0 {
        0
    } else {
        count_matched(s.drop_last(), target) + (if s.last().1 == target {
            1nat
        } else {
            0nat
        })
    }
}

/// Whether replica `id` has acknowledged exactly `target` under table `m`.
pub open spec fn matches_target(m: Map<u64, u64>, target: u64, id: u64) -> bool {
    m.contains_key(id) && m[id] == target
}

/// The set of replicas that have acknowledged exactly `target`.
pub open spec fn synced_set(m: Map<u64, u64>, target: u64) -> Set<u64> {
    Set::new(|id: u64| matches_target(m, target, id))
}

/// How many replicas have acknowledged exactly `target`: the number of ids
/// whose recorded offset equals it.
pub open spec fn synced_of(m: Map<u64, u64>, target: u64) -> nat {
    synced_set(m, target).len()
}

/// The synced set sits inside the table's domain, so with a finite table it
/// is finite.
proof fn lemma_synced_finite(m: Map<u64, u64>, target: u64)
    requires
        m.dom().finite(),
    ensures
        synced_set(m, target).finite(),
        synced_set(m, target).len() <= m.dom().len(),
{
    assert(synced_set(m, target).subset_of(m.dom()));
    vstd::set_lib::lemma_len_subset(synced_set(m, target), m.dom());
}

proof fn lemma_ids_index(s: Seq<(u64, u64)>, i: int)
    requires
        unique_ids(s),
        0 <= i < s.len(),
    ensures
        ids_map(s).contains_key(s[i].0),
        ids_map(s)[s[i].0] == s[i].1,
    decreases s.len(),
{
    if i < s.len() - 1 {
        assert(unique_ids(s.drop_last()));
        lemma_ids_index(s.drop_last(), i);
        assert(s.drop_last()[i] == s[i]);
        assert(s[i].0 != s.last().0);
    }
}

proof fn lemma_ids_no(s: Seq<(u64, u64)>, id: u64)
    requires
        forall|i: int| 0 <= i < s.len() ==> (#[trigger] s[i]).0 != id,
    ensures
        !ids_map(s).contains_key(id),
    decreases s.len(),
{
    if s.len() > 0 {
        assert(forall|i: int| 0 <= i < s.drop_last().len() ==> (#[trigger] s.drop_last()[i]).0
            != id);
        lemma_ids_no(s.drop_last(), id);
        assert(s.last().0 != id);
    }
}

proof fn lemma_ids_finite(s: Seq<(u64, u64)>)
    ensures
        ids_map(s).dom().finite(),
    decreases s.len(),
{
    if s.len() > 0 {
        lemma_ids_finite(s.drop_last());
    }
}

proof fn lemma_ids_update(s: Seq<(u64, u64)>, i: int, p: (u64, u64))
    requires
        unique_ids(s),
        0 <= i < s.len(),
        p.0 == s[i].0,
    ensures
        ids_map(s.update(i, p)) == ids_map(s).insert(p.0, p.1),
        unique_ids(s.update(i, p)),
    decreases s.len(),
{
    let u = s.update(i, p);
    assert(unique_ids(u)) by {
        assert(forall|a: int| 0 <= a < u.len() ==> (#[trigger] u[a]).0 == s[a].0);
    }
    if i == s.len() - 1 {
        assert(u.drop_last() =~= s.drop_last());
        assert(u.last() == p);
        assert(ids_map(s.drop_last()).insert(s.last().0, s.last().1).insert(p.0, p.1)
            =~= ids_map(s.drop_last()).insert(p.0, p.1));
    } else {
        assert(unique_ids(s.drop_last()));
        assert(u.drop_last() =~= s.drop_last().update(i, p));
        assert(s.drop_last()[i] == s[i]);
        lemma_ids_update(s.drop_last(), i, p);
        assert(u.last() == s.last());
        assert(s[i].0 != s.last().0);
        assert(ids_map(s.drop_last()).insert(p.0, p.1).insert(s.last().0, s.last().1)
            =~= ids_map(s.drop_last()).insert(s.last().0, s.last().1).insert(p.0, p.1));
    }
}

proof fn lemma_ids_remove(s: Seq<(u64, u64)>, i: int)
    requires
        unique_ids(s),
        0 <= i < s.len(),
    ensures
        ids_map(s.remove(i)) == ids_map(s).remove(s[i].0),
        unique_ids(s.remove(i)),
    decreases s.len(),
{
    let u = s.remove(i);
    assert(unique_ids(u)) by {
        assert(forall|a: int| 0 <= a < u.len() ==> u[a] == if a < i {
            s[a]
        } else {
            s[a + 1]
        });
        assert(forall|a: int, b: int| 0 <= a < b < u.len() ==> (#[trigger] u[a]).0 != (
        #[trigger] u[b]).0);
    }
    if i == s.len() - 1 {
        assert(u =~= s.drop_last());
        assert(forall|j: int| 0 <= j < s.drop_last().len() ==> (#[trigger] s.drop_last()[j]).0
            != s[i].0);
        lemma_ids_no(s.drop_last(), s[i].0);
        assert(ids_map(s.drop_last()).insert(s.last().0, s.last().1).remove(s[i].0)
            =~= ids_map(s.drop_last()));
    } else {
        assert(unique_ids(s.drop_last()));
        assert(u.drop_last() =~= s.drop_last().remove(i));
        assert(s.drop_last()[i] == s[i]);
        lemma_ids_remove(s.drop_last(), i);
        assert(u.last() == s.last());
        assert(s[i].0 != s.last().0);
        assert(ids_map(s.drop_last()).remove(s[i].0).insert(s.last().0, s.last().1)
            =~= ids_map(s.drop_last()).insert(s.last().0, s.last().1).remove(s[i].0));
    }
}

/// With unique ids, the list count agrees with the map count.
proof fn lemma_count_matched(s: Seq<(u64, u64)>, target: u64)
    requires
        unique_ids(s),
    ensures
        count_matched(s, target) == synced_of(ids_map(s), target),
    decreases s.len(),
{
    lemma_ids_finite(s);
    let m = ids_map(s);
    if s.len() == 0 {
        assert(synced_set(m, target) =~= Set::<u64>::empty());
    } else {
        let t = s.drop_last();
        let mt = ids_map(t);
        assert(unique_ids(t));
        lemma_count_matched(t, target);
        lemma_ids_finite(t);
        lemma_synced_finite(mt, target);
        let key = s.last().0;
        assert(forall|j: int| 0 <= j < t.len() ==> (#[trigger] t[j]).0 != key);
        lemma_ids_no(t, key);
        if s.last().1 == target {
            assert(!synced_set(mt, target).contains(key));
            assert(synced_set(m, target) =~= synced_set(mt, target).insert(key));
            assert(synced_set(m, target).len() == synced_set(mt, target).len() + 1);
        } else {
            assert(synced_set(m, target) =~= synced_set(mt, target));
        }
    }
}

/// The single owner of the replica table, the write ledger and the store.
/// It consumes an ordered stream of messages and decides every reply to a
/// client and every byte fanned out to the replicas.
pub struct Coordinator {
    replicas: Vec<(u64, u64)>,
    store: Store,
    last_write_bytes: u64,
    total_write_bytes: u64,
}

impl Coordinator {
    /// The replica table: attached connection ids and their acked offsets.
    pub closed spec fn replicas(&self) -> Map<u64, u64> {
        ids_map(self.replicas@)
    }

    /// The store contents.
    pub closed spec fn store_map(&self) -> Map<Seq<u8>, EntrySpec> {
        self.store@
    }

    /// Sum of the byte lengths of all frames propagated since startup.
    pub closed spec fn total(&self) -> u64 {
        self.total_write_bytes
    }

    /// Byte length of the most recently propagated frame.
    pub closed spec fn last(&self) -> u64 {
        self.last_write_bytes
    }

    /// Internal consistency: ids unique, and the last frame is no longer
    /// than everything propagated together.
    pub closed spec fn wf(&self) -> bool {
        unique_ids(self.replicas@) && self.store.wf() && self.last_write_bytes
            <= self.total_write_bytes
    }

    /// A fresh coordinator: no replicas, an empty store, an empty ledger.
    pub fn new() -> (c: Coordinator)
        ensures
            c.wf(),
            c.replicas() == Map::<u64, u64>::empty(),
            c.store_map() == Map::<Seq<u8>, EntrySpec>::empty(),
            c.total() == 0,
            c.last() == 0,
    {
        let c = Coordinator {
            replicas: Vec::new(),
            store: Store::new(),
            last_write_bytes: 0,
            total_write_bytes: 0,
        };
        proof {
            assert(c.replicas@.len() == 0);
        }
        c
    }

    /// Attaches a replica with offset `0`; an id already attached is reset.
    fn attach_replica(&mut self, id: u64)
        requires
            old(self).wf(),
        ensures
            final(self).wf(),
            final(self).replicas() == old(self).replicas().insert(id, 0),
            final(self).store_map() == old(self).store_map(),
            final(self).total() == old(self).total(),
            final(self).last() == old(self).last(),
    {
        let n = self.replicas.len();
        let mut i: usize = 0;
        while i < n
            invariant
                self == old(self),
                self.wf(),
                n == self.replicas@.len(),
                0 <= i <= n,
                forall|j: int| 0 <= j < i ==> (#[trigger] self.replicas@[j]).0 != id,
            decreases n - i,
        {
            if self.replicas[i].0 == id {
                proof {
                    lemma_ids_update(self.replicas@, i as int, (id, 0));
                }
                self.replicas.set(i, (id, 0));
                return ;
            }
            i = i + 1;
        }
        proof {
            lemma_ids_no(self.replicas@, id);
        }
        let ghost prior = self.replicas@;
        self.replicas.push((id, 0));
        proof {
            assert(self.replicas@.drop_last() =~= prior);
            assert(forall|a: int, b: int| 0 <= a < b < self.replicas@.len() ==> (
            #[trigger] self.replicas@[a]).0 != (#[trigger] self.replicas@[b]).0) by {
                assert(forall|a: int| 0 <= a < prior.len() ==> self.replicas@[a] == #[trigger] prior[a]);
            }
        }
    }

    /// Detaches a replica; detaching an unknown id changes nothing.
    fn detach_replica(&mut self, id: u64)
        requires
            old(self).wf(),
        ensures
            final(self).wf(),
            final(self).replicas() == old(self).replicas().remove(id),
            final(self).store_map() == old(self).store_map(),
            final(self).total() == old(self).total(),
            final(self).last() == old(self).last(),
    {
        let n = self.replicas.len();
        let mut i: usize = 0;
        while i < n
            invariant
                self == old(self),
                self.wf(),
                n == self.replicas@.len(),
                0 <= i <= n,
                forall|j: int| 0 <= j < i ==> (#[trigger] self.replicas@[j]).0 != id,
            decreases n - i,
        {
            if self.replicas[i].0 == id {
                proof {
                    lemma_ids_remove(self.replicas@, i as int);
                }
                self.replicas.remove(i);
                return ;
            }
            i = i + 1;
        }
        proof {
            lemma_ids_no(self.replicas@, id);
            assert(ids_map(self.replicas@).remove(id) =~= ids_map(self.replicas@));
        }
    }

    /// Records a replica's acknowledged offset; an unknown id is ignored.
    fn update_offset(&mut self, id: u64, off: u64)
        requires
            old(self).wf(),
        ensures
            final(self).wf(),
            final(self).replicas() == if old(self).replicas().contains_key(id) {
                old(self).replicas().insert(id, off)
            } else {
                old(self).replicas()
            },
            final(self).store_map() == old(self).store_map(),
            final(self).total() == old(self).total(),
            final(self).last() == old(self).last(),
    {
        let n = self.replicas.len();
        let mut i: usize = 0;
        while i < n
            invariant
                self == old(self),
                self.wf(),
                n == self.replicas@.len(),
                0 <= i <= n,
                forall|j: int| 0 <= j < i ==> (#[trigger] self.replicas@[j]).0 != id,
            decreases n - i,
        {
            if self.replicas[i].0 == id {
                proof {
                    lemma_ids_index(self.replicas@, i as int);
                    lemma_ids_update(self.replicas@, i as int, (id, off));
                }
                self.replicas.set(i, (id, off));
                return ;
            }
            i = i + 1;
        }
        proof {
            lemma_ids_no(self.replicas@, id);
        }
    }

    /// The total of the write ledger, as a value.
    pub fn total_bytes(&self) -> (r: u64)
        ensures
            r == self.total(),
    {
        self.total_write_bytes
    }

    /// Counts the replicas whose acked offset equals `target`.
    pub fn synced_count(&self, target: u64) -> (r: u64)
        requires
            self.wf(),
        ensures
            r == synced_of(self.replicas(), target),
    {
        let n = self.replicas.len();
        let mut c: u64 = 0;
        let mut i: usize = 0;
        while i < n
            invariant
                self.wf(),
                n == self.replicas@.len(),
                0 <= i <= n,
                c == count_matched(self.replicas@.take(i as int), target),
                c <= i,
            decreases n - i,
        {
            proof {
                assert(self.replicas@.take(i + 1).drop_last() =~= self.replicas@.take(i as int));
                assert(self.replicas@.take(i + 1).last() == self.replicas@[i as int]);
            }
            if self.replicas[i].1 == target {
                c = c + 1;
            }
            i = i + 1;
        }
        proof {
            assert(self.replicas@.take(n as int) =~= self.replicas@);
            lemma_count_matched(self.replicas@, target);
        }
        c
    }
}


/// Builds the raw `REPLCONF GETACK *` frame.
pub fn build_getack_frame() -> (r: Vec<u8>)
    ensures
        r@ == getack_frame(),
{
    let v: Vec<u8> = vec![
        42u8, 51u8, 13u8, 10u8, 36u8, 56u8, 13u8, 10u8, 82u8, 69u8, 80u8, 76u8, 67u8, 79u8, 78u8,
        70u8, 13u8, 10u8, 36u8, 54u8, 13u8, 10u8, 71u8, 69u8, 84u8, 65u8, 67u8, 75u8, 13u8, 10u8,
        36u8, 49u8, 13u8, 10u8, 42u8, 13u8, 10u8,
    ];
    proof {
        assert(v@ =~= getack_frame());
    }
    v
}

impl Coordinator {
    /// Handles one message, in arrival order. The returned actions are what
    /// the surrounding process must carry out, in order. A `WAIT` first fans
    /// out a `GETACK` through the ordinary ledger accounting whenever
    /// anything has been propagated; with `numreplicas == 0` it answers
    /// `:0\r\n` at once, whatever the replica count; otherwise it starts a
    /// timer carrying the ack target `total - last`.
    pub fn handle_message(&mut self, msg: Message, now: u64) -> (r: Vec<Action>)
        requires
            old(self).wf(),
            msg matches Message::Data(d) ==> old(self).total() + d@.len() <= u64::MAX,
            msg matches Message::SetKey(k, v, px) && px matches Some(ms) ==> now + ms <= u64::MAX,
            msg matches Message::WaitHandshake(c, n, t) ==> old(self).total() + 37 <= u64::MAX,
        ensures
            final(self).wf(),
            match msg {
                Message::NewConnection(id) => final(self).replicas() == old(self).replicas().insert(
                    id,
                    0,
                ) && final(self).store_map() == old(self).store_map() && final(self).total() == old(self).total() && final(self).last() == old(self).last() && r.deep_view()
                    == Seq::<ActionVal>::empty(),
                Message::DisconnectReplica(id) => final(self).replicas() == old(self).replicas().remove(id) && final(self).store_map() == old(self).store_map() && final(self).total() == old(self).total() && final(self).last() == old(self).last()
                    && r.deep_view() == Seq::<ActionVal>::empty(),
                Message::Data(d) => final(self).replicas() == old(self).replicas() && final(self).store_map() == old(self).store_map() && final(self).total() == old(self).total()
                    + d@.len() && final(self).last() == d@.len() && r.deep_view() == seq![
                    ActionVal::SendToReplicas(d@),
                ],
                Message::SetKey(k, v, px) => final(self).replicas() == old(self).replicas()
                    && final(self).store_map() == old(self).store_map().insert(
                    k@,
                    (crate::store::EntrySpec { value: v@, expires_at: spec_expiry(now, px) }),
                ) && final(self).total() == old(self).total() && final(self).last() == old(self).last() && r.deep_view() == Seq::<ActionVal>::empty(),
                Message::Get(client, k) => final(self).replicas() == old(self).replicas() && final(self).store_map() == old(self).store_map() && final(self).total() == old(self).total()
                    && final(self).last() == old(self).last() && r.deep_view() == seq![
                    ActionVal::Reply(
                        client,
                        match spec_get(old(self).store_map(), k@, now) {
                            Some(val) => spec_encode(RespVal::BulkString(val)),
                            None => spec_encode(RespVal::BulkStringNull),
                        },
                    ),
                ],
                Message::UpdateOffset(id, off) => final(self).replicas() == (if old(self).replicas().contains_key(id) {
                    old(self).replicas().insert(id, off)
                } else {
                    old(self).replicas()
                }) && final(self).store_map() == old(self).store_map() && final(self).total() == old(self).total() && final(self).last() == old(self).last() && r.deep_view()
                    == Seq::<ActionVal>::empty(),
                Message::WaitHandshake(client, n, t) => final(self).replicas() == old(self).replicas() && final(self).store_map() == old(self).store_map() && (if old(self).total() > 0 {
                    final(self).total() == old(self).total() + 37 && final(self).last() == 37
                } else {
                    final(self).total() == 0 && final(self).last() == 0
                }) && r.deep_view() == (if old(self).total() > 0 {
                    seq![ActionVal::SendToReplicas(getack_frame())]
                } else {
                    Seq::<ActionVal>::empty()
                }) + seq![
                    if n == 0 {
                        ActionVal::Reply(client, zero_reply())
                    } else {
                        ActionVal::StartWaitTimer(
                            client,
                            t,
                            (if old(self).total() > 0 {
                                old(self).total() as int
                            } else {
                                0
                            }) as u64,
                        )
                    },
                ],
            },
    {
        match msg {
            Message::NewConnection(id) => {
                self.attach_replica(id);
                let r: Vec<Action> = Vec::new();
                proof {
                    assert(r.deep_view() =~= Seq::<ActionVal>::empty());
                }
                r
            },
            Message::DisconnectReplica(id) => {
                self.detach_replica(id);
                let r: Vec<Action> = Vec::new();
                proof {
                    assert(r.deep_view() =~= Seq::<ActionVal>::empty());
                }
                r
            },
            Message::Data(d) => {
                let len: u64 = d.len() as u64;
                self.last_write_bytes = len;
                self.total_write_bytes = self.total_write_bytes + len;
                let mut r: Vec<Action> = Vec::new();
                r.push(Action::SendToReplicas(d));
                proof {
                    assert(r.deep_view() =~= seq![r@[0].deep_view()]);
                }
                r
            },
            Message::SetKey(k, v, px) => {
                self.store.set(k, v, now, px);
                let r: Vec<Action> = Vec::new();
                proof {
                    assert(r.deep_view() =~= Seq::<ActionVal>::empty());
                }
                r
            },
            Message::Get(client, k) => {
                let reply = match self.store.get(k.as_slice(), now) {
                    Some(val) => make_bulk_string(val.as_slice()),
                    None => encode_null_bulk(),
                };
                let mut r: Vec<Action> = Vec::new();
                r.push(Action::Reply(client, reply));
                proof {
                    assert(r.deep_view() =~= seq![r@[0].deep_view()]);
                }
                r
            },
            Message::UpdateOffset(id, off) => {
                self.update_offset(id, off);
                let r: Vec<Action> = Vec::new();
                proof {
                    assert(r.deep_view() =~= Seq::<ActionVal>::empty());
                }
                r
            },
            Message::WaitHandshake(client, n, t) => {
                let mut r: Vec<Action> = Vec::new();
                if self.total_write_bytes > 0 {
                    let g = build_getack_frame();
                    self.last_write_bytes = 37;
                    self.total_write_bytes = self.total_write_bytes + 37;
                    r.push(Action::SendToReplicas(g));
                }
                let target: u64 = self.total_write_bytes - self.last_write_bytes;
                if n == 0 {
                    let zr: Vec<u8> = vec![58u8, 48u8, 13u8, 10u8];
                    proof {
                        assert(zr@ =~= zero_reply());
                    }
                    r.push(Action::Reply(client, zr));
                } else {
                    r.push(Action::StartWaitTimer(client, t, target));
                }
                proof {
                    if old(self).total() > 0 {
                        assert(r.deep_view() =~= seq![r@[0].deep_view(), r@[1].deep_view()]);
                    } else {
                        assert(r.deep_view() =~= seq![r@[0].deep_view()]);
                        assert((Seq::<ActionVal>::empty() + seq![r@[0].deep_view()]) =~= seq![
                            r@[0].deep_view(),
                        ]);
                    }
                }
                r
            },
        }
    }

    /// Answers a `WAIT` whose timer has expired: `:k\r\n`, where `k` is the
    /// number of replicas whose acked offset equals the recorded target.
    pub fn wait_timer_fired(&self, client: u64, target: u64) -> (r: Action)
        requires
            self.wf(),
        ensures
            r.deep_view() == ActionVal::Reply(
                client,
                spec_encode(RespVal::Integer(synced_of(self.replicas(), target) as int)),
            ),
    {
        let c = self.synced_count(target);
        let mut reply: Vec<u8> = Vec::new();
        reply.push(58);
        let digits = fmt_u64(c);
        push_all(&mut reply, digits.as_slice());
        reply.push(13);
        reply.push(10);
        proof {
            assert(reply@ =~= spec_encode(
                RespVal::Integer(synced_of(self.replicas(), target) as int),
            ));
        }
        Action::Reply(client, reply)
    }
}

/// Total bytes of a run of propagated frames.
pub open spec fn sum_len(frames: Seq<Seq<u8>>) -> int
    decreases frames.len(),
{
    if frames.len() == 0 {
        0
    } else {
        sum_len(frames.drop_last()) + frames.last().len()
    }
}

/// Propagating one more frame adds exactly its length to the total.
pub proof fn lemma_ledger_step(frames: Seq<Seq<u8>>, f: Seq<u8>)
    ensures
        sum_len(frames.push(f)) == sum_len(frames) + f.len(),
{
    assert(frames.push(f).drop_last() =~= frames);
}

/// WAIT accounting: the `GETACK` frame a `WAIT` fans out passes through the
/// same ledger accounting as any write, so with it counted in the total and
/// standing as the last frame, the ack target `total - last` equals the
/// summed length of the write frames that came before this WAIT alone.
pub proof fn lemma_wait_accounting(frames: Seq<Seq<u8>>)
    ensures
        sum_len(frames.push(getack_frame())) - getack_frame().len() == sum_len(frames),
{
    lemma_ledger_step(frames, getack_frame());
}


/// The value the GETACK frame encodes: the array `REPLCONF GETACK *`.
pub open spec fn getack_value() -> RespVal {
    RespVal::Array(
        seq![
            RespVal::BulkString(kw_replconf()),
            RespVal::BulkString(kw_getack()),
            RespVal::BulkString(seq![42u8]),
        ],
    )
}

/// The GETACK frame is the encoding of `REPLCONF GETACK *`, and whatever
/// follows it on the wire, a replica that frames and classifies it reads
/// back exactly the GETACK subcommand.
pub proof fn lemma_getack_frame_meaning(rest: Seq<u8>)
    ensures
        getack_frame() == spec_encode(getack_value()),
        spec_parse(getack_frame() + rest) == (ParseOutcome::Parsed {
            used: getack_frame().len() as int,
            val: getack_value(),
        }),
        spec_classify(getack_value()) == Some(CmdVal::ReplConf(ReplConf::GetAck)),
{
    let ea = RespVal::BulkString(kw_replconf());
    let eb = RespVal::BulkString(kw_getack());
    let ec = RespVal::BulkString(seq![42u8]);
    let es = seq![ea, eb, ec];
    assert(es =~= seq![ea] + (seq![eb] + seq![ec]));
    lemma_encode_elems_app(seq![ea], seq![eb] + seq![ec]);
    lemma_encode_elems_app(seq![eb], seq![ec]);
    lemma_encode_elems_one(ea);
    lemma_encode_elems_one(eb);
    lemma_encode_elems_one(ec);
    assert(getack_frame() =~= spec_encode(getack_value()));
    reveal_with_fuel(wf_elems, 5);
    assert(wf_resp(getack_value())) by {
        assert(wf_resp(ea) && wf_resp(eb) && wf_resp(ec));
        assert(es.drop_first() =~= es.subrange(1, 3));
        assert(es.drop_first().drop_first() =~= es.subrange(2, 3));
        assert(es.drop_first().drop_first().drop_first() =~= Seq::<RespVal>::empty());
        assert(wf_elems(es));
        assert(getack_value()->Array_0 == es);
    }
    lemma_parse_encode(getack_value(), rest);
    crate::command::lemma_keywords_upper();
    let args = es.drop_first();
    assert(args[0] == eb && args[1] == ec);
}

/// `:0\r\n` is the integer-zero reply.
pub proof fn lemma_zero_reply_meaning()
    ensures
        zero_reply() == spec_encode(RespVal::Integer(0)),
{
    assert(zero_reply() =~= spec_encode(RespVal::Integer(0)));
}

} // verus!
