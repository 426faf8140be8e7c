use vstd::prelude::*;
use vstd::pervasive::VecAdditionalExecFns;
use crate::command::bytes_eq;

verus! {

/// One stored value: raw bytes and an optional absolute expiry instant, in
/// milliseconds of the monotonic clock.
pub struct Entry {
    pub value: Vec<u8>,
    pub expires_at: Option<u64>,
}

/// The mathematical model of an entry.
pub struct EntrySpec {
    pub value: Seq<u8>,
    pub expires_at: Option<u64>,
}

impl DeepView for Entry {
    type V = EntrySpec;

    open spec fn deep_view(&self) -> EntrySpec {
        EntrySpec { value: self.value@, expires_at: self.expires_at }
    }
}

/// The absolute expiry instant of a write made at `now` with an optional
/// lifetime of `px` milliseconds.
pub open spec fn spec_expiry(now: u64, px: Option<u64>) -> Option<u64> {
    match px {
        Some(ms) => Some((now + ms) as u64),
        None => None,
    }
}

/// Whether an entry still holds at instant `now`: an entry whose expiry is
/// at or before `now` reads as absent.
pub open spec fn entry_live(e: EntrySpec, now: u64) -> bool {
    match e.expires_at {
        Some(t) => t > now,
        None => true,
    }
}

/// What a read of `key` at instant `now` returns from the store model `m`.
pub open spec fn spec_get(m: Map<Seq<u8>, EntrySpec>, key: Seq<u8>, now: u64) -> Option<Seq<u8>> {
    if m.contains_key(key) && entry_live(m[key], now) {
        Some(m[key].value)
    } else {
        None
    }
}

/// The in-memory key/value store: a mapping from byte-string keys to
/// entries, with lazy expiry on read.
pub struct Store {
    entries: Vec<(Vec<u8>, Entry)>,
}

/// The mapping a list of key/entry pairs denotes; later pairs win.
pub open spec fn entries_map(s: Seq<(Vec<u8>, Entry)>) -> Map<Seq<u8>, EntrySpec>
    decreases s.len(),
{
    if s.len() == 0 {
        Map::empty()
    } else {
        entries_map(s.drop_last()).insert(s.last().0@, s.last().1.deep_view())
    }
}

/// No two pairs carry the same key.
pub open spec fn unique_keys(s: Seq<(Vec<u8>, Entry)>) -> bool {
    forall|i: int, j: int| 0 <= i < j < s.len() ==> (#[trigger] s[i]).0@ != (#[trigger] s[j]).0@
}

impl View for Store {
    type V = Map<Seq<u8>, EntrySpec>;

    closed spec fn view(&self) -> Map<Seq<u8>, EntrySpec> {
        entries_map(self.entries@)
    }
}

/// Every pair of the list is in the map it denotes; with unique keys, at
/// exactly its own entry.
proof fn lemma_map_index(s: Seq<(Vec<u8>, Entry)>, i: int)
    requires
        unique_keys(s),
        0 <= i < s.len(),
    ensures
        entries_map(s).contains_key(s[i].0@),
        entries_map(s)[s[i].0@] == s[i].1.deep_view(),
    decreases s.len(),
{
    if i == s.len() - 1 {
    } else {
        assert(unique_keys(s.drop_last()));
        lemma_map_index(s.drop_last(), i);
        assert(s.drop_last()[i] == s[i]);
        assert(s[i].0@ != s.last().0@);
    }
}

/// A key no pair carries is not in the map.
proof fn lemma_map_no_key(s: Seq<(Vec<u8>, Entry)>, k: Seq<u8>)
    requires
        forall|i: int| 0 <= i < s.len() ==> (#[trigger] s[i]).0@ != k,
    ensures
        !entries_map(s).contains_key(k),
    decreases s.len(),
{
    if s.len() > 0 {
        assert(forall|i: int| 0 <= i < s.drop_last().len() ==> (#[trigger] s.drop_last()[i]).0@
            != k);
        lemma_map_no_key(s.drop_last(), k);
        assert(s.last().0@ != k);
    }
}

/// Replacing the pair at `i` by one with the same key updates the map at
/// that key and keeps the keys unique.
proof fn lemma_map_update(s: Seq<(Vec<u8>, Entry)>, i: int, p: (Vec<u8>, Entry))
    requires
        unique_keys(s),
        0 <= i < s.len(),
        p.0@ == s[i].0@,
    ensures
        entries_map(s.update(i, p)) == entries_map(s).insert(p.0@, p.1.deep_view()),
        unique_keys(s.update(i, p)),
    decreases s.len(),
{
    let u = s.update(i, p);
    assert(unique_keys(u)) by {
        assert(forall|a: int, b: int| 0 <= a < b < u.len() ==> (#[trigger] u[a]).0@ != (
        #[trigger] u[b]).0@) by {
            assert(forall|a: int| 0 <= a < u.len() ==> (#[trigger] u[a]).0@ == s[a].0@);
        }
    }
    if i == s.len() - 1 {
        assert(u.drop_last() =~= s.drop_last());
        assert(u.last() == p);
        assert(entries_map(s.drop_last()).insert(s.last().0@, s.last().1.deep_view()).insert(
            p.0@,
            p.1.deep_view(),
        ) =~= entries_map(s.drop_last()).insert(p.0@, p.1.deep_view()));
    } else {
        assert(unique_keys(s.drop_last()));
        assert(u.drop_last() =~= s.drop_last().update(i, p));
        assert(s.drop_last()[i] == s[i]);
        lemma_map_update(s.drop_last(), i, p);
        assert(u.last() == s.last());
        assert(s[i].0@ != s.last().0@);
        assert(entries_map(s.drop_last()).insert(p.0@, p.1.deep_view()).insert(
            s.last().0@,
            s.last().1.deep_view(),
        ) =~= entries_map(s.drop_last()).insert(s.last().0@, s.last().1.deep_view()).insert(
            p.0@,
            p.1.deep_view(),
        ));
    }
}

impl Store {
    /// The store's internal consistency: no key is held twice.
    pub closed spec fn wf(&self) -> bool {
        unique_keys(self.entries@)
    }

    /// An empty store.
    pub fn new() -> (s: Store)
        ensures
            s.wf(),
            s@ == Map::<Seq<u8>, EntrySpec>::empty(),
    {
        let s = Store { entries: Vec::new() };
        proof {
            assert(s.entries@.len() == 0);
        }
        s
    }

    /// Looks `key` up at instant `now`: the stored bytes, unless the key is
    /// absent or its entry has expired.
    pub fn get(&self, key: &[u8], now: u64) -> (r: Option<Vec<u8>>)
        requires
            self.wf(),
        ensures
            r.deep_view() == spec_get(self@, key@, now),
    {
        let n = self.entries.len();
        let mut i: usize = 0;
        while i < n
            invariant
                self.wf(),
                n == self.entries@.len(),
                0 <= i <= n,
                forall|j: int| 0 <= j < i ==> (#[trigger] self.entries@[j]).0@ != key@,
            decreases n - i,
        {
            let pair = &self.entries[i];
            if bytes_eq(pair.0.as_slice(), key) {
                proof {
                    lemma_map_index(self.entries@, i as int);
                }
                match pair.1.expires_at {
                    Some(t) => {
                        if t <= now {
                            return None;
                        }
                    },
                    None => {},
                }
                return Some(crate::command::clone_bytes(&pair.1.value));
            }
            i = i + 1;
        }
        proof {
            lemma_map_no_key(self.entries@, key@);
        }
        None
    }

    /// Writes `value` under `key` at instant `now`, with an optional
    /// lifetime of `px` milliseconds; an existing entry is replaced.
    #[verifier::loop_isolation(false)]
    pub fn set(&mut self, key: Vec<u8>, value: Vec<u8>, now: u64, px: Option<u64>)
        requires
            old(self).wf(),
            px matches Some(ms) ==> now + ms <= u64::MAX,
        ensures
            final(self).wf(),
            final(self)@ == old(self)@.insert(
                key@,
                (EntrySpec { value: value@, expires_at: spec_expiry(now, px) }),
            ),
    {
        let expires_at: Option<u64> = match px {
            Some(ms) => Some(now + ms),
            None => None,
        };
        let entry = Entry { value, expires_at };
        let n = self.entries.len();
        let mut i: usize = 0;
        while i < n
            invariant
                self.wf(),
                self == old(self),
                n == self.entries@.len(),
                0 <= i <= n,
                forall|j: int| 0 <= j < i ==> (#[trigger] self.entries@[j]).0@ != key@,
            decreases n - i,
        {
            let hit = bytes_eq(self.entries[i].0.as_slice(), key.as_slice());
            if hit {
                let ghost prior = self.entries@;
                let pair = (key, entry);
                proof {
                    assert(prior[i as int].0@ == pair.0@);
                    lemma_map_update(prior, i as int, pair);
                }
                self.entries.set(i, pair);
                proof {
                    assert(self.entries@ == prior.update(i as int, pair));
                    assert(self@ == entries_map(prior).insert(pair.0@, pair.1.deep_view()));
                    assert(pair.1.deep_view() == (EntrySpec {
                        value: pair.1.value@,
                        expires_at: spec_expiry(now, px),
                    }));
                }
                return ;
            }
            i = i + 1;
        }
        proof {
            lemma_map_no_key(self.entries@, key@);
        }
        let ghost prior = self.entries@;
        self.entries.push((key, entry));
        proof {
            assert(self.entries@.drop_last() =~= prior);
            assert(forall|a: int, b: int| 0 <= a < b < self.entries@.len() ==> (
            #[trigger] self.entries@[a]).0@ != (#[trigger] self.entries@[b]).0@) by {
                assert(forall|a: int| 0 <= a < prior.len() ==> self.entries@[a] == #[trigger] prior[a]);
            }
        }
    }
}

/// Time to live: a key set at instant `set_at` with a lifetime of `t`
/// milliseconds reads back its value at any instant before `set_at + t`,
/// and reads as absent at `set_at + t` and ever after.
pub proof fn lemma_ttl(
    m: Map<Seq<u8>, EntrySpec>,
    key: Seq<u8>,
    value: Seq<u8>,
    set_at: u64,
    t: u64,
    read_at: u64,
)
    requires
        set_at + t <= u64::MAX,
    ensures
        ({
            let m2 = m.insert(
                key,
                (EntrySpec { value: value, expires_at: spec_expiry(set_at, Some(t)) }),
            );
            &&& read_at < set_at + t ==> spec_get(m2, key, read_at) == Some(value)
            &&& read_at >= set_at + t ==> spec_get(m2, key, read_at) is None
        }),
{
}

} // verus!
