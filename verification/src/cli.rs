use vstd::prelude::*;
use crate::digits::{dec_val, parse_u64, valid_unsigned};

verus! {

/// Where the primary lives when this server runs as a replica.
#[derive(Debug, Clone)]
pub struct ReplicaInfo {
    pub host: Vec<u8>,
    pub port: u16,
}

/// The server's startup configuration: its own port, the primary to follow
/// if any, and the two parameters `CONFIG GET` reports.
#[derive(Debug, Clone)]
pub struct Args {
    pub port: u16,
    pub replicaof: Option<ReplicaInfo>,
    pub dir: Vec<u8>,
    pub dbfilename: Vec<u8>,
}

/// Index of the first space in `s`, if any.
pub open spec fn spec_find_space(s: Seq<u8>) -> Option<int>
    decreases s.len(),
{
    if s.len() == 0 {
        None
    } else if s[0] == 32 {
        Some(0)
    } else {
        match spec_find_space(s.drop_first()) {
            Some(i) => Some(i + 1),
            None => None,
        }
    }
}

/// What a `host port` argument denotes: the text before the first space,
/// and the decimal after it when it fits a `u16`.
pub open spec fn spec_parse_replica_info(s: Seq<u8>) -> Option<(Seq<u8>, u16)> {
    match spec_find_space(s) {
        Some(i) => {
            let port = s.skip(i + 1);
            if valid_unsigned(port) && dec_val(port) <= u16::MAX {
                Some((s.take(i), dec_val(port) as u16))
            } else {
                None
            }
        },
        None => None,
    }
}

/// The first space, when found, is a space and the first one.
proof fn lemma_find_space_char(s: Seq<u8>)
    ensures
        match spec_find_space(s) {
            Some(i) => 0 <= i < s.len() && s[i] == 32 && (forall|j: int|
                #![trigger s[j]]
                0 <= j < i ==> s[j] != 32),
            None => forall|j: int| #![trigger s[j]] 0 <= j < s.len() ==> s[j] != 32,
        },
    decreases s.len(),
{
    if s.len() == 0 {
    } else if s[0] == 32 {
    } else {
        let t = s.drop_first();
        lemma_find_space_char(t);
        match spec_find_space(t) {
            Some(i) => {
                assert(s[i + 1] == t[i]);
                assert forall|j: int| #![trigger s[j]] 0 <= j < i + 1 implies s[j] != 32 by {
                    if j > 0 {
                        assert(t[j - 1] == s[j]);
                    }
                }
            },
            None => {
                assert forall|j: int| #![trigger s[j]] 0 <= j < s.len() implies s[j] != 32 by {
                    if j > 0 {
                        assert(t[j - 1] == s[j]);
                    }
                }
            },
        }
    }
}

impl ReplicaInfo {
    /// Reads a `host port` argument: the host up to the first space, then a
    /// decimal port; `None` when no space is there or the port is no `u16`.
    pub fn parse(s: &[u8]) -> (r: Option<ReplicaInfo>)
        ensures
            match r {
                Some(ri) => spec_parse_replica_info(s@) == Some((ri.host@, ri.port)),
                None => spec_parse_replica_info(s@) is None,
            },
    {
        proof {
            lemma_find_space_char(s@);
        }
        let mut i: usize = 0;
        let mut found: Option<usize> = None;
        while i < s.len() && found.is_none()
            invariant
                0 <= i <= s@.len(),
                match found {
                    Some(k) => 0 <= k < s@.len() && s@[k as int] == 32 && i == k + 1 && (
                    forall|j: int| #![trigger s@[j]] 0 <= j < k ==> s@[j] != 32),
                    None => forall|j: int| #![trigger s@[j]] 0 <= j < i ==> s@[j] != 32,
                },
            decreases s@.len() - i,
        {
            if s[i] == 32 {
                found = Some(i);
            }
            i = i + 1;
        }
        proof {
            lemma_find_space_char(s@);
        }
        match found {
            None => {
                proof {
                    if spec_find_space(s@) is Some {
                        let k = spec_find_space(s@)->0;
                        assert(s@[k] == 32);
                    }
                }
                None
            },
            Some(k) => {
                proof {
                    match spec_find_space(s@) {
                        Some(m) => {
                            if m < k {
                                assert(s@[m] != 32);
                            }
                            if k < m {
                                assert(s@[k as int] != 32);
                            }
                        },
                        None => {
                            assert(s@[k as int] != 32);
                        },
                    }
                }
                let host = vstd::slice::slice_to_vec(vstd::slice::slice_subrange(s, 0, k));
                let port_bytes = vstd::slice::slice_subrange(s, k + 1, s.len());
                proof {
                    assert(host@ =~= s@.take(k as int));
                    assert(port_bytes@ =~= s@.skip(k + 1));
                }
                match parse_u64(port_bytes) {
                    Some(p) => {
                        if p <= u16::MAX as u64 {
                            Some(ReplicaInfo { host, port: p as u16 })
                        } else {
                            None
                        }
                    },
                    None => None,
                }
            },
        }
    }
}

} // verus!
