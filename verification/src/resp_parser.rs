use vstd::prelude::*;
use crate::digits::{parse_i64, signed_val, valid_signed};

verus! {

broadcast use vstd::std_specs::vec::axiom_vec_index_decreases, vstd::seq::axiom_seq_index_decreases, vstd::seq::axiom_seq_subrange_decreases;

/// A parsed RESP value. Bulk strings carry raw bytes; decoding to text is
/// left to the command layer.
#[derive(Debug, PartialEq)]
pub enum RespData {
    SimpleString(Vec<u8>),
    Error(Vec<u8>),
    Integer(i64),
    BulkString(Vec<u8>),
    BulkStringNull,
    Array(Vec<RespData>),
}

/// The mathematical model of a RESP value, used in specifications.
pub enum RespVal {
    SimpleString(Seq<u8>),
    Error(Seq<u8>),
    Integer(int),
    BulkString(Seq<u8>),
    BulkStringNull,
    Array(Seq<RespVal>),
}

impl DeepView for RespData {
    type V = RespVal;

    open spec fn deep_view(&self) -> RespVal
        decreases self,
    {
        match self {
            RespData::SimpleString(s) => RespVal::SimpleString(s@),
            RespData::Error(s) => RespVal::Error(s@),
            RespData::Integer(i) => RespVal::Integer(*i as int),
            RespData::BulkString(s) => RespVal::BulkString(s@),
            RespData::BulkStringNull => RespVal::BulkStringNull,
            RespData::Array(elems) => RespVal::Array(
                Seq::new(
                    elems.len() as nat,
                    |i: int|
                        if 0 <= i < elems.len() {
                            elems[i].deep_view()
                        } else {
                            RespVal::BulkStringNull
                        },
                ),
            ),
        }
    }
}

/// What a parse attempt can come to: one framed value together with how many
/// bytes of the input it occupied, a request for more input, or a fatal
/// framing error.
pub enum ParseOutcome {
    Parsed { used: int, val: RespVal },
    Incomplete,
    Malformed,
}

/// Outcome of parsing a fixed count of consecutive values.
pub enum ElemsOutcome {
    Parsed { used: int, vals: Seq<RespVal> },
    Incomplete,
    Malformed,
}

/// Index of the first `\r\n` pair in `s`, if any.
pub open spec fn spec_find_crlf(s: Seq<u8>) -> Option<int>
    decreases s.len(),
{
    if s.len() < 2 {
        None
    } else if s[0] == 13 && s[1] == 10 {
        Some(0)
    } else {
        match spec_find_crlf(s.drop_first()) {
            Some(i) => Some(i + 1),
            None => None,
        }
    }
}

/// `s` holds neither a carriage return nor a line feed.
pub open spec fn crlf_free(s: Seq<u8>) -> bool {
    forall|i: int| 0 <= i < s.len() ==> #[trigger] s[i] != 13 && s[i] != 10
}

/// `+<text>\r\n`
pub open spec fn spec_parse_simple_string(input: Seq<u8>) -> ParseOutcome {
    if input.len() == 0 {
        ParseOutcome::Incomplete
    } else if input[0] != 43 {
        ParseOutcome::Malformed
    } else {
        match spec_find_crlf(input.drop_first()) {
            None => ParseOutcome::Incomplete,
            Some(i) => ParseOutcome::Parsed {
                used: 3 + i,
                val: RespVal::SimpleString(input.drop_first().take(i)),
            },
        }
    }
}

/// `-<text>\r\n`
pub open spec fn spec_parse_error(input: Seq<u8>) -> ParseOutcome {
    if input.len() == 0 {
        ParseOutcome::Incomplete
    } else if input[0] != 45 {
        ParseOutcome::Malformed
    } else {
        match spec_find_crlf(input.drop_first()) {
            None => ParseOutcome::Incomplete,
            Some(i) => ParseOutcome::Parsed {
                used: 3 + i,
                val: RespVal::Error(input.drop_first().take(i)),
            },
        }
    }
}

/// `:<decimal>\r\n`, a signed 64-bit value.
pub open spec fn spec_parse_integer(input: Seq<u8>) -> ParseOutcome {
    if input.len() == 0 {
        ParseOutcome::Incomplete
    } else if input[0] != 58 {
        ParseOutcome::Malformed
    } else {
        match spec_find_crlf(input.drop_first()) {
            None => ParseOutcome::Incomplete,
            Some(i) => {
                let digits = input.drop_first().take(i);
                if valid_signed(digits) && i64::MIN <= signed_val(digits) <= i64::MAX {
                    ParseOutcome::Parsed { used: 3 + i, val: RespVal::Integer(signed_val(digits)) }
                } else {
                    ParseOutcome::Malformed
                }
            },
        }
    }
}

/// `$<n>\r\n<n bytes>\r\n`, or the null bulk `$-1\r\n`.
pub open spec fn spec_parse_bulk_string(input: Seq<u8>) -> ParseOutcome {
    if input.len() == 0 {
        ParseOutcome::Incomplete
    } else if input[0] != 36 {
        ParseOutcome::Malformed
    } else {
        match spec_find_crlf(input.drop_first()) {
            None => ParseOutcome::Incomplete,
            Some(i) => {
                let lenb = input.drop_first().take(i);
                if !(valid_signed(lenb) && i64::MIN <= signed_val(lenb) <= i64::MAX) {
                    ParseOutcome::Malformed
                } else {
                    let n = signed_val(lenb);
                    if n == -1 {
                        ParseOutcome::Parsed { used: 3 + i, val: RespVal::BulkStringNull }
                    } else if n < 0 {
                        ParseOutcome::Malformed
                    } else {
                        let body = 3 + i;
                        if input.len() < body + n + 2 {
                            ParseOutcome::Incomplete
                        } else if input[body + n] == 13 && input[body + n + 1] == 10 {
                            ParseOutcome::Parsed {
                                used: body + n + 2,
                                val: RespVal::BulkString(input.subrange(body, body + n)),
                            }
                        } else {
                            ParseOutcome::Malformed
                        }
                    }
                }
            },
        }
    }
}

/// `*<n>\r\n` followed by `n` values.
pub open spec fn spec_parse_array(input: Seq<u8>) -> ParseOutcome
    decreases input.len(), 0int, 0int,
{
    if input.len() == 0 {
        ParseOutcome::Incomplete
    } else if input[0] != 42 {
        ParseOutcome::Malformed
    } else {
        match spec_find_crlf(input.drop_first()) {
            None => ParseOutcome::Incomplete,
            Some(i) => {
                let lenb = input.drop_first().take(i);
                if !(valid_signed(lenb) && i64::MIN <= signed_val(lenb) <= i64::MAX) {
                    ParseOutcome::Malformed
                } else if signed_val(lenb) < 0 {
                    ParseOutcome::Malformed
                } else {
                    let n = signed_val(lenb) as nat;
                    let body = 3 + i;
                    if 0 <= i && body <= input.len() {
                        match spec_parse_elems(input.subrange(body, input.len() as int), n) {
                            ElemsOutcome::Parsed { used, vals } => ParseOutcome::Parsed {
                                used: body + used,
                                val: RespVal::Array(vals),
                            },
                            ElemsOutcome::Incomplete => ParseOutcome::Incomplete,
                            ElemsOutcome::Malformed => ParseOutcome::Malformed,
                        }
                    } else {
                        ParseOutcome::Malformed
                    }
                }
            },
        }
    }
}

/// One framed RESP value, dispatched on its leading marker byte.
pub open spec fn spec_parse(input: Seq<u8>) -> ParseOutcome
    decreases input.len(), 0int, 1int,
{
    if input.len() == 0 {
        ParseOutcome::Incomplete
    } else if input[0] == 43 {
        spec_parse_simple_string(input)
    } else if input[0] == 45 {
        spec_parse_error(input)
    } else if input[0] == 58 {
        spec_parse_integer(input)
    } else if input[0] == 36 {
        spec_parse_bulk_string(input)
    } else if input[0] == 42 {
        spec_parse_array(input)
    } else {
        ParseOutcome::Malformed
    }
}

/// `n` consecutive framed RESP values.
pub open spec fn spec_parse_elems(input: Seq<u8>, n: nat) -> ElemsOutcome
    decreases input.len(), 1int, n,
{
    if n == 0 {
        ElemsOutcome::Parsed { used: 0, vals: Seq::empty() }
    } else {
        match spec_parse(input) {
            ParseOutcome::Parsed { used, val } => {
                if 0 < used <= input.len() {
                    match spec_parse_elems(
                        input.subrange(used, input.len() as int),
                        (n - 1) as nat,
                    ) {
                        ElemsOutcome::Parsed { used: u2, vals } => ElemsOutcome::Parsed {
                            used: used + u2,
                            vals: seq![val] + vals,
                        },
                        ElemsOutcome::Incomplete => ElemsOutcome::Incomplete,
                        ElemsOutcome::Malformed => ElemsOutcome::Malformed,
                    }
                } else {
                    ElemsOutcome::Malformed
                }
            },
            ParseOutcome::Incomplete => ElemsOutcome::Incomplete,
            ParseOutcome::Malformed => ElemsOutcome::Malformed,
        }
    }
}

/// The first `\r\n`, when found, lies inside `s`, and is the first pair.
pub proof fn lemma_find_crlf_char(s: Seq<u8>)
    ensures
        match spec_find_crlf(s) {
            Some(i) => 0 <= i && i + 2 <= s.len() && s[i] == 13 && s[i + 1] == 10 && (forall|j: int|
                #![trigger s[j]]
                0 <= j < i ==> !(s[j] == 13 && s[j + 1] == 10)),
            None => forall|j: int|
                #![trigger s[j]]
                0 <= j && j + 2 <= s.len() ==> !(s[j] == 13 && s[j + 1] == 10),
        },
    decreases s.len(),
{
    if s.len() < 2 {
    } else if s[0] == 13 && s[1] == 10 {
    } else {
        let t = s.drop_first();
        lemma_find_crlf_char(t);
        match spec_find_crlf(t) {
            Some(i) => {
                assert(s[i + 1] == t[i] && s[i + 2] == t[i + 1]);
                assert forall|j: int| #![trigger s[j]] 0 <= j < i + 1 implies !(s[j] == 13 && s[j + 1] == 10) by {
                    if j > 0 {
                        assert(t[j - 1] == s[j] && t[j] == s[j + 1]);
                    }
                }
            },
            None => {
                assert forall|j: int| #![trigger s[j]] 0 <= j && j + 2 <= s.len() implies !(s[j] == 13
                    && s[j + 1] == 10) by {
                    if j > 0 {
                        assert(t[j - 1] == s[j] && t[j] == s[j + 1]);
                    }
                }
            },
        }
    }
}

/// A successful parse consumes at least one byte and no more than the input.
pub proof fn lemma_spec_parse_used(input: Seq<u8>)
    ensures
        spec_parse(input) matches ParseOutcome::Parsed { used, .. } ==> 0 < used <= input.len(),
    decreases input.len(), 0int, 1int,
{
    if input.len() == 0 {
    } else if input[0] == 43 || input[0] == 45 || input[0] == 58 || input[0] == 36 {
        lemma_find_crlf_char(input.drop_first());
    } else if input[0] == 42 {
        lemma_find_crlf_char(input.drop_first());
        if spec_parse_array(input) matches ParseOutcome::Parsed { used, .. } {
            let rest = input.drop_first();
            let i = spec_find_crlf(rest)->0;
            let body = 3 + i;
            lemma_spec_parse_elems_used(input.subrange(body, input.len() as int), (signed_val(
                rest.take(i),
            )) as nat);
        }
    }
}

/// Parsing a run of values consumes no more than the input.
pub proof fn lemma_spec_parse_elems_used(input: Seq<u8>, n: nat)
    ensures
        spec_parse_elems(input, n) matches ElemsOutcome::Parsed { used, vals } ==> 0 <= used
            <= input.len() && vals.len() == n,
    decreases input.len(), 1int, n,
{
    if n == 0 {
    } else {
        lemma_spec_parse_used(input);
        match spec_parse(input) {
            ParseOutcome::Parsed { used, val } => {
                if 0 < used <= input.len() {
                    lemma_spec_parse_elems_used(
                        input.subrange(used, input.len() as int),
                        (n - 1) as nat,
                    );
                }
            },
            _ => {},
        }
    }
}


/// Why a parse attempt failed: the input ends before one whole value has
/// been framed, or the input cannot be the start of any value.
#[derive(Clone, Copy, Debug, PartialEq, Eq, Structural)]
pub enum ParseError {
    Incomplete,
    Malformed,
}

/// Finds the first `\r\n` pair in `s`.
pub fn find_crlf(s: &[u8]) -> (r: Option<usize>)
    ensures
        match r {
            Some(i) => spec_find_crlf(s@) == Some(i as int),
            None => spec_find_crlf(s@) is None,
        },
{
    proof {
        lemma_find_crlf_char(s@);
    }
    if s.len() < 2 {
        return None;
    }
    let mut i: usize = 0;
    while i <= s.len() - 2
        invariant
            s@.len() >= 2,
            0 <= i <= s@.len() - 1,
            forall|j: int| #![trigger s@[j]] 0 <= j < i ==> !(s@[j] == 13 && s@[j + 1] == 10),
        decreases s@.len() - i,
    {
        if s[i] == 13 && s[i + 1] == 10 {
            proof {
                lemma_find_crlf_char(s@);
                if spec_find_crlf(s@) is None {
                    assert(!(s@[i as int] == 13 && s@[i as int + 1] == 10));
                }
                let k = spec_find_crlf(s@)->0;
                if k < i {
                    assert(!(s@[k] == 13 && s@[k + 1] == 10));
                }
            }
            return Some(i);
        }
        i = i + 1;
    }
    proof {
        lemma_find_crlf_char(s@);
        if spec_find_crlf(s@) is Some {
            let k = spec_find_crlf(s@)->0;
            assert(0 <= k && k + 2 <= s@.len());
            assert(!(s@[k] == 13 && s@[k + 1] == 10));
        }
    }
    None
}

/// Parses `+<text>\r\n`.
pub fn parse_simple_string(input: &[u8]) -> (r: Result<(usize, RespData), ParseError>)
    ensures
        parse_matches_spec(r, spec_parse_simple_string(input@)),
{
    if input.len() == 0 {
        return Err(ParseError::Incomplete);
    }
    if input[0] != 43 {
        return Err(ParseError::Malformed);
    }
    let rest = vstd::slice::slice_subrange(input, 1, input.len());
    proof {
        assert(rest@ =~= input@.drop_first());
        lemma_find_crlf_char(rest@);
    }
    match find_crlf(rest) {
        None => Err(ParseError::Incomplete),
        Some(i) => {
            let payload = vstd::slice::slice_to_vec(vstd::slice::slice_subrange(rest, 0, i));
            proof {
                assert(payload@ =~= input@.drop_first().take(i as int));
            }
            Ok((3 + i, RespData::SimpleString(payload)))
        },
    }
}

/// Parses `-<text>\r\n`.
pub fn parse_error(input: &[u8]) -> (r: Result<(usize, RespData), ParseError>)
    ensures
        parse_matches_spec(r, spec_parse_error(input@)),
{
    if input.len() == 0 {
        return Err(ParseError::Incomplete);
    }
    if input[0] != 45 {
        return Err(ParseError::Malformed);
    }
    let rest = vstd::slice::slice_subrange(input, 1, input.len());
    proof {
        assert(rest@ =~= input@.drop_first());
        lemma_find_crlf_char(rest@);
    }
    match find_crlf(rest) {
        None => Err(ParseError::Incomplete),
        Some(i) => {
            let payload = vstd::slice::slice_to_vec(vstd::slice::slice_subrange(rest, 0, i));
            proof {
                assert(payload@ =~= input@.drop_first().take(i as int));
            }
            Ok((3 + i, RespData::Error(payload)))
        },
    }
}

/// Relates an executable parse result to the spec-level outcome.
pub open spec fn parse_matches_spec(
    r: Result<(usize, RespData), ParseError>,
    o: ParseOutcome,
) -> bool {
    match r {
        Ok(p) => o == (ParseOutcome::Parsed { used: p.0 as int, val: p.1.deep_view() }),
        Err(ParseError::Incomplete) => o is Incomplete,
        Err(ParseError::Malformed) => o is Malformed,
    }
}

/// Parses `:<decimal>\r\n`.
pub fn parse_integer(input: &[u8]) -> (r: Result<(usize, RespData), ParseError>)
    ensures
        parse_matches_spec(r, spec_parse_integer(input@)),
{
    if input.len() == 0 {
        return Err(ParseError::Incomplete);
    }
    if input[0] != 58 {
        return Err(ParseError::Malformed);
    }
    let rest = vstd::slice::slice_subrange(input, 1, input.len());
    proof {
        assert(rest@ =~= input@.drop_first());
        lemma_find_crlf_char(rest@);
    }
    match find_crlf(rest) {
        None => Err(ParseError::Incomplete),
        Some(i) => {
            let digits = vstd::slice::slice_subrange(rest, 0, i);
            proof {
                assert(digits@ =~= input@.drop_first().take(i as int));
            }
            match parse_i64(digits) {
                Some(v) => Ok((3 + i, RespData::Integer(v))),
                None => Err(ParseError::Malformed),
            }
        },
    }
}


/// Relates an executable multi-value parse result to the spec-level outcome.
pub open spec fn elems_matches_spec(
    r: Result<(usize, Vec<RespData>), ParseError>,
    o: ElemsOutcome,
) -> bool {
    match r {
        Ok(p) => o == (ElemsOutcome::Parsed { used: p.0 as int, vals: p.1.deep_view() }),
        Err(ParseError::Incomplete) => o is Incomplete,
        Err(ParseError::Malformed) => o is Malformed,
    }
}

/// Parses `$<n>\r\n<n bytes>\r\n` or the null bulk `$-1\r\n`.
pub fn parse_bulk_string(input: &[u8]) -> (r: Result<(usize, RespData), ParseError>)
    ensures
        parse_matches_spec(r, spec_parse_bulk_string(input@)),
{
    if input.len() == 0 {
        return Err(ParseError::Incomplete);
    }
    if input[0] != 36 {
        return Err(ParseError::Malformed);
    }
    let rest = vstd::slice::slice_subrange(input, 1, input.len());
    proof {
        assert(rest@ =~= input@.drop_first());
        lemma_find_crlf_char(rest@);
    }
    match find_crlf(rest) {
        None => Err(ParseError::Incomplete),
        Some(i) => {
            let lenb = vstd::slice::slice_subrange(rest, 0, i);
            proof {
                assert(lenb@ =~= input@.drop_first().take(i as int));
            }
            match parse_i64(lenb) {
                None => Err(ParseError::Malformed),
                Some(n) => {
                    if n == -1 {
                        Ok((3 + i, RespData::BulkStringNull))
                    } else if n < 0 {
                        Err(ParseError::Malformed)
                    } else {
                        let body: usize = 3 + i;
                        let avail: usize = input.len() - body;
                        if (avail as u128) < (n as u128) + 2 {
                            Err(ParseError::Incomplete)
                        } else {
                            assert(0 <= n <= usize::MAX);
                            let nn: usize = n as usize;
                            if input[body + nn] == 13 && input[body + nn + 1] == 10 {
                                let payload = vstd::slice::slice_to_vec(
                                    vstd::slice::slice_subrange(input, body, body + nn),
                                );
                                proof {
                                    assert(payload@ =~= input@.subrange(
                                        body as int,
                                        body as int + n,
                                    ));
                                }
                                Ok((body + nn + 2, RespData::BulkString(payload)))
                            } else {
                                Err(ParseError::Malformed)
                            }
                        }
                    }
                },
            }
        },
    }
}

/// Parses `*<n>\r\n` followed by `n` values.
pub fn parse_array(input: &[u8]) -> (r: Result<(usize, RespData), ParseError>)
    ensures
        parse_matches_spec(r, spec_parse_array(input@)),
    decreases input@.len(), 0int, 0int,
{
    if input.len() == 0 {
        return Err(ParseError::Incomplete);
    }
    if input[0] != 42 {
        return Err(ParseError::Malformed);
    }
    let rest = vstd::slice::slice_subrange(input, 1, input.len());
    proof {
        assert(rest@ =~= input@.drop_first());
        lemma_find_crlf_char(rest@);
    }
    match find_crlf(rest) {
        None => Err(ParseError::Incomplete),
        Some(i) => {
            let lenb = vstd::slice::slice_subrange(rest, 0, i);
            proof {
                assert(lenb@ =~= input@.drop_first().take(i as int));
            }
            match parse_i64(lenb) {
                None => Err(ParseError::Malformed),
                Some(n) => {
                    if n < 0 {
                        Err(ParseError::Malformed)
                    } else {
                        let body: usize = 3 + i;
                        let tail = vstd::slice::slice_subrange(input, body, input.len());
                        proof {
                            assert(tail@ =~= input@.subrange(body as int, input@.len() as int));
                        }
                        match parse_elems(tail, n as u64) {
                            Ok((u2, vals)) => {
                                proof {
                                    lemma_spec_parse_elems_used(tail@, n as nat);
                                    lemma_array_deep_view(&vals);
                                }
                                Ok((body + u2, RespData::Array(vals)))
                            },
                            Err(e) => Err(e),
                        }
                    }
                },
            }
        },
    }
}

/// The deep view of an array value is the element-wise deep view.
pub proof fn lemma_array_deep_view(elems: &Vec<RespData>)
    ensures
        RespData::Array(*elems).deep_view() == RespVal::Array(elems.deep_view()),
{
    let a = RespData::Array(*elems).deep_view();
    let b = RespVal::Array(elems.deep_view());
    assert(a->Array_0 =~= b->Array_0);
}

/// Parses `n` consecutive values.
pub fn parse_elems(input: &[u8], n: u64) -> (r: Result<(usize, Vec<RespData>), ParseError>)
    ensures
        elems_matches_spec(r, spec_parse_elems(input@, n as nat)),
    decreases input@.len(), 1int, n,
{
    if n == 0 {
        let vals: Vec<RespData> = Vec::new();
        proof {
            assert(vals.deep_view() =~= Seq::<RespVal>::empty());
        }
        return Ok((0, vals));
    }
    match parse_resp(input) {
        Ok((used, val)) => {
            proof {
                lemma_spec_parse_used(input@);
            }
            let tail = vstd::slice::slice_subrange(input, used, input.len());
            proof {
                assert(tail@ =~= input@.subrange(used as int, input@.len() as int));
            }
            match parse_elems(tail, n - 1) {
                Ok((u2, vals)) => {
                    proof {
                        lemma_spec_parse_elems_used(tail@, (n - 1) as nat);
                    }
                    let ghost prior = vals.deep_view();
                    let mut vals = vals;
                    vals.insert(0, val);
                    proof {
                        assert(vals.deep_view() =~= seq![val.deep_view()] + prior);
                    }
                    Ok((used + u2, vals))
                },
                Err(e) => Err(e),
            }
        },
        Err(e) => Err(e),
    }
}

/// Parses one framed RESP value from the head of `input`, returning how many
/// bytes it occupied together with the value.
pub fn parse_resp(input: &[u8]) -> (r: Result<(usize, RespData), ParseError>)
    ensures
        parse_matches_spec(r, spec_parse(input@)),
        r matches Ok(p) ==> 0 < p.0 <= input@.len(),
    decreases input@.len(), 0int, 1int,
{
    proof {
        lemma_spec_parse_used(input@);
    }
    if input.len() == 0 {
        return Err(ParseError::Incomplete);
    }
    let b = input[0];
    if b == 43 {
        parse_simple_string(input)
    } else if b == 45 {
        parse_error(input)
    } else if b == 58 {
        parse_integer(input)
    } else if b == 36 {
        parse_bulk_string(input)
    } else if b == 42 {
        parse_array(input)
    } else {
        Err(ParseError::Malformed)
    }
}

/// `$<n>\r\n<n bytes>` with no trailing `\r\n`: the framing of the snapshot
/// blob a primary sends after `+FULLRESYNC`.
pub open spec fn spec_parse_rdb(input: Seq<u8>) -> ParseOutcome {
    if input.len() == 0 {
        ParseOutcome::Incomplete
    } else if input[0] != 36 {
        ParseOutcome::Malformed
    } else {
        match spec_find_crlf(input.drop_first()) {
            None => ParseOutcome::Incomplete,
            Some(i) => {
                let lenb = input.drop_first().take(i);
                if !(valid_signed(lenb) && i64::MIN <= signed_val(lenb) <= i64::MAX) {
                    ParseOutcome::Malformed
                } else if signed_val(lenb) < 0 {
                    ParseOutcome::Malformed
                } else {
                    let n = signed_val(lenb);
                    let body = 3 + i;
                    if input.len() < body + n {
                        ParseOutcome::Incomplete
                    } else {
                        ParseOutcome::Parsed {
                            used: body + n,
                            val: RespVal::BulkString(input.subrange(body, body + n)),
                        }
                    }
                }
            },
        }
    }
}

/// Consumes a length-prefixed snapshot blob, reporting how many bytes it
/// occupied; the contents are not kept.
pub fn parse_rdb_frame(input: &[u8]) -> (r: Result<usize, ParseError>)
    ensures
        match r {
            Ok(used) => spec_parse_rdb(input@) matches ParseOutcome::Parsed { used: u, .. } && u
                == used as int && 0 < used <= input@.len(),
            Err(ParseError::Incomplete) => spec_parse_rdb(input@) is Incomplete,
            Err(ParseError::Malformed) => spec_parse_rdb(input@) is Malformed,
        },
{
    if input.len() == 0 {
        return Err(ParseError::Incomplete);
    }
    if input[0] != 36 {
        return Err(ParseError::Malformed);
    }
    let rest = vstd::slice::slice_subrange(input, 1, input.len());
    proof {
        assert(rest@ =~= input@.drop_first());
        lemma_find_crlf_char(rest@);
    }
    match find_crlf(rest) {
        None => Err(ParseError::Incomplete),
        Some(i) => {
            let lenb = vstd::slice::slice_subrange(rest, 0, i);
            proof {
                assert(lenb@ =~= input@.drop_first().take(i as int));
            }
            match parse_i64(lenb) {
                None => Err(ParseError::Malformed),
                Some(n) => {
                    if n < 0 {
                        Err(ParseError::Malformed)
                    } else {
                        let body: usize = 3 + i;
                        let avail: usize = input.len() - body;
                        if (avail as u128) < (n as u128) {
                            Err(ParseError::Incomplete)
                        } else {
                            assert(0 <= n <= usize::MAX);
                            Ok(body + (n as usize))
                        }
                    }
                },
            }
        },
    }
}

} // verus!
