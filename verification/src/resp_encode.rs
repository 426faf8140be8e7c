use vstd::prelude::*;
use crate::digits::{fmt_i64, fmt_u64, spec_dec, spec_dec_i64};
use crate::digits::{all_digits, dec_val, is_digit, lemma_dec_val_spec_dec, lemma_spec_dec_digits, signed_val, valid_signed};
use crate::resp_parser::{
    crlf_free, lemma_find_crlf_char, spec_find_crlf, spec_parse, spec_parse_elems, ElemsOutcome,
    ParseOutcome, RespData, RespVal,
};

verus! {

broadcast use vstd::std_specs::vec::axiom_vec_index_decreases, vstd::seq::axiom_seq_index_decreases, vstd::seq::axiom_seq_subrange_decreases;

/// The wire encoding of a RESP value.
pub open spec fn spec_encode(v: RespVal) -> Seq<u8>
    decreases v,
{
    match v {
        RespVal::SimpleString(s) => seq![43u8] + s + seq![13u8, 10u8],
        RespVal::Error(s) => seq![45u8] + s + seq![13u8, 10u8],
        RespVal::Integer(i) => seq![58u8] + spec_dec_i64(i) + seq![13u8, 10u8],
        RespVal::BulkString(s) => seq![36u8] + spec_dec(s.len()) + seq![13u8, 10u8] + s + seq![
            13u8,
            10u8,
        ],
        RespVal::BulkStringNull => seq![36u8, 45u8, 49u8, 13u8, 10u8],
        RespVal::Array(elems) => seq![42u8] + spec_dec(elems.len()) + seq![13u8, 10u8]
            + spec_encode_elems(elems),
    }
}

/// The concatenated encodings of a run of values.
pub open spec fn spec_encode_elems(elems: Seq<RespVal>) -> Seq<u8>
    decreases elems,
{
    if elems.len() == 0 {
        Seq::empty()
    } else {
        spec_encode(elems[0]) + spec_encode_elems(elems.drop_first())
    }
}

/// Encoding distributes over concatenation of runs.
pub proof fn lemma_encode_elems_app(a: Seq<RespVal>, b: Seq<RespVal>)
    ensures
        spec_encode_elems(a + b) == spec_encode_elems(a) + spec_encode_elems(b),
    decreases a.len(),
{
    if a.len() == 0 {
        assert(a + b =~= b);
        assert(spec_encode_elems(a) =~= Seq::<u8>::empty());
        assert(spec_encode_elems(a) + spec_encode_elems(b) =~= spec_encode_elems(b));
    } else {
        lemma_encode_elems_app(a.drop_first(), b);
        assert((a + b).drop_first() =~= a.drop_first() + b);
        assert((a + b)[0] == a[0]);
        assert(spec_encode_elems(a + b) == spec_encode(a[0]) + (spec_encode_elems(a.drop_first())
            + spec_encode_elems(b)));
        assert(spec_encode(a[0]) + (spec_encode_elems(a.drop_first()) + spec_encode_elems(b)) =~= (
        spec_encode(a[0]) + spec_encode_elems(a.drop_first())) + spec_encode_elems(b));
    }
}

/// The encoding of a single-value run is the value's encoding.
pub proof fn lemma_encode_elems_one(v: RespVal)
    ensures
        spec_encode_elems(seq![v]) == spec_encode(v),
{
    assert(seq![v][0] == v);
    assert(seq![v].drop_first() =~= Seq::<RespVal>::empty());
    assert(spec_encode_elems(Seq::<RespVal>::empty()) == Seq::<u8>::empty());
    assert(spec_encode(v) + Seq::<u8>::empty() =~= spec_encode(v));
}

/// Appends all of `data` to `v`.
pub fn push_all(v: &mut Vec<u8>, data: &[u8])
    ensures
        final(v)@ == old(v)@ + data@,
{
    let mut j: usize = 0;
    while j < data.len()
        invariant
            0 <= j <= data@.len(),
            v@ == old(v)@ + data@.take(j as int),
        decreases data@.len() - j,
    {
        v.push(data[j]);
        proof {
            assert(old(v)@ + data@.take(j + 1) =~= (old(v)@ + data@.take(j as int)).push(
                data@[j as int],
            ));
        }
        j = j + 1;
    }
    proof {
        assert(data@.take(data@.len() as int) =~= data@);
    }
}

/// Encodes `$<len>\r\n<data>\r\n`.
pub fn make_bulk_string(data: &[u8]) -> (r: Vec<u8>)
    ensures
        r@ == spec_encode(RespVal::BulkString(data@)),
{
    let mut v: Vec<u8> = Vec::new();
    v.push(36);
    let digits = fmt_u64(data.len() as u64);
    push_all(&mut v, digits.as_slice());
    v.push(13);
    v.push(10);
    push_all(&mut v, data);
    v.push(13);
    v.push(10);
    proof {
        assert(v@ =~= spec_encode(RespVal::BulkString(data@)));
    }
    v
}

/// Encodes `+<data>\r\n`.
pub fn encode_simple_string(data: &[u8]) -> (r: Vec<u8>)
    ensures
        r@ == spec_encode(RespVal::SimpleString(data@)),
{
    let mut v: Vec<u8> = Vec::new();
    v.push(43);
    push_all(&mut v, data);
    v.push(13);
    v.push(10);
    proof {
        assert(v@ =~= spec_encode(RespVal::SimpleString(data@)));
    }
    v
}

/// Encodes `-<data>\r\n`.
pub fn encode_error(data: &[u8]) -> (r: Vec<u8>)
    ensures
        r@ == spec_encode(RespVal::Error(data@)),
{
    let mut v: Vec<u8> = Vec::new();
    v.push(45);
    push_all(&mut v, data);
    v.push(13);
    v.push(10);
    proof {
        assert(v@ =~= spec_encode(RespVal::Error(data@)));
    }
    v
}

/// Encodes `:<i>\r\n`.
pub fn encode_integer(i: i64) -> (r: Vec<u8>)
    ensures
        r@ == spec_encode(RespVal::Integer(i as int)),
{
    let mut v: Vec<u8> = Vec::new();
    v.push(58);
    let digits = fmt_i64(i);
    push_all(&mut v, digits.as_slice());
    v.push(13);
    v.push(10);
    proof {
        assert(v@ =~= spec_encode(RespVal::Integer(i as int)));
    }
    v
}

/// Encodes the null bulk string `$-1\r\n`.
pub fn encode_null_bulk() -> (r: Vec<u8>)
    ensures
        r@ == spec_encode(RespVal::BulkStringNull),
{
    let mut v: Vec<u8> = Vec::new();
    v.push(36);
    v.push(45);
    v.push(49);
    v.push(13);
    v.push(10);
    proof {
        assert(v@ =~= spec_encode(RespVal::BulkStringNull));
    }
    v
}

/// Encodes `*<n>\r\n`, the header of an `n`-element array.
pub fn encode_array_header(n: u64) -> (r: Vec<u8>)
    ensures
        r@ == seq![42u8] + spec_dec(n as nat) + seq![13u8, 10u8],
{
    let mut v: Vec<u8> = Vec::new();
    v.push(42);
    let digits = fmt_u64(n);
    push_all(&mut v, digits.as_slice());
    v.push(13);
    v.push(10);
    proof {
        assert(v@ =~= seq![42u8] + spec_dec(n as nat) + seq![13u8, 10u8]);
    }
    v
}

/// Encodes any RESP value.
#[verifier::loop_isolation(false)]
pub fn encode_resp(v: &RespData) -> (r: Vec<u8>)
    ensures
        r@ == spec_encode(v.deep_view()),
    decreases v,
{
    match v {
        RespData::SimpleString(s) => encode_simple_string(s.as_slice()),
        RespData::Error(s) => encode_error(s.as_slice()),
        RespData::Integer(i) => encode_integer(*i),
        RespData::BulkString(s) => make_bulk_string(s.as_slice()),
        RespData::BulkStringNull => encode_null_bulk(),
        RespData::Array(elems) => {
            let ghost dv = v.deep_view()->Array_0;
            proof {
                assert(dv.len() == elems@.len());
            }
            let mut out = encode_array_header(elems.len() as u64);
            let mut j: usize = 0;
            while j < elems.len()
                invariant
                    0 <= j <= elems@.len(),
                    dv.len() == elems@.len(),
                    forall|k: int| 0 <= k < elems@.len() ==> #[trigger] dv[k]
                        == elems@[k].deep_view(),
                    out@ == seq![42u8] + spec_dec(elems@.len()) + seq![13u8, 10u8]
                        + spec_encode_elems(dv.take(j as int)),
                decreases elems@.len() - j,
            {
                proof {
                    vstd::std_specs::vec::axiom_vec_index_decreases(*elems, j as int);
                }
                let mut piece = encode_resp(&elems[j]);
                out.append(&mut piece);
                proof {
                    assert(dv.take(j + 1) =~= dv.take(j as int) + seq![dv[j as int]]);
                    lemma_encode_elems_app(dv.take(j as int), seq![dv[j as int]]);
                    lemma_encode_elems_one(dv[j as int]);
                }
                j = j + 1;
            }
            proof {
                assert(dv.take(dv.len() as int) =~= dv);
            }
            out
        },
    }
}


/// A value the encoder can frame faithfully: line payloads hold no `\r` or
/// `\n`, and lengths fit the signed 64-bit numerals the parser reads back.
pub open spec fn wf_resp(v: RespVal) -> bool
    decreases v,
{
    match v {
        RespVal::SimpleString(s) => crlf_free(s),
        RespVal::Error(s) => crlf_free(s),
        RespVal::Integer(i) => i64::MIN <= i <= i64::MAX,
        RespVal::BulkString(s) => s.len() <= i64::MAX,
        RespVal::BulkStringNull => true,
        RespVal::Array(elems) => elems.len() <= i64::MAX && wf_elems(elems),
    }
}

/// Every value of the run is well formed.
pub open spec fn wf_elems(elems: Seq<RespVal>) -> bool
    decreases elems,
{
    elems.len() == 0 || (wf_resp(elems[0]) && wf_elems(elems.drop_first()))
}

/// No null bulk string appears as an array element, at any depth.
pub open spec fn no_nested_null(v: RespVal) -> bool
    decreases v,
{
    match v {
        RespVal::Array(elems) => no_null_elems(elems),
        _ => true,
    }
}

/// No value of the run is, or contains, a null bulk string.
pub open spec fn no_null_elems(elems: Seq<RespVal>) -> bool
    decreases elems,
{
    elems.len() == 0 || (!(elems[0] is BulkStringNull) && no_nested_null(elems[0])
        && no_null_elems(elems.drop_first()))
}

/// Every encoding is at least three bytes long.
pub proof fn lemma_encode_len_pos(v: RespVal)
    ensures
        spec_encode(v).len() >= 3,
{
}

/// Digit strings hold no `\r` or `\n`.
pub proof fn lemma_digits_crlf_free(s: Seq<u8>)
    requires
        all_digits(s),
    ensures
        crlf_free(s),
{
    assert forall|i: int| 0 <= i < s.len() implies s[i] != 13 && s[i] != 10 by {
        assert(is_digit(s[i]));
    }
}

/// The canonical signed numeral is a valid numeral that reads back to its
/// value, and holds no `\r` or `\n`.
pub proof fn lemma_spec_dec_i64_valid(i: int)
    ensures
        valid_signed(spec_dec_i64(i)),
        signed_val(spec_dec_i64(i)) == i,
        crlf_free(spec_dec_i64(i)),
{
    if i < 0 {
        let mag = (-i) as nat;
        lemma_spec_dec_digits(mag);
        lemma_dec_val_spec_dec(mag);
        let s = spec_dec_i64(i);
        assert(s == seq![45u8] + spec_dec(mag));
        assert(s[0] == 45);
        assert(s.drop_first() =~= spec_dec(mag));
        assert(all_digits(s.drop_first()));
        assert(s.len() > 1);
        assert(signed_val(s) == -dec_val(spec_dec(mag)));
        lemma_digits_crlf_free(spec_dec(mag));
        assert forall|j: int| 0 <= j < s.len() implies s[j] != 13 && s[j] != 10 by {
            if j > 0 {
                assert(s[j] == spec_dec(mag)[j - 1]);
                assert(is_digit(spec_dec(mag)[j - 1]));
            }
        }
    } else {
        lemma_spec_dec_digits(i as nat);
        lemma_dec_val_spec_dec(i as nat);
        let s = spec_dec_i64(i);
        assert(s == spec_dec(i as nat));
        assert(is_digit(s[0]));
        assert(s[0] != 45);
        lemma_digits_crlf_free(s);
    }
}

/// The unsigned canonical numeral is valid and reads back to its value.
pub proof fn lemma_spec_dec_valid(n: nat)
    ensures
        valid_signed(spec_dec(n)),
        signed_val(spec_dec(n)) == n,
        crlf_free(spec_dec(n)),
{
    lemma_spec_dec_digits(n);
    lemma_dec_val_spec_dec(n);
    assert(is_digit(spec_dec(n)[0]));
    assert(spec_dec(n)[0] != 45);
    lemma_digits_crlf_free(spec_dec(n));
}

/// In `line + "\r\n" + rest` with a `\r\n`-free line, the first `\r\n` pair
/// sits exactly at the end of the line.
pub proof fn lemma_find_crlf_exact(line: Seq<u8>, rest: Seq<u8>)
    requires
        crlf_free(line),
    ensures
        spec_find_crlf(line + seq![13u8, 10u8] + rest) == Some(line.len() as int),
    decreases line.len(),
{
    let s = line + seq![13u8, 10u8] + rest;
    if line.len() == 0 {
        assert(s[0] == 13 && s[1] == 10);
    } else {
        assert(s[0] == line[0]);
        assert(line[0] != 13);
        lemma_find_crlf_exact(line.drop_first(), rest);
        assert(s.drop_first() =~= line.drop_first() + seq![13u8, 10u8] + rest);
        assert(s.len() >= 2);
    }
}

/// Parsing the encoding of a well-formed value, whatever follows it,
/// consumes exactly the encoding and yields the value.
#[verifier::rlimit(60)]
pub proof fn lemma_parse_encode(v: RespVal, rest: Seq<u8>)
    requires
        wf_resp(v),
    ensures
        spec_parse(spec_encode(v) + rest) == (ParseOutcome::Parsed {
            used: spec_encode(v).len() as int,
            val: v,
        }),
    decreases v,
{
    let enc = spec_encode(v);
    let input = enc + rest;
    match v {
        RespVal::SimpleString(s) => {
            assert(input[0] == 43);
            assert(input.drop_first() =~= s + seq![13u8, 10u8] + rest);
            lemma_find_crlf_exact(s, rest);
            assert(input.drop_first().take(s.len() as int) =~= s);
        },
        RespVal::Error(s) => {
            assert(input[0] == 45);
            assert(input.drop_first() =~= s + seq![13u8, 10u8] + rest);
            lemma_find_crlf_exact(s, rest);
            assert(input.drop_first().take(s.len() as int) =~= s);
        },
        RespVal::Integer(i) => {
            let dd = spec_dec_i64(i);
            assert(input[0] == 58);
            assert(input.drop_first() =~= dd + seq![13u8, 10u8] + rest);
            lemma_spec_dec_i64_valid(i);
            lemma_find_crlf_exact(dd, rest);
            assert(input.drop_first().take(dd.len() as int) =~= dd);
        },
        RespVal::BulkString(s) => {
            let lseq = spec_dec(s.len());
            assert(input[0] == 36);
            assert(input.drop_first() =~= lseq + seq![13u8, 10u8] + (s + seq![13u8, 10u8]
                + rest));
            lemma_spec_dec_valid(s.len());
            lemma_find_crlf_exact(lseq, s + seq![13u8, 10u8] + rest);
            assert(input.drop_first().take(lseq.len() as int) =~= lseq);
            let body = 3 + lseq.len() as int;
            let n = s.len() as int;
            assert(input.len() == body + n + 2 + rest.len());
            assert(input[body + n] == 13 && input[body + n + 1] == 10);
            assert(input.subrange(body, body + n) =~= s);
            assert(enc.len() == body + n + 2);
        },
        RespVal::BulkStringNull => {
            assert(input[0] == 36);
            let line = seq![45u8, 49u8];
            assert(crlf_free(line)) by {
                assert(line[0] == 45 && line[1] == 49);
            }
            lemma_find_crlf_exact(line, rest);
            assert(input.drop_first() =~= line + seq![13u8, 10u8] + rest);
            let lenb = input.drop_first().take(2);
            assert(lenb =~= line);
            assert(lenb[0] == 45);
            assert(lenb.drop_first() =~= seq![49u8]);
            assert(all_digits(lenb.drop_first())) by {
                assert(lenb.drop_first()[0] == 49);
            }
            assert(valid_signed(lenb));
            assert(dec_val(seq![49u8]) == 1) by {
                assert(seq![49u8].drop_last() =~= Seq::<u8>::empty());
                assert(dec_val(Seq::<u8>::empty()) == 0);
                assert(seq![49u8].last() == 49);
            }
            assert(signed_val(lenb) == -1);
            assert(enc.len() == 5);
        },
        RespVal::Array(elems) => {
            let lseq = spec_dec(elems.len());
            assert(input[0] == 42);
            assert(input.drop_first() =~= lseq + seq![13u8, 10u8] + (spec_encode_elems(elems)
                + rest));
            lemma_spec_dec_valid(elems.len());
            lemma_find_crlf_exact(lseq, spec_encode_elems(elems) + rest);
            assert(input.drop_first().take(lseq.len() as int) =~= lseq);
            let body = 3 + lseq.len() as int;
            assert(body <= input.len());
            assert(input.subrange(body, input.len() as int) =~= spec_encode_elems(elems)
                + rest);
            lemma_parse_encode_elems(elems, rest);
            assert(enc.len() == body + spec_encode_elems(elems).len());
        },
    }
}

/// Parsing the concatenated encodings of a well-formed run, whatever follows
/// them, consumes exactly the encodings and yields the run.
pub proof fn lemma_parse_encode_elems(elems: Seq<RespVal>, rest: Seq<u8>)
    requires
        wf_elems(elems),
    ensures
        spec_parse_elems(spec_encode_elems(elems) + rest, elems.len()) == (ElemsOutcome::Parsed {
            used: spec_encode_elems(elems).len() as int,
            vals: elems,
        }),
    decreases elems,
{
    let encs = spec_encode_elems(elems);
    let input = encs + rest;
    if elems.len() == 0 {
        assert(spec_parse_elems(input, 0) == (ElemsOutcome::Parsed {
            used: 0,
            vals: Seq::<RespVal>::empty(),
        }));
        assert(elems =~= Seq::<RespVal>::empty());
    } else {
        let e0 = elems[0];
        let tail = elems.drop_first();
        let enc0 = spec_encode(e0);
        let enct = spec_encode_elems(tail);
        assert(encs == enc0 + enct);
        assert(input =~= enc0 + (enct + rest));
        lemma_parse_encode(e0, enct + rest);
        lemma_encode_len_pos(e0);
        let used = enc0.len() as int;
        assert(0 < used <= input.len());
        assert(input.subrange(used, input.len() as int) =~= enct + rest);
        lemma_parse_encode_elems(tail, rest);
        assert(seq![e0] + tail =~= elems);
    }
}

/// RESP round trip: parsing the encoding of a well-formed value that holds
/// no null bulk string inside an array yields the value back, with the whole
/// encoding consumed and nothing left over.
pub proof fn lemma_resp_round_trip(v: RespVal)
    requires
        wf_resp(v),
        no_nested_null(v),
    ensures
        spec_parse(spec_encode(v)) == (ParseOutcome::Parsed {
            used: spec_encode(v).len() as int,
            val: v,
        }),
{
    lemma_parse_encode(v, Seq::empty());
    assert(spec_encode(v) + Seq::<u8>::empty() =~= spec_encode(v));
}


/// A strict prefix of `line + "\r\n"` with a `\r\n`-free line holds no
/// `\r\n` pair.
pub proof fn lemma_find_crlf_prefix_none(line: Seq<u8>, j: int)
    requires
        crlf_free(line),
        0 <= j <= line.len() + 1,
    ensures
        spec_find_crlf((line + seq![13u8, 10u8]).take(j)) is None,
{
    let s = (line + seq![13u8, 10u8]).take(j);
    lemma_find_crlf_char(s);
    if spec_find_crlf(s) is Some {
        let i = spec_find_crlf(s)->0;
        assert(i + 2 <= s.len());
        assert(i < line.len());
        assert(s[i] == line[i]);
        assert(line[i] != 13);
        assert(false);
    }
}

/// Partial frame: a strict prefix of the encoding of a well-formed value is
/// reported incomplete, never parsed and never rejected.
pub proof fn lemma_partial_frame_incomplete(v: RespVal, k: int)
    requires
        wf_resp(v),
        0 <= k < spec_encode(v).len(),
    ensures
        spec_parse(spec_encode(v).take(k)) is Incomplete,
    decreases v,
{
    let enc = spec_encode(v);
    let p = enc.take(k);
    if k == 0 {
        assert(p.len() == 0);
    } else {
        match v {
            RespVal::SimpleString(s) => {
                assert(p[0] == 43);
                assert(p.drop_first() =~= (s + seq![13u8, 10u8]).take(k - 1));
                lemma_find_crlf_prefix_none(s, k - 1);
            },
            RespVal::Error(s) => {
                assert(p[0] == 45);
                assert(p.drop_first() =~= (s + seq![13u8, 10u8]).take(k - 1));
                lemma_find_crlf_prefix_none(s, k - 1);
            },
            RespVal::Integer(i) => {
                let dd = spec_dec_i64(i);
                lemma_spec_dec_i64_valid(i);
                assert(p[0] == 58);
                assert(p.drop_first() =~= (dd + seq![13u8, 10u8]).take(k - 1));
                lemma_find_crlf_prefix_none(dd, k - 1);
            },
            RespVal::BulkString(s) => {
                let lseq = spec_dec(s.len());
                lemma_spec_dec_valid(s.len());
                let hl = 3 + lseq.len() as int;
                assert(p[0] == 36);
                if k < hl {
                    assert(p.drop_first() =~= (lseq + seq![13u8, 10u8]).take(k - 1));
                    lemma_find_crlf_prefix_none(lseq, k - 1);
                } else {
                    assert(p.drop_first() =~= lseq + seq![13u8, 10u8] + (s + seq![13u8, 10u8]).take(
                        k - hl,
                    ));
                    lemma_find_crlf_exact(lseq, (s + seq![13u8, 10u8]).take(k - hl));
                    assert(p.drop_first().take(lseq.len() as int) =~= lseq);
                    assert(p.len() == k);
                    assert(enc.len() == hl + s.len() + 2);
                    assert(p.len() < hl + s.len() + 2);
                }
            },
            RespVal::BulkStringNull => {
                let line = seq![45u8, 49u8];
                assert(crlf_free(line)) by {
                    assert(line[0] == 45 && line[1] == 49);
                }
                assert(p[0] == 36);
                assert(enc.len() == 5);
                assert(p.drop_first() =~= (line + seq![13u8, 10u8]).take(k - 1));
                lemma_find_crlf_prefix_none(line, k - 1);
            },
            RespVal::Array(elems) => {
                let lseq = spec_dec(elems.len());
                lemma_spec_dec_valid(elems.len());
                let ee = spec_encode_elems(elems);
                let hl = 3 + lseq.len() as int;
                assert(p[0] == 42);
                if k < hl {
                    assert(p.drop_first() =~= (lseq + seq![13u8, 10u8]).take(k - 1));
                    lemma_find_crlf_prefix_none(lseq, k - 1);
                } else {
                    assert(p.drop_first() =~= lseq + seq![13u8, 10u8] + ee.take(k - hl));
                    lemma_find_crlf_exact(lseq, ee.take(k - hl));
                    assert(p.drop_first().take(lseq.len() as int) =~= lseq);
                    assert(hl <= p.len());
                    assert(p.subrange(hl, p.len() as int) =~= ee.take(k - hl));
                    assert(0 <= k - hl < ee.len());
                    lemma_elems_prefix_incomplete(elems, k - hl);
                }
            },
        }
    }
}

/// A strict prefix of the concatenated encodings of a well-formed run is
/// reported incomplete when read as that many values.
pub proof fn lemma_elems_prefix_incomplete(elems: Seq<RespVal>, k: int)
    requires
        wf_elems(elems),
        0 <= k < spec_encode_elems(elems).len(),
    ensures
        spec_parse_elems(spec_encode_elems(elems).take(k), elems.len()) is Incomplete,
    decreases elems,
{
    if elems.len() == 0 {
    } else {
        let e0 = elems[0];
        let tail = elems.drop_first();
        let enc0 = spec_encode(e0);
        let enct = spec_encode_elems(tail);
        let ee = spec_encode_elems(elems);
        assert(ee == enc0 + enct);
        let p = ee.take(k);
        lemma_encode_len_pos(e0);
        if k < enc0.len() {
            assert(p =~= enc0.take(k));
            lemma_partial_frame_incomplete(e0, k);
        } else {
            let k2 = k - enc0.len();
            assert(p =~= enc0 + enct.take(k2));
            lemma_parse_encode(e0, enct.take(k2));
            let used = enc0.len() as int;
            assert(0 < used <= p.len());
            assert(p.subrange(used, p.len() as int) =~= enct.take(k2));
            assert(0 <= k2 < enct.len());
            lemma_elems_prefix_incomplete(tail, k2);
        }
    }
}

} // verus!
