use vstd::prelude::*;

verus! {

/// ASCII decimal digit.
pub open spec fn is_digit(b: u8) -> bool {
    48 <= b <= 57
}

/// Every byte of `s` is an ASCII decimal digit.
pub open spec fn all_digits(s: Seq<u8>) -> bool {
    forall|i: int| 0 <= i < s.len() ==> is_digit(#[trigger] s[i])
}

/// The value of `s` read as a decimal numeral, most significant digit first.
pub open spec fn dec_val(s: Seq<u8>) -> int
    decreases s.len(),
{
    if s.len() == 0 {
        0
    } else {
        10 * dec_val(s.drop_last()) + (s.last() - 48)
    }
}

/// The canonical decimal numeral of `n`: no leading zero except for `0` itself.
pub open spec fn spec_dec(n: nat) -> Seq<u8>
    decreases n,
{
    if n < 10 {
        seq![(48 + n) as u8]
    } else {
        spec_dec(n / 10).push((48 + n % 10) as u8)
    }
}

/// The canonical signed decimal numeral: a minus sign, then the magnitude.
pub open spec fn spec_dec_i64(n: int) -> Seq<u8> {
    if n < 0 {
        seq![45u8] + spec_dec((-n) as nat)
    } else {
        spec_dec(n as nat)
    }
}

/// A nonempty, all-digit numeral.
pub open spec fn valid_unsigned(s: Seq<u8>) -> bool {
    s.len() > 0 && all_digits(s)
}

/// An optionally minus-signed, nonempty, all-digit numeral.
pub open spec fn valid_signed(s: Seq<u8>) -> bool {
    valid_unsigned(s) || (s.len() > 1 && s[0] == 45 && all_digits(s.drop_first()))
}

/// The value of a signed decimal numeral.
pub open spec fn signed_val(s: Seq<u8>) -> int {
    if s.len() > 0 && s[0] == 45 {
        -dec_val(s.drop_first())
    } else {
        dec_val(s)
    }
}

pub proof fn lemma_dec_val_nonneg(s: Seq<u8>)
    requires
        all_digits(s),
    ensures
        0 <= dec_val(s),
    decreases s.len(),
{
    if s.len() > 0 {
        assert(all_digits(s.drop_last()));
        lemma_dec_val_nonneg(s.drop_last());
    }
}

/// Extending an all-digit numeral on the right can only increase its value.
pub proof fn lemma_dec_val_take_le(s: Seq<u8>, i: int)
    requires
        all_digits(s),
        0 <= i <= s.len(),
    ensures
        dec_val(s.take(i)) <= dec_val(s),
    decreases s.len() - i,
{
    if i < s.len() {
        lemma_dec_val_take_le(s, i + 1);
        let t = s.take(i + 1);
        assert(t.drop_last() =~= s.take(i));
        assert(all_digits(s.take(i)));
        lemma_dec_val_nonneg(s.take(i));
        assert(dec_val(t) == 10 * dec_val(s.take(i)) + (s[i] - 48));
        assert(dec_val(s.take(i)) <= dec_val(t));
    } else {
        assert(s.take(i) =~= s);
    }
}

/// The canonical numeral consists of digits, is nonempty, and has no
/// leading zero unless it denotes zero.
pub proof fn lemma_spec_dec_digits(n: nat)
    ensures
        all_digits(spec_dec(n)),
        spec_dec(n).len() >= 1,
        n > 0 ==> spec_dec(n)[0] != 48,
        n < 10 ==> spec_dec(n).len() == 1,
    decreases n,
{
    if n >= 10 {
        lemma_spec_dec_digits(n / 10);
        let p = spec_dec(n / 10);
        assert(spec_dec(n) == p.push((48 + n % 10) as u8));
        assert(forall|i: int|
            0 <= i < p.len() ==> spec_dec(n)[i] == #[trigger] p[i]);
        assert(is_digit(spec_dec(n)[p.len() as int]));
    }
}

/// Reading back the canonical numeral of `n` yields `n`.
pub proof fn lemma_dec_val_spec_dec(n: nat)
    ensures
        dec_val(spec_dec(n)) == n,
    decreases n,
{
    if n < 10 {
        let w = spec_dec(n);
        assert(w == seq![(48 + n) as u8]);
        assert(w.drop_last() =~= Seq::<u8>::empty());
        assert(dec_val(w.drop_last()) == 0);
        assert(w.last() == (48 + n) as u8);
        assert(w.len() == 1);
        assert(dec_val(w) == 10 * dec_val(w.drop_last()) + (w.last() - 48));
        assert(dec_val(w) == n);
    } else {
        lemma_dec_val_spec_dec(n / 10);
        let p = spec_dec(n / 10);
        let w = p.push((48 + n % 10) as u8);
        assert(w.drop_last() =~= p);
        assert(w.last() == (48 + n % 10) as u8);
        assert(dec_val(w) == 10 * dec_val(p) + (w.last() - 48));
        vstd::arithmetic::div_mod::lemma_fundamental_div_mod(n as int, 10);
        assert(dec_val(w) == n);
    }
}

/// Reads a nonempty all-digit byte string as a `u64`; `None` when some byte
/// is not a digit, the string is empty, or the value does not fit.
pub fn parse_u64(s: &[u8]) -> (r: Option<u64>)
    ensures
        r is Some <==> valid_unsigned(s@) && dec_val(s@) <= u64::MAX,
        r is Some ==> r->0 == dec_val(s@),
{
    if s.len() == 0 {
        return None;
    }
    let mut acc: u64 = 0;
    let mut i: usize = 0;
    while i < s.len()
        invariant
            0 <= i <= s@.len(),
            s@.len() > 0,
            all_digits(s@.take(i as int)),
            acc == dec_val(s@.take(i as int)),
        decreases s@.len() - i,
    {
        let b = s[i];
        if b < 48 || b > 57 {
            assert(!is_digit(s@[i as int]));
            return None;
        }
        let d: u64 = (b - 48) as u64;
        if acc > (u64::MAX - d) / 10 {
            assert(10 * (acc as int) + d > u64::MAX) by (nonlinear_arith)
                requires
                    acc > (u64::MAX - d) / 10,
                    d <= 9,
            ;
            proof {
                if all_digits(s@) {
                    assert(s@.take(i + 1).drop_last() =~= s@.take(i as int));
                    assert(dec_val(s@.take(i + 1)) == 10 * (acc as int) + d);
                    lemma_dec_val_take_le(s@, i + 1);
                }
            }
            return None;
        }
        assert(10 * (acc as int) + d <= u64::MAX) by (nonlinear_arith)
            requires
                acc <= (u64::MAX - d) / 10,
                d <= 9,
        ;
        proof {
            assert(s@.take(i + 1).drop_last() =~= s@.take(i as int));
            assert(s@.take(i + 1).last() == s@[i as int]);
        }
        acc = acc * 10 + d;
        i = i + 1;
    }
    proof {
        assert(s@.take(i as int) =~= s@);
    }
    Some(acc)
}

/// Reads an optionally minus-signed decimal byte string as an `i64`;
/// `None` when the numeral is malformed or the value does not fit.
pub fn parse_i64(s: &[u8]) -> (r: Option<i64>)
    ensures
        r is Some <==> valid_signed(s@) && i64::MIN <= signed_val(s@) <= i64::MAX,
        r is Some ==> r->0 == signed_val(s@),
{
    if s.len() >= 1 && s[0] == 45 {
        let rest = vstd::slice::slice_subrange(s, 1, s.len());
        assert(rest@ =~= s@.drop_first());
        match parse_u64(rest) {
            Some(m) => {
                proof {
                    lemma_dec_val_nonneg(rest@);
                }
                if m <= 9223372036854775808u64 {
                    if m == 9223372036854775808u64 {
                        Some(i64::MIN)
                    } else {
                        Some(-(m as i64))
                    }
                } else {
                    None
                }
            },
            None => {
                proof {
                    if valid_signed(s@) {
                        assert(all_digits(s@.drop_first()));
                        lemma_dec_val_nonneg(s@.drop_first());
                    }
                }
                None
            },
        }
    } else {
        match parse_u64(s) {
            Some(m) => {
                if m <= i64::MAX as u64 {
                    Some(m as i64)
                } else {
                    None
                }
            },
            None => {
                proof {
                    if valid_signed(s@) {
                        lemma_dec_val_nonneg(s@);
                    }
                }
                None
            },
        }
    }
}

/// Writes `n` as its canonical decimal numeral.
pub fn fmt_u64(n: u64) -> (r: Vec<u8>)
    ensures
        r@ == spec_dec(n as nat),
    decreases n,
{
    if n < 10 {
        let mut v: Vec<u8> = Vec::new();
        v.push(48 + n as u8);
        proof {
            assert(v@ =~= spec_dec(n as nat));
        }
        v
    } else {
        let mut v = fmt_u64(n / 10);
        v.push(48 + (n % 10) as u8);
        v
    }
}

/// Writes `i` as its canonical signed decimal numeral.
pub fn fmt_i64(i: i64) -> (r: Vec<u8>)
    ensures
        r@ == spec_dec_i64(i as int),
{
    if i >= 0 {
        fmt_u64(i as u64)
    } else {
        let mag: u64 = if i == i64::MIN {
            9223372036854775808u64
        } else {
            (-i) as u64
        };
        assert(mag == -(i as int));
        let mut v: Vec<u8> = Vec::new();
        v.push(45);
        let mut digits = fmt_u64(mag);
        v.append(&mut digits);
        proof {
            assert(v@ =~= spec_dec_i64(i as int));
        }
        v
    }
}


/// Ten to the `k`.
pub open spec fn pow10(k: nat) -> nat
    decreases k,
{
    if k == 0 {
        1
    } else {
        10 * pow10((k - 1) as nat)
    }
}

/// A numeral below `pow10(b)` has at most `b` digits.
pub proof fn lemma_spec_dec_len(n: nat, b: nat)
    requires
        b >= 1,
        n < pow10(b),
    ensures
        spec_dec(n).len() <= b,
    decreases n,
{
    if n < 10 {
    } else {
        assert(b >= 2) by {
            reveal_with_fuel(pow10, 2);
            if b == 1 {
                assert(pow10(1) == 10);
            }
        }
        assert(pow10(b) == 10 * pow10((b - 1) as nat));
        assert(n / 10 < pow10((b - 1) as nat)) by (nonlinear_arith)
            requires
                n < 10 * pow10((b - 1) as nat),
        ;
        lemma_spec_dec_len(n / 10, (b - 1) as nat);
    }
}

/// The numeral of a 64-bit value has at most twenty digits.
pub proof fn lemma_spec_dec_len_u64(n: nat)
    requires
        n <= u64::MAX,
    ensures
        spec_dec(n).len() <= 20,
{
    reveal_with_fuel(pow10, 21);
    assert(pow10(20) == 100000000000000000000);
    lemma_spec_dec_len(n, 20);
}

} // verus!
