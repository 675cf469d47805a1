//! The strict numeric grammar: decimal parsers for `u64` and `i64` over ASCII
//! byte slices, with explicit overflow and leading-zero rules, and the
//! whitespace pre-filter.
//!
//! Each parser reports the parsed value together with the number of bytes it
//! consumed; on failure the consumed count tells how far a well-formed number
//! extended before the failure was discovered.

use vstd::prelude::*;
use vstd::slice::slice_subrange;

verus! {

/// True of the ASCII code of a decimal digit.
pub open spec fn is_ascii_digit(b: u8) -> bool {
    48 <= b <= 57
}

/// Value and end position of a greedy decimal-digit run read from position
/// `i` with `acc` already accumulated.  The run ends at the first non-digit or
/// at the end of the input; a digit that would push the value past `u64::MAX`
/// fails the run, with the end position just past that digit.
pub open spec fn u64_run(s: Seq<u8>, i: int, acc: u64) -> (Option<u64>, int)
    decreases s.len() - i,
{
    if i < 0 || i >= s.len() || !is_ascii_digit(s[i]) {
        (Some(acc), i)
    } else {
        let d = (s[i] - 48) as u64;
        if acc * 10 + d > u64::MAX {
            (None, i + 1)
        } else {
            u64_run(s, i + 1, (acc * 10 + d) as u64)
        }
    }
}

/// What [`decode_u64`] returns on `s`: the parsed value (or `None`) and the
/// number of bytes consumed.  A leading `'0'` followed by anything more is
/// the number zero with exactly one byte consumed; otherwise a maximal digit
/// run is read with overflow detection.  No sign character is consumed.
pub open spec fn spec_parse_u64(s: Seq<u8>) -> (Option<u64>, int) {
    if s.len() == 0 {
        (None, 0)
    } else if s.len() >= 2 && s[0] == 48 {
        (Some(0u64), 1)
    } else if !is_ascii_digit(s[0]) {
        (None, 0)
    } else {
        u64_run(s, 0, 0)
    }
}

proof fn lemma_u64_run_bounds(s: Seq<u8>, i: int, acc: u64)
    requires
        0 <= i <= s.len(),
    ensures
        i <= u64_run(s, i, acc).1 <= s.len(),
    decreases s.len() - i,
{
    if i < s.len() && is_ascii_digit(s[i]) {
        let d = (s[i] - 48) as u64;
        if acc * 10 + d <= u64::MAX {
            lemma_u64_run_bounds(s, i + 1, (acc * 10 + d) as u64);
        }
    }
}

/// The consumed count never exceeds the input length, and a successful parse
/// consumes at least one byte.
pub proof fn lemma_parse_u64_bounds(s: Seq<u8>)
    ensures
        0 <= spec_parse_u64(s).1 <= s.len(),
        spec_parse_u64(s).0 is Some ==> spec_parse_u64(s).1 >= 1,
{
    if s.len() >= 1 && !(s.len() >= 2 && s[0] == 48) && is_ascii_digit(s[0]) {
        let d = (s[0] - 48) as u64;
        lemma_u64_run_bounds(s, 1, (0 * 10 + d) as u64);
    }
}

/// Decode a leading decimal number from an ASCII byte slice.
///
/// On success the parsed value is returned and `*len` is the number of bytes
/// consumed.  On failure `*len` is the number of digits read before the
/// failure was discovered: zero for an empty slice or one that does not start
/// with a digit, the full digit count when the value overflows a `u64`.  A
/// leading `'+'` or `'-'` is not accepted.
pub fn decode_u64(ascii_num: &[u8], len: &mut usize) -> (r: Option<u64>)
    ensures
        r == spec_parse_u64(ascii_num@).0,
        *final(len) == spec_parse_u64(ascii_num@).1,
{
    let n = ascii_num.len();
    if n == 0 {
        *len = 0;
        return None;
    }
    if n >= 2 && ascii_num[0] == 48 {
        *len = 1;
        return Some(0);
    }
    if !(ascii_num[0] >= 48 && ascii_num[0] <= 57) {
        *len = 0;
        return None;
    }
    let mut num: u64 = 0;
    let mut i: usize = 0;
    while i < n && ascii_num[i] >= 48 && ascii_num[i] <= 57
        invariant
            0 <= i <= n,
            n == ascii_num@.len(),
            spec_parse_u64(ascii_num@) == u64_run(ascii_num@, i as int, num),
        decreases n - i,
    {
        let d = ascii_num[i] - 48;
        match num.checked_mul(10) {
            None => {
                *len = i + 1;
                return None;
            },
            Some(m) => match m.checked_add(d as u64) {
                None => {
                    *len = i + 1;
                    return None;
                },
                Some(v) => {
                    num = v;
                    i = i + 1;
                },
            },
        }
    }
    *len = i;
    Some(num)
}

/// What [`decode_i64`] returns on `s`.  A leading `'-'` notes the sign and
/// hands the rest to the unsigned parser; `'+'` is not accepted.  A negative
/// magnitude of exactly `2^63` maps to `i64::MIN`; `-0` and out-of-range
/// magnitudes fail with the sign byte counted as consumed.
pub open spec fn spec_parse_i64(s: Seq<u8>) -> (Option<i64>, int) {
    if s.len() == 0 {
        (None, 0)
    } else if s[0] == 45 {
        let r = spec_parse_u64(s.skip(1));
        let consumed = r.1 + 1;
        match r.0 {
            None => (None, consumed),
            Some(m) => {
                if m == 0 {
                    (None, consumed)
                } else if m < 0x8000000000000000u64 {
                    (Some((-(m as int)) as i64), consumed)
                } else if m == 0x8000000000000000u64 {
                    (Some(i64::MIN), consumed)
                } else {
                    (None, consumed)
                }
            },
        }
    } else {
        let r = spec_parse_u64(s);
        match r.0 {
            None => (None, r.1),
            Some(m) => if m <= i64::MAX as u64 {
                (Some(m as i64), r.1)
            } else {
                (None, r.1)
            },
        }
    }
}

/// The consumed count never exceeds the input length, and a successful parse
/// consumes at least one byte.
pub proof fn lemma_parse_i64_bounds(s: Seq<u8>)
    ensures
        0 <= spec_parse_i64(s).1 <= s.len(),
        spec_parse_i64(s).0 is Some ==> spec_parse_i64(s).1 >= 1,
{
    if s.len() >= 1 && s[0] == 45 {
        lemma_parse_u64_bounds(s.skip(1));
    } else if s.len() >= 1 {
        lemma_parse_u64_bounds(s);
    }
}

/// Decode a leading, optionally `'-'`-signed, decimal number from an ASCII
/// byte slice.
///
/// `*len` counts the consumed bytes as in [`decode_u64`], plus one for a
/// consumed sign byte.  The full signed 64-bit range round-trips: magnitude
/// `2^63` after a `'-'` yields `i64::MIN`, while `-0` and any magnitude past
/// the range fail.  A leading `'+'` is not accepted.
pub fn decode_i64(ascii_num: &[u8], len: &mut usize) -> (r: Option<i64>)
    ensures
        r == spec_parse_i64(ascii_num@).0,
        *final(len) == spec_parse_i64(ascii_num@).1,
{
    if ascii_num.len() == 0 {
        *len = 0;
        return None;
    }
    let negative = ascii_num[0] == 45;
    let start: usize = if negative {
        1
    } else {
        0
    };
    let rest = slice_subrange(ascii_num, start, ascii_num.len());
    proof {
        if negative {
            assert(rest@ =~= ascii_num@.skip(1));
        } else {
            assert(rest@ =~= ascii_num@);
        }
    }
    let mut ulen: usize = 0;
    let opt_num = decode_u64(rest, &mut ulen);
    proof {
        lemma_parse_u64_bounds(rest@);
    }
    *len = ulen + start;
    match opt_num {
        None => None,
        Some(m) => {
            if !negative {
                if m <= i64::MAX as u64 {
                    Some(m as i64)
                } else {
                    None
                }
            } else {
                if m == 0 {
                    None
                } else if m < 0x8000000000000000u64 {
                    Some(-(m as i64))
                } else if m == 0x8000000000000000u64 {
                    Some(i64::MIN)
                } else {
                    None
                }
            }
        },
    }
}

/// True of every byte except space, carriage return, line feed and tab.
pub open spec fn spec_is_not_whitespace(c: u8) -> bool {
    !(c == 32 || c == 13 || c == 10 || c == 9)
}

/// The whitespace filter applied to a whole byte sequence.
pub open spec fn spec_erase_whitespaces(s: Seq<u8>) -> Seq<u8> {
    s.filter(|c: u8| spec_is_not_whitespace(c))
}

/// True for every byte except space, carriage return, line feed and tab.
pub fn is_not_whitespace(c: u8) -> (r: bool)
    ensures
        r == spec_is_not_whitespace(c),
{
    match c {
        32 | 13 | 10 | 9 => false,
        _ => true,
    }
}

/// Remove every whitespace byte (space, `\r`, `\n`, `\t`) from the input,
/// keeping all other bytes in order.
///
/// This is a pure pre-filter over the whole document; applied to data whose
/// byte-string payloads legitimately contain whitespace it corrupts them, so
/// callers must opt in explicitly before decoding.
pub fn erase_whitespaces(input: &[u8]) -> (r: Vec<u8>)
    ensures
        r@ == spec_erase_whitespaces(input@),
{
    let mut out: Vec<u8> = Vec::new();
    let mut i: usize = 0;
    while i < input.len()
        invariant
            0 <= i <= input@.len(),
            out@ == spec_erase_whitespaces(input@.subrange(0, i as int)),
        decreases input@.len() - i,
    {
        proof {
            reveal_with_fuel(Seq::<_>::filter, 2);
            let pre = input@.subrange(0, i as int + 1);
            assert(pre.drop_last() =~= input@.subrange(0, i as int));
            assert(pre.last() == input@[i as int]);
        }
        if is_not_whitespace(input[i]) {
            out.push(input[i]);
        }
        i = i + 1;
    }
    proof {
        assert(input@.subrange(0, input@.len() as int) =~= input@);
    }
    out
}

/// A leading `'0'` parses as the number zero with exactly one byte
/// consumed, whatever follows: a second digit is never consumed.
pub proof fn lemma_parse_u64_leading_zero(s: Seq<u8>)
    requires
        s.len() >= 1,
        s[0] == 48,
    ensures
        spec_parse_u64(s) == (Some(0u64), 1int),
{
    if s.len() == 1 {
        assert(u64_run(s, 1, 0) == (Some(0u64), 1int));
        assert(u64_run(s, 0, 0) == (Some(0u64), 1int));
    }
}

/// The unsigned parser rejects an empty slice and any input that does not
/// begin with a digit — in particular one led by `'+'` — consuming nothing.
pub proof fn lemma_parse_u64_rejects_nondigit(s: Seq<u8>)
    requires
        s.len() == 0 || !is_ascii_digit(s[0]),
    ensures
        spec_parse_u64(s) == (None::<u64>, 0int),
{
}

/// The signed parser rejects `-0`: the sign and the single zero digit are
/// consumed, and the parse fails.
pub proof fn lemma_parse_i64_rejects_minus_zero(s: Seq<u8>)
    requires
        s.len() >= 2,
        s[0] == 45,
        s[1] == 48,
    ensures
        spec_parse_i64(s) == (None::<i64>, 2int),
{
    assert(s.skip(1)[0] == s[1]);
    lemma_parse_u64_leading_zero(s.skip(1));
}

/// The signed parser rejects a bare `'-'` with no digit after it,
/// consuming just the sign byte.
pub proof fn lemma_parse_i64_rejects_bare_minus(s: Seq<u8>)
    requires
        s.len() >= 1,
        s[0] == 45,
        s.len() == 1 || !is_ascii_digit(s[1]),
    ensures
        spec_parse_i64(s) == (None::<i64>, 1int),
{
    if s.len() > 1 {
        assert(s.skip(1)[0] == s[1]);
    }
    lemma_parse_u64_rejects_nondigit(s.skip(1));
}

/// The shortest decimal digit string for `n`, most significant digit
/// first.
pub open spec fn dec_digits(n: u64) -> Seq<u8>
    decreases n,
{
    if n < 10 {
        seq![(48 + n) as u8]
    } else {
        dec_digits(n / 10).push((48 + n % 10) as u8)
    }
}

/// The canonical literal form of a signed 64-bit integer: a minus sign for
/// negative values, then the decimal digits of the magnitude.
pub open spec fn int_literal(x: i64) -> Seq<u8> {
    if x >= 0 {
        dec_digits(x as u64)
    } else {
        seq![45u8] + dec_digits((-(x as int)) as u64)
    }
}

/// The `k`-th power of ten.
pub open spec fn pow10(k: nat) -> int
    decreases k,
{
    if k == 0 {
        1
    } else {
        10 * pow10((k - 1) as nat)
    }
}

/// True when every byte of `ds` is an ASCII digit.
pub open spec fn all_digits(ds: Seq<u8>) -> bool {
    forall|i: int| 0 <= i < ds.len() ==> is_ascii_digit(#[trigger] ds[i])
}

/// The number that a digit string denotes.
pub open spec fn digits_value(ds: Seq<u8>) -> int
    decreases ds.len(),
{
    if ds.len() == 0 {
        0
    } else {
        digits_value(ds.drop_last()) * 10 + (ds.last() - 48)
    }
}

proof fn lemma_pow10_pos(k: nat)
    ensures
        pow10(k) >= 1,
    decreases k,
{
    if k > 0 {
        lemma_pow10_pos((k - 1) as nat);
    }
}

proof fn lemma_digits_value_bounds(ds: Seq<u8>)
    requires
        all_digits(ds),
    ensures
        0 <= digits_value(ds),
        digits_value(ds) < pow10(ds.len() as nat),
    decreases ds.len(),
{
    lemma_pow10_pos(ds.len() as nat);
    if ds.len() > 0 {
        let dl = ds.drop_last();
        assert(all_digits(dl));
        lemma_digits_value_bounds(dl);
        let p = pow10(dl.len() as nat);
        assert(pow10(ds.len() as nat) == 10 * p);
        assert(digits_value(dl) * 10 + (ds.last() - 48) < 10 * p) by (nonlinear_arith)
            requires
                digits_value(dl) < p,
                ds.last() - 48 <= 9,
        ;
    }
}

proof fn lemma_digits_value_first(ds: Seq<u8>)
    requires
        ds.len() >= 1,
    ensures
        digits_value(ds) == (ds[0] - 48) * pow10((ds.len() - 1) as nat) + digits_value(ds.skip(1)),
    decreases ds.len(),
{
    if ds.len() == 1 {
        assert(ds.drop_last() =~= Seq::<u8>::empty());
        assert(ds.skip(1) =~= Seq::<u8>::empty());
    } else {
        let dl = ds.drop_last();
        lemma_digits_value_first(dl);
        assert(dl[0] == ds[0]);
        assert(ds.skip(1).drop_last() =~= dl.skip(1));
        assert(ds.skip(1).last() == ds.last());
        let a = ds[0] - 48;
        let p = pow10((dl.len() - 1) as nat);
        let x = digits_value(dl.skip(1));
        let lastd = ds.last() - 48;
        assert(digits_value(ds) == (a * p + x) * 10 + lastd);
        assert(digits_value(ds.skip(1)) == x * 10 + lastd);
        assert(pow10((ds.len() - 1) as nat) == 10 * p);
        assert((a * p + x) * 10 + lastd == a * (10 * p) + (x * 10 + lastd)) by (nonlinear_arith);
    }
}

proof fn lemma_u64_run_digits(s: Seq<u8>, i: int, acc: u64, ds: Seq<u8>)
    requires
        0 <= i <= s.len(),
        i + ds.len() <= s.len(),
        ds.len() >= 1,
        all_digits(ds),
        s.subrange(i, i + ds.len()) == ds,
        i + ds.len() == s.len() || !is_ascii_digit(s[i + ds.len()]),
        acc * pow10(ds.len() as nat) + digits_value(ds) <= u64::MAX,
    ensures
        u64_run(s, i, acc) == (
            Some((acc * pow10(ds.len() as nat) + digits_value(ds)) as u64),
            i + ds.len(),
        ),
    decreases ds.len(),
{
    let ln = ds.len() as nat;
    lemma_digits_value_first(ds);
    lemma_digits_value_bounds(ds);
    assert(ds[0] == s[i]);
    let d = (s[i] - 48) as u64;
    let rest = ds.skip(1);
    assert(all_digits(rest));
    lemma_digits_value_bounds(rest);
    lemma_pow10_pos((ln - 1) as nat);
    let p = pow10((ln - 1) as nat);
    assert(pow10(ln) == 10 * p);
    // digits_value(ds) == d * p + digits_value(rest), so the first
    // accumulator step cannot overflow
    assert((acc * 10 + d) * p == acc * (10 * p) + d * p) by (nonlinear_arith);
    assert(acc * 10 + d <= (acc * 10 + d) * p) by (nonlinear_arith)
        requires
            p >= 1,
            acc >= 0,
            d >= 0,
    ;
    assert(acc * 10 + d <= u64::MAX);
    if ds.len() == 1 {
        assert(u64_run(s, i + 1, (acc * 10 + d) as u64) == (Some((acc * 10 + d) as u64), i + 1));
    } else {
        assert(s.subrange(i + 1, i + 1 + rest.len()) =~= rest);
        lemma_u64_run_digits(s, i + 1, (acc * 10 + d) as u64, rest);
    }
}

/// The canonical digit string of `n`: at least one digit, all digits, no
/// leading zero unless `n` is zero, and it denotes `n`.
pub proof fn lemma_dec_digits(n: u64)
    ensures
        dec_digits(n).len() >= 1,
        all_digits(dec_digits(n)),
        digits_value(dec_digits(n)) == n,
        n >= 1 ==> dec_digits(n)[0] != 48,
        n < 10 ==> dec_digits(n).len() == 1,
    decreases n,
{
    if n < 10 {
        assert(dec_digits(n).drop_last() =~= Seq::<u8>::empty());
        assert(digits_value(Seq::<u8>::empty()) == 0);
    } else {
        lemma_dec_digits(n / 10);
        let prev = dec_digits(n / 10);
        assert(dec_digits(n).drop_last() =~= prev);
        assert(dec_digits(n).last() == (48 + n % 10) as u8);
        assert((48 + n % 10) as u8 - 48 == n % 10);
        assert(digits_value(dec_digits(n)) == (n / 10) * 10 + n % 10);
        assert((n / 10) * 10 + n % 10 == n) by (nonlinear_arith);
        assert(dec_digits(n)[0] == prev[0]);
        assert forall|i: int| 0 <= i < dec_digits(n).len() implies is_ascii_digit(
            dec_digits(n)[i],
        ) by {
            if i < prev.len() {
                assert(dec_digits(n)[i] == prev[i]);
            }
        }
    }
}

/// The canonical digit string of any unsigned 64-bit value parses back to
/// exactly that value, consuming all of its digits, whatever non-digit
/// content follows — including the boundary value `u64::MAX`.
pub proof fn lemma_parse_u64_round_trip(n: u64, s: Seq<u8>)
    requires
        s.len() >= dec_digits(n).len(),
        s.subrange(0, dec_digits(n).len() as int) == dec_digits(n),
        s.len() == dec_digits(n).len() || !is_ascii_digit(s[dec_digits(n).len() as int]),
    ensures
        spec_parse_u64(s) == (Some(n), dec_digits(n).len() as int),
{
    lemma_dec_digits(n);
    let lit = dec_digits(n);
    assert(s[0] == lit[0]);
    if n == 0 {
        assert(lit =~= seq![48u8]);
        lemma_parse_u64_leading_zero(s);
    } else {
        lemma_pow10_pos(lit.len() as nat);
        lemma_u64_run_digits(s, 0, 0, lit);
    }
}

/// The canonical literal of any signed 64-bit value parses back to exactly
/// that value, consuming the whole literal — including the boundary values
/// `i64::MIN` and `i64::MAX`.
pub proof fn lemma_parse_i64_round_trip(x: i64, s: Seq<u8>)
    requires
        s.len() >= int_literal(x).len(),
        s.subrange(0, int_literal(x).len() as int) == int_literal(x),
        s.len() == int_literal(x).len() || !is_ascii_digit(s[int_literal(x).len() as int]),
    ensures
        spec_parse_i64(s) == (Some(x), int_literal(x).len() as int),
{
    let lit = int_literal(x);
    if x >= 0 {
        lemma_dec_digits(x as u64);
        lemma_parse_u64_round_trip(x as u64, s);
        assert(s[0] == lit[0]);
        assert(is_ascii_digit(s[0]));
    } else {
        let m = (-(x as int)) as u64;
        lemma_dec_digits(m);
        assert(s[0] == lit[0]);
        assert(lit[0] == 45);
        let tail = s.skip(1);
        let dl = dec_digits(m).len() as int;
        assert forall|j: int| 0 <= j < dl implies tail.subrange(0, dl)[j] == dec_digits(m)[j] by {
            assert(dec_digits(m)[j] == lit[j + 1]);
            assert(lit[j + 1] == s.subrange(0, lit.len() as int)[j + 1]);
            assert(tail.subrange(0, dl)[j] == s[j + 1]);
        }
        assert(tail.subrange(0, dl) =~= dec_digits(m));
        if s.len() > lit.len() {
            assert(tail[dec_digits(m).len() as int] == s[lit.len() as int]);
        }
        lemma_parse_u64_round_trip(m, tail);
    }
}

} // verus!
