//! The recursive-descent bencode decoder.
//!
//! The grammar is stated once, as spec functions over byte sequences that
//! yield the decoded [`Value`] and the number of bytes consumed, and the
//! executable decoder is proved to return exactly what the grammar says:
//! byte strings are `<len>:<bytes>`, integers `i<digits>e`, lists
//! `l<value>*e` and dictionaries `d(<key><value>)*e` with UTF-8 keys.

use crate::element::{
    dict_model, dict_set, lemma_seq_model, seq_model, Element,
};
use crate::model::{assoc_set, Value};
use crate::utils::{
    erase_whitespaces, is_ascii_digit, decode_i64, decode_u64, int_literal,
    lemma_parse_i64_bounds, lemma_parse_i64_round_trip, lemma_parse_u64_bounds,
    spec_erase_whitespaces, spec_parse_i64, spec_parse_u64,
};
use vstd::prelude::*;
use vstd::slice::{slice_subrange, slice_to_vec};
use vstd::utf8::{decode_utf8, valid_utf8};

verus! {

/// The byte-string production `<len>:<bytes>`: a decimal length, a colon,
/// then exactly that many payload bytes.  Fails when the colon is missing or
/// the declared length reads past the end of the input.
pub open spec fn spec_decode_bstr(s: Seq<u8>) -> Option<(Value, int)> {
    let r = spec_parse_u64(s);
    match r.0 {
        None => None,
        Some(bl) => {
            let n = r.1;
            if n < s.len() && s[n] == 58 && n + 1 + bl <= s.len() {
                Some((Value::Bytes(s.subrange(n + 1, n + 1 + bl)), n + 1 + bl))
            } else {
                None
            }
        },
    }
}

/// The integer production `i<signed digits>e`.  Fails when fewer than three
/// bytes remain, the digits do not parse as a signed 64-bit value, or the
/// byte after them is not `e`.
pub open spec fn spec_decode_int(s: Seq<u8>) -> Option<(Value, int)> {
    if s.len() < 3 || s[0] != 105 {
        None
    } else {
        let r = spec_parse_i64(s.skip(1));
        match r.0 {
            None => None,
            Some(x) => {
                let n = r.1;
                if 1 + n >= s.len() || s[1 + n] != 101 {
                    None
                } else {
                    Some((Value::Int(x), n + 2))
                }
            },
        }
    }
}

/// One value, dispatched on the lead byte: a digit starts a byte string,
/// `i` an integer, `l` a list, `d` a dictionary; anything else (including a
/// bare `e`) fails.
pub open spec fn spec_decode(s: Seq<u8>) -> Option<(Value, int)>
    decreases s.len(), 1int,
{
    if s.len() == 0 {
        None
    } else if is_ascii_digit(s[0]) {
        spec_decode_bstr(s)
    } else if s[0] == 105 {
        spec_decode_int(s)
    } else if s[0] == 108 {
        spec_decode_list(s)
    } else if s[0] == 100 {
        spec_decode_dict(s)
    } else {
        None
    }
}

/// The elements of a list body read from `s`, which starts just after the
/// `l`: values are decoded one after another until the terminating `e`,
/// whose offset is returned.  Exhausting the input before an `e` fails.
pub open spec fn spec_decode_items(s: Seq<u8>) -> Option<(Seq<Value>, int)>
    decreases s.len(), 2int,
{
    if s.len() == 0 {
        None
    } else if s[0] == 101 {
        Some((Seq::empty(), 0))
    } else {
        match spec_decode(s) {
            None => None,
            Some((v, n)) => {
                // a successful decode consumes at least one byte and at most
                // the whole input (the bounds lemmas below), so this guard is
                // never taken; it keeps the recursion visibly well founded
                if n < 1 || n > s.len() {
                    None
                } else {
                    match spec_decode_items(s.skip(n)) {
                        None => None,
                        Some((rest, m)) => Some((seq![v] + rest, n + m)),
                    }
                }
            },
        }
    }
}

/// The list production `l<value>*e`.
pub open spec fn spec_decode_list(s: Seq<u8>) -> Option<(Value, int)>
    decreases s.len(), 0int,
{
    if s.len() < 2 || s[0] != 108 {
        None
    } else {
        match spec_decode_items(s.skip(1)) {
            None => None,
            Some((items, m)) => Some((Value::List(items), m + 2)),
        }
    }
}

/// The entries of a dictionary body read from `s`, which starts just after
/// the `d`, accumulated into `acc` by last-wins insertion.  Each key must be
/// a byte-string production holding valid UTF-8; exhausting the input before
/// the terminating `e` fails, and the offset of that `e` is returned.
pub open spec fn spec_decode_entries(s: Seq<u8>, acc: Seq<(Seq<char>, Value)>) -> Option<
    (Seq<(Seq<char>, Value)>, int),
>
    decreases s.len(), 2int,
{
    if s.len() == 0 {
        None
    } else if s[0] == 101 {
        Some((acc, 0))
    } else {
        match spec_decode_bstr(s) {
            None => None,
            Some((kv, kn)) => match kv {
                Value::Bytes(kb) => {
                    if !valid_utf8(kb) {
                        None
                    } else if kn < 1 || kn >= s.len() {
                        None
                    } else {
                        match spec_decode(s.skip(kn)) {
                            None => None,
                            Some((v, vn)) => {
                                // never taken, as in the list body: consumed
                                // counts are positive and within the input
                                if vn < 1 || kn + vn > s.len() {
                                    None
                                } else {
                                    match spec_decode_entries(
                                        s.skip(kn + vn),
                                        assoc_set(acc, decode_utf8(kb), v),
                                    ) {
                                        None => None,
                                        Some((d, m)) => Some((d, kn + vn + m)),
                                    }
                                }
                            },
                        }
                    }
                },
                _ => None,
            },
        }
    }
}

/// The dictionary production `d(<key><value>)*e`.
pub open spec fn spec_decode_dict(s: Seq<u8>) -> Option<(Value, int)>
    decreases s.len(), 0int,
{
    if s.len() < 2 || s[0] != 100 {
        None
    } else {
        match spec_decode_entries(s.skip(1), Seq::empty()) {
            None => None,
            Some((d, m)) => Some((Value::Dict(d), m + 2)),
        }
    }
}

/// Whole-input decoding: one value that consumes the input exactly.
pub open spec fn spec_decode_strict(s: Seq<u8>) -> Option<Value> {
    match spec_decode(s) {
        Some((v, n)) => if n == s.len() {
            Some(v)
        } else {
            None
        },
        None => None,
    }
}

/// Prefix decoding: one value, trailing bytes ignored.
pub open spec fn spec_decode_prefix(s: Seq<u8>) -> Option<Value> {
    match spec_decode(s) {
        Some((v, _)) => Some(v),
        None => None,
    }
}

/// A successful byte-string production consumes between 2 bytes and the
/// whole input, and always yields a byte-string value.
pub proof fn lemma_decode_bstr_bounds(s: Seq<u8>)
    ensures
        spec_decode_bstr(s) matches Some(p) ==> 2 <= p.1 <= s.len() && p.0 is Bytes,
{
    lemma_parse_u64_bounds(s);
}

/// A successful integer production consumes between 3 bytes and the whole
/// input.
pub proof fn lemma_decode_int_bounds(s: Seq<u8>)
    ensures
        spec_decode_int(s) matches Some(p) ==> 3 <= p.1 <= s.len(),
{
    if s.len() >= 3 && s[0] == 105 {
        lemma_parse_i64_bounds(s.skip(1));
    }
}

/// A successful decode consumes between 2 bytes and the whole input.
pub proof fn lemma_decode_bounds(s: Seq<u8>)
    ensures
        spec_decode(s) matches Some(p) ==> 2 <= p.1 <= s.len(),
    decreases s.len(), 1int,
{
    if s.len() == 0 {
    } else if is_ascii_digit(s[0]) {
        lemma_decode_bstr_bounds(s);
    } else if s[0] == 105 {
        lemma_decode_int_bounds(s);
    } else if s[0] == 108 {
        lemma_decode_list_bounds(s);
    } else if s[0] == 100 {
        lemma_decode_dict_bounds(s);
    }
}

/// A successful list body ends at an `e` inside the input.
pub proof fn lemma_decode_items_bounds(s: Seq<u8>)
    ensures
        spec_decode_items(s) matches Some(p) ==> 0 <= p.1 <= s.len() - 1 && s[p.1] == 101,
    decreases s.len(), 2int,
{
    if s.len() == 0 {
    } else if s[0] == 101 {
    } else {
        match spec_decode(s) {
            None => {},
            Some((v, n)) => {
                lemma_decode_bounds(s);
                if 1 <= n <= s.len() {
                    lemma_decode_items_bounds(s.skip(n));
                }
            },
        }
    }
}

/// A successful list production consumes between 2 bytes and the whole
/// input.
pub proof fn lemma_decode_list_bounds(s: Seq<u8>)
    ensures
        spec_decode_list(s) matches Some(p) ==> 2 <= p.1 <= s.len(),
    decreases s.len(), 0int,
{
    if s.len() >= 2 && s[0] == 108 {
        lemma_decode_items_bounds(s.skip(1));
    }
}

/// A successful dictionary body ends at an `e` inside the input.
pub proof fn lemma_decode_entries_bounds(s: Seq<u8>, acc: Seq<(Seq<char>, Value)>)
    ensures
        spec_decode_entries(s, acc) matches Some(p) ==> 0 <= p.1 <= s.len() - 1 && s[p.1] == 101,
    decreases s.len(), 2int,
{
    if s.len() == 0 {
    } else if s[0] == 101 {
    } else {
        match spec_decode_bstr(s) {
            None => {},
            Some((kv, kn)) => match kv {
                Value::Bytes(kb) => {
                    if valid_utf8(kb) && 1 <= kn < s.len() {
                        match spec_decode(s.skip(kn)) {
                            None => {},
                            Some((v, vn)) => {
                                lemma_decode_bounds(s.skip(kn));
                                if 1 <= vn && kn + vn <= s.len() {
                                    lemma_decode_entries_bounds(
                                        s.skip(kn + vn),
                                        assoc_set(acc, decode_utf8(kb), v),
                                    );
                                }
                            },
                        }
                    }
                },
                _ => {},
            },
        }
    }
}

/// A successful dictionary production consumes between 2 bytes and the
/// whole input.
pub proof fn lemma_decode_dict_bounds(s: Seq<u8>)
    ensures
        spec_decode_dict(s) matches Some(p) ==> 2 <= p.1 <= s.len(),
    decreases s.len(), 0int,
{
    if s.len() >= 2 && s[0] == 100 {
        lemma_decode_entries_bounds(s.skip(1), Seq::empty());
    }
}

fn decode_bytesstring(bencode: &[u8], len: &mut usize) -> (r: Option<Element>)
    ensures
        (match r {
            Some(e) => spec_decode_bstr(bencode@) matches Some(p) && e@ == p.0 && *final(len)
                == p.1,
            None => spec_decode_bstr(bencode@) is None,
        }),
{
    if bencode.len() == 0 {
        *len = 0;
        return None;
    }
    let mut num_len: usize = 0;
    let opt = decode_u64(bencode, &mut num_len);
    let bytes_len_u64 = match opt {
        Some(x) => x,
        None => {
            return None;
        },
    };
    proof {
        lemma_parse_u64_bounds(bencode@);
    }
    if num_len >= bencode.len() || bencode[num_len] != 58 {
        return None;
    }
    let start = num_len + 1;
    let remaining = bencode.len() - start;
    if bytes_len_u64 > remaining as u64 {
        return None;
    }
    let bytes_len = bytes_len_u64 as usize;
    let end = start + bytes_len;
    let bytes = slice_subrange(bencode, start, end);
    *len = end;
    Some(Element::ByteString(slice_to_vec(bytes)))
}

fn decode_integer(bencode: &[u8], len: &mut usize) -> (r: Option<Element>)
    ensures
        (match r {
            Some(e) => spec_decode_int(bencode@) matches Some(p) && e@ == p.0 && *final(len)
                == p.1,
            None => spec_decode_int(bencode@) is None,
        }),
{
    if bencode.len() < 3 || bencode[0] != 105 {
        *len = 0;
        return None;
    }
    let rest = slice_subrange(bencode, 1, bencode.len());
    proof {
        assert(rest@ =~= bencode@.skip(1));
    }
    let mut int_len: usize = 0;
    let oi = decode_i64(rest, &mut int_len);
    match oi {
        None => None,
        Some(x) => {
            proof {
                lemma_parse_i64_bounds(rest@);
            }
            if 1 + int_len >= bencode.len() || bencode[1 + int_len] != 101 {
                return None;
            }
            *len = int_len + 2;
            Some(Element::Integer(x))
        },
    }
}

fn decode_list(bencode: &[u8], len: &mut usize) -> (r: Option<Element>)
    ensures
        (match r {
            Some(e) => spec_decode_list(bencode@) matches Some(p) && e@ == p.0 && *final(len)
                == p.1,
            None => spec_decode_list(bencode@) is None,
        }),
    decreases bencode@.len(), 0int,
{
    if bencode.len() < 2 || bencode[0] != 108 {
        *len = 0;
        return None;
    }
    let ghost s = bencode@;
    let mut list: Vec<Element> = Vec::new();
    let mut idx: usize = 1;
    proof {
        lemma_seq_model(list@);
        assert(seq_model(list@) + spec_decode_items(s.skip(1)).unwrap().0 =~= spec_decode_items(
            s.skip(1),
        ).unwrap().0);
    }
    while idx < bencode.len() && bencode[idx] != 101
        invariant
            1 <= idx <= s.len(),
            s == bencode@,
            s.len() >= 2,
            s[0] == 108,
            ({
                let cont = spec_decode_items(s.skip(idx as int));
                let whole = spec_decode_items(s.skip(1));
                match cont {
                    Some(p) => whole == Some((seq_model(list@) + p.0, (idx - 1) + p.1)),
                    None => whole is None,
                }
            }),
        decreases s.len() - idx,
    {
        let mut elem_len: usize = 0;
        let sub = slice_subrange(bencode, idx, bencode.len());
        proof {
            assert(sub@ =~= s.skip(idx as int));
            assert(s.skip(idx as int)[0] == s[idx as int]);
        }
        let oe = decode_all(sub, &mut elem_len);
        match oe {
            None => {
                return None;
            },
            Some(e) => {
                proof {
                    lemma_decode_bounds(s.skip(idx as int));
                    assert(s.skip(idx as int).skip(elem_len as int) =~= s.skip(
                        idx as int + elem_len as int,
                    ));
                }
                let ghost lpre = list@;
                list.push(e);
                idx = idx + elem_len;
                proof {
                    lemma_seq_model(lpre);
                    lemma_seq_model(list@);
                    assert(seq_model(list@) =~= seq_model(lpre) + seq![e@]);
                    match spec_decode_items(s.skip(idx as int)) {
                        Some(p) => {
                            assert(seq_model(lpre) + (seq![e@] + p.0) =~= seq_model(list@) + p.0);
                        },
                        None => {},
                    }
                }
            },
        }
    }
    if idx >= bencode.len() {
        proof {
            assert(s.skip(idx as int).len() == 0);
        }
        return None;
    }
    *len = idx + 1;
    proof {
        assert(s.skip(idx as int)[0] == s[idx as int]);
        assert(seq_model(list@) + Seq::<Value>::empty() =~= seq_model(list@));
    }
    Some(Element::List(list))
}

fn decode_dictionary(bencode: &[u8], len: &mut usize) -> (r: Option<Element>)
    ensures
        (match r {
            Some(e) => spec_decode_dict(bencode@) matches Some(p) && e@ == p.0 && *final(len)
                == p.1,
            None => spec_decode_dict(bencode@) is None,
        }),
    decreases bencode@.len(), 0int,
{
    if bencode.len() < 2 || bencode[0] != 100 {
        *len = 0;
        return None;
    }
    let ghost s = bencode@;
    let mut entries: Vec<(String, Element)> = Vec::new();
    let mut idx: usize = 1;
    while idx < bencode.len() && bencode[idx] != 101
        invariant
            1 <= idx <= s.len(),
            s == bencode@,
            s.len() >= 2,
            s[0] == 100,
            ({
                let cont = spec_decode_entries(s.skip(idx as int), dict_model(entries@));
                let whole = spec_decode_entries(s.skip(1), Seq::empty());
                match cont {
                    Some(p) => whole == Some((p.0, (idx - 1) + p.1)),
                    None => whole is None,
                }
            }),
        decreases s.len() - idx,
    {
        let sub = slice_subrange(bencode, idx, bencode.len());
        proof {
            assert(sub@ =~= s.skip(idx as int));
            assert(s.skip(idx as int)[0] == s[idx as int]);
        }
        let mut key_len: usize = 0;
        let okey = decode_bytesstring(sub, &mut key_len);
        let kelem = match okey {
            Some(k) => k,
            None => {
                return None;
            },
        };
        proof {
            lemma_decode_bstr_bounds(sub@);
        }
        let kstr = match kelem.convert_to_string() {
            Some(k) => k,
            None => {
                return None;
            },
        };
        let key_end = idx + key_len;
        if key_end >= bencode.len() {
            return None;
        }
        let sub2 = slice_subrange(bencode, key_end, bencode.len());
        proof {
            assert(sub2@ =~= s.skip(key_end as int));
            assert(s.skip(idx as int).skip(key_len as int) =~= s.skip(key_end as int));
        }
        let mut val_len: usize = 0;
        let oval = decode_all(sub2, &mut val_len);
        let velem = match oval {
            Some(v) => v,
            None => {
                return None;
            },
        };
        proof {
            lemma_decode_bounds(sub2@);
            assert(s.skip(idx as int).skip(key_len as int + val_len as int) =~= s.skip(
                idx as int + key_len as int + val_len as int,
            ));
        }
        dict_set(&mut entries, kstr, velem);
        idx = key_end + val_len;
    }
    if idx >= bencode.len() {
        proof {
            assert(s.skip(idx as int).len() == 0);
        }
        return None;
    }
    *len = idx + 1;
    proof {
        assert(s.skip(idx as int)[0] == s[idx as int]);
    }
    Some(Element::Dictionary(entries))
}

fn decode_all(bencode: &[u8], len: &mut usize) -> (r: Option<Element>)
    ensures
        (match r {
            Some(e) => spec_decode(bencode@) matches Some(p) && e@ == p.0 && *final(len) == p.1,
            None => spec_decode(bencode@) is None,
        }),
    decreases bencode@.len(), 1int,
{
    if bencode.len() == 0 {
        return None;
    }
    let b = bencode[0];
    if b >= 48 && b <= 57 {
        decode_bytesstring(bencode, len)
    } else if b == 105 {
        decode_integer(bencode, len)
    } else if b == 108 {
        decode_list(bencode, len)
    } else if b == 100 {
        decode_dictionary(bencode, len)
    } else {
        None
    }
}

/// Decode bencoded data in strict mode: exactly one value that consumes the
/// whole input.  Trailing bytes are a failure.
pub fn decode_len_check(bencode: &[u8]) -> (r: Option<Element>)
    ensures
        (match r {
            Some(e) => spec_decode_strict(bencode@) == Some(e@),
            None => spec_decode_strict(bencode@) is None,
        }),
{
    let mut len: usize = 0;
    let ret = decode_all(bencode, &mut len);
    match ret {
        Some(e) => {
            if len != bencode.len() {
                return None;
            }
            Some(e)
        },
        None => None,
    }
}

/// Decode bencoded data in prefix mode: one complete value, with any
/// trailing bytes ignored.
pub fn decode_no_len_check(bencode: &[u8]) -> (r: Option<Element>)
    ensures
        (match r {
            Some(e) => spec_decode_prefix(bencode@) == Some(e@),
            None => spec_decode_prefix(bencode@) is None,
        }),
{
    let mut len: usize = 0;
    decode_all(bencode, &mut len)
}

/// Decode in strict mode after removing every whitespace byte from the
/// whole document first.  The filter is applied once, up front, and is
/// unaware of the grammar: it also corrupts byte-string payloads that
/// legitimately contain whitespace, so callers must opt in deliberately.
pub fn decode_len_check_after_whitespace_strip(bencode: &[u8]) -> (r: Option<Element>)
    ensures
        (match r {
            Some(e) => spec_decode_strict(spec_erase_whitespaces(bencode@)) == Some(e@),
            None => spec_decode_strict(spec_erase_whitespaces(bencode@)) is None,
        }),
{
    let stripped = erase_whitespaces(bencode);
    decode_len_check(stripped.as_slice())
}

/// Decode in prefix mode after removing every whitespace byte from the
/// whole document first; the same trade-off as the strict variant.
pub fn decode_no_len_check_after_whitespace_strip(bencode: &[u8]) -> (r: Option<Element>)
    ensures
        (match r {
            Some(e) => spec_decode_prefix(spec_erase_whitespaces(bencode@)) == Some(e@),
            None => spec_decode_prefix(spec_erase_whitespaces(bencode@)) is None,
        }),
{
    let stripped = erase_whitespaces(bencode);
    decode_no_len_check(stripped.as_slice())
}

/// Round trip for every signed 64-bit integer: the canonical encoding
/// `i<n>e` decodes, in strict mode, to exactly `Integer(n)` — including the
/// boundary values `i64::MIN` and `i64::MAX`.
pub proof fn lemma_integer_round_trip(x: i64)
    ensures
        spec_decode_strict(seq![105u8] + int_literal(x) + seq![101u8]) == Some(Value::Int(x)),
{
    let lit = int_literal(x);
    let s = seq![105u8] + lit + seq![101u8];
    assert(s.len() == lit.len() + 2);
    assert(s[0] == 105);
    let tail = s.skip(1);
    assert(tail.len() == lit.len() + 1);
    assert forall|j: int| 0 <= j < lit.len() implies tail.subrange(0, lit.len() as int)[j]
        == lit[j] by {
        assert(tail.subrange(0, lit.len() as int)[j] == s[j + 1]);
        assert(s[j + 1] == lit[j]);
    }
    assert(tail.subrange(0, lit.len() as int) =~= lit);
    assert(tail[lit.len() as int] == s[lit.len() as int + 1]);
    assert(tail[lit.len() as int] == 101);
    lemma_parse_i64_round_trip(x, tail);
    assert(spec_parse_i64(s.skip(1)) == (Some(x), lit.len() as int));
    assert(s[1 + lit.len() as int] == 101);
    assert(spec_decode_int(s) == Some((Value::Int(x), lit.len() as int + 2)));
}

/// Decoding is deterministic: the decoded tree is a function of the input
/// bytes alone, so any two decodes of the same buffer yield structurally
/// equal trees.
pub proof fn lemma_decode_deterministic(s: Seq<u8>, e1: Element, e2: Element)
    requires
        spec_decode_strict(s) == Some(e1@),
        spec_decode_strict(s) == Some(e2@),
    ensures
        e1@ == e2@,
{
}

} // verus!
