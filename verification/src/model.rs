//! The mathematical model of decoded trees.
//!
//! A decoded document is modelled by [`Value`]: byte strings as byte
//! sequences, integers as signed 64-bit values, lists as sequences, and
//! dictionaries as association sequences from character-string keys to
//! values, in insertion order with unique keys.

use vstd::prelude::*;
use vstd::utf8::{decode_utf8, valid_utf8};

verus! {

/// A node of the decoded tree, at the specification level.
pub enum Value {
    /// Arbitrary binary payload.
    Bytes(Seq<u8>),
    /// An exact signed 64-bit integer.
    Int(i64),
    /// An ordered sequence of values.
    List(Seq<Value>),
    /// String-keyed entries in insertion order, keys unique.
    Dict(Seq<(Seq<char>, Value)>),
}

/// The first value bound to key `k` in the association sequence `d`.
pub open spec fn assoc_get(d: Seq<(Seq<char>, Value)>, k: Seq<char>) -> Option<Value>
    decreases d.len(),
{
    if d.len() == 0 {
        None
    } else if d[0].0 == k {
        Some(d[0].1)
    } else {
        assoc_get(d.skip(1), k)
    }
}

/// `d` with `k` bound to `v`: the first entry for `k` is overwritten in
/// place, and if there is none a new entry is appended.  A dictionary is
/// decoded by inserting each entry as it is read, so a repeated key keeps its
/// first position and its last value.
pub open spec fn assoc_set(d: Seq<(Seq<char>, Value)>, k: Seq<char>, v: Value) -> Seq<
    (Seq<char>, Value),
>
    decreases d.len(),
{
    if d.len() == 0 {
        seq![(k, v)]
    } else if d[0].0 == k {
        seq![(k, v)] + d.skip(1)
    } else {
        seq![d[0]] + assoc_set(d.skip(1), k, v)
    }
}

/// The unsigned 64-bit value with the same bit pattern as `x`.
pub open spec fn u64_of_i64(x: i64) -> u64 {
    if x >= 0 {
        x as u64
    } else {
        (x + 0x10000000000000000) as u64
    }
}

/// True when every element of `items` is a byte string holding valid UTF-8.
pub open spec fn all_utf8_strings(items: Seq<Value>) -> bool {
    forall|i: int|
        0 <= i < items.len() ==> ((#[trigger] items[i]) matches Value::Bytes(b) && valid_utf8(b))
}

/// The character strings decoded from a sequence of UTF-8 byte-string
/// values.
pub open spec fn string_list_of(items: Seq<Value>) -> Seq<Seq<char>>
    recommends
        all_utf8_strings(items),
{
    Seq::new(items.len(), |i: int| decode_utf8(items[i]->Bytes_0))
}

} // verus!
