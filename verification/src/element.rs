//! The decoded tree type [`Element`] and its typed projections.
//!
//! An `Element` owns its data outright; its mathematical meaning is the
//! [`Value`] given by its view.  Dictionaries are held as association
//! vectors in insertion order with unique keys, where the last write to a
//! repeated key wins.

use crate::model::{all_utf8_strings, assoc_get, assoc_set, string_list_of, u64_of_i64, Value};
use vstd::pervasive::VecAdditionalExecFns;
use vstd::prelude::*;
use vstd::slice::slice_to_vec;
use vstd::string::StringExecFns;
use vstd::utf8::{decode_utf8, valid_utf8};

verus! {

/// One node of a decoded tree: a byte string, a signed 64-bit integer, an
/// ordered list, or a string-keyed dictionary in insertion order.
#[derive(Debug, PartialEq, Eq)]
pub enum Element {
    ByteString(Vec<u8>),
    Integer(i64),
    List(Vec<Element>),
    Dictionary(Vec<(String, Element)>),
}

/// The [`Value`] that an [`Element`] stands for.
pub open spec fn elem_model(e: Element) -> Value
    decreases e, 1int,
{
    match e {
        Element::ByteString(b) => Value::Bytes(b@),
        Element::Integer(x) => Value::Int(x),
        Element::List(v) => Value::List(seq_model(v@)),
        Element::Dictionary(d) => Value::Dict(dict_model(d@)),
    }
}

/// The values that a sequence of elements stands for, in order.
pub open spec fn seq_model(l: Seq<Element>) -> Seq<Value>
    decreases l, 0int,
{
    if l.len() == 0 {
        Seq::empty()
    } else {
        seq![elem_model(l[0])] + seq_model(l.subrange(1, l.len() as int))
    }
}

/// The association sequence that a vector of dictionary entries stands for.
pub open spec fn dict_model(d: Seq<(String, Element)>) -> Seq<(Seq<char>, Value)>
    decreases d, 0int,
{
    if d.len() == 0 {
        Seq::empty()
    } else {
        seq![(d[0].0@, elem_model(d[0].1))] + dict_model(d.subrange(1, d.len() as int))
    }
}

/// `seq_model` maps the sequence elementwise.
pub proof fn lemma_seq_model(l: Seq<Element>)
    ensures
        seq_model(l).len() == l.len(),
        forall|i: int| 0 <= i < l.len() ==> #[trigger] seq_model(l)[i] == elem_model(l[i]),
    decreases l.len(),
{
    if l.len() > 0 {
        let rest = l.subrange(1, l.len() as int);
        lemma_seq_model(rest);
        assert forall|i: int| 0 <= i < l.len() implies seq_model(l)[i] == elem_model(l[i]) by {
            if i > 0 {
                assert(rest[i - 1] == l[i]);
                assert(seq_model(l)[i] == seq_model(rest)[i - 1]);
            }
        }
    }
}

/// `dict_model` maps the entry sequence elementwise.
pub proof fn lemma_dict_model(d: Seq<(String, Element)>)
    ensures
        dict_model(d).len() == d.len(),
        forall|i: int|
            0 <= i < d.len() ==> #[trigger] dict_model(d)[i] == (d[i].0@, elem_model(d[i].1)),
    decreases d.len(),
{
    if d.len() > 0 {
        let rest = d.subrange(1, d.len() as int);
        lemma_dict_model(rest);
        assert forall|i: int| 0 <= i < d.len() implies dict_model(d)[i] == (
            d[i].0@,
            elem_model(d[i].1),
        ) by {
            if i > 0 {
                assert(rest[i - 1] == d[i]);
                assert(dict_model(d)[i] == dict_model(rest)[i - 1]);
            }
        }
    }
}

impl View for Element {
    type V = Value;

    open spec fn view(&self) -> Value {
        elem_model(*self)
    }
}

/// The views of a sequence of strings, in order.
pub open spec fn strings_model(l: Seq<String>) -> Seq<Seq<char>> {
    Seq::new(l.len(), |i: int| l[i]@)
}

/// Relies on `core::str::from_utf8`: it returns `Ok` exactly when the bytes
/// are valid UTF-8, and the returned string slice is their decoding.
#[verifier::external_body]
fn utf8_to_str(bytes: &[u8]) -> (r: Option<&str>)
    ensures
        match r {
            Some(s) => valid_utf8(bytes@) && s@ == decode_utf8(bytes@),
            None => !valid_utf8(bytes@),
        },
{
    core::str::from_utf8(bytes).ok()
}

impl Element {
    /// The payload of a byte-string node.
    pub fn convert_to_ref_vec_u8(&self) -> (r: Option<&Vec<u8>>)
        ensures
            match r {
                Some(b) => self@ == Value::Bytes(b@),
                None => !(self@ is Bytes),
            },
    {
        if let Element::ByteString(x) = self {
            Some(x)
        } else {
            None
        }
    }

    /// The payload of a byte-string node as a UTF-8 string slice.
    pub fn convert_to_str(&self) -> (r: Option<&str>)
        ensures
            match r {
                Some(s) => (self@ matches Value::Bytes(b) && valid_utf8(b) && s@ == decode_utf8(
                    b,
                )),
                None => !(self@ matches Value::Bytes(b) && valid_utf8(b)),
            },
    {
        if let Element::ByteString(x) = self {
            utf8_to_str(x.as_slice())
        } else {
            None
        }
    }

    /// The payload of a byte-string node as an owned UTF-8 string.
    pub fn convert_to_string(&self) -> (r: Option<String>)
        ensures
            match r {
                Some(s) => (self@ matches Value::Bytes(b) && valid_utf8(b) && s@ == decode_utf8(
                    b,
                )),
                None => !(self@ matches Value::Bytes(b) && valid_utf8(b)),
            },
    {
        match self.convert_to_str() {
            Some(s) => Some(s.to_owned()),
            None => None,
        }
    }

    /// The payload of an integer node.
    pub fn convert_to_i64(&self) -> (r: Option<i64>)
        ensures
            match r {
                Some(x) => self@ == Value::Int(x),
                None => !(self@ is Int),
            },
    {
        if let Element::Integer(x) = self {
            Some(*x)
        } else {
            None
        }
    }

    /// The payload of an integer node, its bit pattern reinterpreted as
    /// unsigned.  Callers must not use this for values that were
    /// legitimately negative.
    pub fn convert_to_u64(&self) -> (r: Option<u64>)
        ensures
            match r {
                Some(u) => (self@ matches Value::Int(x) && u == u64_of_i64(x)),
                None => !(self@ is Int),
            },
    {
        match self.convert_to_i64() {
            Some(x) => {
                if x >= 0 {
                    Some(x as u64)
                } else {
                    let big: i128 = x as i128 + 0x10000000000000000i128;
                    Some(big as u64)
                }
            },
            None => None,
        }
    }

    /// The elements of a list node, each decoded as a UTF-8 string; `None`
    /// if any element is not a valid UTF-8 byte string.
    pub fn convert_to_string_list(&self) -> (r: Option<Vec<String>>)
        ensures
            match r {
                Some(l) => (self@ matches Value::List(items) && all_utf8_strings(items)
                    && strings_model(l@) == string_list_of(items)),
                None => !(self@ matches Value::List(items) && all_utf8_strings(items)),
            },
    {
        if let Element::List(x) = self {
            let ghost items = seq_model(x@);
            let mut out: Vec<String> = Vec::new();
            let mut i: usize = 0;
            while i < x.len()
                invariant
                    0 <= i <= x@.len(),
                    *self == Element::List(*x),
                    items == seq_model(x@),
                    out@.len() == i,
                    forall|j: int|
                        0 <= j < i ==> ((#[trigger] items[j]) matches Value::Bytes(b)
                            && valid_utf8(b)),
                    forall|j: int| 0 <= j < i ==> (#[trigger] out@[j])@ == decode_utf8(
                        items[j]->Bytes_0,
                    ),
                decreases x@.len() - i,
            {
                proof {
                    lemma_seq_model(x@);
                }
                match x[i].convert_to_string() {
                    Some(s) => {
                        out.push(s);
                        i = i + 1;
                    },
                    None => {
                        proof {
                            assert(!(items[i as int] matches Value::Bytes(b) && valid_utf8(b)));
                        }
                        return None;
                    },
                }
            }
            proof {
                lemma_seq_model(x@);
                assert(strings_model(out@) =~= string_list_of(items));
            }
            Some(out)
        } else {
            None
        }
    }

    /// The element vector of a list node, by reference.
    pub fn convert_to_ref_list(&self) -> (r: Option<&Vec<Element>>)
        ensures
            match r {
                Some(l) => self@ == Value::List(seq_model(l@)),
                None => !(self@ is List),
            },
    {
        if let Element::List(x) = self {
            Some(x)
        } else {
            None
        }
    }

    /// The element vector of a list node, as an owned copy.
    pub fn convert_to_list(&self) -> (r: Option<Vec<Element>>)
        ensures
            match r {
                Some(l) => self@ == Value::List(seq_model(l@)),
                None => !(self@ is List),
            },
    {
        match self.convert_to_ref_list() {
            Some(x) => {
                let mut out: Vec<Element> = Vec::new();
                let mut i: usize = 0;
                while i < x.len()
                    invariant
                        0 <= i <= x@.len(),
                        out@.len() == i,
                        forall|j: int| 0 <= j < i ==> (#[trigger] out@[j])@ == x@[j]@,
                    decreases x@.len() - i,
                {
                    let c = x[i].deep_copy();
                    out.push(c);
                    i = i + 1;
                }
                proof {
                    lemma_seq_model(out@);
                    lemma_seq_model(x@);
                    assert(seq_model(out@) =~= seq_model(x@));
                }
                Some(out)
            },
            None => None,
        }
    }

    /// The entry vector of a dictionary node, by reference.
    pub fn convert_to_ref_dict(&self) -> (r: Option<&Vec<(String, Element)>>)
        ensures
            match r {
                Some(d) => self@ == Value::Dict(dict_model(d@)),
                None => !(self@ is Dict),
            },
    {
        if let Element::Dictionary(x) = self {
            Some(x)
        } else {
            None
        }
    }

    /// The entry vector of a dictionary node, as an owned copy.
    pub fn convert_to_dict(&self) -> (r: Option<Vec<(String, Element)>>)
        ensures
            match r {
                Some(d) => self@ == Value::Dict(dict_model(d@)),
                None => !(self@ is Dict),
            },
    {
        match self.convert_to_ref_dict() {
            Some(x) => Some(copy_entries(x)),
            None => None,
        }
    }

    /// A structurally equal copy of the tree.
    pub fn deep_copy(&self) -> (r: Element)
        ensures
            r@ == self@,
        decreases *self,
    {
        match self {
            Element::ByteString(b) => Element::ByteString(slice_to_vec(b.as_slice())),
            Element::Integer(x) => Element::Integer(*x),
            Element::List(v) => {
                let mut out: Vec<Element> = Vec::new();
                let mut i: usize = 0;
                while i < v.len()
                    invariant
                        0 <= i <= v@.len(),
                        *self == Element::List(*v),
                        out@.len() == i,
                        forall|j: int| 0 <= j < i ==> (#[trigger] out@[j])@ == v@[j]@,
                    decreases v@.len() - i,
                {
                    proof {
                        assert(*self == Element::List(*v));
                        assert(decreases_to!(*self => self->List_0));
                        assert(decreases_to!(v@ => v@[i as int]));
                        assert(decreases_to!(*self => v@[i as int]));
                    }
                    let c = v[i].deep_copy();
                    out.push(c);
                    i = i + 1;
                }
                proof {
                    lemma_seq_model(out@);
                    lemma_seq_model(v@);
                    assert(seq_model(out@) =~= seq_model(v@));
                }
                Element::List(out)
            },
            Element::Dictionary(d) => {
                let mut out: Vec<(String, Element)> = Vec::new();
                let mut i: usize = 0;
                while i < d.len()
                    invariant
                        0 <= i <= d@.len(),
                        *self == Element::Dictionary(*d),
                        out@.len() == i,
                        forall|j: int|
                            0 <= j < i ==> (#[trigger] out@[j]).0@ == d@[j].0@ && out@[j].1@
                                == d@[j].1@,
                    decreases d@.len() - i,
                {
                    proof {
                        assert(*self == Element::Dictionary(*d));
                        assert(decreases_to!(*self => self->Dictionary_0));
                        assert(decreases_to!(d@ => d@[i as int]));
                        assert(decreases_to!(d@[i as int] => d@[i as int].1));
                        assert(decreases_to!(*self => d@[i as int].1));
                    }
                    let k = d[i].0.clone();
                    let c = d[i].1.deep_copy();
                    out.push((k, c));
                    i = i + 1;
                }
                proof {
                    lemma_dict_model(out@);
                    lemma_dict_model(d@);
                    assert(dict_model(out@) =~= dict_model(d@));
                }
                Element::Dictionary(out)
            },
        }
    }
}

impl Clone for Element {
    /// Cloning copies the whole tree; the copy stands for the same value.
    fn clone(&self) -> (r: Element)
        ensures
            r@ == self@,
    {
        self.deep_copy()
    }
}

/// A structurally equal copy of a vector of dictionary entries.
fn copy_entries(entries: &Vec<(String, Element)>) -> (r: Vec<(String, Element)>)
    ensures
        dict_model(r@) == dict_model(entries@),
{
    let mut out: Vec<(String, Element)> = Vec::new();
    let mut i: usize = 0;
    while i < entries.len()
        invariant
            0 <= i <= entries@.len(),
            out@.len() == i,
            forall|j: int|
                0 <= j < i ==> (#[trigger] out@[j]).0@ == entries@[j].0@ && out@[j].1@
                    == entries@[j].1@,
        decreases entries@.len() - i,
    {
        let k = entries[i].0.clone();
        let c = entries[i].1.deep_copy();
        out.push((k, c));
        i = i + 1;
    }
    proof {
        lemma_dict_model(out@);
        lemma_dict_model(entries@);
        assert(dict_model(out@) =~= dict_model(entries@));
    }
    out
}

/// The value bound to `key` in an association vector of dictionary entries.
pub fn dict_get<'a>(entries: &'a Vec<(String, Element)>, key: &str) -> (r: Option<&'a Element>)
    ensures
        match r {
            Some(e) => assoc_get(dict_model(entries@), key@) == Some(e@),
            None => assoc_get(dict_model(entries@), key@) is None,
        },
{
    let k = String::from_str(key);
    let ghost d = dict_model(entries@);
    proof {
        lemma_dict_model(entries@);
        assert(d.skip(0) =~= d);
    }
    let mut i: usize = 0;
    while i < entries.len()
        invariant
            0 <= i <= entries@.len(),
            d == dict_model(entries@),
            k@ == key@,
            assoc_get(d, key@) == assoc_get(d.skip(i as int), key@),
        decreases entries@.len() - i,
    {
        proof {
            lemma_dict_model(entries@);
            assert(d.skip(i as int)[0] == d[i as int]);
            assert(d.skip(i as int).skip(1) =~= d.skip(i as int + 1));
        }
        if entries[i].0 == k {
            return Some(&entries[i].1);
        }
        i = i + 1;
    }
    proof {
        lemma_dict_model(entries@);
        assert(d.skip(d.len() as int) =~= Seq::<(Seq<char>, Value)>::empty());
    }
    None
}

/// Bind `key` to `value` in an association vector of dictionary entries:
/// the first entry for the key is overwritten in place, and a missing key is
/// appended at the end.
pub fn dict_set(entries: &mut Vec<(String, Element)>, key: String, value: Element)
    ensures
        dict_model(final(entries)@) == assoc_set(dict_model(old(entries)@), key@, value@),
{
    let ghost d = dict_model(old(entries)@);
    proof {
        lemma_dict_model(entries@);
        assert(d.skip(0) =~= d);
        assert(d.take(0) + assoc_set(d.skip(0), key@, value@) =~= assoc_set(d, key@, value@));
    }
    let mut i: usize = 0;
    while i < entries.len()
        invariant
            0 <= i <= entries@.len(),
            entries@ == old(entries)@,
            d == dict_model(entries@),
            assoc_set(d, key@, value@) == d.take(i as int) + assoc_set(
                d.skip(i as int),
                key@,
                value@,
            ),
        decreases entries@.len() - i,
    {
        proof {
            lemma_dict_model(entries@);
            assert(d.skip(i as int)[0] == d[i as int]);
            assert(d.skip(i as int).skip(1) =~= d.skip(i as int + 1));
        }
        if entries[i].0 == key {
            proof {
                assert(assoc_set(d, key@, value@) =~= d.update(i as int, (key@, value@)));
            }
            entries.set(i, (key, value));
            proof {
                lemma_dict_model(entries@);
                assert(dict_model(entries@) =~= d.update(i as int, (key@, value@)));
            }
            return ;
        }
        proof {
            assert(d.take(i as int + 1) =~= d.take(i as int) + seq![d[i as int]]);
            assert(d.take(i as int) + (seq![d[i as int]] + assoc_set(
                d.skip(i as int + 1),
                key@,
                value@,
            )) =~= d.take(i as int + 1) + assoc_set(d.skip(i as int + 1), key@, value@));
        }
        i = i + 1;
    }
    proof {
        lemma_dict_model(entries@);
        assert(d.skip(d.len() as int) =~= Seq::<(Seq<char>, Value)>::empty());
        assert(d.take(d.len() as int) =~= d);
    }
    entries.push((key, value));
    proof {
        lemma_dict_model(entries@);
        assert(dict_model(entries@) =~= d + seq![(key@, value@)]);
        assert(assoc_set(d, key@, value@) =~= d + seq![(key@, value@)]);
    }
}

} // verus!
