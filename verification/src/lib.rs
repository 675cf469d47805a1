//! A bencode decoder and a torrent-metadata schema layer on top of it.
//!
//! The decoder turns a raw byte buffer into a tree of [`element::Element`]
//! values (byte strings, signed 64-bit integers, lists and string-keyed
//! dictionaries), and the schema layer walks such a tree into strongly typed
//! torrent-metadata records.  Every function is specified against a
//! mathematical model of the grammar and verified.

pub mod decode;
pub mod element;
pub mod meta_info;
pub mod model;
pub mod utils;
