//! The torrent-metadata schema over decoded trees.
//!
//! A decoded dictionary is walked into strongly typed records: common
//! piece-layout data, a single-file or multiple-file variant selected by the
//! presence of a `files` key, and the top-level envelope with the announce
//! URL and optional fields.  Any missing or malformed required field fails
//! the whole construction; unknown keys are ignored.

use crate::decode::{
    decode_len_check, decode_no_len_check, spec_decode_prefix, spec_decode_strict,
};
use crate::element::{
    dict_get, dict_model, lemma_seq_model, seq_model, strings_model, Element,
};
use crate::model::{all_utf8_strings, assoc_get, string_list_of, u64_of_i64, Value};
use vstd::prelude::*;
use vstd::slice::{slice_subrange, slice_to_vec};
use vstd::string::StringExecFns;
use vstd::utf8::{decode_utf8, valid_utf8};

verus! {

/// Model of [`CommonFileInfo`]: piece size, the ordered 20-byte piece
/// hashes, and the private flag.
pub struct CommonFileInfoV {
    pub piece_length: usize,
    pub pieces: Seq<Seq<u8>>,
    pub is_private: bool,
}

/// Model of [`SingleFileInfo`].
pub struct SingleFileInfoV {
    pub common_file_info: CommonFileInfoV,
    pub name: Seq<char>,
    pub length: usize,
    pub md5sum: Option<Seq<char>>,
}

/// Model of [`MultipleFileInfoFile`]: one file of a multiple-file torrent.
pub struct MultipleFileInfoFileV {
    pub length: usize,
    pub path: Seq<Seq<char>>,
    pub md5sum: Option<Seq<char>>,
}

/// Model of [`MultipleFileInfo`].
pub struct MultipleFileInfoV {
    pub common_file_info: CommonFileInfoV,
    pub name: Seq<char>,
    pub files: Seq<MultipleFileInfoFileV>,
}

/// Model of [`FileInfo`].
pub enum FileInfoV {
    SingleFile(SingleFileInfoV),
    MultipleFile(MultipleFileInfoV),
}

/// Model of [`MetaInfo`].
pub struct MetaInfoV {
    pub info: FileInfoV,
    pub announce: Seq<char>,
    pub announce_list: Option<Seq<Seq<Seq<char>>>>,
    pub creation_date: Option<u64>,
    pub comment: Option<Seq<char>>,
    pub created_by: Option<Seq<char>>,
    pub encoding: Option<Seq<char>>,
}

/// The byte sequence split into consecutive 20-byte chunks, in order.
pub open spec fn spec_chunks20(b: Seq<u8>) -> Seq<Seq<u8>> {
    Seq::new(b.len() / 20, |i: int| b.subrange(20 * i, 20 * i + 20))
}

/// What building common file data from raw parts yields: the pieces byte
/// string must split exactly into 20-byte hashes.
pub open spec fn spec_common_new(
    piece_length: usize,
    pieces: Seq<u8>,
    is_private: bool,
) -> Option<CommonFileInfoV> {
    if pieces.len() % 20 != 0 {
        None
    } else {
        Some(CommonFileInfoV { piece_length, pieces: spec_chunks20(pieces), is_private })
    }
}

/// The value under `k` decoded as a UTF-8 string, if the key is present,
/// bound to a byte string, and that byte string is valid UTF-8.
pub open spec fn get_string(d: Seq<(Seq<char>, Value)>, k: Seq<char>) -> Option<Seq<char>> {
    match assoc_get(d, k) {
        Some(Value::Bytes(b)) => if valid_utf8(b) {
            Some(decode_utf8(b))
        } else {
            None
        },
        _ => None,
    }
}

/// The value under `k` as an unsigned 64-bit number: an integer value with
/// its bit pattern reinterpreted as unsigned.
pub open spec fn get_u64(d: Seq<(Seq<char>, Value)>, k: Seq<char>) -> Option<u64> {
    match assoc_get(d, k) {
        Some(Value::Int(x)) => Some(u64_of_i64(x)),
        _ => None,
    }
}

/// The value under `k` as a byte count that fits the machine word.
pub open spec fn get_usize(d: Seq<(Seq<char>, Value)>, k: Seq<char>) -> Option<usize> {
    match get_u64(d, k) {
        Some(u) => if u <= usize::MAX {
            Some(u as usize)
        } else {
            None
        },
        None => None,
    }
}

/// The private flag of an info dictionary: true exactly when the `private`
/// key holds the integer 1.
pub open spec fn spec_private_flag(d: Seq<(Seq<char>, Value)>) -> bool {
    match assoc_get(d, "private"@) {
        Some(Value::Int(x)) => x == 1,
        _ => false,
    }
}

/// Common file data read from an info dictionary: required `piece length`
/// and `pieces` (whose length must be a multiple of 20), optional `private`.
/// A piece length that does not fit the machine word is rejected.
pub open spec fn spec_common_from_dict(d: Seq<(Seq<char>, Value)>) -> Option<CommonFileInfoV> {
    match get_usize(d, "piece length"@) {
        None => None,
        Some(pl) => match assoc_get(d, "pieces"@) {
            Some(Value::Bytes(pb)) => spec_common_new(pl, pb, spec_private_flag(d)),
            _ => None,
        },
    }
}

/// Single-file data read from an info dictionary: required `name` and
/// `length`, optional `md5sum`.
pub open spec fn spec_single_from_dict(
    c: CommonFileInfoV,
    d: Seq<(Seq<char>, Value)>,
) -> Option<SingleFileInfoV> {
    match get_string(d, "name"@) {
        None => None,
        Some(name) => match get_usize(d, "length"@) {
            None => None,
            Some(length) => Some(
                SingleFileInfoV {
                    common_file_info: c,
                    name,
                    length,
                    md5sum: get_string(d, "md5sum"@),
                },
            ),
        },
    }
}

/// One file entry of a multiple-file torrent, read from its dictionary:
/// required `length` and `path` (a list of UTF-8 strings, root to leaf),
/// optional `md5sum`.
pub open spec fn spec_multi_file_from_dict(d: Seq<(Seq<char>, Value)>) -> Option<
    MultipleFileInfoFileV,
> {
    match get_usize(d, "length"@) {
        None => None,
        Some(length) => match assoc_get(d, "path"@) {
            Some(Value::List(items)) => if all_utf8_strings(items) {
                Some(
                    MultipleFileInfoFileV {
                        length,
                        path: string_list_of(items),
                        md5sum: get_string(d, "md5sum"@),
                    },
                )
            } else {
                None
            },
            _ => None,
        },
    }
}

/// The file entries of a `files` list, each of which must be a dictionary
/// with the required file fields; any failing entry fails the whole list.
pub open spec fn spec_files_from_list(items: Seq<Value>) -> Option<Seq<MultipleFileInfoFileV>>
    decreases items.len(),
{
    if items.len() == 0 {
        Some(Seq::empty())
    } else {
        match items[0] {
            Value::Dict(fd) => match spec_multi_file_from_dict(fd) {
                None => None,
                Some(f) => match spec_files_from_list(items.skip(1)) {
                    None => None,
                    Some(rest) => Some(seq![f] + rest),
                },
            },
            _ => None,
        }
    }
}

/// Multiple-file data built from common data, the directory name and the
/// `files` list.
pub open spec fn spec_multi_from(
    c: CommonFileInfoV,
    name: Seq<char>,
    items: Seq<Value>,
) -> Option<MultipleFileInfoV> {
    match spec_files_from_list(items) {
        None => None,
        Some(files) => Some(MultipleFileInfoV { common_file_info: c, name, files }),
    }
}

/// The tiers of an announce list: each element must be a list of UTF-8
/// strings, and any failing element drops the whole optional field.
pub open spec fn spec_tiers(tiers: Seq<Value>) -> Option<Seq<Seq<Seq<char>>>>
    decreases tiers.len(),
{
    if tiers.len() == 0 {
        Some(Seq::empty())
    } else {
        match tiers[0] {
            Value::List(items) => if all_utf8_strings(items) {
                match spec_tiers(tiers.skip(1)) {
                    Some(rest) => Some(seq![string_list_of(items)] + rest),
                    None => None,
                }
            } else {
                None
            },
            _ => None,
        }
    }
}

/// The whole metadata record read from a decoded root value.  The root must
/// be a dictionary with a string `announce` and a dictionary `info`; the
/// variant follows the presence of `files` in the info dictionary.  An
/// `announce-list` that is present but not a list fails the document; one
/// whose inner entries fail only drops the field.  The remaining optional
/// fields are kept when well formed and dropped otherwise.
pub open spec fn spec_meta_from_value(v: Value) -> Option<MetaInfoV> {
    match v {
        Value::Dict(root) => match get_string(root, "announce"@) {
            None => None,
            Some(announce) => match assoc_get(root, "info"@) {
                Some(Value::Dict(idict)) => match spec_common_from_dict(idict) {
                    None => None,
                    Some(c) => match get_string(idict, "name"@) {
                        None => None,
                        Some(name) => match spec_meta_info_variant(c, name, idict) {
                            None => None,
                            Some(info) => match assoc_get(root, "announce-list"@) {
                                Some(al) => match al {
                                    Value::List(tiers) => Some(
                                        spec_meta_record(root, info, announce, spec_tiers(tiers)),
                                    ),
                                    _ => None,
                                },
                                None => Some(spec_meta_record(root, info, announce, None)),
                            },
                        },
                    },
                },
                _ => None,
            },
        },
        _ => None,
    }
}

/// The variant of the info dictionary: multiple-file when `files` is
/// present (a list of file dictionaries), single-file when it is absent.
pub open spec fn spec_meta_info_variant(
    c: CommonFileInfoV,
    name: Seq<char>,
    idict: Seq<(Seq<char>, Value)>,
) -> Option<FileInfoV> {
    match assoc_get(idict, "files"@) {
        Some(fv) => match fv {
            Value::List(items) => match spec_multi_from(c, name, items) {
                Some(m) => Some(FileInfoV::MultipleFile(m)),
                None => None,
            },
            _ => None,
        },
        None => match spec_single_from_dict(c, idict) {
            Some(sf) => Some(FileInfoV::SingleFile(sf)),
            None => None,
        },
    }
}

/// The assembled record with its optional top-level fields.
pub open spec fn spec_meta_record(
    root: Seq<(Seq<char>, Value)>,
    info: FileInfoV,
    announce: Seq<char>,
    announce_list: Option<Seq<Seq<Seq<char>>>>,
) -> MetaInfoV {
    MetaInfoV {
        info,
        announce,
        announce_list,
        creation_date: get_u64(root, "creation date"@),
        comment: get_string(root, "comment"@),
        created_by: get_string(root, "created by"@),
        encoding: get_string(root, "encoding"@),
    }
}

/// Metadata read from raw bytes: a strict decode followed by the schema.
pub open spec fn spec_meta_from_bytes_strict(s: Seq<u8>) -> Option<MetaInfoV> {
    match spec_decode_strict(s) {
        Some(v) => spec_meta_from_value(v),
        None => None,
    }
}

/// Metadata read from raw bytes: a prefix decode followed by the schema.
pub open spec fn spec_meta_from_bytes_prefix(s: Seq<u8>) -> Option<MetaInfoV> {
    match spec_decode_prefix(s) {
        Some(v) => spec_meta_from_value(v),
        None => None,
    }
}

/// The views of a sequence of piece hashes, in order.
pub open spec fn pieces_model(p: Seq<Vec<u8>>) -> Seq<Seq<u8>> {
    Seq::new(p.len(), |i: int| p[i]@)
}

/// The views of a sequence of files, in order.
pub open spec fn files_model(fs: Seq<MultipleFileInfoFile>) -> Seq<MultipleFileInfoFileV> {
    Seq::new(fs.len(), |i: int| fs[i]@)
}

/// The views of a sequence of announce tiers, in order.
pub open spec fn tiers_model(ts: Seq<Vec<String>>) -> Seq<Seq<Seq<char>>> {
    Seq::new(ts.len(), |i: int| strings_model(ts[i]@))
}

/// Piece layout shared by both torrent variants: piece size, the ordered
/// 20-byte piece hashes, and the private flag.
#[derive(Debug, PartialEq, Eq, Clone, PartialOrd, Ord, Default)]
pub struct CommonFileInfo {
    piece_length: usize,
    pieces: Vec<Vec<u8>>,
    is_private: bool,
}

impl View for CommonFileInfo {
    type V = CommonFileInfoV;

    closed spec fn view(&self) -> CommonFileInfoV {
        CommonFileInfoV {
            piece_length: self.piece_length,
            pieces: pieces_model(self.pieces@),
            is_private: self.is_private,
        }
    }
}

/// The converted value when it fits the machine word.
fn u64_to_usize(x: u64) -> (r: Option<usize>)
    ensures
        (match r {
            Some(v) => x <= usize::MAX && v == x,
            None => x > usize::MAX,
        }),
{
    if x <= usize::MAX as u64 {
        Some(x as usize)
    } else {
        None
    }
}

impl CommonFileInfo {
    /// Build from raw parts; the pieces byte string must split exactly into
    /// 20-byte hashes, kept in source order.
    pub fn new(piece_length: usize, pieces: &Vec<u8>, is_private: bool) -> (r: Option<Self>)
        ensures
            (match r {
                Some(c) => spec_common_new(piece_length, pieces@, is_private) == Some(c@),
                None => spec_common_new(piece_length, pieces@, is_private) is None,
            }),
            r is Some <==> pieces@.len() % 20 == 0,
    {
        if pieces.len() % 20 != 0 {
            return None;
        }
        let mut chunks: Vec<Vec<u8>> = Vec::new();
        let mut i: usize = 0;
        while pieces.len() - i >= 20
            invariant
                0 <= i <= pieces@.len(),
                i % 20 == 0,
                pieces@.len() % 20 == 0,
                chunks@.len() == i / 20,
                forall|j: int|
                    0 <= j < chunks@.len() ==> (#[trigger] chunks@[j])@ == pieces@.subrange(
                        20 * j,
                        20 * j + 20,
                    ),
            decreases pieces@.len() - i,
        {
            let chunk = slice_subrange(pieces.as_slice(), i, i + 20);
            chunks.push(slice_to_vec(chunk));
            i = i + 20;
        }
        proof {
            assert(pieces_model(chunks@) =~= spec_chunks20(pieces@));
        }
        Some(CommonFileInfo { piece_length, pieces: chunks, is_private })
    }

    /// Build from a decoded value, which must be a dictionary.
    pub fn from_element(info_element: &Element) -> (r: Option<Self>)
        ensures
            (match info_element@ {
                Value::Dict(d) => (match r {
                    Some(c) => spec_common_from_dict(d) == Some(c@),
                    None => spec_common_from_dict(d) is None,
                }),
                _ => r is None,
            }),
    {
        if let Element::Dictionary(dict) = info_element {
            CommonFileInfo::from_dict(dict)
        } else {
            None
        }
    }

    /// Build from the entries of an info dictionary.
    pub fn from_dict(info_dict: &Vec<(String, Element)>) -> (r: Option<Self>)
        ensures
            (match r {
                Some(c) => spec_common_from_dict(dict_model(info_dict@)) == Some(c@),
                None => spec_common_from_dict(dict_model(info_dict@)) is None,
            }),
    {
        let piece_length_u64 = match dict_get(info_dict, "piece length") {
            Some(e) => match e.convert_to_u64() {
                Some(u) => u,
                None => {
                    return None;
                },
            },
            None => {
                return None;
            },
        };
        let piece_length = match u64_to_usize(piece_length_u64) {
            Some(x) => x,
            None => {
                return None;
            },
        };
        let pieces = match dict_get(info_dict, "pieces") {
            Some(e) => match e.convert_to_ref_vec_u8() {
                Some(b) => b,
                None => {
                    return None;
                },
            },
            None => {
                return None;
            },
        };
        let is_private = match dict_get(info_dict, "private") {
            Some(x) => match x.convert_to_i64() {
                Some(y) => y == 1,
                None => false,
            },
            None => false,
        };
        CommonFileInfo::new(piece_length, pieces, is_private)
    }
}

/// A single-file torrent: the common piece layout plus the file's name,
/// byte length and optional MD5 checksum.
#[derive(Debug, PartialEq, Eq, Clone, PartialOrd, Ord, Default)]
pub struct SingleFileInfo {
    common_file_info: CommonFileInfo,
    name: String,
    length: usize,
    md5sum: Option<String>,
}

impl View for SingleFileInfo {
    type V = SingleFileInfoV;

    closed spec fn view(&self) -> SingleFileInfoV {
        SingleFileInfoV {
            common_file_info: self.common_file_info@,
            name: self.name@,
            length: self.length,
            md5sum: (match self.md5sum {
                Some(s) => Some(s@),
                None => None,
            }),
        }
    }
}

impl SingleFileInfo {
    /// Build from already-validated common data plus the single-file fields
    /// of the info dictionary: required `name` and `length`, optional
    /// `md5sum`.
    pub fn new_with_common_info(
        common_file_info: CommonFileInfo,
        info_dict: &Vec<(String, Element)>,
    ) -> (r: Option<Self>)
        ensures
            (match r {
                Some(f) => spec_single_from_dict(common_file_info@, dict_model(info_dict@))
                    == Some(f@),
                None => spec_single_from_dict(common_file_info@, dict_model(info_dict@)) is None,
            }),
    {
        let name = match dict_get(info_dict, "name") {
            Some(e) => match e.convert_to_str() {
                Some(s) => s,
                None => {
                    return None;
                },
            },
            None => {
                return None;
            },
        };
        let length_u64 = match dict_get(info_dict, "length") {
            Some(e) => match e.convert_to_u64() {
                Some(u) => u,
                None => {
                    return None;
                },
            },
            None => {
                return None;
            },
        };
        let length = match u64_to_usize(length_u64) {
            Some(x) => x,
            None => {
                return None;
            },
        };
        let md5sum = match dict_get(info_dict, "md5sum") {
            Some(x) => match x.convert_to_str() {
                Some(s) => Some(s.to_owned()),
                None => None,
            },
            None => None,
        };
        Some(SingleFileInfo { common_file_info, name: name.to_owned(), length, md5sum })
    }
}

/// One file of a multiple-file torrent: byte length, path segments from
/// root to leaf, and optional MD5 checksum.
#[derive(Debug, PartialEq, Eq, Clone, PartialOrd, Ord, Default)]
pub struct MultipleFileInfoFile {
    length: usize,
    path: Vec<String>,
    md5sum: Option<String>,
}

impl View for MultipleFileInfoFile {
    type V = MultipleFileInfoFileV;

    closed spec fn view(&self) -> MultipleFileInfoFileV {
        MultipleFileInfoFileV {
            length: self.length,
            path: strings_model(self.path@),
            md5sum: (match self.md5sum {
                Some(s) => Some(s@),
                None => None,
            }),
        }
    }
}

impl MultipleFileInfoFile {
    /// Build from the file's raw parts.
    pub fn new(length: usize, path: Vec<String>, md5sum: Option<&str>) -> (r: Self)
        ensures
            r@.length == length,
            r@.path == strings_model(path@),
            r@.md5sum == (match md5sum {
                Some(s) => Some(s@),
                None => None::<Seq<char>>,
            }),
    {
        MultipleFileInfoFile {
            length,
            path,
            md5sum: (match md5sum {
                Some(x) => Some(x.to_owned()),
                None => None,
            }),
        }
    }

    /// Build from a decoded value, which must be a dictionary.
    pub fn from_element(info_element: &Element) -> (r: Option<Self>)
        ensures
            (match info_element@ {
                Value::Dict(d) => (match r {
                    Some(f) => spec_multi_file_from_dict(d) == Some(f@),
                    None => spec_multi_file_from_dict(d) is None,
                }),
                _ => r is None,
            }),
    {
        match info_element.convert_to_ref_dict() {
            Some(d) => MultipleFileInfoFile::from_dict(d),
            None => None,
        }
    }

    /// Build from the entries of a file dictionary: required `length` and
    /// `path`, optional `md5sum`.
    pub fn from_dict(info_dict: &Vec<(String, Element)>) -> (r: Option<Self>)
        ensures
            (match r {
                Some(f) => spec_multi_file_from_dict(dict_model(info_dict@)) == Some(f@),
                None => spec_multi_file_from_dict(dict_model(info_dict@)) is None,
            }),
    {
        let length_u64 = match dict_get(info_dict, "length") {
            Some(e) => match e.convert_to_u64() {
                Some(u) => u,
                None => {
                    return None;
                },
            },
            None => {
                return None;
            },
        };
        let length = match u64_to_usize(length_u64) {
            Some(x) => x,
            None => {
                return None;
            },
        };
        let path = match dict_get(info_dict, "path") {
            Some(e) => match e.convert_to_string_list() {
                Some(p) => p,
                None => {
                    return None;
                },
            },
            None => {
                return None;
            },
        };
        let md5sum = match dict_get(info_dict, "md5sum") {
            Some(x) => x.convert_to_str(),
            None => None,
        };
        Some(MultipleFileInfoFile::new(length, path, md5sum))
    }
}

/// A multiple-file torrent: the common piece layout, the directory name and
/// the ordered file entries.
#[derive(Debug, PartialEq, Eq, Clone, PartialOrd, Ord, Default)]
pub struct MultipleFileInfo {
    common_file_info: CommonFileInfo,
    name: String,
    files: Vec<MultipleFileInfoFile>,
}

impl View for MultipleFileInfo {
    type V = MultipleFileInfoV;

    closed spec fn view(&self) -> MultipleFileInfoV {
        MultipleFileInfoV {
            common_file_info: self.common_file_info@,
            name: self.name@,
            files: files_model(self.files@),
        }
    }
}

impl MultipleFileInfo {
    /// Build from already-validated common data, the directory name and the
    /// decoded `files` list, every element of which must be a valid file
    /// dictionary.
    pub fn new_with_common_info(
        common_file_info: CommonFileInfo,
        name: &str,
        files_element: &Vec<Element>,
    ) -> (r: Option<Self>)
        ensures
            (match r {
                Some(m) => spec_multi_from(common_file_info@, name@, seq_model(files_element@))
                    == Some(m@),
                None => spec_multi_from(common_file_info@, name@, seq_model(files_element@))
                    is None,
            }),
    {
        let ghost items = seq_model(files_element@);
        let mut files: Vec<MultipleFileInfoFile> = Vec::new();
        let mut i: usize = 0;
        proof {
            assert(items.skip(0) =~= items);
            assert(files_model(files@) + spec_files_from_list(items).unwrap() =~= spec_files_from_list(
                items,
            ).unwrap());
        }
        while i < files_element.len()
            invariant
                0 <= i <= files_element@.len(),
                items == seq_model(files_element@),
                files@.len() == i,
                ({
                    let cont = spec_files_from_list(items.skip(i as int));
                    let whole = spec_files_from_list(items);
                    match cont {
                        Some(rest) => whole == Some(files_model(files@) + rest),
                        None => whole is None,
                    }
                }),
            decreases files_element@.len() - i,
        {
            proof {
                lemma_seq_model(files_element@);
                assert(items.skip(i as int)[0] == items[i as int]);
                assert(items.skip(i as int).skip(1) =~= items.skip(i as int + 1));
            }
            let fd = match files_element[i].convert_to_ref_dict() {
                Some(d) => d,
                None => {
                    return None;
                },
            };
            let f = match MultipleFileInfoFile::from_dict(fd) {
                Some(f) => f,
                None => {
                    return None;
                },
            };
            let ghost fv = f@;
            let ghost fpre = files@;
            files.push(f);
            i = i + 1;
            proof {
                assert(files_model(files@) =~= files_model(fpre) + seq![fv]);
                match spec_files_from_list(items.skip(i as int)) {
                    Some(rest) => {
                        assert(files_model(fpre) + (seq![fv] + rest) =~= files_model(files@)
                            + rest);
                    },
                    None => {},
                }
            }
        }
        proof {
            lemma_seq_model(files_element@);
            assert(items.skip(items.len() as int) =~= Seq::<Value>::empty());
            assert(files_model(files@) + Seq::<MultipleFileInfoFileV>::empty() =~= files_model(
                files@,
            ));
        }
        Some(MultipleFileInfo { common_file_info, name: name.to_owned(), files })
    }
}

/// The torrent's file layout: a single file or a directory of files.
#[derive(Debug, PartialEq, Eq, Clone, PartialOrd, Ord)]
pub enum FileInfo {
    SingleFile(SingleFileInfo),
    MultipleFile(MultipleFileInfo),
}

impl View for FileInfo {
    type V = FileInfoV;

    closed spec fn view(&self) -> FileInfoV {
        match self {
            FileInfo::SingleFile(s) => FileInfoV::SingleFile(s@),
            FileInfo::MultipleFile(m) => FileInfoV::MultipleFile(m@),
        }
    }
}

/// The top-level torrent metadata: the file layout, the announce URL and
/// the optional envelope fields.
#[derive(Debug, PartialEq, Eq, Clone, PartialOrd, Ord)]
pub struct MetaInfo {
    info: FileInfo,
    announce: String,
    announce_list: Option<Vec<Vec<String>>>,
    creation_date: Option<u64>,
    comment: Option<String>,
    created_by: Option<String>,
    encoding: Option<String>,
}

impl View for MetaInfo {
    type V = MetaInfoV;

    closed spec fn view(&self) -> MetaInfoV {
        MetaInfoV {
            info: self.info@,
            announce: self.announce@,
            announce_list: (match self.announce_list {
                Some(t) => Some(tiers_model(t@)),
                None => None,
            }),
            creation_date: self.creation_date,
            comment: (match self.comment {
                Some(s) => Some(s@),
                None => None,
            }),
            created_by: (match self.created_by {
                Some(s) => Some(s@),
                None => None,
            }),
            encoding: (match self.encoding {
                Some(s) => Some(s@),
                None => None,
            }),
        }
    }
}

/// The announce tiers built from a decoded list; `None` when any element is
/// not a list of UTF-8 strings.
fn build_tiers(tiers: &Vec<Element>) -> (r: Option<Vec<Vec<String>>>)
    ensures
        (match r {
            Some(t) => spec_tiers(seq_model(tiers@)) == Some(tiers_model(t@)),
            None => spec_tiers(seq_model(tiers@)) is None,
        }),
{
    let ghost items = seq_model(tiers@);
    let mut out: Vec<Vec<String>> = Vec::new();
    let mut i: usize = 0;
    proof {
        assert(items.skip(0) =~= items);
        assert(tiers_model(out@) + spec_tiers(items).unwrap() =~= spec_tiers(items).unwrap());
    }
    while i < tiers.len()
        invariant
            0 <= i <= tiers@.len(),
            items == seq_model(tiers@),
            out@.len() == i,
            ({
                let cont = spec_tiers(items.skip(i as int));
                let whole = spec_tiers(items);
                match cont {
                    Some(rest) => whole == Some(tiers_model(out@) + rest),
                    None => whole is None,
                }
            }),
        decreases tiers@.len() - i,
    {
        proof {
            lemma_seq_model(tiers@);
            assert(items.skip(i as int)[0] == items[i as int]);
            assert(items.skip(i as int).skip(1) =~= items.skip(i as int + 1));
        }
        let tier = match tiers[i].convert_to_string_list() {
            Some(t) => t,
            None => {
                return None;
            },
        };
        let ghost tv = strings_model(tier@);
        let ghost opre = out@;
        out.push(tier);
        i = i + 1;
        proof {
            assert(tiers_model(out@) =~= tiers_model(opre) + seq![tv]);
            match spec_tiers(items.skip(i as int)) {
                Some(rest) => {
                    assert(tiers_model(opre) + (seq![tv] + rest) =~= tiers_model(out@) + rest);
                },
                None => {},
            }
        }
    }
    proof {
        lemma_seq_model(tiers@);
        assert(items.skip(items.len() as int) =~= Seq::<Value>::empty());
        assert(tiers_model(out@) + Seq::<Seq<Seq<char>>>::empty() =~= tiers_model(out@));
    }
    Some(out)
}

impl MetaInfo {
    /// A record with the given layout and announce URL and every optional
    /// field absent.
    pub fn new(info: FileInfo, announce: &str) -> (r: Self)
        ensures
            r@ == (MetaInfoV {
                info: info@,
                announce: announce@,
                announce_list: None,
                creation_date: None,
                comment: None,
                created_by: None,
                encoding: None,
            }),
    {
        MetaInfo {
            info,
            announce: announce.to_owned(),
            announce_list: None,
            creation_date: None,
            comment: None,
            created_by: None,
            encoding: None,
        }
    }

    /// Build the whole record from a decoded root value.
    pub fn from_element(element: &Element) -> (r: Option<MetaInfo>)
        ensures
            (match r {
                Some(m) => spec_meta_from_value(element@) == Some(m@),
                None => spec_meta_from_value(element@) is None,
            }),
    {
        let root = if let Element::Dictionary(x) = element {
            x
        } else {
            return None;
        };
        let announce = match dict_get(root, "announce") {
            Some(e) => match e.convert_to_str() {
                Some(s) => s,
                None => {
                    return None;
                },
            },
            None => {
                return None;
            },
        };
        let info_dict = match dict_get(root, "info") {
            Some(e) => match e.convert_to_ref_dict() {
                Some(d) => d,
                None => {
                    return None;
                },
            },
            None => {
                return None;
            },
        };
        let common = match CommonFileInfo::from_dict(info_dict) {
            Some(c) => c,
            None => {
                return None;
            },
        };
        let ghost cv = common@;
        let name = match dict_get(info_dict, "name") {
            Some(e) => match e.convert_to_str() {
                Some(s) => s,
                None => {
                    return None;
                },
            },
            None => {
                return None;
            },
        };
        let info = match dict_get(info_dict, "files") {
            Some(files_e) => {
                let files = match files_e.convert_to_ref_list() {
                    Some(l) => l,
                    None => {
                        return None;
                    },
                };
                match MultipleFileInfo::new_with_common_info(common, name, files) {
                    Some(m) => FileInfo::MultipleFile(m),
                    None => {
                        return None;
                    },
                }
            },
            None => match SingleFileInfo::new_with_common_info(common, info_dict) {
                Some(s) => FileInfo::SingleFile(s),
                None => {
                    return None;
                },
            },
        };
        let announce_list = match dict_get(root, "announce-list") {
            Some(al) => {
                let tiers = match al.convert_to_ref_list() {
                    Some(t) => t,
                    None => {
                        return None;
                    },
                };
                build_tiers(tiers)
            },
            None => None,
        };
        let creation_date = match dict_get(root, "creation date") {
            Some(e) => e.convert_to_u64(),
            None => None,
        };
        let comment = match dict_get(root, "comment") {
            Some(e) => e.convert_to_string(),
            None => None,
        };
        let created_by = match dict_get(root, "created by") {
            Some(e) => e.convert_to_string(),
            None => None,
        };
        let encoding = match dict_get(root, "encoding") {
            Some(e) => e.convert_to_string(),
            None => None,
        };
        Some(
            MetaInfo {
                info,
                announce: announce.to_owned(),
                announce_list,
                creation_date,
                comment,
                created_by,
                encoding,
            },
        )
    }

    /// Metadata from raw bencoded bytes, strict mode: the whole input must
    /// be one decoded value.
    pub fn from_u8_len_check(bencode: &[u8]) -> (r: Option<MetaInfo>)
        ensures
            (match r {
                Some(m) => spec_meta_from_bytes_strict(bencode@) == Some(m@),
                None => spec_meta_from_bytes_strict(bencode@) is None,
            }),
    {
        let element = match decode_len_check(bencode) {
            Some(e) => e,
            None => {
                return None;
            },
        };
        MetaInfo::from_element(&element)
    }

    /// Metadata from raw bencoded bytes, prefix mode: trailing bytes after
    /// the first value are ignored.
    pub fn from_u8_no_len_check(bencode: &[u8]) -> (r: Option<MetaInfo>)
        ensures
            (match r {
                Some(m) => spec_meta_from_bytes_prefix(bencode@) == Some(m@),
                None => spec_meta_from_bytes_prefix(bencode@) is None,
            }),
    {
        let element = match decode_no_len_check(bencode) {
            Some(e) => e,
            None => {
                return None;
            },
        };
        MetaInfo::from_element(&element)
    }
}

/// Variant selection: a document that parses at all yields the
/// multiple-file variant exactly when its info dictionary has a `files`
/// key — even when that list is empty — and the single-file variant exactly
/// when the key is absent.
pub proof fn lemma_variant_selection(v: Value)
    requires
        spec_meta_from_value(v) is Some,
    ensures
        v is Dict,
        assoc_get(v->Dict_0, "info"@) matches Some(iv) && iv is Dict,
        ({
            let idict = assoc_get(v->Dict_0, "info"@).unwrap()->Dict_0;
            &&& (assoc_get(idict, "files"@) is Some <==> spec_meta_from_value(v).unwrap().info
                is MultipleFile)
            &&& (assoc_get(idict, "files"@) is None <==> spec_meta_from_value(v).unwrap().info
                is SingleFile)
        }),
{
}

} // verus!
