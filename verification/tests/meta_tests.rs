use bencode_torrent::decode::{
    decode_len_check, decode_len_check_after_whitespace_strip, decode_no_len_check,
    decode_no_len_check_after_whitespace_strip,
};
use bencode_torrent::element::Element;
use bencode_torrent::meta_info::{
    CommonFileInfo, FileInfo, MetaInfo, MultipleFileInfo, MultipleFileInfoFile, SingleFileInfo,
};
use bencode_torrent::utils::erase_whitespaces;

const PIECES20: &str = "AAAAAAAAAAAAAAAAAAAA";

fn common(is_private: bool) -> CommonFileInfo {
    CommonFileInfo::new(16384, &vec![b'A'; 20], is_private).unwrap()
}

fn single_info_entries() -> Vec<(String, Element)> {
    vec![
        ("length".to_string(), Element::Integer(5)),
        ("name".to_string(), Element::ByteString(b"file".to_vec())),
        ("piece length".to_string(), Element::Integer(16384)),
        (
            "pieces".to_string(),
            Element::ByteString(vec![b'A'; 20]),
        ),
    ]
}

fn single_doc() -> String {
    format!(
        "d8:announce3:url4:infod6:lengthi5e4:name4:file12:piece lengthi16384e6:pieces20:{}ee",
        PIECES20
    )
}

fn expected_single() -> MetaInfo {
    let single =
        SingleFileInfo::new_with_common_info(common(false), &single_info_entries()).unwrap();
    MetaInfo::new(FileInfo::SingleFile(single), "url")
}

#[test]
fn integer_round_trip_boundaries() {
    assert_eq!(
        decode_len_check(format!("i{}e", i64::MAX).as_bytes()),
        Some(Element::Integer(i64::MAX))
    );
    assert_eq!(
        decode_len_check(format!("i{}e", i64::MIN).as_bytes()),
        Some(Element::Integer(i64::MIN))
    );
    assert_eq!(decode_len_check(b"i0e"), Some(Element::Integer(0)));
}

#[test]
fn decoding_is_idempotent() {
    let doc = single_doc();
    let first = decode_len_check(doc.as_bytes());
    let second = decode_len_check(doc.as_bytes());
    assert!(first.is_some());
    assert_eq!(first, second);
    let parsed_first = MetaInfo::from_u8_len_check(doc.as_bytes());
    let parsed_second = MetaInfo::from_u8_len_check(doc.as_bytes());
    assert!(parsed_first.is_some());
    assert_eq!(parsed_first, parsed_second);
}

#[test]
fn prefix_mode_ignores_trailing_bytes() {
    assert_eq!(decode_len_check(b"i1ei2e"), None);
    assert_eq!(decode_no_len_check(b"i1ei2e"), Some(Element::Integer(1)));
}

#[test]
fn whitespace_strip_entry_points() {
    assert_eq!(
        decode_len_check_after_whitespace_strip(b"l i1e 2:ab e"),
        Some(Element::List(vec![
            Element::Integer(1),
            Element::ByteString(b"ab".to_vec()),
        ]))
    );
    // stripping happens before parsing, so a payload with a space shrinks
    // and no longer matches its declared length
    assert_eq!(decode_len_check_after_whitespace_strip(b"3:a b"), None);
    assert_eq!(
        decode_no_len_check_after_whitespace_strip(b" i1e i2e"),
        Some(Element::Integer(1))
    );
}

#[test]
fn whitespace_strip_then_decode() {
    let stripped = erase_whitespaces(b"l i1e 2:ab e");
    assert_eq!(
        decode_len_check(&stripped),
        Some(Element::List(vec![
            Element::Integer(1),
            Element::ByteString(b"ab".to_vec()),
        ]))
    );
}

#[test]
fn dangling_list_or_dictionary_fails_cleanly() {
    assert_eq!(decode_len_check(b"li1e"), None);
    assert_eq!(decode_len_check(b"l"), None);
    assert_eq!(decode_no_len_check(b"d1:ai1e"), None);
    assert_eq!(decode_len_check(b"e"), None);
}

#[test]
fn dictionary_rejects_non_utf8_key() {
    // d 1:<0xff> 1:a e  -- the key is not valid UTF-8
    let doc = vec![b'd', b'1', b':', 0xff, b'1', b':', b'a', b'e'];
    assert_eq!(decode_len_check(&doc), None);
}

#[test]
fn dictionary_accepts_multibyte_utf8_key() {
    // d 2:<0xc3 0xa9> 1:a e  -- the key is a two-byte UTF-8 character
    let doc = vec![b'd', b'2', b':', 0xc3, 0xa9, b'1', b':', b'a', b'e'];
    let key = String::from_utf8(vec![0xc3, 0xa9]).unwrap();
    assert_eq!(
        decode_len_check(&doc),
        Some(Element::Dictionary(vec![(
            key,
            Element::ByteString(b"a".to_vec())
        )]))
    );
}

#[test]
fn byte_string_payload_may_hold_any_bytes() {
    let doc = vec![b'3', b':', 0xff, 0x00, 0x80];
    assert_eq!(
        decode_len_check(&doc),
        Some(Element::ByteString(vec![0xff, 0x00, 0x80]))
    );
}

#[test]
fn duplicate_dictionary_key_last_wins() {
    assert_eq!(
        decode_len_check(b"d1:ai1e1:ai2ee"),
        Some(Element::Dictionary(vec![(
            "a".to_string(),
            Element::Integer(2)
        )]))
    );
}

#[test]
fn common_file_info_pieces_must_be_multiple_of_20() {
    assert!(CommonFileInfo::new(16384, &vec![b'A'; 21], false).is_none());
    assert!(CommonFileInfo::new(16384, &vec![b'A'; 0], false).is_some());
    assert!(CommonFileInfo::new(16384, &vec![b'A'; 40], false).is_some());
}

#[test]
fn common_file_info_from_dict_matches_new() {
    let built = CommonFileInfo::from_dict(&single_info_entries()).unwrap();
    assert_eq!(built, common(false));
    let elem = Element::Dictionary(single_info_entries());
    assert_eq!(CommonFileInfo::from_element(&elem), Some(common(false)));
    assert_eq!(CommonFileInfo::from_element(&Element::Integer(1)), None);
}

#[test]
fn common_file_info_private_flag() {
    let mut entries = single_info_entries();
    entries.push(("private".to_string(), Element::Integer(1)));
    assert_eq!(CommonFileInfo::from_dict(&entries), Some(common(true)));
    let mut entries2 = single_info_entries();
    entries2.push(("private".to_string(), Element::Integer(0)));
    assert_eq!(CommonFileInfo::from_dict(&entries2), Some(common(false)));
    let mut entries3 = single_info_entries();
    entries3.push(("private".to_string(), Element::ByteString(b"1".to_vec())));
    assert_eq!(CommonFileInfo::from_dict(&entries3), Some(common(false)));
}

#[test]
fn multiple_file_info_file_from_dict_matches_new() {
    let entries = vec![
        ("length".to_string(), Element::Integer(3)),
        (
            "path".to_string(),
            Element::List(vec![
                Element::ByteString(b"a".to_vec()),
                Element::ByteString(b"b".to_vec()),
            ]),
        ),
    ];
    let expected =
        MultipleFileInfoFile::new(3, vec!["a".to_string(), "b".to_string()], None);
    assert_eq!(MultipleFileInfoFile::from_dict(&entries), Some(expected));

    let mut with_md5 = entries.clone();
    with_md5.push(("md5sum".to_string(), Element::ByteString(b"abc".to_vec())));
    let expected_md5 =
        MultipleFileInfoFile::new(3, vec!["a".to_string(), "b".to_string()], Some("abc"));
    assert_eq!(
        MultipleFileInfoFile::from_element(&Element::Dictionary(with_md5)),
        Some(expected_md5)
    );

    let missing_path = vec![("length".to_string(), Element::Integer(3))];
    assert_eq!(MultipleFileInfoFile::from_dict(&missing_path), None);
}

#[test]
fn parse_single_file_torrent() {
    assert_eq!(
        MetaInfo::from_u8_len_check(single_doc().as_bytes()),
        Some(expected_single())
    );
}

#[test]
fn parse_multiple_file_torrent() {
    let doc = format!(
        "d8:announce3:url4:infod5:filesld6:lengthi3e4:pathl1:a1:beee4:name3:dir12:piece lengthi16384e6:pieces20:{}ee",
        PIECES20
    );
    let files_elems = vec![Element::Dictionary(vec![
        ("length".to_string(), Element::Integer(3)),
        (
            "path".to_string(),
            Element::List(vec![
                Element::ByteString(b"a".to_vec()),
                Element::ByteString(b"b".to_vec()),
            ]),
        ),
    ])];
    let multi =
        MultipleFileInfo::new_with_common_info(common(false), "dir", &files_elems).unwrap();
    let expected = MetaInfo::new(FileInfo::MultipleFile(multi), "url");
    assert_eq!(MetaInfo::from_u8_len_check(doc.as_bytes()), Some(expected));
}

#[test]
fn empty_files_list_still_selects_multiple_file_variant() {
    let doc = format!(
        "d8:announce3:url4:infod5:filesle4:name3:dir12:piece lengthi16384e6:pieces20:{}ee",
        PIECES20
    );
    let multi =
        MultipleFileInfo::new_with_common_info(common(false), "dir", &Vec::new()).unwrap();
    let expected = MetaInfo::new(FileInfo::MultipleFile(multi), "url");
    assert_eq!(MetaInfo::from_u8_len_check(doc.as_bytes()), Some(expected));
}

#[test]
fn single_file_variant_requires_length() {
    let doc = format!(
        "d8:announce3:url4:infod4:name4:file12:piece lengthi16384e6:pieces20:{}ee",
        PIECES20
    );
    assert_eq!(MetaInfo::from_u8_len_check(doc.as_bytes()), None);
}

#[test]
fn bad_piece_hash_length_fails_whole_parse() {
    let doc = format!(
        "d8:announce3:url4:infod6:lengthi5e4:name4:file12:piece lengthi16384e6:pieces21:{}Aee",
        PIECES20
    );
    assert_eq!(MetaInfo::from_u8_len_check(doc.as_bytes()), None);
}

#[test]
fn missing_announce_fails_whole_parse() {
    let doc = format!(
        "d4:infod6:lengthi5e4:name4:file12:piece lengthi16384e6:pieces20:{}ee",
        PIECES20
    );
    assert_eq!(MetaInfo::from_u8_len_check(doc.as_bytes()), None);
}

#[test]
fn announce_list_is_kept_when_well_formed() {
    let doc = format!(
        "d8:announce3:url13:announce-listll4:url1el4:url2ee4:infod6:lengthi5e4:name4:file12:piece lengthi16384e6:pieces20:{}ee",
        PIECES20
    );
    let parsed = MetaInfo::from_u8_len_check(doc.as_bytes());
    assert!(parsed.is_some());
    // the field is captured: the record differs from one parsed without it
    assert_ne!(parsed, Some(expected_single()));
}

#[test]
fn announce_list_with_bad_entry_only_drops_the_field() {
    let doc = format!(
        "d8:announce3:url13:announce-listli1ee4:infod6:lengthi5e4:name4:file12:piece lengthi16384e6:pieces20:{}ee",
        PIECES20
    );
    // one tier is an integer, not a list of strings: the optional field is
    // dropped, the document still parses
    assert_eq!(MetaInfo::from_u8_len_check(doc.as_bytes()), Some(expected_single()));
}

#[test]
fn announce_list_that_is_no_list_fails_whole_parse() {
    let doc = format!(
        "d8:announce3:url13:announce-listi1e4:infod6:lengthi5e4:name4:file12:piece lengthi16384e6:pieces20:{}ee",
        PIECES20
    );
    assert_eq!(MetaInfo::from_u8_len_check(doc.as_bytes()), None);
}

#[test]
fn optional_comment_is_kept() {
    let doc = format!(
        "d8:announce3:url7:comment5:hello4:infod6:lengthi5e4:name4:file12:piece lengthi16384e6:pieces20:{}ee",
        PIECES20
    );
    let parsed = MetaInfo::from_u8_len_check(doc.as_bytes());
    assert!(parsed.is_some());
    assert_ne!(parsed, Some(expected_single()));
}

#[test]
fn meta_info_from_u8_modes_differ_on_trailing_bytes() {
    let doc = format!("{}i1e", single_doc());
    assert_eq!(MetaInfo::from_u8_len_check(doc.as_bytes()), None);
    assert_eq!(
        MetaInfo::from_u8_no_len_check(doc.as_bytes()),
        Some(expected_single())
    );
}

#[test]
fn element_accessors_project_by_shape() {
    let e = Element::ByteString(b"hi".to_vec());
    assert_eq!(e.convert_to_str(), Some("hi"));
    assert_eq!(e.convert_to_string(), Some("hi".to_string()));
    assert_eq!(e.convert_to_ref_vec_u8(), Some(&b"hi".to_vec()));
    assert_eq!(e.convert_to_i64(), None);
    let bad = Element::ByteString(vec![0xff]);
    assert_eq!(bad.convert_to_str(), None);
    let n = Element::Integer(-1);
    assert_eq!(n.convert_to_i64(), Some(-1));
    assert_eq!(n.convert_to_u64(), Some(u64::MAX));
    let l = Element::List(vec![
        Element::ByteString(b"a".to_vec()),
        Element::ByteString(b"b".to_vec()),
    ]);
    assert_eq!(
        l.convert_to_string_list(),
        Some(vec!["a".to_string(), "b".to_string()])
    );
    assert_eq!(
        Element::List(vec![Element::Integer(1)]).convert_to_string_list(),
        None
    );
    assert_eq!(l.convert_to_list(), Some(vec![
        Element::ByteString(b"a".to_vec()),
        Element::ByteString(b"b".to_vec()),
    ]));
    let d = Element::Dictionary(vec![("k".to_string(), Element::Integer(7))]);
    assert_eq!(
        d.convert_to_dict(),
        Some(vec![("k".to_string(), Element::Integer(7))])
    );
    assert_eq!(d.convert_to_ref_list(), None);
}
