use bencode_torrent::decode::decode_len_check;
use bencode_torrent::element::Element;

fn helper(input: &str, expect: Option<Element>) {
    let result = decode_len_check(input.as_bytes());
    assert_eq!(result, expect);
}

#[test]
fn decode_len_check_01() {
    helper("0:", Some(Element::ByteString(Vec::<u8>::new())));
}

#[test]
fn decode_len_check_02() {
    helper(
        "5:a cde",
        Some(Element::ByteString(vec![b'a', b' ', b'c', b'd', b'e'])),
    );
}

#[test]
fn decode_len_check_03() {
    helper("5:abcdef", None);
}

#[test]
fn decode_len_check_04() {
    helper("10:abcdef", None);
}

#[test]
fn decode_len_check_05() {
    helper("i0e", Some(Element::Integer(0)));
}

#[test]
fn decode_len_check_06() {
    helper("i-0e", None);
}

#[test]
fn decode_len_check_07() {
    helper("i-10e", Some(Element::Integer(-10)));
}

#[test]
fn decode_len_check_08() {
    helper("i1234e", Some(Element::Integer(1234)));
}

#[test]
fn decode_len_check_09() {
    helper("i0123e", None);
}

#[test]
fn decode_len_check_10() {
    helper("le", Some(Element::List(Vec::<Element>::new())));
}

#[test]
fn decode_len_check_11() {
    helper(
        "li1ei2ee",
        Some(Element::List(vec![
            Element::Integer(1),
            Element::Integer(2),
        ])),
    );
}

#[test]
fn decode_len_check_12() {
    helper(
        "li1e2:ablee",
        Some(Element::List(vec![
            Element::Integer(1),
            Element::ByteString(vec![b'a', b'b']),
            Element::List(Vec::<Element>::new()),
        ])),
    );
}

#[test]
fn decode_len_check_13() {
    helper("de", Some(Element::Dictionary(Vec::new())));
}

#[test]
fn decode_len_check_14() {
    helper(
        "d1:a1:be",
        Some(Element::Dictionary(vec![(
            "a".to_string(),
            Element::ByteString(vec![b'b']),
        )])),
    );
}

#[test]
fn decode_len_check_15() {
    helper(
        "d1:a1:b1:bde1:cli1234e2:abee",
        Some(Element::Dictionary(vec![
            ("a".to_string(), Element::ByteString(vec![b'b'])),
            ("b".to_string(), Element::Dictionary(Vec::new())),
            (
                "c".to_string(),
                Element::List(vec![
                    Element::Integer(1234),
                    Element::ByteString(vec![b'a', b'b']),
                ]),
            ),
        ])),
    );
}
