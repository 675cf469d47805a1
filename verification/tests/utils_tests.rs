use bencode_torrent::utils::{decode_i64, decode_u64, erase_whitespaces};

fn erase_helper(input: &str, expect: &str) {
    let result = erase_whitespaces(input.as_bytes());
    assert_eq!(result, expect.as_bytes());
}

#[test]
fn erase_whitespaces_01() {
    erase_helper("a b c   t", "abct");
}

#[test]
fn erase_whitespaces_02() {
    erase_helper("a \r b \n c", "abc");
}

fn u64_helper(input: &str, expect: Option<u64>, expected_len: usize) {
    let mut len: usize = 0;
    let result = decode_u64(input.as_bytes(), &mut len);
    assert_eq!(result, expect);
    assert_eq!(len, expected_len);
}

#[test]
fn decode_u64_01() {
    let s = "1234";
    u64_helper(s, Some(1234), s.len());
}

#[test]
fn decode_u64_02() {
    let s = "0";
    u64_helper(s, Some(0), s.len());
}

#[test]
fn decode_u64_03() {
    let s = "";
    u64_helper(s, None, s.len());
}

#[test]
fn decode_u64_04() {
    let s = "-1";
    u64_helper(s, None, 0);
}

#[test]
fn decode_u64_05() {
    let ss = u64::MAX.to_string();
    let s = ss.as_str();
    u64_helper(s, Some(u64::MAX), s.len());
}

#[test]
fn decode_u64_06() {
    let ss = (u64::MAX as u128 + 1).to_string();
    let s = ss.as_str();
    u64_helper(s, None, s.len());
}

#[test]
fn decode_u64_07() {
    let s = "1234+1234";
    u64_helper(s, Some(1234), 4);
}

#[test]
fn decode_u64_08() {
    let s = "01";
    u64_helper(s, Some(0), 1);
}

#[test]
fn decode_u64_09() {
    let s = "000abcd";
    u64_helper(s, Some(0), 1);
}

#[test]
fn decode_u64_10() {
    let s = "0abcd";
    u64_helper(s, Some(0), 1);
}

fn i64_helper(input: &str, expect: Option<i64>, expected_len: usize) {
    let mut len: usize = 0;
    let result = decode_i64(input.as_bytes(), &mut len);
    assert_eq!(result, expect);
    assert_eq!(len, expected_len);
}

#[test]
fn decode_i64_01() {
    let s = "1234";
    i64_helper(s, Some(1234), s.len());
}

#[test]
fn decode_i64_02() {
    let s = "0";
    i64_helper(s, Some(0), s.len());
}

#[test]
fn decode_i64_03() {
    let s = "";
    i64_helper(s, None, s.len());
}

#[test]
fn decode_i64_05() {
    let s = "-1234";
    i64_helper(s, Some(-1234), s.len());
}

#[test]
fn decode_i64_06() {
    let s = "1234-56";
    i64_helper(s, Some(1234), 4);
}

#[test]
fn decode_i64_07() {
    let s = "+1234";
    i64_helper(s, None, 0); // +<integer> is not allowed.
}

#[test]
fn decode_i64_08() {
    let ss = i64::MAX.to_string();
    let s = ss.as_str();
    i64_helper(s, Some(i64::MAX), s.len());
}

#[test]
fn decode_i64_09() {
    let ss = (i64::MAX as u64 + 1).to_string();
    let s = ss.as_str();
    i64_helper(s, None, s.len());
}

#[test]
fn decode_i64_10() {
    let ss = i64::MIN.to_string();
    let s = ss.as_str();
    i64_helper(s, Some(i64::MIN), s.len());
}

#[test]
fn decode_i64_11() {
    let ss = (i64::MIN as i128 - 1).to_string();
    let s = ss.as_str();
    i64_helper(s, None, s.len());
}

#[test]
fn decode_i64_12() {
    let s = "-1234+1234";
    i64_helper(s, Some(-1234), 5);
}

#[test]
fn decode_i64_13() {
    let s = "-0";
    i64_helper(s, None, 2);
}

#[test]
fn decode_i64_14() {
    let s = "-+";
    i64_helper(s, None, 1);
}

#[test]
fn decode_i64_15() {
    let s = "--+1234";
    i64_helper(s, None, 1);
}

#[test]
fn decode_i64_lone_minus() {
    let s = "-";
    i64_helper(s, None, 1);
}
