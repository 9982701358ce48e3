use cub_diff::git_binary_diff::git_base85::{decode, decode_line, decode_size, encode, Encoding};
use cub_diff::text_diff::DiffParseError;

// test over a range of data sizes
const TEST_DATA: &[u8] = b"uioyf2oyqo;3nhi8uydjauyo98ua 54\x00jhkh\x1chh;kjjh";

#[test]
fn git_base85_encode_decode_work() {
    for i in 0..10 {
        let encoding = encode(&TEST_DATA[i..]);
        let decoding = decode(&encoding).unwrap();
        assert_eq!(decoding, TEST_DATA[i..].to_vec());
    }
}

#[test]
fn encode_produces_five_symbols_per_group() {
    let encoding = encode(b"abcd");
    assert_eq!(encoding.string.len(), 5);
    assert_eq!(encoding.size, 4);
    let encoding = encode(b"abcde");
    assert_eq!(encoding.string.len(), 10);
    assert_eq!(encoding.size, 5);
    let encoding = encode(b"");
    assert_eq!(encoding.string.len(), 0);
    assert_eq!(encoding.size, 0);
}

#[test]
fn decode_rejects_illegal_symbol() {
    // ',' is not in the alphabet
    let encoding = Encoding { string: vec![b',', b'0', b'0', b'0', b'0'], size: 4 };
    match decode(&encoding) {
        Err(DiffParseError::Base85Error(_)) => {}
        _ => panic!("an illegal symbol must be refused"),
    }
}

#[test]
fn decode_rejects_accumulator_overflow() {
    // five '~' symbols denote the largest group value, above 32 bits
    let encoding = Encoding { string: vec![b'~', b'~', b'~', b'~', b'~'], size: 4 };
    match decode(&encoding) {
        Err(DiffParseError::Base85Error(_)) => {}
        _ => panic!("an overflowing accumulator must be refused"),
    }
}

#[test]
fn decode_size_maps_letter_ranges() {
    assert_eq!(decode_size(b'A').unwrap(), 0);
    assert_eq!(decode_size(b'Z').unwrap(), 25);
    assert_eq!(decode_size(b'a').unwrap(), 26);
    assert_eq!(decode_size(b'z').unwrap(), 51);
    match decode_size(b'0') {
        Err(DiffParseError::UnexpectedInput(_, _)) => {}
        _ => panic!("a digit is no size letter"),
    }
}

#[test]
fn decode_line_round_trips() {
    let data: &[u8] = b"hello world!";
    let encoding = encode(data);
    let mut line = String::new();
    // twelve decoded bytes: the size letter twelve places past 'A'
    line.push((b'A' + 12) as char);
    for b in encoding.string.iter() {
        line.push(*b as char);
    }
    line.push('\n');
    let decoded = decode_line(&line).unwrap();
    assert_eq!(decoded, data.to_vec());
}
