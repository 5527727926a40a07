use simd_exercise::decode_base64::alphabet::sextet;
use simd_exercise::decode_base64::decode_base64_reference;
use simd_exercise::decode_base64::decode_base64_reference::DecodeError;
use simd_exercise::decode_base64::groups::strip_padding;

fn decode(text: &str) -> Result<Vec<u8>, DecodeError> {
    let mut out = Vec::new();
    decode_base64_reference(text.as_bytes(), &mut out).map(|()| out)
}

#[test]
fn test_decode_base64_reference() {
    // "aaaa" -> 26 26 26 26 -> 011010 011010 011010 011010-> 01101001 10100110 10011010 -> 105 166 154
    let data = "aaaa";

    let mut out = Vec::new();
    decode_base64_reference(data.as_bytes(), &mut out).unwrap();

    let expected = vec![105, 166, 154];
    assert_eq!(out, expected);
}

#[test]
fn reference_decodes_one_symbol_to_one_byte() {
    assert_eq!(decode("a"), Ok(vec![104]));
}

#[test]
fn reference_decodes_two_symbols_to_one_byte() {
    // 'T' = 19, 'Q' = 16: 010011 010000 -> 01001101 -> 'M'
    assert_eq!(decode("TQ"), Ok(vec![77]));
}

#[test]
fn reference_decodes_three_symbols_to_two_bytes() {
    assert_eq!(decode("AaA"), Ok(vec![1, 160]));
    assert_eq!(decode("TWE"), Ok(vec![77, 97]));
}

#[test]
fn reference_decodes_four_symbols_to_three_bytes() {
    assert_eq!(decode("TWFu"), Ok(vec![77, 97, 110]));
}

#[test]
fn reference_decodes_several_groups_in_order() {
    assert_eq!(decode("TWFuTWE"), Ok(vec![77, 97, 110, 77, 97]));
    assert_eq!(decode("aGVsbG8gd29ybGQ="), Ok(b"hello world".to_vec()));
}

#[test]
fn reference_accepts_empty_input() {
    assert_eq!(decode(""), Ok(vec![]));
}

#[test]
fn reference_text_of_padding_only_is_empty() {
    assert_eq!(decode("="), Ok(vec![]));
    assert_eq!(decode("=="), Ok(vec![]));
}

#[test]
fn reference_strips_one_or_two_padding_characters() {
    assert_eq!(decode("TWE="), Ok(vec![77, 97]));
    assert_eq!(decode("TQ=="), Ok(vec![77]));
}

#[test]
fn reference_strips_at_most_two_padding_characters() {
    // The third `=` from the end is not padding: it is an invalid byte.
    assert_eq!(decode("TQ==="), Err(DecodeError::InvalidByte(b'=')));
}

#[test]
fn reference_takes_padding_that_does_not_fit_the_length() {
    assert_eq!(decode("TWFu="), Ok(vec![77, 97, 110]));
    assert_eq!(decode("a="), Ok(vec![104]));
    assert_eq!(decode("TWFuT=="), Ok(vec![77, 97, 110, 76]));
}

#[test]
fn reference_rejects_padding_inside_the_text() {
    assert_eq!(decode("TQ=a"), Err(DecodeError::InvalidByte(b'=')));
}

#[test]
fn reference_accepts_the_last_symbol_of_each_range() {
    // 'Z' = 25, 'z' = 51, '9' = 61, '/' = 63
    // 011001 110011 111101 111111 -> 01100111 00111111 01111111
    assert_eq!(decode("Zz9/"), Ok(vec![103, 63, 127]));
    // '+' = 62, 'A' = 0, '0' = 52, 'a' = 26
    // 111110 000000 110100 011010 -> 11111000 00001101 00011010
    assert_eq!(decode("+A0a"), Ok(vec![248, 13, 26]));
}

#[test]
fn reference_names_the_offending_byte() {
    assert_eq!(decode("!"), Err(DecodeError::InvalidByte(b'!')));
    assert_eq!(decode("aa!a"), Err(DecodeError::InvalidByte(b'!')));
    assert_eq!(decode("aaaaaaa\n"), Err(DecodeError::InvalidByte(b'\n')));
    assert_eq!(decode("aaaa\u{e9}"), Err(DecodeError::InvalidByte(0xc3)));
}

#[test]
fn reference_names_the_first_of_several_offending_bytes() {
    assert_eq!(decode("a?b!"), Err(DecodeError::InvalidByte(b'?')));
    assert_eq!(decode("aaaa[aa{"), Err(DecodeError::InvalidByte(b'[')));
}

#[test]
fn reference_rejects_the_neighbours_of_each_range() {
    for b in [b'@', b'[', b'`', b'{', b'.', b':', b'*', b',', b'-', 0u8, 0x7f, 0x80, 0xff] {
        let mut out = Vec::new();
        let res = decode_base64_reference(&[b'a', b], &mut out);
        assert_eq!(res, Err(DecodeError::InvalidByte(b)));
        assert!(out.is_empty());
    }
}

#[test]
fn reference_keeps_earlier_groups_on_failure() {
    let mut out = vec![9, 9];
    let res = decode_base64_reference("aaaaTWFuTW!u".as_bytes(), &mut out);
    assert_eq!(res, Err(DecodeError::InvalidByte(b'!')));
    assert_eq!(out, vec![9, 9, 105, 166, 154, 77, 97, 110]);
}

#[test]
fn reference_appends_after_what_the_buffer_holds() {
    let mut out = vec![1, 2, 3];
    decode_base64_reference("TWFu".as_bytes(), &mut out).unwrap();
    decode_base64_reference("TQ==".as_bytes(), &mut out).unwrap();
    assert_eq!(out, vec![1, 2, 3, 77, 97, 110, 77]);
}

#[test]
fn reference_gives_the_same_answer_twice() {
    for text in ["", "a", "TWFuTWE=", "jhgsdf6234hsdf", "aaaa!aaa"] {
        assert_eq!(decode(text), decode(text));
    }
}

#[test]
fn sextets_cover_zero_to_sixty_three_once_each() {
    let mut seen = [0u32; 64];
    let mut symbols = 0;
    for b in 0..=255u8 {
        if let Some(v) = sextet(b) {
            assert!(v < 64);
            seen[v as usize] += 1;
            symbols += 1;
        }
    }
    assert_eq!(symbols, 64);
    assert!(seen.iter().all(|&n| n == 1));
}

#[test]
fn sextets_follow_the_alphabet_order() {
    let alphabet = "ABCDEFGHIJKLMNOPQRSTUVWXYZabcdefghijklmnopqrstuvwxyz0123456789+/";
    for (value, symbol) in alphabet.bytes().enumerate() {
        assert_eq!(sextet(symbol), Some(value as u8));
    }
    assert_eq!(sextet(b'='), None);
    assert_eq!(sextet(b'-'), None);
    assert_eq!(sextet(b'_'), None);
}

#[test]
fn strip_padding_drops_at_most_two_trailing_pads() {
    assert_eq!(strip_padding(b""), b"");
    assert_eq!(strip_padding(b"="), b"");
    assert_eq!(strip_padding(b"=="), b"");
    assert_eq!(strip_padding(b"==="), b"=");
    assert_eq!(strip_padding(b"ab"), b"ab");
    assert_eq!(strip_padding(b"ab="), b"ab");
    assert_eq!(strip_padding(b"ab=="), b"ab");
    assert_eq!(strip_padding(b"a=b="), b"a=b");
    assert_eq!(strip_padding(b"=ab"), b"=ab");
}
