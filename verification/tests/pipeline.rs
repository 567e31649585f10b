//! End-to-end behaviour of the block-cipher pipeline on concrete values.

use blockcrypt::cipher::{decrypt, encrypt};
use blockcrypt::hexcode::{decode_hex, encode_hex, DecodeError};
use blockcrypt::mode::Mode;
use blockcrypt::segment::get_blocks;

fn test_key() -> Vec<u8> {
    b"01234567890123456789012345678901".to_vec()
}

#[test]
fn segment_empty_input_yields_zero_blocks() {
    let blocks = get_blocks(&[], 16);
    assert_eq!(blocks.len(), 0);
}

#[test]
fn segment_short_input_pads_single_block() {
    let blocks = get_blocks(b"HELLO", 16);
    assert_eq!(blocks.len(), 1);
    let mut expected = b"HELLO".to_vec();
    expected.resize(16, 0u8);
    assert_eq!(blocks[0], expected);
}

#[test]
fn segment_exact_multiple_adds_no_trailing_block() {
    let data: Vec<u8> = (0u8..32u8).collect();
    let blocks = get_blocks(&data, 16);
    assert_eq!(blocks.len(), 2);
    assert_eq!(blocks[0], data[..16].to_vec());
    assert_eq!(blocks[1], data[16..].to_vec());
}

#[test]
fn segment_count_is_ceiling_and_concat_restores_input() {
    let data: Vec<u8> = vec![1, 2, 3, 4, 5, 6, 7];
    let blocks = get_blocks(&data, 3);
    assert_eq!(blocks.len(), 3);
    let concat: Vec<u8> = blocks.concat();
    assert_eq!(concat, vec![1, 2, 3, 4, 5, 6, 7, 0, 0]);
}

#[test]
fn hex_encode_known_value() {
    let text = encode_hex(&[1, 2, 3, 15, 16]);
    assert_eq!(text, b"0102030f10".to_vec());
}

#[test]
fn hex_round_trip_on_all_byte_values() {
    let data: Vec<u8> = (0u8..=255u8).collect();
    let text = encode_hex(&data);
    assert_eq!(text.len(), 2 * data.len());
    assert!(text.iter().all(|c| c.is_ascii_hexdigit() && !c.is_ascii_uppercase()));
    let back = decode_hex(&text).unwrap();
    assert_eq!(back, data);
}

#[test]
fn hex_decode_accepts_uppercase() {
    assert_eq!(decode_hex(b"AbCdEf").unwrap(), vec![0xab, 0xcd, 0xef]);
}

#[test]
fn hex_decode_odd_length_is_refused() {
    assert_eq!(decode_hex(b"abc"), Err(DecodeError::OddLength));
}

#[test]
fn hex_decode_reports_first_bad_character() {
    assert_eq!(
        decode_hex(b"zz"),
        Err(DecodeError::InvalidHexCharacter { c: b'z', index: 0 })
    );
    assert_eq!(
        decode_hex(b"0g12"),
        Err(DecodeError::InvalidHexCharacter { c: b'g', index: 1 })
    );
}

#[test]
fn encrypt_hello_gives_32_lowercase_hex_chars() {
    let text = encrypt(b"HELLO", &test_key());
    assert_eq!(text.len(), 32);
    assert!(text.iter().all(|c| c.is_ascii_hexdigit() && !c.is_ascii_uppercase()));
}

#[test]
fn decrypt_restores_hello_with_eleven_zero_bytes() {
    let text = encrypt(b"HELLO", &test_key());
    let plain = decrypt(&text, &test_key()).unwrap();
    let mut expected = b"HELLO".to_vec();
    expected.resize(16, 0u8);
    assert_eq!(plain, expected);
}

#[test]
fn round_trip_is_exact_on_block_multiples() {
    let data: Vec<u8> = (0u8..48u8).collect();
    let text = encrypt(&data, &test_key());
    let plain = decrypt(&text, &test_key()).unwrap();
    assert_eq!(plain, data);
}

#[test]
fn empty_input_gives_empty_output_both_ways() {
    let text = encrypt(&[], &test_key());
    assert_eq!(text.len(), 0);
    let plain = decrypt(&[], &test_key()).unwrap();
    assert_eq!(plain.len(), 0);
}

#[test]
fn equal_plaintext_blocks_leak_as_equal_ciphertext_blocks() {
    let mut data = Vec::new();
    data.extend_from_slice(b"same sixteen byt");
    data.extend_from_slice(b"same sixteen byt");
    let text = encrypt(&data, &test_key());
    assert_eq!(text.len(), 64);
    assert_eq!(text[..32], text[32..]);
}

#[test]
fn different_keys_give_different_ciphertext() {
    let data = b"a fixed plaintext block!".to_vec();
    let text1 = encrypt(&data, &test_key());
    let text2 = encrypt(&data, b"10234567890123456789012345678901");
    assert_ne!(text1, text2);
}

#[test]
fn aes256_known_answer() {
    // The AES-256 example vector from the FIPS 197 appendix.
    let key: Vec<u8> = (0u8..32u8).collect();
    let data: Vec<u8> = vec![
        0x00, 0x11, 0x22, 0x33, 0x44, 0x55, 0x66, 0x77, 0x88, 0x99, 0xaa, 0xbb, 0xcc, 0xdd,
        0xee, 0xff,
    ];
    let text = encrypt(&data, &key);
    assert_eq!(text, b"8ea2b7ca516745bfeafc49904b496089".to_vec());
}

#[test]
fn mode_parses_either_case() {
    assert_eq!(Mode::from_str(b"encrypt"), Some(Mode::Encrypt));
    assert_eq!(Mode::from_str(b"ENCRYPT"), Some(Mode::Encrypt));
    assert_eq!(Mode::from_str(b"DeCrYpT"), Some(Mode::Decrypt));
    assert_eq!(Mode::from_str(b"decrypt"), Some(Mode::Decrypt));
}

#[test]
fn mode_refuses_other_words() {
    assert_eq!(Mode::from_str(b""), None);
    assert_eq!(Mode::from_str(b"garbage"), None);
    assert_eq!(Mode::from_str(b"encrypted"), None);
    assert_eq!(Mode::from_str(b"encryp"), None);
}
