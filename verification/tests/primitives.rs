use tencent_mars_xlog_util::hex::{decode_hex, encode_hex, HexError};
use tencent_mars_xlog_util::integer::{read_integer, ReadInteger};
use tencent_mars_xlog_util::magic::{key_len, treatment, Treatment};
use tencent_mars_xlog_util::tea::{decrypt_payload, tea_decrypt, tea_encrypt, tea_key};
use tencent_mars_xlog_util::text::{
    push_decimal, push_decimal_usize, push_resync_line, push_seq_gap_line,
    push_unknown_magic_line, push_wrong_script_line,
};

#[test]
fn read_integer_reads_little_endian_from_the_head() {
    let data = [0x78u8, 0x56, 0x34, 0x12, 0xff, 0xee];
    assert_eq!(read_integer::<u32>(&data), 0x1234_5678);
    assert_eq!(read_integer::<u16>(&data), 0x5678);
    assert_eq!(read_integer::<u8>(&data), 0x78);
    assert_eq!(read_integer::<i32>(&data), 0x1234_5678);
}

#[test]
fn read_integer_reads_signed_values() {
    assert_eq!(read_integer::<i16>(&[0xff, 0xff]), -1);
    assert_eq!(read_integer::<i16>(&[0x00, 0x80]), i16::MIN);
    assert_eq!(read_integer::<i16>(&[0xff, 0x7f]), i16::MAX);
    assert_eq!(read_integer::<i32>(&[0xfe, 0xff, 0xff, 0xff]), -2);
    assert_eq!(
        read_integer::<i64>(&[0xfd, 0xff, 0xff, 0xff, 0xff, 0xff, 0xff, 0xff]),
        -3
    );
    assert_eq!(
        read_integer::<i64>(&[0x08, 0x07, 0x06, 0x05, 0x04, 0x03, 0x02, 0x01]),
        0x0102_0304_0506_0708
    );
}

#[test]
fn from_be_bytes_reads_most_significant_byte_first() {
    assert_eq!(<u16 as ReadInteger<u16>>::from_be_bytes(&[0x12, 0x34]), 0x1234);
    assert_eq!(
        <u32 as ReadInteger<u32>>::from_be_bytes(&[0x12, 0x34, 0x56, 0x78]),
        0x1234_5678
    );
    assert_eq!(<i16 as ReadInteger<i16>>::from_be_bytes(&[0xff, 0xfe]), -2);
    assert_eq!(
        <i32 as ReadInteger<i32>>::from_be_bytes(&[0x80, 0x00, 0x00, 0x00]),
        i32::MIN
    );
    assert_eq!(
        <i64 as ReadInteger<i64>>::from_be_bytes(&[0x01, 0x02, 0x03, 0x04, 0x05, 0x06, 0x07, 0x08]),
        0x0102_0304_0506_0708
    );
    assert_eq!(<u8 as ReadInteger<u8>>::from_be_bytes(&[0x9c]), 0x9c);
}

#[test]
fn from_le_bytes_agrees_with_std() {
    let data = [0x01u8, 0x02, 0x03, 0x84, 0x05, 0x06, 0x07, 0x88];
    assert_eq!(
        <u32 as ReadInteger<u32>>::from_le_bytes(&data[..4]),
        u32::from_le_bytes([0x01, 0x02, 0x03, 0x84])
    );
    assert_eq!(
        <i32 as ReadInteger<i32>>::from_le_bytes(&data[..4]),
        i32::from_le_bytes([0x01, 0x02, 0x03, 0x84])
    );
    assert_eq!(<i64 as ReadInteger<i64>>::from_le_bytes(&data), i64::from_le_bytes(data));
    assert_eq!(<i64 as ReadInteger<i64>>::from_be_bytes(&data), i64::from_be_bytes(data));
    assert_eq!(<u16 as ReadInteger<u16>>::width(), 2);
    assert_eq!(<i64 as ReadInteger<i64>>::width(), 8);
}

#[test]
fn decode_hex_decodes_pairs_of_digits() {
    assert_eq!(decode_hex("00ff10"), Ok(vec![0x00, 0xff, 0x10]));
    assert_eq!(decode_hex("AbCd"), Ok(vec![0xab, 0xcd]));
    assert_eq!(decode_hex(""), Ok(vec![]));
}

#[test]
fn decode_hex_takes_a_plus_sign_before_one_digit() {
    assert_eq!(decode_hex("+f"), Ok(vec![0x0f]));
    assert_eq!(decode_hex("f+"), Err(HexError::InvalidDigit));
    assert_eq!(decode_hex("++"), Err(HexError::InvalidDigit));
}

#[test]
fn decode_hex_rejects_what_is_no_hex() {
    assert_eq!(decode_hex("abc"), Err(HexError::OddLength));
    assert_eq!(decode_hex("zz"), Err(HexError::InvalidDigit));
    assert_eq!(decode_hex("0g"), Err(HexError::InvalidDigit));
    assert_eq!(decode_hex("-1"), Err(HexError::InvalidDigit));
    assert_eq!(decode_hex("\u{e9}"), Err(HexError::InvalidDigit));
}

#[test]
fn encode_hex_writes_two_lower_case_digits_per_byte() {
    assert_eq!(encode_hex(&[0x00, 0xff, 0x10, 0xab]), "00ff10ab");
    assert_eq!(encode_hex(&[]), "");
}

#[test]
fn hex_round_trip() {
    let bytes: Vec<u8> = (0..=255u8).collect();
    assert_eq!(decode_hex(&encode_hex(&bytes)), Ok(bytes));
}

#[test]
fn tea_decrypt_known_answers() {
    let mut key = [0x0123_4567u32, 0x89ab_cdef, 0xfedc_ba98, 0x7654_3210];
    let mut block = [0xdead_beefu32, 0x0bad_f00d];
    tea_decrypt(&mut block, &mut key);
    assert_eq!(block, [0x0fe0_02ce, 0x72e7_33ea]);
    assert_eq!(key, [0x0123_4567, 0x89ab_cdef, 0xfedc_ba98, 0x7654_3210]);

    let mut zero_key = [0u32; 4];
    let mut zero = [0u32; 2];
    tea_decrypt(&mut zero, &mut zero_key);
    assert_eq!(zero, [0xf920_e013, 0xe11f_cf72]);
}

#[test]
fn tea_encrypt_known_answer() {
    let mut key = [0x0123_4567u32, 0x89ab_cdef, 0xfedc_ba98, 0x7654_3210];
    let mut block = [0xdead_beefu32, 0x0bad_f00d];
    tea_encrypt(&mut block, &mut key);
    assert_eq!(block, [0x6227_4d82, 0x3443_3bc1]);
}

#[test]
fn tea_decrypt_undoes_tea_encrypt() {
    let mut key = [0xa5a5_a5a5u32, 0x0000_0001, 0xffff_ffff, 0x1357_9bdf];
    let blocks = [[0u32, 0u32], [1, 2], [0xffff_ffff, 0xffff_ffff], [0x8000_0000, 0x7fff_ffff]];
    for plain in blocks {
        let mut block = plain;
        tea_encrypt(&mut block, &mut key);
        assert_ne!(block, plain);
        tea_decrypt(&mut block, &mut key);
        assert_eq!(block, plain);
    }
}

#[test]
fn tea_decrypt_touches_only_the_block() {
    let mut key = [1u32, 2, 3, 4, 5];
    let mut block = [0xdead_beefu32, 0x0bad_f00d, 77];
    tea_decrypt(&mut block, &mut key);
    assert_eq!(block[2], 77);
    assert_eq!(key, [1, 2, 3, 4, 5]);
}

#[test]
fn tea_key_reads_four_little_endian_words() {
    let secret: Vec<u8> = (1..=32u8).collect();
    assert_eq!(
        tea_key(&secret),
        vec![0x0403_0201, 0x0807_0605, 0x0c0b_0a09, 0x100f_0e0d]
    );
}

#[test]
fn decrypt_payload_writes_words_back_big_endian() {
    let mut key = [0x0123_4567u32, 0x89ab_cdef, 0xfedc_ba98, 0x7654_3210];
    // The block holds 0xdeadbeef and 0x0badf00d, least significant byte first.
    let mut content = vec![0xef, 0xbe, 0xad, 0xde, 0x0d, 0xf0, 0xad, 0x0b];
    decrypt_payload(&mut content, &mut key);
    assert_eq!(content, vec![0x0f, 0xe0, 0x02, 0xce, 0x72, 0xe7, 0x33, 0xea]);
}

#[test]
fn decrypt_payload_keeps_a_trailing_partial_block() {
    let mut key = [0x0123_4567u32, 0x89ab_cdef, 0xfedc_ba98, 0x7654_3210];
    let mut content = vec![
        0xef, 0xbe, 0xad, 0xde, 0x0d, 0xf0, 0xad, 0x0b, 0xef, 0xbe, 0xad, 0xde, 0x0d, 0xf0, 0xad,
        0x0b, 1, 2, 3, 4, 5, 6, 7,
    ];
    decrypt_payload(&mut content, &mut key);
    assert_eq!(
        content,
        vec![
            0x0f, 0xe0, 0x02, 0xce, 0x72, 0xe7, 0x33, 0xea, 0x0f, 0xe0, 0x02, 0xce, 0x72, 0xe7,
            0x33, 0xea, 1, 2, 3, 4, 5, 6, 7,
        ]
    );

    let mut short = vec![9, 8, 7];
    decrypt_payload(&mut short, &mut key);
    assert_eq!(short, vec![9, 8, 7]);
}

#[test]
fn key_len_by_magic() {
    for magic in [0x03u8, 0x04, 0x05] {
        assert_eq!(key_len(magic), Some(4));
    }
    for magic in 0x06u8..=0x0d {
        assert_eq!(key_len(magic), Some(64));
    }
    for magic in [0x00u8, 0x01, 0x02, 0x0e, 0x7f, 0xff] {
        assert_eq!(key_len(magic), None);
    }
}

#[test]
fn treatment_by_magic_and_key() {
    let with_key = [
        (0x03u8, Treatment::Raw),
        (0x04, Treatment::Zlib),
        (0x05, Treatment::ZlibChunked),
        (0x06, Treatment::Raw),
        (0x07, Treatment::DecryptZlib),
        (0x08, Treatment::Raw),
        (0x09, Treatment::Zlib),
        (0x0a, Treatment::Raw),
        (0x0b, Treatment::Raw),
        (0x0c, Treatment::DecryptZstd),
        (0x0d, Treatment::Zstd),
    ];
    for (magic, expected) in with_key {
        assert_eq!(treatment(magic, true), expected);
    }
    let without_key = [
        (0x03u8, Treatment::Raw),
        (0x04, Treatment::Zlib),
        (0x05, Treatment::ZlibChunked),
        (0x06, Treatment::WrongScript),
        (0x07, Treatment::WrongScript),
        (0x08, Treatment::Raw),
        (0x09, Treatment::Zlib),
        (0x0a, Treatment::WrongScript),
        (0x0b, Treatment::Raw),
        (0x0c, Treatment::WrongScript),
        (0x0d, Treatment::Zstd),
    ];
    for (magic, expected) in without_key {
        assert_eq!(treatment(magic, false), expected);
    }
}

#[test]
fn push_decimal_writes_digits_and_sign() {
    let mut out = b">".to_vec();
    push_decimal(&mut out, 0);
    out.push(b' ');
    push_decimal(&mut out, 7);
    out.push(b' ');
    push_decimal(&mut out, -32769);
    out.push(b' ');
    push_decimal(&mut out, 32768);
    out.push(b' ');
    push_decimal(&mut out, i64::MIN);
    out.push(b' ');
    push_decimal_usize(&mut out, 1234567890);
    assert_eq!(out, b">0 7 -32769 32768 -9223372036854775808 1234567890".to_vec());
}

#[test]
fn diagnostic_lines() {
    let mut out = Vec::new();
    push_resync_line(&mut out, 2);
    assert_eq!(out, b"[F]decode_log_file.py decode err|| len= 2\n".to_vec());

    let mut out = Vec::new();
    push_seq_gap_line(&mut out, 3, 4);
    assert_eq!(out, b"[F]decode_log_file.py log seq:3-4 is missing\n".to_vec());

    let mut out = Vec::new();
    push_seq_gap_line(&mut out, -5, -32769);
    assert_eq!(out, b"[F]decode_log_file.py log seq:-5--32769 is missing\n".to_vec());

    let mut out = Vec::new();
    push_wrong_script_line(&mut out);
    assert_eq!(out, b"use wrong decode script\n".to_vec());

    let mut out = Vec::new();
    push_unknown_magic_line(&mut out, 17, 255);
    assert_eq!(out, b"in DecodeBuffer _buffer[17]:255 != NUM_START\n".to_vec());
}
