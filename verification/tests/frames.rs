use tencent_mars_xlog_util::error::DecodeError;
use tencent_mars_xlog_util::frame::{
    frame_size_at, get_log_start_pos, is_good_log_buf, read_header, FrameHeader,
};

fn key_field_len(magic: u8) -> usize {
    if magic <= 0x05 {
        4
    } else {
        64
    }
}

fn frame(magic: u8, seq: i16, payload: &[u8]) -> Vec<u8> {
    let mut bytes = vec![magic];
    bytes.extend_from_slice(&seq.to_le_bytes());
    bytes.push(10);
    bytes.push(11);
    bytes.extend_from_slice(&(payload.len() as u32).to_le_bytes());
    bytes.extend_from_slice(&vec![0xaa; key_field_len(magic)]);
    bytes.extend_from_slice(payload);
    bytes.push(0x00);
    bytes
}

#[test]
fn read_header_gives_the_fields() {
    let bytes = frame(0x08, -2, b"hello\n");
    assert_eq!(
        read_header(&bytes, 0),
        Ok(FrameHeader {
            magic: 0x08,
            seq: -2,
            begin_hour: 10,
            end_hour: 11,
            length: 6,
            key_len: 64,
        })
    );
    let legacy = frame(0x04, 513, b"");
    assert_eq!(
        read_header(&legacy, 0),
        Ok(FrameHeader {
            magic: 0x04,
            seq: 513,
            begin_hour: 10,
            end_hour: 11,
            length: 0,
            key_len: 4,
        })
    );
}

#[test]
fn read_header_at_a_later_offset() {
    let mut bytes = vec![0xff, 0xff, 0xff];
    bytes.extend_from_slice(&frame(0x09, 7, b"abc"));
    let header = read_header(&bytes, 3).unwrap();
    assert_eq!(header.magic, 0x09);
    assert_eq!(header.seq, 7);
    assert_eq!(header.length, 3);
}

#[test]
fn read_header_rejects_unknown_magic() {
    for magic in [0x00u8, 0x01, 0x02, 0x0e, 0xff] {
        let mut bytes = frame(0x08, 1, b"x");
        bytes[0] = magic;
        assert_eq!(read_header(&bytes, 0), Err(DecodeError::UnknownMagic));
    }
}

#[test]
fn read_header_rejects_what_does_not_fit() {
    let bytes = frame(0x08, 1, b"hello");
    assert_eq!(read_header(&bytes, bytes.len()), Err(DecodeError::UnexpectedEof));
    assert_eq!(read_header(&bytes, bytes.len() + 5), Err(DecodeError::UnexpectedEof));
    assert_eq!(read_header(&bytes[..bytes.len() - 1], 0), Err(DecodeError::UnexpectedEof));
    assert_eq!(read_header(&bytes[..20], 0), Err(DecodeError::UnexpectedEof));
    assert_eq!(read_header(&bytes[..1], 0), Err(DecodeError::UnexpectedEof));
    let mut huge = frame(0x08, 1, b"hello");
    huge[5..9].copy_from_slice(&u32::MAX.to_le_bytes());
    assert_eq!(read_header(&huge, 0), Err(DecodeError::UnexpectedEof));
}

#[test]
fn frame_size_is_header_key_payload_and_terminator() {
    assert_eq!(frame_size_at(&frame(0x08, 1, b"hello\n"), 0), Some(9 + 64 + 6 + 1));
    assert_eq!(frame_size_at(&frame(0x03, 1, b"hello\n"), 0), Some(9 + 4 + 6 + 1));
    assert_eq!(frame_size_at(&frame(0x0d, 1, b""), 0), Some(9 + 64 + 1));
}

#[test]
fn frame_size_needs_the_terminator() {
    let mut bytes = frame(0x08, 1, b"hello\n");
    let last = bytes.len() - 1;
    bytes[last] = 0x01;
    assert_eq!(frame_size_at(&bytes, 0), None);
    assert_eq!(frame_size_at(&bytes, last + 1), None);
}

#[test]
fn validator_accepts_the_end_of_the_buffer() {
    let bytes = frame(0x08, 1, b"hello\n");
    for count in [-1i8, 0, 1, 2, 127] {
        assert!(is_good_log_buf(&bytes, bytes.len(), count));
        assert!(is_good_log_buf(&[], 0, count));
        assert!(!is_good_log_buf(&bytes, bytes.len() + 1, count));
    }
}

#[test]
fn validator_accepts_a_last_frame_that_ends_the_buffer() {
    let bytes = frame(0x08, 1, b"hello\n");
    for count in [0i8, 1, 2, 5] {
        assert!(is_good_log_buf(&bytes, 0, count));
    }
}

#[test]
fn validator_accepts_an_empty_payload_at_the_end() {
    let bytes = frame(0x09, 1, b"");
    for count in [0i8, 1, 2] {
        assert!(is_good_log_buf(&bytes, 0, count));
    }
}

#[test]
fn validator_rejects_a_broken_frame() {
    let whole = frame(0x08, 1, b"hello\n");
    let mut bad_terminator = whole.clone();
    let last = bad_terminator.len() - 1;
    bad_terminator[last] = 0x7f;
    let mut bad_magic = whole.clone();
    bad_magic[0] = 0x0e;
    let mut end_magic = whole.clone();
    end_magic[0] = 0x00;
    for count in [0i8, 1, 2] {
        assert!(!is_good_log_buf(&bad_terminator, 0, count));
        assert!(!is_good_log_buf(&bad_magic, 0, count));
        assert!(!is_good_log_buf(&end_magic, 0, count));
        assert!(!is_good_log_buf(&whole[..whole.len() - 1], 0, count));
        assert!(!is_good_log_buf(&whole[..12], 0, count));
    }
}

#[test]
fn validator_looks_ahead_as_many_frames_as_asked() {
    let mut bytes = frame(0x08, 1, b"one");
    let second = bytes.len();
    bytes.extend_from_slice(&frame(0x09, 2, b"two"));
    let third = bytes.len();
    bytes.extend_from_slice(&frame(0x03, 3, b"three"));
    let junk = bytes.len();
    bytes.extend_from_slice(&[0xff, 0xff]);

    assert!(is_good_log_buf(&bytes, 0, 0));
    assert!(is_good_log_buf(&bytes, 0, 1));
    assert!(is_good_log_buf(&bytes, 0, 2));
    assert!(!is_good_log_buf(&bytes, 0, 3));

    assert!(is_good_log_buf(&bytes, second, 1));
    assert!(!is_good_log_buf(&bytes, second, 2));

    assert!(is_good_log_buf(&bytes, third, 0));
    assert!(is_good_log_buf(&bytes, third, -3));
    assert!(!is_good_log_buf(&bytes, third, 1));

    assert!(!is_good_log_buf(&bytes, junk, 0));
}

#[test]
fn validator_rejects_a_magic_byte_inside_noise() {
    // A lone start magic whose declared frame happens to end on a zero byte,
    // followed by bytes that are no frame.
    let mut bytes = frame(0x03, 0, b"");
    bytes.extend_from_slice(&[0x41, 0x42, 0x43]);
    assert!(is_good_log_buf(&bytes, 0, 0));
    assert!(!is_good_log_buf(&bytes, 0, 1));
}

#[test]
fn scanner_finds_the_first_frame_behind_noise() {
    let mut bytes = vec![0xff, 0xff, 0xff, 0xff];
    bytes.extend_from_slice(&frame(0x08, 1, b"x"));
    assert_eq!(get_log_start_pos(&bytes, 2), Some(4));
    assert_eq!(get_log_start_pos(&bytes, 1), Some(4));
    assert_eq!(get_log_start_pos(&bytes, 0), Some(4));
}

#[test]
fn scanner_starts_at_the_first_byte() {
    let mut bytes = frame(0x08, 1, b"one");
    bytes.extend_from_slice(&frame(0x08, 2, b"two"));
    assert_eq!(get_log_start_pos(&bytes, 2), Some(0));
}

#[test]
fn scanner_finds_nothing_where_there_is_no_frame() {
    assert_eq!(get_log_start_pos(&[], 2), None);
    assert_eq!(get_log_start_pos(&[0x00], 2), None);
    assert_eq!(get_log_start_pos(&[0x08], 2), None);
    assert_eq!(get_log_start_pos(&[0xff; 200], 2), None);
    let whole = frame(0x08, 1, b"hello\n");
    assert_eq!(get_log_start_pos(&whole[..whole.len() - 1], 0), None);
}

#[test]
fn scanner_skips_a_frame_whose_look_ahead_fails() {
    let mut bytes = frame(0x08, 1, b"one");
    bytes.extend_from_slice(&[0xff, 0xff]);
    let second = bytes.len();
    bytes.extend_from_slice(&frame(0x08, 2, b"two"));
    assert_eq!(get_log_start_pos(&bytes, 0), Some(0));
    assert_eq!(get_log_start_pos(&bytes, 1), Some(second));
    assert_eq!(get_log_start_pos(&bytes, 2), Some(second));
}

#[test]
fn scanner_is_idempotent() {
    let mut bytes = vec![0x08, 0x00, 0x09, 0xff, 0x03];
    bytes.extend_from_slice(&frame(0x08, 1, b"one"));
    bytes.extend_from_slice(&frame(0x09, 2, b""));
    for count in [0i8, 1, 2] {
        let first = get_log_start_pos(&bytes, count);
        assert_eq!(first, Some(5));
        assert_eq!(get_log_start_pos(&bytes, count), first);
        assert_eq!(get_log_start_pos(&bytes[5..], count), Some(0));
    }
}
