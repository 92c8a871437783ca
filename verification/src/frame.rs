use vstd::prelude::*;
use vstd::slice::slice_subrange;
use crate::error::DecodeError;
use crate::integer::{le2, le4, read_integer, signed};
use crate::magic::{is_start, is_start_magic, key_len, spec_key_len, END, FIXED_HEADER_LEN};

verus! {

/// Length of the key field of the frame that starts at `offset`.
pub open spec fn key_len_at(buf: Seq<u8>, offset: int) -> int {
    spec_key_len(buf[offset]).unwrap()
}

/// Payload length that the header at `offset` declares.
pub open spec fn payload_len_at(buf: Seq<u8>, offset: int) -> int {
    le4(buf.subrange(offset + 5, offset + 9))
}

/// Offset of the first payload byte of the frame that starts at `offset`.
pub open spec fn payload_start(buf: Seq<u8>, offset: int) -> int {
    offset + FIXED_HEADER_LEN + key_len_at(buf, offset)
}

/// Size in bytes of the frame that starts at `offset`: header, key field,
/// payload and terminator.
pub open spec fn frame_size(buf: Seq<u8>, offset: int) -> int {
    FIXED_HEADER_LEN + key_len_at(buf, offset) + payload_len_at(buf, offset) + 1
}

/// The byte at `offset` is a start magic and the frame that the header
/// declares, terminator included, lies within `buf`.
pub open spec fn frame_fits(buf: Seq<u8>, offset: int) -> bool {
    &&& 0 <= offset < buf.len()
    &&& spec_key_len(buf[offset]) is Some
    &&& payload_start(buf, offset) + 1 <= buf.len()
    &&& offset + frame_size(buf, offset) <= buf.len()
}

/// A well-formed frame starts at `offset`: the byte there is a start magic,
/// the frame it declares lies within `buf`, and its last byte is the
/// terminator.
pub open spec fn frame_at(buf: Seq<u8>, offset: int) -> bool {
    frame_fits(buf, offset) && buf[offset + frame_size(buf, offset) - 1] == END
}

/// The validator: `offset` is the end of `buf`, or a well-formed frame starts
/// there and, while `count` is positive, the position right behind that
/// frame is accepted with `count - 1`.
pub open spec fn good_log_buf(buf: Seq<u8>, offset: int, count: int) -> bool
    decreases count,
{
    offset == buf.len() || (frame_at(buf, offset) && (count > 0 ==> good_log_buf(
        buf,
        offset + frame_size(buf, offset),
        count - 1,
    )))
}

/// `pos` is a position at which a scan with look-ahead `count` stops.
pub open spec fn is_log_start(buf: Seq<u8>, pos: int, count: int) -> bool {
    0 <= pos < buf.len() && is_start_magic(buf[pos]) && good_log_buf(buf, pos, count)
}

/// First position at or after `from` at which a scan with look-ahead `count`
/// stops.
pub open spec fn scan_from(buf: Seq<u8>, from: int, count: int) -> Option<int>
    decreases buf.len() - from,
{
    if from < 0 || from >= buf.len() {
        None
    } else if is_log_start(buf, from, count) {
        Some(from)
    } else {
        scan_from(buf, from + 1, count)
    }
}

/// Result of the resync scan over the whole of `buf`.
pub open spec fn log_start_pos(buf: Seq<u8>, count: int) -> Option<int> {
    scan_from(buf, 0, count)
}

/// The fields of a frame header.
#[derive(Clone, Copy, Debug, PartialEq, Eq, Structural)]
pub struct FrameHeader {
    /// The tag that selects the frame variant.
    pub magic: u8,
    /// The sequence number of the frame.
    pub seq: i16,
    /// The hour at which the frame was begun.
    pub begin_hour: u8,
    /// The hour at which the frame was ended.
    pub end_hour: u8,
    /// The length of the payload in bytes.
    pub length: u32,
    /// The length of the key field in bytes.
    pub key_len: usize,
}

/// Sequence number that the header at `offset` holds.
pub open spec fn seq_at(buf: Seq<u8>, offset: int) -> i16 {
    signed(le2(buf.subrange(offset + 1, offset + 3)), 32768) as i16
}

/// The key field of the frame that starts at `offset`.
pub open spec fn key_field_at(buf: Seq<u8>, offset: int) -> Seq<u8> {
    buf.subrange(offset + FIXED_HEADER_LEN, payload_start(buf, offset))
}

/// The payload of the frame that starts at `offset`.
pub open spec fn payload_at(buf: Seq<u8>, offset: int) -> Seq<u8> {
    buf.subrange(payload_start(buf, offset), payload_start(buf, offset) + payload_len_at(buf, offset))
}

/// The header fields of the frame that starts at `offset`.
pub open spec fn header_at(buf: Seq<u8>, offset: int) -> FrameHeader {
    FrameHeader {
        magic: buf[offset],
        seq: seq_at(buf, offset),
        begin_hour: buf[offset + 3],
        end_hour: buf[offset + 4],
        length: payload_len_at(buf, offset) as u32,
        key_len: key_len_at(buf, offset) as usize,
    }
}

/// A declared payload length is below 2^32.
pub proof fn lemma_payload_len_bound(buf: Seq<u8>, offset: int)
    requires
        0 <= offset,
        offset + 9 <= buf.len(),
    ensures
        0 <= payload_len_at(buf, offset) < 4294967296,
{
    let s = buf.subrange(offset + 5, offset + 9);
    assert(s.subrange(2, 4)[0] == s[2]);
    assert(s.subrange(2, 4)[1] == s[3]);
}

/// Reads the header of the frame that starts at `offset`. Fails with
/// `UnknownMagic` where the byte there opens no frame, and with
/// `UnexpectedEof` where `buf` ends before the frame does.
pub fn read_header(buf: &[u8], offset: usize) -> (r: Result<FrameHeader, DecodeError>)
    ensures
        match r {
            Ok(header) => frame_fits(buf@, offset as int) && header == header_at(
                buf@,
                offset as int,
            ) && header.length as int == payload_len_at(buf@, offset as int) && header.key_len as int
                == key_len_at(buf@, offset as int),
            Err(e) => !frame_fits(buf@, offset as int) && e == if offset < buf@.len()
                && spec_key_len(buf@[offset as int]) is None {
                DecodeError::UnknownMagic
            } else {
                DecodeError::UnexpectedEof
            },
        },
{
    if offset >= buf.len() {
        return Err(DecodeError::UnexpectedEof);
    }
    let rest: usize = buf.len() - offset;
    let magic: u8 = buf[offset];
    let klen: usize = match key_len(magic) {
        Some(n) => n,
        None => {
            return Err(DecodeError::UnknownMagic);
        },
    };
    let header_len: usize = FIXED_HEADER_LEN + klen;
    if rest < header_len + 1 {
        return Err(DecodeError::UnexpectedEof);
    }
    let seq: i16 = read_integer::<i16>(slice_subrange(buf, offset + 1, offset + 3));
    let length: u32 = read_integer::<u32>(slice_subrange(buf, offset + 5, offset + 9));
    proof {
        assert(buf@.subrange(offset + 1, offset + 3).subrange(0, 2) =~= buf@.subrange(
            offset + 1,
            offset + 3,
        ));
        assert(buf@.subrange(offset + 5, offset + 9).subrange(0, 4) =~= buf@.subrange(
            offset + 5,
            offset + 9,
        ));
        lemma_payload_len_bound(buf@, offset as int);
    }
    if length as usize > rest - header_len - 1 {
        return Err(DecodeError::UnexpectedEof);
    }
    Ok(
        FrameHeader {
            magic,
            seq,
            begin_hour: buf[offset + 3],
            end_hour: buf[offset + 4],
            length,
            key_len: klen,
        },
    )
}

/// Size of the frame at `offset` if a well-formed frame starts there.
pub fn frame_size_at(buf: &[u8], offset: usize) -> (r: Option<usize>)
    ensures
        match r {
            Some(size) => frame_at(buf@, offset as int) && size as int == frame_size(
                buf@,
                offset as int,
            ),
            None => !frame_at(buf@, offset as int),
        },
{
    match read_header(buf, offset) {
        Err(_) => None,
        Ok(header) => {
            assert(frame_size(buf@, offset as int) <= buf.len());
            let size: usize = FIXED_HEADER_LEN + header.key_len + header.length as usize + 1;
            if buf[offset + size - 1] != END {
                None
            } else {
                Some(size)
            }
        },
    }
}

/// Tells whether `offset` is a good place to read from: the end of `buf`, or
/// the start of a well-formed frame that is followed, `count` frames deep,
/// by well-formed frames or the end of `buf`.
pub fn is_good_log_buf(buf: &[u8], offset: usize, count: i8) -> (r: bool)
    ensures
        r == good_log_buf(buf@, offset as int, count as int),
{
    let mut pos: usize = offset;
    let mut left: i8 = count;
    loop
        invariant
            good_log_buf(buf@, pos as int, left as int) == good_log_buf(
                buf@,
                offset as int,
                count as int,
            ),
        decreases left + 128,
    {
        if pos == buf.len() {
            return true;
        }
        match frame_size_at(buf, pos) {
            None => {
                return false;
            },
            Some(size) => {
                if left <= 0 {
                    return true;
                }
                pos = pos + size;
                left = left - 1;
            },
        }
    }
}

/// Scans `buf` from its first byte for the first position that holds a start
/// magic and that the validator accepts with look-ahead `count`.
pub fn get_log_start_pos(buf: &[u8], count: i8) -> (r: Option<usize>)
    ensures
        match r {
            Some(pos) => log_start_pos(buf@, count as int) == Some(pos as int),
            None => log_start_pos(buf@, count as int) is None,
        },
{
    let mut offset: usize = 0;
    while offset < buf.len()
        invariant
            offset <= buf.len(),
            scan_from(buf@, offset as int, count as int) == log_start_pos(buf@, count as int),
        decreases buf.len() - offset,
    {
        if is_start(buf[offset]) && is_good_log_buf(buf, offset, count) {
            return Some(offset);
        }
        offset += 1;
    }
    None
}

/// A frame of the remainder `buf[from..]` is the same frame of `buf`, `from`
/// bytes further on.
pub proof fn lemma_frame_shift(buf: Seq<u8>, from: int, offset: int)
    requires
        0 <= from <= buf.len(),
        0 <= offset,
    ensures
        frame_at(buf.subrange(from, buf.len() as int), offset) == frame_at(buf, from + offset),
        frame_at(buf, from + offset) ==> frame_size(buf.subrange(from, buf.len() as int), offset)
            == frame_size(buf, from + offset),
{
    let rest = buf.subrange(from, buf.len() as int);
    if offset < rest.len() {
        assert(rest[offset] == buf[from + offset]);
        if spec_key_len(buf[from + offset]) is Some && from + offset + 9 <= buf.len() {
            assert(rest.subrange(offset + 5, offset + 9) =~= buf.subrange(
                from + offset + 5,
                from + offset + 9,
            ));
            lemma_payload_len_bound(buf, from + offset);
            if from + offset + frame_size(buf, from + offset) <= buf.len() {
                assert(rest[offset + frame_size(rest, offset) - 1] == buf[from + offset
                    + frame_size(buf, from + offset) - 1]);
            }
        }
    }
}

/// The validator accepts a position of the remainder `buf[from..]` exactly
/// when it accepts that position of `buf`.
pub proof fn lemma_good_shift(buf: Seq<u8>, from: int, offset: int, count: int)
    requires
        0 <= from <= buf.len(),
        0 <= offset,
    ensures
        good_log_buf(buf.subrange(from, buf.len() as int), offset, count) == good_log_buf(
            buf,
            from + offset,
            count,
        ),
    decreases count,
{
    let rest = buf.subrange(from, buf.len() as int);
    lemma_frame_shift(buf, from, offset);
    if frame_at(buf, from + offset) && count > 0 {
        lemma_payload_len_bound(buf, from + offset);
        lemma_good_shift(buf, from, offset + frame_size(rest, offset), count - 1);
    }
}

/// A scan of the remainder `buf[from..]` finds what a scan of `buf` that
/// starts at `from` finds, as a distance from `from`.
pub proof fn lemma_scan_shift(buf: Seq<u8>, from: int, offset: int, count: int)
    requires
        0 <= from <= buf.len(),
        0 <= offset,
    ensures
        scan_from(buf.subrange(from, buf.len() as int), offset, count) == match scan_from(
            buf,
            from + offset,
            count,
        ) {
            Some(pos) => Some(pos - from),
            None => None,
        },
    decreases buf.len() - from - offset,
{
    let rest = buf.subrange(from, buf.len() as int);
    if offset < rest.len() {
        assert(rest[offset] == buf[from + offset]);
        lemma_good_shift(buf, from, offset, count);
        if !is_log_start(buf, from + offset, count) {
            lemma_scan_shift(buf, from, offset + 1, count);
        }
    }
}

/// What a scan returns is the first position at or after `from` that holds a
/// start magic and that the validator accepts; it returns `None` exactly
/// when there is no such position.
pub proof fn lemma_scan_finds_first(buf: Seq<u8>, from: int, count: int)
    requires
        0 <= from,
    ensures
        match scan_from(buf, from, count) {
            Some(pos) => from <= pos < buf.len() && is_log_start(buf, pos, count) && forall|q: int|
                from <= q < pos ==> !is_log_start(buf, q, count),
            None => forall|q: int| from <= q < buf.len() ==> !is_log_start(buf, q, count),
        },
    decreases buf.len() - from,
{
    if from < buf.len() && !is_log_start(buf, from, count) {
        lemma_scan_finds_first(buf, from + 1, count);
    }
}

/// Scanning is idempotent: a second scan, made from the position that a
/// first scan returned, stops at once at that same position.
pub proof fn lemma_scan_idempotent(buf: Seq<u8>, count: int)
    ensures
        match log_start_pos(buf, count) {
            Some(pos) => 0 <= pos < buf.len() && scan_from(buf, pos, count) == Some(pos)
                && log_start_pos(buf.subrange(pos, buf.len() as int), count) == Some(0int),
            None => true,
        },
{
    lemma_scan_finds_first(buf, 0, count);
    match log_start_pos(buf, count) {
        Some(pos) => {
            lemma_scan_shift(buf, pos, 0, count);
        },
        None => {},
    }
}

} // verus!
