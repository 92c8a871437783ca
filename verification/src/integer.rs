use vstd::prelude::*;
use vstd::slice::slice_subrange;

verus! {

/// Value of the first two bytes of `s`, least significant byte first.
pub open spec fn le2(s: Seq<u8>) -> int {
    s[0] as int + 256 * (s[1] as int)
}

/// Value of the first four bytes of `s`, least significant byte first.
pub open spec fn le4(s: Seq<u8>) -> int {
    le2(s) + 65536 * le2(s.subrange(2, 4))
}

/// Value of the first eight bytes of `s`, least significant byte first.
pub open spec fn le8(s: Seq<u8>) -> int {
    le4(s) + 4294967296 * le4(s.subrange(4, 8))
}

/// Value of the first two bytes of `s`, most significant byte first.
pub open spec fn be2(s: Seq<u8>) -> int {
    256 * (s[0] as int) + s[1] as int
}

/// Value of the first four bytes of `s`, most significant byte first.
pub open spec fn be4(s: Seq<u8>) -> int {
    65536 * be2(s) + be2(s.subrange(2, 4))
}

/// Value of the first eight bytes of `s`, most significant byte first.
pub open spec fn be8(s: Seq<u8>) -> int {
    4294967296 * be4(s) + be4(s.subrange(4, 8))
}

/// Two's-complement reading of the unsigned value `raw` of a width whose
/// sign bit is worth `half`.
pub open spec fn signed(raw: int, half: int) -> int {
    if raw >= half {
        raw - 2 * half
    } else {
        raw
    }
}

fn raw2(lo: u8, hi: u8) -> (r: u16)
    ensures
        r as int == lo as int + 256 * (hi as int),
{
    lo as u16 + 256 * (hi as u16)
}

fn raw4(data: &[u8], le: bool) -> (r: u32)
    requires
        data@.len() == 4,
    ensures
        r as int == if le { le4(data@) } else { be4(data@) },
{
    if le {
        raw2(data[0], data[1]) as u32 + 65536 * (raw2(data[2], data[3]) as u32)
    } else {
        raw2(data[3], data[2]) as u32 + 65536 * (raw2(data[1], data[0]) as u32)
    }
}

fn raw8(data: &[u8], le: bool) -> (r: u64)
    requires
        data@.len() == 8,
    ensures
        r as int == if le { le8(data@) } else { be8(data@) },
{
    let a = slice_subrange(data, 0, 4);
    let b = slice_subrange(data, 4, 8);
    assert(a@ =~= data@.subrange(0, 4));
    assert(a@.subrange(2, 4) =~= data@.subrange(2, 4));
    assert(b@.subrange(2, 4) =~= data@.subrange(4, 8).subrange(2, 4));
    if le {
        raw4(a, true) as u64 + 4294967296 * (raw4(b, true) as u64)
    } else {
        raw4(b, false) as u64 + 4294967296 * (raw4(a, false) as u64)
    }
}

/// Fixed-width integers that can be read from the bytes that encode them.
pub trait ReadInteger<T> {
    /// Number of bytes that encode one value.
    spec fn spec_width() -> nat;

    /// The value that `data` encodes, least significant byte first.
    spec fn spec_from_le(data: Seq<u8>) -> T;

    /// The value that `data` encodes, most significant byte first.
    spec fn spec_from_be(data: Seq<u8>) -> T;

    /// Number of bytes that encode one value.
    fn width() -> (w: usize)
        ensures
            w as nat == Self::spec_width(),
    ;

    /// Reads a value from exactly `width()` little-endian bytes.
    fn from_le_bytes(data: &[u8]) -> (r: T)
        requires
            data@.len() == Self::spec_width(),
        ensures
            r == Self::spec_from_le(data@),
    ;

    /// Reads a value from exactly `width()` big-endian bytes.
    fn from_be_bytes(data: &[u8]) -> (r: T)
        requires
            data@.len() == Self::spec_width(),
        ensures
            r == Self::spec_from_be(data@),
    ;
}

impl ReadInteger<u8> for u8 {
    open spec fn spec_width() -> nat {
        1
    }

    open spec fn spec_from_le(data: Seq<u8>) -> u8 {
        data[0]
    }

    open spec fn spec_from_be(data: Seq<u8>) -> u8 {
        data[0]
    }

    fn width() -> (w: usize) {
        1
    }

    fn from_le_bytes(data: &[u8]) -> (r: u8) {
        data[0]
    }

    fn from_be_bytes(data: &[u8]) -> (r: u8) {
        data[0]
    }
}

impl ReadInteger<u16> for u16 {
    open spec fn spec_width() -> nat {
        2
    }

    open spec fn spec_from_le(data: Seq<u8>) -> u16 {
        le2(data) as u16
    }

    open spec fn spec_from_be(data: Seq<u8>) -> u16 {
        be2(data) as u16
    }

    fn width() -> (w: usize) {
        2
    }

    fn from_le_bytes(data: &[u8]) -> (r: u16) {
        raw2(data[0], data[1])
    }

    fn from_be_bytes(data: &[u8]) -> (r: u16) {
        raw2(data[1], data[0])
    }
}

impl ReadInteger<i16> for i16 {
    open spec fn spec_width() -> nat {
        2
    }

    open spec fn spec_from_le(data: Seq<u8>) -> i16 {
        signed(le2(data), 32768) as i16
    }

    open spec fn spec_from_be(data: Seq<u8>) -> i16 {
        signed(be2(data), 32768) as i16
    }

    fn width() -> (w: usize) {
        2
    }

    fn from_le_bytes(data: &[u8]) -> (r: i16) {
        let raw: u16 = raw2(data[0], data[1]);
        if raw >= 32768 {
            (raw as i32 - 65536) as i16
        } else {
            raw as i16
        }
    }

    fn from_be_bytes(data: &[u8]) -> (r: i16) {
        let raw: u16 = raw2(data[1], data[0]);
        if raw >= 32768 {
            (raw as i32 - 65536) as i16
        } else {
            raw as i16
        }
    }
}

impl ReadInteger<u32> for u32 {
    open spec fn spec_width() -> nat {
        4
    }

    open spec fn spec_from_le(data: Seq<u8>) -> u32 {
        le4(data) as u32
    }

    open spec fn spec_from_be(data: Seq<u8>) -> u32 {
        be4(data) as u32
    }

    fn width() -> (w: usize) {
        4
    }

    fn from_le_bytes(data: &[u8]) -> (r: u32) {
        raw4(data, true)
    }

    fn from_be_bytes(data: &[u8]) -> (r: u32) {
        raw4(data, false)
    }
}

impl ReadInteger<i32> for i32 {
    open spec fn spec_width() -> nat {
        4
    }

    open spec fn spec_from_le(data: Seq<u8>) -> i32 {
        signed(le4(data), 2147483648) as i32
    }

    open spec fn spec_from_be(data: Seq<u8>) -> i32 {
        signed(be4(data), 2147483648) as i32
    }

    fn width() -> (w: usize) {
        4
    }

    fn from_le_bytes(data: &[u8]) -> (r: i32) {
        let raw: u32 = raw4(data, true);
        if raw >= 2147483648 {
            (raw as i64 - 4294967296) as i32
        } else {
            raw as i32
        }
    }

    fn from_be_bytes(data: &[u8]) -> (r: i32) {
        let raw: u32 = raw4(data, false);
        if raw >= 2147483648 {
            (raw as i64 - 4294967296) as i32
        } else {
            raw as i32
        }
    }
}

impl ReadInteger<i64> for i64 {
    open spec fn spec_width() -> nat {
        8
    }

    open spec fn spec_from_le(data: Seq<u8>) -> i64 {
        signed(le8(data), 9223372036854775808) as i64
    }

    open spec fn spec_from_be(data: Seq<u8>) -> i64 {
        signed(be8(data), 9223372036854775808) as i64
    }

    fn width() -> (w: usize) {
        8
    }

    fn from_le_bytes(data: &[u8]) -> (r: i64) {
        let raw: u64 = raw8(data, true);
        if raw >= 9223372036854775808 {
            (raw as i128 - 18446744073709551616) as i64
        } else {
            raw as i64
        }
    }

    fn from_be_bytes(data: &[u8]) -> (r: i64) {
        let raw: u64 = raw8(data, false);
        if raw >= 9223372036854775808 {
            (raw as i128 - 18446744073709551616) as i64
        } else {
            raw as i64
        }
    }
}

/// Reads a little-endian integer from the head of `data`.
pub fn read_integer<T: ReadInteger<T>>(data: &[u8]) -> (r: T)
    requires
        data@.len() >= T::spec_width(),
    ensures
        r == T::spec_from_le(data@.subrange(0, T::spec_width() as int)),
{
    T::from_le_bytes(slice_subrange(data, 0, T::width()))
}

} // verus!
