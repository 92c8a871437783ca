use vstd::prelude::*;
use vstd::string::*;
use vstd::utf8::{encode_utf8, is_ascii_chars, is_ascii_chars_encode_utf8};

verus! {

/// Why a string is no hex encoding of bytes.
#[derive(Clone, Copy, Debug, PartialEq, Eq, Structural)]
pub enum HexError {
    /// The string has an odd number of bytes.
    OddLength,
    /// A pair of bytes is no two-digit hex number.
    InvalidDigit,
}

/// The lower-case hex digit for `n`, which is below sixteen.
pub open spec fn hex_char(n: int) -> char {
    if n < 10 {
        (48 + n) as char
    } else {
        (87 + n) as char
    }
}

/// The hex encoding of `bytes`: two lower-case digits for each byte, the high
/// nibble first.
pub open spec fn spec_encode_hex(bytes: Seq<u8>) -> Seq<char> {
    Seq::new(
        2 * bytes.len(),
        |i: int|
            if i % 2 == 0 {
                hex_char(bytes[i / 2] as int / 16)
            } else {
                hex_char(bytes[i / 2] as int % 16)
            },
    )
}

/// Value of the ASCII hex digit `b`, in either case.
pub open spec fn hex_value(b: u8) -> Option<int> {
    if 0x30 <= b <= 0x39 {
        Some(b - 0x30)
    } else if 0x61 <= b <= 0x66 {
        Some(b - 0x61 + 10)
    } else if 0x41 <= b <= 0x46 {
        Some(b - 0x41 + 10)
    } else {
        None
    }
}

/// Value of a pair of bytes read as a hex number: two digits, or a plus sign
/// and one digit.
pub open spec fn pair_value(hi: u8, lo: u8) -> Option<int> {
    if hex_value(lo) is None {
        None
    } else if hi == 0x2b {
        hex_value(lo)
    } else if hex_value(hi) is None {
        None
    } else {
        Some(16 * hex_value(hi).unwrap() + hex_value(lo).unwrap())
    }
}

/// Whether every pair of bytes of `s` is a hex number.
pub open spec fn all_pairs_valid(s: Seq<u8>) -> bool {
    forall|i: int| 0 <= i < s.len() / 2 ==> (#[trigger] pair_value(s[2 * i], s[2 * i + 1])) is Some
}

/// The bytes that the hex string `s` encodes, or `None` where `s` has an odd
/// length or holds a pair that is no hex number.
pub open spec fn spec_decode_hex(s: Seq<u8>) -> Option<Seq<u8>> {
    if s.len() % 2 == 0 && all_pairs_valid(s) {
        Some(Seq::new(s.len() / 2, |i: int| pair_value(s[2 * i], s[2 * i + 1]).unwrap() as u8))
    } else {
        None
    }
}

fn digit_value(b: u8) -> (r: Option<u8>)
    ensures
        match r {
            Some(v) => hex_value(b) == Some(v as int) && v < 16,
            None => hex_value(b) is None,
        },
{
    if 0x30 <= b && b <= 0x39 {
        Some(b - 0x30)
    } else if 0x61 <= b && b <= 0x66 {
        Some(b - 0x61 + 10)
    } else if 0x41 <= b && b <= 0x46 {
        Some(b - 0x41 + 10)
    } else {
        None
    }
}

fn pair(hi: u8, lo: u8) -> (r: Option<u8>)
    ensures
        match r {
            Some(v) => pair_value(hi, lo) == Some(v as int),
            None => pair_value(hi, lo) is None,
        },
{
    match digit_value(lo) {
        None => None,
        Some(l) => {
            if hi == 0x2b {
                Some(l)
            } else {
                match digit_value(hi) {
                    None => None,
                    Some(h) => Some(16 * h + l),
                }
            }
        },
    }
}

/// Decodes a hex string into the bytes it encodes.
pub fn decode_hex(s: &str) -> (r: Result<Vec<u8>, HexError>)
    ensures
        match r {
            Ok(bytes) => spec_decode_hex(s.spec_bytes()) == Some(bytes@),
            Err(e) => spec_decode_hex(s.spec_bytes()) is None && (e == HexError::OddLength)
                == (s.spec_bytes().len() % 2 != 0),
        },
{
    let raw = s.as_bytes();
    let n: usize = raw.len();
    if n % 2 != 0 {
        return Err(HexError::OddLength);
    }
    let mut bytes: Vec<u8> = Vec::with_capacity(n / 2);
    let mut i: usize = 0;
    while i < n / 2
        invariant
            raw@ == s.spec_bytes(),
            n == raw@.len(),
            n % 2 == 0,
            i <= n / 2,
            bytes@.len() == i,
            forall|j: int|
                0 <= j < i ==> (#[trigger] pair_value(raw@[2 * j], raw@[2 * j + 1])) == Some(
                    bytes@[j] as int,
                ),
        decreases n / 2 - i,
    {
        match pair(raw[2 * i], raw[2 * i + 1]) {
            None => {
                return Err(HexError::InvalidDigit);
            },
            Some(v) => {
                bytes.push(v);
            },
        }
        i = i + 1;
    }
    assert(bytes@ =~= spec_decode_hex(raw@).unwrap());
    Ok(bytes)
}

fn digit_str(n: u8) -> (r: &'static str)
    requires
        n < 16,
    ensures
        r@ == seq![hex_char(n as int)],
{
    proof {
        reveal_strlit("0");
        reveal_strlit("1");
        reveal_strlit("2");
        reveal_strlit("3");
        reveal_strlit("4");
        reveal_strlit("5");
        reveal_strlit("6");
        reveal_strlit("7");
        reveal_strlit("8");
        reveal_strlit("9");
        reveal_strlit("a");
        reveal_strlit("b");
        reveal_strlit("c");
        reveal_strlit("d");
        reveal_strlit("e");
        reveal_strlit("f");
    }
    let r = match n {
        0 => "0",
        1 => "1",
        2 => "2",
        3 => "3",
        4 => "4",
        5 => "5",
        6 => "6",
        7 => "7",
        8 => "8",
        9 => "9",
        10 => "a",
        11 => "b",
        12 => "c",
        13 => "d",
        14 => "e",
        _ => "f",
    };
    assert(r@ =~= seq![hex_char(n as int)]);
    r
}

/// Encodes `bytes` as a lower-case hex string.
pub fn encode_hex(bytes: &[u8]) -> (s: String)
    ensures
        s@ == spec_encode_hex(bytes@),
{
    let mut s = String::new();
    let mut i: usize = 0;
    while i < bytes.len()
        invariant
            i <= bytes@.len(),
            s@ == spec_encode_hex(bytes@.subrange(0, i as int)),
        decreases bytes@.len() - i,
    {
        let b: u8 = bytes[i];
        s.append(digit_str(b / 16));
        s.append(digit_str(b % 16));
        assert(s@ =~= spec_encode_hex(bytes@.subrange(0, i + 1)));
        i = i + 1;
    }
    assert(bytes@.subrange(0, i as int) =~= bytes@);
    s
}

/// Decoding the hex encoding of bytes gives the bytes.
pub proof fn lemma_decode_inverts_encode(bytes: Seq<u8>)
    ensures
        is_ascii_chars(spec_encode_hex(bytes)),
        spec_decode_hex(encode_utf8(spec_encode_hex(bytes))) == Some(bytes),
{
    let chars = spec_encode_hex(bytes);
    assert forall|i: int| 0 <= i < chars.len() implies '\0' <= #[trigger] chars[i] <= '\u{7f}' by {
        let b = bytes[i / 2];
        assert(0 <= b as int / 16 < 16 && 0 <= b as int % 16 < 16);
    }
    is_ascii_chars_encode_utf8(chars);
    let s = encode_utf8(chars);
    assert forall|i: int| 0 <= i < s.len() / 2 implies (#[trigger] pair_value(s[2 * i], s[2 * i + 1]))
        == Some(bytes[i] as int) by {
        let b = bytes[i];
        assert((2 * i) / 2 == i && (2 * i + 1) / 2 == i);
        assert((2 * i) % 2 == 0 && (2 * i + 1) % 2 == 1);
        assert(s[2 * i] == chars[2 * i] as u8);
        assert(s[2 * i + 1] == chars[2 * i + 1] as u8);
        assert(chars[2 * i] == hex_char(b as int / 16));
        assert(chars[2 * i + 1] == hex_char(b as int % 16));
    }
    assert(spec_decode_hex(s).unwrap() =~= bytes);
}

} // verus!
