use vstd::prelude::*;
use vstd::string::*;

verus! {

/// The decimal digits of `n` as ASCII bytes, without leading zeros.
pub open spec fn decimal_nat(n: nat) -> Seq<u8>
    decreases n,
{
    if n < 10 {
        seq![(48 + n) as u8]
    } else {
        decimal_nat(n / 10).push((48 + n % 10) as u8)
    }
}

/// The decimal form of `n` as ASCII bytes, with a minus sign where it is
/// negative.
pub open spec fn decimal(n: int) -> Seq<u8> {
    if n < 0 {
        seq![45u8] + decimal_nat((-n) as nat)
    } else {
        decimal_nat(n as nat)
    }
}

/// The line that reports `gap` bytes skipped between two frames.
pub open spec fn resync_line(gap: int) -> Seq<u8> {
    "[F]decode_log_file.py decode err|| len= ".spec_bytes() + decimal(gap) + "\n".spec_bytes()
}

/// The line that reports the sequence numbers `first` to `last` as missing.
pub open spec fn seq_gap_line(first: int, last: int) -> Seq<u8> {
    "[F]decode_log_file.py log seq:".spec_bytes() + decimal(first) + "-".spec_bytes() + decimal(
        last,
    ) + " is missing\n".spec_bytes()
}

/// The line that stands for the payload of an encrypted frame when no key
/// was given.
pub open spec fn wrong_script_line() -> Seq<u8> {
    "use wrong decode script\n".spec_bytes()
}

/// The line that reports a byte that opens no frame.
pub open spec fn unknown_magic_line(offset: int, magic: int) -> Seq<u8> {
    "in DecodeBuffer _buffer[".spec_bytes() + decimal(offset) + "]:".spec_bytes() + decimal(magic)
        + " != NUM_START\n".spec_bytes()
}

fn digits(n: u64) -> (r: Vec<u8>)
    ensures
        r@ == decimal_nat(n as nat),
    decreases n,
{
    if n < 10 {
        let mut r: Vec<u8> = Vec::with_capacity(20);
        r.push(48 + n as u8);
        assert(r@ =~= decimal_nat(n as nat));
        r
    } else {
        let mut r = digits(n / 10);
        r.push(48 + (n % 10) as u8);
        r
    }
}

/// Appends the decimal form of `n` to `out`.
pub fn push_decimal(out: &mut Vec<u8>, n: i64)
    ensures
        final(out)@ == old(out)@ + decimal(n as int),
{
    if n < 0 {
        out.push(45);
        let magnitude: u64 = (-(n as i128)) as u64;
        let d = digits(magnitude);
        out.extend_from_slice(d.as_slice());
        assert(out@ =~= old(out)@ + decimal(n as int));
    } else {
        let d = digits(n as u64);
        out.extend_from_slice(d.as_slice());
    }
}

/// Appends the decimal form of `n` to `out`.
pub fn push_decimal_usize(out: &mut Vec<u8>, n: usize)
    ensures
        final(out)@ == old(out)@ + decimal(n as int),
{
    let d = digits(n as u64);
    out.extend_from_slice(d.as_slice());
}

/// Appends to `out` the line that reports `gap` skipped bytes.
pub fn push_resync_line(out: &mut Vec<u8>, gap: usize)
    ensures
        final(out)@ == old(out)@ + resync_line(gap as int),
{
    out.extend_from_slice("[F]decode_log_file.py decode err|| len= ".as_bytes());
    push_decimal_usize(out, gap);
    out.extend_from_slice("\n".as_bytes());
    assert(out@ =~= old(out)@ + resync_line(gap as int));
}

/// Appends to `out` the line that reports the sequence numbers `first` to
/// `last` as missing.
pub fn push_seq_gap_line(out: &mut Vec<u8>, first: i32, last: i32)
    ensures
        final(out)@ == old(out)@ + seq_gap_line(first as int, last as int),
{
    out.extend_from_slice("[F]decode_log_file.py log seq:".as_bytes());
    push_decimal(out, first as i64);
    out.extend_from_slice("-".as_bytes());
    push_decimal(out, last as i64);
    out.extend_from_slice(" is missing\n".as_bytes());
    assert(out@ =~= old(out)@ + seq_gap_line(first as int, last as int));
}

/// Appends to `out` the line that stands for an encrypted payload read
/// without a key.
pub fn push_wrong_script_line(out: &mut Vec<u8>)
    ensures
        final(out)@ == old(out)@ + wrong_script_line(),
{
    out.extend_from_slice("use wrong decode script\n".as_bytes());
}

/// Appends to `out` the line that reports the byte `magic` at `offset` as
/// opening no frame.
pub fn push_unknown_magic_line(out: &mut Vec<u8>, offset: usize, magic: u8)
    ensures
        final(out)@ == old(out)@ + unknown_magic_line(offset as int, magic as int),
{
    out.extend_from_slice("in DecodeBuffer _buffer[".as_bytes());
    push_decimal_usize(out, offset);
    out.extend_from_slice("]:".as_bytes());
    push_decimal(out, magic as i64);
    out.extend_from_slice(" != NUM_START\n".as_bytes());
    assert(out@ =~= old(out)@ + unknown_magic_line(offset as int, magic as int));
}

/// `bytes` is one line: it ends in a line feed and holds no other.
pub open spec fn is_one_line(bytes: Seq<u8>) -> bool {
    &&& bytes.len() > 0
    &&& bytes[bytes.len() - 1] == 10
    &&& forall|i: int| 0 <= i < bytes.len() - 1 ==> bytes[i] != 10
}

/// The decimal digits of a number hold no line feed.
pub proof fn lemma_decimal_nat_no_line_feed(n: nat)
    ensures
        decimal_nat(n).len() > 0,
        forall|i: int| 0 <= i < decimal_nat(n).len() ==> decimal_nat(n)[i] != 10,
    decreases n,
{
    if n >= 10 {
        lemma_decimal_nat_no_line_feed(n / 10);
    }
}

/// The decimal form of a number holds no line feed.
pub proof fn lemma_decimal_no_line_feed(n: int)
    ensures
        decimal(n).len() > 0,
        forall|i: int| 0 <= i < decimal(n).len() ==> decimal(n)[i] != 10,
{
    if n < 0 {
        lemma_decimal_nat_no_line_feed((-n) as nat);
    } else {
        lemma_decimal_nat_no_line_feed(n as nat);
    }
}

/// The report of missing sequence numbers is one line.
pub proof fn lemma_seq_gap_line_is_one_line(first: int, last: int)
    ensures
        is_one_line(seq_gap_line(first, last)),
{
    broadcast use vstd::string::is_ascii_spec_bytes;

    reveal_strlit("[F]decode_log_file.py log seq:");
    reveal_strlit("-");
    reveal_strlit(" is missing\n");
    lemma_decimal_no_line_feed(first);
    lemma_decimal_no_line_feed(last);
    let a = "[F]decode_log_file.py log seq:";
    let b = "-";
    let c = " is missing\n";
    assert(is_ascii(a) && is_ascii(b) && is_ascii(c));
    assert(forall|i: int| 0 <= i < a.spec_bytes().len() ==> a.spec_bytes()[i] != 10);
    assert(c.spec_bytes().len() == 12);
    assert(c.spec_bytes()[11] == 10);
    assert(forall|i: int| 0 <= i < 11 ==> c.spec_bytes()[i] != 10);
}

/// The report of skipped bytes is one line.
pub proof fn lemma_resync_line_is_one_line(gap: int)
    ensures
        is_one_line(resync_line(gap)),
{
    broadcast use vstd::string::is_ascii_spec_bytes;

    reveal_strlit("[F]decode_log_file.py decode err|| len= ");
    reveal_strlit("\n");
    lemma_decimal_no_line_feed(gap);
    let a = "[F]decode_log_file.py decode err|| len= ";
    let c = "\n";
    assert(is_ascii(a) && is_ascii(c));
    assert(forall|i: int| 0 <= i < a.spec_bytes().len() ==> a.spec_bytes()[i] != 10);
    assert(c.spec_bytes().len() == 1);
    assert(c.spec_bytes()[0] == 10);
}

} // verus!
