use vstd::prelude::*;
use crate::text::{is_one_line, lemma_seq_gap_line_is_one_line, push_seq_gap_line, seq_gap_line};

verus! {

/// Whether a frame with sequence number `seq`, read when the last sequence
/// number seen was `last_seq`, shows that frames are missing. Zero as
/// `last_seq` means that no frame was seen yet; the numbers zero and one
/// start a run afresh.
pub open spec fn seq_gap(last_seq: i16, seq: i16) -> bool {
    seq != 0 && seq != 1 && last_seq != 0 && seq != last_seq + 1
}

/// The last sequence number seen once a frame with number `seq` was read.
pub open spec fn next_last_seq(last_seq: i16, seq: i16) -> i16 {
    if seq != 0 {
        seq
    } else {
        last_seq
    }
}

/// What the sequence check of a frame writes: one line where frames are
/// missing, else nothing.
pub open spec fn seq_output(last_seq: i16, seq: i16) -> Seq<u8> {
    if seq_gap(last_seq, seq) {
        seq_gap_line(last_seq + 1, seq - 1)
    } else {
        Seq::empty()
    }
}

/// Checks the sequence number `seq` of a frame against the last one seen,
/// reports missing frames to `output`, and returns the number to remember.
pub fn note_sequence(output: &mut Vec<u8>, last_seq: i16, seq: i16) -> (next: i16)
    ensures
        final(output)@ == old(output)@ + seq_output(last_seq, seq),
        next == next_last_seq(last_seq, seq),
{
    if seq != 0 && seq != 1 && last_seq != 0 && seq as i32 != last_seq as i32 + 1 {
        push_seq_gap_line(output, last_seq as i32 + 1, seq as i32 - 1);
    } else {
        assert(output@ + Seq::<u8>::empty() =~= output@);
    }
    if seq != 0 {
        seq
    } else {
        last_seq
    }
}

/// A frame whose sequence number is neither zero nor one makes that number
/// the last one seen; the last number seen does not decrease exactly when
/// the frame's number is not below it.
pub proof fn lemma_last_seq_follows(last_seq: i16, seq: i16)
    requires
        seq != 0,
        seq != 1,
    ensures
        next_last_seq(last_seq, seq) == seq,
        next_last_seq(last_seq, seq) >= last_seq <==> seq >= last_seq,
{
}

/// Over frames whose sequence numbers do not fall, the last number seen does
/// not fall either.
pub proof fn lemma_last_seq_monotone(last_seq: i16, seq: i16)
    requires
        seq != 0,
        seq != 1,
        last_seq <= seq,
    ensures
        last_seq <= next_last_seq(last_seq, seq),
{
}

/// A gap is reported by exactly one line, and a frame that shows no gap
/// writes nothing.
pub proof fn lemma_gap_reported_once(last_seq: i16, seq: i16)
    ensures
        seq_gap(last_seq, seq) ==> is_one_line(seq_output(last_seq, seq)),
        !seq_gap(last_seq, seq) ==> seq_output(last_seq, seq) == Seq::<u8>::empty(),
{
    lemma_seq_gap_line_is_one_line(last_seq + 1, seq - 1);
}

} // verus!
