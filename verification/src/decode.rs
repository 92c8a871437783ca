use vstd::prelude::*;
use vstd::slice::slice_subrange;
use vstd::string::*;
use crate::error::DecodeError;
use crate::frame::{
    frame_at,
    frame_size,
    get_log_start_pos,
    good_log_buf,
    is_good_log_buf,
    is_log_start,
    key_field_at,
    lemma_frame_shift,
    lemma_good_shift,
    lemma_payload_len_bound,
    lemma_scan_finds_first,
    log_start_pos,
    payload_at,
    payload_len_at,
    payload_start,
    read_header,
    seq_at,
};
use crate::magic::{END, FIXED_HEADER_LEN};
use crate::payload::{emit_payload, spec_payload_output};
use crate::sequence::{next_last_seq, note_sequence, seq_output};
use crate::text::{push_resync_line, push_unknown_magic_line, resync_line};

verus! {

/// Look-ahead of the scan that finds the first frame of an archive.
pub const START_LOOK_AHEAD: i8 = 2;

/// Look-ahead of the validator and of the scan between two frames.
pub const STEP_LOOK_AHEAD: i8 = 1;

/// The state of a decoder as contracts see it.
pub struct ContextView {
    /// The archive.
    pub input: Seq<u8>,
    /// What was written so far.
    pub output: Seq<u8>,
    /// The private key as a hex string; empty where the archive is taken to
    /// be unencrypted.
    pub private_key: Seq<char>,
    /// The last sequence number seen; zero before the first.
    pub last_seq: i16,
    /// The read position.
    pub offset: int,
}

/// What one step, or a whole run, of the decoder comes to.
pub struct Outcome {
    /// The read position afterwards.
    pub offset: int,
    /// The last sequence number seen afterwards.
    pub last_seq: i16,
    /// The bytes written.
    pub emitted: Seq<u8>,
    /// The error that ended it, if any.
    pub error: Option<DecodeError>,
}

/// The decoder of one archive.
pub struct Context {
    input: Vec<u8>,
    output: Vec<u8>,
    private_key: String,
    last_seq: i16,
    offset: usize,
}

impl View for Context {
    type V = ContextView;

    closed spec fn view(&self) -> ContextView {
        ContextView {
            input: self.input@,
            output: self.output@,
            private_key: self.private_key@,
            last_seq: self.last_seq,
            offset: self.offset as int,
        }
    }
}

/// The frame start that a step at `offset` reads from: `offset` itself where
/// the validator accepts it, else the first position behind it that a scan
/// of the remainder finds. `None` where the scan finds none.
pub open spec fn resync(input: Seq<u8>, offset: int) -> Option<int> {
    if good_log_buf(input, offset, STEP_LOOK_AHEAD as int) {
        Some(offset)
    } else {
        match log_start_pos(input.subrange(offset, input.len() as int), STEP_LOOK_AHEAD as int) {
            Some(gap) => Some(offset + gap),
            None => None,
        }
    }
}

/// One step of the decoder at `offset`.
pub open spec fn spec_decode_buf(
    input: Seq<u8>,
    key: Seq<char>,
    last_seq: i16,
    offset: int,
) -> Outcome {
    if offset >= input.len() {
        Outcome {
            offset,
            last_seq,
            emitted: Seq::empty(),
            error: Some(DecodeError::UnexpectedEof),
        }
    } else {
        match resync(input, offset) {
            None => Outcome {
                offset,
                last_seq,
                emitted: Seq::empty(),
                error: Some(DecodeError::ResyncFailed),
            },
            Some(start) => {
                let notice = if start == offset {
                    Seq::<u8>::empty()
                } else {
                    resync_line(start - offset)
                };
                let seq = seq_at(input, start);
                let notes = notice + seq_output(last_seq, seq);
                match spec_payload_output(
                    input[start],
                    key,
                    key_field_at(input, start),
                    payload_at(input, start),
                ) {
                    Ok(bytes) => Outcome {
                        offset: start + frame_size(input, start),
                        last_seq: next_last_seq(last_seq, seq),
                        emitted: notes + bytes,
                        error: None,
                    },
                    Err(e) => Outcome {
                        offset: start,
                        last_seq: next_last_seq(last_seq, seq),
                        emitted: notes,
                        error: Some(e),
                    },
                }
            },
        }
    }
}

/// The steps of the decoder from `offset` on, until the input is used up or
/// a step fails.
pub open spec fn spec_run(input: Seq<u8>, key: Seq<char>, last_seq: i16, offset: int) -> Outcome
    decreases input.len() - offset,
    when 0 <= offset
    via spec_run_terminates
{
    if offset >= input.len() {
        Outcome { offset, last_seq, emitted: Seq::empty(), error: None }
    } else {
        let step = spec_decode_buf(input, key, last_seq, offset);
        if step.error is Some {
            step
        } else {
            let rest = spec_run(input, key, step.last_seq, step.offset);
            Outcome { emitted: step.emitted + rest.emitted, ..rest }
        }
    }
}

#[via_fn]
proof fn spec_run_terminates(input: Seq<u8>, key: Seq<char>, last_seq: i16, offset: int) {
    if offset < input.len() {
        lemma_step_advances(input, key, last_seq, offset);
    }
}

/// The payload of a frame ends in no other error than a rejected key, a
/// rejected stream or a sub-record that runs past the payload.
pub proof fn lemma_payload_errors(magic: u8, key: Seq<char>, key_field: Seq<u8>, payload: Seq<u8>)
    ensures
        match spec_payload_output(magic, key, key_field, payload) {
            Ok(_) => true,
            Err(e) => e == DecodeError::Crypto || e == DecodeError::Decompress || e
                == DecodeError::BadSubRecord,
        },
{
}

/// A step reports the end of the input exactly when the read position is at
/// or past it.
pub proof fn lemma_eof_only_at_end(input: Seq<u8>, key: Seq<char>, last_seq: i16, offset: int)
    ensures
        spec_decode_buf(input, key, last_seq, offset).error == Some(DecodeError::UnexpectedEof)
            <==> offset >= input.len(),
{
    if offset < input.len() {
        match resync(input, offset) {
            Some(start) => {
                lemma_payload_errors(
                    input[start],
                    key,
                    key_field_at(input, start),
                    payload_at(input, start),
                );
            },
            None => {},
        }
    }
}

/// A whole decode: the scan for the first frame, then the steps from there.
pub open spec fn spec_decode(input: Seq<u8>, key: Seq<char>, last_seq: i16, offset: int) -> Outcome {
    match log_start_pos(input, START_LOOK_AHEAD as int) {
        None => Outcome {
            offset,
            last_seq,
            emitted: Seq::empty(),
            error: Some(DecodeError::InvalidArchive),
        },
        Some(start) => spec_run(input, key, last_seq, start),
    }
}

/// The position that a step reads from lies at or behind the read position
/// and starts a well-formed frame.
pub proof fn lemma_resync_is_frame(input: Seq<u8>, offset: int)
    requires
        0 <= offset < input.len(),
        resync(input, offset) is Some,
    ensures
        offset <= resync(input, offset).unwrap() < input.len(),
        frame_at(input, resync(input, offset).unwrap()),
        good_log_buf(input, resync(input, offset).unwrap(), STEP_LOOK_AHEAD as int),
{
    if !good_log_buf(input, offset, STEP_LOOK_AHEAD as int) {
        let rest = input.subrange(offset, input.len() as int);
        lemma_scan_finds_first(rest, 0, STEP_LOOK_AHEAD as int);
        let gap = log_start_pos(rest, STEP_LOOK_AHEAD as int).unwrap();
        lemma_good_shift(input, offset, gap, STEP_LOOK_AHEAD as int);
    }
}

/// A step that succeeds moves the read position forward by one frame and
/// stays within the input; any other step leaves it before the end.
pub proof fn lemma_step_advances(input: Seq<u8>, key: Seq<char>, last_seq: i16, offset: int)
    requires
        0 <= offset < input.len(),
    ensures
        spec_decode_buf(input, key, last_seq, offset).error is None ==> offset < spec_decode_buf(
            input,
            key,
            last_seq,
            offset,
        ).offset <= input.len(),
        offset <= spec_decode_buf(input, key, last_seq, offset).offset <= input.len(),
{
    if resync(input, offset) is Some {
        lemma_resync_is_frame(input, offset);
        lemma_payload_len_bound(input, resync(input, offset).unwrap());
    }
}

/// A run that ends without an error ends at the end of the input.
pub proof fn lemma_run_ends_at_end(input: Seq<u8>, key: Seq<char>, last_seq: i16, offset: int)
    requires
        0 <= offset <= input.len(),
    ensures
        offset <= spec_run(input, key, last_seq, offset).offset <= input.len(),
        spec_run(input, key, last_seq, offset).error is None ==> spec_run(
            input,
            key,
            last_seq,
            offset,
        ).offset == input.len(),
    decreases input.len() - offset,
{
    if offset < input.len() {
        lemma_step_advances(input, key, last_seq, offset);
        let step = spec_decode_buf(input, key, last_seq, offset);
        if step.error is None {
            lemma_run_ends_at_end(input, key, step.last_seq, step.offset);
        }
    }
}

/// A decode that succeeds leaves the read position at the end of the
/// archive.
pub proof fn lemma_decode_ends_at_end(input: Seq<u8>, key: Seq<char>, last_seq: i16, offset: int)
    ensures
        spec_decode(input, key, last_seq, offset).error is None ==> spec_decode(
            input,
            key,
            last_seq,
            offset,
        ).offset == input.len(),
{
    lemma_scan_finds_first(input, 0, START_LOOK_AHEAD as int);
    match log_start_pos(input, START_LOOK_AHEAD as int) {
        Some(start) => {
            lemma_run_ends_at_end(input, key, last_seq, start);
        },
        None => {},
    }
}

/// Every frame that a step decodes ends in the terminator: the byte behind
/// its payload is zero, and the step moves the read position just behind it,
/// to the end of the input or to the start of a well-formed frame.
pub proof fn lemma_decoded_frame_terminated(
    input: Seq<u8>,
    key: Seq<char>,
    last_seq: i16,
    offset: int,
)
    requires
        0 <= offset < input.len(),
        spec_decode_buf(input, key, last_seq, offset).error is None,
    ensures
        resync(input, offset) is Some,
        ({
            let start = resync(input, offset).unwrap();
            let end = payload_start(input, start) + payload_len_at(input, start);
            &&& frame_at(input, start)
            &&& 0 <= end < input.len()
            &&& input[end] == END
            &&& spec_decode_buf(input, key, last_seq, offset).offset == end + 1
            &&& end + 1 == start + frame_size(input, start)
            &&& good_log_buf(input, end + 1, 0)
        }),
{
    lemma_resync_is_frame(input, offset);
}

/// A step does not look behind the read position: a step over the remainder
/// `input[from..]` does what the step over `input` does, `from` bytes
/// further on.
pub proof fn lemma_step_ignores_prefix(
    input: Seq<u8>,
    key: Seq<char>,
    last_seq: i16,
    from: int,
    offset: int,
)
    requires
        0 <= from <= input.len(),
        0 <= offset,
    ensures
        ({
            let rest = spec_decode_buf(
                input.subrange(from, input.len() as int),
                key,
                last_seq,
                offset,
            );
            let whole = spec_decode_buf(input, key, last_seq, from + offset);
            &&& rest.offset + from == whole.offset
            &&& rest.last_seq == whole.last_seq
            &&& rest.emitted == whole.emitted
            &&& rest.error == whole.error
        }),
{
    let tail = input.subrange(from, input.len() as int);
    if offset < tail.len() {
        lemma_good_shift(input, from, offset, STEP_LOOK_AHEAD as int);
        assert(tail.subrange(offset, tail.len() as int) =~= input.subrange(
            from + offset,
            input.len() as int,
        ));
        if resync(input, from + offset) is Some {
            lemma_resync_is_frame(input, from + offset);
            let start = resync(input, from + offset).unwrap();
            let at = start - from;
            lemma_frame_shift(input, from, at);
            lemma_payload_len_bound(input, start);
            assert(tail[at] == input[start]);
            assert(tail.subrange(at + 1, at + 3) =~= input.subrange(start + 1, start + 3));
            assert(tail.subrange(at + 5, at + 9) =~= input.subrange(start + 5, start + 9));
            assert(key_field_at(tail, at) =~= key_field_at(input, start));
            assert(payload_at(tail, at) =~= payload_at(input, start));
        }
    }
}

/// A run does not look behind the position it starts from.
pub proof fn lemma_run_ignores_prefix(
    input: Seq<u8>,
    key: Seq<char>,
    last_seq: i16,
    from: int,
    offset: int,
)
    requires
        0 <= from <= input.len(),
        0 <= offset,
    ensures
        ({
            let rest = spec_run(input.subrange(from, input.len() as int), key, last_seq, offset);
            let whole = spec_run(input, key, last_seq, from + offset);
            &&& rest.offset + from == whole.offset
            &&& rest.last_seq == whole.last_seq
            &&& rest.emitted == whole.emitted
            &&& rest.error == whole.error
        }),
    decreases input.len() - from - offset,
{
    let tail = input.subrange(from, input.len() as int);
    if offset < tail.len() {
        lemma_step_ignores_prefix(input, key, last_seq, from, offset);
        lemma_step_advances(input, key, last_seq, from + offset);
        let step = spec_decode_buf(tail, key, last_seq, offset);
        if step.error is None {
            lemma_run_ignores_prefix(input, key, step.last_seq, from, step.offset);
        }
    }
}

/// Junk in front of an archive is skipped in silence: where no position of
/// the junk passes for the start of a frame, the archive behind it is decoded
/// as it is without the junk.
pub proof fn lemma_leading_junk_skipped(
    junk: Seq<u8>,
    archive: Seq<u8>,
    key: Seq<char>,
    last_seq: i16,
    offset: int,
)
    requires
        log_start_pos(archive, START_LOOK_AHEAD as int) == Some(0int),
        forall|q: int|
            0 <= q < junk.len() ==> !is_log_start(junk + archive, q, START_LOOK_AHEAD as int),
    ensures
        ({
            let with_junk = spec_decode(junk + archive, key, last_seq, offset);
            let without = spec_decode(archive, key, last_seq, offset);
            &&& with_junk.offset == junk.len() + without.offset
            &&& with_junk.last_seq == without.last_seq
            &&& with_junk.emitted == without.emitted
            &&& with_junk.error == without.error
        }),
{
    let input = junk + archive;
    let from = junk.len() as int;
    assert(input.subrange(from, input.len() as int) =~= archive);
    lemma_scan_finds_first(archive, 0, START_LOOK_AHEAD as int);
    lemma_good_shift(input, from, 0, START_LOOK_AHEAD as int);
    assert(input[from] == archive[0]);
    lemma_scan_finds_first(input, 0, START_LOOK_AHEAD as int);
    assert(is_log_start(input, from, START_LOOK_AHEAD as int));
    assert(log_start_pos(input, START_LOOK_AHEAD as int) == Some(from));
    lemma_run_ignores_prefix(input, key, last_seq, from, 0);
}

/// An archive without bytes is invalid.
pub proof fn lemma_empty_archive_invalid(key: Seq<char>, last_seq: i16, offset: int)
    ensures
        spec_decode(Seq::<u8>::empty(), key, last_seq, offset).error == Some(
            DecodeError::InvalidArchive,
        ),
{
}

impl Context {
    /// A decoder for the archive `input` that appends to `output`, with the
    /// private key `private_key` as a hex string, empty where the archive is
    /// taken to be unencrypted.
    pub fn new(input: Vec<u8>, output: Vec<u8>, private_key: String) -> (ctx: Context)
        ensures
            ctx@ == (ContextView {
                input: input@,
                output: output@,
                private_key: private_key@,
                last_seq: 0,
                offset: 0,
            }),
    {
        Context { input, output, private_key, last_seq: 0, offset: 0 }
    }

    /// The archive.
    pub fn input(&self) -> (r: &[u8])
        ensures
            r@ == self@.input,
    {
        self.input.as_slice()
    }

    /// What was written so far.
    pub fn output(&self) -> (r: &[u8])
        ensures
            r@ == self@.output,
    {
        self.output.as_slice()
    }

    /// The last sequence number seen; zero before the first.
    pub fn last_seq(&self) -> (r: i16)
        ensures
            r == self@.last_seq,
    {
        self.last_seq
    }

    /// The read position.
    pub fn offset(&self) -> (r: usize)
        ensures
            r as int == self@.offset,
    {
        self.offset
    }

    /// Gives up the decoder for what it wrote.
    pub fn into_output(self) -> (r: Vec<u8>)
        ensures
            r@ == self@.output,
    {
        self.output
    }

    /// Decodes the frame at the read position, after finding the next
    /// well-formed frame where the bytes there are none. Returns the read
    /// position behind the frame.
    pub fn decode_buf(&mut self) -> (r: Result<usize, DecodeError>)
        ensures
            ({
                let before = old(self)@;
                let step = spec_decode_buf(
                    before.input,
                    before.private_key,
                    before.last_seq,
                    before.offset,
                );
                &&& final(self)@ == (ContextView {
                    output: before.output + step.emitted,
                    last_seq: step.last_seq,
                    offset: step.offset,
                    ..before
                })
                &&& r == match step.error {
                    None => Ok::<usize, DecodeError>(step.offset as usize),
                    Some(e) => Err::<usize, DecodeError>(e),
                }
                &&& r is Ok ==> before.offset < step.offset <= before.input.len()
                    && before.input[step.offset - 1] == END
            }),
    {
        let n: usize = self.input.len();
        if self.offset >= n {
            assert(self.output@ + Seq::<u8>::empty() =~= self.output@);
            return Err(DecodeError::UnexpectedEof);
        }
        let ghost before = self@;
        proof {
            lemma_step_advances(
                before.input,
                before.private_key,
                before.last_seq,
                before.offset,
            );
        }
        if !is_good_log_buf(self.input.as_slice(), self.offset, STEP_LOOK_AHEAD) {
            match get_log_start_pos(
                slice_subrange(self.input.as_slice(), self.offset, n),
                STEP_LOOK_AHEAD,
            ) {
                Some(gap) => {
                    proof {
                        lemma_scan_finds_first(
                            before.input.subrange(before.offset, n as int),
                            0,
                            STEP_LOOK_AHEAD as int,
                        );
                    }
                    push_resync_line(&mut self.output, gap);
                    self.offset = self.offset + gap;
                },
                None => {
                    assert(self.output@ + Seq::<u8>::empty() =~= self.output@);
                    return Err(DecodeError::ResyncFailed);
                },
            }
        } else {
            assert(self.output@ + Seq::<u8>::empty() =~= self.output@);
        }
        let start: usize = self.offset;
        proof {
            lemma_resync_is_frame(before.input, before.offset);
            lemma_payload_len_bound(before.input, start as int);
        }
        let header = match read_header(self.input.as_slice(), start) {
            Ok(header) => header,
            Err(e) => {
                // Not reached: the validator has accepted `start`.
                if e == DecodeError::UnknownMagic {
                    push_unknown_magic_line(&mut self.output, start, self.input[start]);
                }
                return Err(e);
            },
        };
        self.last_seq = note_sequence(&mut self.output, self.last_seq, header.seq);
        let key_start: usize = start + FIXED_HEADER_LEN;
        let body_start: usize = key_start + header.key_len;
        let body_end: usize = body_start + header.length as usize;
        let emitted = emit_payload(
            &mut self.output,
            header.magic,
            self.private_key.as_str(),
            slice_subrange(self.input.as_slice(), key_start, body_start),
            slice_subrange(self.input.as_slice(), body_start, body_end),
        );
        match emitted {
            Ok(_) => {
                self.offset = body_end + 1;
                proof {
                    let step = spec_decode_buf(
                        before.input,
                        before.private_key,
                        before.last_seq,
                        before.offset,
                    );
                    assert(self.output@ =~= before.output + step.emitted);
                }
                Ok(body_end + 1)
            },
            Err(e) => {
                proof {
                    let step = spec_decode_buf(
                        before.input,
                        before.private_key,
                        before.last_seq,
                        before.offset,
                    );
                    assert(self.output@ =~= before.output + step.emitted);
                }
                Err(e)
            },
        }
    }

    /// Decodes the archive: finds its first frame, then decodes frame after
    /// frame until the input is used up. What was decoded before an error
    /// stays in the output.
    pub fn decode(&mut self) -> (r: Result<(), DecodeError>)
        ensures
            ({
                let before = old(self)@;
                let run = spec_decode(
                    before.input,
                    before.private_key,
                    before.last_seq,
                    before.offset,
                );
                &&& final(self)@ == (ContextView {
                    output: before.output + run.emitted,
                    last_seq: run.last_seq,
                    offset: run.offset,
                    ..before
                })
                &&& r == match run.error {
                    None => Ok::<(), DecodeError>(()),
                    Some(e) => Err::<(), DecodeError>(e),
                }
                &&& r is Ok ==> final(self)@.offset == before.input.len()
            }),
    {
        let ghost before = self@;
        match get_log_start_pos(self.input.as_slice(), START_LOOK_AHEAD) {
            Some(start) => {
                self.offset = start;
            },
            None => {
                assert(self.output@ + Seq::<u8>::empty() =~= self.output@);
                return Err(DecodeError::InvalidArchive);
            },
        }
        let ghost run = spec_decode(
            before.input,
            before.private_key,
            before.last_seq,
            before.offset,
        );
        proof {
            lemma_scan_finds_first(before.input, 0, START_LOOK_AHEAD as int);
            lemma_decode_ends_at_end(
                before.input,
                before.private_key,
                before.last_seq,
                before.offset,
            );
            assert(self.output@ + run.emitted =~= before.output + run.emitted);
        }
        loop
            invariant
                before == old(self)@,
                run == spec_decode(
                    before.input,
                    before.private_key,
                    before.last_seq,
                    before.offset,
                ),
                run.error is None ==> run.offset == before.input.len(),
                self@.input == before.input,
                self@.private_key == before.private_key,
                0 <= self@.offset <= before.input.len(),
                ({
                    let rest = spec_run(
                        before.input,
                        before.private_key,
                        self@.last_seq,
                        self@.offset,
                    );
                    &&& rest.offset == run.offset
                    &&& rest.last_seq == run.last_seq
                    &&& rest.error == run.error
                    &&& self@.output + rest.emitted == before.output + run.emitted
                }),
            decreases before.input.len() - self@.offset,
        {
            let ghost at = self@;
            proof {
                lemma_eof_only_at_end(at.input, at.private_key, at.last_seq, at.offset);
                if at.offset < at.input.len() {
                    lemma_step_advances(at.input, at.private_key, at.last_seq, at.offset);
                }
            }
            match self.decode_buf() {
                Ok(_) => {
                    proof {
                        let step = spec_decode_buf(
                            at.input,
                            at.private_key,
                            at.last_seq,
                            at.offset,
                        );
                        let rest = spec_run(at.input, at.private_key, step.last_seq, step.offset);
                        assert((at.output + step.emitted) + rest.emitted =~= at.output + (
                        step.emitted + rest.emitted));
                    }
                },
                Err(e) => {
                    if e == DecodeError::UnexpectedEof {
                        proof {
                            assert(at.output + Seq::<u8>::empty() =~= at.output);
                            assert(self@.output =~= before.output + run.emitted);
                        }
                        return Ok(());
                    }
                    return Err(e);
                },
            }
        }
    }
}

} // verus!
