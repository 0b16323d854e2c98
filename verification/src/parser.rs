//! Decoding received frames.
//!
//! Two decoders read the same wire format. `CommandParser` takes a whole
//! frame in one call and holds its length byte to the buffer's length.
//! `StepParser` reads field by field and lets a field that the buffer does
//! not reach count as absent. Neither checks the checksum byte.

use vstd::prelude::*;
use crate::builder::{checksum, frame, lemma_frame_layout, xor_fold};
use crate::constants::{FRAME_IDENTIFIER, MIN_PACKET_LENGTH};

verus! {

/// A frame could not be decoded; the number is the index in the buffer up to
/// which it could.
#[derive(Debug, Clone, Copy, PartialEq, Eq, Structural)]
pub struct ParseError(pub usize);

impl ParseError {
    /// The index up to which the buffer was decoded.
    pub fn index(&self) -> (i: usize)
        ensures
            i == self.0,
    {
        self.0
    }
}

/// Command code and payload of the frame `buffer`, or the index at which it
/// is no frame: 0 where it is too short to carry a payload or does not begin
/// with the start marker, 2 where its length byte is not the number of bytes
/// between the length byte and the checksum byte.
pub open spec fn decoded(buffer: Seq<u8>) -> Result<(u8, Seq<u8>), nat> {
    if buffer.len() <= MIN_PACKET_LENGTH || buffer[0] != FRAME_IDENTIFIER {
        Err(0nat)
    } else if buffer[2] != buffer.len() - 4 {
        Err(2nat)
    } else {
        Ok((buffer[1], buffer.subrange(3, buffer.len() - 1)))
    }
}

/// Whether `buffer` ends in the checksum of the bytes before it.
pub open spec fn checksum_holds(buffer: Seq<u8>) -> bool {
    buffer.len() > 0 && buffer.last() == checksum(buffer.drop_last())
}

/// Tells whether the last byte of `buffer` is the checksum of the bytes
/// before it. The decoders do not look at the checksum; a caller that wants
/// it checked asks here.
pub fn verify_checksum(buffer: &[u8]) -> (ok: bool)
    ensures
        ok == checksum_holds(buffer@),
{
    if buffer.len() == 0 {
        return false;
    }
    let last: usize = buffer.len() - 1;
    assert(buffer@.subrange(0, last as int) =~= buffer@.drop_last());
    buffer[last] == xor_fold(&buffer[0..last])
}

/// A decoded frame: its command code, the length of its payload, and the
/// payload, which lies in the buffer that was decoded.
#[derive(Debug)]
pub struct CommandParser<'a> {
    /// The command code: the frame's second byte.
    pub command: u8,
    /// The number of payload bytes, as the frame's length byte gives it.
    pub payload_length: usize,
    /// The payload: the bytes between the length byte and the checksum.
    pub data: &'a [u8],
}

impl<'a> CommandParser<'a> {
    /// Decodes `buffer` as one complete frame with a payload of at least
    /// one byte. A buffer of fewer than five bytes, or one that does not
    /// begin with the start marker, fails at index 0; a length byte that
    /// differs from the number of bytes between it and the last byte fails
    /// at index 2. The last byte is taken for the checksum and not looked at.
    pub fn parse(buffer: &'a [u8]) -> (r: Result<CommandParser<'a>, ParseError>)
        ensures
            match r {
                Ok(p) => decoded(buffer@) == Ok::<(u8, Seq<u8>), nat>((p.command, p.data@))
                    && p.payload_length == p.data@.len(),
                Err(e) => decoded(buffer@) == Err::<(u8, Seq<u8>), nat>(e.0 as nat),
            },
            buffer@.len() < 5 || buffer@[0] != 0xFF ==> (r matches Err(e) && e.0 == 0),
            buffer@.len() >= 5 && buffer@[0] == 0xFF && buffer@[2] != buffer@.len() - 4 ==> (
            r matches Err(e) && e.0 == 2),
    {
        if buffer.len() <= 4 || buffer[0] != FRAME_IDENTIFIER {
            return Err(ParseError(0));
        }
        let command: u8 = buffer[1];
        let payload_length: usize = buffer[2] as usize;
        if payload_length != buffer.len() - 4 {
            return Err(ParseError(2));
        }
        let data: &'a [u8] = &buffer[3..buffer.len() - 1];
        Ok(CommandParser { command, payload_length, data })
    }
}

/// How far a stepwise decoding has come: the cursor, whether every step so
/// far found what it expected, the length byte read last, and the payload
/// taken out last.
pub struct Progress {
    pub cursor: nat,
    pub valid: bool,
    pub length: nat,
    pub payload: Seq<u8>,
}

/// The progress before any step.
pub open spec fn at_start() -> Progress {
    Progress { cursor: 0, valid: true, length: 0, payload: Seq::empty() }
}

/// The progress after the step that expects the start marker and then the
/// identifier `id`. A failed decoding stays as it is. The step fails at the
/// cursor where `source` does not begin with the start marker; it fails one
/// byte further where fewer bytes than `id` has are left, or where the
/// next byte is not the first byte of `id` (an empty `id` has none). Else
/// the cursor moves past marker and identifier.
pub open spec fn after_identifier(source: Seq<u8>, p: Progress, id: Seq<u8>) -> Progress {
    if !p.valid {
        p
    } else if source.len() == 0 || source[0] != FRAME_IDENTIFIER {
        Progress { valid: false, ..p }
    } else if source.len() - (p.cursor + 1) < id.len() || id.len() == 0 || source[p.cursor
        + 1 as int] != id[0] {
        Progress { valid: false, cursor: p.cursor + 1, ..p }
    } else {
        Progress { cursor: p.cursor + 1 + id.len(), ..p }
    }
}

/// The progress after the step that expects a length byte and a payload of
/// that length. A failed decoding stays as it is, and so does one with no
/// byte left at the cursor. Else the length byte is read and the cursor
/// moves past it; where the payload is not empty and lies within `source`,
/// it is taken out and the cursor moves past it and one byte more.
pub open spec fn after_data(source: Seq<u8>, p: Progress) -> Progress {
    if !p.valid || p.cursor >= source.len() {
        p
    } else {
        let length = source[p.cursor as int] as nat;
        let start = p.cursor + 1;
        if length == 0 || start + length > source.len() {
            Progress { cursor: start, length: length, ..p }
        } else {
            Progress {
                cursor: start + length + 1,
                length: length,
                payload: source.subrange(start as int, (start + length) as int),
                ..p
            }
        }
    }
}

/// What the stepwise decoding ends in: the payload taken out last, or the
/// cursor of the step that failed.
pub open spec fn outcome(p: Progress) -> Result<Seq<u8>, nat> {
    if p.valid {
        Ok(p.payload)
    } else {
        Err(p.cursor)
    }
}

/// Decodes a received frame step by step. Each step takes the parser and
/// hands it back, so that steps can be chained; once a step has failed, the
/// steps after it change nothing.
pub struct StepParser<'a> {
    buffer: &'a [u8],
    buffer_index: usize,
    data_valid: bool,
    data_length: usize,
    data: &'a [u8],
}

impl<'a> StepParser<'a> {
    /// The bytes that are decoded.
    pub closed spec fn source(&self) -> Seq<u8> {
        self.buffer@
    }

    /// How far the decoding has come.
    pub closed spec fn progress(&self) -> Progress {
        Progress {
            cursor: self.buffer_index as nat,
            valid: self.data_valid,
            length: self.data_length as nat,
            payload: self.data@,
        }
    }

    /// While the decoding is valid, the cursor stands within the buffer or
    /// one past its end, and the buffer leaves room to count two bytes more.
    pub closed spec fn wf(&self) -> bool {
        &&& self.buffer@.len() + 2 <= usize::MAX
        &&& self.data_valid ==> self.buffer_index <= self.buffer@.len() + 1
    }

    /// Starts the decoding of `buffer` at its first byte. The cursor may
    /// come to stand two past the buffer's end, so that number has to fit a
    /// `usize`, as it does for every slice in memory.
    pub fn parse(buffer: &'a [u8]) -> (p: StepParser<'a>)
        requires
            buffer@.len() + 2 <= usize::MAX,
        ensures
            p.wf(),
            p.source() == buffer@,
            p.progress() == at_start(),
    {
        let data: &'a [u8] = &buffer[0..0];
        assert(data@ =~= Seq::<u8>::empty());
        StepParser { buffer, buffer_index: 0, data_valid: true, data_length: 0, data }
    }

    /// Expects the start marker and then the identifier `identifier`, of
    /// which the first byte is compared.
    pub fn expect_identifier(self, identifier: &[u8]) -> (p: StepParser<'a>)
        requires
            self.wf(),
        ensures
            p.wf(),
            p.source() == self.source(),
            p.progress() == after_identifier(self.source(), self.progress(), identifier@),
    {
        let mut parser = self;
        if !parser.data_valid {
            return parser;
        }
        if parser.buffer.len() == 0 || parser.buffer[0] != FRAME_IDENTIFIER {
            parser.data_valid = false;
            return parser;
        }
        parser.buffer_index += 1;
        if parser.buffer_index > parser.buffer.len() || parser.buffer.len() - parser.buffer_index
            < identifier.len() || identifier.len() == 0 {
            parser.data_valid = false;
            return parser;
        }
        if parser.buffer[parser.buffer_index] != identifier[0] {
            parser.data_valid = false;
            return parser;
        }
        parser.buffer_index += identifier.len();
        parser
    }

    /// Expects a length byte and a payload of that length. A payload that
    /// the buffer does not reach is taken as absent, not as a failure.
    pub fn expect_data(self) -> (p: StepParser<'a>)
        requires
            self.wf(),
        ensures
            p.wf(),
            p.source() == self.source(),
            p.progress() == after_data(self.source(), self.progress()),
    {
        let mut parser = self;
        if !parser.data_valid || parser.buffer_index >= parser.buffer.len() {
            return parser;
        }
        let length: usize = parser.buffer[parser.buffer_index] as usize;
        parser.data_length = length;
        parser.buffer_index += 1;
        let start: usize = parser.buffer_index;
        if length == 0 || parser.buffer.len() - start < length {
            return parser;
        }
        let whole: &'a [u8] = parser.buffer;
        parser.data = &whole[start..start + length];
        parser.buffer_index = start + length + 1;
        parser
    }

    /// Ends the decoding: the payload taken out last (empty where none was)
    /// if every step found what it expected, else the cursor of the step
    /// that failed.
    pub fn finish(self) -> (r: Result<&'a [u8], ParseError>)
        ensures
            match r {
                Ok(payload) => outcome(self.progress()) == Ok::<Seq<u8>, nat>(payload@),
                Err(e) => outcome(self.progress()) == Err::<Seq<u8>, nat>(e.0 as nat),
            },
    {
        if self.data_valid {
            Ok(self.data)
        } else {
            Err(ParseError(self.buffer_index))
        }
    }
}

/// Round trip: the frame of a command with a payload of 1 to 255 bytes
/// decodes to that command and that payload. (A frame without payload is
/// too short for the one-call decoder.)
pub proof fn lemma_decoded_frame(command: u8, payload: Seq<u8>)
    requires
        1 <= payload.len() <= u8::MAX,
    ensures
        decoded(frame(command, payload)) == Ok::<(u8, Seq<u8>), nat>((command, payload)),
{
    lemma_frame_layout(command, payload);
}

/// A frame without payload has four bytes, and the one-call decoder turns
/// it down at index 0.
pub proof fn lemma_decoded_bare_frame(command: u8)
    ensures
        decoded(frame(command, Seq::empty())) == Err::<(u8, Seq<u8>), nat>(0nat),
{
    lemma_frame_layout(command, Seq::empty());
}

/// The stepwise decoding of a frame with a payload of 1 to 255 bytes,
/// expecting the frame's command code and then data, ends in the payload.
pub proof fn lemma_steps_on_frame(command: u8, payload: Seq<u8>)
    requires
        1 <= payload.len() <= u8::MAX,
    ensures
        outcome(
            after_data(
                frame(command, payload),
                after_identifier(frame(command, payload), at_start(), seq![command]),
            ),
        ) == Ok::<Seq<u8>, nat>(payload),
{
    lemma_frame_layout(command, payload);
}

/// Once a decoding has failed, no step changes it.
pub proof fn lemma_failure_stays(source: Seq<u8>, p: Progress, id: Seq<u8>)
    requires
        !p.valid,
    ensures
        after_identifier(source, p, id) == p,
        after_data(source, p) == p,
        outcome(p) == Err::<Seq<u8>, nat>(p.cursor),
{
}

/// Every frame ends in its checksum.
pub proof fn lemma_frame_checksum_holds(command: u8, payload: Seq<u8>)
    requires
        payload.len() <= u8::MAX,
    ensures
        checksum_holds(frame(command, payload)),
{
    lemma_frame_layout(command, payload);
}

} // verus!
