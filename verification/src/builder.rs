//! Building outbound command frames into a caller's buffer.
//!
//! A frame is the start marker, a command code, the payload's length, the
//! payload, and a checksum: the XOR of every byte before it. A builder is
//! made by one of the command constructors, which write marker, command,
//! length and payload; `finish` adds the checksum and hands out the frame.
//! Writing never goes past the end of the buffer: bytes that do not fit are
//! left out and only counted, and `finish` reports the length that was needed.

use vstd::prelude::*;
use crate::constants::{
    WMBusMode, CMD_DATA_REQ, CMD_FWV_REQ, CMD_RESET_REQ, CMD_RSSI_REQ, CMD_SETUARTSPEED_REQ,
    CMD_SET_MODE_REQ, FRAME_IDENTIFIER,
};

verus! {

/// The separator byte that `finish` drops from the end of a frame.
pub const TRAILING_SEPARATOR: u8 = 0x2C;

/// XOR of all bytes of `bytes`; 0 for the empty sequence.
pub open spec fn checksum(bytes: Seq<u8>) -> u8
    decreases bytes.len(),
{
    if bytes.len() == 0 {
        0u8
    } else {
        checksum(bytes.drop_last()) ^ bytes.last()
    }
}

/// Start marker, command code, length byte and payload: a frame without its
/// checksum.
pub open spec fn header(command: u8, payload: Seq<u8>) -> Seq<u8> {
    seq![FRAME_IDENTIFIER, command, payload.len() as u8] + payload
}

/// Whether `bytes` is a frame without its checksum: it begins with the
/// start marker, and its third byte is the number of bytes behind it.
pub open spec fn holds_command(bytes: Seq<u8>) -> bool {
    &&& bytes.len() >= 3
    &&& bytes[0] == FRAME_IDENTIFIER
    &&& bytes[2] == bytes.len() - 3
}

/// `bytes` followed by their checksum.
pub open spec fn sealed(bytes: Seq<u8>) -> Seq<u8> {
    bytes.push(checksum(bytes))
}

/// The complete frame of `command` with `payload`.
pub open spec fn frame(command: u8, payload: Seq<u8>) -> Seq<u8> {
    sealed(header(command, payload))
}

/// `bytes` without its last byte where that byte is the separator, else
/// `bytes` itself.
pub open spec fn trimmed(bytes: Seq<u8>) -> Seq<u8> {
    if bytes.len() > 0 && bytes.last() == TRAILING_SEPARATOR {
        bytes.drop_last()
    } else {
        bytes
    }
}

/// What `finish` yields for a builder that was asked to write `written` into
/// a buffer of `capacity` bytes: the sealed and trimmed frame where it fits,
/// else the number of bytes that it needs.
pub open spec fn finished(written: Seq<u8>, capacity: nat) -> Result<Seq<u8>, nat> {
    if written.len() + 1 <= capacity {
        Ok(trimmed(sealed(written)))
    } else {
        Err(written.len() + 1)
    }
}

/// Bounded append on a buffer that holds `storage`: `data` stands at
/// `offset` where all of it fits, else the buffer is as before.
pub open spec fn appended(storage: Seq<u8>, offset: nat, data: Seq<u8>) -> Seq<u8> {
    if offset + data.len() <= storage.len() {
        storage.take(offset as int) + data + storage.skip((offset + data.len()) as int)
    } else {
        storage
    }
}

/// What a buffer that held `storage` holds after marker, command code,
/// length byte and payload were appended to it in turn, each as far as it
/// fitted.
pub open spec fn laid_out(storage: Seq<u8>, command: u8, payload: Seq<u8>) -> Seq<u8> {
    appended(
        appended(
            appended(appended(storage, 0, seq![FRAME_IDENTIFIER]), 1, seq![command]),
            2,
            seq![payload.len() as u8],
        ),
        3,
        payload,
    )
}

/// Computes the checksum of `bytes`.
pub fn xor_fold(bytes: &[u8]) -> (cs: u8)
    ensures
        cs == checksum(bytes@),
{
    let mut result: u8 = 0;
    let mut i: usize = 0;
    assert(bytes@.take(0) =~= Seq::<u8>::empty());
    while i < bytes.len()
        invariant
            i <= bytes@.len(),
            result == checksum(bytes@.take(i as int)),
        decreases bytes@.len() - i,
    {
        assert(bytes@.take(i + 1).drop_last() =~= bytes@.take(i as int));
        result = result ^ bytes[i];
        i += 1;
    }
    assert(bytes@.take(bytes@.len() as int) =~= bytes@);
    result
}

/// Marker of a builder that no command was written to yet.
pub struct Uninitialized;

/// Marker of a builder that holds a command and can be finished.
pub struct Command;

/// Marker of a builder that was set up for the stage `T`.
pub struct Initialized<T>(core::marker::PhantomData<T>);

/// Stages in which a builder can be finished.
pub trait Finishable {}

impl Finishable for Command {}

/// Writes one command frame into a borrowed buffer. `STAGE` says how far the
/// frame has come; `finish` exists only for a stage that is `Finishable`.
pub struct CommandBuilder<'a, STAGE> {
    /// The borrowed buffer that the frame is written to.
    pub buffer: &'a mut [u8],
    /// The write offset; it may stand past the end of the buffer.
    pub index: usize,
    /// Every byte that was to be written, in order.
    pub asked: Ghost<Seq<u8>>,
    /// The stage that the builder is in.
    pub phantom: core::marker::PhantomData<STAGE>,
}

impl<'a, ANY> CommandBuilder<'a, ANY> {
    /// Every byte that the builder was asked to write so far, whether it
    /// fitted or not.
    pub open spec fn written(&self) -> Seq<u8> {
        self.asked@
    }

    /// Length of the borrowed buffer.
    pub open spec fn capacity(&self) -> nat {
        self.buffer@.len()
    }

    /// What the borrowed buffer holds now.
    pub open spec fn storage(&self) -> Seq<u8> {
        self.buffer@
    }

    /// The write offset: the number of bytes asked for so far.
    pub open spec fn offset(&self) -> nat {
        self.index as nat
    }

    /// The offset counts the bytes asked for, and while they all fit the
    /// buffer starts with exactly those bytes.
    pub open spec fn coherent(&self) -> bool {
        &&& self.index == self.asked@.len()
        &&& self.index <= self.buffer@.len() ==> self.buffer@.take(self.index as int)
            == self.asked@
    }

    /// The builder is coherent and was asked to write a command: marker,
    /// command code, the payload's length and a payload of that length.
    /// Only such a builder can be finished.
    pub open spec fn wf(&self) -> bool {
        &&& self.coherent()
        &&& holds_command(self.asked@)
    }

    /// Bounded append: copies `data` to the write offset where the buffer
    /// has room for all of it, leaves the buffer alone where it has not, and
    /// moves the offset on by `data`'s length in both cases.
    fn try_append_data(&mut self, data: &[u8])
        requires
            old(self).coherent(),
            old(self).offset() + data@.len() <= usize::MAX,
        ensures
            final(self).coherent(),
            final(self).written() == old(self).written() + data@,
            final(self).offset() == old(self).offset() + data@.len(),
            final(self).capacity() == old(self).capacity(),
            final(self).storage() == appended(old(self).storage(), old(self).offset(), data@),
            final(final(self).buffer)@ == final(old(self).buffer)@,
    {
        let n: usize = data.len();
        let start: usize = self.index;
        if n <= self.buffer.len() && start <= self.buffer.len() - n {
            let mut i: usize = 0;
            while i < n
                invariant
                    n == data@.len(),
                    start + n <= self.buffer@.len(),
                    start + n <= usize::MAX,
                    self.buffer@.len() == old(self).buffer@.len(),
                    i <= n,
                    self.index == start,
                    self.asked == old(self).asked,
                    final(self.buffer)@ == final(old(self).buffer)@,
                    self.buffer@ == old(self).buffer@.take(start as int) + data@.take(i as int)
                        + old(self).buffer@.skip(start + i),
                decreases n - i,
            {
                self.buffer[start + i] = data[i];
                i += 1;
                assert(self.buffer@ =~= old(self).buffer@.take(start as int) + data@.take(
                    i as int,
                ) + old(self).buffer@.skip(start + i));
            }
            assert(data@.take(n as int) =~= data@);
            assert(self.buffer@.take(start + n) =~= old(self).asked@ + data@);
        }
        self.index = start + n;
        self.asked = Ghost(self.asked@ + data@);
    }

    /// A builder at the start of `buffer`, with `command` and the length
    /// byte `length` behind the start marker.
    fn begin(buffer: &'a mut [u8], command: u8, length: u8) -> (b: CommandBuilder<'a, Command>)
        ensures
            b.coherent(),
            b.offset() == 3,
            b.written() == seq![FRAME_IDENTIFIER, command, length],
            b.capacity() == old(buffer)@.len(),
            b.storage() == appended(
                appended(appended(old(buffer)@, 0, seq![FRAME_IDENTIFIER]), 1, seq![command]),
                2,
                seq![length],
            ),
            final(b.buffer)@ == final(buffer)@,
    {
        let mut builder = CommandBuilder::<'a, Command> {
            buffer,
            index: 0,
            asked: Ghost(Seq::empty()),
            phantom: core::marker::PhantomData,
        };
        assert(builder.buffer@.take(0) =~= Seq::<u8>::empty());
        builder.try_append_data(&[FRAME_IDENTIFIER]);
        builder.try_append_data(&[command]);
        builder.try_append_data(&[length]);
        assert(builder.asked@ =~= seq![FRAME_IDENTIFIER, command, length]);
        builder
    }
}

impl<'a> CommandBuilder<'a, Uninitialized> {
    /// Query of the firmware version: a frame without payload. The module
    /// answers with major, minor and patch number as payload.
    pub fn get_firmware_version(buffer: &'a mut [u8]) -> (b: CommandBuilder<'a, Command>)
        ensures
            b.wf(),
            b.written() == header(CMD_FWV_REQ, Seq::empty()),
            b.capacity() == old(buffer)@.len(),
            b.storage() == laid_out(old(buffer)@, CMD_FWV_REQ, Seq::empty()),
            final(b.buffer)@ == final(buffer)@,
    {
        let builder = CommandBuilder::<'a, Command>::begin(buffer, CMD_FWV_REQ, 0x00);
        assert(builder.written() =~= header(CMD_FWV_REQ, Seq::empty()));
        assert(builder.storage() =~= laid_out(old(buffer)@, CMD_FWV_REQ, Seq::empty()));
        builder
    }

    /// Software reset of the module: a frame without payload.
    pub fn reset_module(buffer: &'a mut [u8]) -> (b: CommandBuilder<'a, Command>)
        ensures
            b.wf(),
            b.written() == header(CMD_RESET_REQ, Seq::empty()),
            b.capacity() == old(buffer)@.len(),
            b.storage() == laid_out(old(buffer)@, CMD_RESET_REQ, Seq::empty()),
            final(b.buffer)@ == final(buffer)@,
    {
        let builder = CommandBuilder::<'a, Command>::begin(buffer, CMD_RESET_REQ, 0x00);
        assert(builder.written() =~= header(CMD_RESET_REQ, Seq::empty()));
        assert(builder.storage() =~= laid_out(old(buffer)@, CMD_RESET_REQ, Seq::empty()));
        builder
    }

    /// Query of the receive level as the transceiver measured it: a frame
    /// without payload.
    pub fn get_rx_level(buffer: &'a mut [u8]) -> (b: CommandBuilder<'a, Command>)
        ensures
            b.wf(),
            b.written() == header(CMD_RSSI_REQ, Seq::empty()),
            b.capacity() == old(buffer)@.len(),
            b.storage() == laid_out(old(buffer)@, CMD_RSSI_REQ, Seq::empty()),
            final(b.buffer)@ == final(buffer)@,
    {
        let builder = CommandBuilder::<'a, Command>::begin(buffer, CMD_RSSI_REQ, 0x00);
        assert(builder.written() =~= header(CMD_RSSI_REQ, Seq::empty()));
        assert(builder.storage() =~= laid_out(old(buffer)@, CMD_RSSI_REQ, Seq::empty()));
        builder
    }

    /// Radio transmission of `data`, which is the payload as it stands. Its
    /// length has to fit the length byte.
    pub fn send_data(buffer: &'a mut [u8], data: &[u8]) -> (b: CommandBuilder<'a, Command>)
        requires
            data@.len() <= u8::MAX,
        ensures
            b.wf(),
            b.written() == header(CMD_DATA_REQ, data@),
            b.capacity() == old(buffer)@.len(),
            b.storage() == laid_out(old(buffer)@, CMD_DATA_REQ, data@),
            final(b.buffer)@ == final(buffer)@,
    {
        let length: u8 = data.len() as u8;
        let mut builder = CommandBuilder::<'a, Command>::begin(buffer, CMD_DATA_REQ, length);
        builder.try_append_data(data);
        builder
    }

    /// Change of the wM-Bus mode in the volatile memory of the module: the
    /// payload is the mode's byte.
    pub fn set_mode(buffer: &'a mut [u8], mode: WMBusMode) -> (b: CommandBuilder<'a, Command>)
        ensures
            b.wf(),
            b.written() == header(CMD_SET_MODE_REQ, seq![mode.byte()]),
            b.capacity() == old(buffer)@.len(),
            b.storage() == laid_out(old(buffer)@, CMD_SET_MODE_REQ, seq![mode.byte()]),
            final(b.buffer)@ == final(buffer)@,
    {
        let mut builder = CommandBuilder::<'a, Command>::begin(buffer, CMD_SET_MODE_REQ, 0x01);
        builder.try_append_data(&[mode.code()]);
        assert(builder.written() =~= header(CMD_SET_MODE_REQ, seq![mode.byte()]));
        builder
    }

    /// Change of the UART speed: the payload is the index of the baud rate
    /// in the module's table (3 is 9600, 7 is 115200). The index is passed
    /// on as it is.
    pub fn set_uart_speed(buffer: &'a mut [u8], speed_index: u8) -> (b: CommandBuilder<
        'a,
        Command,
    >)
        ensures
            b.wf(),
            b.written() == header(CMD_SETUARTSPEED_REQ, seq![speed_index]),
            b.capacity() == old(buffer)@.len(),
            b.storage() == laid_out(old(buffer)@, CMD_SETUARTSPEED_REQ, seq![speed_index]),
            final(b.buffer)@ == final(buffer)@,
    {
        let mut builder = CommandBuilder::<'a, Command>::begin(
            buffer,
            CMD_SETUARTSPEED_REQ,
            0x01,
        );
        builder.try_append_data(&[speed_index]);
        assert(builder.written() =~= header(CMD_SETUARTSPEED_REQ, seq![speed_index]));
        builder
    }
}

impl<'a, F: Finishable> CommandBuilder<'a, F> {
    /// Ends the frame: appends the checksum of what was written, drops a
    /// separator byte from the end, and hands out the frame, which lies at
    /// the start of the borrowed buffer. Where the buffer is shorter than
    /// the frame with its checksum, the error is the length that it needs,
    /// and the buffer keeps what fitted before.
    ///
    /// Dropping the separator is kept for compatibility. A frame whose
    /// checksum happens to be that byte therefore comes out without its
    /// checksum.
    pub fn finish(self) -> (r: Result<&'a [u8], usize>)
        requires
            self.wf(),
        ensures
            r.is_ok() <==> self.written().len() + 1 <= self.capacity(),
            match r {
                Ok(bytes) => finished(self.written(), self.capacity()) == Ok::<Seq<u8>, nat>(
                    bytes@,
                ),
                Err(needed) => finished(self.written(), self.capacity()) == Err::<Seq<u8>, nat>(
                    needed as nat,
                ),
            },
            checksum(self.written()) != TRAILING_SEPARATOR ==> (r matches Ok(bytes) ==> bytes@
                == sealed(self.written()) && bytes@.last() == checksum(bytes@.drop_last())),
            final(self.buffer)@ == if self.written().len() + 1 <= self.capacity() {
                sealed(self.written()) + self.storage().skip(self.written().len() as int + 1)
            } else {
                self.storage()
            },
            r matches Ok(bytes) ==> bytes@ == final(self.buffer)@.take(bytes@.len() as int),
    {
        let mut builder = self;
        builder.append_checksum_byte();
        if builder.index - 1 < builder.buffer.len() {
            if builder.buffer[builder.index - 1] == TRAILING_SEPARATOR {
                assert(builder.buffer@.take(builder.index - 1) =~= builder.asked@.drop_last());
                builder.index -= 1;
                builder.asked = Ghost(builder.asked@.drop_last());
            }
        }
        if builder.index > builder.buffer.len() {
            Err(builder.index)
        } else {
            let end: usize = builder.index;
            let whole: &'a [u8] = builder.buffer;
            assert(whole@.subrange(0, end as int) =~= whole@.take(end as int));
            proof {
                lemma_sealed_checksum(self.written());
            }
            Ok(&whole[0..end])
        }
    }

    /// Checksum of the buffer's bytes before the write offset, as far as the
    /// buffer reaches.
    fn calculate_checksum_byte(&self) -> (cs: u8)
        ensures
            cs == checksum(
                self.storage().take(
                    if self.offset() <= self.capacity() {
                        self.offset() as int
                    } else {
                        self.capacity() as int
                    },
                ),
            ),
    {
        let end: usize = if self.index <= self.buffer.len() {
            self.index
        } else {
            self.buffer.len()
        };
        assert(self.buffer@.subrange(0, end as int) =~= self.buffer@.take(end as int));
        xor_fold(&self.buffer[0..end])
    }

    /// Appends the checksum of what the buffer holds before the write
    /// offset.
    fn append_checksum_byte(&mut self)
        requires
            old(self).wf(),
        ensures
            final(self).coherent(),
            final(self).capacity() == old(self).capacity(),
            final(self).offset() == old(self).offset() + 1,
            old(self).offset() <= old(self).capacity() ==> final(self).written() == sealed(
                old(self).written(),
            ),
            final(self).storage() == appended(
                old(self).storage(),
                old(self).offset(),
                seq![checksum(old(self).written())],
            ),
            final(final(self).buffer)@ == final(old(self).buffer)@,
            final(self).written().len() == old(self).written().len() + 1,
    {
        let cs_byte: u8 = self.calculate_checksum_byte();
        self.try_append_data(&[cs_byte]);
        assert(old(self).offset() <= old(self).capacity() ==> self.written() =~= sealed(
            old(self).written(),
        ));
    }
}

/// A sealed frame ends in the checksum of the bytes before it.
pub proof fn lemma_sealed_checksum(bytes: Seq<u8>)
    ensures
        sealed(bytes).len() == bytes.len() + 1,
        sealed(bytes).drop_last() == bytes,
        sealed(bytes).last() == checksum(sealed(bytes).drop_last()),
{
    assert(sealed(bytes).drop_last() =~= bytes);
}

/// The header of a command whose payload fits the length byte is a frame
/// without its checksum, and any such frame is the header of its second
/// byte with the bytes behind the third.
pub proof fn lemma_holds_command(command: u8, payload: Seq<u8>, bytes: Seq<u8>)
    ensures
        payload.len() <= u8::MAX ==> holds_command(header(command, payload)),
        holds_command(bytes) ==> bytes == header(bytes[1], bytes.skip(3)) && bytes.skip(3).len()
            <= u8::MAX,
{
    if holds_command(bytes) {
        assert(bytes =~= header(bytes[1], bytes.skip(3)));
    }
}

/// A frame is four bytes longer than its payload: it starts with the marker,
/// the command code and the payload's length, then holds the payload, and
/// ends in the checksum of all that.
pub proof fn lemma_frame_layout(command: u8, payload: Seq<u8>)
    requires
        payload.len() <= u8::MAX,
    ensures
        frame(command, payload).len() == payload.len() + 4,
        frame(command, payload)[0] == FRAME_IDENTIFIER,
        frame(command, payload)[1] == command,
        frame(command, payload)[2] == payload.len(),
        frame(command, payload).subrange(3, payload.len() as int + 3) == payload,
        frame(command, payload).last() == checksum(frame(command, payload).drop_last()),
{
    lemma_sealed_checksum(header(command, payload));
    assert(frame(command, payload).subrange(3, payload.len() as int + 3) =~= payload);
}

/// Whatever was written, a buffer with room for it and one byte more gives
/// the frame; unless the checksum is the separator byte, that frame is
/// complete and its last byte is the checksum of the bytes before it. A
/// shorter buffer gives the length that is needed, and nothing else.
pub proof fn lemma_finished(written: Seq<u8>, capacity: nat)
    ensures
        capacity >= written.len() + 1 ==> finished(written, capacity).is_ok(),
        capacity >= written.len() + 1 && checksum(written) != TRAILING_SEPARATOR ==> (finished(
            written,
            capacity,
        ) matches Ok(out) && out == sealed(written) && out.last() == checksum(out.drop_last())),
        capacity >= written.len() + 1 && checksum(written) == TRAILING_SEPARATOR ==> finished(
            written,
            capacity,
        ) == Ok::<Seq<u8>, nat>(written),
        capacity < written.len() + 1 ==> finished(written, capacity) == Err::<Seq<u8>, nat>(
            written.len() + 1,
        ),
{
    lemma_sealed_checksum(written);
}

/// For a command with its payload: a buffer shorter than the frame gives
/// the frame's length as the error, and a buffer that holds the frame gives
/// the frame itself, unless its checksum is the separator byte.
pub proof fn lemma_finished_frame(command: u8, payload: Seq<u8>, capacity: nat)
    requires
        payload.len() <= u8::MAX,
    ensures
        capacity < payload.len() + 4 ==> finished(header(command, payload), capacity) == Err::<
            Seq<u8>,
            nat,
        >(payload.len() + 4),
        capacity >= payload.len() + 4 && checksum(header(command, payload))
            != TRAILING_SEPARATOR ==> finished(header(command, payload), capacity) == Ok::<
            Seq<u8>,
            nat,
        >(frame(command, payload)),
{
    lemma_finished(header(command, payload), capacity);
}

} // verus!
