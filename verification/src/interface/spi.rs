use vstd::prelude::*;

use crate::device::registers::Register;
use crate::interface::{
    extract_field, field_max, field_of, field_shift, lemma_other_field_kept, lemma_write_effect,
    merge_field, merged, Access, Error, Interface,
};

verus! {

/// One SPI transfer the driver attempted: an in-place transfer with the two
/// words sent and the two received, one that failed after the two words were
/// handed over, and a write of two words that completed or failed.
#[derive(Clone, Copy, Debug, PartialEq, Eq, Structural)]
pub enum SpiFrame {
    Transfer(u8, u8, u8, u8),
    TransferFailed(u8, u8),
    Write(u8, u8),
    WriteFailed(u8, u8),
}

/// The SPI transfers the driver makes, as a device on a bus offers them (an
/// adapter over `embedded_hal::spi::SpiDevice` is one). Nothing is assumed of
/// what the sensor answers or of when a transfer fails.
pub trait SpiPort {
    /// Clocks `words` out while clocking two words in; gives the words read,
    /// or `None` when the transfer failed.
    fn transfer_in_place(&mut self, words: [u8; 2]) -> Option<[u8; 2]>;

    /// Clocks `words` out; `false` when the transfer failed.
    fn write(&mut self, words: [u8; 2]) -> bool;
}

/// The command word that reads `address`: read bit set, then the 6-bit address.
pub open spec fn read_command(address: u8) -> u8 {
    0x40 | (address & 0x3f)
}

/// The command word that writes `address`: read bit clear, then the 6-bit address.
pub open spec fn write_command(address: u8) -> u8 {
    address & 0x3f
}

/// The frames of one field read with result `r`: a single transfer of the
/// read command and a zero word; on success the field of the second word
/// received is the value read, on failure the error is `Spi`.
pub open spec fn spi_read_frames(
    before: Seq<SpiFrame>,
    after: Seq<SpiFrame>,
    register: Register,
    r: core::result::Result<u8, Error>,
) -> bool {
    match r {
        Ok(value) => exists|first: u8, raw: u8|
            {
                &&& after == before.push(
                    SpiFrame::Transfer(read_command(register.address()), 0, first, raw),
                )
                &&& value == field_of(raw, register)
            },
        Err(e) => {
            &&& e is Spi
            &&& after == before.push(SpiFrame::TransferFailed(read_command(register.address()), 0))
        },
    }
}

/// The frames of one field write of `payload` with result `r`: a transfer of
/// the read command; if it completed, a write of the write command and the
/// received register byte with the field set to `payload`. The result is `Ok`
/// exactly when both completed, the error `Spi` otherwise.
pub open spec fn spi_write_frames(
    before: Seq<SpiFrame>,
    after: Seq<SpiFrame>,
    register: Register,
    payload: u8,
    r: core::result::Result<(), Error>,
) -> bool {
    match r {
        Ok(()) => exists|first: u8, raw: u8|
            after == before.push(
                SpiFrame::Transfer(read_command(register.address()), 0, first, raw),
            ).push(SpiFrame::Write(write_command(register.address()), merged(raw, register, payload))),
        Err(e) => {
            &&& e is Spi
            &&& {
                ||| after == before.push(
                    SpiFrame::TransferFailed(read_command(register.address()), 0),
                )
                ||| exists|first: u8, raw: u8|
                    after == before.push(
                        SpiFrame::Transfer(read_command(register.address()), 0, first, raw),
                    ).push(
                        SpiFrame::WriteFailed(
                            write_command(register.address()),
                            merged(raw, register, payload),
                        ),
                    )
            }
        },
    }
}

/// The byte register `register_address` holds after the transfers `frames`, on
/// a device whose registers start as `initial` and change only by completed
/// writes, each setting the register its command word names (its low six bits)
/// to its second word.
pub open spec fn spi_register_value(
    initial: spec_fn(u8) -> u8,
    frames: Seq<SpiFrame>,
    register_address: u8,
) -> u8
    decreases frames.len(),
{
    if frames.len() == 0 {
        initial(register_address)
    } else {
        match frames.last() {
            SpiFrame::Write(command, value) => if command & 0x3f == register_address {
                value
            } else {
                spi_register_value(initial, frames.drop_last(), register_address)
            },
            _ => spi_register_value(initial, frames.drop_last(), register_address),
        }
    }
}

/// The device answered every completed transfer of `frames` with, as second
/// word, the byte the register its command names held at that point: it
/// behaves as a register file.
pub open spec fn spi_register_file(initial: spec_fn(u8) -> u8, frames: Seq<SpiFrame>) -> bool {
    forall|k: int|
        0 <= k < frames.len() ==> (#[trigger] frames[k] matches SpiFrame::Transfer(command, _, _, raw)
            ==> raw == spi_register_value(initial, frames.take(k), command & 0x3f))
}

/// On a device that behaves as a register file, reading a field right after
/// writing `payload` into it gives `payload`, and every other field of the same
/// register keeps the value it had before the write.
pub proof fn lemma_spi_read_after_write(
    initial: spec_fn(u8) -> u8,
    before: Seq<SpiFrame>,
    written: Seq<SpiFrame>,
    read: Seq<SpiFrame>,
    register: Register,
    payload: u8,
    value: u8,
    other: Register,
)
    requires
        payload <= field_max(register),
        spi_write_frames(before, written, register, payload, Ok(())),
        spi_read_frames(written, read, register, Ok(value)),
        spi_register_file(initial, read),
    ensures
        value == payload,
        other.address() == register.address() && other.mask() & register.mask() == 0 ==> field_of(
            spi_register_value(initial, read, register.address() & 0x3f),
            other,
        ) == field_of(spi_register_value(initial, before, register.address() & 0x3f), other),
{
    let a = register.address();
    let key = a & 0x3f;
    assert(read_command(a) & 0x3f == key && write_command(a) & 0x3f == key) by (bit_vector)
        requires
            key == a & 0x3f,
    ;
    let (first, raw) = choose|first: u8, raw: u8|
        written == before.push(SpiFrame::Transfer(read_command(a), 0, first, raw)).push(
            SpiFrame::Write(write_command(a), merged(raw, register, payload)),
        );
    let byte = merged(raw, register, payload);
    let (first2, raw2) = choose|first2: u8, raw2: u8|
        {
            &&& read == written.push(SpiFrame::Transfer(read_command(a), 0, first2, raw2))
            &&& value == field_of(raw2, register)
        };
    assert(read.take(written.len() as int) == written);
    assert(read.take(before.len() as int) == before);
    assert(read[written.len() as int] == SpiFrame::Transfer(read_command(a), 0, first2, raw2));
    assert(read[before.len() as int] == SpiFrame::Transfer(read_command(a), 0, first, raw));
    assert(written.drop_last().drop_last() == before);
    assert(raw2 == byte);
    assert(raw == spi_register_value(initial, before, key));
    assert(read.drop_last() == written);
    assert(spi_register_value(initial, read, key) == byte);
    lemma_write_effect(raw, register, payload);
    if other.mask() & register.mask() == 0 {
        lemma_other_field_kept(raw, byte, register.mask(), other.mask(), field_shift(other));
    }
}

/// The sensor's registers reached over SPI.
pub struct SpiInterface<SPI> {
    spi: SPI,
    accesses: Ghost<Seq<Access>>,
    frames: Ghost<Seq<SpiFrame>>,
}

impl<SPI> SpiInterface<SPI> {
    /// The register accesses made so far, failed ones included, oldest first.
    pub closed spec fn access_log(&self) -> Seq<Access> {
        self.accesses@
    }

    /// The transfers attempted on the device so far, oldest first.
    pub closed spec fn frames(&self) -> Seq<SpiFrame> {
        self.frames@
    }
}

impl<SPI> SpiInterface<SPI> where SPI: SpiPort {
    pub(crate) fn new(spi: SPI) -> (r: core::result::Result<Self, Error>)
        ensures
            r matches Ok(interface) && {
                &&& interface.frames() == Seq::<SpiFrame>::empty()
                &&& interface.access_log() == Seq::<Access>::empty()
            },
    {
        Ok(Self { spi, accesses: Ghost(Seq::empty()), frames: Ghost(Seq::empty()) })
    }

    /// The one place an in-place transfer reaches the bus: hands `words` to the
    /// port and records the transfer, with the words the port gave back or as failed.
    fn bus_transfer_in_place(&mut self, words: [u8; 2]) -> (received: Option<[u8; 2]>)
        ensures
            final(self).access_log() == old(self).access_log(),
            match received {
                Some(read) => final(self).frames() == old(self).frames().push(
                    SpiFrame::Transfer(words[0], words[1], read[0], read[1]),
                ),
                None => final(self).frames() == old(self).frames().push(
                    SpiFrame::TransferFailed(words[0], words[1]),
                ),
            },
    {
        let received = self.spi.transfer_in_place(words);
        match received {
            Some(read) => {
                self.frames = Ghost(
                    self.frames@.push(SpiFrame::Transfer(words[0], words[1], read[0], read[1])),
                );
            },
            None => {
                self.frames = Ghost(self.frames@.push(SpiFrame::TransferFailed(words[0], words[1])));
            },
        }
        received
    }

    /// The one place a write reaches the bus: hands `words` to the port and
    /// records the transfer as completed or failed, as the port reports it.
    fn bus_write(&mut self, words: [u8; 2]) -> (done: bool)
        ensures
            final(self).access_log() == old(self).access_log(),
            done ==> final(self).frames() == old(self).frames().push(
                SpiFrame::Write(words[0], words[1]),
            ),
            !done ==> final(self).frames() == old(self).frames().push(
                SpiFrame::WriteFailed(words[0], words[1]),
            ),
    {
        let done = self.spi.write(words);
        if done {
            self.frames = Ghost(self.frames@.push(SpiFrame::Write(words[0], words[1])));
        } else {
            self.frames = Ghost(self.frames@.push(SpiFrame::WriteFailed(words[0], words[1])));
        }
        done
    }
}

impl<SPI> Interface for SpiInterface<SPI> where SPI: SpiPort + Send {
    open spec fn accesses(&self) -> Seq<Access> {
        self.access_log()
    }

    open spec fn target(&self) -> Option<u8> {
        None
    }

    open spec fn inv(&self) -> bool {
        true
    }

    /// Sends the read command for the register and keeps the field's bits of the
    /// word that comes back second.
    fn read(&mut self, register: Register) -> (r: core::result::Result<u8, Error>)
        ensures
            spi_read_frames(old(self).frames(), final(self).frames(), register, r),
    {
        let cmd = 0x40 | (register.address() & 0x3f);
        let buffer: [u8; 2] = [cmd, 0x00];
        match self.bus_transfer_in_place(buffer) {
            Some(received) => {
                let value = extract_field(received[1], register);
                self.accesses = Ghost(self.accesses@.push(Access::Read(register, value)));
                assert(self.frames() == old(self).frames().push(
                    SpiFrame::Transfer(read_command(register.address()), 0, received[0], received[1]),
                ) && value == field_of(received[1], register));
                Ok(value)
            },
            None => {
                self.accesses = Ghost(self.accesses@.push(Access::ReadFailed(register, Error::Spi)));
                Err(Error::Spi)
            },
        }
    }

    /// Reads the whole register, then writes it back with the field set to `payload`.
    fn write(&mut self, register: Register, payload: u8) -> (r: core::result::Result<(), Error>)
        ensures
            spi_write_frames(old(self).frames(), final(self).frames(), register, payload, r),
    {
        let cmd_read = 0x40 | (register.address() & 0x3f);
        let buffer: [u8; 2] = [cmd_read, 0x00];
        let received = match self.bus_transfer_in_place(buffer) {
            Some(received) => received,
            None => {
                self.accesses = Ghost(
                    self.accesses@.push(Access::WriteFailed(register, payload, Error::Spi)),
                );
                return Err(Error::Spi);
            },
        };
        let current_data = received[1];
        let cmd_write = register.address() & 0x3f;
        let new_value = merge_field(current_data, register, payload);
        let write_buffer: [u8; 2] = [cmd_write, new_value];
        if !self.bus_write(write_buffer) {
            self.accesses = Ghost(
                self.accesses@.push(Access::WriteFailed(register, payload, Error::Spi)),
            );
            assert(self.frames() == old(self).frames().push(
                SpiFrame::Transfer(read_command(register.address()), 0, received[0], current_data),
            ).push(SpiFrame::WriteFailed(write_command(register.address()), new_value)));
            return Err(Error::Spi);
        }
        self.accesses = Ghost(self.accesses@.push(Access::Write(register, payload)));
        assert(self.frames() == old(self).frames().push(
            SpiFrame::Transfer(read_command(register.address()), 0, received[0], current_data),
        ).push(SpiFrame::Write(write_command(register.address()), new_value)));
        Ok(())
    }
}

} // verus!
