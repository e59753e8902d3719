use vstd::prelude::*;

use crate::device::registers::Register;
use crate::interface::{
    extract_field, field_max, field_of, field_shift, lemma_other_field_kept, lemma_write_effect,
    merge_field, merged, register_after, Access, Error, Interface,
};

verus! {

pub const DEFAULT_I2C_ADDRESS: u8 = 0x03;

/// A 7-bit I2C device address.
pub struct I2cAddress(pub(crate) u8);

impl I2cAddress {
    /// The address as a number.
    pub closed spec fn value(&self) -> u8 {
        self.0
    }

    /// An address of at most 7 bits; a caller must check a larger one itself.
    pub fn new(address: u8) -> (r: Self)
        requires
            address <= 127,
        ensures
            r.value() == address,
    {
        Self(address)
    }

    /// The sensor's default address, `DEFAULT_I2C_ADDRESS`.
    pub fn default() -> (r: Self)
        ensures
            r.value() == DEFAULT_I2C_ADDRESS,
            r.value() == 3u8,
    {
        Self::new(DEFAULT_I2C_ADDRESS)
    }
}

/// One I2C transfer the driver attempted, each starting with the device
/// address: a write-read that sent one byte and received one, a write-read
/// that failed after sending one byte, and a write of two bytes that
/// completed or failed.
#[derive(Clone, Copy, Debug, PartialEq, Eq, Structural)]
pub enum I2cFrame {
    WriteRead(u8, u8, u8),
    WriteReadFailed(u8, u8),
    Write(u8, u8, u8),
    WriteFailed(u8, u8, u8),
}

/// The device address a frame went to.
pub open spec fn frame_address(frame: I2cFrame) -> u8 {
    match frame {
        I2cFrame::WriteRead(address, _, _) => address,
        I2cFrame::WriteReadFailed(address, _) => address,
        I2cFrame::Write(address, _, _) => address,
        I2cFrame::WriteFailed(address, _, _) => address,
    }
}

/// The frames of one field read with result `r`: a single write-read of the
/// register address to `address`; on success the field of the byte received
/// is the value read, on failure the error is `I2c`.
pub open spec fn i2c_read_frames(
    before: Seq<I2cFrame>,
    after: Seq<I2cFrame>,
    address: u8,
    register: Register,
    r: core::result::Result<u8, Error>,
) -> bool {
    match r {
        Ok(value) => exists|raw: u8|
            {
                &&& after == before.push(I2cFrame::WriteRead(address, register.address(), raw))
                &&& value == field_of(raw, register)
            },
        Err(e) => {
            &&& e is I2c
            &&& after == before.push(I2cFrame::WriteReadFailed(address, register.address()))
        },
    }
}

/// The frames of one field write of `payload` with result `r`: a write-read of
/// the register address; if it completed, a write of the register address and
/// the received byte with the field set to `payload`. The result is `Ok`
/// exactly when both completed, the error `I2c` otherwise.
pub open spec fn i2c_write_frames(
    before: Seq<I2cFrame>,
    after: Seq<I2cFrame>,
    address: u8,
    register: Register,
    payload: u8,
    r: core::result::Result<(), Error>,
) -> bool {
    match r {
        Ok(()) => exists|raw: u8|
            after == before.push(I2cFrame::WriteRead(address, register.address(), raw)).push(
                I2cFrame::Write(address, register.address(), merged(raw, register, payload)),
            ),
        Err(e) => {
            &&& e is I2c
            &&& {
                ||| after == before.push(I2cFrame::WriteReadFailed(address, register.address()))
                ||| exists|raw: u8|
                    after == before.push(I2cFrame::WriteRead(address, register.address(), raw)).push(
                        I2cFrame::WriteFailed(
                            address,
                            register.address(),
                            merged(raw, register, payload),
                        ),
                    )
            }
        },
    }
}

/// The byte register `register_address` holds after the transfers `frames`, on
/// a device whose registers start as `initial` and change only by completed
/// writes, each setting the register its first byte names to its second byte.
pub open spec fn i2c_register_value(
    initial: spec_fn(u8) -> u8,
    frames: Seq<I2cFrame>,
    register_address: u8,
) -> u8
    decreases frames.len(),
{
    if frames.len() == 0 {
        initial(register_address)
    } else {
        match frames.last() {
            I2cFrame::Write(_, written, value) => if written == register_address {
                value
            } else {
                i2c_register_value(initial, frames.drop_last(), register_address)
            },
            _ => i2c_register_value(initial, frames.drop_last(), register_address),
        }
    }
}

/// The device answered every completed write-read of `frames` with the byte
/// the named register held at that point: it behaves as a register file.
pub open spec fn i2c_register_file(initial: spec_fn(u8) -> u8, frames: Seq<I2cFrame>) -> bool {
    forall|k: int|
        0 <= k < frames.len() ==> (#[trigger] frames[k] matches I2cFrame::WriteRead(_, out, byte)
            ==> byte == i2c_register_value(initial, frames.take(k), out))
}

/// On a device that behaves as a register file, reading a field right after
/// writing `payload` into it gives `payload`, and every other field of the same
/// register keeps the value it had before the write.
pub proof fn lemma_i2c_read_after_write(
    initial: spec_fn(u8) -> u8,
    before: Seq<I2cFrame>,
    written: Seq<I2cFrame>,
    read: Seq<I2cFrame>,
    address: u8,
    register: Register,
    payload: u8,
    value: u8,
    other: Register,
)
    requires
        payload <= field_max(register),
        i2c_write_frames(before, written, address, register, payload, Ok(())),
        i2c_read_frames(written, read, address, register, Ok(value)),
        i2c_register_file(initial, read),
    ensures
        value == payload,
        other.address() == register.address() && other.mask() & register.mask() == 0 ==> field_of(
            i2c_register_value(initial, read, register.address()),
            other,
        ) == field_of(i2c_register_value(initial, before, register.address()), other),
{
    let a = register.address();
    let raw = choose|raw: u8|
        written == before.push(I2cFrame::WriteRead(address, a, raw)).push(
            I2cFrame::Write(address, a, merged(raw, register, payload)),
        );
    let byte = merged(raw, register, payload);
    let raw2 = choose|raw2: u8|
        {
            &&& read == written.push(I2cFrame::WriteRead(address, a, raw2))
            &&& value == field_of(raw2, register)
        };
    assert(read.take(written.len() as int) == written);
    assert(read.take(before.len() as int) == before);
    assert(read[written.len() as int] == I2cFrame::WriteRead(address, a, raw2));
    assert(read[before.len() as int] == I2cFrame::WriteRead(address, a, raw));
    assert(written.drop_last().drop_last() == before);
    assert(raw2 == byte);
    assert(raw == i2c_register_value(initial, before, a));
    assert(read.drop_last() == written);
    assert(i2c_register_value(initial, read, a) == byte);
    lemma_write_effect(raw, register, payload);
    if other.mask() & register.mask() == 0 {
        lemma_other_field_kept(raw, byte, register.mask(), other.mask(), field_shift(other));
    }
}

/// A log ending in a register file's answer is a register file's log up to it,
/// and that answer is the byte the register held.
proof fn lemma_i2c_file_prefix(initial: spec_fn(u8) -> u8, frames: Seq<I2cFrame>, frame: I2cFrame)
    requires
        i2c_register_file(initial, frames.push(frame)),
    ensures
        i2c_register_file(initial, frames),
        frame matches I2cFrame::WriteRead(_, out, byte) ==> byte == i2c_register_value(
            initial,
            frames,
            out,
        ),
{
    let longer = frames.push(frame);
    assert forall|k: int| 0 <= k < frames.len() implies (#[trigger] frames[k] matches I2cFrame::WriteRead(
        _,
        out,
        byte,
    ) ==> byte == i2c_register_value(initial, frames.take(k), out)) by {
        assert(longer[k] == frames[k]);
        assert(longer.take(k) == frames.take(k));
    }
    assert(longer[frames.len() as int] == frame);
    assert(longer.take(frames.len() as int) == frames);
}

/// A frame other than a completed write leaves every register as it was.
proof fn lemma_i2c_value_unchanged(initial: spec_fn(u8) -> u8, frames: Seq<I2cFrame>, frame: I2cFrame)
    requires
        !(frame is Write),
    ensures
        forall|address: u8|
            #[trigger] i2c_register_value(initial, frames.push(frame), address)
                == i2c_register_value(initial, frames, address),
{
    assert(frames.push(frame).drop_last() == frames);
}

/// An access other than a completed write leaves every register as it was.
proof fn lemma_register_after_unchanged(initial: spec_fn(u8) -> u8, accesses: Seq<Access>, access: Access)
    requires
        !(access is Write),
    ensures
        forall|address: u8|
            #[trigger] register_after(initial(address), accesses.push(access), address)
                == register_after(initial(address), accesses, address),
{
    assert(accesses.push(access).drop_last() == accesses);
}

/// On every register file that answers as `frames` records, each register
/// holds what the field writes of `accesses` made of its first value.
pub open spec fn i2c_tracks(frames: Seq<I2cFrame>, accesses: Seq<Access>) -> bool {
    forall|initial: spec_fn(u8) -> u8, address: u8|
        i2c_register_file(initial, frames) ==> #[trigger] i2c_register_value(initial, frames, address)
            == register_after(initial(address), accesses, address)
}

/// One more frame and one more access, neither of them a completed write,
/// keep the registers tracked.
proof fn lemma_i2c_tracks_plain(frames: Seq<I2cFrame>, accesses: Seq<Access>, frame: I2cFrame, access: Access)
    requires
        i2c_tracks(frames, accesses),
        !(frame is Write),
        !(access is Write),
    ensures
        i2c_tracks(frames.push(frame), accesses.push(access)),
{
    assert forall|initial: spec_fn(u8) -> u8, address: u8|
        i2c_register_file(initial, frames.push(frame)) implies #[trigger] i2c_register_value(
            initial,
            frames.push(frame),
            address,
        ) == register_after(initial(address), accesses.push(access), address) by {
        lemma_i2c_file_prefix(initial, frames, frame);
        lemma_i2c_value_unchanged(initial, frames, frame);
        lemma_register_after_unchanged(initial, accesses, access);
    }
}

/// A completed read of a register followed by a failed write, logged as one
/// failed access, keeps the registers tracked.
proof fn lemma_i2c_tracks_write_failed(
    frames: Seq<I2cFrame>,
    accesses: Seq<Access>,
    first: I2cFrame,
    second: I2cFrame,
    access: Access,
)
    requires
        i2c_tracks(frames, accesses),
        first is WriteRead,
        second is WriteFailed,
        !(access is Write),
    ensures
        i2c_tracks(frames.push(first).push(second), accesses.push(access)),
{
    let middle = frames.push(first);
    assert forall|initial: spec_fn(u8) -> u8, address: u8|
        i2c_register_file(initial, middle.push(second)) implies #[trigger] i2c_register_value(
            initial,
            middle.push(second),
            address,
        ) == register_after(initial(address), accesses.push(access), address) by {
        lemma_i2c_file_prefix(initial, middle, second);
        lemma_i2c_file_prefix(initial, frames, first);
        lemma_i2c_value_unchanged(initial, middle, second);
        lemma_i2c_value_unchanged(initial, frames, first);
        lemma_register_after_unchanged(initial, accesses, access);
    }
}

/// A completed read of a register followed by the completed write of its byte
/// with a field set, logged as that field write, keeps the registers tracked.
proof fn lemma_i2c_tracks_write(
    frames: Seq<I2cFrame>,
    accesses: Seq<Access>,
    address: u8,
    register: Register,
    payload: u8,
    raw: u8,
)
    requires
        i2c_tracks(frames, accesses),
    ensures
        i2c_tracks(
            frames.push(I2cFrame::WriteRead(address, register.address(), raw)).push(
                I2cFrame::Write(address, register.address(), merged(raw, register, payload)),
            ),
            accesses.push(Access::Write(register, payload)),
        ),
{
    let first = I2cFrame::WriteRead(address, register.address(), raw);
    let second = I2cFrame::Write(address, register.address(), merged(raw, register, payload));
    let middle = frames.push(first);
    let longer = accesses.push(Access::Write(register, payload));
    assert forall|initial: spec_fn(u8) -> u8, a: u8|
        i2c_register_file(initial, middle.push(second)) implies #[trigger] i2c_register_value(
            initial,
            middle.push(second),
            a,
        ) == register_after(initial(a), longer, a) by {
        lemma_i2c_file_prefix(initial, middle, second);
        lemma_i2c_file_prefix(initial, frames, first);
        lemma_i2c_value_unchanged(initial, frames, first);
        assert(middle.push(second).drop_last() == middle);
        assert(longer.drop_last() == accesses);
        assert(i2c_register_value(initial, frames, register.address()) == register_after(
            initial(register.address()),
            accesses,
            register.address(),
        ));
        assert(i2c_register_value(initial, frames, a) == register_after(initial(a), accesses, a));
        assert(raw == i2c_register_value(initial, frames, register.address()));
        assert(i2c_register_value(initial, middle, a) == i2c_register_value(initial, frames, a));
        assert(middle.push(second).last() == second);
        assert(i2c_register_value(initial, middle.push(second), a) == if register.address() == a {
            merged(raw, register, payload)
        } else {
            i2c_register_value(initial, middle, a)
        });
        assert(longer.last() == Access::Write(register, payload));
        assert(register_after(initial(a), longer, a) == if register.address() == a {
            merged(register_after(initial(a), accesses, a), register, payload)
        } else {
            register_after(initial(a), accesses, a)
        });
    }
}

/// The I2C transfers the driver makes, as a bus offers them (an adapter over
/// `embedded_hal::i2c::I2c` is one). Nothing is assumed of what a device
/// answers or of when a transfer fails.
pub trait I2cPort {
    /// Writes the byte `out` to the device at `address` and reads one byte back
    /// in the same transaction; `None` when the transfer failed.
    fn write_read(&mut self, address: u8, out: u8) -> Option<u8>;

    /// Writes `bytes` to the device at `address`; `false` when the transfer failed.
    fn write(&mut self, address: u8, bytes: [u8; 2]) -> bool;
}

/// The sensor's registers reached over I2C.
pub struct I2cInterface<I2C> {
    i2c: I2C,
    address: u8,
    accesses: Ghost<Seq<Access>>,
    frames: Ghost<Seq<I2cFrame>>,
}

impl<I2C> I2cInterface<I2C> {
    /// The device address every transfer goes to.
    pub closed spec fn device_address(&self) -> u8 {
        self.address
    }

    /// The register accesses made so far, failed ones included, oldest first.
    pub closed spec fn access_log(&self) -> Seq<Access> {
        self.accesses@
    }

    /// The transfers attempted on the bus so far, oldest first.
    pub closed spec fn frames(&self) -> Seq<I2cFrame> {
        self.frames@
    }

    /// On a device that behaves as a register file, every register holds what
    /// the logged field writes made of its first value.
    pub open spec fn tracks_registers(&self) -> bool {
        i2c_tracks(self.frames(), self.access_log())
    }

    /// Every transfer so far went to the device address.
    pub open spec fn frames_addressed(&self) -> bool {
        forall|k: int| 0 <= k < self.frames().len() ==> frame_address(#[trigger] self.frames()[k])
            == self.device_address()
    }
}

impl<I2C> I2cInterface<I2C> where I2C: I2cPort {
    pub(crate) fn new(i2c: I2C, i2c_address: I2cAddress) -> (r: core::result::Result<Self, Error>)
        ensures
            r matches Ok(interface) && {
                &&& interface.device_address() == i2c_address.value()
                &&& interface.frames() == Seq::<I2cFrame>::empty()
                &&& interface.access_log() == Seq::<Access>::empty()
                &&& interface.frames_addressed()
                &&& interface.tracks_registers()
            },
    {
        Ok(Self {
            i2c,
            address: i2c_address.0,
            accesses: Ghost(Seq::empty()),
            frames: Ghost(Seq::empty()),
        })
    }

    /// The one place a write-read reaches the bus: hands `out` to the port and
    /// records the transfer, with the byte the port gave back or as failed.
    fn bus_write_read(&mut self, out: u8) -> (received: Option<u8>)
        ensures
            final(self).device_address() == old(self).device_address(),
            final(self).access_log() == old(self).access_log(),
            match received {
                Some(byte) => final(self).frames() == old(self).frames().push(
                    I2cFrame::WriteRead(old(self).device_address(), out, byte),
                ),
                None => final(self).frames() == old(self).frames().push(
                    I2cFrame::WriteReadFailed(old(self).device_address(), out),
                ),
            },
    {
        let received = self.i2c.write_read(self.address, out);
        match received {
            Some(byte) => {
                self.frames = Ghost(self.frames@.push(I2cFrame::WriteRead(self.address, out, byte)));
            },
            None => {
                self.frames = Ghost(self.frames@.push(I2cFrame::WriteReadFailed(self.address, out)));
            },
        }
        received
    }

    /// The one place a write reaches the bus: hands `bytes` to the port and
    /// records the transfer as completed or failed, as the port reports it.
    fn bus_write(&mut self, bytes: [u8; 2]) -> (done: bool)
        ensures
            final(self).device_address() == old(self).device_address(),
            final(self).access_log() == old(self).access_log(),
            done ==> final(self).frames() == old(self).frames().push(
                I2cFrame::Write(old(self).device_address(), bytes[0], bytes[1]),
            ),
            !done ==> final(self).frames() == old(self).frames().push(
                I2cFrame::WriteFailed(old(self).device_address(), bytes[0], bytes[1]),
            ),
    {
        let done = self.i2c.write(self.address, bytes);
        if done {
            self.frames = Ghost(self.frames@.push(I2cFrame::Write(self.address, bytes[0], bytes[1])));
        } else {
            self.frames = Ghost(
                self.frames@.push(I2cFrame::WriteFailed(self.address, bytes[0], bytes[1])),
            );
        }
        done
    }
}

impl<I2C> Interface for I2cInterface<I2C> where I2C: I2cPort + Send {
    open spec fn accesses(&self) -> Seq<Access> {
        self.access_log()
    }

    open spec fn target(&self) -> Option<u8> {
        Some(self.device_address())
    }

    open spec fn inv(&self) -> bool {
        self.frames_addressed() && self.tracks_registers()
    }

    /// Sends the register address in a write-read and keeps the field's bits of
    /// the byte that comes back.
    fn read(&mut self, register: Register) -> (r: core::result::Result<u8, Error>)
        ensures
            final(self).device_address() == old(self).device_address(),
            i2c_read_frames(
                old(self).frames(),
                final(self).frames(),
                old(self).device_address(),
                register,
                r,
            ),
    {
        match self.bus_write_read(register.address()) {
            Some(raw) => {
                let value = extract_field(raw, register);
                self.accesses = Ghost(self.accesses@.push(Access::Read(register, value)));
                proof {
                    self.lemma_push_addressed(
                        old(self).frames(),
                        I2cFrame::WriteRead(old(self).device_address(), register.address(), raw),
                    );
                    if old(self).inv() {
                        lemma_i2c_tracks_plain(
                            old(self).frames(),
                            old(self).access_log(),
                            I2cFrame::WriteRead(old(self).device_address(), register.address(), raw),
                            Access::Read(register, value),
                        );
                    }
                }
                Ok(value)
            },
            None => {
                self.accesses = Ghost(self.accesses@.push(Access::ReadFailed(register, Error::I2c)));
                proof {
                    self.lemma_push_addressed(
                        old(self).frames(),
                        I2cFrame::WriteReadFailed(old(self).device_address(), register.address()),
                    );
                    if old(self).inv() {
                        lemma_i2c_tracks_plain(
                            old(self).frames(),
                            old(self).access_log(),
                            I2cFrame::WriteReadFailed(old(self).device_address(), register.address()),
                            Access::ReadFailed(register, Error::I2c),
                        );
                    }
                }
                Err(Error::I2c)
            },
        }
    }

    /// Reads the whole register, then writes it back with the field set to `payload`.
    fn write(&mut self, register: Register, payload: u8) -> (r: core::result::Result<(), Error>)
        ensures
            final(self).device_address() == old(self).device_address(),
            i2c_write_frames(
                old(self).frames(),
                final(self).frames(),
                old(self).device_address(),
                register,
                payload,
                r,
            ),
    {
        let current = match self.bus_write_read(register.address()) {
            Some(raw) => raw,
            None => {
                self.accesses = Ghost(
                    self.accesses@.push(Access::WriteFailed(register, payload, Error::I2c)),
                );
                proof {
                    self.lemma_push_addressed(
                        old(self).frames(),
                        I2cFrame::WriteReadFailed(old(self).device_address(), register.address()),
                    );
                    if old(self).inv() {
                        lemma_i2c_tracks_plain(
                            old(self).frames(),
                            old(self).access_log(),
                            I2cFrame::WriteReadFailed(old(self).device_address(), register.address()),
                            Access::WriteFailed(register, payload, Error::I2c),
                        );
                    }
                }
                return Err(Error::I2c);
            },
        };
        let ghost after_read = self.frames();
        proof {
            self.lemma_push_addressed(
                old(self).frames(),
                I2cFrame::WriteRead(old(self).device_address(), register.address(), current),
            );
        }
        let byte = merge_field(current, register, payload);
        let bytes: [u8; 2] = [register.address(), byte];
        let done = self.bus_write(bytes);
        proof {
            if done {
                self.lemma_push_addressed(
                    after_read,
                    I2cFrame::Write(old(self).device_address(), register.address(), byte),
                );
            } else {
                self.lemma_push_addressed(
                    after_read,
                    I2cFrame::WriteFailed(old(self).device_address(), register.address(), byte),
                );
            }
        }
        if !done {
            self.accesses = Ghost(
                self.accesses@.push(Access::WriteFailed(register, payload, Error::I2c)),
            );
            assert(self.frames() == old(self).frames().push(
                I2cFrame::WriteRead(old(self).device_address(), register.address(), current),
            ).push(I2cFrame::WriteFailed(old(self).device_address(), register.address(), byte)));
            proof {
                if old(self).inv() {
                    lemma_i2c_tracks_write_failed(
                        old(self).frames(),
                        old(self).access_log(),
                        I2cFrame::WriteRead(old(self).device_address(), register.address(), current),
                        I2cFrame::WriteFailed(old(self).device_address(), register.address(), byte),
                        Access::WriteFailed(register, payload, Error::I2c),
                    );
                }
            }
            return Err(Error::I2c);
        }
        self.accesses = Ghost(self.accesses@.push(Access::Write(register, payload)));
        assert(self.frames() == old(self).frames().push(
            I2cFrame::WriteRead(old(self).device_address(), register.address(), current),
        ).push(I2cFrame::Write(old(self).device_address(), register.address(), byte)));
        proof {
            if old(self).inv() {
                lemma_i2c_tracks_write(
                    old(self).frames(),
                    old(self).access_log(),
                    old(self).device_address(),
                    register,
                    payload,
                    current,
                );
            }
        }
        Ok(())
    }
}

impl<I2C> I2cInterface<I2C> {
    /// Adding one frame to the device address to an addressed log keeps it addressed.
    proof fn lemma_push_addressed(&self, before: Seq<I2cFrame>, frame: I2cFrame)
        requires
            self.frames() == before.push(frame),
            frame_address(frame) == self.device_address(),
        ensures
            (forall|k: int| 0 <= k < before.len() ==> frame_address(#[trigger] before[k])
                == self.device_address()) ==> self.frames_addressed(),
    {
        assert forall|k: int| 0 <= k < before.len() implies #[trigger] self.frames()[k]
            == before[k] by {}
    }
}

} // verus!
