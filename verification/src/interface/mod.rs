use vstd::prelude::*;

use crate::device::registers::Register;

pub(crate) mod conversion;
pub mod i2c;
pub mod spi;

verus! {

/// A failed transfer on the bus.
#[derive(Debug)]
pub enum Error {
    Spi,
    I2c,
}

impl Error {
    /// The text that describes the error.
    pub fn message(&self) -> (text: &'static str)
        ensures
            self is Spi ==> text@ == "SPI communication error"@,
            self is I2c ==> text@ == "I2C communication error"@,
    {
        match self {
            Error::Spi => "SPI communication error",
            Error::I2c => "I2C communication error",
        }
    }
}

/// The cause of an interrupt, as the INT bits of register 0x03 encode it.
pub(crate) enum Irq {
    DistanceEstimationChanged,
    /// INT_NH
    NoiseLevelTooHigh,
    /// INT_D
    DisturberDetected,
    /// INT_L
    Lightning,
}

/// One register access through an interface: a field read with the value that
/// came back, a field write with its payload, or either of them failing with
/// the error the interface gave.
#[derive(Debug)]
pub enum Access {
    Read(Register, u8),
    Write(Register, u8),
    ReadFailed(Register, Error),
    WriteFailed(Register, u8, Error),
}

/// The log entry of `access` failing with `error`.
pub open spec fn failed(access: Access, error: Error) -> Access {
    match access {
        Access::Read(register, _) => Access::ReadFailed(register, error),
        Access::Write(register, payload) => Access::WriteFailed(register, payload, error),
        _ => access,
    }
}

/// Access to the sensor's register fields over some bus.
pub trait Interface: Send {
    /// The register accesses made so far, failed ones included, oldest first.
    spec fn accesses(&self) -> Seq<Access>;

    /// The device address transfers go to, on a bus that addresses devices.
    spec fn target(&self) -> Option<u8>;

    /// What the interface keeps true of its own record, such as every transfer
    /// having gone to its target.
    spec fn inv(&self) -> bool;

    /// Reads the field `register`, and logs the read or its failure.
    fn read(&mut self, register: Register) -> (r: core::result::Result<u8, Error>)
        ensures
            final(self).target() == old(self).target(),
            old(self).inv() ==> final(self).inv(),
            match r {
                Ok(value) => {
                    &&& final(self).accesses() == old(self).accesses().push(
                        Access::Read(register, value),
                    )
                    &&& value <= field_max(register)
                },
                Err(e) => final(self).accesses() == old(self).accesses().push(
                    Access::ReadFailed(register, e),
                ),
            },
    ;

    /// Writes `payload` into the field `register`, and logs the write or its failure.
    fn write(&mut self, register: Register, payload: u8) -> (r: core::result::Result<(), Error>)
        requires
            payload <= field_max(register),
        ensures
            final(self).target() == old(self).target(),
            old(self).inv() ==> final(self).inv(),
            match r {
                Ok(()) => final(self).accesses() == old(self).accesses().push(
                    Access::Write(register, payload),
                ),
                Err(e) => final(self).accesses() == old(self).accesses().push(
                    Access::WriteFailed(register, payload, e),
                ),
            },
    ;
}

/// The index of the lowest bit set in `mask` at or above bit `from`, or 0 if there is none.
pub open spec fn lowest_set_bit_from(mask: u8, from: u8) -> u8
    decreases 8 - from,
{
    if from >= 8 {
        0
    } else if (mask >> from) & 1 == 1 {
        from
    } else {
        lowest_set_bit_from(mask, (from + 1) as u8)
    }
}

/// The index of the lowest bit set in `mask`, or 0 if `mask` is 0.
pub open spec fn lowest_set_bit(mask: u8) -> u8 {
    lowest_set_bit_from(mask, 0)
}

/// How far the field `register` sits above bit 0.
pub open spec fn field_shift(register: Register) -> u8 {
    lowest_set_bit(register.mask())
}

/// The largest value the field `register` can hold.
pub open spec fn field_max(register: Register) -> u8 {
    register.mask() >> field_shift(register)
}

/// The value of the field `register` in the register byte `raw`.
pub open spec fn field_of(raw: u8, register: Register) -> u8 {
    (raw & register.mask()) >> field_shift(register)
}

/// The byte written back when `payload` goes into the field `register` of a
/// register that held `current`: the field's bits are cleared, then the
/// payload's bits are or-ed in at the field's place.
pub open spec fn merged(current: u8, register: Register, payload: u8) -> u8 {
    (current & !register.mask()) | (payload << field_shift(register))
}

/// The position of the lowest set bit of `mask` (0 when `mask` is 0).
pub(crate) fn calculate_bitshift(mask: u8) -> (shift: u8)
    ensures
        shift == lowest_set_bit(mask),
        shift < 8,
{
    let mut i: u8 = 0;
    while i < 8
        invariant
            i <= 8,
            lowest_set_bit_from(mask, i) == lowest_set_bit(mask),
        decreases 8 - i,
    {
        assert(((mask & (1u8 << i)) != 0) == ((mask >> i) & 1 == 1)) by (bit_vector)
            requires
                i < 8,
        ;
        if (mask & (1u8 << i)) != 0 {
            return i;
        }
        i = i + 1;
    }
    0
}

/// The value of the field `register` in the register byte `raw`.
pub(crate) fn extract_field(raw: u8, register: Register) -> (value: u8)
    ensures
        value == field_of(raw, register),
        value <= field_max(register),
{
    let mask = register.mask();
    let shift = calculate_bitshift(mask);
    assert(((raw & mask) >> shift) <= (mask >> shift)) by (bit_vector);
    (raw & mask) >> shift
}

/// The byte that puts `payload` into the field `register` of a register holding `current`.
pub(crate) fn merge_field(current: u8, register: Register, payload: u8) -> (byte: u8)
    ensures
        byte == merged(current, register, payload),
{
    let mask = register.mask();
    let shift = calculate_bitshift(mask);
    (current & !mask) | (payload << shift)
}

/// The byte register `address` holds after `accesses`, on a device where it
/// held `initial` and where every completed field write sets its field and
/// keeps the register's other bits; reads and failed accesses change nothing.
pub open spec fn register_after(initial: u8, accesses: Seq<Access>, address: u8) -> u8
    decreases accesses.len(),
{
    if accesses.len() == 0 {
        initial
    } else {
        let before = register_after(initial, accesses.drop_last(), address);
        match accesses.last() {
            Access::Write(register, payload) => if register.address() == address {
                merged(before, register, payload)
            } else {
                before
            },
            _ => before,
        }
    }
}

/// The accesses of two runs act on a register one after the other.
pub proof fn lemma_register_after_concat(initial: u8, first: Seq<Access>, second: Seq<Access>, address: u8)
    ensures
        register_after(initial, first + second, address) == register_after(
            register_after(initial, first, address),
            second,
            address,
        ),
    decreases second.len(),
{
    if second.len() == 0 {
        assert(first + second == first);
    } else {
        assert((first + second).drop_last() == first + second.drop_last());
        assert((first + second).last() == second.last());
        lemma_register_after_concat(initial, first, second.drop_last(), address);
    }
}

/// The payload of the last completed write of the field `register` among
/// `accesses`, if there is one.
pub open spec fn last_write(accesses: Seq<Access>, register: Register) -> Option<u8>
    decreases accesses.len(),
{
    if accesses.len() == 0 {
        None
    } else {
        match accesses.last() {
            Access::Write(written, payload) => if written == register {
                Some(payload)
            } else {
                last_write(accesses.drop_last(), register)
            },
            _ => last_write(accesses.drop_last(), register),
        }
    }
}

/// Every completed write among `accesses` has a payload that fits its field.
pub open spec fn writes_fit(accesses: Seq<Access>) -> bool {
    forall|i: int|
        0 <= i < accesses.len() ==> (#[trigger] accesses[i] matches Access::Write(register, payload)
            ==> payload <= field_max(register))
}

/// The last write of a field in two runs of accesses is its last write in the
/// second run, or in the first if the second has none.
pub proof fn lemma_last_write_concat(first: Seq<Access>, second: Seq<Access>, register: Register)
    ensures
        last_write(first + second, register) == match last_write(second, register) {
            Some(payload) => Some(payload),
            None => last_write(first, register),
        },
    decreases second.len(),
{
    if second.len() == 0 {
        assert(first + second == first);
    } else {
        assert((first + second).drop_last() == first + second.drop_last());
        assert((first + second).last() == second.last());
        lemma_last_write_concat(first, second.drop_last(), register);
    }
}

/// Two runs whose writes fit make a run whose writes fit.
pub proof fn lemma_writes_fit_concat(first: Seq<Access>, second: Seq<Access>)
    requires
        writes_fit(first),
        writes_fit(second),
    ensures
        writes_fit(first + second),
{
    assert forall|i: int| 0 <= i < (first + second).len() implies (#[trigger] (first + second)[i] matches Access::Write(
        register,
        payload,
    ) ==> payload <= field_max(register)) by {
        if i < first.len() {
            assert((first + second)[i] == first[i]);
        } else {
            assert((first + second)[i] == second[i - first.len()]);
        }
    }
}

/// Two different fields of one register do not overlap.
pub proof fn lemma_fields_disjoint(register: Register, other: Register)
    requires
        register != other,
        register.address() == other.address(),
    ensures
        register.mask() & other.mask() == 0,
        other.mask() & register.mask() == 0,
{
    assert(0b0011_1110u8 & 0b0000_0001u8 == 0 && 0b0000_0001u8 & 0b0011_1110u8 == 0
        && 0b0111_0000u8 & 0b0000_1111u8 == 0 && 0b0000_1111u8 & 0b0111_0000u8 == 0
        && 0b0010_0000u8 & 0b0000_1111u8 == 0 && 0b0000_1111u8 & 0b0010_0000u8 == 0)
        by (bit_vector);
}

/// On a device where each field write sets its field and keeps the register's
/// other bits, a field holds the payload of its last write, or its first value
/// if it was never written.
pub proof fn lemma_field_after_writes(initial: u8, accesses: Seq<Access>, register: Register)
    requires
        writes_fit(accesses),
    ensures
        field_of(register_after(initial, accesses, register.address()), register) == match last_write(
            accesses,
            register,
        ) {
            Some(payload) => payload,
            None => field_of(initial, register),
        },
    decreases accesses.len(),
{
    if accesses.len() > 0 {
        let prefix = accesses.drop_last();
        assert forall|i: int| 0 <= i < prefix.len() implies (#[trigger] prefix[i] matches Access::Write(
            written,
            payload,
        ) ==> payload <= field_max(written)) by {
            assert(prefix[i] == accesses[i]);
        }
        lemma_field_after_writes(initial, prefix, register);
        let before = register_after(initial, prefix, register.address());
        assert(accesses[accesses.len() - 1] == accesses.last());
        if let Access::Write(written, payload) = accesses.last() {
            if written == register {
                lemma_write_effect(before, register, payload);
            } else if written.address() == register.address() {
                lemma_fields_disjoint(written, register);
                lemma_write_effect(before, written, payload);
                lemma_other_field_kept(
                    before,
                    merged(before, written, payload),
                    written.mask(),
                    register.mask(),
                    field_shift(register),
                );
            }
        }
    }
}

/// Where each field sits in its register and the largest value it can hold.
pub proof fn lemma_field_layout(register: Register)
    ensures
        field_shift(register) == match register {
            Register::AfeGainBoost => 1u8,
            Register::NoiseFloorLevel => 4u8,
            Register::MinimumNumberOfLightning => 4u8,
            Register::MaskDisturber => 5u8,
            Register::DisplayTrcoOnIrqPin => 5u8,
            _ => 0u8,
        },
        field_max(register) == match register {
            Register::AfeGainBoost => 31u8,
            Register::PowerDown => 1u8,
            Register::NoiseFloorLevel => 7u8,
            Register::WatchdogThreshold => 15u8,
            Register::MinimumNumberOfLightning => 3u8,
            Register::MaskDisturber => 1u8,
            Register::Interrupt => 15u8,
            Register::DistanceEstimation => 63u8,
            Register::DisplayTrcoOnIrqPin => 1u8,
            Register::PresetDefault => 255u8,
            Register::CalibrateOscillators => 255u8,
        },
{
    reveal_with_fuel(lowest_set_bit_from, 8);
    match register {
        Register::AfeGainBoost => {
            assert((0b0011_1110u8 >> 0u8) & 1 == 0 && (0b0011_1110u8 >> 1u8) & 1 == 1 && (0b0011_1110u8 >> 1u8) == 31u8) by (bit_vector);
        },
        Register::PowerDown => {
            assert((0b0000_0001u8 >> 0u8) & 1 == 1 && (0b0000_0001u8 >> 0u8) == 1u8) by (bit_vector);
        },
        Register::NoiseFloorLevel => {
            assert((0b0111_0000u8 >> 0u8) & 1 == 0 && (0b0111_0000u8 >> 1u8) & 1 == 0 && (0b0111_0000u8 >> 2u8) & 1 == 0 && (0b0111_0000u8 >> 3u8) & 1 == 0 && (0b0111_0000u8 >> 4u8) & 1 == 1 && (0b0111_0000u8 >> 4u8) == 7u8) by (bit_vector);
        },
        Register::WatchdogThreshold | Register::Interrupt => {
            assert((0b0000_1111u8 >> 0u8) & 1 == 1 && (0b0000_1111u8 >> 0u8) == 15u8) by (bit_vector);
        },
        Register::MinimumNumberOfLightning => {
            assert((0b0011_0000u8 >> 0u8) & 1 == 0 && (0b0011_0000u8 >> 1u8) & 1 == 0 && (0b0011_0000u8 >> 2u8) & 1 == 0 && (0b0011_0000u8 >> 3u8) & 1 == 0 && (0b0011_0000u8 >> 4u8) & 1 == 1 && (0b0011_0000u8 >> 4u8) == 3u8) by (bit_vector);
        },
        Register::MaskDisturber | Register::DisplayTrcoOnIrqPin => {
            assert((0b0010_0000u8 >> 0u8) & 1 == 0 && (0b0010_0000u8 >> 1u8) & 1 == 0 && (0b0010_0000u8 >> 2u8) & 1 == 0 && (0b0010_0000u8 >> 3u8) & 1 == 0 && (0b0010_0000u8 >> 4u8) & 1 == 0 && (0b0010_0000u8 >> 5u8) & 1 == 1 && (0b0010_0000u8 >> 5u8) == 1u8) by (bit_vector);
        },
        Register::DistanceEstimation => {
            assert((0b0011_1111u8 >> 0u8) & 1 == 1 && (0b0011_1111u8 >> 0u8) == 63u8) by (bit_vector);
        },
        Register::PresetDefault | Register::CalibrateOscillators => {
            assert((0xffu8 >> 0u8) & 1 == 1 && (0xffu8 >> 0u8) == 255u8) by (bit_vector);
        },
    }
}

/// Writing a field sets it to the payload and changes no other bit of its
/// register, so reading the field from the written byte gives the payload back.
pub proof fn lemma_write_effect(current: u8, register: Register, payload: u8)
    requires
        payload <= field_max(register),
    ensures
        merged(current, register, payload) & !register.mask() == current & !register.mask(),
        field_of(merged(current, register, payload), register) == payload,
{
    lemma_field_layout(register);
    match register {
        Register::AfeGainBoost => {
            assert(((current & !0b0011_1110u8) | (payload << 1u8)) & !0b0011_1110u8 == current & !0b0011_1110u8 && (((
            (current & !0b0011_1110u8) | (payload << 1u8)) & 0b0011_1110u8) >> 1u8) == payload) by (bit_vector)
                requires
                    payload <= 31u8,
            ;
        },
        Register::PowerDown => {
            assert(((current & !0b0000_0001u8) | (payload << 0u8)) & !0b0000_0001u8 == current & !0b0000_0001u8 && (((
            (current & !0b0000_0001u8) | (payload << 0u8)) & 0b0000_0001u8) >> 0u8) == payload) by (bit_vector)
                requires
                    payload <= 1u8,
            ;
        },
        Register::NoiseFloorLevel => {
            assert(((current & !0b0111_0000u8) | (payload << 4u8)) & !0b0111_0000u8 == current & !0b0111_0000u8 && (((
            (current & !0b0111_0000u8) | (payload << 4u8)) & 0b0111_0000u8) >> 4u8) == payload) by (bit_vector)
                requires
                    payload <= 7u8,
            ;
        },
        Register::WatchdogThreshold | Register::Interrupt => {
            assert(((current & !0b0000_1111u8) | (payload << 0u8)) & !0b0000_1111u8 == current & !0b0000_1111u8 && (((
            (current & !0b0000_1111u8) | (payload << 0u8)) & 0b0000_1111u8) >> 0u8) == payload) by (bit_vector)
                requires
                    payload <= 15u8,
            ;
        },
        Register::MinimumNumberOfLightning => {
            assert(((current & !0b0011_0000u8) | (payload << 4u8)) & !0b0011_0000u8 == current & !0b0011_0000u8 && (((
            (current & !0b0011_0000u8) | (payload << 4u8)) & 0b0011_0000u8) >> 4u8) == payload) by (bit_vector)
                requires
                    payload <= 3u8,
            ;
        },
        Register::MaskDisturber | Register::DisplayTrcoOnIrqPin => {
            assert(((current & !0b0010_0000u8) | (payload << 5u8)) & !0b0010_0000u8 == current & !0b0010_0000u8 && (((
            (current & !0b0010_0000u8) | (payload << 5u8)) & 0b0010_0000u8) >> 5u8) == payload) by (bit_vector)
                requires
                    payload <= 1u8,
            ;
        },
        Register::DistanceEstimation => {
            assert(((current & !0b0011_1111u8) | (payload << 0u8)) & !0b0011_1111u8 == current & !0b0011_1111u8 && (((
            (current & !0b0011_1111u8) | (payload << 0u8)) & 0b0011_1111u8) >> 0u8) == payload) by (bit_vector)
                requires
                    payload <= 63u8,
            ;
        },
        Register::PresetDefault | Register::CalibrateOscillators => {
            assert(((current & !0xffu8) | (payload << 0u8)) & !0xffu8 == current & !0xffu8 && (((
            (current & !0xffu8) | (payload << 0u8)) & 0xffu8) >> 0u8) == payload) by (bit_vector)
                requires
                    payload <= 255u8,
            ;
        },
    }
}

/// Two bytes that agree outside a mask agree on every field that lies outside it.
pub proof fn lemma_other_field_kept(before: u8, after: u8, mask: u8, other_mask: u8, shift: u8)
    requires
        after & !mask == before & !mask,
        other_mask & mask == 0,
    ensures
        (after & other_mask) >> shift == (before & other_mask) >> shift,
{
    assert((after & other_mask) == (before & other_mask)) by (bit_vector)
        requires
            after & !mask == before & !mask,
            other_mask & mask == 0,
    ;
}

/// The lowest-set-bit scan finds a set bit with every bit below it clear, and
/// gives 0 exactly for a mask with no bit set at all or with bit 0 set.
pub proof fn lemma_lowest_set_bit(mask: u8)
    ensures
        mask == 0 ==> lowest_set_bit(mask) == 0,
        mask != 0 ==> {
            &&& lowest_set_bit(mask) < 8
            &&& (mask >> lowest_set_bit(mask)) & 1 == 1
            &&& forall|j: u8| j < lowest_set_bit(mask) ==> (mask >> j) & 1 == 0
        },
{
    lemma_lowest_set_bit_from(mask, 0);
    let s = lowest_set_bit(mask);
    if mask == 0 {
        assert((mask >> s) & 1 == 0) by (bit_vector)
            requires
                mask == 0,
        ;
    }
    if mask != 0 && (mask >> lowest_set_bit(mask)) & 1 != 1 {
        assert(mask == 0) by (bit_vector)
            requires
                (mask >> 0u8) & 1 == 0,
                (mask >> 1u8) & 1 == 0,
                (mask >> 2u8) & 1 == 0,
                (mask >> 3u8) & 1 == 0,
                (mask >> 4u8) & 1 == 0,
                (mask >> 5u8) & 1 == 0,
                (mask >> 6u8) & 1 == 0,
                (mask >> 7u8) & 1 == 0,
        ;
    }
}

proof fn lemma_lowest_set_bit_from(mask: u8, from: u8)
    requires
        from <= 8,
    ensures
        lowest_set_bit_from(mask, from) < 8,
        forall|j: u8|
            from <= j < lowest_set_bit_from(mask, from) ==> (mask >> j) & 1 == 0,
        (mask >> lowest_set_bit_from(mask, from)) & 1 != 1 ==> lowest_set_bit_from(mask, from)
            == 0 && forall|j: u8| from <= j < 8 ==> (mask >> j) & 1 == 0,
    decreases 8 - from,
{
    if from < 8 && (mask >> from) & 1 != 1 {
        lemma_lowest_set_bit_from(mask, (from + 1) as u8);
        assert((mask >> from) & 1 == 0) by (bit_vector)
            requires
                (mask >> from) & 1 != 1,
        ;
    }
}

} // verus!
