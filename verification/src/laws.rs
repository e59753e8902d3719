//! What the driver's operations are for, stated with the datasheet's numbers.
use vstd::prelude::*;

use crate::device::registers::Register;
use crate::interface::spi::{read_command, write_command};
use crate::interface::{last_write, Access};
use crate::{
    afe_gain, disturber_mask, distance_from_bits, irq_event, lemma_listen_writes,
    lightning_count_code, lightning_irq, listen_writes, noise_floor_fits, ran,
    signal_threshold_in_range, Event, HeadOfStormDistance, IgnoreDisturbances, ListeningParameters,
    MinimumLightningThreshold, SensorPlacing,
};

verus! {

/// The MIN_NUM_LIGH codes follow the thresholds in order and fill the two-bit
/// field: one strike is 0, five 1, nine 2, sixteen 3; no two thresholds share
/// a code.
pub proof fn lemma_lightning_count_codes(threshold: MinimumLightningThreshold)
    ensures
        lightning_count_code(MinimumLightningThreshold::One) < lightning_count_code(
            MinimumLightningThreshold::Five,
        ),
        lightning_count_code(MinimumLightningThreshold::Five) < lightning_count_code(
            MinimumLightningThreshold::Nine,
        ),
        lightning_count_code(MinimumLightningThreshold::Nine) < lightning_count_code(
            MinimumLightningThreshold::Sixteen,
        ),
        lightning_count_code(MinimumLightningThreshold::Sixteen) <= 3,
        lightning_count_code(threshold) == match threshold {
            MinimumLightningThreshold::One => 0u8,
            MinimumLightningThreshold::Five => 1u8,
            MinimumLightningThreshold::Nine => 2u8,
            MinimumLightningThreshold::Sixteen => 3u8,
        },
{
}

/// The AFE gain boost is 18 (0b10010) indoors and 14 (0b01110) outdoors, and
/// the disturber mask bit is 1 exactly when disturbances are ignored.
pub proof fn lemma_setting_codes(placing: SensorPlacing, ignore: IgnoreDisturbances)
    ensures
        afe_gain(placing) == if placing == SensorPlacing::Indoor {
            18u8
        } else {
            14u8
        },
        afe_gain(SensorPlacing::Indoor) != afe_gain(SensorPlacing::Outdoor),
        disturber_mask(ignore) == if ignore == IgnoreDisturbances::Yes {
            1u8
        } else {
            0u8
        },
{
}

/// A DISTANCE reading from 5 to 40 is that many kilometers; the head of the
/// storm is out of range exactly for a reading above 40 and overhead exactly
/// for a reading below 5.
pub proof fn lemma_distance_readings(reading: u8)
    ensures
        5 <= reading <= 40 ==> distance_from_bits(reading) == HeadOfStormDistance::Kilometers(
            reading,
        ),
        (distance_from_bits(reading) == HeadOfStormDistance::OutOfRange) <==> reading > 40,
        (distance_from_bits(reading) == HeadOfStormDistance::Overhead) <==> reading < 5,
        distance_from_bits(reading) matches HeadOfStormDistance::Kilometers(km) ==> km == reading && 5
            <= km <= 40,
{
}

/// The INT codes: 8 (0b1000) is lightning, 1 is noise, 4 a disturber; every
/// other code reports no event.
pub proof fn lemma_interrupt_codes(code: u8)
    ensures
        lightning_irq() == 8u8,
        code == 1u8 ==> irq_event(code) == Some(Event::Noise),
        code == 4u8 ==> irq_event(code) == Some(Event::Disturbance),
        code != 1u8 && code != 4u8 ==> irq_event(code) is None,
{
}

/// The register map: each field's register address and bits, as the datasheet
/// gives them.
pub proof fn lemma_register_map()
    ensures
        Register::AfeGainBoost.address() == 0u8 && Register::AfeGainBoost.mask() == 62u8,
        Register::PowerDown.address() == 0u8 && Register::PowerDown.mask() == 1u8,
        Register::NoiseFloorLevel.address() == 1u8 && Register::NoiseFloorLevel.mask() == 112u8,
        Register::WatchdogThreshold.address() == 1u8 && Register::WatchdogThreshold.mask() == 15u8,
        Register::MinimumNumberOfLightning.address() == 2u8
            && Register::MinimumNumberOfLightning.mask() == 48u8,
        Register::MaskDisturber.address() == 3u8 && Register::MaskDisturber.mask() == 32u8,
        Register::Interrupt.address() == 3u8 && Register::Interrupt.mask() == 15u8,
        Register::DistanceEstimation.address() == 7u8 && Register::DistanceEstimation.mask()
            == 63u8,
        Register::DisplayTrcoOnIrqPin.address() == 8u8 && Register::DisplayTrcoOnIrqPin.mask()
            == 32u8,
        Register::PresetDefault.address() == 60u8 && Register::PresetDefault.mask() == 255u8,
        Register::CalibrateOscillators.address() == 61u8 && Register::CalibrateOscillators.mask()
            == 255u8,
{
}

/// An SPI read command has the read bit (0x40) set and a write command has it
/// clear; both carry the register address in their low six bits.
pub proof fn lemma_spi_commands(address: u8)
    ensures
        read_command(address) & 0x40 == 0x40,
        write_command(address) & 0x40 == 0,
        write_command(address) & 0x80 == 0,
        read_command(address) & 0x80 == 0,
        read_command(address) & 0x3f == address & 0x3f,
        write_command(address) & 0x3f == address & 0x3f,
{
    assert((0x40 | (address & 0x3f)) & 0x40 == 0x40 && (address & 0x3f) & 0x40 == 0 && (address
        & 0x3f) & 0x80 == 0 && (0x40 | (address & 0x3f)) & 0x80 == 0 && (0x40 | (address & 0x3f))
        & 0x3f == address & 0x3f && (address & 0x3f) & 0x3f == address & 0x3f) by (bit_vector);
}

/// What a `listen` that succeeded wrote, from the log before it (`before`) to
/// the log after it (`after`): first PWD := 0, CALIB_RCO := 0x96, DISP_TRCO :=
/// 1, DISP_TRCO := 0 and PRESET_DEFAULT := 0x96, in that order; then each
/// given parameter on its own, whatever the others are: the AFE gain of the
/// sensor placing, the MIN_NUM_LIGH code of the minimum lightning threshold,
/// the noise floor threshold into NF_LEV, the signal verification threshold
/// into WDTH and the disturber mask into MASK_DIST, in that order and nothing
/// else. A parameter left unset
/// leaves its field unwritten, and neither INT nor DISTANCE is written.
pub proof fn lemma_listen_effect(
    before: Seq<Access>,
    after: Seq<Access>,
    parameters: ListeningParameters,
)
    requires
        ran(before, after, listen_writes(parameters), Ok(())),
        noise_floor_fits(parameters),
        signal_threshold_in_range(parameters),
    ensures
        after.len() >= before.len() + 5,
        after.subrange(0, before.len() as int) == before,
        after[before.len() as int] == Access::Write(Register::PowerDown, 0u8),
        after[before.len() + 1int] == Access::Write(Register::CalibrateOscillators, 150u8),
        after[before.len() + 2int] == Access::Write(Register::DisplayTrcoOnIrqPin, 1u8),
        after[before.len() + 3int] == Access::Write(Register::DisplayTrcoOnIrqPin, 0u8),
        after[before.len() + 4int] == Access::Write(Register::PresetDefault, 150u8),
        after.skip(before.len() + 5int) == (match parameters.sensor_placing() {
            Some(SensorPlacing::Indoor) => seq![Access::Write(Register::AfeGainBoost, 18u8)],
            Some(SensorPlacing::Outdoor) => seq![Access::Write(Register::AfeGainBoost, 14u8)],
            None => Seq::<Access>::empty(),
        }) + (match parameters.minimum_lightning_threshold() {
            Some(MinimumLightningThreshold::One) => seq![
                Access::Write(Register::MinimumNumberOfLightning, 0u8),
            ],
            Some(MinimumLightningThreshold::Five) => seq![
                Access::Write(Register::MinimumNumberOfLightning, 1u8),
            ],
            Some(MinimumLightningThreshold::Nine) => seq![
                Access::Write(Register::MinimumNumberOfLightning, 2u8),
            ],
            Some(MinimumLightningThreshold::Sixteen) => seq![
                Access::Write(Register::MinimumNumberOfLightning, 3u8),
            ],
            None => Seq::<Access>::empty(),
        }) + (match parameters.noise_floor_threshold() {
            Some(threshold) => seq![Access::Write(Register::NoiseFloorLevel, threshold.value())],
            None => Seq::<Access>::empty(),
        }) + (match parameters.signal_verification_threshold() {
            Some(threshold) => seq![Access::Write(Register::WatchdogThreshold, threshold.value())],
            None => Seq::<Access>::empty(),
        }) + (match parameters.ignore_disturbances() {
            Some(IgnoreDisturbances::Yes) => seq![Access::Write(Register::MaskDisturber, 1u8)],
            Some(IgnoreDisturbances::No) => seq![Access::Write(Register::MaskDisturber, 0u8)],
            None => Seq::<Access>::empty(),
        }),
        last_write(after.skip(before.len() as int), Register::AfeGainBoost)
            == match parameters.sensor_placing() {
            Some(SensorPlacing::Indoor) => Some(18u8),
            Some(SensorPlacing::Outdoor) => Some(14u8),
            None => None,
        },
        last_write(after.skip(before.len() as int), Register::MinimumNumberOfLightning)
            == match parameters.minimum_lightning_threshold() {
            Some(MinimumLightningThreshold::One) => Some(0u8),
            Some(MinimumLightningThreshold::Five) => Some(1u8),
            Some(MinimumLightningThreshold::Nine) => Some(2u8),
            Some(MinimumLightningThreshold::Sixteen) => Some(3u8),
            None => None,
        },
        last_write(after.skip(before.len() as int), Register::NoiseFloorLevel)
            == match parameters.noise_floor_threshold() {
            Some(threshold) => Some(threshold.value()),
            None => None,
        },
        last_write(after.skip(before.len() as int), Register::WatchdogThreshold)
            == match parameters.signal_verification_threshold() {
            Some(threshold) => Some(threshold.value()),
            None => None,
        },
        last_write(after.skip(before.len() as int), Register::MaskDisturber)
            == match parameters.ignore_disturbances() {
            Some(IgnoreDisturbances::Yes) => Some(1u8),
            Some(IgnoreDisturbances::No) => Some(0u8),
            None => None,
        },
        last_write(after.skip(before.len() as int), Register::PowerDown) == Some(0u8),
        last_write(after.skip(before.len() as int), Register::Interrupt) is None,
        last_write(after.skip(before.len() as int), Register::DistanceEstimation) is None,
{
    let added = listen_writes(parameters);
    assert(after == before + added);
    assert(after.skip(before.len() as int) == added);
    assert(after.subrange(0, before.len() as int) == before);
    let startup = crate::power_up_writes() + crate::calibration_writes() + crate::preset_writes();
    assert(added == startup + crate::parameter_writes(parameters));
    assert(startup.len() == 5);
    assert(added[0] == startup[0] && added[1] == startup[1] && added[2] == startup[2] && added[3]
        == startup[3] && added[4] == startup[4]);
    assert(added.skip(5) == crate::parameter_writes(parameters));
    assert(after.skip(before.len() + 5int) == added.skip(5));
    lemma_listen_writes(parameters, Register::AfeGainBoost);
    lemma_listen_writes(parameters, Register::MinimumNumberOfLightning);
    lemma_listen_writes(parameters, Register::NoiseFloorLevel);
    lemma_listen_writes(parameters, Register::WatchdogThreshold);
    lemma_listen_writes(parameters, Register::MaskDisturber);
    lemma_listen_writes(parameters, Register::PowerDown);
    lemma_listen_writes(parameters, Register::Interrupt);
    lemma_listen_writes(parameters, Register::DistanceEstimation);
}

} // verus!
