use vstd::prelude::*;

verus! {

/// The bit fields of the AS3935 register map that the driver touches.
///
/// Each field lives in one byte-wide register (`address`) and occupies the bits
/// set in `mask`; the direct commands `PresetDefault` and `CalibrateOscillators`
/// take the whole byte.
#[derive(Clone, Copy, Debug, PartialEq, Eq, Structural)]
pub enum Register {
    /// AFE_GB, register 0x00, bits 5..1.
    AfeGainBoost,
    /// PWD, register 0x00, bit 0.
    PowerDown,
    /// NF_LEV, register 0x01, bits 6..4.
    NoiseFloorLevel,
    /// WDTH, register 0x01, bits 3..0.
    WatchdogThreshold,
    /// MIN_NUM_LIGH, register 0x02, bits 5..4.
    MinimumNumberOfLightning,
    /// MASK_DIST, register 0x03, bit 5.
    MaskDisturber,
    /// INT, register 0x03, bits 3..0.
    Interrupt,
    /// DISTANCE, register 0x07, bits 5..0.
    DistanceEstimation,
    /// DISP_TRCO, register 0x08, bit 5.
    DisplayTrcoOnIrqPin,
    /// PRESET_DEFAULT direct command, register 0x3C.
    PresetDefault,
    /// CALIB_RCO direct command, register 0x3D.
    CalibrateOscillators,
}

impl Register {
    /// The register address that holds this field.
    pub open spec fn address_spec(&self) -> u8 {
        match self {
            Register::AfeGainBoost => 0x00,
            Register::PowerDown => 0x00,
            Register::NoiseFloorLevel => 0x01,
            Register::WatchdogThreshold => 0x01,
            Register::MinimumNumberOfLightning => 0x02,
            Register::MaskDisturber => 0x03,
            Register::Interrupt => 0x03,
            Register::DistanceEstimation => 0x07,
            Register::DisplayTrcoOnIrqPin => 0x08,
            Register::PresetDefault => 0x3c,
            Register::CalibrateOscillators => 0x3d,
        }
    }

    /// The bits of the register that this field occupies.
    pub open spec fn mask_spec(&self) -> u8 {
        match self {
            Register::AfeGainBoost => 0b0011_1110,
            Register::PowerDown => 0b0000_0001,
            Register::NoiseFloorLevel => 0b0111_0000,
            Register::WatchdogThreshold => 0b0000_1111,
            Register::MinimumNumberOfLightning => 0b0011_0000,
            Register::MaskDisturber => 0b0010_0000,
            Register::Interrupt => 0b0000_1111,
            Register::DistanceEstimation => 0b0011_1111,
            Register::DisplayTrcoOnIrqPin => 0b0010_0000,
            Register::PresetDefault => 0xff,
            Register::CalibrateOscillators => 0xff,
        }
    }

    #[verifier::when_used_as_spec(address_spec)]
    pub fn address(&self) -> (address: u8)
        ensures
            address == self.address_spec(),
    {
        match self {
            Register::AfeGainBoost => 0x00,
            Register::PowerDown => 0x00,
            Register::NoiseFloorLevel => 0x01,
            Register::WatchdogThreshold => 0x01,
            Register::MinimumNumberOfLightning => 0x02,
            Register::MaskDisturber => 0x03,
            Register::Interrupt => 0x03,
            Register::DistanceEstimation => 0x07,
            Register::DisplayTrcoOnIrqPin => 0x08,
            Register::PresetDefault => 0x3c,
            Register::CalibrateOscillators => 0x3d,
        }
    }

    #[verifier::when_used_as_spec(mask_spec)]
    pub fn mask(&self) -> (mask: u8)
        ensures
            mask == self.mask_spec(),
    {
        match self {
            Register::AfeGainBoost => 0b0011_1110,
            Register::PowerDown => 0b0000_0001,
            Register::NoiseFloorLevel => 0b0111_0000,
            Register::WatchdogThreshold => 0b0000_1111,
            Register::MinimumNumberOfLightning => 0b0011_0000,
            Register::MaskDisturber => 0b0010_0000,
            Register::Interrupt => 0b0000_1111,
            Register::DistanceEstimation => 0b0011_1111,
            Register::DisplayTrcoOnIrqPin => 0b0010_0000,
            Register::PresetDefault => 0xff,
            Register::CalibrateOscillators => 0xff,
        }
    }
}

} // verus!
