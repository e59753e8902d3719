use vstd::prelude::*;

use crate::interface::Irq;
use crate::{
    afe_gain, disturber_mask, distance_from_bits, lightning_count_code, HeadOfStormDistance,
    IgnoreDisturbances, MinimumLightningThreshold, NoiseFloorThreshold, SensorPlacing,
    SignalVerificationThreshold,
};
use vstd::std_specs::convert::FromSpecImpl;

verus! {

impl From<SensorPlacing> for u8 {
    fn from(placing: SensorPlacing) -> (bits: u8)
        ensures
            bits == afe_gain(placing),
    {
        match placing {
            SensorPlacing::Indoor => 0b1_0010,
            SensorPlacing::Outdoor => 0b0_1110,
        }
    }
}

impl FromSpecImpl<SensorPlacing> for u8 {
    open spec fn obeys_from_spec() -> bool {
        true
    }

    open spec fn from_spec(placing: SensorPlacing) -> u8 {
        afe_gain(placing)
    }
}

impl From<MinimumLightningThreshold> for u8 {
    fn from(threshold: MinimumLightningThreshold) -> (bits: u8)
        ensures
            bits == lightning_count_code(threshold),
    {
        match threshold {
            MinimumLightningThreshold::One => 0b00,
            MinimumLightningThreshold::Five => 0b01,
            MinimumLightningThreshold::Nine => 0b10,
            MinimumLightningThreshold::Sixteen => 0b11,
        }
    }
}

impl FromSpecImpl<MinimumLightningThreshold> for u8 {
    open spec fn obeys_from_spec() -> bool {
        true
    }

    open spec fn from_spec(threshold: MinimumLightningThreshold) -> u8 {
        lightning_count_code(threshold)
    }
}

impl From<NoiseFloorThreshold> for u8 {
    fn from(threshold: NoiseFloorThreshold) -> (bits: u8)
        ensures
            bits == threshold.value(),
            bits <= 11,
    {
        proof {
            use_type_invariant(&threshold);
        }
        threshold.0
    }
}

impl FromSpecImpl<NoiseFloorThreshold> for u8 {
    open spec fn obeys_from_spec() -> bool {
        true
    }

    open spec fn from_spec(threshold: NoiseFloorThreshold) -> u8 {
        threshold.value()
    }
}

impl From<SignalVerificationThreshold> for u8 {
    fn from(threshold: SignalVerificationThreshold) -> (bits: u8)
        ensures
            bits == threshold.value(),
            bits <= 10,
    {
        proof {
            use_type_invariant(&threshold);
        }
        threshold.0
    }
}

impl FromSpecImpl<SignalVerificationThreshold> for u8 {
    open spec fn obeys_from_spec() -> bool {
        true
    }

    open spec fn from_spec(threshold: SignalVerificationThreshold) -> u8 {
        threshold.value()
    }
}

impl From<IgnoreDisturbances> for u8 {
    fn from(ignore: IgnoreDisturbances) -> (bits: u8)
        ensures
            bits == disturber_mask(ignore),
    {
        match ignore {
            IgnoreDisturbances::Yes => 1,
            IgnoreDisturbances::No => 0,
        }
    }
}

impl FromSpecImpl<IgnoreDisturbances> for u8 {
    open spec fn obeys_from_spec() -> bool {
        true
    }

    open spec fn from_spec(ignore: IgnoreDisturbances) -> u8 {
        disturber_mask(ignore)
    }
}

impl From<u8> for HeadOfStormDistance {
    fn from(bits: u8) -> (distance: Self)
        ensures
            distance == distance_from_bits(bits),
    {
        if bits > 40 {
            HeadOfStormDistance::OutOfRange
        } else if bits < 5 {
            HeadOfStormDistance::Overhead
        } else {
            HeadOfStormDistance::Kilometers(bits)
        }
    }
}

impl FromSpecImpl<u8> for HeadOfStormDistance {
    open spec fn obeys_from_spec() -> bool {
        true
    }

    open spec fn from_spec(bits: u8) -> Self {
        distance_from_bits(bits)
    }
}

impl Irq {
    /// The interrupt an INT code reports; `None` for a code the datasheet does not define.
    pub(crate) fn from_bits(bits: u8) -> (irq: Option<Irq>)
        ensures
            irq matches Some(Irq::DistanceEstimationChanged) <==> bits == 0b0000,
            irq matches Some(Irq::NoiseLevelTooHigh) <==> bits == 0b0001,
            irq matches Some(Irq::DisturberDetected) <==> bits == 0b0100,
            irq matches Some(Irq::Lightning) <==> bits == 0b1000,
    {
        match bits {
            0b0000 => Some(Irq::DistanceEstimationChanged),
            0b0001 => Some(Irq::NoiseLevelTooHigh),
            0b0100 => Some(Irq::DisturberDetected),
            0b1000 => Some(Irq::Lightning),
            _ => None,
        }
    }
}

} // verus!
