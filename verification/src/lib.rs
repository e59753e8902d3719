//! Driver for the AS3935 Franklin lightning sensor, over I2C or SPI.
use vstd::prelude::*;

use crate::device::registers::Register;
use crate::interface::i2c::{I2cAddress, I2cInterface, I2cPort};
use crate::interface::spi::{SpiInterface, SpiPort};
use crate::interface::i2c::{i2c_register_file, i2c_register_value, frame_address};
use crate::interface::{
    failed, field_max, field_of, last_write, lemma_field_after_writes, lemma_field_layout,
    lemma_last_write_concat, lemma_writes_fit_concat, register_after, writes_fit, Access, Interface,
    Irq,
};

pub mod device;
pub mod interface;
pub mod laws;

verus! {

#[derive(Debug)]
pub enum Error {
    Deadlock,
    InterfaceError(interface::Error),
    InvalidState,
}

pub type Result<T> = core::result::Result<T, Error>;

impl Error {
    /// The text that describes the error.
    pub fn message(&self) -> (text: &'static str)
        ensures
            self is Deadlock ==> text@ == "Deadlock occurred"@,
            self is InvalidState ==> text@ == "Invalid state"@,
            *self matches Error::InterfaceError(interface::Error::Spi) ==> text@
                == "Interface error: SPI communication error"@,
            *self matches Error::InterfaceError(interface::Error::I2c) ==> text@
                == "Interface error: I2C communication error"@,
    {
        match self {
            Error::Deadlock => "Deadlock occurred",
            Error::InterfaceError(interface::Error::Spi) => "Interface error: SPI communication error",
            Error::InterfaceError(interface::Error::I2c) => "Interface error: I2C communication error",
            Error::InvalidState => "Invalid state",
        }
    }
}

impl From<interface::Error> for Error {
    fn from(error: interface::Error) -> (r: Self)
        ensures
            r == Error::InterfaceError(error),
    {
        Error::InterfaceError(error)
    }
}

impl vstd::std_specs::convert::FromSpecImpl<interface::Error> for Error {
    open spec fn obeys_from_spec() -> bool {
        true
    }

    open spec fn from_spec(error: interface::Error) -> Self {
        Error::InterfaceError(error)
    }
}

#[derive(Clone, Copy, Debug, Eq, PartialEq)]
pub enum SensorPlacing {
    Indoor,
    Outdoor,
}

#[derive(Clone, Copy, Debug, Eq, PartialEq)]
pub enum MinimumLightningThreshold {
    One,
    Five,
    Nine,
    Sixteen,
}

/// Larger values correspond to more robust disturber rejection, with a decrease of the detection efficiency,
/// Refer to Figure 20 in the datasheet for the relationship between this threshold and its impact.
/// Defaults to 2.
#[derive(Clone, Copy, Debug, Eq, PartialEq)]
pub struct SignalVerificationThreshold(pub(crate) u8);

impl SignalVerificationThreshold {
    #[verifier::type_invariant]
    spec fn within_range(self) -> bool {
        self.0 <= 10
    }

    /// The threshold as a number.
    pub closed spec fn value(self) -> u8 {
        self.0
    }

    /// A threshold of `value`, which must be at most 10.
    pub fn new(value: u8) -> (r: core::result::Result<Self, &'static str>)
        ensures
            r is Ok <==> value <= 10,
            r matches Ok(threshold) ==> threshold.value() == value,
            r matches Err(message) ==> message@
                == "Signal verification threshold must be in range 0-10"@,
    {
        if value > 10 {
            return Err("Signal verification threshold must be in range 0-10");
        }
        Ok(Self(value))
    }
}

/// The noise floor level (NF_LEV), accepted in the range 0-11. The register
/// field that holds it is three bits wide, so `listen` takes only thresholds of
/// at most 7: writing a larger one would not fit the field.
#[derive(Clone, Copy, Debug, Eq, PartialEq)]
pub struct NoiseFloorThreshold(pub(crate) u8);

impl NoiseFloorThreshold {
    #[verifier::type_invariant]
    spec fn within_range(self) -> bool {
        self.0 <= 11
    }

    /// The threshold as a number.
    pub closed spec fn value(self) -> u8 {
        self.0
    }

    /// A threshold of `value`, which must be at most 11.
    pub fn new(value: u8) -> (r: core::result::Result<Self, &'static str>)
        ensures
            r is Ok <==> value <= 11,
            r matches Ok(threshold) ==> threshold.value() == value,
            r matches Err(message) ==> message@ == "Noise level threshold must be in range 0-11"@,
    {
        if value > 11 {
            return Err("Noise level threshold must be in range 0-11");
        }
        Ok(Self(value))
    }
}

#[derive(Clone, Copy, Debug, Eq, PartialEq)]
pub enum IgnoreDisturbances {
    Yes,
    No,
}

/// Estimated distance to the head of storm, in kilometers.
#[derive(Clone, Copy, Debug, Eq, PartialEq)]
pub enum HeadOfStormDistance {
    /// the storm is within 5-40 km range
    Kilometers(u8),
    /// the storm is out of range (>40 km)
    OutOfRange,
    /// the storm is overhead (<5 km)
    Overhead,
}

pub enum InterfaceSelection<I2C, SPI> {
    I2c(I2C, I2cAddress),
    Spi(SPI),
}

pub enum Event {
    Disturbance,
    Lightning(HeadOfStormDistance),
    Noise,
}

/// Where the driver stands in its lifecycle.
#[derive(Clone, Copy, Debug, Eq, PartialEq, Structural)]
pub enum State {
    Listening,
    PoweredDown,
    StandingBy,
}

/// The states from which the sensor may start listening.
pub open spec fn can_listen(state: State) -> bool {
    state == State::StandingBy || state == State::PoweredDown
}

/// The state from which the sensor may be terminated.
pub open spec fn can_terminate(state: State) -> bool {
    state == State::Listening
}

/// The state after `listen` returned `r` in `state`.
pub open spec fn state_after_listen(state: State, r: core::result::Result<(), Error>) -> State {
    if r is Ok {
        State::Listening
    } else {
        state
    }
}

/// The state after `terminate` returned `r` in `state`.
pub open spec fn state_after_terminate(state: State, r: core::result::Result<(), Error>) -> State {
    if r is Ok {
        State::PoweredDown
    } else {
        state
    }
}

/// Listening and terminating alternate: in every state exactly one of them may
/// start; a listen that succeeds leaves a driver that may be terminated, and a
/// terminate that succeeds leaves one that may listen again; a call that fails
/// leaves the state as it was. A new driver stands by, so it may listen.
pub proof fn lemma_lifecycle(state: State, r: core::result::Result<(), Error>)
    ensures
        can_listen(state) != can_terminate(state),
        can_listen(State::StandingBy),
        can_listen(state) ==> can_terminate(state_after_listen(state, Ok(()))),
        can_terminate(state) ==> can_listen(state_after_terminate(state, Ok(()))),
        r is Err ==> state_after_listen(state, r) == state && state_after_terminate(state, r)
            == state,
{
}

/// A call on the driver as far as its lifecycle goes: a `listen` or a
/// `terminate` with what it returned, or a `check_irq`.
pub enum Call {
    Listen(core::result::Result<(), Error>),
    Terminate(core::result::Result<(), Error>),
    CheckIrq,
}

/// The state after `call`, as the contracts of `listen`, `terminate` and
/// `check_irq` give it.
pub open spec fn state_after_call(state: State, call: Call) -> State {
    match call {
        Call::Listen(r) => state_after_listen(state, r),
        Call::Terminate(r) => state_after_terminate(state, r),
        Call::CheckIrq => state,
    }
}

/// The state after the calls `calls`, made in order from `state`.
pub open spec fn state_after_calls(state: State, calls: Seq<Call>) -> State
    decreases calls.len(),
{
    if calls.len() == 0 {
        state
    } else {
        state_after_call(state_after_calls(state, calls.drop_last()), calls.last())
    }
}

/// `call` is a `listen` that succeeded.
pub open spec fn listen_succeeded(call: Call) -> bool {
    call matches Call::Listen(Ok(()))
}

/// `call` is a `terminate` that succeeded.
pub open spec fn terminate_succeeded(call: Call) -> bool {
    call matches Call::Terminate(Ok(()))
}

/// Some `listen` among `calls` succeeded and no `terminate` after it did.
pub open spec fn listening_after(calls: Seq<Call>) -> bool {
    exists|i: int|
        0 <= i < calls.len() && listen_succeeded(#[trigger] calls[i])
            && forall|j: int| i < j < calls.len() ==> !terminate_succeeded(#[trigger] calls[j])
}

/// Over any sequence of calls on a driver that is not listening (a new one
/// stands by), the driver is listening exactly when some `listen` succeeded
/// and no `terminate` succeeded after it; failed calls and `check_irq` change
/// nothing.
pub proof fn lemma_lifecycle_calls(start: State, calls: Seq<Call>)
    requires
        start != State::Listening,
    ensures
        (state_after_calls(start, calls) == State::Listening) <==> listening_after(calls),
    decreases calls.len(),
{
    if calls.len() > 0 {
        let prefix = calls.drop_last();
        lemma_lifecycle_calls(start, prefix);
        let last = calls.last();
        assert(forall|j: int| 0 <= j < prefix.len() ==> #[trigger] prefix[j] == calls[j]);
        if listen_succeeded(last) {
            assert(listen_succeeded(calls[calls.len() - 1]));
        } else if terminate_succeeded(last) {
            if listening_after(calls) {
                let i = choose|i: int|
                    0 <= i < calls.len() && listen_succeeded(#[trigger] calls[i])
                        && forall|j: int| i < j < calls.len() ==> !terminate_succeeded(#[trigger] calls[j]);
                assert(i != calls.len() - 1);
                assert(terminate_succeeded(calls[calls.len() - 1]));
            }
        } else {
            if listening_after(prefix) {
                let i = choose|i: int|
                    0 <= i < prefix.len() && listen_succeeded(#[trigger] prefix[i])
                        && forall|j: int| i < j < prefix.len() ==> !terminate_succeeded(#[trigger] prefix[j]);
                assert(listen_succeeded(calls[i]));
                assert forall|j: int| i < j < calls.len() implies !terminate_succeeded(#[trigger] calls[j]) by {
                    if j < prefix.len() {
                        assert(prefix[j] == calls[j]);
                    }
                }
            }
            if listening_after(calls) {
                let i = choose|i: int|
                    0 <= i < calls.len() && listen_succeeded(#[trigger] calls[i])
                        && forall|j: int| i < j < calls.len() ==> !terminate_succeeded(#[trigger] calls[j]);
                assert(i != calls.len() - 1);
                assert(listen_succeeded(prefix[i]));
                assert forall|j: int| i < j < prefix.len() implies !terminate_succeeded(#[trigger] prefix[j]) by {
                    assert(prefix[j] == calls[j]);
                }
            }
        }
    }
}

/// The gain boost (AFE_GB) that a sensor placing calls for.
pub open spec fn afe_gain(placing: SensorPlacing) -> u8 {
    match placing {
        SensorPlacing::Indoor => 0b1_0010,
        SensorPlacing::Outdoor => 0b0_1110,
    }
}

/// The MIN_NUM_LIGH code of a minimum lightning threshold.
pub open spec fn lightning_count_code(threshold: MinimumLightningThreshold) -> u8 {
    match threshold {
        MinimumLightningThreshold::One => 0b00,
        MinimumLightningThreshold::Five => 0b01,
        MinimumLightningThreshold::Nine => 0b10,
        MinimumLightningThreshold::Sixteen => 0b11,
    }
}

/// The MASK_DIST bit for a choice about disturbers.
pub open spec fn disturber_mask(ignore: IgnoreDisturbances) -> u8 {
    match ignore {
        IgnoreDisturbances::Yes => 1,
        IgnoreDisturbances::No => 0,
    }
}

/// What a DISTANCE reading says of the head of the storm: the datasheet gives
/// 0b11_1111 for out of range, 0b00_0001 for overhead and the distance in
/// kilometers for 5 to 40; a reading above 40 is taken as out of range and one
/// below 5 as overhead.
pub open spec fn distance_from_bits(bits: u8) -> HeadOfStormDistance {
    if bits > 40 {
        HeadOfStormDistance::OutOfRange
    } else if bits < 5 {
        HeadOfStormDistance::Overhead
    } else {
        HeadOfStormDistance::Kilometers(bits)
    }
}

/// The INT code of a lightning interrupt.
pub open spec fn lightning_irq() -> u8 {
    0b1000
}

/// The event an INT code other than the lightning one reports: noise (INT_NH),
/// a disturber (INT_D), and none for a changed distance estimate or a code the
/// datasheet does not define.
pub open spec fn irq_event(bits: u8) -> Option<Event> {
    if bits == 0b0001 {
        Some(Event::Noise)
    } else if bits == 0b0100 {
        Some(Event::Disturbance)
    } else {
        None
    }
}


/// Optional settings applied when the sensor starts listening; a setting left
/// unset keeps the sensor's default.
pub struct ListeningParameters {
    pub(crate) sensor_placing: Option<SensorPlacing>,
    pub(crate) minimum_lightning_threshold: Option<MinimumLightningThreshold>,
    pub(crate) noise_floor_threshold: Option<NoiseFloorThreshold>,
    pub(crate) signal_verification_threshold: Option<SignalVerificationThreshold>,
    pub(crate) ignore_disturbances: Option<IgnoreDisturbances>,
}

impl ListeningParameters {
    pub closed spec fn sensor_placing(&self) -> Option<SensorPlacing> {
        self.sensor_placing
    }

    pub closed spec fn minimum_lightning_threshold(&self) -> Option<MinimumLightningThreshold> {
        self.minimum_lightning_threshold
    }

    pub closed spec fn noise_floor_threshold(&self) -> Option<NoiseFloorThreshold> {
        self.noise_floor_threshold
    }

    pub closed spec fn signal_verification_threshold(&self) -> Option<SignalVerificationThreshold> {
        self.signal_verification_threshold
    }

    pub closed spec fn ignore_disturbances(&self) -> Option<IgnoreDisturbances> {
        self.ignore_disturbances
    }

    pub fn with_sensor_placing(self, sensor_placing: SensorPlacing) -> (r: Self)
        ensures
            r.sensor_placing() == Some(sensor_placing),
            r.minimum_lightning_threshold() == self.minimum_lightning_threshold(),
            r.noise_floor_threshold() == self.noise_floor_threshold(),
            r.signal_verification_threshold() == self.signal_verification_threshold(),
            r.ignore_disturbances() == self.ignore_disturbances(),
    {
        let mut parameters = self;
        parameters.sensor_placing = Some(sensor_placing);
        parameters
    }

    pub fn with_minimum_lightning_threshold(
        self,
        minimum_lightning_threshold: MinimumLightningThreshold,
    ) -> (r: Self)
        ensures
            r.sensor_placing() == self.sensor_placing(),
            r.minimum_lightning_threshold() == Some(minimum_lightning_threshold),
            r.noise_floor_threshold() == self.noise_floor_threshold(),
            r.signal_verification_threshold() == self.signal_verification_threshold(),
            r.ignore_disturbances() == self.ignore_disturbances(),
    {
        let mut parameters = self;
        parameters.minimum_lightning_threshold = Some(minimum_lightning_threshold);
        parameters
    }

    pub fn with_noise_floor_threshold(self, noise_floor_threshold: NoiseFloorThreshold) -> (r:
        Self)
        ensures
            r.sensor_placing() == self.sensor_placing(),
            r.minimum_lightning_threshold() == self.minimum_lightning_threshold(),
            r.noise_floor_threshold() == Some(noise_floor_threshold),
            r.signal_verification_threshold() == self.signal_verification_threshold(),
            r.ignore_disturbances() == self.ignore_disturbances(),
    {
        let mut parameters = self;
        parameters.noise_floor_threshold = Some(noise_floor_threshold);
        parameters
    }

    pub fn with_signal_verification_threshold(
        self,
        signal_verification_threshold: SignalVerificationThreshold,
    ) -> (r: Self)
        ensures
            r.sensor_placing() == self.sensor_placing(),
            r.minimum_lightning_threshold() == self.minimum_lightning_threshold(),
            r.noise_floor_threshold() == self.noise_floor_threshold(),
            r.signal_verification_threshold() == Some(signal_verification_threshold),
            r.ignore_disturbances() == self.ignore_disturbances(),
    {
        let mut parameters = self;
        parameters.signal_verification_threshold = Some(signal_verification_threshold);
        parameters
    }

    pub fn with_ignore_disturbances(self, ignore_disturbances: IgnoreDisturbances) -> (r: Self)
        ensures
            r.sensor_placing() == self.sensor_placing(),
            r.minimum_lightning_threshold() == self.minimum_lightning_threshold(),
            r.noise_floor_threshold() == self.noise_floor_threshold(),
            r.signal_verification_threshold() == self.signal_verification_threshold(),
            r.ignore_disturbances() == Some(ignore_disturbances),
    {
        let mut parameters = self;
        parameters.ignore_disturbances = Some(ignore_disturbances);
        parameters
    }
}

impl Default for ListeningParameters {
    fn default() -> (r: Self)
        ensures
            r.sensor_placing() is None,
            r.minimum_lightning_threshold() is None,
            r.noise_floor_threshold() is None,
            r.signal_verification_threshold() is None,
            r.ignore_disturbances() is None,
    {
        ListeningParameters {
            sensor_placing: None,
            minimum_lightning_threshold: None,
            noise_floor_threshold: None,
            signal_verification_threshold: None,
            ignore_disturbances: None,
        }
    }
}

/// The write `register := payload` when `payload` is given, nothing otherwise.
pub open spec fn optional_write(register: Register, payload: Option<u8>) -> Seq<Access> {
    match payload {
        Some(value) => seq![Access::Write(register, value)],
        None => seq![],
    }
}

/// The register writes that apply the listening parameters, in the order the
/// driver makes them.
pub open spec fn parameter_writes(parameters: ListeningParameters) -> Seq<Access> {
    optional_write(
        Register::AfeGainBoost,
        match parameters.sensor_placing() {
            Some(placing) => Some(afe_gain(placing)),
            None => None,
        },
    ) + optional_write(
        Register::MinimumNumberOfLightning,
        match parameters.minimum_lightning_threshold() {
            Some(threshold) => Some(lightning_count_code(threshold)),
            None => None,
        },
    ) + optional_write(
        Register::NoiseFloorLevel,
        match parameters.noise_floor_threshold() {
            Some(threshold) => Some(threshold.value()),
            None => None,
        },
    ) + optional_write(
        Register::WatchdogThreshold,
        match parameters.signal_verification_threshold() {
            Some(threshold) => Some(threshold.value()),
            None => None,
        },
    ) + optional_write(
        Register::MaskDisturber,
        match parameters.ignore_disturbances() {
            Some(ignore) => Some(disturber_mask(ignore)),
            None => None,
        },
    )
}

/// Power up: clear PWD.
pub open spec fn power_up_writes() -> Seq<Access> {
    seq![Access::Write(Register::PowerDown, 0)]
}

/// Calibrate the oscillators: the CALIB_RCO command, then DISP_TRCO on and off.
pub open spec fn calibration_writes() -> Seq<Access> {
    seq![
        Access::Write(Register::CalibrateOscillators, 0x96),
        Access::Write(Register::DisplayTrcoOnIrqPin, 1),
        Access::Write(Register::DisplayTrcoOnIrqPin, 0),
    ]
}

/// Reset the registers to their defaults: the PRESET_DEFAULT command.
pub open spec fn preset_writes() -> Seq<Access> {
    seq![Access::Write(Register::PresetDefault, 0x96)]
}

/// The whole start-up sequence of `listen`.
pub open spec fn listen_writes(parameters: ListeningParameters) -> Seq<Access> {
    power_up_writes() + calibration_writes() + preset_writes() + parameter_writes(parameters)
}

/// The noise floor level field is three bits wide; a larger threshold does not fit.
pub open spec fn noise_floor_fits(parameters: ListeningParameters) -> bool {
    parameters.noise_floor_threshold() matches Some(threshold) ==> threshold.value() <= 7
}

/// A signal verification threshold is at most 10, as `SignalVerificationThreshold::new` makes it.
pub open spec fn signal_threshold_in_range(parameters: ListeningParameters) -> bool {
    parameters.signal_verification_threshold() matches Some(threshold) ==> threshold.value() <= 10
}

/// The payload `listen` writes last into the field `register`, if it writes it:
/// PWD and DISP_TRCO end cleared, the two direct commands get 0x96, and each
/// given parameter its code.
pub open spec fn listen_sets(parameters: ListeningParameters, register: Register) -> Option<u8> {
    match register {
        Register::PowerDown => Some(0),
        Register::CalibrateOscillators => Some(0x96),
        Register::DisplayTrcoOnIrqPin => Some(0),
        Register::PresetDefault => Some(0x96),
        Register::AfeGainBoost => match parameters.sensor_placing() {
            Some(placing) => Some(afe_gain(placing)),
            None => None,
        },
        Register::MinimumNumberOfLightning => match parameters.minimum_lightning_threshold() {
            Some(threshold) => Some(lightning_count_code(threshold)),
            None => None,
        },
        Register::NoiseFloorLevel => match parameters.noise_floor_threshold() {
            Some(threshold) => Some(threshold.value()),
            None => None,
        },
        Register::WatchdogThreshold => match parameters.signal_verification_threshold() {
            Some(threshold) => Some(threshold.value()),
            None => None,
        },
        Register::MaskDisturber => match parameters.ignore_disturbances() {
            Some(ignore) => Some(disturber_mask(ignore)),
            None => None,
        },
        _ => None,
    }
}

proof fn lemma_optional_write(register: Register, payload: Option<u8>, other: Register)
    requires
        payload matches Some(value) ==> value <= field_max(register),
    ensures
        last_write(optional_write(register, payload), other) == if other == register {
            payload
        } else {
            None::<u8>
        },
        writes_fit(optional_write(register, payload)),
{
    if let Some(value) = payload {
        let writes = optional_write(register, payload);
        assert(writes.len() == 1);
        assert(writes.last() == Access::Write(register, value));
        assert(writes.drop_last() == Seq::<Access>::empty());
        assert(last_write(writes.drop_last(), other) == None::<u8>);
    } else {
        assert(optional_write(register, payload).len() == 0);
    }
}

/// The writes of `listen` fit their fields, and each field is last written
/// with what `listen_sets` gives.
#[verifier::rlimit(80)]
#[verifier::spinoff_prover]
pub proof fn lemma_listen_writes(parameters: ListeningParameters, register: Register)
    requires
        noise_floor_fits(parameters),
        signal_threshold_in_range(parameters),
    ensures
        writes_fit(listen_writes(parameters)),
        last_write(listen_writes(parameters), register) == listen_sets(parameters, register),
{
    lemma_field_layout(Register::AfeGainBoost);
    lemma_field_layout(Register::PowerDown);
    lemma_field_layout(Register::NoiseFloorLevel);
    lemma_field_layout(Register::WatchdogThreshold);
    lemma_field_layout(Register::MinimumNumberOfLightning);
    lemma_field_layout(Register::MaskDisturber);
    lemma_field_layout(Register::DisplayTrcoOnIrqPin);
    lemma_field_layout(Register::PresetDefault);
    lemma_field_layout(Register::CalibrateOscillators);
    let w1 = seq![Access::Write(Register::CalibrateOscillators, 0x96)];
    let w2 = seq![Access::Write(Register::DisplayTrcoOnIrqPin, 1)];
    let w3 = seq![Access::Write(Register::DisplayTrcoOnIrqPin, 0)];
    assert(calibration_writes() == w1 + w2 + w3);
    lemma_optional_write(Register::PowerDown, Some(0u8), register);
    assert(power_up_writes() == optional_write(Register::PowerDown, Some(0u8)));
    lemma_optional_write(Register::CalibrateOscillators, Some(0x96u8), register);
    assert(w1 == optional_write(Register::CalibrateOscillators, Some(0x96u8)));
    lemma_optional_write(Register::DisplayTrcoOnIrqPin, Some(1u8), register);
    assert(w2 == optional_write(Register::DisplayTrcoOnIrqPin, Some(1u8)));
    lemma_optional_write(Register::DisplayTrcoOnIrqPin, Some(0u8), register);
    assert(w3 == optional_write(Register::DisplayTrcoOnIrqPin, Some(0u8)));
    lemma_optional_write(Register::PresetDefault, Some(0x96u8), register);
    assert(preset_writes() == optional_write(Register::PresetDefault, Some(0x96u8)));

    let o1 = match parameters.sensor_placing() {
        Some(placing) => Some(afe_gain(placing)),
        None => None,
    };
    let o2 = match parameters.minimum_lightning_threshold() {
        Some(threshold) => Some(lightning_count_code(threshold)),
        None => None,
    };
    let o3 = match parameters.noise_floor_threshold() {
        Some(threshold) => Some(threshold.value()),
        None => None,
    };
    let o4 = match parameters.signal_verification_threshold() {
        Some(threshold) => Some(threshold.value()),
        None => None,
    };
    let o5 = match parameters.ignore_disturbances() {
        Some(ignore) => Some(disturber_mask(ignore)),
        None => None,
    };
    let p1 = optional_write(Register::AfeGainBoost, o1);
    let p2 = optional_write(Register::MinimumNumberOfLightning, o2);
    let p3 = optional_write(Register::NoiseFloorLevel, o3);
    let p4 = optional_write(Register::WatchdogThreshold, o4);
    let p5 = optional_write(Register::MaskDisturber, o5);
    lemma_optional_write(Register::AfeGainBoost, o1, register);
    lemma_optional_write(Register::MinimumNumberOfLightning, o2, register);
    lemma_optional_write(Register::NoiseFloorLevel, o3, register);
    lemma_optional_write(Register::WatchdogThreshold, o4, register);
    lemma_optional_write(Register::MaskDisturber, o5, register);

    lemma_last_write_concat(w1, w2, register);
    lemma_last_write_concat(w1 + w2, w3, register);
    lemma_writes_fit_concat(w1, w2);
    lemma_writes_fit_concat(w1 + w2, w3);
    let start = power_up_writes() + calibration_writes();
    lemma_last_write_concat(power_up_writes(), calibration_writes(), register);
    lemma_writes_fit_concat(power_up_writes(), calibration_writes());
    lemma_last_write_concat(start, preset_writes(), register);
    lemma_writes_fit_concat(start, preset_writes());
    let startup = start + preset_writes();

    lemma_last_write_concat(p1, p2, register);
    lemma_writes_fit_concat(p1, p2);
    lemma_last_write_concat(p1 + p2, p3, register);
    lemma_writes_fit_concat(p1 + p2, p3);
    lemma_last_write_concat(p1 + p2 + p3, p4, register);
    lemma_writes_fit_concat(p1 + p2 + p3, p4);
    lemma_last_write_concat(p1 + p2 + p3 + p4, p5, register);
    lemma_writes_fit_concat(p1 + p2 + p3 + p4, p5);
    assert(parameter_writes(parameters) == p1 + p2 + p3 + p4 + p5);

    lemma_last_write_concat(startup, parameter_writes(parameters), register);
    lemma_writes_fit_concat(startup, parameter_writes(parameters));
}

/// Starting to listen over I2C configures the sensor and talks only to its
/// address: on a device that behaves as a register file, after a `listen`
/// that succeeded every field `listen` writes holds what `listen_sets` gives,
/// and every transfer so far went to the device address the driver was made
/// with.
pub proof fn lemma_i2c_listen_configures<I2C: I2cPort + Send>(
    before: AS3935<I2cInterface<I2C>>,
    after: AS3935<I2cInterface<I2C>>,
    parameters: ListeningParameters,
    initial: spec_fn(u8) -> u8,
    register: Register,
)
    requires
        noise_floor_fits(parameters),
        signal_threshold_in_range(parameters),
        before.interface().inv(),
        before.keeps_interface(after),
        after.accesses() == before.accesses() + listen_writes(parameters),
        i2c_register_file(initial, after.interface().frames()),
    ensures
        listen_sets(parameters, register) matches Some(value) ==> field_of(
            i2c_register_value(initial, after.interface().frames(), register.address()),
            register,
        ) == value,
        forall|k: int|
            0 <= k < after.interface().frames().len() ==> frame_address(
                #[trigger] after.interface().frames()[k],
            ) == before.interface().device_address(),
{
    let a = register.address();
    lemma_listen_writes(parameters, register);
    let start = register_after(initial(a), before.accesses(), a);
    lemma_field_after_writes(start, listen_writes(parameters), register);
    crate::interface::lemma_register_after_concat(initial(a), before.accesses(), listen_writes(parameters), a);
    assert(i2c_register_value(initial, after.interface().frames(), a) == register_after(
        initial(a),
        after.accesses(),
        a,
    ));
}

/// The log went from `before` to `after` by running `plan` with result `r`:
/// all of the plan when `r` is `Ok`; when `r` is an interface error `e`, the
/// plan up to some step, then that step failing with `e`.
pub open spec fn ran(
    before: Seq<Access>,
    after: Seq<Access>,
    plan: Seq<Access>,
    r: core::result::Result<(), Error>,
) -> bool {
    match r {
        Ok(()) => after == before + plan,
        Err(Error::InterfaceError(e)) => exists|n: int|
            0 <= n < plan.len() && after == (before + plan.take(n)).push(failed(plan[n], e)),
        Err(_) => false,
    }
}

/// Running one plan to the end and then another runs their concatenation, as
/// far as the second got.
pub proof fn lemma_ran_then(
    a: Seq<Access>,
    b: Seq<Access>,
    c: Seq<Access>,
    first: Seq<Access>,
    second: Seq<Access>,
    r: core::result::Result<(), Error>,
)
    requires
        ran(a, b, first, Ok(())),
        ran(b, c, second, r),
    ensures
        ran(a, c, first + second, r),
{
    match r {
        Ok(()) => {
            assert(c == a + (first + second));
        },
        Err(Error::InterfaceError(e)) => {
            let n = choose|n: int|
                0 <= n < second.len() && c == (b + second.take(n)).push(failed(second[n], e));
            assert((first + second).take(first.len() + n) == first + second.take(n));
            assert((first + second)[first.len() + n] == second[n]);
            assert(a + (first + second).take(first.len() + n) == b + second.take(n));
        },
        Err(_) => {},
    }
}

/// A plan that failed at some step also failed at that step of any longer plan
/// it begins.
pub proof fn lemma_ran_stopped(
    a: Seq<Access>,
    b: Seq<Access>,
    first: Seq<Access>,
    second: Seq<Access>,
    r: core::result::Result<(), Error>,
)
    requires
        ran(a, b, first, r),
        r is Err,
    ensures
        ran(a, b, first + second, r),
{
    if let Err(Error::InterfaceError(e)) = r {
        let n = choose|n: int|
            0 <= n < first.len() && b == (a + first.take(n)).push(failed(first[n], e));
        assert((first + second).take(n) == first.take(n));
        assert((first + second)[n] == first[n]);
    }
}

/// The sensor, reached through `INTERFACE`.
pub struct AS3935<INTERFACE> where INTERFACE: Interface {
    interface: INTERFACE,
    state: State,
}

impl<INTERFACE> AS3935<INTERFACE> where INTERFACE: Interface {
    /// Where the driver stands in its lifecycle.
    pub closed spec fn state(&self) -> State {
        self.state
    }

    /// The interface the driver talks through.
    pub closed spec fn interface(&self) -> INTERFACE {
        self.interface
    }

    /// The register accesses made so far, failed ones included.
    pub open spec fn accesses(&self) -> Seq<Access> {
        self.interface().accesses()
    }

    /// `later` talks to the same target as `self`, and keeps the interface's
    /// invariant if `self` had it.
    pub open spec fn keeps_interface(&self, later: Self) -> bool {
        &&& later.interface().target() == self.interface().target()
        &&& self.interface().inv() ==> later.interface().inv()
    }
}

impl<I2C> AS3935<I2cInterface<I2C>> where I2C: I2cPort + Send {
    /// Create a new AS3935 driver with an I2C interface
    pub fn new_i2c(i2c: I2C, i2c_address: I2cAddress) -> (r: Result<Self>)
        ensures
            r matches Ok(sensor) && {
                &&& sensor.state() == State::StandingBy
                &&& sensor.interface().device_address() == i2c_address.value()
                &&& sensor.interface().frames() == Seq::<interface::i2c::I2cFrame>::empty()
                &&& sensor.accesses() == Seq::<Access>::empty()
                &&& sensor.interface().inv()
            },
    {
        let interface = match I2cInterface::new(i2c, i2c_address) {
            Ok(interface) => interface,
            Err(e) => {
                return Err(Error::from(e));
            },
        };
        Ok(Self { interface, state: State::StandingBy })
    }
}

impl<SPI> AS3935<SpiInterface<SPI>> where SPI: SpiPort + Send {
    /// Create a new AS3935 driver with an SPI interface
    pub fn new_spi(spi: SPI) -> (r: Result<Self>)
        ensures
            r matches Ok(sensor) && {
                &&& sensor.state() == State::StandingBy
                &&& sensor.interface().frames() == Seq::<interface::spi::SpiFrame>::empty()
                &&& sensor.accesses() == Seq::<Access>::empty()
            },
    {
        let interface = match SpiInterface::new(spi) {
            Ok(interface) => interface,
            Err(e) => {
                return Err(Error::from(e));
            },
        };
        Ok(Self { interface, state: State::StandingBy })
    }
}

impl<INTERFACE> AS3935<INTERFACE> where INTERFACE: Interface {
    /// Initialize the sensor and start listening for events
    ///
    /// This configures the sensor with the specified parameters.
    /// Users must poll `check_irq()` to detect events, as embedded-hal
    /// does not provide interrupt abstractions.
    ///
    /// A noise floor threshold must be at most 7 when the sensor may start
    /// listening: the NF_LEV field is three bits wide, and the field write
    /// refuses a payload that does not fit.
    pub fn listen(&mut self, parameters: ListeningParameters) -> (r: Result<()>)
        requires
            can_listen(old(self).state()) ==> noise_floor_fits(parameters),
        ensures
            final(self).state() == state_after_listen(old(self).state(), r),
            old(self).keeps_interface(*final(self)),
            can_listen(old(self).state()) ==> ran(
                old(self).accesses(),
                final(self).accesses(),
                listen_writes(parameters),
                r,
            ),
            !can_listen(old(self).state()) ==> {
                &&& r matches Err(Error::InvalidState)
                &&& *final(self) == *old(self)
            },
    {
        let valid: [State; 2] = [State::StandingBy, State::PoweredDown];
        match self.assert_state(&self.state, &valid) {
            Ok(()) => {},
            Err(e) => {
                return Err(e);
            },
        }
        assert(can_listen(self.state)) by {
            let i = choose|i: int| 0 <= i < valid@.len() && valid@[i] == self.state;
        }
        let ghost start = self.accesses();
        let ghost rest = calibration_writes() + preset_writes() + parameter_writes(parameters);
        assert(listen_writes(parameters) == power_up_writes() + rest);
        assert(listen_writes(parameters) == (power_up_writes() + calibration_writes()) + (
        preset_writes() + parameter_writes(parameters)));

        let powered = self.power_up();
        if powered.is_err() {
            proof {
                lemma_ran_stopped(start, self.accesses(), power_up_writes(), rest, powered);
            }
            return powered;
        }
        let ghost after_power_up = self.accesses();

        let calibrated = self.calibrate_clock();
        proof {
            lemma_ran_then(start, after_power_up, self.accesses(), power_up_writes(),
                calibration_writes(), calibrated);
        }
        if calibrated.is_err() {
            proof {
                lemma_ran_stopped(start, self.accesses(), power_up_writes() + calibration_writes(),
                    preset_writes() + parameter_writes(parameters), calibrated);
            }
            return calibrated;
        }
        let ghost after_calibration = self.accesses();

        let preset = self.configure_defaults();
        proof {
            lemma_ran_then(start, after_calibration, self.accesses(),
                power_up_writes() + calibration_writes(), preset_writes(), preset);
        }
        if preset.is_err() {
            proof {
                lemma_ran_stopped(start, self.accesses(),
                    power_up_writes() + calibration_writes() + preset_writes(),
                    parameter_writes(parameters), preset);
            }
            return preset;
        }
        let ghost after_preset = self.accesses();

        let configured = self.configure_listen_parameters(parameters);
        proof {
            lemma_ran_then(start, after_preset, self.accesses(),
                power_up_writes() + calibration_writes() + preset_writes(),
                parameter_writes(parameters), configured);
        }
        if configured.is_err() {
            return configured;
        }

        self.state = State::Listening;
        Ok(())
    }

    /// Check if an interrupt has occurred and return the event
    ///
    /// This should be called when the IRQ pin goes high.
    /// Users are responsible for monitoring the IRQ pin in their platform-specific code.
    pub fn check_irq(&mut self) -> (r: Result<Option<Event>>)
        ensures
            final(self).state() == old(self).state(),
            old(self).keeps_interface(*final(self)),
            old(self).state() != State::Listening ==> {
                &&& r == core::result::Result::<Option<Event>, Error>::Ok(None)
                &&& *final(self) == *old(self)
            },
            old(self).state() == State::Listening ==> match r {
                Ok(event) => {
                    ||| exists|bits: u8|
                        {
                            &&& bits != lightning_irq()
                            &&& final(self).accesses() == old(self).accesses().push(
                                Access::Read(Register::Interrupt, bits),
                            )
                            &&& event == irq_event(bits)
                        }
                    ||| exists|bits: u8|
                        {
                            &&& final(self).accesses() == old(self).accesses().push(
                                Access::Read(Register::Interrupt, lightning_irq()),
                            ).push(Access::Read(Register::DistanceEstimation, bits))
                            &&& event == Some(Event::Lightning(distance_from_bits(bits)))
                        }
                },
                Err(Error::InterfaceError(e)) => {
                    ||| final(self).accesses() == old(self).accesses().push(
                        Access::ReadFailed(Register::Interrupt, e),
                    )
                    ||| final(self).accesses() == old(self).accesses().push(
                        Access::Read(Register::Interrupt, lightning_irq()),
                    ).push(Access::ReadFailed(Register::DistanceEstimation, e))
                },
                Err(_) => false,
            },
    {
        if self.state != State::Listening {
            return Ok(None);
        }

        let bits = match self.interface.read(Register::Interrupt) {
            Ok(bits) => bits,
            Err(e) => {
                return Err(Error::from(e));
            },
        };

        let ghost after_irq = self.accesses();
        assert(after_irq == old(self).accesses().push(Access::Read(Register::Interrupt, bits)));
        let event = match Irq::from_bits(bits) {
            Some(Irq::DistanceEstimationChanged) => {
                assert(bits != lightning_irq() && irq_event(bits) == None::<Event>);
                return Ok(None);
            },
            Some(Irq::DisturberDetected) => Event::Disturbance,
            Some(Irq::Lightning) => {
                // The datasheet asks for 2 ms before the distance is ready; it is left to the caller.
                let distance = match self.interface.read(Register::DistanceEstimation) {
                    Ok(distance) => distance,
                    Err(e) => {
                        return Err(Error::from(e));
                    },
                };
                assert(self.accesses() == old(self).accesses().push(
                    Access::Read(Register::Interrupt, lightning_irq()),
                ).push(Access::Read(Register::DistanceEstimation, distance)));
                Event::Lightning(HeadOfStormDistance::from(distance))
            },
            Some(Irq::NoiseLevelTooHigh) => Event::Noise,
            None => {
                assert(bits != lightning_irq() && irq_event(bits) == None::<Event>);
                return Ok(None);
            },
        };
        assert(bits != lightning_irq() ==> irq_event(bits) == Some(event));
        Ok(Some(event))
    }

    /// Stop listening and power down the sensor
    pub fn terminate(&mut self) -> (r: Result<()>)
        ensures
            final(self).state() == state_after_terminate(old(self).state(), r),
            old(self).keeps_interface(*final(self)),
            can_terminate(old(self).state()) ==> ran(
                old(self).accesses(),
                final(self).accesses(),
                seq![Access::Write(Register::PowerDown, 1)],
                r,
            ),
            !can_terminate(old(self).state()) ==> {
                &&& r matches Err(Error::InvalidState)
                &&& *final(self) == *old(self)
            },
    {
        let valid: [State; 1] = [State::Listening];
        match self.assert_state(&self.state, &valid) {
            Ok(()) => {},
            Err(e) => {
                return Err(e);
            },
        }
        assert(can_terminate(self.state)) by {
            let i = choose|i: int| 0 <= i < valid@.len() && valid@[i] == self.state;
        }

        let powered_down = self.power_down();
        if powered_down.is_err() {
            return powered_down;
        }
        self.state = State::PoweredDown;

        Ok(())
    }

    /// Check if the sensor is currently listening
    pub fn is_listening(&self) -> (listening: bool)
        ensures
            listening == (self.state() == State::Listening),
    {
        self.state == State::Listening
    }

    /// Writes `payload` into the field `register`, turning a bus failure into an `Error`.
    fn write_register(&mut self, register: Register, payload: u8) -> (r: Result<()>)
        requires
            payload <= field_max(register),
        ensures
            final(self).state() == old(self).state(),
            old(self).keeps_interface(*final(self)),
            ran(old(self).accesses(), final(self).accesses(), seq![Access::Write(register, payload)], r),
    {
        let ghost plan = seq![Access::Write(register, payload)];
        match self.interface.write(register, payload) {
            Ok(()) => {
                assert(self.accesses() == old(self).accesses() + plan);
                Ok(())
            },
            Err(e) => {
                assert(self.accesses() == (old(self).accesses() + plan.take(0)).push(
                    failed(plan[0], e),
                ));
                Err(Error::from(e))
            },
        }
    }

    fn power_up(&mut self) -> (r: Result<()>)
        ensures
            final(self).state() == old(self).state(),
            old(self).keeps_interface(*final(self)),
            can_listen(old(self).state()) ==> ran(
                old(self).accesses(),
                final(self).accesses(),
                power_up_writes(),
                r,
            ),
            !can_listen(old(self).state()) ==> {
                &&& r matches Err(Error::InvalidState)
                &&& *final(self) == *old(self)
            },
    {
        let valid: [State; 2] = [State::StandingBy, State::PoweredDown];
        match self.assert_state(&self.state, &valid) {
            Ok(()) => {},
            Err(e) => {
                return Err(e);
            },
        }

        // The datasheet asks for 2 ms after power-up; it is left to the caller.
        self.write_register(Register::PowerDown, 0b_0)
    }

    fn power_down(&mut self) -> (r: Result<()>)
        ensures
            final(self).state() == old(self).state(),
            old(self).keeps_interface(*final(self)),
            ran(old(self).accesses(), final(self).accesses(), seq![Access::Write(Register::PowerDown, 1)], r),
    {
        proof {
            lemma_field_layout(Register::PowerDown);
        }
        self.write_register(Register::PowerDown, 0b_1)
    }

    fn calibrate_clock(&mut self) -> (r: Result<()>)
        ensures
            final(self).state() == old(self).state(),
            old(self).keeps_interface(*final(self)),
            can_listen(old(self).state()) ==> ran(
                old(self).accesses(),
                final(self).accesses(),
                calibration_writes(),
                r,
            ),
            !can_listen(old(self).state()) ==> {
                &&& r matches Err(Error::InvalidState)
                &&& *final(self) == *old(self)
            },
    {
        let valid: [State; 2] = [State::StandingBy, State::PoweredDown];
        match self.assert_state(&self.state, &valid) {
            Ok(()) => {},
            Err(e) => {
                return Err(e);
            },
        }
        proof {
            lemma_field_layout(Register::CalibrateOscillators);
            lemma_field_layout(Register::DisplayTrcoOnIrqPin);
        }
        let ghost start = self.accesses();
        let ghost w1 = seq![Access::Write(Register::CalibrateOscillators, 0x96)];
        let ghost w2 = seq![Access::Write(Register::DisplayTrcoOnIrqPin, 1)];
        let ghost w3 = seq![Access::Write(Register::DisplayTrcoOnIrqPin, 0)];
        assert(calibration_writes() == w1 + w2 + w3);
        assert(calibration_writes() == w1 + (w2 + w3));

        // CALIB_RCO; the datasheet asks for 2 ms before the next step.
        let commanded = self.write_register(Register::CalibrateOscillators, 0x96);
        if commanded.is_err() {
            proof {
                lemma_ran_stopped(start, self.accesses(), w1, w2 + w3, commanded);
            }
            return commanded;
        }
        let ghost mid1 = self.accesses();

        // DISP_TRCO on, then off after the clock generation delay.
        let shown = self.write_register(Register::DisplayTrcoOnIrqPin, 0b_1);
        proof {
            lemma_ran_then(start, mid1, self.accesses(), w1, w2, shown);
        }
        if shown.is_err() {
            proof {
                lemma_ran_stopped(start, self.accesses(), w1 + w2, w3, shown);
            }
            return shown;
        }
        let ghost mid2 = self.accesses();

        let hidden = self.write_register(Register::DisplayTrcoOnIrqPin, 0);
        proof {
            lemma_ran_then(start, mid2, self.accesses(), w1 + w2, w3, hidden);
        }
        hidden
    }

    fn configure_defaults(&mut self) -> (r: Result<()>)
        ensures
            final(self).state() == old(self).state(),
            old(self).keeps_interface(*final(self)),
            ran(old(self).accesses(), final(self).accesses(), preset_writes(), r),
    {
        proof {
            lemma_field_layout(Register::PresetDefault);
        }
        self.write_register(Register::PresetDefault, 0x96)
    }

    #[verifier::rlimit(40)]
    fn configure_listen_parameters(&mut self, parameters: ListeningParameters) -> (r: Result<()>)
        requires
            noise_floor_fits(parameters),
        ensures
            final(self).state() == old(self).state(),
            old(self).keeps_interface(*final(self)),
            ran(old(self).accesses(), final(self).accesses(), parameter_writes(parameters), r),
    {
        let ghost start = self.accesses();
        let ghost p1 = optional_write(
            Register::AfeGainBoost,
            match parameters.sensor_placing() {
                Some(placing) => Some(afe_gain(placing)),
                None => None,
            },
        );
        let ghost p2 = optional_write(
            Register::MinimumNumberOfLightning,
            match parameters.minimum_lightning_threshold() {
                Some(threshold) => Some(lightning_count_code(threshold)),
                None => None,
            },
        );
        let ghost p3 = optional_write(
            Register::NoiseFloorLevel,
            match parameters.noise_floor_threshold() {
                Some(threshold) => Some(threshold.value()),
                None => None,
            },
        );
        let ghost p4 = optional_write(
            Register::WatchdogThreshold,
            match parameters.signal_verification_threshold() {
                Some(threshold) => Some(threshold.value()),
                None => None,
            },
        );
        let ghost p5 = optional_write(
            Register::MaskDisturber,
            match parameters.ignore_disturbances() {
                Some(ignore) => Some(disturber_mask(ignore)),
                None => None,
            },
        );
        assert(parameter_writes(parameters) == p1 + p2 + p3 + p4 + p5);
        assert(p1 + (p2 + p3 + p4 + p5) == parameter_writes(parameters));
        assert(p1 + p2 + (p3 + p4 + p5) == parameter_writes(parameters));
        assert(p1 + p2 + p3 + (p4 + p5) == parameter_writes(parameters));

        if let Some(sensor_placing) = parameters.sensor_placing {
            let res = self.configure_sensor_placing(&sensor_placing);
            if res.is_err() {
                proof {
                    lemma_ran_stopped(start, self.accesses(), p1, p2 + p3 + p4 + p5, res);
                }
                return res;
            }
        }
        assert(self.accesses() == start + p1);
        let ghost done1 = self.accesses();

        if let Some(minimum_lightning_threshold) = &parameters.minimum_lightning_threshold {
            let res = self.configure_minimum_lightning_threshold(minimum_lightning_threshold);
            proof {
                lemma_ran_then(start, done1, self.accesses(), p1, p2, res);
            }
            if res.is_err() {
                proof {
                    lemma_ran_stopped(start, self.accesses(), p1 + p2, p3 + p4 + p5, res);
                }
                return res;
            }
        }
        assert(self.accesses() == start + (p1 + p2));
        let ghost done2 = self.accesses();

        if let Some(noise_floor_threshold) = &parameters.noise_floor_threshold {
            let res = self.configure_noise_floor_threshold(noise_floor_threshold);
            proof {
                lemma_ran_then(start, done2, self.accesses(), p1 + p2, p3, res);
            }
            if res.is_err() {
                proof {
                    lemma_ran_stopped(start, self.accesses(), p1 + p2 + p3, p4 + p5, res);
                }
                return res;
            }
        }
        assert(self.accesses() == start + (p1 + p2 + p3));
        let ghost done3 = self.accesses();

        if let Some(signal_verification_threshold) = &parameters.signal_verification_threshold {
            let res = self.configure_signal_verification_threshold(signal_verification_threshold);
            proof {
                lemma_ran_then(start, done3, self.accesses(), p1 + p2 + p3, p4, res);
            }
            if res.is_err() {
                proof {
                    lemma_ran_stopped(start, self.accesses(), p1 + p2 + p3 + p4, p5, res);
                }
                return res;
            }
        }
        assert(self.accesses() == start + (p1 + p2 + p3 + p4));
        let ghost done4 = self.accesses();

        if let Some(ignore_disturbances) = &parameters.ignore_disturbances {
            let res = self.configure_ignore_disturbances(ignore_disturbances);
            proof {
                lemma_ran_then(start, done4, self.accesses(), p1 + p2 + p3 + p4, p5, res);
            }
            if res.is_err() {
                return res;
            }
        }
        assert(self.accesses() == start + (p1 + p2 + p3 + p4 + p5));

        Ok(())
    }

    fn configure_sensor_placing(&mut self, placing: &SensorPlacing) -> (r: Result<()>)
        ensures
            final(self).state() == old(self).state(),
            old(self).keeps_interface(*final(self)),
            ran(old(self).accesses(), final(self).accesses(),
                seq![Access::Write(Register::AfeGainBoost, afe_gain(*placing))], r),
    {
        proof {
            lemma_field_layout(Register::AfeGainBoost);
        }
        self.write_register(Register::AfeGainBoost, u8::from(*placing))
    }

    fn configure_minimum_lightning_threshold(
        &mut self,
        minimum_lightning_threshold: &MinimumLightningThreshold,
    ) -> (r: Result<()>)
        ensures
            final(self).state() == old(self).state(),
            old(self).keeps_interface(*final(self)),
            ran(old(self).accesses(), final(self).accesses(),
                seq![Access::Write(Register::MinimumNumberOfLightning,
                    lightning_count_code(*minimum_lightning_threshold))], r),
    {
        proof {
            lemma_field_layout(Register::MinimumNumberOfLightning);
        }
        self.write_register(Register::MinimumNumberOfLightning, u8::from(*minimum_lightning_threshold))
    }

    fn configure_noise_floor_threshold(
        &mut self,
        noise_floor_threshold: &NoiseFloorThreshold,
    ) -> (r: Result<()>)
        requires
            noise_floor_threshold.value() <= 7,
        ensures
            final(self).state() == old(self).state(),
            old(self).keeps_interface(*final(self)),
            ran(old(self).accesses(), final(self).accesses(),
                seq![Access::Write(Register::NoiseFloorLevel, noise_floor_threshold.value())], r),
    {
        proof {
            lemma_field_layout(Register::NoiseFloorLevel);
        }
        self.write_register(Register::NoiseFloorLevel, u8::from(*noise_floor_threshold))
    }

    fn configure_signal_verification_threshold(
        &mut self,
        signal_verification_threshold: &SignalVerificationThreshold,
    ) -> (r: Result<()>)
        ensures
            final(self).state() == old(self).state(),
            old(self).keeps_interface(*final(self)),
            ran(old(self).accesses(), final(self).accesses(),
                seq![Access::Write(Register::WatchdogThreshold, signal_verification_threshold.value())],
                r),
    {
        proof {
            lemma_field_layout(Register::WatchdogThreshold);
        }
        self.write_register(Register::WatchdogThreshold, u8::from(*signal_verification_threshold))
    }

    fn configure_ignore_disturbances(
        &mut self,
        ignore_disturbances: &IgnoreDisturbances,
    ) -> (r: Result<()>)
        ensures
            final(self).state() == old(self).state(),
            old(self).keeps_interface(*final(self)),
            ran(old(self).accesses(), final(self).accesses(),
                seq![Access::Write(Register::MaskDisturber, disturber_mask(*ignore_disturbances))],
                r),
    {
        proof {
            lemma_field_layout(Register::MaskDisturber);
        }
        self.write_register(Register::MaskDisturber, u8::from(*ignore_disturbances))
    }

    fn assert_state(&self, state: &State, valid_states: &[State]) -> (r: Result<()>)
        ensures
            r is Ok <==> valid_states@.contains(*state),
            r matches Err(e) ==> e is InvalidState,
    {
        let mut i: usize = 0;
        while i < valid_states.len()
            invariant
                i <= valid_states@.len(),
                forall|j: int| 0 <= j < i ==> valid_states@[j] != *state,
            decreases valid_states@.len() - i,
        {
            if valid_states[i] == *state {
                return Ok(());
            }
            i = i + 1;
        }
        Err(Error::InvalidState)
    }
}

} // verus!
