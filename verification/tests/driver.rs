use as3935_bbn::device::registers::Register;
use as3935_bbn::interface::i2c::{I2cAddress, I2cPort, DEFAULT_I2C_ADDRESS};
use as3935_bbn::interface::spi::SpiPort;
use as3935_bbn::interface::Error as BusError;
use as3935_bbn::{
    Error, Event, HeadOfStormDistance, IgnoreDisturbances, ListeningParameters,
    MinimumLightningThreshold, NoiseFloorThreshold, SensorPlacing, SignalVerificationThreshold,
    AS3935,
};
use std::sync::{Arc, Mutex};

/// A register file behind a fake bus, with a record of every transfer.
#[derive(Default)]
struct Chip {
    registers: Vec<u8>,
    /// (device address, bytes out, byte in) of each write-read; (address, bytes) of each write.
    write_reads: Vec<(u8, u8, u8)>,
    writes: Vec<(u8, [u8; 2])>,
    /// Number of transfers that succeed before every later one fails.
    fail_after: Option<usize>,
    transfers: usize,
}

impl Chip {
    fn new() -> Arc<Mutex<Chip>> {
        Arc::new(Mutex::new(Chip { registers: vec![0; 0x40], ..Default::default() }))
    }

    fn allow(&mut self) -> bool {
        self.transfers += 1;
        match self.fail_after {
            Some(n) => self.transfers <= n,
            None => true,
        }
    }
}

struct FakeI2c(Arc<Mutex<Chip>>);

impl I2cPort for FakeI2c {
    fn write_read(&mut self, address: u8, out: u8) -> Option<u8> {
        let mut chip = self.0.lock().unwrap();
        if !chip.allow() {
            return None;
        }
        let value = chip.registers[out as usize];
        chip.write_reads.push((address, out, value));
        Some(value)
    }

    fn write(&mut self, address: u8, bytes: [u8; 2]) -> bool {
        let mut chip = self.0.lock().unwrap();
        if !chip.allow() {
            return false;
        }
        chip.registers[bytes[0] as usize] = bytes[1];
        chip.writes.push((address, bytes));
        true
    }
}

struct FakeSpi(Arc<Mutex<Chip>>);

impl SpiPort for FakeSpi {
    fn transfer_in_place(&mut self, words: [u8; 2]) -> Option<[u8; 2]> {
        let mut chip = self.0.lock().unwrap();
        if !chip.allow() {
            return None;
        }
        assert_eq!(words[0] & 0xc0, 0x40);
        let value = chip.registers[(words[0] & 0x3f) as usize];
        chip.write_reads.push((0, words[0], value));
        Some([0, value])
    }

    fn write(&mut self, words: [u8; 2]) -> bool {
        let mut chip = self.0.lock().unwrap();
        if !chip.allow() {
            return false;
        }
        assert_eq!(words[0] & 0xc0, 0);
        chip.registers[words[0] as usize] = words[1];
        chip.writes.push((0, words));
        true
    }
}

fn i2c_sensor() -> (AS3935<as3935_bbn::interface::i2c::I2cInterface<FakeI2c>>, Arc<Mutex<Chip>>) {
    let chip = Chip::new();
    let sensor = AS3935::new_i2c(FakeI2c(chip.clone()), I2cAddress::default()).unwrap();
    (sensor, chip)
}

fn written_registers(chip: &Arc<Mutex<Chip>>) -> Vec<u8> {
    chip.lock().unwrap().writes.iter().map(|(_, bytes)| bytes[0]).collect()
}

#[test]
fn signal_verification_threshold_range() {
    assert_eq!(SignalVerificationThreshold::new(0), Ok(SignalVerificationThreshold::new(0).unwrap()));
    assert!(SignalVerificationThreshold::new(10).is_ok());
    assert_eq!(
        SignalVerificationThreshold::new(11),
        Err("Signal verification threshold must be in range 0-10")
    );
    assert!(SignalVerificationThreshold::new(255).is_err());
}

#[test]
fn noise_floor_threshold_range() {
    assert!(NoiseFloorThreshold::new(0).is_ok());
    assert!(NoiseFloorThreshold::new(11).is_ok());
    assert_eq!(NoiseFloorThreshold::new(12), Err("Noise level threshold must be in range 0-11"));
}

#[test]
fn default_i2c_address_is_three() {
    assert_eq!(DEFAULT_I2C_ADDRESS, 0x03);
    let (mut sensor, chip) = i2c_sensor();
    sensor.listen(ListeningParameters::default()).unwrap();
    let chip = chip.lock().unwrap();
    assert!(chip.write_reads.iter().all(|(address, _, _)| *address == 0x03));
    assert!(chip.writes.iter().all(|(address, _)| *address == 0x03));
}

#[test]
fn listen_with_defaults_runs_the_start_up_sequence() {
    let (mut sensor, chip) = i2c_sensor();
    assert!(!sensor.is_listening());
    sensor.listen(ListeningParameters::default()).unwrap();
    assert!(sensor.is_listening());
    // PWD, CALIB_RCO, DISP_TRCO twice, PRESET_DEFAULT
    assert_eq!(written_registers(&chip), vec![0x00, 0x3d, 0x08, 0x08, 0x3c]);
    let chip = chip.lock().unwrap();
    // every write reads its register first
    let read_back: Vec<u8> = chip.write_reads.iter().map(|(_, out, _)| *out).collect();
    assert_eq!(read_back, vec![0x00, 0x3d, 0x08, 0x08, 0x3c]);
}

#[test]
fn listen_writes_each_given_parameter_in_order() {
    let (mut sensor, chip) = i2c_sensor();
    let parameters = ListeningParameters::default()
        .with_sensor_placing(SensorPlacing::Outdoor)
        .with_minimum_lightning_threshold(MinimumLightningThreshold::Nine)
        .with_noise_floor_threshold(NoiseFloorThreshold::new(5).unwrap())
        .with_signal_verification_threshold(SignalVerificationThreshold::new(5).unwrap())
        .with_ignore_disturbances(IgnoreDisturbances::Yes);
    sensor.listen(parameters).unwrap();
    assert_eq!(
        written_registers(&chip),
        vec![0x00, 0x3d, 0x08, 0x08, 0x3c, 0x00, 0x02, 0x01, 0x01, 0x03]
    );
}

#[test]
fn sensor_placing_sets_the_gain_boost_bits() {
    // Register 0x00 holds 0b1100_0001 before: AFE_GB field is 0, bits 7..6 set.
    for (placing, gain) in [(SensorPlacing::Indoor, 0b1_0010u8), (SensorPlacing::Outdoor, 0b0_1110u8)] {
        let (mut sensor, chip) = i2c_sensor();
        chip.lock().unwrap().registers[0x00] = 0b1100_0001;
        sensor.listen(ListeningParameters::default().with_sensor_placing(placing)).unwrap();
        let chip = chip.lock().unwrap();
        let (_, gain_write) = chip.writes[5];
        assert_eq!(gain_write[0], 0x00);
        // The field is set to the gain; the bits outside the field stay as
        // the register held them.
        let before = chip.write_reads[5].2;
        assert_eq!(gain_write[1], 0b1100_0000 | (gain << 1));
        assert_eq!((gain_write[1] & 0b0011_1110) >> 1, gain);
        assert_eq!(gain_write[1] & !0b0011_1110, before & !0b0011_1110);
    }
}

#[test]
fn write_sets_the_field_and_keeps_the_other_bits() {
    // PWD := 0 clears bit 0 and keeps the rest of register 0x00.
    let (mut sensor, chip) = i2c_sensor();
    chip.lock().unwrap().registers[0x00] = 0b0010_0101;
    sensor.listen(ListeningParameters::default()).unwrap();
    let chip = chip.lock().unwrap();
    assert_eq!(chip.writes[0], (0x03, [0x00, 0b0010_0100]));
}

#[test]
fn read_after_write_gives_the_payload() {
    let (mut sensor, chip) = i2c_sensor();
    chip.lock().unwrap().registers[0x02] = 0b1111_1111;
    sensor
        .listen(
            ListeningParameters::default()
                .with_minimum_lightning_threshold(MinimumLightningThreshold::Five),
        )
        .unwrap();
    let register = chip.lock().unwrap().registers[0x02];
    // MIN_NUM_LIGH holds 0b01; SREJ and CL_STAT are untouched.
    assert_eq!((register & 0b0011_0000) >> 4, 0b01);
    assert_eq!(register & !0b0011_0000, 0b1100_1111);
}

#[test]
fn calibration_commands_carry_0x96() {
    let (mut sensor, chip) = i2c_sensor();
    chip.lock().unwrap().registers[0x3d] = 0xff;
    chip.lock().unwrap().registers[0x3c] = 0x21;
    sensor.listen(ListeningParameters::default()).unwrap();
    let chip = chip.lock().unwrap();
    // a whole-byte field takes the command byte, whatever it held
    assert_eq!(chip.writes[1].1, [0x3d, 0x96]);
    assert_eq!(chip.writes[4].1, [0x3c, 0x96]);
}

#[test]
fn listen_twice_is_an_invalid_state() {
    let (mut sensor, chip) = i2c_sensor();
    sensor.listen(ListeningParameters::default()).unwrap();
    let transfers = chip.lock().unwrap().transfers;
    assert!(matches!(sensor.listen(ListeningParameters::default()), Err(Error::InvalidState)));
    assert_eq!(chip.lock().unwrap().transfers, transfers);
    assert!(sensor.is_listening());
}

#[test]
fn terminate_before_listen_is_an_invalid_state() {
    let (mut sensor, chip) = i2c_sensor();
    assert!(matches!(sensor.terminate(), Err(Error::InvalidState)));
    assert_eq!(chip.lock().unwrap().transfers, 0);
}

#[test]
fn terminate_powers_down_and_listen_works_again() {
    let (mut sensor, chip) = i2c_sensor();
    sensor.listen(ListeningParameters::default()).unwrap();
    chip.lock().unwrap().registers[0x00] = 0;
    sensor.terminate().unwrap();
    assert!(!sensor.is_listening());
    assert_eq!(chip.lock().unwrap().writes.last().unwrap().1, [0x00, 0b1]);
    assert!(matches!(sensor.terminate(), Err(Error::InvalidState)));
    sensor.listen(ListeningParameters::default()).unwrap();
    assert!(sensor.is_listening());
}

#[test]
fn bus_failure_during_listen_keeps_the_state() {
    let (mut sensor, chip) = i2c_sensor();
    // the power-up write-read and write succeed, the calibration's read fails
    chip.lock().unwrap().fail_after = Some(2);
    assert!(matches!(
        sensor.listen(ListeningParameters::default()),
        Err(Error::InterfaceError(BusError::I2c))
    ));
    assert!(!sensor.is_listening());
    assert_eq!(written_registers(&chip), vec![0x00]);
    // the failed read ends the call: no transfer after it
    assert_eq!(chip.lock().unwrap().transfers, 3);
    chip.lock().unwrap().fail_after = None;
    sensor.listen(ListeningParameters::default()).unwrap();
    assert!(sensor.is_listening());
}

#[test]
fn bus_failure_during_terminate_keeps_listening() {
    let (mut sensor, chip) = i2c_sensor();
    sensor.listen(ListeningParameters::default()).unwrap();
    let done = chip.lock().unwrap().transfers;
    chip.lock().unwrap().fail_after = Some(done + 1);
    assert!(matches!(sensor.terminate(), Err(Error::InterfaceError(BusError::I2c))));
    assert!(sensor.is_listening());
}

#[test]
fn check_irq_when_not_listening_reports_nothing() {
    let (mut sensor, chip) = i2c_sensor();
    chip.lock().unwrap().registers[0x03] = 0b1000;
    assert!(matches!(sensor.check_irq(), Ok(None)));
    assert_eq!(chip.lock().unwrap().transfers, 0);
}

fn irq_after_listen(int_bits: u8, distance: u8) -> (Option<Event>, Vec<u8>) {
    let (mut sensor, chip) = i2c_sensor();
    sensor.listen(ListeningParameters::default()).unwrap();
    let before = chip.lock().unwrap().write_reads.len();
    {
        let mut chip = chip.lock().unwrap();
        chip.registers[0x03] = 0b1010_0000 | int_bits;
        chip.registers[0x07] = 0b1100_0000 | distance;
    }
    let event = sensor.check_irq().unwrap();
    let reads = chip.lock().unwrap().write_reads[before..].iter().map(|(_, out, _)| *out).collect();
    (event, reads)
}

#[test]
fn check_irq_reports_each_interrupt() {
    let (event, reads) = irq_after_listen(0b0001, 0);
    assert!(matches!(event, Some(Event::Noise)));
    assert_eq!(reads, vec![0x03]);

    let (event, reads) = irq_after_listen(0b0100, 0);
    assert!(matches!(event, Some(Event::Disturbance)));
    assert_eq!(reads, vec![0x03]);

    let (event, reads) = irq_after_listen(0b0000, 0);
    assert!(event.is_none());
    assert_eq!(reads, vec![0x03]);

    let (event, _) = irq_after_listen(0b0011, 0);
    assert!(event.is_none());
}

#[test]
fn check_irq_reads_the_distance_of_lightning() {
    let (event, reads) = irq_after_listen(0b1000, 0b11_1111);
    assert!(matches!(event, Some(Event::Lightning(HeadOfStormDistance::OutOfRange))));
    assert_eq!(reads, vec![0x03, 0x07]);

    let (event, _) = irq_after_listen(0b1000, 0b00_0001);
    assert!(matches!(event, Some(Event::Lightning(HeadOfStormDistance::Overhead))));

    let (event, _) = irq_after_listen(0b1000, 14);
    assert!(matches!(event, Some(Event::Lightning(HeadOfStormDistance::Kilometers(14)))));

    let (event, _) = irq_after_listen(0b1000, 0);
    assert!(matches!(event, Some(Event::Lightning(HeadOfStormDistance::Overhead))));

    let (event, _) = irq_after_listen(0b1000, 50);
    assert!(matches!(event, Some(Event::Lightning(HeadOfStormDistance::OutOfRange))));
}

#[test]
fn check_irq_distance_read_failure_is_an_error() {
    let (mut sensor, chip) = i2c_sensor();
    sensor.listen(ListeningParameters::default()).unwrap();
    let done = chip.lock().unwrap().transfers;
    {
        let mut chip = chip.lock().unwrap();
        chip.registers[0x03] = 0b1000;
        chip.fail_after = Some(done + 1);
    }
    assert!(matches!(sensor.check_irq(), Err(Error::InterfaceError(BusError::I2c))));
    assert!(sensor.is_listening());
}

#[test]
fn spi_uses_read_and_write_commands() {
    let chip = Chip::new();
    let mut sensor = AS3935::new_spi(FakeSpi(chip.clone())).unwrap();
    sensor.listen(ListeningParameters::default().with_ignore_disturbances(IgnoreDisturbances::No)).unwrap();
    {
        let chip = chip.lock().unwrap();
        let commands: Vec<u8> = chip.write_reads.iter().map(|(_, out, _)| *out).collect();
        assert_eq!(commands, vec![0x40, 0x7d, 0x48, 0x48, 0x7c, 0x43]);
        let targets: Vec<u8> = chip.writes.iter().map(|(_, words)| words[0]).collect();
        assert_eq!(targets, vec![0x00, 0x3d, 0x08, 0x08, 0x3c, 0x03]);
        // MASK_DIST := 0 on a clear register leaves it clear.
        assert_eq!(chip.writes[5].1, [0x03, 0b0000_0000]);
    }
    chip.lock().unwrap().registers[0x03] = 0b0100;
    assert!(matches!(sensor.check_irq(), Ok(Some(Event::Disturbance))));
}

#[test]
fn spi_failure_is_reported_as_spi() {
    let chip = Chip::new();
    chip.lock().unwrap().fail_after = Some(0);
    let mut sensor = AS3935::new_spi(FakeSpi(chip)).unwrap();
    assert!(matches!(
        sensor.listen(ListeningParameters::default()),
        Err(Error::InterfaceError(BusError::Spi))
    ));
    assert!(!sensor.is_listening());
}

#[test]
fn register_map() {
    assert_eq!(Register::Interrupt.address(), 0x03);
    assert_eq!(Register::Interrupt.mask(), 0b0000_1111);
    assert_eq!(Register::NoiseFloorLevel.address(), 0x01);
    assert_eq!(Register::NoiseFloorLevel.mask(), 0b0111_0000);
    assert_eq!(Register::DistanceEstimation.mask(), 0b0011_1111);
    assert_eq!(Register::CalibrateOscillators.address(), 0x3d);
}

#[test]
fn conversions_to_register_codes() {
    assert_eq!(u8::from(SensorPlacing::Indoor), 0b1_0010);
    assert_eq!(u8::from(SensorPlacing::Outdoor), 0b0_1110);
    assert_eq!(u8::from(MinimumLightningThreshold::One), 0);
    assert_eq!(u8::from(MinimumLightningThreshold::Sixteen), 3);
    assert_eq!(u8::from(IgnoreDisturbances::Yes), 1);
    assert_eq!(u8::from(NoiseFloorThreshold::new(7).unwrap()), 7);
    assert_eq!(u8::from(SignalVerificationThreshold::new(2).unwrap()), 2);
    assert_eq!(HeadOfStormDistance::from(40u8), HeadOfStormDistance::Kilometers(40));
    assert_eq!(HeadOfStormDistance::from(5u8), HeadOfStormDistance::Kilometers(5));
    assert_eq!(HeadOfStormDistance::from(41u8), HeadOfStormDistance::OutOfRange);
    assert_eq!(HeadOfStormDistance::from(4u8), HeadOfStormDistance::Overhead);
}

#[test]
fn error_messages() {
    assert_eq!(BusError::I2c.message(), "I2C communication error");
    assert_eq!(BusError::Spi.message(), "SPI communication error");
    assert_eq!(Error::Deadlock.message(), "Deadlock occurred");
    assert_eq!(Error::InvalidState.message(), "Invalid state");
    assert_eq!(
        Error::InterfaceError(BusError::Spi).message(),
        "Interface error: SPI communication error"
    );
}

#[test]
fn interface_error_converts_into_driver_error() {
    assert!(matches!(Error::from(BusError::I2c), Error::InterfaceError(BusError::I2c)));
    assert!(matches!(Error::from(BusError::Spi), Error::InterfaceError(BusError::Spi)));
}
