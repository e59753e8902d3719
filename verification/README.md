# as3935_bbn

A driver for the AS3935 Franklin lightning sensor, verified with Verus.

- `src/device/registers.rs`: the register fields the driver uses (address and mask).
- `src/interface/`: register access over a bus. `Interface` is the field-level
  read/write contract; `I2cInterface` and `SpiInterface` implement it on top of
  the `I2cPort` and `SpiPort` byte transfers. Each keeps a ghost log of the
  register accesses it made (failed ones with their error) and of the bus
  frames, completed or failed, recorded in the one method per transfer kind
  that calls the port. On a device that behaves as a register file, reading a
  field back after writing it gives the payload (`lemma_i2c_read_after_write`,
  `lemma_spi_read_after_write`), and over I2C each register holds what the
  logged field writes made of it (`tracks_registers`). `conversion.rs` maps settings to register codes and
  register codes to events.
- `src/lib.rs`: the settings types, `ListeningParameters`, and the `AS3935`
  driver with its lifecycle (`listen`, `check_irq`, `terminate`), whose
  contracts state the exact register writes and reads each call makes.
  `lemma_i2c_listen_configures` shows a successful `listen` leaves every field
  it writes configured; `lemma_lifecycle_calls` gives the listening state over
  any sequence of calls.
- `app/`: adapters from embedded-hal's `I2c` and `SpiDevice` to the driver's
  ports, the datasheet's timing constants, and displayable error types.
- `tests/`: the driver run against a simulated register file.
