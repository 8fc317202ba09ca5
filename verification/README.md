# bootloader

The first-stage bootloader of a board with an LPC11Uxx microcontroller: it keeps
the board's record in the EEPROM in order, switches the battery, installs a
program that was staged in the upper flash, and hands over to the second program
or to the programming mode.

- `src/` holds every decision, verified with Verus. It touches no hardware:
  `bootloader::Bootloader` says one operation at a time what to do to the device
  and takes the answer.
  - `boot` says what a boot does for given readings of the device, and how it
    ends; `bootloader` is the state machine that does it.
  - `device` lists the operations and answers; `board`, `eeprom` and `setup` hold
    the record, its encoding and the fixed sequences; `flash` moves a staged
    program; `vectors` routes the interrupts.
  - `laws` and `flash_model` state and prove what holds of every boot.
- `app/` performs the operations with `lpc11uxx`, `cortex-m` and `cortex-m-rt`.
  The calls into the ROM come from `lpc11uxx_rom`, which is not in the registry and
  has to be supplied when the application is built, as do the functions declared
  in `app/firmware.rs`.
- `tests/` runs the library against a simulated device.
