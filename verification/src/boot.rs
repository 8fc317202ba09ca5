//! What a boot does, as a whole.
//!
//! A boot is determined by what it reads from the device on its way. For each
//! choice of these readings `boot_exchanges` lists every operation of the boot,
//! with its answer, and `boot_outcome` tells how it ends.

use vstd::prelude::*;

use crate::board::{record_read, record_write};
use crate::device::{Answer, ClockedPart, Exchange, Operation, done, on_flash};
use crate::eeprom::{EEPROM_MAGIC, EepromData, little_endian, word_bytes};
use crate::flash::staged_operations;
use crate::setup::{
    MODE_REGISTER, battery_operations, mode_operation, pinmux_operations, usb_operation,
    watchdog_operations,
};
use crate::vectors::{Program2Entry, SIGNATURE_ADDRESS, program2_entry};

verus! {

/// Where the EEPROM keeps the page of a staged program, 0 if there is none.
pub const STAGED_ADDRESS: u32 = 0x500;

/// The retained register by which a running program asks for the programming
/// mode.
pub const REQUEST_REGISTER: u32 = 0;

/// The signature of a second program, and the value that asks for the
/// programming mode.
pub const SIGNATURE: u32 = 0xecaa_bac0;

/// The timeout of the watchdog after a program was installed.
pub const WATCHDOG_TIMEOUT: u32 = 100;

/// How a boot ends.
#[derive(Clone, Copy, Debug, PartialEq, Eq)]
pub enum Outcome {
    /// The processor waits for an interrupt, over and over.
    Sleep,
    /// The second program takes over.
    StartProgram2(Program2Entry),
    /// The programming mode takes over.
    EnterProgrammingMode,
}

/// What comes next in a boot.
#[derive(Clone, Copy, Debug, PartialEq, Eq)]
pub enum Step {
    /// Perform an operation, and tell the answer.
    Perform(Operation),
    /// The boot is over.
    Finish(Outcome),
}

/// All that a boot can read from the device.
pub struct Readings {
    /// The rate of the main clock, in Hz.
    pub clock_rate: u32,
    /// The record at the start of the EEPROM.
    pub record: [u8; 8],
    /// Whether USB is disconnected at the start.
    pub usb_disconnected: bool,
    /// Whether the last reset came from a brown-out.
    pub brown_out: bool,
    /// Whether the last reset was a power-on.
    pub power_on: bool,
    /// The mode register as the last boot, or a power-on, left it.
    pub mode: u32,
    /// Whether USB is disconnected once the pins are connected.
    pub usb_disconnected_later: bool,
    /// The page of a staged program, as the EEPROM keeps it.
    pub staged: [u8; 4],
    /// The register by which the programming mode is asked for.
    pub request: u32,
    /// The word where a second program carries its signature.
    pub signature: u32,
}

impl Readings {
    /// The clock that is told to the EEPROM and the flash.
    pub open spec fn clock(self) -> u32 {
        self.clock_rate / 1024
    }

    /// The record as it was stored.
    pub open spec fn stored(self) -> EepromData {
        EepromData::decoded(self.record@)
    }

    /// The record that the boot works with.
    pub open spec fn cache(self) -> EepromData {
        self.stored().repaired()
    }

    /// The page of the staged program, 0 if there is none.
    pub open spec fn staged_page(self) -> u32 {
        little_endian(self.staged@) as u32
    }

    /// Whether the boot gives up because the supply broke down though USB is
    /// connected.
    pub open spec fn gives_up(self) -> bool {
        !self.usb_disconnected && self.brown_out
    }

    /// Whether the second program takes over: the device was powered on, or was
    /// not in the programming mode before the reset; nobody asked for that mode,
    /// there is a second program, and the board has a version.
    pub open spec fn starts_program2(self) -> bool {
        &&& self.power_on || self.mode != 0
        &&& self.request != SIGNATURE
        &&& self.signature == SIGNATURE
        &&& self.cache().version != 0
    }
}

/// The system is set up, and the clock and the record are read.
pub open spec fn identify(r: Readings) -> Seq<Exchange> {
    seq![
        (Operation::InitializeSystem, Answer::Done),
        (Operation::ReadMainClockRate, Answer::Word(r.clock_rate)),
        (record_read(r.clock()), Answer::EepromRecord(r.record)),
    ]
}

/// A record without the magic number is replaced.
pub open spec fn repair(r: Readings) -> Seq<Exchange> {
    if r.stored().magic == EEPROM_MAGIC {
        seq![]
    } else {
        seq![(record_write(EepromData::fresh(), r.clock()), Answer::Done)]
    }
}

/// USB is looked at; while it is connected, so is the cause of the last reset.
pub open spec fn sense(r: Readings) -> Seq<Exchange> {
    seq![
        (Operation::EnableClock(ClockedPart::Gpio), Answer::Done),
        (usb_operation(), Answer::Flag(r.usb_disconnected)),
    ] + (if r.usb_disconnected {
        seq![]
    } else {
        seq![(Operation::ReadBrownOut, Answer::Flag(r.brown_out))]
    })
}

/// The battery is cut off.
pub open spec fn give_up(r: Readings) -> Seq<Exchange> {
    seq![(Operation::ClearBrownOut, Answer::Done)] + done(
        battery_operations(r.cache().version, false),
    )
}

/// It is read whether the device was powered on, and that is forgotten, so that it
/// counts for this boot alone. Then the mode register is read, before the boot
/// writes it itself.
pub open spec fn recall(r: Readings) -> Seq<Exchange> {
    seq![
        (Operation::ReadPowerOn, Answer::Flag(r.power_on)),
        (Operation::ClearPowerOn, Answer::Done),
        (Operation::ReadRetained { index: MODE_REGISTER }, Answer::Word(r.mode)),
    ]
}

/// The battery is switched on, a reset is made to enter the programming mode,
/// the pins are connected, the battery stays on if USB is connected, and the
/// page of a staged program is read.
pub open spec fn bring_up(r: Readings) -> Seq<Exchange> {
    done(battery_operations(r.cache().version, true)) + seq![
        (mode_operation(true), Answer::Done),
    ] + done(pinmux_operations()) + seq![
        (usb_operation(), Answer::Flag(r.usb_disconnected_later)),
    ] + done(battery_operations(r.cache().version, !r.usb_disconnected_later)) + seq![
        (
            Operation::ReadEepromWord { address: STAGED_ADDRESS, clock: r.clock() },
            Answer::EepromWord(r.staged),
        ),
    ]
}

/// The operation that forgets the staged program.
pub open spec fn forget_staged(clock: u32) -> Operation {
    Operation::WriteEepromWord { address: STAGED_ADDRESS, word: word_bytes(0), clock }
}

/// A staged program is forgotten, installed, and the watchdog is started.
pub open spec fn install(r: Readings) -> Seq<Exchange> {
    if r.staged_page() == 0 {
        seq![]
    } else {
        seq![(forget_staged(r.clock()), Answer::Done)] + done(
            on_flash(staged_operations(r.staged_page(), r.clock())),
        ) + done(watchdog_operations(WATCHDOG_TIMEOUT))
    }
}

/// It is decided which program takes over. A request for the programming mode
/// is forgotten; before the second program takes over, the interrupts are made
/// its own and its memory is switched on.
pub open spec fn decide(r: Readings) -> Seq<Exchange> {
    seq![
        (Operation::ReadRetained { index: REQUEST_REGISTER }, Answer::Word(r.request)),
    ] + (if r.request == SIGNATURE {
        seq![
            (Operation::WriteRetained { index: REQUEST_REGISTER, value: 0 }, Answer::Done),
        ]
    } else {
        seq![
            (Operation::ReadMemory { address: SIGNATURE_ADDRESS }, Answer::Word(r.signature)),
        ] + (if r.starts_program2() {
            seq![
                (mode_operation(false), Answer::Done),
                (Operation::EnableClock(ClockedPart::Ram1), Answer::Done),
            ]
        } else {
            seq![]
        })
    })
}

/// What follows once it is known whether the boot gives up.
pub open spec fn after_sensing(r: Readings) -> Seq<Exchange> {
    if r.gives_up() {
        give_up(r)
    } else {
        recall(r) + (bring_up(r) + (install(r) + decide(r)))
    }
}

/// Everything that a boot does, in order, with the answers of the device.
pub open spec fn boot_exchanges(r: Readings) -> Seq<Exchange> {
    identify(r) + (repair(r) + (sense(r) + after_sensing(r)))
}

/// How a boot ends.
pub open spec fn boot_outcome(r: Readings) -> Outcome {
    if r.gives_up() {
        Outcome::Sleep
    } else if r.starts_program2() {
        Outcome::StartProgram2(program2_entry())
    } else {
        Outcome::EnterProgrammingMode
    }
}

/// What comes next in a boot after `n` operations.
pub open spec fn boot_step(r: Readings, n: int) -> Step {
    if n < boot_exchanges(r).len() {
        Step::Perform(boot_exchanges(r)[n].0)
    } else {
        Step::Finish(boot_outcome(r))
    }
}

} // verus!
