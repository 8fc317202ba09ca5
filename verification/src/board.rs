//! What the bootloader knows of the board it runs on.

use vstd::prelude::*;

use crate::device::Operation;
use crate::eeprom::{DEFAULT_VERSION, EEPROM_MAGIC, EepromData};

verus! {

/// Where the EEPROM keeps the record of the board.
pub const RECORD_ADDRESS: u32 = 0;

/// The rate of the main clock, the record of the board, whether it was powered on,
/// and the mode register as the boot found it. All are zero or false until they
/// were read.
#[derive(Clone, Copy, Debug, PartialEq, Eq)]
pub struct Board {
    pub main_clock_freq: u32,
    pub eeprom_cache: EepromData,
    pub power_on: bool,
    pub mode: u32,
}

/// The operation that reads the record of the board.
pub open spec fn record_read(clock: u32) -> Operation {
    Operation::ReadEepromRecord { address: RECORD_ADDRESS, clock }
}

/// The operation that stores `data` as the record of the board.
pub open spec fn record_write(data: EepromData, clock: u32) -> Operation {
    Operation::WriteEepromRecord { address: RECORD_ADDRESS, record: data.encoded(), clock }
}

impl Board {
    /// The board before anything was read.
    pub fn new() -> (board: Board)
        ensures
            board == (Board {
                main_clock_freq: 0,
                eeprom_cache: EepromData { magic: 0, unknown: 0, version: 0 },
                power_on: false,
                mode: 0,
            }),
    {
        Board {
            main_clock_freq: 0,
            eeprom_cache: EepromData { magic: 0, unknown: 0, version: 0 },
            power_on: false,
            mode: 0,
        }
    }

    /// The clock that is told to the EEPROM and the flash.
    pub open spec fn clock(self) -> u32 {
        self.main_clock_freq / 1024
    }

    /// The clock that is told to the EEPROM and the flash: that of the main
    /// clock, in units of 1024 Hz.
    pub fn programming_clock(&self) -> (clock: u32)
        ensures
            clock == self.clock(),
    {
        self.main_clock_freq / 1024
    }

    /// Keeps the rate of the main clock.
    pub fn initialize_main_clock_freq(&mut self, rate: u32)
        ensures
            *final(self) == (Board { main_clock_freq: rate, ..*old(self) }),
    {
        self.main_clock_freq = rate;
    }

    /// The operation that reads the record of the board.
    pub fn read_eeprom_record(&self) -> (operation: Operation)
        ensures
            operation == record_read(self.clock()),
    {
        Operation::ReadEepromRecord { address: RECORD_ADDRESS, clock: self.programming_clock() }
    }

    /// Keeps the record that was read. A record without the magic number is
    /// replaced by a fresh one, and the operation that stores it is returned.
    pub fn check_eeprom_magic(&mut self, record: [u8; 8]) -> (repair: Option<Operation>)
        ensures
            *final(self) == (Board {
                eeprom_cache: EepromData::decoded(record@).repaired(),
                ..*old(self)
            }),
            repair == (if EepromData::decoded(record@).magic == EEPROM_MAGIC {
                None
            } else {
                Some(record_write(EepromData::fresh(), old(self).clock()))
            }),
    {
        self.eeprom_cache = EepromData::from_bytes(record);
        if self.eeprom_cache.magic != EEPROM_MAGIC {
            self.eeprom_cache.magic = EEPROM_MAGIC;
            self.eeprom_cache.unknown = 0;
            self.eeprom_cache.version = DEFAULT_VERSION;
            Some(self.write_eeprom_cache())
        } else {
            None
        }
    }

    /// The operation that stores the record of the board.
    pub fn write_eeprom_cache(&self) -> (operation: Operation)
        ensures
            operation == record_write(self.eeprom_cache, self.clock()),
    {
        Operation::WriteEepromRecord {
            address: RECORD_ADDRESS,
            record: self.eeprom_cache.to_bytes(),
            clock: self.programming_clock(),
        }
    }
}

/// The clock is told in units of 1024 Hz, rounded down, and the record stands at
/// the start of the EEPROM.
pub proof fn lemma_board_in_numbers(board: Board, data: EepromData)
    ensures
        1024 * board.clock() <= board.main_clock_freq < 1024 * (board.clock() + 1),
        record_read(board.clock()) == (Operation::ReadEepromRecord {
            address: 0,
            clock: board.clock(),
        }),
        record_write(data, board.clock()) == (Operation::WriteEepromRecord {
            address: 0,
            record: data.encoded(),
            clock: board.clock(),
        }),
{
}

} // verus!
