//! The operations that the bootloader asks of the device, and the answers.

use vstd::prelude::*;

use crate::flash::FlashOperation;

verus! {

/// A pin of one of the GPIO ports.
#[derive(Clone, Copy, Debug, PartialEq, Eq)]
pub struct Pin {
    pub port: u32,
    pub number: u32,
}

/// What a pin is connected to inside the chip.
#[derive(Clone, Copy, Debug, PartialEq, Eq)]
pub enum PinFunction {
    Gpio,
    UsbConnect,
    SerialReceive,
    SerialTransmit,
}

/// What a pin does while nothing drives it.
#[derive(Clone, Copy, Debug, PartialEq, Eq)]
pub enum PinMode {
    Floating,
    PullDown,
}

/// A part of the chip whose clock can be switched on.
#[derive(Clone, Copy, Debug, PartialEq, Eq)]
pub enum ClockedPart {
    Gpio,
    Ram1,
    Watchdog,
}

/// One operation on the watchdog.
#[derive(Clone, Copy, Debug, PartialEq, Eq)]
pub enum WatchdogOperation {
    /// Give the mode register its reset value.
    ResetMode,
    /// Give the timer constant its reset value.
    ResetTimeout,
    /// Write all bits of the register for the warning interrupt.
    WriteWarning(u32),
    /// Give the window register its reset value.
    ResetWindow,
    /// Write the timer constant.
    WriteTimeout(u32),
    /// Let the watchdog run, and let it reset the chip when it runs out.
    Run,
    /// Write to the feed register.
    Feed(u32),
}

/// One operation on the device.
#[derive(Clone, Copy, Debug, PartialEq, Eq)]
pub enum Operation {
    /// Set up the clocks and the flash controller.
    InitializeSystem,
    /// Read the rate of the main clock, in Hz.
    ReadMainClockRate,
    /// Read eight bytes of the EEPROM; `clock` is the main clock in units of
    /// 1024 Hz, here and in the operations that follow.
    ReadEepromRecord { address: u32, clock: u32 },
    /// Write eight bytes to the EEPROM.
    WriteEepromRecord { address: u32, record: [u8; 8], clock: u32 },
    /// Read four bytes of the EEPROM.
    ReadEepromWord { address: u32, clock: u32 },
    /// Write four bytes to the EEPROM.
    WriteEepromWord { address: u32, word: [u8; 4], clock: u32 },
    /// Switch the clock of a part on, and leave the other clocks alone.
    EnableClock(ClockedPart),
    /// Read whether a pin is high.
    ReadPin(Pin),
    /// Make a pin an output, and leave the other pins alone.
    SetOutput(Pin),
    /// Drive an output high or low.
    WritePin { pin: Pin, high: bool },
    /// Write the configuration of a pin. What is not named here takes its reset
    /// value.
    ConfigurePin { pin: Pin, function: PinFunction, mode: PinMode },
    /// Read whether the last reset came from a brown-out.
    ReadBrownOut,
    /// Forget that the last reset came from a brown-out.
    ClearBrownOut,
    /// Read whether the last reset was a power-on. A wake from the deep power-down
    /// mode, which keeps the retained registers, is none.
    ReadPowerOn,
    /// Forget that the last reset was a power-on.
    ClearPowerOn,
    /// Read a register that keeps its value through resets.
    ReadRetained { index: u32 },
    /// Write a register that keeps its value through resets.
    WriteRetained { index: u32, value: u32 },
    /// Read the word at an address.
    ReadMemory { address: u32 },
    /// Operate the watchdog.
    Watchdog(WatchdogOperation),
    /// Operate the flash.
    Flash(FlashOperation),
}

/// What the device answers to an operation.
#[derive(Clone, Copy, Debug, PartialEq, Eq)]
pub enum Answer {
    /// The operation is done; there is nothing to tell.
    Done,
    /// A truth value that was read.
    Flag(bool),
    /// A word that was read.
    Word(u32),
    /// Four bytes of the EEPROM.
    EepromWord([u8; 4]),
    /// Eight bytes of the EEPROM.
    EepromRecord([u8; 8]),
}

impl Operation {
    /// Whether `answer` is of the kind that the operation is answered with.
    pub open spec fn takes(self, answer: Answer) -> bool {
        match self {
            Operation::ReadMainClockRate => answer is Word,
            Operation::ReadRetained { index } => answer is Word,
            Operation::ReadMemory { address } => answer is Word,
            Operation::ReadPin(pin) => answer is Flag,
            Operation::ReadBrownOut => answer is Flag,
            Operation::ReadPowerOn => answer is Flag,
            Operation::ReadEepromRecord { address, clock } => answer is EepromRecord,
            Operation::ReadEepromWord { address, clock } => answer is EepromWord,
            _ => answer is Done,
        }
    }
}

/// An operation and the answer to it.
pub type Exchange = (Operation, Answer);

/// `operations`, each answered by `Done`.
pub open spec fn done(operations: Seq<Operation>) -> Seq<Exchange> {
    Seq::new(operations.len(), |i: int| (operations[i], Answer::Done))
}

/// Operations on the flash as operations on the device.
pub open spec fn on_flash(operations: Seq<FlashOperation>) -> Seq<Operation> {
    Seq::new(operations.len(), |i: int| Operation::Flash(operations[i]))
}

/// An operation takes answers of one kind only.
pub proof fn lemma_one_kind_of_answer(operation: Operation, a: Answer, b: Answer)
    requires
        operation.takes(a),
        operation.takes(b),
    ensures
        a is Done <==> b is Done,
        a is Flag <==> b is Flag,
        a is Word <==> b is Word,
        a is EepromWord <==> b is EepromWord,
        a is EepromRecord <==> b is EepromRecord,
{
}

/// What is read comes back in the kind that holds it, any value of it; all that
/// is not read is answered by `Done` alone.
pub proof fn lemma_kinds_of_answers(
    operation: Operation,
    flag: bool,
    word: u32,
    four: [u8; 4],
    eight: [u8; 8],
)
    ensures
        operation.takes(Answer::Flag(flag)) <==> operation is ReadPin || operation is ReadBrownOut
            || operation is ReadPowerOn,
        operation.takes(Answer::Word(word)) <==> operation is ReadMainClockRate
            || operation is ReadRetained || operation is ReadMemory,
        operation.takes(Answer::EepromWord(four)) <==> operation is ReadEepromWord,
        operation.takes(Answer::EepromRecord(eight)) <==> operation is ReadEepromRecord,
        operation.takes(Answer::Done) <==> !(operation.takes(Answer::Flag(flag))
            || operation.takes(Answer::Word(word)) || operation.takes(Answer::EepromWord(four))
            || operation.takes(Answer::EepromRecord(eight))),
{
}

} // verus!
