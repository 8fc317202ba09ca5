//! The interrupts, and where the second program keeps its handlers for them.
//!
//! The interrupts reach the bootloader, which hands them on: to its programming
//! mode, or through the vector table of the second program.

use vstd::prelude::*;

verus! {

/// Where the second program, and with it its vector table, starts.
pub const PROGRAM2_VECTORS: u32 = 0x2000;

/// Where the second program carries its signature. The place is that of a
/// vector that the processor does not use.
pub const SIGNATURE_ADDRESS: u32 = 0x2024;

/// The exceptions and interrupts that are handed on.
#[derive(Clone, Copy, Debug, PartialEq, Eq)]
pub enum Vector {
    NonMaskableInt,
    HardFault,
    SvCall,
    PendSv,
    SysTick,
    PinInt0,
    PinInt1,
    PinInt2,
    PinInt3,
    PinInt4,
    PinInt5,
    PinInt6,
    PinInt7,
    GInt0,
    GInt1,
    Ssp1,
    I2c,
    Ct16b0,
    Ct16b1,
    Ct32b0,
    Ct32b1,
    Ssp0,
    Usart,
    UsbIrq,
    UsbFiq,
    Adc,
    Wdt,
    BodIrq,
    FlashIrq,
    UsbWakeup,
}

/// Who handles an interrupt.
#[derive(Clone, Copy, Debug, PartialEq, Eq)]
pub enum Handler {
    /// The handler of the programming mode.
    ProgrammingMode,
    /// The handler of the second program, whose address stands at `slot`.
    Program2 { slot: u32 },
}

/// Where the second program tells its stack pointer and its entry point.
#[derive(Clone, Copy, Debug, PartialEq, Eq)]
pub struct Program2Entry {
    pub stack_slot: u32,
    pub entry_slot: u32,
}

/// How many vectors the processor keeps before those of the interrupts.
pub const EXCEPTIONS: u32 = 16;

impl Vector {
    /// The number of the interrupt, for those that are no exceptions.
    pub open spec fn interrupt(self) -> int {
        match self {
            Vector::PinInt0 => 0,
            Vector::PinInt1 => 1,
            Vector::PinInt2 => 2,
            Vector::PinInt3 => 3,
            Vector::PinInt4 => 4,
            Vector::PinInt5 => 5,
            Vector::PinInt6 => 6,
            Vector::PinInt7 => 7,
            Vector::GInt0 => 8,
            Vector::GInt1 => 9,
            Vector::Ssp1 => 14,
            Vector::I2c => 15,
            Vector::Ct16b0 => 16,
            Vector::Ct16b1 => 17,
            Vector::Ct32b0 => 18,
            Vector::Ct32b1 => 19,
            Vector::Ssp0 => 20,
            Vector::Usart => 21,
            Vector::UsbIrq => 22,
            Vector::UsbFiq => 23,
            Vector::Adc => 24,
            Vector::Wdt => 25,
            Vector::BodIrq => 26,
            Vector::FlashIrq => 27,
            Vector::UsbWakeup => 30,
            _ => -1,
        }
    }

    /// The position of the vector in a vector table.
    pub open spec fn position(self) -> int {
        match self {
            Vector::NonMaskableInt => 2,
            Vector::HardFault => 3,
            Vector::SvCall => 11,
            Vector::PendSv => 14,
            Vector::SysTick => 15,
            _ => EXCEPTIONS + self.interrupt(),
        }
    }

    /// Where the second program keeps the address of its handler.
    pub open spec fn program2_slot(self) -> int {
        PROGRAM2_VECTORS + 4 * self.position()
    }

    /// Whether the programming mode handles this interrupt while it runs.
    pub open spec fn is_shared(self) -> bool {
        self is PendSv || self is Ct32b1 || self is Usart || self is UsbIrq
    }

    /// Where the second program keeps the address of its handler.
    pub fn slot(self) -> (slot: u32)
        ensures
            slot == self.program2_slot(),
    {
        match self {
            Vector::NonMaskableInt => 0x2008,
            Vector::HardFault => 0x200c,
            Vector::SvCall => 0x202c,
            Vector::PendSv => 0x2038,
            Vector::SysTick => 0x203c,
            Vector::PinInt0 => 0x2040,
            Vector::PinInt1 => 0x2044,
            Vector::PinInt2 => 0x2048,
            Vector::PinInt3 => 0x204c,
            Vector::PinInt4 => 0x2050,
            Vector::PinInt5 => 0x2054,
            Vector::PinInt6 => 0x2058,
            Vector::PinInt7 => 0x205c,
            Vector::GInt0 => 0x2060,
            Vector::GInt1 => 0x2064,
            Vector::Ssp1 => 0x2078,
            Vector::I2c => 0x207c,
            Vector::Ct16b0 => 0x2080,
            Vector::Ct16b1 => 0x2084,
            Vector::Ct32b0 => 0x2088,
            Vector::Ct32b1 => 0x208c,
            Vector::Ssp0 => 0x2090,
            Vector::Usart => 0x2094,
            Vector::UsbIrq => 0x2098,
            Vector::UsbFiq => 0x209c,
            Vector::Adc => 0x20a0,
            Vector::Wdt => 0x20a4,
            Vector::BodIrq => 0x20a8,
            Vector::FlashIrq => 0x20ac,
            Vector::UsbWakeup => 0x20b8,
        }
    }

    /// Whether the mode register has to be read to tell who handles the
    /// interrupt.
    pub fn depends_on_mode(self) -> (depends: bool)
        ensures
            depends == self.is_shared(),
    {
        matches!(self, Vector::PendSv | Vector::Ct32b1 | Vector::Usart | Vector::UsbIrq)
    }

    /// Who handles the interrupt while the mode register holds `mode`.
    pub open spec fn handler(self, mode: u32) -> Handler {
        if self.is_shared() && mode == 0 {
            Handler::ProgrammingMode
        } else {
            Handler::Program2 { slot: self.program2_slot() as u32 }
        }
    }

    /// Who handles the interrupt while the mode register holds `mode`.
    pub fn route(self, mode: u32) -> (handler: Handler)
        ensures
            handler == self.handler(mode),
    {
        if self.depends_on_mode() && mode == 0 {
            Handler::ProgrammingMode
        } else {
            Handler::Program2 { slot: self.slot() }
        }
    }
}

/// Where the second program tells its stack pointer and its entry point: in the
/// first two places of its vector table.
pub open spec fn program2_entry() -> Program2Entry {
    Program2Entry {
        stack_slot: PROGRAM2_VECTORS,
        entry_slot: (PROGRAM2_VECTORS + 4) as u32,
    }
}

/// Where to load the stack pointer and the entry point of the second program
/// from.
pub fn start_program2() -> (entry: Program2Entry)
    ensures
        entry == program2_entry(),
{
    Program2Entry { stack_slot: PROGRAM2_VECTORS, entry_slot: PROGRAM2_VECTORS + 4 }
}

/// No two interrupts share a slot.
pub proof fn lemma_slots_distinct(a: Vector, b: Vector)
    requires
        a != b,
    ensures
        a.program2_slot() != b.program2_slot(),
{
}

/// Every slot is a whole word of the vector table, behind the stack pointer and
/// the entry point, and none is the place of the signature.
pub proof fn lemma_slot_in_table(vector: Vector)
    ensures
        vector.program2_slot() % 4 == 0,
        program2_entry().entry_slot < vector.program2_slot() < PROGRAM2_VECTORS + 4 * (EXCEPTIONS
            + 31),
        vector.program2_slot() != SIGNATURE_ADDRESS,
{
}

/// Where each handler of the second program stands, in numbers. The interrupts
/// follow the exceptions, word by word, with the gaps that the chip leaves.
pub proof fn lemma_slots_in_numbers(vector: Vector)
    ensures
        vector.program2_slot() == (match vector {
            Vector::NonMaskableInt => 0x2008int,
            Vector::HardFault => 0x200c,
            Vector::SvCall => 0x202c,
            Vector::PendSv => 0x2038,
            Vector::SysTick => 0x203c,
            Vector::PinInt0 => 0x2040,
            Vector::PinInt1 => 0x2044,
            Vector::PinInt2 => 0x2048,
            Vector::PinInt3 => 0x204c,
            Vector::PinInt4 => 0x2050,
            Vector::PinInt5 => 0x2054,
            Vector::PinInt6 => 0x2058,
            Vector::PinInt7 => 0x205c,
            Vector::GInt0 => 0x2060,
            Vector::GInt1 => 0x2064,
            Vector::Ssp1 => 0x2078,
            Vector::I2c => 0x207c,
            Vector::Ct16b0 => 0x2080,
            Vector::Ct16b1 => 0x2084,
            Vector::Ct32b0 => 0x2088,
            Vector::Ct32b1 => 0x208c,
            Vector::Ssp0 => 0x2090,
            Vector::Usart => 0x2094,
            Vector::UsbIrq => 0x2098,
            Vector::UsbFiq => 0x209c,
            Vector::Adc => 0x20a0,
            Vector::Wdt => 0x20a4,
            Vector::BodIrq => 0x20a8,
            Vector::FlashIrq => 0x20ac,
            Vector::UsbWakeup => 0x20b8,
        }),
{
}

/// The programming mode handles an interrupt exactly if the mode register holds 0
/// and the interrupt is one of four; else the second program does, through the
/// slot that does not depend on the mode.
pub proof fn lemma_routing(vector: Vector, mode: u32)
    ensures
        vector.handler(mode) is ProgrammingMode <==> {
            &&& mode == 0
            &&& {
                ||| vector == Vector::PendSv
                ||| vector == Vector::Ct32b1
                ||| vector == Vector::Usart
                ||| vector == Vector::UsbIrq
            }
        },
        vector.handler(mode) matches Handler::Program2 { slot } ==> slot == vector.program2_slot(),
        vector.is_shared() <==> vector.handler(0) != vector.handler(1),
{
    lemma_slots_in_numbers(vector);
}

/// The second program is entered through the two words at 0x2000, and carries its
/// signature at 0x2024.
pub proof fn lemma_entry_in_numbers()
    ensures
        program2_entry().stack_slot == 0x2000,
        program2_entry().entry_slot == 0x2004,
        SIGNATURE_ADDRESS == 0x2024,
{
}

} // verus!
