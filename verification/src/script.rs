//! The boot written out: which operation stands at which place, in numbers.
//!
//! Every statement here speaks of the readings as they came from the device,
//! byte by byte, and of the operations with their addresses, pins and values. The
//! places are counted from the start of the boot, and together with the length
//! of the boot the statements leave nothing of it open.

use vstd::arithmetic::div_mod::{lemma_fundamental_div_mod, lemma_fundamental_div_mod_converse};
use vstd::prelude::*;

use crate::boot::{
    Outcome, Readings, after_sensing, boot_exchanges, boot_outcome, bring_up, decide,
    forget_staged, give_up, identify, install, recall, repair, sense,
};
use crate::device::{
    Answer, ClockedPart, Exchange, Operation, Pin, PinFunction, PinMode, WatchdogOperation, done,
    on_flash,
};
use crate::eeprom::{
    lemma_record_in_numbers, lemma_repair_in_numbers, lemma_word_in_numbers, word_bytes,
};
use crate::flash::{
    FlashOperation, erase_operations, install_operations, move_operations, staged_operations,
};
use crate::setup::{lemma_battery_in_numbers, lemma_watchdog_in_numbers, watchdog_operations};

verus! {

/// How many runs of `distance` sectors start among the first `moved` sectors.
#[verifier::opaque]
spec fn runs(distance: int, moved: int) -> int {
    (moved + distance - 1) / distance
}

proof fn lemma_runs(distance: int, moved: int)
    requires
        distance > 0,
        moved >= 0,
    ensures
        runs(distance, 0) == 0,
        runs(distance, moved + 1) == runs(distance, moved) + (if moved % distance == 0 {
            1int
        } else {
            0int
        }),
{
    reveal(runs);
    let a = moved / distance;
    let b = moved % distance;
    lemma_fundamental_div_mod(moved, distance);
    assert(moved == a * distance + b) by (nonlinear_arith)
        requires
            moved == distance * a + b,
    ;
    assert((a + 1) * distance == a * distance + distance) by (nonlinear_arith);
    lemma_fundamental_div_mod_converse(moved + distance, distance, a + 1, b);
    if b == 0 {
        lemma_fundamental_div_mod_converse(moved + distance - 1, distance, a, distance - 1);
    } else {
        lemma_fundamental_div_mod_converse(moved + distance - 1, distance, a + 1, b - 1);
    }
    lemma_fundamental_div_mod_converse(distance - 1, distance, 0, distance - 1);
}

/// Whether the operations for the page that goes to `sector` stand in `all` at the
/// place `at`.
#[verifier::opaque]
spec fn page_stands_at(
    all: Seq<FlashOperation>,
    at: int,
    distance: int,
    sector: int,
    clock: u32,
) -> bool {
    let erase = erase_operations(distance, sector, clock);
    let copy = move_operations(distance, sector, clock);
    let load = if (sector - 2) % distance == 0 {
        at + 2
    } else {
        at
    };
    &&& 0 <= at
    &&& load + 3 <= all.len()
    &&& (sector - 2) % distance == 0 ==> all[at] == erase[0] && all[at + 1] == erase[1]
    &&& all[load] == copy[0]
    &&& all[load + 1] == copy[1]
    &&& all[load + 2] == copy[2]
}

/// Operations in front of the others move the place of these.
proof fn lemma_page_moves(
    front: Seq<FlashOperation>,
    all: Seq<FlashOperation>,
    at: int,
    distance: int,
    sector: int,
    clock: u32,
)
    requires
        page_stands_at(all, at, distance, sector, clock),
    ensures
        page_stands_at(front + all, front.len() + at, distance, sector, clock),
{
    reveal(page_stands_at);
    let moved = front + all;
    let n = front.len();
    assert forall|i: int| 0 <= i < all.len() implies moved[n + i] == #[trigger] all[i] by {}
}

/// The page that goes to `sector` is the first to be moved.
proof fn lemma_page_first(
    head: Seq<FlashOperation>,
    later: Seq<FlashOperation>,
    distance: int,
    sector: int,
    clock: u32,
)
    requires
        head == (if (sector - 2) % distance == 0 {
            erase_operations(distance, sector, clock)
        } else {
            seq![]
        }),
    ensures
        page_stands_at(
            head + (move_operations(distance, sector, clock) + later),
            0,
            distance,
            sector,
            clock,
        ),
{
    reveal(page_stands_at);
}

/// The operations for the page `k` places behind the one that goes to `sector`.
proof fn lemma_page_in_row(distance: int, sector: int, clock: u32, k: int)
    requires
        distance > 0,
        sector >= 2,
        k >= 0,
        sector + distance + k < 28,
    ensures
        page_stands_at(
            install_operations(distance, sector, clock),
            3 * k + 2 * (runs(distance, sector + k - 2) - runs(distance, sector - 2)),
            distance,
            sector + k,
            clock,
        ),
    decreases k,
{
    let all = install_operations(distance, sector, clock);
    let later = install_operations(distance, sector + 1, clock);
    let copy = move_operations(distance, sector, clock);
    let head = if (sector - 2) % distance == 0 {
        erase_operations(distance, sector, clock)
    } else {
        seq![]
    };
    assert(all == head + (copy + later));
    lemma_runs(distance, sector - 2);
    if k == 0 {
        lemma_page_first(head, later, distance, sector, clock);
    } else {
        let at = 3 * (k - 1) + 2 * (runs(distance, sector + k - 2) - runs(distance, sector - 1));
        lemma_page_in_row(distance, sector + 1, clock, k - 1);
        lemma_page_moves(copy, later, at, distance, sector + k, clock);
        lemma_page_moves(head, copy + later, 3 + at, distance, sector + k, clock);
    }
}

/// How many operations it takes to move the pages from `sector + distance` on.
proof fn lemma_row_length(distance: int, sector: int, clock: u32)
    requires
        distance > 0,
        sector >= 2,
        sector + distance <= 28,
    ensures
        install_operations(distance, sector, clock).len() == 3 * (28 - distance - sector) + 2 * (
        runs(distance, 28 - distance - 2) - runs(distance, sector - 2)),
    decreases 28 - sector - distance,
{
    if sector + distance < 28 {
        lemma_runs(distance, sector - 2);
        lemma_row_length(distance, sector + 1, clock);
    }
}

/// How many operations install the program staged at `page`: three for each page
/// of it, and two for each run of sectors that is erased. A run is as long as the
/// program is moved. Outside of 3 to 27 there is nothing to do.
pub proof fn lemma_installation_length(page: u32, clock: u32)
    ensures
        page <= 2 || page >= 28 ==> staged_operations(page, clock).len() == 0,
        2 < page < 28 ==> staged_operations(page, clock).len() == 3 * (28 - page) + 2 * ((28 - page
            + (page - 2) - 1) / (page - 2)),
{
    if 2 < page < 28 {
        let distance = page - 2;
        lemma_row_length(distance, 2, clock);
        lemma_runs(distance, 0);
        reveal(runs);
    }
}

/// Where in an installation the page `k` of the program is moved, and how: it is
/// loaded from its page, the sector `2 + k` is prepared and programmed with it.
/// If `k` is a multiple of the distance, the run of sectors from `2 + k` up to
/// the page that is about to be moved is prepared and erased just before.
pub proof fn lemma_installation_order(page: u32, clock: u32, k: int)
    requires
        2 < page,
        0 <= k < 28 - page,
    ensures
        ({
            let all = staged_operations(page, clock);
            let distance = page - 2;
            let at = 3 * k + 2 * ((k + distance - 1) / distance);
            let load = if k % distance == 0 {
                at + 2
            } else {
                at
            };
            &&& 0 <= at
            &&& load + 3 <= all.len()
            &&& k % distance == 0 ==> {
                &&& all[at] == (FlashOperation::Prepare {
                    first: (2 + k) as u32,
                    last: (page + k - 1) as u32,
                })
                &&& all[at + 1] == (FlashOperation::Erase {
                    first: (2 + k) as u32,
                    last: (page + k - 1) as u32,
                    clock,
                })
            }
            &&& all[load] == (FlashOperation::LoadPage {
                address: (0x1000 * (page + k)) as u32,
                length: 0x1000,
            })
            &&& all[load + 1] == (FlashOperation::Prepare {
                first: (2 + k) as u32,
                last: (2 + k) as u32,
            })
            &&& all[load + 2] == (FlashOperation::ProgramPage {
                address: (0x1000 * (2 + k)) as u32,
                length: 0x1000,
                clock,
            })
        }),
{
    let distance = page - 2;
    lemma_page_in_row(distance, 2, clock, k);
    lemma_runs(distance, k);
    reveal(page_stands_at);
    assert(runs(distance, k) == (k + distance - 1) / distance) by {
        reveal(runs);
    }
}

/// `part` stands in `all` from the place `at` on.
#[verifier::opaque]
spec fn stands_at(all: Seq<Exchange>, part: Seq<Exchange>, at: int) -> bool {
    &&& 0 <= at <= at + part.len() <= all.len()
    &&& forall|i: int| 0 <= i < part.len() ==> all[at + i] == #[trigger] part[i]
}

proof fn lemma_halves(all: Seq<Exchange>, a: Seq<Exchange>, b: Seq<Exchange>, at: int)
    requires
        stands_at(all, a + b, at),
    ensures
        stands_at(all, a, at),
        stands_at(all, b, at + a.len()),
        at + a.len() + b.len() <= all.len(),
{
    reveal(stands_at);
    assert forall|i: int| 0 <= i < a.len() implies all[at + i] == #[trigger] a[i] by {
        assert((a + b)[i] == a[i]);
    }
    assert forall|i: int| 0 <= i < b.len() implies all[at + a.len() + i] == #[trigger] b[i] by {
        assert((a + b)[a.len() + i] == b[i]);
    }
}

proof fn lemma_item(all: Seq<Exchange>, part: Seq<Exchange>, at: int, i: int)
    requires
        stands_at(all, part, at),
        0 <= i < part.len(),
    ensures
        all[at + i] == part[i],
{
    reveal(stands_at);
}

/// The places of the parts of a boot.
proof fn lemma_parts(r: Readings)
    ensures
        ({
            let all = boot_exchanges(r);
            let a = identify(r).len();
            let b = a + repair(r).len();
            let c = b + sense(r).len();
            &&& all.len() == c + after_sensing(r).len()
            &&& stands_at(all, identify(r), 0)
            &&& stands_at(all, repair(r), a as int)
            &&& stands_at(all, sense(r), b as int)
            &&& stands_at(all, after_sensing(r), c as int)
        }),
{
    let all = boot_exchanges(r);
    assert(stands_at(all, all, 0)) by {
        reveal(stands_at);
    }
    let a = identify(r).len() as int;
    let b = a + repair(r).len();
    lemma_halves(all, identify(r), repair(r) + (sense(r) + after_sensing(r)), 0);
    lemma_halves(all, repair(r), sense(r) + after_sensing(r), a);
    lemma_halves(all, sense(r), after_sensing(r), b);
}

/// The places of the parts of a boot that goes on, once that is known.
proof fn lemma_late_parts(r: Readings)
    requires
        !r.gives_up(),
    ensures
        ({
            let all = boot_exchanges(r);
            let a = identify(r).len() + repair(r).len() + sense(r).len();
            let b = a + recall(r).len();
            let c = b + bring_up(r).len();
            let d = c + install(r).len();
            &&& all.len() == d + decide(r).len()
            &&& stands_at(all, recall(r), a as int)
            &&& stands_at(all, bring_up(r), b as int)
            &&& stands_at(all, install(r), c as int)
            &&& stands_at(all, decide(r), d as int)
        }),
{
    lemma_parts(r);
    let all = boot_exchanges(r);
    let a = identify(r).len() + repair(r).len() + sense(r).len();
    let b = a + recall(r).len();
    let c = b + bring_up(r).len();
    lemma_halves(all, recall(r), bring_up(r) + (install(r) + decide(r)), a as int);
    lemma_halves(all, bring_up(r), install(r) + decide(r), b as int);
    lemma_halves(all, install(r), decide(r), c as int);
}

/// Whatever a boot reads, it starts by setting up the system, reading the clock,
/// and reading the eight bytes at the start of the EEPROM with the clock told in
/// units of 1024 Hz. It writes 5a a5 00 00 0a 00 00 00 there exactly if the bytes
/// that were read do not start with 5a a5. Then it switches the clock of the GPIO
/// ports on and reads pin 0.3; if that is low, it reads the brown-out flag.
pub proof fn lemma_boot_opens(r: Readings, clock: u32, good: bool, gpio: int)
    requires
        1024 * clock <= r.clock_rate < 1024 * (clock + 1),
        good == (r.record@[0] == 0x5a && r.record@[1] == 0xa5),
        gpio == (if good {
            3int
        } else {
            4int
        }),
    ensures
        ({
            let all = boot_exchanges(r);
            &&& all.len() > gpio + 4
            &&& all[0] == (Operation::InitializeSystem, Answer::Done)
            &&& all[1] == (Operation::ReadMainClockRate, Answer::Word(r.clock_rate))
            &&& all[2] == (
                Operation::ReadEepromRecord { address: 0, clock },
                Answer::EepromRecord(r.record),
            )
            &&& !good ==> all[3] == (
                Operation::WriteEepromRecord {
                    address: 0,
                    record: [0x5au8, 0xa5u8, 0u8, 0u8, 10u8, 0u8, 0u8, 0u8],
                    clock,
                },
                Answer::Done,
            )
            &&& all[gpio] == (Operation::EnableClock(ClockedPart::Gpio), Answer::Done)
            &&& all[gpio + 1] == (
                Operation::ReadPin(Pin { port: 0, number: 3 }),
                Answer::Flag(r.usb_disconnected),
            )
            &&& !r.usb_disconnected ==> all[gpio + 2] == (
                Operation::ReadBrownOut,
                Answer::Flag(r.brown_out),
            )
        }),
{
    lemma_parts(r);
    lemma_repair_in_numbers(r.record@);
    assert(r.clock() == clock);
    let all = boot_exchanges(r);
    lemma_item(all, identify(r), 0, 0);
    lemma_item(all, identify(r), 0, 1);
    lemma_item(all, identify(r), 0, 2);
    assert(repair(r).len() == gpio - 3);
    if !good {
        lemma_item(all, repair(r), 3, 0);
    }
    lemma_item(all, sense(r), gpio, 0);
    lemma_item(all, sense(r), gpio, 1);
    if !r.usb_disconnected {
        lemma_item(all, sense(r), gpio, 2);
    }
    if r.gives_up() {
        assert(after_sensing(r).len() == 3);
    } else {
        assert(recall(r).len() == 3);
    }
}

/// A boot sleeps exactly if pin 0.3 was low at first and the brown-out flag was
/// read as set, whatever else it reads. Then the last three operations clear the
/// flag, make the battery pin an output and switch the battery off.
pub proof fn lemma_brown_out_sleeps(r: Readings, version: u32)
    requires
        version == (if r.record@[0] == 0x5a && r.record@[1] == 0xa5 {
            r.record@[4] + 256 * r.record@[5] + 0x1_0000 * r.record@[6] + 0x100_0000 * r.record@[7]
        } else {
            10
        }),
    ensures
        boot_outcome(r) is Sleep <==> !r.usb_disconnected && r.brown_out,
        r.gives_up() <==> !r.usb_disconnected && r.brown_out,
        r.cache().version == version,
        !r.usb_disconnected && r.brown_out ==> {
            let all = boot_exchanges(r);
            let end = all.len() as int;
            let pin = Pin {
                port: 1,
                number: if version < 5 {
                    8
                } else if version < 8 {
                    0
                } else {
                    10
                },
            };
            &&& end == (if r.record@[0] == 0x5a && r.record@[1] == 0xa5 {
                9int
            } else {
                10int
            })
            &&& all[end - 3] == (Operation::ClearBrownOut, Answer::Done)
            &&& all[end - 2] == (Operation::SetOutput(pin), Answer::Done)
            &&& all[end - 1] == (Operation::WritePin { pin, high: version >= 8 }, Answer::Done)
        },
{
    lemma_record_in_numbers(r.record@);
    lemma_repair_in_numbers(r.record@);
    lemma_parts(r);
    if !r.usb_disconnected && r.brown_out {
        let all = boot_exchanges(r);
        let end = all.len() as int;
        assert(after_sensing(r) == give_up(r) && give_up(r).len() == 3);
        lemma_item(all, give_up(r), end - 3, 0);
        lemma_item(all, give_up(r), end - 3, 1);
        lemma_item(all, give_up(r), end - 3, 2);
        lemma_battery_in_numbers(version, false);
    }
}

/// The second program takes over exactly if the boot does not sleep, the device
/// was powered on or its mode register was not 0, the request register does not
/// hold the signature, the word at 0x2024 does, and the version is not 0. Nothing
/// else that is read matters. In all other cases but the sleep the programming
/// mode takes over.
pub proof fn lemma_who_takes_over(r: Readings, version: u32)
    requires
        version == (if r.record@[0] == 0x5a && r.record@[1] == 0xa5 {
            r.record@[4] + 256 * r.record@[5] + 0x1_0000 * r.record@[6] + 0x100_0000 * r.record@[7]
        } else {
            10
        }),
    ensures
        boot_outcome(r) is StartProgram2 <==> {
            &&& r.usb_disconnected || !r.brown_out
            &&& r.power_on || r.mode != 0
            &&& r.request != 0xecaa_bac0
            &&& r.signature == 0xecaa_bac0
            &&& version != 0
        },
        boot_outcome(r) matches Outcome::StartProgram2(entry) ==> entry.stack_slot == 0x2000
            && entry.entry_slot == 0x2004,
        boot_outcome(r) is EnterProgrammingMode <==> !(boot_outcome(r) is StartProgram2) && (
        r.usb_disconnected || !r.brown_out),
{
    lemma_brown_out_sleeps(r, version);
}

/// What a boot that goes on does next, fourteen operations from the place `at` on
/// where that is known: whether the device was powered on is read and cleared, the
/// mode register is read, the battery is switched on, the mode register is set to
/// 0, the four pins are connected, pin 0.3 is read again, the battery is left on
/// if the pin is low and switched off if not, and the word at 0x500 of the EEPROM
/// is read.
pub proof fn lemma_boot_goes_on(r: Readings, clock: u32, version: u32, pin: Pin, at: int)
    requires
        r.usb_disconnected || !r.brown_out,
        1024 * clock <= r.clock_rate < 1024 * (clock + 1),
        version == (if r.record@[0] == 0x5a && r.record@[1] == 0xa5 {
            r.record@[4] + 256 * r.record@[5] + 0x1_0000 * r.record@[6] + 0x100_0000 * r.record@[7]
        } else {
            10
        }),
        pin == (Pin {
            port: 1,
            number: if version < 5 {
                8
            } else if version < 8 {
                0
            } else {
                10
            },
        }),
        at == 5 + (if r.record@[0] == 0x5a && r.record@[1] == 0xa5 {
            0int
        } else {
            1int
        }) + (if r.usb_disconnected {
            0int
        } else {
            1int
        }),
    ensures
        ({
            let all = boot_exchanges(r);
            &&& all.len() > at + 14
            &&& all[at] == (Operation::ReadPowerOn, Answer::Flag(r.power_on))
            &&& all[at + 1] == (Operation::ClearPowerOn, Answer::Done)
            &&& all[at + 2] == (Operation::ReadRetained { index: 1 }, Answer::Word(r.mode))
            &&& all[at + 3] == (Operation::SetOutput(pin), Answer::Done)
            &&& all[at + 4] == (Operation::WritePin { pin, high: version < 8 }, Answer::Done)
            &&& all[at + 5] == (Operation::WriteRetained { index: 1, value: 0 }, Answer::Done)
            &&& all[at + 6] == (
                Operation::ConfigurePin {
                    pin: Pin { port: 0, number: 3 },
                    function: PinFunction::Gpio,
                    mode: PinMode::PullDown,
                },
                Answer::Done,
            )
            &&& all[at + 7] == (
                Operation::ConfigurePin {
                    pin: Pin { port: 0, number: 6 },
                    function: PinFunction::UsbConnect,
                    mode: PinMode::Floating,
                },
                Answer::Done,
            )
            &&& all[at + 8] == (
                Operation::ConfigurePin {
                    pin: Pin { port: 1, number: 17 },
                    function: PinFunction::SerialReceive,
                    mode: PinMode::Floating,
                },
                Answer::Done,
            )
            &&& all[at + 9] == (
                Operation::ConfigurePin {
                    pin: Pin { port: 1, number: 18 },
                    function: PinFunction::SerialTransmit,
                    mode: PinMode::Floating,
                },
                Answer::Done,
            )
            &&& all[at + 10] == (
                Operation::ReadPin(Pin { port: 0, number: 3 }),
                Answer::Flag(r.usb_disconnected_later),
            )
            &&& all[at + 11] == (Operation::SetOutput(pin), Answer::Done)
            &&& all[at + 12] == (
                Operation::WritePin { pin, high: (version < 8) != r.usb_disconnected_later },
                Answer::Done,
            )
            &&& all[at + 13] == (
                Operation::ReadEepromWord { address: 0x500, clock },
                Answer::EepromWord(r.staged),
            )
        }),
{
    lemma_brown_out_sleeps(r, version);
    lemma_repair_in_numbers(r.record@);
    lemma_late_parts(r);
    assert(r.clock() == clock);
    let all = boot_exchanges(r);
    assert(identify(r).len() + repair(r).len() + sense(r).len() == at);
    assert(recall(r).len() == 3 && bring_up(r).len() == 11 && decide(r).len() > 0);
    lemma_item(all, recall(r), at, 0);
    lemma_item(all, recall(r), at, 1);
    lemma_item(all, recall(r), at, 2);
    lemma_bring_up_place(r, all, at + 3, pin);
}

/// The operations that bring the board up where they stand at the place `at`.
proof fn lemma_bring_up_place(r: Readings, all: Seq<Exchange>, at: int, pin: Pin)
    requires
        stands_at(all, bring_up(r), at),
        pin == (Pin {
            port: 1,
            number: if r.cache().version < 5 {
                8
            } else if r.cache().version < 8 {
                0
            } else {
                10
            },
        }),
    ensures
        all[at] == (Operation::SetOutput(pin), Answer::Done),
        all[at + 1] == (Operation::WritePin { pin, high: r.cache().version < 8 }, Answer::Done),
        all[at + 2] == (Operation::WriteRetained { index: 1, value: 0 }, Answer::Done),
        all[at + 3] == (
            Operation::ConfigurePin {
                pin: Pin { port: 0, number: 3 },
                function: PinFunction::Gpio,
                mode: PinMode::PullDown,
            },
            Answer::Done,
        ),
        all[at + 4] == (
            Operation::ConfigurePin {
                pin: Pin { port: 0, number: 6 },
                function: PinFunction::UsbConnect,
                mode: PinMode::Floating,
            },
            Answer::Done,
        ),
        all[at + 5] == (
            Operation::ConfigurePin {
                pin: Pin { port: 1, number: 17 },
                function: PinFunction::SerialReceive,
                mode: PinMode::Floating,
            },
            Answer::Done,
        ),
        all[at + 6] == (
            Operation::ConfigurePin {
                pin: Pin { port: 1, number: 18 },
                function: PinFunction::SerialTransmit,
                mode: PinMode::Floating,
            },
            Answer::Done,
        ),
        all[at + 7] == (
            Operation::ReadPin(Pin { port: 0, number: 3 }),
            Answer::Flag(r.usb_disconnected_later),
        ),
        all[at + 8] == (Operation::SetOutput(pin), Answer::Done),
        all[at + 9] == (
            Operation::WritePin {
                pin,
                high: (r.cache().version < 8) != r.usb_disconnected_later,
            },
            Answer::Done,
        ),
        all[at + 10] == (
            Operation::ReadEepromWord { address: 0x500, clock: r.clock() },
            Answer::EepromWord(r.staged),
        ),
{
    lemma_battery_in_numbers(r.cache().version, true);
    lemma_battery_in_numbers(r.cache().version, !r.usb_disconnected_later);
    lemma_item(all, bring_up(r), at, 0);
    lemma_item(all, bring_up(r), at, 1);
    lemma_item(all, bring_up(r), at, 2);
    lemma_item(all, bring_up(r), at, 3);
    lemma_item(all, bring_up(r), at, 4);
    lemma_item(all, bring_up(r), at, 5);
    lemma_item(all, bring_up(r), at, 6);
    lemma_item(all, bring_up(r), at, 7);
    lemma_item(all, bring_up(r), at, 8);
    lemma_item(all, bring_up(r), at, 9);
    lemma_item(all, bring_up(r), at, 10);
}

/// What a boot that goes on does with the word that it read at 0x500, from the
/// place `at` behind that reading on. If the word is not 0, it writes four zeros
/// there, performs as many operations on the flash as install the program staged
/// at that page, and starts the watchdog with the timeout 100; if it is 0, it does
/// nothing. In either case the request register is read next, at the place `request`.
pub proof fn lemma_boot_installs_in_order(r: Readings, clock: u32, page: u32, at: int, request: int)
    requires
        r.usb_disconnected || !r.brown_out,
        1024 * clock <= r.clock_rate < 1024 * (clock + 1),
        page == r.staged@[0] + 256 * r.staged@[1] + 0x1_0000 * r.staged@[2] + 0x100_0000
            * r.staged@[3],
        at == 19 + (if r.record@[0] == 0x5a && r.record@[1] == 0xa5 {
            0int
        } else {
            1int
        }) + (if r.usb_disconnected {
            0int
        } else {
            1int
        }),
        request == (if page == 0 {
            at
        } else {
            at + 10 + staged_operations(page, clock).len()
        }),
    ensures
        ({
            let all = boot_exchanges(r);
            let flash = staged_operations(page, clock);
            let watchdog = at + 1 + flash.len();
            &&& r.staged_page() == page
            &&& all.len() > request
            &&& all[request] == (Operation::ReadRetained { index: 0 }, Answer::Word(r.request))
            &&& page != 0 ==> {
                &&& all[at] == (
                    Operation::WriteEepromWord {
                        address: 0x500,
                        word: [0u8, 0u8, 0u8, 0u8],
                        clock,
                    },
                    Answer::Done,
                )
                &&& all[watchdog] == (
                    Operation::EnableClock(ClockedPart::Watchdog),
                    Answer::Done,
                )
                &&& all[watchdog + 1] == (
                    Operation::Watchdog(WatchdogOperation::ResetMode),
                    Answer::Done,
                )
                &&& all[watchdog + 2] == (
                    Operation::Watchdog(WatchdogOperation::ResetTimeout),
                    Answer::Done,
                )
                &&& all[watchdog + 3] == (
                    Operation::Watchdog(WatchdogOperation::WriteWarning(0xffff)),
                    Answer::Done,
                )
                &&& all[watchdog + 4] == (
                    Operation::Watchdog(WatchdogOperation::ResetWindow),
                    Answer::Done,
                )
                &&& all[watchdog + 5] == (
                    Operation::Watchdog(WatchdogOperation::WriteTimeout(100)),
                    Answer::Done,
                )
                &&& all[watchdog + 6] == (
                    Operation::Watchdog(WatchdogOperation::Run),
                    Answer::Done,
                )
                &&& all[watchdog + 7] == (
                    Operation::Watchdog(WatchdogOperation::Feed(0xaa)),
                    Answer::Done,
                )
                &&& all[watchdog + 8] == (
                    Operation::Watchdog(WatchdogOperation::Feed(0x55)),
                    Answer::Done,
                )
                &&& watchdog + 9 == request
            }
        }),
{
    lemma_install_place(r, clock, page, at);
    lemma_request_place(r, boot_exchanges(r), request);
    if page != 0 {
        lemma_watchdog_behind_install(r, boot_exchanges(r), clock, page, at);
    }
}

/// The reading of the request register where the last part stands at the place `at`.
proof fn lemma_request_place(r: Readings, all: Seq<Exchange>, at: int)
    requires
        stands_at(all, decide(r), at),
    ensures
        all.len() > at,
        all[at] == (Operation::ReadRetained { index: 0 }, Answer::Word(r.request)),
{
    lemma_item(all, decide(r), at, 0);
    reveal(stands_at);
}

/// The parts of an installation that stands at the place `at`, but for the
/// operations on the flash.
proof fn lemma_watchdog_behind_install(
    r: Readings,
    all: Seq<Exchange>,
    clock: u32,
    page: u32,
    at: int,
)
    requires
        r.clock() == clock,
        r.staged_page() == page,
        page != 0,
        stands_at(all, install(r), at),
    ensures
        ({
            let watchdog = at + 1 + staged_operations(page, clock).len();
            &&& all[at] == (
                Operation::WriteEepromWord { address: 0x500, word: [0u8, 0u8, 0u8, 0u8], clock },
                Answer::Done,
            )
            &&& all[watchdog] == (Operation::EnableClock(ClockedPart::Watchdog), Answer::Done)
            &&& all[watchdog + 1] == (
                Operation::Watchdog(WatchdogOperation::ResetMode),
                Answer::Done,
            )
            &&& all[watchdog + 2] == (
                Operation::Watchdog(WatchdogOperation::ResetTimeout),
                Answer::Done,
            )
            &&& all[watchdog + 3] == (
                Operation::Watchdog(WatchdogOperation::WriteWarning(0xffff)),
                Answer::Done,
            )
            &&& all[watchdog + 4] == (
                Operation::Watchdog(WatchdogOperation::ResetWindow),
                Answer::Done,
            )
            &&& all[watchdog + 5] == (
                Operation::Watchdog(WatchdogOperation::WriteTimeout(100)),
                Answer::Done,
            )
            &&& all[watchdog + 6] == (Operation::Watchdog(WatchdogOperation::Run), Answer::Done)
            &&& all[watchdog + 7] == (
                Operation::Watchdog(WatchdogOperation::Feed(0xaa)),
                Answer::Done,
            )
            &&& all[watchdog + 8] == (
                Operation::Watchdog(WatchdogOperation::Feed(0x55)),
                Answer::Done,
            )
        }),
{
    lemma_install_parts(r, all, clock, page, at);
    lemma_watchdog_place(all, at + 1 + staged_operations(page, clock).len());
}

/// Behind the operation that forgets the staged page, at the place `at`, a boot
/// that goes on performs the operations that install that program, one by one.
pub proof fn lemma_boot_installs_one_by_one(
    r: Readings,
    clock: u32,
    page: u32,
    at: int,
    i: int,
)
    requires
        r.usb_disconnected || !r.brown_out,
        1024 * clock <= r.clock_rate < 1024 * (clock + 1),
        page == r.staged@[0] + 256 * r.staged@[1] + 0x1_0000 * r.staged@[2] + 0x100_0000
            * r.staged@[3],
        page != 0,
        at == 19 + (if r.record@[0] == 0x5a && r.record@[1] == 0xa5 {
            0int
        } else {
            1int
        }) + (if r.usb_disconnected {
            0int
        } else {
            1int
        }),
        0 <= i < staged_operations(page, clock).len(),
    ensures
        boot_exchanges(r)[at + 1 + i] == (
            Operation::Flash(staged_operations(page, clock)[i]),
            Answer::Done,
        ),
{
    lemma_install_place(r, clock, page, at);
    let all = boot_exchanges(r);
    lemma_install_parts(r, all, clock, page, at);
    lemma_item(all, done(on_flash(staged_operations(page, clock))), at + 1, i);
}

/// The parts of an installation that stands at the place `at`.
proof fn lemma_install_parts(r: Readings, all: Seq<Exchange>, clock: u32, page: u32, at: int)
    requires
        r.clock() == clock,
        r.staged_page() == page,
        page != 0,
        stands_at(all, install(r), at),
    ensures
        ({
            let flash = staged_operations(page, clock);
            &&& all[at] == (
                Operation::WriteEepromWord { address: 0x500, word: [0u8, 0u8, 0u8, 0u8], clock },
                Answer::Done,
            )
            &&& stands_at(all, done(on_flash(flash)), at + 1)
            &&& stands_at(all, done(watchdog_operations(100)), at + 1 + flash.len())
        }),
{
    let forget = seq![(forget_staged(clock), Answer::Done)];
    let flash = done(on_flash(staged_operations(page, clock)));
    assert(word_bytes(0)@ =~= [0u8, 0u8, 0u8, 0u8]@);
    lemma_halves(all, forget + flash, done(watchdog_operations(100)), at);
    lemma_halves(all, forget, flash, at);
    lemma_item(all, forget, at, 0);
}

/// The nine operations of the watchdog where they stand at the place `at`.
proof fn lemma_watchdog_place(all: Seq<Exchange>, at: int)
    requires
        stands_at(all, done(watchdog_operations(100)), at),
    ensures
        all[at] == (Operation::EnableClock(ClockedPart::Watchdog), Answer::Done),
        all[at + 1] == (Operation::Watchdog(WatchdogOperation::ResetMode), Answer::Done),
        all[at + 2] == (Operation::Watchdog(WatchdogOperation::ResetTimeout), Answer::Done),
        all[at + 3] == (Operation::Watchdog(WatchdogOperation::WriteWarning(0xffff)), Answer::Done),
        all[at + 4] == (Operation::Watchdog(WatchdogOperation::ResetWindow), Answer::Done),
        all[at + 5] == (Operation::Watchdog(WatchdogOperation::WriteTimeout(100)), Answer::Done),
        all[at + 6] == (Operation::Watchdog(WatchdogOperation::Run), Answer::Done),
        all[at + 7] == (Operation::Watchdog(WatchdogOperation::Feed(0xaa)), Answer::Done),
        all[at + 8] == (Operation::Watchdog(WatchdogOperation::Feed(0x55)), Answer::Done),
{
    lemma_watchdog_in_numbers(100);
    let nine = done(watchdog_operations(100));
    lemma_item(all, nine, at, 0);
    lemma_item(all, nine, at, 1);
    lemma_item(all, nine, at, 2);
    lemma_item(all, nine, at, 3);
    lemma_item(all, nine, at, 4);
    lemma_item(all, nine, at, 5);
    lemma_item(all, nine, at, 6);
    lemma_item(all, nine, at, 7);
    lemma_item(all, nine, at, 8);
}

/// Where the last two parts of a boot that goes on stand.
proof fn lemma_install_place(r: Readings, clock: u32, page: u32, at: int)
    requires
        r.usb_disconnected || !r.brown_out,
        1024 * clock <= r.clock_rate < 1024 * (clock + 1),
        page == r.staged@[0] + 256 * r.staged@[1] + 0x1_0000 * r.staged@[2] + 0x100_0000
            * r.staged@[3],
        at == 19 + (if r.record@[0] == 0x5a && r.record@[1] == 0xa5 {
            0int
        } else {
            1int
        }) + (if r.usb_disconnected {
            0int
        } else {
            1int
        }),
    ensures
        r.clock() == clock,
        r.staged_page() == page,
        install(r).len() == (if page == 0 {
            0
        } else {
            10 + staged_operations(page, clock).len()
        }),
        boot_exchanges(r).len() == at + install(r).len() + decide(r).len(),
        decide(r).len() > 0,
        stands_at(boot_exchanges(r), install(r), at),
        stands_at(boot_exchanges(r), decide(r), at + install(r).len()),
{
    lemma_word_in_numbers(r.staged@);
    lemma_repair_in_numbers(r.record@);
    lemma_late_parts(r);
    lemma_watchdog_in_numbers(100);
    assert(identify(r).len() + repair(r).len() + sense(r).len() == at - 14);
    assert(recall(r).len() == 3 && bring_up(r).len() == 11);
}

/// Neither an operation on the flash nor one that starts the watchdog, nor the
/// reading of the request register.
spec fn plain(operation: Operation) -> bool {
    &&& !(operation is Flash)
    &&& !(operation is Watchdog)
    &&& operation != Operation::EnableClock(ClockedPart::Watchdog)
    &&& operation != Operation::ReadRetained { index: 0 }
}

proof fn lemma_plain_before_install(r: Readings, all: Seq<Exchange>, at: int, i: int)
    requires
        at == identify(r).len() + repair(r).len() + sense(r).len(),
        stands_at(all, identify(r), 0),
        stands_at(all, repair(r), identify(r).len() as int),
        stands_at(all, sense(r), (identify(r).len() + repair(r).len()) as int),
        stands_at(all, recall(r), at),
        stands_at(all, bring_up(r), at + 3),
        0 <= i < at + 14,
    ensures
        plain(all[i].0),
{
    let a = identify(r).len() as int;
    let b = a + repair(r).len();
    if i < a {
        lemma_item(all, identify(r), 0, i);
    } else if i < b {
        lemma_item(all, repair(r), a, i - a);
    } else if i < at {
        lemma_item(all, sense(r), b, i - b);
    } else if i < at + 3 {
        lemma_item(all, recall(r), at, i - at);
    } else {
        let k = i - at - 3;
        assert(bring_up(r).len() == 11);
        lemma_item(all, bring_up(r), at + 3, k);
        lemma_bring_up_plain(r, k);
    }
}

proof fn lemma_bring_up_plain(r: Readings, k: int)
    requires
        0 <= k < 11,
    ensures
        bring_up(r).len() == 11,
        plain(bring_up(r)[k].0),
{
}

proof fn lemma_watchdog_kinds(k: int)
    requires
        0 <= k < 9,
    ensures
        watchdog_operations(100).len() == 9,
        watchdog_operations(100)[k] is Watchdog || watchdog_operations(100)[k]
            == Operation::EnableClock(ClockedPart::Watchdog),
{
    lemma_watchdog_in_numbers(100);
}

proof fn lemma_install_in_order(
    flash: Seq<FlashOperation>,
    all: Seq<Exchange>,
    at: int,
    i: int,
)
    requires
        all[at].0 is WriteEepromWord,
        stands_at(all, done(on_flash(flash)), at + 1),
        stands_at(all, done(watchdog_operations(100)), at + 1 + flash.len()),
        at <= i < at + 10 + flash.len(),
    ensures
        i == at ==> plain(all[i].0),
        at < i < at + 1 + flash.len() ==> all[i].0 is Flash,
        at + 1 + flash.len() <= i ==> all[i].0 is Watchdog || all[i].0 == Operation::EnableClock(
            ClockedPart::Watchdog,
        ),
{
    if at < i < at + 1 + flash.len() {
        lemma_item(all, done(on_flash(flash)), at + 1, i - at - 1);
    } else if i > at {
        let k = i - at - 1 - flash.len();
        lemma_watchdog_kinds(k);
        lemma_item(all, done(watchdog_operations(100)), at + 1 + flash.len(), k);
    }
}

proof fn lemma_decide_in_order(r: Readings, all: Seq<Exchange>, at: int, i: int)
    requires
        stands_at(all, decide(r), at),
        at < i < at + decide(r).len(),
    ensures
        plain(all[i].0),
{
    lemma_item(all, decide(r), at, i - at);
}

/// In a boot that goes on, all operations on the flash stand behind the place `at`
/// where the staged page is forgotten and before the watchdog is started; all that
/// start the watchdog stand among the nine right before the place `request`; and that
/// is the only place where the request register is read. While nothing is staged,
/// there are none on the flash and none on the watchdog.
pub proof fn lemma_watchdog_behind_flash(
    r: Readings,
    clock: u32,
    page: u32,
    at: int,
    request: int,
    i: int,
)
    requires
        r.usb_disconnected || !r.brown_out,
        1024 * clock <= r.clock_rate < 1024 * (clock + 1),
        page == r.staged@[0] + 256 * r.staged@[1] + 0x1_0000 * r.staged@[2] + 0x100_0000
            * r.staged@[3],
        at == 19 + (if r.record@[0] == 0x5a && r.record@[1] == 0xa5 {
            0int
        } else {
            1int
        }) + (if r.usb_disconnected {
            0int
        } else {
            1int
        }),
        request == (if page == 0 {
            at
        } else {
            at + 10 + staged_operations(page, clock).len()
        }),
        0 <= i < boot_exchanges(r).len(),
    ensures
        boot_exchanges(r)[i].0 is Flash <==> page != 0 && at < i < request - 9,
        boot_exchanges(r)[i].0 is Watchdog || boot_exchanges(r)[i].0 == Operation::EnableClock(
            ClockedPart::Watchdog,
        ) <==> page != 0 && request - 9 <= i < request,
        boot_exchanges(r)[i].0 == (Operation::ReadRetained { index: 0 }) <==> i == request,
{
    lemma_parts(r);
    lemma_late_parts(r);
    lemma_repair_in_numbers(r.record@);
    lemma_install_place(r, clock, page, at);
    assert(identify(r).len() + repair(r).len() + sense(r).len() == at - 14);
    assert(recall(r).len() == 3);
    lemma_kinds_in_order(r, boot_exchanges(r), clock, page, at, request, i);
}

/// Where the parts of a boot that goes on stand decides where its operations on the
/// flash and on the watchdog stand, and where the request register is read.
proof fn lemma_kinds_in_order(
    r: Readings,
    all: Seq<Exchange>,
    clock: u32,
    page: u32,
    at: int,
    request: int,
    i: int,
)
    requires
        r.clock() == clock,
        r.staged_page() == page,
        at - 14 == identify(r).len() + repair(r).len() + sense(r).len(),
        stands_at(all, identify(r), 0),
        stands_at(all, repair(r), identify(r).len() as int),
        stands_at(all, sense(r), (identify(r).len() + repair(r).len()) as int),
        stands_at(all, recall(r), at - 14),
        stands_at(all, bring_up(r), at - 11),
        stands_at(all, install(r), at),
        stands_at(all, decide(r), request),
        all.len() == request + decide(r).len(),
        request == (if page == 0 {
            at
        } else {
            at + 10 + staged_operations(page, clock).len()
        }),
        0 <= i < all.len(),
    ensures
        all[i].0 is Flash <==> page != 0 && at < i < request - 9,
        all[i].0 is Watchdog || all[i].0 == Operation::EnableClock(ClockedPart::Watchdog) <==> page
            != 0 && request - 9 <= i < request,
        all[i].0 == (Operation::ReadRetained { index: 0 }) <==> i == request,
{
    if i < at {
        lemma_plain_before_install(r, all, at - 14, i);
    } else if i < request {
        lemma_install_parts(r, all, clock, page, at);
        lemma_install_in_order(staged_operations(page, clock), all, at, i);
    } else if i == request {
        lemma_request_place(r, all, request);
    } else {
        lemma_decide_in_order(r, all, request, i);
    }
}

/// How a boot that goes on ends, from the place `at` on where it reads the
/// request register. If that holds the signature, it is set to 0, and that is all.
/// If not, the word at 0x2024 is read; if the second program is to take over, the
/// mode register is then set to 1 and the clock of RAM1 is switched on.
pub proof fn lemma_boot_closes(
    r: Readings,
    clock: u32,
    page: u32,
    version: u32,
    at: int,
    starts: bool,
)
    requires
        r.usb_disconnected || !r.brown_out,
        1024 * clock <= r.clock_rate < 1024 * (clock + 1),
        page == r.staged@[0] + 256 * r.staged@[1] + 0x1_0000 * r.staged@[2] + 0x100_0000
            * r.staged@[3],
        version == (if r.record@[0] == 0x5a && r.record@[1] == 0xa5 {
            r.record@[4] + 256 * r.record@[5] + 0x1_0000 * r.record@[6] + 0x100_0000 * r.record@[7]
        } else {
            10
        }),
        at == 19 + (if r.record@[0] == 0x5a && r.record@[1] == 0xa5 {
            0int
        } else {
            1int
        }) + (if r.usb_disconnected {
            0int
        } else {
            1int
        }) + (if page == 0 {
            0int
        } else {
            10int + staged_operations(page, clock).len()
        }),
        starts == ((r.power_on || r.mode != 0) && r.request != 0xecaa_bac0 && r.signature
            == 0xecaa_bac0 && version != 0),
    ensures
        ({
            let all = boot_exchanges(r);
            &&& all[at] == (Operation::ReadRetained { index: 0 }, Answer::Word(r.request))
            &&& r.request == 0xecaa_bac0 ==> {
                &&& all.len() == at + 2
                &&& all[at + 1] == (Operation::WriteRetained { index: 0, value: 0 }, Answer::Done)
            }
            &&& r.request != 0xecaa_bac0 ==> {
                &&& all.len() == (if starts {
                    at + 4
                } else {
                    at + 2
                })
                &&& all[at + 1] == (
                    Operation::ReadMemory { address: 0x2024 },
                    Answer::Word(r.signature),
                )
            }
            &&& starts ==> {
                &&& all[at + 2] == (Operation::WriteRetained { index: 1, value: 1 }, Answer::Done)
                &&& all[at + 3] == (Operation::EnableClock(ClockedPart::Ram1), Answer::Done)
            }
        }),
{
    lemma_install_place(
        r,
        clock,
        page,
        19 + (if r.record@[0] == 0x5a && r.record@[1] == 0xa5 {
            0int
        } else {
            1int
        }) + (if r.usb_disconnected {
            0int
        } else {
            1int
        }),
    );
    lemma_brown_out_sleeps(r, version);
    let all = boot_exchanges(r);
    lemma_item(all, decide(r), at, 0);
    lemma_item(all, decide(r), at, 1);
    if starts {
        lemma_item(all, decide(r), at, 2);
        lemma_item(all, decide(r), at, 3);
    }
}

/// Each operation of these takes the answer that it gets.
#[verifier::opaque]
spec fn fits(exchanges: Seq<Exchange>) -> bool {
    forall|i: int| 0 <= i < exchanges.len() ==> (#[trigger] exchanges[i]).0.takes(exchanges[i].1)
}

proof fn lemma_fits_join(a: Seq<Exchange>, b: Seq<Exchange>)
    requires
        fits(a),
        fits(b),
    ensures
        fits(a + b),
{
    reveal(fits);
    assert forall|i: int| 0 <= i < (a + b).len() implies (#[trigger] (a + b)[i]).0.takes(
        (a + b)[i].1,
    ) by {
        assert((a + b)[i] == if i < a.len() {
            a[i]
        } else {
            b[i - a.len()]
        });
    }
}

proof fn lemma_fits_done(operations: Seq<Operation>)
    requires
        forall|i: int|
            0 <= i < operations.len() ==> (#[trigger] operations[i]).takes(Answer::Done),
    ensures
        fits(done(operations)),
{
    reveal(fits);
}

proof fn lemma_early_answers_fit(r: Readings)
    ensures
        fits(identify(r)),
        fits(repair(r)),
        fits(sense(r)),
        fits(give_up(r)),
        fits(recall(r)),
        fits(decide(r)),
{
    reveal(fits);
}

proof fn lemma_bring_up_answers_fit(r: Readings)
    ensures
        fits(bring_up(r)),
{
    reveal(fits);
}

proof fn lemma_install_answers_fit(r: Readings)
    ensures
        fits(install(r)),
{
    if r.staged_page() == 0 {
        reveal(fits);
    } else {
        let forget = seq![(forget_staged(r.clock()), Answer::Done)];
        let flash = on_flash(staged_operations(r.staged_page(), r.clock()));
        let watchdog = watchdog_operations(100);
        assert(fits(forget)) by {
            reveal(fits);
        }
        lemma_fits_done(flash);
        lemma_fits_done(watchdog);
        lemma_fits_join(forget, done(flash));
        lemma_fits_join(forget + done(flash), done(watchdog));
    }
}

/// Each operation of a boot takes the answer that it gets there.
pub proof fn lemma_answers_fit(r: Readings, i: int)
    requires
        0 <= i < boot_exchanges(r).len(),
    ensures
        boot_exchanges(r)[i].0.takes(boot_exchanges(r)[i].1),
{
    lemma_early_answers_fit(r);
    if !r.gives_up() {
        lemma_bring_up_answers_fit(r);
        lemma_install_answers_fit(r);
        lemma_fits_join(install(r), decide(r));
        lemma_fits_join(bring_up(r), install(r) + decide(r));
        lemma_fits_join(recall(r), bring_up(r) + (install(r) + decide(r)));
    }
    lemma_fits_join(sense(r), after_sensing(r));
    lemma_fits_join(repair(r), sense(r) + after_sensing(r));
    lemma_fits_join(identify(r), repair(r) + (sense(r) + after_sensing(r)));
    reveal(fits);
}

} // verus!
