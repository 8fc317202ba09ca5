//! The bootloader as a state machine.
//!
//! `Bootloader::next` tells what to do to the device, `Bootloader::answer` takes
//! what came of it. The machine allocates nothing and knows only what it was
//! told, so its next step is the one of every boot that began as this one did.

use vstd::prelude::*;

use crate::board::{Board, record_read, record_write};
use crate::boot::{
    Outcome, REQUEST_REGISTER, Readings, SIGNATURE, STAGED_ADDRESS, Step, WATCHDOG_TIMEOUT,
    after_sensing, boot_exchanges, boot_outcome, boot_step, bring_up, decide, forget_staged,
    give_up, identify, install, recall, repair, sense,
};
use crate::device::{Answer, ClockedPart, Exchange, Operation, done, on_flash};
use crate::eeprom::{EEPROM_MAGIC, word_from_bytes, word_to_bytes};
use crate::flash::{FlashOperation, Installation, staged_operations, weird_flash_function};
use crate::setup::{
    MODE_REGISTER, battery_operations, enter_programming_mode_on_reboot, is_usb_disconnected,
    mode_operation, pinmux_operations, set_battery_power, setup_pinmux, setup_watchdog,
    usb_operation, watchdog_operations,
};
use crate::vectors::{SIGNATURE_ADDRESS, program2_entry, start_program2};

verus! {

/// The operation that a boot is at. Where a fixed sequence is under way, the
/// number tells how far.
#[derive(Clone, Copy, Debug, PartialEq, Eq)]
enum Stage {
    InitializeSystem,
    ReadClock,
    ReadRecord,
    WriteRecord,
    EnableGpio,
    ReadUsb,
    ReadBrownOut,
    ClearBrownOut,
    CutBattery(usize),
    ReadPowerOn,
    ClearPowerOn,
    ReadMode,
    PowerUp(usize),
    ClaimInterrupts,
    ConnectPins(usize),
    ReadUsbAgain,
    SwitchBattery(bool, usize),
    ReadStaged,
    ForgetStaged(u32),
    Install(Installation, FlashOperation),
    StartWatchdog(usize),
    ReadRequest,
    ForgetRequest,
    ReadSignature,
    ReleaseInterrupts,
    EnableRam,
    Finished(Outcome),
}

/// How many of the readings were taken before `stage`.
spec fn rank(stage: Stage) -> int {
    match stage {
        Stage::InitializeSystem | Stage::ReadClock => 0,
        Stage::ReadRecord => 1,
        Stage::WriteRecord | Stage::EnableGpio | Stage::ReadUsb => 2,
        Stage::ReadBrownOut => 3,
        Stage::ClearBrownOut
        | Stage::CutBattery(_)
        | Stage::ReadPowerOn
        | Stage::Finished(Outcome::Sleep) => 4,
        Stage::ClearPowerOn | Stage::ReadMode => 5,
        Stage::PowerUp(_)
        | Stage::ClaimInterrupts
        | Stage::ConnectPins(_)
        | Stage::ReadUsbAgain => 6,
        Stage::SwitchBattery(_, _) | Stage::ReadStaged => 7,
        Stage::ForgetStaged(_)
        | Stage::Install(_, _)
        | Stage::StartWatchdog(_)
        | Stage::ReadRequest => 8,
        Stage::ForgetRequest | Stage::ReadSignature => 9,
        _ => 10,
    }
}

/// Whether `r` is as `seen` in all that was read before `stage`. What `seen`
/// holds of the other readings does not matter.
spec fn agrees(stage: Stage, seen: Readings, r: Readings) -> bool {
    &&& rank(stage) >= 1 ==> r.clock_rate == seen.clock_rate
    &&& rank(stage) >= 2 ==> r.record == seen.record
    &&& rank(stage) >= 3 ==> r.usb_disconnected == seen.usb_disconnected
    &&& rank(stage) >= 4 && !seen.usb_disconnected ==> r.brown_out == seen.brown_out
    &&& rank(stage) >= 5 ==> r.power_on == seen.power_on
    &&& rank(stage) >= 6 ==> r.mode == seen.mode
    &&& rank(stage) >= 7 ==> r.usb_disconnected_later == seen.usb_disconnected_later
    &&& rank(stage) >= 8 ==> r.staged == seen.staged
    &&& rank(stage) >= 9 ==> r.request == seen.request
    &&& rank(stage) >= 10 && seen.request != SIGNATURE ==> r.signature == seen.signature
}

/// `seen`, with `answer` taken in at `stage`.
spec fn taken_in(stage: Stage, seen: Readings, answer: Answer) -> Readings {
    match (stage, answer) {
        (Stage::ReadClock, Answer::Word(word)) => Readings { clock_rate: word, ..seen },
        (Stage::ReadRecord, Answer::EepromRecord(record)) => Readings { record, ..seen },
        (Stage::ReadUsb, Answer::Flag(flag)) => Readings { usb_disconnected: flag, ..seen },
        (Stage::ReadBrownOut, Answer::Flag(flag)) => Readings { brown_out: flag, ..seen },
        (Stage::ReadPowerOn, Answer::Flag(flag)) => Readings { power_on: flag, ..seen },
        (Stage::ReadMode, Answer::Word(word)) => Readings { mode: word, ..seen },
        (Stage::ReadUsbAgain, Answer::Flag(flag)) => Readings {
            usb_disconnected_later: flag,
            ..seen
        },
        (Stage::ReadStaged, Answer::EepromWord(word)) => Readings { staged: word, ..seen },
        (Stage::ReadRequest, Answer::Word(word)) => Readings { request: word, ..seen },
        (Stage::ReadSignature, Answer::Word(word)) => Readings { signature: word, ..seen },
        _ => seen,
    }
}

/// What is left of the boot `r` at `stage`.
spec fn rest(stage: Stage, r: Readings) -> Seq<Exchange> {
    match stage {
        Stage::InitializeSystem => boot_exchanges(r),
        Stage::ReadClock => identify(r).skip(1) + (repair(r) + (sense(r) + after_sensing(r))),
        Stage::ReadRecord => identify(r).skip(2) + (repair(r) + (sense(r) + after_sensing(r))),
        Stage::WriteRecord => repair(r) + (sense(r) + after_sensing(r)),
        Stage::EnableGpio => sense(r) + after_sensing(r),
        Stage::ReadUsb => sense(r).skip(1) + after_sensing(r),
        Stage::ReadBrownOut => sense(r).skip(2) + after_sensing(r),
        Stage::ClearBrownOut => give_up(r),
        Stage::CutBattery(i) => give_up(r).skip(1 + i),
        Stage::ReadPowerOn => recall(r) + (bring_up(r) + (install(r) + decide(r))),
        Stage::ClearPowerOn => recall(r).skip(1) + (bring_up(r) + (install(r) + decide(r))),
        Stage::ReadMode => recall(r).skip(2) + (bring_up(r) + (install(r) + decide(r))),
        Stage::PowerUp(i) => bring_up(r).skip(i as int) + (install(r) + decide(r)),
        Stage::ClaimInterrupts => bring_up(r).skip(2) + (install(r) + decide(r)),
        Stage::ConnectPins(i) => bring_up(r).skip(3 + i) + (install(r) + decide(r)),
        Stage::ReadUsbAgain => bring_up(r).skip(7) + (install(r) + decide(r)),
        Stage::SwitchBattery(_, i) => bring_up(r).skip(8 + i) + (install(r) + decide(r)),
        Stage::ReadStaged => bring_up(r).skip(10) + (install(r) + decide(r)),
        Stage::ForgetStaged(_) => install(r) + decide(r),
        Stage::Install(installation, _) => done(on_flash(installation.remaining())) + (done(
            watchdog_operations(WATCHDOG_TIMEOUT),
        ) + decide(r)),
        Stage::StartWatchdog(i) => done(watchdog_operations(WATCHDOG_TIMEOUT)).skip(i as int)
            + decide(r),
        Stage::ReadRequest => decide(r),
        Stage::ForgetRequest => decide(r).skip(1),
        Stage::ReadSignature => decide(r).skip(1),
        Stage::ReleaseInterrupts => decide(r).skip(2),
        Stage::EnableRam => decide(r).skip(3),
        Stage::Finished(_) => seq![],
    }
}

/// Whether a boot that read `seen` comes to `stage`, and `board` is what it
/// then knows of the board.
spec fn fits(stage: Stage, board: Board, seen: Readings) -> bool {
    &&& rank(stage) >= 1 ==> board.main_clock_freq == seen.clock_rate
    &&& rank(stage) >= 2 ==> board.eeprom_cache == seen.cache()
    &&& rank(stage) >= 5 ==> board.power_on == seen.power_on
    &&& rank(stage) >= 6 ==> board.mode == seen.mode
    &&& match stage {
        Stage::WriteRecord => seen.stored().magic != EEPROM_MAGIC,
        Stage::ReadBrownOut => !seen.usb_disconnected,
        Stage::ClearBrownOut => seen.gives_up(),
        Stage::CutBattery(i) => seen.gives_up() && i < 2,
        Stage::PowerUp(i) => !seen.gives_up() && i < 2,
        Stage::ConnectPins(i) => !seen.gives_up() && i < 4,
        Stage::SwitchBattery(state, i) => {
            &&& !seen.gives_up()
            &&& state == !seen.usb_disconnected_later
            &&& i < 2
        },
        Stage::ForgetStaged(page) => {
            &&& !seen.gives_up()
            &&& page == seen.staged_page()
            &&& page != 0
        },
        Stage::Install(installation, operation) => {
            &&& !seen.gives_up()
            &&& installation.wf()
            &&& installation.remaining().len() > 0
            &&& operation == installation.remaining()[0]
        },
        Stage::StartWatchdog(i) => !seen.gives_up() && i < 9,
        Stage::ForgetRequest => !seen.gives_up() && seen.request == SIGNATURE,
        Stage::ReadSignature => !seen.gives_up() && seen.request != SIGNATURE,
        Stage::ReleaseInterrupts | Stage::EnableRam => !seen.gives_up() && seen.starts_program2(),
        Stage::Finished(outcome) => outcome == boot_outcome(seen),
        _ => rank(stage) >= 4 ==> !seen.gives_up(),
    }
}

/// The operation that `stage` stands for.
spec fn due(stage: Stage, board: Board) -> Operation {
    let version = board.eeprom_cache.version;
    let clock = board.clock();
    match stage {
        Stage::InitializeSystem => Operation::InitializeSystem,
        Stage::ReadClock => Operation::ReadMainClockRate,
        Stage::ReadRecord => record_read(clock),
        Stage::WriteRecord => record_write(board.eeprom_cache, clock),
        Stage::EnableGpio => Operation::EnableClock(ClockedPart::Gpio),
        Stage::ReadUsb | Stage::ReadUsbAgain => usb_operation(),
        Stage::ReadBrownOut => Operation::ReadBrownOut,
        Stage::ClearBrownOut => Operation::ClearBrownOut,
        Stage::CutBattery(i) => battery_operations(version, false)[i as int],
        Stage::ReadPowerOn => Operation::ReadPowerOn,
        Stage::ClearPowerOn => Operation::ClearPowerOn,
        Stage::ReadMode => Operation::ReadRetained { index: MODE_REGISTER },
        Stage::PowerUp(i) => battery_operations(version, true)[i as int],
        Stage::ClaimInterrupts => mode_operation(true),
        Stage::ConnectPins(i) => pinmux_operations()[i as int],
        Stage::SwitchBattery(state, i) => battery_operations(version, state)[i as int],
        Stage::ReadStaged => Operation::ReadEepromWord { address: STAGED_ADDRESS, clock },
        Stage::ForgetStaged(_) => forget_staged(clock),
        Stage::Install(_, operation) => Operation::Flash(operation),
        Stage::StartWatchdog(i) => watchdog_operations(WATCHDOG_TIMEOUT)[i as int],
        Stage::ReadRequest => Operation::ReadRetained { index: REQUEST_REGISTER },
        Stage::ForgetRequest => Operation::WriteRetained { index: REQUEST_REGISTER, value: 0 },
        Stage::ReadSignature => Operation::ReadMemory { address: SIGNATURE_ADDRESS },
        Stage::ReleaseInterrupts => mode_operation(false),
        Stage::EnableRam => Operation::EnableClock(ClockedPart::Ram1),
        Stage::Finished(_) => arbitrary(),
    }
}

/// The answer that the boot `r` gets at `stage`.
spec fn reply(stage: Stage, r: Readings) -> Answer {
    match stage {
        Stage::ReadClock => Answer::Word(r.clock_rate),
        Stage::ReadRecord => Answer::EepromRecord(r.record),
        Stage::ReadUsb => Answer::Flag(r.usb_disconnected),
        Stage::ReadBrownOut => Answer::Flag(r.brown_out),
        Stage::ReadPowerOn => Answer::Flag(r.power_on),
        Stage::ReadMode => Answer::Word(r.mode),
        Stage::ReadUsbAgain => Answer::Flag(r.usb_disconnected_later),
        Stage::ReadStaged => Answer::EepromWord(r.staged),
        Stage::ReadRequest => Answer::Word(r.request),
        Stage::ReadSignature => Answer::Word(r.signature),
        _ => Answer::Done,
    }
}

/// What is left of a boot before the board is brought up begins with the operation
/// that is due.
proof fn lemma_due_early(stage: Stage, board: Board, seen: Readings, r: Readings)
    requires
        fits(stage, board, seen),
        agrees(stage, seen, r),
        !(stage is Finished),
        rank(stage) < 6,
    ensures
        rest(stage, r).len() > 0,
        rest(stage, r)[0] == (due(stage, board), reply(stage, r)),
{
}

/// What is left of a boot while the board is brought up begins with the operation
/// that is due.
proof fn lemma_due_bring_up(stage: Stage, board: Board, seen: Readings, r: Readings)
    requires
        fits(stage, board, seen),
        agrees(stage, seen, r),
        !(stage is Finished),
        rank(stage) == 6 || rank(stage) == 7,
    ensures
        rest(stage, r).len() > 0,
        rest(stage, r)[0] == (due(stage, board), reply(stage, r)),
{
    lemma_bring_up(r);
}

/// What is left of a boot after the board was brought up begins with the operation
/// that is due.
proof fn lemma_due_late(stage: Stage, board: Board, seen: Readings, r: Readings)
    requires
        fits(stage, board, seen),
        agrees(stage, seen, r),
        !(stage is Finished),
        rank(stage) > 7,
    ensures
        rest(stage, r).len() > 0,
        rest(stage, r)[0] == (due(stage, board), reply(stage, r)),
{
}

/// What is left of a boot begins with the operation that is due.
proof fn lemma_due(stage: Stage, board: Board, seen: Readings, r: Readings)
    requires
        fits(stage, board, seen),
        agrees(stage, seen, r),
        !(stage is Finished),
    ensures
        rest(stage, r).len() > 0,
        rest(stage, r)[0] == (due(stage, board), reply(stage, r)),
{
    if rank(stage) < 6 {
        lemma_due_early(stage, board, seen, r);
    } else if rank(stage) <= 7 {
        lemma_due_bring_up(stage, board, seen, r);
    } else {
        lemma_due_late(stage, board, seen, r);
    }
}

/// What is left of a boot is as `stage` says.
proof fn lemma_step(stage: Stage, board: Board, seen: Readings, r: Readings)
    requires
        fits(stage, board, seen),
        agrees(stage, seen, r),
    ensures
        rest(stage, r).len() == 0 <==> stage is Finished,
        rest(stage, r).len() > 0 ==> rest(stage, r)[0] == (due(stage, board), reply(stage, r)),
        stage matches Stage::Finished(outcome) ==> outcome == boot_outcome(r),
{
    if !(stage is Finished) {
        lemma_due(stage, board, seen, r);
    }
}

/// The exchanges while the board is brought up, one by one.
proof fn lemma_bring_up(r: Readings)
    ensures
        bring_up(r).len() == 11,
        forall|i: int|
            0 <= i < 2 ==> #[trigger] bring_up(r)[i] == (
                battery_operations(r.cache().version, true)[i],
                Answer::Done,
            ),
        bring_up(r)[2] == (mode_operation(true), Answer::Done),
        forall|i: int|
            0 <= i < 4 ==> #[trigger] bring_up(r)[3 + i] == (
                pinmux_operations()[i],
                Answer::Done,
            ),
        bring_up(r)[7] == (usb_operation(), Answer::Flag(r.usb_disconnected_later)),
        forall|i: int|
            0 <= i < 2 ==> #[trigger] bring_up(r)[8 + i] == (
                battery_operations(r.cache().version, !r.usb_disconnected_later)[i],
                Answer::Done,
            ),
        bring_up(r)[10] == (
            Operation::ReadEepromWord { address: STAGED_ADDRESS, clock: r.clock() },
            Answer::EepromWord(r.staged),
        ),
{
}

/// The step that `stage` stands for.
fn step_at(stage: Stage, board: Board, seen: Ghost<Readings>) -> (step: Step)
    requires
        fits(stage, board, seen@),
    ensures
        step == (match stage {
            Stage::Finished(outcome) => Step::Finish(outcome),
            _ => Step::Perform(due(stage, board)),
        }),
{
    let version: u32 = board.eeprom_cache.version;
    let clock: u32 = board.programming_clock();
    match stage {
        Stage::InitializeSystem => Step::Perform(Operation::InitializeSystem),
        Stage::ReadClock => Step::Perform(Operation::ReadMainClockRate),
        Stage::ReadRecord => Step::Perform(board.read_eeprom_record()),
        Stage::WriteRecord => Step::Perform(board.write_eeprom_cache()),
        Stage::EnableGpio => Step::Perform(Operation::EnableClock(ClockedPart::Gpio)),
        Stage::ReadUsb => Step::Perform(is_usb_disconnected()),
        Stage::ReadBrownOut => Step::Perform(Operation::ReadBrownOut),
        Stage::ClearBrownOut => Step::Perform(Operation::ClearBrownOut),
        Stage::CutBattery(i) => Step::Perform(set_battery_power(version, false)[i]),
        Stage::ReadPowerOn => Step::Perform(Operation::ReadPowerOn),
        Stage::ClearPowerOn => Step::Perform(Operation::ClearPowerOn),
        Stage::ReadMode => Step::Perform(Operation::ReadRetained { index: MODE_REGISTER }),
        Stage::PowerUp(i) => Step::Perform(set_battery_power(version, true)[i]),
        Stage::ClaimInterrupts => Step::Perform(enter_programming_mode_on_reboot(true)),
        Stage::ConnectPins(i) => Step::Perform(setup_pinmux()[i]),
        Stage::ReadUsbAgain => Step::Perform(is_usb_disconnected()),
        Stage::SwitchBattery(state, i) => Step::Perform(set_battery_power(version, state)[i]),
        Stage::ReadStaged => Step::Perform(
            Operation::ReadEepromWord { address: STAGED_ADDRESS, clock },
        ),
        Stage::ForgetStaged(_) => Step::Perform(
            Operation::WriteEepromWord {
                address: STAGED_ADDRESS,
                word: word_to_bytes(0),
                clock,
            },
        ),
        Stage::Install(_, operation) => Step::Perform(Operation::Flash(operation)),
        Stage::StartWatchdog(i) => Step::Perform(setup_watchdog(WATCHDOG_TIMEOUT)[i]),
        Stage::ReadRequest => Step::Perform(
            Operation::ReadRetained { index: REQUEST_REGISTER },
        ),
        Stage::ForgetRequest => Step::Perform(
            Operation::WriteRetained { index: REQUEST_REGISTER, value: 0 },
        ),
        Stage::ReadSignature => Step::Perform(
            Operation::ReadMemory { address: SIGNATURE_ADDRESS },
        ),
        Stage::ReleaseInterrupts => Step::Perform(enter_programming_mode_on_reboot(false)),
        Stage::EnableRam => Step::Perform(Operation::EnableClock(ClockedPart::Ram1)),
        Stage::Finished(outcome) => Step::Finish(outcome),
    }
}

/// Whether `next` installs what is left of a staged program.
spec fn installs(next: Stage, left: Seq<FlashOperation>) -> bool {
    if left.len() == 0 {
        next == Stage::StartWatchdog(0)
    } else {
        next matches Stage::Install(installation, operation) && {
            &&& installation.wf()
            &&& installation.remaining() == left
            &&& operation == left[0]
        }
    }
}

/// Whether a boot that read `seen` goes from `stage` to `next`.
spec fn leads_to(stage: Stage, seen: Readings, next: Stage) -> bool {
    match stage {
        Stage::InitializeSystem => next == Stage::ReadClock,
        Stage::ReadClock => next == Stage::ReadRecord,
        Stage::ReadRecord => next == if seen.stored().magic == EEPROM_MAGIC {
            Stage::EnableGpio
        } else {
            Stage::WriteRecord
        },
        Stage::WriteRecord => next == Stage::EnableGpio,
        Stage::EnableGpio => next == Stage::ReadUsb,
        Stage::ReadUsb => next == if seen.usb_disconnected {
            Stage::ReadPowerOn
        } else {
            Stage::ReadBrownOut
        },
        Stage::ReadBrownOut => next == if seen.brown_out {
            Stage::ClearBrownOut
        } else {
            Stage::ReadPowerOn
        },
        Stage::ClearBrownOut => next == Stage::CutBattery(0),
        Stage::CutBattery(i) => next == if i == 0 {
            Stage::CutBattery(1)
        } else {
            Stage::Finished(Outcome::Sleep)
        },
        Stage::ReadPowerOn => next == Stage::ClearPowerOn,
        Stage::ClearPowerOn => next == Stage::ReadMode,
        Stage::ReadMode => next == Stage::PowerUp(0),
        Stage::PowerUp(i) => next == if i == 0 {
            Stage::PowerUp(1)
        } else {
            Stage::ClaimInterrupts
        },
        Stage::ClaimInterrupts => next == Stage::ConnectPins(0),
        Stage::ConnectPins(i) => next == if i < 3 {
            Stage::ConnectPins((i + 1) as usize)
        } else {
            Stage::ReadUsbAgain
        },
        Stage::ReadUsbAgain => next == Stage::SwitchBattery(!seen.usb_disconnected_later, 0),
        Stage::SwitchBattery(state, i) => next == if i == 0 {
            Stage::SwitchBattery(state, 1)
        } else {
            Stage::ReadStaged
        },
        Stage::ReadStaged => next == if seen.staged_page() == 0 {
            Stage::ReadRequest
        } else {
            Stage::ForgetStaged(seen.staged_page())
        },
        Stage::ForgetStaged(page) => installs(next, staged_operations(page, seen.clock())),
        Stage::Install(installation, _) => installs(next, installation.remaining().drop_first()),
        Stage::StartWatchdog(i) => next == if i < 8 {
            Stage::StartWatchdog((i + 1) as usize)
        } else {
            Stage::ReadRequest
        },
        Stage::ReadRequest => next == if seen.request == SIGNATURE {
            Stage::ForgetRequest
        } else {
            Stage::ReadSignature
        },
        Stage::ForgetRequest => next == Stage::Finished(Outcome::EnterProgrammingMode),
        Stage::ReadSignature => next == if seen.starts_program2() {
            Stage::ReleaseInterrupts
        } else {
            Stage::Finished(Outcome::EnterProgrammingMode)
        },
        Stage::ReleaseInterrupts => next == Stage::EnableRam,
        Stage::EnableRam => next == Stage::Finished(Outcome::StartProgram2(program2_entry())),
        Stage::Finished(_) => false,
    }
}

/// Going on in a section of a boot drops the first exchange, and the end of a
/// section is the start of what follows.
proof fn lemma_section(section: Seq<Exchange>, i: int, tail: Seq<Exchange>)
    requires
        0 <= i < section.len(),
    ensures
        (section.skip(i) + tail).drop_first() == section.skip(i + 1) + tail,
        section.skip(i).drop_first() == section.skip(i + 1),
        section.skip(0) == section,
        section.skip(section.len() as int) + tail == tail,
        section.skip(section.len() as int) == Seq::<Exchange>::empty(),
{
    assert((section.skip(i) + tail).drop_first() =~= section.skip(i + 1) + tail);
    assert(section.skip(i).drop_first() =~= section.skip(i + 1));
    assert(section.skip(0) =~= section);
    assert(section.skip(section.len() as int) + tail =~= tail);
    assert(section.skip(section.len() as int) =~= Seq::<Exchange>::empty());
}

/// After an answer, the boots that are still possible are those that give it.
proof fn lemma_answer(
    stage: Stage,
    board: Board,
    seen: Readings,
    answer: Answer,
    next: Stage,
    r: Readings,
)
    requires
        fits(stage, board, seen),
        due(stage, board).takes(answer),
        leads_to(stage, taken_in(stage, seen, answer), next),
    ensures
        agrees(next, taken_in(stage, seen, answer), r) <==> {
            &&& agrees(stage, seen, r)
            &&& reply(stage, r) == answer
        },
{
}

/// What is left of a boot up to the point where it may give up.
proof fn lemma_rest_early(stage: Stage, board: Board, seen: Readings, next: Stage, r: Readings)
    requires
        rank(stage) <= 3,
        fits(stage, board, seen),
        leads_to(stage, seen, next),
        agrees(next, seen, r),
    ensures
        rest(next, r) == rest(stage, r).drop_first(),
{
    let sensed = sense(r) + after_sensing(r);
    let tail = repair(r) + sensed;
    match stage {
        Stage::InitializeSystem => lemma_section(identify(r), 0, tail),
        Stage::ReadClock => lemma_section(identify(r), 1, tail),
        Stage::ReadRecord => {
            lemma_section(identify(r), 2, tail);
            if r.stored().magic == EEPROM_MAGIC {
                assert(tail =~= sensed);
            }
        },
        Stage::WriteRecord => lemma_section(repair(r), 0, sensed),
        Stage::EnableGpio => lemma_section(sense(r), 0, after_sensing(r)),
        Stage::ReadUsb => lemma_section(sense(r), 1, after_sensing(r)),
        Stage::ReadBrownOut => lemma_section(sense(r), 2, after_sensing(r)),
        _ => {},
    }
}

/// What is left of a boot while it gives up.
proof fn lemma_rest_give_up(stage: Stage, board: Board, seen: Readings, next: Stage, r: Readings)
    requires
        stage is ClearBrownOut || stage is CutBattery,
        fits(stage, board, seen),
        leads_to(stage, seen, next),
        agrees(next, seen, r),
    ensures
        rest(next, r) == rest(stage, r).drop_first(),
{
    match stage {
        Stage::ClearBrownOut => lemma_section(give_up(r), 0, seq![]),
        Stage::CutBattery(i) => lemma_section(give_up(r), 1 + i, seq![]),
        _ => {},
    }
}

/// What is left of a boot while the board is brought up.
proof fn lemma_rest_bring_up(stage: Stage, board: Board, seen: Readings, next: Stage, r: Readings)
    requires
        4 <= rank(stage) <= 7,
        !(stage is Finished),
        !(stage is ClearBrownOut),
        !(stage is CutBattery),
        fits(stage, board, seen),
        leads_to(stage, seen, next),
        agrees(next, seen, r),
    ensures
        rest(next, r) == rest(stage, r).drop_first(),
{
    let tail = install(r) + decide(r);
    lemma_bring_up(r);
    match stage {
        Stage::ReadPowerOn => lemma_section(recall(r), 0, bring_up(r) + tail),
        Stage::ClearPowerOn => lemma_section(recall(r), 1, bring_up(r) + tail),
        Stage::ReadMode => {
            lemma_section(recall(r), 2, bring_up(r) + tail);
            lemma_section(bring_up(r), 0, tail);
        },
        Stage::PowerUp(i) => lemma_section(bring_up(r), i as int, tail),
        Stage::ClaimInterrupts => lemma_section(bring_up(r), 2, tail),
        Stage::ConnectPins(i) => lemma_section(bring_up(r), 3 + i, tail),
        Stage::ReadUsbAgain => lemma_section(bring_up(r), 7, tail),
        Stage::SwitchBattery(_, i) => lemma_section(bring_up(r), 8 + i, tail),
        Stage::ReadStaged => {
            lemma_section(bring_up(r), 10, tail);
            if r.staged_page() == 0 {
                assert(tail =~= decide(r));
            }
        },
        _ => {},
    }
}

/// What is left of a boot while it installs a staged program.
proof fn lemma_rest_install(stage: Stage, board: Board, seen: Readings, next: Stage, r: Readings)
    requires
        stage is ForgetStaged || stage is Install || stage is StartWatchdog,
        fits(stage, board, seen),
        leads_to(stage, seen, next),
        agrees(next, seen, r),
    ensures
        rest(next, r) == rest(stage, r).drop_first(),
{
    let watchdog = done(watchdog_operations(WATCHDOG_TIMEOUT));
    lemma_section(watchdog, 0, decide(r));
    match stage {
        Stage::ForgetStaged(page) => {
            let flash = staged_operations(page, seen.clock());
            assert(rest(stage, r).drop_first() =~= done(on_flash(flash)) + (watchdog + decide(r)));
            if flash.len() == 0 {
                assert(done(on_flash(flash)) + (watchdog + decide(r)) =~= watchdog + decide(r));
            }
        },
        Stage::Install(installation, _) => {
            let flash = installation.remaining();
            assert(done(on_flash(flash)).drop_first() =~= done(on_flash(flash.drop_first())));
            assert(rest(stage, r).drop_first() =~= done(on_flash(flash.drop_first())) + (watchdog
                + decide(r)));
            if flash.len() == 1 {
                assert(done(on_flash(flash.drop_first())) + (watchdog + decide(r)) =~= watchdog
                    + decide(r));
            }
        },
        Stage::StartWatchdog(i) => lemma_section(watchdog, i as int, decide(r)),
        _ => {},
    }
}

/// What is left of a boot while it is decided which program takes over.
proof fn lemma_rest_decide(stage: Stage, board: Board, seen: Readings, next: Stage, r: Readings)
    requires
        stage is ReadRequest || rank(stage) >= 9,
        !(stage is Finished),
        fits(stage, board, seen),
        leads_to(stage, seen, next),
        agrees(next, seen, r),
    ensures
        rest(next, r) == rest(stage, r).drop_first(),
{
    match stage {
        Stage::ReadRequest => lemma_section(decide(r), 0, seq![]),
        Stage::ForgetRequest => lemma_section(decide(r), 1, seq![]),
        Stage::ReadSignature => lemma_section(decide(r), 1, seq![]),
        Stage::ReleaseInterrupts => lemma_section(decide(r), 2, seq![]),
        Stage::EnableRam => lemma_section(decide(r), 3, seq![]),
        _ => {},
    }
}

/// After an answer, the boots that are still possible are those that give it,
/// and what is left of them is what was left before, without its first exchange.
proof fn lemma_leads_to(
    stage: Stage,
    board: Board,
    seen: Readings,
    answer: Answer,
    next: Stage,
    r: Readings,
)
    requires
        fits(stage, board, seen),
        due(stage, board).takes(answer),
        leads_to(stage, taken_in(stage, seen, answer), next),
    ensures
        agrees(next, taken_in(stage, seen, answer), r) <==> {
            &&& agrees(stage, seen, r)
            &&& reply(stage, r) == answer
        },
        agrees(next, taken_in(stage, seen, answer), r) ==> rest(next, r) == rest(
            stage,
            r,
        ).drop_first(),
{
    let now = taken_in(stage, seen, answer);
    lemma_answer(stage, board, seen, answer, next, r);
    if agrees(next, now, r) {
        if rank(stage) <= 3 {
            lemma_rest_early(stage, board, now, next, r);
        } else if stage is ClearBrownOut || stage is CutBattery {
            lemma_rest_give_up(stage, board, now, next, r);
        } else if rank(stage) <= 7 {
            lemma_rest_bring_up(stage, board, now, next, r);
        } else if stage is ReadRequest || rank(stage) >= 9 {
            lemma_rest_decide(stage, board, now, next, r);
        } else {
            lemma_rest_install(stage, board, now, next, r);
        }
    }
}

/// The stage at which what is left of an installation is done.
fn installing(installation: Installation) -> (next: Stage)
    requires
        installation.wf(),
    ensures
        installs(next, installation.remaining()),
{
    match installation.operation() {
        Some(operation) => Stage::Install(installation, operation),
        None => Stage::StartWatchdog(0),
    }
}

/// The stage after `stage` when `answer` came, and what is then known of the
/// board; nothing if the answer does not fit.
fn stage_after(stage: Stage, board: Board, answer: Answer, seen: Ghost<Readings>) -> (result:
    Option<(Stage, Board)>)
    requires
        fits(stage, board, seen@),
    ensures
        result is Some <==> !(stage is Finished) && due(stage, board).takes(answer),
        result matches Some((next, known)) ==> {
            let now = taken_in(stage, seen@, answer);
            &&& leads_to(stage, now, next)
            &&& fits(next, known, now)
        },
{
    let mut known: Board = board;
    let next: Stage = match (stage, answer) {
        (Stage::InitializeSystem, Answer::Done) => Stage::ReadClock,
        (Stage::ReadClock, Answer::Word(rate)) => {
            known.initialize_main_clock_freq(rate);
            Stage::ReadRecord
        },
        (Stage::ReadRecord, Answer::EepromRecord(record)) => {
            match known.check_eeprom_magic(record) {
                Some(_) => Stage::WriteRecord,
                None => Stage::EnableGpio,
            }
        },
        (Stage::WriteRecord, Answer::Done) => Stage::EnableGpio,
        (Stage::EnableGpio, Answer::Done) => Stage::ReadUsb,
        (Stage::ReadUsb, Answer::Flag(usb_disconnected)) => if usb_disconnected {
            Stage::ReadPowerOn
        } else {
            Stage::ReadBrownOut
        },
        (Stage::ReadBrownOut, Answer::Flag(brown_out)) => if brown_out {
            Stage::ClearBrownOut
        } else {
            Stage::ReadPowerOn
        },
        (Stage::ClearBrownOut, Answer::Done) => Stage::CutBattery(0),
        (Stage::CutBattery(i), Answer::Done) => if i == 0 {
            Stage::CutBattery(1)
        } else {
            Stage::Finished(Outcome::Sleep)
        },
        (Stage::ReadPowerOn, Answer::Flag(power_on)) => {
            known.power_on = power_on;
            Stage::ClearPowerOn
        },
        (Stage::ClearPowerOn, Answer::Done) => Stage::ReadMode,
        (Stage::ReadMode, Answer::Word(mode)) => {
            known.mode = mode;
            Stage::PowerUp(0)
        },
        (Stage::PowerUp(i), Answer::Done) => if i == 0 {
            Stage::PowerUp(1)
        } else {
            Stage::ClaimInterrupts
        },
        (Stage::ClaimInterrupts, Answer::Done) => Stage::ConnectPins(0),
        (Stage::ConnectPins(i), Answer::Done) => if i < 3 {
            Stage::ConnectPins(i + 1)
        } else {
            Stage::ReadUsbAgain
        },
        (Stage::ReadUsbAgain, Answer::Flag(usb_disconnected)) => Stage::SwitchBattery(
            !usb_disconnected,
            0,
        ),
        (Stage::SwitchBattery(state, i), Answer::Done) => if i == 0 {
            Stage::SwitchBattery(state, 1)
        } else {
            Stage::ReadStaged
        },
        (Stage::ReadStaged, Answer::EepromWord(word)) => {
            let page: u32 = word_from_bytes(word);
            if page != 0 {
                Stage::ForgetStaged(page)
            } else {
                Stage::ReadRequest
            }
        },
        (Stage::ForgetStaged(page), Answer::Done) => installing(
            weird_flash_function(page, board.programming_clock()),
        ),
        (Stage::Install(installation, _), Answer::Done) => {
            let mut rest_of_it: Installation = installation;
            rest_of_it.advance();
            installing(rest_of_it)
        },
        (Stage::StartWatchdog(i), Answer::Done) => if i < 8 {
            Stage::StartWatchdog(i + 1)
        } else {
            Stage::ReadRequest
        },
        (Stage::ReadRequest, Answer::Word(request)) => if request == SIGNATURE {
            Stage::ForgetRequest
        } else {
            Stage::ReadSignature
        },
        (Stage::ForgetRequest, Answer::Done) => Stage::Finished(Outcome::EnterProgrammingMode),
        (Stage::ReadSignature, Answer::Word(signature)) => if (board.power_on || board.mode != 0)
            && signature == SIGNATURE && board.eeprom_cache.version != 0 {
            Stage::ReleaseInterrupts
        } else {
            Stage::Finished(Outcome::EnterProgrammingMode)
        },
        (Stage::ReleaseInterrupts, Answer::Done) => Stage::EnableRam,
        (Stage::EnableRam, Answer::Done) => Stage::Finished(
            Outcome::StartProgram2(start_program2()),
        ),
        _ => {
            return None;
        },
    };
    Some((next, known))
}

/// A sequence that begins with `past` begins with one more item, if it is the
/// next one.
proof fn lemma_one_more(
    all: Seq<Exchange>,
    past: Seq<Exchange>,
    left: Seq<Exchange>,
    item: Exchange,
)
    ensures
        past.push(item).is_prefix_of(all) ==> past.is_prefix_of(all),
        all == past + left && left.len() > 0 ==> {
            &&& past.push(item).is_prefix_of(all) <==> left[0] == item
            &&& left[0] == item ==> all == past.push(item) + left.drop_first()
        },
{
    if past.push(item).is_prefix_of(all) {
        assert(past =~= all.subrange(0, past.len() as int)) by {
            assert forall|i: int| 0 <= i < past.len() implies past[i] == all[i] by {
                assert(past.push(item)[i] == all.subrange(0, past.len() as int + 1)[i]);
            }
        }
        let n = past.len() as int;
        assert(past.push(item)[n] == all.subrange(0, n + 1)[n]);
    }
    if all == past + left && left.len() > 0 && left[0] == item {
        assert(past.push(item) =~= all.subrange(0, past.len() as int + 1));
        assert(all =~= past.push(item) + left.drop_first());
    }
}

/// The bootloader under way.
pub struct Bootloader {
    stage: Stage,
    board: Board,
    /// The operations that were performed, with their answers.
    past: Ghost<Seq<Exchange>>,
    /// What was read so far.
    seen: Ghost<Readings>,
}

impl Bootloader {
    #[verifier::type_invariant]
    spec fn inv(self) -> bool {
        &&& fits(self.stage, self.board, self.seen@)
        &&& forall|r: Readings|
            #![trigger boot_exchanges(r)]
            {
                &&& self.begins(r) <==> agrees(self.stage, self.seen@, r)
                &&& agrees(self.stage, self.seen@, r) ==> boot_exchanges(r) == self.past@ + rest(
                    self.stage,
                    r,
                )
            }
    }

    /// The operations that were performed, with their answers.
    pub closed spec fn past(self) -> Seq<Exchange> {
        self.past@
    }

    /// Whether the boot `r` begins as this one did.
    pub open spec fn begins(self, r: Readings) -> bool {
        self.past().is_prefix_of(boot_exchanges(r))
    }

    /// What comes next.
    pub closed spec fn current(self) -> Step {
        boot_step(self.seen@, self.past@.len() as int)
    }

    /// A boot of which nothing was done yet.
    pub fn new() -> (bootloader: Bootloader)
        ensures
            bootloader.past() == Seq::<Exchange>::empty(),
    {
        let ghost seen: Readings = arbitrary();
        let ghost past: Seq<Exchange> = seq![];
        proof {
            assert forall|r: Readings| #[trigger] boot_exchanges(r) == past + rest(
                Stage::InitializeSystem,
                r,
            ) by {
                assert(past + rest(Stage::InitializeSystem, r) =~= boot_exchanges(r));
            }
            assert forall|r: Readings| past.is_prefix_of(#[trigger] boot_exchanges(r)) by {
                assert(past =~= boot_exchanges(r).subrange(0, 0));
            }
        }
        Bootloader {
            stage: Stage::InitializeSystem,
            board: Board::new(),
            past: Ghost(past),
            seen: Ghost(seen),
        }
    }

    /// What to do next: the next operation, or the end, of every boot that
    /// begins as this one did, and there is such a boot.
    pub fn next(&self) -> (step: Step)
        ensures
            step == self.current(),
            exists|r: Readings| self.begins(r),
            forall|r: Readings| #[trigger]
                self.begins(r) ==> step == boot_step(r, self.past().len() as int),
            forall|r: Readings|
                self.past().is_prefix_of(#[trigger] boot_exchanges(r)) ==> {
                    let n = self.past().len() as int;
                    &&& n < boot_exchanges(r).len() ==> step == Step::Perform(
                        boot_exchanges(r)[n].0,
                    )
                    &&& n >= boot_exchanges(r).len() ==> step == Step::Finish(boot_outcome(r))
                },
    {
        proof {
            use_type_invariant(self);
        }
        let step: Step = step_at(self.stage, self.board, self.seen);
        proof {
            let n = self.past@.len() as int;
            assert forall|r: Readings| #[trigger] self.begins(r) implies step == boot_step(
                r,
                n,
            ) by {
                assert(boot_exchanges(r) == self.past@ + rest(self.stage, r));
                lemma_step(self.stage, self.board, self.seen@, r);
                if rest(self.stage, r).len() > 0 {
                    assert(boot_exchanges(r)[n] == rest(self.stage, r)[0]);
                }
            }
            assert(boot_exchanges(self.seen@) == boot_exchanges(self.seen@));
            assert(self.begins(self.seen@));
        }
        step
    }

    /// Takes the answer to the operation that was due, and goes on. An answer of
    /// the wrong kind, or one that comes when the boot is over, is refused, and
    /// nothing changes.
    pub fn answer(&mut self, answer: Answer) -> (accepted: bool)
        ensures
            accepted == (old(self).current() matches Step::Perform(operation) && operation.takes(
                answer,
            )),
            accepted ==> (old(self).current() matches Step::Perform(operation) && final(self).past()
                == old(self).past().push((operation, answer))),
            !accepted ==> *final(self) == *old(self),
    {
        proof {
            use_type_invariant(&*self);
            assert(boot_exchanges(self.seen@) == self.past@ + rest(self.stage, self.seen@));
            lemma_step(self.stage, self.board, self.seen@, self.seen@);
        }
        match stage_after(self.stage, self.board, answer, self.seen) {
            None => false,
            Some((stage, board)) => {
                let ghost operation = due(self.stage, self.board);
                let ghost seen = taken_in(self.stage, self.seen@, answer);
                let ghost past = self.past@.push((operation, answer));
                proof {
                    assert forall|r: Readings|
                        #![trigger boot_exchanges(r)]
                        {
                            &&& past.is_prefix_of(boot_exchanges(r)) <==> agrees(stage, seen, r)
                            &&& agrees(stage, seen, r) ==> boot_exchanges(r) == past + rest(
                                stage,
                                r,
                            )
                        } by {
                        lemma_leads_to(self.stage, self.board, self.seen@, answer, stage, r);
                        if agrees(self.stage, self.seen@, r) {
                            lemma_step(self.stage, self.board, self.seen@, r);
                        }
                        lemma_one_more(
                            boot_exchanges(r),
                            self.past@,
                            rest(self.stage, r),
                            (operation, answer),
                        );
                    }
                }
                *self = Bootloader { stage, board, past: Ghost(past), seen: Ghost(seen) };
                true
            },
        }
    }
}

} // verus!
