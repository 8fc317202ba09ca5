//! What holds of every boot.

use vstd::prelude::*;

use crate::board::{RECORD_ADDRESS, record_write};
use crate::boot::{
    Outcome, REQUEST_REGISTER, Readings, SIGNATURE, STAGED_ADDRESS, WATCHDOG_TIMEOUT,
    after_sensing, boot_exchanges, boot_outcome, bring_up, decide, forget_staged, give_up,
    identify, install, recall, repair, sense,
};
use crate::device::{Answer, ClockedPart, Exchange, Operation, Pin, done, on_flash};
use crate::eeprom::{
    EEPROM_MAGIC, EepromData, lemma_record_read_back, lemma_word_in_numbers, lemma_word_read_back,
    word_bytes,
};
use crate::flash::{END_PAGE, FlashOperation, staged_operations};
use crate::flash_model::{
    FlashState, Sector, installed, lemma_installation, lemma_program_arrives,
};
use crate::setup::{
    MODE_REGISTER, battery_level, battery_operations, battery_pin, mode_operation,
    watchdog_operations,
};
use crate::vectors::{Handler, Vector};

verus! {

/// The value that is left when the operations write some values over `initial`;
/// `written` tells which value an operation writes, if any.
pub open spec fn last_written<T>(
    exchanges: Seq<Exchange>,
    written: spec_fn(Operation) -> Option<T>,
    initial: T,
) -> T
    decreases exchanges.len(),
{
    if exchanges.len() == 0 {
        initial
    } else {
        match written(exchanges.last().0) {
            Some(value) => value,
            None => last_written(exchanges.drop_last(), written, initial),
        }
    }
}

/// What an operation writes to a retained register.
pub open spec fn to_retained(register: u32) -> spec_fn(Operation) -> Option<u32> {
    |operation: Operation|
        match operation {
            Operation::WriteRetained { index, value } => if index == register {
                Some(value)
            } else {
                None
            },
            _ => None,
        }
}

/// The level that an operation drives a pin to.
pub open spec fn to_pin(driven: Pin) -> spec_fn(Operation) -> Option<bool> {
    |operation: Operation|
        match operation {
            Operation::WritePin { pin, high } => if pin == driven {
                Some(high)
            } else {
                None
            },
            _ => None,
        }
}

proof fn lemma_last_written_of_two<T>(
    left: Seq<Exchange>,
    right: Seq<Exchange>,
    written: spec_fn(Operation) -> Option<T>,
    initial: T,
)
    ensures
        last_written(left + right, written, initial) == last_written(
            right,
            written,
            last_written(left, written, initial),
        ),
    decreases right.len(),
{
    if right.len() == 0 {
        assert(left + right =~= left);
    } else {
        assert((left + right).drop_last() =~= left + right.drop_last());
        assert((left + right).last() == right.last());
        lemma_last_written_of_two(left, right.drop_last(), written, initial);
    }
}

proof fn lemma_nothing_written<T>(
    exchanges: Seq<Exchange>,
    written: spec_fn(Operation) -> Option<T>,
    initial: T,
)
    requires
        forall|i: int| 0 <= i < exchanges.len() ==> written((#[trigger] exchanges[i]).0) is None,
    ensures
        last_written(exchanges, written, initial) == initial,
    decreases exchanges.len(),
{
    if exchanges.len() > 0 {
        lemma_nothing_written(exchanges.drop_last(), written, initial);
    }
}

/// A boot that goes on leaves a register or pin as its last part does, which
/// starts from what the parts before it left.
proof fn lemma_last_written_of_boot<T>(
    r: Readings,
    written: spec_fn(Operation) -> Option<T>,
    initial: T,
)
    requires
        !r.gives_up(),
    ensures
        ({
            let a = last_written(identify(r), written, initial);
            let b = last_written(repair(r), written, a);
            let c = last_written(sense(r), written, b);
            let m = last_written(recall(r), written, c);
            let d = last_written(bring_up(r), written, m);
            let e = last_written(install(r), written, d);
            last_written(boot_exchanges(r), written, initial) == last_written(decide(r), written, e)
        }),
{
    let a = last_written(identify(r), written, initial);
    let b = last_written(repair(r), written, a);
    let c = last_written(sense(r), written, b);
    let m = last_written(recall(r), written, c);
    let d = last_written(bring_up(r), written, m);
    lemma_last_written_of_two(
        identify(r),
        repair(r) + (sense(r) + after_sensing(r)),
        written,
        initial,
    );
    lemma_last_written_of_two(repair(r), sense(r) + after_sensing(r), written, a);
    lemma_last_written_of_two(sense(r), after_sensing(r), written, b);
    lemma_last_written_of_two(
        recall(r),
        bring_up(r) + (install(r) + decide(r)),
        written,
        c,
    );
    lemma_last_written_of_two(bring_up(r), install(r) + decide(r), written, m);
    lemma_last_written_of_two(install(r), decide(r), written, d);
}

/// A boot that goes on writes the mode of the program that takes over.
proof fn lemma_mode_written(r: Readings, initial: u32)
    requires
        !r.gives_up(),
    ensures
        last_written(boot_exchanges(r), to_retained(MODE_REGISTER), initial) == (
        if r.starts_program2() {
            1u32
        } else {
            0u32
        }),
{
    let written = to_retained(MODE_REGISTER);
    lemma_last_written_of_boot(r, written, initial);
    assert forall|before: u32| #[trigger] last_written(bring_up(r), written, before) == 0 by {
        let head = done(battery_operations(r.cache().version, true)) + seq![
            (mode_operation(true), Answer::Done),
        ];
        let tail = bring_up(r).skip(3);
        assert(bring_up(r) =~= head + tail);
        lemma_last_written_of_two(head, tail, written, before);
        assert(head.last() == (mode_operation(true), Answer::Done));
        lemma_nothing_written(tail, written, 0u32);
    }
    lemma_nothing_written(install(r), written, 0u32);
    let end = decide(r);
    if r.starts_program2() {
        assert(end.last().0 == Operation::EnableClock(ClockedPart::Ram1));
        assert(end.drop_last().last().0 == mode_operation(false));
        assert(last_written(end.drop_last(), written, 0u32) == 1);
    } else {
        lemma_nothing_written(end, written, 0u32);
    }
}

/// The interrupts belong to the program that takes over, whatever the mode
/// register held before: the programming mode gets all that it shares with the
/// second program, and the second program, when it takes over, gets all.
pub proof fn lemma_interrupts_follow_outcome(r: Readings, initial: u32, vector: Vector)
    requires
        !r.gives_up(),
    ensures
        ({
            let mode = last_written(boot_exchanges(r), to_retained(MODE_REGISTER), initial);
            vector.handler(mode) == (if vector.is_shared() && boot_outcome(r)
                == Outcome::EnterProgrammingMode {
                Handler::ProgrammingMode
            } else {
                Handler::Program2 { slot: vector.program2_slot() as u32 }
            })
        }),
{
    lemma_mode_written(r, initial);
}

/// A device that was to enter the programming mode when it wakes or resets does
/// so.
pub proof fn lemma_reset_reenters_programming_mode(r: Readings)
    requires
        !r.gives_up(),
        !r.power_on,
        r.mode == 0,
    ensures
        boot_outcome(r) == Outcome::EnterProgrammingMode,
{
}

/// A device that is powered on starts its second program, whatever the mode
/// register holds, if there is one, the board has a version and nobody asked for
/// the programming mode.
pub proof fn lemma_power_on_starts_program2(r: Readings)
    requires
        r.power_on,
        !r.gives_up(),
        r.request != SIGNATURE,
        r.signature == SIGNATURE,
        r.cache().version != 0,
    ensures
        boot_outcome(r) is StartProgram2,
{
}

/// Whether an operation changes what the device tells of a power-on.
pub open spec fn to_power_on() -> spec_fn(Operation) -> Option<bool> {
    |operation: Operation|
        match operation {
            Operation::ClearPowerOn => Some(false),
            _ => None,
        }
}

/// A power-on counts for one boot: after a boot that went on, the device tells of
/// none, so that the mode register decides the next one.
pub proof fn lemma_power_on_counts_once(r: Readings)
    requires
        !r.gives_up(),
    ensures
        !last_written(boot_exchanges(r), to_power_on(), r.power_on),
{
    let written = to_power_on();
    lemma_last_written_of_boot(r, written, r.power_on);
    assert forall|before: bool| !(#[trigger] last_written(recall(r), written, before)) by {
        let end = recall(r);
        assert(end.last().0 is ReadRetained);
        assert(end.drop_last().last().0 == Operation::ClearPowerOn);
        assert(!last_written(end.drop_last(), written, before));
    }
    lemma_nothing_written(bring_up(r), written, false);
    lemma_nothing_written(install(r), written, false);
    lemma_nothing_written(decide(r), written, false);
}

/// What a boot leaves in the mode register: 0 if it ended in the programming
/// mode, 1 if the second program took over, and what it found if it gave up.
pub proof fn lemma_mode_left(r: Readings)
    ensures
        last_written(boot_exchanges(r), to_retained(MODE_REGISTER), r.mode) == (
        match boot_outcome(r) {
            Outcome::Sleep => r.mode,
            Outcome::StartProgram2(_) => 1,
            Outcome::EnterProgrammingMode => 0,
        }),
{
    let written = to_retained(MODE_REGISTER);
    if r.gives_up() {
        assert(boot_exchanges(r) == identify(r) + (repair(r) + (sense(r) + give_up(r))));
        lemma_nothing_written(boot_exchanges(r), written, r.mode);
    } else {
        lemma_mode_written(r, r.mode);
    }
}

/// A boot that ended in the programming mode is followed, on the registers it
/// left, by one that ends there too, unless that one gives up or the device was
/// powered on in between.
pub proof fn lemma_programming_mode_lasts(r: Readings, again: Readings)
    requires
        boot_outcome(r) == Outcome::EnterProgrammingMode,
        again.mode == last_written(boot_exchanges(r), to_retained(MODE_REGISTER), r.mode),
        !again.power_on,
        !again.gives_up(),
    ensures
        boot_outcome(again) == Outcome::EnterProgrammingMode,
{
    lemma_mode_left(r);
}

/// A request for the programming mode is forgotten once it was read: after the
/// boot, the register holds none.
pub proof fn lemma_request_forgotten(r: Readings)
    requires
        !r.gives_up(),
    ensures
        last_written(boot_exchanges(r), to_retained(REQUEST_REGISTER), r.request) != SIGNATURE,
{
    let written = to_retained(REQUEST_REGISTER);
    lemma_last_written_of_boot(r, written, r.request);
    lemma_nothing_written(identify(r), written, r.request);
    lemma_nothing_written(repair(r), written, r.request);
    lemma_nothing_written(sense(r), written, r.request);
    lemma_nothing_written(recall(r), written, r.request);
    lemma_nothing_written(bring_up(r), written, r.request);
    lemma_nothing_written(install(r), written, r.request);
    if r.request == SIGNATURE {
        assert(decide(r).last().0 == Operation::WriteRetained {
            index: REQUEST_REGISTER,
            value: 0,
        });
    } else {
        lemma_nothing_written(decide(r), written, r.request);
    }
}

/// A boot leaves the battery on exactly if it did not give up and USB was
/// connected, whatever the pin was driven to before.
pub proof fn lemma_battery_follows_usb(r: Readings, initial: bool)
    ensures
        last_written(boot_exchanges(r), to_pin(battery_pin(r.cache().version)), initial)
            == battery_level(
            r.cache().version,
            !r.gives_up() && !r.usb_disconnected_later,
        ),
{
    let version = r.cache().version;
    let written = to_pin(battery_pin(version));
    if r.gives_up() {
        assert(boot_exchanges(r).last() == give_up(r).last());
        assert(boot_exchanges(r).last().0 == battery_operations(version, false)[1]);
    } else {
        let level = battery_level(version, !r.usb_disconnected_later);
        lemma_last_written_of_boot(r, written, initial);
        assert forall|before: bool| #[trigger]
            last_written(bring_up(r), written, before) == level by {
            let head = bring_up(r).take(10);
            let tail = bring_up(r).skip(10);
            assert(bring_up(r) =~= head + tail);
            lemma_last_written_of_two(head, tail, written, before);
            assert(head.last().0 == battery_operations(version, !r.usb_disconnected_later)[1]);
            lemma_nothing_written(tail, written, level);
        }
        lemma_nothing_written(install(r), written, level);
        lemma_nothing_written(decide(r), written, level);
    }
}

/// Whether every pin is made an output just before it is driven.
pub open spec fn output_before_driven(exchanges: Seq<Exchange>) -> bool {
    forall|i: int|
        0 <= i < exchanges.len() ==> ((#[trigger] exchanges[i]).0 matches Operation::WritePin {
            pin,
            high,
        } ==> i > 0 && exchanges[i - 1].0 == Operation::SetOutput(pin))
}

proof fn lemma_output_before_driven_of_two(left: Seq<Exchange>, right: Seq<Exchange>)
    requires
        output_before_driven(left),
        output_before_driven(right),
    ensures
        output_before_driven(left + right),
{
    let all = left + right;
    assert forall|i: int| 0 <= i < all.len() implies ((#[trigger] all[i]).0
        matches Operation::WritePin { pin, high } ==> i > 0 && all[i - 1].0 == Operation::SetOutput(
        pin,
    )) by {
        if i >= left.len() {
            assert(all[i] == right[i - left.len()]);
            if all[i].0 is WritePin {
                assert(all[i - 1] == right[i - left.len() - 1]);
            }
        } else {
            assert(all[i] == left[i]);
        }
    }
}

/// In every boot, a pin is made an output before it is driven, not after.
pub proof fn lemma_output_before_driven(r: Readings)
    ensures
        output_before_driven(boot_exchanges(r)),
{
    if !r.gives_up() {
        lemma_output_before_driven_of_two(install(r), decide(r));
        lemma_output_before_driven_of_two(bring_up(r), install(r) + decide(r));
        lemma_output_before_driven_of_two(
            recall(r),
            bring_up(r) + (install(r) + decide(r)),
        );
    }
    lemma_output_before_driven_of_two(sense(r), after_sensing(r));
    lemma_output_before_driven_of_two(repair(r), sense(r) + after_sensing(r));
    lemma_output_before_driven_of_two(identify(r), repair(r) + (sense(r) + after_sensing(r)));
}

/// The operations on the flash among `exchanges`, in order.
pub open spec fn flash_part(exchanges: Seq<Exchange>) -> Seq<FlashOperation>
    decreases exchanges.len(),
{
    if exchanges.len() == 0 {
        seq![]
    } else {
        let before = flash_part(exchanges.drop_last());
        match exchanges.last().0 {
            Operation::Flash(operation) => before.push(operation),
            _ => before,
        }
    }
}

proof fn lemma_flash_part_of_two(left: Seq<Exchange>, right: Seq<Exchange>)
    ensures
        flash_part(left + right) == flash_part(left) + flash_part(right),
    decreases right.len(),
{
    if right.len() == 0 {
        assert(left + right =~= left);
        assert(flash_part(left) + flash_part(right) =~= flash_part(left));
    } else {
        assert((left + right).drop_last() =~= left + right.drop_last());
        assert((left + right).last() == right.last());
        lemma_flash_part_of_two(left, right.drop_last());
        assert(flash_part(left + right) =~= flash_part(left) + flash_part(right));
    }
}

proof fn lemma_no_flash_part(exchanges: Seq<Exchange>)
    requires
        forall|i: int| 0 <= i < exchanges.len() ==> !((#[trigger] exchanges[i]).0 is Flash),
    ensures
        flash_part(exchanges) == Seq::<FlashOperation>::empty(),
    decreases exchanges.len(),
{
    if exchanges.len() > 0 {
        lemma_no_flash_part(exchanges.drop_last());
    }
}

proof fn lemma_all_flash_part(operations: Seq<FlashOperation>)
    ensures
        flash_part(done(on_flash(operations))) == operations,
    decreases operations.len(),
{
    let exchanges = done(on_flash(operations));
    if operations.len() > 0 {
        assert(exchanges.drop_last() =~= done(on_flash(operations.drop_last())));
        lemma_all_flash_part(operations.drop_last());
        assert(flash_part(exchanges) =~= operations);
    } else {
        assert(flash_part(exchanges) =~= operations);
    }
}

/// A boot does to the flash what installing the staged program takes, and
/// nothing if there is none or the boot gives up.
pub proof fn lemma_flash_part_of_boot(r: Readings)
    ensures
        flash_part(boot_exchanges(r)) == (if r.gives_up() {
            seq![]
        } else {
            staged_operations(r.staged_page(), r.clock())
        }),
{
    let late = after_sensing(r);
    lemma_flash_part_of_two(identify(r), repair(r) + (sense(r) + late));
    lemma_flash_part_of_two(repair(r), sense(r) + late);
    lemma_flash_part_of_two(sense(r), late);
    lemma_no_flash_part(identify(r));
    lemma_no_flash_part(repair(r));
    lemma_no_flash_part(sense(r));
    if r.gives_up() {
        lemma_no_flash_part(give_up(r));
    } else {
        lemma_flash_part_of_two(recall(r), bring_up(r) + (install(r) + decide(r)));
        lemma_flash_part_of_two(bring_up(r), install(r) + decide(r));
        lemma_no_flash_part(recall(r));
        lemma_flash_part_of_two(install(r), decide(r));
        lemma_no_flash_part(bring_up(r));
        lemma_no_flash_part(decide(r));
        if r.staged_page() == 0 {
            lemma_no_flash_part(install(r));
        } else {
            let head = seq![(forget_staged(r.clock()), Answer::Done)];
            let flash = done(on_flash(staged_operations(r.staged_page(), r.clock())));
            let watchdog = done(watchdog_operations(WATCHDOG_TIMEOUT));
            lemma_flash_part_of_two(head + flash, watchdog);
            lemma_flash_part_of_two(head, flash);
            lemma_no_flash_part(head);
            lemma_no_flash_part(watchdog);
            lemma_all_flash_part(staged_operations(r.staged_page(), r.clock()));
        }
    }
    assert(flash_part(boot_exchanges(r)) =~= (if r.gives_up() {
        seq![]
    } else {
        staged_operations(r.staged_page(), r.clock())
    }));
}

/// The flash controller carries out all that a boot asks of it, and a boot that
/// goes on leaves the staged program installed.
pub proof fn lemma_boot_installs(r: Readings, state: FlashState)
    requires
        state.sectors.len() >= END_PAGE,
    ensures
        state.permits_all(flash_part(boot_exchanges(r))),
        state.after_all(flash_part(boot_exchanges(r))).sectors == (if r.gives_up() {
            state.sectors
        } else {
            installed(state.sectors, r.staged_page())
        }),
{
    lemma_flash_part_of_boot(r);
    lemma_installation(state, r.staged_page(), r.clock());
}

/// Whether `operation` is among `exchanges`, before the position `end`.
pub open spec fn done_before(exchanges: Seq<Exchange>, end: int, operation: Operation) -> bool {
    exists|j: int| 0 <= j < end && (#[trigger] exchanges[j]).0 == operation
}

/// Whether `first` comes before every operation that needs it.
pub open spec fn comes_first(
    exchanges: Seq<Exchange>,
    first: Operation,
    needs: spec_fn(Operation) -> bool,
) -> bool {
    forall|i: int|
        0 <= i < exchanges.len() && needs((#[trigger] exchanges[i]).0) ==> done_before(
            exchanges,
            i,
            first,
        )
}

proof fn lemma_comes_first_of_two(
    left: Seq<Exchange>,
    right: Seq<Exchange>,
    first: Operation,
    needs: spec_fn(Operation) -> bool,
)
    requires
        comes_first(left, first, needs),
        comes_first(right, first, needs) || done_before(left, left.len() as int, first),
    ensures
        comes_first(left + right, first, needs),
{
    let all = left + right;
    assert forall|i: int| 0 <= i < all.len() && needs((#[trigger] all[i]).0) implies done_before(
        all,
        i,
        first,
    ) by {
        if i < left.len() {
            assert(all[i] == left[i]);
            let j = choose|j: int| 0 <= j < i && (#[trigger] left[j]).0 == first;
            assert(all[j] == left[j]);
        } else if done_before(left, left.len() as int, first) {
            let j = choose|j: int| 0 <= j < left.len() && (#[trigger] left[j]).0 == first;
            assert(all[j] == left[j]);
        } else {
            let k = i - left.len();
            assert(all[i] == right[k]);
            let j = choose|j: int| 0 <= j < k && (#[trigger] right[j]).0 == first;
            assert(all[left.len() + j] == right[j]);
        }
    }
}

/// What the sections of a boot have to show, so that `first` comes first in the
/// whole of it.
proof fn lemma_comes_first_of_boot(
    r: Readings,
    first: Operation,
    needs: spec_fn(Operation) -> bool,
)
    requires
        comes_first(identify(r), first, needs),
        comes_first(repair(r), first, needs),
        comes_first(sense(r), first, needs),
        done_before(sense(r), sense(r).len() as int, first) || {
            &&& comes_first(give_up(r), first, needs)
            &&& comes_first(recall(r), first, needs)
            &&& comes_first(bring_up(r), first, needs)
            &&& comes_first(install(r), first, needs)
            &&& comes_first(decide(r), first, needs)
        },
    ensures
        comes_first(boot_exchanges(r), first, needs),
{
    let late = after_sensing(r);
    if !done_before(sense(r), sense(r).len() as int, first) && !r.gives_up() {
        lemma_comes_first_of_two(install(r), decide(r), first, needs);
        lemma_comes_first_of_two(bring_up(r), install(r) + decide(r), first, needs);
        lemma_comes_first_of_two(
            recall(r),
            bring_up(r) + (install(r) + decide(r)),
            first,
            needs,
        );
    }
    lemma_comes_first_of_two(sense(r), late, first, needs);
    lemma_comes_first_of_two(repair(r), sense(r) + late, first, needs);
    lemma_comes_first_of_two(identify(r), repair(r) + (sense(r) + late), first, needs);
}

/// Which operations touch the flash.
pub open spec fn touches_flash() -> spec_fn(Operation) -> bool {
    |operation: Operation| operation is Flash
}

/// Which operations need the clock of the GPIO ports.
pub open spec fn uses_gpio() -> spec_fn(Operation) -> bool {
    |operation: Operation|
        operation is ReadPin || operation is SetOutput || operation is WritePin
}

/// Which operations need the clock of the watchdog.
pub open spec fn uses_watchdog() -> spec_fn(Operation) -> bool {
    |operation: Operation| operation is Watchdog
}

/// The staged program is forgotten before the flash is touched, so that a reset
/// in between does not start to move a program that is half moved.
pub proof fn lemma_forgotten_before_flash(r: Readings)
    ensures
        comes_first(boot_exchanges(r), forget_staged(r.clock()), touches_flash()),
{
    let first = forget_staged(r.clock());
    let needs = touches_flash();
    assert(comes_first(install(r), first, needs)) by {
        if r.staged_page() != 0 {
            let head = seq![(first, Answer::Done)];
            let tail = install(r).skip(1);
            assert(head[0].0 == first);
            assert(done_before(head, 1, first));
            lemma_comes_first_of_two(head, tail, first, needs);
            assert(install(r) =~= head + tail);
        }
    }
    lemma_comes_first_of_boot(r, first, needs);
}

/// The clock of the GPIO ports is switched on before any pin is read, made an
/// output or driven.
pub proof fn lemma_gpio_clocked_before_use(r: Readings)
    ensures
        comes_first(boot_exchanges(r), Operation::EnableClock(ClockedPart::Gpio), uses_gpio()),
{
    let first = Operation::EnableClock(ClockedPart::Gpio);
    assert(sense(r)[0].0 == first);
    lemma_comes_first_of_boot(r, first, uses_gpio());
}

/// The clock of the watchdog is switched on before the watchdog is operated.
pub proof fn lemma_watchdog_clocked_before_use(r: Readings)
    ensures
        comes_first(
            boot_exchanges(r),
            Operation::EnableClock(ClockedPart::Watchdog),
            uses_watchdog(),
        ),
{
    let first = Operation::EnableClock(ClockedPart::Watchdog);
    let needs = uses_watchdog();
    assert(comes_first(install(r), first, needs)) by {
        if r.staged_page() != 0 {
            let flash = seq![(forget_staged(r.clock()), Answer::Done)] + done(
                on_flash(staged_operations(r.staged_page(), r.clock())),
            );
            let watchdog = done(watchdog_operations(WATCHDOG_TIMEOUT));
            assert(watchdog[0].0 == first);
            assert(comes_first(watchdog, first, needs));
            lemma_comes_first_of_two(flash, watchdog, first, needs);
        }
    }
    lemma_comes_first_of_boot(r, first, needs);
}

/// The second program takes over only when the device was powered on or was not
/// in the programming mode before, its signature was found, nobody asked for the programming mode
/// and the board has a version; the last that is done before is to switch its
/// memory on.
pub proof fn lemma_program2_starts_with_memory(r: Readings)
    requires
        boot_outcome(r) is StartProgram2,
    ensures
        r.power_on || r.mode != 0,
        r.request != SIGNATURE,
        r.signature == SIGNATURE,
        r.cache().version != 0,
        boot_exchanges(r).last() == (Operation::EnableClock(ClockedPart::Ram1), Answer::Done),
{
    assert(boot_exchanges(r).last() == decide(r).last());
}

/// The EEPROM after an operation.
pub open spec fn eeprom_after(memory: Seq<u8>, operation: Operation) -> Seq<u8> {
    match operation {
        Operation::WriteEepromRecord { address, record, clock } => memory.take(address as int)
            + record@ + memory.skip(address + 8),
        Operation::WriteEepromWord { address, word, clock } => memory.take(address as int) + word@
            + memory.skip(address + 4),
        _ => memory,
    }
}

/// The EEPROM after all of `exchanges`.
pub open spec fn eeprom_after_all(memory: Seq<u8>, exchanges: Seq<Exchange>) -> Seq<u8>
    decreases exchanges.len(),
{
    if exchanges.len() == 0 {
        memory
    } else {
        eeprom_after(eeprom_after_all(memory, exchanges.drop_last()), exchanges.last().0)
    }
}

/// Whether the boot `r` reads from an EEPROM that holds `memory`.
pub open spec fn reads_from(r: Readings, memory: Seq<u8>) -> bool {
    &&& memory.len() >= STAGED_ADDRESS + 4
    &&& r.record@ == memory.subrange(RECORD_ADDRESS as int, RECORD_ADDRESS + 8)
    &&& r.staged@ == memory.subrange(STAGED_ADDRESS as int, STAGED_ADDRESS + 4)
}

/// Whether an operation writes to the EEPROM.
pub open spec fn writes_eeprom(operation: Operation) -> bool {
    operation is WriteEepromRecord || operation is WriteEepromWord
}

proof fn lemma_eeprom_of_two(memory: Seq<u8>, left: Seq<Exchange>, right: Seq<Exchange>)
    ensures
        eeprom_after_all(memory, left + right) == eeprom_after_all(
            eeprom_after_all(memory, left),
            right,
        ),
    decreases right.len(),
{
    if right.len() == 0 {
        assert(left + right =~= left);
    } else {
        assert((left + right).drop_last() =~= left + right.drop_last());
        assert((left + right).last() == right.last());
        lemma_eeprom_of_two(memory, left, right.drop_last());
    }
}

proof fn lemma_eeprom_kept(memory: Seq<u8>, exchanges: Seq<Exchange>)
    requires
        forall|i: int| 0 <= i < exchanges.len() ==> !writes_eeprom((#[trigger] exchanges[i]).0),
    ensures
        eeprom_after_all(memory, exchanges) == memory,
    decreases exchanges.len(),
{
    if exchanges.len() > 0 {
        lemma_eeprom_kept(memory, exchanges.drop_last());
    }
}

/// The EEPROM after the boot `r`: the record is in order, and there is no staged
/// program any more, unless the boot gave up.
pub open spec fn eeprom_left(r: Readings, memory: Seq<u8>) -> Seq<u8> {
    let checked = if r.stored().magic == EEPROM_MAGIC {
        memory
    } else {
        eeprom_after(memory, record_write(EepromData::fresh(), r.clock()))
    };
    if r.gives_up() || r.staged_page() == 0 {
        checked
    } else {
        eeprom_after(checked, forget_staged(r.clock()))
    }
}

proof fn lemma_eeprom_of_one(memory: Seq<u8>, exchange: Exchange)
    ensures
        eeprom_after_all(memory, seq![exchange]) == eeprom_after(memory, exchange.0),
{
    assert(seq![exchange].drop_last() =~= seq![]);
    reveal_with_fuel(eeprom_after_all, 2);
}

proof fn lemma_eeprom_of_install(r: Readings, memory: Seq<u8>)
    ensures
        eeprom_after_all(memory, install(r)) == (if r.staged_page() == 0 {
            memory
        } else {
            eeprom_after(memory, forget_staged(r.clock()))
        }),
{
    if r.staged_page() != 0 {
        let exchange = (forget_staged(r.clock()), Answer::Done);
        let tail = install(r).skip(1);
        assert(install(r) =~= seq![exchange] + tail);
        lemma_eeprom_of_two(memory, seq![exchange], tail);
        lemma_eeprom_of_one(memory, exchange);
        lemma_eeprom_kept(eeprom_after(memory, exchange.0), tail);
    }
}

/// What a boot leaves in the EEPROM.
pub proof fn lemma_eeprom_of_boot(r: Readings, memory: Seq<u8>)
    ensures
        eeprom_after_all(memory, boot_exchanges(r)) == eeprom_left(r, memory),
{
    let late = after_sensing(r);
    let checked = eeprom_after_all(memory, repair(r));
    lemma_eeprom_of_two(memory, identify(r), repair(r) + (sense(r) + late));
    lemma_eeprom_kept(memory, identify(r));
    lemma_eeprom_of_two(memory, repair(r), sense(r) + late);
    if r.stored().magic != EEPROM_MAGIC {
        lemma_eeprom_of_one(memory, repair(r)[0]);
    }
    lemma_eeprom_of_two(checked, sense(r), late);
    lemma_eeprom_kept(checked, sense(r));
    if r.gives_up() {
        lemma_eeprom_kept(checked, give_up(r));
    } else {
        let left = eeprom_after_all(checked, install(r));
        lemma_eeprom_of_two(checked, recall(r), bring_up(r) + (install(r) + decide(r)));
        lemma_eeprom_kept(checked, recall(r));
        lemma_eeprom_of_two(checked, bring_up(r), install(r) + decide(r));
        lemma_eeprom_kept(checked, bring_up(r));
        lemma_eeprom_of_two(checked, install(r), decide(r));
        lemma_eeprom_of_install(r, checked);
        lemma_eeprom_kept(left, decide(r));
    }
}

/// The boot after a boot that went on finds all in order: it works with the same
/// record, has no program to install, and writes neither to the EEPROM nor to
/// the flash.
pub proof fn lemma_second_boot_changes_nothing(r: Readings, memory: Seq<u8>, again: Readings)
    requires
        reads_from(r, memory),
        !r.gives_up(),
        reads_from(again, eeprom_after_all(memory, boot_exchanges(r))),
    ensures
        again.stored() == r.cache(),
        again.cache() == r.cache(),
        again.staged_page() == 0,
        eeprom_after_all(eeprom_after_all(memory, boot_exchanges(r)), boot_exchanges(again))
            == eeprom_after_all(memory, boot_exchanges(r)),
        flash_part(boot_exchanges(again)) == Seq::<FlashOperation>::empty(),
{
    let left = eeprom_left(r, memory);
    lemma_eeprom_of_boot(r, memory);
    lemma_record_read_back(EepromData::fresh());
    lemma_word_read_back(0);
    if r.stored().magic == EEPROM_MAGIC {
        assert(again.record@ =~= r.record@);
    } else {
        assert(again.record@ =~= EepromData::fresh().encoded()@);
    }
    if r.staged_page() == 0 {
        assert(again.staged@ =~= r.staged@);
    } else {
        assert(again.staged@ =~= word_bytes(0)@);
    }
    lemma_eeprom_of_boot(again, left);
    lemma_flash_part_of_boot(again);
}

/// Let `page` be the number that the four bytes read at 0x500 write, the lowest
/// first. In a boot that goes on, with 2 < `page` < 28, each page of the staged
/// program arrives: what sector `page + offset` held before is what sector
/// 2 + `offset` holds after the boot, whatever else was read.
pub proof fn lemma_staged_pages_arrive(r: Readings, state: FlashState, page: u32, offset: int)
    requires
        r.usb_disconnected || !r.brown_out,
        state.sectors.len() >= 28,
        page == r.staged@[0] + 256 * r.staged@[1] + 0x1_0000 * r.staged@[2] + 0x100_0000
            * r.staged@[3],
        2 < page < 28,
        0 <= offset < 28 - page,
    ensures
        r.staged_page() == page,
        state.permits_all(flash_part(boot_exchanges(r))),
        state.after_all(flash_part(boot_exchanges(r))).sectors[2 + offset] == state.sectors[page
            + offset],
{
    lemma_word_in_numbers(r.staged@);
    lemma_boot_installs(r, state);
    lemma_program_arrives(state.sectors, page, offset);
}

/// What a boot that goes on leaves in the sectors where no page of the program
/// that is staged at `page` arrives. The runs of `page - 2` sectors, from sector 2
/// on, into which pages arrived are erased to their end; the rest is as it was.
pub proof fn lemma_sectors_behind_program(r: Readings, state: FlashState, page: u32, sector: int)
    requires
        r.usb_disconnected || !r.brown_out,
        state.sectors.len() >= 28,
        page == r.staged@[0] + 256 * r.staged@[1] + 0x1_0000 * r.staged@[2] + 0x100_0000
            * r.staged@[3],
        2 < page < 28,
        0 <= sector < 2 || 30 - page <= sector < state.sectors.len(),
    ensures
        ({
            let left = state.after_all(flash_part(boot_exchanges(r))).sectors;
            let distance = page - 2;
            let runs = (28 - page + distance - 1) / distance;
            &&& left.len() == state.sectors.len()
            &&& left[sector] == (if 30 - page <= sector < 2 + runs * distance {
                Sector::Erased
            } else {
                state.sectors[sector]
            })
        }),
{
    lemma_word_in_numbers(r.staged@);
    lemma_boot_installs(r, state);
}

/// A boot that sleeps, or that finds no page from 3 to 27 staged, leaves every
/// sector as it was.
pub proof fn lemma_nothing_installed(r: Readings, state: FlashState, page: u32)
    requires
        state.sectors.len() >= 28,
        page == r.staged@[0] + 256 * r.staged@[1] + 0x1_0000 * r.staged@[2] + 0x100_0000
            * r.staged@[3],
        page <= 2 || page >= 28 || (!r.usb_disconnected && r.brown_out),
    ensures
        state.after_all(flash_part(boot_exchanges(r))).sectors == state.sectors,
{
    lemma_word_in_numbers(r.staged@);
    lemma_boot_installs(r, state);
}

} // verus!
