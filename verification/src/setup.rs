//! The fixed sequences of operations that set parts of the board up.

use vstd::prelude::*;

use crate::device::{ClockedPart, Operation, Pin, PinFunction, PinMode, WatchdogOperation};

verus! {

/// The port of the pin that is high while USB is disconnected.
pub const USB_PORT: u32 = 0;

/// The number of that pin.
pub const USB_PIN: u32 = 3;

/// The port of the pins that switch the battery.
pub const BATTERY_PORT: u32 = 1;

/// The retained register that tells which program the interrupts belong to, and
/// whether a reset leads back to the programming mode: 0 while it is that mode.
/// It keeps its value through wakes and resets. A power-on clears it, but then
/// nobody has set it, and it decides nothing.
pub const MODE_REGISTER: u32 = 1;

/// The value that the warning register of the watchdog is given. Only its ten
/// low bits are defined.
pub const WATCHDOG_WARNING: u32 = 0xffff;

/// The first of the two values whose writing feeds the watchdog.
pub const FEED_FIRST: u32 = 0xaa;

/// The second of them.
pub const FEED_SECOND: u32 = 0x55;

/// The operation that reads whether USB is disconnected.
pub open spec fn usb_operation() -> Operation {
    Operation::ReadPin(Pin { port: USB_PORT, number: USB_PIN })
}

/// The operation whose answer tells whether USB is disconnected.
pub fn is_usb_disconnected() -> (operation: Operation)
    ensures
        operation == usb_operation(),
{
    Operation::ReadPin(Pin { port: USB_PORT, number: USB_PIN })
}

/// The pin that switches the battery on hardware of some version.
pub open spec fn battery_pin(version: u32) -> Pin {
    Pin {
        port: BATTERY_PORT,
        number: if version < 5 {
            8
        } else if version < 8 {
            0
        } else {
            10
        },
    }
}

/// Whether the battery pin is to be high: since version 8 it is active low.
pub open spec fn battery_level(version: u32, state: bool) -> bool {
    if version < 8 {
        state
    } else {
        !state
    }
}

/// The operations that switch the battery on or off.
pub open spec fn battery_operations(version: u32, state: bool) -> Seq<Operation> {
    let pin = battery_pin(version);
    seq![
        Operation::SetOutput(pin),
        Operation::WritePin { pin, high: battery_level(version, state) },
    ]
}

/// Switches the battery on or off. The pin becomes an output first, and is
/// driven then.
pub fn set_battery_power(version: u32, state: bool) -> (operations: [Operation; 2])
    ensures
        operations@ == battery_operations(version, state),
{
    if version < 5 {
        let pin = Pin { port: BATTERY_PORT, number: 8 };
        [Operation::SetOutput(pin), Operation::WritePin { pin, high: state }]
    } else if version < 8 {
        let pin = Pin { port: BATTERY_PORT, number: 0 };
        [Operation::SetOutput(pin), Operation::WritePin { pin, high: state }]
    } else {
        let pin = Pin { port: BATTERY_PORT, number: 10 };
        [Operation::SetOutput(pin), Operation::WritePin { pin, high: !state }]
    }
}

/// Switching the battery off undoes switching it on: the pin that was made an
/// output is driven, and to the opposite level.
pub proof fn lemma_battery_off_undoes_on(version: u32)
    ensures
        battery_operations(version, true)[1] matches Operation::WritePin { pin, high } && {
            &&& battery_operations(version, true)[0] == Operation::SetOutput(pin)
            &&& battery_operations(version, false)[0] == Operation::SetOutput(pin)
            &&& battery_operations(version, false)[1] == Operation::WritePin { pin, high: !high }
        },
{
}

/// The operation that says which program the interrupts belong to, and whether a
/// reset leads back to the programming mode.
pub open spec fn mode_operation(programming: bool) -> Operation {
    Operation::WriteRetained {
        index: MODE_REGISTER,
        value: if programming {
            0
        } else {
            1
        },
    }
}

/// Makes the device enter the programming mode again when it resets, or not.
pub fn enter_programming_mode_on_reboot(enable: bool) -> (operation: Operation)
    ensures
        operation == mode_operation(enable),
{
    let value: u32 = if enable {
        0
    } else {
        1
    };
    Operation::WriteRetained { index: MODE_REGISTER, value }
}

/// The operations that connect the pins.
pub open spec fn pinmux_operations() -> Seq<Operation> {
    seq![
        Operation::ConfigurePin {
            pin: Pin { port: 0, number: 3 },
            function: PinFunction::Gpio,
            mode: PinMode::PullDown,
        },
        Operation::ConfigurePin {
            pin: Pin { port: 0, number: 6 },
            function: PinFunction::UsbConnect,
            mode: PinMode::Floating,
        },
        Operation::ConfigurePin {
            pin: Pin { port: 1, number: 17 },
            function: PinFunction::SerialReceive,
            mode: PinMode::Floating,
        },
        Operation::ConfigurePin {
            pin: Pin { port: 1, number: 18 },
            function: PinFunction::SerialTransmit,
            mode: PinMode::Floating,
        },
    ]
}

/// Connects the pins: USB detection, USB connect and the two serial lines.
pub fn setup_pinmux() -> (operations: [Operation; 4])
    ensures
        operations@ == pinmux_operations(),
{
    [
        Operation::ConfigurePin {
            pin: Pin { port: 0, number: 3 },
            function: PinFunction::Gpio,
            mode: PinMode::PullDown,
        },
        Operation::ConfigurePin {
            pin: Pin { port: 0, number: 6 },
            function: PinFunction::UsbConnect,
            mode: PinMode::Floating,
        },
        Operation::ConfigurePin {
            pin: Pin { port: 1, number: 17 },
            function: PinFunction::SerialReceive,
            mode: PinMode::Floating,
        },
        Operation::ConfigurePin {
            pin: Pin { port: 1, number: 18 },
            function: PinFunction::SerialTransmit,
            mode: PinMode::Floating,
        },
    ]
}

/// The operations that give the watchdog its default values.
pub open spec fn watchdog_init_operations() -> Seq<Operation> {
    seq![
        Operation::EnableClock(ClockedPart::Watchdog),
        Operation::Watchdog(WatchdogOperation::ResetMode),
        Operation::Watchdog(WatchdogOperation::ResetTimeout),
        Operation::Watchdog(WatchdogOperation::WriteWarning(WATCHDOG_WARNING)),
        Operation::Watchdog(WatchdogOperation::ResetWindow),
    ]
}

/// Switches the clock of the watchdog on and gives it its default values.
pub fn watchdog_init() -> (operations: [Operation; 5])
    ensures
        operations@ == watchdog_init_operations(),
{
    [
        Operation::EnableClock(ClockedPart::Watchdog),
        Operation::Watchdog(WatchdogOperation::ResetMode),
        Operation::Watchdog(WatchdogOperation::ResetTimeout),
        Operation::Watchdog(WatchdogOperation::WriteWarning(WATCHDOG_WARNING)),
        Operation::Watchdog(WatchdogOperation::ResetWindow),
    ]
}

/// The operations that feed the watchdog.
pub open spec fn watchdog_feed_operations() -> Seq<Operation> {
    seq![
        Operation::Watchdog(WatchdogOperation::Feed(FEED_FIRST)),
        Operation::Watchdog(WatchdogOperation::Feed(FEED_SECOND)),
    ]
}

/// Feeds the watchdog.
pub fn watchdog_feed() -> (operations: [Operation; 2])
    ensures
        operations@ == watchdog_feed_operations(),
{
    [
        Operation::Watchdog(WatchdogOperation::Feed(FEED_FIRST)),
        Operation::Watchdog(WatchdogOperation::Feed(FEED_SECOND)),
    ]
}

/// The operations that start the watchdog: the defaults, the timeout, the mode,
/// and a first feed.
pub open spec fn watchdog_operations(timeout: u32) -> Seq<Operation> {
    watchdog_init_operations() + seq![
        Operation::Watchdog(WatchdogOperation::WriteTimeout(timeout)),
        Operation::Watchdog(WatchdogOperation::Run),
    ] + watchdog_feed_operations()
}

/// Starts the watchdog, so that it resets the chip after `timeout`.
pub fn setup_watchdog(timeout: u32) -> (operations: [Operation; 9])
    ensures
        operations@ == watchdog_operations(timeout),
{
    let init: [Operation; 5] = watchdog_init();
    let feed: [Operation; 2] = watchdog_feed();
    let operations: [Operation; 9] = [
        init[0],
        init[1],
        init[2],
        init[3],
        init[4],
        Operation::Watchdog(WatchdogOperation::WriteTimeout(timeout)),
        Operation::Watchdog(WatchdogOperation::Run),
        feed[0],
        feed[1],
    ];
    assert(operations@ =~= watchdog_operations(timeout));
    operations
}

/// Which pin of port 1 switches the battery, and how: pin 8 before version 5,
/// pin 0 before version 8, both high for on; pin 10 from version 8 on, low for on.
pub proof fn lemma_battery_in_numbers(version: u32, state: bool)
    ensures
        battery_pin(version).port == 1,
        version < 5 ==> battery_pin(version).number == 8,
        5 <= version < 8 ==> battery_pin(version).number == 0,
        version >= 8 ==> battery_pin(version).number == 10,
        battery_level(version, state) == (if version < 8 {
            state
        } else {
            !state
        }),
        version < 5 ==> battery_operations(version, state) == seq![
            Operation::SetOutput(Pin { port: 1, number: 8 }),
            Operation::WritePin { pin: Pin { port: 1, number: 8 }, high: state },
        ],
        5 <= version < 8 ==> battery_operations(version, state) == seq![
            Operation::SetOutput(Pin { port: 1, number: 0 }),
            Operation::WritePin { pin: Pin { port: 1, number: 0 }, high: state },
        ],
        version >= 8 ==> battery_operations(version, state) == seq![
            Operation::SetOutput(Pin { port: 1, number: 10 }),
            Operation::WritePin { pin: Pin { port: 1, number: 10 }, high: !state },
        ],
{
}

/// USB is told by pin 3 of port 0; the mode is kept in the retained register 1,
/// which is 0 for the programming mode and 1 for the second program.
pub proof fn lemma_usb_and_mode_in_numbers(programming: bool)
    ensures
        usb_operation() == Operation::ReadPin(Pin { port: 0, number: 3 }),
        programming ==> mode_operation(programming) == (Operation::WriteRetained {
            index: 1,
            value: 0,
        }),
        !programming ==> mode_operation(programming) == (Operation::WriteRetained {
            index: 1,
            value: 1,
        }),
        MODE_REGISTER == 1,
{
}

/// Which pins are connected, to what, in which order: pin 0.3 is a pulled-down
/// input, 0.6 is USB connect, 1.17 receives and 1.18 transmits.
pub proof fn lemma_pinmux_in_numbers()
    ensures
        pinmux_operations().len() == 4,
        pinmux_operations()[0] == (Operation::ConfigurePin {
            pin: Pin { port: 0, number: 3 },
            function: PinFunction::Gpio,
            mode: PinMode::PullDown,
        }),
        pinmux_operations()[1] == (Operation::ConfigurePin {
            pin: Pin { port: 0, number: 6 },
            function: PinFunction::UsbConnect,
            mode: PinMode::Floating,
        }),
        pinmux_operations()[2] == (Operation::ConfigurePin {
            pin: Pin { port: 1, number: 17 },
            function: PinFunction::SerialReceive,
            mode: PinMode::Floating,
        }),
        pinmux_operations()[3] == (Operation::ConfigurePin {
            pin: Pin { port: 1, number: 18 },
            function: PinFunction::SerialTransmit,
            mode: PinMode::Floating,
        }),
{
}

/// How the watchdog is started, one operation after the other: the first five
/// set it to its defaults, the last two feed it.
pub proof fn lemma_watchdog_in_numbers(timeout: u32)
    ensures
        ({
            let all = watchdog_operations(timeout);
            &&& all.len() == 9
            &&& all[0] == Operation::EnableClock(ClockedPart::Watchdog)
            &&& all[1] == Operation::Watchdog(WatchdogOperation::ResetMode)
            &&& all[2] == Operation::Watchdog(WatchdogOperation::ResetTimeout)
            &&& all[3] == Operation::Watchdog(WatchdogOperation::WriteWarning(0xffff))
            &&& all[4] == Operation::Watchdog(WatchdogOperation::ResetWindow)
            &&& all[5] == Operation::Watchdog(WatchdogOperation::WriteTimeout(timeout))
            &&& all[6] == Operation::Watchdog(WatchdogOperation::Run)
            &&& all[7] == Operation::Watchdog(WatchdogOperation::Feed(0xaa))
            &&& all[8] == Operation::Watchdog(WatchdogOperation::Feed(0x55))
            &&& watchdog_init_operations() == all.take(5)
            &&& watchdog_feed_operations() == all.skip(7)
        }),
{
}

} // verus!
