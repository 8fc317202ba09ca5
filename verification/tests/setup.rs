use bootloader::device::{
    ClockedPart, Operation, Pin, PinFunction, PinMode, WatchdogOperation,
};
use bootloader::setup::{
    enter_programming_mode_on_reboot, is_usb_disconnected, set_battery_power, setup_pinmux,
    setup_watchdog, watchdog_feed, watchdog_init,
};

fn battery(number: u32, high: bool) -> [Operation; 2] {
    let pin = Pin { port: 1, number };
    [
        Operation::SetOutput(pin),
        Operation::WritePin { pin, high },
    ]
}

#[test]
fn usb_is_read_from_its_pin() {
    assert_eq!(
        is_usb_disconnected(),
        Operation::ReadPin(Pin { port: 0, number: 3 })
    );
}

#[test]
fn battery_pin_depends_on_the_version() {
    for version in [0, 1, 4] {
        assert_eq!(set_battery_power(version, true), battery(8, true));
        assert_eq!(set_battery_power(version, false), battery(8, false));
    }
    for version in [5, 6, 7] {
        assert_eq!(set_battery_power(version, true), battery(0, true));
        assert_eq!(set_battery_power(version, false), battery(0, false));
    }
    for version in [8, 9, 10, u32::MAX] {
        assert_eq!(set_battery_power(version, true), battery(10, false));
        assert_eq!(set_battery_power(version, false), battery(10, true));
    }
}

#[test]
fn battery_off_undoes_on() {
    for version in 0..12 {
        let on = set_battery_power(version, true);
        let off = set_battery_power(version, false);
        assert_eq!(on[0], off[0]);
        match (on[1], off[1]) {
            (
                Operation::WritePin { pin: a, high: x },
                Operation::WritePin { pin: b, high: y },
            ) => {
                assert_eq!(on[0], Operation::SetOutput(a));
                assert_eq!(a, b);
                assert_ne!(x, y);
            }
            _ => panic!("the battery pin is not driven"),
        }
    }
}

#[test]
fn programming_mode_is_remembered_as_zero() {
    assert_eq!(
        enter_programming_mode_on_reboot(true),
        Operation::WriteRetained { index: 1, value: 0 }
    );
    assert_eq!(
        enter_programming_mode_on_reboot(false),
        Operation::WriteRetained { index: 1, value: 1 }
    );
}

#[test]
fn pins_are_connected() {
    let configure = |port, number, function, mode| Operation::ConfigurePin {
        pin: Pin { port, number },
        function,
        mode,
    };
    assert_eq!(
        setup_pinmux(),
        [
            configure(0, 3, PinFunction::Gpio, PinMode::PullDown),
            configure(0, 6, PinFunction::UsbConnect, PinMode::Floating),
            configure(1, 17, PinFunction::SerialReceive, PinMode::Floating),
            configure(1, 18, PinFunction::SerialTransmit, PinMode::Floating),
        ]
    );
}

#[test]
fn watchdog_sequences() {
    let init = [
        Operation::EnableClock(ClockedPart::Watchdog),
        Operation::Watchdog(WatchdogOperation::ResetMode),
        Operation::Watchdog(WatchdogOperation::ResetTimeout),
        Operation::Watchdog(WatchdogOperation::WriteWarning(0xffff)),
        Operation::Watchdog(WatchdogOperation::ResetWindow),
    ];
    let feed = [
        Operation::Watchdog(WatchdogOperation::Feed(0xaa)),
        Operation::Watchdog(WatchdogOperation::Feed(0x55)),
    ];
    assert_eq!(watchdog_init(), init);
    assert_eq!(watchdog_feed(), feed);
    let all = setup_watchdog(100);
    assert_eq!(all[..5], init);
    assert_eq!(
        all[5],
        Operation::Watchdog(WatchdogOperation::WriteTimeout(100))
    );
    assert_eq!(all[6], Operation::Watchdog(WatchdogOperation::Run));
    assert_eq!(all[7..], feed);
}
