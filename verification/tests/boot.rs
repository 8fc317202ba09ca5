use bootloader::boot::{Outcome, Step};
use bootloader::bootloader::Bootloader;
use bootloader::device::{Answer, ClockedPart, Operation, Pin};
use bootloader::flash::{weird_flash_function, FlashOperation};
use bootloader::setup::{
    enter_programming_mode_on_reboot, set_battery_power, setup_pinmux, setup_watchdog,
};
use bootloader::vectors::{start_program2, Handler, Vector};

const SIGNATURE: u32 = 0xecaa_bac0;

/// A device that answers as its fields say, and notes what is done to it. A new
/// one was just powered on.
#[derive(Clone)]
struct Device {
    clock_rate: u32,
    eeprom: Vec<u8>,
    usb: Vec<bool>,
    brown_out: bool,
    power_on: bool,
    retained: [u32; 2],
    signature: u32,
    log: Vec<Operation>,
}

impl Device {
    fn new() -> Device {
        let mut device = Device {
            clock_rate: 48_000_000,
            eeprom: vec![0; 0x1000],
            usb: vec![false, false],
            brown_out: false,
            power_on: true,
            retained: [0, 0],
            signature: SIGNATURE,
            log: Vec::new(),
        };
        device.eeprom[..8].copy_from_slice(&[0x5a, 0xa5, 0, 0, 10, 0, 0, 0]);
        device
    }

    fn perform(&mut self, operation: Operation) -> Answer {
        self.log.push(operation);
        match operation {
            Operation::ReadMainClockRate => Answer::Word(self.clock_rate),
            Operation::ReadEepromRecord { address, clock } => {
                assert_eq!(clock, self.clock_rate / 1024);
                let start = address as usize;
                let mut record = [0; 8];
                record.copy_from_slice(&self.eeprom[start..start + 8]);
                Answer::EepromRecord(record)
            }
            Operation::WriteEepromRecord {
                address,
                record,
                clock,
            } => {
                assert_eq!(clock, self.clock_rate / 1024);
                let start = address as usize;
                self.eeprom[start..start + 8].copy_from_slice(&record);
                Answer::Done
            }
            Operation::ReadEepromWord { address, clock } => {
                assert_eq!(clock, self.clock_rate / 1024);
                let start = address as usize;
                let mut word = [0; 4];
                word.copy_from_slice(&self.eeprom[start..start + 4]);
                Answer::EepromWord(word)
            }
            Operation::WriteEepromWord {
                address,
                word,
                clock,
            } => {
                assert_eq!(clock, self.clock_rate / 1024);
                let start = address as usize;
                self.eeprom[start..start + 4].copy_from_slice(&word);
                Answer::Done
            }
            Operation::ReadPin(pin) => {
                assert_eq!(pin, Pin { port: 0, number: 3 });
                Answer::Flag(self.usb.remove(0))
            }
            Operation::ReadBrownOut => Answer::Flag(self.brown_out),
            Operation::ReadPowerOn => Answer::Flag(self.power_on),
            Operation::ClearPowerOn => {
                self.power_on = false;
                Answer::Done
            }
            Operation::ReadRetained { index } => Answer::Word(self.retained[index as usize]),
            Operation::WriteRetained { index, value } => {
                self.retained[index as usize] = value;
                Answer::Done
            }
            Operation::ReadMemory { address } => {
                assert_eq!(address, 0x2024);
                Answer::Word(self.signature)
            }
            _ => Answer::Done,
        }
    }

    fn boot(&mut self) -> Outcome {
        let mut bootloader = Bootloader::new();
        loop {
            match bootloader.next() {
                Step::Perform(operation) => {
                    let answer = self.perform(operation);
                    assert!(bootloader.answer(answer));
                }
                Step::Finish(outcome) => {
                    assert!(!bootloader.answer(Answer::Done));
                    assert_eq!(bootloader.next(), Step::Finish(outcome));
                    return outcome;
                }
            }
        }
    }
}

fn usb() -> Operation {
    Operation::ReadPin(Pin { port: 0, number: 3 })
}

/// What a boot does up to the decision when nothing is out of order.
fn plain_log(version: u32, clock: u32, second_power: bool) -> Vec<Operation> {
    let mut log = vec![
        Operation::InitializeSystem,
        Operation::ReadMainClockRate,
        Operation::ReadEepromRecord { address: 0, clock },
        Operation::EnableClock(ClockedPart::Gpio),
        usb(),
        Operation::ReadBrownOut,
        Operation::ReadPowerOn,
        Operation::ClearPowerOn,
        Operation::ReadRetained { index: 1 },
    ];
    log.extend(set_battery_power(version, true));
    log.push(Operation::WriteRetained { index: 1, value: 0 });
    log.extend(setup_pinmux());
    log.push(usb());
    log.extend(set_battery_power(version, second_power));
    log.push(Operation::ReadEepromWord {
        address: 0x500,
        clock,
    });
    log
}

fn into_program2() -> [Operation; 4] {
    [
        Operation::ReadRetained { index: 0 },
        Operation::ReadMemory { address: 0x2024 },
        Operation::WriteRetained { index: 1, value: 1 },
        Operation::EnableClock(ClockedPart::Ram1),
    ]
}

#[test]
fn second_program_takes_over() {
    let mut device = Device::new();
    assert_eq!(device.boot(), Outcome::StartProgram2(start_program2()));
    let mut expected = plain_log(10, 46_875, true);
    expected.extend(into_program2());
    assert_eq!(device.log, expected);
    assert_eq!(device.retained, [0, 1]);
}

#[test]
fn brown_out_is_not_looked_at_without_usb() {
    let mut device = Device::new();
    device.usb = vec![true, true];
    device.brown_out = true;
    assert_eq!(device.boot(), Outcome::StartProgram2(start_program2()));
    let mut expected = plain_log(10, 46_875, false);
    expected.retain(|operation| *operation != Operation::ReadBrownOut);
    expected.extend(into_program2());
    assert_eq!(device.log, expected);
}

#[test]
fn usb_may_change_in_between() {
    let mut device = Device::new();
    device.usb = vec![false, true];
    device.boot();
    let mut expected = plain_log(10, 46_875, false);
    expected.extend(into_program2());
    assert_eq!(device.log, expected);
}

#[test]
fn brown_out_cuts_the_battery_off() {
    for version in [3, 6, 10] {
        let mut device = Device::new();
        device.eeprom[4] = version;
        device.brown_out = true;
        assert_eq!(device.boot(), Outcome::Sleep);
        let mut expected = vec![
            Operation::InitializeSystem,
            Operation::ReadMainClockRate,
            Operation::ReadEepromRecord {
                address: 0,
                clock: 46_875,
            },
            Operation::EnableClock(ClockedPart::Gpio),
            usb(),
            Operation::ReadBrownOut,
            Operation::ClearBrownOut,
        ];
        expected.extend(set_battery_power(version as u32, false));
        assert_eq!(device.log, expected);
    }
}

#[test]
fn bad_record_is_replaced_before_it_is_used() {
    let mut device = Device::new();
    device.eeprom[..8].copy_from_slice(&[0xff; 8]);
    assert_eq!(device.boot(), Outcome::StartProgram2(start_program2()));
    let mut expected = plain_log(10, 46_875, true);
    expected.insert(
        3,
        Operation::WriteEepromRecord {
            address: 0,
            record: [0x5a, 0xa5, 0, 0, 10, 0, 0, 0],
            clock: 46_875,
        },
    );
    expected.extend(into_program2());
    assert_eq!(device.log, expected);
}

#[test]
fn old_hardware_has_its_own_battery_pin() {
    let mut device = Device::new();
    device.eeprom[4] = 6;
    device.boot();
    let mut expected = plain_log(6, 46_875, true);
    expected.extend(into_program2());
    assert_eq!(device.log, expected);
}

#[test]
fn request_leads_to_the_programming_mode_and_is_forgotten() {
    let mut device = Device::new();
    device.retained = [SIGNATURE, 1];
    assert_eq!(device.boot(), Outcome::EnterProgrammingMode);
    let mut expected = plain_log(10, 46_875, true);
    expected.push(Operation::ReadRetained { index: 0 });
    expected.push(Operation::WriteRetained { index: 0, value: 0 });
    assert_eq!(device.log, expected);
    assert_eq!(device.retained, [0, 0]);
}

#[test]
fn reset_reenters_the_programming_mode() {
    let mut device = Device::new();
    device.power_on = false;
    device.retained[1] = 1;
    device.perform(enter_programming_mode_on_reboot(true));
    device.log.clear();
    assert_eq!(device.boot(), Outcome::EnterProgrammingMode);
    let mut expected = plain_log(10, 46_875, true);
    expected.push(Operation::ReadRetained { index: 0 });
    expected.push(Operation::ReadMemory { address: 0x2024 });
    assert_eq!(device.log, expected);

    for _ in 0..3 {
        device.usb = vec![false, false];
        assert_eq!(device.boot(), Outcome::EnterProgrammingMode);
        assert_eq!(device.retained, [0, 0]);
    }

    device.perform(enter_programming_mode_on_reboot(false));
    for _ in 0..3 {
        device.usb = vec![false, false];
        assert_eq!(device.boot(), Outcome::StartProgram2(start_program2()));
        assert_eq!(device.retained, [0, 1]);
    }
}

#[test]
fn giving_up_keeps_the_mode_and_the_power_on() {
    for mode in [0, 1, 7] {
        for power_on in [false, true] {
            let mut device = Device::new();
            device.retained[1] = mode;
            device.power_on = power_on;
            device.brown_out = true;
            assert_eq!(device.boot(), Outcome::Sleep);
            assert_eq!(device.retained[1], mode);
            assert_eq!(device.power_on, power_on);
        }
    }
}

#[test]
fn power_on_starts_the_second_program_whatever_the_mode() {
    for mode in [0, 1, 7] {
        let mut device = Device::new();
        device.retained[1] = mode;
        assert_eq!(device.boot(), Outcome::StartProgram2(start_program2()));
        assert_eq!(device.retained, [0, 1]);
    }
}

#[test]
fn power_on_counts_once() {
    let mut device = Device::new();
    device.signature = 0;
    assert_eq!(device.boot(), Outcome::EnterProgrammingMode);
    assert!(!device.power_on);

    device.signature = SIGNATURE;
    device.usb = vec![false, false];
    assert_eq!(device.boot(), Outcome::EnterProgrammingMode);

    device.power_on = true;
    device.usb = vec![false, false];
    assert_eq!(device.boot(), Outcome::StartProgram2(start_program2()));
}

#[test]
fn no_second_program_leads_to_the_programming_mode() {
    let mut device = Device::new();
    device.signature = u32::MAX;
    assert_eq!(device.boot(), Outcome::EnterProgrammingMode);
    let mut expected = plain_log(10, 46_875, true);
    expected.push(Operation::ReadRetained { index: 0 });
    expected.push(Operation::ReadMemory { address: 0x2024 });
    assert_eq!(device.log, expected);
}

#[test]
fn version_zero_leads_to_the_programming_mode() {
    let mut device = Device::new();
    device.eeprom[4] = 0;
    assert_eq!(device.boot(), Outcome::EnterProgrammingMode);
    assert_eq!(device.retained[1], 0);
}

#[test]
fn staged_program_is_installed() {
    let mut device = Device::new();
    device.eeprom[0x500..0x504].copy_from_slice(&[15, 0, 0, 0]);
    assert_eq!(device.boot(), Outcome::StartProgram2(start_program2()));
    let mut expected = plain_log(10, 46_875, true);
    expected.push(Operation::WriteEepromWord {
        address: 0x500,
        word: [0; 4],
        clock: 46_875,
    });
    let mut installation = weird_flash_function(15, 46_875);
    while let Some(operation) = installation.operation() {
        expected.push(Operation::Flash(operation));
        installation.advance();
    }
    expected.extend(setup_watchdog(100));
    expected.extend(into_program2());
    assert_eq!(device.log, expected);
    assert_eq!(device.eeprom[0x500..0x504], [0; 4]);
    assert!(device.log.contains(&Operation::Flash(FlashOperation::LoadPage {
        address: 0xf000,
        length: 0x1000
    })));
}

#[test]
fn staged_page_out_of_range_only_starts_the_watchdog() {
    for staged in [[1, 0, 0, 0], [2, 0, 0, 0], [0x1c, 0, 0, 0], [0, 1, 0, 0]] {
        let mut device = Device::new();
        device.eeprom[0x500..0x504].copy_from_slice(&staged);
        device.boot();
        let mut expected = plain_log(10, 46_875, true);
        expected.push(Operation::WriteEepromWord {
            address: 0x500,
            word: [0; 4],
            clock: 46_875,
        });
        expected.extend(setup_watchdog(100));
        expected.extend(into_program2());
        assert_eq!(device.log, expected);
    }
}

#[test]
fn second_boot_changes_nothing() {
    let mut device = Device::new();
    device.eeprom[..8].copy_from_slice(&[0; 8]);
    device.eeprom[0x500..0x504].copy_from_slice(&[20, 0, 0, 0]);
    device.boot();
    let eeprom = device.eeprom.clone();
    device.usb = vec![false, false];
    device.log.clear();
    device.boot();
    assert_eq!(device.eeprom, eeprom);
    let mut expected = plain_log(10, 46_875, true);
    expected.extend(into_program2());
    assert_eq!(device.log, expected);
}

#[test]
fn interrupts_follow_the_outcome() {
    for (signature, request) in [(SIGNATURE, 0), (0, 0), (SIGNATURE, SIGNATURE)] {
        for before in [0, 1, 9] {
            let mut device = Device::new();
            device.signature = signature;
            device.retained = [request, before];
            let outcome = device.boot();
            let handler = Vector::UsbIrq.route(device.retained[1]);
            if outcome == Outcome::EnterProgrammingMode {
                assert_eq!(handler, Handler::ProgrammingMode);
            } else {
                assert_eq!(handler, Handler::Program2 { slot: 0x2098 });
            }
        }
    }
}

#[test]
fn outputs_and_clocks_come_first() {
    let mut device = Device::new();
    device.eeprom[0x500..0x504].copy_from_slice(&[26, 0, 0, 0]);
    device.boot();
    let gpio = Operation::EnableClock(ClockedPart::Gpio);
    let watchdog = Operation::EnableClock(ClockedPart::Watchdog);
    for (i, operation) in device.log.iter().enumerate() {
        let before = &device.log[..i];
        match operation {
            Operation::WritePin { pin, .. } => {
                assert_eq!(before[i - 1], Operation::SetOutput(*pin));
                assert!(before.contains(&gpio));
            }
            Operation::SetOutput(_) | Operation::ReadPin(_) => assert!(before.contains(&gpio)),
            Operation::Watchdog(_) => assert!(before.contains(&watchdog)),
            Operation::Flash(_) => assert!(before.contains(&Operation::WriteEepromWord {
                address: 0x500,
                word: [0; 4],
                clock: 46_875,
            })),
            _ => {}
        }
    }
}

#[test]
fn battery_follows_usb() {
    for version in [2, 5, 8] {
        for usb_later in [false, true] {
            let mut device = Device::new();
            device.eeprom[4] = version;
            device.usb = vec![true, usb_later];
            device.boot();
            let last = device
                .log
                .iter()
                .rev()
                .find(|operation| matches!(operation, Operation::WritePin { .. }));
            assert_eq!(
                last,
                Some(&set_battery_power(version as u32, !usb_later)[1])
            );
        }
    }
}

#[test]
fn answers_of_the_wrong_kind_are_refused() {
    let mut bootloader = Bootloader::new();
    assert_eq!(
        bootloader.next(),
        Step::Perform(Operation::InitializeSystem)
    );
    for wrong in [
        Answer::Flag(true),
        Answer::Word(0),
        Answer::EepromWord([0; 4]),
        Answer::EepromRecord([0; 8]),
    ] {
        assert!(!bootloader.answer(wrong));
    }
    assert!(bootloader.answer(Answer::Done));
    assert_eq!(
        bootloader.next(),
        Step::Perform(Operation::ReadMainClockRate)
    );
    assert!(!bootloader.answer(Answer::Done));
    assert!(bootloader.answer(Answer::Word(12_000_000)));
    assert_eq!(
        bootloader.next(),
        Step::Perform(Operation::ReadEepromRecord {
            address: 0,
            clock: 11_718
        })
    );
    assert!(!bootloader.answer(Answer::EepromWord([0; 4])));
    assert!(bootloader.answer(Answer::EepromRecord([0x5a, 0xa5, 0, 0, 10, 0, 0, 0])));
    assert_eq!(
        bootloader.next(),
        Step::Perform(Operation::EnableClock(ClockedPart::Gpio))
    );
}
