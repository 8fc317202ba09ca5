use bootloader::vectors::{start_program2, Handler, Vector};

const SLOTS: [(Vector, u32); 30] = [
    (Vector::NonMaskableInt, 0x2008),
    (Vector::HardFault, 0x200c),
    (Vector::SvCall, 0x202c),
    (Vector::PendSv, 0x2038),
    (Vector::SysTick, 0x203c),
    (Vector::PinInt0, 0x2040),
    (Vector::PinInt1, 0x2044),
    (Vector::PinInt2, 0x2048),
    (Vector::PinInt3, 0x204c),
    (Vector::PinInt4, 0x2050),
    (Vector::PinInt5, 0x2054),
    (Vector::PinInt6, 0x2058),
    (Vector::PinInt7, 0x205c),
    (Vector::GInt0, 0x2060),
    (Vector::GInt1, 0x2064),
    (Vector::Ssp1, 0x2078),
    (Vector::I2c, 0x207c),
    (Vector::Ct16b0, 0x2080),
    (Vector::Ct16b1, 0x2084),
    (Vector::Ct32b0, 0x2088),
    (Vector::Ct32b1, 0x208c),
    (Vector::Ssp0, 0x2090),
    (Vector::Usart, 0x2094),
    (Vector::UsbIrq, 0x2098),
    (Vector::UsbFiq, 0x209c),
    (Vector::Adc, 0x20a0),
    (Vector::Wdt, 0x20a4),
    (Vector::BodIrq, 0x20a8),
    (Vector::FlashIrq, 0x20ac),
    (Vector::UsbWakeup, 0x20b8),
];

#[test]
fn slots() {
    for (vector, slot) in SLOTS {
        assert_eq!(vector.slot(), slot);
    }
}

#[test]
fn slots_are_distinct_words_of_the_table() {
    for (i, (a, _)) in SLOTS.iter().enumerate() {
        assert_eq!(a.slot() % 4, 0);
        assert!(a.slot() > 0x2004 && a.slot() < 0x20bc);
        assert_ne!(a.slot(), 0x2024);
        for (b, _) in &SLOTS[i + 1..] {
            assert_ne!(a.slot(), b.slot());
        }
    }
}

#[test]
fn shared_interrupts_follow_the_mode() {
    let shared = [
        Vector::PendSv,
        Vector::Ct32b1,
        Vector::Usart,
        Vector::UsbIrq,
    ];
    for (vector, slot) in SLOTS {
        let is_shared = shared.contains(&vector);
        assert_eq!(vector.depends_on_mode(), is_shared);
        if is_shared {
            assert_eq!(vector.route(0), Handler::ProgrammingMode);
        } else {
            assert_eq!(vector.route(0), Handler::Program2 { slot });
        }
        for mode in [1, 2, 0xecaa_bac0, u32::MAX] {
            assert_eq!(vector.route(mode), Handler::Program2 { slot });
        }
    }
}

#[test]
fn program2_starts_from_its_vector_table() {
    let entry = start_program2();
    assert_eq!(entry.stack_slot, 0x2000);
    assert_eq!(entry.entry_slot, 0x2004);
}
