use bootloader::board::Board;
use bootloader::device::Operation;
use bootloader::eeprom::{word_from_bytes, word_to_bytes, EepromData};

#[test]
fn words_are_stored_low_byte_first() {
    assert_eq!(word_to_bytes(0x1234_5678), [0x78, 0x56, 0x34, 0x12]);
    assert_eq!(word_from_bytes([0x78, 0x56, 0x34, 0x12]), 0x1234_5678);
    assert_eq!(word_from_bytes([0xff, 0xff, 0xff, 0xff]), u32::MAX);
    assert_eq!(word_to_bytes(u32::MAX), [0xff; 4]);
    assert_eq!(word_to_bytes(0), [0; 4]);
}

#[test]
fn words_agree_with_the_standard_library() {
    for word in [0, 1, 0xff, 0x100, 0xffff, 0x1_0000, 0xa55a_0001, 0x8000_0000, u32::MAX] {
        assert_eq!(word_to_bytes(word), word.to_le_bytes());
        assert_eq!(word_from_bytes(word.to_le_bytes()), word);
    }
}

#[test]
fn record_layout() {
    let data = EepromData {
        magic: 0xa55a,
        unknown: 0x0102,
        version: 0x0a0b_0c0d,
    };
    let bytes = [0x5a, 0xa5, 0x02, 0x01, 0x0d, 0x0c, 0x0b, 0x0a];
    assert_eq!(data.to_bytes(), bytes);
    assert_eq!(EepromData::from_bytes(bytes), data);
}

#[test]
fn record_is_read_back_and_stored_again() {
    for seed in 0..=255u8 {
        let bytes = [
            seed,
            seed.wrapping_mul(3),
            seed ^ 0x55,
            !seed,
            seed.wrapping_add(7),
            seed.rotate_left(3),
            0xff,
            seed,
        ];
        let data = EepromData::from_bytes(bytes);
        assert_eq!(data.to_bytes(), bytes);
        assert_eq!(EepromData::from_bytes(data.to_bytes()), data);
    }
}

#[test]
fn board_starts_empty() {
    let board = Board::new();
    assert_eq!(board.main_clock_freq, 0);
    assert_eq!(board.mode, 0);
    assert!(!board.power_on);
    assert_eq!(board.eeprom_cache.to_bytes(), [0; 8]);
}

#[test]
fn clock_is_told_in_units_of_1024() {
    let mut board = Board::new();
    board.initialize_main_clock_freq(48_000_000);
    assert_eq!(board.programming_clock(), 46_875);
    assert_eq!(
        board.read_eeprom_record(),
        Operation::ReadEepromRecord {
            address: 0,
            clock: 46_875
        }
    );
}

#[test]
fn good_record_is_kept() {
    let mut board = Board::new();
    board.initialize_main_clock_freq(12_000_000);
    let repair = board.check_eeprom_magic([0x5a, 0xa5, 1, 0, 7, 0, 0, 0]);
    assert_eq!(repair, None);
    assert_eq!(
        board.eeprom_cache,
        EepromData {
            magic: 0xa55a,
            unknown: 1,
            version: 7
        }
    );
    assert_eq!(board.main_clock_freq, 12_000_000);
}

#[test]
fn record_without_magic_is_replaced() {
    let mut board = Board::new();
    board.initialize_main_clock_freq(12_000_000);
    let repair = board.check_eeprom_magic([0xff; 8]);
    assert_eq!(
        repair,
        Some(Operation::WriteEepromRecord {
            address: 0,
            record: [0x5a, 0xa5, 0, 0, 10, 0, 0, 0],
            clock: 11_718
        })
    );
    assert_eq!(
        board.eeprom_cache,
        EepromData {
            magic: 0xa55a,
            unknown: 0,
            version: 10
        }
    );
    assert_eq!(board.write_eeprom_cache(), repair.unwrap());
}

#[test]
fn swapped_magic_is_no_magic() {
    let mut board = Board::new();
    assert!(board.check_eeprom_magic([0xa5, 0x5a, 0, 0, 3, 0, 0, 0]).is_some());
    assert_eq!(board.eeprom_cache.version, 10);
}
