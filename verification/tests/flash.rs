use bootloader::flash::{weird_flash_function, FlashOperation};

fn operations(page: u32, clock: u32) -> Vec<FlashOperation> {
    let mut installation = weird_flash_function(page, clock);
    let mut all = Vec::new();
    while let Some(operation) = installation.operation() {
        all.push(operation);
        installation.advance();
    }
    installation.advance();
    assert_eq!(installation.operation(), None);
    all
}

/// What moving the pages down looks like when it is written as one loop.
fn looped(mut page: u32, clock: u32) -> Vec<FlashOperation> {
    let mut all = Vec::new();
    let mut sector = 2;
    let mut erased = 1;
    if page <= 2 {
        return all;
    }
    while page < 0x1c {
        if erased < sector {
            all.push(FlashOperation::Prepare {
                first: erased + 1,
                last: page - 1,
            });
            all.push(FlashOperation::Erase {
                first: erased + 1,
                last: page - 1,
                clock,
            });
            erased = page - 1;
        }
        all.push(FlashOperation::LoadPage {
            address: page << 12,
            length: 0x1000,
        });
        all.push(FlashOperation::Prepare {
            first: sector,
            last: sector,
        });
        all.push(FlashOperation::ProgramPage {
            address: sector << 12,
            length: 0x1000,
            clock,
        });
        page += 1;
        sector += 1;
    }
    all
}

#[test]
fn low_pages_move_nothing() {
    for page in 0..3 {
        assert_eq!(operations(page, 1), vec![]);
    }
}

#[test]
fn pages_behind_the_end_move_nothing() {
    for page in [0x1c, 0x1d, 0x100, u32::MAX] {
        assert_eq!(operations(page, 1), vec![]);
    }
}

#[test]
fn last_page_alone() {
    assert_eq!(
        operations(0x1b, 46_875),
        vec![
            FlashOperation::Prepare { first: 2, last: 26 },
            FlashOperation::Erase {
                first: 2,
                last: 26,
                clock: 46_875
            },
            FlashOperation::LoadPage {
                address: 0x1_b000,
                length: 0x1000
            },
            FlashOperation::Prepare { first: 2, last: 2 },
            FlashOperation::ProgramPage {
                address: 0x2000,
                length: 0x1000,
                clock: 46_875
            },
        ]
    );
}

#[test]
fn next_run_is_erased_once_its_pages_are_moved() {
    let all = operations(4, 9);
    let runs: Vec<(u32, u32)> = all
        .iter()
        .filter_map(|operation| match operation {
            FlashOperation::Erase { first, last, clock } => {
                assert_eq!(*clock, 9);
                Some((*first, *last))
            }
            _ => None,
        })
        .collect();
    let expected: Vec<(u32, u32)> = (1..=12).map(|k| (2 * k, 2 * k + 1)).collect();
    assert_eq!(runs, expected);
    assert_eq!(all.len(), 2 * 12 + 3 * 24);
}

#[test]
fn every_page_as_one_loop_does_it() {
    for page in 0..40 {
        assert_eq!(operations(page, 46_875), looped(page, 46_875));
    }
}

#[test]
fn staged_program_arrives_and_the_rest_is_left_alone() {
    for page in 3..0x1c_usize {
        let before: Vec<Option<usize>> = (0..32).map(Some).collect();
        let mut sectors = before.clone();
        let mut prepared: Vec<usize> = Vec::new();
        let mut buffer = None;
        for operation in operations(page as u32, 1) {
            match operation {
                FlashOperation::Prepare { first, last } => {
                    assert!(first <= last && last < 32);
                    prepared = (first as usize..=last as usize).collect();
                }
                FlashOperation::Erase { first, last, .. } => {
                    for sector in first as usize..=last as usize {
                        assert!(prepared.contains(&sector));
                        sectors[sector] = None;
                    }
                    prepared.clear();
                }
                FlashOperation::LoadPage { address, length } => {
                    assert_eq!(length, 0x1000);
                    buffer = sectors[(address / 0x1000) as usize];
                }
                FlashOperation::ProgramPage {
                    address, length, ..
                } => {
                    let sector = (address / 0x1000) as usize;
                    assert_eq!(length, 0x1000);
                    assert!(prepared.contains(&sector));
                    assert_eq!(sectors[sector], None);
                    sectors[sector] = buffer;
                    prepared.clear();
                }
            }
        }
        for offset in 0..0x1c - page {
            assert_eq!(sectors[2 + offset], before[page + offset]);
        }
        for sector in [0, 1, 27, 28, 29, 30, 31] {
            if sector >= 2 + 0x1c - page || sector < 2 {
                assert_eq!(sectors[sector], before[sector]);
            }
        }
    }
}
