//! Installing a program that was staged in the upper part of the flash.
//!
//! The flash is split into sectors of one page each. The staged program starts
//! at some page and ends before page 28; it is moved down, page after page, so
//! that it starts at sector 2. The sectors are erased in runs: a run reaches up
//! to the page that is moved next, so it holds only what was moved before.

use vstd::prelude::*;

verus! {

/// The size of a sector, and of a page.
pub const SECTOR_SIZE: u32 = 0x1000;

/// Where the installed program starts. The sectors below hold the bootloader.
pub const FIRST_SECTOR: u32 = 2;

/// The page at which a staged program ends.
pub const END_PAGE: u32 = 0x1c;

/// One operation on the flash.
#[derive(Clone, Copy, Debug, PartialEq, Eq)]
pub enum FlashOperation {
    /// Unlock the sectors `first` to `last` for the next erasure or programming.
    Prepare { first: u32, last: u32 },
    /// Erase the sectors `first` to `last`; `clock` is the main clock in units of
    /// 1024 Hz, here and where a page is programmed.
    Erase { first: u32, last: u32, clock: u32 },
    /// Copy `length` bytes at `address` to the page buffer.
    LoadPage { address: u32, length: u32 },
    /// Program `length` bytes of the page buffer at `address`.
    ProgramPage { address: u32, length: u32, clock: u32 },
}

/// The operations that erase the run of sectors starting at `sector` when every
/// page is moved down by `distance`.
pub open spec fn erase_operations(distance: int, sector: int, clock: u32) -> Seq<FlashOperation> {
    let first = sector as u32;
    let last = (sector + distance - 1) as u32;
    seq![FlashOperation::Prepare { first, last }, FlashOperation::Erase { first, last, clock }]
}

/// The operations that move one page down by `distance`, to `sector`.
pub open spec fn move_operations(distance: int, sector: int, clock: u32) -> Seq<FlashOperation> {
    seq![
        FlashOperation::LoadPage {
            address: ((sector + distance) * SECTOR_SIZE) as u32,
            length: SECTOR_SIZE,
        },
        FlashOperation::Prepare { first: sector as u32, last: sector as u32 },
        FlashOperation::ProgramPage {
            address: (sector * SECTOR_SIZE) as u32,
            length: SECTOR_SIZE,
            clock,
        },
    ]
}

/// Whether a run of sectors is erased before `sector` is programmed: that is
/// due at the first sector and at every `distance`-th after it.
pub open spec fn starts_run(distance: int, sector: int) -> bool {
    (sector - FIRST_SECTOR) % distance == 0
}

/// The operations that move the pages from `sector + distance` on down to
/// `sector` and what follows it.
pub open spec fn install_operations(distance: int, sector: int, clock: u32) -> Seq<FlashOperation>
    decreases END_PAGE - sector - distance,
{
    if sector + distance >= END_PAGE {
        seq![]
    } else {
        (if starts_run(distance, sector) {
            erase_operations(distance, sector, clock)
        } else {
            seq![]
        }) + (move_operations(distance, sector, clock) + install_operations(
            distance,
            sector + 1,
            clock,
        ))
    }
}

/// All operations that install the program staged at `page`. A page among those
/// of the bootloader, or the first behind them, moves nothing.
pub open spec fn staged_operations(page: u32, clock: u32) -> Seq<FlashOperation> {
    if page <= FIRST_SECTOR {
        seq![]
    } else {
        install_operations(page - FIRST_SECTOR, FIRST_SECTOR as int, clock)
    }
}

/// What the installation does next.
#[derive(Clone, Copy, Debug, PartialEq, Eq)]
enum Phase {
    PrepareRun,
    EraseRun,
    LoadPage,
    PrepareSector,
    ProgramPage,
    Finished,
}

/// An installation under way: which page is moved next, where to, and up to
/// which sector the flash is erased.
#[derive(Clone, Copy, Debug, PartialEq, Eq)]
pub struct Installation {
    page: u32,
    sector: u32,
    erased: u32,
    clock: u32,
    phase: Phase,
}

/// Of the numbers `0`, `d`, `2 * d`, .. the least that is not below `k` is `e`.
pub open spec fn next_multiple(d: int, k: int, e: int) -> bool {
    &&& e % d == 0
    &&& k <= e < k + d
}

pub proof fn lemma_next_multiple(d: int, k: int, e: int)
    requires
        d > 0,
        0 <= k,
        next_multiple(d, k, e),
    ensures
        k % d == 0 <==> k == e,
        k < e ==> next_multiple(d, k + 1, e),
        k == e ==> next_multiple(d, k + 1, e + d),
{
    if k < e {
        assert(k % d != 0) by (nonlinear_arith)
            requires
                d > 0,
                e % d == 0,
                k < e < k + d,
        {
            if k % d == 0 {
                let q = e / d;
                let p = k / d;
                assert(e == d * q);
                assert(k == d * p);
                assert(d * (q - p) > 0);
                assert(d * (q - p) < d);
                assert(q - p > 0);
                assert(q - p < 1);
            }
        }
    } else {
        assert((e + d) % d == 0) by (nonlinear_arith)
            requires
                d > 0,
                e % d == 0,
        ;
    }
}

impl Installation {
    /// By how many pages the program is moved down.
    spec fn distance(self) -> int {
        self.page - self.sector
    }

    /// What holds between two calls.
    pub closed spec fn wf(self) -> bool {
        &&& self.phase != Phase::Finished ==> {
            &&& FIRST_SECTOR <= self.sector < self.page < END_PAGE
            &&& self.erased < self.page
            &&& if self.phase == Phase::PrepareRun || self.phase == Phase::EraseRun {
                self.erased + 1 == self.sector && starts_run(self.distance(), self.sector as int)
            } else {
                next_multiple(
                    self.distance(),
                    self.sector + 1 - FIRST_SECTOR,
                    self.erased + 1 - FIRST_SECTOR,
                )
            }
        }
    }

    /// The operations that are left, in order.
    pub closed spec fn remaining(self) -> Seq<FlashOperation> {
        let d = self.distance();
        let s = self.sector as int;
        let erase = erase_operations(d, s, self.clock);
        let copy = move_operations(d, s, self.clock);
        let later = install_operations(d, s + 1, self.clock);
        match self.phase {
            Phase::PrepareRun => erase + (copy + later),
            Phase::EraseRun => erase.skip(1) + (copy + later),
            Phase::LoadPage => copy + later,
            Phase::PrepareSector => copy.skip(1) + later,
            Phase::ProgramPage => copy.skip(2) + later,
            Phase::Finished => seq![],
        }
    }

    /// Goes to the operation that comes first for the current page.
    fn enter_page(&mut self)
        requires
            FIRST_SECTOR <= old(self).sector < old(self).page <= END_PAGE,
            old(self).erased < old(self).page,
            next_multiple(
                old(self).distance(),
                old(self).sector - FIRST_SECTOR,
                old(self).erased + 1 - FIRST_SECTOR,
            ),
        ensures
            final(self).wf(),
            final(self).remaining() == install_operations(
                old(self).distance(),
                old(self).sector as int,
                old(self).clock,
            ),
    {
        proof {
            lemma_next_multiple(
                self.distance(),
                self.sector - FIRST_SECTOR,
                self.erased + 1 - FIRST_SECTOR,
            );
        }
        if self.page >= END_PAGE {
            self.phase = Phase::Finished;
        } else if self.erased < self.sector {
            self.phase = Phase::PrepareRun;
        } else {
            self.phase = Phase::LoadPage;
        }
        assert(self.remaining() =~= install_operations(
            old(self).distance(),
            old(self).sector as int,
            old(self).clock,
        ));
    }

    /// The operation that is due, if any is left.
    pub fn operation(&self) -> (operation: Option<FlashOperation>)
        requires
            self.wf(),
        ensures
            operation == (if self.remaining().len() == 0 {
                None
            } else {
                Some(self.remaining()[0])
            }),
    {
        match self.phase {
            Phase::PrepareRun => Some(
                FlashOperation::Prepare { first: self.erased + 1, last: self.page - 1 },
            ),
            Phase::EraseRun => Some(
                FlashOperation::Erase {
                    first: self.erased + 1,
                    last: self.page - 1,
                    clock: self.clock,
                },
            ),
            Phase::LoadPage => Some(
                FlashOperation::LoadPage { address: self.page * SECTOR_SIZE, length: SECTOR_SIZE },
            ),
            Phase::PrepareSector => Some(
                FlashOperation::Prepare { first: self.sector, last: self.sector },
            ),
            Phase::ProgramPage => Some(
                FlashOperation::ProgramPage {
                    address: self.sector * SECTOR_SIZE,
                    length: SECTOR_SIZE,
                    clock: self.clock,
                },
            ),
            Phase::Finished => None,
        }
    }

    /// Goes on to the next operation.
    pub fn advance(&mut self)
        requires
            old(self).wf(),
        ensures
            final(self).wf(),
            final(self).remaining() == (if old(self).remaining().len() == 0 {
                seq![]
            } else {
                old(self).remaining().drop_first()
            }),
    {
        match self.phase {
            Phase::PrepareRun => {
                self.phase = Phase::EraseRun;
            },
            Phase::EraseRun => {
                proof {
                    lemma_next_multiple(
                        self.distance(),
                        self.sector - FIRST_SECTOR,
                        self.erased + 1 - FIRST_SECTOR,
                    );
                }
                self.erased = self.page - 1;
                self.phase = Phase::LoadPage;
            },
            Phase::LoadPage => {
                self.phase = Phase::PrepareSector;
            },
            Phase::PrepareSector => {
                self.phase = Phase::ProgramPage;
            },
            Phase::ProgramPage => {
                self.page += 1;
                self.sector += 1;
                self.enter_page();
            },
            Phase::Finished => {},
        }
        assert(self.remaining() =~= (if old(self).remaining().len() == 0 {
            seq![]
        } else {
            old(self).remaining().drop_first()
        }));
    }
}

/// Starts the installation of the program staged at `ram_page`.
pub fn weird_flash_function(ram_page: u32, clock: u32) -> (installation: Installation)
    ensures
        installation.wf(),
        installation.remaining() == staged_operations(ram_page, clock),
{
    let mut installation = Installation {
        page: ram_page,
        sector: FIRST_SECTOR,
        erased: FIRST_SECTOR - 1,
        clock,
        phase: Phase::Finished,
    };
    if ram_page > FIRST_SECTOR && ram_page < END_PAGE {
        installation.enter_page();
    }
    installation
}

} // verus!
