//! What installing a staged program does to the flash.
//!
//! The flash is modelled as the controller presents it: a sector has to be
//! prepared before it is erased or programmed, only an erased sector can be
//! programmed, and either operation locks the sectors again.

use vstd::prelude::*;

use crate::flash::{
    END_PAGE, FIRST_SECTOR, FlashOperation, SECTOR_SIZE, erase_operations, install_operations,
    lemma_next_multiple, move_operations, next_multiple, staged_operations, starts_run,
};

verus! {

/// What a sector holds.
pub enum Sector {
    Erased,
    Holds(Seq<u8>),
}

/// The flash, the sectors that are prepared, and the page buffer.
pub struct FlashState {
    pub sectors: Seq<Sector>,
    pub prepared: Set<int>,
    pub buffer: Sector,
}

/// The sector that starts at `address`.
pub open spec fn sector_at(address: u32) -> int {
    address as int / SECTOR_SIZE as int
}

impl FlashState {
    /// Whether `first` to `last` is a run of sectors of this flash.
    pub open spec fn has_run(self, first: u32, last: u32) -> bool {
        first <= last < self.sectors.len()
    }

    /// Whether a whole sector of this flash starts at `address`.
    pub open spec fn has_page(self, address: u32, length: u32) -> bool {
        &&& length == SECTOR_SIZE
        &&& address % SECTOR_SIZE == 0
        &&& sector_at(address) < self.sectors.len()
    }

    /// Whether the controller carries out `operation` now.
    pub open spec fn permits(self, operation: FlashOperation) -> bool {
        match operation {
            FlashOperation::Prepare { first, last } => self.has_run(first, last),
            FlashOperation::Erase { first, last, clock } => {
                &&& self.has_run(first, last)
                &&& forall|s: int| first <= s <= last ==> #[trigger] self.prepared.contains(s)
            },
            FlashOperation::LoadPage { address, length } => self.has_page(address, length),
            FlashOperation::ProgramPage { address, length, clock } => {
                &&& self.has_page(address, length)
                &&& self.prepared.contains(sector_at(address))
                &&& self.sectors[sector_at(address)] == Sector::Erased
            },
        }
    }

    /// The flash after `operation`.
    pub open spec fn after(self, operation: FlashOperation) -> FlashState {
        match operation {
            FlashOperation::Prepare { first, last } => FlashState {
                prepared: Set::new(|s: int| first <= s <= last),
                ..self
            },
            FlashOperation::Erase { first, last, clock } => FlashState {
                sectors: Seq::new(
                    self.sectors.len(),
                    |s: int|
                        if first <= s <= last {
                            Sector::Erased
                        } else {
                            self.sectors[s]
                        },
                ),
                prepared: Set::empty(),
                ..self
            },
            FlashOperation::LoadPage { address, length } => FlashState {
                buffer: self.sectors[sector_at(address)],
                ..self
            },
            FlashOperation::ProgramPage { address, length, clock } => FlashState {
                sectors: self.sectors.update(sector_at(address), self.buffer),
                prepared: Set::empty(),
                ..self
            },
        }
    }

    /// Whether the controller carries out all of `operations`, one after the
    /// other.
    pub open spec fn permits_all(self, operations: Seq<FlashOperation>) -> bool
        decreases operations.len(),
    {
        operations.len() > 0 ==> {
            &&& self.permits(operations[0])
            &&& self.after(operations[0]).permits_all(operations.drop_first())
        }
    }

    /// The flash after all of `operations`, one after the other.
    pub open spec fn after_all(self, operations: Seq<FlashOperation>) -> FlashState
        decreases operations.len(),
    {
        if operations.len() == 0 {
            self
        } else {
            self.after(operations[0]).after_all(operations.drop_first())
        }
    }
}

/// How many sectors, from the first on, are erased when `moved` pages were moved
/// down by `distance`: whole runs, as few as hold the pages that were moved.
pub open spec fn erased_count(distance: int, moved: int) -> int {
    (moved + distance - 1) / distance * distance
}

/// The flash that held `sectors`, with the pages that now stand below `sector`
/// moved down by `distance`.
pub open spec fn moved_below(sectors: Seq<Sector>, distance: int, sector: int) -> Seq<Sector> {
    Seq::new(
        sectors.len(),
        |s: int|
            if s < FIRST_SECTOR {
                sectors[s]
            } else if s < sector {
                sectors[s + distance]
            } else if s < FIRST_SECTOR + erased_count(distance, sector - FIRST_SECTOR) {
                Sector::Erased
            } else {
                sectors[s]
            },
    )
}

proof fn lemma_concatenation(
    state: FlashState,
    left: Seq<FlashOperation>,
    right: Seq<FlashOperation>,
)
    ensures
        state.after_all(left + right) == state.after_all(left).after_all(right),
        state.permits_all(left + right) <==> state.permits_all(left) && state.after_all(
            left,
        ).permits_all(right),
    decreases left.len(),
{
    if left.len() == 0 {
        assert(left + right =~= right);
    } else {
        assert((left + right).drop_first() =~= left.drop_first() + right);
        lemma_concatenation(state.after(left[0]), left.drop_first(), right);
    }
}

proof fn lemma_erased_count(distance: int, moved: int)
    requires
        distance > 0,
        moved >= 0,
    ensures
        next_multiple(distance, moved, erased_count(distance, moved)),
        erased_count(distance, moved + 1) == erased_count(distance, moved) + (if moved % distance
            == 0 {
            distance
        } else {
            0
        }),
{
    let e = erased_count(distance, moved);
    let f = erased_count(distance, moved + 1);
    lemma_round_up(distance, moved);
    lemma_round_up(distance, moved + 1);
    lemma_next_multiple(distance, moved, e);
    let g = if moved == e { e + distance } else { e };
    assert(next_multiple(distance, moved + 1, g));
    lemma_next_multiple_unique(distance, moved + 1, f, g);
}

proof fn lemma_round_up(distance: int, moved: int)
    requires
        distance > 0,
        moved >= 0,
    ensures
        next_multiple(distance, moved, erased_count(distance, moved)),
{
    let q = (moved + distance - 1) / distance;
    assert((q * distance) % distance == 0) by (nonlinear_arith)
        requires
            distance > 0,
    ;
    assert(moved <= q * distance < moved + distance) by (nonlinear_arith)
        requires
            distance > 0,
            q == (moved + distance - 1) / distance,
    ;
}

proof fn lemma_next_multiple_unique(d: int, k: int, e: int, f: int)
    requires
        d > 0,
        next_multiple(d, k, e),
        next_multiple(d, k, f),
    ensures
        e == f,
{
    assert(e == f) by (nonlinear_arith)
        requires
            d > 0,
            e % d == 0,
            f % d == 0,
            k <= e < k + d,
            k <= f < k + d,
    {
        let p = e / d;
        let q = f / d;
        assert(e == d * p);
        assert(f == d * q);
        assert(-d < d * (p - q) < d);
        assert(p - q < 1);
        assert(p - q > -1);
    }
}

/// Erasing the run that is due extends the erased sectors by one run.
proof fn lemma_run_erased(
    sectors: Seq<Sector>,
    state: FlashState,
    distance: int,
    sector: int,
    clock: u32,
)
    requires
        distance > 0,
        FIRST_SECTOR <= sector,
        sector + distance < END_PAGE <= sectors.len(),
        starts_run(distance, sector),
        state.sectors == moved_below(sectors, distance, sector),
    ensures
        state.permits_all(erase_operations(distance, sector, clock)),
        ({
            let after = state.after_all(erase_operations(distance, sector, clock));
            &&& after.sectors.len() == sectors.len()
            &&& forall|s: int|
                0 <= s < sectors.len() ==> #[trigger] after.sectors[s] == (if s < FIRST_SECTOR {
                    sectors[s]
                } else if s < sector {
                    sectors[s + distance]
                } else if s < FIRST_SECTOR + erased_count(distance, sector + 1 - FIRST_SECTOR) {
                    Sector::Erased
                } else {
                    sectors[s]
                })
        }),
{
    reveal_with_fuel(FlashState::permits_all, 3);
    reveal_with_fuel(FlashState::after_all, 3);
    lemma_erased_count(distance, sector - FIRST_SECTOR);
    lemma_next_multiple(
        distance,
        sector - FIRST_SECTOR,
        erased_count(distance, sector - FIRST_SECTOR),
    );
}

/// From any point of the installation on, the rest of it is carried out and
/// moves the rest of the pages.
proof fn lemma_rest_installed(
    sectors: Seq<Sector>,
    state: FlashState,
    distance: int,
    sector: int,
    clock: u32,
)
    requires
        distance > 0,
        FIRST_SECTOR <= sector,
        sector + distance <= END_PAGE <= sectors.len(),
        state.sectors == moved_below(sectors, distance, sector),
    ensures
        state.permits_all(install_operations(distance, sector, clock)),
        state.after_all(install_operations(distance, sector, clock)).sectors == moved_below(
            sectors,
            distance,
            END_PAGE - distance,
        ),
    decreases END_PAGE - sector - distance,
{
    if sector + distance < END_PAGE {
        let erase = erase_operations(distance, sector, clock);
        let copy = move_operations(distance, sector, clock);
        let later = install_operations(distance, sector + 1, clock);
        lemma_erased_count(distance, sector - FIRST_SECTOR);
        lemma_next_multiple(
            distance,
            sector - FIRST_SECTOR,
            erased_count(distance, sector - FIRST_SECTOR),
        );
        let ready = if starts_run(distance, sector) {
            lemma_run_erased(sectors, state, distance, sector, clock);
            lemma_concatenation(state, erase, copy + later);
            state.after_all(erase)
        } else {
            assert(seq![] + (copy + later) =~= copy + later);
            state
        };
        lemma_concatenation(ready, copy, later);
        let moved = ready.after_all(copy);
        assert(ready.permits_all(copy) && moved.sectors =~= moved_below(
            sectors,
            distance,
            sector + 1,
        )) by {
            reveal_with_fuel(FlashState::permits_all, 4);
            reveal_with_fuel(FlashState::after_all, 4);
        }
        lemma_rest_installed(sectors, moved, distance, sector + 1, clock);
    }
}

/// The flash after the program staged at `page` was installed.
pub open spec fn installed(sectors: Seq<Sector>, page: u32) -> Seq<Sector> {
    if FIRST_SECTOR < page < END_PAGE {
        moved_below(sectors, page - FIRST_SECTOR, END_PAGE - (page - FIRST_SECTOR))
    } else {
        sectors
    }
}

/// The controller carries out every operation of an installation: what is
/// erased or programmed was prepared, and what is programmed was erased. It
/// leaves the flash as `installed` says.
pub proof fn lemma_installation(state: FlashState, page: u32, clock: u32)
    requires
        state.sectors.len() >= END_PAGE,
    ensures
        state.permits_all(staged_operations(page, clock)),
        state.after_all(staged_operations(page, clock)).sectors == installed(state.sectors, page),
{
    if FIRST_SECTOR < page < END_PAGE {
        lemma_erased_count(page - FIRST_SECTOR, 0);
        lemma_next_multiple(page - FIRST_SECTOR, 0, erased_count(page - FIRST_SECTOR, 0));
        assert(state.sectors =~= moved_below(
            state.sectors,
            page - FIRST_SECTOR,
            FIRST_SECTOR as int,
        ));
        lemma_rest_installed(
            state.sectors,
            state,
            page - FIRST_SECTOR,
            FIRST_SECTOR as int,
            clock,
        );
    }
}

/// No page of the staged program is lost: each arrives, in its order, from
/// sector 2 on, though the sectors that it came from may be erased on the way.
pub proof fn lemma_program_arrives(sectors: Seq<Sector>, page: u32, offset: int)
    requires
        sectors.len() >= END_PAGE,
        FIRST_SECTOR < page,
        0 <= offset < END_PAGE - page,
    ensures
        installed(sectors, page)[FIRST_SECTOR + offset] == sectors[page + offset],
{
}

/// The sectors of the bootloader are left alone, and so is all that lies at or
/// above the last page that a staged program can have.
pub proof fn lemma_rest_untouched(sectors: Seq<Sector>, page: u32, sector: int)
    requires
        sectors.len() >= END_PAGE,
        0 <= sector < FIRST_SECTOR || END_PAGE - 1 <= sector < sectors.len(),
    ensures
        installed(sectors, page).len() == sectors.len(),
        installed(sectors, page)[sector] == sectors[sector],
{
    if FIRST_SECTOR < page < END_PAGE {
        let distance = page - FIRST_SECTOR;
        let moved = END_PAGE - page;
        lemma_erased_count(distance, moved);
        lemma_erased_count(distance, moved - 1);
        lemma_next_multiple(distance, moved - 1, erased_count(distance, moved - 1));
    }
}

} // verus!
