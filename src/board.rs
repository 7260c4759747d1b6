use vstd::prelude::*;

use crate::position::{cell_index, in_bounds, lemma_cell_index_injective, Position};
use crate::ship::{lemma_cells, overlap, valid_fleet, Ship, Ships};

verus! {

/// A cell that was already targeted.
#[derive(Debug, Clone, Copy, PartialEq, Eq, Structural)]
pub struct AlreadyHitError;

/// The index of the ship on a cell, or `u8::MAX` for open water.
#[derive(Debug, Clone, Copy, PartialEq, Eq, Structural)]
struct ShipIndexReference(u8);

impl ShipIndexReference {
    fn from_option(index: Option<u8>) -> (r: ShipIndexReference)
        ensures
            r.0 == (match index {
                Some(i) => i,
                None => u8::MAX,
            }),
    {
        ShipIndexReference(
            match index {
                Some(i) => i,
                None => u8::MAX,
            },
        )
    }

    fn to_option(self) -> (r: Option<u8>)
        ensures
            r == (if self.0 == u8::MAX {
                None
            } else {
                Some(self.0)
            }),
    {
        if self.0 == u8::MAX {
            None
        } else {
            Some(self.0)
        }
    }
}

/// What targeting a cell found: open water, or a ship, together with that ship when
/// the shot sank it.
#[derive(Debug, Clone, Copy, PartialEq, Eq, Structural)]
pub enum AttackInfo {
    Hit(Option<Ship>),
    Miss,
}

/// Some ship of the fleet holds the cell.
pub open spec fn occupied(fleet: Seq<Ship>, c: (u8, u8)) -> bool {
    exists|j: int| 0 <= j < fleet.len() && #[trigger] fleet[j].plan().covers(c)
}

/// One player's fleet together with the cells the opponent has targeted.
pub struct Board {
    ships: Ships,
    ship_map: [ShipIndexReference; 100],
    hit_map: [bool; 100],
}

impl Board {
    /// The ships, in the order of the fleet.
    pub closed spec fn fleet(self) -> Seq<Ship> {
        self.ships.fleet()
    }

    /// The cells targeted so far.
    pub closed spec fn targeted(self) -> Set<(u8, u8)> {
        Set::new(|c: (u8, u8)| in_bounds(c) && self.hit_map@[cell_index(c)])
    }

    /// Every cell of ship `i` has been targeted.
    pub open spec fn sunk(self, i: int) -> bool {
        forall|c: (u8, u8)| #[trigger]
            self.fleet()[i].plan().covers(c) ==> self.targeted().contains(c)
    }

    /// Every cell of every ship has been targeted.
    pub open spec fn all_sunk(self) -> bool {
        forall|i: int| 0 <= i < 5 ==> #[trigger] self.sunk(i)
    }

    /// Targeting `pos` would be refused.
    pub open spec fn refuses(self, pos: Position) -> bool {
        self.targeted().contains(pos.coords())
    }

    #[verifier::type_invariant]
    closed spec fn wf(self) -> bool {
        let fleet = self.ships.fleet();
        &&& valid_fleet(fleet)
        &&& forall|j: int, c: (u8, u8)|
            0 <= j < 5 && in_bounds(c) && #[trigger] fleet[j].plan().covers(c) ==> (
            #[trigger] self.ship_map@[cell_index(c)]).0 == j
        &&& forall|c: (u8, u8)|
            in_bounds(c) ==> (#[trigger] self.ship_map@[cell_index(c)]).0 == u8::MAX || (
            self.ship_map@[cell_index(c)].0 < 5 && fleet[self.ship_map@[cell_index(
                c,
            )].0 as int].plan().covers(c))
    }

    /// A board with the given fleet on which nothing has been targeted.
    pub fn from_ships(ships: Ships) -> (r: Board)
        ensures
            r.fleet() == ships.fleet(),
            valid_fleet(r.fleet()),
            r.targeted() == Set::<(u8, u8)>::empty(),
    {
        proof {
            use_type_invariant(&ships);
            lemma_cell_index_injective();
        }
        let ghost fleet = ships.fleet();
        let mut ship_map: [ShipIndexReference; 100] = [ShipIndexReference::from_option(None); 100];
        let mut i: u8 = 0;
        while i < 5
            invariant
                0 <= i <= 5,
                fleet == ships.fleet(),
                valid_fleet(fleet),
                forall|j: int, c: (u8, u8)|
                    0 <= j < i && in_bounds(c) && #[trigger] fleet[j].plan().covers(c) ==> (
                    #[trigger] ship_map@[cell_index(c)]).0 == j,
                forall|c: (u8, u8)|
                    in_bounds(c) ==> (#[trigger] ship_map@[cell_index(c)]).0 == u8::MAX || (
                    ship_map@[cell_index(c)].0 < i && fleet[ship_map@[cell_index(
                        c,
                    )].0 as int].plan().covers(c)),
            decreases 5 - i,
        {
            tag_ship(&mut ship_map, &ships, i);
            i = i + 1;
        }
        let board = Board { ships, ship_map, hit_map: [false; 100] };
        assert(board.targeted() =~= Set::<(u8, u8)>::empty());
        board
    }

    /// Marks `pos` as targeted. Refused where it already was; otherwise reports open
    /// water, or the ship hit together with that ship if the shot sank it.
    pub fn target(&mut self, pos: Position) -> (r: Result<AttackInfo, AlreadyHitError>)
        ensures
            valid_fleet(old(self).fleet()),
            final(self).fleet() == old(self).fleet(),
            r is Err <==> old(self).refuses(pos),
            r is Err ==> final(self).targeted() == old(self).targeted(),
            r is Ok ==> final(self).targeted() == old(self).targeted().insert(pos.coords()),
            r is Ok ==> (r == Ok::<AttackInfo, AlreadyHitError>(AttackInfo::Miss) <==> !occupied(
                old(self).fleet(),
                pos.coords(),
            )),
            r is Ok ==> forall|j: int|
                0 <= j < 5 && #[trigger] old(self).fleet()[j].plan().covers(pos.coords()) ==> r
                    == Ok::<AttackInfo, AlreadyHitError>(
                    AttackInfo::Hit(
                        if final(self).sunk(j) {
                            Some(old(self).fleet()[j])
                        } else {
                            None
                        },
                    ),
                ),
    {
        proof {
            use_type_invariant(&*self);
            use_type_invariant(&pos);
            lemma_cell_index_injective();
        }
        let idx = pos.grid_index();
        if self.hit_map[idx] {
            return Err(AlreadyHitError);
        }
        let ghost before = self.targeted();
        self.hit_map[idx] = true;
        assert(self.targeted() =~= before.insert(pos.coords()));
        match self.ship_map[idx].to_option() {
            Some(i) => {
                let sunk = self.is_ship_sunken(i);
                if sunk {
                    Ok(AttackInfo::Hit(Some(self.ships.ship(i as usize))))
                } else {
                    Ok(AttackInfo::Hit(None))
                }
            },
            None => Ok(AttackInfo::Miss),
        }
    }

    /// Every cell of ship `i` has been targeted.
    pub fn is_ship_sunken(&self, i: u8) -> (r: bool)
        requires
            i < 5,
        ensures
            r == self.sunk(i as int),
    {
        proof {
            use_type_invariant(self);
            lemma_cell_index_injective();
        }
        let ship = self.ships.ship(i as usize);
        let ghost plan = ship.plan();
        proof {
            lemma_cells(plan);
        }
        let length = ship.length();
        let mut it = ship.into_iter();
        let mut k: u8 = 0;
        while k < length
            invariant
                k <= length,
                length == plan.len(),
                plan == self.fleet()[i as int].plan(),
                plan.on_grid(),
                it.rest() == plan.with_len((length - k) as u8),
                forall|kk: int|
                    0 <= kk < plan.len() ==> #[trigger] plan.covers(plan.cell(kk)) && plan.offset(
                        plan.cell(kk),
                    ) == kk && in_bounds(plan.cell(kk)),
                forall|kk: int|
                    length - k <= kk < length ==> self.targeted().contains(#[trigger] plan.cell(kk)),
            decreases length - k,
        {
            let pos = match it.next() {
                Some(p) => p,
                None => {
                    return false;
                },
            };
            assert(pos.coords() == plan.cell(length - k - 1));
            let idx = pos.grid_index();
            if !self.hit_map[idx] {
                proof {
                    assert(plan.covers(plan.cell(length - k - 1)));
                    assert(!self.targeted().contains(pos.coords()));
                }
                return false;
            }
            assert(self.targeted().contains(plan.cell(length - k - 1)));
            k = k + 1;
        }
        proof {
            assert forall|c: (u8, u8)| #[trigger] plan.covers(c) implies self.targeted().contains(c) by {
                assert(plan.cell(plan.offset(c)) == c);
            }
        }
        true
    }

    /// Every cell of every ship has been targeted.
    pub fn is_all_sunken(&self) -> (r: bool)
        ensures
            r == self.all_sunk(),
    {
        let mut i: u8 = 0;
        while i < 5
            invariant
                i <= 5,
                forall|j: int| 0 <= j < i ==> #[trigger] self.sunk(j),
            decreases 5 - i,
        {
            if !self.is_ship_sunken(i) {
                return false;
            }
            i = i + 1;
        }
        true
    }
}

/// Tags the cells of ship `i` with its index, on a map that already holds the ships
/// before it.
fn tag_ship(ship_map: &mut [ShipIndexReference; 100], ships: &Ships, i: u8)
    requires
        i < 5,
        valid_fleet(ships.fleet()),
        forall|j: int, c: (u8, u8)|
            0 <= j < i && in_bounds(c) && #[trigger] ships.fleet()[j].plan().covers(c) ==> (
            #[trigger] old(ship_map)@[cell_index(c)]).0 == j,
        forall|c: (u8, u8)|
            in_bounds(c) ==> (#[trigger] old(ship_map)@[cell_index(c)]).0 == u8::MAX || (
            old(ship_map)@[cell_index(c)].0 < i && ships.fleet()[old(ship_map)@[cell_index(
                c,
            )].0 as int].plan().covers(c)),
    ensures
        forall|j: int, c: (u8, u8)|
            0 <= j <= i && in_bounds(c) && #[trigger] ships.fleet()[j].plan().covers(c) ==> (
            #[trigger] final(ship_map)@[cell_index(c)]).0 == j,
        forall|c: (u8, u8)|
            in_bounds(c) ==> (#[trigger] final(ship_map)@[cell_index(c)]).0 == u8::MAX || (
            final(ship_map)@[cell_index(c)].0 <= i && ships.fleet()[final(ship_map)@[cell_index(
                c,
            )].0 as int].plan().covers(c)),
{
    let ghost fleet = ships.fleet();
    let ship = ships.ship(i as usize);
    let ghost plan = ship.plan();
    proof {
        lemma_cells(plan);
        lemma_cell_index_injective();
    }
    let length = ship.length();
    let mut it = ship.into_iter();
    let mut k: u8 = 0;
    while k < length
        invariant
            i < 5,
            k <= length,
            length == plan.len(),
            fleet == ships.fleet(),
            valid_fleet(fleet),
            plan == fleet[i as int].plan(),
            plan.on_grid(),
            it.rest() == plan.with_len((length - k) as u8),
            forall|c: (u8, u8)| #[trigger]
                plan.covers(c) ==> 0 <= plan.offset(c) < plan.len() && plan.cell(plan.offset(c)) == c,
            forall|kk: int|
                0 <= kk < plan.len() ==> #[trigger] plan.covers(plan.cell(kk)) && plan.offset(
                    plan.cell(kk),
                ) == kk && in_bounds(plan.cell(kk)),
            forall|a: (u8, u8), b: (u8, u8)|
                in_bounds(a) && in_bounds(b) && a != b ==> #[trigger] cell_index(a) != #[trigger] cell_index(b),
            forall|j: int, c: (u8, u8)|
                0 <= j < i && in_bounds(c) && #[trigger] fleet[j].plan().covers(c) ==> (
                #[trigger] ship_map@[cell_index(c)]).0 == j,
            forall|c: (u8, u8)|
                in_bounds(c) && plan.covers(c) && plan.offset(c) >= length - k ==> (
                #[trigger] ship_map@[cell_index(c)]).0 == i,
            forall|c: (u8, u8)|
                in_bounds(c) ==> (#[trigger] ship_map@[cell_index(c)]).0 == u8::MAX || (
                ship_map@[cell_index(c)].0 <= i && fleet[ship_map@[cell_index(c)].0 as int].plan().covers(
                    c,
                )),
        decreases length - k,
    {
        let pos = match it.next() {
            Some(p) => p,
            None => {
                return;
            },
        };
        let ghost c = pos.coords();
        assert(c == plan.cell(length - k - 1));
        assert(plan.covers(plan.cell(length - k - 1)));
        proof {
            assert forall|j: int| 0 <= j < i implies !(#[trigger] fleet[j].plan().covers(c)) by {
                if fleet[j].plan().covers(c) {
                    assert(overlap(fleet[j].plan(), fleet[i as int].plan()));
                }
            }
        }
        let idx = pos.grid_index();
        ship_map[idx] = ShipIndexReference::from_option(Some(i));
        k = k + 1;
    }
    proof {
        assert forall|j: int, c: (u8, u8)|
            0 <= j <= i && in_bounds(c) && #[trigger] fleet[j].plan().covers(c) implies (
            #[trigger] ship_map@[cell_index(c)]).0 == j by {
            if j == i {
                assert(plan.offset(c) >= 0);
            }
        }
    }
}

/// Once every ship is sunk the fleet stays sunk: targeting only ever adds cells.
pub proof fn lemma_all_sunk_monotonic(before: Board, after: Board)
    requires
        after.fleet() == before.fleet(),
        before.targeted().subset_of(after.targeted()),
        before.all_sunk(),
    ensures
        after.all_sunk(),
{
    assert forall|i: int| 0 <= i < 5 implies #[trigger] after.sunk(i) by {
        assert(before.sunk(i));
    }
}

/// A cell that was targeted once is refused the next time.
pub proof fn lemma_target_twice(before: Board, after: Board, pos: Position)
    requires
        !before.refuses(pos),
        after.targeted() == before.targeted().insert(pos.coords()),
    ensures
        after.refuses(pos),
{
}

} // verus!
