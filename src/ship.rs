use vstd::prelude::*;

use crate::position::{cell_index, in_bounds, lemma_cell_index_injective, Position};

verus! {

/// A ship whose body leaves the grid.
#[derive(Debug, Clone, Copy, PartialEq, Eq, Structural)]
pub struct OutOfBoundsError;

/// The first rule that a fleet breaks, in the order in which the fleet is checked.
#[derive(Debug, Clone, Copy, PartialEq, Eq, Structural)]
pub enum ShipCollectionError {
    Overlap,
    InvalidShipLengths,
}

/// Where a ship could be placed; not yet checked against the grid.
#[derive(Debug, Clone, Copy, PartialEq, Eq, Structural)]
pub enum ShipPlan {
    Horizontal { pos: Position, length: u8 },
    Vertical { pos: Position, length: u8 },
}

impl ShipPlan {
    pub open spec fn anchor(self) -> Position {
        match self {
            ShipPlan::Horizontal { pos, .. } => pos,
            ShipPlan::Vertical { pos, .. } => pos,
        }
    }

    pub open spec fn len(self) -> u8 {
        match self {
            ShipPlan::Horizontal { length, .. } => length,
            ShipPlan::Vertical { length, .. } => length,
        }
    }

    /// The same plan with another length.
    pub open spec fn with_len(self, length: u8) -> ShipPlan {
        match self {
            ShipPlan::Horizontal { pos, .. } => ShipPlan::Horizontal { pos, length },
            ShipPlan::Vertical { pos, .. } => ShipPlan::Vertical { pos, length },
        }
    }

    /// The body stays on the grid.
    pub open spec fn fits(self) -> bool {
        let (x, y) = self.anchor().coords();
        match self {
            ShipPlan::Horizontal { .. } => x + self.len() <= 10,
            ShipPlan::Vertical { .. } => y + self.len() <= 10,
        }
    }

    /// The anchor is on the grid and the body stays on it.
    pub open spec fn on_grid(self) -> bool {
        in_bounds(self.anchor().coords()) && self.fits()
    }

    /// The cell `k` steps from the anchor along the ship's axis.
    pub open spec fn cell(self, k: int) -> (u8, u8) {
        let (x, y) = self.anchor().coords();
        match self {
            ShipPlan::Horizontal { .. } => ((x + k) as u8, y),
            ShipPlan::Vertical { .. } => (x, (y + k) as u8),
        }
    }

    /// The ship's body holds the cell `c`.
    pub open spec fn covers(self, c: (u8, u8)) -> bool {
        let (x, y) = self.anchor().coords();
        match self {
            ShipPlan::Horizontal { .. } => c.1 == y && x <= c.0 < x + self.len(),
            ShipPlan::Vertical { .. } => c.0 == x && y <= c.1 < y + self.len(),
        }
    }

    /// How many steps from the anchor a covered cell lies.
    pub open spec fn offset(self, c: (u8, u8)) -> int {
        let (x, y) = self.anchor().coords();
        match self {
            ShipPlan::Horizontal { .. } => c.0 - x,
            ShipPlan::Vertical { .. } => c.1 - y,
        }
    }

    /// Every cell that the body holds.
    pub open spec fn footprint(self) -> Set<(u8, u8)> {
        Set::new(|c: (u8, u8)| self.covers(c))
    }

    pub fn length(&self) -> (r: u8)
        ensures
            r == self.len(),
    {
        match self {
            ShipPlan::Horizontal { length, .. } => *length,
            ShipPlan::Vertical { length, .. } => *length,
        }
    }

    pub fn anchor_position(&self) -> (r: Position)
        ensures
            r == self.anchor(),
    {
        match self {
            ShipPlan::Horizontal { pos, .. } => *pos,
            ShipPlan::Vertical { pos, .. } => *pos,
        }
    }
}

/// The cells of a plan are exactly those `cell(k)` with `k` below its length, and
/// those of a plan that lies on the grid are on the grid.
pub proof fn lemma_cells(plan: ShipPlan)
    ensures
        forall|c: (u8, u8)| #[trigger]
            plan.covers(c) ==> 0 <= plan.offset(c) < plan.len() && plan.cell(plan.offset(c)) == c,
        plan.on_grid() ==> forall|k: int|
            0 <= k < plan.len() ==> #[trigger] plan.covers(plan.cell(k)) && plan.offset(
                plan.cell(k),
            ) == k && in_bounds(plan.cell(k)),
{
}

/// A plan checked to lie on the grid.
#[derive(Debug, Clone, Copy, PartialEq, Eq, Structural)]
pub struct Ship(ShipPlan);

impl Ship {
    pub closed spec fn plan(self) -> ShipPlan {
        self.0
    }

    #[verifier::type_invariant]
    pub open spec fn placed(self) -> bool {
        self.plan().on_grid()
    }

    /// The ship placed as `plan`.
    pub closed spec fn from_plan_spec(plan: ShipPlan) -> Ship {
        Ship(plan)
    }

    pub proof fn lemma_from_plan_spec(plan: ShipPlan)
        ensures
            Ship::from_plan_spec(plan).plan() == plan,
    {
    }

    /// Two ships with the same plan are the same ship.
    pub proof fn lemma_plan_determines(a: Ship, b: Ship)
        requires
            a.plan() == b.plan(),
        ensures
            a == b,
    {
    }

    pub fn try_from_plan(plan: ShipPlan) -> (r: Result<Ship, OutOfBoundsError>)
        ensures
            r is Ok <==> plan.fits(),
            r matches Ok(ship) ==> ship.plan() == plan,
    {
        let pos = plan.anchor_position();
        proof {
            use_type_invariant(&pos);
        }
        let (x, y) = pos.to_coords();
        let end: u16 = match plan {
            ShipPlan::Horizontal { length, .. } => x as u16 + length as u16,
            ShipPlan::Vertical { length, .. } => y as u16 + length as u16,
        };
        if end <= 10 {
            Ok(Ship(plan))
        } else {
            Err(OutOfBoundsError)
        }
    }

    pub fn to_ship_plan(self) -> (r: ShipPlan)
        ensures
            r == self.plan(),
    {
        self.0
    }

    pub fn length(&self) -> (r: u8)
        ensures
            r == self.plan().len(),
    {
        self.0.length()
    }

    /// Walks the cells of the ship, from the far end back to the anchor.
    pub fn into_iter(self) -> (r: ShipAreaIterator)
        ensures
            r.rest() == self.plan(),
    {
        proof {
            use_type_invariant(&self);
        }
        ShipAreaIterator(self.0)
    }

    /// The cells of the ship, from the far end back to the anchor.
    pub fn positions(&self) -> (r: Vec<Position>)
        ensures
            r@.len() == self.plan().len(),
            forall|i: int|
                0 <= i < r@.len() ==> #[trigger] r@[i].coords() == self.plan().cell(
                    self.plan().len() - 1 - i,
                ),
            forall|c: (u8, u8)|
                self.plan().covers(c) <==> exists|i: int|
                    0 <= i < r@.len() && #[trigger] r@[i].coords() == c,
    {
        let plan = self.0;
        let mut it = self.into_iter();
        let mut out: Vec<Position> = Vec::new();
        loop
            invariant
                out@.len() <= plan.len(),
                it.rest() == plan.with_len((plan.len() - out@.len()) as u8),
                forall|i: int|
                    0 <= i < out@.len() ==> #[trigger] out@[i].coords() == plan.cell(
                        plan.len() - 1 - i,
                    ),
            ensures
                out@.len() == plan.len(),
                forall|i: int|
                    0 <= i < out@.len() ==> #[trigger] out@[i].coords() == plan.cell(
                        plan.len() - 1 - i,
                    ),
            decreases plan.len() - out@.len(),
        {
            match it.next() {
                Some(p) => out.push(p),
                None => break,
            }
        }
        proof {
            use_type_invariant(&*self);
            lemma_cells(plan);
            assert forall|c: (u8, u8)|
                (exists|i: int| 0 <= i < out@.len() && #[trigger] out@[i].coords() == c) implies plan.covers(c) by {
                let i = choose|i: int| 0 <= i < out@.len() && #[trigger] out@[i].coords() == c;
                assert(plan.covers(plan.cell(plan.len() - 1 - i)));
            }
            assert forall|c: (u8, u8)|
                plan.covers(c) implies exists|i: int|
                    0 <= i < out@.len() && #[trigger] out@[i].coords() == c by {
                let i = plan.len() - 1 - plan.offset(c);
                assert(out@[i].coords() == c);
            }
        }
        out
    }
}

impl TryFrom<ShipPlan> for Ship {
    type Error = OutOfBoundsError;

    fn try_from(plan: ShipPlan) -> (r: Result<Ship, OutOfBoundsError>) {
        let r = Ship::try_from_plan(plan);
        proof {
            Ship::lemma_from_plan_spec(plan);
            match r {
                Ok(ship) => Ship::lemma_plan_determines(ship, Ship::from_plan_spec(plan)),
                Err(e) => assert(e == OutOfBoundsError),
            }
        }
        r
    }
}

/// A plan becomes a ship exactly when it fits on the grid.
impl vstd::std_specs::convert::TryFromSpecImpl<ShipPlan> for Ship {
    open spec fn obeys_try_from_spec() -> bool {
        true
    }

    open spec fn try_from_spec(plan: ShipPlan) -> Result<Ship, OutOfBoundsError> {
        if plan.fits() {
            Ok(Ship::from_plan_spec(plan))
        } else {
            Err(OutOfBoundsError)
        }
    }
}

/// The cells of a ship not yet handed out, as the plan of a ship that ends earlier.
pub struct ShipAreaIterator(ShipPlan);

impl ShipAreaIterator {
    pub closed spec fn rest(self) -> ShipPlan {
        self.0
    }

    #[verifier::type_invariant]
    pub open spec fn inv(self) -> bool {
        self.rest().on_grid()
    }

    /// Hands out the last cell left and shortens what is left by one.
    pub fn next(&mut self) -> (r: Option<Position>)
        ensures
            old(self).rest().len() == 0 ==> r is None && final(self).rest() == old(self).rest(),
            old(self).rest().len() > 0 ==> (r matches Some(p) && p.coords() == old(
                self,
            ).rest().cell(old(self).rest().len() - 1) && final(self).rest() == old(
                self,
            ).rest().with_len((old(self).rest().len() - 1) as u8)),
    {
        proof {
            use_type_invariant(&*self);
        }
        match self.0 {
            ShipPlan::Horizontal { pos, length } => {
                if length == 0 {
                    return None;
                }
                let (x, y) = pos.to_coords();
                let length = length - 1;
                self.0 = ShipPlan::Horizontal { pos, length };
                Some(Position::on_grid_at(x + length, y))
            },
            ShipPlan::Vertical { pos, length } => {
                if length == 0 {
                    return None;
                }
                let (x, y) = pos.to_coords();
                let length = length - 1;
                self.0 = ShipPlan::Vertical { pos, length };
                Some(Position::on_grid_at(x, y + length))
            },
        }
    }

    /// How many cells are left.
    pub fn remaining(&self) -> (r: usize)
        ensures
            r == self.rest().len(),
    {
        self.0.length() as usize
    }
}

/// How many ships of each length a fleet holds: one each of 2, 4 and 5, two of 3.
pub open spec fn canonical_count(length: u8) -> nat {
    if length == 2 || length == 4 || length == 5 {
        1
    } else if length == 3 {
        2
    } else {
        0
    }
}

fn allowed_count(length: u8) -> (r: u8)
    ensures
        r == canonical_count(length),
{
    if length == 2 || length == 4 || length == 5 {
        1
    } else if length == 3 {
        2
    } else {
        0
    }
}

/// How many entries of `lens` equal `length`.
pub open spec fn count_len(lens: Seq<u8>, length: u8) -> nat
    decreases lens.len(),
{
    if lens.len() == 0 {
        0
    } else {
        count_len(lens.drop_last(), length) + if lens.last() == length {
            1nat
        } else {
            0nat
        }
    }
}

/// The lengths of the ships, in order.
pub open spec fn lengths(ships: Seq<Ship>) -> Seq<u8> {
    ships.map_values(|s: Ship| s.plan().len())
}

/// The multiset of lengths is exactly {2, 3, 3, 4, 5}.
pub open spec fn lengths_ok(lens: Seq<u8>) -> bool {
    forall|length: u8| #[trigger] count_len(lens, length) == canonical_count(length)
}

/// Two plans share a cell.
pub open spec fn overlap(a: ShipPlan, b: ShipPlan) -> bool {
    exists|c: (u8, u8)| #[trigger] a.covers(c) && b.covers(c)
}

/// No two ships share a cell.
pub open spec fn pairwise_disjoint(ships: Seq<Ship>) -> bool {
    forall|i: int, j: int|
        0 <= i < j < ships.len() ==> !overlap(#[trigger] ships[i].plan(), #[trigger] ships[j].plan())
}

/// Five ships on the grid, with the right lengths and no shared cell.
pub open spec fn valid_fleet(ships: Seq<Ship>) -> bool {
    &&& ships.len() == 5
    &&& forall|i: int| 0 <= i < 5 ==> (#[trigger] ships[i]).plan().on_grid()
    &&& lengths_ok(lengths(ships))
    &&& pairwise_disjoint(ships)
}

/// The ship at index `n - 1` brings its length over the allowed count.
pub open spec fn length_exceeded(ships: Seq<Ship>, n: int) -> bool {
    count_len(lengths(ships).take(n), ships[n - 1].plan().len()) > canonical_count(
        ships[n - 1].plan().len(),
    )
}

/// The ship at index `n - 1` shares a cell with an earlier one.
pub open spec fn overlaps_earlier(ships: Seq<Ship>, n: int) -> bool {
    exists|j: int| 0 <= j < n - 1 && #[trigger] overlap(ships[j].plan(), ships[n - 1].plan())
}

/// The first rule broken by the first `n` ships, taken in index order; for each ship its
/// length is checked before its cells.
pub open spec fn first_violation(ships: Seq<Ship>, n: int) -> Option<ShipCollectionError>
    decreases n,
{
    if n <= 0 {
        None
    } else {
        match first_violation(ships, n - 1) {
            Some(e) => Some(e),
            None => {
                if length_exceeded(ships, n) {
                    Some(ShipCollectionError::InvalidShipLengths)
                } else if overlaps_earlier(ships, n) {
                    Some(ShipCollectionError::Overlap)
                } else {
                    None
                }
            },
        }
    }
}

proof fn lemma_count_take_step(lens: Seq<u8>, n: int, length: u8)
    requires
        0 <= n < lens.len(),
    ensures
        count_len(lens.take(n + 1), length) == count_len(lens.take(n), length) + if lens[n]
            == length {
            1nat
        } else {
            0nat
        },
{
    assert(lens.take(n + 1).drop_last() =~= lens.take(n));
}

proof fn lemma_count_take_mono(lens: Seq<u8>, a: int, b: int, length: u8)
    requires
        0 <= a <= b <= lens.len(),
    ensures
        count_len(lens.take(a), length) <= count_len(lens.take(b), length),
    decreases b - a,
{
    if a < b {
        lemma_count_take_step(lens, b - 1, length);
        lemma_count_take_mono(lens, a, b - 1, length);
    }
}

/// Where no length is over its count, the canonical lengths account for every entry.
proof fn lemma_count_sum(lens: Seq<u8>)
    requires
        forall|length: u8| #[trigger] count_len(lens, length) <= canonical_count(length),
    ensures
        count_len(lens, 2) + count_len(lens, 3) + count_len(lens, 4) + count_len(lens, 5)
            == lens.len(),
    decreases lens.len(),
{
    if lens.len() > 0 {
        let prefix = lens.drop_last();
        assert forall|length: u8| #[trigger] count_len(prefix, length) <= canonical_count(length) by {
            assert(count_len(lens, length) >= count_len(prefix, length));
        }
        lemma_count_sum(prefix);
        assert(count_len(lens, lens.last()) >= 1);
    }
}

proof fn lemma_violation_sticks(ships: Seq<Ship>, n: int, m: int)
    requires
        0 <= n <= m,
        first_violation(ships, n) is Some,
    ensures
        first_violation(ships, m) == first_violation(ships, n),
    decreases m - n,
{
    if n < m {
        lemma_violation_sticks(ships, n, m - 1);
    }
}

proof fn lemma_clean_prefix(ships: Seq<Ship>, n: int, i: int)
    requires
        0 < i <= n,
        first_violation(ships, n) is None,
    ensures
        !length_exceeded(ships, i),
        !overlaps_earlier(ships, i),
    decreases n - i,
{
    if i < n {
        lemma_clean_prefix(ships, n - 1, i);
    }
}

/// Marks the cells of `ship` on a grid that holds those of the first `n` ships of
/// `fleet`, and tells whether one of them was already marked.
fn mark_ship(grid: &mut [bool; 100], ship: Ship, Ghost(fleet): Ghost<Seq<Ship>>, Ghost(n): Ghost<int>) -> (clash: bool)
    requires
        0 <= n <= fleet.len(),
        forall|c: (u8, u8)|
            in_bounds(c) ==> (old(grid)@[cell_index(c)] <==> exists|j: int|
                0 <= j < n && #[trigger] fleet[j].plan().covers(c)),
    ensures
        clash <==> exists|j: int| 0 <= j < n && #[trigger] overlap(fleet[j].plan(), ship.plan()),
        !clash ==> forall|c: (u8, u8)|
            in_bounds(c) ==> (final(grid)@[cell_index(c)] <==> (exists|j: int|
                0 <= j < n && #[trigger] fleet[j].plan().covers(c)) || ship.plan().covers(c)),
{
    proof {
        use_type_invariant(&ship);
        lemma_cells(ship.plan());
        lemma_cell_index_injective();
    }
    let ghost plan = ship.plan();
    let length = ship.length();
    let mut it = ship.into_iter();
    let mut k: u8 = 0;
    while k < length
        invariant
            0 <= n <= fleet.len(),
            k <= length,
            length == plan.len(),
            plan == ship.plan(),
            plan.on_grid(),
            it.rest() == plan.with_len((length - k) as u8),
            forall|c: (u8, u8)| #[trigger]
                plan.covers(c) ==> 0 <= plan.offset(c) < plan.len() && plan.cell(plan.offset(c)) == c,
            forall|kk: int|
                0 <= kk < plan.len() ==> #[trigger] plan.covers(plan.cell(kk)) && plan.offset(
                    plan.cell(kk),
                ) == kk && in_bounds(plan.cell(kk)),
            forall|a: (u8, u8), b: (u8, u8)|
                in_bounds(a) && in_bounds(b) && a != b ==> #[trigger] cell_index(a) != #[trigger] cell_index(b),
            forall|c: (u8, u8)|
                in_bounds(c) ==> (grid@[cell_index(c)] <==> (exists|j: int|
                    0 <= j < n && #[trigger] fleet[j].plan().covers(c)) || (plan.covers(c)
                    && plan.offset(c) >= length - k)),
            forall|kk: int, j: int|
                length - k <= kk < length && 0 <= j < n ==> !(#[trigger] fleet[j].plan().covers(
                    #[trigger] plan.cell(kk),
                )),
        decreases length - k,
    {
        let pos = match it.next() {
            Some(p) => p,
            None => {
                return false;
            },
        };
        let ghost c = pos.coords();
        assert(c == plan.cell(length - k - 1));
        assert(plan.covers(plan.cell(length - k - 1)));
        let idx = pos.grid_index();
        if grid[idx] {
            proof {
                let j = choose|j: int| 0 <= j < n && #[trigger] fleet[j].plan().covers(c);
                assert(overlap(fleet[j].plan(), ship.plan()));
            }
            return true;
        }
        grid[idx] = true;
        k = k + 1;
    }
    proof {
        assert forall|j: int| 0 <= j < n implies !overlap(#[trigger] fleet[j].plan(), plan) by {
            if overlap(fleet[j].plan(), plan) {
                let c = choose|c: (u8, u8)| #[trigger] fleet[j].plan().covers(c) && plan.covers(c);
                assert(plan.cell(plan.offset(c)) == c);
            }
        }
    }
    false
}

/// A valid fleet breaks no rule at any point of the check.
pub proof fn lemma_valid_fleet_clean(ships: Seq<Ship>, n: int)
    requires
        valid_fleet(ships),
        0 <= n <= 5,
    ensures
        first_violation(ships, n) is None,
    decreases n,
{
    if n > 0 {
        lemma_valid_fleet_clean(ships, n - 1);
        let lens = lengths(ships);
        let l = ships[n - 1].plan().len();
        lemma_count_take_mono(lens, n, 5, l);
        assert(lens.take(5) =~= lens);
        assert(count_len(lens, l) == canonical_count(l));
        if overlaps_earlier(ships, n) {
            let j = choose|j: int| 0 <= j < n - 1 && #[trigger] overlap(ships[j].plan(), ships[n - 1].plan());
            assert(!overlap(ships[j].plan(), ships[n - 1].plan()));
        }
    }
}

/// Exactly five ships with lengths {2, 3, 3, 4, 5} and no shared cell.
#[derive(Debug, Clone, Copy, PartialEq, Eq)]
pub struct Ships([Ship; 5]);

impl Ships {
    pub closed spec fn fleet(self) -> Seq<Ship> {
        self.0@
    }

    #[verifier::type_invariant]
    pub open spec fn valid(self) -> bool {
        valid_fleet(self.fleet())
    }

    /// Checks the ships in index order, the length of each before its cells, and
    /// reports the first rule broken.
    pub fn try_from_ships(ships: [Ship; 5]) -> (r: Result<Ships, ShipCollectionError>)
        ensures
            r is Ok <==> valid_fleet(ships@),
            r is Ok <==> first_violation(ships@, 5) is None,
            r matches Ok(fleet) ==> fleet.fleet() == ships@,
            r matches Err(e) ==> first_violation(ships@, 5) == Some(e),
    {
        let ghost seq = ships@;
        let ghost lens = lengths(seq);
        let mut counts: [u8; 6] = [0; 6];
        let mut grid: [bool; 100] = [false; 100];
        let mut i: usize = 0;
        while i < 5
            invariant
                0 <= i <= 5,
                seq == ships@,
                seq.len() == 5,
                lens == lengths(seq),
                forall|j: int| 0 <= j < i ==> (#[trigger] seq[j]).plan().on_grid(),
                forall|length: u8|
                    length <= 5 ==> counts@[length as int] == #[trigger] count_len(
                        lens.take(i as int),
                        length,
                    ),
                forall|length: u8| #[trigger]
                    count_len(lens.take(i as int), length) <= canonical_count(length),
                forall|c: (u8, u8)|
                    in_bounds(c) ==> (grid@[cell_index(c)] <==> exists|j: int|
                        0 <= j < i && #[trigger] seq[j].plan().covers(c)),
                first_violation(seq, i as int) is None,
            decreases 5 - i,
        {
            let ship = ships[i];
            proof {
                use_type_invariant(&ship);
            }
            let plan = ship.to_ship_plan();
            let length = plan.length();
            assert(lens[i as int] == length);
            proof {
                assert forall|l: u8|
                    count_len(lens.take(i + 1), l) == count_len(lens.take(i as int), l) + if l
                        == length {
                        1nat
                    } else {
                        0nat
                    } by {
                    lemma_count_take_step(lens, i as int, l);
                }
            }
            proof {
                if length <= 5 {
                    assert(counts@[length as int] == count_len(lens.take(i as int), length));
                }
                assert(count_len(lens.take(i as int), length) <= canonical_count(length));
            }
            if length > 5 || counts[length as usize] + 1 > allowed_count(length) {
                proof {
                    assert(length_exceeded(seq, i + 1));
                    lemma_violation_sticks(seq, i + 1, 5);
                    lemma_count_take_mono(lens, i + 1, 5, length);
                    assert(lens.take(5) =~= lens);
                    assert(count_len(lens, length) != canonical_count(length));
                }
                return Err(ShipCollectionError::InvalidShipLengths);
            }
            counts[length as usize] = counts[length as usize] + 1;
            assert(!length_exceeded(seq, i + 1));
            if mark_ship(&mut grid, ship, Ghost(seq), Ghost(i as int)) {
                proof {
                    let j = choose|j: int| 0 <= j < i && #[trigger] overlap(seq[j].plan(), plan);
                    assert(overlaps_earlier(seq, i + 1));
                    lemma_violation_sticks(seq, i + 1, 5);
                    assert(!pairwise_disjoint(seq));
                }
                return Err(ShipCollectionError::Overlap);
            }
            proof {
                assert(!overlaps_earlier(seq, i + 1));
                assert forall|l: u8| l <= 5 implies counts@[l as int] == #[trigger] count_len(lens.take(i + 1), l) by {
                    lemma_count_take_step(lens, i as int, l);
                }
                assert forall|l: u8| #[trigger] count_len(lens.take(i + 1), l) <= canonical_count(l) by {
                    lemma_count_take_step(lens, i as int, l);
                }
                assert forall|c: (u8, u8)|
                    in_bounds(c) implies (grid@[cell_index(c)] <==> exists|j: int|
                        0 <= j < i + 1 && #[trigger] seq[j].plan().covers(c)) by {
                    if seq[i as int].plan().covers(c) {
                        assert(0 <= i < i + 1);
                    }
                    if exists|j: int| 0 <= j < i + 1 && #[trigger] seq[j].plan().covers(c) {
                        let j = choose|j: int| 0 <= j < i + 1 && #[trigger] seq[j].plan().covers(c);
                        if j < i {
                            assert(exists|j: int| 0 <= j < i && #[trigger] seq[j].plan().covers(c));
                        }
                    }
                }
            }
            i = i + 1;
        }
        proof {
            assert(lens.take(5) =~= lens);
            lemma_count_sum(lens);
            assert forall|length: u8| #[trigger] count_len(lens, length) == canonical_count(length) by {
                if length != 2 && length != 3 && length != 4 && length != 5 {
                    assert(count_len(lens, length) <= 0);
                }
            }
            assert forall|a: int, b: int| 0 <= a < b < seq.len() implies !overlap(
                #[trigger] seq[a].plan(),
                #[trigger] seq[b].plan(),
            ) by {
                lemma_clean_prefix(seq, 5, b + 1);
            }
        }
        Ok(Ships(ships))
    }

    /// The fleet made of `ships`.
    pub closed spec fn from_array_spec(ships: [Ship; 5]) -> Ships {
        Ships(ships)
    }

    pub proof fn lemma_from_array_spec(ships: [Ship; 5])
        ensures
            Ships::from_array_spec(ships).fleet() == ships@,
    {
    }

    /// Two fleets with the same ships are the same fleet.
    pub proof fn lemma_fleet_determines(a: Ships, b: Ships)
        requires
            a.fleet() == b.fleet(),
        ensures
            a == b,
    {
        assert(a.0 =~= b.0);
    }

    pub fn into_ship_array(self) -> (r: [Ship; 5])
        ensures
            r@ == self.fleet(),
    {
        self.0
    }

    /// The ship at index `i`.
    pub fn ship(&self, i: usize) -> (r: Ship)
        requires
            i < 5,
        ensures
            r == self.fleet()[i as int],
    {
        self.0[i]
    }
}

impl TryFrom<[Ship; 5]> for Ships {
    type Error = ShipCollectionError;

    fn try_from(ships: [Ship; 5]) -> (r: Result<Ships, ShipCollectionError>) {
        let r = Ships::try_from_ships(ships);
        proof {
            Ships::lemma_from_array_spec(ships);
            if let Ok(fleet) = r {
                Ships::lemma_fleet_determines(fleet, Ships::from_array_spec(ships));
            }
        }
        r
    }
}

/// Five ships become a fleet exactly when no rule is broken; otherwise the first rule
/// broken, in index order, is reported.
impl vstd::std_specs::convert::TryFromSpecImpl<[Ship; 5]> for Ships {
    open spec fn obeys_try_from_spec() -> bool {
        true
    }

    open spec fn try_from_spec(ships: [Ship; 5]) -> Result<Ships, ShipCollectionError> {
        match first_violation(ships@, 5) {
            None => Ok(Ships::from_array_spec(ships)),
            Some(e) => Err(e),
        }
    }
}

} // verus!
