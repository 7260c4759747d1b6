use vstd::prelude::*;

verus! {

/// Number of cells along each side of the grid.
pub const GRID_SIDE: u8 = 10;

/// A coordinate or a packed byte that lies outside the grid.
#[derive(Debug, Clone, Copy, PartialEq, Eq, Structural)]
pub struct OutOfBoundsError;

/// Both coordinates lie on the grid.
pub open spec fn in_bounds(coords: (u8, u8)) -> bool {
    coords.0 < 10 && coords.1 < 10
}

/// The compact form of a coordinate pair: the high nibble holds `x`, the low one `y`.
pub open spec fn pack(coords: (u8, u8)) -> int {
    coords.0 * 16 + coords.1
}

/// The coordinate pair held by a packed byte.
pub open spec fn unpack(byte: u8) -> (u8, u8) {
    ((byte / 16) as u8, (byte % 16) as u8)
}

/// Linear index of a cell: rows of ten cells, `y` selects the row.
pub open spec fn cell_index(coords: (u8, u8)) -> int {
    coords.1 * 10 + coords.0
}

/// A cell of the 10x10 grid, stored packed into one byte.
#[derive(Debug, Clone, Copy, PartialEq, Eq, Structural)]
pub struct Position(u8);

impl Position {
    /// The packed byte.
    pub closed spec fn byte(self) -> u8 {
        self.0
    }

    /// The coordinate pair `(x, y)`.
    pub open spec fn coords(self) -> (u8, u8) {
        unpack(self.byte())
    }

    /// Where the cell sits in a grid laid out row by row.
    pub open spec fn index(self) -> int {
        cell_index(self.coords())
    }

    #[verifier::type_invariant]
    pub open spec fn on_grid(self) -> bool {
        in_bounds(self.coords())
    }

    /// The position held by byte `b`.
    pub closed spec fn from_byte_spec(b: u8) -> Position {
        Position(b)
    }

    pub proof fn lemma_from_byte_spec(b: u8)
        ensures
            Position::from_byte_spec(b).byte() == b,
    {
    }

    /// Two positions with the same byte are the same position.
    pub proof fn lemma_byte_determines(p: Position, q: Position)
        requires
            p.byte() == q.byte(),
        ensures
            p == q,
    {
    }

    pub fn to_byte(self) -> (r: u8)
        ensures
            r == self.byte(),
    {
        self.0
    }

    pub fn to_coords(self) -> (r: (u8, u8))
        ensures
            r == self.coords(),
            in_bounds(r),
    {
        proof {
            use_type_invariant(&self);
        }
        let b = self.0;
        assert(b >> 4 == b / 16 && b & 0xf == b % 16) by (bit_vector);
        (b >> 4, b & 0xf)
    }

    pub fn try_from_coords(coords: (u8, u8)) -> (r: Result<Position, OutOfBoundsError>)
        ensures
            r is Ok <==> in_bounds(coords),
            r matches Ok(p) ==> p.byte() == pack(coords) && p.coords() == coords,
    {
        let (x, y) = coords;
        if x < GRID_SIDE && y < GRID_SIDE {
            let b: u8 = (x << 4) | y;
            assert(((x << 4) | y) == x * 16 + y) by (bit_vector)
                requires
                    x < 10,
                    y < 10,
            ;
            proof {
                lemma_pack_unpack(coords);
            }
            Ok(Position(b))
        } else {
            Err(OutOfBoundsError)
        }
    }

    pub fn try_from_byte(byte: u8) -> (r: Result<Position, OutOfBoundsError>)
        ensures
            r is Ok <==> in_bounds(unpack(byte)),
            r matches Ok(p) ==> p.byte() == byte,
    {
        assert(byte >> 4 == byte / 16 && byte & 0xf == byte % 16) by (bit_vector);
        let r = Position::try_from_coords((byte >> 4, byte & 0xf));
        r
    }

    /// Builds the position of coordinates already known to be on the grid.
    pub(crate) fn on_grid_at(x: u8, y: u8) -> (r: Position)
        requires
            in_bounds((x, y)),
        ensures
            r.coords() == (x, y),
    {
        assert(((x << 4) | y) == x * 16 + y) by (bit_vector)
            requires
                x < 10,
                y < 10,
        ;
        proof {
            lemma_pack_unpack((x, y));
        }
        Position((x << 4) | y)
    }

    /// Where the cell sits in a grid of a hundred cells laid out row by row.
    pub fn grid_index(self) -> (r: usize)
        ensures
            r == self.index(),
            r < 100,
    {
        let (x, y) = self.to_coords();
        y as usize * 10 + x as usize
    }
}

proof fn lemma_pack_unpack(coords: (u8, u8))
    requires
        in_bounds(coords),
    ensures
        0 <= pack(coords) < 256,
        unpack(pack(coords) as u8) == coords,
{
}

/// Coordinates on the grid survive a round trip: `p`, the position built from them
/// (its byte is their packed form), gives them back, its byte is on the grid again,
/// and `q`, the position read back from that byte, is `p` itself.
pub proof fn lemma_position_round_trip(coords: (u8, u8), p: Position, q: Position)
    requires
        in_bounds(coords),
        p.byte() == pack(coords),
        q.byte() == p.byte(),
    ensures
        p.coords() == coords,
        in_bounds(unpack(p.byte())),
        q == p,
{
    lemma_pack_unpack(coords);
    Position::lemma_byte_determines(p, q);
}

/// Distinct cells of the grid have distinct linear indices.
pub proof fn lemma_cell_index_injective()
    ensures
        forall|a: (u8, u8), b: (u8, u8)|
            in_bounds(a) && in_bounds(b) && a != b ==> #[trigger] cell_index(a) != #[trigger] cell_index(b),
        forall|a: (u8, u8)| in_bounds(a) ==> 0 <= #[trigger] cell_index(a) < 100,
{
}

} // verus!
