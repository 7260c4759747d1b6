use vstd::prelude::*;

use crate::board::AlreadyHitError;
use crate::position;
use crate::ship::{self, ShipCollectionError};

verus! {

/// A rule of the game that a value broke.
#[derive(Debug, Clone, Copy, PartialEq, Eq, Structural)]
pub enum Error {
    PositionOutOfBounds(position::OutOfBoundsError),
    ShipOutOfBounds(ship::OutOfBoundsError),
    ShipCollection(ShipCollectionError),
    Board(AlreadyHitError),
}

} // verus!
