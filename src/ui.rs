use vstd::prelude::*;

use crate::client::AttackInfo;
use crate::position::Position;
use crate::ship::{Ship, Ships};

verus! {

/// What the server told the client, kept for display; the newest comes last.
#[derive(Debug, Clone, Copy, PartialEq, Eq, Structural)]
pub enum Message {
    OpponentSelectsTarget,
    ClientMissedOpponent(Position),
    OpponentMissedClient(Position),
    ClientHitOpponent(Position),
    OpponentHitClient(Position),
    OpponentShipSunk(u8),
    ClientShipSunk(u8),
}

/// The client's view of the match, lent to the presentation layer. The hit maps are
/// indexed by `Position::grid_index`, row by row.
#[derive(Clone, Copy, Debug)]
pub struct ClientInfo<'i> {
    /// Messages received from the server, the newest last.
    pub messages: &'i [Message],
    /// The player's ships.
    pub ships: &'i Ships,
    /// Where the opponent has shot at the player.
    pub client_hit_map: &'i [Option<AttackInfo>; 100],
    /// Where the player has shot at the opponent.
    pub opponent_hit_map: &'i [Option<AttackInfo>; 100],
    /// The opponent's ships sunk so far.
    pub opponent_ships: &'i [Ship],
}

/// The presentation layer a client plays through. A failure in any method ends the
/// match on the client's side.
pub trait UI {
    type Error;

    /// Lets the player place the fleet; blocks until it is placed.
    fn request_ships(&mut self) -> Result<Ships, Self::Error>;

    /// Lets the player choose a cell to shoot at; blocks until one is chosen.
    fn request_target(&mut self, info: ClientInfo) -> Result<Position, Self::Error>;

    /// Draws one frame of the board; called again and again while waiting.
    fn display_board(&mut self, info: ClientInfo) -> Result<(), Self::Error>;

    /// Shows the board with a victory screen; blocks until the player leaves.
    fn display_victory(&mut self, info: ClientInfo) -> Result<(), Self::Error>;

    /// Shows the board with a loss screen; blocks until the player leaves.
    fn display_loss(&mut self, info: ClientInfo) -> Result<(), Self::Error>;
}

} // verus!
