use vstd::prelude::*;

use crate::logic;
use crate::position::{self, in_bounds, unpack, Position};
use crate::raw::{self, Fixed};
use crate::ship::{
    self, first_violation, lemma_valid_fleet_clean, valid_fleet, Ship, ShipPlan, Ships,
};

verus! {

/// A frame that is no message of this direction, or a message whose content breaks a
/// rule of the game.
#[derive(Debug, Clone, Copy, PartialEq, Eq, Structural)]
pub enum Error {
    InvalidBytes,
    InvalidLogic(logic::Error),
}

/// What a client sends to the server.
#[derive(Debug, Clone, Copy, PartialEq, Eq)]
pub enum Message {
    HandShake,
    Acknowledge,
    ReturnShips(Ships),
    ReturnTarget(Position),
}

/// The orientation byte of a plan: 0 for horizontal, 1 for vertical.
pub open spec fn orientation(plan: ShipPlan) -> u8 {
    match plan {
        ShipPlan::Horizontal { .. } => 0,
        ShipPlan::Vertical { .. } => 1,
    }
}

/// Byte `k` of the three that describe a ship: orientation, anchor, length.
pub open spec fn chunk_byte(plan: ShipPlan, k: int) -> u8 {
    if k == 0 {
        orientation(plan)
    } else if k == 1 {
        plan.anchor().byte()
    } else {
        plan.len()
    }
}

/// A fleet as fifteen bytes, three for each ship in order.
pub open spec fn ships_body(fleet: Seq<Ship>) -> Seq<u8> {
    Seq::new(15, |n: int| chunk_byte(fleet[n / 3].plan(), n % 3))
}

/// The plan described by the three bytes of ship `i`; any orientation byte but 0 reads
/// as vertical.
pub open spec fn chunk_plan(body: Seq<u8>, i: int) -> ShipPlan {
    let pos = Position::from_byte_spec(body[3 * i + 1]);
    let length = body[3 * i + 2];
    if body[3 * i] == 0 {
        ShipPlan::Horizontal { pos, length }
    } else {
        ShipPlan::Vertical { pos, length }
    }
}

/// What is wrong with the three bytes of ship `i`: first the anchor, then the body.
pub open spec fn chunk_error(body: Seq<u8>, i: int) -> Option<logic::Error> {
    if !in_bounds(unpack(body[3 * i + 1])) {
        Some(logic::Error::PositionOutOfBounds(position::OutOfBoundsError))
    } else if !chunk_plan(body, i).fits() {
        Some(logic::Error::ShipOutOfBounds(ship::OutOfBoundsError))
    } else {
        None
    }
}

/// The first error among the first `n` ships' bytes.
pub open spec fn first_chunk_error(body: Seq<u8>, n: int) -> Option<logic::Error>
    decreases n,
{
    if n <= 0 {
        None
    } else {
        match first_chunk_error(body, n - 1) {
            Some(e) => Some(e),
            None => chunk_error(body, n - 1),
        }
    }
}

/// The ships that fifteen bytes describe.
pub open spec fn chunk_fleet(body: Seq<u8>) -> Seq<Ship> {
    Seq::new(5, |i: int| Ship::from_plan_spec(chunk_plan(body, i)))
}

/// Why fifteen bytes are no fleet: a ship's bytes, else the fleet's rules.
pub open spec fn ships_error(body: Seq<u8>) -> Option<Error> {
    match first_chunk_error(body, 5) {
        Some(e) => Some(Error::InvalidLogic(e)),
        None => match first_violation(chunk_fleet(body), 5) {
            Some(e) => Some(Error::InvalidLogic(logic::Error::ShipCollection(e))),
            None => None,
        },
    }
}

/// The frame of a message.
pub open spec fn encode(m: Message) -> (u8, Seq<u8>) {
    match m {
        Message::HandShake => Fixed::Handshake.frame(),
        Message::Acknowledge => Fixed::Acknowledge.frame(),
        Message::ReturnShips(ships) => (100u8, ships_body(ships.fleet())),
        Message::ReturnTarget(pos) => (101u8, seq![pos.byte()]),
    }
}

/// Why a frame is no message; `None` where it is one.
pub open spec fn decode_error(frame: (u8, Seq<u8>)) -> Option<Error> {
    if frame == Fixed::Handshake.frame() || frame == Fixed::Acknowledge.frame() {
        None
    } else if frame.0 == 100 && frame.1.len() == 15 {
        ships_error(frame.1)
    } else if frame.0 == 101 && frame.1.len() == 1 {
        if in_bounds(unpack(frame.1[0])) {
            None
        } else {
            Some(Error::InvalidLogic(logic::Error::PositionOutOfBounds(position::OutOfBoundsError)))
        }
    } else {
        Some(Error::InvalidBytes)
    }
}

/// The frame reads as message `m`.
pub open spec fn decodes_to(frame: (u8, Seq<u8>), m: Message) -> bool {
    match m {
        Message::HandShake => frame == Fixed::Handshake.frame(),
        Message::Acknowledge => frame == Fixed::Acknowledge.frame(),
        Message::ReturnShips(ships) => frame.0 == 100 && frame.1.len() == 15 && ships.fleet()
            == chunk_fleet(frame.1),
        Message::ReturnTarget(pos) => frame.0 == 101 && frame.1.len() == 1 && pos.byte()
            == frame.1[0],
    }
}

/// The values inside the message keep their types' rules.
pub open spec fn well_formed(m: Message) -> bool {
    match m {
        Message::ReturnShips(ships) => valid_fleet(ships.fleet()),
        Message::ReturnTarget(pos) => pos.on_grid(),
        _ => true,
    }
}

fn orientation_byte(plan: ShipPlan) -> (r: u8)
    ensures
        r == orientation(plan),
{
    match plan {
        ShipPlan::Horizontal { .. } => 0,
        ShipPlan::Vertical { .. } => 1,
    }
}

/// Reads the three bytes of one ship.
fn decode_ship(o: u8, p: u8, length: u8, Ghost(body): Ghost<Seq<u8>>, Ghost(i): Ghost<int>) -> (r: Result<Ship, logic::Error>)
    requires
        0 <= i < 5,
        body.len() == 15,
        body[3 * i] == o,
        body[3 * i + 1] == p,
        body[3 * i + 2] == length,
    ensures
        r is Err <==> chunk_error(body, i) is Some,
        r matches Err(e) ==> chunk_error(body, i) == Some(e),
        r matches Ok(ship) ==> ship.plan() == chunk_plan(body, i),
{
    let pos = match Position::try_from_byte(p) {
        Ok(pos) => pos,
        Err(e) => {
            return Err(logic::Error::PositionOutOfBounds(e));
        },
    };
    proof {
        Position::lemma_from_byte_spec(p);
        Position::lemma_byte_determines(pos, Position::from_byte_spec(p));
    }
    let plan = if o == 0 {
        ShipPlan::Horizontal { pos, length }
    } else {
        ShipPlan::Vertical { pos, length }
    };
    match Ship::try_from_plan(plan) {
        Ok(ship) => Ok(ship),
        Err(e) => Err(logic::Error::ShipOutOfBounds(e)),
    }
}

/// Reads a fleet from its fifteen bytes.
fn decode_ships(body: &[u8]) -> (r: Result<Ships, Error>)
    requires
        body@.len() == 15,
    ensures
        r is Err <==> ships_error(body@) is Some,
        r matches Err(e) ==> ships_error(body@) == Some(e),
        r matches Ok(ships) ==> ships.fleet() == chunk_fleet(body@),
{
    let mut ships: Vec<Ship> = Vec::new();
    let mut i: usize = 0;
    while i < 5
        invariant
            body@.len() == 15,
            i <= 5,
            ships@.len() == i,
            first_chunk_error(body@, i as int) is None,
            forall|j: int| 0 <= j < i ==> (#[trigger] ships@[j]).plan() == chunk_plan(body@, j),
        decreases 5 - i,
    {
        match decode_ship(body[3 * i], body[3 * i + 1], body[3 * i + 2], Ghost(body@), Ghost(i as int)) {
            Ok(ship) => ships.push(ship),
            Err(e) => {
                proof {
                    lemma_chunk_error_sticks(body@, i + 1, 5);
                }
                return Err(Error::InvalidLogic(e));
            },
        }
        i = i + 1;
    }
    let array: [Ship; 5] = [ships[0], ships[1], ships[2], ships[3], ships[4]];
    proof {
        assert forall|j: int| 0 <= j < 5 implies array@[j] == chunk_fleet(body@)[j] by {
            Ship::lemma_from_plan_spec(chunk_plan(body@, j));
            Ship::lemma_plan_determines(array@[j], chunk_fleet(body@)[j]);
        }
        assert(array@ =~= chunk_fleet(body@));
    }
    match Ships::try_from_ships(array) {
        Ok(fleet) => Ok(fleet),
        Err(e) => Err(Error::InvalidLogic(logic::Error::ShipCollection(e))),
    }
}

proof fn lemma_chunk_error_sticks(body: Seq<u8>, n: int, m: int)
    requires
        0 <= n <= m,
        first_chunk_error(body, n) is Some,
    ensures
        first_chunk_error(body, m) == first_chunk_error(body, n),
    decreases m - n,
{
    if n < m {
        lemma_chunk_error_sticks(body, n, m - 1);
    }
}

impl Message {
    /// The frame of this message.
    pub fn encode(self) -> (r: raw::Message)
        ensures
            r.frame() == encode(self),
    {
        match self {
            Message::HandShake => Fixed::Handshake.to_message(),
            Message::Acknowledge => Fixed::Acknowledge.to_message(),
            Message::ReturnShips(ships) => {
                let array = ships.into_ship_array();
                let mut body: Vec<u8> = Vec::new();
                let mut i: usize = 0;
                while i < 5
                    invariant
                        i <= 5,
                        array@ == ships.fleet(),
                        body@.len() == 3 * i,
                        forall|n: int|
                            0 <= n < 3 * i ==> #[trigger] body@[n] == chunk_byte(
                                array@[n / 3].plan(),
                                n % 3,
                            ),
                    decreases 5 - i,
                {
                    let plan = array[i].to_ship_plan();
                    body.push(orientation_byte(plan));
                    body.push(plan.anchor_position().to_byte());
                    body.push(plan.length());
                    i = i + 1;
                }
                assert(body@ =~= ships_body(ships.fleet()));
                raw::Message { type_marker: raw::TYPE_REQ_RET_SHIPS, body }
            },
            Message::ReturnTarget(pos) => {
                let body = vec![pos.to_byte()];
                assert(body@ =~= seq![pos.byte()]);
                raw::Message { type_marker: raw::TYPE_REQ_RET_TARGET, body }
            },
        }
    }

    /// Reads a frame as a message of this direction.
    pub fn decode(message: raw::Message) -> (r: Result<Message, Error>)
        ensures
            r is Err <==> decode_error(message.frame()) is Some,
            r matches Err(e) ==> decode_error(message.frame()) == Some(e),
            r matches Ok(m) ==> decodes_to(message.frame(), m),
    {
        let m = message.as_match();
        if Fixed::Handshake.matches(&m) {
            Ok(Message::HandShake)
        } else if Fixed::Acknowledge.matches(&m) {
            Ok(Message::Acknowledge)
        } else if m.type_marker == raw::TYPE_REQ_RET_SHIPS && m.body.len() == 15 {
            match decode_ships(m.body) {
                Ok(ships) => Ok(Message::ReturnShips(ships)),
                Err(e) => Err(e),
            }
        } else if m.type_marker == raw::TYPE_REQ_RET_TARGET && m.body.len() == 1 {
            match Position::try_from_byte(m.body[0]) {
                Ok(pos) => Ok(Message::ReturnTarget(pos)),
                Err(e) => Err(Error::InvalidLogic(logic::Error::PositionOutOfBounds(e))),
            }
        } else {
            Err(Error::InvalidBytes)
        }
    }
}

impl raw::IntoMessage for Message {
    open spec fn frame_of(self) -> (u8, Seq<u8>) {
        encode(self)
    }

    fn into_raw_message(self) -> (r: raw::Message) {
        self.encode()
    }
}

impl raw::TryFromMessage for Message {
    type Error = Error;

    /// A frame reads as a message exactly when it has no decode error, and then as the
    /// message it describes; otherwise as its decode error.
    open spec fn reads_as(frame: (u8, Seq<u8>), r: Result<Message, Error>) -> bool {
        match r {
            Ok(m) => decode_error(frame) is None && decodes_to(frame, m),
            Err(e) => decode_error(frame) == Some(e),
        }
    }

    fn try_from_raw_message(message: raw::Message) -> (r: Result<Message, Error>) {
        Message::decode(message)
    }
}

/// Every message that can be built reads back from its frame as itself, and as
/// nothing else.
pub proof fn lemma_round_trip(m: Message)
    requires
        well_formed(m),
    ensures
        decode_error(encode(m)) is None,
        decodes_to(encode(m), m),
        forall|other: Message| decodes_to(encode(m), other) ==> other == m,
{
    match m {
        Message::ReturnShips(ships) => {
            let body = ships_body(ships.fleet());
            assert forall|i: int| 0 <= i < 5 implies chunk_plan(body, i) == (
            #[trigger] ships.fleet()[i]).plan() by {
                let plan = ships.fleet()[i].plan();
                assert(body[3 * i] == orientation(plan));
                assert(body[3 * i + 1] == plan.anchor().byte());
                assert(body[3 * i + 2] == plan.len());
                Position::lemma_from_byte_spec(plan.anchor().byte());
                Position::lemma_byte_determines(
                    plan.anchor(),
                    Position::from_byte_spec(plan.anchor().byte()),
                );
            }
            assert forall|i: int| 0 <= i < 5 implies chunk_fleet(body)[i] == (
            #[trigger] ships.fleet()[i]) by {
                Ship::lemma_from_plan_spec(chunk_plan(body, i));
                Ship::lemma_plan_determines(chunk_fleet(body)[i], ships.fleet()[i]);
            }
            assert(chunk_fleet(body) =~= ships.fleet());
            assert forall|n: int| 0 <= n <= 5 implies first_chunk_error(body, n) is None by {
                lemma_no_chunk_error(body, ships.fleet(), n);
            }
            lemma_valid_fleet_clean(ships.fleet(), 5);
            assert forall|other: Message| decodes_to(encode(m), other) implies other == m by {
                if let Message::ReturnShips(f) = other {
                    Ships::lemma_fleet_determines(f, ships);
                }
            }
        },
        Message::ReturnTarget(pos) => {
            assert forall|other: Message| decodes_to(encode(m), other) implies other == m by {
                if let Message::ReturnTarget(p) = other {
                    Position::lemma_byte_determines(p, pos);
                }
            }
        },
        _ => {
            assert(Fixed::Handshake.frame() != Fixed::Acknowledge.frame());
        },
    }
}

proof fn lemma_no_chunk_error(body: Seq<u8>, fleet: Seq<Ship>, n: int)
    requires
        valid_fleet(fleet),
        0 <= n <= 5,
        body.len() == 15,
        forall|i: int| 0 <= i < 5 ==> chunk_plan(body, i) == (#[trigger] fleet[i]).plan(),
        forall|i: int| 0 <= i < 5 ==> body[3 * i + 1] == (#[trigger] fleet[i]).plan().anchor().byte(),
    ensures
        first_chunk_error(body, n) is None,
    decreases n,
{
    if n > 0 {
        lemma_no_chunk_error(body, fleet, n - 1);
        assert(fleet[n - 1].plan().on_grid());
    }
}

/// A frame whose marker belongs to no message of this direction is refused as
/// invalid bytes.
pub proof fn lemma_unregistered_marker(frame: (u8, Seq<u8>))
    requires
        frame.0 != 1 && frame.0 != 2 && frame.0 != 100 && frame.0 != 101,
    ensures
        decode_error(frame) == Some(Error::InvalidBytes),
{
}

} // verus!
