use vstd::prelude::*;

use crate::client_message::orientation;
use crate::logic;
use crate::position::{self, in_bounds, unpack, Position};
use crate::raw::{self, Fixed};
use crate::ship::{self, Ship, ShipPlan};

verus! {

/// A frame that is no message of this direction, or a message whose content breaks a
/// rule of the game.
#[derive(Debug, Clone, Copy, PartialEq, Eq, Structural)]
pub enum Error {
    InvalidBytes,
    InvalidLogic(logic::Error),
}

/// What the server sends to a client. `Client` variants speak of shots at the
/// receiver's fleet, `Opponent` variants of the receiver's shots.
#[derive(Debug, Clone, Copy, PartialEq, Eq, Structural)]
pub enum Message {
    Handshake,
    Invalid,
    TerminateConnection,
    RequestShips,
    RequestTarget,
    InformTargetSelection,
    InformTargetMissClient(Position),
    InformTargetMissOpponent(Position),
    InformTargetHitClient(Position),
    InformTargetHitOpponent(Position),
    InformShipSunkenClient(Ship),
    InformShipSunkenOpponent(Ship),
    InformLoss,
    InformVictory,
}

/// The four bytes of a sunk ship: side, orientation, anchor, length.
pub open spec fn sunk_body(side: u8, plan: ShipPlan) -> Seq<u8> {
    seq![side, orientation(plan), plan.anchor().byte(), plan.len()]
}

/// The plan held by the four bytes of a sunk ship.
pub open spec fn sunk_plan(body: Seq<u8>) -> ShipPlan {
    let pos = Position::from_byte_spec(body[2]);
    if body[1] == 0 {
        ShipPlan::Horizontal { pos, length: body[3] }
    } else {
        ShipPlan::Vertical { pos, length: body[3] }
    }
}

/// The fixed frame of a message with no content.
pub open spec fn fixed_kind(m: Message) -> Option<Fixed> {
    match m {
        Message::Handshake => Some(Fixed::Handshake),
        Message::Invalid => Some(Fixed::Invalid),
        Message::TerminateConnection => Some(Fixed::Terminate),
        Message::RequestShips => Some(Fixed::RequestShips),
        Message::RequestTarget => Some(Fixed::RequestTarget),
        Message::InformTargetSelection => Some(Fixed::InformTargetSelection),
        Message::InformLoss => Some(Fixed::InformLoss),
        Message::InformVictory => Some(Fixed::InformVictory),
        _ => None,
    }
}

/// The frame of a message.
pub open spec fn encode(m: Message) -> (u8, Seq<u8>) {
    match m {
        Message::InformTargetMissClient(pos) => (151u8, seq![0u8, pos.byte()]),
        Message::InformTargetMissOpponent(pos) => (151u8, seq![1u8, pos.byte()]),
        Message::InformTargetHitClient(pos) => (152u8, seq![0u8, pos.byte()]),
        Message::InformTargetHitOpponent(pos) => (152u8, seq![1u8, pos.byte()]),
        Message::InformShipSunkenClient(ship) => (153u8, sunk_body(0, ship.plan())),
        Message::InformShipSunkenOpponent(ship) => (153u8, sunk_body(1, ship.plan())),
        _ => fixed_kind(m).unwrap().frame(),
    }
}

/// The frame is one of the fixed frames of this direction.
pub open spec fn is_fixed(frame: (u8, Seq<u8>)) -> bool {
    ||| frame == Fixed::Handshake.frame()
    ||| frame == Fixed::Invalid.frame()
    ||| frame == Fixed::Terminate.frame()
    ||| frame == Fixed::RequestShips.frame()
    ||| frame == Fixed::RequestTarget.frame()
    ||| frame == Fixed::InformTargetSelection.frame()
    ||| frame == Fixed::InformLoss.frame()
    ||| frame == Fixed::InformVictory.frame()
}

/// A miss or hit report: marker 151 or 152, a side byte of 0 or 1, a position byte.
pub open spec fn is_shot(frame: (u8, Seq<u8>)) -> bool {
    (frame.0 == 151 || frame.0 == 152) && frame.1.len() == 2 && (frame.1[0] == 0 || frame.1[0]
        == 1)
}

/// A sunk report: marker 153, a side byte of 0 or 1, then the ship's three bytes.
pub open spec fn is_sunk(frame: (u8, Seq<u8>)) -> bool {
    frame.0 == 153 && frame.1.len() == 4 && (frame.1[0] == 0 || frame.1[0] == 1)
}

/// Why a frame is no message; `None` where it is one.
pub open spec fn decode_error(frame: (u8, Seq<u8>)) -> Option<Error> {
    if is_fixed(frame) {
        None
    } else if is_shot(frame) {
        if in_bounds(unpack(frame.1[1])) {
            None
        } else {
            Some(Error::InvalidLogic(logic::Error::PositionOutOfBounds(position::OutOfBoundsError)))
        }
    } else if is_sunk(frame) {
        if !in_bounds(unpack(frame.1[2])) {
            Some(Error::InvalidLogic(logic::Error::PositionOutOfBounds(position::OutOfBoundsError)))
        } else if !sunk_plan(frame.1).fits() {
            Some(Error::InvalidLogic(logic::Error::ShipOutOfBounds(ship::OutOfBoundsError)))
        } else {
            None
        }
    } else {
        Some(Error::InvalidBytes)
    }
}

/// The frame reads as message `m`.
pub open spec fn decodes_to(frame: (u8, Seq<u8>), m: Message) -> bool {
    match m {
        Message::InformTargetMissClient(pos) => frame.0 == 151 && frame.1 == seq![0u8, pos.byte()],
        Message::InformTargetMissOpponent(pos) => frame.0 == 151 && frame.1 == seq![1u8, pos.byte()],
        Message::InformTargetHitClient(pos) => frame.0 == 152 && frame.1 == seq![0u8, pos.byte()],
        Message::InformTargetHitOpponent(pos) => frame.0 == 152 && frame.1 == seq![1u8, pos.byte()],
        Message::InformShipSunkenClient(ship) => is_sunk(frame) && frame.1[0] == 0 && ship.plan()
            == sunk_plan(frame.1),
        Message::InformShipSunkenOpponent(ship) => is_sunk(frame) && frame.1[0] == 1 && ship.plan()
            == sunk_plan(frame.1),
        _ => frame == fixed_kind(m).unwrap().frame(),
    }
}

/// The values inside the message keep their types' rules.
pub open spec fn well_formed(m: Message) -> bool {
    match m {
        Message::InformTargetMissClient(pos) => pos.on_grid(),
        Message::InformTargetMissOpponent(pos) => pos.on_grid(),
        Message::InformTargetHitClient(pos) => pos.on_grid(),
        Message::InformTargetHitOpponent(pos) => pos.on_grid(),
        Message::InformShipSunkenClient(ship) => ship.plan().on_grid(),
        Message::InformShipSunkenOpponent(ship) => ship.plan().on_grid(),
        _ => true,
    }
}

fn sunk_bytes(side: u8, ship: Ship) -> (r: Vec<u8>)
    ensures
        r@ == sunk_body(side, ship.plan()),
{
    let plan = ship.to_ship_plan();
    let o: u8 = match plan {
        ShipPlan::Horizontal { .. } => 0,
        ShipPlan::Vertical { .. } => 1,
    };
    let r = vec![side, o, plan.anchor_position().to_byte(), plan.length()];
    assert(r@ =~= sunk_body(side, ship.plan()));
    r
}

fn shot_bytes(side: u8, pos: Position) -> (r: Vec<u8>)
    ensures
        r@ == seq![side, pos.byte()],
{
    let r = vec![side, pos.to_byte()];
    assert(r@ =~= seq![side, pos.byte()]);
    r
}

impl Message {
    /// The frame of this message.
    pub fn encode(self) -> (r: raw::Message)
        ensures
            r.frame() == encode(self),
    {
        match self {
            Message::Handshake => Fixed::Handshake.to_message(),
            Message::Invalid => Fixed::Invalid.to_message(),
            Message::TerminateConnection => Fixed::Terminate.to_message(),
            Message::RequestShips => Fixed::RequestShips.to_message(),
            Message::RequestTarget => Fixed::RequestTarget.to_message(),
            Message::InformTargetSelection => Fixed::InformTargetSelection.to_message(),
            Message::InformTargetMissClient(pos) => raw::Message {
                type_marker: raw::TYPE_INFORM_MISS,
                body: shot_bytes(0, pos),
            },
            Message::InformTargetMissOpponent(pos) => raw::Message {
                type_marker: raw::TYPE_INFORM_MISS,
                body: shot_bytes(1, pos),
            },
            Message::InformTargetHitClient(pos) => raw::Message {
                type_marker: raw::TYPE_INFORM_HIT,
                body: shot_bytes(0, pos),
            },
            Message::InformTargetHitOpponent(pos) => raw::Message {
                type_marker: raw::TYPE_INFORM_HIT,
                body: shot_bytes(1, pos),
            },
            Message::InformShipSunkenClient(ship) => raw::Message {
                type_marker: raw::TYPE_INFORM_SHIP_SUNKEN,
                body: sunk_bytes(0, ship),
            },
            Message::InformShipSunkenOpponent(ship) => raw::Message {
                type_marker: raw::TYPE_INFORM_SHIP_SUNKEN,
                body: sunk_bytes(1, ship),
            },
            Message::InformLoss => Fixed::InformLoss.to_message(),
            Message::InformVictory => Fixed::InformVictory.to_message(),
        }
    }

    /// Reads a frame as a message of this direction.
    pub fn decode(message: raw::Message) -> (r: Result<Message, Error>)
        ensures
            r is Err <==> decode_error(message.frame()) is Some,
            r matches Err(e) ==> decode_error(message.frame()) == Some(e),
            r matches Ok(m) ==> decodes_to(message.frame(), m),
    {
        let m = message.as_match();
        let ghost frame = message.frame();
        if Fixed::Handshake.matches(&m) {
            return Ok(Message::Handshake);
        }
        if Fixed::Invalid.matches(&m) {
            return Ok(Message::Invalid);
        }
        if Fixed::Terminate.matches(&m) {
            return Ok(Message::TerminateConnection);
        }
        if Fixed::RequestShips.matches(&m) {
            return Ok(Message::RequestShips);
        }
        if Fixed::RequestTarget.matches(&m) {
            return Ok(Message::RequestTarget);
        }
        if Fixed::InformTargetSelection.matches(&m) {
            return Ok(Message::InformTargetSelection);
        }
        if Fixed::InformLoss.matches(&m) {
            return Ok(Message::InformLoss);
        }
        if Fixed::InformVictory.matches(&m) {
            return Ok(Message::InformVictory);
        }
        assert(!is_fixed(frame));
        let body = m.body;
        if (m.type_marker == raw::TYPE_INFORM_MISS || m.type_marker == raw::TYPE_INFORM_HIT)
            && body.len() == 2 && (body[0] == 0 || body[0] == 1) {
            let pos = match Position::try_from_byte(body[1]) {
                Ok(pos) => pos,
                Err(e) => {
                    return Err(Error::InvalidLogic(logic::Error::PositionOutOfBounds(e)));
                },
            };
            let r = if m.type_marker == raw::TYPE_INFORM_MISS {
                if body[0] == 0 {
                    Message::InformTargetMissClient(pos)
                } else {
                    Message::InformTargetMissOpponent(pos)
                }
            } else {
                if body[0] == 0 {
                    Message::InformTargetHitClient(pos)
                } else {
                    Message::InformTargetHitOpponent(pos)
                }
            };
            assert(frame.1 =~= seq![body@[0], pos.byte()]);
            return Ok(r);
        }
        if m.type_marker == raw::TYPE_INFORM_SHIP_SUNKEN && body.len() == 4 && (body[0] == 0
            || body[0] == 1) {
            let pos = match Position::try_from_byte(body[2]) {
                Ok(pos) => pos,
                Err(e) => {
                    return Err(Error::InvalidLogic(logic::Error::PositionOutOfBounds(e)));
                },
            };
            proof {
                Position::lemma_from_byte_spec(body@[2]);
                Position::lemma_byte_determines(pos, Position::from_byte_spec(body@[2]));
            }
            let length = body[3];
            let plan = if body[1] == 0 {
                ShipPlan::Horizontal { pos, length }
            } else {
                ShipPlan::Vertical { pos, length }
            };
            let ship = match Ship::try_from_plan(plan) {
                Ok(ship) => ship,
                Err(e) => {
                    return Err(Error::InvalidLogic(logic::Error::ShipOutOfBounds(e)));
                },
            };
            if body[0] == 0 {
                return Ok(Message::InformShipSunkenClient(ship));
            } else {
                return Ok(Message::InformShipSunkenOpponent(ship));
            }
        }
        Err(Error::InvalidBytes)
    }
}

impl raw::IntoMessage for Message {
    open spec fn frame_of(self) -> (u8, Seq<u8>) {
        encode(self)
    }

    fn into_raw_message(self) -> (r: raw::Message) {
        self.encode()
    }
}

impl raw::TryFromMessage for Message {
    type Error = Error;

    /// A frame reads as a message exactly when it has no decode error, and then as the
    /// message it describes; otherwise as its decode error.
    open spec fn reads_as(frame: (u8, Seq<u8>), r: Result<Message, Error>) -> bool {
        match r {
            Ok(m) => decode_error(frame) is None && decodes_to(frame, m),
            Err(e) => decode_error(frame) == Some(e),
        }
    }

    fn try_from_raw_message(message: raw::Message) -> (r: Result<Message, Error>) {
        Message::decode(message)
    }
}

/// Every message that can be built reads back from its frame as itself, and as
/// nothing else.
pub proof fn lemma_round_trip(m: Message)
    requires
        well_formed(m),
    ensures
        decode_error(encode(m)) is None,
        decodes_to(encode(m), m),
        forall|other: Message| decodes_to(encode(m), other) ==> other == m,
{
    match m {
        Message::InformShipSunkenClient(ship) => {
            lemma_sunk_round_trip(0, ship);
            assert forall|other: Message| decodes_to(encode(m), other) implies other == m by {
                if let Message::InformShipSunkenClient(s) = other {
                    Ship::lemma_plan_determines(s, ship);
                }
            }
        },
        Message::InformShipSunkenOpponent(ship) => {
            lemma_sunk_round_trip(1, ship);
            assert forall|other: Message| decodes_to(encode(m), other) implies other == m by {
                if let Message::InformShipSunkenOpponent(s) = other {
                    Ship::lemma_plan_determines(s, ship);
                }
            }
        },
        Message::InformTargetMissClient(pos) => {
            assert forall|other: Message| decodes_to(encode(m), other) implies other == m by {
                lemma_shot_unique(other, pos);
            }
        },
        Message::InformTargetMissOpponent(pos) => {
            assert forall|other: Message| decodes_to(encode(m), other) implies other == m by {
                lemma_shot_unique(other, pos);
            }
        },
        Message::InformTargetHitClient(pos) => {
            assert forall|other: Message| decodes_to(encode(m), other) implies other == m by {
                lemma_shot_unique(other, pos);
            }
        },
        Message::InformTargetHitOpponent(pos) => {
            assert forall|other: Message| decodes_to(encode(m), other) implies other == m by {
                lemma_shot_unique(other, pos);
            }
        },
        _ => {
            lemma_fixed_frames_distinct();
        },
    }
}

proof fn lemma_shot_unique(other: Message, pos: Position)
    ensures
        match other {
            Message::InformTargetMissClient(p) => seq![0u8, p.byte()] == seq![0u8, pos.byte()] ==> p == pos,
            Message::InformTargetMissOpponent(p) => seq![1u8, p.byte()] == seq![1u8, pos.byte()] ==> p == pos,
            Message::InformTargetHitClient(p) => seq![0u8, p.byte()] == seq![0u8, pos.byte()] ==> p == pos,
            Message::InformTargetHitOpponent(p) => seq![1u8, p.byte()] == seq![1u8, pos.byte()] ==> p == pos,
            _ => true,
        },
{
    match other {
        Message::InformTargetMissClient(p) | Message::InformTargetMissOpponent(p) | Message::InformTargetHitClient(p) | Message::InformTargetHitOpponent(p) => {
            if seq![0u8, p.byte()] == seq![0u8, pos.byte()] || seq![1u8, p.byte()] == seq![1u8, pos.byte()] {
                assert(seq![0u8, p.byte()][1] == p.byte());
                assert(seq![1u8, p.byte()][1] == p.byte());
                Position::lemma_byte_determines(p, pos);
            }
        },
        _ => {},
    }
}

proof fn lemma_sunk_round_trip(side: u8, ship: Ship)
    requires
        side == 0 || side == 1,
        ship.plan().on_grid(),
    ensures
        is_sunk((153u8, sunk_body(side, ship.plan()))),
        sunk_plan(sunk_body(side, ship.plan())) == ship.plan(),
        decode_error((153u8, sunk_body(side, ship.plan()))) is None,
{
    let plan = ship.plan();
    Position::lemma_from_byte_spec(plan.anchor().byte());
    Position::lemma_byte_determines(plan.anchor(), Position::from_byte_spec(plan.anchor().byte()));
    lemma_fixed_frames_distinct();
}

proof fn lemma_fixed_frames_distinct()
    ensures
        Fixed::Handshake.frame() != Fixed::Invalid.frame(),
        Fixed::Handshake.frame() != Fixed::Terminate.frame(),
        Fixed::Invalid.frame() != Fixed::Terminate.frame(),
        Fixed::InformLoss.frame() != Fixed::InformVictory.frame(),
        Fixed::Handshake.frame().1.len() == 4,
        Fixed::Invalid.frame().1.len() == 7,
        Fixed::Terminate.frame().1.len() == 4,
        Fixed::InformLoss.frame().1.len() == 4,
        Fixed::InformVictory.frame().1.len() == 7,
{
    assert(Fixed::Handshake.frame().1[0] != Fixed::Terminate.frame().1[0]);
}

/// A frame whose marker belongs to no message of this direction is refused as
/// invalid bytes.
pub proof fn lemma_unregistered_marker(frame: (u8, Seq<u8>))
    requires
        frame.0 != 1 && frame.0 != 100 && frame.0 != 101 && frame.0 != 150 && frame.0 != 151
            && frame.0 != 152 && frame.0 != 153,
    ensures
        decode_error(frame) == Some(Error::InvalidBytes),
{
}

} // verus!
