use vstd::prelude::*;

use arrayvec::ArrayVec;

use crate::client_message::Message as ClientMessage;
use crate::position::Position;
use crate::server_message::Message as ServerMessage;
use crate::ship::{Ship, Ships};
use crate::ui::{self, ClientInfo};

verus! {

#[verifier::external_type_specification]
#[verifier::external_body]
#[verifier::reject_recursive_types(T)]
pub struct ExArrayVec<T, const CAP: usize>(ArrayVec<T, CAP>);

/// The ships held by a vector of revealed ships, in order.
pub uninterp spec fn revealed(v: ArrayVec<Ship, 5>) -> Seq<Ship>;

/// Relies on `ArrayVec::new`: the new vector is empty.
#[verifier::external_body]
fn revealed_new() -> (r: ArrayVec<Ship, 5>)
    ensures
        revealed(r) == Seq::<Ship>::empty(),
{
    ArrayVec::new()
}

/// Relies on `ArrayVec::len`: the number of elements, which never exceeds the capacity.
#[verifier::external_body]
fn revealed_len(v: &ArrayVec<Ship, 5>) -> (r: usize)
    ensures
        r == revealed(*v).len(),
        r <= 5,
{
    v.len()
}

/// Relies on `ArrayVec::push`: appends at the end; it panics on a full vector, which
/// `requires` rules out.
#[verifier::external_body]
fn revealed_push(v: &mut ArrayVec<Ship, 5>, ship: Ship)
    requires
        revealed(*old(v)).len() < 5,
    ensures
        revealed(*final(v)) == revealed(*old(v)).push(ship),
{
    v.push(ship)
}

/// Relies on `ArrayVec::as_slice`: the elements, in order.
#[verifier::external_body]
fn revealed_slice(v: &ArrayVec<Ship, 5>) -> (r: &[Ship])
    ensures
        r@ == revealed(*v),
{
    v.as_slice()
}

/// What became of a shot, as far as a client knows it.
#[derive(Clone, Copy, PartialEq, Eq, Debug, Structural)]
pub enum AttackInfo {
    Hit,
    Miss,
}

/// A server message that a client does not accept at this point.
#[derive(Debug, Clone, Copy, PartialEq, Eq)]
pub enum Error {
    UnexpectedRequest(ServerMessage),
    UnexpectedTerminationRequest,
}

/// How to answer a request.
#[derive(Debug, Clone, Copy, PartialEq, Eq)]
pub enum Reply {
    /// Send this message.
    Send(ClientMessage),
    /// Ask the player for a target and send it back.
    ChooseTarget,
}

/// The answer to one request, and the outcome of the match once it is known: `true`
/// for a victory.
#[derive(Debug, Clone, Copy, PartialEq, Eq)]
pub struct Step {
    pub reply: Reply,
    pub outcome: Option<bool>,
}

/// The joining side of a match: its connection, its fleet, and what it has learnt.
pub struct Client<S> {
    stream: S,
    messages: Vec<ui::Message>,
    ships: Ships,
    client_hit_map: [Option<AttackInfo>; 100],
    opponent_hit_map: [Option<AttackInfo>; 100],
    opponent_ships: ArrayVec<Ship, 5>,
}

/// The note a request leaves in the message log.
pub open spec fn note_of(req: ServerMessage) -> Option<ui::Message> {
    match req {
        ServerMessage::InformTargetSelection => Some(ui::Message::OpponentSelectsTarget),
        ServerMessage::InformTargetMissClient(pos) => Some(ui::Message::OpponentMissedClient(pos)),
        ServerMessage::InformTargetMissOpponent(pos) => Some(ui::Message::ClientMissedOpponent(pos)),
        ServerMessage::InformTargetHitClient(pos) => Some(ui::Message::OpponentHitClient(pos)),
        ServerMessage::InformTargetHitOpponent(pos) => Some(ui::Message::ClientHitOpponent(pos)),
        ServerMessage::InformShipSunkenClient(ship) => Some(ui::Message::ClientShipSunk(ship.plan().len())),
        ServerMessage::InformShipSunkenOpponent(ship) => Some(ui::Message::OpponentShipSunk(ship.plan().len())),
        _ => None,
    }
}

/// The shot at the client's own fleet that a request reports.
pub open spec fn client_mark(req: ServerMessage) -> Option<(Position, AttackInfo)> {
    match req {
        ServerMessage::InformTargetMissClient(pos) => Some((pos, AttackInfo::Miss)),
        ServerMessage::InformTargetHitClient(pos) => Some((pos, AttackInfo::Hit)),
        _ => None,
    }
}

/// The client's own shot that a request reports.
pub open spec fn opponent_mark(req: ServerMessage) -> Option<(Position, AttackInfo)> {
    match req {
        ServerMessage::InformTargetMissOpponent(pos) => Some((pos, AttackInfo::Miss)),
        ServerMessage::InformTargetHitOpponent(pos) => Some((pos, AttackInfo::Hit)),
        _ => None,
    }
}

/// A hit map after recording `mark`.
pub open spec fn marked(map: Seq<Option<AttackInfo>>, mark: Option<(Position, AttackInfo)>) -> Seq<Option<AttackInfo>> {
    match mark {
        Some((pos, info)) => map.update(pos.index(), Some(info)),
        None => map,
    }
}

/// A log after recording `note`.
pub open spec fn logged(log: Seq<ui::Message>, note: Option<ui::Message>) -> Seq<ui::Message> {
    match note {
        Some(n) => log.push(n),
        None => log,
    }
}

impl<S> Client<S> {
    pub closed spec fn stream(self) -> S {
        self.stream
    }

    pub closed spec fn messages(self) -> Seq<ui::Message> {
        self.messages@
    }

    pub closed spec fn ships(self) -> Ships {
        self.ships
    }

    pub closed spec fn client_hits(self) -> Seq<Option<AttackInfo>> {
        self.client_hit_map@
    }

    pub closed spec fn opponent_hits(self) -> Seq<Option<AttackInfo>> {
        self.opponent_hit_map@
    }

    pub closed spec fn opponent_ships(self) -> Seq<Ship> {
        revealed(self.opponent_ships)
    }

    /// The answer that `req` is owed.
    pub open spec fn reply_to(self, req: ServerMessage) -> Result<Step, Error> {
        let ack = Step { reply: Reply::Send(ClientMessage::Acknowledge), outcome: None };
        match req {
            ServerMessage::RequestShips => Ok(
                Step { reply: Reply::Send(ClientMessage::ReturnShips(self.ships())), outcome: None },
            ),
            ServerMessage::RequestTarget => Ok(Step { reply: Reply::ChooseTarget, outcome: None }),
            ServerMessage::InformLoss => Ok(
                Step { reply: Reply::Send(ClientMessage::Acknowledge), outcome: Some(false) },
            ),
            ServerMessage::InformVictory => Ok(
                Step { reply: Reply::Send(ClientMessage::Acknowledge), outcome: Some(true) },
            ),
            ServerMessage::TerminateConnection => Err(Error::UnexpectedTerminationRequest),
            ServerMessage::Invalid => Err(Error::UnexpectedRequest(req)),
            ServerMessage::Handshake => Err(Error::UnexpectedRequest(req)),
            ServerMessage::InformShipSunkenOpponent(_) => if self.opponent_ships().len() < 5 {
                Ok(ack)
            } else {
                Err(Error::UnexpectedRequest(req))
            },
            _ => Ok(ack),
        }
    }

    /// A client that has placed `ships` and knows nothing of the match yet.
    pub fn new(stream: S, ships: Ships) -> (r: Client<S>)
        ensures
            r.stream() == stream,
            r.ships() == ships,
            r.messages() == Seq::<ui::Message>::empty(),
            r.client_hits() == Seq::new(100, |i: int| None::<AttackInfo>),
            r.opponent_hits() == Seq::new(100, |i: int| None::<AttackInfo>),
            r.opponent_ships() == Seq::<Ship>::empty(),
    {
        let r = Client {
            stream,
            messages: Vec::new(),
            ships,
            client_hit_map: [None; 100],
            opponent_hit_map: [None; 100],
            opponent_ships: revealed_new(),
        };
        assert(r.client_hits() =~= Seq::new(100, |i: int| None::<AttackInfo>));
        assert(r.opponent_hits() =~= Seq::new(100, |i: int| None::<AttackInfo>));
        r
    }

    /// The connection to the server.
    pub fn stream_mut(&mut self) -> (r: &mut S)
        ensures
            *r == old(self).stream(),
            final(self).stream() == *final(r),
            final(self).messages() == old(self).messages(),
            final(self).ships() == old(self).ships(),
            final(self).client_hits() == old(self).client_hits(),
            final(self).opponent_hits() == old(self).opponent_hits(),
            final(self).opponent_ships() == old(self).opponent_ships(),
    {
        &mut self.stream
    }

    /// The view of the match lent to the presentation layer.
    pub fn info(&self) -> (r: ClientInfo<'_>)
        ensures
            r.messages@ == self.messages(),
            *r.ships == self.ships(),
            r.client_hit_map@ == self.client_hits(),
            r.opponent_hit_map@ == self.opponent_hits(),
            r.opponent_ships@ == self.opponent_ships(),
    {
        ClientInfo {
            messages: self.messages.as_slice(),
            ships: &self.ships,
            client_hit_map: &self.client_hit_map,
            opponent_hit_map: &self.opponent_hit_map,
            opponent_ships: revealed_slice(&self.opponent_ships),
        }
    }

    /// The connection, together with the view of the match, so that the board can be
    /// drawn while the connection waits.
    pub fn stream_and_info(&mut self) -> (r: (&mut S, ClientInfo<'_>))
        ensures
            *r.0 == old(self).stream(),
            final(self).stream() == *final(r.0),
            r.1.messages@ == old(self).messages(),
            *r.1.ships == old(self).ships(),
            r.1.client_hit_map@ == old(self).client_hits(),
            r.1.opponent_hit_map@ == old(self).opponent_hits(),
            r.1.opponent_ships@ == old(self).opponent_ships(),
            final(self).messages() == old(self).messages(),
            final(self).ships() == old(self).ships(),
            final(self).client_hits() == old(self).client_hits(),
            final(self).opponent_hits() == old(self).opponent_hits(),
            final(self).opponent_ships() == old(self).opponent_ships(),
    {
        let info = ClientInfo {
            messages: self.messages.as_slice(),
            ships: &self.ships,
            client_hit_map: &self.client_hit_map,
            opponent_hit_map: &self.opponent_hit_map,
            opponent_ships: revealed_slice(&self.opponent_ships),
        };
        (&mut self.stream, info)
    }

    /// Answers one server request from what the client holds, and records what the
    /// request discloses: shots in the hit maps, a sunk opponent ship in the list of
    /// revealed ships, and a note in the log.
    pub fn handle_request(&mut self, req: ServerMessage) -> (r: Result<Step, Error>)
        ensures
            r == old(self).reply_to(req),
            final(self).stream() == old(self).stream(),
            final(self).ships() == old(self).ships(),
            r is Ok ==> final(self).messages() == logged(old(self).messages(), note_of(req)),
            r is Ok ==> final(self).client_hits() == marked(old(self).client_hits(), client_mark(req)),
            r is Ok ==> final(self).opponent_hits() == marked(
                old(self).opponent_hits(),
                opponent_mark(req),
            ),
            r is Ok ==> final(self).opponent_ships() == (match req {
                ServerMessage::InformShipSunkenOpponent(ship) => old(self).opponent_ships().push(ship),
                _ => old(self).opponent_ships(),
            }),
            r is Err ==> final(self).messages() == old(self).messages(),
            r is Err ==> final(self).client_hits() == old(self).client_hits(),
            r is Err ==> final(self).opponent_hits() == old(self).opponent_hits(),
            r is Err ==> final(self).opponent_ships() == old(self).opponent_ships(),
    {
        let ack = Step { reply: Reply::Send(ClientMessage::Acknowledge), outcome: None };
        match req {
            ServerMessage::RequestShips => Ok(
                Step { reply: Reply::Send(ClientMessage::ReturnShips(self.ships)), outcome: None },
            ),
            ServerMessage::RequestTarget => Ok(Step { reply: Reply::ChooseTarget, outcome: None }),
            ServerMessage::InformTargetSelection => {
                self.messages.push(ui::Message::OpponentSelectsTarget);
                Ok(ack)
            },
            ServerMessage::InformTargetMissClient(pos) => {
                self.client_hit_map[pos.grid_index()] = Some(AttackInfo::Miss);
                self.messages.push(ui::Message::OpponentMissedClient(pos));
                Ok(ack)
            },
            ServerMessage::InformTargetMissOpponent(pos) => {
                self.opponent_hit_map[pos.grid_index()] = Some(AttackInfo::Miss);
                self.messages.push(ui::Message::ClientMissedOpponent(pos));
                Ok(ack)
            },
            ServerMessage::InformTargetHitClient(pos) => {
                self.client_hit_map[pos.grid_index()] = Some(AttackInfo::Hit);
                self.messages.push(ui::Message::OpponentHitClient(pos));
                Ok(ack)
            },
            ServerMessage::InformTargetHitOpponent(pos) => {
                self.opponent_hit_map[pos.grid_index()] = Some(AttackInfo::Hit);
                self.messages.push(ui::Message::ClientHitOpponent(pos));
                Ok(ack)
            },
            ServerMessage::InformLoss => Ok(
                Step { reply: Reply::Send(ClientMessage::Acknowledge), outcome: Some(false) },
            ),
            ServerMessage::InformVictory => Ok(
                Step { reply: Reply::Send(ClientMessage::Acknowledge), outcome: Some(true) },
            ),
            ServerMessage::Invalid => Err(Error::UnexpectedRequest(req)),
            ServerMessage::TerminateConnection => Err(Error::UnexpectedTerminationRequest),
            ServerMessage::InformShipSunkenClient(ship) => {
                self.messages.push(ui::Message::ClientShipSunk(ship.length()));
                Ok(ack)
            },
            ServerMessage::InformShipSunkenOpponent(ship) => {
                if revealed_len(&self.opponent_ships) >= 5 {
                    return Err(Error::UnexpectedRequest(req));
                }
                self.messages.push(ui::Message::OpponentShipSunk(ship.length()));
                revealed_push(&mut self.opponent_ships, ship);
                Ok(ack)
            },
            ServerMessage::Handshake => Err(Error::UnexpectedRequest(req)),
        }
    }
}

/// Checks the server's answer to the client's handshake.
pub fn check_handshake(res: ServerMessage) -> (r: Result<(), Error>)
    ensures
        r is Ok <==> res is Handshake,
        r matches Err(e) ==> e == Error::UnexpectedRequest(res),
{
    match res {
        ServerMessage::Handshake => Ok(()),
        _ => Err(Error::UnexpectedRequest(res)),
    }
}

/// The answer to the server's last message once the outcome is known: a termination
/// request is acknowledged, anything else is left unanswered.
pub fn closing_reply(res: ServerMessage) -> (r: Option<ClientMessage>)
    ensures
        r is Some <==> res is TerminateConnection,
        r matches Some(m) ==> m is Acknowledge,
{
    match res {
        ServerMessage::TerminateConnection => Some(ClientMessage::Acknowledge),
        _ => None,
    }
}

} // verus!
