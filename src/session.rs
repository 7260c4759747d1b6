use vstd::prelude::*;

use crate::board::{AlreadyHitError, AttackInfo};
use crate::client_message::{self, Message as ClientMessage};
use crate::position::Position;
use crate::server_message::Message as ServerMessage;
use crate::ship::Ships;

verus! {

/// Why a session with a client ended.
#[derive(Debug, Clone, Copy, PartialEq, Eq)]
pub enum Error {
    /// The client sent a frame that is no client message.
    ClientResponse(client_message::Error),
    /// The client answered a request with a message of the wrong kind.
    ClientResponseUnexpected(ServerMessage, ClientMessage),
    /// The client chose a cell that was already targeted.
    ClientResponseTargetAlreadyHit(AlreadyHitError),
}

/// What a well-formed answer to a request carried.
#[derive(Debug, Clone, Copy, PartialEq, Eq)]
pub enum Response {
    Successful,
    ReturnShips(Ships),
    ReturnTarget(Position),
}

/// The request is answered by a plain acknowledgement.
pub open spec fn acknowledged_kind(req: ServerMessage) -> bool {
    match req {
        ServerMessage::Handshake | ServerMessage::RequestShips | ServerMessage::RequestTarget => false,
        _ => true,
    }
}

/// The answer that `res` gives to `req`, or `None` where it has the wrong kind.
pub open spec fn response_to(req: ServerMessage, res: ClientMessage) -> Option<Response> {
    if acknowledged_kind(req) && res is Acknowledge {
        Some(Response::Successful)
    } else {
        match (req, res) {
            (ServerMessage::RequestShips, ClientMessage::ReturnShips(ships)) => Some(
                Response::ReturnShips(ships),
            ),
            (ServerMessage::RequestTarget, ClientMessage::ReturnTarget(pos)) => Some(
                Response::ReturnTarget(pos),
            ),
            _ => None,
        }
    }
}

/// Checks the client's opening message: it must be the client handshake.
pub fn check_handshake(res: ClientMessage) -> (r: Result<(), Error>)
    ensures
        r is Ok <==> res is HandShake,
        r matches Err(e) ==> e == Error::ClientResponseUnexpected(ServerMessage::Handshake, res),
{
    match res {
        ClientMessage::HandShake => Ok(()),
        _ => Err(Error::ClientResponseUnexpected(ServerMessage::Handshake, res)),
    }
}

/// Checks that the client's answer has the kind the request asks for: ships for a
/// fleet request, a position for a target request, an acknowledgement otherwise.
/// The handshake is answered by nothing here.
pub fn check_response(req: ServerMessage, res: ClientMessage) -> (r: Result<Response, Error>)
    ensures
        r is Ok <==> response_to(req, res) is Some,
        r matches Ok(resp) ==> response_to(req, res) == Some(resp),
        r matches Err(e) ==> e == Error::ClientResponseUnexpected(req, res),
{
    match (req, res) {
        (
            ServerMessage::Invalid
            | ServerMessage::TerminateConnection
            | ServerMessage::InformTargetSelection
            | ServerMessage::InformTargetMissClient(..)
            | ServerMessage::InformTargetMissOpponent(..)
            | ServerMessage::InformTargetHitClient(..)
            | ServerMessage::InformTargetHitOpponent(..)
            | ServerMessage::InformShipSunkenClient(..)
            | ServerMessage::InformShipSunkenOpponent(..)
            | ServerMessage::InformLoss
            | ServerMessage::InformVictory,
            ClientMessage::Acknowledge,
        ) => Ok(Response::Successful),
        (ServerMessage::RequestShips, ClientMessage::ReturnShips(ships)) => Ok(
            Response::ReturnShips(ships),
        ),
        (ServerMessage::RequestTarget, ClientMessage::ReturnTarget(target)) => Ok(
            Response::ReturnTarget(target),
        ),
        _ => Err(Error::ClientResponseUnexpected(req, res)),
    }
}

/// The fleet in the answer to a fleet request.
pub fn ships_response(res: ClientMessage) -> (r: Result<Ships, Error>)
    ensures
        r is Ok <==> res is ReturnShips,
        r matches Ok(ships) ==> res == ClientMessage::ReturnShips(ships),
        r matches Err(e) ==> e == Error::ClientResponseUnexpected(ServerMessage::RequestShips, res),
{
    match check_response(ServerMessage::RequestShips, res) {
        Ok(Response::ReturnShips(ships)) => Ok(ships),
        Ok(_) => Err(Error::ClientResponseUnexpected(ServerMessage::RequestShips, res)),
        Err(e) => Err(e),
    }
}

/// The position in the answer to a target request.
pub fn target_response(res: ClientMessage) -> (r: Result<Position, Error>)
    ensures
        r is Ok <==> res is ReturnTarget,
        r matches Ok(pos) ==> res == ClientMessage::ReturnTarget(pos),
        r matches Err(e) ==> e == Error::ClientResponseUnexpected(ServerMessage::RequestTarget, res),
{
    match check_response(ServerMessage::RequestTarget, res) {
        Ok(Response::ReturnTarget(pos)) => Ok(pos),
        Ok(_) => Err(Error::ClientResponseUnexpected(ServerMessage::RequestTarget, res)),
        Err(e) => Err(e),
    }
}

/// The answer to a message that only informs: it must be an acknowledgement.
pub fn acknowledge_response(req: ServerMessage, res: ClientMessage) -> (r: Result<(), Error>)
    ensures
        r is Ok <==> (response_to(req, res) == Some(Response::Successful)),
        r matches Err(e) ==> e == Error::ClientResponseUnexpected(req, res),
{
    match check_response(req, res) {
        Ok(Response::Successful) => Ok(()),
        Ok(_) => Err(Error::ClientResponseUnexpected(req, res)),
        Err(e) => Err(e),
    }
}

/// What the side that was shot at is told, in order.
pub open spec fn client_reports(info: AttackInfo, pos: Position) -> Seq<ServerMessage> {
    match info {
        AttackInfo::Miss => seq![ServerMessage::InformTargetMissClient(pos)],
        AttackInfo::Hit(None) => seq![ServerMessage::InformTargetHitClient(pos)],
        AttackInfo::Hit(Some(ship)) => seq![
            ServerMessage::InformTargetHitClient(pos),
            ServerMessage::InformShipSunkenClient(ship),
        ],
    }
}

/// What the side that shot is told, in order.
pub open spec fn opponent_reports(info: AttackInfo, pos: Position) -> Seq<ServerMessage> {
    match info {
        AttackInfo::Miss => seq![ServerMessage::InformTargetMissOpponent(pos)],
        AttackInfo::Hit(None) => seq![ServerMessage::InformTargetHitOpponent(pos)],
        AttackInfo::Hit(Some(ship)) => seq![
            ServerMessage::InformTargetHitOpponent(pos),
            ServerMessage::InformShipSunkenOpponent(ship),
        ],
    }
}

/// The messages that tell the side that was shot at where the shot fell; a sinking
/// shot also discloses the sunk ship.
pub fn attack_info_client(info: AttackInfo, pos: Position) -> (r: Vec<ServerMessage>)
    ensures
        r@ == client_reports(info, pos),
{
    let r = match info {
        AttackInfo::Miss => vec![ServerMessage::InformTargetMissClient(pos)],
        AttackInfo::Hit(None) => vec![ServerMessage::InformTargetHitClient(pos)],
        AttackInfo::Hit(Some(ship)) => vec![
            ServerMessage::InformTargetHitClient(pos),
            ServerMessage::InformShipSunkenClient(ship),
        ],
    };
    assert(r@ =~= client_reports(info, pos));
    r
}

/// The messages that tell the side that shot where its shot fell; a sinking shot
/// also discloses the sunk ship.
pub fn attack_info_opponent(info: AttackInfo, pos: Position) -> (r: Vec<ServerMessage>)
    ensures
        r@ == opponent_reports(info, pos),
{
    let r = match info {
        AttackInfo::Miss => vec![ServerMessage::InformTargetMissOpponent(pos)],
        AttackInfo::Hit(None) => vec![ServerMessage::InformTargetHitOpponent(pos)],
        AttackInfo::Hit(Some(ship)) => vec![
            ServerMessage::InformTargetHitOpponent(pos),
            ServerMessage::InformShipSunkenOpponent(ship),
        ],
    };
    assert(r@ =~= opponent_reports(info, pos));
    r
}

} // verus!
