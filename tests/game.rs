use ziel::board::AttackInfo;
use ziel::client::{self, Client, Reply};
use ziel::client_message::Message as ClientMessage;
use ziel::game::Game;
use ziel::position::Position;
use ziel::raw;
use ziel::server_message::Message as ServerMessage;
use ziel::session::{self, Response};
use ziel::ship::{Ship, ShipPlan, Ships};
use ziel::ui;

fn pos(x: u8, y: u8) -> Position {
    Position::try_from_coords((x, y)).unwrap()
}

fn fleet_a() -> Ships {
    let plans = [
        ShipPlan::Horizontal { pos: pos(0, 1), length: 5 },
        ShipPlan::Horizontal { pos: pos(7, 2), length: 2 },
        ShipPlan::Horizontal { pos: pos(1, 6), length: 3 },
        ShipPlan::Vertical { pos: pos(5, 4), length: 4 },
        ShipPlan::Vertical { pos: pos(7, 7), length: 3 },
    ];
    Ships::try_from(plans.map(|p| Ship::try_from(p).unwrap())).unwrap()
}

fn fleet_b() -> Ships {
    let plans = [
        ShipPlan::Vertical { pos: pos(0, 0), length: 5 },
        ShipPlan::Vertical { pos: pos(2, 0), length: 3 },
        ShipPlan::Vertical { pos: pos(4, 0), length: 3 },
        ShipPlan::Vertical { pos: pos(6, 0), length: 4 },
        ShipPlan::Vertical { pos: pos(8, 0), length: 2 },
    ];
    Ships::try_from(plans.map(|p| Ship::try_from(p).unwrap())).unwrap()
}

fn cells(ships: &Ships) -> Vec<Position> {
    let mut out = Vec::new();
    for ship in ships.into_ship_array() {
        out.extend(ship.positions());
    }
    out
}

#[test]
fn misses_alternate_the_attacker() {
    let mut game = Game::new("a", "b", fleet_a(), fleet_b());
    let misses = [pos(9, 9), pos(9, 8), pos(9, 7), pos(9, 6)];
    let mut attackers = Vec::new();
    for (i, target) in misses.iter().enumerate() {
        let (attacker, _) = game.split_player_streams();
        attackers.push(*attacker);
        let info = game.target_opponent(*target).unwrap();
        assert_eq!(info, AttackInfo::Miss, "shot {i}");
        assert!(game.finish_turn(info));
    }
    assert_eq!(attackers, vec!["a", "b", "a", "b"]);
}

#[test]
fn hits_keep_the_attacker() {
    let mut game = Game::new("a", "b", fleet_a(), fleet_b());
    for target in [pos(0, 0), pos(0, 1), pos(0, 2)] {
        let (attacker, defender) = game.split_player_streams();
        assert_eq!((*attacker, *defender), ("a", "b"));
        let info = game.target_opponent(target).unwrap();
        assert_eq!(info, AttackInfo::Hit(None));
        assert!(game.finish_turn(info));
    }
    let info = game.target_opponent(pos(9, 9)).unwrap();
    assert_eq!(info, AttackInfo::Miss);
    assert!(game.finish_turn(info));
    let (attacker, _) = game.split_player_streams();
    assert_eq!(*attacker, "b");
    let (_, defender_board) = game.split_player_boards();
    assert_eq!(defender_board.target(pos(0, 0)), Ok(AttackInfo::Miss));
}

#[test]
fn a_sinking_hit_keeps_the_attacker_unless_it_ends_the_match() {
    let b = fleet_b();
    let mut game = Game::new((), (), fleet_a(), b);
    let info = game.target_opponent(pos(8, 0)).unwrap();
    assert!(game.finish_turn(info));
    let info = game.target_opponent(pos(8, 1)).unwrap();
    assert_eq!(info, AttackInfo::Hit(Some(b.ship(4))));
    assert!(game.finish_turn(info));
    assert!(game.target_opponent(pos(8, 1)).is_err());
}

/// Delivers a server message to a client as bytes and returns the client's answer.
fn exchange(client: &mut Client<()>, req: ServerMessage, log: &mut Vec<ServerMessage>) -> (ClientMessage, Option<bool>) {
    let bytes = raw::encode_frame(&req.encode());
    let received = ServerMessage::decode(raw::decode_frame(&bytes).unwrap()).unwrap();
    log.push(received);
    let step = client.handle_request(received).unwrap();
    let answer = match step.reply {
        Reply::Send(m) => m,
        Reply::ChooseTarget => panic!("a target is chosen by the driver"),
    };
    let bytes = raw::encode_frame(&answer.encode());
    let answer = ClientMessage::decode(raw::decode_frame(&bytes).unwrap()).unwrap();
    (answer, step.outcome)
}

#[test]
fn a_whole_match_ends_with_one_victory_and_one_loss() {
    let mut players = [Client::new((), fleet_a()), Client::new((), fleet_b())];
    let mut logs: [Vec<ServerMessage>; 2] = [Vec::new(), Vec::new()];
    let mut outcomes: [Option<bool>; 2] = [None, None];

    let mut fleets = Vec::new();
    for i in 0..2 {
        let (answer, _) = exchange(&mut players[i], ServerMessage::RequestShips, &mut logs[i]);
        fleets.push(session::ships_response(answer).unwrap());
    }
    let mut game = Game::new(0usize, 1usize, fleets[0], fleets[1]);
    let mut targets = cells(&fleet_b()).into_iter();
    let mut turns = 0;
    loop {
        turns += 1;
        let (a, d) = game.split_player_streams();
        let (a, d) = (*a, *d);
        assert_eq!((a, d), (0, 1), "the first player hits every time");
        let step = players[a].handle_request(ServerMessage::RequestTarget).unwrap();
        assert_eq!(step.reply, Reply::ChooseTarget);
        logs[a].push(ServerMessage::RequestTarget);
        let target = session::target_response(ClientMessage::ReturnTarget(targets.next().unwrap())).unwrap();
        let (ack, _) = exchange(&mut players[d], ServerMessage::InformTargetSelection, &mut logs[d]);
        session::acknowledge_response(ServerMessage::InformTargetSelection, ack).unwrap();

        let info = game.target_opponent(target).unwrap();
        for m in session::attack_info_opponent(info, target) {
            let (ack, _) = exchange(&mut players[a], m, &mut logs[a]);
            session::acknowledge_response(m, ack).unwrap();
        }
        for m in session::attack_info_client(info, target) {
            let (ack, _) = exchange(&mut players[d], m, &mut logs[d]);
            session::acknowledge_response(m, ack).unwrap();
        }
        if !game.finish_turn(info) {
            let (_, o) = exchange(&mut players[a], ServerMessage::InformVictory, &mut logs[a]);
            outcomes[a] = o;
            let (_, o) = exchange(&mut players[d], ServerMessage::InformLoss, &mut logs[d]);
            outcomes[d] = o;
            break;
        }
    }
    assert_eq!(turns, 17);
    assert!(targets.next().is_none());
    assert_eq!(outcomes, [Some(true), Some(false)]);
    let count = |log: &Vec<ServerMessage>, m: ServerMessage| log.iter().filter(|x| **x == m).count();
    assert_eq!(count(&logs[0], ServerMessage::InformVictory) + count(&logs[1], ServerMessage::InformVictory), 1);
    assert_eq!(count(&logs[0], ServerMessage::InformLoss) + count(&logs[1], ServerMessage::InformLoss), 1);
    assert_eq!(logs[0].last(), Some(&ServerMessage::InformVictory));
    assert_eq!(logs[1].last(), Some(&ServerMessage::InformLoss));
    let info = players[0].info();
    assert_eq!(info.opponent_ships.len(), 5);
    assert_eq!(info.opponent_hit_map.iter().filter(|c| **c == Some(client::AttackInfo::Hit)).count(), 17);
    let info = players[1].info();
    assert_eq!(info.client_hit_map.iter().filter(|c| c.is_some()).count(), 17);
    assert!(info.opponent_ships.is_empty());
}

#[test]
fn replies_must_fit_the_request() {
    assert_eq!(
        session::check_response(ServerMessage::RequestShips, ClientMessage::ReturnShips(fleet_a())),
        Ok(Response::ReturnShips(fleet_a()))
    );
    assert_eq!(
        session::check_response(ServerMessage::RequestShips, ClientMessage::Acknowledge),
        Err(session::Error::ClientResponseUnexpected(ServerMessage::RequestShips, ClientMessage::Acknowledge))
    );
    assert_eq!(
        session::check_response(ServerMessage::InformLoss, ClientMessage::Acknowledge),
        Ok(Response::Successful)
    );
    assert_eq!(
        session::check_response(ServerMessage::Handshake, ClientMessage::HandShake),
        Err(session::Error::ClientResponseUnexpected(ServerMessage::Handshake, ClientMessage::HandShake))
    );
    assert_eq!(session::check_handshake(ClientMessage::HandShake), Ok(()));
    assert!(session::check_handshake(ClientMessage::Acknowledge).is_err());
    assert!(session::ships_response(ClientMessage::ReturnTarget(pos(1, 1))).is_err());
    assert_eq!(session::target_response(ClientMessage::ReturnTarget(pos(1, 1))), Ok(pos(1, 1)));
    assert!(session::target_response(ClientMessage::Acknowledge).is_err());
    assert!(session::acknowledge_response(ServerMessage::RequestTarget, ClientMessage::ReturnTarget(pos(1, 1))).is_err());
}

#[test]
fn sinking_reports_disclose_the_ship() {
    let ship = fleet_a().ship(1);
    assert_eq!(
        session::attack_info_client(AttackInfo::Hit(Some(ship)), pos(8, 2)),
        vec![ServerMessage::InformTargetHitClient(pos(8, 2)), ServerMessage::InformShipSunkenClient(ship)]
    );
    assert_eq!(
        session::attack_info_opponent(AttackInfo::Miss, pos(8, 3)),
        vec![ServerMessage::InformTargetMissOpponent(pos(8, 3))]
    );
    assert_eq!(
        session::attack_info_opponent(AttackInfo::Hit(None), pos(8, 2)),
        vec![ServerMessage::InformTargetHitOpponent(pos(8, 2))]
    );
}

#[test]
fn the_client_records_what_it_is_told() {
    let mut c = Client::new(7u32, fleet_a());
    let step = c.handle_request(ServerMessage::RequestShips).unwrap();
    assert_eq!(step.reply, Reply::Send(ClientMessage::ReturnShips(fleet_a())));
    c.handle_request(ServerMessage::InformTargetMissClient(pos(2, 3))).unwrap();
    c.handle_request(ServerMessage::InformTargetHitOpponent(pos(4, 5))).unwrap();
    let ship = fleet_b().ship(0);
    c.handle_request(ServerMessage::InformShipSunkenOpponent(ship)).unwrap();
    let info = c.info();
    assert_eq!(info.client_hit_map[pos(2, 3).grid_index()], Some(client::AttackInfo::Miss));
    assert_eq!(info.opponent_hit_map[pos(4, 5).grid_index()], Some(client::AttackInfo::Hit));
    assert_eq!(info.opponent_ships, &[ship]);
    assert_eq!(
        info.messages,
        &[
            ui::Message::OpponentMissedClient(pos(2, 3)),
            ui::Message::ClientHitOpponent(pos(4, 5)),
            ui::Message::OpponentShipSunk(5),
        ]
    );
    assert_eq!(*c.stream_mut(), 7);
    assert_eq!(c.handle_request(ServerMessage::TerminateConnection), Err(client::Error::UnexpectedTerminationRequest));
    assert_eq!(c.handle_request(ServerMessage::Invalid), Err(client::Error::UnexpectedRequest(ServerMessage::Invalid)));
    assert_eq!(c.handle_request(ServerMessage::InformVictory).unwrap().outcome, Some(true));
    assert_eq!(c.handle_request(ServerMessage::InformLoss).unwrap().outcome, Some(false));
}

#[test]
fn a_sixth_sunk_ship_is_refused() {
    let mut c = Client::new((), fleet_a());
    let ship = fleet_b().ship(2);
    for _ in 0..5 {
        c.handle_request(ServerMessage::InformShipSunkenOpponent(ship)).unwrap();
    }
    assert_eq!(
        c.handle_request(ServerMessage::InformShipSunkenOpponent(ship)),
        Err(client::Error::UnexpectedRequest(ServerMessage::InformShipSunkenOpponent(ship)))
    );
    assert_eq!(c.info().opponent_ships.len(), 5);
    assert_eq!(c.info().messages.len(), 5);
}

#[test]
fn the_client_closes_on_termination() {
    assert_eq!(client::check_handshake(ServerMessage::Handshake), Ok(()));
    assert!(client::check_handshake(ServerMessage::RequestShips).is_err());
    assert_eq!(client::closing_reply(ServerMessage::TerminateConnection), Some(ClientMessage::Acknowledge));
    assert_eq!(client::closing_reply(ServerMessage::InformLoss), None);
}
