use ziel::client_message::{self, Message as ClientMessage};
use ziel::logic;
use ziel::position::{self, Position};
use ziel::raw::{self, Fixed, IntoMessage, TryFromMessage};
use ziel::server_message::{self, Message as ServerMessage};
use ziel::ship::{self, Ship, ShipCollectionError, ShipPlan, Ships};

fn pos(x: u8, y: u8) -> Position {
    Position::try_from_coords((x, y)).unwrap()
}

fn fleet() -> Ships {
    let plans = [
        ShipPlan::Horizontal { pos: pos(0, 1), length: 5 },
        ShipPlan::Horizontal { pos: pos(7, 2), length: 2 },
        ShipPlan::Horizontal { pos: pos(1, 6), length: 3 },
        ShipPlan::Vertical { pos: pos(5, 4), length: 4 },
        ShipPlan::Vertical { pos: pos(7, 7), length: 3 },
    ];
    Ships::try_from(plans.map(|p| Ship::try_from(p).unwrap())).unwrap()
}

fn frame(type_marker: u8, body: &[u8]) -> raw::Message {
    raw::Message { type_marker, body: body.to_vec() }
}

#[test]
fn fixed_frames_have_their_tags() {
    let m = ServerMessage::Handshake.encode();
    assert_eq!(m, frame(1, b"HELO"));
    assert_eq!(raw::encode_frame(&m), vec![1, 0, 0, 0, 4, b'H', b'E', b'L', b'O']);
    assert_eq!(ClientMessage::Acknowledge.encode(), frame(2, b"ACK"));
    assert_eq!(ServerMessage::Invalid.encode(), frame(1, b"INVALID"));
    assert_eq!(ServerMessage::TerminateConnection.encode(), frame(1, b"TERM"));
    assert_eq!(ServerMessage::RequestShips.encode(), frame(100, b"REQ SHIP"));
    assert_eq!(ServerMessage::RequestTarget.encode(), frame(101, b"REQ TARG"));
    assert_eq!(ServerMessage::InformTargetSelection.encode(), frame(150, b"OPP SELEC TARG"));
    assert_eq!(ServerMessage::InformLoss.encode(), frame(152, b"LOSS"));
    assert_eq!(ServerMessage::InformVictory.encode(), frame(152, b"VICTORY"));
    assert!(Fixed::Handshake.matches(&frame(1, b"HELO").as_match()));
    assert!(!Fixed::Handshake.matches(&frame(1, b"HELP").as_match()));
}

#[test]
fn data_frames_have_their_bodies() {
    assert_eq!(ClientMessage::ReturnTarget(pos(3, 4)).encode(), frame(101, &[0x34]));
    assert_eq!(ServerMessage::InformTargetMissClient(pos(3, 4)).encode(), frame(151, &[0, 0x34]));
    assert_eq!(ServerMessage::InformTargetMissOpponent(pos(3, 4)).encode(), frame(151, &[1, 0x34]));
    assert_eq!(ServerMessage::InformTargetHitClient(pos(9, 0)).encode(), frame(152, &[0, 0x90]));
    assert_eq!(ServerMessage::InformTargetHitOpponent(pos(9, 0)).encode(), frame(152, &[1, 0x90]));
    let ship = Ship::try_from(ShipPlan::Vertical { pos: pos(5, 4), length: 4 }).unwrap();
    assert_eq!(ServerMessage::InformShipSunkenClient(ship).encode(), frame(153, &[0, 1, 0x54, 4]));
    assert_eq!(ServerMessage::InformShipSunkenOpponent(ship).encode(), frame(153, &[1, 1, 0x54, 4]));
    let body = ClientMessage::ReturnShips(fleet()).encode().body;
    assert_eq!(
        body,
        vec![0, 0x01, 5, 0, 0x72, 2, 0, 0x16, 3, 1, 0x54, 4, 1, 0x77, 3]
    );
}

#[test]
fn client_messages_round_trip() {
    let messages = [
        ClientMessage::HandShake,
        ClientMessage::Acknowledge,
        ClientMessage::ReturnShips(fleet()),
        ClientMessage::ReturnTarget(pos(9, 9)),
    ];
    for m in messages {
        let raw = m.into_raw_message();
        let back = ClientMessage::try_from_raw_message(raw.clone()).unwrap();
        assert_eq!(back.encode(), raw);
        assert_eq!(back, m);
    }
}

#[test]
fn server_messages_round_trip() {
    let ship = Ship::try_from(ShipPlan::Horizontal { pos: pos(1, 6), length: 3 }).unwrap();
    let messages = [
        ServerMessage::Handshake,
        ServerMessage::Invalid,
        ServerMessage::TerminateConnection,
        ServerMessage::RequestShips,
        ServerMessage::RequestTarget,
        ServerMessage::InformTargetSelection,
        ServerMessage::InformTargetMissClient(pos(0, 0)),
        ServerMessage::InformTargetMissOpponent(pos(1, 2)),
        ServerMessage::InformTargetHitClient(pos(3, 4)),
        ServerMessage::InformTargetHitOpponent(pos(9, 8)),
        ServerMessage::InformShipSunkenClient(ship),
        ServerMessage::InformShipSunkenOpponent(ship),
        ServerMessage::InformLoss,
        ServerMessage::InformVictory,
    ];
    for m in messages {
        let raw = m.into_raw_message();
        assert_eq!(ServerMessage::try_from_raw_message(raw), Ok(m));
    }
}

#[test]
fn unregistered_markers_are_invalid_bytes() {
    for marker in [0u8, 3, 99, 102, 149, 154, 255] {
        assert!(matches!(
            ClientMessage::decode(frame(marker, b"HELO")),
            Err(client_message::Error::InvalidBytes)
        ));
        assert_eq!(
            ServerMessage::decode(frame(marker, b"HELO")),
            Err(server_message::Error::InvalidBytes)
        );
    }
}

#[test]
fn malformed_bodies_are_refused() {
    assert!(matches!(
        ClientMessage::decode(frame(100, &[0; 14])),
        Err(client_message::Error::InvalidBytes)
    ));
    assert!(matches!(
        ClientMessage::decode(frame(101, &[0xaa])),
        Err(client_message::Error::InvalidLogic(logic::Error::PositionOutOfBounds(
            position::OutOfBoundsError
        )))
    ));
    // The third ship's anchor is off the grid.
    let mut body = ClientMessage::ReturnShips(fleet()).encode().body;
    body[7] = 0xa0;
    assert!(matches!(
        ClientMessage::decode(frame(100, &body)),
        Err(client_message::Error::InvalidLogic(logic::Error::PositionOutOfBounds(_)))
    ));
    // The first ship leaves the grid.
    let mut body = ClientMessage::ReturnShips(fleet()).encode().body;
    body[1] = 0x61;
    assert!(matches!(
        ClientMessage::decode(frame(100, &body)),
        Err(client_message::Error::InvalidLogic(logic::Error::ShipOutOfBounds(
            ship::OutOfBoundsError
        )))
    ));
    // Two ships of length 5.
    let mut body = ClientMessage::ReturnShips(fleet()).encode().body;
    body[11] = 5;
    assert!(matches!(
        ClientMessage::decode(frame(100, &body)),
        Err(client_message::Error::InvalidLogic(logic::Error::ShipCollection(
            ShipCollectionError::InvalidShipLengths
        )))
    ));
    // The second ship moved onto the first.
    let mut body = ClientMessage::ReturnShips(fleet()).encode().body;
    body[4] = 0x31;
    assert!(matches!(
        ClientMessage::decode(frame(100, &body)),
        Err(client_message::Error::InvalidLogic(logic::Error::ShipCollection(
            ShipCollectionError::Overlap
        )))
    ));
    assert_eq!(
        ServerMessage::decode(frame(151, &[2, 0x11])),
        Err(server_message::Error::InvalidBytes)
    );
    assert_eq!(
        ServerMessage::decode(frame(152, &[0, 0xff])),
        Err(server_message::Error::InvalidLogic(logic::Error::PositionOutOfBounds(
            position::OutOfBoundsError
        )))
    );
    assert_eq!(
        ServerMessage::decode(frame(153, &[0, 0, 0x81, 4])),
        Err(server_message::Error::InvalidLogic(logic::Error::ShipOutOfBounds(
            ship::OutOfBoundsError
        )))
    );
    // Any orientation byte but 0 reads as vertical.
    let vertical = Ship::try_from(ShipPlan::Vertical { pos: pos(8, 1), length: 4 }).unwrap();
    assert_eq!(
        ServerMessage::decode(frame(153, &[1, 7, 0x81, 4])),
        Ok(ServerMessage::InformShipSunkenOpponent(vertical))
    );
}

#[test]
fn frames_are_laid_out_big_endian() {
    let m = frame(7, &[9; 300]);
    let bytes = raw::encode_frame(&m);
    assert_eq!(&bytes[..5], &[7, 0, 0, 1, 44]);
    assert_eq!(bytes.len(), 305);
    assert_eq!(raw::parse_header(&[7, 1, 2, 3, 4]), (7, 0x0102_0304));
    assert_eq!(raw::decode_frame(&bytes), Some(m));
    assert_eq!(raw::decode_frame(&bytes[..304]), None);
    assert_eq!(raw::decode_frame(&[1, 0, 0]), None);
    assert!(raw::bytes_equal(b"abc", b"abc"));
    assert!(!raw::bytes_equal(b"abc", b"abd"));
    assert!(!raw::bytes_equal(b"abc", b"ab"));
}

#[test]
fn borrowed_frames_copy_back() {
    let m = frame(42, &[1, 2, 3]);
    let view = m.as_match();
    assert_eq!(view.type_marker, 42);
    assert_eq!(view.body, &[1, 2, 3]);
    assert_eq!(view.to_message(), m);
}

#[test]
fn marker_zero_is_invalid_in_both_directions() {
    let empty = frame(0, &[]);
    assert_eq!(
        ClientMessage::try_from_raw_message(empty.clone()),
        Err(client_message::Error::InvalidBytes)
    );
    assert_eq!(
        ServerMessage::try_from_raw_message(empty),
        Err(server_message::Error::InvalidBytes)
    );
    assert_eq!(ClientMessage::HandShake.into_raw_message(), frame(1, b"HELO"));
    assert_eq!(ClientMessage::ReturnTarget(pos(1, 2)).into_raw_message(), frame(101, &[0x12]));
}
