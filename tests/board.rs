use ziel::board::{AlreadyHitError, AttackInfo, Board};
use ziel::position::Position;
use ziel::ship::{Ship, ShipPlan, Ships};

fn pos(x: u8, y: u8) -> Position {
    Position::try_from_coords((x, y)).unwrap()
}

fn fleet() -> Ships {
    let plans = [
        ShipPlan::Horizontal { pos: pos(0, 1), length: 5 },
        ShipPlan::Horizontal { pos: pos(7, 2), length: 2 },
        ShipPlan::Horizontal { pos: pos(1, 6), length: 3 },
        ShipPlan::Vertical { pos: pos(5, 4), length: 4 },
        ShipPlan::Vertical { pos: pos(7, 7), length: 3 },
    ];
    Ships::try_from(plans.map(|p| Ship::try_from(p).unwrap())).unwrap()
}

fn all_cells(ships: &Ships) -> Vec<Position> {
    let mut cells = Vec::new();
    for ship in ships.into_ship_array() {
        cells.extend(ship.positions());
    }
    cells
}

#[test]
fn targeting_twice_is_refused() {
    let mut board = Board::from_ships(fleet());
    assert_eq!(board.target(pos(9, 9)), Ok(AttackInfo::Miss));
    assert_eq!(board.target(pos(9, 9)), Err(AlreadyHitError));
    assert_eq!(board.target(pos(0, 1)), Ok(AttackInfo::Hit(None)));
    assert_eq!(board.target(pos(0, 1)), Err(AlreadyHitError));
}

#[test]
fn sinking_a_ship_reports_it() {
    let ships = fleet();
    let mut board = Board::from_ships(ships);
    assert_eq!(board.target(pos(7, 2)), Ok(AttackInfo::Hit(None)));
    assert!(!board.is_ship_sunken(1));
    assert_eq!(board.target(pos(8, 2)), Ok(AttackInfo::Hit(Some(ships.ship(1)))));
    assert!(board.is_ship_sunken(1));
    assert!(!board.is_ship_sunken(0));
    assert_eq!(board.target(pos(9, 2)), Ok(AttackInfo::Miss));
}

#[test]
fn all_sunk_only_after_every_cell_and_for_good() {
    let ships = fleet();
    let mut board = Board::from_ships(ships);
    let cells = all_cells(&ships);
    assert_eq!(cells.len(), 17);
    for (i, cell) in cells.iter().enumerate() {
        assert!(!board.is_all_sunken());
        let info = board.target(*cell).unwrap();
        assert!(matches!(info, AttackInfo::Hit(_)), "cell {i}");
    }
    assert!(board.is_all_sunken());
    assert_eq!(board.target(pos(9, 9)), Ok(AttackInfo::Miss));
    assert!(board.is_all_sunken());
    assert_eq!(board.target(pos(0, 1)), Err(AlreadyHitError));
    assert!(board.is_all_sunken());
}
