use ziel::position::{self, Position};
use ziel::ship::{self, Ship, ShipCollectionError, ShipPlan, Ships};

fn pos(x: u8, y: u8) -> Position {
    Position::try_from_coords((x, y)).unwrap()
}

fn sorted_cells(ship: &Ship) -> Vec<Position> {
    let mut positions: Vec<Position> = ship.positions();
    positions.sort_by_key(|p| p.to_byte());
    positions
}

#[test]
fn position_translations() {
    let coords = (1, 2);
    let position = position::Position::try_from_coords(coords).unwrap();
    assert_eq!(position.to_coords(), coords);

    let byte = position.to_byte();
    let position = position::Position::try_from_byte(byte).unwrap();
    assert_eq!(position.to_byte(), byte);
}

#[test]
fn invalid_positions() {
    let coords = (10, 2);
    let position = position::Position::try_from_coords(coords);
    assert_eq!(position, Err(position::OutOfBoundsError));

    let byte = 255;
    let position = position::Position::try_from_byte(byte);
    assert_eq!(position, Err(position::OutOfBoundsError));
}

#[test]
fn ship_area_iterator() {
    let ship_plan = ship::ShipPlan::Horizontal {
        pos: position::Position::try_from_coords((3, 2)).unwrap(),
        length: 4,
    };
    let ship = ship::Ship::try_from(ship_plan).unwrap();

    let positions = sorted_cells(&ship);
    let mut expected = vec![
        position::Position::try_from_coords((3, 2)).unwrap(),
        position::Position::try_from_coords((4, 2)).unwrap(),
        position::Position::try_from_coords((5, 2)).unwrap(),
        position::Position::try_from_coords((6, 2)).unwrap(),
    ];
    expected.sort_by_key(|p| p.to_byte());
    assert_eq!(positions, expected);

    let ship_plan = ship::ShipPlan::Vertical {
        pos: position::Position::try_from_coords((3, 2)).unwrap(),
        length: 4,
    };
    let ship = ship::Ship::try_from(ship_plan).unwrap();

    let positions = sorted_cells(&ship);
    let mut expected = vec![
        position::Position::try_from_coords((3, 2)).unwrap(),
        position::Position::try_from_coords((3, 3)).unwrap(),
        position::Position::try_from_coords((3, 4)).unwrap(),
        position::Position::try_from_coords((3, 5)).unwrap(),
    ];
    expected.sort_by_key(|p| p.to_byte());
    assert_eq!(positions, expected);
}

#[test]
fn ship5_to_ships() {
    let ships = [
        ship::Ship::try_from(ship::ShipPlan::Horizontal {
            pos: position::Position::try_from_coords((0, 1)).unwrap(),
            length: 5,
        })
        .unwrap(),
        ship::Ship::try_from(ship::ShipPlan::Horizontal {
            pos: position::Position::try_from_coords((7, 2)).unwrap(),
            length: 2,
        })
        .unwrap(),
        ship::Ship::try_from(ship::ShipPlan::Horizontal {
            pos: position::Position::try_from_coords((1, 6)).unwrap(),
            length: 3,
        })
        .unwrap(),
        ship::Ship::try_from(ship::ShipPlan::Vertical {
            pos: position::Position::try_from_coords((5, 4)).unwrap(),
            length: 4,
        })
        .unwrap(),
        ship::Ship::try_from(ship::ShipPlan::Vertical {
            pos: position::Position::try_from_coords((7, 7)).unwrap(),
            length: 3,
        })
        .unwrap(),
    ];
    let _ships = ship::Ships::try_from(ships).unwrap();
}

#[test]
fn ship5_to_ships_fail() {
    let ships = [
        ship::Ship::try_from(ship::ShipPlan::Horizontal {
            pos: position::Position::try_from_coords((0, 1)).unwrap(),
            length: 3,
        })
        .unwrap(),
        ship::Ship::try_from(ship::ShipPlan::Horizontal {
            pos: position::Position::try_from_coords((7, 2)).unwrap(),
            length: 2,
        })
        .unwrap(),
        ship::Ship::try_from(ship::ShipPlan::Horizontal {
            pos: position::Position::try_from_coords((1, 6)).unwrap(),
            length: 3,
        })
        .unwrap(),
        ship::Ship::try_from(ship::ShipPlan::Vertical {
            pos: position::Position::try_from_coords((5, 4)).unwrap(),
            length: 4,
        })
        .unwrap(),
        ship::Ship::try_from(ship::ShipPlan::Vertical {
            pos: position::Position::try_from_coords((7, 7)).unwrap(),
            length: 3,
        })
        .unwrap(),
    ];
    assert_eq!(
        Err(ship::ShipCollectionError::InvalidShipLengths),
        ship::Ships::try_from(ships)
    );

    let ships = [
        ship::Ship::try_from(ship::ShipPlan::Horizontal {
            pos: position::Position::try_from_coords((0, 1)).unwrap(),
            length: 5,
        })
        .unwrap(),
        ship::Ship::try_from(ship::ShipPlan::Horizontal {
            pos: position::Position::try_from_coords((7, 2)).unwrap(),
            length: 2,
        })
        .unwrap(),
        ship::Ship::try_from(ship::ShipPlan::Horizontal {
            pos: position::Position::try_from_coords((4, 6)).unwrap(),
            length: 3,
        })
        .unwrap(),
        ship::Ship::try_from(ship::ShipPlan::Vertical {
            pos: position::Position::try_from_coords((5, 4)).unwrap(),
            length: 4,
        })
        .unwrap(),
        ship::Ship::try_from(ship::ShipPlan::Vertical {
            pos: position::Position::try_from_coords((7, 7)).unwrap(),
            length: 3,
        })
        .unwrap(),
    ];
    assert_eq!(
        Err(ship::ShipCollectionError::Overlap),
        ship::Ships::try_from(ships)
    );
}

#[test]
fn every_cell_round_trips() {
    for x in 0..10u8 {
        for y in 0..10u8 {
            let p = pos(x, y);
            assert_eq!(p.to_coords(), (x, y));
            assert_eq!(p.to_byte(), x * 16 + y);
            assert_eq!(Position::try_from_byte(p.to_byte()), Ok(p));
            assert_eq!(p.grid_index(), y as usize * 10 + x as usize);
        }
    }
}

#[test]
fn coordinates_off_the_grid_are_refused() {
    for (x, y) in [(10, 0), (0, 10), (10, 10), (255, 3), (3, 255)] {
        assert_eq!(Position::try_from_coords((x, y)), Err(position::OutOfBoundsError));
    }
    assert_eq!(Position::try_from_byte(0xa0), Err(position::OutOfBoundsError));
    assert_eq!(Position::try_from_byte(0x0a), Err(position::OutOfBoundsError));
    assert_eq!(Position::try_from_byte(0x99), Ok(pos(9, 9)));
}

#[test]
fn ships_off_the_grid_are_refused() {
    let plan = ShipPlan::Horizontal { pos: pos(7, 0), length: 4 };
    assert_eq!(Ship::try_from(plan), Err(ship::OutOfBoundsError));
    let plan = ShipPlan::Vertical { pos: pos(0, 7), length: 4 };
    assert_eq!(Ship::try_from(plan), Err(ship::OutOfBoundsError));
    let plan = ShipPlan::Vertical { pos: pos(0, 6), length: 250 };
    assert_eq!(Ship::try_from_plan(plan), Err(ship::OutOfBoundsError));
    let plan = ShipPlan::Horizontal { pos: pos(6, 9), length: 4 };
    let ship = Ship::try_from(plan).unwrap();
    assert_eq!(ship.to_ship_plan(), plan);
    assert_eq!(ship.length(), 4);
}

#[test]
fn ship_cells_come_from_the_far_end() {
    let ship = Ship::try_from(ShipPlan::Horizontal { pos: pos(3, 2), length: 3 }).unwrap();
    assert_eq!(ship.positions(), vec![pos(5, 2), pos(4, 2), pos(3, 2)]);
    let mut it = ship.into_iter();
    assert_eq!(it.remaining(), 3);
    assert_eq!(it.next(), Some(pos(5, 2)));
    assert_eq!(it.remaining(), 2);
    assert_eq!(it.next(), Some(pos(4, 2)));
    assert_eq!(it.next(), Some(pos(3, 2)));
    assert_eq!(it.next(), None);
    assert_eq!(it.next(), None);
}

fn fleet(plans: [ShipPlan; 5]) -> [Ship; 5] {
    plans.map(|p| Ship::try_from(p).unwrap())
}

#[test]
fn fleet_rules_are_checked_in_ship_order() {
    // The second ship overlaps the first before the fifth breaks the lengths.
    let ships = fleet([
        ShipPlan::Horizontal { pos: pos(0, 0), length: 5 },
        ShipPlan::Vertical { pos: pos(2, 0), length: 3 },
        ShipPlan::Horizontal { pos: pos(0, 5), length: 3 },
        ShipPlan::Horizontal { pos: pos(0, 7), length: 4 },
        ShipPlan::Horizontal { pos: pos(0, 9), length: 5 },
    ]);
    assert_eq!(Ships::try_from(ships), Err(ShipCollectionError::Overlap));

    // A third ship of length 3 is refused before its overlap is looked at.
    let ships = fleet([
        ShipPlan::Horizontal { pos: pos(0, 0), length: 3 },
        ShipPlan::Horizontal { pos: pos(0, 2), length: 3 },
        ShipPlan::Horizontal { pos: pos(0, 0), length: 3 },
        ShipPlan::Horizontal { pos: pos(0, 7), length: 4 },
        ShipPlan::Horizontal { pos: pos(0, 9), length: 2 },
    ]);
    assert_eq!(Ships::try_from(ships), Err(ShipCollectionError::InvalidShipLengths));

    // A length that no ship of the fleet has.
    let ships = fleet([
        ShipPlan::Horizontal { pos: pos(0, 0), length: 1 },
        ShipPlan::Horizontal { pos: pos(0, 2), length: 3 },
        ShipPlan::Horizontal { pos: pos(0, 4), length: 3 },
        ShipPlan::Horizontal { pos: pos(0, 7), length: 4 },
        ShipPlan::Horizontal { pos: pos(0, 9), length: 2 },
    ]);
    assert_eq!(Ships::try_from(ships), Err(ShipCollectionError::InvalidShipLengths));

    let ships = fleet([
        ShipPlan::Horizontal { pos: pos(0, 0), length: 5 },
        ShipPlan::Horizontal { pos: pos(0, 2), length: 3 },
        ShipPlan::Horizontal { pos: pos(0, 4), length: 3 },
        ShipPlan::Horizontal { pos: pos(0, 7), length: 4 },
        ShipPlan::Horizontal { pos: pos(0, 9), length: 2 },
    ]);
    let fleet = Ships::try_from_ships(ships).unwrap();
    assert_eq!(fleet.into_ship_array(), ships);
    assert_eq!(fleet.ship(3), ships[3]);
}
