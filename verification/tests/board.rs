use rusty_battleship::values::{Board, CellState, Outcome, PlacementError, ShipType};

const KINDS: [ShipType; 5] = [
    ShipType::Carrier,
    ShipType::BattleShip,
    ShipType::Cruiser,
    ShipType::Sub,
    ShipType::Destroyer,
];

fn row_of(row: usize, len: usize) -> Vec<(usize, usize)> {
    (0..len).map(|col| (row, col)).collect()
}

fn full_board() -> Board {
    let mut board = Board::new(b"Alice".to_vec());
    for (row, kind) in KINDS.iter().enumerate() {
        assert_eq!(board.place(*kind, &row_of(row, kind.length())), Ok(()));
    }
    board
}

#[test]
fn lengths_of_the_kinds() {
    assert_eq!(ShipType::Carrier.length(), 5);
    assert_eq!(ShipType::BattleShip.length(), 4);
    assert_eq!(ShipType::Cruiser.length(), 3);
    assert_eq!(ShipType::Sub.length(), 3);
    assert_eq!(ShipType::Destroyer.length(), 2);
}

#[test]
fn places_of_the_kinds() {
    for (i, kind) in KINDS.iter().enumerate() {
        assert_eq!(kind.index(), i);
    }
}

#[test]
fn names_of_the_cell_states() {
    assert_eq!(CellState::Empty.to_string(), "Empty");
    assert_eq!(CellState::Ship(ShipType::Carrier).to_string(), "Ship");
    assert_eq!(CellState::Ship(ShipType::Destroyer).to_string(), "Ship");
    assert_eq!(CellState::Hit.to_string(), "Hit");
    assert_eq!(CellState::Miss.to_string(), "Miss");
}

#[test]
fn a_new_board_is_empty() {
    let board = Board::new(b"Alice".to_vec());
    assert_eq!(board.name(), &b"Alice".to_vec());
    assert_eq!(board.remaining(), 5);
    assert!(!board.is_defeated());
    for row in 0..10 {
        for col in 0..10 {
            assert_eq!(board.cell(row, col), CellState::Empty);
        }
    }
    for kind in KINDS {
        let ship = board.ship(kind);
        assert_eq!(ship.ship_type, kind);
        assert_eq!(ship.hits, 0);
        assert!(!ship.placed);
    }
}

#[test]
fn the_default_board_has_no_name() {
    assert_eq!(Board::default(), Board::new(Vec::new()));
}

#[test]
fn destroyer_hit_twice_is_sunk() {
    let mut board = Board::new(b"Bob".to_vec());
    assert_eq!(board.place(ShipType::Destroyer, &[(0, 0), (0, 1)]), Ok(()));
    assert_eq!(board.cell(0, 0), CellState::Ship(ShipType::Destroyer));
    assert_eq!(board.cell(0, 1), CellState::Ship(ShipType::Destroyer));
    let before = board.remaining();
    assert_eq!(board.resolve_shot(0, 0), Outcome::Hit(ShipType::Destroyer, false));
    assert_eq!(board.remaining(), before);
    assert_eq!(board.resolve_shot(0, 1), Outcome::Hit(ShipType::Destroyer, true));
    assert_eq!(board.remaining(), before - 1);
    assert_eq!(board.remaining(), 4);
    assert_eq!(board.cell(0, 0), CellState::Hit);
    assert_eq!(board.cell(0, 1), CellState::Hit);
    assert_eq!(board.ship(ShipType::Destroyer).hits, 2);
}

#[test]
fn a_shot_at_water_is_a_miss() {
    let mut board = full_board();
    assert_eq!(board.resolve_shot(9, 9), Outcome::Miss);
    assert_eq!(board.cell(9, 9), CellState::Miss);
    assert_eq!(board.remaining(), 5);
}

#[test]
fn a_second_shot_at_a_cell_is_already_taken() {
    let mut board = full_board();
    assert_eq!(board.resolve_shot(0, 0), Outcome::Hit(ShipType::Carrier, false));
    let mut twin = full_board();
    twin.resolve_shot(0, 0);
    for _ in 0..3 {
        assert_eq!(board.resolve_shot(0, 0), Outcome::AlreadyTaken);
        assert_eq!(board, twin);
    }
    assert_eq!(board.ship(ShipType::Carrier).hits, 1);

    assert_eq!(board.resolve_shot(7, 7), Outcome::Miss);
    twin.resolve_shot(7, 7);
    for _ in 0..3 {
        assert_eq!(board.resolve_shot(7, 7), Outcome::AlreadyTaken);
        assert_eq!(board, twin);
    }
}

#[test]
fn defeated_exactly_when_every_ship_is_sunk() {
    let mut board = full_board();
    let mut left = 5;
    for (row, kind) in KINDS.iter().enumerate() {
        for col in 0..kind.length() {
            assert!(!board.is_defeated());
            assert_eq!(board.remaining(), left);
            let sunk = col + 1 == kind.length();
            assert_eq!(board.resolve_shot(row, col), Outcome::Hit(*kind, sunk));
        }
        left -= 1;
        assert_eq!(board.remaining(), left);
    }
    assert!(board.is_defeated());
    assert_eq!(board.remaining(), 0);
    for kind in KINDS {
        assert_eq!(board.ship(kind).hits, kind.length());
    }
}

#[test]
fn a_board_without_ships_is_not_defeated() {
    let mut board = Board::new(Vec::new());
    for row in 0..10 {
        for col in 0..10 {
            assert_eq!(board.resolve_shot(row, col), Outcome::Miss);
        }
    }
    assert!(!board.is_defeated());
    assert_eq!(board.remaining(), 5);
}

#[test]
fn place_needs_the_length_of_the_kind() {
    let mut board = Board::new(Vec::new());
    assert_eq!(board.place(ShipType::Destroyer, &[(0, 0)]), Err(PlacementError::WrongLength));
    assert_eq!(
        board.place(ShipType::Destroyer, &[(0, 0), (0, 1), (0, 2)]),
        Err(PlacementError::WrongLength)
    );
    assert_eq!(board.place(ShipType::Carrier, &[]), Err(PlacementError::WrongLength));
    assert_eq!(board, Board::new(Vec::new()));
}

#[test]
fn place_needs_cells_on_the_grid() {
    let mut board = Board::new(Vec::new());
    assert_eq!(
        board.place(ShipType::Destroyer, &[(0, 9), (0, 10)]),
        Err(PlacementError::OutOfBounds)
    );
    assert_eq!(
        board.place(ShipType::Destroyer, &[(10, 0), (9, 0)]),
        Err(PlacementError::OutOfBounds)
    );
    assert_eq!(
        board.place(ShipType::Destroyer, &[(0, 0), (usize::MAX, usize::MAX)]),
        Err(PlacementError::OutOfBounds)
    );
    assert_eq!(board, Board::new(Vec::new()));
}

#[test]
fn place_needs_empty_cells() {
    let mut board = Board::new(Vec::new());
    assert_eq!(board.place(ShipType::Cruiser, &[(2, 2), (2, 3), (2, 4)]), Ok(()));
    let mut twin = Board::new(Vec::new());
    assert_eq!(twin.place(ShipType::Cruiser, &[(2, 2), (2, 3), (2, 4)]), Ok(()));
    assert_eq!(board.place(ShipType::Destroyer, &[(1, 4), (2, 4)]), Err(PlacementError::Overlap));
    assert_eq!(board, twin);
    assert_eq!(board.cell(1, 4), CellState::Empty);
}

#[test]
fn place_refuses_a_cell_named_twice() {
    let mut board = Board::new(Vec::new());
    assert_eq!(board.place(ShipType::Destroyer, &[(0, 0), (0, 0)]), Err(PlacementError::Overlap));
    assert_eq!(board, Board::new(Vec::new()));
}

#[test]
fn place_refuses_cells_that_were_shot_at() {
    let mut board = Board::new(Vec::new());
    assert_eq!(board.resolve_shot(0, 0), Outcome::Miss);
    assert_eq!(board.place(ShipType::Destroyer, &[(0, 0), (0, 1)]), Err(PlacementError::Overlap));
    assert_eq!(board.cell(0, 0), CellState::Miss);
    assert_eq!(board.cell(0, 1), CellState::Empty);
}

#[test]
fn place_refuses_a_second_ship_of_a_kind() {
    let mut board = Board::new(Vec::new());
    assert_eq!(board.place(ShipType::Destroyer, &[(0, 0), (0, 1)]), Ok(()));
    let mut twin = Board::new(Vec::new());
    assert_eq!(twin.place(ShipType::Destroyer, &[(0, 0), (0, 1)]), Ok(()));
    assert_eq!(
        board.place(ShipType::Destroyer, &[(5, 5), (5, 6)]),
        Err(PlacementError::AlreadyPlaced)
    );
    assert_eq!(board, twin);
}

#[test]
fn the_order_of_the_placement_errors() {
    let mut board = Board::new(Vec::new());
    assert_eq!(board.place(ShipType::Destroyer, &[(0, 0), (0, 1)]), Ok(()));
    assert_eq!(board.place(ShipType::Destroyer, &[(0, 0)]), Err(PlacementError::WrongLength));
    assert_eq!(board.place(ShipType::Destroyer, &[(0, 0), (0, 10)]), Err(PlacementError::OutOfBounds));
    assert_eq!(board.place(ShipType::Destroyer, &[(0, 0), (1, 0)]), Err(PlacementError::Overlap));
    assert_eq!(board.place(ShipType::Cruiser, &[(0, 10), (1, 0)]), Err(PlacementError::WrongLength));
}

#[test]
fn place_takes_cells_in_any_shape() {
    let mut board = Board::new(Vec::new());
    assert_eq!(board.place(ShipType::Cruiser, &[(9, 9), (0, 0), (4, 5)]), Ok(()));
    assert_eq!(board.cell(9, 9), CellState::Ship(ShipType::Cruiser));
    assert_eq!(board.cell(0, 0), CellState::Ship(ShipType::Cruiser));
    assert_eq!(board.cell(4, 5), CellState::Ship(ShipType::Cruiser));
    assert_eq!(board.cell(4, 4), CellState::Empty);
    assert!(board.ship(ShipType::Cruiser).placed);
    assert_eq!(board.ship(ShipType::Cruiser).hits, 0);
    assert_eq!(board.remaining(), 5);
}
