use abtestbed::map::{Cell, Position, CELL_SIZE, CELL_START_POS, NET_SIZE, SIZE};

#[test]
fn every_cell_converts_to_its_center_and_back() {
    for col in 0..=255u8 {
        for row in 0..=255u8 {
            let cell = Cell(col, row);
            assert_eq!(Cell::from_transform(&cell.center()), cell);
        }
    }
}

#[test]
fn centers_follow_the_cell_size_from_the_first_center() {
    assert_eq!(Cell(0, 0).center(), Position { x: -280, y: 178 });
    assert_eq!(Cell(2, 2).center(), Position { x: -200, y: 106 });
    assert_eq!(Cell(14, 10).center(), Position { x: 280, y: -182 });
    assert_eq!(Cell(255, 255).center(), Position { x: 9920, y: -9002 });
}

#[test]
fn the_first_center_lies_half_a_cell_inside_the_arena() {
    assert_eq!(CELL_START_POS.0, -(SIZE.0 / 2) + CELL_SIZE.0 / 2);
    assert_eq!(CELL_START_POS.1, SIZE.1 / 2 - CELL_SIZE.1 / 2);
    assert_eq!(NET_SIZE, (15, 11));
    assert_eq!(SIZE.0, NET_SIZE.0 as i32 * CELL_SIZE.0);
}

#[test]
fn a_point_falls_into_the_nearest_column() {
    let row = Cell(0, 0).center().y;
    assert_eq!(Cell::from_transform(&Position { x: -280, y: row }), Cell(0, 0));
    assert_eq!(Cell::from_transform(&Position { x: -261, y: row }), Cell(0, 0));
    assert_eq!(Cell::from_transform(&Position { x: -259, y: row }), Cell(1, 0));
    assert_eq!(Cell::from_transform(&Position { x: -240, y: row }), Cell(1, 0));
    assert_eq!(Cell::from_transform(&Position { x: 299, y: row }), Cell(14, 0));
}

#[test]
fn a_point_falls_into_the_nearest_row() {
    let col = Cell(0, 0).center().x;
    assert_eq!(Cell::from_transform(&Position { x: col, y: 178 }), Cell(0, 0));
    assert_eq!(Cell::from_transform(&Position { x: col, y: 161 }), Cell(0, 0));
    assert_eq!(Cell::from_transform(&Position { x: col, y: 159 }), Cell(0, 1));
    assert_eq!(Cell::from_transform(&Position { x: col, y: -182 }), Cell(0, 10));
}

#[test]
fn a_point_on_the_border_between_two_cells_falls_into_the_higher_one() {
    assert_eq!(Cell::from_transform(&Position { x: -260, y: 178 }), Cell(1, 0));
    assert_eq!(Cell::from_transform(&Position { x: -280, y: 160 }), Cell(0, 1));
    assert_eq!(Cell::from_transform(&Position { x: -260, y: 160 }), Cell(1, 1));
}

#[test]
fn points_outside_the_coordinates_fall_into_the_outermost_cells() {
    assert_eq!(Cell::from_transform(&Position { x: -1000, y: 1000 }), Cell(0, 0));
    assert_eq!(Cell::from_transform(&Position { x: -281, y: 179 }), Cell(0, 0));
    assert_eq!(Cell::from_transform(&Position { x: i32::MIN, y: i32::MAX }), Cell(0, 0));
    assert_eq!(Cell::from_transform(&Position { x: i32::MAX, y: i32::MIN }), Cell(255, 255));
    assert_eq!(Cell::from_transform(&Position { x: 9920, y: -9002 }), Cell(255, 255));
    assert_eq!(Cell::from_transform(&Position { x: 9940, y: -9020 }), Cell(255, 255));
    assert_eq!(Cell::from_transform(&Position { x: 9899, y: -8983 }), Cell(254, 254));
}

#[test]
fn no_other_cell_is_nearer_to_a_point_than_its_cell() {
    for x in -320..340 {
        let cell = Cell::from_transform(&Position { x, y: 0 });
        let own = (cell.center().x - x).abs();
        for col in 0..15u8 {
            assert!(own <= (Cell(col, 0).center().x - x).abs());
        }
    }
    for y in -220..220 {
        let cell = Cell::from_transform(&Position { x: 0, y });
        let own = (cell.center().y - y).abs();
        for row in 0..11u8 {
            assert!(own <= (Cell(0, row).center().y - y).abs());
        }
    }
}

#[test]
fn cells_are_equal_when_both_coordinates_are() {
    assert_eq!(Cell(3, 4), Cell(3, 4));
    assert_ne!(Cell(3, 4), Cell(4, 3));
    assert_ne!(Cell(3, 4), Cell(3, 5));
    assert_eq!(Cell::default(), Cell(0, 0));
}
