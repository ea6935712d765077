use chess::geometry::{
    cell_to_piece_region, cell_to_region, pixel_to_cell, GridPos, OutOfBounds, Region, BOARD_SIZE,
};

#[test]
fn pixel_to_cell_inside_board() {
    assert_eq!(pixel_to_cell(0, 0), Ok(GridPos { row: 0, col: 0 }));
    assert_eq!(pixel_to_cell(799, 799), Ok(GridPos { row: 7, col: 7 }));
    assert_eq!(pixel_to_cell(350, 650), Ok(GridPos { row: 6, col: 3 }));
    assert_eq!(pixel_to_cell(99, 100), Ok(GridPos { row: 1, col: 0 }));
}

#[test]
fn pixel_to_cell_outside_board() {
    assert_eq!(pixel_to_cell(800, 0), Err(OutOfBounds));
    assert_eq!(pixel_to_cell(0, 800), Err(OutOfBounds));
    assert_eq!(pixel_to_cell(-1, 5), Err(OutOfBounds));
    assert_eq!(pixel_to_cell(5, -99), Err(OutOfBounds));
    assert_eq!(pixel_to_cell(i32::MAX, i32::MIN), Err(OutOfBounds));
}

#[test]
fn pixel_to_cell_succeeds_exactly_on_board() {
    let mut x: i32 = -150;
    while x < 950 {
        let mut y: i32 = -150;
        while y < 950 {
            let on_board = (0..800).contains(&x) && (0..800).contains(&y);
            assert_eq!(pixel_to_cell(x, y).is_ok(), on_board, "pixel ({}, {})", x, y);
            y += 37;
        }
        x += 41;
    }
}

#[test]
fn regions_of_a_tile() {
    let p = GridPos { row: 6, col: 3 };
    assert_eq!(cell_to_region(p), Region { x: 300, y: 600, width: 100, height: 100 });
    assert_eq!(cell_to_piece_region(p), Region { x: 305, y: 605, width: 90, height: 90 });
}

#[test]
fn region_round_trip_is_idempotent() {
    for row in 0..BOARD_SIZE {
        for col in 0..BOARD_SIZE {
            let p = GridPos { row, col };
            let r = cell_to_region(p);
            let back = pixel_to_cell(r.x, r.y).unwrap();
            assert_eq!(back, p);
            assert_eq!(cell_to_region(back), r);
        }
    }
}
