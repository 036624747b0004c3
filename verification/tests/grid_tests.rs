use card_sheets::grid::{map_slot, slot_pair, Grid, GridError};

#[test]
fn grid_a4_standard_card() {
    // 210x297 mm sheet at 12 px/mm, 63x88 mm card, 3 mm minimum margin
    let g = Grid::compute(63, 88).unwrap();
    assert_eq!(g.columns, 3); // 2520 / 756
    assert_eq!(g.rows, 2); // 2520 / 1056
    assert_eq!(g.cards_per_page, 6);
    assert_eq!(g.card_width, 756 - 72);
    assert_eq!(g.card_height, 1056 - 72);
    assert_eq!(g.pitch_x, 840);
    assert_eq!(g.pitch_y, 1782);
    assert_eq!(g.margin_x, 78);
    assert_eq!(g.margin_y, 399);
}

#[test]
fn grid_rejects_card_wider_than_sheet() {
    assert_eq!(Grid::compute(300, 50), Err(GridError::ZeroColumns));
}

#[test]
fn grid_rejects_card_on_row_capacity() {
    // 250 mm is 3000 px: less than the sheet height, yet the row count
    // divides the sheet's width, so no row fits.
    assert_eq!(Grid::compute(63, 250), Err(GridError::ZeroRows));
}

#[test]
fn grid_width_error_takes_precedence() {
    assert_eq!(Grid::compute(300, 300), Err(GridError::ZeroColumns));
}

#[test]
fn grid_survives_extreme_requests() {
    assert_eq!(Grid::compute(u32::MAX, 88), Err(GridError::ZeroColumns));
    assert_eq!(Grid::compute(63, u32::MAX), Err(GridError::ZeroRows));
}

#[test]
fn grid_clamps_tiny_card_to_margin() {
    let g = Grid::compute(1, 1).unwrap();
    assert_eq!(g.card_width, 0);
    assert_eq!(g.card_height, 0);
    assert_eq!(g.columns, 35); // 2520 / 72
    assert_eq!(g.rows, 35);
    assert_eq!(g.cards_per_page, 1225);
}

#[test]
fn grid_fits_exactly_one_cell() {
    // 210 mm is 2520 px: exactly the sheet width, margins inside it
    let g = Grid::compute(210, 210).unwrap();
    assert_eq!(g.columns, 1);
    assert_eq!(g.rows, 1);
    assert_eq!(g.cards_per_page, 1);
    assert_eq!(g.card_width, 2520 - 72);
    assert_eq!(Grid::compute(211, 210), Err(GridError::ZeroColumns));
}

#[test]
fn map_slot_walks_the_grid() {
    let g = Grid::compute(63, 88).unwrap();
    let p0 = map_slot(&g, 0);
    assert_eq!((p0.page, p0.x, p0.y), (0, 78, 399));
    let p1 = map_slot(&g, 1);
    assert_eq!((p1.page, p1.x, p1.y), (0, 918, 399));
    let p2 = map_slot(&g, 2);
    assert_eq!((p2.page, p2.x, p2.y), (0, 1758, 399));
    let p3 = map_slot(&g, 3);
    assert_eq!((p3.page, p3.x, p3.y), (0, 78, 2181));
    let p6 = map_slot(&g, 6);
    assert_eq!((p6.page, p6.x, p6.y), (1, 78, 399));
}

#[test]
fn next_page_keeps_position() {
    let g = Grid::compute(63, 88).unwrap();
    for i in 0..12u32 {
        let a = map_slot(&g, i);
        let b = map_slot(&g, i + g.cards_per_page);
        assert_eq!(b.page, a.page + 1);
        assert_eq!(b.x, a.x);
        assert_eq!(b.y, a.y);
    }
}

#[test]
fn no_two_slots_of_a_page_overlap() {
    let g = Grid::compute(63, 88).unwrap();
    for i in 0..6u32 {
        for j in 0..6u32 {
            if i != j {
                let a = map_slot(&g, i);
                let b = map_slot(&g, j);
                let apart_x =
                    a.x + g.card_width <= b.x || b.x + g.card_width <= a.x;
                let apart_y =
                    a.y + g.card_height <= b.y || b.y + g.card_height <= a.y;
                assert!(apart_x || apart_y);
            }
        }
    }
}

#[test]
fn slot_pair_is_consecutive() {
    assert_eq!(slot_pair(0), (0, 1));
    assert_eq!(slot_pair(1), (2, 3));
    assert_eq!(slot_pair(5), (10, 11));
}
