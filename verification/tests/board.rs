use tetrust::Board;

fn fill_row(b: &mut Board, y: usize) {
    for x in 0..10 {
        b.set_occupied(x, y, true);
    }
}

fn row_cells(b: &Board, y: usize) -> Vec<bool> {
    (0..10).map(|x| b.is_occupied(x, y)).collect()
}

fn occupied_count(b: &Board) -> usize {
    let mut n = 0;
    for x in 0..10 {
        for y in 0..20 {
            if b.is_occupied(x, y) {
                n += 1;
            }
        }
    }
    n
}

#[test]
fn new_board_is_empty() {
    let b = Board::new();
    assert_eq!(occupied_count(&b), 0);
    assert!(b.find_full_rows().is_empty());
    assert!(!b.top_rows_occupied(4));
}

#[test]
fn set_and_read_cell() {
    let mut b = Board::new();
    b.set_occupied(3, 17, true);
    assert!(b.is_occupied(3, 17));
    assert!(!b.is_occupied(4, 17));
    assert!(!b.is_occupied(3, 16));
    b.set_occupied(3, 17, false);
    assert!(!b.is_occupied(3, 17));
}

#[test]
fn find_full_rows_ascending() {
    let mut b = Board::new();
    fill_row(&mut b, 19);
    fill_row(&mut b, 7);
    fill_row(&mut b, 12);
    // one almost-full row must not be reported
    for x in 0..9 {
        b.set_occupied(x, 3, true);
    }
    assert_eq!(b.find_full_rows(), vec![7, 12, 19]);
}

#[test]
fn clear_and_compact_single_row() {
    let mut b = Board::new();
    fill_row(&mut b, 19);
    // a recognizable pattern above the full row
    b.set_occupied(0, 18, true);
    b.set_occupied(9, 18, true);
    b.set_occupied(4, 17, true);
    let full = b.find_full_rows();
    assert_eq!(full, vec![19]);
    b.clear_and_compact(&full);
    // everything above dropped one row; no full row is left
    assert_eq!(
        row_cells(&b, 19),
        vec![true, false, false, false, false, false, false, false, false, true]
    );
    assert!(b.is_occupied(4, 18));
    assert!(!b.is_occupied(4, 17));
    assert!(b.find_full_rows().is_empty());
    assert_eq!(occupied_count(&b), 3);
}

#[test]
fn clear_and_compact_separated_rows_single_pass() {
    let mut b = Board::new();
    // full rows 17 and 19, a partial row 18 between them, a marker at 16
    fill_row(&mut b, 17);
    fill_row(&mut b, 19);
    b.set_occupied(2, 18, true);
    b.set_occupied(5, 16, true);
    let full = b.find_full_rows();
    assert_eq!(full, vec![17, 19]);
    b.clear_and_compact(&full);
    // the single bottom-up pass shifts each surviving row down by one:
    // row 18 lands in 19, row 16 lands in 17, and a gap stays at 18
    assert!(b.is_occupied(2, 19));
    assert_eq!(row_cells(&b, 18), vec![false; 10]);
    assert!(b.is_occupied(5, 17));
    assert_eq!(occupied_count(&b), 2);
    assert!(b.find_full_rows().is_empty());
}

#[test]
fn compaction_preserves_row_order() {
    let mut b = Board::new();
    fill_row(&mut b, 19);
    b.set_occupied(1, 15, true);
    b.set_occupied(2, 16, true);
    b.set_occupied(3, 18, true);
    b.clear_and_compact(&b.find_full_rows());
    // the three marker rows keep their relative vertical order
    assert!(b.is_occupied(1, 16));
    assert!(b.is_occupied(2, 17));
    assert!(b.is_occupied(3, 19));
    assert_eq!(occupied_count(&b), 3);
}

#[test]
fn dropped_long_piece_completes_and_clears_bottom_row() {
    // drive the four-wide bar from spawn to the bottom-left corner, lock it,
    // pre-fill the other six columns of row 19, and clear
    let mut b = Board::new();
    let mut p = tetrust::PlayerPiece::new(2);
    for _ in 0..3 {
        p = p.go_left(&b).expect("legal left step");
    }
    loop {
        match p.go_down(&b) {
            Some(q) => p = q,
            None => break,
        }
    }
    for t in p.get_tiles() {
        b.set_occupied(t.x as usize, t.y as usize, true);
    }
    for x in 0..4 {
        assert!(b.is_occupied(x, 19));
    }
    for x in 4..10 {
        b.set_occupied(x, 19, true);
    }
    let full = b.find_full_rows();
    assert_eq!(full, vec![19]);
    b.clear_and_compact(&full);
    assert_eq!(occupied_count(&b), 0);
}

#[test]
fn top_rows_occupied_boundary() {
    let mut b = Board::new();
    b.set_occupied(5, 4, true);
    assert!(!b.top_rows_occupied(4));
    b.set_occupied(5, 3, true);
    assert!(b.top_rows_occupied(4));
}
