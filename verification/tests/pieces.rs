use tetrust::{Board, PieceBag, PlayerPiece};

fn tile_list(p: &PlayerPiece) -> Vec<(i32, i32)> {
    p.get_tiles().iter().map(|t| (t.x, t.y)).collect()
}

fn sorted_tiles(p: &PlayerPiece) -> Vec<(i32, i32)> {
    let mut v = tile_list(p);
    v.sort();
    v
}

#[test]
fn long_piece_spawns_four_wide_in_row_one() {
    let p = PlayerPiece::new(2);
    assert_eq!(tile_list(&p), vec![(3, 1), (4, 1), (5, 1), (6, 1)]);
    assert!(!p.is_stationary());
}

#[test]
fn square_piece_tiles() {
    let p = PlayerPiece::new(0);
    assert_eq!(sorted_tiles(&p), vec![(4, 1), (4, 2), (5, 1), (5, 2)]);
}

#[test]
fn left_then_right_returns_to_origin() {
    let b = Board::new();
    let p = PlayerPiece::new(1);
    let left = p.go_left(&b).expect("interior move left must be legal");
    let back = left.go_right(&b).expect("stepping back must be legal");
    assert_eq!(tile_list(&back), tile_list(&p));
}

#[test]
fn right_then_left_returns_to_origin() {
    let b = Board::new();
    let p = PlayerPiece::new(1);
    let right = p.go_right(&b).expect("interior move right must be legal");
    let back = right.go_left(&b).expect("stepping back must be legal");
    assert_eq!(tile_list(&back), tile_list(&p));
}

#[test]
fn moves_stop_at_walls() {
    let b = Board::new();
    // the T piece occupies columns 3..=5 at spawn; three legal left steps
    let mut p = PlayerPiece::new(1);
    for _ in 0..3 {
        p = p.go_left(&b).expect("legal left step");
    }
    assert!(p.go_left(&b).is_none());
}

#[test]
fn go_down_blocked_by_occupied_cell() {
    let mut b = Board::new();
    for x in 0..10 {
        b.set_occupied(x, 2, true);
    }
    let p = PlayerPiece::new(1);
    // T spawn tiles sit in rows 0 and 1; a step down hits the wall at row 2
    assert!(p.go_down(&b).is_none());
}

#[test]
fn rotation_quarter_turn_of_long_piece() {
    let b = Board::new();
    let p = PlayerPiece::new(2);
    let r = p.rotate(&b).expect("rotation in open space is legal");
    // (x, y) -> (3 - y, x) turns the horizontal bar into a vertical one
    assert_eq!(sorted_tiles(&r), vec![(5, 0), (5, 1), (5, 2), (5, 3)]);
}

#[test]
fn four_rotations_return_to_original() {
    let b = Board::new();
    // keep clearance on all sides so every intermediate rotation is legal
    let mut p = PlayerPiece::new(1).go_down(&b).expect("legal");
    p = p.go_down(&b).expect("legal");
    let start = tile_list(&p);
    for _ in 0..4 {
        p = p.rotate(&b).expect("rotation with clearance is legal");
    }
    assert_eq!(tile_list(&p), start);
}

#[test]
fn wall_kick_at_right_edge() {
    let b = Board::new();
    // a vertical long piece pushed against the right wall
    let mut p = PlayerPiece::new(2).rotate(&b).expect("legal rotation");
    loop {
        match p.go_right(&b) {
            Some(q) => p = q,
            None => break,
        }
    }
    assert_eq!(sorted_tiles(&p), vec![(9, 0), (9, 1), (9, 2), (9, 3)]);
    // rotating in place would stick out at column 10; the kick shifts left
    let kicked = p.rotate(&b).expect("the wall kick must save this rotation");
    let tiles = sorted_tiles(&kicked);
    assert_eq!(tiles.len(), 4);
    assert!(tiles.iter().all(|&(x, y)| x < 10 && y < 20));
    assert_eq!(tiles[0].1, tiles[3].1, "the bar is horizontal again");
}

#[test]
fn blocked_rotation_returns_none() {
    let mut b = Board::new();
    // wall off row 2 so the upright T cannot turn in place, and no wall
    // kick applies away from the edges
    for x in 0..10 {
        b.set_occupied(x, 2, true);
    }
    let p = PlayerPiece::new(1);
    assert!(p.rotate(&b).is_none());
}

#[test]
fn lowest_position_rests_on_floor() {
    let b = Board::new();
    let p = PlayerPiece::new(2);
    let rest = p.lowest_possible_position(&b);
    assert_eq!(tile_list(&rest), vec![(3, 19), (4, 19), (5, 19), (6, 19)]);
    // the probe never moves the piece itself
    assert_eq!(tile_list(&p), vec![(3, 1), (4, 1), (5, 1), (6, 1)]);
    // and the resting position cannot move further down
    assert!(rest.go_down(&b).is_none());
}

#[test]
fn stationary_flag_round_trip() {
    let p = PlayerPiece::new(3);
    assert!(!p.is_stationary());
    let grounded = p.set_stationary(true);
    assert!(grounded.is_stationary());
    assert!(!p.is_stationary());
    assert_eq!(tile_list(&grounded), tile_list(&p));
}

#[test]
fn drop_long_piece_to_bottom_left() {
    // the end-to-end piece scenario: drive the bar to the wall, then down
    let b = Board::new();
    let mut p = PlayerPiece::new(2);
    for _ in 0..3 {
        p = p.go_left(&b).expect("legal left step");
    }
    loop {
        match p.go_down(&b) {
            Some(q) => p = q,
            None => break,
        }
    }
    assert_eq!(tile_list(&p), vec![(0, 19), (1, 19), (2, 19), (3, 19)]);
}

#[test]
fn fresh_bag_deals_each_shape_once_in_seven() {
    let mut bag = PieceBag::new();
    let mut seen: Vec<Vec<(i32, i32)>> = Vec::new();
    for _ in 0..7 {
        let p = bag.next();
        let sig = sorted_tiles(&p);
        assert!(!seen.contains(&sig), "a shape repeated within one batch");
        seen.push(sig);
    }
    assert_eq!(seen.len(), 7);
}

#[test]
fn fourteen_draws_deal_each_shape_exactly_twice() {
    let mut bag = PieceBag::new();
    let mut sigs: Vec<Vec<(i32, i32)>> = Vec::new();
    for _ in 0..14 {
        sigs.push(sorted_tiles(&bag.next()));
    }
    for sig in sigs.iter() {
        let n = sigs.iter().filter(|s| *s == sig).count();
        assert_eq!(n, 2);
    }
}

#[test]
fn peek_matches_next() {
    let mut bag = PieceBag::new();
    for _ in 0..10 {
        let expected = sorted_tiles(bag.peek());
        let dealt = bag.next();
        assert_eq!(sorted_tiles(&dealt), expected);
    }
}

#[test]
fn swap_deals_peeked_piece_and_requeues_held() {
    let mut bag = PieceBag::new();
    let held = bag.next();
    let held_sig = sorted_tiles(&held);
    let expected = sorted_tiles(bag.peek());
    let dealt = bag.swap(held);
    assert_eq!(sorted_tiles(&dealt), expected);
    // the held piece comes back on the very next draw
    assert_eq!(sorted_tiles(&bag.next()), held_sig);
}
