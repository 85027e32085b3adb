use tetrust::{AppState, GameState, Input, Mode, Sound, SoundQueue};

fn occupied_count(g: &GameState) -> usize {
    let mut n = 0;
    for x in 0..10 {
        for y in 0..20 {
            if g.board().is_occupied(x, y) {
                n += 1;
            }
        }
    }
    n
}

fn paint_row(g: &mut GameState, y: usize) {
    for x in 0..10 {
        assert!(g.handle(Input::PaintCell { x, y }));
    }
}

fn drain(q: &mut SoundQueue) -> Vec<Sound> {
    let mut v = Vec::new();
    while let Some(s) = q.pop() {
        v.push(s);
    }
    v
}

#[test]
fn first_tick_spawns_a_piece() {
    let mut g = GameState::new();
    let mut q = SoundQueue::new();
    assert!(g.active().is_none());
    // the tick counter starts at 0, so the very first update acts
    assert_eq!(g.update(&mut q), Some(0));
    assert!(g.active().is_some());
    assert_eq!(occupied_count(&g), 0);
    assert!(drain(&mut q).is_empty());
}

#[test]
fn ineligible_ticks_change_nothing() {
    let mut g = GameState::new();
    let mut q = SoundQueue::new();
    g.update(&mut q);
    // ticks 1..=29 are below the spawn cadence of 30
    for _ in 0..29 {
        assert_eq!(g.update(&mut q), Some(0));
        assert_eq!(occupied_count(&g), 0);
    }
    assert!(drain(&mut q).is_empty());
}

#[test]
fn single_row_clear_scores_one_point() {
    let mut g = GameState::new();
    let mut q = SoundQueue::new();
    paint_row(&mut g, 19);
    // the first eligible tick spawns a piece, then clears the painted row
    assert_eq!(g.update(&mut q), Some(1));
    for x in 0..10 {
        assert!(!g.board().is_occupied(x, 19));
    }
    assert_eq!(drain(&mut q), vec![Sound::Clear]);
}

#[test]
fn four_row_clear_scores_ten_points() {
    let mut g = GameState::new();
    let mut q = SoundQueue::new();
    for y in 16..20 {
        paint_row(&mut g, y);
    }
    // 1 + 2 + 3 + 4 points for four simultaneous rows
    assert_eq!(g.update(&mut q), Some(10));
    assert_eq!(occupied_count(&g), 0);
    assert_eq!(
        drain(&mut q),
        vec![Sound::Clear, Sound::Clear, Sound::Clear, Sound::Clear]
    );
}

#[test]
fn two_row_clear_scores_three_points() {
    let mut g = GameState::new();
    let mut q = SoundQueue::new();
    paint_row(&mut g, 12);
    paint_row(&mut g, 19);
    assert_eq!(g.update(&mut q), Some(3));
    assert_eq!(occupied_count(&g), 0);
}

#[test]
fn partial_rows_survive_a_clear() {
    let mut g = GameState::new();
    let mut q = SoundQueue::new();
    paint_row(&mut g, 19);
    // six cells of row 18 stay behind and settle into row 19
    for x in 0..6 {
        assert!(g.handle(Input::PaintCell { x, y: 18 }));
    }
    assert_eq!(g.update(&mut q), Some(1));
    for x in 0..6 {
        assert!(g.board().is_occupied(x, 19));
    }
    assert_eq!(occupied_count(&g), 6);
}

#[test]
fn game_over_when_top_rows_blocked() {
    let mut g = GameState::new();
    let mut q = SoundQueue::new();
    assert!(g.handle(Input::ToggleCell { x: 0, y: 0 }));
    assert_eq!(g.update(&mut q), None);
    // the board is left as it was for the loss screen
    assert!(g.board().is_occupied(0, 0));
    assert_eq!(occupied_count(&g), 1);
    assert!(g.active().is_none());
    assert_eq!(drain(&mut q), vec![Sound::End]);
}

#[test]
fn lock_delay_gives_one_extra_eligible_tick() {
    let mut g = GameState::new();
    let mut q = SoundQueue::new();
    // spawn, then drop the piece to its resting position
    g.update(&mut q);
    assert!(g.handle(Input::Down));
    // run up to the next eligible tick (tick counter 30): the grounded
    // piece survives it without being written into the board
    for _ in 0..30 {
        g.update(&mut q);
    }
    assert_eq!(occupied_count(&g), 0);
    assert!(g.active().is_some());
    assert!(drain(&mut q).is_empty());
    // the following eligible tick (counter 60) locks it
    for _ in 0..30 {
        g.update(&mut q);
    }
    assert_eq!(occupied_count(&g), 4);
    assert!(g.active().is_none());
    assert_eq!(drain(&mut q), vec![Sound::Ground]);
}

#[test]
fn hard_drop_rests_piece_on_floor() {
    let mut g = GameState::new();
    let mut q = SoundQueue::new();
    g.update(&mut q);
    assert!(g.handle(Input::Down));
    let piece = g.active().as_ref().expect("piece spawned");
    let tiles = piece.get_tiles();
    assert!(tiles.iter().any(|t| t.y == 19));
    assert!(piece.go_down(g.board()).is_none());
}

#[test]
fn swap_brings_in_the_previewed_piece() {
    let mut g = GameState::new();
    let mut q = SoundQueue::new();
    g.update(&mut q);
    let mut expected: Vec<(i32, i32)> =
        g.bag().peek().get_tiles().iter().map(|t| (t.x, t.y)).collect();
    expected.sort();
    assert!(g.handle(Input::Swap));
    let piece = g.active().as_ref().expect("piece present");
    let mut got: Vec<(i32, i32)> = piece.get_tiles().iter().map(|t| (t.x, t.y)).collect();
    got.sort();
    assert_eq!(got, expected);
}

#[test]
fn toggle_cell_flips_and_restores() {
    let mut g = GameState::new();
    assert!(g.handle(Input::ToggleCell { x: 6, y: 11 }));
    assert!(g.board().is_occupied(6, 11));
    assert!(g.handle(Input::ToggleCell { x: 6, y: 11 }));
    assert!(!g.board().is_occupied(6, 11));
}

#[test]
fn out_of_range_mouse_input_is_ignored() {
    let mut g = GameState::new();
    assert!(g.handle(Input::PaintCell { x: 10, y: 0 }));
    assert!(g.handle(Input::PaintCell { x: 0, y: 20 }));
    assert_eq!(occupied_count(&g), 0);
}

#[test]
fn sound_queue_is_fifo_and_bounded() {
    let mut q = SoundQueue::new();
    assert_eq!(q.len(), 0);
    assert_eq!(q.pop(), None);
    for i in 0..12 {
        q.push(if i % 2 == 0 { Sound::Clear } else { Sound::Ground });
    }
    // two pushes beyond the capacity of ten were dropped
    assert_eq!(q.len(), 10);
    let drained = drain(&mut q);
    assert_eq!(drained[0], Sound::Clear);
    assert_eq!(drained[1], Sound::Ground);
    assert_eq!(drained.len(), 10);
    assert_eq!(q.len(), 0);
}

#[test]
fn session_starts_in_menu_and_confirm_starts_play() {
    let mut a = AppState::new();
    assert_eq!(a.mode(), Mode::Menu);
    assert_eq!(a.score(), 0);
    assert_eq!(a.high_score(), 0);
    assert!(a.handle(Input::Confirm));
    assert_eq!(a.mode(), Mode::Playing);
}

#[test]
fn pause_toggles_between_menu_and_play() {
    let mut a = AppState::new();
    assert!(a.handle(Input::Pause));
    assert_eq!(a.mode(), Mode::Playing);
    assert!(a.handle(Input::Pause));
    assert_eq!(a.mode(), Mode::Menu);
}

#[test]
fn starting_play_from_menu_resets_game_and_score() {
    let mut a = AppState::new();
    let mut q = SoundQueue::new();
    assert!(a.handle(Input::Confirm));
    for x in 0..10 {
        assert!(a.handle(Input::PaintCell { x, y: 19 }));
    }
    a.update(&mut q);
    assert_eq!(a.score(), 1);
    // leave a marker cell, pause to the menu, and start play again
    assert!(a.handle(Input::PaintCell { x: 5, y: 10 }));
    assert!(a.handle(Input::Pause));
    assert_eq!(a.mode(), Mode::Menu);
    assert!(a.handle(Input::Pause));
    // starting from the menu begins a fresh game with the score reset
    assert_eq!(a.mode(), Mode::Playing);
    assert_eq!(a.score(), 0);
    assert!(!a.game().board().is_occupied(5, 10));
    // the high score is only promoted on a loss
    assert_eq!(a.high_score(), 0);
}

#[test]
fn quit_and_escape_stop_the_loop() {
    let mut a = AppState::new();
    assert!(!a.handle(Input::Quit));
    assert!(!a.handle(Input::Escape));
    assert_eq!(a.mode(), Mode::Menu);
}

#[test]
fn menu_update_changes_nothing() {
    let mut a = AppState::new();
    let mut q = SoundQueue::new();
    a.update(&mut q);
    assert_eq!(a.mode(), Mode::Menu);
    assert_eq!(a.score(), 0);
    assert!(drain(&mut q).is_empty());
}

#[test]
fn score_accumulates_and_survives_as_high_score() {
    let mut a = AppState::new();
    let mut q = SoundQueue::new();
    assert!(a.handle(Input::Confirm));
    // a full bottom row scores one point on the first eligible tick
    for x in 0..10 {
        assert!(a.handle(Input::PaintCell { x, y: 19 }));
    }
    a.update(&mut q);
    assert_eq!(a.score(), 1);
    assert_eq!(a.high_score(), 0);
    // now block the top and run to the next eligible tick: the game is lost
    assert!(a.handle(Input::PaintCell { x: 0, y: 0 }));
    for _ in 0..30 {
        a.update(&mut q);
    }
    assert_eq!(a.mode(), Mode::Lost);
    assert_eq!(a.score(), 1);
    assert_eq!(a.high_score(), 1);
    // restarting resets the score but keeps the high score
    assert!(a.handle(Input::Pause));
    assert_eq!(a.mode(), Mode::Playing);
    assert_eq!(a.score(), 0);
    assert_eq!(a.high_score(), 1);
}

#[test]
fn inputs_outside_play_are_ignored() {
    let mut a = AppState::new();
    assert!(a.handle(Input::PaintCell { x: 0, y: 19 }));
    assert!(a.handle(Input::Confirm));
    assert_eq!(a.mode(), Mode::Playing);
    // the paint arrived while in the menu, so the board is still empty
    let mut n = 0;
    for x in 0..10 {
        for y in 0..20 {
            if a.game().board().is_occupied(x, y) {
                n += 1;
            }
        }
    }
    assert_eq!(n, 0);
}
