use minesweeper::board::CellState;
use minesweeper::session::{GameSession, InputEvent};

fn move_cursor_to(session: &mut GameSession, row: usize, col: usize) {
    while session.get_cursor().row != row {
        session.apply_input(InputEvent::MoveDown);
    }
    while session.get_cursor().col != col {
        session.apply_input(InputEvent::MoveRight);
    }
}

#[test]
fn cursor_wraps_toroidally() {
    let mut s = GameSession::new();
    assert_eq!(s.get_cursor().row, 0);
    assert_eq!(s.get_cursor().col, 0);
    s.apply_input(InputEvent::MoveUp);
    assert_eq!(s.get_cursor().row, 15);
    s.apply_input(InputEvent::MoveDown);
    assert_eq!(s.get_cursor().row, 0);
    s.apply_input(InputEvent::MoveLeft);
    assert_eq!(s.get_cursor().col, 15);
    s.apply_input(InputEvent::MoveRight);
    assert_eq!(s.get_cursor().col, 0);
}

#[test]
fn movement_does_not_touch_the_board() {
    let mut s = GameSession::new();
    for ev in [
        InputEvent::MoveUp,
        InputEvent::MoveDown,
        InputEvent::MoveLeft,
        InputEvent::MoveRight,
    ] {
        s.apply_input(ev);
    }
    assert!(!s.is_mines_generated());
    assert_eq!(s.mine_count(), 0);
    for r in 0..16usize {
        for c in 0..16usize {
            assert_eq!(s.cell(r, c), CellState::Hidden);
        }
    }
}

#[test]
fn first_reveal_generates_mines_and_survives() {
    let mut s = GameSession::new();
    move_cursor_to(&mut s, 7, 7);
    assert!(!s.is_mines_generated());
    let quit = s.apply_input(InputEvent::Reveal);
    assert!(!quit);
    assert!(s.is_mines_generated());
    assert_eq!(s.mine_count(), 50);
    assert!(s.is_alive());
    // The cursor's cell is revealed, never a mine.
    assert!(matches!(s.cell(7, 7), CellState::Revealed(_)));
    // The exclusion zone around the first reveal holds no mine.
    for r in 6..=8usize {
        for c in 6..=8usize {
            assert!(!s.has_mine(r, c));
        }
    }
}

#[test]
fn reveal_on_flagged_cell_is_noop() {
    let mut s = GameSession::new();
    s.apply_input(InputEvent::ToggleFlag);
    assert_eq!(s.cell(0, 0), CellState::Flagged);
    let quit = s.apply_input(InputEvent::Reveal);
    assert!(!quit);
    assert!(!s.is_mines_generated());
    assert_eq!(s.cell(0, 0), CellState::Flagged);
}

#[test]
fn flag_toggle_roundtrip_through_session() {
    let mut s = GameSession::new();
    s.apply_input(InputEvent::ToggleFlag);
    assert_eq!(s.cell(0, 0), CellState::Flagged);
    s.apply_input(InputEvent::ToggleFlag);
    assert_eq!(s.cell(0, 0), CellState::Hidden);
}

#[test]
fn reset_restores_fresh_board() {
    let mut s = GameSession::new();
    move_cursor_to(&mut s, 5, 9);
    s.apply_input(InputEvent::Reveal);
    assert!(s.is_mines_generated());
    let ticks_before = s.get_ticks();
    s.reset_game();
    for r in 0..16usize {
        for c in 0..16usize {
            assert_eq!(s.cell(r, c), CellState::Hidden);
        }
    }
    assert_eq!(s.mine_count(), 0);
    assert!(!s.is_mines_generated());
    assert!(s.is_alive());
    // The cursor and the tick counter survive a reset.
    assert_eq!(s.get_cursor().row, 5);
    assert_eq!(s.get_cursor().col, 9);
    assert_eq!(s.get_ticks(), ticks_before);
}

fn lose_game(s: &mut GameSession) {
    move_cursor_to(s, 7, 7);
    s.apply_input(InputEvent::Reveal);
    assert!(s.is_alive());
    // Find a mine that is still Hidden and reveal it.
    let mut target = None;
    'search: for r in 0..16usize {
        for c in 0..16usize {
            if s.has_mine(r, c) && s.cell(r, c) == CellState::Hidden {
                target = Some((r, c));
                break 'search;
            }
        }
    }
    let (r, c) = target.expect("a 50-mine board keeps hidden mines");
    move_cursor_to(s, r, c);
    s.apply_input(InputEvent::Reveal);
    assert!(!s.is_alive());
}

#[test]
fn revealing_a_mine_explodes_every_mine() {
    let mut s = GameSession::new();
    lose_game(&mut s);
    for r in 0..16usize {
        for c in 0..16usize {
            if s.has_mine(r, c) {
                assert_eq!(s.cell(r, c), CellState::Exploded);
            } else {
                assert_ne!(s.cell(r, c), CellState::Exploded);
            }
        }
    }
}

#[test]
fn input_while_dead_resets() {
    let mut s = GameSession::new();
    lose_game(&mut s);
    let cursor_before = s.get_cursor();
    // The next input of any kind performs exactly a reset and nothing else:
    // even Quit only resets.
    let quit = s.apply_input(InputEvent::Quit);
    assert!(!quit);
    assert!(s.is_alive());
    assert!(!s.is_mines_generated());
    assert_eq!(s.mine_count(), 0);
    for r in 0..16usize {
        for c in 0..16usize {
            assert_eq!(s.cell(r, c), CellState::Hidden);
        }
    }
    assert_eq!(s.get_cursor(), cursor_before);
    // The reset-triggering input performed no game action: the cursor did
    // not move, no cell was revealed. The following input acts normally.
    let quit = s.apply_input(InputEvent::Quit);
    assert!(quit);
}

#[test]
fn quit_requests_exit_while_alive() {
    let mut s = GameSession::new();
    assert!(s.apply_input(InputEvent::Quit));
    // Quit performs no state change.
    assert!(s.is_alive());
    assert_eq!(s.cell(0, 0), CellState::Hidden);
}

#[test]
fn ticks_advance_and_survive_reset() {
    let mut s = GameSession::new();
    let t0 = s.get_ticks();
    s.tick();
    s.tick();
    assert_eq!(s.get_ticks(), t0 + 2);
    s.reset_game();
    assert_eq!(s.get_ticks(), t0 + 2);
}

#[test]
fn tick_changes_the_generated_layout() {
    // The tick counter is folded into the seed: different tick values give
    // a deterministic but different first-reveal layout.
    let mut a = GameSession::new();
    let mut b = GameSession::new();
    b.tick();
    move_cursor_to(&mut a, 7, 7);
    move_cursor_to(&mut b, 7, 7);
    a.apply_input(InputEvent::Reveal);
    b.apply_input(InputEvent::Reveal);
    let mut differs = false;
    for r in 0..16usize {
        for c in 0..16usize {
            if a.has_mine(r, c) != b.has_mine(r, c) {
                differs = true;
            }
        }
    }
    assert!(differs);
    // Equal tick values reproduce the same layout.
    let mut c1 = GameSession::new();
    move_cursor_to(&mut c1, 7, 7);
    c1.apply_input(InputEvent::Reveal);
    for r in 0..16usize {
        for c in 0..16usize {
            assert_eq!(a.has_mine(r, c), c1.has_mine(r, c));
        }
    }
}
