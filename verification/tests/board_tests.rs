use minesweeper::board::{Board, CellState};
use minesweeper::minefield::MineField;
use minesweeper::position::{cursor_too_close, Pos};
use minesweeper::rng::RandomSource;

fn pos(row: usize, col: usize) -> Pos {
    Pos { row, col }
}

#[test]
fn exclusion_zone_boundary() {
    // Too close only when both axis distances are strictly below two.
    assert!(cursor_too_close(&pos(5, 5), &pos(5, 5)));
    assert!(cursor_too_close(&pos(5, 5), &pos(6, 6)));
    assert!(cursor_too_close(&pos(5, 5), &pos(4, 6)));
    assert!(!cursor_too_close(&pos(5, 5), &pos(5, 7)));
    assert!(!cursor_too_close(&pos(5, 5), &pos(7, 5)));
    assert!(!cursor_too_close(&pos(0, 0), &pos(2, 0)));
    assert!(cursor_too_close(&pos(0, 0), &pos(1, 1)));
}

#[test]
fn corner_count_clips_to_bounds() {
    // Mines on every cell of a 3x3 board except one corner: each corner's
    // count covers only the in-bounds part of its window, never more.
    let mut mines = MineField::new();
    for r in 0..3usize {
        for c in 0..3usize {
            if !(r == 0 && c == 0) {
                mines.push_mine(pos(r, c));
            }
        }
    }
    assert_eq!(mines.get_mines_around(&pos(0, 0), 3, 3), 3);
    assert_eq!(mines.get_mines_around(&pos(2, 2), 3, 3), 4);
    assert_eq!(mines.get_mines_around(&pos(1, 1), 3, 3), 8);
}

#[test]
fn adjacency_counts_center_mine() {
    let mut mines = MineField::new();
    mines.push_mine(pos(1, 1));
    assert_eq!(mines.get_mines_around(&pos(0, 0), 3, 3), 1);
    assert_eq!(mines.get_mines_around(&pos(1, 1), 3, 3), 1);
    assert_eq!(mines.get_mines_around(&pos(2, 0), 3, 3), 1);
}

#[test]
fn generation_places_fifty_mines() {
    // Many seeds: generation terminates and yields exactly 50 unique
    // in-bounds positions, all outside the exclusion zone.
    for seed in [0x12345678u32, 1_234_567, 99_999_999, 0xFFFF_FFFF, 424_242_424, 987_654_321] {
        let mut mines = MineField::new();
        let mut rng = RandomSource::new(seed);
        let exclude = pos(7, 7);
        let ok = mines.generate_mines(&exclude, &mut rng, 50, 16, 16);
        assert!(ok);
        assert_eq!(mines.len(), 50);
        let mut collected: Vec<Pos> = Vec::new();
        for i in 0..mines.len() {
            let p = mines.get(i);
            assert!(p.row < 16 && p.col < 16);
            assert!(!cursor_too_close(&exclude, &p));
            assert!(!collected.contains(&p));
            collected.push(p);
        }
    }
}

#[test]
fn generation_respects_exclusion_zone() {
    let mut mines = MineField::new();
    let mut rng = RandomSource::new(77_777_777);
    let exclude = pos(0, 0);
    let ok = mines.generate_mines(&exclude, &mut rng, 50, 16, 16);
    assert!(ok);
    for i in 0..mines.len() {
        let p = mines.get(i);
        let row_far = p.row.abs_diff(exclude.row) >= 2;
        let col_far = p.col.abs_diff(exclude.col) >= 2;
        assert!(row_far || col_far);
    }
}

#[test]
fn reveal_zero_region_covers_empty_board() {
    // 5x5 board, no mines, reveal at the center: all 25 cells Revealed(0).
    let mut board = Board::new(5, 5);
    let mines = MineField::new();
    let alive = board.explore(&mines, &pos(2, 2));
    assert!(alive);
    for r in 0..5usize {
        for c in 0..5usize {
            assert_eq!(board.cell_at(r, c), CellState::Revealed(0));
        }
    }
}

#[test]
fn reveal_numbered_cell_reveals_only_itself() {
    // 3x3 board, single mine at (1,1), reveal at (0,0): adjacent count 1,
    // no flood expansion.
    let mut board = Board::new(3, 3);
    let mut mines = MineField::new();
    mines.push_mine(pos(1, 1));
    let alive = board.explore(&mines, &pos(0, 0));
    assert!(alive);
    assert_eq!(board.cell_at(0, 0), CellState::Revealed(1));
    for r in 0..3usize {
        for c in 0..3usize {
            if !(r == 0 && c == 0) {
                assert_eq!(board.cell_at(r, c), CellState::Hidden);
            }
        }
    }
}

#[test]
fn zero_region_expands_to_numbered_border() {
    // 5x5 board, one mine in the far corner: revealing (0,0) exposes every
    // cell but the mine, with exact counts on the border.
    let mut board = Board::new(5, 5);
    let mut mines = MineField::new();
    mines.push_mine(pos(4, 4));
    let alive = board.explore(&mines, &pos(0, 0));
    assert!(alive);
    for r in 0..5usize {
        for c in 0..5usize {
            if r == 4 && c == 4 {
                assert_eq!(board.cell_at(r, c), CellState::Hidden);
            } else if r >= 3 && c >= 3 {
                assert_eq!(board.cell_at(r, c), CellState::Revealed(1));
            } else {
                assert_eq!(board.cell_at(r, c), CellState::Revealed(0));
            }
        }
    }
}

#[test]
fn reveal_mine_explodes_all_mines() {
    // Revealing a mined cell marks every mine Exploded and leaves the other
    // cells exactly as they were.
    let mut board = Board::new(3, 3);
    let mut mines = MineField::new();
    mines.push_mine(pos(0, 0));
    mines.push_mine(pos(2, 2));
    board.flag_toggle(&pos(0, 1));
    let alive = board.explore(&mines, &pos(0, 0));
    assert!(!alive);
    assert_eq!(board.cell_at(0, 0), CellState::Exploded);
    assert_eq!(board.cell_at(2, 2), CellState::Exploded);
    assert_eq!(board.cell_at(0, 1), CellState::Flagged);
    for (r, c) in [(0usize, 2usize), (1, 0), (1, 1), (1, 2), (2, 0), (2, 1)] {
        assert_eq!(board.cell_at(r, c), CellState::Hidden);
    }
}

#[test]
fn flag_toggle_is_involution() {
    let mut board = Board::new(2, 2);
    board.flag_toggle(&pos(0, 0));
    assert_eq!(board.cell_at(0, 0), CellState::Flagged);
    board.flag_toggle(&pos(0, 0));
    assert_eq!(board.cell_at(0, 0), CellState::Hidden);
    assert_eq!(board.cell_at(0, 1), CellState::Hidden);
}

#[test]
fn flag_toggle_ignores_revealed_cells() {
    let mut board = Board::new(2, 2);
    let mines = MineField::new();
    let alive = board.explore(&mines, &pos(0, 0));
    assert!(alive);
    assert_eq!(board.cell_at(1, 1), CellState::Revealed(0));
    board.flag_toggle(&pos(1, 1));
    assert_eq!(board.cell_at(1, 1), CellState::Revealed(0));
}

#[test]
fn flood_overwrites_flags_inside_region() {
    // The flood fill sets every cell of the region, a standing flag
    // included.
    let mut board = Board::new(3, 3);
    let mines = MineField::new();
    board.flag_toggle(&pos(1, 1));
    assert_eq!(board.cell_at(1, 1), CellState::Flagged);
    let alive = board.explore(&mines, &pos(0, 0));
    assert!(alive);
    assert_eq!(board.cell_at(1, 1), CellState::Revealed(0));
}

#[test]
fn win_detection() {
    let mut board = Board::new(2, 2);
    let mut mines = MineField::new();
    mines.push_mine(pos(0, 0));
    assert!(!board.is_won(&mines));
    let alive = board.explore(&mines, &pos(1, 1));
    assert!(alive);
    assert_eq!(board.cell_at(1, 1), CellState::Revealed(1));
    assert!(!board.is_won(&mines));
    let _ = board.explore(&mines, &pos(0, 1));
    let _ = board.explore(&mines, &pos(1, 0));
    assert!(board.is_won(&mines));
    // A loss is never a win.
    let mut lost = Board::new(2, 2);
    let alive = lost.explore(&mines, &pos(0, 0));
    assert!(!alive);
    assert!(!lost.is_won(&mines));
}

#[test]
fn generation_failure_leaves_partial_set() {
    // A zero seed draws (0, 0) forever; with the exclusion zone away from
    // the origin the capped generation places one mine and gives up.
    let mut mines = MineField::new();
    let mut rng = RandomSource::new(0);
    let ok = mines.generate_mines(&pos(8, 8), &mut rng, 50, 16, 16);
    assert!(!ok);
    assert_eq!(mines.len(), 1);
    assert!(mines.contains(&pos(0, 0)));
}
