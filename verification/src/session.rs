//! One play-through: cursor, alive/started flags, and the dispatch of
//! abstract input events to the board and the mine field, including the
//! reset-on-death-then-input rule.

use vstd::prelude::*;
use crate::position::{Pos, in_bounds, near};
use crate::board::{
    Board, CellState, explode_transition, reveal_transition, toggled, won_spec,
};
use crate::minefield::{MineField, has_pos, generation, MAX_GENERATION_ATTEMPTS};
use crate::rng::RandomSource;

verus! {

pub const BOARD_HEIGHT: usize = 16;

pub const BOARD_WIDTH: usize = 16;

pub const BOMB_COUNT: usize = 50;

pub const INITIAL_TICKS: u32 = 0x12345678;

/// An abstract input event; unrecognized terminal input never reaches the
/// session.
#[derive(Clone, Copy, PartialEq, Eq, Structural, Debug)]
pub enum InputEvent {
    MoveUp,
    MoveDown,
    MoveLeft,
    MoveRight,
    Reveal,
    ToggleFlag,
    Quit,
}

/// A directional event.
pub open spec fn is_move(ev: InputEvent) -> bool {
    ||| ev == InputEvent::MoveUp
    ||| ev == InputEvent::MoveDown
    ||| ev == InputEvent::MoveLeft
    ||| ev == InputEvent::MoveRight
}

/// Where a directional event puts the cursor: toroidal wraparound, moving
/// off one edge re-enters the opposite edge.
pub open spec fn moved_cursor(c: Pos, ev: InputEvent, h: int, w: int) -> Pos {
    match ev {
        InputEvent::MoveUp => Pos { row: ((c.row + h - 1) % h) as usize, col: c.col },
        InputEvent::MoveDown => Pos { row: ((c.row + 1) % h) as usize, col: c.col },
        InputEvent::MoveLeft => Pos { row: c.row, col: ((c.col + w - 1) % w) as usize },
        InputEvent::MoveRight => Pos { row: c.row, col: ((c.col + 1) % w) as usize },
        _ => c,
    }
}

/// Cursor movement is toroidal: moving Up from row 0 yields the bottom row,
/// moving Right from the last column yields column 0, and symmetrically for
/// Down and Left. Movement never leaves the grid.
pub proof fn lemma_cursor_toroidal(c: Pos, ev: InputEvent, h: int, w: int)
    requires
        in_bounds(c, h, w),
        h <= usize::MAX,
        w <= usize::MAX,
    ensures
        in_bounds(moved_cursor(c, ev, h, w), h, w),
        c.row == 0 ==> moved_cursor(c, InputEvent::MoveUp, h, w).row == h - 1,
        c.row == h - 1 ==> moved_cursor(c, InputEvent::MoveDown, h, w).row == 0,
        c.col == 0 ==> moved_cursor(c, InputEvent::MoveLeft, h, w).col == w - 1,
        c.col == w - 1 ==> moved_cursor(c, InputEvent::MoveRight, h, w).col == 0,
{
    assert(0 < h && 0 < w);
    assert((c.row + h - 1) % h < h) by (nonlinear_arith)
        requires
            0 < h,
    ;
    assert((c.row + 1) % h < h) by (nonlinear_arith)
        requires
            0 < h,
    ;
    assert((c.col + w - 1) % w < w) by (nonlinear_arith)
        requires
            0 < w,
    ;
    assert((c.col + 1) % w < w) by (nonlinear_arith)
        requires
            0 < w,
    ;
    if c.row == 0 {
        assert((0 + h - 1) % h == h - 1) by (nonlinear_arith)
            requires
                0 < h,
        ;
    }
    if c.row == h - 1 {
        assert((h - 1 + 1) % h == 0) by (nonlinear_arith)
            requires
                0 < h,
        ;
    }
    if c.col == 0 {
        assert((0 + w - 1) % w == w - 1) by (nonlinear_arith)
            requires
                0 < w,
        ;
    }
    if c.col == w - 1 {
        assert((w - 1 + 1) % w == 0) by (nonlinear_arith)
            requires
                0 < w,
        ;
    }
}

/// Whether mine generation from `seed` around `exclude` places the full
/// complement of mines within the attempt cap.
pub open spec fn generation_ok(seed: u32, exclude: Pos) -> bool {
    generation(
        Seq::empty(),
        seed,
        exclude,
        BOMB_COUNT,
        BOARD_HEIGHT,
        BOARD_WIDTH,
        MAX_GENERATION_ATTEMPTS as nat,
    ).0.len() == BOMB_COUNT
}

/// One play-through's state. The tick counter is process-wide entropy: it
/// advances once per loop iteration and is not part of a reset.
pub struct GameSession {
    board: Board,
    mines: MineField,
    cursor: Pos,
    mines_generated: bool,
    alive: bool,
    ticks: u32,
}

impl GameSession {
    /// The board grid.
    pub closed spec fn board(self) -> Board {
        self.board
    }

    /// The mine positions.
    pub closed spec fn mine_seq(self) -> Seq<Pos> {
        self.mines@
    }

    /// The highlighted cell.
    pub closed spec fn cursor(self) -> Pos {
        self.cursor
    }

    /// Whether mines have been generated this game.
    pub closed spec fn generated(self) -> bool {
        self.mines_generated
    }

    /// Whether the player is alive.
    pub closed spec fn alive(self) -> bool {
        self.alive
    }

    /// The tick counter.
    pub closed spec fn ticks(self) -> u32 {
        self.ticks
    }

    /// The session invariant: a 16x16 board, the cursor on it, every mine on
    /// it, and no mines before generation.
    pub open spec fn wf(self) -> bool {
        &&& self.board().wf()
        &&& self.board().rows() == BOARD_HEIGHT as int
        &&& self.board().cols() == BOARD_WIDTH as int
        &&& in_bounds(self.cursor(), BOARD_HEIGHT as int, BOARD_WIDTH as int)
        &&& forall|i: int|
            0 <= i < self.mine_seq().len() ==> in_bounds(
                #[trigger] self.mine_seq()[i],
                BOARD_HEIGHT as int,
                BOARD_WIDTH as int,
            )
        &&& (!self.generated() ==> self.mine_seq().len() == 0)
    }

    /// A fresh session: empty board, no mines, cursor at the origin.
    pub fn new() -> (s: GameSession)
        ensures
            s.wf(),
            s.board().all_hidden(),
            s.mine_seq().len() == 0,
            !s.generated(),
            s.alive(),
            s.cursor() == (Pos { row: 0, col: 0 }),
            s.ticks() == INITIAL_TICKS,
    {
        GameSession {
            board: Board::new(BOARD_HEIGHT, BOARD_WIDTH),
            mines: MineField::new(),
            cursor: Pos { row: 0, col: 0 },
            mines_generated: false,
            alive: true,
            ticks: INITIAL_TICKS,
        }
    }

    /// Discard the board and the mines and start over: every cell Hidden,
    /// no mines, not generated, alive. The cursor and the tick counter keep
    /// their values.
    pub fn reset_game(&mut self)
        requires
            old(self).wf(),
        ensures
            final(self).wf(),
            final(self).board().all_hidden(),
            final(self).board().rows() == old(self).board().rows(),
            final(self).board().cols() == old(self).board().cols(),
            final(self).mine_seq().len() == 0,
            !final(self).generated(),
            final(self).alive(),
            final(self).cursor() == old(self).cursor(),
            final(self).ticks() == old(self).ticks(),
    {
        self.board = Board::new(BOARD_HEIGHT, BOARD_WIDTH);
        self.mines.clear();
        self.mines_generated = false;
        self.alive = true;
    }

    /// Advance the tick counter by one (wrapping at the top); nothing else
    /// changes.
    pub fn tick(&mut self)
        ensures
            final(self).ticks() == (if old(self).ticks() == u32::MAX {
                0u32
            } else {
                (old(self).ticks() + 1) as u32
            }),
            final(self).board() == old(self).board(),
            final(self).mine_seq() == old(self).mine_seq(),
            final(self).cursor() == old(self).cursor(),
            final(self).generated() == old(self).generated(),
            final(self).alive() == old(self).alive(),
    {
        self.ticks = if self.ticks == u32::MAX {
            0
        } else {
            self.ticks + 1
        };
    }

    /// Whether the game is won: all non-mine cells Revealed, no Exploded
    /// cell.
    pub fn is_won(&self) -> (r: bool)
        requires
            self.wf(),
        ensures
            r == won_spec(self.board(), self.mine_seq()),
    {
        self.board.is_won(&self.mines)
    }

    /// The highlighted cell.
    pub fn get_cursor(&self) -> (p: Pos)
        ensures
            p == self.cursor(),
    {
        self.cursor
    }

    /// Whether the player is alive.
    pub fn is_alive(&self) -> (r: bool)
        ensures
            r == self.alive(),
    {
        self.alive
    }

    /// Whether mines have been generated this game.
    pub fn is_mines_generated(&self) -> (r: bool)
        ensures
            r == self.generated(),
    {
        self.mines_generated
    }

    /// The tick counter.
    pub fn get_ticks(&self) -> (t: u32)
        ensures
            t == self.ticks(),
    {
        self.ticks
    }

    /// The display state of one cell: the render model for a presentation
    /// layer.
    pub fn cell(&self, row: usize, col: usize) -> (s: CellState)
        requires
            self.wf(),
            row < BOARD_HEIGHT,
            col < BOARD_WIDTH,
        ensures
            s == self.board().cell(row as int, col as int),
    {
        self.board.cell_at(row, col)
    }

    /// How many mines stand on the board.
    pub fn mine_count(&self) -> (n: usize)
        ensures
            n == self.mine_seq().len(),
    {
        self.mines.len()
    }

    /// Whether a mine stands at the given coordinates.
    pub fn has_mine(&self, row: usize, col: usize) -> (r: bool)
        ensures
            r == has_pos(self.mine_seq(), row as int, col as int),
    {
        self.mines.contains(&Pos { row, col })
    }

    /// Apply one abstract input event. While dead, any input performs
    /// exactly a reset and nothing else; while alive, directional input
    /// moves the cursor toroidally, Reveal explores a Hidden cell
    /// (generating the mines first if need be, seeded from the tick
    /// counter), ToggleFlag flips a flag, and Quit asks to leave.
    pub fn apply_input(&mut self, ev: InputEvent) -> (quit: bool)
        requires
            old(self).wf(),
        ensures
            final(self).wf(),
            final(self).ticks() == old(self).ticks(),
            // while dead: exactly a reset, whatever the input, and no quit
            !old(self).alive() ==> ({
                &&& final(self).board().all_hidden()
                &&& final(self).board().rows() == old(self).board().rows()
                &&& final(self).board().cols() == old(self).board().cols()
                &&& final(self).mine_seq().len() == 0
                &&& !final(self).generated()
                &&& final(self).alive()
                &&& final(self).cursor() == old(self).cursor()
                &&& quit == false
            }),
            // directional input: toroidal cursor movement, nothing else
            old(self).alive() && is_move(ev) ==> ({
                &&& final(self).cursor() == moved_cursor(
                    old(self).cursor(),
                    ev,
                    BOARD_HEIGHT as int,
                    BOARD_WIDTH as int,
                )
                &&& final(self).board() == old(self).board()
                &&& final(self).mine_seq() == old(self).mine_seq()
                &&& final(self).generated() == old(self).generated()
                &&& final(self).alive()
                &&& quit == false
            }),
            // quit: state untouched
            old(self).alive() && ev == InputEvent::Quit ==> (*final(self) == *old(self) && quit),
            // flag: the cursor's cell toggles, nothing else
            old(self).alive() && ev == InputEvent::ToggleFlag ==> ({
                let cr = old(self).cursor().row as int;
                let cc = old(self).cursor().col as int;
                &&& final(self).board().cell(cr, cc) == toggled(old(self).board().cell(cr, cc))
                &&& forall|r: int, c: int|
                    old(self).board().in_grid(r, c) && !(r == cr && c == cc)
                        ==> #[trigger] final(self).board().cell(r, c) == old(self).board().cell(
                        r,
                        c,
                    )
                &&& final(self).mine_seq() == old(self).mine_seq()
                &&& final(self).cursor() == old(self).cursor()
                &&& final(self).generated() == old(self).generated()
                &&& final(self).alive()
                &&& quit == false
            }),
            // reveal on a non-Hidden cell: a no-op
            old(self).alive() && ev == InputEvent::Reveal && old(self).board().cell(
                old(self).cursor().row as int,
                old(self).cursor().col as int,
            ) != CellState::Hidden ==> (*final(self) == *old(self) && quit == false),
            // reveal on a Hidden cell with mines already generated
            old(self).alive() && ev == InputEvent::Reveal && old(self).board().cell(
                old(self).cursor().row as int,
                old(self).cursor().col as int,
            ) == CellState::Hidden && old(self).generated() ==> ({
                &&& final(self).mine_seq() == old(self).mine_seq()
                &&& final(self).generated()
                &&& final(self).cursor() == old(self).cursor()
                &&& final(self).alive() == !has_pos(
                    old(self).mine_seq(),
                    old(self).cursor().row as int,
                    old(self).cursor().col as int,
                )
                &&& (!final(self).alive() ==> explode_transition(
                    old(self).board(),
                    final(self).board(),
                    old(self).mine_seq(),
                ))
                &&& (final(self).alive() ==> reveal_transition(
                    old(self).board(),
                    final(self).board(),
                    old(self).mine_seq(),
                    old(self).cursor(),
                ))
                &&& quit == false
            }),
            // first reveal: mines are generated from the tick-derived seed
            // with the cursor as exclusion center, then the reveal runs;
            // the excluded cursor cell is never a mine, so the player
            // survives the first reveal. If the capped generation cannot
            // place the full complement, nothing happens and the next
            // reveal retries.
            old(self).alive() && ev == InputEvent::Reveal && old(self).board().cell(
                old(self).cursor().row as int,
                old(self).cursor().col as int,
            ) == CellState::Hidden && !old(self).generated() ==> ({
                let gen = generation(
                    Seq::empty(),
                    old(self).ticks(),
                    old(self).cursor(),
                    BOMB_COUNT,
                    BOARD_HEIGHT,
                    BOARD_WIDTH,
                    MAX_GENERATION_ATTEMPTS as nat,
                );
                &&& final(self).cursor() == old(self).cursor()
                &&& quit == false
                &&& (generation_ok(old(self).ticks(), old(self).cursor()) ==> ({
                    &&& final(self).generated()
                    &&& final(self).mine_seq() == gen.0
                    &&& final(self).mine_seq().len() == BOMB_COUNT
                    &&& forall|i: int|
                        0 <= i < final(self).mine_seq().len() ==> !near(
                            old(self).cursor(),
                            #[trigger] final(self).mine_seq()[i],
                        )
                    &&& forall|i: int, j: int|
                        0 <= i < j < final(self).mine_seq().len() ==> final(self).mine_seq()[i]
                            != final(self).mine_seq()[j]
                    &&& final(self).alive()
                    &&& reveal_transition(
                        old(self).board(),
                        final(self).board(),
                        final(self).mine_seq(),
                        old(self).cursor(),
                    )
                }))
                &&& (!generation_ok(old(self).ticks(), old(self).cursor()) ==> ({
                    &&& final(self).mine_seq().len() == 0
                    &&& !final(self).generated()
                    &&& final(self).board() == old(self).board()
                    &&& final(self).alive()
                }))
            }),
    {
        if !self.alive {
            self.reset_game();
            return false;
        }
        match ev {
            InputEvent::MoveUp => {
                self.cursor = Pos {
                    row: (self.cursor.row + BOARD_HEIGHT - 1) % BOARD_HEIGHT,
                    col: self.cursor.col,
                };
                false
            },
            InputEvent::MoveDown => {
                self.cursor = Pos { row: (self.cursor.row + 1) % BOARD_HEIGHT, col: self.cursor.col };
                false
            },
            InputEvent::MoveLeft => {
                self.cursor = Pos {
                    row: self.cursor.row,
                    col: (self.cursor.col + BOARD_WIDTH - 1) % BOARD_WIDTH,
                };
                false
            },
            InputEvent::MoveRight => {
                self.cursor = Pos { row: self.cursor.row, col: (self.cursor.col + 1) % BOARD_WIDTH };
                false
            },
            InputEvent::Reveal => {
                let cur_pos = self.cursor;
                let cur = self.board.cell_at(cur_pos.row, cur_pos.col);
                if !matches!(cur, CellState::Hidden) {
                    return false;
                }
                if !self.mines_generated {
                    let mut rng = RandomSource::new(self.ticks);
                    proof {
                        assert(self.mines@ =~= Seq::<Pos>::empty());
                    }
                    let ok = self.mines.generate_mines(
                        &cur_pos,
                        &mut rng,
                        BOMB_COUNT,
                        BOARD_HEIGHT,
                        BOARD_WIDTH,
                    );
                    if !ok {
                        self.mines.clear();
                        return false;
                    }
                    self.mines_generated = true;
                }
                proof {
                    if !old(self).generated() {
                        if has_pos(self.mines@, cur_pos.row as int, cur_pos.col as int) {
                            let i = choose|i: int|
                                0 <= i < self.mines@.len() && self.mines@[i].row
                                    == cur_pos.row as int && self.mines@[i].col
                                    == cur_pos.col as int;
                            assert(near(cur_pos, self.mines@[i]));
                            assert(false);
                        }
                    }
                }
                let alive = self.board.explore(&self.mines, &cur_pos);
                self.alive = alive;
                false
            },
            InputEvent::ToggleFlag => {
                let cur_pos = self.cursor;
                self.board.flag_toggle(&cur_pos);
                false
            },
            InputEvent::Quit => true,
        }
    }
}

} // verus!
