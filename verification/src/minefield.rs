//! The set of mine positions: lazy generation with an exclusion zone around
//! the first reveal, membership queries, and neighbor-mine counting.

use vstd::prelude::*;
use crate::position::{Pos, in_bounds, near, cursor_too_close};
use crate::rng::{RandomSource, rng_step};

verus! {

/// Cap on candidate draws in one mine generation. A degenerate seed can make
/// the generator repeat one position forever; the cap turns that latent hang
/// into an explicit placement failure.
pub const MAX_GENERATION_ATTEMPTS: usize = 1_000_000;

/// The mine-placement recurrence: starting from `mines` and `seed`, draw up
/// to `fuel` candidate positions (column first, then row, by two generator
/// steps), skipping one inside the exclusion zone of `exclude` or already
/// chosen, until `count` positions stand. Yields the final positions and the
/// final seed.
pub open spec fn generation(
    mines: Seq<Pos>,
    seed: u32,
    exclude: Pos,
    count: usize,
    height: usize,
    width: usize,
    fuel: nat,
) -> (Seq<Pos>, u32)
    decreases fuel,
{
    if mines.len() >= count || fuel == 0 {
        (mines, seed)
    } else {
        let s1 = rng_step(seed);
        let col = (s1 as usize) % width;
        let s2 = rng_step(s1);
        let row = (s2 as usize) % height;
        let candidate = Pos { row, col };
        if near(exclude, candidate) || has_pos(mines, row as int, col as int) {
            generation(mines, s2, exclude, count, height, width, (fuel - 1) as nat)
        } else {
            generation(mines.push(candidate), s2, exclude, count, height, width, (fuel - 1) as nat)
        }
    }
}

/// Some element of `s` has exactly the coordinates `(row, col)`.
pub open spec fn has_pos(s: Seq<Pos>, row: int, col: int) -> bool {
    exists|i: int| 0 <= i < s.len() && s[i].row == row && s[i].col == col
}

/// `(row, col)` lies in the 3x3 window centered on `p`.
pub open spec fn in_window(p: Pos, row: int, col: int) -> bool {
    &&& -1 <= row - p.row <= 1
    &&& -1 <= col - p.col <= 1
}

/// How many of the cells `(row, c)` for `c0 <= c < c1` carry a mine of `mines`.
pub open spec fn count_in_row(mines: Seq<Pos>, row: int, c0: int, c1: int) -> nat
    decreases c1 - c0,
{
    if c1 <= c0 {
        0
    } else {
        count_in_row(mines, row, c0, c1 - 1) + (if has_pos(mines, row, c1 - 1) {
            1nat
        } else {
            0nat
        })
    }
}

/// How many cells of the rectangle `r0 <= r < r1`, `c0 <= c < c1` carry a
/// mine of `mines`. Each cell counts at most once, whatever `mines` repeats.
pub open spec fn count_rect(mines: Seq<Pos>, r0: int, r1: int, c0: int, c1: int) -> nat
    decreases r1 - r0,
{
    if r1 <= r0 {
        0
    } else {
        count_rect(mines, r0, r1 - 1, c0, c1) + count_in_row(mines, r1 - 1, c0, c1)
    }
}

/// The lower edge of the 3x3 window around coordinate `x`, clipped at 0.
pub open spec fn clip_low(x: int) -> int {
    if x == 0 {
        0
    } else {
        x - 1
    }
}

/// The upper edge (inclusive) of the 3x3 window around coordinate `x`,
/// clipped at `n - 1`.
pub open spec fn clip_high(x: int, n: int) -> int {
    if x == n - 1 {
        n - 1
    } else {
        x + 1
    }
}

/// The number of mines in the 3x3 neighborhood of `p`, clipped to the grid:
/// neighbor queries clamp at the edges, they do not wrap.
pub open spec fn adj_count(mines: Seq<Pos>, p: Pos, height: int, width: int) -> nat {
    count_rect(
        mines,
        clip_low(p.row as int),
        clip_high(p.row as int, height) + 1,
        clip_low(p.col as int),
        clip_high(p.col as int, width) + 1,
    )
}

/// A row count is bounded by the width of its range.
pub proof fn lemma_count_in_row_bound(mines: Seq<Pos>, row: int, c0: int, c1: int)
    requires
        c0 <= c1,
    ensures
        count_in_row(mines, row, c0, c1) <= c1 - c0,
    decreases c1 - c0,
{
    if c1 > c0 {
        lemma_count_in_row_bound(mines, row, c0, c1 - 1);
    }
}

/// A rectangle count is bounded by the rectangle's area.
pub proof fn lemma_count_rect_bound(mines: Seq<Pos>, r0: int, r1: int, c0: int, c1: int)
    requires
        r0 <= r1,
        c0 <= c1,
    ensures
        count_rect(mines, r0, r1, c0, c1) <= (r1 - r0) * (c1 - c0),
    decreases r1 - r0,
{
    if r1 > r0 {
        lemma_count_rect_bound(mines, r0, r1 - 1, c0, c1);
        lemma_count_in_row_bound(mines, r1 - 1, c0, c1);
        assert((r1 - 1 - r0) * (c1 - c0) + (c1 - c0) == (r1 - r0) * (c1 - c0)) by (nonlinear_arith);
    }
}

/// A row count is zero exactly when no cell of the range carries a mine.
pub proof fn lemma_count_in_row_zero(mines: Seq<Pos>, row: int, c0: int, c1: int)
    ensures
        count_in_row(mines, row, c0, c1) == 0 <==> (forall|c: int|
            c0 <= c < c1 ==> !has_pos(mines, row, c)),
    decreases c1 - c0,
{
    if c1 > c0 {
        lemma_count_in_row_zero(mines, row, c0, c1 - 1);
    }
}

/// A rectangle count is zero exactly when no cell of the rectangle carries a
/// mine.
pub proof fn lemma_count_rect_zero(mines: Seq<Pos>, r0: int, r1: int, c0: int, c1: int)
    ensures
        count_rect(mines, r0, r1, c0, c1) == 0 <==> (forall|r: int, c: int|
            r0 <= r < r1 && c0 <= c < c1 ==> !has_pos(mines, r, c)),
    decreases r1 - r0,
{
    if r1 > r0 {
        lemma_count_rect_zero(mines, r0, r1 - 1, c0, c1);
        lemma_count_in_row_zero(mines, r1 - 1, c0, c1);
    }
}

/// The adjacency count of an in-bounds position is zero exactly when no
/// in-bounds cell of its 3x3 window carries a mine. Mines outside that
/// window never enter the count.
pub proof fn lemma_adj_count_zero(mines: Seq<Pos>, p: Pos, height: int, width: int)
    requires
        in_bounds(p, height, width),
    ensures
        adj_count(mines, p, height, width) == 0 <==> (forall|r: int, c: int|
            0 <= r < height && 0 <= c < width && in_window(p, r, c) ==> !has_pos(mines, r, c)),
{
    lemma_count_rect_zero(
        mines,
        clip_low(p.row as int),
        clip_high(p.row as int, height) + 1,
        clip_low(p.col as int),
        clip_high(p.col as int, width) + 1,
    );
}

/// The adjacency count of an in-bounds position never exceeds 9 (at most the
/// nine cells of the window).
pub proof fn lemma_adj_count_le_9(mines: Seq<Pos>, p: Pos, height: int, width: int)
    requires
        in_bounds(p, height, width),
    ensures
        adj_count(mines, p, height, width) <= 9,
{
    let r0 = clip_low(p.row as int);
    let r1 = clip_high(p.row as int, height) + 1;
    let c0 = clip_low(p.col as int);
    let c1 = clip_high(p.col as int, width) + 1;
    lemma_count_rect_bound(mines, r0, r1, c0, c1);
    assert((r1 - r0) * (c1 - c0) <= 9) by (nonlinear_arith)
        requires
            1 <= r1 - r0 <= 3,
            1 <= c1 - c0 <= 3,
    ;
}

proof fn lemma_count_in_row_congruent(m1: Seq<Pos>, m2: Seq<Pos>, row: int, c0: int, c1: int)
    requires
        forall|c: int| c0 <= c < c1 ==> has_pos(m1, row, c) == has_pos(m2, row, c),
    ensures
        count_in_row(m1, row, c0, c1) == count_in_row(m2, row, c0, c1),
    decreases c1 - c0,
{
    if c1 > c0 {
        lemma_count_in_row_congruent(m1, m2, row, c0, c1 - 1);
    }
}

proof fn lemma_count_rect_congruent(m1: Seq<Pos>, m2: Seq<Pos>, r0: int, r1: int, c0: int, c1: int)
    requires
        forall|r: int, c: int|
            r0 <= r < r1 && c0 <= c < c1 ==> has_pos(m1, r, c) == has_pos(m2, r, c),
    ensures
        count_rect(m1, r0, r1, c0, c1) == count_rect(m2, r0, r1, c0, c1),
    decreases r1 - r0,
{
    if r1 > r0 {
        lemma_count_rect_congruent(m1, m2, r0, r1 - 1, c0, c1);
        lemma_count_in_row_congruent(m1, m2, r1 - 1, c0, c1);
    }
}

/// Neighbor counting only examines the in-bounds subset of the 3x3 window:
/// a mine that is out of bounds, or outside the window, never changes the
/// count of `p` — also at a corner, where the window is clipped.
pub proof fn lemma_adj_count_ignores_outside(mines: Seq<Pos>, q: Pos, p: Pos, height: int, width: int)
    requires
        in_bounds(p, height, width),
        !(in_bounds(q, height, width) && in_window(p, q.row as int, q.col as int)),
    ensures
        adj_count(mines.push(q), p, height, width) == adj_count(mines, p, height, width),
{
    let r0 = clip_low(p.row as int);
    let r1 = clip_high(p.row as int, height) + 1;
    let c0 = clip_low(p.col as int);
    let c1 = clip_high(p.col as int, width) + 1;
    assert forall|r: int, c: int| r0 <= r < r1 && c0 <= c < c1 implies has_pos(mines.push(q), r, c)
        == has_pos(mines, r, c) by {
        assert(!(q.row == r && q.col == c));
        if has_pos(mines, r, c) {
            let i = choose|i: int| 0 <= i < mines.len() && mines[i].row == r && mines[i].col == c;
            assert(mines.push(q)[i] == mines[i]);
        } else {
            if has_pos(mines.push(q), r, c) {
                let i = choose|i: int|
                    0 <= i < mines.push(q).len() && mines.push(q)[i].row == r && mines.push(
                        q,
                    )[i].col == c;
                assert(i < mines.len());
                assert(mines.push(q)[i] == mines[i]);
            }
        }
    }
    lemma_count_rect_congruent(mines.push(q), mines, r0, r1, c0, c1);
}

/// A mined in-bounds cell counts itself: its own adjacency count is positive.
pub proof fn lemma_mine_counts_itself(mines: Seq<Pos>, p: Pos, height: int, width: int)
    requires
        in_bounds(p, height, width),
        has_pos(mines, p.row as int, p.col as int),
    ensures
        adj_count(mines, p, height, width) >= 1,
{
    lemma_adj_count_zero(mines, p, height, width);
}

/// Report whether `v` holds a position with the coordinates of `p`.
pub fn vec_contains_pos(v: &Vec<Pos>, p: &Pos) -> (r: bool)
    ensures
        r == has_pos(v@, p.row as int, p.col as int),
{
    let mut i: usize = 0;
    while i < v.len()
        invariant
            i <= v@.len(),
            forall|j: int| 0 <= j < i ==> !(v@[j].row == p.row && v@[j].col == p.col),
        decreases v@.len() - i,
    {
        if v[i].row == p.row && v[i].col == p.col {
            return true;
        }
        i = i + 1;
    }
    false
}

/// The mine positions of one game: empty before generation, exactly
/// `count` unique in-bounds positions afterwards, none of them inside the
/// exclusion zone of the first-reveal cursor.
pub struct MineField {
    mines: Vec<Pos>,
}

impl View for MineField {
    type V = Seq<Pos>;

    closed spec fn view(&self) -> Seq<Pos> {
        self.mines@
    }
}

impl MineField {
    pub fn new() -> (r: MineField)
        ensures
            r@.len() == 0,
    {
        MineField { mines: Vec::new() }
    }

    /// The number of mines placed so far.
    pub fn len(&self) -> (n: usize)
        ensures
            n == self@.len(),
    {
        self.mines.len()
    }

    /// The `i`-th mine position.
    pub fn get(&self, i: usize) -> (p: Pos)
        requires
            i < self@.len(),
        ensures
            p == self@[i as int],
    {
        self.mines[i]
    }

    /// Membership test by coordinates.
    pub fn contains(&self, p: &Pos) -> (r: bool)
        ensures
            r == has_pos(self@, p.row as int, p.col as int),
    {
        vec_contains_pos(&self.mines, p)
    }

    /// Add one mine position directly; lets a game with a known layout be
    /// built without the generator.
    pub fn push_mine(&mut self, p: Pos)
        ensures
            final(self)@ == old(self)@.push(p),
    {
        self.mines.push(p);
    }

    /// Forget every mine.
    pub fn clear(&mut self)
        ensures
            final(self)@.len() == 0,
    {
        self.mines.clear();
    }

    /// Count the mines in the 3x3 neighborhood of `pos`, clipped to the grid
    /// bounds; only the in-bounds subset of the window is examined.
    #[verifier::loop_isolation(false)]
    pub fn get_mines_around(&self, pos: &Pos, height: usize, width: usize) -> (n: usize)
        requires
            in_bounds(*pos, height as int, width as int),
        ensures
            n == adj_count(self@, *pos, height as int, width as int),
            n <= 9,
    {
        let lower_y_bound: usize = if pos.row == 0 { 0 } else { pos.row - 1 };
        let upper_y_bound: usize = if pos.row == height - 1 { height - 1 } else { pos.row + 1 };
        let lower_x_bound: usize = if pos.col == 0 { 0 } else { pos.col - 1 };
        let upper_x_bound: usize = if pos.col == width - 1 { width - 1 } else { pos.col + 1 };
        let mut mines_nearby: usize = 0;
        let mut y: usize = lower_y_bound;
        proof {
            lemma_adj_count_le_9(self@, *pos, height as int, width as int);
        }
        while y <= upper_y_bound
            invariant
                lower_y_bound <= y <= upper_y_bound + 1,
                mines_nearby == count_rect(
                    self@,
                    lower_y_bound as int,
                    y as int,
                    lower_x_bound as int,
                    upper_x_bound + 1,
                ),
                mines_nearby <= 9,
            decreases upper_y_bound + 1 - y,
        {
            let mut x: usize = lower_x_bound;
            while x <= upper_x_bound
                invariant
                    lower_y_bound <= y <= upper_y_bound,
                    lower_x_bound <= x <= upper_x_bound + 1,
                    mines_nearby == count_rect(
                        self@,
                        lower_y_bound as int,
                        y as int,
                        lower_x_bound as int,
                        upper_x_bound + 1,
                    ) + count_in_row(self@, y as int, lower_x_bound as int, x as int),
                    mines_nearby <= 9,
                decreases upper_x_bound + 1 - x,
            {
                proof {
                    lemma_count_rect_bound(
                        self@,
                        lower_y_bound as int,
                        y as int,
                        lower_x_bound as int,
                        upper_x_bound + 1,
                    );
                    lemma_count_in_row_bound(self@, y as int, lower_x_bound as int, x + 1);
                    assert((y - lower_y_bound) * (upper_x_bound + 1 - lower_x_bound) <= 6)
                        by (nonlinear_arith)
                        requires
                            0 <= y - lower_y_bound <= 2,
                            0 <= upper_x_bound + 1 - lower_x_bound <= 3,
                    ;
                }
                if vec_contains_pos(&self.mines, &Pos { row: y, col: x }) {
                    mines_nearby = mines_nearby + 1;
                }
                x = x + 1;
            }
            y = y + 1;
        }
        mines_nearby
    }

    /// Draw positions from `rng` until `count` unique mines have been
    /// collected, skipping any already chosen and any inside the exclusion
    /// zone of `exclude`. The column is drawn first, then the row, by
    /// sequential calls to the same generator. The retry loop is capped at
    /// `MAX_GENERATION_ATTEMPTS` draws so that a degenerate seed (a seed of
    /// 0 repeats one position forever) cannot hang the game; `ok` reports
    /// whether the full count was placed. The outcome is exactly the
    /// `generation` recurrence applied to the inputs.
    #[verifier::loop_isolation(false)]
    pub fn generate_mines(
        &mut self,
        exclude: &Pos,
        rng: &mut RandomSource,
        count: usize,
        height: usize,
        width: usize,
    ) -> (ok: bool)
        requires
            old(self)@.len() == 0,
            0 < height,
            0 < width,
        ensures
            final(self)@ == generation(
                old(self)@,
                old(rng).seed_spec(),
                *exclude,
                count,
                height,
                width,
                MAX_GENERATION_ATTEMPTS as nat,
            ).0,
            final(rng).seed_spec() == generation(
                old(self)@,
                old(rng).seed_spec(),
                *exclude,
                count,
                height,
                width,
                MAX_GENERATION_ATTEMPTS as nat,
            ).1,
            ok == (final(self)@.len() == count),
            final(self)@.len() <= count,
            forall|i: int|
                0 <= i < final(self)@.len() ==> in_bounds(
                    #[trigger] final(self)@[i],
                    height as int,
                    width as int,
                ),
            forall|i: int|
                0 <= i < final(self)@.len() ==> !near(*exclude, #[trigger] final(self)@[i]),
            forall|i: int, j: int|
                0 <= i < j < final(self)@.len() ==> final(self)@[i] != final(self)@[j],
    {
        let mut attempts: usize = 0;
        while attempts < MAX_GENERATION_ATTEMPTS && self.mines.len() < count
            invariant
                attempts <= MAX_GENERATION_ATTEMPTS,
                generation(
                    old(self)@,
                    old(rng).seed_spec(),
                    *exclude,
                    count,
                    height,
                    width,
                    MAX_GENERATION_ATTEMPTS as nat,
                ) == generation(
                    self.mines@,
                    rng.seed_spec(),
                    *exclude,
                    count,
                    height,
                    width,
                    (MAX_GENERATION_ATTEMPTS - attempts) as nat,
                ),
                self.mines@.len() <= count,
                forall|i: int|
                    0 <= i < self.mines@.len() ==> in_bounds(
                        #[trigger] self.mines@[i],
                        height as int,
                        width as int,
                    ),
                forall|i: int|
                    0 <= i < self.mines@.len() ==> !near(*exclude, #[trigger] self.mines@[i]),
                forall|i: int, j: int|
                    0 <= i < j < self.mines@.len() ==> self.mines@[i] != self.mines@[j],
            decreases MAX_GENERATION_ATTEMPTS - attempts,
        {
            let x: usize = rng.next() as usize % width;
            let y: usize = rng.next() as usize % height;
            let candidate = Pos { row: y, col: x };
            if cursor_too_close(exclude, &candidate) || vec_contains_pos(&self.mines, &candidate) {
                attempts = attempts + 1;
                continue;
            }
            self.mines.push(candidate);
            attempts = attempts + 1;
        }
        self.mines.len() == count
    }
}

} // verus!
