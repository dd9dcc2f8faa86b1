//! The board grid and the reveal engine: per-cell display states, flag
//! toggling, the flood-fill reveal of connected zero-count regions, and the
//! win query.

use vstd::prelude::*;
use crate::position::{Pos, in_bounds};
use crate::minefield::{
    MineField, has_pos, in_window, adj_count, lemma_adj_count_zero, lemma_mine_counts_itself,
    vec_contains_pos,
};
use vstd::set_lib::{lemma_int_range, lemma_len_subset, lemma_map_size, set_int_range};
use vstd::relations::injective_on;

verus! {

/// The display state of one cell. `Revealed(n)` carries the number of mines
/// in the cell's 8-neighborhood; 0 displays as blank.
#[derive(Clone, Copy, PartialEq, Eq, Structural, Debug)]
pub enum CellState {
    Hidden,
    Flagged,
    Revealed(u8),
    Exploded,
}

/// The position with the given coordinates; meaningful for `0 <= r`, `0 <= c`.
pub open spec fn pos_at(r: int, c: int) -> Pos {
    Pos { row: r as usize, col: c as usize }
}

/// The neighbor-mine count of the cell `(r, c)`.
pub open spec fn adj_at(m: Seq<Pos>, r: int, c: int, h: int, w: int) -> nat {
    adj_count(m, pos_at(r, c), h, w)
}

/// The state that reveals `(r, c)`: `Revealed` with its true count.
pub open spec fn revealed_at(m: Seq<Pos>, r: int, c: int, h: int, w: int) -> CellState {
    CellState::Revealed(adj_at(m, r, c, h, w) as u8)
}

/// What flagging does to one cell: Hidden and Flagged swap, anything else is
/// untouched.
pub open spec fn toggled(s: CellState) -> CellState {
    match s {
        CellState::Hidden => CellState::Flagged,
        CellState::Flagged => CellState::Hidden,
        _ => s,
    }
}

/// Toggling a flag twice restores any cell state; in particular a Hidden
/// cell comes back Hidden.
pub proof fn lemma_flag_toggle_involution(s: CellState)
    ensures
        toggled(toggled(s)) == s,
{
}

/// A fixed-size rectangular grid of cell states.
pub struct Board {
    height: usize,
    width: usize,
    cells: Vec<CellState>,
}

/// A reveal of a mined cell: every mine-carrying cell is now Exploded and
/// every other cell keeps its prior state.
pub open spec fn explode_transition(pre: Board, post: Board, m: Seq<Pos>) -> bool {
    &&& post.wf()
    &&& post.rows() == pre.rows()
    &&& post.cols() == pre.cols()
    &&& forall|r: int, c: int|
        0 <= r < pre.rows() && 0 <= c < pre.cols() ==> #[trigger] post.cell(r, c) == (if has_pos(
            m,
            r,
            c,
        ) {
            CellState::Exploded
        } else {
            pre.cell(r, c)
        })
}

/// Every in-bounds cell of the 3x3 window around the origin has a positive
/// neighbor-mine count: the reveal has nowhere to expand.
pub open spec fn isolated_origin(m: Seq<Pos>, org: Pos, h: int, w: int) -> bool {
    forall|r: int, c: int|
        0 <= r < h && 0 <= c < w && #[trigger] in_window(org, r, c) ==> adj_at(m, r, c, h, w) > 0
}

/// A cell changed by a reveal is reachable from it: it is the origin itself,
/// a zero-count cell of the origin's window, or lies in the window of some
/// other cell now revealed as zero.
pub open spec fn newly_revealed_reached(
    pre: Board,
    post: Board,
    m: Seq<Pos>,
    org: Pos,
    r: int,
    c: int,
) -> bool {
    ||| (r == org.row as int && c == org.col as int)
    ||| (in_window(org, r, c) && adj_at(m, r, c, pre.rows(), pre.cols()) == 0)
    ||| exists|r2: int, c2: int|
        0 <= r2 < pre.rows() && 0 <= c2 < pre.cols() && !(r2 == r && c2 == c) && #[trigger] in_window(
            pos_at(r2, c2),
            r,
            c,
        ) && adj_at(m, r2, c2, pre.rows(), pre.cols()) == 0 && post.cell(r2, c2)
            == CellState::Revealed(0u8)
}

/// Every in-bounds cell of the window around `(r, c)` stands revealed with
/// its true count.
pub open spec fn window_revealed(post: Board, m: Seq<Pos>, r: int, c: int) -> bool {
    forall|r2: int, c2: int|
        0 <= r2 < post.rows() && 0 <= c2 < post.cols() && in_window(pos_at(r, c), r2, c2)
            ==> #[trigger] post.cell(r2, c2) == revealed_at(m, r2, c2, post.rows(), post.cols())
}

/// A reveal of an unmined origin cell:
/// - the origin stands revealed with its true count;
/// - every cell either keeps its prior state or stands revealed with its
///   true count (never a wrong number, never Exploded);
/// - mined cells keep their prior state;
/// - every changed cell is reachable from the reveal;
/// - around every changed zero-count cell the whole window stands revealed:
///   a zero region expands to its numbered border;
/// - when the origin's window has no zero-count cell, only the origin
///   changes: revealing a numbered cell directly reveals that cell alone.
pub open spec fn reveal_transition(pre: Board, post: Board, m: Seq<Pos>, org: Pos) -> bool {
    let h = pre.rows();
    let w = pre.cols();
    &&& post.wf()
    &&& post.rows() == h
    &&& post.cols() == w
    &&& post.cell(org.row as int, org.col as int) == revealed_at(
        m,
        org.row as int,
        org.col as int,
        h,
        w,
    )
    &&& forall|r: int, c: int|
        0 <= r < h && 0 <= c < w ==> (#[trigger] post.cell(r, c) == pre.cell(r, c) || post.cell(
            r,
            c,
        ) == revealed_at(m, r, c, h, w))
    &&& forall|r: int, c: int|
        0 <= r < h && 0 <= c < w && has_pos(m, r, c) ==> #[trigger] post.cell(r, c) == pre.cell(
            r,
            c,
        )
    &&& forall|r: int, c: int|
        0 <= r < h && 0 <= c < w && #[trigger] post.cell(r, c) != pre.cell(r, c)
            ==> newly_revealed_reached(pre, post, m, org, r, c)
    &&& forall|r: int, c: int|
        0 <= r < h && 0 <= c < w && #[trigger] post.cell(r, c) != pre.cell(r, c) && adj_at(
            m,
            r,
            c,
            h,
            w,
        ) == 0 ==> window_revealed(post, m, r, c)
    &&& (isolated_origin(m, org, h, w) ==> forall|r: int, c: int|
        0 <= r < h && 0 <= c < w && !(r == org.row as int && c == org.col as int)
            ==> #[trigger] post.cell(r, c) == pre.cell(r, c))
}

/// All non-mine cells stand revealed and no cell is Exploded.
pub open spec fn won_spec(b: Board, m: Seq<Pos>) -> bool {
    forall|r: int, c: int|
        0 <= r < b.rows() && 0 <= c < b.cols() ==> (!has_pos(m, r, c) ==> #[trigger] b.cell(r, c)
            is Revealed) && b.cell(r, c) != CellState::Exploded
}

proof fn lemma_grid_index(h: int, w: int, r: int, c: int)
    requires
        0 <= r < h,
        0 <= c < w,
    ensures
        0 <= r * w + c < h * w,
{
    assert(0 <= r * w + c < h * w) by (nonlinear_arith)
        requires
            0 <= r < h,
            0 <= c < w,
    ;
}

proof fn lemma_grid_index_inj(w: int, r1: int, c1: int, r2: int, c2: int)
    requires
        0 <= c1 < w,
        0 <= c2 < w,
        0 <= r1,
        0 <= r2,
        r1 * w + c1 == r2 * w + c2,
    ensures
        r1 == r2 && c1 == c2,
{
    assert(r1 == r2 && c1 == c2) by (nonlinear_arith)
        requires
            0 <= c1 < w,
            0 <= c2 < w,
            0 <= r1,
            0 <= r2,
            r1 * w + c1 == r2 * w + c2,
    ;
}

/// A duplicate-free sequence of positions inside an `h` by `w` grid holds at
/// most `h * w` elements.
pub proof fn lemma_unique_in_bounds_len(s: Seq<Pos>, h: int, w: int)
    requires
        0 < h,
        0 < w,
        forall|i: int| 0 <= i < s.len() ==> in_bounds(#[trigger] s[i], h, w),
        forall|i: int, j: int| 0 <= i < j < s.len() ==> s[i] != s[j],
    ensures
        s.len() <= h * w,
{
    broadcast use vstd::seq_lib::seq_to_set_is_finite;
    broadcast use vstd::set::group_set_axioms;

    assert(s.no_duplicates()) by {
        assert forall|i: int, j: int| 0 <= i < s.len() && 0 <= j < s.len() && i != j implies s[i]
            != s[j] by {
            if i < j {
            } else {
                assert(s[j] != s[i]);
            }
        }
    }
    s.unique_seq_to_set();
    let f = |p: Pos| p.row * w + p.col;
    let x = s.to_set();
    let y = x.map(f);
    assert(injective_on(f, x)) by {
        assert forall|p1: Pos, p2: Pos|
            #![trigger x.contains(p1), x.contains(p2)]
            x.contains(p1) && x.contains(p2) && f(p1) == f(p2) implies p1 == p2 by {
            lemma_grid_index_inj(w, p1.row as int, p1.col as int, p2.row as int, p2.col as int);
        }
    }
    lemma_map_size(x, y, f);
    lemma_int_range(0, h * w);
    assert(y.subset_of(set_int_range(0, h * w))) by {
        assert forall|i: int| y.contains(i) implies set_int_range(0, h * w).contains(i) by {
            let p = choose|p: Pos| x.contains(p) && f(p) == i;
            lemma_grid_index(h, w, p.row as int, p.col as int);
        }
    }
    lemma_len_subset(y, set_int_range(0, h * w));
}

impl Board {
    /// The number of rows.
    pub closed spec fn rows(self) -> int {
        self.height as int
    }

    /// The number of columns.
    pub closed spec fn cols(self) -> int {
        self.width as int
    }

    /// The state of the cell at `(r, c)`.
    pub closed spec fn cell(self, r: int, c: int) -> CellState {
        self.cells@[r * self.width + c]
    }

    /// The grid holds exactly one state per position and is not degenerate.
    pub closed spec fn wf(self) -> bool {
        &&& self.cells@.len() == self.height * self.width
        &&& self.height * self.width <= usize::MAX
        &&& 1 <= self.height
        &&& 1 <= self.width
    }

    /// `(r, c)` lies on this board.
    pub open spec fn in_grid(self, r: int, c: int) -> bool {
        0 <= r < self.rows() && 0 <= c < self.cols()
    }

    /// Every cell is Hidden.
    pub open spec fn all_hidden(self) -> bool {
        forall|r: int, c: int| self.in_grid(r, c) ==> #[trigger] self.cell(r, c) == CellState::Hidden
    }

    /// A fresh board: all cells Hidden.
    pub fn new(height: usize, width: usize) -> (b: Board)
        requires
            1 <= height,
            1 <= width,
            height * width <= usize::MAX,
        ensures
            b.wf(),
            b.rows() == height,
            b.cols() == width,
            b.all_hidden(),
    {
        proof {
            assert(height * width <= usize::MAX);
        }
        let total: usize = height * width;
        let mut cells: Vec<CellState> = Vec::new();
        while cells.len() < total
            invariant
                cells@.len() <= total,
                forall|i: int| 0 <= i < cells@.len() ==> cells@[i] == CellState::Hidden,
            decreases total - cells@.len(),
        {
            cells.push(CellState::Hidden);
        }
        let b = Board { height, width, cells };
        proof {
            assert forall|r: int, c: int| b.in_grid(r, c) implies #[trigger] b.cell(r, c)
                == CellState::Hidden by {
                lemma_grid_index(height as int, width as int, r, c);
            }
        }
        b
    }

    /// The board height.
    pub fn height(&self) -> (h: usize)
        ensures
            h == self.rows(),
    {
        self.height
    }

    /// The board width.
    pub fn width(&self) -> (w: usize)
        ensures
            w == self.cols(),
    {
        self.width
    }

    /// Read one cell.
    pub fn cell_at(&self, row: usize, col: usize) -> (s: CellState)
        requires
            self.wf(),
            self.in_grid(row as int, col as int),
        ensures
            s == self.cell(row as int, col as int),
    {
        proof {
            lemma_grid_index(self.rows(), self.cols(), row as int, col as int);
        }
        self.cells[row * self.width + col]
    }

    /// Write one cell, leaving every other cell as it was.
    fn set_cell(&mut self, p: Pos, v: CellState)
        requires
            old(self).wf(),
            old(self).in_grid(p.row as int, p.col as int),
        ensures
            final(self).wf(),
            final(self).rows() == old(self).rows(),
            final(self).cols() == old(self).cols(),
            final(self).cell(p.row as int, p.col as int) == v,
            forall|r: int, c: int|
                old(self).in_grid(r, c) && !(r == p.row as int && c == p.col as int)
                    ==> #[trigger] final(self).cell(r, c) == old(self).cell(r, c),
    {
        proof {
            lemma_grid_index(self.rows(), self.cols(), p.row as int, p.col as int);
        }
        let idx: usize = p.row * self.width + p.col;
        self.cells[idx] = v;
        proof {
            assert forall|r: int, c: int|
                old(self).in_grid(r, c) && !(r == p.row as int && c == p.col as int)
                    implies #[trigger] self.cell(r, c) == old(self).cell(r, c) by {
                lemma_grid_index(self.rows(), self.cols(), r, c);
                if r * self.cols() + c == idx {
                    lemma_grid_index_inj(self.cols(), r, c, p.row as int, p.col as int);
                }
            }
        }
    }

    /// Toggle the flag at `p`: Hidden becomes Flagged, Flagged becomes
    /// Hidden, a revealed or exploded cell is untouched. No other cell
    /// changes.
    pub fn flag_toggle(&mut self, p: &Pos)
        requires
            old(self).wf(),
            old(self).in_grid(p.row as int, p.col as int),
        ensures
            final(self).wf(),
            final(self).rows() == old(self).rows(),
            final(self).cols() == old(self).cols(),
            final(self).cell(p.row as int, p.col as int) == toggled(
                old(self).cell(p.row as int, p.col as int),
            ),
            forall|r: int, c: int|
                old(self).in_grid(r, c) && !(r == p.row as int && c == p.col as int)
                    ==> #[trigger] final(self).cell(r, c) == old(self).cell(r, c),
    {
        let cur = self.cell_at(p.row, p.col);
        if matches!(cur, CellState::Hidden) {
            self.set_cell(*p, CellState::Flagged);
        } else if matches!(cur, CellState::Flagged) {
            self.set_cell(*p, CellState::Hidden);
        }
    }

    /// Whether the game is won: all non-mine cells Revealed and no cell
    /// Exploded.
    #[verifier::loop_isolation(false)]
    pub fn is_won(&self, mines: &MineField) -> (r: bool)
        requires
            self.wf(),
        ensures
            r == won_spec(*self, mines@),
    {
        let mut row: usize = 0;
        while row < self.height
            invariant
                row <= self.height,
                forall|r: int, c: int|
                    0 <= r < row && 0 <= c < self.cols() ==> (!has_pos(mines@, r, c)
                        ==> #[trigger] self.cell(r, c) is Revealed) && self.cell(r, c)
                        != CellState::Exploded,
            decreases self.height - row,
        {
            let mut col: usize = 0;
            while col < self.width
                invariant
                    row < self.height,
                    col <= self.width,
                    forall|r: int, c: int|
                        0 <= r < row && 0 <= c < self.cols() ==> (!has_pos(mines@, r, c)
                            ==> #[trigger] self.cell(r, c) is Revealed) && self.cell(r, c)
                            != CellState::Exploded,
                    forall|c: int|
                        0 <= c < col ==> (!has_pos(mines@, row as int, c)
                            ==> #[trigger] self.cell(row as int, c) is Revealed) && self.cell(
                            row as int,
                            c,
                        ) != CellState::Exploded,
                decreases self.width - col,
            {
                let cell = self.cell_at(row, col);
                if matches!(cell, CellState::Exploded) {
                    return false;
                }
                let mined = mines.contains(&Pos { row, col });
                if !mined && !matches!(cell, CellState::Revealed(_)) {
                    return false;
                }
                col = col + 1;
            }
            row = row + 1;
        }
        true
    }
}


/// A seed candidate: an in-bounds cell of the origin's window whose
/// neighbor-mine count is zero.
spec fn seed_ok(p: Pos, org: Pos, m: Seq<Pos>, h: int, w: int) -> bool {
    &&& in_bounds(p, h, w)
    &&& in_window(org, p.row as int, p.col as int)
    &&& adj_count(m, p, h, w) == 0
}

/// What holds of every enqueued position: in bounds, not a mine, and
/// justified as the origin, a zero-count cell of the origin's window, or a
/// cell of some processed zero-count cell's window.
spec fn q_elem_ok(p: Pos, org: Pos, m: Seq<Pos>, processed: Seq<Pos>, h: int, w: int) -> bool {
    &&& in_bounds(p, h, w)
    &&& !has_pos(m, p.row as int, p.col as int)
    &&& {
        ||| p == org
        ||| (in_window(org, p.row as int, p.col as int) && adj_count(m, p, h, w) == 0)
        ||| exists|k: int|
            0 <= k < processed.len() && adj_count(m, #[trigger] processed[k], h, w) == 0
                && in_window(processed[k], p.row as int, p.col as int)
    }
}

/// As `q_elem_ok` for a processed position, but the justifying zero-count
/// cell is a different processed cell.
spec fn proc_elem_ok(q: Pos, org: Pos, m: Seq<Pos>, processed: Seq<Pos>, h: int, w: int) -> bool {
    &&& in_bounds(q, h, w)
    &&& !has_pos(m, q.row as int, q.col as int)
    &&& {
        ||| q == org
        ||| (in_window(org, q.row as int, q.col as int) && adj_count(m, q, h, w) == 0)
        ||| exists|k: int|
            0 <= k < processed.len() && adj_count(m, #[trigger] processed[k], h, w) == 0
                && processed[k] != q && in_window(processed[k], q.row as int, q.col as int)
    }
}

/// Every in-bounds cell of the window around `center` is processed or
/// enqueued.
spec fn window_covered(center: Pos, processed: Seq<Pos>, queue: Seq<Pos>, h: int, w: int) -> bool {
    forall|r: int, c: int|
        0 <= r < h && 0 <= c < w && #[trigger] in_window(center, r, c) ==> has_pos(processed, r, c)
            || has_pos(queue, r, c)
}

/// The popped prefix of the queue is processed.
spec fn popped_done(queue: Seq<Pos>, qi: int, processed: Seq<Pos>) -> bool {
    forall|t: int|
        0 <= t < qi ==> has_pos(processed, (#[trigger] queue[t]).row as int, queue[t].col as int)
}

/// The flood fill's invariant, relating the board `pre` before the reveal, the
/// current board `b`, the processed positions and the work queue with its
/// next index `qi`. The window-coverage clause is asserted for the first
/// `wcov` processed positions only, so that a zero-count cell may stand
/// processed while its window is still being enqueued.
spec fn flood_inv(
    pre: Board,
    b: Board,
    m: Seq<Pos>,
    org: Pos,
    processed: Seq<Pos>,
    queue: Seq<Pos>,
    qi: int,
    wcov: int,
) -> bool {
    let h = pre.rows();
    let w = pre.cols();
    &&& pre.wf()
    &&& in_bounds(org, h, w)
    &&& !has_pos(m, org.row as int, org.col as int)
    &&& b.wf()
    &&& b.rows() == h
    &&& b.cols() == w
    &&& 0 <= qi <= queue.len()
    &&& forall|t: int|
        0 <= t < queue.len() ==> q_elem_ok(#[trigger] queue[t], org, m, processed, h, w)
    &&& popped_done(queue, qi, processed)
    &&& forall|j: int|
        0 <= j < processed.len() ==> proc_elem_ok(#[trigger] processed[j], org, m, processed, h, w)
    &&& forall|i: int, j: int| 0 <= i < j < processed.len() ==> processed[i] != processed[j]
    &&& processed.len() <= h * w
    &&& forall|r: int, c: int|
        0 <= r < h && 0 <= c < w && !has_pos(processed, r, c) ==> #[trigger] b.cell(r, c)
            == pre.cell(r, c)
    &&& forall|r: int, c: int|
        0 <= r < h && 0 <= c < w && has_pos(processed, r, c) ==> #[trigger] b.cell(r, c)
            == revealed_at(m, r, c, h, w)
    &&& forall|j: int|
        0 <= j < wcov && j < processed.len() && adj_count(m, #[trigger] processed[j], h, w) == 0
            ==> window_covered(processed[j], processed, queue, h, w)
    &&& (has_pos(processed, org.row as int, org.col as int) || has_pos(
        queue,
        org.row as int,
        org.col as int,
    ))
    &&& (isolated_origin(m, org, h, w) ==> ((forall|t: int|
        0 <= t < queue.len() ==> (#[trigger] queue[t]) == org) && (forall|j: int|
        0 <= j < processed.len() ==> (#[trigger] processed[j]) == org)))
}

proof fn lemma_has_pos_push(s: Seq<Pos>, x: Pos, r: int, c: int)
    requires
        has_pos(s, r, c),
    ensures
        has_pos(s.push(x), r, c),
{
    let i = choose|i: int| 0 <= i < s.len() && s[i].row == r && s[i].col == c;
    assert(s.push(x)[i] == s[i]);
}

proof fn lemma_q_elem_ok_push(
    p: Pos,
    org: Pos,
    m: Seq<Pos>,
    processed: Seq<Pos>,
    x: Pos,
    h: int,
    w: int,
)
    requires
        q_elem_ok(p, org, m, processed, h, w),
    ensures
        q_elem_ok(p, org, m, processed.push(x), h, w),
{
    if exists|k: int|
        0 <= k < processed.len() && adj_count(m, #[trigger] processed[k], h, w) == 0 && in_window(
            processed[k],
            p.row as int,
            p.col as int,
        ) {
        let k = choose|k: int|
            0 <= k < processed.len() && adj_count(m, #[trigger] processed[k], h, w) == 0
                && in_window(processed[k], p.row as int, p.col as int);
        assert(processed.push(x)[k] == processed[k]);
        assert(adj_count(m, processed.push(x)[k], h, w) == 0);
    }
}

proof fn lemma_proc_elem_ok_push(
    q: Pos,
    org: Pos,
    m: Seq<Pos>,
    processed: Seq<Pos>,
    x: Pos,
    h: int,
    w: int,
)
    requires
        proc_elem_ok(q, org, m, processed, h, w),
    ensures
        proc_elem_ok(q, org, m, processed.push(x), h, w),
{
    if exists|k: int|
        0 <= k < processed.len() && adj_count(m, #[trigger] processed[k], h, w) == 0
            && processed[k] != q && in_window(processed[k], q.row as int, q.col as int) {
        let k = choose|k: int|
            0 <= k < processed.len() && adj_count(m, #[trigger] processed[k], h, w) == 0
                && processed[k] != q && in_window(processed[k], q.row as int, q.col as int);
        assert(processed.push(x)[k] == processed[k]);
        assert(adj_count(m, processed.push(x)[k], h, w) == 0);
    }
}

proof fn lemma_window_covered_qpush(
    center: Pos,
    processed: Seq<Pos>,
    queue: Seq<Pos>,
    x: Pos,
    h: int,
    w: int,
)
    requires
        window_covered(center, processed, queue, h, w),
    ensures
        window_covered(center, processed, queue.push(x), h, w),
{
    assert forall|r: int, c: int|
        0 <= r < h && 0 <= c < w && #[trigger] in_window(center, r, c) implies has_pos(
        processed,
        r,
        c,
    ) || has_pos(queue.push(x), r, c) by {
        if !has_pos(processed, r, c) {
            lemma_has_pos_push(queue, x, r, c);
        }
    }
}

proof fn lemma_window_covered_ppush(
    center: Pos,
    processed: Seq<Pos>,
    queue: Seq<Pos>,
    x: Pos,
    h: int,
    w: int,
)
    requires
        window_covered(center, processed, queue, h, w),
    ensures
        window_covered(center, processed.push(x), queue, h, w),
{
    assert forall|r: int, c: int|
        0 <= r < h && 0 <= c < w && #[trigger] in_window(center, r, c) implies has_pos(
        processed.push(x),
        r,
        c,
    ) || has_pos(queue, r, c) by {
        if has_pos(processed, r, c) {
            lemma_has_pos_push(processed, x, r, c);
        }
    }
}

/// Popping an already-processed position keeps the invariant.
proof fn lemma_skip_step(
    pre: Board,
    b: Board,
    m: Seq<Pos>,
    org: Pos,
    processed: Seq<Pos>,
    queue: Seq<Pos>,
    qi: int,
)
    requires
        flood_inv(pre, b, m, org, processed, queue, qi, processed.len() as int),
        qi < queue.len(),
        has_pos(processed, queue[qi].row as int, queue[qi].col as int),
    ensures
        flood_inv(pre, b, m, org, processed, queue, qi + 1, processed.len() as int),
{
    assert forall|t: int| 0 <= t < qi + 1 implies has_pos(
        processed,
        (#[trigger] queue[t]).row as int,
        queue[t].col as int,
    ) by {}
}

/// Processing a fresh position: its cell now shows its true count and it
/// joins the processed set. The window-coverage clause spares the new
/// element until its window is enqueued; for a positive count it holds
/// vacuously.
proof fn lemma_process_step(
    pre: Board,
    b1: Board,
    b2: Board,
    m: Seq<Pos>,
    org: Pos,
    processed0: Seq<Pos>,
    queue: Seq<Pos>,
    qi: int,
    pos: Pos,
)
    requires
        flood_inv(pre, b1, m, org, processed0, queue, qi, processed0.len() as int),
        qi < queue.len(),
        pos == queue[qi],
        !has_pos(processed0, pos.row as int, pos.col as int),
        b2.wf(),
        b2.rows() == pre.rows(),
        b2.cols() == pre.cols(),
        b2.cell(pos.row as int, pos.col as int) == revealed_at(
            m,
            pos.row as int,
            pos.col as int,
            pre.rows(),
            pre.cols(),
        ),
        forall|r: int, c: int|
            0 <= r < pre.rows() && 0 <= c < pre.cols() && !(r == pos.row as int && c
                == pos.col as int) ==> #[trigger] b2.cell(r, c) == b1.cell(r, c),
    ensures
        flood_inv(
            pre,
            b2,
            m,
            org,
            processed0.push(pos),
            queue,
            qi + 1,
            processed0.len() as int,
        ),
        adj_count(m, pos, pre.rows(), pre.cols()) != 0 ==> flood_inv(
            pre,
            b2,
            m,
            org,
            processed0.push(pos),
            queue,
            qi + 1,
            processed0.len() + 1 as int,
        ),
        isolated_origin(m, org, pre.rows(), pre.cols()) ==> pos == org,
        processed0.push(pos).len() <= pre.rows() * pre.cols(),
{
    let h = pre.rows();
    let w = pre.cols();
    let processed = processed0.push(pos);
    assert(q_elem_ok(pos, org, m, processed0, h, w));
    assert(processed[processed.len() - 1] == pos);
    assert(pos_at(pos.row as int, pos.col as int) == pos);
    assert forall|i2: int, j2: int| 0 <= i2 < j2 < processed.len() implies processed[i2]
        != processed[j2] by {
        if j2 == processed.len() - 1 {
            if processed[i2] == pos {
                assert(processed0[i2].row == pos.row as int && processed0[i2].col
                    == pos.col as int);
            }
        }
    }
    assert forall|i: int| 0 <= i < processed.len() implies in_bounds(
        #[trigger] processed[i],
        h,
        w,
    ) by {
        if i < processed0.len() {
            assert(proc_elem_ok(processed0[i], org, m, processed0, h, w));
        }
    }
    lemma_unique_in_bounds_len(processed, h, w);
    assert forall|t: int| 0 <= t < queue.len() implies q_elem_ok(
        #[trigger] queue[t],
        org,
        m,
        processed,
        h,
        w,
    ) by {
        lemma_q_elem_ok_push(queue[t], org, m, processed0, pos, h, w);
    }
    assert forall|j: int| 0 <= j < processed.len() implies proc_elem_ok(
        #[trigger] processed[j],
        org,
        m,
        processed,
        h,
        w,
    ) by {
        if j < processed0.len() {
            lemma_proc_elem_ok_push(processed0[j], org, m, processed0, pos, h, w);
        } else {
            assert(processed[j] == pos);
            if exists|k: int|
                0 <= k < processed0.len() && adj_count(m, #[trigger] processed0[k], h, w) == 0
                    && in_window(processed0[k], pos.row as int, pos.col as int) {
                let k = choose|k: int|
                    0 <= k < processed0.len() && adj_count(m, #[trigger] processed0[k], h, w) == 0
                        && in_window(processed0[k], pos.row as int, pos.col as int);
                assert(processed[k] == processed0[k]);
                assert(processed0[k] != pos) by {
                    if processed0[k] == pos {
                        assert(has_pos(processed0, pos.row as int, pos.col as int));
                    }
                }
            }
        }
    }
    assert forall|t: int| 0 <= t < qi + 1 implies has_pos(
        processed,
        (#[trigger] queue[t]).row as int,
        queue[t].col as int,
    ) by {
        if t == qi {
            assert(processed[processed.len() - 1] == pos);
        } else {
            lemma_has_pos_push(processed0, pos, queue[t].row as int, queue[t].col as int);
        }
    }
    assert forall|r: int, c: int|
        0 <= r < h && 0 <= c < w && !has_pos(processed, r, c) implies #[trigger] b2.cell(r, c)
        == pre.cell(r, c) by {
        if has_pos(processed0, r, c) {
            lemma_has_pos_push(processed0, pos, r, c);
        }
        assert(!(r == pos.row as int && c == pos.col as int));
    }
    assert forall|r: int, c: int|
        0 <= r < h && 0 <= c < w && has_pos(processed, r, c) implies #[trigger] b2.cell(r, c)
        == revealed_at(m, r, c, h, w) by {
        if r == pos.row as int && c == pos.col as int {
        } else {
            let k = choose|k: int|
                0 <= k < processed.len() && processed[k].row == r && processed[k].col == c;
            assert(k < processed0.len());
            assert(has_pos(processed0, r, c));
        }
    }
    assert forall|j: int|
        0 <= j < processed0.len() && adj_count(m, #[trigger] processed[j], h, w) == 0 implies
    window_covered(processed[j], processed, queue, h, w) by {
        assert(processed[j] == processed0[j]);
        lemma_window_covered_ppush(processed0[j], processed0, queue, pos, h, w);
    }
    if has_pos(processed0, org.row as int, org.col as int) {
        lemma_has_pos_push(processed0, pos, org.row as int, org.col as int);
    }
    if isolated_origin(m, org, h, w) {
        assert(queue[qi] == org);
        assert forall|j: int| 0 <= j < processed.len() implies (#[trigger] processed[j])
            == org by {
            if j < processed0.len() {
            }
        }
    }
}

/// Pushing a window cell of the freshly processed zero-count position keeps
/// the invariant.
proof fn lemma_enqueue_push(
    pre: Board,
    b: Board,
    m: Seq<Pos>,
    org: Pos,
    processed: Seq<Pos>,
    queue0: Seq<Pos>,
    qi: int,
    newp: Pos,
)
    requires
        flood_inv(pre, b, m, org, processed, queue0, qi, processed.len() - 1),
        processed.len() >= 1,
        adj_count(m, processed[processed.len() - 1], pre.rows(), pre.cols()) == 0,
        in_bounds(newp, pre.rows(), pre.cols()),
        in_window(processed[processed.len() - 1], newp.row as int, newp.col as int),
        !isolated_origin(m, org, pre.rows(), pre.cols()),
    ensures
        flood_inv(pre, b, m, org, processed, queue0.push(newp), qi, processed.len() - 1),
        forall|r: int, c: int| has_pos(queue0, r, c) ==> has_pos(queue0.push(newp), r, c),
        has_pos(queue0.push(newp), newp.row as int, newp.col as int),
{
    let h = pre.rows();
    let w = pre.cols();
    let queue = queue0.push(newp);
    let last = processed[processed.len() - 1];
    assert(proc_elem_ok(last, org, m, processed, h, w));
    lemma_adj_count_zero(m, last, h, w);
    assert(queue[queue.len() - 1] == newp);
    assert(q_elem_ok(newp, org, m, processed, h, w)) by {
        assert(!has_pos(m, newp.row as int, newp.col as int));
        let kk = processed.len() - 1;
        assert(adj_count(m, processed[kk], h, w) == 0);
        assert(in_window(processed[kk], newp.row as int, newp.col as int));
    }
    assert forall|t: int| 0 <= t < queue.len() implies q_elem_ok(
        #[trigger] queue[t],
        org,
        m,
        processed,
        h,
        w,
    ) by {
        if t < queue0.len() {
            assert(queue[t] == queue0[t]);
        }
    }
    assert forall|t: int| 0 <= t < qi implies has_pos(
        processed,
        (#[trigger] queue[t]).row as int,
        queue[t].col as int,
    ) by {
        assert(queue[t] == queue0[t]);
    }
    assert forall|j: int|
        0 <= j < processed.len() - 1 && adj_count(m, #[trigger] processed[j], h, w) == 0 implies
    window_covered(processed[j], processed, queue, h, w) by {
        lemma_window_covered_qpush(processed[j], processed, queue0, newp, h, w);
    }
    if !has_pos(processed, org.row as int, org.col as int) {
        lemma_has_pos_push(queue0, newp, org.row as int, org.col as int);
    }
    assert forall|r: int, c: int| has_pos(queue0, r, c) implies has_pos(queue, r, c) by {
        lemma_has_pos_push(queue0, newp, r, c);
    }
    assert(has_pos(queue, newp.row as int, newp.col as int)) by {
        assert(queue[queue.len() - 1] == newp);
    }
}

/// Once the whole window of the freshly processed zero-count cell is
/// enqueued, the full invariant holds again.
proof fn lemma_window_complete(
    pre: Board,
    b: Board,
    m: Seq<Pos>,
    org: Pos,
    processed: Seq<Pos>,
    queue: Seq<Pos>,
    qi: int,
)
    requires
        flood_inv(pre, b, m, org, processed, queue, qi, processed.len() - 1),
        processed.len() >= 1,
        forall|r: int, c: int|
            0 <= r < pre.rows() && 0 <= c < pre.cols() && #[trigger] in_window(
                processed[processed.len() - 1],
                r,
                c,
            ) ==> has_pos(queue, r, c),
    ensures
        flood_inv(pre, b, m, org, processed, queue, qi, processed.len() as int),
{
    let h = pre.rows();
    let w = pre.cols();
    assert forall|j: int|
        0 <= j < processed.len() && adj_count(m, #[trigger] processed[j], h, w) == 0 implies
    window_covered(processed[j], processed, queue, h, w) by {
        if j == processed.len() - 1 {
            assert forall|r: int, c: int|
                0 <= r < h && 0 <= c < w && #[trigger] in_window(processed[j], r, c) implies
            has_pos(processed, r, c) || has_pos(queue, r, c) by {}
        }
    }
}

/// At loop exit the queue is drained, so the invariant yields the reveal
/// transition relation.
#[verifier::rlimit(60)]
proof fn lemma_flood_done(
    pre: Board,
    post: Board,
    m: Seq<Pos>,
    org: Pos,
    processed: Seq<Pos>,
    queue: Seq<Pos>,
)
    requires
        flood_inv(pre, post, m, org, processed, queue, queue.len() as int, processed.len() as int),
    ensures
        reveal_transition(pre, post, m, org),
{
    let h = pre.rows();
    let w = pre.cols();
    assert(has_pos(processed, org.row as int, org.col as int)) by {
        if !has_pos(processed, org.row as int, org.col as int) {
            let t = choose|t: int|
                0 <= t < queue.len() && queue[t].row == org.row as int && queue[t].col
                    == org.col as int;
            assert(has_pos(processed, (queue[t]).row as int, queue[t].col as int));
        }
    }
    assert(post.cell(org.row as int, org.col as int) == revealed_at(
        m,
        org.row as int,
        org.col as int,
        h,
        w,
    ));
    assert forall|r: int, c: int|
        0 <= r < h && 0 <= c < w && has_pos(m, r, c) implies #[trigger] post.cell(r, c)
        == pre.cell(r, c) by {
        if has_pos(processed, r, c) {
            let j = choose|j: int|
                0 <= j < processed.len() && processed[j].row == r && processed[j].col == c;
            assert(proc_elem_ok(processed[j], org, m, processed, h, w));
            assert(!has_pos(m, r, c));
        }
    }
    assert forall|r: int, c: int|
        0 <= r < h && 0 <= c < w && #[trigger] post.cell(r, c) != pre.cell(r, c) implies
    newly_revealed_reached(pre, post, m, org, r, c) by {
        assert(has_pos(processed, r, c));
        let j = choose|j: int|
            0 <= j < processed.len() && processed[j].row == r && processed[j].col == c;
        let pj = processed[j];
        assert(proc_elem_ok(pj, org, m, processed, h, w));
        assert(pos_at(r, c) == pj);
        if pj == org {
            assert(r == org.row as int && c == org.col as int);
        } else if in_window(org, pj.row as int, pj.col as int) && adj_count(m, pj, h, w) == 0 {
            assert(adj_at(m, r, c, h, w) == 0);
        } else {
            let k = choose|k: int|
                0 <= k < processed.len() && adj_count(m, #[trigger] processed[k], h, w) == 0
                    && processed[k] != pj && in_window(processed[k], pj.row as int, pj.col as int);
            let pk = processed[k];
            let r2 = pk.row as int;
            let c2 = pk.col as int;
            assert(has_pos(processed, r2, c2)) by {
                assert(processed[k].row == r2 && processed[k].col == c2);
            }
            assert(pos_at(r2, c2) == pk);
            assert(!(r2 == r && c2 == c));
            assert(post.cell(r2, c2) == revealed_at(m, r2, c2, h, w));
            assert(adj_at(m, r2, c2, h, w) == 0);
            assert(post.cell(r2, c2) == CellState::Revealed(0u8));
            assert(in_window(pos_at(r2, c2), r, c));
        }
    }
    assert forall|r: int, c: int|
        0 <= r < h && 0 <= c < w && #[trigger] post.cell(r, c) != pre.cell(r, c) && adj_at(
            m,
            r,
            c,
            h,
            w,
        ) == 0 implies window_revealed(post, m, r, c) by {
        assert(has_pos(processed, r, c));
        let j = choose|j: int|
            0 <= j < processed.len() && processed[j].row == r && processed[j].col == c;
        let pj = processed[j];
        assert(pos_at(r, c) == pj);
        assert(adj_count(m, pj, h, w) == 0);
        assert(window_covered(pj, processed, queue, h, w));
        assert forall|r2: int, c2: int|
            0 <= r2 < post.rows() && 0 <= c2 < post.cols() && in_window(pos_at(r, c), r2, c2)
                implies #[trigger] post.cell(r2, c2) == revealed_at(
            m,
            r2,
            c2,
            post.rows(),
            post.cols(),
        ) by {
            assert(in_window(pj, r2, c2));
            if !has_pos(processed, r2, c2) {
                let t = choose|t: int|
                    0 <= t < queue.len() && queue[t].row == r2 && queue[t].col == c2;
                assert(has_pos(processed, (queue[t]).row as int, queue[t].col as int));
            }
        }
    }
    if isolated_origin(m, org, h, w) {
        assert forall|r: int, c: int|
            0 <= r < h && 0 <= c < w && !(r == org.row as int && c == org.col as int)
                implies #[trigger] post.cell(r, c) == pre.cell(r, c) by {
            if has_pos(processed, r, c) {
                let j = choose|j: int|
                    0 <= j < processed.len() && processed[j].row == r && processed[j].col == c;
                assert(processed[j] == org);
                assert(false);
            }
        }
    }
}

/// The loss branch's invariant: mines among the first `i` stand Exploded,
/// all else as before.
spec fn exploded_prefix(pre: Board, b: Board, m: Seq<Pos>, i: int) -> bool {
    forall|r: int, c: int|
        0 <= r < pre.rows() && 0 <= c < pre.cols() ==> #[trigger] b.cell(r, c) == (if has_pos(
            m.take(i),
            r,
            c,
        ) {
            CellState::Exploded
        } else {
            pre.cell(r, c)
        })
}

/// Marking the `i`-th mine Exploded extends the exploded prefix by one.
proof fn lemma_explode_step(pre: Board, b1: Board, b2: Board, m: Seq<Pos>, i: int)
    requires
        0 <= i < m.len(),
        exploded_prefix(pre, b1, m, i),
        in_bounds(m[i], pre.rows(), pre.cols()),
        b2.cell(m[i].row as int, m[i].col as int) == CellState::Exploded,
        forall|r: int, c: int|
            0 <= r < pre.rows() && 0 <= c < pre.cols() && !(r == m[i].row as int && c
                == m[i].col as int) ==> #[trigger] b2.cell(r, c) == b1.cell(r, c),
    ensures
        exploded_prefix(pre, b2, m, i + 1),
{
    let h = pre.rows();
    let w = pre.cols();
    assert forall|r: int, c: int| 0 <= r < h && 0 <= c < w implies #[trigger] b2.cell(r, c) == (
    if has_pos(m.take(i + 1), r, c) {
        CellState::Exploded
    } else {
        pre.cell(r, c)
    }) by {
        if r == m[i].row as int && c == m[i].col as int {
            assert(m.take(i + 1)[i] == m[i]);
            assert(has_pos(m.take(i + 1), r, c));
        } else {
            if has_pos(m.take(i), r, c) {
                let j = choose|j: int|
                    0 <= j < m.take(i).len() && m.take(i)[j].row == r && m.take(i)[j].col == c;
                assert(m.take(i + 1)[j] == m.take(i)[j]);
                assert(has_pos(m.take(i + 1), r, c));
            } else {
                if has_pos(m.take(i + 1), r, c) {
                    let j = choose|j: int|
                        0 <= j < m.take(i + 1).len() && (#[trigger] m.take(i + 1)[j]).row == r
                            && m.take(i + 1)[j].col == c;
                    assert(m.take(i + 1)[j] == m[j]);
                    assert(j == i);
                    assert(false);
                }
            }
        }
    }
}

impl Board {
    /// Reveal at the cursor against the given mines. On a mined cell, mark
    /// every mine Exploded and report the loss (`alive == false`). Otherwise
    /// run the flood fill: the cursor's cell and the zero-count cells of its
    /// window are seeded; each processed zero-count cell reveals and
    /// enqueues its whole window; every processed cell shows its true
    /// neighbor-mine count.
    #[verifier::loop_isolation(false)]
    #[verifier::rlimit(100)]
    #[verifier::spinoff_prover]
    pub fn explore(&mut self, mines: &MineField, cursor: &Pos) -> (alive: bool)
        requires
            old(self).wf(),
            old(self).in_grid(cursor.row as int, cursor.col as int),
            forall|i: int|
                0 <= i < mines@.len() ==> in_bounds(
                    #[trigger] mines@[i],
                    old(self).rows(),
                    old(self).cols(),
                ),
        ensures
            final(self).wf(),
            final(self).rows() == old(self).rows(),
            final(self).cols() == old(self).cols(),
            alive == !has_pos(mines@, cursor.row as int, cursor.col as int),
            !alive ==> explode_transition(*old(self), *final(self), mines@),
            alive ==> reveal_transition(*old(self), *final(self), mines@, *cursor),
    {
        let ghost pre = *self;
        let ghost m = mines@;
        let ghost org = *cursor;
        let ghost hh = pre.rows();
        let ghost ww = pre.cols();
        if mines.contains(cursor) {
            let mut i: usize = 0;
            while i < mines.len()
                invariant
                    self.wf(),
                    self.rows() == hh,
                    self.cols() == ww,
                    i <= m.len(),
                    exploded_prefix(pre, *self, m, i as int),
                decreases m.len() - i,
            {
                let ghost b1 = *self;
                let p = mines.get(i);
                self.set_cell(p, CellState::Exploded);
                proof {
                    lemma_explode_step(pre, b1, *self, m, i as int);
                }
                i = i + 1;
            }
            proof {
                assert(m.take(m.len() as int) =~= m);
            }
            return false;
        }
        let height = self.height;
        let width = self.width;
        let mut processed: Vec<Pos> = Vec::new();
        let mut queue: Vec<Pos> = Vec::new();
        let mut qi: usize = 0;
        queue.push(*cursor);
        let lower_y_bound: usize = if cursor.row == 0 { 0 } else { cursor.row - 1 };
        let upper_y_bound: usize = if cursor.row == height - 1 { height - 1 } else { cursor.row + 1 };
        let lower_x_bound: usize = if cursor.col == 0 { 0 } else { cursor.col - 1 };
        let upper_x_bound: usize = if cursor.col == width - 1 { width - 1 } else { cursor.col + 1 };
        let mut y: usize = lower_y_bound;
        while y <= upper_y_bound
            invariant
                lower_y_bound <= y <= upper_y_bound + 1,
                queue@.len() >= 1,
                queue@[0] == org,
                forall|t: int| 1 <= t < queue@.len() ==> seed_ok(#[trigger] queue@[t], org, m, hh, ww),
                isolated_origin(m, org, hh, ww) ==> queue@.len() == 1,
            decreases upper_y_bound + 1 - y,
        {
            let mut x: usize = lower_x_bound;
            while x <= upper_x_bound
                invariant
                    lower_y_bound <= y <= upper_y_bound,
                    lower_x_bound <= x <= upper_x_bound + 1,
                    queue@.len() >= 1,
                    queue@[0] == org,
                    forall|t: int|
                        1 <= t < queue@.len() ==> seed_ok(#[trigger] queue@[t], org, m, hh, ww),
                    isolated_origin(m, org, hh, ww) ==> queue@.len() == 1,
                decreases upper_x_bound + 1 - x,
            {
                let probe = Pos { row: y, col: x };
                if mines.get_mines_around(&probe, height, width) == 0 {
                    queue.push(probe);
                    proof {
                        if isolated_origin(m, org, hh, ww) {
                            assert(in_window(org, y as int, x as int));
                            assert(adj_at(m, y as int, x as int, hh, ww) > 0);
                            assert(pos_at(y as int, x as int) == probe);
                            assert(false);
                        }
                    }
                }
                x = x + 1;
            }
            y = y + 1;
        }
        proof {
            assert forall|t: int| 0 <= t < queue@.len() implies q_elem_ok(
                #[trigger] queue@[t],
                org,
                m,
                processed@,
                hh,
                ww,
            ) by {
                if t >= 1 {
                    if has_pos(m, queue@[t].row as int, queue@[t].col as int) {
                        lemma_mine_counts_itself(m, queue@[t], hh, ww);
                    }
                }
            }
            assert(has_pos(queue@, org.row as int, org.col as int)) by {
                assert(queue@[0].row == org.row as int && queue@[0].col == org.col as int);
            }
            assert(flood_inv(pre, *self, m, org, processed@, queue@, 0, 0));
        }
        while qi < queue.len()
            invariant
                flood_inv(
                    pre,
                    *self,
                    m,
                    org,
                    processed@,
                    queue@,
                    qi as int,
                    processed@.len() as int,
                ),
            decreases (hh * ww - processed@.len()) * 10 + queue@.len() - qi,
        {
            let pos_p: Pos = queue[qi];
            if vec_contains_pos(&processed, &pos_p) {
                proof {
                    lemma_skip_step(pre, *self, m, org, processed@, queue@, qi as int);
                }
                qi = qi + 1;
            } else {
                proof {
                    assert(q_elem_ok(queue@[qi as int], org, m, processed@, hh, ww));
                }
                let n = mines.get_mines_around(&pos_p, height, width);
                let ghost b1 = *self;
                self.set_cell(pos_p, CellState::Revealed(n as u8));
                proof {
                    assert(pos_at(pos_p.row as int, pos_p.col as int) == pos_p);
                    assert(self.cell(pos_p.row as int, pos_p.col as int) == revealed_at(
                        m,
                        pos_p.row as int,
                        pos_p.col as int,
                        hh,
                        ww,
                    ));
                    lemma_process_step(pre, b1, *self, m, org, processed@, queue@, qi as int, pos_p);
                }
                processed.push(pos_p);
                qi = qi + 1;
                if n == 0 {
                    proof {
                        if isolated_origin(m, org, hh, ww) {
                            assert(in_window(org, org.row as int, org.col as int));
                            assert(pos_at(org.row as int, org.col as int) == org);
                            assert(adj_at(m, org.row as int, org.col as int, hh, ww) > 0);
                            assert(false);
                        }
                    }
                    let ly: usize = if pos_p.row == 0 { 0 } else { pos_p.row - 1 };
                    let uy: usize = if pos_p.row == height - 1 { height - 1 } else { pos_p.row + 1 };
                    let lx: usize = if pos_p.col == 0 { 0 } else { pos_p.col - 1 };
                    let ux: usize = if pos_p.col == width - 1 { width - 1 } else { pos_p.col + 1 };
                    let ghost old_qlen = queue@.len();
                    let mut y2: usize = ly;
                    while y2 <= uy
                        invariant
                            ly <= y2 <= uy + 1,
                            uy <= ly + 2,
                            ux <= lx + 2,
                            queue@.len() <= old_qlen + (y2 - ly) * 3,
                            flood_inv(
                                pre,
                                *self,
                                m,
                                org,
                                processed@,
                                queue@,
                                qi as int,
                                processed@.len() - 1,
                            ),
                            forall|r: int, c: int|
                                0 <= r < hh && 0 <= c < ww && in_window(pos_p, r, c) && r < y2
                                    ==> has_pos(queue@, r, c),
                        decreases uy + 1 - y2,
                    {
                        let mut x2: usize = lx;
                        while x2 <= ux
                            invariant
                                ly <= y2 <= uy,
                                lx <= x2 <= ux + 1,
                                uy <= ly + 2,
                                ux <= lx + 2,
                                queue@.len() <= old_qlen + (y2 - ly) * 3 + (x2 - lx),
                                flood_inv(
                                    pre,
                                    *self,
                                    m,
                                    org,
                                    processed@,
                                    queue@,
                                    qi as int,
                                    processed@.len() - 1,
                                ),
                                forall|r: int, c: int|
                                    0 <= r < hh && 0 <= c < ww && in_window(pos_p, r, c) && (r < y2
                                        || (r == y2 && c < x2)) ==> has_pos(queue@, r, c),
                            decreases ux + 1 - x2,
                        {
                            let ghost q_before = queue@;
                            let newp = Pos { row: y2, col: x2 };
                            queue.push(newp);
                            proof {
                                assert(processed@[processed@.len() - 1] == pos_p);
                                assert(in_window(pos_p, y2 as int, x2 as int));
                                lemma_enqueue_push(
                                    pre,
                                    *self,
                                    m,
                                    org,
                                    processed@,
                                    q_before,
                                    qi as int,
                                    newp,
                                );
                            }
                            x2 = x2 + 1;
                        }
                        y2 = y2 + 1;
                    }
                    proof {
                        assert forall|r: int, c: int|
                            0 <= r < hh && 0 <= c < ww && #[trigger] in_window(
                                processed@[processed@.len() - 1],
                                r,
                                c,
                            ) implies has_pos(queue@, r, c) by {
                            assert(processed@[processed@.len() - 1] == pos_p);
                            assert(r < y2);
                        }
                        lemma_window_complete(pre, *self, m, org, processed@, queue@, qi as int);
                    }
                }
            }
        }
        proof {
            lemma_flood_done(pre, *self, m, org, processed@, queue@);
        }
        true
    }
}

} // verus!
