//! Grid positions and the Chebyshev-distance neighborhood predicate shared by
//! mine placement (exclusion zone) and adjacency counting.

use vstd::prelude::*;

verus! {

/// A cell position on the board: 0-indexed row and column.
#[derive(Clone, Copy, PartialEq, Eq, Structural, Debug, Hash)]
pub struct Pos {
    pub row: usize,
    pub col: usize,
}

/// `p` lies on a board of `height` rows and `width` columns.
pub open spec fn in_bounds(p: Pos, height: int, width: int) -> bool {
    p.row < height && p.col < width
}

/// Both coordinates of `a` and `b` differ by at most one: `b` lies in the
/// 3x3 neighborhood of `a` (Chebyshev distance <= 1). The same predicate
/// describes the exclusion zone around the first reveal, where a candidate
/// mine is rejected when both axis distances are strictly below two.
pub open spec fn near(a: Pos, b: Pos) -> bool {
    &&& -1 <= a.row - b.row <= 1
    &&& -1 <= a.col - b.col <= 1
}

/// Whether a candidate mine position lies inside the exclusion zone of the
/// first-reveal cursor: both axis distances strictly below two. A position is
/// far enough if it fails on at least one axis.
pub fn cursor_too_close(cursor: &Pos, preliminar_pos: &Pos) -> (r: bool)
    ensures
        r == near(*cursor, *preliminar_pos),
{
    let row_diff: usize = if cursor.row >= preliminar_pos.row {
        cursor.row - preliminar_pos.row
    } else {
        preliminar_pos.row - cursor.row
    };
    let col_diff: usize = if cursor.col >= preliminar_pos.col {
        cursor.col - preliminar_pos.col
    } else {
        preliminar_pos.col - cursor.col
    };
    col_diff < 2 && row_diff < 2
}

} // verus!
