//! The constraint model: the grid, its labels, and the test that decides
//! whether a partly revealed grid can still become a solution.

use vstd::prelude::*;

verus! {

/// Side length of the square grid.
pub const SIZE: usize = 5;

/// The values a cell can hide, in the order in which the search tries them.
pub const VALS: [u8; 4] = [0, 1, 2, 3];

/// A grid of cells; `None` is a cell that has not been revealed.
pub type Board = [[Option<u8>; SIZE]; SIZE];

/// The label of one line: the sum of its values, and the number of its voltorbs.
pub type Label = (u8, u8);

/// One label per row, or one per column.
pub type Header = [Label; SIZE];

/// Whether `(r, c)` names a cell of the grid.
pub open spec fn in_grid(r: int, c: int) -> bool {
    0 <= r < SIZE && 0 <= c < SIZE
}

/// What a cell adds to the points of its line. A voltorb adds nothing, and
/// neither does a cell that is still hidden.
pub open spec fn cell_points(cell: Option<u8>) -> nat {
    match cell {
        Some(v) => v as nat,
        None => 0,
    }
}

/// Sum of the revealed values among the first `n` cells of `line`.
pub open spec fn points_in(line: Seq<Option<u8>>, n: int) -> nat
    decreases n,
{
    if n <= 0 {
        0
    } else {
        points_in(line, n - 1) + cell_points(line[n - 1])
    }
}

/// Number of revealed voltorbs among the first `n` cells of `line`.
pub open spec fn voltorbs_in(line: Seq<Option<u8>>, n: int) -> nat
    decreases n,
{
    if n <= 0 {
        0
    } else {
        voltorbs_in(line, n - 1) + if line[n - 1] == Some(0u8) {
            1nat
        } else {
            0nat
        }
    }
}

/// Number of hidden cells among the first `n` cells of `line`.
pub open spec fn unknown_in(line: Seq<Option<u8>>, n: int) -> nat
    decreases n,
{
    if n <= 0 {
        0
    } else {
        unknown_in(line, n - 1) + if line[n - 1] is None {
            1nat
        } else {
            0nat
        }
    }
}

/// Sum of the revealed values of `line`.
pub open spec fn line_points(line: Seq<Option<u8>>) -> nat {
    points_in(line, line.len() as int)
}

/// Number of revealed voltorbs of `line`.
pub open spec fn line_voltorbs(line: Seq<Option<u8>>) -> nat {
    voltorbs_in(line, line.len() as int)
}

/// Number of hidden cells of `line`.
pub open spec fn line_unknown(line: Seq<Option<u8>>) -> nat {
    unknown_in(line, line.len() as int)
}

/// The dual rule for one line. A line without hidden cells must match its
/// label exactly; a line that still hides cells must not have passed it.
pub open spec fn counts_admit(label: Label, points: nat, voltorbs: nat, unknown: nat) -> bool {
    if unknown == 0 {
        points == label.0 && voltorbs == label.1
    } else {
        points <= label.0 && voltorbs <= label.1
    }
}

/// Whether `line` is compatible with `label`.
pub open spec fn line_admits(label: Label, line: Seq<Option<u8>>) -> bool {
    counts_admit(label, line_points(line), line_voltorbs(line), line_unknown(line))
}

/// Row `r` of `board`, left to right.
pub open spec fn row_of(board: Board, r: int) -> Seq<Option<u8>> {
    Seq::new(SIZE as nat, |c: int| board[r][c])
}

/// Column `c` of `board`, top to bottom.
pub open spec fn column_of(board: Board, c: int) -> Seq<Option<u8>> {
    Seq::new(SIZE as nat, |r: int| board[r][c])
}

/// Whether `board` can still become, or already is, a grid that meets every
/// label: `right` holds the labels of the rows, `bottom` those of the columns.
pub open spec fn is_consistent(right: Header, bottom: Header, board: Board) -> bool {
    &&& forall|r: int| 0 <= r < SIZE ==> line_admits(right[r], #[trigger] row_of(board, r))
    &&& forall|c: int| 0 <= c < SIZE ==> line_admits(bottom[c], #[trigger] column_of(board, c))
}

/// Whether no cell of `board` is hidden.
pub open spec fn is_complete(board: Board) -> bool {
    forall|r: int, c: int| in_grid(r, c) ==> (#[trigger] board[r][c]) is Some
}

/// Whether every line of `board` has exactly the points and the voltorbs
/// that its label names.
pub open spec fn meets_labels(right: Header, bottom: Header, board: Board) -> bool {
    &&& forall|r: int|
        0 <= r < SIZE ==> {
            &&& line_points(#[trigger] row_of(board, r)) == right[r].0
            &&& line_voltorbs(row_of(board, r)) == right[r].1
        }
    &&& forall|c: int|
        0 <= c < SIZE ==> {
            &&& line_points(#[trigger] column_of(board, c)) == bottom[c].0
            &&& line_voltorbs(column_of(board, c)) == bottom[c].1
        }
}

/// A grid with every cell hidden.
pub fn init() -> (board: Board)
    ensures
        forall|r: int, c: int| in_grid(r, c) ==> (#[trigger] board[r][c]) is None,
{
    [[None;SIZE];SIZE]
}

/// The dual rule on the counts of one line.
fn admits(label: Label, points: usize, voltorbs: usize, unknown: usize) -> (ok: bool)
    ensures
        ok == counts_admit(label, points as nat, voltorbs as nat, unknown as nat),
{
    let fully_revealed = unknown == 0;
    let target_points = label.0 as usize;
    let target_voltorbs = label.1 as usize;
    if fully_revealed {
        points == target_points && voltorbs == target_voltorbs
    } else {
        points <= target_points && voltorbs <= target_voltorbs
    }
}

/// Counts one line and holds the counts against its label.
fn check_line(label: Label, line: &[Option<u8>; SIZE]) -> (ok: bool)
    ensures
        ok == line_admits(label, line@),
{
    let mut points: usize = 0;
    let mut voltorbs: usize = 0;
    let mut unknown: usize = 0;
    for i in 0..SIZE
        invariant
            points == points_in(line@, i as int),
            voltorbs == voltorbs_in(line@, i as int),
            unknown == unknown_in(line@, i as int),
            points <= 255 * i,
            voltorbs <= i,
            unknown <= i,
    {
        match line[i] {
            Some(value) => {
                if value == 0 {
                    voltorbs += 1;
                } else {
                    points += value as usize;
                }
            },
            None => {
                unknown += 1;
            },
        }
    }
    admits(label, points, voltorbs, unknown)
}

/// Copies row `row` of `board`.
fn row_cells(board: &Board, row: usize) -> (line: [Option<u8>; SIZE])
    requires
        row < SIZE,
    ensures
        line@ == row_of(*board, row as int),
{
    let mut line: [Option<u8>; SIZE] = [None;SIZE];
    for column in 0..SIZE
        invariant
            row < SIZE,
            forall|c: int| 0 <= c < column ==> line[c] == board[row as int][c],
    {
        line[column] = board[row][column];
    }
    assert(line@ =~= row_of(*board, row as int));
    line
}

/// Copies column `column` of `board`.
fn column_cells(board: &Board, column: usize) -> (line: [Option<u8>; SIZE])
    requires
        column < SIZE,
    ensures
        line@ == column_of(*board, column as int),
{
    let mut line: [Option<u8>; SIZE] = [None;SIZE];
    for row in 0..SIZE
        invariant
            column < SIZE,
            forall|r: int| 0 <= r < row ==> line[r] == board[r][column as int],
    {
        line[row] = board[row][column];
    }
    assert(line@ =~= column_of(*board, column as int));
    line
}

/// Decides whether `board` is consistent with the row labels `right` and the
/// column labels `bottom`.
pub fn validate(right: &Header, bottom: &Header, board: &Board) -> (ok: bool)
    ensures
        ok == is_consistent(*right, *bottom, *board),
{
    for row in 0..SIZE
        invariant
            forall|r: int| 0 <= r < row ==> line_admits(right[r], #[trigger] row_of(*board, r)),
    {
        let line = row_cells(board, row);
        if !check_line(right[row], &line) {
            return false;
        }
    }
    for column in 0..SIZE
        invariant
            forall|r: int| 0 <= r < SIZE ==> line_admits(right[r], #[trigger] row_of(*board, r)),
            forall|c: int|
                0 <= c < column ==> line_admits(bottom[c], #[trigger] column_of(*board, c)),
    {
        let line = column_cells(board, column);
        if !check_line(bottom[column], &line) {
            return false;
        }
    }
    true
}

/// A line none of whose first `n` cells is hidden counts no unknown there.
proof fn lemma_revealed_cells_count_no_unknown(line: Seq<Option<u8>>, n: int)
    requires
        0 <= n <= line.len(),
        forall|i: int| 0 <= i < n ==> (#[trigger] line[i]) is Some,
    ensures
        unknown_in(line, n) == 0,
    decreases n,
{
    if n > 0 {
        lemma_revealed_cells_count_no_unknown(line, n - 1);
    }
}

/// On a grid without hidden cells the consistency test is the exact one:
/// such a grid is consistent when, and only when, every line has the points
/// and the voltorbs of its label.
pub proof fn lemma_complete_grid_is_consistent_iff_exact(
    right: Header,
    bottom: Header,
    board: Board,
)
    requires
        is_complete(board),
    ensures
        is_consistent(right, bottom, board) == meets_labels(right, bottom, board),
{
    assert forall|r: int| 0 <= r < SIZE implies line_unknown(#[trigger] row_of(board, r))
        == 0 by {
        let line = row_of(board, r);
        assert forall|i: int| 0 <= i < SIZE implies (#[trigger] line[i]) is Some by {
            assert(in_grid(r, i));
            assert(board[r][i] is Some);
        }
        lemma_revealed_cells_count_no_unknown(line, SIZE as int);
    }
    assert forall|c: int| 0 <= c < SIZE implies line_unknown(#[trigger] column_of(board, c))
        == 0 by {
        let line = column_of(board, c);
        assert forall|i: int| 0 <= i < SIZE implies (#[trigger] line[i]) is Some by {
            assert(in_grid(i, c));
            assert(board[i][c] is Some);
        }
        lemma_revealed_cells_count_no_unknown(line, SIZE as int);
    }
}

/// A grid in which the revealed values of some line add up to more than the
/// points of its label is not consistent, whatever else it holds.
pub proof fn lemma_excess_points_is_inconsistent(right: Header, bottom: Header, board: Board)
    requires
        (exists|r: int| 0 <= r < SIZE && line_points(#[trigger] row_of(board, r)) > right[r].0) || (
        exists|c: int| 0 <= c < SIZE && line_points(#[trigger] column_of(board, c)) > bottom[c].0),
    ensures
        !is_consistent(right, bottom, board),
{
}

/// The same of voltorbs: a line that shows more of them than its label
/// names makes the grid inconsistent.
pub proof fn lemma_excess_voltorbs_is_inconsistent(right: Header, bottom: Header, board: Board)
    requires
        (exists|r: int| 0 <= r < SIZE && line_voltorbs(#[trigger] row_of(board, r)) > right[r].1)
            || (exists|c: int|
            0 <= c < SIZE && line_voltorbs(#[trigger] column_of(board, c)) > bottom[c].1),
    ensures
        !is_consistent(right, bottom, board),
{
}

} // verus!
