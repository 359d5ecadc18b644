//! The aggregator: what a list of solutions says of each cell, and which
//! hidden cell to reveal next.

use vstd::prelude::*;
use std::collections::BTreeSet;
use crate::grid::{Board, SIZE, in_grid};
use crate::solver::before;

verus! {

/// One count per cell.
pub type Counts = [[usize; SIZE]; SIZE];

/// One set of values per cell.
pub type Possible = [[BTreeSet<u8>; SIZE]; SIZE];

/// Whether a cell holds a voltorb.
pub open spec fn is_voltorb(cell: Option<u8>) -> bool {
    cell == Some(0u8)
}

/// Whether a cell holds a value that multiplies the score.
pub open spec fn is_multiplier(cell: Option<u8>) -> bool {
    cell matches Some(v) && v > 1
}

/// How many of the first `n` grids of `boards` hold a voltorb at `(r, c)`.
pub open spec fn voltorb_count(boards: Seq<Board>, n: int, r: int, c: int) -> nat
    decreases n,
{
    if n <= 0 {
        0
    } else {
        voltorb_count(boards, n - 1, r, c) + if is_voltorb(boards[n - 1][r][c]) {
            1nat
        } else {
            0nat
        }
    }
}

/// How many of the first `n` grids of `boards` hold a multiplier at `(r, c)`.
pub open spec fn multiplier_count(boards: Seq<Board>, n: int, r: int, c: int) -> nat
    decreases n,
{
    if n <= 0 {
        0
    } else {
        multiplier_count(boards, n - 1, r, c) + if is_multiplier(boards[n - 1][r][c]) {
            1nat
        } else {
            0nat
        }
    }
}

/// The values that the first `n` grids of `boards` hold at `(r, c)`.
pub open spec fn values_among(boards: Seq<Board>, n: int, r: int, c: int) -> Set<u8> {
    Set::new(|v: u8| exists|i: int| 0 <= i < n && #[trigger] boards[i][r][c] == Some(v))
}

/// How many grids of `boards` hold a voltorb at `(r, c)`.
pub open spec fn voltorbs_at(boards: Seq<Board>, r: int, c: int) -> nat {
    voltorb_count(boards, boards.len() as int, r, c)
}

/// How many grids of `boards` hold a multiplier at `(r, c)`.
pub open spec fn multipliers_at(boards: Seq<Board>, r: int, c: int) -> nat {
    multiplier_count(boards, boards.len() as int, r, c)
}

/// The values that the grids of `boards` hold at `(r, c)`.
pub open spec fn values_at(boards: Seq<Board>, r: int, c: int) -> Set<u8> {
    values_among(boards, boards.len() as int, r, c)
}

/// Whether `(r, c)` may be recommended: `game` hides it, and some grid of
/// `boards` holds a 2 or a 3 there.
pub open spec fn is_eligible(boards: Seq<Board>, game: Board, r: int, c: int) -> bool {
    &&& in_grid(r, c)
    &&& game[r][c] is None
    &&& (values_at(boards, r, c).contains(2) || values_at(boards, r, c).contains(3))
}

/// Whether `(r, c)` is the best among the eligible cells before `(end_r, end_c)`:
/// none of them has fewer voltorbs, and those with as few come later.
pub open spec fn is_best_before(
    boards: Seq<Board>,
    game: Board,
    r: int,
    c: int,
    end_r: int,
    end_c: int,
) -> bool {
    &&& is_eligible(boards, game, r, c)
    &&& before(r, c, end_r, end_c)
    &&& forall|i: int, j: int|
        #![trigger is_eligible(boards, game, i, j)]
        is_eligible(boards, game, i, j) && before(i, j, end_r, end_c) ==> {
            &&& voltorbs_at(boards, r, c) <= voltorbs_at(boards, i, j)
            &&& before(i, j, r, c) ==> voltorbs_at(boards, r, c) < voltorbs_at(boards, i, j)
        }
}

/// Whether `choice` is the recommendation among the cells before
/// `(end_r, end_c)`: `None` where none of them is eligible, else the best
/// of them.
pub open spec fn recommends_before(
    boards: Seq<Board>,
    game: Board,
    choice: Option<(usize, usize)>,
    end_r: int,
    end_c: int,
) -> bool {
    match choice {
        None => forall|i: int, j: int|
            #![trigger is_eligible(boards, game, i, j)]
            before(i, j, end_r, end_c) ==> !is_eligible(boards, game, i, j),
        Some((r, c)) => is_best_before(boards, game, r as int, c as int, end_r, end_c),
    }
}

/// Whether `choice` is the cell to reveal next. Among the eligible cells it
/// is the one with the fewest voltorbs, and of several with as few the
/// first in row-major order. Where no cell is eligible it is `None`.
pub open spec fn is_recommendation(
    boards: Seq<Board>,
    game: Board,
    choice: Option<(usize, usize)>,
) -> bool {
    recommends_before(boards, game, choice, SIZE as int, 0)
}

/// Counts the voltorbs and the multipliers that `boards` hold at one cell.
fn tally_cell(boards: &Vec<Board>, row: usize, column: usize) -> (tally: (usize, usize))
    requires
        row < SIZE,
        column < SIZE,
    ensures
        tally.0 == voltorbs_at(boards@, row as int, column as int),
        tally.1 == multipliers_at(boards@, row as int, column as int),
{
    let mut voltorbs: usize = 0;
    let mut multipliers: usize = 0;
    for n in 0..boards.len()
        invariant
            row < SIZE,
            column < SIZE,
            voltorbs == voltorb_count(boards@, n as int, row as int, column as int),
            multipliers == multiplier_count(boards@, n as int, row as int, column as int),
            voltorbs <= n,
            multipliers <= n,
    {
        match boards[n][row][column] {
            None => {},
            Some(value) => {
                if value == 0 {
                    voltorbs += 1;
                }
                if value > 1 {
                    multipliers += 1;
                }
            },
        }
    }
    (voltorbs, multipliers)
}

/// Collects the values that `boards` hold at one cell.
fn collect_cell(boards: &Vec<Board>, row: usize, column: usize) -> (seen: BTreeSet<u8>)
    requires
        row < SIZE,
        column < SIZE,
    ensures
        seen@ == values_at(boards@, row as int, column as int),
{
    broadcast use vstd::std_specs::btree::group_btree_axioms;

    let mut seen: BTreeSet<u8> = BTreeSet::new();
    assert(seen@ =~= values_among(boards@, 0, row as int, column as int));
    for n in 0..boards.len()
        invariant
            row < SIZE,
            column < SIZE,
            seen@ == values_among(boards@, n as int, row as int, column as int),
    {
        let ghost earlier = seen@;
        match boards[n][row][column] {
            None => {},
            Some(value) => {
                seen.insert(value);
            },
        }
        proof {
            let r = row as int;
            let c = column as int;
            assert forall|v: u8| seen@.contains(v) <==> values_among(
                boards@,
                n + 1,
                r,
                c,
            ).contains(v) by {
                if seen@.contains(v) && !earlier.contains(v) {
                    assert(boards@[n as int][r][c] == Some(v));
                }
                if values_among(boards@, n + 1, r, c).contains(v) {
                    let i = choose|i: int| 0 <= i < n + 1 && #[trigger] boards@[i][r][c] == Some(v);
                    if i < n {
                        assert(earlier.contains(v));
                    }
                }
            }
            assert(seen@ =~= values_among(boards@, n + 1, r, c));
        }
    }
    seen
}

/// Collects the values that `boards` hold at each cell of one row.
fn collect_row(boards: &Vec<Board>, row: usize) -> (seen: [BTreeSet<u8>; SIZE])
    requires
        row < SIZE,
    ensures
        forall|c: int| 0 <= c < SIZE ==> (#[trigger] seen[c])@ == values_at(boards@, row as int, c),
{
    [
        collect_cell(boards, row, 0),
        collect_cell(boards, row, 1),
        collect_cell(boards, row, 2),
        collect_cell(boards, row, 3),
        collect_cell(boards, row, 4),
    ]
}

/// Picks the cell to reveal next from the tables of `aggregate`.
fn recommend(boards: &Vec<Board>, game_board: &Board, voltorbs: &Counts, possible: &Possible) -> (choice:
    Option<(usize, usize)>)
    requires
        forall|r: int, c: int|
            in_grid(r, c) ==> (#[trigger] voltorbs[r][c]) == voltorbs_at(boards@, r, c),
        forall|r: int, c: int|
            in_grid(r, c) ==> (#[trigger] possible[r][c])@ == values_at(boards@, r, c),
    ensures
        is_recommendation(boards@, *game_board, choice),
{
    broadcast use vstd::std_specs::btree::group_btree_axioms;

    let mut choice: Option<(usize, usize)> = None;
    let mut lowest: usize = 0;
    for row in 0..SIZE
        invariant
            forall|r: int, c: int|
                in_grid(r, c) ==> (#[trigger] voltorbs[r][c]) == voltorbs_at(boards@, r, c),
            forall|r: int, c: int|
                in_grid(r, c) ==> (#[trigger] possible[r][c])@ == values_at(boards@, r, c),
            recommends_before(boards@, *game_board, choice, row as int, 0),
            choice matches Some((r, c)) ==> lowest == voltorbs_at(boards@, r as int, c as int),
    {
        for column in 0..SIZE
            invariant
                row < SIZE,
                forall|r: int, c: int|
                    in_grid(r, c) ==> (#[trigger] voltorbs[r][c]) == voltorbs_at(boards@, r, c),
                forall|r: int, c: int|
                    in_grid(r, c) ==> (#[trigger] possible[r][c])@ == values_at(boards@, r, c),
                recommends_before(boards@, *game_board, choice, row as int, column as int),
                choice matches Some((r, c)) ==> lowest == voltorbs_at(boards@, r as int, c as int),
        {
            let hidden = game_board[row][column].is_none();
            let can_multiply = possible[row][column].contains(&2) || possible[row][column].contains(
                &3,
            );
            let count = voltorbs[row][column];
            let ghost previous = choice;
            proof {
                assert(in_grid(row as int, column as int));
                assert((hidden && can_multiply) == is_eligible(
                    boards@,
                    *game_board,
                    row as int,
                    column as int,
                ));
            }
            if hidden && can_multiply && (choice.is_none() || count < lowest) {
                choice = Some((row, column));
                lowest = count;
            }
            proof {
                lemma_scan_step(
                    boards@,
                    *game_board,
                    previous,
                    choice,
                    row as int,
                    column as int,
                );
            }
        }
        proof {
            lemma_scan_row_end(boards@, *game_board, choice, row as int);
        }
    }
    choice
}

/// What one step of the scan does to the recommendation: the cell at hand
/// takes over when it is eligible and has fewer voltorbs than the best so
/// far, or when there is no best so far.
proof fn lemma_scan_step(
    boards: Seq<Board>,
    game: Board,
    previous: Option<(usize, usize)>,
    choice: Option<(usize, usize)>,
    row: int,
    column: int,
)
    requires
        in_grid(row, column),
        recommends_before(boards, game, previous, row, column),
        choice == if is_eligible(boards, game, row, column) && (previous matches Some((r, c))
            ==> voltorbs_at(boards, row, column) < voltorbs_at(boards, r as int, c as int)) {
            Some((row as usize, column as usize))
        } else {
            previous
        },
    ensures
        recommends_before(boards, game, choice, row, column + 1),
{
    assert forall|i: int, j: int| before(i, j, row, column + 1) implies before(i, j, row, column)
        || (i == row && j == column) by {}
    match choice {
        None => {
            assert forall|i: int, j: int|
                #![trigger is_eligible(boards, game, i, j)]
                before(i, j, row, column + 1) implies !is_eligible(boards, game, i, j) by {
                if before(i, j, row, column) {
                } else {
                    assert(i == row && j == column);
                }
            }
        },
        Some((r, c)) => {
            let r = r as int;
            let c = c as int;
            assert forall|i: int, j: int|
                #![trigger is_eligible(boards, game, i, j)]
                is_eligible(boards, game, i, j) && before(i, j, row, column + 1) implies {
                &&& voltorbs_at(boards, r, c) <= voltorbs_at(boards, i, j)
                &&& before(i, j, r, c) ==> voltorbs_at(boards, r, c) < voltorbs_at(boards, i, j)
            } by {
                if before(i, j, row, column) {
                    match previous {
                        None => {},
                        Some((pr, pc)) => {
                            assert(is_best_before(
                                boards,
                                game,
                                pr as int,
                                pc as int,
                                row,
                                column,
                            ));
                        },
                    }
                } else {
                    assert(i == row && j == column);
                }
            }
        },
    }
}

/// The cells before the end of a row are the cells before the start of the
/// next.
proof fn lemma_scan_row_end(
    boards: Seq<Board>,
    game: Board,
    choice: Option<(usize, usize)>,
    row: int,
)
    requires
        recommends_before(boards, game, choice, row, SIZE as int),
    ensures
        recommends_before(boards, game, choice, row + 1, 0),
{
    assert forall|i: int, j: int| in_grid(i, j) && before(i, j, row + 1, 0) implies before(
        i,
        j,
        row,
        SIZE as int,
    ) by {}
    match choice {
        None => {
            assert forall|i: int, j: int|
                #![trigger is_eligible(boards, game, i, j)]
                before(i, j, row + 1, 0) implies !is_eligible(boards, game, i, j) by {
                if is_eligible(boards, game, i, j) {
                    assert(before(i, j, row, SIZE as int));
                }
            }
        },
        Some((r, c)) => {
            let r = r as int;
            let c = c as int;
            assert(is_best_before(boards, game, r, c, row, SIZE as int));
            assert forall|i: int, j: int|
                #![trigger is_eligible(boards, game, i, j)]
                is_eligible(boards, game, i, j) && before(i, j, row + 1, 0) implies {
                &&& voltorbs_at(boards, r, c) <= voltorbs_at(boards, i, j)
                &&& before(i, j, r, c) ==> voltorbs_at(boards, r, c) < voltorbs_at(boards, i, j)
            } by {
                assert(before(i, j, row, SIZE as int));
            }
        },
    }
}

/// Reduces a list of solutions to what it says of each cell: in how many of
/// them the cell is a voltorb, in how many a multiplier, which values it
/// takes, and which cell that `game_board` hides to reveal next.
pub fn aggregate(boards: &Vec<Board>, game_board: &Board) -> (out: (
    Counts,
    Counts,
    Possible,
    Option<(usize, usize)>,
))
    ensures
        forall|r: int, c: int| in_grid(r, c) ==> (#[trigger] out.0[r][c]) == voltorbs_at(boards@, r, c),
        forall|r: int, c: int|
            in_grid(r, c) ==> (#[trigger] out.1[r][c]) == multipliers_at(boards@, r, c),
        forall|r: int, c: int| in_grid(r, c) ==> (#[trigger] out.2[r][c])@ == values_at(boards@, r, c),
        is_recommendation(boards@, *game_board, out.3),
{
    let mut voltorbs: Counts = [[0;SIZE];SIZE];
    let mut multipliers: Counts = [[0;SIZE];SIZE];
    for row in 0..SIZE
        invariant
            forall|r: int, c: int|
                0 <= r < row && 0 <= c < SIZE ==> (#[trigger] voltorbs[r][c]) == voltorbs_at(
                    boards@,
                    r,
                    c,
                ),
            forall|r: int, c: int|
                0 <= r < row && 0 <= c < SIZE ==> (#[trigger] multipliers[r][c]) == multipliers_at(
                    boards@,
                    r,
                    c,
                ),
    {
        for column in 0..SIZE
            invariant
                row < SIZE,
                forall|r: int, c: int|
                    (0 <= r < row && 0 <= c < SIZE) || (r == row && 0 <= c < column) ==> (
                    #[trigger] voltorbs[r][c]) == voltorbs_at(boards@, r, c),
                forall|r: int, c: int|
                    (0 <= r < row && 0 <= c < SIZE) || (r == row && 0 <= c < column) ==> (
                    #[trigger] multipliers[r][c]) == multipliers_at(boards@, r, c),
        {
            let tally = tally_cell(boards, row, column);
            voltorbs[row][column] = tally.0;
            multipliers[row][column] = tally.1;
        }
    }
    let possible: Possible = [
        collect_row(boards, 0),
        collect_row(boards, 1),
        collect_row(boards, 2),
        collect_row(boards, 3),
        collect_row(boards, 4),
    ];
    let choice = recommend(boards, game_board, &voltorbs, &possible);
    (voltorbs, multipliers, possible, choice)
}

/// Of no solutions there is nothing to say: every count is zero, no cell
/// takes a value, and nothing but `None` is the recommendation.
pub proof fn lemma_nothing_to_aggregate(
    boards: Seq<Board>,
    game: Board,
    choice: Option<(usize, usize)>,
)
    requires
        boards.len() == 0,
    ensures
        forall|r: int, c: int| #[trigger] voltorbs_at(boards, r, c) == 0,
        forall|r: int, c: int| #[trigger] multipliers_at(boards, r, c) == 0,
        forall|r: int, c: int| #[trigger] values_at(boards, r, c) == Set::<u8>::empty(),
        is_recommendation(boards, game, choice) <==> choice is None,
{
    assert forall|r: int, c: int| #[trigger] values_at(boards, r, c) == Set::<u8>::empty() by {
        assert(values_at(boards, r, c) =~= Set::<u8>::empty());
    }
    assert forall|r: int, c: int| !is_eligible(boards, game, r, c) by {
        assert(values_at(boards, r, c) =~= Set::<u8>::empty());
    }
}

/// The recommendation is decided by the solutions and the grid: no two
/// cells, and not a cell and `None`, meet its description at once. Of two
/// eligible cells with equally few voltorbs only the earlier one does.
pub proof fn lemma_recommendation_is_unique(
    boards: Seq<Board>,
    game: Board,
    first: Option<(usize, usize)>,
    second: Option<(usize, usize)>,
)
    requires
        is_recommendation(boards, game, first),
        is_recommendation(boards, game, second),
    ensures
        first == second,
{
    match (first, second) {
        (Some((r1, c1)), Some((r2, c2))) => {
            let (r1, c1, r2, c2) = (r1 as int, c1 as int, r2 as int, c2 as int);
            assert(is_eligible(boards, game, r1, c1));
            assert(is_eligible(boards, game, r2, c2));
            assert(voltorbs_at(boards, r1, c1) == voltorbs_at(boards, r2, c2));
            assert(!before(r1, c1, r2, c2));
            assert(!before(r2, c2, r1, c1));
        },
        (Some((r, c)), None) => {
            assert(is_eligible(boards, game, r as int, c as int));
        },
        (None, Some((r, c))) => {
            assert(is_eligible(boards, game, r as int, c as int));
        },
        (None, None) => {},
    }
}

} // verus!
