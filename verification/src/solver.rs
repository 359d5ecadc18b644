//! The solver: a depth-first search over the hidden cells in row-major
//! order, which lists every way of revealing them that meets every label.

use vstd::prelude::*;
use crate::grid::{
    Board, Header, SIZE, VALS, in_grid, is_complete, is_consistent, validate, line_admits,
    row_of, column_of, points_in, voltorbs_in, unknown_in, meets_labels,
    lemma_complete_grid_is_consistent_iff_exact,
};

verus! {

/// Whether `(r1, c1)` comes before `(r2, c2)` in row-major order.
pub open spec fn before(r1: int, c1: int, r2: int, c2: int) -> bool {
    r1 < r2 || (r1 == r2 && c1 < c2)
}

/// The value of a cell as a number; a hidden cell counts as less than any value.
pub open spec fn cell_rank(cell: Option<u8>) -> int {
    match cell {
        Some(v) => v as int,
        None => -1,
    }
}

/// Whether `full` reveals every cell of `start`: a cell that `start` shows is
/// the same in `full`, and a cell that `start` hides holds a value of `VALS`.
pub open spec fn completes(start: Board, full: Board) -> bool {
    forall|r: int, c: int|
        in_grid(r, c) ==> match start[r][c] {
            Some(v) => (#[trigger] full[r][c]) == Some(v),
            None => full[r][c] matches Some(w) && w <= 3,
        }
}

/// Whether `full` is a solution that `start` can become.
pub open spec fn is_solution_of(right: Header, bottom: Header, start: Board, full: Board) -> bool {
    completes(start, full) && is_consistent(right, bottom, full)
}

/// Whether `a` and `b` agree on every cell before `(r, c)`, and `a` holds
/// the smaller value at `(r, c)`.
pub open spec fn smaller_at(a: Board, b: Board, r: int, c: int) -> bool {
    &&& in_grid(r, c)
    &&& cell_rank(a[r][c]) < cell_rank(b[r][c])
    &&& forall|i: int, j: int|
        in_grid(i, j) && before(i, j, r, c) ==> (#[trigger] a[i][j]) == b[i][j]
}

/// The order in which the search finds grids: `a` comes before `b` when, at
/// the first cell in row-major order where they differ, `a` holds the
/// smaller value.
pub open spec fn comes_before(a: Board, b: Board) -> bool {
    exists|r: int, c: int| #[trigger] smaller_at(a, b, r, c)
}

/// Whether the elements of `s` stand in search order, which leaves no room
/// for a grid to occur twice.
pub open spec fn in_search_order(s: Seq<Board>) -> bool {
    forall|i: int, j: int| 0 <= i < j < s.len() ==> comes_before(#[trigger] s[i], #[trigger] s[j])
}

/// Whether `s` lists the solutions that `start` can become: each element is
/// one, each of them is an element, and they stand in search order.
pub open spec fn lists_solutions(right: Header, bottom: Header, start: Board, s: Seq<Board>) -> bool {
    &&& forall|i: int| 0 <= i < s.len() ==> is_solution_of(right, bottom, start, #[trigger] s[i])
    &&& forall|g: Board| #[trigger] is_solution_of(right, bottom, start, g) ==> s.contains(g)
    &&& in_search_order(s)
}

/// As `lists_solutions`, of the solutions whose value at `(r, c)` is below
/// `bound` only.
spec fn lists_solutions_below(
    right: Header,
    bottom: Header,
    start: Board,
    r: int,
    c: int,
    bound: int,
    s: Seq<Board>,
) -> bool {
    &&& forall|i: int|
        0 <= i < s.len() ==> is_solution_of(right, bottom, start, #[trigger] s[i]) && cell_rank(
            s[i][r][c],
        ) < bound
    &&& forall|g: Board| #[trigger]
        is_solution_of(right, bottom, start, g) && cell_rank(g[r][c]) < bound ==> s.contains(g)
    &&& in_search_order(s)
}

/// Revealing cells of a line can only add to its counts, and adds nothing
/// where no cell was hidden.
proof fn lemma_counts_grow(part: Seq<Option<u8>>, full: Seq<Option<u8>>, n: int)
    requires
        0 <= n <= part.len(),
        n <= full.len(),
        forall|i: int|
            0 <= i < n ==> full[i] is Some && (part[i] is Some ==> #[trigger] full[i] == part[i]),
    ensures
        points_in(part, n) <= points_in(full, n),
        voltorbs_in(part, n) <= voltorbs_in(full, n),
        unknown_in(full, n) == 0,
        unknown_in(part, n) == 0 ==> points_in(part, n) == points_in(full, n) && voltorbs_in(
            part,
            n,
        ) == voltorbs_in(full, n),
    decreases n,
{
    if n > 0 {
        lemma_counts_grow(part, full, n - 1);
        assert(full[n - 1] is Some);
    }
}

/// A line that can be revealed into one that its label admits is admitted
/// itself.
proof fn lemma_line_stays_admitted(label: (u8, u8), part: Seq<Option<u8>>, full: Seq<Option<u8>>)
    requires
        part.len() == full.len(),
        forall|i: int|
            0 <= i < part.len() ==> full[i] is Some && (part[i] is Some ==> #[trigger] full[i]
                == part[i]),
        line_admits(label, full),
    ensures
        line_admits(label, part),
{
    lemma_counts_grow(part, full, part.len() as int);
}

/// Pruning loses nothing: a grid that some consistent grid completes is
/// consistent.
pub proof fn lemma_prefix_of_solution_is_consistent(
    right: Header,
    bottom: Header,
    part: Board,
    full: Board,
)
    requires
        completes(part, full),
        is_consistent(right, bottom, full),
    ensures
        is_consistent(right, bottom, part),
{
    assert forall|r: int| 0 <= r < SIZE implies line_admits(
        right[r],
        #[trigger] row_of(part, r),
    ) by {
        let p = row_of(part, r);
        let f = row_of(full, r);
        assert forall|i: int| 0 <= i < p.len() implies f[i] is Some && (p[i] is Some
            ==> #[trigger] f[i] == p[i]) by {
            assert(in_grid(r, i));
            assert(f[i] == full[r][i]);
        }
        lemma_line_stays_admitted(right[r], p, f);
    }
    assert forall|c: int| 0 <= c < SIZE implies line_admits(
        bottom[c],
        #[trigger] column_of(part, c),
    ) by {
        let p = column_of(part, c);
        let f = column_of(full, c);
        assert forall|i: int| 0 <= i < p.len() implies f[i] is Some && (p[i] is Some
            ==> #[trigger] f[i] == p[i]) by {
            assert(in_grid(i, c));
            assert(f[i] == full[i][c]);
        }
        lemma_line_stays_admitted(bottom[c], p, f);
    }
}

/// A grid without hidden cells is completed by itself alone.
proof fn lemma_complete_completes_itself(start: Board, full: Board)
    requires
        is_complete(start),
        completes(start, full),
    ensures
        full == start,
{
    assert forall|r: int| 0 <= r < SIZE implies full[r] == start[r] by {
        assert forall|c: int| 0 <= c < SIZE implies full[r][c] == start[r][c] by {
            assert(in_grid(r, c));
            assert(start[r][c] is Some);
        }
        assert(full[r] =~= start[r]);
    }
    assert(full =~= start);
}

/// Whether `next` is `board` with the hidden cell `(r, c)` revealed as `value`.
spec fn reveals(board: Board, r: int, c: int, value: u8, next: Board) -> bool {
    &&& in_grid(r, c)
    &&& board[r][c] is None
    &&& forall|i: int, j: int|
        in_grid(i, j) ==> (#[trigger] next[i][j]) == if i == r && j == c {
            Some(value)
        } else {
            board[i][j]
        }
}

/// Whether every cell of `board` before `(r, c)` is revealed.
spec fn revealed_before(board: Board, r: int, c: int) -> bool {
    forall|i: int, j: int| in_grid(i, j) && before(i, j, r, c) ==> (#[trigger] board[i][j]) is Some
}

/// Before any value has been tried, nothing is listed.
proof fn lemma_branch_start(right: Header, bottom: Header, board: Board, r: int, c: int)
    requires
        in_grid(r, c),
    ensures
        lists_solutions_below(right, bottom, board, r, c, 0, Seq::<Board>::empty()),
{
    assert forall|g: Board| #[trigger]
        is_solution_of(right, bottom, board, g) && cell_rank(g[r][c]) < 0 implies Seq::<
        Board,
    >::empty().contains(g) by {
        assert(g[r][c] is Some);
    }
}

/// Trying one more value at `(r, c)` extends the list by what the search
/// below that value returned.
proof fn lemma_branch_step(
    right: Header,
    bottom: Header,
    board: Board,
    r: int,
    c: int,
    value: u8,
    next: Board,
    found: Seq<Board>,
    more: Seq<Board>,
)
    requires
        value <= 3,
        reveals(board, r, c, value, next),
        revealed_before(board, r, c),
        lists_solutions_below(right, bottom, board, r, c, value as int, found),
        is_consistent(right, bottom, next) ==> lists_solutions(right, bottom, next, more),
        !is_consistent(right, bottom, next) ==> more.len() == 0,
    ensures
        lists_solutions_below(right, bottom, board, r, c, value + 1, found + more),
{
    let all = found + more;
    // What the search below `next` returned completes `board` with `value` at `(r, c)`.
    assert forall|k: int| 0 <= k < more.len() implies {
        &&& is_solution_of(right, bottom, board, #[trigger] more[k])
        &&& more[k][r][c] == Some(value)
    } by {
        let g = more[k];
        assert(is_solution_of(right, bottom, next, g));
        assert(g[r][c] == Some(value));
        assert forall|i: int, j: int| in_grid(i, j) implies match board[i][j] {
            Some(v) => (#[trigger] g[i][j]) == Some(v),
            None => g[i][j] matches Some(w) && w <= 3,
        } by {
            assert(next[i][j] == if i == r && j == c {
                Some(value)
            } else {
                board[i][j]
            });
        }
    }
    assert forall|i: int| 0 <= i < all.len() implies is_solution_of(
        right,
        bottom,
        board,
        #[trigger] all[i],
    ) && cell_rank(all[i][r][c]) < value + 1 by {
        if i >= found.len() {
            assert(all[i] == more[i - found.len()]);
        }
    }
    // Each solution with a value up to `value` at `(r, c)` is listed.
    assert forall|g: Board| #[trigger]
        is_solution_of(right, bottom, board, g) && cell_rank(g[r][c]) < value + 1 implies all.contains(
        g,
    ) by {
        if cell_rank(g[r][c]) < value {
            assert(found.contains(g));
            let k = choose|k: int| 0 <= k < found.len() && found[k] == g;
            assert(all[k] == g);
        } else {
            assert(g[r][c] is Some);
            assert(g[r][c] == Some(value));
            assert forall|i: int, j: int| in_grid(i, j) implies match next[i][j] {
                Some(v) => (#[trigger] g[i][j]) == Some(v),
                None => g[i][j] matches Some(w) && w <= 3,
            } by {}
            assert(completes(next, g));
            lemma_prefix_of_solution_is_consistent(right, bottom, next, g);
            assert(is_solution_of(right, bottom, next, g));
            assert(more.contains(g));
            let k = choose|k: int| 0 <= k < more.len() && more[k] == g;
            assert(all[found.len() + k] == g);
        }
    }
    // The new grids follow the old ones in search order.
    assert forall|i: int, j: int| 0 <= i < j < all.len() implies comes_before(
        #[trigger] all[i],
        #[trigger] all[j],
    ) by {
        if j < found.len() {
            assert(comes_before(found[i], found[j]));
        } else if i >= found.len() {
            assert(all[i] == more[i - found.len()]);
            assert(all[j] == more[j - found.len()]);
            assert(comes_before(more[i - found.len()], more[j - found.len()]));
        } else {
            let a = found[i];
            let b = more[j - found.len()];
            assert(all[i] == a);
            assert(all[j] == b);
            assert(is_solution_of(right, bottom, board, a));
            assert(is_solution_of(right, bottom, board, b));
            assert forall|p: int, q: int| in_grid(p, q) && before(p, q, r, c) implies (
            #[trigger] a[p][q]) == b[p][q] by {
                assert(board[p][q] is Some);
            }
            assert(smaller_at(a, b, r, c));
        }
    }
}

/// Once every value of `VALS` has been tried at a hidden cell, every
/// solution is listed.
proof fn lemma_branch_end(
    right: Header,
    bottom: Header,
    board: Board,
    r: int,
    c: int,
    found: Seq<Board>,
)
    requires
        in_grid(r, c),
        board[r][c] is None,
        lists_solutions_below(right, bottom, board, r, c, 4, found),
    ensures
        lists_solutions(right, bottom, board, found),
{
    assert forall|g: Board| #[trigger] is_solution_of(right, bottom, board, g) implies found.contains(
        g,
    ) by {
        assert(g[r][c] matches Some(w) && w <= 3);
    }
}

/// A consistent grid without hidden cells is its own and only solution.
proof fn lemma_complete_grid_solves_itself(right: Header, bottom: Header, board: Board)
    requires
        is_complete(board),
        is_consistent(right, bottom, board),
    ensures
        lists_solutions(right, bottom, board, seq![board]),
{
    let s = seq![board];
    assert forall|r: int, c: int| in_grid(r, c) implies match board[r][c] {
        Some(v) => (#[trigger] board[r][c]) == Some(v),
        None => board[r][c] matches Some(w) && w <= 3,
    } by {
        assert(board[r][c] is Some);
    }
    assert(is_solution_of(right, bottom, board, s[0]));
    assert forall|g: Board| #[trigger] is_solution_of(right, bottom, board, g) implies s.contains(
        g,
    ) by {
        lemma_complete_completes_itself(board, g);
        assert(s[0] == g);
    }
}

/// A grid that is not consistent has no solution.
proof fn lemma_inconsistent_grid_has_no_solution(right: Header, bottom: Header, board: Board)
    requires
        !is_consistent(right, bottom, board),
    ensures
        lists_solutions(right, bottom, board, Seq::<Board>::empty()),
{
    assert forall|g: Board| #[trigger] is_solution_of(right, bottom, board, g) implies Seq::<
        Board,
    >::empty().contains(g) by {
        lemma_prefix_of_solution_is_consistent(right, bottom, board, g);
    }
}

/// The search from `(row, column)` on, over a consistent grid whose earlier
/// cells are all revealed. What it finds is appended to `solutions`.
fn solve_from(
    right: &Header,
    bottom: &Header,
    board: Board,
    row: usize,
    column: usize,
    solutions: &mut Vec<Board>,
)
    requires
        row <= SIZE,
        column < SIZE,
        revealed_before(board, row as int, column as int),
        is_consistent(*right, *bottom, board),
    ensures
        old(solutions)@.len() <= final(solutions)@.len(),
        final(solutions)@.take(old(solutions)@.len() as int) == old(solutions)@,
        lists_solutions(
            *right,
            *bottom,
            board,
            final(solutions)@.skip(old(solutions)@.len() as int),
        ),
    decreases SIZE - row, SIZE - column,
{
    let ghost earlier = solutions@;
    if row >= SIZE {
        solutions.push(board);
        proof {
            assert forall|r: int, c: int| in_grid(r, c) implies (#[trigger] board[r][c]) is Some by {
                assert(before(r, c, row as int, column as int));
            }
            lemma_complete_grid_solves_itself(*right, *bottom, board);
            assert(solutions@.take(earlier.len() as int) =~= earlier);
            assert(solutions@.skip(earlier.len() as int) =~= seq![board]);
        }
        return ;
    }
    let next_column = (column + 1) % SIZE;
    let next_row = if next_column < column {
        row + 1
    } else {
        row
    };
    match board[row][column] {
        None => {
            let ghost mut found = Seq::<Board>::empty();
            proof {
                lemma_branch_start(*right, *bottom, board, row as int, column as int);
                assert(solutions@ =~= earlier + found);
            }
            for k in 0..4usize
                invariant
                    row < SIZE,
                    column < SIZE,
                    next_row <= SIZE,
                    next_column < SIZE,
                    before(row as int, column as int, next_row as int, next_column as int),
                    next_row == row || (next_row == row + 1 && column + 1 == SIZE && next_column
                        == 0),
                    next_row == row ==> next_column == column + 1,
                    board[row as int][column as int] is None,
                    revealed_before(board, row as int, column as int),
                    solutions@ == earlier + found,
                    lists_solutions_below(
                        *right,
                        *bottom,
                        board,
                        row as int,
                        column as int,
                        k as int,
                        found,
                    ),
            {
                let value = VALS[k];
                let mut next = board;
                next[row][column] = Some(value);
                let ghost so_far = solutions@;
                if validate(right, bottom, &next) {
                    proof {
                        assert forall|i: int, j: int|
                            in_grid(i, j) && before(
                                i,
                                j,
                                next_row as int,
                                next_column as int,
                            ) implies (#[trigger] next[i][j]) is Some by {
                            if !(i == row && j == column) {
                                assert(before(i, j, row as int, column as int));
                                assert(board[i][j] is Some);
                            }
                        }
                    }
                    solve_from(right, bottom, next, next_row, next_column, solutions);
                }
                proof {
                    let more = solutions@.skip(so_far.len() as int);
                    assert(solutions@.take(so_far.len() as int) =~= so_far);
                    assert(solutions@ =~= so_far + more);
                    lemma_branch_step(
                        *right,
                        *bottom,
                        board,
                        row as int,
                        column as int,
                        value,
                        next,
                        found,
                        more,
                    );
                    found = found + more;
                    assert(solutions@ =~= earlier + found);
                }
            }
            proof {
                lemma_branch_end(*right, *bottom, board, row as int, column as int, found);
                assert(solutions@.take(earlier.len() as int) =~= earlier);
                assert(solutions@.skip(earlier.len() as int) =~= found);
            }
        },
        Some(_) => {
            proof {
                assert forall|i: int, j: int|
                    in_grid(i, j) && before(i, j, next_row as int, next_column as int) implies (
                #[trigger] board[i][j]) is Some by {
                    if !(i == row && j == column) {
                        assert(before(i, j, row as int, column as int));
                    }
                }
            }
            solve_from(right, bottom, board, next_row, next_column, solutions);
        },
    }
}

/// Lists every solution that `board` can become: every grid that reveals
/// the hidden cells of `board` with values of `VALS` and is consistent with
/// the labels of `right` (rows) and `bottom` (columns). The grids come in
/// the order of the search: cell by cell in row-major order, smaller values
/// first. A `board` that is not consistent has no solution, with or without
/// hidden cells, and gives an empty list.
pub fn solve(right: &Header, bottom: &Header, board: Board) -> (solutions: Vec<Board>)
    ensures
        lists_solutions(*right, *bottom, board, solutions@),
{
    let mut solutions: Vec<Board> = Vec::new();
    if !validate(right, bottom, &board) {
        proof {
            lemma_inconsistent_grid_has_no_solution(*right, *bottom, board);
        }
        return solutions;
    }
    solve_from(right, bottom, board, 0, 0, &mut solutions);
    assert(solutions@.skip(0) =~= solutions@);
    solutions
}

/// A list of solutions holds no grid twice, and so has at most one element
/// where only one grid is a solution.
proof fn lemma_single_solution(right: Header, bottom: Header, board: Board, s: Seq<Board>, g: Board)
    requires
        lists_solutions(right, bottom, board, s),
        is_solution_of(right, bottom, board, g),
        forall|h: Board| #[trigger] is_solution_of(right, bottom, board, h) ==> h == g,
    ensures
        s == seq![g],
{
    assert(s.contains(g));
    if s.len() >= 2 {
        assert(is_solution_of(right, bottom, board, s[0]));
        assert(is_solution_of(right, bottom, board, s[1]));
        assert(comes_before(s[0], s[1]));
        lemma_search_order_irreflexive(g);
    }
    assert(is_solution_of(right, bottom, board, s[0]));
    assert(s =~= seq![g]);
}

/// A grid without hidden cells whose lines all have the points and the
/// voltorbs of their labels is consistent, and the search started from it
/// returns it alone.
pub proof fn lemma_exact_grid_is_its_own_solution(
    right: Header,
    bottom: Header,
    board: Board,
    s: Seq<Board>,
)
    requires
        is_complete(board),
        meets_labels(right, bottom, board),
        lists_solutions(right, bottom, board, s),
    ensures
        is_consistent(right, bottom, board),
        s == seq![board],
{
    lemma_complete_grid_is_consistent_iff_exact(right, bottom, board);
    lemma_complete_grid_solves_itself(right, bottom, board);
    assert(is_solution_of(right, bottom, board, seq![board][0]));
    assert forall|h: Board| #[trigger] is_solution_of(right, bottom, board, h) implies h
        == board by {
        lemma_complete_completes_itself(board, h);
    }
    lemma_single_solution(right, bottom, board, s, board);
}

/// No grid that the search returns has a hidden cell; each keeps what the
/// start had revealed, passes the consistency test on its own, and so
/// meets every label exactly.
pub proof fn lemma_solutions_are_complete_and_consistent(
    right: Header,
    bottom: Header,
    board: Board,
    s: Seq<Board>,
    i: int,
)
    requires
        lists_solutions(right, bottom, board, s),
        0 <= i < s.len(),
    ensures
        is_complete(s[i]),
        completes(board, s[i]),
        is_consistent(right, bottom, s[i]),
        meets_labels(right, bottom, s[i]),
{
    let g = s[i];
    assert(is_solution_of(right, bottom, board, g));
    assert forall|r: int, c: int| in_grid(r, c) implies (#[trigger] g[r][c]) is Some by {}
    lemma_complete_grid_is_consistent_iff_exact(right, bottom, g);
}

/// Where no grid is admissible the list is empty: a start that is not
/// consistent, with hidden cells or without, has no solution.
pub proof fn lemma_inconsistent_start_gives_nothing(
    right: Header,
    bottom: Header,
    board: Board,
    s: Seq<Board>,
)
    requires
        lists_solutions(right, bottom, board, s),
        !is_consistent(right, bottom, board),
    ensures
        s.len() == 0,
{
    if s.len() > 0 {
        assert(is_solution_of(right, bottom, board, s[0]));
        lemma_prefix_of_solution_is_consistent(right, bottom, board, s[0]);
    }
}

/// No grid comes before itself in search order.
pub proof fn lemma_search_order_irreflexive(a: Board)
    ensures
        !comes_before(a, a),
{
}

/// Search order is transitive.
pub proof fn lemma_search_order_transitive(a: Board, b: Board, c: Board)
    requires
        comes_before(a, b),
        comes_before(b, c),
    ensures
        comes_before(a, c),
{
    let (r1, c1) = choose|r: int, k: int| #[trigger] smaller_at(a, b, r, k);
    let (r2, c2) = choose|r: int, k: int| #[trigger] smaller_at(b, c, r, k);
    if before(r1, c1, r2, c2) {
        assert(b[r1][c1] == c[r1][c1]);
        assert forall|i: int, j: int| in_grid(i, j) && before(i, j, r1, c1) implies (
        #[trigger] a[i][j]) == c[i][j] by {
            assert(b[i][j] == c[i][j]);
        }
        assert(smaller_at(a, c, r1, c1));
    } else if r1 == r2 && c1 == c2 {
        assert forall|i: int, j: int| in_grid(i, j) && before(i, j, r1, c1) implies (
        #[trigger] a[i][j]) == c[i][j] by {
            assert(b[i][j] == c[i][j]);
        }
        assert(smaller_at(a, c, r1, c1));
    } else {
        assert(before(r2, c2, r1, c1));
        assert(a[r2][c2] == b[r2][c2]);
        assert forall|i: int, j: int| in_grid(i, j) && before(i, j, r2, c2) implies (
        #[trigger] a[i][j]) == c[i][j] by {
            assert(b[i][j] == c[i][j]);
        }
        assert(smaller_at(a, c, r2, c2));
    }
}

/// Two lists in search order that hold the same grids are the same list.
proof fn lemma_ordered_lists_agree(s1: Seq<Board>, s2: Seq<Board>)
    requires
        in_search_order(s1),
        in_search_order(s2),
        forall|g: Board| s1.contains(g) <==> s2.contains(g),
    ensures
        s1 == s2,
    decreases s1.len(),
{
    if s1.len() == 0 {
        if s2.len() > 0 {
            assert(s2.contains(s2[0]));
        }
        assert(s1 =~= s2);
    } else if s2.len() == 0 {
        assert(s1.contains(s1[0]));
    } else {
        let a = s1[0];
        let b = s2[0];
        assert(s1.contains(a));
        assert(s2.contains(b));
        let k = choose|k: int| 0 <= k < s2.len() && s2[k] == a;
        let m = choose|m: int| 0 <= m < s1.len() && s1[m] == b;
        if k > 0 && m > 0 {
            assert(comes_before(s2[0], s2[k]));
            assert(comes_before(s1[0], s1[m]));
            lemma_search_order_transitive(a, b, a);
            lemma_search_order_irreflexive(a);
        }
        assert(a == b);
        let t1 = s1.drop_first();
        let t2 = s2.drop_first();
        assert forall|g: Board| t1.contains(g) <==> t2.contains(g) by {
            if t1.contains(g) {
                let i = choose|i: int| 0 <= i < t1.len() && t1[i] == g;
                assert(s1[i + 1] == g);
                assert(comes_before(s1[0], s1[i + 1]));
                lemma_search_order_irreflexive(g);
                assert(s1.contains(g));
                let j = choose|j: int| 0 <= j < s2.len() && s2[j] == g;
                assert(j > 0);
                assert(t2[j - 1] == g);
            }
            if t2.contains(g) {
                let i = choose|i: int| 0 <= i < t2.len() && t2[i] == g;
                assert(s2[i + 1] == g);
                assert(comes_before(s2[0], s2[i + 1]));
                lemma_search_order_irreflexive(g);
                assert(s2.contains(g));
                let j = choose|j: int| 0 <= j < s1.len() && s1[j] == g;
                assert(j > 0);
                assert(t1[j - 1] == g);
            }
        }
        assert forall|i: int, j: int| 0 <= i < j < t1.len() implies comes_before(
            #[trigger] t1[i],
            #[trigger] t1[j],
        ) by {
            assert(comes_before(s1[i + 1], s1[j + 1]));
        }
        assert forall|i: int, j: int| 0 <= i < j < t2.len() implies comes_before(
            #[trigger] t2[i],
            #[trigger] t2[j],
        ) by {
            assert(comes_before(s2[i + 1], s2[j + 1]));
        }
        lemma_ordered_lists_agree(t1, t2);
        assert(s1 =~= seq![a] + t1);
        assert(s2 =~= seq![b] + t2);
    }
}

/// The search is a function of its inputs: whatever two runs on the same
/// labels and the same grid return is equal, element for element and in the
/// same order.
pub proof fn lemma_solutions_are_unique(
    right: Header,
    bottom: Header,
    board: Board,
    s1: Seq<Board>,
    s2: Seq<Board>,
)
    requires
        lists_solutions(right, bottom, board, s1),
        lists_solutions(right, bottom, board, s2),
    ensures
        s1 == s2,
{
    assert forall|g: Board| s1.contains(g) <==> s2.contains(g) by {
        if s1.contains(g) {
            let i = choose|i: int| 0 <= i < s1.len() && s1[i] == g;
            assert(is_solution_of(right, bottom, board, s1[i]));
        }
        if s2.contains(g) {
            let i = choose|i: int| 0 <= i < s2.len() && s2[i] == g;
            assert(is_solution_of(right, bottom, board, s2[i]));
        }
    }
    lemma_ordered_lists_agree(s1, s2);
}

} // verus!
