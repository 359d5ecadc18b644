use std::collections::BTreeSet;
use vflip::grid::{init, Board, Header, SIZE};
use vflip::solver::solve;
use vflip::stats::{aggregate, Counts, Possible};

const RIGHT: Header = [(4, 2), (6, 1), (5, 1), (4, 1), (5, 1)];
const BOTTOM: Header = [(5, 1), (4, 3), (5, 1), (5, 1), (5, 0)];

fn set_of(values: &[u8]) -> BTreeSet<u8> {
    values.iter().copied().collect()
}

fn ones() -> Board {
    [[Some(1); SIZE]; SIZE]
}

fn no_values() -> Possible {
    [
        [set_of(&[]), set_of(&[]), set_of(&[]), set_of(&[]), set_of(&[])],
        [set_of(&[]), set_of(&[]), set_of(&[]), set_of(&[]), set_of(&[])],
        [set_of(&[]), set_of(&[]), set_of(&[]), set_of(&[]), set_of(&[])],
        [set_of(&[]), set_of(&[]), set_of(&[]), set_of(&[]), set_of(&[])],
        [set_of(&[]), set_of(&[]), set_of(&[]), set_of(&[]), set_of(&[])],
    ]
}

#[test]
fn no_solutions_give_empty_tables_and_no_recommendation() {
    let zero: Counts = [[0; SIZE]; SIZE];
    let (voltorbs, multipliers, possible, choice) = aggregate(&Vec::new(), &init());
    assert_eq!(voltorbs, zero);
    assert_eq!(multipliers, zero);
    assert_eq!(possible, no_values());
    assert_eq!(choice, None);
    let (voltorbs, multipliers, possible, choice) = aggregate(&Vec::new(), &ones());
    assert_eq!(voltorbs, zero);
    assert_eq!(multipliers, zero);
    assert_eq!(possible, no_values());
    assert_eq!(choice, None);
}

#[test]
fn tables_of_the_solved_empty_grid() {
    let game = init();
    let solutions = solve(&RIGHT, &BOTTOM, game);
    let (voltorbs, multipliers, possible, choice) = aggregate(&solutions, &game);
    assert_eq!(
        voltorbs,
        [
            [60, 108, 60, 60, 0],
            [38, 30, 38, 38, 0],
            [19, 87, 19, 19, 0],
            [8, 120, 8, 8, 0],
            [19, 87, 19, 19, 0],
        ]
    );
    assert_eq!(
        multipliers,
        [
            [38, 30, 38, 38, 0],
            [36, 114, 36, 36, 0],
            [35, 39, 35, 35, 0],
            [0, 0, 0, 0, 0],
            [35, 39, 35, 35, 0],
        ]
    );
    let a = || set_of(&[0, 1, 2]);
    let b = || set_of(&[0, 1]);
    let c = || set_of(&[1]);
    assert_eq!(
        possible,
        [
            [a(), a(), a(), a(), c()],
            [a(), set_of(&[0, 2, 3]), a(), a(), c()],
            [a(), a(), a(), a(), c()],
            [b(), b(), b(), b(), c()],
            [a(), a(), a(), a(), c()],
        ]
    );
    // The fewest voltorbs among the cells that can multiply: 19, first at (2, 0).
    assert_eq!(choice, Some((2, 0)));
}

#[test]
fn tables_with_revealed_cells() {
    let mut game = init();
    game[1][1] = Some(3);
    game[0][4] = Some(1);
    let solutions = solve(&RIGHT, &BOTTOM, game);
    assert_eq!(solutions.len(), 66);
    let (voltorbs, multipliers, _, choice) = aggregate(&solutions, &game);
    assert_eq!(
        voltorbs,
        [
            [24, 60, 24, 24, 0],
            [22, 0, 22, 22, 0],
            [6, 48, 6, 6, 0],
            [8, 42, 8, 8, 0],
            [6, 48, 6, 6, 0],
        ]
    );
    assert_eq!(
        multipliers,
        [
            [22, 0, 22, 22, 0],
            [0, 66, 0, 0, 0],
            [22, 0, 22, 22, 0],
            [0, 0, 0, 0, 0],
            [22, 0, 22, 22, 0],
        ]
    );
    assert_eq!(choice, Some((2, 0)));
}

#[test]
fn tie_goes_to_the_earlier_cell() {
    let mut first = ones();
    first[1][3] = Some(0);
    first[3][1] = Some(2);
    let mut second = ones();
    second[1][3] = Some(2);
    second[3][1] = Some(0);
    let (voltorbs, multipliers, _, choice) = aggregate(&vec![first, second], &init());
    assert_eq!(voltorbs[1][3], 1);
    assert_eq!(voltorbs[3][1], 1);
    assert_eq!(multipliers[1][3], 1);
    assert_eq!(multipliers[3][1], 1);
    assert_eq!(choice, Some((1, 3)));
    // The order of the solutions does not matter.
    let (_, _, _, choice) = aggregate(&vec![second, first], &init());
    assert_eq!(choice, Some((1, 3)));
}

#[test]
fn tie_within_a_row_goes_to_the_left() {
    let mut first = ones();
    first[2][1] = Some(3);
    first[2][4] = Some(0);
    let mut second = ones();
    second[2][1] = Some(0);
    second[2][4] = Some(3);
    let (_, _, _, choice) = aggregate(&vec![first, second], &init());
    assert_eq!(choice, Some((2, 1)));
}

#[test]
fn fewer_voltorbs_win_over_an_earlier_cell() {
    let mut first = ones();
    first[1][3] = Some(0);
    first[3][1] = Some(2);
    let mut second = ones();
    second[1][3] = Some(2);
    second[3][1] = Some(0);
    let mut third = ones();
    third[1][3] = Some(0);
    third[3][1] = Some(3);
    let (voltorbs, _, possible, choice) = aggregate(&vec![first, second, third], &init());
    assert_eq!(voltorbs[1][3], 2);
    assert_eq!(voltorbs[3][1], 1);
    assert_eq!(possible[3][1], set_of(&[0, 2, 3]));
    assert_eq!(choice, Some((3, 1)));
}

#[test]
fn revealed_cells_are_not_recommended() {
    let mut first = ones();
    first[1][3] = Some(0);
    first[3][1] = Some(2);
    let mut second = ones();
    second[1][3] = Some(2);
    second[3][1] = Some(0);
    let mut game = init();
    game[1][3] = Some(2);
    let (_, _, _, choice) = aggregate(&vec![first, second], &game);
    assert_eq!(choice, Some((3, 1)));
    game[3][1] = Some(2);
    let (_, _, _, choice) = aggregate(&vec![first, second], &game);
    assert_eq!(choice, None);
}

#[test]
fn safe_cells_without_multiplier_are_not_recommended() {
    // No voltorb anywhere, and no value above one: nothing to chase.
    let (voltorbs, multipliers, _, choice) = aggregate(&vec![ones()], &init());
    assert_eq!(voltorbs, [[0; SIZE]; SIZE]);
    assert_eq!(multipliers, [[0; SIZE]; SIZE]);
    assert_eq!(choice, None);
}

#[test]
fn values_beyond_the_domain_count_but_do_not_recommend() {
    let mut board = ones();
    board[0][0] = Some(7);
    let (_, multipliers, possible, choice) = aggregate(&vec![board], &init());
    assert_eq!(multipliers[0][0], 1);
    assert_eq!(possible[0][0], set_of(&[7]));
    assert_eq!(choice, None);
}

#[test]
fn hidden_cells_of_a_solution_are_skipped() {
    let mut board = init();
    board[4][4] = Some(2);
    let (voltorbs, multipliers, possible, choice) = aggregate(&vec![board, board], &init());
    assert_eq!(voltorbs, [[0; SIZE]; SIZE]);
    assert_eq!(multipliers[4][4], 2);
    assert_eq!(multipliers[0][0], 0);
    assert_eq!(possible[0][0], set_of(&[]));
    assert_eq!(possible[4][4], set_of(&[2]));
    assert_eq!(choice, Some((4, 4)));
}
