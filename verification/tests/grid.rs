use vflip::grid::{init, validate, Board, Header, SIZE, VALS};

const RIGHT: Header = [(4, 2), (6, 1), (5, 1), (4, 1), (5, 1)];
const BOTTOM: Header = [(5, 1), (4, 3), (5, 1), (5, 1), (5, 0)];

fn solved() -> Board {
    [
        [Some(0), Some(0), Some(1), Some(2), Some(1)],
        [Some(1), Some(2), Some(2), Some(0), Some(1)],
        [Some(1), Some(2), Some(0), Some(1), Some(1)],
        [Some(1), Some(0), Some(1), Some(1), Some(1)],
        [Some(2), Some(0), Some(1), Some(1), Some(1)],
    ]
}

#[test]
fn size_and_values_are_fixed() {
    assert_eq!(SIZE, 5);
    assert_eq!(VALS, [0, 1, 2, 3]);
}

#[test]
fn init_is_all_unknown() {
    let board = init();
    for r in 0..SIZE {
        for c in 0..SIZE {
            assert_eq!(board[r][c], None);
        }
    }
}

#[test]
fn empty_grid_is_consistent_with_any_labels() {
    assert!(validate(&RIGHT, &BOTTOM, &init()));
    assert!(validate(&[(0, 0); 5], &[(0, 0); 5], &init()));
    assert!(validate(&[(255, 255); 5], &[(255, 255); 5], &init()));
}

#[test]
fn exact_complete_grid_is_consistent() {
    assert!(validate(&RIGHT, &BOTTOM, &solved()));
}

#[test]
fn complete_grid_must_match_exactly() {
    // One point short in row 0 and column 2.
    let mut board = solved();
    board[0][2] = Some(0);
    assert!(!validate(&RIGHT, &BOTTOM, &board));
    // A complete grid under its labels is rejected although nothing exceeds them.
    let high: Header = [(15, 5); 5];
    assert!(!validate(&high, &high, &solved()));
}

#[test]
fn excess_points_in_a_row_are_rejected() {
    let mut board = init();
    board[0][0] = Some(3);
    board[0][1] = Some(2);
    // Row 0 shows 5 points, its label allows 4.
    assert!(!validate(&RIGHT, &BOTTOM, &board));
    board[0][1] = Some(1);
    assert!(validate(&RIGHT, &BOTTOM, &board));
}

#[test]
fn excess_points_in_a_column_are_rejected() {
    let mut board = init();
    board[0][1] = Some(3);
    board[3][1] = Some(2);
    // Column 1 shows 5 points, its label allows 4.
    assert!(!validate(&RIGHT, &BOTTOM, &board));
}

#[test]
fn excess_voltorbs_are_rejected() {
    let mut board = init();
    board[2][4] = Some(0);
    // Column 4 allows no voltorb.
    assert!(!validate(&RIGHT, &BOTTOM, &board));
    let mut board = init();
    board[1][0] = Some(0);
    board[1][1] = Some(0);
    // Row 1 allows one voltorb.
    assert!(!validate(&RIGHT, &BOTTOM, &board));
}

#[test]
fn partial_line_below_its_label_is_accepted() {
    let mut board = init();
    board[0] = [Some(0), Some(0), Some(1), Some(2), None];
    assert!(validate(&RIGHT, &BOTTOM, &board));
    // Revealing the last cell decides the row: 4 points are owed.
    board[0][4] = Some(1);
    assert!(validate(&RIGHT, &BOTTOM, &board));
    board[0][4] = Some(2);
    assert!(!validate(&RIGHT, &BOTTOM, &board));
}

#[test]
fn values_beyond_the_domain_are_summed_without_overflow() {
    let board = [[Some(255u8); SIZE]; SIZE];
    // Each line holds 1275 points, which no label can name.
    assert!(!validate(&[(255, 0); 5], &[(255, 0); 5], &board));
    let mut board = init();
    board[0][0] = Some(200);
    board[0][1] = Some(100);
    // 300 points wrap to 44 in eight bits; they are still more than 50.
    assert!(!validate(&[(50, 5); 5], &[(255, 5); 5], &board));
}
