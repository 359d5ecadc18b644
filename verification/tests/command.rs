use vflip::command::{
    agrees, bottom_question, fill, interpret, interpret_label, is_value, normalize, off_board,
    parse_command, parse_label, read_index, refusal, reset_cell, right_question, Command,
};
use vflip::error::Error;
use vflip::grid::{init, Board, SIZE};

fn custom(text: &str) -> Error {
    Error::Custom(text.to_string())
}

fn words(list: &[&str]) -> Vec<String> {
    list.iter().map(|word| word.to_string()).collect()
}

fn numbered() -> Board {
    let mut board = init();
    for r in 0..SIZE {
        for c in 0..SIZE {
            board[r][c] = Some((r * SIZE + c) as u8 + 10);
        }
    }
    board
}

#[test]
fn commands_by_their_first_word() {
    assert_eq!(parse_command("quit"), Ok(Command::Quit));
    assert_eq!(parse_command("help"), Ok(Command::Help));
    assert_eq!(parse_command("reset"), Ok(Command::Reset));
    assert_eq!(parse_command("clear"), Ok(Command::Clear));
    assert_eq!(parse_command("headers"), Ok(Command::Headers));
    assert_eq!(parse_command("  help \t me\n"), Ok(Command::Help));
    assert_eq!(parse_command("quit now"), Ok(Command::Quit));
}

#[test]
fn unknown_words_ask_for_nothing() {
    assert_eq!(parse_command("solve"), Ok(Command::Nothing));
    assert_eq!(parse_command("QUIT"), Ok(Command::Nothing));
    assert_eq!(parse_command("quit!"), Ok(Command::Nothing));
    assert_eq!(parse_command("7 set"), Ok(Command::Nothing));
}

#[test]
fn empty_line_is_unparsable() {
    assert_eq!(parse_command(""), Err(custom("Unparsable")));
    assert_eq!(parse_command("  \t \n"), Err(custom("Unparsable")));
    assert_eq!(interpret(&Vec::new()), Err(custom("Unparsable")));
}

#[test]
fn set_with_three_numbers() {
    assert_eq!(parse_command("set 1 2 3"), Ok(Command::Assign { column: 1, row: 2, value: 3 }));
    assert_eq!(
        parse_command("  set   5\t4 0 and more"),
        Ok(Command::Assign { column: 5, row: 4, value: 0 })
    );
    assert_eq!(
        parse_command("set +1 002 255"),
        Ok(Command::Assign { column: 1, row: 2, value: 255 })
    );
    assert_eq!(
        interpret(&words(&["set", "0", "0", "9"])),
        Ok(Command::Assign { column: 0, row: 0, value: 9 })
    );
}

#[test]
fn set_with_all() {
    assert_eq!(parse_command("set all 2 1"), Ok(Command::Assign { column: 0, row: 2, value: 1 }));
    assert_eq!(parse_command("set 3 all 1"), Ok(Command::Assign { column: 3, row: 0, value: 1 }));
    assert_eq!(parse_command("set all all 0"), Ok(Command::Assign { column: 0, row: 0, value: 0 }));
}

#[test]
fn set_that_lacks_a_number_asks_for_nothing() {
    assert_eq!(parse_command("set"), Ok(Command::Nothing));
    assert_eq!(parse_command("set 1"), Ok(Command::Nothing));
    assert_eq!(parse_command("set all"), Ok(Command::Nothing));
    assert_eq!(parse_command("set 1 2"), Ok(Command::Nothing));
}

#[test]
fn set_with_a_word_that_is_no_number() {
    for line in ["set x", "set 1 y", "set 1 2 z", "set 1 2 all", "set -1 2 3", "set 1 2 3.0", "set + 2 3", "set ALL 1 1"] {
        match parse_command(line) {
            Err(error @ Error::Plain(_)) => {
                assert_eq!(error.message(), "invalid digit found in string", "{}", line)
            }
            other => panic!("{}: {:?}", line, other),
        }
    }
}

#[test]
fn set_with_a_number_that_is_too_large() {
    for line in ["set 256 1 1", "set 1 1000 1", "set 1 1 0256"] {
        match parse_command(line) {
            Err(error @ Error::Plain(_)) => {
                assert_eq!(error.message(), "number too large to fit in target type", "{}", line)
            }
            other => panic!("{}: {:?}", line, other),
        }
    }
}

#[test]
fn the_first_flaw_of_a_set_decides() {
    // The column is read before anything tells that the row is missing.
    assert!(matches!(parse_command("set x"), Err(Error::Plain(_))));
    assert!(matches!(parse_command("set 1 x"), Err(Error::Plain(_))));
    assert!(matches!(parse_command("set x y z"), Err(Error::Plain(_))));
}

#[test]
fn labels() {
    assert_eq!(parse_label("4 2"), Ok((4, 2)));
    assert_eq!(parse_label("  06\t+1  "), Ok((6, 1)));
    assert_eq!(parse_label("255 0 and more"), Ok((255, 0)));
    assert_eq!(interpret_label(&words(&["15", "5", "x"])), Ok((15, 5)));
}

#[test]
fn labels_that_fall_short() {
    assert_eq!(parse_label(""), Err(custom("Bad Arguments")));
    assert_eq!(parse_label("   "), Err(custom("Bad Arguments")));
    assert_eq!(parse_label("4"), Err(custom("Bad Arguments")));
    assert_eq!(interpret_label(&Vec::new()), Err(custom("Bad Arguments")));
}

#[test]
fn labels_with_a_word_that_is_no_number() {
    assert!(matches!(parse_label("x"), Err(Error::Plain(_))));
    assert!(matches!(parse_label("x 2"), Err(Error::Plain(_))));
    assert!(matches!(parse_label("4 x"), Err(Error::Plain(_))));
    assert!(matches!(parse_label("256 1"), Err(Error::Plain(_))));
    assert!(matches!(parse_label("1 -1"), Err(Error::Plain(_))));
}

#[test]
fn indices() {
    assert_eq!(read_index("12"), Ok(12));
    assert_eq!(read_index("+0"), Ok(0));
    assert_eq!(read_index("4294967295"), Ok(4294967295));
    assert!(matches!(read_index(""), Err(Error::Plain(_))));
    assert!(matches!(read_index(" 1"), Err(Error::Plain(_))));
    assert!(matches!(read_index("-1"), Err(Error::Plain(_))));
    assert!(matches!(read_index("99999999999999999999999"), Err(Error::Plain(_))));
    match read_index("") {
        Err(error) => assert_eq!(error.message(), "cannot parse integer from empty string"),
        other => panic!("{:?}", other),
    }
}

#[test]
fn values_of_the_domain() {
    assert!(is_value(0));
    assert!(is_value(1));
    assert!(is_value(2));
    assert!(is_value(3));
    assert!(!is_value(4));
    assert!(!is_value(255));
}

#[test]
fn fill_one_cell() {
    let board = numbered();
    let next = fill(&board, 2, 4, 3);
    let mut expected = board;
    expected[3][1] = Some(3);
    assert_eq!(next, Some(expected));
}

#[test]
fn fill_a_row_a_column_or_all() {
    let board = numbered();
    let mut expected = board;
    expected[0] = [Some(1); SIZE];
    assert_eq!(fill(&board, 0, 1, 1), Some(expected));
    let mut expected = board;
    for r in 0..SIZE {
        expected[r][4] = Some(0);
    }
    assert_eq!(fill(&board, 5, 0, 0), Some(expected));
    assert_eq!(fill(&board, 0, 0, 2), Some([[Some(2); SIZE]; SIZE]));
    assert_eq!(fill(&init(), 0, 0, 9), Some([[Some(9); SIZE]; SIZE]));
}

#[test]
fn reset_counts_rows_from_the_bottom() {
    let board = numbered();
    let mut expected = board;
    expected[4][0] = None;
    assert_eq!(reset_cell(&board, 1, 1), Some(expected));
    let mut expected = board;
    expected[0][4] = None;
    assert_eq!(reset_cell(&board, 5, 5), Some(expected));
    let mut expected = board;
    expected[3][2] = None;
    assert_eq!(reset_cell(&board, 3, 2), Some(expected));
    assert_eq!(reset_cell(&init(), 3, 2), Some(init()));
}

#[test]
fn only_a_plain_y_agrees() {
    assert!(agrees(&"y".to_string()));
    assert!(!agrees(&"Y".to_string()));
    assert!(!agrees(&"yes".to_string()));
    assert!(!agrees(&" y".to_string()));
    assert!(!agrees(&"n".to_string()));
    assert!(!agrees(&String::new()));
}

#[test]
fn refusal_lists_the_values() {
    assert_eq!(refusal(), "Invalid Value; must be in [0, 1, 2, 3]\n");
}

#[test]
fn questions_count_from_one() {
    assert_eq!(right_question(0), "Right 1 =    ");
    assert_eq!(right_question(4), "Right 5 =    ");
    assert_eq!(bottom_question(0), "Bottom 1 =     ");
    assert_eq!(bottom_question(4), "Bottom 5 =     ");
    assert_eq!(bottom_question(99), "Bottom 100 =     ");
}

#[test]
fn normalize_trims_and_lowers() {
    assert_eq!(normalize("  Set ALL 1 2 \r\n"), "set all 1 2");
    assert_eq!(normalize("y\n"), "y");
    assert_eq!(normalize("\t\n"), "");
    assert_eq!(normalize("a  B"), "a  b");
    assert_eq!(normalize("\u{c9}T\u{c9}"), "\u{e9}t\u{e9}");
}

#[test]
fn set_outside_the_grid_is_refused() {
    // `set 6 1 2` reads as a command, and names a column that the grid lacks.
    assert_eq!(parse_command("set 6 1 2"), Ok(Command::Assign { column: 6, row: 1, value: 2 }));
    let board = numbered();
    assert_eq!(fill(&board, 6, 1, 2), None);
    assert_eq!(fill(&board, 1, 6, 2), None);
    assert_eq!(fill(&board, 255, 255, 0), None);
    assert_eq!(fill(&board, 0, 6, 1), None);
    assert!(fill(&board, 5, 5, 2).is_some());
}

#[test]
fn reset_outside_the_grid_is_refused() {
    let board = numbered();
    assert_eq!(reset_cell(&board, 0, 1), None);
    assert_eq!(reset_cell(&board, 1, 0), None);
    assert_eq!(reset_cell(&board, 6, 1), None);
    assert_eq!(reset_cell(&board, 1, 6), None);
    assert_eq!(reset_cell(&board, usize::MAX, usize::MAX), None);
}

#[test]
fn refusal_of_a_cell_off_the_board() {
    assert_eq!(off_board(), "Invalid Cell; must be on the board\n");
}
