use lgame::board::BoardState;
use lgame::cell::{Cell, Player};
use lgame::load::{decode_code, decode_score, LoadError, MAX_TEXT_LENGTH};

const OPENING: &str = r#"{"player":1,"gameState":{"scorePlayer0":0,"scorePlayer1":0,"board":{"board":[[4,0,0,0],[1,2,2,2],[1,1,1,2],[0,0,0,4]]}}}"#;

fn document(player: &str, first: &str, second: &str, rows: &str) -> String {
    format!(
        "{{\"player\":{},\"gameState\":{{\"scorePlayer0\":{},\"scorePlayer1\":{},\"board\":{{\"board\":{}}}}}}}",
        player, first, second, rows
    )
}

const ROWS: &str = "[[0,0,4,0],[2,2,2,0],[1,0,2,0],[1,1,1,4]]";

#[test]
fn codes_make_a_position() {
    let state = BoardState::from_codes([4, 0, 0, 0, 1, 2, 2, 2, 1, 1, 1, 2, 0, 0, 0, 4], 1, (0, 0));
    assert_eq!(state, Ok(BoardState::new()));
    let state = BoardState::from_codes([0, 0, 4, 0, 2, 2, 2, 0, 1, 0, 2, 0, 1, 1, 1, 4], 2, (3, -4)).unwrap();
    assert_eq!(state.current_player, Player::Player2);
    assert_eq!(state.scores, (3, -4));
    assert_eq!(state.board[2], Cell::Neutral);
    assert_eq!(state.board[4], Cell::Player2);
    assert_eq!(state.board[8], Cell::Player1);
    assert_eq!(state.board[0], Cell::Empty);
    assert_eq!(state.codes(), [0, 0, 4, 0, 2, 2, 2, 0, 1, 0, 2, 0, 1, 1, 1, 4]);
}

#[test]
fn codes_that_stand_for_nothing_are_refused() {
    let good = [4, 0, 0, 0, 1, 2, 2, 2, 1, 1, 1, 2, 0, 0, 0, 4];
    assert_eq!(BoardState::from_codes(good, 0, (0, 0)), Err(LoadError::MalformedInput));
    assert_eq!(BoardState::from_codes(good, 3, (0, 0)), Err(LoadError::MalformedInput));
    let mut bad = good;
    bad[15] = 3;
    assert_eq!(BoardState::from_codes(bad, 1, (0, 0)), Err(LoadError::MalformedInput));
    bad[15] = 5;
    assert_eq!(BoardState::from_codes(bad, 1, (0, 0)), Err(LoadError::MalformedInput));
    bad[15] = 255;
    assert_eq!(BoardState::from_codes(bad, 1, (0, 0)), Err(LoadError::MalformedInput));
}

#[test]
fn scores_are_read_from_number_parts() {
    assert_eq!(decode_score(Some((true, 0, 0))), Some(0));
    assert_eq!(decode_score(Some((true, 17, 0))), Some(17));
    assert_eq!(decode_score(Some((false, 17, 0))), Some(-17));
    assert_eq!(decode_score(Some((false, 0, 0))), Some(0));
    assert_eq!(decode_score(Some((true, 2147483647, 0))), Some(i32::MAX));
    assert_eq!(decode_score(Some((true, 2147483648, 0))), None);
    assert_eq!(decode_score(Some((false, 2147483648, 0))), Some(i32::MIN));
    assert_eq!(decode_score(Some((false, 2147483649, 0))), None);
    assert_eq!(decode_score(Some((true, u64::MAX, 0))), None);
    assert_eq!(decode_score(Some((false, 1 << 63, 0))), None);
    assert_eq!(decode_score(Some((true, 5, 1))), None);
    assert_eq!(decode_score(Some((true, 5, -1))), None);
    assert_eq!(decode_score(None), None);
}

#[test]
fn codes_are_read_from_number_parts() {
    assert_eq!(decode_code(Some((true, 0, 0))), Some(0));
    assert_eq!(decode_code(Some((true, 4, 0))), Some(4));
    assert_eq!(decode_code(Some((true, 255, 0))), Some(255));
    assert_eq!(decode_code(Some((true, 256, 0))), None);
    assert_eq!(decode_code(Some((false, 1, 0))), None);
    assert_eq!(decode_code(Some((false, 0, 0))), None);
    assert_eq!(decode_code(Some((true, 1, 2))), None);
    assert_eq!(decode_code(Some((true, 1, -2))), None);
    assert_eq!(decode_code(None), None);
}

#[test]
fn the_opening_is_read_from_its_document() {
    assert_eq!(BoardState::load_text(OPENING), Ok(BoardState::new()));
    assert_eq!(BoardState::load(json::parse(OPENING).unwrap()), Ok(BoardState::new()));
}

#[test]
fn every_field_goes_to_its_place() {
    let text = document("2", "7", "-3", ROWS);
    let state = BoardState::load_text(&text).unwrap();
    assert_eq!(state.current_player, Player::Player2);
    assert_eq!(state.scores, (7, -3));
    assert_eq!(state.codes(), [0, 0, 4, 0, 2, 2, 2, 0, 1, 0, 2, 0, 1, 1, 1, 4]);
    assert_eq!(
        Ok(state),
        BoardState::from_codes([0, 0, 4, 0, 2, 2, 2, 0, 1, 0, 2, 0, 1, 1, 1, 4], 2, (7, -3))
    );
}

#[test]
fn other_members_and_white_space_do_not_matter() {
    let text = "{ \"extra\": [1, 2], \"gameState\": { \"board\": { \"board\": [[4,0,0,0],\n[1,2,2,2],\n[1,1,1,2],\n[0,0,0,4]], \"size\": 4 },\n \"scorePlayer1\": 0, \"scorePlayer0\": 0 }, \"player\": 1 }";
    assert_eq!(BoardState::load_text(text), Ok(BoardState::new()));
}

#[test]
fn text_that_is_no_document_is_refused() {
    assert_eq!(BoardState::load_text(""), Err(LoadError::InvalidJson));
    assert_eq!(BoardState::load_text("{\"player\":1"), Err(LoadError::InvalidJson));
    assert_eq!(BoardState::load_text("bot-start"), Err(LoadError::InvalidJson));
}

#[test]
fn missing_fields_are_refused() {
    assert_eq!(BoardState::load_text("{}"), Err(LoadError::MalformedInput));
    assert_eq!(BoardState::load_text("[]"), Err(LoadError::MalformedInput));
    assert_eq!(BoardState::load_text("7"), Err(LoadError::MalformedInput));
    let no_player = format!("{{\"gameState\":{{\"scorePlayer0\":0,\"scorePlayer1\":0,\"board\":{{\"board\":{}}}}}}}", ROWS);
    assert_eq!(BoardState::load_text(&no_player), Err(LoadError::MalformedInput));
    let no_score = format!("{{\"player\":1,\"gameState\":{{\"scorePlayer0\":0,\"board\":{{\"board\":{}}}}}}}", ROWS);
    assert_eq!(BoardState::load_text(&no_score), Err(LoadError::MalformedInput));
    let no_board = "{\"player\":1,\"gameState\":{\"scorePlayer0\":0,\"scorePlayer1\":0}}";
    assert_eq!(BoardState::load_text(no_board), Err(LoadError::MalformedInput));
    let flat_board = document("1", "0", "0", "[4,0,0,0,1,2,2,2,1,1,1,2,0,0,0,4]");
    assert_eq!(BoardState::load_text(&flat_board), Err(LoadError::MalformedInput));
    let short_row = document("1", "0", "0", "[[0,0,4,0],[2,2,2,0],[1,0,2,0],[1,1,1]]");
    assert_eq!(BoardState::load_text(&short_row), Err(LoadError::MalformedInput));
    let short_grid = document("1", "0", "0", "[[0,0,4,0],[2,2,2,0],[1,0,2,0]]");
    assert_eq!(BoardState::load_text(&short_grid), Err(LoadError::MalformedInput));
}

#[test]
fn values_out_of_range_are_refused() {
    assert_eq!(BoardState::load_text(&document("0", "0", "0", ROWS)), Err(LoadError::MalformedInput));
    assert_eq!(BoardState::load_text(&document("3", "0", "0", ROWS)), Err(LoadError::MalformedInput));
    assert_eq!(BoardState::load_text(&document("-1", "0", "0", ROWS)), Err(LoadError::MalformedInput));
    assert_eq!(BoardState::load_text(&document("\"1\"", "0", "0", ROWS)), Err(LoadError::MalformedInput));
    assert_eq!(BoardState::load_text(&document("1", "0.5", "0", ROWS)), Err(LoadError::MalformedInput));
    assert_eq!(BoardState::load_text(&document("1", "0", "2147483648", ROWS)), Err(LoadError::MalformedInput));
    assert_eq!(BoardState::load_text(&document("1", "0", "null", ROWS)), Err(LoadError::MalformedInput));
    assert_eq!(
        BoardState::load_text(&document("1", "0", "-9223372036854775808", ROWS)),
        Err(LoadError::MalformedInput)
    );
    assert_eq!(
        BoardState::load_text(&document("1", "18446744073709551615", "0", ROWS)),
        Err(LoadError::MalformedInput)
    );
    let bad_cell = document("1", "0", "0", "[[0,0,4,0],[2,2,2,0],[1,0,3,0],[1,1,1,4]]");
    assert_eq!(BoardState::load_text(&bad_cell), Err(LoadError::MalformedInput));
    let big_cell = document("1", "0", "0", "[[0,0,4,0],[2,2,2,0],[1,0,256,0],[1,1,1,4]]");
    assert_eq!(BoardState::load_text(&big_cell), Err(LoadError::MalformedInput));
    let text_cell = document("1", "0", "0", "[[0,0,4,0],[2,2,2,0],[1,0,\"2\",0],[1,1,1,4]]");
    assert_eq!(BoardState::load_text(&text_cell), Err(LoadError::MalformedInput));
}

#[test]
fn scores_at_the_ends_of_the_range_are_kept() {
    let state = BoardState::load_text(&document("1", "2147483647", "-2147483648", ROWS)).unwrap();
    assert_eq!(state.scores, (i32::MAX, i32::MIN));
}

#[test]
fn texts_beyond_the_length_are_refused_unread() {
    assert_eq!(MAX_TEXT_LENGTH, 32767);
    let zeros = format!("0.{}", "0".repeat(32769));
    assert_eq!(BoardState::load_text(&zeros), Err(LoadError::TooLong));
    assert_eq!(BoardState::load_text(&document("1", &zeros, "0", ROWS)), Err(LoadError::TooLong));
    let padded = format!("{}{}", OPENING, " ".repeat(MAX_TEXT_LENGTH + 1 - OPENING.len()));
    assert_eq!(padded.len(), MAX_TEXT_LENGTH + 1);
    assert_eq!(BoardState::load_text(&padded), Err(LoadError::TooLong));
    let junk = "x".repeat(MAX_TEXT_LENGTH + 1);
    assert_eq!(BoardState::load_text(&junk), Err(LoadError::TooLong));
}

#[test]
fn texts_of_the_greatest_length_are_read() {
    let padded = format!("{}{}", OPENING, " ".repeat(MAX_TEXT_LENGTH - OPENING.len()));
    assert_eq!(padded.len(), MAX_TEXT_LENGTH);
    assert_eq!(BoardState::load_text(&padded), Ok(BoardState::new()));
    let junk = "x".repeat(MAX_TEXT_LENGTH);
    assert_eq!(BoardState::load_text(&junk), Err(LoadError::InvalidJson));
    let zeros = format!("0.{}", "0".repeat(MAX_TEXT_LENGTH - 2));
    assert_eq!(zeros.len(), MAX_TEXT_LENGTH);
    assert_eq!(BoardState::load_text(&zeros), Err(LoadError::MalformedInput));
    let fraction = document("1", &format!("0.{}", "0".repeat(30000)), "0", ROWS);
    assert_eq!(BoardState::load_text(&fraction), Err(LoadError::MalformedInput));
}

#[test]
fn length_is_counted_in_characters() {
    let text = format!("\"{}\"", "\u{e4}".repeat(MAX_TEXT_LENGTH - 2));
    assert!(text.len() > MAX_TEXT_LENGTH);
    assert_eq!(text.chars().count(), MAX_TEXT_LENGTH);
    assert_eq!(BoardState::load_text(&text), Err(LoadError::MalformedInput));
    let longer = format!("\"{}\"", "\u{e4}".repeat(MAX_TEXT_LENGTH - 1));
    assert_eq!(BoardState::load_text(&longer), Err(LoadError::TooLong));
}
