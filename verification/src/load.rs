//! Reading a position from its external representation.

use vstd::prelude::*;
use vstd::string::StrSliceExecFns;
use json::JsonValue;
use crate::board::{Board, BoardState};
use crate::cell::{cell_of_code, player_of_code, Cell, Player};

verus! {

/// A JSON value of the `json` crate. Nothing of its inside is known here.
#[verifier::external_type_specification]
#[verifier::external_body]
pub struct ExJsonValue(json::JsonValue);

/// The error with which `json::parse` refuses a text.
#[verifier::external_type_specification]
#[verifier::external_body]
pub struct ExJsonError(json::Error);

/// The document that `json::parse` reads from `text`; `None` where it refuses
/// the text.
pub uninterp spec fn json_parsed(text: Seq<char>) -> Option<JsonValue>;

/// What indexing `value` by the string `key` gives: the member of that name
/// where `value` is an object that has one, else the null value.
pub uninterp spec fn json_member(value: JsonValue, key: Seq<char>) -> JsonValue;

/// What indexing `value` by the number `index` gives: the element at that
/// place where `value` is an array that is long enough, else the null value.
pub uninterp spec fn json_element(value: JsonValue, index: int) -> JsonValue;

/// The parts of the number that `value` is, as the `json` crate holds them:
/// whether the sign is positive, the decimal mantissa, and the power of ten
/// by which the mantissa is scaled. `None` where `value` is no number.
pub uninterp spec fn json_number(value: JsonValue) -> Option<(bool, u64, i16)>;

/// `json::parse`: reads a text as a JSON document. The contract gives the
/// outcome its name and claims nothing else of it. Longer texts are left out:
/// on a fraction of more than 32768 digits the parser's digit count leaves
/// its range.
#[verifier::external_body]
fn parse_json(text: &str) -> (document: Result<JsonValue, json::Error>)
    requires
        text@.len() <= MAX_TEXT_LENGTH,
    ensures
        match document {
            Ok(value) => json_parsed(text@) == Some(value),
            Err(_) => json_parsed(text@) is None,
        },
{
    json::parse(text)
}

/// `JsonValue`'s indexing by `&str`. It never fails: a missing member reads
/// as the null value. The contract gives the result its name.
#[verifier::external_body]
fn member<'a>(value: &'a JsonValue, key: &str) -> (found: &'a JsonValue)
    ensures
        *found == json_member(*value, key@),
{
    &value[key]
}

/// `JsonValue`'s indexing by `usize`. It never fails: a missing element reads
/// as the null value. The contract gives the result its name.
#[verifier::external_body]
fn element<'a>(value: &'a JsonValue, index: usize) -> (found: &'a JsonValue)
    ensures
        *found == json_element(*value, index as int),
{
    &value[index]
}

/// `JsonValue::as_number` followed by `Number::as_parts`: the sign, mantissa
/// and exponent of a number, `None` for any other value. The contract gives
/// the result its name.
#[verifier::external_body]
fn number_parts(value: &JsonValue) -> (parts: Option<(bool, u64, i16)>)
    ensures
        parts == json_number(*value),
{
    match value.as_number() {
        Some(number) => Some(number.as_parts()),
        None => None,
    }
}

/// The greatest number of characters of a text that is read as a document.
/// The parser counts the digits of a fraction in sixteen bits; a text within
/// this length cannot hold more digits than it can count.
pub const MAX_TEXT_LENGTH: usize = 32767;

/// Why a position could not be read.
#[derive(Clone, Copy, Debug, PartialEq, Eq, Structural)]
pub enum LoadError {
    /// The text is longer than `MAX_TEXT_LENGTH` characters.
    TooLong,
    /// The text is not a JSON document.
    InvalidJson,
    /// A field is missing, or holds a value that stands for nothing.
    MalformedInput,
}

/// Whether each of the sixteen `codes` stands for a cell value.
pub open spec fn codes_valid(codes: Seq<u8>) -> bool {
    forall|i: int| 0 <= i < 16 ==> cell_of_code(#[trigger] codes[i] as int) is Some
}

/// The board that sixteen cell codes in row-major order, the code of the side
/// to move and the two scores stand for; `None` where a code stands for
/// nothing.
pub open spec fn board_of_codes(codes: Seq<u8>, player: u8, scores: (i32, i32)) -> Option<Board> {
    if codes_valid(codes) && player_of_code(player as int) is Some {
        Some(
            Board {
                cells: Seq::new(16, |i: int| cell_of_code(codes[i] as int).unwrap()),
                to_move: player_of_code(player as int).unwrap(),
                scores: (scores.0 as int, scores.1 as int),
            },
        )
    } else {
        None
    }
}

/// The score that the parts of a JSON number stand for: the whole number
/// itself where it is written without a scale and lies within `i32`.
pub open spec fn score_of_number(parts: Option<(bool, u64, i16)>) -> Option<i32> {
    match parts {
        Some((positive, mantissa, exponent)) => {
            let value: int = if positive {
                mantissa as int
            } else {
                -(mantissa as int)
            };
            if exponent == 0 && i32::MIN <= value <= i32::MAX {
                Some(value as i32)
            } else {
                None
            }
        },
        None => None,
    }
}

/// The small code that the parts of a JSON number stand for: the whole
/// number itself where it has a positive sign, is written without a scale
/// and lies within `u8`.
pub open spec fn code_of_number(parts: Option<(bool, u64, i16)>) -> Option<u8> {
    match parts {
        Some((positive, mantissa, exponent)) => {
            if positive && exponent == 0 && mantissa <= u8::MAX {
                Some(mantissa as u8)
            } else {
                None
            }
        },
        None => None,
    }
}

/// The member `gameState` of a document.
pub open spec fn document_game(document: JsonValue) -> JsonValue {
    json_member(document, "gameState"@)
}

/// The score that a document gives under `key` in its game state.
pub open spec fn document_score(document: JsonValue, key: Seq<char>) -> Option<i32> {
    score_of_number(json_number(json_member(document_game(document), key)))
}

/// The code of the side to move that a document gives.
pub open spec fn document_player(document: JsonValue) -> Option<u8> {
    code_of_number(json_number(json_member(document, "player"@)))
}

/// The code that a document gives for the square with row-major index `i`:
/// the entry in row `i / 4` and column `i % 4` of the grid, which is the
/// member `board` of the member `board` of the game state.
pub open spec fn document_cell(document: JsonValue, i: int) -> Option<u8> {
    let rows = json_member(json_member(document_game(document), "board"@), "board"@);
    code_of_number(json_number(json_element(json_element(rows, i / 4), i % 4)))
}

/// Whether a document gives a code for each of the sixteen squares.
pub open spec fn document_has_cells(document: JsonValue) -> bool {
    forall|i: int| 0 <= i < 16 ==> (#[trigger] document_cell(document, i)) is Some
}

/// The board that a document describes: `None` where one of the two scores,
/// the side to move or one of the sixteen cells is missing or is no number
/// of its kind, or where the side or a cell has a code that stands for
/// nothing.
pub open spec fn board_of_document(document: JsonValue) -> Option<Board> {
    let first = document_score(document, "scorePlayer0"@);
    let second = document_score(document, "scorePlayer1"@);
    let player = document_player(document);
    if first is Some && second is Some && player is Some && document_has_cells(document) {
        board_of_codes(
            Seq::new(16, |i: int| document_cell(document, i).unwrap()),
            player.unwrap(),
            (first.unwrap(), second.unwrap()),
        )
    } else {
        None
    }
}

/// The score that the parts of a JSON number stand for.
pub fn decode_score(parts: Option<(bool, u64, i16)>) -> (score: Option<i32>)
    ensures
        score == score_of_number(parts),
{
    match parts {
        Some((positive, mantissa, exponent)) => {
            if exponent != 0 {
                None
            } else if positive {
                if mantissa <= 0x7fff_ffff {
                    Some(mantissa as i32)
                } else {
                    None
                }
            } else if mantissa <= 0x8000_0000 {
                let value: i64 = -(mantissa as i64);
                Some(value as i32)
            } else {
                None
            }
        },
        None => None,
    }
}

/// The small code that the parts of a JSON number stand for.
pub fn decode_code(parts: Option<(bool, u64, i16)>) -> (code: Option<u8>)
    ensures
        code == code_of_number(parts),
{
    match parts {
        Some((positive, mantissa, exponent)) => {
            if positive && exponent == 0 && mantissa <= 255 {
                Some(mantissa as u8)
            } else {
                None
            }
        },
        None => None,
    }
}

impl BoardState {
    /// Reads a position from a JSON document of this shape: the member
    /// `player` is the code of the side to move; the member `gameState` holds
    /// the scores `scorePlayer0` and `scorePlayer1` and, as the member
    /// `board` of its member `board`, four rows of four cell codes. The
    /// scores are taken over as they are. Nothing is put in the place of a
    /// missing or unreadable field: the document is refused.
    pub fn load(board_state_json: JsonValue) -> (state: Result<BoardState, LoadError>)
        ensures
            match state {
                Ok(s) => board_of_document(board_state_json) == Some(s@),
                Err(e) => e == LoadError::MalformedInput && board_of_document(board_state_json)
                    is None,
            },
    {
        let game = member(&board_state_json, "gameState");
        let first = match decode_score(number_parts(member(game, "scorePlayer0"))) {
            Some(score) => score,
            None => { return Err(LoadError::MalformedInput); },
        };
        let second = match decode_score(number_parts(member(game, "scorePlayer1"))) {
            Some(score) => score,
            None => { return Err(LoadError::MalformedInput); },
        };
        let player = match decode_code(number_parts(member(&board_state_json, "player"))) {
            Some(code) => code,
            None => { return Err(LoadError::MalformedInput); },
        };
        let rows = member(member(game, "board"), "board");
        let mut codes: [u8; 16] = [0u8; 16];
        for i in 0..16usize
            invariant
                *rows == json_member(
                    json_member(document_game(board_state_json), "board"@),
                    "board"@,
                ),
                forall|j: int|
                    0 <= j < i ==> (#[trigger] document_cell(board_state_json, j)) == Some(
                        codes@[j],
                    ),
        {
            match decode_code(number_parts(element(element(rows, i / 4), i % 4))) {
                Some(code) => { codes[i] = code; },
                None => {
                    assert(document_cell(board_state_json, i as int) is None);
                    return Err(LoadError::MalformedInput);
                },
            }
        }
        assert(codes@ =~= Seq::new(16, |i: int| document_cell(board_state_json, i).unwrap()));
        BoardState::from_codes(codes, player, (first, second))
    }

    /// Reads a position from the text of a JSON document, as `load` reads it
    /// from the document. A text of more than `MAX_TEXT_LENGTH` characters is
    /// refused unread.
    pub fn load_text(text: &str) -> (state: Result<BoardState, LoadError>)
        ensures
            text@.len() > MAX_TEXT_LENGTH ==> state == Err::<BoardState, LoadError>(
                LoadError::TooLong,
            ),
            text@.len() <= MAX_TEXT_LENGTH ==> match json_parsed(text@) {
                None => state == Err::<BoardState, LoadError>(LoadError::InvalidJson),
                Some(document) => match state {
                    Ok(s) => board_of_document(document) == Some(s@),
                    Err(e) => e == LoadError::MalformedInput && board_of_document(document)
                        is None,
                },
            },
    {
        if text.unicode_len() > MAX_TEXT_LENGTH {
            return Err(LoadError::TooLong);
        }
        match parse_json(text) {
            Ok(document) => BoardState::load(document),
            Err(_) => Err(LoadError::InvalidJson),
        }
    }

    /// The position given by sixteen cell codes in row-major order (0 empty,
    /// 1 and 2 the two sides, 4 neutral), the code of the side to move (1 or
    /// 2) and the two scores, which are taken over as they are. Any other
    /// code is refused.
    pub fn from_codes(board: [u8; 16], current_player: u8, scores: (i32, i32)) -> (state: Result<
        BoardState,
        LoadError,
    >)
        ensures
            match state {
                Ok(s) => board_of_codes(board@, current_player, scores) == Some(s@),
                Err(e) => e == LoadError::MalformedInput && board_of_codes(
                    board@,
                    current_player,
                    scores,
                ) is None,
            },
    {
        let player = match Player::from_code(current_player) {
            Some(p) => p,
            None => { return Err(LoadError::MalformedInput); },
        };
        let mut cells: [Cell; 16] = [Cell::Empty; 16];
        for i in 0..16usize
            invariant
                forall|j: int| 0 <= j < i ==> cell_of_code(#[trigger] board@[j] as int) == Some(cells@[j]),
        {
            match Cell::from_code(board[i]) {
                Some(c) => { cells[i] = c; },
                None => {
                    assert(!codes_valid(board@));
                    return Err(LoadError::MalformedInput);
                },
            }
        }
        let state = BoardState { board: cells, current_player: player, scores };
        assert(state@.cells =~= Seq::new(16, |i: int| cell_of_code(board@[i] as int).unwrap()));
        Ok(state)
    }

    /// The sixteen cell codes of the grid in row-major order.
    pub fn codes(&self) -> (codes: [u8; 16])
        ensures
            forall|i: int| 0 <= i < 16 ==> #[trigger] codes@[i] == self@.cells[i].spec_code(),
            board_of_codes(codes@, self@.to_move.spec_code() as u8, self.scores) == Some(self@),
    {
        let mut codes: [u8; 16] = [0u8; 16];
        for i in 0..16usize
            invariant
                forall|j: int| 0 <= j < i ==> #[trigger] codes@[j] == self@.cells[j].spec_code(),
        {
            codes[i] = self.board[i].code();
        }
        proof {
            assert(codes_valid(codes@));
            assert(self@.cells =~= Seq::new(16, |i: int| cell_of_code(codes@[i] as int).unwrap()));
        }
        codes
    }
}

} // verus!
