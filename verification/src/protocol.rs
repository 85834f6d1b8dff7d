//! The line protocol that drives the engine: the commands of the controller,
//! the states of a session, and what each command asks for in each state.

use vstd::prelude::*;
use vstd::string::StrSliceExecFns;

verus! {

/// Plies of look-ahead behind each candidate move when a turn is played.
pub const SEARCH_DEPTH: u32 = 5;

/// Where a session stands.
#[derive(Clone, Copy, Debug, PartialEq, Eq, Structural)]
pub enum State {
    AppIniting,
    GameIniting,
    GameStarting,
    TurnIniting,
    TurnStarting,
}

/// A command of the controller. `AppInit` is given by the driver itself when
/// it starts; the others are read line by line.
#[derive(Clone, Copy, Debug, PartialEq, Eq, Structural)]
pub enum Transition {
    AppInit,
    GameInit,
    GameStart,
    TurnInit,
    TurnStart,
    Throw,
    Sleep(u64),
}

/// What the driver has to do when a command is accepted.
#[derive(Clone, Copy, Debug, PartialEq, Eq, Structural)]
pub enum Action {
    /// Write the line that announces the engine.
    Announce,
    /// Nothing.
    Proceed,
    /// Read the game state that follows and check that it is a document.
    ReadGameState,
    /// Read the game state that follows, answer with the best move if there
    /// is one, and write the line that ends the turn.
    PlayTurn,
    /// Wait for this many seconds.
    Sleep(u64),
}

/// Why a command is not accepted.
#[derive(Clone, Copy, Debug, PartialEq, Eq, Structural)]
pub enum ProtocolError {
    /// The controller asked for a failure.
    Thrown,
    /// The command is not expected in the state.
    Unexpected,
}

/// The end of the word that starts at `from`: the index of the first space at
/// or after `from`, or the length of the line where there is none.
pub open spec fn word_end(line: Seq<char>, from: int) -> int
    decreases line.len() - from,
{
    if from >= line.len() {
        line.len() as int
    } else if line[from] == ' ' {
        from
    } else {
        word_end(line, from + 1)
    }
}

/// The second of the words that single spaces divide the line into; `None`
/// where the line holds no space.
pub open spec fn second_word(line: Seq<char>) -> Option<Seq<char>> {
    let first_end = word_end(line, 0);
    if first_end >= line.len() {
        None
    } else {
        Some(line.subrange(first_end + 1, word_end(line, first_end + 1)))
    }
}

/// Whether every character of `word` is a decimal digit.
pub open spec fn is_digits(word: Seq<char>) -> bool {
    forall|i: int| 0 <= i < word.len() ==> '0' <= #[trigger] word[i] <= '9'
}

/// The value of a decimal digit; 0 for any other character.
pub open spec fn digit_value(c: char) -> nat {
    if '0' <= c <= '9' {
        (c as u32 - '0' as u32) as nat
    } else {
        0
    }
}

/// The number that the decimal digits `digits` write.
pub open spec fn decimal_value(digits: Seq<char>) -> nat
    decreases digits.len(),
{
    if digits.len() == 0 {
        0
    } else {
        decimal_value(digits.drop_last()) * 10 + digit_value(digits.last())
    }
}

/// The number that `word` writes: one or more decimal digits, with or
/// without a plus sign before them, whose value lies within `u64`.
pub open spec fn number_of_word(word: Seq<char>) -> Option<u64> {
    let digits = if word.len() > 0 && word[0] == '+' {
        word.skip(1)
    } else {
        word
    };
    if digits.len() > 0 && is_digits(digits) && decimal_value(digits) <= u64::MAX {
        Some(decimal_value(digits) as u64)
    } else {
        None
    }
}

/// The command that a line of the controller stands for. The five plain
/// commands are written as a word each. A line that begins with `sleep`
/// stands for a pause of as many seconds as its second word writes. Every
/// other line stands for nothing.
pub open spec fn transition_of_line(line: Seq<char>) -> Option<Transition> {
    if line == "game-init"@ {
        Some(Transition::GameInit)
    } else if line == "game-start"@ {
        Some(Transition::GameStart)
    } else if line == "turn-init"@ {
        Some(Transition::TurnInit)
    } else if line == "turn-start"@ {
        Some(Transition::TurnStart)
    } else if line == "throw"@ {
        Some(Transition::Throw)
    } else if "sleep"@.is_prefix_of(line) {
        match second_word(line) {
            Some(word) => match number_of_word(word) {
                Some(seconds) => Some(Transition::Sleep(seconds)),
                None => None,
            },
            None => None,
        }
    } else {
        None
    }
}

/// The state that follows and the action to take when `transition` arrives
/// in `state`.
pub open spec fn step(state: State, transition: Transition) -> Result<(State, Action), ProtocolError> {
    match (state, transition) {
        (State::AppIniting, Transition::AppInit) => Ok((State::GameIniting, Action::Announce)),
        (State::GameIniting, Transition::GameInit) => Ok((State::GameStarting, Action::Proceed)),
        (State::GameStarting, Transition::GameStart) => Ok(
            (State::TurnIniting, Action::ReadGameState),
        ),
        (State::TurnIniting, Transition::TurnInit) => Ok((State::TurnStarting, Action::Proceed)),
        (State::TurnIniting, Transition::Sleep(seconds)) => Ok(
            (State::TurnIniting, Action::Sleep(seconds)),
        ),
        (State::TurnStarting, Transition::TurnStart) => Ok((State::TurnIniting, Action::PlayTurn)),
        (State::TurnStarting, Transition::Sleep(seconds)) => Ok(
            (State::TurnIniting, Action::Sleep(seconds)),
        ),
        (_, Transition::Throw) => Err(ProtocolError::Thrown),
        _ => Err(ProtocolError::Unexpected),
    }
}

/// The value of a prefix of decimal digits does not exceed the value of the
/// whole.
proof fn lemma_decimal_prefix(digits: Seq<char>, n: int)
    requires
        0 <= n <= digits.len(),
    ensures
        decimal_value(digits.take(n)) <= decimal_value(digits),
    decreases digits.len(),
{
    if n == digits.len() {
        assert(digits.take(n) =~= digits);
    } else {
        lemma_decimal_prefix(digits.drop_last(), n);
        assert(digits.drop_last().take(n) =~= digits.take(n));
    }
}

/// The characters of a text.
pub fn characters(text: &str) -> (chars: Vec<char>)
    ensures
        chars@ == text@,
{
    let n: usize = text.unicode_len();
    let mut chars: Vec<char> = Vec::new();
    for i in 0..n
        invariant
            n == text@.len(),
            chars@ == text@.take(i as int),
    {
        chars.push(text.get_char(i));
        assert(text@.take(i + 1) =~= text@.take(i as int).push(text@[i as int]));
    }
    assert(text@.take(n as int) =~= text@);
    chars
}

/// Whether `chars` begins with the characters of `word`.
pub fn begins_with(chars: &Vec<char>, word: &str) -> (found: bool)
    ensures
        found == word@.is_prefix_of(chars@),
{
    let n: usize = word.unicode_len();
    if n > chars.len() {
        return false;
    }
    for i in 0..n
        invariant
            n == word@.len(),
            n <= chars@.len(),
            forall|j: int| 0 <= j < i ==> chars@[j] == word@[j],
    {
        if chars[i] != word.get_char(i) {
            assert(chars@.subrange(0, n as int)[i as int] != word@[i as int]);
            return false;
        }
    }
    assert(word@ =~= chars@.subrange(0, n as int));
    true
}

/// Whether `chars` are the characters of `word`.
pub fn reads(chars: &Vec<char>, word: &str) -> (same: bool)
    ensures
        same == (chars@ == word@),
{
    let n: usize = word.unicode_len();
    if n != chars.len() {
        return false;
    }
    let found = begins_with(chars, word);
    assert(chars@.subrange(0, n as int) =~= chars@);
    found
}

/// The end of the word of `chars` that starts at `from`.
pub fn find_word_end(chars: &Vec<char>, from: usize) -> (end: usize)
    requires
        from <= chars@.len(),
    ensures
        end == word_end(chars@, from as int),
        from <= end <= chars@.len(),
{
    let n: usize = chars.len();
    let mut end: usize = from;
    while end < n && chars[end] != ' '
        invariant
            n == chars@.len(),
            from <= end <= n,
            word_end(chars@, end as int) == word_end(chars@, from as int),
        decreases n - end,
    {
        end += 1;
    }
    end
}

/// The number that the characters of `chars` from `start` up to `end` write.
pub fn read_number(chars: &Vec<char>, start: usize, end: usize) -> (number: Option<u64>)
    requires
        start <= end <= chars@.len(),
    ensures
        number == number_of_word(chars@.subrange(start as int, end as int)),
{
    let ghost word = chars@.subrange(start as int, end as int);
    let mut first: usize = start;
    if start < end && chars[start] == '+' {
        first = start + 1;
    }
    let ghost digits = chars@.subrange(first as int, end as int);
    proof {
        if first == start {
            assert(word.len() > 0 ==> word[0] != '+');
            assert(digits =~= word);
        } else {
            assert(word[0] == '+');
            assert(digits =~= word.skip(1));
        }
    }
    let ghost wanted = number_of_word(word);
    assert(wanted == if digits.len() > 0 && is_digits(digits) && decimal_value(digits) <= u64::MAX {
        Some(decimal_value(digits) as u64)
    } else {
        None
    });
    if first == end {
        return None;
    }
    for i in first..end
        invariant
            first < end <= chars@.len(),
            digits == chars@.subrange(first as int, end as int),
            wanted == number_of_word(chars@.subrange(start as int, end as int)),
            !is_digits(digits) ==> wanted is None,
            forall|j: int| 0 <= j < i - first ==> '0' <= #[trigger] digits[j] <= '9',
    {
        let c: char = chars[i];
        if c < '0' || c > '9' {
            assert(digits[i - first] == c);
            return None;
        }
    }
    let mut value: u64 = 0;
    assert(digits.take(0) =~= Seq::<char>::empty());
    for i in first..end
        invariant
            first < end <= chars@.len(),
            digits == chars@.subrange(first as int, end as int),
            wanted == number_of_word(chars@.subrange(start as int, end as int)),
            wanted == if decimal_value(digits) <= u64::MAX {
                Some(decimal_value(digits) as u64)
            } else {
                None
            },
            is_digits(digits),
            value == decimal_value(digits.take(i - first)),
    {
        let c: char = chars[i];
        proof {
            assert(digits[i - first] == c);
            assert(digits.take(i + 1 - first).drop_last() =~= digits.take(i - first));
            assert(digits.take(i + 1 - first).last() == c);
            lemma_decimal_prefix(digits, i + 1 - first);
        }
        let digit: u64 = (c as u32 - '0' as u32) as u64;
        value = match value.checked_mul(10) {
            Some(tens) => match tens.checked_add(digit) {
                Some(sum) => sum,
                None => { return None; },
            },
            None => { return None; },
        };
    }
    assert(digits.take(end - first) =~= digits);
    Some(value)
}

impl Transition {
    /// Reads a command from a line of the controller, without its line end.
    /// `None` where the line stands for no command.
    pub fn parse(line: &str) -> (transition: Option<Transition>)
        ensures
            transition == transition_of_line(line@),
    {
        let chars = characters(line);
        if reads(&chars, "game-init") {
            Some(Transition::GameInit)
        } else if reads(&chars, "game-start") {
            Some(Transition::GameStart)
        } else if reads(&chars, "turn-init") {
            Some(Transition::TurnInit)
        } else if reads(&chars, "turn-start") {
            Some(Transition::TurnStart)
        } else if reads(&chars, "throw") {
            Some(Transition::Throw)
        } else if begins_with(&chars, "sleep") {
            let first_end = find_word_end(&chars, 0);
            if first_end >= chars.len() {
                None
            } else {
                let second_end = find_word_end(&chars, first_end + 1);
                match read_number(&chars, first_end + 1, second_end) {
                    Some(seconds) => Some(Transition::Sleep(seconds)),
                    None => None,
                }
            }
        } else {
            None
        }
    }
}

impl State {
    /// The state that follows and the action to take when `transition`
    /// arrives in this state; an error where the command is a request to
    /// fail or is not expected in this state.
    pub fn next(self, transition: &Transition) -> (outcome: Result<(State, Action), ProtocolError>)
        ensures
            outcome == step(self, *transition),
    {
        match (self, *transition) {
            (State::AppIniting, Transition::AppInit) => Ok((State::GameIniting, Action::Announce)),
            (State::GameIniting, Transition::GameInit) => Ok(
                (State::GameStarting, Action::Proceed),
            ),
            (State::GameStarting, Transition::GameStart) => Ok(
                (State::TurnIniting, Action::ReadGameState),
            ),
            (State::TurnIniting, Transition::TurnInit) => Ok(
                (State::TurnStarting, Action::Proceed),
            ),
            (State::TurnIniting, Transition::Sleep(seconds)) => Ok(
                (State::TurnIniting, Action::Sleep(seconds)),
            ),
            (State::TurnStarting, Transition::TurnStart) => Ok(
                (State::TurnIniting, Action::PlayTurn),
            ),
            (State::TurnStarting, Transition::Sleep(seconds)) => Ok(
                (State::TurnIniting, Action::Sleep(seconds)),
            ),
            (_, Transition::Throw) => Err(ProtocolError::Thrown),
            _ => Err(ProtocolError::Unexpected),
        }
    }
}

impl Action {
    /// The line that the driver writes for this action, after anything else
    /// that the action asks for; `None` where it writes none.
    pub fn line(&self) -> (line: Option<&'static str>)
        ensures
            match *self {
                Action::Announce => line matches Some(text) && text@ == "bot-start"@,
                Action::PlayTurn => line matches Some(text) && text@ == "turn-end"@,
                _ => line is None,
            },
    {
        match self {
            Action::Announce => Some("bot-start"),
            Action::PlayTurn => Some("turn-end"),
            _ => None,
        }
    }
}

/// Whether `line` is the last line of a game state: the text of a game state
/// ends with the first line that ends in a closing brace.
pub fn ends_game_state(line: &str) -> (last: bool)
    ensures
        last == (line@.len() > 0 && line@.last() == '}'),
{
    let n: usize = line.unicode_len();
    n > 0 && line.get_char(n - 1) == '}'
}

} // verus!
