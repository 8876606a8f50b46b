//! What the player asks of the engine, and what the engine answers.

use vstd::prelude::*;

verus! {

/// A key press as the terminal reports it.
#[derive(Clone, Copy, PartialEq, Eq, Structural, Debug)]
pub enum Key {
    Escape,
    Enter,
    ArrowLeft,
    ArrowRight,
    Char(char),
    /// Any key that the game has no use for.
    Other,
}

/// What the player wants the engine to do.
#[derive(Clone, Copy, PartialEq, Eq, Structural, Debug)]
pub enum Intent {
    /// Leave the game, in whatever state it is.
    Quit,
    /// Go on: place the bet, draw, or take the payout.
    Confirm,
    /// Raise the bet by one step, or wrap to the lowest bet.
    CycleBet,
    /// Flip the held flag of the slot under the cursor.
    ToggleHold,
    CursorLeft,
    CursorRight,
    /// Start over after the funds have run out.
    NewGame,
    /// Leave after the funds have run out.
    Decline,
}

/// Why the engine turned a request down. A request that is turned down
/// changes nothing.
#[derive(Clone, Copy, PartialEq, Eq, Structural, Debug)]
pub enum Rejection {
    /// The bet is not between the lowest and the highest amount.
    BetOutOfRange,
    /// The bet exceeds the funds.
    InsufficientFunds,
    /// The hand has no slot with that index.
    SlotOutOfRange,
}

/// What the caller does after a request.
#[derive(Clone, Copy, PartialEq, Eq, Structural, Debug)]
pub enum Outcome {
    /// The session goes on: show the state and wait for the next request.
    Continue,
    /// The request was turned down and nothing changed.
    Rejected(Rejection),
    /// The session is over.
    EndSession,
}

/// The intent that a key stands for, if any.
pub open spec fn intent_of(key: Key) -> Option<Intent> {
    match key {
        Key::Escape => Some(Intent::Quit),
        Key::Enter => Some(Intent::Confirm),
        Key::ArrowLeft => Some(Intent::CursorLeft),
        Key::ArrowRight => Some(Intent::CursorRight),
        Key::Char(c) => if c == 'b' {
            Some(Intent::CycleBet)
        } else if c == ' ' {
            Some(Intent::ToggleHold)
        } else if c == 'y' {
            Some(Intent::NewGame)
        } else if c == 'n' {
            Some(Intent::Decline)
        } else {
            None
        },
        Key::Other => None,
    }
}

/// The intent that a key stands for, if any.
pub fn intent_for_key(key: Key) -> (intent: Option<Intent>)
    ensures
        intent == intent_of(key),
{
    match key {
        Key::Escape => Some(Intent::Quit),
        Key::Enter => Some(Intent::Confirm),
        Key::ArrowLeft => Some(Intent::CursorLeft),
        Key::ArrowRight => Some(Intent::CursorRight),
        Key::Char(c) => {
            if c == 'b' {
                Some(Intent::CycleBet)
            } else if c == ' ' {
                Some(Intent::ToggleHold)
            } else if c == 'y' {
                Some(Intent::NewGame)
            } else if c == 'n' {
                Some(Intent::Decline)
            } else {
                None
            }
        },
        Key::Other => None,
    }
}

/// Whether `word`, a text in lower case, asks to leave the game.
pub open spec fn is_quit_word(word: Seq<char>) -> bool {
    word == "quit"@ || word == "exit"@
}

/// The lower-case form of a text, as `str::to_lowercase` gives it.
pub uninterp spec fn lowercase_of(text: Seq<char>) -> Seq<char>;

/// `str::to_lowercase`: the text with each character replaced by its
/// lower-case form. The form depends on the text alone; which it is, is
/// left to the standard library.
#[verifier::external_body]
fn lowercase(text: &String) -> (lowered: String)
    ensures
        lowered@ == lowercase_of(text@),
{
    text.to_lowercase()
}

/// Whether `word`, a text in lower case, asks to leave the game.
pub fn names_quit(word: &String) -> (quits: bool)
    ensures
        quits == is_quit_word(word@),
{
    let quit = "quit".to_owned();
    let exit = "exit".to_owned();
    *word == quit || *word == exit
}

/// Whether a line of text asks to leave the game: in lower case it is
/// `quit` or `exit`.
pub fn asks_to_quit(input: &String) -> (quits: bool)
    ensures
        quits == is_quit_word(lowercase_of(input@)),
{
    let input_lowercase = lowercase(input);
    names_quit(&input_lowercase)
}

} // verus!
