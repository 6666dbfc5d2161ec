//! Keyboard input: which key presses become which commands, in each input
//! mode.
use vstd::prelude::*;
use crate::state::Mode;

verus! {

/// A command that the keyboard sends to the browser.
#[derive(PartialEq, Eq, Structural, Clone, Copy, Debug)]
pub enum SignalType {
    Close,
    ScrollU,
    ScrollD,
    ScrollLU,
    ScrollLD,
    Go,
    HistoryBack,
    HistoryForward,
    NewURI,
    BackSpace,
}

/// What the keyboard sends: a command, or a typed character.
#[derive(PartialEq, Eq, Structural, Clone, Copy, Debug)]
pub enum Data {
    Command(SignalType),
    Char(char),
}

/// A key press, as the terminal reports it.
#[derive(PartialEq, Eq, Structural, Clone, Copy, Debug)]
pub enum Key {
    Char(char),
    Ctrl(char),
    Alt(char),
    Up,
    Down,
    Backspace,
    /// Any other key.
    Other,
}

/// The input mode after a key press, and what the key sends, if anything.
///
/// In normal mode: Ctrl+c closes, Up/Down scroll the page, Ctrl+k/Ctrl+l
/// move the link cursor, Enter follows the selected link, Alt+k/Alt+l move
/// through the history, and Alt+n starts editing an address. In editing
/// mode: Enter goes to the typed address and ends editing, Backspace erases,
/// other characters are typed, and Ctrl+c closes. Other keys do nothing.
pub open spec fn key_effect(mode: Mode, key: Key) -> (Mode, Option<Data>) {
    match mode {
        Mode::Normal => match key {
            Key::Ctrl('c') => (Mode::Normal, Some(Data::Command(SignalType::Close))),
            Key::Up => (Mode::Normal, Some(Data::Command(SignalType::ScrollU))),
            Key::Down => (Mode::Normal, Some(Data::Command(SignalType::ScrollD))),
            Key::Ctrl('k') => (Mode::Normal, Some(Data::Command(SignalType::ScrollLU))),
            Key::Ctrl('l') => (Mode::Normal, Some(Data::Command(SignalType::ScrollLD))),
            Key::Char('\n') => (Mode::Normal, Some(Data::Command(SignalType::Go))),
            Key::Alt('k') => (Mode::Normal, Some(Data::Command(SignalType::HistoryBack))),
            Key::Alt('l') => (Mode::Normal, Some(Data::Command(SignalType::HistoryForward))),
            Key::Alt('n') => (Mode::Editing, Some(Data::Command(SignalType::NewURI))),
            _ => (Mode::Normal, None),
        },
        Mode::Editing => match key {
            Key::Char('\n') => (Mode::Normal, Some(Data::Command(SignalType::Go))),
            Key::Backspace => (Mode::Editing, Some(Data::Command(SignalType::BackSpace))),
            Key::Char(x) => (Mode::Editing, Some(Data::Char(x))),
            Key::Ctrl('c') => (Mode::Editing, Some(Data::Command(SignalType::Close))),
            _ => (Mode::Editing, None),
        },
    }
}

/// Reads one key press in the given input mode (see `key_effect`).
pub fn read_key(input_mode: Mode, key: Key) -> (r: (Mode, Option<Data>))
    ensures
        r == key_effect(input_mode, key),
{
    match input_mode {
        Mode::Normal => match key {
            Key::Ctrl('c') => (Mode::Normal, Some(Data::Command(SignalType::Close))),
            Key::Up => (Mode::Normal, Some(Data::Command(SignalType::ScrollU))),
            Key::Down => (Mode::Normal, Some(Data::Command(SignalType::ScrollD))),
            Key::Ctrl('k') => (Mode::Normal, Some(Data::Command(SignalType::ScrollLU))),
            Key::Ctrl('l') => (Mode::Normal, Some(Data::Command(SignalType::ScrollLD))),
            Key::Char('\n') => (Mode::Normal, Some(Data::Command(SignalType::Go))),
            Key::Alt('k') => (Mode::Normal, Some(Data::Command(SignalType::HistoryBack))),
            Key::Alt('l') => (Mode::Normal, Some(Data::Command(SignalType::HistoryForward))),
            Key::Alt('n') => (Mode::Editing, Some(Data::Command(SignalType::NewURI))),
            _ => (Mode::Normal, None),
        },
        Mode::Editing => match key {
            Key::Char('\n') => (Mode::Normal, Some(Data::Command(SignalType::Go))),
            Key::Backspace => (Mode::Editing, Some(Data::Command(SignalType::BackSpace))),
            Key::Char(x) => (Mode::Editing, Some(Data::Char(x))),
            Key::Ctrl('c') => (Mode::Editing, Some(Data::Command(SignalType::Close))),
            _ => (Mode::Editing, None),
        },
    }
}

} // verus!
