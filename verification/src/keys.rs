//! Key presses as plain values.

use vstd::prelude::*;

verus! {

/// The key that was pressed.
#[derive(Clone, Copy, Debug, PartialEq, Eq)]
pub enum KeyCode {
    Char(char),
    Enter,
    Backspace,
    Delete,
    Left,
    Right,
    Up,
    Down,
    Home,
    End,
    Tab,
    /// A key that no command is bound to.
    Other,
}

/// A key press with the modifier keys that were held.
#[derive(Clone, Copy, Debug, PartialEq, Eq)]
pub struct Key {
    pub code: KeyCode,
    pub ctrl: bool,
    pub shift: bool,
    pub alt: bool,
}

/// A command of the editor.
#[derive(Clone, Copy, Debug, PartialEq, Eq)]
pub enum Command {
    Insert(char),
    DeleteBefore,
    DeleteAfter,
    Left(bool),
    Right(bool),
    Up(bool),
    Down(bool),
    LineStart(bool),
    LineEnd(bool),
    SelectAll,
    Copy,
    Cut,
    Paste,
    Undo,
    Redo,
    Nothing,
}

/// The command that the editor binds to a key press.
pub open spec fn command_for(key: Key) -> Command {
    match key.code {
        KeyCode::Char(ch) => if !key.ctrl {
            Command::Insert(ch)
        } else if ch == 'a' {
            Command::SelectAll
        } else if ch == 'c' {
            Command::Copy
        } else if ch == 'x' {
            Command::Cut
        } else if ch == 'v' {
            Command::Paste
        } else if ch == 'z' {
            Command::Undo
        } else if ch == 'y' {
            Command::Redo
        } else {
            Command::Nothing
        },
        KeyCode::Enter => Command::Insert('\n'),
        KeyCode::Backspace => Command::DeleteBefore,
        KeyCode::Delete => Command::DeleteAfter,
        KeyCode::Left => Command::Left(key.shift),
        KeyCode::Right => Command::Right(key.shift),
        KeyCode::Up => Command::Up(key.shift),
        KeyCode::Down => Command::Down(key.shift),
        KeyCode::Home => Command::LineStart(key.shift),
        KeyCode::End => Command::LineEnd(key.shift),
        _ => Command::Nothing,
    }
}

/// The command that the editor binds to a key press.
pub fn command_of(key: Key) -> (c: Command)
    ensures
        c == command_for(key),
{
    match key.code {
        KeyCode::Char(ch) => {
            if !key.ctrl {
                Command::Insert(ch)
            } else if ch == 'a' {
                Command::SelectAll
            } else if ch == 'c' {
                Command::Copy
            } else if ch == 'x' {
                Command::Cut
            } else if ch == 'v' {
                Command::Paste
            } else if ch == 'z' {
                Command::Undo
            } else if ch == 'y' {
                Command::Redo
            } else {
                Command::Nothing
            }
        },
        KeyCode::Enter => Command::Insert('\n'),
        KeyCode::Backspace => Command::DeleteBefore,
        KeyCode::Delete => Command::DeleteAfter,
        KeyCode::Left => Command::Left(key.shift),
        KeyCode::Right => Command::Right(key.shift),
        KeyCode::Up => Command::Up(key.shift),
        KeyCode::Down => Command::Down(key.shift),
        KeyCode::Home => Command::LineStart(key.shift),
        KeyCode::End => Command::LineEnd(key.shift),
        _ => Command::Nothing,
    }
}

} // verus!
