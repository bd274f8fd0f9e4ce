//! The server console: editing the command line key by key, and laying out
//! the log and the command line on the terminal.
use vstd::prelude::*;

verus! {

/// A key pressed at the console.
#[derive(Clone, Copy, Debug, PartialEq, Eq, Structural)]
pub enum KeyInput {
    /// A character key, with or without the control modifier.
    Char { c: char, ctrl: bool },
    Backspace,
    Enter,
    Other,
}

/// What the console does after a key.
#[derive(Debug, PartialEq, Eq)]
pub enum KeyAction {
    Nothing,
    /// Control-C: the server is asked to quit.
    Quit,
    /// Enter: the command typed so far is run.
    Command(Vec<char>),
}

/// Handles one key: control-C quits; other characters are typed; backspace
/// erases the last character; enter hands over the command and clears the
/// line.
pub fn handle_key(input: &mut Vec<char>, key: KeyInput) -> (r: KeyAction)
    ensures
        match key {
            KeyInput::Char { c, ctrl } => if c == 'c' && ctrl {
                r == KeyAction::Quit && final(input)@ == old(input)@
            } else {
                r == KeyAction::Nothing && final(input)@ == old(input)@.push(c)
            },
            KeyInput::Backspace => r == KeyAction::Nothing && final(input)@ == if old(input)@.len() > 0 {
                old(input)@.drop_last()
            } else {
                old(input)@
            },
            KeyInput::Enter => (match r {
                KeyAction::Command(cmd) => cmd@ == old(input)@,
                _ => false,
            }) && final(input)@.len() == 0,
            KeyInput::Other => r == KeyAction::Nothing && final(input)@ == old(input)@,
        },
{
    match key {
        KeyInput::Char { c, ctrl } => {
            if c == 'c' && ctrl {
                KeyAction::Quit
            } else {
                input.push(c);
                KeyAction::Nothing
            }
        },
        KeyInput::Backspace => {
            let _ = input.pop();
            KeyAction::Nothing
        },
        KeyInput::Enter => {
            let mut cmd: Vec<char> = Vec::new();
            std::mem::swap(&mut cmd, input);
            KeyAction::Command(cmd)
        },
        KeyInput::Other => KeyAction::Nothing,
    }
}

/// A rectangle of terminal cells.
#[derive(Clone, Copy, Debug, PartialEq, Eq, Structural)]
pub struct TermRect {
    pub x: u16,
    pub y: u16,
    pub width: u16,
    pub height: u16,
}

/// Splits the terminal into the log and, below it, a command line three rows
/// high; a terminal of six rows or fewer shows only the log, and the command
/// line gets an empty rectangle.
pub fn layout(size: TermRect) -> (r: (TermRect, TermRect))
    ensures
        size.height > 6 ==> r == (TermRect { height: (size.height - 3) as u16, ..size }, TermRect {
            y: (size.height - 3) as u16,
            height: 3,
            ..size
        }),
        size.height <= 6 ==> r == (size, TermRect { x: 0, y: 0, width: 0, height: 0 }),
{
    if size.height > 6 {
        let log_rect = TermRect { height: size.height - 3, ..size };
        let input_rect = TermRect { y: size.height - 3, height: 3, ..size };
        (log_rect, input_rect)
    } else {
        (size, TermRect { x: 0, y: 0, width: 0, height: 0 })
    }
}

/// How far the log scrolls so that its last lines fill an area `height`
/// rows high.
pub fn log_scroll(lines: u16, height: u16) -> (r: u16)
    ensures
        r == if lines >= height {
            (lines - height) as u16
        } else {
            0
        },
{
    if lines >= height {
        lines - height
    } else {
        0
    }
}

} // verus!
