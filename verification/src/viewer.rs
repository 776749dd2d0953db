//! The viewer's key dispatch: from a pressed key to the command the
//! loop performs.
//!
//! The event loop itself — polling the terminal, redrawing, spawning
//! the map or clipboard helpers — runs outside the library; it hands
//! each key press in as a plain value and acts on the command that
//! comes back.

use vstd::prelude::*;

verus! {

/// One key press, as the terminal reports it.
#[derive(Debug, Clone, Copy, PartialEq, Eq, Structural)]
pub enum KeyPress {
    Char(char),
    Esc,
    Left,
    Right,
    Up,
    Down,
    Other,
}

/// A key press together with whether control was held.
#[derive(Debug, Clone, Copy, PartialEq, Eq, Structural)]
pub struct KeyInput {
    pub key: KeyPress,
    pub ctrl: bool,
}

/// What the viewer does next.
#[derive(Debug, Clone, Copy, PartialEq, Eq, Structural)]
pub enum ViewerCommand {
    Quit,
    OpenMaps,
    CopyCoords,
    Previous,
    Next,
    Idle,
}

/// The dispatch table: `q`, escape and control-C quit; `m` opens the
/// map; `c` copies the coordinates; the arrows and `h j k l` navigate;
/// anything else idles.
pub open spec fn dispatch_spec(k: KeyInput) -> ViewerCommand {
    match k.key {
        KeyPress::Char(c) => {
            if c == 'q' {
                ViewerCommand::Quit
            } else if c == 'c' && k.ctrl {
                ViewerCommand::Quit
            } else if c == 'm' {
                ViewerCommand::OpenMaps
            } else if c == 'c' {
                ViewerCommand::CopyCoords
            } else if c == 'h' || c == 'k' {
                ViewerCommand::Previous
            } else if c == 'l' || c == 'j' {
                ViewerCommand::Next
            } else {
                ViewerCommand::Idle
            }
        },
        KeyPress::Esc => ViewerCommand::Quit,
        KeyPress::Left => ViewerCommand::Previous,
        KeyPress::Up => ViewerCommand::Previous,
        KeyPress::Right => ViewerCommand::Next,
        KeyPress::Down => ViewerCommand::Next,
        KeyPress::Other => ViewerCommand::Idle,
    }
}

/// Maps one key press to the viewer's next command.
pub fn dispatch_key(k: KeyInput) -> (r: ViewerCommand)
    ensures
        r == dispatch_spec(k),
{
    match k.key {
        KeyPress::Char(c) => {
            if c == 'q' {
                ViewerCommand::Quit
            } else if c == 'c' && k.ctrl {
                ViewerCommand::Quit
            } else if c == 'm' {
                ViewerCommand::OpenMaps
            } else if c == 'c' {
                ViewerCommand::CopyCoords
            } else if c == 'h' || c == 'k' {
                ViewerCommand::Previous
            } else if c == 'l' || c == 'j' {
                ViewerCommand::Next
            } else {
                ViewerCommand::Idle
            }
        },
        KeyPress::Esc => ViewerCommand::Quit,
        KeyPress::Left => ViewerCommand::Previous,
        KeyPress::Up => ViewerCommand::Previous,
        KeyPress::Right => ViewerCommand::Next,
        KeyPress::Down => ViewerCommand::Next,
        KeyPress::Other => ViewerCommand::Idle,
    }
}

} // verus!
