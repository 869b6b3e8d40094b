//! The keyboard: which key gives which command.

use vstd::prelude::*;
use crate::app::{App, AppView};
use crate::points::CANNON_LASER_INITIAL_X_OFFSET;

verus! {

/// A key, as far as the game tells keys apart.
#[derive(Copy, Clone, Debug, PartialEq, Eq, Structural)]
pub enum Key {
    Char(char),
    Left,
    Right,
    Esc,
    Other,
}

/// The modifier keys held down with a key.
#[derive(Copy, Clone, Debug, PartialEq, Eq, Structural)]
pub enum Modifiers {
    /// None at all.
    Plain,
    /// Control and no other.
    Control,
    /// Any other combination.
    Mixed,
}

/// A command of the player.
#[derive(Copy, Clone, Debug, PartialEq, Eq, Structural)]
pub enum Command {
    Left,
    Right,
    Space,
    H,
    P,
    Q,
    Esc,
    CtrlC,
}

/// The command a key gives: with control held down only `c` is one, with
/// any other modifier no key is, and without modifiers the arrows, the
/// space bar, escape and the letters `h`, `p` and `q` are.
pub open spec fn spec_command_for(modifiers: Modifiers, key: Key) -> Option<Command> {
    match modifiers {
        Modifiers::Control => if key == Key::Char('c') {
            Some(Command::CtrlC)
        } else {
            None
        },
        Modifiers::Plain => match key {
            Key::Char(c) => if c == 'h' {
                Some(Command::H)
            } else if c == 'p' {
                Some(Command::P)
            } else if c == 'q' {
                Some(Command::Q)
            } else if c == ' ' {
                Some(Command::Space)
            } else {
                None
            },
            Key::Left => Some(Command::Left),
            Key::Right => Some(Command::Right),
            Key::Esc => Some(Command::Esc),
            Key::Other => None,
        },
        Modifiers::Mixed => None,
    }
}

/// The command the key gives, if it gives one.
#[verifier::when_used_as_spec(spec_command_for)]
pub fn command_for(modifiers: Modifiers, key: Key) -> (command: Option<Command>)
    ensures
        command == spec_command_for(modifiers, key),
{
    match modifiers {
        Modifiers::Control => match key {
            Key::Char(c) => if c == 'c' {
                Some(Command::CtrlC)
            } else {
                None
            },
            _ => None,
        },
        Modifiers::Plain => match key {
            Key::Char(c) => if c == 'h' {
                Some(Command::H)
            } else if c == 'p' {
                Some(Command::P)
            } else if c == 'q' {
                Some(Command::Q)
            } else if c == ' ' {
                Some(Command::Space)
            } else {
                None
            },
            Key::Left => Some(Command::Left),
            Key::Right => Some(Command::Right),
            Key::Esc => Some(Command::Esc),
            Key::Other => None,
        },
        Modifiers::Mixed => None,
    }
}

impl AppView {
    /// The game after the command.
    pub open spec fn commanded(self, command: Command) -> AppView {
        match command {
            Command::Left => self.on_left(),
            Command::Right => self.on_right(),
            Command::Space => self.on_space(),
            Command::H => self.on_h(),
            Command::P => self.on_p(),
            Command::Q => self.quit(),
            Command::Esc => self.quit(),
            Command::CtrlC => self.quit(),
        }
    }
}

impl App {
    /// Carries out the command.
    pub fn on_command(&mut self, command: Command)
        requires
            command == Command::Space ==> old(self).cannon.left + CANNON_LASER_INITIAL_X_OFFSET
                <= i32::MAX,
        ensures
            final(self)@ == old(self)@.commanded(command),
            old(self)@.wf() ==> final(self)@.wf(),
    {
        match command {
            Command::Left => self.on_left(),
            Command::Right => self.on_right(),
            Command::Space => self.on_space(),
            Command::H => self.on_h(),
            Command::P => self.on_p(),
            Command::Q => self.on_q(),
            Command::Esc => self.on_esc(),
            Command::CtrlC => self.on_ctrl_c(),
        }
    }
}

} // verus!
