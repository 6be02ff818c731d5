//! The keys of the game and what each of them does to the village.

use crate::app::{App, MAX_SPEED};
use crate::world::shifted;
use vstd::prelude::*;

verus! {

/// A key as the front end reports it.
#[derive(Clone, Copy, PartialEq, Eq, Structural, Debug)]
pub enum Key {
    Char(char),
    Up,
    Down,
    Left,
    Right,
    Tab,
    Other,
}

/// What the player can ask for.
#[derive(Clone, Copy, PartialEq, Eq, Structural, Debug)]
pub enum Command {
    Quit,
    TogglePause,
    SpeedUp,
    SpeedDown,
    MoveCursor(i32, i32),
    CycleSelection,
    DropFood,
}

/// The command on each key: `q` quits, space pauses, `+` or `=` speeds up,
/// `-` slows down, the arrows move the cursor, tab cycles the selection,
/// and `f` drops food. Other keys do nothing.
pub open spec fn spec_command_for(key: Key) -> Option<Command> {
    match key {
        Key::Char(c) => if c == 'q' {
            Some(Command::Quit)
        } else if c == ' ' {
            Some(Command::TogglePause)
        } else if c == '+' || c == '=' {
            Some(Command::SpeedUp)
        } else if c == '-' {
            Some(Command::SpeedDown)
        } else if c == 'f' {
            Some(Command::DropFood)
        } else {
            None
        },
        Key::Up => Some(Command::MoveCursor(0, -1i32)),
        Key::Down => Some(Command::MoveCursor(0, 1)),
        Key::Left => Some(Command::MoveCursor(-1i32, 0)),
        Key::Right => Some(Command::MoveCursor(1, 0)),
        Key::Tab => Some(Command::CycleSelection),
        Key::Other => None,
    }
}

#[verifier::when_used_as_spec(spec_command_for)]
pub fn command_for(key: Key) -> (r: Option<Command>)
    ensures
        r == spec_command_for(key),
{
    match key {
        Key::Char(c) => {
            if c == 'q' {
                Some(Command::Quit)
            } else if c == ' ' {
                Some(Command::TogglePause)
            } else if c == '+' || c == '=' {
                Some(Command::SpeedUp)
            } else if c == '-' {
                Some(Command::SpeedDown)
            } else if c == 'f' {
                Some(Command::DropFood)
            } else {
                None
            }
        },
        Key::Up => Some(Command::MoveCursor(0, -1)),
        Key::Down => Some(Command::MoveCursor(0, 1)),
        Key::Left => Some(Command::MoveCursor(-1, 0)),
        Key::Right => Some(Command::MoveCursor(1, 0)),
        Key::Tab => Some(Command::CycleSelection),
        Key::Other => None,
    }
}

impl App {
    /// Carries out a command of the player. The village stays well formed,
    /// and its clock stands still.
    pub fn run_command(&mut self, command: Command)
        requires
            old(self).wf(),
        ensures
            final(self).wf(),
            final(self).tick == old(self).tick,
            match command {
                Command::Quit => *final(self) == (App { should_quit: true, ..*old(self) }),
                Command::TogglePause => *final(self) == (App {
                    paused: !old(self).paused,
                    ..*old(self)
                }),
                Command::SpeedUp => *final(self) == (App {
                    speed: if old(self).speed < MAX_SPEED {
                        (old(self).speed + 1) as u32
                    } else {
                        old(self).speed
                    },
                    ..*old(self)
                }),
                Command::SpeedDown => *final(self) == (App {
                    speed: if old(self).speed > 1 {
                        (old(self).speed - 1) as u32
                    } else {
                        old(self).speed
                    },
                    ..*old(self)
                }),
                Command::MoveCursor(dx, dy) => {
                    let to = shifted(
                        old(self).cursor_x as int,
                        old(self).cursor_y as int,
                        dx as int,
                        dy as int,
                    );
                    *final(self) == (App {
                        cursor_x: to.0 as usize,
                        cursor_y: to.1 as usize,
                        ..*old(self)
                    })
                },
                Command::CycleSelection => final(self).selection_cycled(old(self)),
                Command::DropFood => final(self).food_dropped(old(self)),
            },
    {
        match command {
            Command::Quit => {
                self.should_quit = true;
            },
            Command::TogglePause => self.toggle_pause(),
            Command::SpeedUp => self.speed_up(),
            Command::SpeedDown => self.speed_down(),
            Command::MoveCursor(dx, dy) => self.move_cursor(dx, dy),
            Command::CycleSelection => self.cycle_selected_orc(),
            Command::DropFood => self.drop_food(),
        }
    }
}

} // verus!
