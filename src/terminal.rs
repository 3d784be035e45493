use vstd::prelude::*;
use crate::command::{parse_spec, Command, ErrorKind};

verus! {

/// A key press, as far as the prompt cares.
#[derive(Debug, Clone, Copy, PartialEq, Eq, Structural)]
pub enum Key {
    Char(char),
    Enter,
    Backspace,
    Other,
}

/// What the screen should do after a key press.
#[derive(Debug)]
pub enum KeyAction {
    /// Print the character; where `to_prompt` holds, first move to the
    /// command line at the bottom of the screen.
    Echo { c: char, to_prompt: bool },
    /// Erase the last character shown.
    Erase,
    /// A line was entered: the text typed and what it parses to.
    Evaluate { line: Vec<char>, parsed: Result<Command, ErrorKind> },
    /// Nothing to draw.
    Nothing,
}

/// The state of the interactive prompt: whether a command is being typed,
/// what has been typed so far, and whether the user asked to quit.
pub struct Terminal {
    should_quit: bool,
    is_command: bool,
    last_line: u16,
    is_dashboard_active: bool,
    input: Vec<char>,
}

impl Terminal {
    pub closed spec fn quitting(&self) -> bool {
        self.should_quit
    }

    pub closed spec fn in_command(&self) -> bool {
        self.is_command
    }

    pub closed spec fn typed(&self) -> Seq<char> {
        self.input@
    }

    pub closed spec fn line(&self) -> u16 {
        self.last_line
    }

    pub closed spec fn dashboard(&self) -> bool {
        self.is_dashboard_active
    }

    /// A prompt with nothing typed.
    pub fn new() -> (r: Terminal)
        ensures
            !r.quitting(),
            !r.in_command(),
            r.typed() == Seq::<char>::empty(),
            r.line() == 0,
            !r.dashboard(),
    {
        Terminal {
            should_quit: false,
            is_command: false,
            last_line: 0,
            is_dashboard_active: false,
            input: Vec::new(),
        }
    }

    /// Takes one key press. A character is kept only while a command is
    /// being typed, and `:` starts one. Enter hands over the line typed, with
    /// its parse, and clears it; an `exit` there makes the prompt quit.
    /// Backspace removes the last character, or leaves command mode where
    /// there is none.
    pub fn on_key(&mut self, key: Key) -> (r: KeyAction)
        ensures
            final(self).line() == old(self).line(),
            final(self).dashboard() == old(self).dashboard(),
            match key {
                Key::Char(c) => {
                    &&& final(self).typed() == if old(self).in_command() {
                        old(self).typed().push(c)
                    } else {
                        old(self).typed()
                    }
                    &&& final(self).in_command() == (old(self).in_command() || c == ':')
                    &&& final(self).quitting() == old(self).quitting()
                    &&& r == KeyAction::Echo { c, to_prompt: c == ':' }
                },
                Key::Enter => {
                    &&& final(self).typed() == Seq::<char>::empty()
                    &&& !final(self).in_command()
                    &&& final(self).quitting() == (old(self).quitting() || parse_spec(
                        old(self).typed(),
                    ) == Ok::<Command, ErrorKind>(Command::Exit))
                    &&& r matches KeyAction::Evaluate { line, parsed }
                    &&& line@ == old(self).typed()
                    &&& parsed == parse_spec(old(self).typed())
                },
                Key::Backspace => {
                    &&& final(self).quitting() == old(self).quitting()
                    &&& if old(self).typed().len() > 0 {
                        &&& final(self).typed() == old(self).typed().drop_last()
                        &&& final(self).in_command() == old(self).in_command()
                        &&& r is Erase
                    } else {
                        &&& final(self).typed() == old(self).typed()
                        &&& !final(self).in_command()
                        &&& r is Nothing
                    }
                },
                Key::Other => {
                    &&& final(self).typed() == old(self).typed()
                    &&& final(self).in_command() == old(self).in_command()
                    &&& final(self).quitting() == old(self).quitting()
                    &&& r is Nothing
                },
            },
    {
        match key {
            Key::Char(c) => {
                if self.is_command {
                    self.input.push(c);
                }
                if c == ':' {
                    self.is_command = true;
                }
                KeyAction::Echo { c, to_prompt: c == ':' }
            },
            Key::Enter => {
                let mut line: Vec<char> = Vec::new();
                core::mem::swap(&mut line, &mut self.input);
                let parsed = Command::from_chars(&line);
                if let Ok(Command::Exit) = parsed {
                    self.should_quit = true;
                }
                self.is_command = false;
                KeyAction::Evaluate { line, parsed }
            },
            Key::Backspace => {
                if self.input.len() > 0 {
                    self.input.pop();
                    KeyAction::Erase
                } else {
                    self.is_command = false;
                    KeyAction::Nothing
                }
            },
            Key::Other => KeyAction::Nothing,
        }
    }

    /// Whether the user asked to quit.
    pub fn should_quit(&self) -> (r: bool)
        ensures
            r == self.quitting(),
    {
        self.should_quit
    }

    /// The screen line where the last listing started.
    pub fn last_line(&self) -> (r: u16)
        ensures
            r == self.line(),
    {
        self.last_line
    }

    /// Records the screen line where the last listing started.
    pub fn set_last_line(&mut self, line: u16)
        ensures
            final(self).line() == line,
            final(self).quitting() == old(self).quitting(),
            final(self).in_command() == old(self).in_command(),
            final(self).typed() == old(self).typed(),
            final(self).dashboard() == old(self).dashboard(),
    {
        self.last_line = line;
    }

    /// Records that the welcome screen is shown.
    pub fn show_dashboard(&mut self)
        ensures
            final(self).dashboard(),
            final(self).line() == old(self).line(),
            final(self).quitting() == old(self).quitting(),
            final(self).in_command() == old(self).in_command(),
            final(self).typed() == old(self).typed(),
    {
        self.is_dashboard_active = true;
    }
}

} // verus!
