//! Console commands and the state that tracks the previously executed
//! one and any search in progress.

use vstd::prelude::*;

use crate::parse;

verus! {

#[derive(Clone)]
pub enum Command {
    ERROR,
    QUIT,
    WRITE(String),
    OPEN(String),
    JUMP(u32, u32),
    RUN(String, Vec<String>),
    FIND(Option<String>),
    PREVIOUS,
}

impl Command {
    /// Parses a command line into a command.
    pub fn new(cmd_str: String) -> (r: Self)
        ensures
            cmd_str@.len() >= 1 && cmd_str@[0] == ':' ==> parse::parses_to(cmd_str@.skip(1), r),
            !(cmd_str@.len() >= 1 && cmd_str@[0] == ':') ==> r == Command::ERROR,
    {
        parse::parse(cmd_str)
    }
}

pub struct CommandState {
    find_cmd: Option<(String, usize)>,
    replace_cmd: Option<(String, String, usize)>,
    previous_cmd: Command,
}

impl CommandState {
    /// The command a `PREVIOUS` command repeats.
    pub closed spec fn prev_cmd(self) -> Command {
        self.previous_cmd
    }

    /// The pattern being searched for and the index the search stands at.
    pub closed spec fn find_state(self) -> Option<(String, usize)> {
        self.find_cmd
    }

    pub fn new() -> (r: Self)
        ensures
            r.prev_cmd() == Command::ERROR,
            r.find_state() is None,
    {
        Self::default()
    }

    /// Remembers `cmd` as the previous command, unless it is itself the
    /// repeat command.
    pub fn set_prev(&mut self, cmd: Command)
        ensures
            (old(self).prev_cmd() == final (self).prev_cmd() && cmd matches Command::PREVIOUS) || (
            final (self).prev_cmd() == cmd && !(cmd matches Command::PREVIOUS)),
            final (self).find_state() == old(self).find_state(),
    {
        match cmd {
            Command::PREVIOUS => {},
            _ => {
                self.previous_cmd = cmd;
            },
        }
    }
}

impl Default for CommandState {
    fn default() -> (r: Self)
        ensures
            r.prev_cmd() == Command::ERROR,
            r.find_state() is None,
    {
        Self { find_cmd: None, replace_cmd: None, previous_cmd: Command::ERROR }
    }
}

} // verus!
