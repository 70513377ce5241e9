//! The menu: what the user can ask for, and how an answer picks one of its entries.

use crate::text::{chars_of, trim_bounds, trimmed};
use vstd::prelude::*;

verus! {

/// What the user can ask for, in the order of the menu.
#[derive(Debug, Clone, Copy, PartialEq, Eq, Structural)]
pub enum Command {
    CreatePoll,
    Vote,
    EditPoll,
    EditVote,
    DeletePoll,
    DeleteVote,
    ViewResults,
    ViewVotes,
    Exit,
}

impl Command {
    /// The entry that a digit picks: `1` is the first, `9` the last.
    pub open spec fn of_digit(c: char) -> Option<Command> {
        if c == '1' {
            Some(Command::CreatePoll)
        } else if c == '2' {
            Some(Command::Vote)
        } else if c == '3' {
            Some(Command::EditPoll)
        } else if c == '4' {
            Some(Command::EditVote)
        } else if c == '5' {
            Some(Command::DeletePoll)
        } else if c == '6' {
            Some(Command::DeleteVote)
        } else if c == '7' {
            Some(Command::ViewResults)
        } else if c == '8' {
            Some(Command::ViewVotes)
        } else if c == '9' {
            Some(Command::Exit)
        } else {
            None
        }
    }

    /// The entry that an answer picks: a single digit from `1` to `9`, blanks around it
    /// ignored.
    pub open spec fn of_answer(answer: Seq<char>) -> Option<Command> {
        if trimmed(answer).len() == 1 {
            Self::of_digit(trimmed(answer)[0])
        } else {
            None
        }
    }

    /// Reads the answer to the menu.
    pub fn parse(answer: &str) -> (r: Option<Command>)
        ensures
            r == Self::of_answer(answer@),
    {
        let v = chars_of(answer);
        let (start, end) = trim_bounds(&v);
        if end - start != 1 {
            return None;
        }
        let c: char = v[start];
        assert(trimmed(answer@)[0] == c);
        if c == '1' {
            Some(Command::CreatePoll)
        } else if c == '2' {
            Some(Command::Vote)
        } else if c == '3' {
            Some(Command::EditPoll)
        } else if c == '4' {
            Some(Command::EditVote)
        } else if c == '5' {
            Some(Command::DeletePoll)
        } else if c == '6' {
            Some(Command::DeleteVote)
        } else if c == '7' {
            Some(Command::ViewResults)
        } else if c == '8' {
            Some(Command::ViewVotes)
        } else if c == '9' {
            Some(Command::Exit)
        } else {
            None
        }
    }
}

} // verus!
