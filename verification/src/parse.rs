//! Reading a whole script at once.
use vstd::prelude::*;
use crate::block::Block;
use crate::command::Command;

verus! {

/// What a read script is turned into.
pub type Script = Block;

/// Why a script could not be read.
#[derive(Debug)]
pub struct ParseError {
    pub detail: String,
}

impl ParseError {
    /// An error with the given detail.
    pub fn new(detail: String) -> (e: ParseError)
        ensures
            e.detail@ == detail@,
    {
        ParseError { detail }
    }
}

/// Turns the commands read from a script file into a script. Every script is
/// refused here, with the detail `todo`; `parse_commands_to_blocks` is what
/// reads commands into blocks.
pub fn script_parse(commands: Vec<Command>) -> (r: Result<Script, ParseError>)
    ensures
        r matches Err(e) && e.detail@ == "todo"@,
{
    let _ = commands;
    Err(ParseError::new(String::from_str("todo")))
}

} // verus!
