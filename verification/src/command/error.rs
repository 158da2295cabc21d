//! What can be wrong with a command template.

use vstd::prelude::*;

verus! {

/// Why a template is not a command.
#[derive(Clone, Copy, Debug, PartialEq, Eq, Structural)]
pub enum CommandError {
    /// An opening brace is not followed by a body and a closing brace.
    Syntax,
    /// A placeholder holds no word.
    EmptyPlaceholder,
    /// The first word of a placeholder is none of `key`, `value`, `rand`, `range`.
    UnknownPlaceholder,
    /// A placeholder has too few or too many arguments.
    WrongArity,
    /// An argument that should be a number is not the decimal notation of a `u64`.
    InvalidNumber,
    /// The distribution of a key is none of `uniform`, `zipfian`, `sequence`.
    UnknownDistribution,
    /// A range holds no number.
    EmptyRange,
}

/// A sentence that says what is wrong.
pub open spec fn message_of(error: CommandError) -> Seq<char> {
    match error {
        CommandError::Syntax => "an opening brace without a body and a closing brace"@,
        CommandError::EmptyPlaceholder => "placeholder is empty"@,
        CommandError::UnknownPlaceholder => "invalid placeholder"@,
        CommandError::WrongArity => "wrong number of arguments for placeholder"@,
        CommandError::InvalidNumber => "argument is not a number"@,
        CommandError::UnknownDistribution => "unknown distribution"@,
        CommandError::EmptyRange => "range is empty"@,
    }
}

impl CommandError {
    /// A sentence that says what is wrong.
    pub fn message(&self) -> (text: &'static str)
        ensures
            text@ == message_of(*self),
    {
        match self {
            CommandError::Syntax => "an opening brace without a body and a closing brace",
            CommandError::EmptyPlaceholder => "placeholder is empty",
            CommandError::UnknownPlaceholder => "invalid placeholder",
            CommandError::WrongArity => "wrong number of arguments for placeholder",
            CommandError::InvalidNumber => "argument is not a number",
            CommandError::UnknownDistribution => "unknown distribution",
            CommandError::EmptyRange => "range is empty",
        }
    }
}

} // verus!
