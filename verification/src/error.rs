//! What can go wrong while a configuration is loaded and run.

use vstd::prelude::*;

verus! {

/// The part of a declaration that a template belongs to. Arguments and
/// environment pairs are counted from zero.
#[derive(Debug, Clone, Copy, PartialEq, Eq, Structural)]
pub enum Field {
    Name,
    Argument(usize),
    EnvName(usize),
    EnvValue(usize),
}

/// Why a configuration could not be loaded or run to its end.
#[derive(Debug, PartialEq, Eq)]
pub enum RunError {
    /// No configuration file was named and none was found.
    ConfigNotFound,
    /// The file could not be read; the text says why.
    Unreadable(String),
    /// The text is no well-formed document; the parser's message.
    Syntax(String),
    /// A test has no `name`, or one that is no string.
    MissingName,
    /// A test has no `command`, or one that is no array.
    MissingCommand,
    /// The `command` of the test with this name is empty or holds something
    /// other than strings.
    InvalidCommand(String),
    /// An environment variable with this name has no value.
    EnvWithoutValue(String),
    /// An environment variable with this value has no name.
    EnvWithoutName(String),
    /// An environment variable has neither a name nor a value.
    EnvWithoutNameOrValue,
    /// The values of the variable with this name are no array.
    VariableNotArray(String),
    /// An entry of `includes` is no string.
    IncludeNotString,
    /// An include pattern is malformed or could not be matched; the text
    /// says why.
    Include(String),
    /// A template does not compile; the engine's message.
    Compile { field: Field, message: String },
    /// A template could not be rendered; the engine's message.
    Render { field: Field, message: String },
    /// The working directory could not be read, changed or restored; the
    /// text says why.
    Directory(String),
    /// More instances were ignored than can be counted.
    TooManyIgnored,
    /// The host reported something that the run was not waiting for.
    Unexpected,
}

} // verus!
