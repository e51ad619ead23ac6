//! Typed errors surfaced by the store and coordinator operations.

use vstd::prelude::*;

verus! {

/// Error taxonomy for the task tracker. Each variant carries a short
/// human-readable message assembled by the caller.
#[derive(Debug)]
pub enum AppError {
    TextInputPromptError(String),
    ConfirmPromptError(String),
    SelectPromptError(String),
    HomeDirectoryInaccessibleError(String),
    HomeDirectoryPermissionError(String),
    BinarySerializationError(String),
    BinaryDeserializationError(String),
    FileReadError(String),
    FileWriteError(String),
    FileDeleteError(String),
    CurrentDateTimeFetchError(String),
    InvalidSwimlanePassed(String),
    InvalidCommand(String),
    InvalidDeadlineKeyword(String),
    InvalidPriorityKeyword(String),
    TaskNotFound(String),
    NaiveDateConversionError(String),
    TableDisplayParseError(String),
    SwimlaneNotFoundError(String),
}

} // verus!
