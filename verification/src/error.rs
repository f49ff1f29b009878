//! The error type shared by the scanner, the parser and the value tree.

use vstd::prelude::*;
use vstd::string::*;
use crate::text::{decimal_digits, push_decimal, push_text};

verus! {

/// What a fallible operation of this library returns.
pub type CfgppResult<T> = Result<T, CfgppError>;

/// Every way an operation of this library can fail.
#[derive(Debug, Clone, PartialEq)]
pub enum CfgppError {
    /// The source text breaks the grammar at the given place.
    SyntaxError { message: String, line: usize, column: usize },
    /// A value of one kind was used where another kind is needed.
    TypeError { expected: String, actual: String },
    /// An object has no entry under this key.
    KeyNotFound { key: String },
    /// An array has no element at this index.
    IndexOutOfBounds { index: usize },
    /// Reading a file failed.
    IoError { message: String },
    /// An include directive could not be carried out.
    IncludeError { path: String, message: String },
    /// An environment variable reference could not be resolved.
    EnvVarError { var: String, message: String },
    /// A value breaks its schema.
    ValidationError { message: String },
    /// An input is larger than the library handles.
    MemoryError { message: String },
    /// Any other failure to parse.
    ParseError { message: String },
}

/// The mathematical content of a [`CfgppError`].
pub enum ErrorModel {
    SyntaxError { message: Seq<char>, line: nat, column: nat },
    TypeError { expected: Seq<char>, actual: Seq<char> },
    KeyNotFound { key: Seq<char> },
    IndexOutOfBounds { index: nat },
    IoError { message: Seq<char> },
    IncludeError { path: Seq<char>, message: Seq<char> },
    EnvVarError { var: Seq<char>, message: Seq<char> },
    ValidationError { message: Seq<char> },
    MemoryError { message: Seq<char> },
    ParseError { message: Seq<char> },
}

impl View for CfgppError {
    type V = ErrorModel;

    open spec fn view(&self) -> ErrorModel {
        match *self {
            CfgppError::SyntaxError { message, line, column } => ErrorModel::SyntaxError {
                message: message@,
                line: line as nat,
                column: column as nat,
            },
            CfgppError::TypeError { expected, actual } => ErrorModel::TypeError {
                expected: expected@,
                actual: actual@,
            },
            CfgppError::KeyNotFound { key } => ErrorModel::KeyNotFound { key: key@ },
            CfgppError::IndexOutOfBounds { index } => ErrorModel::IndexOutOfBounds {
                index: index as nat,
            },
            CfgppError::IoError { message } => ErrorModel::IoError { message: message@ },
            CfgppError::IncludeError { path, message } => ErrorModel::IncludeError {
                path: path@,
                message: message@,
            },
            CfgppError::EnvVarError { var, message } => ErrorModel::EnvVarError {
                var: var@,
                message: message@,
            },
            CfgppError::ValidationError { message } => ErrorModel::ValidationError {
                message: message@,
            },
            CfgppError::MemoryError { message } => ErrorModel::MemoryError { message: message@ },
            CfgppError::ParseError { message } => ErrorModel::ParseError { message: message@ },
        }
    }
}

impl ErrorModel {
    /// The one-line description of the error.
    pub open spec fn text(self) -> Seq<char> {
        match self {
            ErrorModel::SyntaxError { message, line, column } => "Syntax error at line "@
                + decimal_digits(line) + ", column "@ + decimal_digits(column) + ": "@ + message,
            ErrorModel::TypeError { expected, actual } => "Type error: expected "@ + expected
                + ", found "@ + actual,
            ErrorModel::KeyNotFound { key } => "Key not found: "@ + key,
            ErrorModel::IndexOutOfBounds { index } => "Index out of bounds: "@ + decimal_digits(
                index,
            ),
            ErrorModel::IoError { message } => "I/O error: "@ + message,
            ErrorModel::IncludeError { path, message } => "Include error: "@ + path + " - "@
                + message,
            ErrorModel::EnvVarError { var, message } => "Environment variable error: "@ + var
                + " - "@ + message,
            ErrorModel::ValidationError { message } => "Schema validation error: "@ + message,
            ErrorModel::MemoryError { message } => "Memory error: "@ + message,
            ErrorModel::ParseError { message } => "Parse error: "@ + message,
        }
    }
}

impl CfgppError {
    /// A syntax error at a place in the source.
    pub fn syntax_error(message: &str, line: usize, column: usize) -> (e: Self)
        ensures
            e@ == (ErrorModel::SyntaxError {
                message: message@,
                line: line as nat,
                column: column as nat,
            }),
    {
        CfgppError::SyntaxError { message: message.to_owned(), line, column }
    }

    /// A type error naming the kind that was needed and the kind that was found.
    pub fn type_error(expected: &str, actual: &str) -> (e: Self)
        ensures
            e@ == (ErrorModel::TypeError { expected: expected@, actual: actual@ }),
    {
        CfgppError::TypeError { expected: expected.to_owned(), actual: actual.to_owned() }
    }

    pub fn key_not_found(key: &str) -> (e: Self)
        ensures
            e@ == (ErrorModel::KeyNotFound { key: key@ }),
    {
        CfgppError::KeyNotFound { key: key.to_owned() }
    }

    pub fn index_out_of_bounds(index: usize) -> (e: Self)
        ensures
            e@ == (ErrorModel::IndexOutOfBounds { index: index as nat }),
    {
        CfgppError::IndexOutOfBounds { index }
    }

    pub fn io_error(message: &str) -> (e: Self)
        ensures
            e@ == (ErrorModel::IoError { message: message@ }),
    {
        CfgppError::IoError { message: message.to_owned() }
    }

    pub fn parse_error(message: &str) -> (e: Self)
        ensures
            e@ == (ErrorModel::ParseError { message: message@ }),
    {
        CfgppError::ParseError { message: message.to_owned() }
    }

    pub fn env_var_error(var: &str, message: &str) -> (e: Self)
        ensures
            e@ == (ErrorModel::EnvVarError { var: var@, message: message@ }),
    {
        CfgppError::EnvVarError { var: var.to_owned(), message: message.to_owned() }
    }

    pub fn include_error(path: &str, message: &str) -> (e: Self)
        ensures
            e@ == (ErrorModel::IncludeError { path: path@, message: message@ }),
    {
        CfgppError::IncludeError { path: path.to_owned(), message: message.to_owned() }
    }

    pub fn validation_error(message: &str) -> (e: Self)
        ensures
            e@ == (ErrorModel::ValidationError { message: message@ }),
    {
        CfgppError::ValidationError { message: message.to_owned() }
    }

    /// Whether this is a syntax error.
    pub fn is_syntax_error(&self) -> (r: bool)
        ensures
            r == (self@ is SyntaxError),
    {
        match self {
            CfgppError::SyntaxError { .. } => true,
            _ => false,
        }
    }

    /// Whether this is a type error.
    pub fn is_type_error(&self) -> (r: bool)
        ensures
            r == (self@ is TypeError),
    {
        match self {
            CfgppError::TypeError { .. } => true,
            _ => false,
        }
    }

    /// The line of a syntax error; nothing for any other error.
    pub fn line(&self) -> (r: Option<usize>)
        ensures
            match self@ {
                ErrorModel::SyntaxError { line, .. } => r is Some && r->0 == line,
                _ => r is None,
            },
    {
        match self {
            CfgppError::SyntaxError { line, .. } => Some(*line),
            _ => None,
        }
    }

    /// The column of a syntax error; nothing for any other error.
    pub fn column(&self) -> (r: Option<usize>)
        ensures
            match self@ {
                ErrorModel::SyntaxError { column, .. } => r is Some && r->0 == column,
                _ => r is None,
            },
    {
        match self {
            CfgppError::SyntaxError { column, .. } => Some(*column),
            _ => None,
        }
    }

    /// The one-line description of the error.
    pub fn to_text(&self) -> (s: String)
        ensures
            s@ == self@.text(),
    {
        let mut s = String::new();
        match self {
            CfgppError::SyntaxError { message, line, column } => {
                push_text(&mut s, "Syntax error at line ");
                push_decimal(&mut s, *line);
                push_text(&mut s, ", column ");
                push_decimal(&mut s, *column);
                push_text(&mut s, ": ");
                push_text(&mut s, message.as_str());
            },
            CfgppError::TypeError { expected, actual } => {
                push_text(&mut s, "Type error: expected ");
                push_text(&mut s, expected.as_str());
                push_text(&mut s, ", found ");
                push_text(&mut s, actual.as_str());
            },
            CfgppError::KeyNotFound { key } => {
                push_text(&mut s, "Key not found: ");
                push_text(&mut s, key.as_str());
            },
            CfgppError::IndexOutOfBounds { index } => {
                push_text(&mut s, "Index out of bounds: ");
                push_decimal(&mut s, *index);
            },
            CfgppError::IoError { message } => {
                push_text(&mut s, "I/O error: ");
                push_text(&mut s, message.as_str());
            },
            CfgppError::IncludeError { path, message } => {
                push_text(&mut s, "Include error: ");
                push_text(&mut s, path.as_str());
                push_text(&mut s, " - ");
                push_text(&mut s, message.as_str());
            },
            CfgppError::EnvVarError { var, message } => {
                push_text(&mut s, "Environment variable error: ");
                push_text(&mut s, var.as_str());
                push_text(&mut s, " - ");
                push_text(&mut s, message.as_str());
            },
            CfgppError::ValidationError { message } => {
                push_text(&mut s, "Schema validation error: ");
                push_text(&mut s, message.as_str());
            },
            CfgppError::MemoryError { message } => {
                push_text(&mut s, "Memory error: ");
                push_text(&mut s, message.as_str());
            },
            CfgppError::ParseError { message } => {
                push_text(&mut s, "Parse error: ");
                push_text(&mut s, message.as_str());
            },
        }
        s
    }
}

} // verus!
