//! A parser and schema validator for the CFG++ configuration language.
//!
//! CFG++ is a brace-delimited configuration format:
//!
//! ```text
//! database {
//!     host = "localhost";
//!     port = 5432;
//!     replicas = ["a", "b"];
//!     password = ${DB_PASSWORD:-secret};
//! }
//! ```
//!
//! Text goes through three stages. The scanner ([`lexer`]) turns it into
//! tokens with their places. The parser ([`parser`]) turns tokens into a value
//! tree ([`value`]) and resolves variable references and include directives on
//! the way. The validator ([`validate`]) matches a value tree against a schema
//! ([`schema`], read from text by [`schema_text`]) and collects every finding.
//!
//! Every function is verified against a contract over a mathematical model of
//! its data: [`lexer::lex`] says what the tokens of a text are,
//! [`parser::parse_spec`] what value a text stands for, and
//! [`validate::validate_spec`] what a validation finds. [`laws`] holds what
//! follows from these definitions.
//!
//! The library reads no file and no environment, and it performs no
//! floating-point arithmetic. The host hands the parser what a source refers
//! to ([`parser::host_requests`] lists it), and a double is carried as its
//! IEEE 754 bit pattern ([`number`]).

pub mod ast;
pub mod error;
pub mod laws;
pub mod lexer;
pub mod number;
pub mod parser;
pub mod schema;
pub mod schema_text;
pub mod text;
pub mod validate;
pub mod value;

pub use ast::{AstModel, AstNode, BinaryOperator};
pub use error::{CfgppError, CfgppResult, ErrorModel};
pub use lexer::{Lexer, Token, TokenModel, TokenType};
pub use parser::{HostRequest, ParseEnv, Parser, ParserOptions};
pub use schema::{Constraint, FieldDefinition, Schema, SchemaModel, TypeDefinition, ValidationError};
pub use value::{CfgppValue, ValueModel};

use vstd::prelude::*;

verus! {

/// The version of the library.
pub const VERSION: &'static str = "0.1.0";

} // verus!
