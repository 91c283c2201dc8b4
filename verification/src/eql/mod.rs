//! EQL, the EdisonDB statement language.

pub mod ast;
pub mod parser;

pub use ast::{Statement, StatementView, Tier};
pub use parser::{parse, Expected, ParseError};
