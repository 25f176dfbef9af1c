//! A human-friendly filter expression language for matching objects against
//! user-provided queries.
//!
//! The library scans and parses filter expressions such as
//! `repo.public && repo.stars >= 50` into expression trees, reporting the
//! exact location of anything it cannot accept. The case-insensitive string
//! operations and glob patterns which the language's operators use are here
//! too.
pub mod bounded;
pub mod case_sensitivity;
pub mod duration;
pub mod expr;
pub mod filter;
pub mod functions;
pub mod lexer;
pub mod location;
pub mod message;
pub mod operator;
pub mod parser;
pub mod pattern;
pub mod reading;
pub mod token;
pub mod unicode;

pub use bounded::{bounded_bytes, bounded_text};
pub use expr::{Expr, ExprVisitor, Literal};
pub use filter::Filter;
pub use functions::{datetime, now, trim, Ago};
pub use lexer::{LexError, Scanner};
pub use location::Loc;
pub use operator::{BinaryOperator, LogicalOperator, UnaryOperator};
pub use parser::{FunctionSignature, ParseError, Parser};
pub use pattern::{CompiledRegex, Glob};
pub use token::Token;
