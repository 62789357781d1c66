//! Scanner and recursive-descent parser for the expression language of Lox.
//!
//! Source text is turned into tokens by [`scanner::Scanner`], and tokens into
//! one [`expression::Expression`] by [`parser::Parser`]. Both passes are
//! specified by spec functions over the source characters and the token
//! sequence, and the executable code is proved to compute exactly those.

pub mod expression;
pub mod lox_err;
pub mod parser;
pub mod scanner;
pub mod text;
pub mod token;
