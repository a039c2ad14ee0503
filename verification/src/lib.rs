//! A declaration-locator library: given a lexical token tree (the re-tokenized
//! output of a macro-expansion step), it finds and extracts the exact token
//! slice of one requested declaration, searching nested scopes in pre-order.

pub mod cmd;
pub mod laws;
pub mod locate;
pub mod scroll;
pub mod ser;
pub mod token;

pub use token::{Delim, Token, TokenView};
