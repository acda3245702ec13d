//! Engineering-notation numeric literals, as found in circuit descriptions:
//! a decimal number with an optional exponent, or with a one-letter
//! magnitude suffix such as `k`, `u` or `Meg`.

pub mod grammar;
pub mod laws;
pub mod lexer;
pub mod literal;

pub use grammar::is_float_literal_prefix;
pub use literal::{resolve, Literal, NumberErrorKind, ParseNumberError};
