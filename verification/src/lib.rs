//! A verified interpreter for the Nock combinator calculus.
//!
//! The single data type is the noun: an atom (a natural number of unbounded
//! magnitude, stored as little-endian base-256 digits) or a cell (an ordered
//! pair of nouns). `nock_on` rewrites a pair of nouns, subject and formula,
//! into a result noun. A textual grammar reads and prints nouns.
pub mod bignum;
pub mod convert;
pub mod digits;
pub mod eval;
pub mod fold;
pub mod noun;
pub mod text;

pub use convert::{noun_list, FromNoun, ToNoun};
pub use digits::digits_value;
pub use eval::{nock_on, NockError, NockResult};
pub use fold::FoldOp;
pub use noun::{Noun, NounView, NounShape, Shape};
pub use text::ParseError;
