//! A parser-combinator engine over rewindable token streams.
//!
//! Parsers are first-class values: small structs that implement [`parsec::Parsec`].
//! Each parser carries a mathematical description of its behaviour
//! (`spec_parse`), and its executable `parse` method is verified to follow
//! that description exactly: the tokens are never changed, the final position
//! equals the described one, and the returned value or error matches.

pub mod parsec;
