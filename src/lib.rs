//! Compiles a small pattern language (literal characters, `.`, groups,
//! backslash escapes and the quantifiers `*`, `+`, `?`) and decides whether a
//! pattern matches a whole string.
//!
//! `model` states what compiling and matching mean, over plain sequences;
//! `pattern` holds the executable compiler and matcher, each proved equal to
//! the model; `laws` states general facts of the model.
use vstd::prelude::*;

pub mod laws;
pub mod model;
pub mod pattern;

pub use pattern::{Regexp, RegexpParsingError};

verus! {

} // verus!
