//! A lexical scanner for a small scripting language: it converts raw source
//! text into a sequence of typed tokens, tracking source line numbers for
//! diagnostics. The scan is specified by a mathematical model of the
//! character dispatch, and the executable scanner is proved to follow it.

use vstd::prelude::*;

pub mod laws;
pub mod model;
pub mod scanner;
pub mod token;

verus! {

/// Driver-level state: records whether any lexical diagnostic was raised, so
/// that a caller can choose its user-visible behaviour (such as an exit code).
pub struct Lox {
    pub had_error: bool,
}

impl Lox {
    pub fn new() -> (l: Lox)
        ensures
            !l.had_error,
    {
        Lox { had_error: false }
    }
}

} // verus!
