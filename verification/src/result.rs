//! What a parse hands back.
use crate::error::Error;
use crate::green::Green;
use vstd::prelude::*;

verus! {

/// The tree that a parse built, if it built one, and the errors it met, in
/// the order in which it met them.
#[derive(Debug)]
pub struct ParseResult {
    pub root: Option<Green>,
    pub errors: Vec<Error>,
}

} // verus!
