//! What a parser is: anything that takes a state and a context and gives
//! back a green value, or none, and the state after it.
use crate::context::Context;
use crate::green::Green;
use crate::lexer::TokenKind;
use crate::state::{advances, State};
use vstd::prelude::*;

verus! {

/// A parser over tokens of kind `Tok`. Every function from a builder to a
/// green value, or none, and a state is one. An implementation states in
/// `sound` when it may be run and in `yields` what it can give back.
pub trait Parser<Tok: TokenKind> {
    /// Whether the parser can be run on every well-formed state and context
    /// and loses nothing when it is: what it gives back spans exactly the
    /// text that it moved the lexer over.
    spec fn sound(&self) -> bool;

    /// Whether the parser can give back `res` for `state` and `context`.
    spec fn yields(
        &self,
        state: State<Tok>,
        context: &Context<'_, Tok>,
        res: (Option<Green>, State<Tok>),
    ) -> bool;

    /// Parses from where `state` stands.
    fn parse(&self, state: State<Tok>, context: &Context<'_, Tok>) -> (res: (
        Option<Green>,
        State<Tok>,
    ))
        requires
            self.sound(),
            state.wf(),
            context.wf(),
        ensures
            self.yields(state, context, res),
            advances(state, res.0, res.1),
    ;
}

} // verus!
