//! What a parser is told about its surroundings: how the trivia before and
//! after a token are taken.
use crate::green::Green;
use crate::lexer::TokenKind;
use crate::parser::Parser;
use crate::state::{advances, State};
use vstd::prelude::*;

verus! {

/// A parser of trivia: one that runs without a context of its own.
pub trait Trivia<Tok: TokenKind> {
    /// Whether the parser can be run on every well-formed state and loses
    /// nothing when it is.
    spec fn lossless(&self) -> bool;

    /// Whether the parser can give back `res` for `state`.
    spec fn gives(&self, state: State<Tok>, res: (Option<Green>, State<Tok>)) -> bool;

    /// Takes the trivia at the front of the input.
    fn harvest(&self, state: State<Tok>) -> (res: (Option<Green>, State<Tok>))
        requires
            self.lossless(),
            state.wf(),
        ensures
            self.gives(state, res),
            advances(state, res.0, res.1),
    ;
}

/// The trivia parsers that a token leaf runs before and after its token.
#[verifier::reject_recursive_types(Tok)]
pub struct Context<'ctx, Tok: TokenKind> {
    pub leading_trivia: Option<&'ctx dyn Trivia<Tok>>,
    pub trailing_trivia: Option<&'ctx dyn Trivia<Tok>>,
}

impl<'ctx, Tok: TokenKind> Default for Context<'ctx, Tok> {
    fn default() -> (ctx: Self)
        ensures
            ctx.leading_trivia is None,
            ctx.trailing_trivia is None,
    {
        Self { leading_trivia: None, trailing_trivia: None }
    }
}

impl<'ctx, Tok: TokenKind> Context<'ctx, Tok> {
    /// Whether the trivia parsers lose nothing.
    pub open spec fn wf(&self) -> bool {
        &&& self.leading_trivia matches Some(trivia) ==> trivia.lossless()
        &&& self.trailing_trivia matches Some(trivia) ==> trivia.lossless()
    }

    /// The context in which `trivia` is taken both before and after a token.
    pub fn new(trivia: &'ctx dyn Trivia<Tok>) -> (ctx: Self)
        ensures
            ctx.leading_trivia is Some,
            ctx.trailing_trivia is Some,
            trivia.lossless() ==> ctx.wf(),
    {
        Self { leading_trivia: Some(trivia), trailing_trivia: Some(trivia) }
    }

    /// The parser of the trivia before a token, if there is one.
    pub fn leading_trivia(&self) -> (trivia: Option<&'ctx dyn Trivia<Tok>>)
        ensures
            trivia == self.leading_trivia,
    {
        self.leading_trivia
    }

    /// The parser of the trivia after a token, if there is one.
    pub fn trailing_trivia(&self) -> (trivia: Option<&'ctx dyn Trivia<Tok>>)
        ensures
            trivia == self.trailing_trivia,
    {
        self.trailing_trivia
    }
}

impl<Tok: TokenKind, P: Parser<Tok>> Trivia<Tok> for P {
    open spec fn lossless(&self) -> bool {
        self.sound()
    }

    /// What a parser gives as trivia is what it yields in a context without
    /// trivia.
    open spec fn gives(&self, state: State<Tok>, res: (Option<Green>, State<Tok>)) -> bool {
        exists|ctx: Context<'_, Tok>|
            {
                &&& ctx.leading_trivia is None
                &&& ctx.trailing_trivia is None
                &&& #[trigger] self.yields(state, &ctx, res)
            }
    }

    fn harvest(&self, state: State<Tok>) -> (res: (Option<Green>, State<Tok>)) {
        let ctx = Context::default();
        self.parse(state, &ctx)
    }
}

} // verus!
