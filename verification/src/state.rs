//! What a parse carries from one parser to the next: the lexer, the cache
//! that green values are built through, and the errors met so far.
use crate::builder::Builder;
use crate::cache::Cache;
use crate::context::Context;
use crate::error::Error;
use crate::green::{Green, Tree};
use crate::lexer::{Lexer, TokenKind};
use crate::parser::Parser;
use crate::result::ParseResult;
use crate::text::utf8_len;
use vstd::prelude::*;
use vstd::std_specs::convert::IntoSpec;

verus! {

/// The state of a parse. It is handed from parser to parser by value.
pub struct State<Tok: TokenKind> {
    pub lexer: Lexer<Tok>,
    pub cache: Cache,
    pub errors: Vec<Error>,
}

/// Whether a parse went from `before` to `after` over exactly `text`: the
/// source is the same, the lexer moved forward over the bytes of `text` and
/// over nothing else, and the errors of `before` are the first of `after`.
pub open spec fn took<Tok: TokenKind, Tok2: TokenKind>(
    before: State<Tok>,
    text: Seq<char>,
    after: State<Tok2>,
) -> bool {
    let source = before.lexer@.input;
    &&& after.wf()
    &&& after.lexer@.input == source.from(after.pos())
    &&& source.spans(before.pos(), after.pos())
    &&& text == source.slice(before.pos(), after.pos())
    &&& before.errors@.len() <= after.errors@.len()
    &&& after.errors@.subrange(0, before.errors@.len() as int) == before.errors@
}

/// Whether a parser that was handed `before` and gave back `green` and
/// `after` lost nothing: `green` spans exactly the text that the lexer moved
/// over, and where there is no `green` the lexer did not move.
pub open spec fn advances<Tok: TokenKind, Tok2: TokenKind>(
    before: State<Tok>,
    green: Option<Green>,
    after: State<Tok2>,
) -> bool {
    match green {
        Some(g) => took(before, g@.text(), after),
        None => took(before, Seq::empty(), after),
    }
}

impl<Tok: TokenKind> State<Tok> {
    /// Whether the lexer is well formed.
    pub open spec fn wf(&self) -> bool {
        self.lexer.wf()
    }

    /// The byte offset at which the next token starts.
    pub open spec fn pos(&self) -> nat {
        self.lexer@.input.start
    }

    pub(crate) fn new(lexer: Lexer<Tok>) -> (state: State<Tok>)
        ensures
            state.lexer == lexer,
            state.cache@ == Seq::<Tree>::empty(),
            state.errors@ == Seq::<Error>::empty(),
    {
        State { lexer, cache: Cache::new(), errors: Vec::new() }
    }

    /// The lexer, to look ahead or to take tokens.
    pub fn lexer_mut(&mut self) -> (lexer: &mut Lexer<Tok>)
        ensures
            *lexer == old(self).lexer,
            final(self).lexer == *final(lexer),
            final(self).cache == old(self).cache,
            final(self).errors == old(self).errors,
    {
        &mut self.lexer
    }

    pub(crate) fn add_error(&mut self, err: Error)
        ensures
            final(self).lexer == old(self).lexer,
            final(self).cache == old(self).cache,
            final(self).errors@ == old(self).errors@.push(err),
    {
        self.errors.push(err);
    }

    pub(crate) fn cache(&mut self) -> (cache: &mut Cache)
        ensures
            *cache == old(self).cache,
            final(self).cache == *final(cache),
            final(self).lexer == old(self).lexer,
            final(self).errors == old(self).errors,
    {
        &mut self.cache
    }

    /// Runs `parser` on what `lexer` reads, without trivia, from a state
    /// with a cache that has built nothing and without errors, and hands
    /// back what the parser made and the errors met.
    pub fn parse<P: Parser<Tok>>(lexer: Lexer<Tok>, parser: P) -> (result: ParseResult)
        requires
            lexer.wf(),
            parser.sound(),
        ensures
            exists|begin: State<Tok>, ctx: Context<'_, Tok>, end: State<Tok>|
                {
                    &&& begin.lexer == lexer
                    &&& begin.cache@.len() == 0
                    &&& begin.errors@.len() == 0
                    &&& ctx.leading_trivia is None
                    &&& ctx.trailing_trivia is None
                    &&& #[trigger] parser.yields(begin, &ctx, (result.root, end))
                    &&& advances(begin, result.root, end)
                    &&& result.errors == end.errors
                },
    {
        let ctx = Context::default();
        let begin = Self::new(lexer);
        let (root, state) = parser.parse(begin, &ctx);
        let State { errors, .. } = state;
        ParseResult { root, errors }
    }

    pub(crate) fn builder<'ctx>(self, ctx: &'ctx Context<'ctx, Tok>) -> (builder: Builder<'ctx, Tok>)
        ensures
            builder.state == self,
            builder.ctx == ctx,
            builder.names@ == Seq::<Seq<char>>::empty(),
    {
        Builder::new(self, ctx)
    }

    /// The same parse over another kind of token: the input that remains,
    /// the cache and the errors stay, the mode converts, and what the lexer
    /// held from looking ahead is dropped.
    pub fn transform<Tok2>(self) -> (state: State<Tok2>) where
        Tok2: TokenKind,
        Tok::Extras: Into<Tok2::Extras>,

        requires
            self.lexer@.input.valid(),
        ensures
            state.wf(),
            state.lexer@.input == self.lexer@.input,
            state.lexer.peeked is None,
            state.lexer.span == self.lexer.span,
            <Tok::Extras as IntoSpec<Tok2::Extras>>::obeys_into_spec() ==> state.lexer.extras
                == self.lexer.extras.into_spec(),
            state.cache == self.cache,
            state.errors == self.errors,
    {
        let State { lexer, cache, errors } = self;
        State { errors, cache, lexer: lexer.morph() }
    }

    /// The same as `transform`.
    pub fn morph<Tok2>(self) -> (state: State<Tok2>) where
        Tok2: TokenKind,
        Tok::Extras: Into<Tok2::Extras>,

        requires
            self.lexer@.input.valid(),
        ensures
            state.wf(),
            state.lexer@.input == self.lexer@.input,
            state.lexer.peeked is None,
            state.lexer.span == self.lexer.span,
            <Tok::Extras as IntoSpec<Tok2::Extras>>::obeys_into_spec() ==> state.lexer.extras
                == self.lexer.extras.into_spec(),
            state.cache == self.cache,
            state.errors == self.errors,
    {
        self.transform()
    }
}

/// A parse that moved over one text and then over another moved over the
/// two in this order.
pub proof fn lemma_took_twice<Tok: TokenKind, Tok2: TokenKind, Tok3: TokenKind>(
    first: State<Tok>,
    one: Seq<char>,
    second: State<Tok2>,
    two: Seq<char>,
    third: State<Tok3>,
)
    requires
        took(first, one, second),
        took(second, two, third),
    ensures
        took(first, one + two, third),
{
    let source = first.lexer@.input;
    source.lemma_slice_join(first.pos(), second.pos(), third.pos());
    assert(second.lexer@.input.slice(second.pos(), third.pos()) == source.slice(
        second.pos(),
        third.pos(),
    ));
    assert(third.errors@.subrange(0, first.errors@.len() as int) =~= first.errors@) by {
        assert forall|i: int| 0 <= i < first.errors@.len() implies third.errors@[i]
            == first.errors@[i] by {
            assert(second.errors@.subrange(0, first.errors@.len() as int)[i] == second.errors@[i]);
            assert(third.errors@.subrange(0, second.errors@.len() as int)[i] == third.errors@[i]);
        }
    }
}

/// The text that a parse moved over fits the sizes that green values hold.
pub proof fn lemma_took_fits<Tok: TokenKind, Tok2: TokenKind>(
    before: State<Tok>,
    text: Seq<char>,
    after: State<Tok2>,
)
    requires
        took(before, text, after),
    ensures
        utf8_len(text) == after.pos() - before.pos(),
        utf8_len(text) <= u32::MAX,
{
    before.lexer@.input.lemma_slice_bytes(before.pos(), after.pos());
    after.lexer.input.lemma_window();
}

/// A parse loses nothing: the tree that a parser made spans exactly the text
/// that the lexer moved over, whatever errors were met. Where the parse
/// began at the start of the source and the lexer stands at its end, the
/// text of the tree is the source.
pub proof fn law_round_trip<Tok: TokenKind>(begin: State<Tok>, root: Green, end: State<Tok>)
    requires
        advances(begin, Some(root), end),
    ensures
        root@.text() == begin.lexer@.input.slice(begin.pos(), end.pos()),
        root@.size() == end.pos() - begin.pos(),
        begin.pos() == 0 && end.pos() == utf8_len(begin.lexer@.input.text)
            ==> root@.text() == begin.lexer@.input.text,
{
    let source = begin.lexer@.input;
    lemma_took_fits(begin, root@.text(), end);
    if begin.pos() == 0 && end.pos() == utf8_len(source.text) {
        assert(source.bytes().subrange(0, source.bytes().len() as int) =~= source.bytes());
        vstd::utf8::encode_utf8_decode_utf8(source.text);
    }
}

/// A parse that did not move took nothing.
pub proof fn lemma_took_nothing<Tok: TokenKind>(state: State<Tok>)
    requires
        state.wf(),
    ensures
        took(state, Seq::empty(), state),
{
    let source = state.lexer@.input;
    assert(source.from(state.pos()) == source);
    assert(source.bytes().subrange(state.pos() as int, state.pos() as int) =~= Seq::<u8>::empty());
    assert(state.errors@.subrange(0, state.errors@.len() as int) =~= state.errors@);
}

} // verus!
