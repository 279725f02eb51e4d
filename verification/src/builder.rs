//! The builders that parsers are written with: one that makes a leaf or
//! hands over to another parser, and one that gathers children into a node.
use crate::cache::{interned, Cache};
use crate::context::{Context, Trivia};
use crate::error::Error;
use crate::green::{Green, Name, TokenText, Tree};
use crate::lexer::TokenKind;
use crate::names::{placed, NameSet};
use crate::parser::Parser;
use crate::smol::{smol_as_str, smol_new, smol_text};
use crate::state::{
    advances, lemma_took_fits, lemma_took_nothing, lemma_took_twice, took, State,
};
use crate::text::{lemma_encode_concat, utf8_len};
use smol_str::SmolStr;
use vstd::prelude::*;
use vstd::std_specs::convert::IntoSpec;

verus! {

/// `tree` inside one alias for each of `names`: the first name innermost,
/// the last outermost.
pub open spec fn wrapped(tree: Tree, names: Seq<Seq<char>>) -> Tree
    decreases names.len(),
{
    if names.len() == 0 {
        tree
    } else {
        Tree::Alias {
            name: names.last(),
            inner: Some(Box::new(wrapped(tree, names.drop_last()))),
        }
    }
}

/// What a cache that held `held` holds once `tree` was put inside one alias
/// for each of `names` through it: each alias in turn, the first innermost,
/// unless it was held already.
pub open spec fn wrapped_into(held: Seq<Tree>, tree: Tree, names: Seq<Seq<char>>) -> Seq<Tree>
    decreases names.len(),
{
    if names.len() == 0 {
        held
    } else {
        interned(wrapped_into(held, tree, names.drop_last()), wrapped(tree, names))
    }
}

/// What a cache that held `held` holds once `tree` was built through it and
/// then put inside one alias for each of `names`.
pub open spec fn built_into(held: Seq<Tree>, tree: Tree, names: Seq<Seq<char>>) -> Seq<Tree> {
    wrapped_into(interned(held, tree), tree, names)
}

/// Aliases add no text.
pub proof fn lemma_wrapped_text(tree: Tree, names: Seq<Seq<char>>)
    ensures
        wrapped(tree, names).text() == tree.text(),
        wrapped(tree, names).unaliased() == tree.unaliased(),
    decreases names.len(),
{
    if names.len() > 0 {
        lemma_wrapped_text(tree, names.drop_last());
    }
}

/// A tree inside aliases answers to the names of the aliases besides those
/// that it answers to itself.
pub proof fn law_wrapped_answers(tree: Tree, names: Seq<Seq<char>>, asked: Seq<char>)
    ensures
        wrapped(tree, names).answers_to(asked) <==> names.contains(asked) || tree.answers_to(asked),
    decreases names.len(),
{
    if names.len() > 0 {
        let rest = names.drop_last();
        law_wrapped_answers(tree, rest, asked);
        if rest.contains(asked) {
            let i = choose|i: int| 0 <= i < rest.len() && rest[i] == asked;
            assert(names[i] == asked);
        }
        if names.contains(asked) && names.last() != asked {
            let i = choose|i: int| 0 <= i < names.len() && names[i] == asked;
            assert(rest[i] == asked);
        }
    }
}

/// The name that a builder gives to what it makes: the first of its names,
/// or the empty name where it has none.
pub open spec fn own_name(names: Seq<Seq<char>>) -> Seq<char> {
    if names.len() == 0 {
        Seq::empty()
    } else {
        names[0]
    }
}

/// The names that a builder wraps around what it makes: all but the first.
pub open spec fn alias_names(names: Seq<Seq<char>>) -> Seq<Seq<char>> {
    if names.len() == 0 {
        names
    } else {
        names.subrange(1, names.len() as int)
    }
}

/// The leaf that a builder with `names` makes of a token with text `value`
/// between the trivia `leading` and `trailing`; at the end of the input,
/// where there is no token, a token named `eof` that holds the trivia, inside
/// all of the names.
pub open spec fn leaf_tree(
    names: Seq<Seq<char>>,
    leading: Seq<char>,
    value: Option<Seq<char>>,
    trailing: Seq<char>,
) -> Tree {
    match value {
        Some(value) => wrapped(
            Tree::Token {
                name: own_name(names),
                text: TokenText { prefix: leading, value, postfix: trailing },
            },
            alias_names(names),
        ),
        None => wrapped(
            Tree::Token {
                name: "eof"@,
                text: TokenText { prefix: leading, value: Seq::empty(), postfix: trailing },
            },
            names,
        ),
    }
}

/// What a cache that held `held` holds once the leaf of `leaf_tree` was
/// built through it: the token, then each alias around it.
pub open spec fn leaf_cache(
    held: Seq<Tree>,
    names: Seq<Seq<char>>,
    leading: Seq<char>,
    value: Option<Seq<char>>,
    trailing: Seq<char>,
) -> Seq<Tree> {
    match value {
        Some(value) => built_into(
            held,
            Tree::Token {
                name: own_name(names),
                text: TokenText { prefix: leading, value, postfix: trailing },
            },
            alias_names(names),
        ),
        None => built_into(
            held,
            Tree::Token {
                name: "eof"@,
                text: TokenText { prefix: leading, value: Seq::empty(), postfix: trailing },
            },
            names,
        ),
    }
}

/// Whether taking a token as a leaf goes from `start` to `res` by way of
/// `lead` and `tail`: the leading trivia parser moves over `leading` to
/// `lead`, the lexer yields its next token there and stands in `tail`, the
/// trailing trivia parser moves over `trailing`, and the leaf holds the
/// three under `names` and is built through the cache as the trailing
/// trivia parser left it. Without a trivia parser nothing moves at that
/// step. What the lexer of `start` holds from looking ahead plays no part.
pub open spec fn leaf_steps<Tok: TokenKind>(
    start: State<Tok>,
    ctx: &Context<'_, Tok>,
    names: Seq<Seq<char>>,
    res: (Option<Green>, State<Tok>),
    lead: State<Tok>,
    tail: State<Tok>,
    leading: Seq<char>,
    trailing: Seq<char>,
) -> bool {
    let next = lead.lexer@.next();
    let value = match next {
        Some((lexeme, _)) => Some(lead.lexer@.input.slice(lexeme.lo, lexeme.hi)),
        None => None,
    };
    &&& took(start, leading, lead)
    &&& match ctx.leading_trivia {
        Some(parser) => exists|peeked: State<Tok>, made: Option<Green>|
            {
                &&& peeked.lexer@ == start.lexer@
                &&& peeked.cache == start.cache
                &&& peeked.errors == start.errors
                &&& #[trigger] parser.gives(peeked, (made, lead))
            },
        None => lead.lexer@ == start.lexer@ && lead.cache == start.cache && lead.errors
            == start.errors,
    }
    &&& tail.lexer@ == match next {
        Some((_, after)) => after,
        None => lead.lexer@,
    }
    &&& tail.cache == lead.cache
    &&& tail.errors == lead.errors
    &&& res.0 is Some
    &&& res.0->0@ == leaf_tree(names, leading, value, trailing)
    &&& took(tail, trailing, res.1)
    &&& match ctx.trailing_trivia {
        Some(parser) => exists|made: Option<Green>, last: State<Tok>|
            {
                &&& #[trigger] parser.gives(tail, (made, last))
                &&& res.1.lexer == last.lexer
                &&& res.1.errors == last.errors
                &&& res.1.cache@ == leaf_cache(last.cache@, names, leading, value, trailing)
            },
        None => {
            &&& res.1.lexer == tail.lexer
            &&& res.1.errors == tail.errors
            &&& res.1.cache@ == leaf_cache(tail.cache@, names, leading, value, trailing)
        },
    }
}

/// Whether taking a token as a leaf under `names` goes from `start` to
/// `res` in the context `ctx`.
pub open spec fn leaf_taken<Tok: TokenKind>(
    start: State<Tok>,
    ctx: &Context<'_, Tok>,
    names: Seq<Seq<char>>,
    res: (Option<Green>, State<Tok>),
) -> bool {
    exists|lead: State<Tok>, tail: State<Tok>, leading: Seq<char>, trailing: Seq<char>| #[trigger]
        leaf_steps(start, ctx, names, res, lead, tail, leading, trailing)
}

/// Taking a token as a leaf depends on where the lexer stands, on the cache
/// and on the errors met, not on what the lexer holds from looking ahead.
pub proof fn lemma_leaf_taken_after_peek<Tok: TokenKind>(
    start: State<Tok>,
    peeked: State<Tok>,
    ctx: &Context<'_, Tok>,
    names: Seq<Seq<char>>,
    res: (Option<Green>, State<Tok>),
)
    requires
        leaf_taken(peeked, ctx, names, res),
        peeked.lexer@ == start.lexer@,
        peeked.cache == start.cache,
        peeked.errors == start.errors,
    ensures
        leaf_taken(start, ctx, names, res),
{
    let (lead, tail, leading, trailing) = choose|
        lead: State<Tok>,
        tail: State<Tok>,
        leading: Seq<char>,
        trailing: Seq<char>,
    | #[trigger] leaf_steps(peeked, ctx, names, res, lead, tail, leading, trailing);
    assert(leaf_steps(start, ctx, names, res, lead, tail, leading, trailing));
}

/// The leaf that a builder with `names` makes of the text `value` that it
/// reports an error on.
pub open spec fn error_tree(names: Seq<Seq<char>>, value: Seq<char>) -> Tree {
    wrapped(
        Tree::Token {
            name: "error"@,
            text: TokenText { prefix: Seq::empty(), value, postfix: Seq::empty() },
        },
        names,
    )
}

/// What a cache that held `held` holds once the leaf of `error_tree` was
/// built through it: the token, then each alias around it.
pub open spec fn error_cache(held: Seq<Tree>, names: Seq<Seq<char>>, value: Seq<char>) -> Seq<
    Tree,
> {
    built_into(
        held,
        Tree::Token {
            name: "error"@,
            text: TokenText { prefix: Seq::empty(), value, postfix: Seq::empty() },
        },
        names,
    )
}

/// Whether reporting `desc` under `names` goes from `start` to `res`: one
/// error is added that says `desc`; the next token, if there is one, is
/// taken as the error leaf and the error is about its range; at the end of
/// the input the leaf is empty and the error is about the range of the
/// token yielded last. The leaf is built through the cache of `start`.
pub open spec fn error_taken<Tok: TokenKind>(
    start: State<Tok>,
    names: Seq<Seq<char>>,
    desc: Seq<char>,
    res: (Option<Green>, State<Tok>),
) -> bool {
    &&& res.1.errors@.len() == start.errors@.len() + 1
    &&& res.1.errors@.last().text() == desc
    &&& res.0 is Some
    &&& match start.lexer@.next() {
        Some((lexeme, after)) => {
            &&& res.1.lexer@ == after
            &&& res.1.pos() > start.pos()
            &&& res.1.errors@.last().at().lo() == lexeme.lo
            &&& res.1.errors@.last().at().hi() == lexeme.hi
            &&& res.0->0@ == error_tree(names, start.lexer@.input.slice(lexeme.lo, lexeme.hi))
            &&& res.1.cache@ == error_cache(
                start.cache@,
                names,
                start.lexer@.input.slice(lexeme.lo, lexeme.hi),
            )
        },
        None => {
            &&& res.1.lexer@ == start.lexer@
            &&& res.1.errors@.last().at() == start.lexer.span
            &&& res.0->0@ == error_tree(names, Seq::empty())
            &&& res.1.cache@ == error_cache(start.cache@, names, Seq::empty())
        },
    }
}

/// The node that a builder with `names` makes of `children`.
pub open spec fn node_tree(names: Seq<Seq<char>>, children: Seq<Tree>) -> Tree {
    wrapped(Tree::Node { name: own_name(names), children }, alias_names(names))
}

/// What a cache that held `held` holds once the node of `node_tree` was
/// built through it: the node, then each alias around it.
pub open spec fn node_cache(held: Seq<Tree>, names: Seq<Seq<char>>, children: Seq<Tree>) -> Seq<
    Tree,
> {
    built_into(held, Tree::Node { name: own_name(names), children }, alias_names(names))
}

/// Taking the next token moves the parse over the text of the token, and
/// over something unless the input is at its end.
pub proof fn lemma_took_next<Tok: TokenKind>(before: State<Tok>, text: Seq<char>, after: State<Tok>)
    requires
        before.wf(),
        after.wf(),
        after.errors == before.errors,
        match before.lexer@.next() {
            Some((lexeme, rest)) => {
                &&& after.lexer@ == rest
                &&& text == before.lexer@.input.slice(lexeme.lo, lexeme.hi)
            },
            None => {
                &&& after.lexer@ == before.lexer@
                &&& text == Seq::<char>::empty()
            },
        },
    ensures
        took(before, text, after),
        before.lexer@.next() is Some ==> after.pos() > before.pos(),
{
    before.lexer@.law_next_advances();
    lemma_took_nothing(before);
    assert(after.errors@.subrange(0, before.errors@.len() as int) =~= before.errors@);
}

/// Puts `green` inside one alias for each of the names from `from` on.
fn wrap(cache: &mut Cache, names: &NameSet, from: usize, green: Green) -> (out: Green)
    requires
        from <= names@.len(),
    ensures
        out@ == wrapped(green@, names@.subrange(from as int, names@.len() as int)),
        final(cache)@ == wrapped_into(
            old(cache)@,
            green@,
            names@.subrange(from as int, names@.len() as int),
        ),
{
    let mut node = green;
    let mut i = from;
    let count = names.len();
    while i < count
        invariant
            from <= i <= count,
            count == names@.len(),
            node@ == wrapped(green@, names@.subrange(from as int, i as int)),
            cache@ == wrapped_into(old(cache)@, green@, names@.subrange(from as int, i as int)),
        decreases count - i,
    {
        let alias = names.get(i);
        let build = move |held: &mut Cache| -> (made: Option<Green>)
            ensures
                made == Some(node),
                final(held)@ == old(held)@,
            { Some(node) };
        node = cache.alias(alias, build);
        proof {
            let upto = names@.subrange(from as int, i + 1);
            assert(upto.drop_last() =~= names@.subrange(from as int, i as int));
            assert(upto.last() == names@[i as int]);
        }
        i += 1;
    }
    node
}

/// A builder of one green value: a leaf, or what another parser makes.
#[verifier::reject_recursive_types(Tok)]
pub struct Builder<'ctx, Tok: TokenKind> {
    pub state: State<Tok>,
    pub ctx: &'ctx Context<'ctx, Tok>,
    pub names: NameSet,
}

impl<'ctx, Tok: TokenKind> Builder<'ctx, Tok> {
    /// Whether the state is well formed and the trivia parsers lose nothing.
    pub open spec fn wf(&self) -> bool {
        &&& self.state.wf()
        &&& self.ctx.wf()
    }

    pub(crate) fn new(state: State<Tok>, ctx: &'ctx Context<'ctx, Tok>) -> (builder: Self)
        ensures
            builder.state == state,
            builder.ctx == ctx,
            builder.names@ == Seq::<Seq<char>>::empty(),
    {
        Self { state, ctx, names: NameSet::new() }
    }

    /// Adds `name` to the names of what is built.
    pub fn name(self, name: Name) -> (builder: Self)
        ensures
            builder.state == self.state,
            builder.ctx == self.ctx,
            builder.names@ == placed(self.names@, name@),
    {
        let mut builder = self;
        builder.names.insert(name);
        builder
    }

    /// The kind of the next token, which stays where it is.
    pub fn peek_token(&mut self) -> (kind: Option<Tok>)
        requires
            old(self).state.wf(),
        ensures
            final(self).state.wf(),
            final(self).state.lexer@ == old(self).state.lexer@,
            final(self).state.lexer.span == old(self).state.lexer.span,
            final(self).state.cache == old(self).state.cache,
            final(self).state.errors == old(self).state.errors,
            final(self).ctx == old(self).ctx,
            final(self).names == old(self).names,
            kind == match old(self).state.lexer@.next() {
                Some((lexeme, _)) => Some(lexeme.kind),
                None => None,
            },
    {
        match self.state.lexer.peek() {
            Some(token) => Some(token.token),
            None => None,
        }
    }

    /// The builder of a node that starts where this builder stands, with
    /// the same names and no child yet.
    pub fn node(self) -> (builder: NodeBuilder<'ctx, Tok>)
        requires
            self.wf(),
        ensures
            builder.wf(),
            builder.origin@ == self.state,
            builder.state == self.state,
            builder.ctx == self.ctx,
            builder.names == self.names,
            builder.children@ == Seq::<Green>::empty(),
    {
        NodeBuilder::new(self)
    }

    /// Makes nothing, and leaves the input as it is.
    pub fn none(self) -> (res: (Option<Green>, State<Tok>))
        ensures
            res.0 is None,
            res.1 == self.state,
            self.state.wf() ==> advances(self.state, res.0, res.1),
    {
        proof {
            if self.state.wf() {
                lemma_took_nothing(self.state);
            }
        }
        (None, self.state)
    }

    /// Uses `ctx` from now on.
    pub fn set_ctx(self, ctx: &'ctx Context<'ctx, Tok>) -> (builder: Self)
        ensures
            builder.state == self.state,
            builder.ctx == ctx,
            builder.names == self.names,
    {
        let Builder { state, names, .. } = self;
        Builder { state, ctx, names }
    }

    /// The context in use.
    pub fn get_ctx(&self) -> (ctx: &'ctx Context<'ctx, Tok>)
        ensures
            ctx == self.ctx,
    {
        self.ctx
    }

    /// Puts what a parser made inside one alias for each of `names`, the
    /// first innermost. Where the parser made nothing, nothing is made.
    pub fn alias_all(names: &NameSet, made: Option<Green>, state: State<Tok>) -> (res: (
        Option<Green>,
        State<Tok>,
    ))
        ensures
            res.0 == match made {
                Some(green) => Some(res.0->0),
                None => None,
            },
            made matches Some(green) ==> res.0->0@ == wrapped(green@, names@),
            res.1.lexer == state.lexer,
            res.1.errors == state.errors,
            res.1.cache@ == match made {
                Some(green) => wrapped_into(state.cache@, green@, names@),
                None => state.cache@,
            },
    {
        let mut state = state;
        match made {
            None => (None, state),
            Some(green) => {
                let node = wrap(state.cache(), names, 0, green);
                proof {
                    assert(names@.subrange(0, names@.len() as int) =~= names@);
                }
                (Some(node), state)
            },
        }
    }

    /// Runs `parser` where the builder stands and puts what it makes inside
    /// one alias for each name of the builder, the first innermost.
    pub fn parse<P: Parser<Tok>>(self, parser: P) -> (res: (Option<Green>, State<Tok>))
        requires
            self.wf(),
            parser.sound(),
        ensures
            advances(self.state, res.0, res.1),
            exists|inner: (Option<Green>, State<Tok>)|
                {
                    &&& #[trigger] parser.yields(self.state, self.ctx, inner)
                    &&& res.0 is Some == inner.0 is Some
                    &&& inner.0 matches Some(green) ==> res.0->0@ == wrapped(green@, self.names@)
                    &&& res.1.lexer == inner.1.lexer
                    &&& res.1.errors == inner.1.errors
                    &&& res.1.cache@ == match inner.0 {
                        Some(green) => wrapped_into(inner.1.cache@, green@, self.names@),
                        None => inner.1.cache@,
                    }
                },
    {
        let Self { state, names, ctx } = self;
        let inner = parser.parse(state, ctx);
        let ghost found = inner;
        let (green, state) = inner;
        let res = Self::alias_all(&names, green, state);
        proof {
            if let Some(green) = found.0 {
                lemma_wrapped_text(green@, names@);
            }
        }
        res
    }

    /// Runs the trivia parser, if there is one, and gives the text of what
    /// it made; the empty text where there is none or it made nothing.
    pub fn handle_trivia(trivia: Option<&'ctx dyn Trivia<Tok>>, state: State<Tok>) -> (res: (
        SmolStr,
        State<Tok>,
    ))
        requires
            state.wf(),
            trivia matches Some(parser) ==> parser.lossless(),
        ensures
            took(state, smol_text(res.0), res.1),
            match trivia {
                Some(parser) => exists|made: Option<Green>| #[trigger]
                    parser.gives(state, (made, res.1)),
                None => res.1 == state,
            },
    {
        match trivia {
            None => {
                proof {
                    reveal_strlit("");
                    lemma_took_nothing(state);
                    assert(""@ =~= Seq::<char>::empty());
                }
                (smol_new(""), state)
            },
            Some(trivia) => {
                let (made, state) = trivia.harvest(state);
                let text = match made {
                    Some(green) => smol_new(green.to_string().as_str()),
                    None => {
                        proof {
                            reveal_strlit("");
                            assert(""@ =~= Seq::<char>::empty());
                        }
                        smol_new("")
                    },
                };
                (text, state)
            },
        }
    }

    /// The leaf made of a token with text `value`, or of the end of the
    /// input where there is no token, between the trivia `leading` and
    /// `trailing`, under the names `names`.
    pub fn leaf(
        names: &NameSet,
        leading: &SmolStr,
        value: Option<SmolStr>,
        trailing: &SmolStr,
        state: State<Tok>,
    ) -> (res: (Option<Green>, State<Tok>))
        requires
            utf8_len(smol_text(*leading)) + (match value {
                Some(v) => utf8_len(smol_text(v)),
                None => 0,
            }) + utf8_len(smol_text(*trailing)) <= usize::MAX,
        ensures
            res.0 matches Some(green) && green@ == leaf_tree(
                names@,
                smol_text(*leading),
                match value {
                    Some(v) => Some(smol_text(v)),
                    None => None,
                },
                smol_text(*trailing),
            ),
            res.1.lexer == state.lexer,
            res.1.errors == state.errors,
            res.1.cache@ == leaf_cache(
                state.cache@,
                names@,
                smol_text(*leading),
                match value {
                    Some(v) => Some(smol_text(v)),
                    None => None,
                },
                smol_text(*trailing),
            ),
    {
        let mut state = state;
        let count = names.len();
        match value {
            None => {
                proof {
                    reveal_strlit("");
                    assert(""@ =~= Seq::<char>::empty());
                    assert(names@.subrange(0, names@.len() as int) =~= names@);
                }
                let token = state.cache().with_trivia(
                    "eof",
                    smol_as_str(leading),
                    "",
                    smol_as_str(trailing),
                );
                let node = wrap(state.cache(), names, 0, token);
                (Some(node), state)
            },
            Some(value) => {
                let name = if count > 0 {
                    names.get(0)
                } else {
                    proof {
                        reveal_strlit("");
                        assert(""@ =~= Seq::<char>::empty());
                    }
                    ""
                };
                let from: usize = if count > 0 {
                    1
                } else {
                    0
                };
                proof {
                    assert(names@.subrange(from as int, names@.len() as int) =~= alias_names(
                        names@,
                    ));
                }
                let token = state.cache().with_trivia(
                    name,
                    smol_as_str(leading),
                    smol_as_str(&value),
                    smol_as_str(trailing),
                );
                let node = wrap(state.cache(), names, from, token);
                (Some(node), state)
            },
        }
    }

    /// Takes one token as a leaf: the trivia before it as the context says,
    /// the token, and the trivia after it. At the end of the input the leaf
    /// is a token named `eof` that holds the trivia.
    pub fn token(self) -> (res: (Option<Green>, State<Tok>))
        requires
            self.wf(),
        ensures
            advances(self.state, res.0, res.1),
            leaf_taken(self.state, self.ctx, self.names@, res),
    {
        let Self { state, names, ctx } = self;
        let ghost start = state;
        let (leading, state) = Self::handle_trivia(ctx.leading_trivia, state);
        let mut state = state;
        let ghost second = state;
        proof {
            state.lexer@.law_next_advances();
        }
        let value = match state.lexer.next() {
            Some(token) => Some(token.value),
            None => None,
        };
        let ghost third = state;
        let ghost value_text = if value is Some {
            Some(smol_text(value->0))
        } else {
            None
        };
        let ghost middle = if value is Some {
            smol_text(value->0)
        } else {
            Seq::<char>::empty()
        };
        proof {
            lemma_took_next(second, middle, third);
        }
        let (trailing, state) = Self::handle_trivia(ctx.trailing_trivia, state);
        proof {
            lemma_took_twice(start, smol_text(leading), second, middle, third);
            lemma_took_twice(
                start,
                smol_text(leading) + middle,
                third,
                smol_text(trailing),
                state,
            );
            lemma_took_fits(start, smol_text(leading) + middle + smol_text(trailing), state);
            lemma_encode_concat(smol_text(leading), middle);
            lemma_encode_concat(smol_text(leading) + middle, smol_text(trailing));
        }
        let res = Self::leaf(&names, &leading, value, &trailing, state);
        proof {
            let text = TokenText {
                prefix: smol_text(leading),
                value: middle,
                postfix: smol_text(trailing),
            };
            if value_text is Some {
                lemma_wrapped_text(
                    Tree::Token { name: own_name(names@), text },
                    alias_names(names@),
                );
            } else {
                lemma_wrapped_text(Tree::Token { name: "eof"@, text }, names@);
            }
            assert(res.0->0@.text() == text.whole());
            assert(took(third, smol_text(trailing), res.1));
            assert(leaf_steps(
                start,
                ctx,
                names@,
                res,
                second,
                third,
                smol_text(leading),
                smol_text(trailing),
            ));
        }
        res
    }

    /// Takes the next token, if there is one, as a leaf named `error`, and
    /// records an error that says `desc` about the range of the token; at
    /// the end of the input, about the range of the token yielded last.
    pub fn error(self, desc: &str) -> (res: (Option<Green>, State<Tok>))
        requires
            self.wf(),
        ensures
            advances(self.state, res.0, res.1),
            error_taken(self.state, self.names@, desc@, res),
    {
        let Self { state, names, .. } = self;
        let ghost start = state;
        let mut state = state;
        proof {
            state.lexer@.law_next_advances();
        }
        let (range, value) = match state.lexer.next() {
            Some(token) => (token.range, token.value),
            None => {
                proof {
                    reveal_strlit("");
                    assert(""@ =~= Seq::<char>::empty());
                    lemma_took_nothing(start);
                }
                (state.lexer.span(), smol_new(""))
            },
        };
        let ghost moved = state;
        state.add_error(Error::new(desc, range));
        proof {
            lemma_took_next(start, smol_text(value), moved);
            assert(state.errors@.subrange(0, start.errors@.len() as int) =~= start.errors@);
            lemma_took_fits(start, smol_text(value), moved);
            reveal_strlit("error");
        }
        let token = state.cache().token("error", smol_as_str(&value));
        let node = wrap(state.cache(), &names, 0, token);
        proof {
            assert(names@.subrange(0, names@.len() as int) =~= names@);
            lemma_wrapped_text(token@, names@);
            assert(token@.text() =~= smol_text(value));
        }
        (Some(node), state)
    }
}

impl<Tok: TokenKind, Fun> Parser<Tok> for Fun where
    Fun: Fn(Builder<'_, Tok>) -> (Option<Green>, State<Tok>),
 {
    /// A function of a builder is sound where it can be called on every
    /// well-formed builder without a name and loses nothing when it is.
    open spec fn sound(&self) -> bool {
        &&& forall|builder: Builder<'_, Tok>|
            builder.wf() && builder.names@.len() == 0 ==> #[trigger] call_requires(
                *self,
                (builder,),
            )
        &&& forall|builder: Builder<'_, Tok>, res: (Option<Green>, State<Tok>)|
            builder.wf() && builder.names@.len() == 0 && #[trigger] call_ensures(
                *self,
                (builder,),
                res,
            ) ==> advances(builder.state, res.0, res.1)
    }

    open spec fn yields(
        &self,
        state: State<Tok>,
        context: &Context<'_, Tok>,
        res: (Option<Green>, State<Tok>),
    ) -> bool {
        exists|builder: Builder<'_, Tok>|
            {
                &&& builder.state == state
                &&& builder.ctx == context
                &&& builder.names@.len() == 0
                &&& call_ensures(*self, (builder,), res)
            }
    }

    fn parse(&self, state: State<Tok>, ctx: &Context<'_, Tok>) -> (res: (
        Option<Green>,
        State<Tok>,
    )) {
        self(state.builder(ctx))
    }
}

/// What it takes for a function of a builder to be a sound parser: that it
/// can be called on every well-formed builder without a name, and that what
/// it gives back spans exactly the text that it moved the lexer over.
pub proof fn law_function_sound<Tok: TokenKind, F>(parser: F) where
    F: Fn(Builder<'_, Tok>) -> (Option<Green>, State<Tok>),

    requires
        forall|builder: Builder<'_, Tok>|
            builder.wf() && builder.names@.len() == 0 ==> #[trigger] call_requires(
                parser,
                (builder,),
            ),
        forall|builder: Builder<'_, Tok>, res: (Option<Green>, State<Tok>)|
            builder.wf() && builder.names@.len() == 0 && #[trigger] call_ensures(
                parser,
                (builder,),
                res,
            ) ==> advances(builder.state, res.0, res.1),
    ensures
        parser.sound(),
        parser.lossless(),
{
}

/// What a function of a builder yields as a parser is what it gives back
/// for the builder without a name over the state and the context.
pub proof fn law_function_yields<Tok: TokenKind, F>(
    parser: F,
    state: State<Tok>,
    context: &Context<'_, Tok>,
    res: (Option<Green>, State<Tok>),
) where F: Fn(Builder<'_, Tok>) -> (Option<Green>, State<Tok>)
    requires
        parser.yields(state, context, res),
    ensures
        exists|builder: Builder<'_, Tok>|
            {
                &&& builder.state == state
                &&& builder.ctx == context
                &&& builder.names@.len() == 0
                &&& #[trigger] call_ensures(parser, (builder,), res)
            },
{
}

/// A builder of a node: it gathers what parsers make, in order, as the
/// children of the node.
#[verifier::reject_recursive_types(Tok)]
pub struct NodeBuilder<'ctx, Tok: TokenKind> {
    pub state: State<Tok>,
    pub ctx: &'ctx Context<'ctx, Tok>,
    pub names: NameSet,
    pub children: Vec<Green>,
    /// The state in which the node was begun.
    pub origin: Ghost<State<Tok>>,
}

impl<'ctx, Tok: TokenKind> NodeBuilder<'ctx, Tok> {
    /// The text of the children gathered so far.
    pub open spec fn text(&self) -> Seq<char> {
        Tree::text_of(Green::views(self.children@))
    }

    /// Whether the state is well formed, the trivia parsers lose nothing,
    /// and the children span exactly the text between where the node was
    /// begun and where the lexer stands.
    pub open spec fn wf(&self) -> bool {
        &&& self.state.wf()
        &&& self.ctx.wf()
        &&& took(self.origin@, self.text(), self.state)
    }

    pub(crate) fn new(builder: Builder<'ctx, Tok>) -> (node: Self)
        requires
            builder.wf(),
        ensures
            node.wf(),
            node.origin@ == builder.state,
            node.state == builder.state,
            node.ctx == builder.ctx,
            node.names == builder.names,
            node.children@ == Seq::<Green>::empty(),
    {
        let Builder { state, names, ctx } = builder;
        proof {
            lemma_took_nothing(state);
            assert(Green::views(Seq::<Green>::empty()) =~= Seq::<Tree>::empty());
        }
        Self { origin: Ghost(state), state, names, ctx, children: Vec::new() }
    }

    /// Adds `name` to the names of the node.
    pub fn name(self, name: Name) -> (builder: Self)
        ensures
            builder.state == self.state,
            builder.ctx == self.ctx,
            builder.children == self.children,
            builder.origin == self.origin,
            builder.names@ == placed(self.names@, name@),
    {
        let mut builder = self;
        builder.names.insert(name);
        builder
    }

    /// The kind of the next token, which stays where it is.
    pub fn peek_token(&mut self) -> (kind: Option<Tok>)
        requires
            old(self).state.wf(),
        ensures
            final(self).state.wf(),
            final(self).state.lexer@ == old(self).state.lexer@,
            final(self).state.lexer.span == old(self).state.lexer.span,
            final(self).state.cache == old(self).state.cache,
            final(self).state.errors == old(self).state.errors,
            final(self).ctx == old(self).ctx,
            final(self).names == old(self).names,
            final(self).children == old(self).children,
            final(self).origin == old(self).origin,
            kind == match old(self).state.lexer@.next() {
                Some((lexeme, _)) => Some(lexeme.kind),
                None => None,
            },
    {
        match self.state.lexer.peek() {
            Some(token) => Some(token.token),
            None => None,
        }
    }

    /// Uses `ctx` from now on.
    pub fn set_ctx(self, ctx: &'ctx Context<'ctx, Tok>) -> (builder: Self)
        ensures
            builder.state == self.state,
            builder.ctx == ctx,
            builder.names == self.names,
            builder.children == self.children,
            builder.origin == self.origin,
    {
        let NodeBuilder { state, names, children, origin, .. } = self;
        NodeBuilder { state, ctx, names, children, origin }
    }

    /// Takes what a parser made as the next child; nothing where it made
    /// nothing.
    fn gather(
        children: Vec<Green>,
        made: Option<Green>,
    ) -> (all: Vec<Green>)
        ensures
            all@ == match made {
                Some(green) => children@.push(green),
                None => children@,
            },
            Tree::text_of(Green::views(all@)) == Tree::text_of(Green::views(children@)) + (
            match made {
                Some(green) => green@.text(),
                None => Seq::<char>::empty(),
            }),
    {
        let mut children = children;
        let ghost before = children@;
        if let Some(green) = made {
            proof {
                assert(Green::views(before.push(green)) =~= Green::views(before).push(green@));
                Tree::lemma_text_of_push(Green::views(before), green@);
            }
            children.push(green);
        } else {
            proof {
                assert(Tree::text_of(Green::views(before)) + Seq::<char>::empty()
                    =~= Tree::text_of(Green::views(before)));
            }
        }
        children
    }

    /// Runs `parser` where the node builder stands and takes what it makes
    /// as the next child.
    pub fn parse<P: Parser<Tok>>(self, parser: P) -> (builder: Self)
        requires
            self.wf(),
            parser.sound(),
        ensures
            builder.wf(),
            builder.origin == self.origin,
            builder.ctx == self.ctx,
            builder.names == self.names,
            exists|res: (Option<Green>, State<Tok>)|
                {
                    &&& #[trigger] parser.yields(self.state, self.ctx, res)
                    &&& advances(self.state, res.0, res.1)
                    &&& builder.state == res.1
                    &&& builder.children@ == match res.0 {
                        Some(green) => self.children@.push(green),
                        None => self.children@,
                    }
                },
    {
        let NodeBuilder { state, ctx, names, children, origin } = self;
        let ghost before = state;
        let ghost text = Tree::text_of(Green::views(children@));
        let (made, state) = parser.parse(state, ctx);
        proof {
            let more = if made is Some {
                made->0@.text()
            } else {
                Seq::<char>::empty()
            };
            lemma_took_twice(origin@, text, before, more, state);
        }
        let children = Self::gather(children, made);
        NodeBuilder { state, ctx, names, children, origin }
    }

    /// Runs a parser of another kind of token where the node builder
    /// stands, without trivia, and takes what it makes as the next child.
    /// The lexer is handed over to the other kind and taken back.
    pub fn parse_mode<Tok2, P>(self, parser: P) -> (builder: Self) where
        Tok2: TokenKind,
        P: Parser<Tok2>,
        Tok::Extras: Into<Tok2::Extras>,
        Tok2::Extras: Into<Tok::Extras>,

        requires
            self.wf(),
            parser.sound(),
        ensures
            builder.wf(),
            builder.origin == self.origin,
            builder.ctx == self.ctx,
            builder.names == self.names,
            exists|entry: State<Tok2>, ctx: Context<'_, Tok2>, res: (Option<Green>, State<Tok2>)|
                {
                    &&& entry.lexer@.input == self.state.lexer@.input
                    &&& entry.lexer.peeked is None
                    &&& entry.lexer.span == self.state.lexer.span
                    &&& <Tok::Extras as IntoSpec<Tok2::Extras>>::obeys_into_spec()
                        ==> entry.lexer.extras == self.state.lexer.extras.into_spec()
                    &&& entry.cache == self.state.cache
                    &&& entry.errors == self.state.errors
                    &&& ctx.leading_trivia is None
                    &&& ctx.trailing_trivia is None
                    &&& #[trigger] parser.yields(entry, &ctx, res)
                    &&& advances(entry, res.0, res.1)
                    &&& builder.state.lexer@.input == res.1.lexer@.input
                    &&& builder.state.lexer.peeked is None
                    &&& builder.state.lexer.span == res.1.lexer.span
                    &&& <Tok2::Extras as IntoSpec<Tok::Extras>>::obeys_into_spec()
                        ==> builder.state.lexer.extras == res.1.lexer.extras.into_spec()
                    &&& builder.state.cache == res.1.cache
                    &&& builder.state.errors == res.1.errors
                    &&& builder.children@ == match res.0 {
                        Some(green) => self.children@.push(green),
                        None => self.children@,
                    }
                },
    {
        let NodeBuilder { state, ctx, names, children, origin } = self;
        let ghost text = Tree::text_of(Green::views(children@));
        let state: State<Tok2> = state.morph();
        let ghost entry = state;
        let inner_ctx = Context::default();
        let (made, state) = parser.parse(state, &inner_ctx);
        let ghost inner = state;
        let state: State<Tok> = state.morph();
        proof {
            let more = if made is Some {
                made->0@.text()
            } else {
                Seq::<char>::empty()
            };
            assert(took(origin@, text, entry));
            lemma_took_twice(origin@, text, entry, more, inner);
            assert(took(origin@, text + more, state));
        }
        let children = Self::gather(children, made);
        NodeBuilder { state, ctx, names, children, origin }
    }

    /// The node over the children gathered, under the first name of the
    /// builder, inside one alias for each further name.
    pub fn finish(self) -> (res: (Option<Green>, State<Tok>))
        requires
            self.wf(),
        ensures
            advances(self.origin@, res.0, res.1),
            res.0 matches Some(green) && green@ == node_tree(
                self.names@,
                Green::views(self.children@),
            ),
            res.1.lexer == self.state.lexer,
            res.1.errors == self.state.errors,
            res.1.cache@ == node_cache(
                self.state.cache@,
                self.names@,
                Green::views(self.children@),
            ),
    {
        let NodeBuilder { state, names, children, origin, .. } = self;
        let mut state = state;
        let ghost kids = Green::views(children@);
        let count = names.len();
        let name = if count > 0 {
            names.get(0)
        } else {
            proof {
                reveal_strlit("");
                assert(""@ =~= Seq::<char>::empty());
            }
            ""
        };
        let from: usize = if count > 0 {
            1
        } else {
            0
        };
        proof {
            lemma_took_fits(origin@, Tree::text_of(kids), state);
            assert(names@.subrange(from as int, names@.len() as int) =~= alias_names(names@));
            lemma_wrapped_text(Tree::Node { name: own_name(names@), children: kids }, alias_names(names@));
        }
        let build = move |held: &mut Cache| -> (made: Vec<Green>)
            ensures
                made == children,
                final(held)@ == old(held)@,
            { children };
        let node = state.cache().node(name, build);
        let node = wrap(state.cache(), &names, from, node);
        (Some(node), state)
    }
}

} // verus!
