//! Typed wrappers over the red tree and the builders that make them.
use crate::cache::{interned, Cache};
use crate::green::{Green, Name, TokenText, Tree};
use crate::red::{Red, RedView};
use crate::smol::{smol_as_str, smol_new, smol_text};
use smol_str::SmolStr;
use std::marker::PhantomData;
use vstd::prelude::*;

verus! {

/// A typed wrapper over a red value of one shape. An implementation states
/// in `admits` which red values it takes and in `shown` which one it is over.
pub trait Ast: Sized {
    /// Whether a red value has the shape that the wrapper stands for.
    spec fn admits(node: RedView) -> bool;

    /// The red value that the wrapper is over.
    spec fn shown(&self) -> RedView;

    /// The wrapper over `node`, or `None` where `node` has another shape.
    fn new(node: Red) -> (ast: Option<Self>)
        ensures
            ast is Some == Self::admits(node@),
            ast matches Some(wrapper) ==> wrapper.shown() == node@,
    ;

    /// The red value that the wrapper is over.
    fn red(&self) -> (red: Red)
        ensures
            red@ == self.shown(),
    ;
}

/// A builder of a green value and of the typed wrapper over it. An
/// implementation states in `tree` what it makes and in `built` what making
/// it does to the cache.
pub trait AstBuilder {
    type T: Ast;

    /// The tree that the builder makes.
    spec fn tree(&self) -> Tree;

    /// Whether building takes a cache from `before` to `after`.
    spec fn built(&self, before: Cache, after: Cache) -> bool;

    /// The wrapper over the root of the tree that the builder makes. The
    /// tree has to have the shape of the wrapper.
    fn build(self, builder: &mut Cache) -> (ast: Self::T) where Self: Sized
        requires
            self.tree().size() <= usize::MAX,
            Self::T::admits(RedView::root(self.tree())),
        ensures
            ast.shown() == RedView::root(self.tree()),
            self.built(*old(builder), *final(builder)),
    ;

    /// The green value of the tree that the builder makes.
    fn build_green(self, builder: &mut Cache) -> (green: Green) where Self: Sized
        requires
            self.tree().size() <= usize::MAX,
        ensures
            green@ == self.tree(),
            self.built(*old(builder), *final(builder)),
    ;

    /// The same as `build_green`, for a builder in a box.
    fn build_boxed_green(self: Box<Self>, builder: &mut Cache) -> (green: Green)
        requires
            self.tree().size() <= usize::MAX,
        ensures
            green@ == self.tree(),
            self.built(*old(builder), *final(builder)),
    ;
}

/// A builder of a token and of the wrapper `A` over it.
pub struct TokenBuilder<A> {
    pre: Option<SmolStr>,
    name: Name,
    token: SmolStr,
    post: Option<SmolStr>,
    _phantom: PhantomData<A>,
}

impl<A> TokenBuilder<A> {
    /// The text that the token holds.
    pub closed spec fn text(&self) -> TokenText {
        TokenText {
            prefix: match self.pre {
                Some(pre) => smol_text(pre),
                None => Seq::empty(),
            },
            value: smol_text(self.token),
            postfix: match self.post {
                Some(post) => smol_text(post),
                None => Seq::empty(),
            },
        }
    }

    /// The name that the token bears.
    pub closed spec fn label(&self) -> Seq<char> {
        self.name@
    }

    /// The token tree that the builder makes.
    pub open spec fn token_tree(&self) -> Tree {
        Tree::Token { name: self.label(), text: self.text() }
    }

    /// The builder of a token named `name` with text `token` and no trivia.
    pub fn custom(name: Name, token: &str) -> (builder: Self)
        ensures
            builder.label() == name@,
            builder.text() == (TokenText {
                prefix: Seq::empty(),
                value: token@,
                postfix: Seq::empty(),
            }),
    {
        Self { name, token: smol_new(token), pre: None, post: None, _phantom: PhantomData }
    }

    /// The builder of a token named `token` with text `token` and no trivia.
    pub fn new(token: &str) -> (builder: Self)
        ensures
            builder.label() == "token"@,
            builder.text() == (TokenText {
                prefix: Seq::empty(),
                value: token@,
                postfix: Seq::empty(),
            }),
    {
        Self::custom("token", token)
    }

    /// The same token after the leading trivia `pre`.
    pub fn with_pre(self, pre: &str) -> (builder: Self)
        ensures
            builder.label() == self.label(),
            builder.text() == (TokenText { prefix: pre@, ..self.text() }),
    {
        let Self { name, token, post, _phantom, .. } = self;
        Self { pre: Some(smol_new(pre)), name, token, post, _phantom }
    }

    /// The same token before the trailing trivia `post`.
    pub fn with_post(self, post: &str) -> (builder: Self)
        ensures
            builder.label() == self.label(),
            builder.text() == (TokenText { postfix: post@, ..self.text() }),
    {
        let Self { name, token, pre, _phantom, .. } = self;
        Self { pre, name, token, post: Some(smol_new(post)), _phantom }
    }

    /// The green token that the builder makes.
    pub fn build_token(self, builder: &mut Cache) -> (green: Green)
        requires
            self.token_tree().size() <= usize::MAX,
        ensures
            green@ == self.token_tree(),
            final(builder)@ == interned(old(builder)@, green@),
    {
        proof {
            Tree::lemma_token_size(self.text());
            reveal_strlit("");
            assert(""@ =~= Seq::<char>::empty());
        }
        let pre = match &self.pre {
            Some(pre) => smol_as_str(pre),
            None => "",
        };
        let post = match &self.post {
            Some(post) => smol_as_str(post),
            None => "",
        };
        builder.with_trivia(self.name, pre, smol_as_str(&self.token), post)
    }
}

impl<T> AstBuilder for TokenBuilder<T> where T: Ast {
    type T = T;

    open spec fn tree(&self) -> Tree {
        self.token_tree()
    }

    /// The token is built through the cache, and nothing else.
    open spec fn built(&self, before: Cache, after: Cache) -> bool {
        after@ == interned(before@, self.token_tree())
    }

    fn build_green(self, builder: &mut Cache) -> (green: Green) {
        self.build_token(builder)
    }

    fn build(self, builder: &mut Cache) -> (ast: T) {
        match T::new(Red::root(self.build_token(builder))) {
            Some(ast) => ast,
            None => vstd::pervasive::unreached(),
        }
    }

    fn build_boxed_green(self: Box<Self>, builder: &mut Cache) -> (green: Green) {
        (*self).build_token(builder)
    }
}

/// A builder that puts what another builder makes inside an alias, and
/// makes the wrapper `As` over it: the part that the tree plays where an
/// `As` is asked for.
pub struct AliasBuilder<B, As> where B: AstBuilder, As: Ast {
    alias: Name,
    builder: B,
    _phantom: PhantomData<As>,
}

impl<B, As> AliasBuilder<B, As> where B: AstBuilder, As: Ast {
    /// The name of the alias.
    pub closed spec fn label(&self) -> Seq<char> {
        self.alias@
    }

    /// The builder of what is inside the alias.
    pub closed spec fn inner(&self) -> B {
        self.builder
    }

    /// The alias tree that the builder makes.
    pub open spec fn alias_tree(&self) -> Tree {
        Tree::Alias { name: self.label(), inner: Some(Box::new(self.inner().tree())) }
    }

    /// The builder of the alias named `alias` around what `builder` makes.
    pub fn new(alias: Name, builder: B) -> (aliased: Self)
        ensures
            aliased.label() == alias@,
            aliased.inner() == builder,
    {
        Self { alias, builder, _phantom: PhantomData }
    }

    /// The green alias that the builder makes.
    fn build_alias(self, builder: &mut Cache) -> (green: Green)
        requires
            self.alias_tree().size() <= usize::MAX,
        ensures
            green@ == self.alias_tree(),
            exists|between: Cache| #[trigger]
                self.inner().built(*old(builder), between) && final(builder)@ == interned(
                    between@,
                    self.alias_tree(),
                ),
    {
        let Self { alias, builder: inner, .. } = self;
        let green = inner.build_green(builder);
        let ghost between = *builder;
        let build = move |held: &mut Cache| -> (made: Option<Green>)
            ensures
                made == Some(green),
                final(held)@ == old(held)@,
            { Some(green) };
        let aliased = builder.alias(alias, build);
        proof {
            assert(inner.built(*old(builder), between));
        }
        aliased
    }
}

impl<B, As> AstBuilder for AliasBuilder<B, As> where B: AstBuilder, As: Ast {
    type T = As;

    open spec fn tree(&self) -> Tree {
        self.alias_tree()
    }

    /// What is inside is built through the cache first, then the alias.
    open spec fn built(&self, before: Cache, after: Cache) -> bool {
        exists|between: Cache| #[trigger]
            self.inner().built(before, between) && after@ == interned(
                between@,
                self.alias_tree(),
            )
    }

    fn build(self, builder: &mut Cache) -> (ast: As) {
        let green = self.build_alias(builder);
        match As::new(Red::root(green)) {
            Some(ast) => ast,
            None => vstd::pervasive::unreached(),
        }
    }

    fn build_boxed_green(self: Box<Self>, builder: &mut Cache) -> (green: Green) {
        (*self).build_alias(builder)
    }

    fn build_green(self, builder: &mut Cache) -> (green: Green) {
        self.build_alias(builder)
    }
}

/// A builder whose tree can play the part of an `As`.
pub trait IntoBuilder<As: Ast>: AstBuilder + Sized {
    /// The builder of the alias under which the tree is an `As`.
    fn into_builder(self) -> (aliased: AliasBuilder<Self, As>)
        ensures
            aliased.inner() == self,
    ;

    /// The same in a box, to stand among builders of other types.
    fn into_dyn(self) -> (aliased: Box<AliasBuilder<Self, As>>)
        ensures
            aliased.inner() == self,
    {
        Box::new(self.into_builder())
    }
}

/// Building is repeatable: where a builder can be built, the wrapper can be
/// made anew over the root of the green value that the builder makes.
pub proof fn law_build_repeats<B: AstBuilder>(
    builder: B,
    green: Green,
    root: Red,
    again: Option<B::T>,
)
    requires
        B::T::admits(RedView::root(builder.tree())),
        green@ == builder.tree(),
        root@ == RedView::root(green@),
        again is Some == B::T::admits(root@),
    ensures
        again is Some,
{
}

} // verus!
