//! The green tree: immutable, shareable, named nodes, tokens and aliases, each
//! with the cached byte size of the text it spans.
use crate::digest::{digest_text, mix, mixed, text_digest};
use crate::shared::share;
use crate::smol::{smol_as_str, smol_text};
use crate::text::{lemma_encode_concat, str_eq, utf8_len};
use smol_str::SmolStr;
use std::sync::Arc;
use vstd::prelude::*;
use vstd::std_specs::cmp::PartialEqSpecImpl;
use vstd::string::*;

verus! {

/// The structural tag of a green value.
pub type Name = &'static str;

/// The text of a token: the token proper between its leading and trailing trivia.
#[derive(Debug, PartialEq)]
pub struct Token {
    pub prefix: SmolStr,
    pub value: SmolStr,
    pub postfix: SmolStr,
}

/// The children of a node, in source order.
#[derive(Debug, PartialEq)]
pub struct Node {
    pub children: Vec<Green>,
}

/// What a green value is: a node over children, an alias around another
/// value or around nothing, or a token.
#[derive(Debug, PartialEq)]
pub enum GreenKind {
    Node(Node),
    Alias(Option<Green>),
    Token(Token),
}

/// What a green value holds: its name, the number of bytes of text it
/// spans, the digest under which it is looked up, and what it is.
#[derive(Debug, PartialEq)]
pub struct GreenData {
    pub name: Name,
    pub size: usize,
    pub digest: u64,
    pub kind: GreenKind,
}

/// A shared, immutable green value.
#[derive(Debug)]
pub struct Green(pub(crate) Arc<GreenData>);

/// What a token holds, as characters.
pub struct TokenText {
    pub prefix: Seq<char>,
    pub value: Seq<char>,
    pub postfix: Seq<char>,
}

/// The mathematical tree that a green value stands for.
pub enum Tree {
    Token { name: Seq<char>, text: TokenText },
    Node { name: Seq<char>, children: Seq<Tree> },
    Alias { name: Seq<char>, inner: Option<Box<Tree>> },
}

impl TokenText {
    /// Prefix, value and postfix in this order.
    pub open spec fn whole(self) -> Seq<char> {
        self.prefix + self.value + self.postfix
    }
}

impl Tree {
    /// The name that the tree bears itself.
    pub open spec fn name(self) -> Seq<char> {
        match self {
            Tree::Token { name, .. } => name,
            Tree::Node { name, .. } => name,
            Tree::Alias { name, .. } => name,
        }
    }

    /// Whether `name` is the tree's own name or the name of anything it aliases.
    pub open spec fn answers_to(self, name: Seq<char>) -> bool
        decreases self,
    {
        match self {
            Tree::Alias { name: own, inner: Some(inner) } => own == name || inner.answers_to(name),
            _ => self.name() == name,
        }
    }

    /// The tree with the aliases around it taken off.
    pub open spec fn unaliased(self) -> Option<Tree>
        decreases self,
    {
        match self {
            Tree::Alias { inner: Some(inner), .. } => inner.unaliased(),
            Tree::Alias { inner: None, .. } => None,
            _ => Some(self),
        }
    }

    /// The token that the tree is, looking through aliases.
    pub open spec fn as_token(self) -> Option<TokenText> {
        match self.unaliased() {
            Some(Tree::Token { text, .. }) => Some(text),
            _ => None,
        }
    }

    /// The children of the node that the tree is, looking through aliases.
    pub open spec fn as_node(self) -> Option<Seq<Tree>> {
        match self.unaliased() {
            Some(Tree::Node { children, .. }) => Some(children),
            _ => None,
        }
    }

    /// The children seen when walking the tree: those of the node behind the
    /// aliases, and none for a token or a missing alias.
    pub open spec fn children(self) -> Seq<Tree> {
        match self.as_node() {
            Some(children) => children,
            None => Seq::empty(),
        }
    }

    /// The source text that the tree spans: the text of its tokens in order.
    pub open spec fn text(self) -> Seq<char>
        decreases self,
    {
        match self {
            Tree::Token { text, .. } => text.whole(),
            Tree::Node { children, .. } => Tree::text_of(children),
            Tree::Alias { inner: Some(inner), .. } => inner.text(),
            Tree::Alias { inner: None, .. } => Seq::empty(),
        }
    }

    /// The texts of `trees` one after the other.
    pub open spec fn text_of(trees: Seq<Tree>) -> Seq<char>
        decreases trees,
    {
        if trees.len() == 0 {
            Seq::empty()
        } else {
            Tree::text_of(trees.drop_last()) + trees.last().text()
        }
    }

    /// The number of bytes that the text of the tree takes in UTF-8.
    pub open spec fn size(self) -> nat {
        utf8_len(self.text())
    }

    /// The bytes taken by the texts of `trees` together.
    pub open spec fn size_of(trees: Seq<Tree>) -> nat {
        utf8_len(Tree::text_of(trees))
    }

    /// Appending a tree appends its text and adds its size.
    pub proof fn lemma_text_of_push(trees: Seq<Tree>, last: Tree)
        ensures
            Tree::text_of(trees.push(last)) == Tree::text_of(trees) + last.text(),
            Tree::size_of(trees.push(last)) == Tree::size_of(trees) + last.size(),
    {
        assert(trees.push(last).drop_last() =~= trees);
        lemma_encode_concat(Tree::text_of(trees), last.text());
    }

    /// The digest under which the tree is looked up. Equal trees have equal
    /// digests.
    pub open spec fn digest(self) -> u64
        decreases self,
    {
        match self {
            Tree::Token { name, text } => mixed(
                mixed(
                    mixed(mixed(1, text_digest(name)), text_digest(text.prefix)),
                    text_digest(text.value),
                ),
                text_digest(text.postfix),
            ),
            Tree::Node { name, children } => Tree::digest_of(children, mixed(2, text_digest(name))),
            Tree::Alias { name, inner: Some(inner) } => mixed(
                mixed(3, text_digest(name)),
                inner.digest(),
            ),
            Tree::Alias { name, inner: None } => mixed(4, text_digest(name)),
        }
    }

    /// The digest `seed` carried on over the digests of `trees` in order.
    pub open spec fn digest_of(trees: Seq<Tree>, seed: u64) -> u64
        decreases trees,
    {
        if trees.len() == 0 {
            seed
        } else {
            mixed(Tree::digest_of(trees.drop_last(), seed), trees.last().digest())
        }
    }

    /// The name of the tree followed by the names of what it aliases, outermost first.
    pub open spec fn names(self) -> Seq<Seq<char>>
        decreases self,
    {
        match self {
            Tree::Alias { name, inner: Some(inner) } => seq![name] + inner.names(),
            _ => seq![self.name()],
        }
    }

    /// A tree answers to exactly the names on its alias chain.
    pub proof fn law_answers_to_names(self, name: Seq<char>)
        ensures
            self.answers_to(name) <==> self.names().contains(name),
        decreases self,
    {
        match self {
            Tree::Alias { name: own, inner: Some(inner) } => {
                inner.law_answers_to_names(name);
                let rest = inner.names();
                let all = seq![own] + rest;
                if own == name {
                    assert(all[0] == name);
                } else if rest.contains(name) {
                    let i = choose|i: int| 0 <= i < rest.len() && rest[i] == name;
                    assert(all[i + 1] == name);
                } else if all.contains(name) {
                    let i = choose|i: int| 0 <= i < all.len() && all[i] == name;
                    assert(rest[i - 1] == name);
                }
            },
            _ => {
                assert(seq![self.name()][0] == self.name());
            },
        }
    }

    /// An alias around a tree is transparent: it is the token or node that
    /// the tree is, has its children, text and size, and answers to its own
    /// name besides those that the tree answers to.
    pub proof fn law_alias_transparent(name: Seq<char>, inner: Tree, asked: Seq<char>)
        ensures
            ({
                let alias = Tree::Alias { name, inner: Some(Box::new(inner)) };
                &&& alias.as_token() == inner.as_token()
                &&& alias.as_node() == inner.as_node()
                &&& alias.children() == inner.children()
                &&& alias.text() == inner.text()
                &&& alias.size() == inner.size()
                &&& alias.answers_to(asked) == (asked == name || inner.answers_to(asked))
            }),
    {
    }

    /// The size of a tree by its shape: the sum over the three parts of a
    /// token, the sum over the children of a node, the size of what an alias
    /// wraps, and nothing for a missing alias.
    pub proof fn law_size_by_shape(self)
        ensures
            match self {
                Tree::Token { text, .. } => self.size() == utf8_len(text.prefix) + utf8_len(
                    text.value,
                ) + utf8_len(text.postfix),
                Tree::Node { children, .. } => self.size() == Tree::size_of(children),
                Tree::Alias { inner: Some(inner), .. } => self.size() == inner.size(),
                Tree::Alias { inner: None, .. } => self.size() == 0,
            },
            forall|trees: Seq<Tree>, last: Tree| #[trigger]
                Tree::size_of(trees.push(last)) == Tree::size_of(trees) + last.size(),
            Tree::size_of(Seq::empty()) == 0,
    {
        if let Tree::Token { text, .. } = self {
            Tree::lemma_token_size(text);
        }
        assert forall|trees: Seq<Tree>, last: Tree| #[trigger]
            Tree::size_of(trees.push(last)) == Tree::size_of(trees) + last.size() by {
            Tree::lemma_text_of_push(trees, last);
        }
    }

    /// The children seen through the aliases of a tree take no more bytes
    /// than the tree: as many where it is a node behind its aliases, and none
    /// otherwise.
    pub proof fn lemma_children_size(self)
        ensures
            Tree::size_of(self.children()) <= self.size(),
            self.as_node() is Some ==> Tree::size_of(self.children()) == self.size(),
        decreases self,
    {
        match self {
            Tree::Alias { inner: Some(inner), .. } => {
                inner.lemma_children_size();
            },
            _ => {},
        }
    }

    /// A prefix of a sequence of trees takes no more bytes than the whole.
    pub proof fn lemma_size_of_prefix(trees: Seq<Tree>, upto: int)
        requires
            0 <= upto <= trees.len(),
        ensures
            Tree::size_of(trees.subrange(0, upto)) <= Tree::size_of(trees),
        decreases trees.len(),
    {
        if upto == trees.len() {
            assert(trees.subrange(0, upto) =~= trees);
        } else {
            Tree::lemma_size_of_prefix(trees.drop_last(), upto);
            assert(trees.drop_last().subrange(0, upto) =~= trees.subrange(0, upto));
            assert(trees.drop_last().push(trees.last()) =~= trees);
            Tree::lemma_text_of_push(trees.drop_last(), trees.last());
        }
    }

    /// The size of a token is the sum of the byte lengths of its three parts.
    pub proof fn lemma_token_size(text: TokenText)
        ensures
            utf8_len(text.whole()) == utf8_len(text.prefix) + utf8_len(text.value) + utf8_len(
                text.postfix,
            ),
    {
        lemma_encode_concat(text.prefix, text.value);
        lemma_encode_concat(text.prefix + text.value, text.postfix);
    }
}

impl Token {
    /// The three parts as characters.
    pub open spec fn view(&self) -> TokenText {
        TokenText {
            prefix: smol_text(self.prefix),
            value: smol_text(self.value),
            postfix: smol_text(self.postfix),
        }
    }
}

impl Node {
    /// The trees of the children, in order.
    pub open spec fn view(&self) -> Seq<Tree> {
        Green::views(self.children@)
    }
}

impl GreenKind {
    /// The tree of a green value of this kind that bears `name`.
    pub open spec fn tree(&self, name: Seq<char>) -> Tree
        decreases self,
    {
        match self {
            GreenKind::Token(token) => Tree::Token { name, text: token@ },
            GreenKind::Node(node) => Tree::Node { name, children: Green::views(node.children@) },
            GreenKind::Alias(Some(inner)) => Tree::Alias { name, inner: Some(Box::new(inner@)) },
            GreenKind::Alias(None) => Tree::Alias { name, inner: None },
        }
    }
}

impl PartialEq for Green {
    fn eq(&self, other: &Green) -> (same: bool) {
        self.same(other)
    }
}

impl PartialEqSpecImpl for Green {
    open spec fn obeys_eq_spec() -> bool {
        true
    }

    open spec fn eq_spec(&self, other: &Green) -> bool {
        self@ == other@
    }
}

impl Clone for Green {
    fn clone(&self) -> (copy: Green)
        ensures
            copy == *self,
    {
        proof {
            use_type_invariant(self);
        }
        Green(share(&self.0))
    }
}

impl Green {
    /// What the value holds.
    pub closed spec fn data(&self) -> GreenData {
        *self.0
    }

    /// The size and the digest that a value holds are those of its tree.
    #[verifier::type_invariant]
    spec fn cached(&self) -> bool {
        &&& self.0.size == self.view().size()
        &&& self.0.digest == self.view().digest()
    }

    /// A token named `name` with the given leading trivia, text and trailing trivia.
    pub(crate) fn token(name: Name, prefix: SmolStr, value: SmolStr, postfix: SmolStr) -> (g: Green)
        requires
            utf8_len(smol_text(prefix)) + utf8_len(smol_text(value)) + utf8_len(smol_text(postfix))
                <= usize::MAX,
        ensures
            g@ == (Tree::Token {
                name: name@,
                text: TokenText {
                    prefix: smol_text(prefix),
                    value: smol_text(value),
                    postfix: smol_text(postfix),
                },
            }),
    {
        let token = Token { prefix, value, postfix };
        proof {
            Tree::lemma_token_size(token@);
        }
        let size = smol_as_str(&token.prefix).len() + smol_as_str(&token.value).len() + smol_as_str(
            &token.postfix,
        ).len();
        let digest = mix(mix(1, digest_text(name)), digest_text(smol_as_str(&token.prefix)));
        let digest = mix(digest, digest_text(smol_as_str(&token.value)));
        let digest = mix(digest, digest_text(smol_as_str(&token.postfix)));
        Green(Arc::new(GreenData { name, size, digest, kind: GreenKind::Token(token) }))
    }

    /// A node named `name` over `children`.
    pub(crate) fn node(name: Name, children: Vec<Green>) -> (g: Green)
        requires
            Tree::size_of(Green::views(children@)) <= usize::MAX,
        ensures
            g@ == (Tree::Node { name: name@, children: Green::views(children@) }),
    {
        let seed = mix(2, digest_text(name));
        let mut digest = seed;
        let mut size: usize = 0;
        let mut i: usize = 0;
        proof {
            assert(Green::views(children@.subrange(0, 0)) =~= Seq::<Tree>::empty());
        }
        while i < children.len()
            invariant
                i <= children.len(),
                Tree::size_of(Green::views(children@)) <= usize::MAX,
                size == Tree::size_of(Green::views(children@.subrange(0, i as int))),
                digest == Tree::digest_of(Green::views(children@.subrange(0, i as int)), seed),
            decreases children.len() - i,
        {
            proof {
                let all = Green::views(children@);
                let before = Green::views(children@.subrange(0, i as int));
                let after = Green::views(children@.subrange(0, i + 1));
                assert(after =~= before.push(children@[i as int]@));
                assert(after.drop_last() =~= before);
                Tree::lemma_text_of_push(before, children@[i as int]@);
                assert(after =~= all.subrange(0, i + 1));
                Tree::lemma_size_of_prefix(all, i + 1);
            }
            size = size + children[i].size();
            digest = mix(digest, children[i].digest());
            i += 1;
        }
        proof {
            assert(children@.subrange(0, i as int) =~= children@);
        }
        Green(Arc::new(GreenData { name, size, digest, kind: GreenKind::Node(Node { children }) }))
    }

    /// An alias named `name` around `inner`, or around nothing.
    pub(crate) fn alias(name: Name, inner: Option<Green>) -> (g: Green)
        ensures
            g@ == (Tree::Alias {
                name: name@,
                inner: match inner {
                    Some(green) => Some(Box::new(green@)),
                    None => None,
                },
            }),
    {
        let size = match &inner {
            Some(green) => green.size(),
            None => 0,
        };
        let digest = match &inner {
            Some(green) => mix(mix(3, digest_text(name)), green.digest()),
            None => mix(4, digest_text(name)),
        };
        Green(Arc::new(GreenData { name, size, digest, kind: GreenKind::Alias(inner) }))
    }

    /// The digest under which the value is looked up.
    pub fn digest(&self) -> (digest: u64)
        ensures
            digest == self@.digest(),
    {
        proof {
            use_type_invariant(self);
        }
        self.0.digest
    }

    /// The name that the value bears itself.
    pub fn name(&self) -> (name: Name)
        ensures
            name@ == self@.name(),
    {
        self.0.name
    }

    /// Whether the value bears `name` itself or through what it aliases.
    pub fn is(&self, name: Name) -> (b: bool)
        ensures
            b == self@.answers_to(name@),
        decreases self,
    {
        if let GreenKind::Alias(Some(green)) = &self.0.kind {
            if green.is(name) {
                return true;
            }
        }
        str_eq(self.0.name, name)
    }

    /// The number of bytes of source text that the value spans: the length
    /// in bytes of what `to_string` gives.
    pub fn size(&self) -> (n: usize)
        ensures
            n == self@.size(),
            n == utf8_len(self@.text()),
    {
        proof {
            use_type_invariant(self);
        }
        self.0.size
    }

    /// What the value is, under its name.
    pub fn kind(&self) -> (kind: &GreenKind)
        ensures
            kind.tree(self@.name()) == self@,
    {
        &self.0.kind
    }

    /// Whether the value is an alias, around something or around nothing.
    pub fn is_alias(&self) -> (b: bool)
        ensures
            b == (self@ is Alias),
    {
        match &self.0.kind {
            GreenKind::Alias(_) => true,
            _ => false,
        }
    }

    /// The node that the value is, looking through aliases.
    pub fn as_node(&self) -> (node: Option<&Node>)
        ensures
            match node {
                Some(n) => self@.as_node() == Some(n@),
                None => self@.as_node() is None,
            },
        decreases self,
    {
        match &self.0.kind {
            GreenKind::Node(node) => Some(node),
            GreenKind::Alias(Some(g)) => g.as_node(),
            _ => None,
        }
    }

    /// The token that the value is, looking through aliases.
    pub fn as_token(&self) -> (token: Option<&Token>)
        ensures
            match token {
                Some(t) => self@.as_token() == Some(t@),
                None => self@.as_token() is None,
            },
        decreases self,
    {
        match &self.0.kind {
            GreenKind::Token(token) => Some(token),
            GreenKind::Alias(Some(g)) => g.as_token(),
            _ => None,
        }
    }

    /// The children seen when walking the tree, in order.
    pub fn children(&self) -> (kids: Vec<Green>)
        ensures
            Green::views(kids@) == self@.children(),
    {
        let mut kids: Vec<Green> = Vec::new();
        if let Some(node) = self.as_node() {
            let mut i: usize = 0;
            while i < node.children.len()
                invariant
                    i <= node.children.len(),
                    kids@ == node.children@.subrange(0, i as int),
                decreases node.children.len() - i,
            {
                kids.push(node.children[i].clone());
                proof {
                    assert(kids@ =~= node.children@.subrange(0, i + 1));
                }
                i += 1;
            }
            proof {
                assert(kids@ =~= node.children@);
            }
        } else {
            proof {
                assert(Green::views(kids@) =~= Seq::<Tree>::empty());
            }
        }
        kids
    }

    /// Whether two values stand for the same tree: same names, same shape,
    /// same text in every token.
    #[verifier::loop_isolation(false)]
    pub fn same(&self, other: &Green) -> (b: bool)
        ensures
            b == (self@ == other@),
        decreases self,
    {
        proof {
            use_type_invariant(self);
            use_type_invariant(other);
        }
        if self.0.digest != other.0.digest {
            return false;
        }
        if !str_eq(self.0.name, other.0.name) {
            return false;
        }
        match (&self.0.kind, &other.0.kind) {
            (GreenKind::Token(a), GreenKind::Token(b)) => {
                str_eq(smol_as_str(&a.prefix), smol_as_str(&b.prefix)) && str_eq(
                    smol_as_str(&a.value),
                    smol_as_str(&b.value),
                ) && str_eq(smol_as_str(&a.postfix), smol_as_str(&b.postfix))
            },
            (GreenKind::Node(a), GreenKind::Node(b)) => {
                if a.children.len() != b.children.len() {
                    proof {
                        assert(a@.len() != b@.len());
                    }
                    return false;
                }
                let mut i: usize = 0;
                while i < a.children.len()
                    invariant
                        i <= a.children.len(),
                        a.children.len() == b.children.len(),
                        forall|j: int| 0 <= j < i ==> a.children@[j]@ == b.children@[j]@,
                    decreases a.children.len() - i,
                {
                    if !a.children[i].same(&b.children[i]) {
                        proof {
                            assert(a@[i as int] != b@[i as int]);
                        }
                        return false;
                    }
                    i += 1;
                }
                proof {
                    assert(a@ =~= b@);
                }
                true
            },
            (GreenKind::Alias(Some(a)), GreenKind::Alias(Some(b))) => a.same(b),
            (GreenKind::Alias(None), GreenKind::Alias(None)) => true,
            _ => false,
        }
    }

    /// Appends the text that the value spans to `out`.
    #[verifier::loop_isolation(false)]
    fn write_text(&self, out: &mut String)
        ensures
            final(out)@ == old(out)@ + self@.text(),
        decreases self,
    {
        match &self.0.kind {
            GreenKind::Node(node) => {
                let mut i: usize = 0;
                while i < node.children.len()
                    invariant
                        i <= node.children.len(),
                        self.0.kind == GreenKind::Node(*node),
                        out@ == old(out)@ + Tree::text_of(
                            Green::views(node.children@.subrange(0, i as int)),
                        ),
                    decreases node.children.len() - i,
                {
                    node.children[i].write_text(out);
                    proof {
                        let before = Green::views(node.children@.subrange(0, i as int));
                        let after = Green::views(node.children@.subrange(0, i + 1));
                        assert(after =~= before.push(node.children@[i as int]@));
                        Tree::lemma_text_of_push(before, node.children@[i as int]@);
                    }
                    i += 1;
                }
                proof {
                    assert(node.children@.subrange(0, i as int) =~= node.children@);
                    assert(self@.text() == Tree::text_of(node@));
                    assert(out@ == old(out)@ + self@.text());
                }
            },
            GreenKind::Alias(Some(child)) => {
                child.write_text(out);
                proof {
                    assert(self@.text() == child@.text());
                }
            },
            GreenKind::Alias(None) => {
                proof {
                    assert(out@ + Seq::<char>::empty() =~= out@);
                }
            },
            GreenKind::Token(token) => {
                out.append(smol_as_str(&token.prefix));
                out.append(smol_as_str(&token.value));
                out.append(smol_as_str(&token.postfix));
                proof {
                    assert(out@ =~= old(out)@ + token@.whole());
                }
            },
        }
    }

    /// The source text that the value spans: the lossless reconstruction of
    /// what was parsed or built.
    pub fn to_string(&self) -> (s: String)
        ensures
            s@ == self@.text(),
            utf8_len(s@) == self@.size(),
    {
        let mut s = String::new();
        self.write_text(&mut s);
        proof {
            assert(Seq::<char>::empty() + self@.text() =~= self@.text());
        }
        s
    }

    /// The tree that the value stands for.
    pub open spec fn view(&self) -> Tree
        decreases self,
    {
        self.data().kind.tree(self.data().name@)
    }

    /// The trees of `greens`, in order.
    pub open spec fn views(greens: Seq<Green>) -> Seq<Tree>
        decreases greens,
    {
        Seq::new(
            greens.len(),
            |i: int|
                if 0 <= i < greens.len() {
                    greens[i]@
                } else {
                    arbitrary()
                },
        )
    }
}

} // verus!
