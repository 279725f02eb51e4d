//! The cache that green values are built through: it hands out one shared
//! value for each distinct tree it has been asked for.
use crate::green::{Green, Name, TokenText, Tree};
use crate::smol::smol_new;
use crate::text::utf8_len;
use std::collections::HashMap;
use vstd::prelude::*;
use vstd::string::*;
use vstd::utf8::*;

verus! {

/// Whether `i` is among `places`.
spec fn names_place(places: Seq<usize>, i: int) -> bool {
    exists|p: int| 0 <= p < places.len() && places[p] == i
}

/// The values that a cache has built and where to find them: for each
/// digest the places of the values with that digest.
struct Store {
    entries: Vec<Green>,
    index: HashMap<u64, Vec<usize>>,
}

impl Store {
    /// Whether the value at the place `i` is listed under its digest.
    spec fn lists(&self, i: int) -> bool {
        &&& self.index@.contains_key(self.entries@[i]@.digest())
        &&& names_place(self.index@[self.entries@[i]@.digest()]@, i)
    }

    /// Whether what is listed at `j` under the digest `k` is a place.
    spec fn places(&self, k: u64, j: int) -> bool {
        self.index@[k]@[j] < self.entries@.len()
    }

    /// Whether no tree is held twice, each value is listed under its digest,
    /// and what is listed is a place.
    spec fn wf(&self) -> bool {
        &&& forall|i: int, j: int|
            0 <= i < j < self.entries@.len() ==> self.entries@[i]@ != self.entries@[j]@
        &&& forall|i: int| 0 <= i < self.entries@.len() ==> #[trigger] self.lists(i)
        &&& forall|k: u64, j: int|
            self.index@.contains_key(k) && 0 <= j < self.index@[k]@.len() ==> #[trigger] self.places(
                k,
                j,
            )
    }

    fn new() -> (store: Store)
        ensures
            store.wf(),
            store.entries@.len() == 0,
    {
        Store { entries: Vec::new(), index: HashMap::new() }
    }

    /// The place of the value that stands for the tree of `green`, if one is
    /// held.
    fn find(&self, h: u64, green: &Green) -> (place: Option<usize>)
        requires
            self.wf(),
            h == green@.digest(),
        ensures
            match place {
                Some(i) => i < self.entries@.len() && self.entries@[i as int]@ == green@,
                None => forall|i: int| 0 <= i < self.entries@.len() ==> self.entries@[i]@ != green@,
            },
    {
        match self.index.get(&h) {
            None => {
                proof {
                    assert forall|i: int| 0 <= i < self.entries@.len() implies self.entries@[i]@
                        != green@ by {
                        assert(self.lists(i));
                    }
                }
                None
            },
            Some(places) => {
                proof {
                    assert forall|p: int| 0 <= p < places@.len() implies places@[p]
                        < self.entries@.len() by {
                        assert(self.places(h, p));
                    }
                    assert forall|i: int|
                        0 <= i < self.entries@.len() && self.entries@[i]@
                            == green@ implies #[trigger] names_place(places@, i) by {
                        assert(self.lists(i));
                    }
                }
                let mut at: usize = 0;
                while at < places.len()
                    invariant
                        at <= places.len(),
                        forall|p: int| 0 <= p < places@.len() ==> places@[p] < self.entries@.len(),
                        forall|i: int|
                            0 <= i < self.entries@.len() && self.entries@[i]@ == green@
                                ==> #[trigger] names_place(places@, i),
                        forall|p: int| 0 <= p < at ==> self.entries@[places@[p] as int]@ != green@,
                    decreases places.len() - at,
                {
                    let i = places[at];
                    if self.entries[i].same(green) {
                        return Some(i);
                    }
                    at += 1;
                }
                proof {
                    assert forall|i: int| 0 <= i < self.entries@.len() implies self.entries@[i]@
                        != green@ by {
                        if self.entries@[i]@ == green@ {
                            assert(names_place(places@, i));
                            let p = choose|p: int| 0 <= p < places@.len() && places@[p] == i;
                            assert(self.entries@[places@[p] as int]@ == green@);
                        }
                    }
                }
                None
            },
        }
    }

    /// Holds `green`, whose tree is not held yet.
    fn keep(&mut self, h: u64, green: Green)
        requires
            old(self).wf(),
            h == green@.digest(),
            forall|i: int| 0 <= i < old(self).entries@.len() ==> old(self).entries@[i]@ != green@,
        ensures
            final(self).wf(),
            final(self).entries@ == old(self).entries@.push(green),
    {
        let at = self.entries.len();
        let mut places = match self.index.remove(&h) {
            Some(places) => places,
            None => Vec::new(),
        };
        let ghost before = places@;
        places.push(at);
        self.entries.push(green);
        self.index.insert(h, places);
        proof {
            assert forall|i: int| 0 <= i < self.entries@.len() implies #[trigger] self.lists(
                i,
            ) by {
                if i < at {
                    assert(old(self).lists(i));
                    let k = old(self).entries@[i]@.digest();
                    assert(names_place(old(self).index@[k]@, i));
                    if k == h {
                        let p = choose|p: int| 0 <= p < before.len() && before[p] == i;
                        assert(places@[p] == i);
                    }
                } else {
                    assert(places@[before.len() as int] == at);
                }
            }
            assert forall|k: u64, j: int|
                self.index@.contains_key(k) && 0 <= j < self.index@[k]@.len() implies #[trigger] self.places(
                k,
                j,
            ) by {
                if k == h {
                    if j < before.len() {
                        assert(old(self).places(h, j));
                    }
                } else {
                    assert(old(self).places(k, j));
                }
            }
        }
    }
}

/// A builder of green values that interns what it builds.
pub struct Cache {
    store: Store,
}

/// The name under which the cache is used when it only builds.
pub type GreenBuilder = Cache;

/// `entries` with `tree` added at the end unless it is already among them.
pub open spec fn interned(entries: Seq<Tree>, tree: Tree) -> Seq<Tree> {
    if entries.contains(tree) {
        entries
    } else {
        entries.push(tree)
    }
}

impl Default for Cache {
    fn default() -> (cache: Cache)
        ensures
            cache@ == Seq::<Tree>::empty(),
    {
        Cache::new()
    }
}

impl Cache {
    #[verifier::type_invariant]
    spec fn sound(&self) -> bool {
        self.store.wf()
    }

    /// The distinct trees built so far, in the order in which they were first built.
    pub closed spec fn view(&self) -> Seq<Tree> {
        Green::views(self.store.entries@)
    }

    /// A cache that has built nothing.
    pub fn new() -> (cache: Cache)
        ensures
            cache@ == Seq::<Tree>::empty(),
    {
        let cache = Cache { store: Store::new() };
        proof {
            assert(cache@ =~= Seq::<Tree>::empty());
        }
        cache
    }

    /// The number of distinct trees built so far.
    pub fn size(&self) -> (n: usize)
        ensures
            n == self@.len(),
            self@.no_duplicates(),
    {
        proof {
            use_type_invariant(self);
        }
        self.store.entries.len()
    }

    /// The shared value for the tree of `green`: the one built first, or
    /// `green` itself, which is then kept.
    fn intern(&mut self, green: Green) -> (shared: Green)
        ensures
            shared@ == green@,
            final(self)@ == interned(old(self)@, green@),
    {
        proof {
            use_type_invariant(&*self);
        }
        let h = green.digest();
        match self.store.find(h, &green) {
            Some(i) => {
                proof {
                    assert(self@[i as int] == green@);
                }
                self.store.entries[i].clone()
            },
            None => {
                proof {
                    assert(!self@.contains(green@)) by {
                        if self@.contains(green@) {
                            let k = choose|k: int| 0 <= k < self@.len() && self@[k] == green@;
                            assert(self.store.entries@[k]@ == green@);
                        }
                    }
                }
                let kept = green.clone();
                let mut store = Store::new();
                core::mem::swap(&mut self.store, &mut store);
                store.keep(h, kept);
                core::mem::swap(&mut self.store, &mut store);
                proof {
                    assert(self@ =~= old(self)@.push(green@));
                }
                green
            },
        }
    }

    /// A token named `name` with text `value` and no trivia.
    pub fn token(&mut self, name: Name, value: &str) -> (green: Green)
        ensures
            green@ == (Tree::Token {
                name: name@,
                text: TokenText { prefix: Seq::empty(), value: value@, postfix: Seq::empty() },
            }),
            final(self)@ == interned(old(self)@, green@),
    {
        let bytes = value.as_bytes().len();
        proof {
            reveal_strlit("");
            assert(""@ =~= Seq::<char>::empty());
            assert(utf8_len(value@) == bytes);
            assert(utf8_len(Seq::<char>::empty()) == 0);
        }
        self.with_trivia(name, "", value, "")
    }

    /// A token named `name` with text `value` between the trivia `pre` and `post`.
    pub fn with_trivia(&mut self, name: Name, pre: &str, value: &str, post: &str) -> (green: Green)
        requires
            utf8_len(pre@) + utf8_len(value@) + utf8_len(post@) <= usize::MAX,
        ensures
            green@ == (Tree::Token {
                name: name@,
                text: TokenText { prefix: pre@, value: value@, postfix: post@ },
            }),
            final(self)@ == interned(old(self)@, green@),
    {
        let green = Green::token(name, smol_new(pre), smol_new(value), smol_new(post));
        self.intern(green)
    }

    /// A node named `name` over the children that `build` makes with this cache.
    pub fn node<F: FnOnce(&mut Cache) -> Vec<Green>>(&mut self, name: Name, build: F) -> (green:
        Green)
        requires
            forall|cache: &mut Cache| call_requires(build, (cache,)),
            forall|cache: &mut Cache, children: Vec<Green>|
                call_ensures(build, (cache,), children) ==> Tree::size_of(Green::views(children@))
                    <= usize::MAX,
        ensures
            exists|cache: &mut Cache, children: Vec<Green>|
                {
                    &&& *cache == *old(self)
                    &&& #[trigger] call_ensures(build, (cache,), children)
                    &&& green@ == (Tree::Node { name: name@, children: Green::views(children@) })
                    &&& final(self)@ == interned(final(cache)@, green@)
                },
    {
        let children = build(self);
        let green = Green::node(name, children);
        self.intern(green)
    }

    /// An alias named `name` around what `build` makes with this cache, or
    /// around nothing where it makes nothing.
    pub fn alias<F: FnOnce(&mut Cache) -> Option<Green>>(&mut self, name: Name, build: F) -> (green:
        Green)
        requires
            forall|cache: &mut Cache| call_requires(build, (cache,)),
        ensures
            exists|cache: &mut Cache, inner: Option<Green>|
                {
                    &&& *cache == *old(self)
                    &&& #[trigger] call_ensures(build, (cache,), inner)
                    &&& green@ == (Tree::Alias {
                        name: name@,
                        inner: match inner {
                            Some(g) => Some(Box::new(g@)),
                            None => None,
                        },
                    })
                    &&& final(self)@ == interned(final(cache)@, green@)
                },
    {
        let inner = build(self);
        let green = Green::alias(name, inner);
        self.intern(green)
    }
}

} // verus!
