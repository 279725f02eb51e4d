//! The red tree: a green value seen at a position, with the way up to the root.
use crate::green::{Green, Name, Tree};
use crate::shared::share;
use crate::text::TextRange;
use std::sync::Arc;
use vstd::prelude::*;

verus! {

/// What a red value holds: the green value, where its text starts, and the
/// value one step up.
pub struct RedData {
    parent: Option<Red>,
    offset: usize,
    green: Green,
}

/// A positioned view of a green value.
pub struct Red(Arc<RedData>);

/// The mathematical content of a red value.
pub struct RedView {
    pub green: Tree,
    pub offset: nat,
    pub parent: Option<Box<RedView>>,
}

impl RedView {
    /// The view of the root over `green`.
    pub open spec fn root(green: Tree) -> RedView {
        RedView { green, offset: 0, parent: None }
    }

    /// The offset at which the text of the value starts.
    pub open spec fn start(self) -> nat {
        self.offset
    }

    /// The offset at which the text of the value ends.
    pub open spec fn end(self) -> nat {
        self.offset + self.green.size()
    }

    /// The `index`-th child: the `index`-th child of the green value, looking
    /// through aliases, placed after the siblings before it.
    pub open spec fn child(self, index: int) -> RedView {
        let kids = self.green.children();
        RedView {
            green: kids[index],
            offset: self.offset + Tree::size_of(kids.subrange(0, index)),
            parent: Some(Box::new(self)),
        }
    }

    /// The children, in source order.
    pub open spec fn children(self) -> Seq<RedView> {
        Seq::new(self.green.children().len(), |index: int| self.child(index))
    }

    /// The first child starts where its parent starts, each later child
    /// starts where the one before it ends, and none ends after its parent.
    pub proof fn law_children_offsets(self, index: int)
        requires
            0 <= index < self.children().len(),
        ensures
            self.children()[index].start() == self.start() + Tree::size_of(
                self.green.children().subrange(0, index),
            ),
            index == 0 ==> self.children()[index].start() == self.start(),
            index > 0 ==> self.children()[index].start() == self.children()[index - 1].end(),
            self.children()[index].end() <= self.end(),
            self.children()[index].parent == Some(Box::new(self)),
    {
        let kids = self.green.children();
        assert(kids.subrange(0, index).push(kids[index]) =~= kids.subrange(0, index + 1));
        Tree::lemma_text_of_push(kids.subrange(0, index), kids[index]);
        Tree::lemma_size_of_prefix(kids, index + 1);
        self.green.lemma_children_size();
        if index > 0 {
            assert(kids.subrange(0, index - 1).push(kids[index - 1]) =~= kids.subrange(0, index));
            Tree::lemma_text_of_push(kids.subrange(0, index - 1), kids[index - 1]);
        } else {
            assert(kids.subrange(0, 0) =~= Seq::<Tree>::empty());
        }
    }
}

impl Clone for Red {
    fn clone(&self) -> (copy: Red)
        ensures
            copy == *self,
    {
        proof {
            use_type_invariant(self);
        }
        Red(share(&self.0))
    }
}

impl Red {
    #[verifier::type_invariant]
    spec fn fits(&self) -> bool {
        self.0.offset + self.0.green@.size() <= usize::MAX
    }

    /// What the value shows: the tree, the offset, and the way up.
    pub closed spec fn view(&self) -> RedView
        decreases self,
    {
        RedView {
            green: self.0.green@,
            offset: self.0.offset as nat,
            parent: match self.0.parent {
                Some(parent) => Some(Box::new(parent@)),
                None => None,
            },
        }
    }

    /// The root view over `green`: at offset 0, with no parent.
    pub fn root(green: Green) -> (red: Red)
        ensures
            red@ == RedView::root(green@),
    {
        let _size = green.size();
        Red(Arc::new(RedData { parent: None, offset: 0, green }))
    }

    /// The green value that is seen.
    pub fn green(&self) -> (green: Green)
        ensures
            green@ == self@.green,
    {
        self.0.green.clone()
    }

    /// The value one step up, or `None` at the root.
    pub fn parent(&self) -> (parent: Option<Red>)
        ensures
            match parent {
                Some(p) => self@.parent == Some(Box::new(p@)),
                None => self@.parent is None,
            },
    {
        match &self.0.parent {
            Some(p) => Some(p.clone()),
            None => None,
        }
    }

    /// Whether the green value bears `name` itself or through what it aliases.
    pub fn is(&self, name: Name) -> (b: bool)
        ensures
            b == self@.green.answers_to(name@),
    {
        self.0.green.is(name)
    }

    /// The offset at which the text of the value starts.
    pub fn offset(&self) -> (offset: usize)
        ensures
            offset == self@.start(),
            self@.end() <= usize::MAX,
    {
        proof {
            use_type_invariant(self);
        }
        self.0.offset
    }

    /// The bytes of the source that the value spans.
    pub fn range(&self) -> (range: TextRange)
        requires
            self@.end() <= u32::MAX,
        ensures
            range.lo() == self@.start(),
            range.hi() == self@.end(),
    {
        proof {
            use_type_invariant(self);
        }
        let start = self.0.offset;
        let size = self.0.green.size();
        TextRange::new(start as u32, (start + size) as u32)
    }

    /// The children, each placed after the siblings before it.
    pub fn children(&self) -> (kids: Vec<Red>)
        ensures
            Red::views(kids@) == self@.children(),
    {
        proof {
            use_type_invariant(self);
        }
        let greens = self.0.green.children();
        let ghost trees = self@.green.children();
        let mut kids: Vec<Red> = Vec::new();
        let mut offset = self.0.offset;
        let mut i: usize = 0;
        while i < greens.len()
            invariant
                i <= greens.len(),
                Green::views(greens@) == trees,
                trees == self@.green.children(),
                self@.end() <= usize::MAX,
                offset == self@.offset + Tree::size_of(trees.subrange(0, i as int)),
                kids@.len() == i,
                forall|j: int| 0 <= j < i ==> (#[trigger] kids@[j])@ == self@.child(j),
            decreases greens.len() - i,
        {
            let green = greens[i].clone();
            proof {
                self@.law_children_offsets(i as int);
                assert(trees.subrange(0, i as int).push(trees[i as int]) =~= trees.subrange(
                    0,
                    i + 1,
                ));
                Tree::lemma_text_of_push(trees.subrange(0, i as int), trees[i as int]);
                assert(green@ == trees[i as int]);
            }
            let size = green.size();
            let kid = Red(Arc::new(RedData { parent: Some(self.clone()), offset, green }));
            kids.push(kid);
            offset = offset + size;
            i += 1;
        }
        proof {
            assert(Red::views(kids@) =~= self@.children());
        }
        kids
    }

    /// The views of `reds`, in order.
    pub open spec fn views(reds: Seq<Red>) -> Seq<RedView> {
        Seq::new(reds.len(), |i: int| reds[i]@)
    }
}

} // verus!
