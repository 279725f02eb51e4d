//! Replacing one subtree of a green tree. The tree that comes out shares
//! every subtree off the path with the tree that went in.
use crate::green::{Green, GreenKind, Tree};
use vstd::prelude::*;

verus! {

impl Tree {
    /// The subtree that `path` leads to: at each step the child of a node
    /// at the index that the path gives. An alias is passed through without
    /// using up a step. `None` where the path leaves the tree.
    pub open spec fn at(self, path: Seq<usize>) -> Option<Tree>
        decreases self,
    {
        if path.len() == 0 {
            Some(self)
        } else {
            match self {
                Tree::Node { children, .. } => if path[0] < children.len() {
                    children[path[0] as int].at(path.drop_first())
                } else {
                    None
                },
                Tree::Alias { inner: Some(inner), .. } => inner.at(path),
                _ => None,
            }
        }
    }

    /// The tree with `with` in place of the subtree that `path` leads to;
    /// the tree as it is where the path leaves it.
    pub open spec fn replaced(self, path: Seq<usize>, with: Tree) -> Tree
        decreases self,
    {
        if path.len() == 0 {
            with
        } else {
            match self {
                Tree::Node { name, children } => if path[0] < children.len() {
                    Tree::Node {
                        name,
                        children: children.update(
                            path[0] as int,
                            children[path[0] as int].replaced(path.drop_first(), with),
                        ),
                    }
                } else {
                    self
                },
                Tree::Alias { name, inner: Some(inner) } => Tree::Alias {
                    name,
                    inner: Some(Box::new(inner.replaced(path, with))),
                },
                _ => self,
            }
        }
    }

    /// After a replacement the path leads to what was put in, and putting
    /// back what was there gives the tree as it was.
    pub proof fn law_replaced(self, path: Seq<usize>, with: Tree)
        requires
            self.at(path) is Some,
        ensures
            self.replaced(path, with).at(path) == Some(with),
            self.replaced(path, self.at(path)->0) == self,
            self.replaced(path, with).replaced(path, self.at(path)->0) == self,
        decreases self,
    {
        if path.len() > 0 {
            match self {
                Tree::Node { name, children } => {
                    let i = path[0] as int;
                    let rest = path.drop_first();
                    children[i].law_replaced(rest, with);
                    let kid = children[i].replaced(rest, with);
                    assert(children.update(i, children[i]) =~= children);
                    assert(children.update(i, kid).update(i, children[i]) =~= children);
                    assert(children.update(i, kid)[i] == kid);
                },
                Tree::Alias { name, inner: Some(inner) } => {
                    inner.law_replaced(path, with);
                },
                _ => {},
            }
        }
    }

    /// A replacement touches nothing off the path: where a node is on the
    /// path, each child but the one that the path goes through stays.
    pub proof fn law_replaced_shares(self, path: Seq<usize>, with: Tree, other: int)
        requires
            path.len() > 0,
            self matches Tree::Node { children, .. } && 0 <= other < children.len() && other
                != path[0],
        ensures
            self.replaced(path, with) matches Tree::Node { name, children } && name == self.name()
                && children.len() == self->Node_children.len() && children[other]
                == self->Node_children[other],
    {
    }
}

/// The children of a node with the one at `index` replaced by `child`.
fn with_child(children: &Vec<Green>, index: usize, child: Green) -> (out: Vec<Green>)
    requires
        index < children@.len(),
    ensures
        out@ == children@.update(index as int, child),
{
    let mut out: Vec<Green> = Vec::new();
    let mut i: usize = 0;
    let ghost put = child;
    let mut child = Some(child);
    while i < children.len()
        invariant
            i <= children.len(),
            index < children@.len(),
            out@ == children@.update(index as int, put).subrange(0, i as int),
            i <= index ==> child == Some(put),
        decreases children.len() - i,
    {
        if i == index {
            let mut taken: Option<Green> = None;
            core::mem::swap(&mut child, &mut taken);
            match taken {
                Some(green) => {
                    out.push(green);
                },
                None => {},
            }
        } else {
            out.push(children[i].clone());
        }
        proof {
            assert(out@ =~= children@.update(index as int, put).subrange(0, i + 1));
        }
        i += 1;
    }
    proof {
        assert(out@ =~= children@.update(index as int, put));
    }
    out
}

/// Whether `path` leads to a subtree of `root`.
pub fn has_path(root: &Green, path: &[usize]) -> (found: bool)
    ensures
        found == (root@.at(path@) is Some),
    decreases root@,
{
    if path.len() == 0 {
        return true;
    }
    match root.kind() {
        GreenKind::Node(node) => {
            let index = path[0];
            if index < node.children.len() {
                let rest = vstd::slice::slice_subrange(path, 1, path.len());
                proof {
                    assert(rest@ =~= path@.drop_first());
                }
                has_path(&node.children[index], rest)
            } else {
                false
            }
        },
        GreenKind::Alias(Some(inner)) => has_path(inner, path),
        _ => false,
    }
}

/// Replaces the subtree of `root` that `path` leads to by `replacement`: the
/// tree that comes out is `root` with `replacement` in that place. `root`
/// stays as it is, and every subtree off the path is shared with it.
pub fn replace_green(root: &Green, path: &[usize], replacement: Green) -> (out: Green)
    requires
        root@.at(path@) is Some,
        root@.replaced(path@, replacement@).size() <= usize::MAX,
    ensures
        out@ == root@.replaced(path@, replacement@),
    decreases root@,
{
    if path.len() == 0 {
        return replacement;
    }
    match root.kind() {
        GreenKind::Node(node) => {
            let index = path[0];
            let rest = vstd::slice::slice_subrange(path, 1, path.len());
            proof {
                assert(rest@ =~= path@.drop_first());
                let kids = root@->Node_children;
                let kid = kids[index as int].replaced(rest@, replacement@);
                let after = kids.update(index as int, kid);
                assert(after.subrange(0, index as int).push(kid) =~= after.subrange(
                    0,
                    index + 1,
                ));
                Tree::lemma_text_of_push(after.subrange(0, index as int), kid);
                Tree::lemma_size_of_prefix(after, index + 1);
            }
            let child = replace_green(&node.children[index], rest, replacement);
            let children = with_child(&node.children, index, child);
            proof {
                assert(Green::views(children@) =~= root@->Node_children.update(
                    index as int,
                    child@,
                ));
            }
            Green::node(root.name(), children)
        },
        GreenKind::Alias(Some(inner)) => {
            let inside = replace_green(inner, path, replacement);
            Green::alias(root.name(), Some(inside))
        },
        _ => vstd::pervasive::unreached(),
    }
}

} // verus!
