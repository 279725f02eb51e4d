//! The rendering of a green tree for people to read: one line for each
//! token, nodes with the byte range they span, children indented under their
//! node, aliases on the line of what they wrap.
use crate::green::{Green, GreenKind, Token, TokenText, Tree};
use crate::smol::smol_as_str;
use crate::text::{
    char_len, lemma_boundary_after_prefix, lemma_encode_concat, str_slice, utf8_len,
};
use vstd::prelude::*;
use vstd::std_specs::iter::IteratorSpec;
use vstd::string::*;
use vstd::utf8::*;

verus! {

/// The character of the decimal digit `d`.
pub open spec fn digit(d: nat) -> Seq<char> {
    if d == 0 {
        "0"@
    } else if d == 1 {
        "1"@
    } else if d == 2 {
        "2"@
    } else if d == 3 {
        "3"@
    } else if d == 4 {
        "4"@
    } else if d == 5 {
        "5"@
    } else if d == 6 {
        "6"@
    } else if d == 7 {
        "7"@
    } else if d == 8 {
        "8"@
    } else {
        "9"@
    }
}

/// The number `n` in decimal digits.
pub open spec fn decimal(n: nat) -> Seq<char>
    decreases n,
{
    if n < 10 {
        digit(n)
    } else {
        decimal(n / 10) + digit(n % 10)
    }
}

/// `n` blanks.
pub open spec fn blanks(n: nat) -> Seq<char>
    decreases n,
{
    if n == 0 {
        Seq::empty()
    } else {
        blanks((n - 1) as nat) + " "@
    }
}

/// The character `c` as it is shown inside quotes: a tab and a line feed by
/// a backslash and a letter, any other as it is.
pub open spec fn escaped_char(c: char) -> Seq<char> {
    if c == '\t' {
        "\\t"@
    } else if c == '\n' {
        "\\n"@
    } else {
        seq![c]
    }
}

/// `text` with each character as it is shown inside quotes.
pub open spec fn escaped(text: Seq<char>) -> Seq<char>
    decreases text.len(),
{
    if text.len() == 0 {
        Seq::empty()
    } else {
        escaped(text.drop_last()) + escaped_char(text.last())
    }
}

/// The line of a token after its name and range: the text in quotes, then
/// the leading and the trailing trivia where there are any.
pub open spec fn rendered_token(text: TokenText) -> Seq<char> {
    " `"@ + text.value + "`"@ + (if text.prefix.len() > 0 {
        " ; pre: `"@ + escaped(text.prefix) + "`"@
    } else {
        Seq::empty()
    }) + (if text.postfix.len() > 0 {
        " ; post: `"@ + escaped(text.postfix) + "`"@
    } else {
        Seq::empty()
    }) + "\n"@
}

impl Tree {
    /// The number of nodes on the longest way down from the tree.
    pub open spec fn depth(self) -> nat
        decreases self,
    {
        match self {
            Tree::Node { children, .. } => 1 + Tree::depth_of(children),
            Tree::Alias { inner: Some(inner), .. } => inner.depth(),
            _ => 0,
        }
    }

    /// The greatest depth among `trees`.
    pub open spec fn depth_of(trees: Seq<Tree>) -> nat
        decreases trees,
    {
        if trees.len() == 0 {
            0
        } else {
            let rest = Tree::depth_of(trees.drop_last());
            let last = trees.last().depth();
            if rest < last {
                last
            } else {
                rest
            }
        }
    }

    /// The start of the line of the tree: the indentation, unless the tree
    /// continues the line of the alias around it, then the name, then a
    /// comma for an alias and the byte range for anything else.
    pub open spec fn rendered_head(self, offset: nat, width: nat, inline: bool) -> Seq<char> {
        let indent = if width > 0 && !inline {
            blanks(width)
        } else {
            Seq::empty()
        };
        if self is Alias {
            indent + self.name() + ", "@
        } else {
            indent + self.name() + " @ "@ + decimal(offset) + ".."@ + decimal(offset + self.size())
        }
    }

    /// The rendering of the tree where it starts at the byte `offset` and
    /// stands `width` columns in; `inline` where it continues the line of
    /// the alias around it.
    pub open spec fn rendered(self, offset: nat, width: nat, inline: bool) -> Seq<char>
        decreases self,
    {
        self.rendered_head(offset, width, inline) + (match self {
            Tree::Node { children, .. } => "\n"@ + Tree::rendered_all(children, offset, width + 4),
            Tree::Alias { inner: Some(inner), .. } => inner.rendered(offset, width, true),
            Tree::Alias { inner: None, .. } => " missing"@,
            Tree::Token { text, .. } => rendered_token(text),
        })
    }

    /// The renderings of `trees` one after the other, the first at the byte
    /// `offset` and each next one where the one before it ends.
    pub open spec fn rendered_all(trees: Seq<Tree>, offset: nat, width: nat) -> Seq<char>
        decreases trees,
    {
        if trees.len() == 0 {
            Seq::empty()
        } else {
            Tree::rendered_all(trees.drop_last(), offset, width) + trees.last().rendered(
                offset + Tree::size_of(trees.drop_last()),
                width,
                false,
            )
        }
    }

    /// The rendering between its first and its last line.
    pub open spec fn framed(self, width: nat) -> Seq<char> {
        "\n--- GREEN TREE ---\n"@ + self.rendered(0, width, false) + "--- END ---\n"@
    }

    /// No tree among `trees` is deeper than the deepest of them.
    pub proof fn lemma_depth_of(trees: Seq<Tree>, index: int)
        requires
            0 <= index < trees.len(),
        ensures
            trees[index].depth() <= Tree::depth_of(trees),
        decreases trees.len(),
    {
        if index < trees.len() - 1 {
            Tree::lemma_depth_of(trees.drop_last(), index);
        }
    }
}

/// Appends `n` blanks to `out`.
fn push_blanks(out: &mut String, n: usize)
    ensures
        final(out)@ == old(out)@ + blanks(n as nat),
{
    let mut i: usize = 0;
    proof {
        assert(out@ + blanks(0) =~= out@);
    }
    while i < n
        invariant
            i <= n,
            out@ == old(out)@ + blanks(i as nat),
        decreases n - i,
    {
        out.append(" ");
        i += 1;
        proof {
            assert(out@ =~= old(out)@ + blanks(i as nat));
        }
    }
}

/// Appends `n` in decimal digits to `out`.
fn push_decimal(out: &mut String, n: usize)
    ensures
        final(out)@ == old(out)@ + decimal(n as nat),
    decreases n,
{
    if n >= 10 {
        push_decimal(out, n / 10);
    }
    let d = n % 10;
    let text = if d == 0 {
        "0"
    } else if d == 1 {
        "1"
    } else if d == 2 {
        "2"
    } else if d == 3 {
        "3"
    } else if d == 4 {
        "4"
    } else if d == 5 {
        "5"
    } else if d == 6 {
        "6"
    } else if d == 7 {
        "7"
    } else if d == 8 {
        "8"
    } else {
        "9"
    };
    out.append(text);
    proof {
        assert(out@ =~= old(out)@ + decimal(n as nat));
    }
}

/// `text` with each tab and line feed shown by a backslash and a letter.
pub fn fmt_debug_str(text: &str) -> (shown: String)
    ensures
        shown@ == escaped(text@),
{
    let mut shown = String::new();
    let total = text.as_bytes().len();
    let mut chars = text.chars();
    let mut at: usize = 0;
    let ghost mut done: int = 0;
    proof {
        assert(text@.subrange(0, 0) =~= Seq::<char>::empty());
        assert(text@.subrange(0, text@.len() as int) =~= text@);
    }
    loop
        invariant
            0 <= done <= text@.len(),
            total == utf8_len(text@),
            chars.remaining() == text@.subrange(done, text@.len() as int),
            at == utf8_len(text@.subrange(0, done)),
            shown@ == escaped(text@.subrange(0, done)),
        ensures
            shown@ == escaped(text@),
        decreases text@.len() - done,
    {
        match chars.next() {
            None => {
                proof {
                    assert(text@.subrange(0, done) =~= text@);
                }
                break ;
            },
            Some(c) => {
                let n = char_len(c);
                proof {
                    let upto = text@.subrange(0, done);
                    let more = text@.subrange(0, done + 1);
                    let after = text@.subrange(done + 1, text@.len() as int);
                    assert(more =~= upto + seq![c]);
                    assert(more.drop_last() =~= upto);
                    assert(more.last() == c);
                    assert(text@ =~= more + after);
                    assert(text@ =~= upto + (seq![c] + after));
                    lemma_encode_concat(upto, seq![c]);
                    lemma_encode_concat(more, after);
                    lemma_boundary_after_prefix(upto, seq![c] + after);
                    lemma_boundary_after_prefix(more, after);
                    assert(chars.remaining() =~= after);
                    assert(encode_utf8(text@).subrange(at as int, at + n) =~= encode_utf8(
                        seq![c],
                    ));
                    encode_utf8_decode_utf8(seq![c]);
                }
                if c == '\t' {
                    shown.append("\\t");
                } else if c == '\n' {
                    shown.append("\\n");
                } else {
                    let one = str_slice(text, at, at + n);
                    shown.append(one);
                }
                at = at + n;
                proof {
                    done = done + 1;
                }
            },
        }
    }
    shown
}

/// Appends the line of a token after its name and range to `out`.
fn write_token(out: &mut String, token: &Token)
    ensures
        final(out)@ == old(out)@ + rendered_token(token@),
{
    out.append(" `");
    out.append(smol_as_str(&token.value));
    out.append("`");
    let ghost quoted = out@;
    if !smol_as_str(&token.prefix).is_empty() {
        out.append(" ; pre: `");
        out.append(fmt_debug_str(smol_as_str(&token.prefix)).as_str());
        out.append("`");
    }
    let ghost with_pre = out@;
    if !smol_as_str(&token.postfix).is_empty() {
        out.append(" ; post: `");
        out.append(fmt_debug_str(smol_as_str(&token.postfix)).as_str());
        out.append("`");
    }
    out.append("\n");
    proof {
        let text = token@;
        let pre = if text.prefix.len() > 0 {
            " ; pre: `"@ + escaped(text.prefix) + "`"@
        } else {
            Seq::empty()
        };
        let post = if text.postfix.len() > 0 {
            " ; post: `"@ + escaped(text.postfix) + "`"@
        } else {
            Seq::empty()
        };
        assert(quoted =~= old(out)@ + (" `"@ + text.value + "`"@));
        assert(with_pre =~= quoted + pre);
        assert(out@ =~= with_pre + post + "\n"@);
        assert(out@ =~= old(out)@ + rendered_token(text));
    }
}

impl Green {
    /// Appends the start of the line of the value to `out`.
    fn write_head(&self, out: &mut String, offset: usize, width: usize, inline: bool)
        requires
            offset + self@.size() <= usize::MAX,
        ensures
            final(out)@ == old(out)@ + self@.rendered_head(offset as nat, width as nat, inline),
    {
        if width > 0 && !inline {
            push_blanks(out, width);
        }
        out.append(self.name());
        if self.is_alias() {
            out.append(", ");
            proof {
                assert(out@ =~= old(out)@ + self@.rendered_head(
                    offset as nat,
                    width as nat,
                    inline,
                ));
            }
        } else {
            out.append(" @ ");
            push_decimal(out, offset);
            out.append("..");
            push_decimal(out, offset + self.size());
            proof {
                assert(out@ =~= old(out)@ + self@.rendered_head(
                    offset as nat,
                    width as nat,
                    inline,
                ));
            }
        }
    }

    /// Appends the renderings of `children` to `out`, the first at the byte
    /// `offset`.
    #[verifier::loop_isolation(false)]
    fn write_children(&self, children: &Vec<Green>, out: &mut String, offset: usize, width: usize)
        requires
            self@ == (Tree::Node { name: self@.name(), children: Green::views(children@) }),
            offset + self@.size() <= usize::MAX,
            width + 4 * Tree::depth_of(Green::views(children@)) <= usize::MAX,
        ensures
            final(out)@ == old(out)@ + Tree::rendered_all(
                Green::views(children@),
                offset as nat,
                width as nat,
            ),
        decreases self@, 0nat,
    {
        let ghost kids = Green::views(children@);
        let mut at = offset;
        let mut i: usize = 0;
        proof {
            assert(kids.subrange(0, 0) =~= Seq::<Tree>::empty());
            assert(out@ + Seq::<char>::empty() =~= out@);
        }
        while i < children.len()
            invariant
                i <= children.len(),
                at == offset + Tree::size_of(kids.subrange(0, i as int)),
                out@ == old(out)@ + Tree::rendered_all(
                    kids.subrange(0, i as int),
                    offset as nat,
                    width as nat,
                ),
            decreases children.len() - i,
        {
            let child = &children[i];
            proof {
                let before = kids.subrange(0, i as int);
                let upto = kids.subrange(0, i + 1);
                assert(upto.drop_last() =~= before);
                assert(upto.last() == child@);
                assert(before.push(child@) =~= upto);
                Tree::lemma_text_of_push(before, child@);
                Tree::lemma_size_of_prefix(kids, i + 1);
                Tree::lemma_depth_of(kids, i as int);
            }
            child.fmt_green(out, at, width, false);
            proof {
                assert(out@ =~= old(out)@ + Tree::rendered_all(
                    kids.subrange(0, i + 1),
                    offset as nat,
                    width as nat,
                ));
            }
            at = at + child.size();
            i += 1;
        }
        proof {
            assert(kids.subrange(0, i as int) =~= kids);
        }
    }

    /// Appends the rendering of the value to `out`.
    fn fmt_green(&self, out: &mut String, offset: usize, width: usize, inline: bool)
        requires
            offset + self@.size() <= usize::MAX,
            width + 4 * self@.depth() <= usize::MAX,
        ensures
            final(out)@ == old(out)@ + self@.rendered(offset as nat, width as nat, inline),
        decreases self@, 1nat,
    {
        self.write_head(out, offset, width, inline);
        let ghost head = out@;
        match self.kind() {
            GreenKind::Node(node) => {
                out.append("\n");
                self.write_children(&node.children, out, offset, width + 4);
                proof {
                    let all = Tree::rendered_all(
                        Green::views(node.children@),
                        offset as nat,
                        (width + 4) as nat,
                    );
                    assert(out@ =~= head + ("\n"@ + all));
                }
            },
            GreenKind::Alias(Some(child)) => {
                child.fmt_green(out, offset, width, true);
            },
            GreenKind::Alias(None) => {
                out.append(" missing");
            },
            GreenKind::Token(token) => {
                write_token(out, token);
            },
        }
        proof {
            assert(out@ =~= old(out)@ + self@.rendered(offset as nat, width as nat, inline));
        }
    }

    /// The greatest depth among `children`, or `None` where it is more
    /// than can be counted.
    #[verifier::loop_isolation(false)]
    fn depth_of(&self, children: &Vec<Green>) -> (depth: Option<usize>)
        requires
            self@ == (Tree::Node { name: self@.name(), children: Green::views(children@) }),
        ensures
            match depth {
                Some(n) => n == Tree::depth_of(Green::views(children@)),
                None => Tree::depth_of(Green::views(children@)) > usize::MAX,
            },
        decreases self@, 0nat,
    {
        let ghost kids = Green::views(children@);
        let mut deepest: usize = 0;
        let mut i: usize = 0;
        proof {
            assert(kids.subrange(0, 0) =~= Seq::<Tree>::empty());
        }
        while i < children.len()
            invariant
                i <= children.len(),
                deepest == Tree::depth_of(kids.subrange(0, i as int)),
            decreases children.len() - i,
        {
            proof {
                let upto = kids.subrange(0, i + 1);
                assert(upto.drop_last() =~= kids.subrange(0, i as int));
                assert(upto.last() == children@[i as int]@);
                Tree::lemma_depth_of(kids, i as int);
                assert(self@.depth() > kids[i as int].depth());
            }
            match children[i].depth() {
                Some(n) => {
                    if n > deepest {
                        deepest = n;
                    }
                },
                None => {
                    return None;
                },
            }
            i += 1;
        }
        proof {
            assert(kids.subrange(0, i as int) =~= kids);
        }
        Some(deepest)
    }

    /// The number of nodes on the longest way down from the value, or
    /// `None` where it is more than can be counted.
    pub fn depth(&self) -> (depth: Option<usize>)
        ensures
            match depth {
                Some(n) => n == self@.depth(),
                None => self@.depth() > usize::MAX,
            },
        decreases self@, 1nat,
    {
        match self.kind() {
            GreenKind::Node(node) => {
                match self.depth_of(&node.children) {
                    Some(deepest) => if deepest == usize::MAX {
                        None
                    } else {
                        Some(deepest + 1)
                    },
                    None => None,
                }
            },
            GreenKind::Alias(Some(inner)) => {
                proof {
                    assert(self@.depth() == inner@.depth());
                }
                inner.depth()
            },
            _ => Some(0),
        }
    }

    /// The rendering of the tree as `debug_string` gives it, or `None`
    /// where the tree is so deep that the indentation cannot be counted.
    pub fn try_debug_string(&self, width: usize) -> (text: Option<String>)
        ensures
            match text {
                Some(text) => text@ == self@.framed(width as nat),
                None => width + 4 * self@.depth() > usize::MAX,
            },
    {
        let depth = match self.depth() {
            Some(depth) => depth,
            None => {
                return None;
            },
        };
        if depth > (usize::MAX - width) / 4 {
            return None;
        }
        Some(self.debug_string(width))
    }

    /// The rendering of the tree for people to read, children indented by
    /// four columns under their node, the whole `width` columns in.
    pub fn debug_string(&self, width: usize) -> (text: String)
        requires
            width + 4 * self@.depth() <= usize::MAX,
        ensures
            text@ == self@.framed(width as nat),
    {
        let mut text = "\n--- GREEN TREE ---\n".to_owned();
        let _size = self.size();
        self.fmt_green(&mut text, 0, width, false);
        text.append("--- END ---\n");
        text
    }
}

} // verus!
