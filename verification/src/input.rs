//! The input cursor: a source text with a window into it whose start moves
//! forward as prefixes are taken.
use crate::smol::{smol_new, smol_text};
use crate::text::{
    char_len, lemma_boundary_after_prefix, lemma_boundary_in_slice, lemma_encode_concat, str_slice,
    utf8_len, TextRange, TextSize,
};
use vstd::std_specs::iter::IteratorSpec;
use smol_str::SmolStr;
use vstd::prelude::*;
use vstd::string::*;
use vstd::utf8::*;

verus! {

/// A source text and the window of it that is still to be read.
pub struct Input {
    text: String,
    range: TextRange,
}

/// The mathematical content of an input: the whole text and the byte offsets
/// between which the window lies.
pub struct InputView {
    pub text: Seq<char>,
    pub start: nat,
    pub end: nat,
}

impl InputView {
    /// The bytes of the whole text.
    pub open spec fn bytes(self) -> Seq<u8> {
        encode_utf8(self.text)
    }

    /// Whether `[lo, hi)` lies inside the text and cuts no character in two.
    pub open spec fn spans(self, lo: nat, hi: nat) -> bool {
        &&& lo <= hi <= self.bytes().len()
        &&& is_char_boundary(self.bytes(), lo as int)
        &&& is_char_boundary(self.bytes(), hi as int)
    }

    /// Whether the window lies inside the text and cuts no character in two.
    pub open spec fn valid(self) -> bool {
        self.spans(self.start, self.end)
    }

    /// Whether a token of `len` bytes can be taken off the front of the
    /// window: the window is valid, the token is not empty, ends inside the
    /// window and cuts no character in two.
    pub open spec fn fits(self, len: nat) -> bool {
        &&& self.valid()
        &&& len >= 1
        &&& self.start + len <= self.end
        &&& self.spans(self.start, self.start + len)
    }

    /// The characters of the text between the byte offsets `lo` and `hi`.
    pub open spec fn slice(self, lo: nat, hi: nat) -> Seq<char> {
        decode_utf8(self.bytes().subrange(lo as int, hi as int))
    }

    /// The characters in the window.
    pub open spec fn rest(self) -> Seq<char> {
        self.slice(self.start, self.end)
    }

    /// The first `len` characters of the window, or all of them where it
    /// holds fewer.
    pub open spec fn front(self, len: nat) -> Seq<char> {
        if len < self.rest().len() {
            self.rest().subrange(0, len as int)
        } else {
            self.rest()
        }
    }

    /// The same text with the window starting at `start`.
    pub open spec fn from(self, start: nat) -> InputView {
        InputView { start, ..self }
    }

    /// A valid slice encodes to the bytes it was cut from.
    pub proof fn lemma_slice_bytes(self, lo: nat, hi: nat)
        requires
            self.spans(lo, hi),
        ensures
            encode_utf8(self.slice(lo, hi)) == self.bytes().subrange(lo as int, hi as int),
            utf8_len(self.slice(lo, hi)) == hi - lo,
    {
        encode_utf8_valid_utf8(self.text);
        lemma_boundary_in_slice(self.bytes(), lo as int, hi as int, lo as int);
        decode_utf8_encode_utf8(self.bytes().subrange(lo as int, hi as int));
    }

    /// Two adjoining valid slices make up the slice over both.
    pub proof fn lemma_slice_join(self, lo: nat, mid: nat, hi: nat)
        requires
            self.spans(lo, mid),
            self.spans(mid, hi),
        ensures
            self.slice(lo, hi) == self.slice(lo, mid) + self.slice(mid, hi),
    {
        let whole = self.bytes().subrange(lo as int, hi as int);
        encode_utf8_valid_utf8(self.text);
        lemma_boundary_in_slice(self.bytes(), lo as int, hi as int, mid as int);
        decode_utf8_split(whole, mid - lo);
        assert(whole.subrange(0, mid - lo) =~= self.bytes().subrange(lo as int, mid as int));
        assert(whole.subrange(mid - lo, whole.len() as int) =~= self.bytes().subrange(
            mid as int,
            hi as int,
        ));
    }

    /// Taking a prefix of the window by characters stays on a character
    /// boundary inside the window.
    pub proof fn lemma_front_spans(self, len: nat)
        requires
            self.valid(),
        ensures
            self.spans(self.start, self.start + utf8_len(self.front(len))),
            self.spans(self.start + utf8_len(self.front(len)), self.end),
            self.slice(self.start, self.start + utf8_len(self.front(len))) == self.front(len),
            len >= 1 && self.start < self.end ==> utf8_len(self.front(len)) >= 1,
    {
        let rest = self.rest();
        let front = self.front(len);
        let back = rest.subrange(front.len() as int, rest.len() as int);
        let window = self.bytes().subrange(self.start as int, self.end as int);
        assert(rest =~= front + back);
        self.lemma_slice_bytes(self.start, self.end);
        lemma_encode_concat(front, back);
        lemma_boundary_after_prefix(front, back);
        encode_utf8_valid_utf8(self.text);
        let cut = self.start + utf8_len(front);
        lemma_boundary_in_slice(self.bytes(), self.start as int, self.end as int, cut as int);
        assert(window.subrange(0, utf8_len(front) as int) =~= encode_utf8(front));
        assert(self.bytes().subrange(self.start as int, cut as int) =~= encode_utf8(front));
        encode_utf8_decode_utf8(front);
        if len >= 1 && self.start < self.end {
            if rest.len() == 0 {
                assert(encode_utf8(rest).len() == 0);
            }
            assert(front.len() >= 1);
            assert(encode_utf8(front) == encode_scalar(front[0] as u32) + encode_utf8(
                front.drop_first(),
            ));
        }
    }
}

impl Input {
    #[verifier::type_invariant]
    spec fn addressable(&self) -> bool {
        utf8_len(self.text@) <= u32::MAX
    }

    /// The text and the window.
    pub closed spec fn view(&self) -> InputView {
        InputView { text: self.text@, start: self.range.lo(), end: self.range.hi() }
    }

    /// The window of an input lies between offsets.
    pub proof fn lemma_window(&self)
        ensures
            self@.start <= u32::MAX,
            self@.end <= u32::MAX,
    {
        self.range.lemma_bounds();
    }

    /// The input over the whole of `text`.
    pub fn new(text: &str) -> (input: Input)
        requires
            utf8_len(text@) <= u32::MAX,
        ensures
            input@ == (InputView { text: text@, start: 0, end: utf8_len(text@) }),
            input@.valid(),
    {
        let end = text.len() as u32;
        let input = Input { text: text.to_owned(), range: TextRange::up_to(end) };
        proof {
            encode_utf8_valid_utf8(text@);
            is_char_boundary_start_end_of_seq(encode_utf8(text@));
        }
        input
    }

    /// Whether the window lies inside the text and cuts no character in two.
    pub fn is_valid(&self) -> (valid: bool)
        ensures
            valid == self@.valid(),
    {
        let text = self.text.as_str();
        let start = self.range.start() as usize;
        let end = self.range.end() as usize;
        let total = text.as_bytes().len();
        end <= total && text.is_char_boundary(start) && text.is_char_boundary(end)
    }

    /// Takes the first `len` characters off the window, or all of them where
    /// it holds fewer, and returns them.
    pub fn chomp(&mut self, len: usize) -> (taken: SmolStr)
        requires
            old(self)@.valid(),
            len >= 1,
        ensures
            smol_text(taken) == old(self)@.front(len as nat),
            final(self)@ == old(self)@.from(old(self)@.start + utf8_len(smol_text(taken))),
            final(self)@.valid(),
    {
        let start = self.range.start();
        proof {
            use_type_invariant(&*self);
            self@.lemma_front_spans(len as nat);
            self@.lemma_slice_bytes(self@.start, self@.end);
        }
        let ghost rest = self@.rest();
        let mut bytes: usize = 0;
        let mut count: usize = 0;
        {
            let mut chars = self.as_ref().chars();
            proof {
                assert(rest.subrange(0, 0) =~= Seq::<char>::empty());
                assert(rest.subrange(0, rest.len() as int) =~= rest);
            }
            while count < len
                invariant
                    count <= len,
                    count <= rest.len(),
                    chars.remaining() == rest.subrange(count as int, rest.len() as int),
                    bytes == utf8_len(rest.subrange(0, count as int)),
                    utf8_len(rest) <= u32::MAX,
                ensures
                    count <= rest.len(),
                    count == len || count == rest.len(),
                    bytes == utf8_len(rest.subrange(0, count as int)),
                decreases len - count,
            {
                match chars.next() {
                    Some(c) => {
                        proof {
                            let upto = rest.subrange(0, count as int);
                            let more = rest.subrange(0, count + 1);
                            let after = rest.subrange(count + 1, rest.len() as int);
                            assert(more =~= upto + seq![c]);
                            assert(rest =~= more + after);
                            lemma_encode_concat(upto, seq![c]);
                            lemma_encode_concat(more, after);
                            assert(chars.remaining() =~= after);
                        }
                        bytes = bytes + char_len(c);
                        count += 1;
                    },
                    None => {
                        break ;
                    },
                }
            }
        }
        proof {
            assert(rest.subrange(0, count as int) =~= self@.front(len as nat));
        }
        let range = TextRange::new(start, start + bytes as u32);
        let taken = self.str_for_range(range);
        self.set_cursor(range.end());
        taken
    }

    /// The offset at which the window starts.
    pub fn cursor(&self) -> (cursor: TextSize)
        ensures
            cursor == self@.start,
            self@.start <= self@.end,
    {
        self.range.start()
    }

    /// Moves the start of the window to `cursor`.
    pub fn set_cursor(&mut self, cursor: TextSize)
        requires
            cursor <= old(self)@.end,
        ensures
            final(self)@ == old(self)@.from(cursor as nat),
    {
        let end = self.range.end();
        let range = TextRange::new(cursor, end);
        self.set_range(range);
    }

    /// Replaces the window by `range`.
    pub fn set_range(&mut self, range: TextRange)
        ensures
            final(self)@ == (InputView {
                text: old(self)@.text,
                start: range.lo(),
                end: range.hi(),
            }),
    {
        proof {
            use_type_invariant(&*self);
        }
        let mut fresh = range;
        core::mem::swap(&mut self.range, &mut fresh);
    }

    /// The window as it stands.
    pub fn range(&self) -> (range: TextRange)
        ensures
            range.lo() == self@.start,
            range.hi() == self@.end,
    {
        self.range
    }

    /// The characters of the text that `range` spans.
    pub fn str_for_range(&self, range: TextRange) -> (part: SmolStr)
        requires
            self@.spans(range.lo(), range.hi()),
        ensures
            smol_text(part) == self@.slice(range.lo(), range.hi()),
    {
        let part = str_slice(self.text.as_str(), range.start() as usize, range.end() as usize);
        smol_new(part)
    }

    /// The characters in the window.
    pub fn as_ref(&self) -> (rest: &str)
        requires
            self@.valid(),
        ensures
            rest@ == self@.rest(),
    {
        str_slice(self.text.as_str(), self.range.start() as usize, self.range.end() as usize)
    }
}

} // verus!
