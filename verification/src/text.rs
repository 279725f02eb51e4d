//! Byte offsets, byte ranges, and the UTF-8 facts that relate the characters
//! of a string to the bytes that offsets count.
use vstd::prelude::*;
use vstd::string::*;
use vstd::utf8::*;

verus! {

/// A byte offset into a source text.
pub type TextSize = u32;

/// A half-open range `[start, end)` of byte offsets, with `start <= end`.
#[derive(Clone, Copy, Debug, PartialEq, Eq)]
pub struct TextRange {
    start: u32,
    end: u32,
}

impl TextRange {
    #[verifier::type_invariant]
    spec fn ordered(self) -> bool {
        self.start <= self.end
    }

    /// The first offset of the range.
    pub closed spec fn lo(self) -> nat {
        self.start as nat
    }

    /// The offset one past the last byte of the range.
    pub closed spec fn hi(self) -> nat {
        self.end as nat
    }

    /// The range `[start, end)`.
    pub fn new(start: TextSize, end: TextSize) -> (r: TextRange)
        requires
            start <= end,
        ensures
            r.lo() == start,
            r.hi() == end,
    {
        TextRange { start, end }
    }

    /// The range of `len` bytes that begins at `offset`.
    pub fn at(offset: TextSize, len: TextSize) -> (r: TextRange)
        requires
            offset + len <= u32::MAX,
        ensures
            r.lo() == offset,
            r.hi() == offset + len,
    {
        TextRange { start: offset, end: offset + len }
    }

    /// The range `[0, end)`.
    pub fn up_to(end: TextSize) -> (r: TextRange)
        ensures
            r.lo() == 0,
            r.hi() == end,
    {
        TextRange { start: 0, end }
    }

    /// The empty range at `offset`.
    pub fn empty(offset: TextSize) -> (r: TextRange)
        ensures
            r.lo() == offset,
            r.hi() == offset,
    {
        TextRange { start: offset, end: offset }
    }

    /// The first offset of the range.
    pub fn start(&self) -> (s: TextSize)
        ensures
            s == self.lo(),
            self.lo() <= self.hi(),
    {
        proof {
            use_type_invariant(self);
        }
        self.start
    }

    /// The offset one past the last byte of the range.
    pub fn end(&self) -> (e: TextSize)
        ensures
            e == self.hi(),
            self.lo() <= self.hi(),
    {
        proof {
            use_type_invariant(self);
        }
        self.end
    }

    /// The number of bytes in the range.
    pub fn len(&self) -> (n: TextSize)
        ensures
            n == self.hi() - self.lo(),
    {
        proof {
            use_type_invariant(self);
        }
        self.end - self.start
    }

    /// Whether the range holds no byte.
    pub fn is_empty(&self) -> (b: bool)
        ensures
            b == (self.lo() == self.hi()),
    {
        self.start == self.end
    }

    /// The bounds of a range are offsets.
    pub proof fn lemma_bounds(self)
        ensures
            self.lo() <= u32::MAX,
            self.hi() <= u32::MAX,
    {
    }

    /// Two ranges with the same bounds are the same range.
    pub proof fn law_same_bounds(self, other: TextRange)
        requires
            self.lo() == other.lo(),
            self.hi() == other.hi(),
        ensures
            self == other,
    {
    }
}

/// The number of bytes that the UTF-8 encoding of `chars` takes.
pub open spec fn utf8_len(chars: Seq<char>) -> nat {
    encode_utf8(chars).len()
}

/// Encoding distributes over concatenation.
pub proof fn lemma_encode_concat(a: Seq<char>, b: Seq<char>)
    ensures
        encode_utf8(a + b) == encode_utf8(a) + encode_utf8(b),
        utf8_len(a + b) == utf8_len(a) + utf8_len(b),
    decreases a.len(),
{
    if a.len() == 0 {
        assert(a + b =~= b);
        assert(encode_utf8(a) + encode_utf8(b) =~= encode_utf8(b));
    } else {
        assert((a + b).drop_first() =~= a.drop_first() + b);
        lemma_encode_concat(a.drop_first(), b);
        assert((a + b)[0] == a[0]);
        assert(encode_utf8(a + b) =~= encode_utf8(a) + encode_utf8(b));
    }
}

/// Two character sequences with the same encoding are the same sequence.
pub proof fn lemma_encode_injective(a: Seq<char>, b: Seq<char>)
    requires
        encode_utf8(a) == encode_utf8(b),
    ensures
        a == b,
{
    encode_utf8_decode_utf8(a);
    encode_utf8_decode_utf8(b);
}

/// The encoding of a prefix ends on a character boundary of the whole.
pub proof fn lemma_boundary_after_prefix(a: Seq<char>, b: Seq<char>)
    ensures
        is_char_boundary(encode_utf8(a + b), utf8_len(a) as int),
    decreases a.len(),
{
    let bytes = encode_utf8(a + b);
    encode_utf8_valid_utf8(a + b);
    if a.len() == 0 {
    } else {
        encode_utf8_first_scalar(a + b);
        assert((a + b).drop_first() =~= a.drop_first() + b);
        assert((a + b)[0] == a[0]);
        assert(pop_first_scalar(bytes) =~= encode_utf8(a.drop_first() + b));
        lemma_boundary_after_prefix(a.drop_first(), b);
        assert(utf8_len(a) == encode_scalar(a[0] as u32).len() + utf8_len(a.drop_first()));
        assert(encode_scalar(a[0] as u32).len() > 0);
    }
}

/// A position strictly inside a slice is a character boundary of the slice
/// exactly when it is one of the whole text.
pub proof fn lemma_boundary_in_slice(bytes: Seq<u8>, from: int, to: int, at: int)
    requires
        valid_utf8(bytes),
        0 <= from <= at <= to <= bytes.len(),
        is_char_boundary(bytes, from),
        is_char_boundary(bytes, to),
    ensures
        valid_utf8(bytes.subrange(from, to)),
        is_char_boundary(bytes.subrange(from, to), at - from) <==> is_char_boundary(bytes, at),
{
    let head = bytes.subrange(0, to);
    valid_utf8_split(bytes, to);
    if from < to {
        is_char_boundary_iff_not_is_continuation_byte(bytes, from);
        is_char_boundary_iff_not_is_continuation_byte(head, from);
    } else {
        is_char_boundary_start_end_of_seq(head);
    }
    valid_utf8_split(head, from);
    let part = bytes.subrange(from, to);
    assert(head.subrange(from, head.len() as int) =~= part);
    if at < to {
        is_char_boundary_iff_not_is_continuation_byte(bytes, at);
        is_char_boundary_iff_not_is_continuation_byte(part, at - from);
    } else {
        is_char_boundary_start_end_of_seq(part);
    }
}

/// The number of bytes that the UTF-8 encoding of `c` takes.
pub fn char_len(c: char) -> (n: usize)
    ensures
        n == utf8_len(seq![c]),
        1 <= n <= 4,
{
    proof {
        char_is_scalar(c);
        assert(seq![c].drop_first() =~= Seq::<char>::empty());
        assert(encode_utf8(Seq::<char>::empty()) =~= Seq::<u8>::empty());
        assert(seq![c][0] == c);
        assert(encode_utf8(seq![c]) =~= encode_scalar(c as u32));
    }
    let v = c as u32;
    if v <= 0x7F {
        1
    } else if v <= 0x7FF {
        2
    } else if v <= 0xFFFF {
        3
    } else {
        4
    }
}

/// Whether byte offsets can address all of `text`: whether it takes no more
/// bytes than the greatest offset.
pub fn fits_offsets(text: &str) -> (fits: bool)
    ensures
        fits == (utf8_len(text@) <= u32::MAX),
{
    text.as_bytes().len() <= u32::MAX as usize
}

/// The part of `s` between two byte offsets that lie on character boundaries.
pub fn str_slice<'a>(s: &'a str, start: usize, end: usize) -> (part: &'a str)
    requires
        start <= end <= s.spec_bytes().len(),
        is_char_boundary(s.spec_bytes(), start as int),
        is_char_boundary(s.spec_bytes(), end as int),
    ensures
        part.spec_bytes() == s.spec_bytes().subrange(start as int, end as int),
        part@ == decode_utf8(s.spec_bytes().subrange(start as int, end as int)),
{
    let ghost bytes = s.spec_bytes();
    proof {
        encode_utf8_valid_utf8(s@);
        lemma_boundary_in_slice(bytes, 0, end as int, start as int);
        assert(bytes.subrange(0, end as int).len() == end);
    }
    let (head, _) = s.split_at(end);
    let (_, part) = head.split_at(start);
    proof {
        assert(part.spec_bytes() =~= bytes.subrange(start as int, end as int));
        encode_utf8_decode_utf8(part@);
    }
    part
}

/// Whether two strings hold the same characters.
pub fn str_eq(a: &str, b: &str) -> (same: bool)
    ensures
        same == (a@ == b@),
{
    let x = a.as_bytes();
    let y = b.as_bytes();
    if x.len() != y.len() {
        return false;
    }
    let mut i: usize = 0;
    while i < x.len()
        invariant
            x.len() == y.len(),
            i <= x.len(),
            x@ == a.spec_bytes(),
            y@ == b.spec_bytes(),
            forall|j: int| 0 <= j < i ==> x@[j] == y@[j],
        decreases x.len() - i,
    {
        if x[i] != y[i] {
            return false;
        }
        i += 1;
    }
    proof {
        assert(x@ =~= y@);
        lemma_encode_injective(a@, b@);
    }
    true
}

} // verus!
