//! The lexer: a cursor over the input that yields the tokens a token kind
//! finds there, joins neighbours that the kind wants joined, and can look one
//! token ahead.
use crate::input::{Input, InputView};
use crate::smol::smol_text;
use crate::text::{utf8_len, TextRange, TextSize};
use crate::token::{Lexeme, Token};
use smol_str::SmolStr;
use vstd::prelude::*;
use vstd::std_specs::convert::IntoSpec;

verus! {

/// What a lexer reads from: the input window and the mode it is in.
pub struct Scan<Tok: TokenKind> {
    pub input: InputView,
    pub extras: Tok::Extras,
}

/// A kind of token, and how tokens of the kind are found. An implementation
/// states in `scan` and `merges` what its `lex` and `mergeable` do, and the
/// lexer is specified over the two. A kind that states nothing is taken to
/// find no token and to join none.
pub trait TokenKind: Copy + PartialEq + core::fmt::Display {
    /// What the lexer carries along for the kind to decide by.
    type Extras: Copy + Default;

    /// What stands at the front of `input` in the mode `extras`: the kind of
    /// the token, the number of bytes it takes, and the mode after it; or
    /// `None` where no token is found.
    open spec fn scan(input: InputView, extras: Self::Extras) -> Option<(Self, nat, Self::Extras)> {
        None
    }

    /// Whether a token of kind `next` that follows one of this kind is to be
    /// joined to it.
    open spec fn merges(self, next: Self) -> bool {
        false
    }

    /// Whether a token of kind `other` that follows one of this kind is to
    /// be joined to it into one token of this kind.
    fn mergeable(self, other: Self) -> (b: bool)
        ensures
            b == self.merges(other),
    ;

    /// Takes the token at the front of the input off it: the token that
    /// `scan` finds there, where it fits the input window, and nothing
    /// otherwise. What the lexer holds from looking ahead stays as it is.
    fn lex(lexer: &mut Lexer<Self>) -> (found: Option<(Self, SmolStr)>)
        requires
            old(lexer).input@.valid(),
        ensures
            final(lexer).peeked == old(lexer).peeked,
            final(lexer).span == old(lexer).span,
            match Self::scan(old(lexer).input@, old(lexer).extras) {
                Some((kind, len, extras)) => if old(lexer).input@.fits(len) {
                    let lo = old(lexer).input@.start;
                    &&& found matches Some((found_kind, text))
                    &&& found_kind == kind
                    &&& smol_text(text) == old(lexer).input@.slice(lo, lo + len)
                    &&& final(lexer).input@ == old(lexer).input@.from(lo + len)
                    &&& final(lexer).extras == extras
                } else {
                    &&& found is None
                    &&& final(lexer).input@ == old(lexer).input@
                    &&& final(lexer).extras == old(lexer).extras
                },
                None => {
                    &&& found is None
                    &&& final(lexer).input@ == old(lexer).input@
                    &&& final(lexer).extras == old(lexer).extras
                },
            },
    ;
}

impl<Tok: TokenKind> Scan<Tok> {
    /// The token at the front of the input and what remains after it. A scan
    /// that would take nothing, run past the window or cut a character in
    /// two finds no token.
    pub open spec fn raw(self) -> Option<(Lexeme<Tok>, Scan<Tok>)> {
        match Tok::scan(self.input, self.extras) {
            Some((kind, len, extras)) => {
                let lo = self.input.start;
                let hi = lo + len;
                if self.input.fits(len) {
                    Some((Lexeme { kind, lo, hi }, Scan { input: self.input.from(hi), extras }))
                } else {
                    None
                }
            },
            None => None,
        }
    }

    /// The token `first` grown by the tokens after it for as long as its
    /// kind joins the kind of the next one, and what remains after that.
    pub open spec fn absorb(self, first: Lexeme<Tok>) -> (Lexeme<Tok>, Scan<Tok>)
        decreases self.input.end - self.input.start,
    {
        match self.raw() {
            Some((next, after)) => {
                if first.kind.merges(next.kind) {
                    after.absorb(Lexeme { kind: first.kind, lo: first.lo, hi: next.hi })
                } else {
                    (first, self)
                }
            },
            None => (first, self),
        }
    }

    /// The next token as the lexer yields it, neighbours joined, and what
    /// remains after it.
    pub open spec fn next(self) -> Option<(Lexeme<Tok>, Scan<Tok>)> {
        match self.raw() {
            Some((first, after)) => Some(after.absorb(first)),
            None => None,
        }
    }
}

impl<Tok: TokenKind> Scan<Tok> {
    /// Whether `token` lies in the input and ends where the window starts:
    /// the shape of a token that was just taken.
    pub open spec fn follows(self, token: Lexeme<Tok>) -> bool {
        &&& self.input.valid()
        &&& token.lo < token.hi
        &&& token.hi == self.input.start
        &&& self.input.spans(token.lo, token.hi)
    }

    /// A single token starts at the window, is not empty, lies inside the
    /// window, and leaves the window starting at its end.
    pub proof fn law_raw_advances(self)
        ensures
            match self.raw() {
                Some((token, after)) => {
                    &&& token.lo == self.input.start
                    &&& token.hi <= self.input.end
                    &&& after.input == self.input.from(token.hi)
                    &&& after.follows(token)
                },
                None => true,
            },
    {
    }

    /// A token grown by its neighbours keeps its kind and its start, ends
    /// where the window then starts, and is followed by nothing that its
    /// kind would still join.
    pub proof fn law_absorb(self, first: Lexeme<Tok>)
        requires
            self.follows(first),
        ensures
            ({
                let (token, after) = self.absorb(first);
                &&& token.kind == first.kind
                &&& token.lo == first.lo
                &&& first.hi <= token.hi <= self.input.end
                &&& after.input == self.input.from(token.hi)
                &&& after.follows(token)
                &&& match after.raw() {
                    Some((next, _)) => !token.kind.merges(next.kind),
                    None => true,
                }
            }),
        decreases self.input.end - self.input.start,
    {
        if let Some((next, after)) = self.raw() {
            if first.kind.merges(next.kind) {
                self.law_raw_advances();
                after.law_absorb(Lexeme { kind: first.kind, lo: first.lo, hi: next.hi });
            }
        }
    }

    /// Tokens come in strictly increasing byte order: the next token starts
    /// at the window, is not empty, lies inside the window and cuts no
    /// character, and the window then starts at its end.
    pub proof fn law_next_advances(self)
        ensures
            match self.next() {
                Some((token, after)) => {
                    &&& token.lo == self.input.start
                    &&& token.hi <= self.input.end
                    &&& after.input == self.input.from(token.hi)
                    &&& after.follows(token)
                    &&& match after.raw() {
                        Some((next, _)) => !token.kind.merges(next.kind),
                        None => true,
                    }
                },
                None => self.raw() is None,
            },
    {
        if let Some((first, after)) = self.raw() {
            self.law_raw_advances();
            after.law_absorb(first);
        }
    }

    /// Tokens follow each other without a gap: each starts where the one
    /// before it ends.
    pub proof fn law_tokens_in_order(self)
        ensures
            match self.next() {
                Some((first, after)) => match after.next() {
                    Some((second, _)) => {
                        &&& first.lo < first.hi
                        &&& first.hi == second.lo
                        &&& second.lo < second.hi
                    },
                    None => true,
                },
                None => true,
            },
    {
        self.law_next_advances();
        if let Some((first, after)) = self.next() {
            after.law_next_advances();
        }
    }

    /// The number of tokens that the lexer yields before it finds no more.
    pub open spec fn tokens_left(self) -> nat
        decreases self.input.end - self.input.start,
    {
        match self.next() {
            Some((_, after)) => {
                proof {
                    self.law_next_advances();
                }
                1 + after.tokens_left()
            },
            None => 0,
        }
    }

    /// The lexer yields at most as many tokens as the window has bytes:
    /// each token takes at least one.
    pub proof fn law_tokens_bounded(self)
        ensures
            self.input.start + self.tokens_left() <= self.input.end || self.tokens_left() == 0,
        decreases self.input.end - self.input.start,
    {
        if let Some((_, after)) = self.next() {
            self.law_next_advances();
            after.law_tokens_bounded();
        }
    }

    /// Of two single tokens `a` and `b` that follow each other, where the
    /// kind of `a` joins the kind of `b` the lexer yields one token that
    /// starts where `a` starts and spans both; it ends where `b` ends unless
    /// the kind of `a` joins what follows `b` too. Where the kind of `a` does
    /// not join the kind of `b`, the lexer yields `a` as it is, and next a
    /// token that starts as `b` does and has the kind of `b`.
    pub proof fn law_merge(self)
        ensures
            match self.raw() {
                Some((a, after_a)) => match after_a.raw() {
                    Some((b, after_b)) => {
                        if a.kind.merges(b.kind) {
                            &&& self.next() matches Some((token, rest))
                            &&& token.kind == a.kind
                            &&& token.lo == a.lo
                            &&& token.hi >= b.hi
                            &&& (match after_b.raw() {
                                Some((c, _)) => !a.kind.merges(c.kind),
                                None => true,
                            }) ==> token.hi == b.hi && rest == after_b
                        } else {
                            &&& self.next() == Some((a, after_a))
                            &&& after_a.next() matches Some((token, _))
                            &&& token.kind == b.kind
                            &&& token.lo == b.lo
                        }
                    },
                    None => self.next() == Some((a, after_a)),
                },
                None => self.next() is None,
            },
    {
        if let Some((a, after_a)) = self.raw() {
            self.law_raw_advances();
            if let Some((b, after_b)) = after_a.raw() {
                after_a.law_raw_advances();
                if a.kind.merges(b.kind) {
                    let joined = Lexeme { kind: a.kind, lo: a.lo, hi: b.hi };
                    after_b.law_absorb(joined);
                } else {
                    after_b.law_absorb(b);
                }
            }
        }
    }
}

/// A token that was looked at ahead of time, and where the lexer stands once
/// it is taken.
pub struct Peeked<Tok: TokenKind> {
    pub token: Token<Tok>,
    pub cursor: TextSize,
    pub extras: Tok::Extras,
    pub joined: bool,
}

/// A lexer over an input.
pub struct Lexer<Tok: TokenKind> {
    /// The input, with its window starting at the next token to yield.
    pub input: Input,
    /// The mode that the lexer is in.
    pub extras: Tok::Extras,
    /// The range of the token that the lexer yielded last.
    pub span: TextRange,
    /// What the lexer holds from looking ahead: nothing, the end of the
    /// input, or a token.
    pub peeked: Option<Option<Peeked<Tok>>>,
}

impl<Tok: TokenKind> Peeked<Tok> {
    /// Where a lexer over `input` stands once the token is taken.
    pub open spec fn after(&self, input: InputView) -> Scan<Tok> {
        Scan { input: input.from(self.cursor as nat), extras: self.extras }
    }
}

impl<Tok: TokenKind> Lexer<Tok> {
    /// What the lexer reads from: the input window and the mode.
    pub open spec fn view(&self) -> Scan<Tok> {
        Scan { input: self.input@, extras: self.extras }
    }

    /// Whether the input window is valid and what is held from looking ahead
    /// is what stands at the front of the input.
    pub open spec fn wf(&self) -> bool {
        &&& self@.input.valid()
        &&& match self.peeked {
            None => true,
            Some(None) => self@.raw() is None,
            Some(Some(peeked)) => {
                &&& peeked.token.found_in(self@.input)
                &&& if peeked.joined {
                    self@.next() == Some((peeked.token.lexeme(), peeked.after(self@.input)))
                } else {
                    self@.raw() == Some((peeked.token.lexeme(), peeked.after(self@.input)))
                }
            },
        }
    }

    /// A lexer at the start of `source`, in the default mode.
    pub fn new(source: &str) -> (lexer: Lexer<Tok>)
        requires
            utf8_len(source@) <= u32::MAX,
        ensures
            lexer.wf(),
            lexer@.input == (InputView {
                text: source@,
                start: 0,
                end: utf8_len(source@),
            }),
            lexer.peeked is None,
            lexer.span.lo() == 0,
            lexer.span.hi() == 0,
            call_ensures(<Tok::Extras as Default>::default, (), lexer.extras),
    {
        Lexer {
            input: Input::new(source),
            extras: Default::default(),
            span: TextRange::empty(0),
            peeked: None,
        }
    }

    /// The range of the token that the lexer yielded last, or the empty
    /// range at the start before the first.
    pub fn span(&self) -> (range: TextRange)
        ensures
            range == self.span,
    {
        self.span
    }

    /// The input that the lexer reads from.
    pub fn input(&self) -> (input: &Input)
        ensures
            input@ == self@.input,
    {
        &self.input
    }

    /// The input that the lexer reads from, to take a token off it.
    pub fn input_mut(&mut self) -> (input: &mut Input)
        ensures
            input@ == old(self)@.input,
            final(self)@ == (Scan::<Tok> { input: final(input)@, extras: old(self)@.extras }),
            final(self).peeked == old(self).peeked,
            final(self).span == old(self).span,
    {
        &mut self.input
    }

    /// The mode that the lexer is in.
    pub fn extras(&self) -> (extras: Tok::Extras)
        ensures
            extras == self@.extras,
    {
        self.extras
    }

    /// Puts the lexer in the mode `extras`.
    pub fn set_extras(&mut self, extras: Tok::Extras)
        ensures
            final(self)@ == (Scan::<Tok> { input: old(self)@.input, extras }),
            final(self).peeked == old(self).peeked,
            final(self).span == old(self).span,
    {
        self.extras = extras;
    }

    /// The lexer of another kind of token over the same input, in the mode
    /// that the present mode converts to. What was held from looking ahead is
    /// dropped.
    pub fn morph<Tok2>(self) -> (lexer: Lexer<Tok2>) where
        Tok2: TokenKind,
        Tok::Extras: Into<Tok2::Extras>,

        requires
            self@.input.valid(),
        ensures
            lexer.wf(),
            lexer@.input == self@.input,
            lexer.peeked is None,
            lexer.span == self.span,
            <Tok::Extras as IntoSpec<Tok2::Extras>>::obeys_into_spec() ==> lexer.extras
                == self.extras.into_spec(),
    {
        Lexer { input: self.input, extras: self.extras.into(), span: self.span, peeked: None }
    }

    /// Takes the single token at the front of the input, from what is held
    /// where something is held.
    fn lex(&mut self) -> (found: Option<Token<Tok>>)
        requires
            old(self).wf(),
            old(self).peeked matches Some(Some(peeked)) ==> !peeked.joined,
        ensures
            final(self).wf(),
            final(self).peeked is None,
            final(self).span == old(self).span,
            match old(self)@.raw() {
                Some((lexeme, after)) => {
                    &&& found matches Some(token)
                    &&& token.lexeme() == lexeme
                    &&& token.found_in(old(self)@.input)
                    &&& final(self)@ == after
                },
                None => {
                    &&& found is None
                    &&& final(self)@ == old(self)@
                },
            },
    {
        let mut held: Option<Option<Peeked<Tok>>> = None;
        core::mem::swap(&mut self.peeked, &mut held);
        match held {
            Some(Some(peeked)) => {
                self.input.set_cursor(peeked.cursor);
                self.extras = peeked.extras;
                Some(peeked.token)
            },
            Some(None) => None,
            None => {
                let start = self.input.cursor();
                match Tok::lex(self) {
                    None => None,
                    Some((kind, value)) => {
                        let end = self.input.cursor();
                        Some(Token { token: kind, value, range: TextRange::new(start, end) })
                    },
                }
            },
        }
    }

    /// Looks at the single token at the front of the input and holds it,
    /// unless something is held already.
    fn peek_one(&mut self)
        requires
            old(self).wf(),
        ensures
            final(self).wf(),
            final(self)@ == old(self)@,
            final(self).span == old(self).span,
            final(self).peeked is Some,
            old(self).peeked is Some ==> final(self).peeked == old(self).peeked,
            old(self).peeked is None ==> match final(self).peeked {
                Some(Some(peeked)) => !peeked.joined,
                _ => true,
            },
    {
        if self.peeked.is_none() {
            let cursor = self.input.cursor();
            let extras = self.extras;
            let found = self.lex();
            let cursor_after = self.input.cursor();
            let extras_after = self.extras;
            self.input.set_cursor(cursor);
            self.extras = extras;
            self.peeked = Some(
                match found {
                    Some(token) => Some(
                        Peeked { token, cursor: cursor_after, extras: extras_after, joined: false },
                    ),
                    None => None,
                },
            );
            proof {
                assert(self.input@ == old(self).input@);
            }
        }
    }

    /// Takes the next token off the input: the token at the front, grown by
    /// the tokens after it for as long as its kind joins the kind of the next
    /// one. The joined token spans from the start of the first to the end of
    /// the last and holds the text in between. To see where the token ends
    /// the lexer looks at the single token after it and then holds that one;
    /// it holds nothing where it yields a token that it held whole, or none.
    pub fn next(&mut self) -> (token: Option<Token<Tok>>)
        requires
            old(self).wf(),
        ensures
            final(self).wf(),
            match old(self).peeked {
                Some(Some(peeked)) if peeked.joined => final(self).peeked is None,
                _ => final(self).peeked is Some == token is Some,
            },
            final(self).peeked matches Some(Some(peeked)) ==> !peeked.joined,
            match old(self)@.next() {
                Some((lexeme, after)) => {
                    &&& token matches Some(found)
                    &&& found.lexeme() == lexeme
                    &&& found.found_in(old(self)@.input)
                    &&& final(self)@ == after
                    &&& final(self).span == found.range
                },
                None => {
                    &&& token is None
                    &&& final(self)@ == old(self)@
                    &&& final(self).span == old(self).span
                },
            },
    {
        let whole = match &self.peeked {
            Some(Some(peeked)) => peeked.joined,
            _ => false,
        };
        proof {
            self@.law_next_advances();
        }
        if whole {
            let mut held: Option<Option<Peeked<Tok>>> = None;
            core::mem::swap(&mut self.peeked, &mut held);
            match held {
                Some(Some(peeked)) => {
                    self.input.set_cursor(peeked.cursor);
                    self.extras = peeked.extras;
                    self.span = peeked.token.range;
                    return Some(peeked.token);
                },
                _ => {
                    return None;
                },
            }
        }
        proof {
            self@.law_raw_advances();
        }
        let mut first = match self.lex() {
            Some(token) => token,
            None => {
                return None;
            },
        };
        loop
            invariant
                self.wf(),
                self.span == old(self).span,
                self@.input.text == old(self)@.input.text,
                self@.input.end == old(self)@.input.end,
                old(self)@.input.start <= first.range.lo(),
                self@.follows(first.lexeme()),
                first.found_in(old(self)@.input),
                old(self)@.next() == Some(self@.absorb(first.lexeme())),
                match self.peeked {
                    Some(Some(peeked)) => !peeked.joined,
                    _ => true,
                },
            ensures
                old(self)@.next() == Some((first.lexeme(), self@)),
                self.peeked is Some,
            decreases self@.input.end - self@.input.start,
        {
            self.peek_one();
            proof {
                self@.law_raw_advances();
            }
            let joins = match &self.peeked {
                Some(Some(peeked)) => first.token.mergeable(peeked.token.token),
                _ => false,
            };
            if !joins {
                proof {
                    assert(self@.absorb(first.lexeme()) == (first.lexeme(), self@));
                }
                break ;
            }
            let end = match &self.peeked {
                Some(Some(peeked)) => peeked.token.range.end(),
                _ => first.range.end(),
            };
            let range = TextRange::new(first.range.start(), end);
            proof {
                let input = old(self)@.input;
                let now = self@.input;
                assert(now.spans(first.range.hi(), end as nat));
                assert(input.bytes() == now.bytes());
            }
            first = Token { token: first.token, value: self.input.str_for_range(range), range };
            let _next = self.lex();
        }
        self.span = first.range;
        Some(first)
    }

    /// Looks at the next token without taking it: the token that `next`
    /// would yield. The lexer keeps it, and stands where it stood.
    pub fn peek(&mut self) -> (token: Option<&Token<Tok>>)
        requires
            old(self).wf(),
        ensures
            final(self).wf(),
            final(self).peeked is Some,
            final(self).peeked matches Some(Some(peeked)) ==> peeked.joined,
            final(self)@ == old(self)@,
            final(self).span == old(self).span,
            match old(self)@.next() {
                Some((lexeme, after)) => {
                    &&& token matches Some(found)
                    &&& found.lexeme() == lexeme
                    &&& found.found_in(old(self)@.input)
                },
                None => token is None,
            },
    {
        let whole = match &self.peeked {
            Some(Some(peeked)) => peeked.joined,
            Some(None) => true,
            None => false,
        };
        proof {
            self@.law_next_advances();
        }
        if !whole {
            let cursor = self.input.cursor();
            let extras = self.extras;
            let span = self.span;
            let found = self.next();
            let cursor_after = self.input.cursor();
            let extras_after = self.extras;
            self.input.set_cursor(cursor);
            self.extras = extras;
            self.span = span;
            self.peeked = Some(
                match found {
                    Some(token) => Some(
                        Peeked { token, cursor: cursor_after, extras: extras_after, joined: true },
                    ),
                    None => None,
                },
            );
            proof {
                assert(self.input@ == old(self).input@);
            }
        }
        match &self.peeked {
            Some(Some(peeked)) => Some(&peeked.token),
            _ => None,
        }
    }
}

} // verus!
