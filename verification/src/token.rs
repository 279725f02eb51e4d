//! The tokens that the lexer yields.
use crate::input::InputView;
use crate::smol::smol_text;
use crate::text::TextRange;
use smol_str::SmolStr;
use vstd::prelude::*;

verus! {

/// A token of kind `token` whose text `value` was found at `range`.
#[derive(Debug)]
pub struct Token<Tok> {
    pub token: Tok,
    pub value: SmolStr,
    pub range: TextRange,
}

/// A token without its text: its kind and where it lies.
pub struct Lexeme<Tok> {
    pub kind: Tok,
    pub lo: nat,
    pub hi: nat,
}

impl<Tok> Token<Tok> {
    /// The token without its text.
    pub open spec fn lexeme(&self) -> Lexeme<Tok> {
        Lexeme { kind: self.token, lo: self.range.lo(), hi: self.range.hi() }
    }

    /// Whether the token lies in `input` and its text is what stands there.
    pub open spec fn found_in(&self, input: InputView) -> bool {
        &&& input.spans(self.range.lo(), self.range.hi())
        &&& smol_text(self.value) == input.slice(self.range.lo(), self.range.hi())
    }
}

} // verus!
