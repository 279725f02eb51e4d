//! The short-string type that token text is stored in, and what is assumed of it.
use smol_str::SmolStr;
use vstd::prelude::*;

verus! {

/// `smol_str::SmolStr`: an immutable string that is cheap to copy. How it
/// stores its characters is not looked at.
#[verifier::external_type_specification]
#[verifier::external_body]
pub struct ExSmolStr(SmolStr);

/// The characters that a short string holds.
pub uninterp spec fn smol_text(s: SmolStr) -> Seq<char>;

/// `SmolStr::new`: the short string built from `text` holds exactly the
/// characters of `text`, whichever representation it picks.
#[verifier::external_body]
pub(crate) fn smol_new(text: &str) -> (s: SmolStr)
    ensures
        smol_text(s) == text@,
{
    SmolStr::new(text)
}

/// `SmolStr::as_str`: the borrowed slice holds exactly the characters of the
/// short string.
#[verifier::external_body]
pub(crate) fn smol_as_str(s: &SmolStr) -> (text: &str)
    ensures
        text@ == smol_text(*s),
{
    s.as_str()
}

} // verus!
