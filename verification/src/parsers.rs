//! The parsers that every grammar needs: one token of any kind, one token
//! of an expected kind, the end of the input, and an error.
use crate::builder::{error_taken, leaf_taken, lemma_leaf_taken_after_peek, Builder};
use crate::green::Green;
use crate::lexer::TokenKind;
use crate::names::placed;
use crate::parser::Parser;
use crate::state::{advances, State};
use vstd::prelude::*;
use vstd::std_specs::cmp::PartialEqSpec;
use vstd::string::*;

verus! {

/// Whether `text` is a way in which the kind `kind` displays itself.
pub open spec fn shows<Tok: TokenKind>(kind: Tok, text: Seq<char>) -> bool {
    exists|shown: String| shown@ == text && #[trigger] to_string_from_display_ensures::<Tok>(
        &kind,
        shown,
    )
}

/// Whether `kind` equals one of `expected`.
pub open spec fn listed<Tok: TokenKind>(expected: Seq<Tok>, kind: Tok) -> bool {
    exists|i: int| 0 <= i < expected.len() && (#[trigger] expected[i]).eq_spec(&kind)
}

/// `names` one after the other with a comma and a blank between them.
pub open spec fn joined(names: Seq<Seq<char>>) -> Seq<char>
    decreases names.len(),
{
    if names.len() == 0 {
        Seq::empty()
    } else if names.len() == 1 {
        names[0]
    } else {
        joined(names.drop_last()) + ", "@ + names.last()
    }
}

/// What is said to be expected: the one name, or `one of` and the names.
pub open spec fn expected_text(names: Seq<Seq<char>>) -> Seq<char> {
    if names.len() > 1 {
        "Expected "@ + "one of "@ + joined(names)
    } else {
        "Expected "@ + joined(names)
    }
}

/// Whether `names` are ways in which the kinds `expected` display
/// themselves, one for one.
pub open spec fn show_all<Tok: TokenKind>(expected: Seq<Tok>, names: Seq<Seq<char>>) -> bool {
    &&& names.len() == expected.len()
    &&& forall|i: int| 0 <= i < expected.len() ==> shows(expected[i], #[trigger] names[i])
}

/// Whether the token kind `next` that stands at the front of the input, or
/// the end of the input where `next` is `None`, is what `expected` asks
/// for: one of the kinds, or the end of the input where no kind is
/// expected.
pub open spec fn accepted<Tok: TokenKind>(next: Option<Tok>, expected: Seq<Tok>) -> bool {
    match next {
        Some(kind) => expected.len() > 0 && listed(expected, kind),
        None => expected.len() == 0,
    }
}

/// Whether `message` is what is reported where `next` is not what
/// `expected` asks for.
pub open spec fn complaint<Tok: TokenKind>(
    next: Option<Tok>,
    expected: Seq<Tok>,
    message: Seq<char>,
) -> bool {
    match next {
        Some(kind) => exists|found: Seq<char>, names: Seq<Seq<char>>|
            {
                &&& shows(kind, found)
                &&& show_all(expected, names)
                &&& message == #[trigger] unexpected_text(names, Some(found))
            },
        None => exists|names: Seq<Seq<char>>|
            show_all(expected, names) && message == #[trigger] unexpected_text(names, None),
    }
}

/// The message for finding `found`, or the end of the input where `found`
/// is `None`, where the kinds that display as `names` were expected, or the
/// end of the input where `names` is empty.
pub open spec fn unexpected_text(names: Seq<Seq<char>>, found: Option<Seq<char>>) -> Seq<char> {
    match found {
        Some(found) => if names.len() == 0 {
            "Expected EOF, found "@ + found
        } else {
            expected_text(names) + " but found "@ + found
        },
        None => expected_text(names) + " but found EOF"@,
    }
}

/// The kinds of token that are expected at a place, as they display
/// themselves.
pub struct Expected {
    names: Vec<String>,
}

impl Expected {
    /// The names, in the order of the kinds.
    pub closed spec fn view(&self) -> Seq<Seq<char>> {
        Seq::new(self.names@.len(), |i: int| self.names@[i]@)
    }

    /// The kinds `expected`, each as it displays itself.
    pub fn new<Tok: TokenKind>(expected: &[Tok]) -> (names: Expected)
        ensures
            show_all(expected@, names@),
    {
        let mut names: Vec<String> = Vec::new();
        let mut i: usize = 0;
        while i < expected.len()
            invariant
                i <= expected.len(),
                names@.len() == i,
                forall|k: int| 0 <= k < i ==> shows(expected@[k], #[trigger] names@[k]@),
            decreases expected.len() - i,
        {
            let shown = expected[i].to_string();
            names.push(shown);
            i += 1;
        }
        Expected { names }
    }

    /// The sentence that says what is expected: `Expected` and the name, or
    /// `Expected one of` and the names with commas between them.
    pub fn to_string(&self) -> (text: String)
        ensures
            text@ == expected_text(self@),
    {
        let mut text = "Expected ".to_owned();
        if self.names.len() > 1 {
            text.append("one of ");
        }
        let ghost head = text@;
        let mut i: usize = 0;
        while i < self.names.len()
            invariant
                i <= self.names.len(),
                text@ == head + joined(self@.subrange(0, i as int)),
            decreases self.names.len() - i,
        {
            proof {
                let upto = self@.subrange(0, i + 1);
                assert(upto.drop_last() =~= self@.subrange(0, i as int));
                assert(upto.last() == self.names@[i as int]@);
            }
            if i == 0 {
                text.append(self.names[i].as_str());
                proof {
                    assert(text@ =~= head + joined(self@.subrange(0, 1)));
                }
            } else {
                text.append(", ");
                text.append(self.names[i].as_str());
                proof {
                    assert(text@ =~= head + joined(self@.subrange(0, i + 1)));
                }
            }
            i += 1;
        }
        proof {
            assert(self@.subrange(0, i as int) =~= self@);
            assert(joined(Seq::<Seq<char>>::empty()) =~= Seq::<char>::empty());
            assert(head + Seq::<char>::empty() =~= head);
        }
        text
    }

    /// The message for finding `found`, or the end of the input where
    /// `found` is `None`, in place of what is expected; where nothing is
    /// expected, for finding `found` in place of the end of the input.
    pub fn but_found(&self, found: Option<&str>) -> (text: String)
        ensures
            text@ == unexpected_text(
                self@,
                match found {
                    Some(found) => Some(found@),
                    None => None,
                },
            ),
    {
        match found {
            Some(found) => {
                if self.names.len() == 0 {
                    let mut text = "Expected EOF, found ".to_owned();
                    text.append(found);
                    text
                } else {
                    let mut text = self.to_string();
                    text.append(" but found ");
                    text.append(found);
                    text
                }
            },
            None => {
                let mut text = self.to_string();
                text.append(" but found EOF");
                text
            },
        }
    }
}

/// Whether `kind` equals one of `expected`.
pub fn is_listed<Tok: TokenKind>(expected: &[Tok], kind: Tok) -> (found: bool)
    ensures
        Tok::obeys_eq_spec() ==> found == listed(expected@, kind),
        expected@.len() == 0 ==> !found,
{
    let mut i: usize = 0;
    while i < expected.len()
        invariant
            i <= expected.len(),
            Tok::obeys_eq_spec() ==> forall|k: int| 0 <= k < i ==> !(#[trigger] expected@[k]).eq_spec(&kind),
        decreases expected.len() - i,
    {
        if expected[i] == kind {
            return true;
        }
        i += 1;
    }
    false
}

/// Takes the next token as a leaf named `token` where it is of one of the
/// kinds `expected`, or where the input is at its end and no kind is
/// expected. Otherwise takes the next token, if there is one, as an error
/// leaf and reports what was expected and what was found. Kinds are only
/// compared where there is a token and a kind is expected; what the
/// comparison gives is stated for kinds whose `==` is the one of their
/// specification.
pub fn expect<Tok: TokenKind>(builder: Builder<'_, Tok>, expected: &[Tok]) -> (res: (
    Option<Green>,
    State<Tok>,
))
    requires
        builder.wf(),
    ensures
        advances(builder.state, res.0, res.1),
        res.0 is Some,
        ({
            let next = match builder.state.lexer@.next() {
                Some((lexeme, _)) => Some(lexeme.kind),
                None => None,
            };
            let taken = leaf_taken(
                builder.state,
                builder.ctx,
                placed(builder.names@, "token"@),
                res,
            );
            let refused = exists|message: Seq<char>|
                {
                    &&& complaint(next, expected@, message)
                    &&& #[trigger] error_taken(builder.state, builder.names@, message, res)
                };
            &&& taken || refused
            &&& next is None || expected@.len() == 0 || Tok::obeys_eq_spec() ==> if accepted(
                next,
                expected@,
            ) {
                taken
            } else {
                refused
            }
        }),
{
    let ghost start = builder.state;
    let mut builder = builder;
    let next = builder.peek_token();
    let fine = match next {
        Some(kind) => expected.len() > 0 && is_listed(expected, kind),
        None => expected.len() == 0,
    };
    if fine {
        let ghost peeked = builder.state;
        let ghost names = placed(builder.names@, "token"@);
        let res = builder.name("token").token();
        proof {
            lemma_leaf_taken_after_peek(start, peeked, builder.ctx, names, res);
        }
        res
    } else {
        let names = Expected::new(expected);
        let message = match next {
            Some(kind) => {
                let found = kind.to_string();
                names.but_found(Some(found.as_str()))
            },
            None => names.but_found(None),
        };
        let ghost held = builder.names@;
        let res = builder.error(message.as_str());
        proof {
            assert(complaint(next, expected@, message@));
            assert(error_taken(start, held, message@, res));
        }
        res
    }
}

/// The parser that takes one token of any kind as a leaf named `token`.
pub fn any_token<Tok: TokenKind>() -> (parser: impl Fn(Builder<'_, Tok>) -> (
    Option<Green>,
    State<Tok>,
))
    ensures
        parser.sound(),
        forall|builder: Builder<'_, Tok>, res: (Option<Green>, State<Tok>)|
            builder.wf() && #[trigger] call_ensures(parser, (builder,), res) ==> leaf_taken(
                builder.state,
                builder.ctx,
                placed(builder.names@, "token"@),
                res,
            ),
{
    |builder: Builder<'_, Tok>| -> (res: (Option<Green>, State<Tok>))
        requires
            builder.wf(),
        ensures
            advances(builder.state, res.0, res.1),
            leaf_taken(builder.state, builder.ctx, placed(builder.names@, "token"@), res),
        { builder.name("token").token() }
}

/// The parser that takes the next token, if there is one, as an error leaf
/// and reports `desc`.
pub fn error<Tok: TokenKind>(desc: &str) -> (parser: impl Fn(Builder<'_, Tok>) -> (
    Option<Green>,
    State<Tok>,
))
    ensures
        parser.sound(),
        forall|builder: Builder<'_, Tok>, res: (Option<Green>, State<Tok>)|
            builder.wf() && #[trigger] call_ensures(parser, (builder,), res) ==> error_taken(
                builder.state,
                builder.names@,
                desc@,
                res,
            ),
{
    let desc = desc.to_owned();
    move |builder: Builder<'_, Tok>| -> (res: (Option<Green>, State<Tok>))
        requires
            builder.wf(),
        ensures
            advances(builder.state, res.0, res.1),
            error_taken(builder.state, builder.names@, desc@, res),
        { builder.error(desc.as_str()) }
}

/// The parser that takes one token of one of the kinds `expected` as a
/// leaf named `token`, and expects the end of the input where `expected`
/// is empty; see `expect`.
pub fn tokens<'s, Tok: TokenKind>(expected: &'s [Tok]) -> (parser: impl Fn(Builder<'_, Tok>) -> (
    Option<Green>,
    State<Tok>,
) + 's)
    ensures
        parser.sound(),
        forall|builder: Builder<'_, Tok>, res: (Option<Green>, State<Tok>)|
            builder.wf() && #[trigger] call_ensures(parser, (builder,), res) ==> call_ensures(
                expect::<Tok>,
                (builder, expected),
                res,
            ),
{
    move |builder: Builder<'_, Tok>| -> (res: (Option<Green>, State<Tok>))
        requires
            builder.wf(),
        ensures
            advances(builder.state, res.0, res.1),
            call_ensures(expect::<Tok>, (builder, expected), res),
        { expect(builder, expected) }
}

/// The parser that takes one token of the kind `expected` as a leaf named
/// `token`, and expects the end of the input where `expected` is `None`;
/// see `expect`.
pub fn token<Tok: TokenKind>(expected: Option<Tok>) -> (parser: impl Fn(Builder<'_, Tok>) -> (
    Option<Green>,
    State<Tok>,
))
    ensures
        parser.sound(),
        forall|builder: Builder<'_, Tok>, res: (Option<Green>, State<Tok>)|
            builder.wf() && #[trigger] call_ensures(parser, (builder,), res) ==> exists|
                kinds: &[Tok],
            |
                {
                    &&& kinds@ == match expected {
                        Some(kind) => seq![kind],
                        None => Seq::<Tok>::empty(),
                    }
                    &&& #[trigger] call_ensures(expect::<Tok>, (builder, kinds), res)
                },
{
    move |builder: Builder<'_, Tok>| -> (res: (Option<Green>, State<Tok>))
        requires
            builder.wf(),
        ensures
            advances(builder.state, res.0, res.1),
            exists|kinds: &[Tok]|
                {
                    &&& kinds@ == match expected {
                        Some(kind) => seq![kind],
                        None => Seq::<Tok>::empty(),
                    }
                    &&& #[trigger] call_ensures(expect::<Tok>, (builder, kinds), res)
                },
        {
            let mut kinds: Vec<Tok> = Vec::new();
            if let Some(kind) = expected {
                kinds.push(kind);
            }
            expect(builder, kinds.as_slice())
        }
}

} // verus!
