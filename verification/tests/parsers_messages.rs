use microtree::builder::Builder;
use microtree::green::Green;
use microtree::lexer::{Lexer, TokenKind};
use microtree::parsers::{any_token, error, is_listed, token, tokens, Expected};
use microtree::state::State;
use smol_str::SmolStr;

#[derive(Debug, PartialEq, Clone, Copy)]
enum Kind {
    Digit,
    Letter,
    Other,
}

impl std::fmt::Display for Kind {
    fn fmt(&self, f: &mut std::fmt::Formatter<'_>) -> std::fmt::Result {
        f.write_str(match self {
            Kind::Digit => "digit",
            Kind::Letter => "letter",
            Kind::Other => "other",
        })
    }
}

impl TokenKind for Kind {
    type Extras = ();

    fn mergeable(self, _other: Self) -> bool {
        false
    }

    fn lex(lexer: &mut Lexer<Self>) -> Option<(Self, SmolStr)> {
        let input = lexer.input_mut();
        let first = input.as_ref().chars().next()?;
        let kind = if first.is_ascii_digit() {
            Kind::Digit
        } else if first.is_alphabetic() {
            Kind::Letter
        } else {
            Kind::Other
        };
        Some((kind, input.chomp(1)))
    }
}

fn run(
    source: &str,
    parser: impl Fn(Builder<Kind>) -> (Option<Green>, State<Kind>),
) -> (Green, Vec<(String, u32, u32)>) {
    let parsed = State::parse(Lexer::new(source), parser);
    let errors = parsed
        .errors
        .iter()
        .map(|e| (e.description().to_string(), e.range().start(), e.range().end()))
        .collect();
    (parsed.root.unwrap(), errors)
}

fn complaint(text: &str, lo: u32, hi: u32) -> Vec<(String, u32, u32)> {
    vec![(text.to_string(), lo, hi)]
}

#[test]
fn expected_names_one_kind() {
    let expected = Expected::new(&[Kind::Digit]);
    assert_eq!(expected.to_string(), "Expected digit");
    assert_eq!(expected.but_found(Some("letter")), "Expected digit but found letter");
    assert_eq!(expected.but_found(None), "Expected digit but found EOF");
}

#[test]
fn expected_lists_several_kinds() {
    let expected = Expected::new(&[Kind::Digit, Kind::Letter, Kind::Other]);
    assert_eq!(expected.to_string(), "Expected one of digit, letter, other");
    assert_eq!(
        expected.but_found(Some("x")),
        "Expected one of digit, letter, other but found x"
    );
    let two = Expected::new(&[Kind::Letter, Kind::Digit]);
    assert_eq!(two.but_found(None), "Expected one of letter, digit but found EOF");
}

#[test]
fn expected_nothing_is_the_end_of_input() {
    let expected = Expected::new::<Kind>(&[]);
    assert_eq!(expected.but_found(Some("digit")), "Expected EOF, found digit");
}

#[test]
fn kinds_are_looked_up() {
    assert!(is_listed(&[Kind::Digit, Kind::Letter], Kind::Letter));
    assert!(is_listed(&[Kind::Digit, Kind::Letter], Kind::Digit));
    assert!(!is_listed(&[Kind::Digit, Kind::Letter], Kind::Other));
    assert!(!is_listed(&[], Kind::Other));
}

#[test]
fn any_token_takes_what_is_there() {
    let (root, errors) = run("7a", any_token());
    assert!(errors.is_empty());
    assert_eq!(root.to_string(), "7");
    assert_eq!(root.name(), "token");
    assert!(!root.is_alias());
}

#[test]
fn any_token_at_the_end_is_an_eof_leaf() {
    let (root, errors) = run("", any_token());
    assert!(errors.is_empty());
    assert_eq!(root.to_string(), "");
    assert!(root.is("eof"));
    assert!(root.is("token"));
    assert!(root.is_alias());
    assert_eq!(root.as_token().unwrap().value.as_str(), "");
}

#[test]
fn token_takes_the_expected_kind() {
    let (root, errors) = run("7a", token(Some(Kind::Digit)));
    assert!(errors.is_empty());
    assert_eq!(root.to_string(), "7");
    assert_eq!(root.name(), "token");
}

#[test]
fn token_reports_another_kind() {
    let (root, errors) = run("a7", token(Some(Kind::Digit)));
    assert_eq!(errors, complaint("Expected digit but found letter", 0, 1));
    assert_eq!(root.to_string(), "a");
    assert_eq!(root.name(), "error");
}

#[test]
fn token_reports_the_end() {
    let (root, errors) = run("", token(Some(Kind::Digit)));
    assert_eq!(errors, complaint("Expected digit but found EOF", 0, 0));
    assert_eq!(root.to_string(), "");
    assert_eq!(root.name(), "error");
}

#[test]
fn token_none_expects_the_end() {
    let (root, errors) = run("", token(None));
    assert!(errors.is_empty());
    assert!(root.is("eof"));
    let (root, errors) = run("a", token(None));
    assert_eq!(errors, complaint("Expected EOF, found letter", 0, 1));
    assert_eq!(root.to_string(), "a");
    assert!(root.is("error"));
}

#[test]
fn tokens_takes_any_of_the_kinds() {
    let (root, errors) = run("a", tokens(&[Kind::Digit, Kind::Letter]));
    assert!(errors.is_empty());
    assert_eq!(root.to_string(), "a");
    assert!(root.is("token"));
    let (root, errors) = run("7", tokens(&[Kind::Digit, Kind::Letter]));
    assert!(errors.is_empty());
    assert_eq!(root.to_string(), "7");
}

#[test]
fn tokens_reports_what_it_wanted() {
    let (root, errors) = run("+", tokens(&[Kind::Digit, Kind::Letter]));
    assert_eq!(errors, complaint("Expected one of digit, letter but found other", 0, 1));
    assert_eq!(root.to_string(), "+");
    let (_, errors) = run("", tokens(&[Kind::Digit, Kind::Letter]));
    assert_eq!(errors, complaint("Expected one of digit, letter but found EOF", 0, 0));
}

#[test]
fn tokens_of_nothing_expects_the_end() {
    let (root, errors) = run("", tokens(&[]));
    assert!(errors.is_empty());
    assert!(root.is("eof"));
    let (root, errors) = run("7", tokens(&[]));
    assert_eq!(errors, complaint("Expected EOF, found digit", 0, 1));
    assert_eq!(root.to_string(), "7");
}

#[test]
fn error_takes_one_token_and_says_why() {
    let (root, errors) = run("ab", error("no letters here"));
    assert_eq!(errors, complaint("no letters here", 0, 1));
    assert_eq!(root.to_string(), "a");
    assert_eq!(root.name(), "error");
    assert_eq!(root.as_token().unwrap().prefix.as_str(), "");
}

#[test]
fn error_at_the_end_takes_nothing() {
    fn twice(builder: Builder<Kind>) -> (Option<Green>, State<Kind>) {
        builder
            .name("Pair")
            .node()
            .parse(any_token())
            .parse(error("nothing left"))
            .finish()
    }
    let (root, errors) = run("a", twice);
    assert_eq!(errors, complaint("nothing left", 0, 1));
    assert_eq!(root.to_string(), "a");
    let kids = root.children();
    assert_eq!(kids.len(), 2);
    assert!(kids[1].is("error"));
    assert_eq!(kids[1].size(), 0);
}

#[test]
fn errors_keep_their_order() {
    fn three(builder: Builder<Kind>) -> (Option<Green>, State<Kind>) {
        builder
            .node()
            .parse(token(Some(Kind::Digit)))
            .parse(error("second"))
            .parse(token(None))
            .finish()
    }
    let (root, errors) = run("abc", three);
    assert_eq!(
        errors,
        vec![
            ("Expected digit but found letter".to_string(), 0, 1),
            ("second".to_string(), 1, 2),
            ("Expected EOF, found letter".to_string(), 2, 3),
        ]
    );
    assert_eq!(root.to_string(), "abc");
    assert_eq!(root.name(), "");
}

#[test]
fn names_wrap_in_order() {
    fn named(builder: Builder<Kind>) -> (Option<Green>, State<Kind>) {
        builder.name("b").name("c").name("a").name("b").token()
    }
    let (root, errors) = run("7", named);
    assert!(errors.is_empty());
    assert_eq!(root.name(), "c");
    assert!(root.is_alias());
    let token = root.as_token().unwrap();
    assert_eq!(token.value.as_str(), "7");
    assert!(root.is("a"));
    assert!(root.is("b"));
    let rendered = root.debug_string(0);
    assert_eq!(rendered, "\n--- GREEN TREE ---\nc, b, a @ 0..1 `7`\n--- END ---\n");
}

#[test]
fn node_names_wrap_in_order() {
    fn named(builder: Builder<Kind>) -> (Option<Green>, State<Kind>) {
        builder
            .name("B")
            .node()
            .name("A")
            .parse(any_token())
            .name("C")
            .finish()
    }
    let (root, _) = run("7", named);
    assert_eq!(
        root.debug_string(0),
        "\n--- GREEN TREE ---\nC, B, A @ 0..1\n    token @ 0..1 `7`\n--- END ---\n"
    );
}

#[test]
fn parse_wraps_what_the_parser_made() {
    fn wrapped(builder: Builder<Kind>) -> (Option<Green>, State<Kind>) {
        builder.name("Outer").name("Inner").parse(any_token())
    }
    let (root, _) = run("7", wrapped);
    assert_eq!(
        root.debug_string(0),
        "\n--- GREEN TREE ---\nOuter, Inner, token @ 0..1 `7`\n--- END ---\n"
    );
    fn nothing(builder: Builder<Kind>) -> (Option<Green>, State<Kind>) {
        builder.name("Outer").parse(|b: Builder<Kind>| b.none())
    }
    let parsed = State::parse(Lexer::new("7"), nothing);
    assert!(parsed.root.is_none());
    assert!(parsed.errors.is_empty());
}
