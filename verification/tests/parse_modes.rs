use microtree::builder::Builder;
use microtree::context::Context;
use microtree::green::Green;
use microtree::lexer::{Lexer, TokenKind};
use microtree::parsers::{any_token, error, token, tokens};
use microtree::result::ParseResult;
use microtree::state::State;
use smol_str::SmolStr;

#[derive(Debug, PartialEq, Clone, Copy)]
enum Text {
    DQuote,
    OpenI,
    CloseI,
    Text,
}

impl std::fmt::Display for Text {
    fn fmt(&self, f: &mut std::fmt::Formatter<'_>) -> std::fmt::Result {
        f.write_str(match self {
            Text::DQuote => "`\"`",
            Text::OpenI => "`${`",
            Text::CloseI => "`}`",
            Text::Text => "text",
        })
    }
}

impl TokenKind for Text {
    type Extras = ();

    fn mergeable(self, other: Self) -> bool {
        self == Text::Text && (other == Text::Text || other == Text::CloseI)
    }

    fn lex(lexer: &mut Lexer<Self>) -> Option<(Self, SmolStr)> {
        let input = lexer.input_mut();
        let i = input.as_ref();
        let peeked = i.chars().next()?;

        if peeked == '"' {
            return Some((Text::DQuote, input.chomp(1)));
        }
        if i.starts_with("${") {
            return Some((Text::OpenI, input.chomp(2)));
        }
        if peeked == '}' {
            return Some((Text::CloseI, input.chomp(1)));
        }
        Some((Text::Text, input.chomp(1)))
    }
}

#[derive(Debug, PartialEq, Clone, Copy)]
enum Sexp {
    Error,
    OpenP,
    CloseP,
    Dot,
    Atom,
    Whitespace,
    DQuote,
}

impl std::fmt::Display for Sexp {
    fn fmt(&self, f: &mut std::fmt::Formatter<'_>) -> std::fmt::Result {
        f.write_str(match self {
            Sexp::Error => "error",
            Sexp::Atom => "atom",
            Sexp::Whitespace => "whitespace",
            Sexp::OpenP => "`(`",
            Sexp::CloseP => "`)`",
            Sexp::DQuote => "`\"`",
            Sexp::Dot => "`.`",
        })
    }
}

fn is_atom(c: &char) -> bool {
    c.is_ascii_alphanumeric() || *c == '_'
}

impl TokenKind for Sexp {
    type Extras = ();

    fn mergeable(self, other: Self) -> bool {
        self == Sexp::Error && other == Sexp::Error
    }

    fn lex(lexer: &mut Lexer<Self>) -> Option<(Self, SmolStr)> {
        let input = lexer.input_mut();
        let i = input.as_ref();
        let peeked = i.chars().next()?;

        if peeked.is_whitespace() {
            let rest = i.chars().take_while(|c| c.is_whitespace()).count();
            return Some((Sexp::Whitespace, input.chomp(rest)));
        }
        if peeked == '(' {
            return Some((Sexp::OpenP, input.chomp(1)));
        }
        if peeked == ')' {
            return Some((Sexp::CloseP, input.chomp(1)));
        }
        if peeked == '.' {
            return Some((Sexp::Dot, input.chomp(1)));
        }
        if peeked == '"' {
            return Some((Sexp::DQuote, input.chomp(1)));
        }
        if is_atom(&peeked) {
            let rest = i.chars().take_while(is_atom).count();
            return Some((Sexp::Atom, input.chomp(rest)));
        }
        Some((Sexp::Error, input.chomp(1)))
    }
}

fn text_run(builder: Builder<Text>) -> (Option<Green>, State<Text>) {
    builder.name("text").token()
}

fn interp(builder: Builder<Text>) -> (Option<Green>, State<Text>) {
    builder
        .name("interp")
        .node()
        .parse(any_token())
        .parse_mode(value)
        .parse(token(Some(Text::CloseI)))
        .finish()
}

fn inner_string(builder: Builder<Text>) -> (Option<Green>, State<Text>) {
    let mut builder = builder.name("StringVal").node();

    loop {
        builder = match builder.peek_token() {
            Some(Text::Text) => builder.parse(text_run),
            Some(Text::OpenI) => builder.parse(interp),
            Some(Text::DQuote) => break builder.finish(),
            Some(Text::CloseI) => builder.parse(error("Found `}` which is... unexpected. ICE!")),
            None => {
                break builder
                    .parse(tokens(&[Text::Text, Text::OpenI, Text::CloseI, Text::DQuote]))
                    .finish()
            }
        }
    }
}

fn trivia(mut builder: Builder<Sexp>) -> (Option<Green>, State<Sexp>) {
    match builder.peek_token() {
        Some(Sexp::Whitespace) => builder.name("trivia").parse(any_token()),
        _ => builder.none(),
    }
}

fn string(builder: Builder<Sexp>) -> (Option<Green>, State<Sexp>) {
    let ctx = Context {
        leading_trivia: Some(&trivia),
        ..Default::default()
    };
    let prev_ctx = builder.get_ctx();
    builder
        .name("String")
        .set_ctx(&ctx)
        .node()
        .parse(any_token())
        .parse_mode(inner_string)
        .set_ctx(prev_ctx)
        .parse(token(Some(Sexp::DQuote)))
        .finish()
}

fn sexp(builder: Builder<Sexp>) -> (Option<Green>, State<Sexp>) {
    let mut builder = builder.node().parse(any_token());

    match builder.peek_token() {
        Some(Sexp::CloseP) => builder.name("Nil").parse(any_token()),
        _ => {
            let mut builder = builder.parse(value);

            match builder.peek_token() {
                Some(Sexp::Dot) => builder.name("Cons").parse(any_token()).parse(value),
                _ => {
                    let mut builder = builder.name("List");
                    loop {
                        match builder.peek_token() {
                            None => break builder,
                            Some(Sexp::CloseP) => break builder,
                            _ => builder = builder.parse(value),
                        }
                    }
                }
            }
            .parse(token(Some(Sexp::CloseP)))
        }
    }
    .finish()
}

fn value(builder: Builder<Sexp>) -> (Option<Green>, State<Sexp>) {
    let ctx = Context::new(&trivia);
    let mut builder = builder.name("Value").set_ctx(&ctx);
    match builder.peek_token() {
        Some(Sexp::OpenP) => builder.parse(sexp),
        Some(Sexp::Atom) => builder.name("atom").token(),
        Some(Sexp::DQuote) => builder.parse(string),
        _ => builder.parse(tokens(&[Sexp::OpenP, Sexp::Atom])),
    }
}

fn act(input: &str) -> ParseResult {
    let lexer = Lexer::new(input);
    State::parse(lexer, value)
}

fn find(green: &Green, name: &'static str) -> Option<Green> {
    if green.is(name) {
        return Some(green.clone());
    }
    for child in green.children() {
        if let Some(found) = find(&child, name) {
            return Some(found);
        }
    }
    None
}

#[test]
fn string_with_interpolation_round_trips() {
    let source = r#"(a "  foo ${(1 2 3)} bar  " c)"#;
    let parsed = act(source);
    assert!(parsed.errors.is_empty());
    let root = parsed.root.unwrap();
    assert_eq!(root.to_string(), source);
    assert_eq!(root.size(), source.len());
    assert!(root.is("Value"));
    assert!(root.is("List"));

    let string = find(&root, "StringVal").unwrap();
    assert_eq!(string.to_string(), "  foo ${(1 2 3)} bar  ");
    let parts = string.children();
    assert_eq!(parts.len(), 3);
    assert!(parts[0].is("text"));
    assert_eq!(parts[0].as_token().unwrap().value.as_str(), "  foo ");
    assert!(parts[1].is("interp"));
    assert!(parts[2].is("text"));
    assert_eq!(parts[2].as_token().unwrap().value.as_str(), " bar  ");

    let inside = parts[1].children();
    assert_eq!(inside.len(), 3);
    assert_eq!(inside[0].to_string(), "${");
    assert_eq!(inside[2].to_string(), "}");
    let list = &inside[1];
    assert!(list.is("Value"));
    assert!(list.is("List"));
    assert_eq!(list.to_string(), "(1 2 3)");
    let atoms: Vec<Green> = list.children().into_iter().filter(|c| c.is("atom")).collect();
    assert_eq!(atoms.len(), 3);
    assert_eq!(atoms[0].as_token().unwrap().value.as_str(), "1");
    assert_eq!(atoms[1].as_token().unwrap().value.as_str(), "2");
    assert_eq!(atoms[2].as_token().unwrap().value.as_str(), "3");
}

#[test]
fn brace_after_text_joins_the_text() {
    let source = r#""a}b""#;
    let parsed = act(source);
    assert!(parsed.errors.is_empty());
    let root = parsed.root.unwrap();
    assert_eq!(root.to_string(), source);
    let string = find(&root, "StringVal").unwrap();
    let parts = string.children();
    assert_eq!(parts.len(), 1);
    assert_eq!(parts[0].as_token().unwrap().value.as_str(), "a}b");
}

#[test]
fn brace_first_in_a_string_is_an_error() {
    let source = r#""}x""#;
    let parsed = act(source);
    assert_eq!(parsed.errors.len(), 1);
    assert_eq!(
        parsed.errors[0].description(),
        "Found `}` which is... unexpected. ICE!"
    );
    assert_eq!(parsed.errors[0].range().start(), 1);
    assert_eq!(parsed.errors[0].range().end(), 2);
    let root = parsed.root.unwrap();
    assert_eq!(root.to_string(), source);
}

#[test]
fn unterminated_string_reports_the_end() {
    let source = r#"(a "foo"#;
    let parsed = act(source);
    let root = parsed.root.unwrap();
    assert_eq!(root.to_string(), source);
    let found: Vec<String> = parsed.errors.iter().map(|e| e.description().to_string()).collect();
    assert_eq!(
        found,
        vec![
            "Expected one of text, `${`, `}`, `\"` but found EOF".to_string(),
            "Expected `\"` but found EOF".to_string(),
            "Expected `)` but found EOF".to_string(),
        ]
    );
}
