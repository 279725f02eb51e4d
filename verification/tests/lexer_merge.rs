use microtree::lexer::{Lexer, TokenKind};
use microtree::token::Token;
use smol_str::SmolStr;

#[derive(Debug, PartialEq, Clone, Copy)]
enum Kind {
    Word,
    Blank,
    Bang,
}

impl std::fmt::Display for Kind {
    fn fmt(&self, f: &mut std::fmt::Formatter<'_>) -> std::fmt::Result {
        f.write_str(match self {
            Kind::Word => "word",
            Kind::Blank => "blank",
            Kind::Bang => "`!`",
        })
    }
}

impl TokenKind for Kind {
    type Extras = u8;

    fn mergeable(self, other: Self) -> bool {
        (self == Kind::Word && (other == Kind::Word || other == Kind::Bang))
            || (self == Kind::Blank && other == Kind::Blank)
    }

    fn lex(lexer: &mut Lexer<Self>) -> Option<(Self, SmolStr)> {
        let seen = lexer.extras();
        lexer.set_extras(seen.wrapping_add(1));
        let input = lexer.input_mut();
        let first = input.as_ref().chars().next()?;
        let kind = if first == ' ' {
            Kind::Blank
        } else if first == '!' {
            Kind::Bang
        } else {
            Kind::Word
        };
        Some((kind, input.chomp(1)))
    }
}

#[derive(Debug, PartialEq, Clone, Copy)]
enum Single {
    Any,
}

impl std::fmt::Display for Single {
    fn fmt(&self, f: &mut std::fmt::Formatter<'_>) -> std::fmt::Result {
        f.write_str("any")
    }
}

impl TokenKind for Single {
    type Extras = u64;

    fn mergeable(self, _other: Self) -> bool {
        false
    }

    fn lex(lexer: &mut Lexer<Self>) -> Option<(Self, SmolStr)> {
        let input = lexer.input_mut();
        input.as_ref().chars().next()?;
        Some((Single::Any, input.chomp(1)))
    }
}

fn seen(token: Option<Token<Kind>>) -> Option<(Kind, String, u32, u32)> {
    token.map(|t| (t.token, t.value.to_string(), t.range.start(), t.range.end()))
}

fn word(text: &str, lo: u32, hi: u32) -> Option<(Kind, String, u32, u32)> {
    Some((Kind::Word, text.to_string(), lo, hi))
}

#[test]
fn mergeable_neighbours_are_one_token() {
    let mut lexer: Lexer<Kind> = Lexer::new("ab  cd");
    assert_eq!(seen(lexer.next()), word("ab", 0, 2));
    assert_eq!(seen(lexer.next()), Some((Kind::Blank, "  ".to_string(), 2, 4)));
    assert_eq!(seen(lexer.next()), word("cd", 4, 6));
    assert_eq!(seen(lexer.next()), None);
    assert_eq!(seen(lexer.next()), None);
}

#[test]
fn the_first_kind_decides_the_merge() {
    let mut lexer: Lexer<Kind> = Lexer::new("a!b!");
    assert_eq!(seen(lexer.next()), word("a!b!", 0, 4));
    assert_eq!(seen(lexer.next()), None);

    let mut lexer: Lexer<Kind> = Lexer::new("!a!");
    assert_eq!(seen(lexer.next()), Some((Kind::Bang, "!".to_string(), 0, 1)));
    assert_eq!(seen(lexer.next()), word("a!", 1, 3));
    assert_eq!(seen(lexer.next()), None);

    let mut lexer: Lexer<Kind> = Lexer::new("!!");
    assert_eq!(seen(lexer.next()), Some((Kind::Bang, "!".to_string(), 0, 1)));
    assert_eq!(seen(lexer.next()), Some((Kind::Bang, "!".to_string(), 1, 2)));
    assert_eq!(seen(lexer.next()), None);
}

#[test]
fn merged_value_is_the_source_slice() {
    let source = "h\u{e9}llo w\u{4e16}";
    let mut lexer: Lexer<Kind> = Lexer::new(source);
    let mut last_end = 0;
    while let Some(token) = lexer.next() {
        assert!(token.range.start() >= last_end);
        assert!(token.range.start() < token.range.end());
        let lo = token.range.start() as usize;
        let hi = token.range.end() as usize;
        assert_eq!(token.value.as_str(), &source[lo..hi]);
        last_end = token.range.end();
    }
    assert_eq!(last_end as usize, source.len());
}

#[test]
fn peek_shows_what_next_yields() {
    let mut lexer: Lexer<Kind> = Lexer::new("ab cd");
    {
        let peeked = lexer.peek().unwrap();
        assert_eq!(peeked.token, Kind::Word);
        assert_eq!(peeked.value.as_str(), "ab");
        assert_eq!(peeked.range.start(), 0);
        assert_eq!(peeked.range.end(), 2);
    }
    assert_eq!(lexer.input().cursor(), 0);
    assert_eq!(lexer.peek().unwrap().value.as_str(), "ab");
    assert_eq!(seen(lexer.next()), word("ab", 0, 2));
    assert_eq!(lexer.input().cursor(), 2);
    assert_eq!(lexer.peek().unwrap().token, Kind::Blank);
    assert_eq!(seen(lexer.next()), Some((Kind::Blank, " ".to_string(), 2, 3)));
    assert_eq!(lexer.peek().unwrap().value.as_str(), "cd");
    assert_eq!(seen(lexer.next()), word("cd", 3, 5));
    assert!(lexer.peek().is_none());
    assert!(lexer.peek().is_none());
    assert_eq!(seen(lexer.next()), None);
}

#[test]
fn peek_after_a_merge_shows_the_whole_next_token() {
    let mut lexer: Lexer<Kind> = Lexer::new("a   b");
    assert_eq!(seen(lexer.next()), word("a", 0, 1));
    {
        let peeked = lexer.peek().unwrap();
        assert_eq!(peeked.token, Kind::Blank);
        assert_eq!(peeked.value.as_str(), "   ");
        assert_eq!(peeked.range.end(), 4);
    }
    assert_eq!(seen(lexer.next()), Some((Kind::Blank, "   ".to_string(), 1, 4)));
    assert_eq!(seen(lexer.next()), word("b", 4, 5));
}

#[test]
fn peek_keeps_the_mode() {
    let mut lexer: Lexer<Kind> = Lexer::new("ab c");
    assert_eq!(lexer.extras(), 0);
    lexer.peek();
    assert_eq!(lexer.extras(), 0);
    lexer.next();
    assert_eq!(lexer.extras(), 2);
    lexer.peek();
    assert_eq!(lexer.extras(), 2);
}

#[test]
fn span_is_the_range_of_the_last_token() {
    let mut lexer: Lexer<Kind> = Lexer::new("ab cd");
    assert_eq!(lexer.span().start(), 0);
    assert_eq!(lexer.span().end(), 0);
    lexer.peek();
    assert_eq!(lexer.span().end(), 0);
    lexer.next();
    assert_eq!(lexer.span().start(), 0);
    assert_eq!(lexer.span().end(), 2);
    lexer.next();
    lexer.next();
    assert_eq!(lexer.span().start(), 3);
    assert_eq!(lexer.span().end(), 5);
    assert!(lexer.next().is_none());
    assert_eq!(lexer.span().start(), 3);
    assert_eq!(lexer.span().end(), 5);
}

#[test]
fn morph_keeps_the_rest_and_drops_the_peek() {
    let mut lexer: Lexer<Kind> = Lexer::new("ab cd");
    lexer.next();
    lexer.peek();
    let mut other: Lexer<Single> = lexer.morph();
    assert_eq!(other.input().cursor(), 2);
    assert_eq!(other.input().as_ref(), " cd");
    assert_eq!(other.extras(), 2u64);
    assert_eq!(other.span().end(), 2);
    let token = other.next().unwrap();
    assert_eq!(token.token, Single::Any);
    assert_eq!(token.value.as_str(), " ");
    assert_eq!(token.range.start(), 2);
    assert_eq!(token.range.end(), 3);
    assert_eq!(other.next().unwrap().value.as_str(), "c");
}

#[test]
fn empty_input_yields_nothing() {
    let mut lexer: Lexer<Kind> = Lexer::new("");
    assert!(lexer.peek().is_none());
    assert!(lexer.next().is_none());
    assert_eq!(lexer.input().cursor(), 0);
}
