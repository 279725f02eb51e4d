use microtree::ast::{AliasBuilder, Ast, AstBuilder, IntoBuilder, TokenBuilder};
use microtree::cache::Cache;
use microtree::green::{Green, Tree};
use microtree::red::{Red, RedView};

struct Value(Red);
struct Atom(Red);
struct LParen(Red);
struct RParen(Red);
struct Dot(Red);
struct List(Red);
struct Cons(Red);
struct Nil(Red);

fn token_named(node: &Red, name: &'static str) -> bool {
    node.is(name) && node.green().as_token().is_some()
}

fn node_named(node: &Red, name: &'static str) -> bool {
    node.is(name) && node.green().as_node().is_some()
}

impl Ast for Value {
    fn admits(_node: RedView) -> bool {
        unreachable!()
    }

    fn shown(&self) -> RedView {
        unreachable!()
    }

    fn new(node: Red) -> Option<Self> {
        if node.is("Value") {
            Some(Self(node))
        } else {
            None
        }
    }

    fn red(&self) -> Red {
        self.0.clone()
    }
}

impl Ast for Atom {
    fn admits(_node: RedView) -> bool {
        unreachable!()
    }

    fn shown(&self) -> RedView {
        unreachable!()
    }

    fn new(node: Red) -> Option<Self> {
        if token_named(&node, "atom") {
            Some(Self(node))
        } else {
            None
        }
    }

    fn red(&self) -> Red {
        self.0.clone()
    }
}

impl Ast for LParen {
    fn admits(_node: RedView) -> bool {
        unreachable!()
    }

    fn shown(&self) -> RedView {
        unreachable!()
    }

    fn new(node: Red) -> Option<Self> {
        if token_named(&node, "(") {
            Some(Self(node))
        } else {
            None
        }
    }

    fn red(&self) -> Red {
        self.0.clone()
    }
}

impl Ast for RParen {
    fn admits(_node: RedView) -> bool {
        unreachable!()
    }

    fn shown(&self) -> RedView {
        unreachable!()
    }

    fn new(node: Red) -> Option<Self> {
        if token_named(&node, ")") {
            Some(Self(node))
        } else {
            None
        }
    }

    fn red(&self) -> Red {
        self.0.clone()
    }
}

impl Ast for Dot {
    fn admits(_node: RedView) -> bool {
        unreachable!()
    }

    fn shown(&self) -> RedView {
        unreachable!()
    }

    fn new(node: Red) -> Option<Self> {
        if token_named(&node, ".") {
            Some(Self(node))
        } else {
            None
        }
    }

    fn red(&self) -> Red {
        self.0.clone()
    }
}

impl Ast for List {
    fn admits(_node: RedView) -> bool {
        unreachable!()
    }

    fn shown(&self) -> RedView {
        unreachable!()
    }

    fn new(node: Red) -> Option<Self> {
        if node_named(&node, "List") {
            Some(Self(node))
        } else {
            None
        }
    }

    fn red(&self) -> Red {
        self.0.clone()
    }
}

impl Ast for Cons {
    fn admits(_node: RedView) -> bool {
        unreachable!()
    }

    fn shown(&self) -> RedView {
        unreachable!()
    }

    fn new(node: Red) -> Option<Self> {
        if node_named(&node, "Cons") {
            Some(Self(node))
        } else {
            None
        }
    }

    fn red(&self) -> Red {
        self.0.clone()
    }
}

impl Ast for Nil {
    fn admits(_node: RedView) -> bool {
        unreachable!()
    }

    fn shown(&self) -> RedView {
        unreachable!()
    }

    fn new(node: Red) -> Option<Self> {
        if node_named(&node, "Nil") {
            Some(Self(node))
        } else {
            None
        }
    }

    fn red(&self) -> Red {
        self.0.clone()
    }
}

fn atom(value: &str) -> TokenBuilder<Atom> {
    TokenBuilder::custom("atom", value)
}

fn lparen() -> TokenBuilder<LParen> {
    TokenBuilder::custom("(", "(")
}

fn rparen() -> TokenBuilder<RParen> {
    TokenBuilder::custom(")", ")")
}

fn dot() -> TokenBuilder<Dot> {
    TokenBuilder::custom(".", ".")
}

impl IntoBuilder<Value> for TokenBuilder<Atom> {
    fn into_builder(self) -> AliasBuilder<Self, Value> {
        AliasBuilder::new("Value", self)
    }
}

struct ListBuilder {
    open: TokenBuilder<LParen>,
    values: Vec<Box<dyn AstBuilder<T = Value>>>,
    close: TokenBuilder<RParen>,
}

impl AstBuilder for ListBuilder {
    type T = List;

    fn tree(&self) -> Tree {
        unreachable!()
    }

    fn built(&self, _before: Cache, _after: Cache) -> bool {
        unreachable!()
    }

    fn build(self, builder: &mut Cache) -> List {
        List::new(Red::root(self.build_green(builder))).unwrap()
    }

    fn build_green(self, builder: &mut Cache) -> Green {
        builder.node("List", |builder| {
            let mut children = vec![self.open.build_green(builder)];
            for value in self.values {
                children.push(value.build_boxed_green(builder));
            }
            children.push(self.close.build_green(builder));
            children
        })
    }

    fn build_boxed_green(self: Box<Self>, builder: &mut Cache) -> Green {
        self.build_green(builder)
    }
}

impl IntoBuilder<Value> for ListBuilder {
    fn into_builder(self) -> AliasBuilder<Self, Value> {
        AliasBuilder::new("Value", self)
    }
}

struct ConsBuilder {
    open: TokenBuilder<LParen>,
    car: AliasBuilder<TokenBuilder<Atom>, Value>,
    dot: TokenBuilder<Dot>,
    cdr: AliasBuilder<TokenBuilder<Atom>, Value>,
    close: TokenBuilder<RParen>,
}

impl AstBuilder for ConsBuilder {
    type T = Cons;

    fn tree(&self) -> Tree {
        unreachable!()
    }

    fn built(&self, _before: Cache, _after: Cache) -> bool {
        unreachable!()
    }

    fn build(self, builder: &mut Cache) -> Cons {
        Cons::new(Red::root(self.build_green(builder))).unwrap()
    }

    fn build_green(self, builder: &mut Cache) -> Green {
        builder.node("Cons", |builder| {
            vec![
                self.open.build_green(builder),
                self.car.build_green(builder),
                self.dot.build_green(builder),
                self.cdr.build_green(builder),
                self.close.build_green(builder),
            ]
        })
    }

    fn build_boxed_green(self: Box<Self>, builder: &mut Cache) -> Green {
        self.build_green(builder)
    }
}

impl IntoBuilder<Value> for ConsBuilder {
    fn into_builder(self) -> AliasBuilder<Self, Value> {
        AliasBuilder::new("Value", self)
    }
}

struct NilBuilder {
    open: TokenBuilder<LParen>,
    close: TokenBuilder<RParen>,
}

impl AstBuilder for NilBuilder {
    type T = Nil;

    fn tree(&self) -> Tree {
        unreachable!()
    }

    fn built(&self, _before: Cache, _after: Cache) -> bool {
        unreachable!()
    }

    fn build(self, builder: &mut Cache) -> Nil {
        Nil::new(Red::root(self.build_green(builder))).unwrap()
    }

    fn build_green(self, builder: &mut Cache) -> Green {
        builder.node("Nil", |builder| {
            vec![self.open.build_green(builder), self.close.build_green(builder)]
        })
    }

    fn build_boxed_green(self: Box<Self>, builder: &mut Cache) -> Green {
        self.build_green(builder)
    }
}

impl IntoBuilder<Value> for NilBuilder {
    fn into_builder(self) -> AliasBuilder<Self, Value> {
        AliasBuilder::new("Value", self)
    }
}

fn program() -> AliasBuilder<ListBuilder, Value> {
    ListBuilder {
        open: lparen(),
        values: vec![
            atom("bar").into_dyn(),
            atom("foo").with_pre("\n  ").into_dyn(),
            ConsBuilder {
                open: lparen().with_pre(" "),
                car: atom("car").into_builder(),
                dot: dot().with_pre(" "),
                cdr: atom("cdr").with_pre(" ").into_builder(),
                close: rparen(),
            }
            .into_dyn(),
            NilBuilder {
                open: lparen().with_pre(" "),
                close: rparen(),
            }
            .into_dyn(),
        ],
        close: rparen(),
    }
    .into_builder()
}

#[test]
fn built_list_prints_as_written() {
    let mut cache = Cache::default();
    let sexp: Value = program().build(&mut cache);
    assert_eq!(
        sexp.red().green().to_string(),
        "(bar\n  foo (car . cdr) ())"
    );
    assert!(sexp.red().is("Value"));
    assert!(sexp.red().is("List"));
    assert_eq!(sexp.red().offset(), 0);
    assert!(sexp.red().parent().is_none());
}

#[test]
fn built_green_is_admitted_again() {
    let mut cache = Cache::default();
    let green = program().build_green(&mut cache);
    assert!(Value::new(Red::root(green.clone())).is_some());
    assert!(List::new(Red::root(green.clone())).is_some());
    assert!(Atom::new(Red::root(green.clone())).is_none());
    let children = Red::root(green).children();
    assert_eq!(children.len(), 6);
    assert!(LParen::new(children[0].clone()).is_some());
    assert!(Atom::new(children[1].clone()).is_some());
    assert!(Value::new(children[1].clone()).is_some());
    assert!(Atom::new(children[2].clone()).is_some());
    assert!(Cons::new(children[3].clone()).is_some());
    assert!(Value::new(children[3].clone()).is_some());
    assert!(Nil::new(children[4].clone()).is_some());
    assert!(RParen::new(children[5].clone()).is_some());
    assert_eq!(children[3].range().start(), 10);
    assert_eq!(children[3].range().end(), 22);
}

#[test]
fn token_builder_makes_a_token() {
    let mut cache = Cache::default();
    let green = atom("x").with_pre(" ").with_post("\n").build_green(&mut cache);
    assert_eq!(green.name(), "atom");
    let token = green.as_token().unwrap();
    assert_eq!(token.prefix.as_str(), " ");
    assert_eq!(token.value.as_str(), "x");
    assert_eq!(token.postfix.as_str(), "\n");
    let plain = atom("y").build_token(&mut cache);
    assert_eq!(plain.to_string(), "y");
    let boxed = Box::new(atom("z").with_post(" ")).build_boxed_green(&mut cache);
    assert_eq!(boxed.to_string(), "z ");
    let named: TokenBuilder<Atom> = TokenBuilder::new("q");
    assert_eq!(named.build_token(&mut cache).name(), "token");
    let last_wins = atom("w").with_pre("a").with_pre("b").build_token(&mut cache);
    assert_eq!(last_wins.to_string(), "bw");
}

#[test]
fn token_builder_builds_its_wrapper() {
    let mut cache = Cache::default();
    let built: Atom = atom("x").with_pre(" ").build(&mut cache);
    assert_eq!(built.red().green().to_string(), " x");
    assert!(built.red().is("atom"));
}

#[test]
fn alias_builder_wraps_what_it_is_given() {
    let mut cache = Cache::default();
    let green = atom("x").into_builder().build_green(&mut cache);
    assert_eq!(green.name(), "Value");
    assert!(green.is_alias());
    assert!(green.is("atom"));
    assert_eq!(green.as_token().unwrap().value.as_str(), "x");
    let boxed = atom("y").into_dyn().build_boxed_green(&mut cache);
    assert!(boxed.is("Value"));
    assert_eq!(boxed.to_string(), "y");
    let value: Value = atom("z").into_builder().build(&mut cache);
    assert_eq!(value.red().green().to_string(), "z");
    let other: AliasBuilder<TokenBuilder<Atom>, Value> = AliasBuilder::new("Other", atom("o"));
    assert_eq!(other.build_green(&mut cache).name(), "Other");
}
