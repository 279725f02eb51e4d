use microtree::cache::GreenBuilder;

#[test]
fn print() {
    let mut builder = GreenBuilder::default();
    let tree = builder.node("Root", |builder| {
        vec![
            builder.token("number", "2"),
            builder.token("op", "+"),
            builder.token("number", "2"),
        ]
    });

    let result = tree.to_string();

    assert_eq!("2+2", result);
}

#[test]
fn nested() {
    let mut builder = GreenBuilder::default();
    let tree = builder.node("Root", |builder| {
        vec![builder.node("Add", |builder| {
            vec![
                builder.token("number", "2"),
                builder.token("op", "+"),
                builder.token("number", "2"),
            ]
        })]
    });

    let result = tree.to_string();

    assert_eq!("2+2", result);
}

#[test]
fn builder() {
    let mut builder = GreenBuilder::default();
    builder.node("Root", |builder| {
        vec![
            builder.token("number", "2"),
            builder.token("op", "+"),
            builder.token("number", "2"),
        ]
    });

    assert_eq!(3, builder.size());
}

#[test]
fn print_trivia() {
    let mut builder = GreenBuilder::default();
    let tree = builder.node("Root", |builder| {
        vec![
            builder.with_trivia("number", "", "2", " "),
            builder.with_trivia("op", "", "+", " "),
            builder.token("number", "2"),
        ]
    });

    let result = tree.to_string();

    assert_eq!("2 + 2", result);
}
