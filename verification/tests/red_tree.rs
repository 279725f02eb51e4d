use microtree::cache::Cache;
use microtree::green::Green;
use microtree::red::Red;

fn sample(cache: &mut Cache) -> Green {
    cache.node("Root", |cache| {
        vec![
            cache.with_trivia("number", "", "2", " "),
            cache.alias("Value", |cache| {
                Some(cache.node("Add", |cache| {
                    vec![
                        cache.with_trivia("op", "", "+", " "),
                        cache.token("number", "40"),
                    ]
                }))
            }),
            cache.token("end", ";"),
        ]
    })
}

#[test]
fn root_starts_at_zero_without_parent() {
    let mut cache = Cache::new();
    let red = Red::root(sample(&mut cache));
    assert_eq!(red.offset(), 0);
    assert!(red.parent().is_none());
    assert_eq!(red.range().start(), 0);
    assert_eq!(red.range().end(), 7);
    assert!(red.is("Root"));
    assert!(!red.is("Value"));
    assert_eq!(red.green().to_string(), "2 + 40;");
}

#[test]
fn children_follow_each_other() {
    let mut cache = Cache::new();
    let red = Red::root(sample(&mut cache));
    let kids = red.children();
    assert_eq!(kids.len(), 3);
    let starts: Vec<u32> = kids.iter().map(|k| k.range().start()).collect();
    let ends: Vec<u32> = kids.iter().map(|k| k.range().end()).collect();
    assert_eq!(starts, vec![0, 2, 6]);
    assert_eq!(ends, vec![2, 6, 7]);
    let mut sum = red.range().start();
    for kid in kids.iter() {
        assert_eq!(kid.range().start(), sum);
        sum += kid.green().size() as u32;
        assert!(kid.range().end() <= red.range().end());
        assert_eq!(kid.parent().unwrap().offset(), red.offset());
        assert!(kid.parent().unwrap().is("Root"));
    }
}

#[test]
fn alias_is_walked_through_but_keeps_its_name() {
    let mut cache = Cache::new();
    let red = Red::root(sample(&mut cache));
    let kids = red.children();
    let value = &kids[1];
    assert!(value.is("Value"));
    assert!(value.is("Add"));
    assert_eq!(value.green().name(), "Value");
    let inner = value.children();
    assert_eq!(inner.len(), 2);
    assert_eq!(inner[0].range().start(), 2);
    assert_eq!(inner[0].range().end(), 4);
    assert_eq!(inner[1].range().start(), 4);
    assert_eq!(inner[1].range().end(), 6);
    assert_eq!(inner[1].offset(), 4);
    assert!(inner[1].parent().unwrap().is("Value"));
    assert_eq!(inner[1].parent().unwrap().parent().unwrap().offset(), 0);
    assert_eq!(inner[1].children().len(), 0);
}

#[test]
fn copies_see_the_same_value() {
    let mut cache = Cache::new();
    let red = Red::root(sample(&mut cache));
    let copy = red.clone();
    assert_eq!(copy.offset(), red.offset());
    assert!(copy.green().same(&red.green()));
    assert_eq!(copy.children().len(), 3);
}
