use microtree::names::{side, NameSet, Side};

fn listed(set: &NameSet) -> Vec<&'static str> {
    (0..set.len()).map(|i| set.get(i)).collect()
}

#[test]
fn names_come_out_in_byte_order() {
    let mut set = NameSet::new();
    assert_eq!(set.len(), 0);
    set.insert("atom");
    set.insert("Value");
    set.insert("List");
    set.insert("token");
    assert_eq!(listed(&set), vec!["List", "Value", "atom", "token"]);
}

#[test]
fn a_name_is_held_once() {
    let mut set = NameSet::new();
    set.insert("Value");
    set.insert("atom");
    set.insert("Value");
    set.insert("atom");
    assert_eq!(set.len(), 2);
    assert_eq!(listed(&set), vec!["Value", "atom"]);
}

#[test]
fn order_does_not_depend_on_the_order_given() {
    let mut one = NameSet::new();
    let mut two = NameSet::new();
    for name in ["b", "a", "", "ab", "B", "\u{e9}"] {
        one.insert(name);
    }
    for name in ["\u{e9}", "B", "ab", "", "a", "b"] {
        two.insert(name);
    }
    assert_eq!(listed(&one), vec!["", "B", "a", "ab", "b", "\u{e9}"]);
    assert_eq!(listed(&one), listed(&two));
}

#[test]
fn side_is_the_order_of_the_bytes() {
    assert!(matches!(side("a", "b"), Side::Before));
    assert!(matches!(side("b", "a"), Side::After));
    assert!(matches!(side("a", "a"), Side::Same));
    assert!(matches!(side("", ""), Side::Same));
    assert!(matches!(side("", "a"), Side::Before));
    assert!(matches!(side("a", ""), Side::After));
    assert!(matches!(side("ab", "abc"), Side::Before));
    assert!(matches!(side("abd", "abc"), Side::After));
    assert!(matches!(side("Z", "a"), Side::Before));
    assert!(matches!(side("z", "\u{e9}"), Side::Before));
}
