use solar_monitoring_import::order::{insert_unique, sort_texts, text_lt};

#[test]
fn lexicographic_order() {
    assert!(text_lt("a", "b"));
    assert!(text_lt("a", "ab"));
    assert!(!text_lt("ab", "a"));
    assert!(!text_lt("a", "a"));
    assert!(text_lt("Z", "a"));
    assert!(text_lt("z", "案"));
    assert!(text_lt("", "a"));
}

#[test]
fn sort_keeps_repeats() {
    let v: Vec<String> = vec!["b".into(), "a".into(), "c".into(), "a".into()];
    assert_eq!(sort_texts(v), vec!["a", "a", "b", "c"]);
    assert_eq!(sort_texts(vec![]), Vec::<String>::new());
}

#[test]
fn insert_unique_keeps_a_set() {
    let mut s: Vec<String> = vec![];
    insert_unique(&mut s, "m".into());
    insert_unique(&mut s, "a".into());
    insert_unique(&mut s, "z".into());
    insert_unique(&mut s, "m".into());
    assert_eq!(s, vec!["a", "m", "z"]);
}
