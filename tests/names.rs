use hashfs::names::less_than;

#[test]
fn less_than_agrees_with_string_order() {
    let words = ["", "a", "ab", "b", "B", "abc", "z", "\u{e9}", "\u{1f600}", "a\u{e9}", "az"];
    for x in words.iter() {
        for y in words.iter() {
            let (x, y) = (x.to_string(), y.to_string());
            assert_eq!(less_than(&x, &y), x < y, "{:?} < {:?}", x, y);
        }
    }
}

#[test]
fn less_than_is_strict() {
    let s = "same".to_string();
    assert!(!less_than(&s, &s.clone()));
    assert!(less_than(&"pre".to_string(), &"prefix".to_string()));
    assert!(!less_than(&"prefix".to_string(), &"pre".to_string()));
}
