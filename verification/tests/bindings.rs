use fossgraph::bindings::Bindings;

fn pair(key: &str, value: &str) -> (String, String) {
    (key.to_owned(), value.to_owned())
}

#[test]
fn query_string_is_split_and_decoded() {
    let bindings = Bindings::decode("a=1&b=two%20words&c=x%3Dy");
    assert_eq!(bindings.to_pairs(), vec![pair("a", "1"), pair("b", "two words"), pair("c", "x=y")]);
    assert_eq!(bindings.len(), 3);
}

#[test]
fn keys_are_decoded_too() {
    let bindings = Bindings::decode("%5F%5FarchiveUrl=u");
    assert!(bindings.contains_key("__archiveUrl"));
    assert!(!bindings.contains_key("%5F%5FarchiveUrl"));
}

#[test]
fn decoding_happens_once() {
    let bindings = Bindings::decode("k=%2541");
    assert_eq!(bindings.get("k"), Some(&"%41".to_owned()));
}

#[test]
fn plus_is_a_space_and_a_key_may_stand_alone() {
    let bindings = Bindings::decode("a+b=c+d&flag&=v&&e=");
    assert_eq!(
        bindings.to_pairs(),
        vec![pair("a b", "c d"), pair("flag", ""), pair("", "v"), pair("e", "")],
    );
}

#[test]
fn value_runs_to_the_next_ampersand() {
    let bindings = Bindings::decode("a=b=c&d=e");
    assert_eq!(bindings.to_pairs(), vec![pair("a", "b=c"), pair("d", "e")]);
}

#[test]
fn empty_query_binds_nothing() {
    let bindings = Bindings::decode("");
    assert_eq!(bindings.len(), 0);
    assert_eq!(bindings.to_pairs(), vec![]);
    assert!(!bindings.contains_key(""));
    assert_eq!(bindings.get("a"), None);
}

#[test]
fn last_value_of_a_key_wins() {
    let bindings = Bindings::decode("a=1&b=2&a=3");
    assert_eq!(bindings.to_pairs(), vec![pair("a", "3"), pair("b", "2")]);
    assert_eq!(bindings.get("a"), Some(&"3".to_owned()));
    assert_eq!(bindings.len(), 2);
}

#[test]
fn from_pairs_collapses_repeated_keys() {
    let bindings = Bindings::from_pairs(vec![
        pair("x", "1"),
        pair("y", "2"),
        pair("x", "3"),
        pair("z", "4"),
        pair("y", "5"),
    ]);
    assert_eq!(bindings.to_pairs(), vec![pair("x", "3"), pair("y", "5"), pair("z", "4")]);
    assert_eq!(bindings, Bindings::from_pairs(vec![pair("x", "3"), pair("y", "5"), pair("z", "4")]));
    assert_ne!(bindings, Bindings::from_pairs(vec![pair("x", "1"), pair("y", "2"), pair("z", "4")]));
    assert!(bindings.contains_key("z"));
    assert!(!bindings.contains_key("w"));
    assert_eq!(bindings.get("y"), Some(&"5".to_owned()));
    assert_eq!(bindings.get("w"), None);
}

#[test]
fn equality_does_not_depend_on_the_order() {
    assert_eq!(Bindings::decode("a=1&b=2"), Bindings::decode("b=2&a=1"));
    assert_eq!(Bindings::decode("a=1&b=2&a=3"), Bindings::decode("b=2&a=3"));
    assert_ne!(Bindings::decode("a=1&b=2"), Bindings::decode("a=1"));
    assert_ne!(Bindings::decode("a=1"), Bindings::decode("a=1&b=2"));
    assert_ne!(Bindings::decode("a=1&b=2"), Bindings::decode("a=1&b=3"));
    assert_ne!(Bindings::decode("a=1&b=2"), Bindings::decode("a=1&c=2"));
    assert_eq!(Bindings::decode(""), Bindings::from_pairs(vec![]));
}

#[test]
fn whole_text_is_read() {
    assert_eq!(Bindings::decode("a=1#b").to_pairs(), vec![pair("a", "1#b")]);
    assert_eq!(Bindings::decode("#a=1&b=2#").to_pairs(), vec![pair("#a", "1"), pair("b", "2#")]);
    assert_eq!(Bindings::decode("a=1\tb&c=\nd\r").to_pairs(), vec![pair("a", "1\tb"), pair("c", "\nd\r")]);
    assert_eq!(Bindings::decode("a=b ").to_pairs(), vec![pair("a", "b ")]);
    assert_eq!(Bindings::decode(" a=b").to_pairs(), vec![pair(" a", "b")]);
    assert_eq!(Bindings::decode("a=\u{1}").to_pairs(), vec![pair("a", "\u{1}")]);
    assert_eq!(Bindings::decode("k=\u{e9}\u{1f600}'\"<>").to_pairs(), vec![pair("k", "\u{e9}\u{1f600}'\"<>")]);
    assert_eq!(Bindings::decode("a=%23%09%0A").to_pairs(), vec![pair("a", "#\t\n")]);
}

#[test]
fn percent_sign_without_two_digits_stays() {
    assert_eq!(Bindings::decode("a=100%&b=%zz&c=%4").to_pairs(), vec![pair("a", "100%"), pair("b", "%zz"), pair("c", "%4")]);
}
