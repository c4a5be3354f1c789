use fossgraph::bindings::Bindings;
use fossgraph::descriptor::PackageDescriptor;
use fossgraph::error::Error;
use fossgraph::range::{
    check_double_colon, check_space, scan_protocol, scan_selector, scan_source, PackageRange,
    RangeText,
};

fn parts(
    protocol: &str,
    selector: &str,
    source: Option<&str>,
    bindings: Option<&str>,
) -> Option<RangeText> {
    Some(RangeText {
        protocol: protocol.to_owned(),
        selector: selector.to_owned(),
        source: source.map(|s| s.to_owned()),
        bindings: bindings.map(|s| s.to_owned()),
    })
}

#[test]
fn range_with_protocol_and_selector() {
    assert_eq!(RangeText::parse("npm:4.17.21"), parts("npm:", "4.17.21", None, None));
    assert_eq!(RangeText::parse("npm:"), parts("npm:", "", None, None));
    assert_eq!(RangeText::parse("workspace:."), parts("workspace:", ".", None, None));
}

#[test]
fn range_with_source() {
    assert_eq!(
        RangeText::parse("patch:pkg@npm%3A1.0.0#./fix.patch"),
        parts("patch:", "pkg@npm%3A1.0.0", Some("./fix.patch"), None),
    );
    assert_eq!(RangeText::parse("npm:1.0.0#"), parts("npm:", "1.0.0", Some(""), None));
    assert_eq!(RangeText::parse("npm:1.0.0#a b#c"), parts("npm:", "1.0.0", Some("a b#c"), None));
}

#[test]
fn range_with_bindings() {
    assert_eq!(RangeText::parse("npm:1.0.0::a=b&c=d"), parts("npm:", "1.0.0", None, Some("a=b&c=d")));
    assert_eq!(RangeText::parse("npm:1.0.0::"), parts("npm:", "1.0.0", None, Some("")));
    assert_eq!(RangeText::parse("npm:::x"), parts("npm:", "", None, Some("x")));
}

#[test]
fn range_with_source_and_bindings() {
    assert_eq!(
        RangeText::parse("patch:a#b::c=d::e"),
        parts("patch:", "a", Some("b"), Some("c=d::e")),
    );
    assert_eq!(RangeText::parse("p:#::"), parts("p:", "", Some(""), Some("")));
}

#[test]
fn single_colons_belong_to_selector_and_source() {
    assert_eq!(RangeText::parse("npm:a:b"), parts("npm:", "a:b", None, None));
    assert_eq!(RangeText::parse("npm:a:"), parts("npm:", "a:", None, None));
    assert_eq!(RangeText::parse("npm:a#s:t::k"), parts("npm:", "a", Some("s:t"), Some("k")));
}

#[test]
fn bindings_begin_at_the_first_double_colon() {
    assert_eq!(RangeText::parse("npm:a:::b"), parts("npm:", "a", None, Some(":b")));
    assert_eq!(RangeText::parse("npm:a#s:::b"), parts("npm:", "a", Some("s"), Some(":b")));
}

#[test]
fn range_needs_a_protocol() {
    assert_eq!(RangeText::parse(""), None);
    assert_eq!(RangeText::parse("npm"), None);
    assert_eq!(RangeText::parse(":1.0.0"), None);
    assert_eq!(RangeText::parse("#a:b"), None);
    assert_eq!(RangeText::parse("a#b:c"), None);
    assert_eq!(RangeText::parse("np m:1"), None);
    assert_eq!(RangeText::parse(" npm:1"), None);
}

#[test]
fn selector_holds_no_white_space() {
    assert_eq!(RangeText::parse("npm:1 0"), None);
    assert_eq!(RangeText::parse("npm:1.0\n"), None);
    assert_eq!(RangeText::parse("npm:1.0\t::a=b"), None);
    assert_eq!(RangeText::parse("npm:1.0\u{3000}"), None);
}

#[test]
fn white_space_is_the_unicode_property() {
    for c in [
        '\t', '\n', '\u{b}', '\u{c}', '\r', ' ', '\u{85}', '\u{a0}', '\u{1680}', '\u{2000}',
        '\u{2005}', '\u{200a}', '\u{2028}', '\u{2029}', '\u{202f}', '\u{205f}', '\u{3000}',
    ] {
        assert!(check_space(c), "{:?}", c);
        assert!(c.is_whitespace());
    }
    for c in ['a', '0', ':', '#', '\u{8}', '\u{e}', '\u{200b}', '\u{feff}', '\u{1f}', '\u{2060}'] {
        assert!(!check_space(c), "{:?}", c);
        assert!(!c.is_whitespace());
    }
}

#[test]
fn white_space_agrees_with_std_on_every_character() {
    let mut code: u32 = 0;
    while code <= 0x10ffff {
        if let Some(c) = char::from_u32(code) {
            assert_eq!(check_space(c), c.is_whitespace(), "{:x}", code);
        }
        code += 1;
    }
}

#[test]
fn scanners_stop_where_the_run_ends() {
    let chars: Vec<char> = "npm:1.0#src::k=v".chars().collect();
    assert_eq!(scan_protocol(&chars, 0), 3);
    assert_eq!(scan_protocol(&chars, 3), 3);
    assert_eq!(scan_selector(&chars, 4), 7);
    assert_eq!(scan_source(&chars, 8), 11);
    assert_eq!(scan_source(&chars, 13), 16);
    assert_eq!(scan_selector(&chars, 16), 16);
    assert!(check_double_colon(&chars, 11));
    assert!(!check_double_colon(&chars, 12));
    assert!(!check_double_colon(&chars, 3));
    assert!(!check_double_colon(&chars, 15));
    assert!(!check_double_colon(&chars, 16));
    assert!(!check_double_colon(&chars, 40));
}

#[test]
fn parse_range_decodes_the_bindings() {
    assert_eq!(
        PackageDescriptor::parse_range("d", "npm:1.0.0#src::a=1&b=2"),
        Ok(PackageRange {
            protocol: "npm:".into(),
            selector: "1.0.0".into(),
            source: Some("src".into()),
            bindings: Some(Bindings::from_pairs(vec![
                ("a".to_owned(), "1".to_owned()),
                ("b".to_owned(), "2".to_owned()),
            ])),
        }),
    );
    assert_eq!(
        PackageDescriptor::parse_range("d", "npm:1.0.0"),
        Ok(PackageRange {
            protocol: "npm:".into(),
            selector: "1.0.0".into(),
            source: None,
            bindings: None,
        }),
    );
}

#[test]
fn parse_range_names_the_descriptor_in_its_error() {
    assert_eq!(
        PackageDescriptor::parse_range("pkg@1.0.0", "1.0.0"),
        Err(Error::InvalidLockfileFormat {
            message: "Some resolution has unsupported descriptor: pkg@1.0.0".into(),
        }),
    );
}

#[test]
fn archive_binding_is_decoded() {
    let parsed = PackageDescriptor::try_from(
        "pkg@npm:1.0.0::__archiveUrl=https%3A%2F%2Fexample.com%2Fa.tgz",
    );
    match parsed {
        Ok(PackageDescriptor::Regular { ident, range }) => {
            assert_eq!(ident, "pkg");
            let bindings = range.bindings.unwrap();
            assert_eq!(bindings.len(), 1);
            assert_eq!(
                bindings.get("__archiveUrl"),
                Some(&"https://example.com/a.tgz".to_owned()),
            );
            assert_eq!(
                bindings.to_pairs(),
                vec![("__archiveUrl".to_owned(), "https://example.com/a.tgz".to_owned())],
            );
        },
        other => panic!("{:?}", other),
    }
}

#[test]
fn bindings_are_the_whole_rest_of_the_range() {
    assert_eq!(
        PackageDescriptor::parse_range("pkg@npm:1.0.0::a=1#b", "npm:1.0.0::a=1#b"),
        Ok(PackageRange {
            protocol: "npm:".into(),
            selector: "1.0.0".into(),
            source: None,
            bindings: Some(Bindings::from_pairs(vec![("a".to_owned(), "1#b".to_owned())])),
        }),
    );
    assert_eq!(
        PackageDescriptor::parse_range("d", "npm:1#s::a= x \n::#"),
        Ok(PackageRange {
            protocol: "npm:".into(),
            selector: "1".into(),
            source: Some("s".into()),
            bindings: Some(Bindings::from_pairs(vec![("a".to_owned(), " x \n::#".to_owned())])),
        }),
    );
}
