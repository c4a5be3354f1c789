use fancy_regex::Regex;
use fossgraph::range::RangeText;

/// The grammar of ranges as a regular expression.
const GRAMMAR: &str = r"(?s)^(?<protocol>[^#:\s]+:)(?<selector>(?:(?!::)[^#\s])*)(?:#(?<source>(?:(?!::).)*))?(?:::(?<bindings>.*))?$";

fn by_regex(grammar: &Regex, range: &str) -> Option<RangeText> {
    let captures = grammar.captures(range).unwrap()?;
    Some(RangeText {
        protocol: captures.name("protocol").unwrap().as_str().to_owned(),
        selector: captures.name("selector").unwrap().as_str().to_owned(),
        source: captures.name("source").map(|found| found.as_str().to_owned()),
        bindings: captures.name("bindings").map(|found| found.as_str().to_owned()),
    })
}

fn compare_all(grammar: &Regex, alphabet: &[char], length: usize) -> usize {
    let mut compared = 0;
    let mut indices = vec![0; length];
    loop {
        let text: String = indices.iter().map(|&i| alphabet[i]).collect();
        assert_eq!(RangeText::parse(&text), by_regex(grammar, &text), "{:?}", text);
        compared += 1;
        let mut position = 0;
        while position < length && indices[position] + 1 == alphabet.len() {
            indices[position] = 0;
            position += 1;
        }
        if position == length {
            return compared;
        }
        indices[position] += 1;
    }
}

#[test]
fn grammar_agrees_with_its_regular_expression_on_short_texts() {
    let grammar = Regex::new(GRAMMAR).unwrap();
    let alphabet = ['a', ':', '#', ' ', '\n'];
    let mut compared = 0;
    for length in 0..=6 {
        compared += compare_all(&grammar, &alphabet, length);
    }
    assert_eq!(compared, 19531);
}

#[test]
fn grammar_agrees_with_its_regular_expression_on_colons() {
    let grammar = Regex::new(GRAMMAR).unwrap();
    let alphabet = ['p', ':', '#'];
    let mut compared = 0;
    for length in 0..=9 {
        compared += compare_all(&grammar, &alphabet, length);
    }
    assert_eq!(compared, 29524);
}

#[test]
fn grammar_agrees_with_its_regular_expression_on_resolutions() {
    let grammar = Regex::new(GRAMMAR).unwrap();
    for text in [
        "npm:4.17.21",
        "npm:6.4.0::__archiveUrl=https%3A%2F%2Fnpm.fontawesome.com%2Fa.tgz",
        "workspace:.",
        "patch:typescript@npm%3A5.0.4#~builtin<compat/typescript>::version=5.0.4&hash=b5f058",
        "patch:pkg@npm%3A1.0.0#./fix.patch::version=1.0.0&hash=abc&locator=root%40workspace%3A.",
        "link:../local::locator=root%40workspace%3A.",
        "portal:/abs/path::locator=app%40workspace%3Aapps%2Fapp",
        "npm:1.0.0\u{a0}",
        "n\u{2003}pm:1",
        "http://example.com/a.tgz",
        "npm:a::b::c#d",
        "npm:a#b#c::d#e",
    ] {
        assert_eq!(RangeText::parse(text), by_regex(&grammar, text), "{:?}", text);
    }
}
