//! The grammar of a range: what stands behind the package name in a
//! resolution.
//!
//! A range reads `<protocol>:<selector>(#<source>)?(::<bindings>)?`. The
//! protocol keeps its colon; the bindings are a query string.

use vstd::prelude::*;
use crate::bindings::{decoded_bindings, Bindings};
use crate::dependency::text_view;
use crate::text::{chars_of, slice};

verus! {

/// Whether `c` is white space: a character with the Unicode property
/// `White_Space`.
pub open spec fn is_space(c: char) -> bool {
    let code = c as u32;
    ||| 0x09 <= code <= 0x0d
    ||| code == 0x20
    ||| code == 0x85
    ||| code == 0xa0
    ||| code == 0x1680
    ||| 0x2000 <= code <= 0x200a
    ||| code == 0x2028
    ||| code == 0x2029
    ||| code == 0x202f
    ||| code == 0x205f
    ||| code == 0x3000
}

/// Whether `c` may stand in a protocol, before its colon.
pub open spec fn is_protocol_char(c: char) -> bool {
    c != '#' && c != ':' && !is_space(c)
}

/// Whether the two characters `::` stand in `s` at index `i`.
pub open spec fn double_colon_at(s: Seq<char>, i: int) -> bool {
    0 <= i && i + 1 < s.len() && s[i] == ':' && s[i + 1] == ':'
}

/// Whether the character of `s` at index `i` may belong to a selector: it is
/// neither white space nor `#`, and no `::` begins with it.
pub open spec fn is_selector_char_at(s: Seq<char>, i: int) -> bool {
    0 <= i < s.len() && s[i] != '#' && !is_space(s[i]) && !double_colon_at(s, i)
}

/// Whether the character of `s` at index `i` may belong to a source: no `::`
/// begins with it.
pub open spec fn is_source_char_at(s: Seq<char>, i: int) -> bool {
    0 <= i < s.len() && !double_colon_at(s, i)
}

/// The index at which the run of protocol characters that begins at `from`
/// ends.
pub open spec fn protocol_end(s: Seq<char>, from: int) -> int
    decreases s.len() - from,
{
    if 0 <= from < s.len() && is_protocol_char(s[from]) {
        protocol_end(s, from + 1)
    } else {
        from
    }
}

/// The index at which the selector that begins at `from` ends.
pub open spec fn selector_end(s: Seq<char>, from: int) -> int
    decreases s.len() - from,
{
    if is_selector_char_at(s, from) {
        selector_end(s, from + 1)
    } else {
        from
    }
}

/// The index at which the source that begins at `from` ends.
pub open spec fn source_end(s: Seq<char>, from: int) -> int
    decreases s.len() - from,
{
    if is_source_char_at(s, from) {
        source_end(s, from + 1)
    } else {
        from
    }
}

/// The four parts of a range as they stand in its text, the bindings not yet
/// decoded.
pub struct RangeParts {
    pub protocol: Seq<char>,
    pub selector: Seq<char>,
    pub source: Option<Seq<char>>,
    pub bindings: Option<Seq<char>>,
}

/// The parts of the range `r`, where `r` follows the grammar.
///
/// The protocol is one or more protocol characters and the colon behind
/// them. The selector runs on up to the first `#`, white space or `::`. A
/// source follows a `#` and runs on up to the first `::`. Bindings follow a
/// `::` and are the rest of the text.
pub open spec fn range_parts(r: Seq<char>) -> Option<RangeParts> {
    let colon = protocol_end(r, 0);
    let stop = selector_end(r, colon + 1);
    let end = r.len() as int;
    if colon == 0 || colon >= end || r[colon] != ':' {
        None
    } else if stop == end {
        Some(
            RangeParts {
                protocol: r.subrange(0, colon + 1),
                selector: r.subrange(colon + 1, stop),
                source: None,
                bindings: None,
            },
        )
    } else if r[stop] == '#' {
        let cut = source_end(r, stop + 1);
        Some(
            RangeParts {
                protocol: r.subrange(0, colon + 1),
                selector: r.subrange(colon + 1, stop),
                source: Some(r.subrange(stop + 1, cut)),
                bindings: if cut == end {
                    None
                } else {
                    Some(r.subrange(cut + 2, end))
                },
            },
        )
    } else if double_colon_at(r, stop) {
        Some(
            RangeParts {
                protocol: r.subrange(0, colon + 1),
                selector: r.subrange(colon + 1, stop),
                source: None,
                bindings: Some(r.subrange(stop + 2, end)),
            },
        )
    } else {
        None
    }
}

/// Where a run that begins at `from` ends: the three ends lie between `from`
/// and the end of the text.
pub proof fn lemma_ends_in_bounds(s: Seq<char>, from: int)
    requires
        0 <= from <= s.len(),
    ensures
        from <= protocol_end(s, from) <= s.len(),
        from <= selector_end(s, from) <= s.len(),
        from <= source_end(s, from) <= s.len(),
    decreases s.len() - from,
{
    if from < s.len() {
        lemma_ends_in_bounds(s, from + 1);
    }
}

/// Every character of a run is of the run's kind, and the character at
/// which the run ends is not.
pub proof fn lemma_runs(s: Seq<char>, from: int)
    requires
        0 <= from <= s.len(),
    ensures
        forall|i: int| from <= i < protocol_end(s, from) ==> is_protocol_char(#[trigger] s[i]),
        protocol_end(s, from) < s.len() ==> !is_protocol_char(s[protocol_end(s, from)]),
        forall|i: int| from <= i < selector_end(s, from) ==> #[trigger] is_selector_char_at(s, i),
        !is_selector_char_at(s, selector_end(s, from)),
        forall|i: int| from <= i < source_end(s, from) ==> #[trigger] is_source_char_at(s, i),
        !is_source_char_at(s, source_end(s, from)),
    decreases s.len() - from,
{
    lemma_ends_in_bounds(s, from);
    if from < s.len() {
        lemma_runs(s, from + 1);
    }
}

/// The text that parts spell: the protocol, the selector, the source behind
/// a `#` and the bindings behind a `::`.
pub open spec fn spelled(parts: RangeParts) -> Seq<char> {
    parts.protocol + parts.selector + match parts.source {
        Some(source) => "#"@ + source,
        None => Seq::empty(),
    } + match parts.bindings {
        Some(bindings) => "::"@ + bindings,
        None => Seq::empty(),
    }
}

/// Whether parts are such as the grammar allows.
///
/// The protocol is one or more protocol characters and a colon. The selector
/// holds neither white space nor `#` nor `::`, and the source holds no `::`.
pub open spec fn well_formed(parts: RangeParts) -> bool {
    &&& parts.protocol.len() >= 2
    &&& parts.protocol.last() == ':'
    &&& forall|i: int|
        0 <= i < parts.protocol.len() - 1 ==> is_protocol_char(#[trigger] parts.protocol[i])
    &&& forall|i: int|
        0 <= i < parts.selector.len() ==> {
            &&& (#[trigger] parts.selector[i]) != '#'
            &&& !is_space(parts.selector[i])
        }
    &&& forall|i: int| !double_colon_at(parts.selector, i)
    &&& match parts.source {
        Some(source) => forall|i: int| !double_colon_at(source, i),
        None => true,
    }
}

/// The parts of a range are such as the grammar allows, and spell the range:
/// nothing of the text is lost, and nothing is added.
pub proof fn lemma_range_parts_spell_range(r: Seq<char>)
    requires
        range_parts(r) is Some,
    ensures
        well_formed(range_parts(r)->Some_0),
        spelled(range_parts(r)->Some_0) == r,
{
    reveal_strlit("#");
    reveal_strlit("::");
    let parts = range_parts(r)->Some_0;
    let colon = protocol_end(r, 0);
    let stop = selector_end(r, colon + 1);
    let end = r.len() as int;
    lemma_ends_in_bounds(r, 0);
    lemma_ends_in_bounds(r, colon + 1);
    lemma_runs(r, 0);
    lemma_runs(r, colon + 1);
    assert forall|i: int| 0 <= i < parts.protocol.len() - 1 implies is_protocol_char(
        #[trigger] parts.protocol[i],
    ) by {
        assert(parts.protocol[i] == r[i]);
    }
    assert forall|i: int| 0 <= i < parts.selector.len() implies {
        &&& (#[trigger] parts.selector[i]) != '#'
        &&& !is_space(parts.selector[i])
    } by {
        assert(is_selector_char_at(r, colon + 1 + i));
    }
    assert forall|i: int| !double_colon_at(parts.selector, i) by {
        if double_colon_at(parts.selector, i) {
            assert(is_selector_char_at(r, colon + 1 + i));
            assert(parts.selector[i] == r[colon + 1 + i]);
            assert(parts.selector[i + 1] == r[colon + 1 + i + 1]);
        }
    }
    if stop == end {
        assert(spelled(parts) =~= r);
    } else if r[stop] == '#' {
        let cut = source_end(r, stop + 1);
        lemma_ends_in_bounds(r, stop + 1);
        lemma_runs(r, stop + 1);
        let source = parts.source->Some_0;
        assert forall|i: int| !double_colon_at(source, i) by {
            if double_colon_at(source, i) {
                assert(is_source_char_at(r, stop + 1 + i));
                assert(source[i] == r[stop + 1 + i]);
                assert(source[i + 1] == r[stop + 1 + i + 1]);
            }
        }
        assert("#"@ =~= seq!['#']);
        assert("::"@ =~= seq![':', ':']);
        assert(spelled(parts) =~= r);
    } else {
        assert("::"@ =~= seq![':', ':']);
        assert(spelled(parts) =~= r);
    }
}

/// A run ends at the first index whose character is not of its kind.
pub proof fn lemma_run_ends_at(s: Seq<char>, from: int, end: int)
    requires
        0 <= from <= end <= s.len(),
    ensures
        (forall|i: int| from <= i < end ==> is_protocol_char(#[trigger] s[i])) && (end < s.len()
            ==> !is_protocol_char(s[end])) ==> protocol_end(s, from) == end,
        (forall|i: int| from <= i < end ==> #[trigger] is_selector_char_at(s, i))
            && !is_selector_char_at(s, end) ==> selector_end(s, from) == end,
        (forall|i: int| from <= i < end ==> #[trigger] is_source_char_at(s, i))
            && !is_source_char_at(s, end) ==> source_end(s, from) == end,
    decreases end - from,
{
    if from < end {
        lemma_run_ends_at(s, from + 1, end);
    }
}

/// Whether the bindings of parts begin where the parts say: the text before
/// their `::` does not end with a `:` of its own.
pub open spec fn tight(parts: RangeParts) -> bool {
    parts.bindings is Some ==> {
        let before = match parts.source {
            Some(source) => source,
            None => parts.selector,
        };
        before.len() == 0 || before.last() != ':'
    }
}

/// The text that parts spell has these parts and no others, where the parts
/// are such as the grammar allows and their bindings begin where they say.
pub proof fn lemma_spelled_range_has_its_parts(parts: RangeParts)
    requires
        well_formed(parts),
        tight(parts),
    ensures
        range_parts(spelled(parts)) == Some(parts),
{
    reveal_strlit("#");
    reveal_strlit("::");
    assert("#"@ =~= seq!['#']);
    assert("::"@ =~= seq![':', ':']);
    let r = spelled(parts);
    let end = r.len() as int;
    let colon = parts.protocol.len() - 1;
    let stop = colon + 1 + parts.selector.len();
    assert forall|i: int| 0 <= i < colon implies is_protocol_char(#[trigger] r[i]) by {
        assert(r[i] == parts.protocol[i]);
    }
    assert(r[colon] == parts.protocol[colon]);
    lemma_run_ends_at(r, 0, colon);
    assert(protocol_end(r, 0) == colon);
    assert forall|i: int| colon + 1 <= i < stop implies #[trigger] is_selector_char_at(r, i) by {
        let k = i - (colon + 1);
        assert(r[i] == parts.selector[k]);
        if double_colon_at(r, i) {
            if i + 1 < stop {
                assert(r[i + 1] == parts.selector[k + 1]);
                assert(double_colon_at(parts.selector, k));
            } else {
                assert(parts.selector.last() == ':');
                if parts.source is Some {
                    assert(r[i + 1] == '#');
                }
            }
        }
    }
    if stop < end {
        if parts.source is Some {
            assert(r[stop] == '#');
        } else {
            assert(r[stop] == ':' && r[stop + 1] == ':');
        }
    }
    lemma_run_ends_at(r, colon + 1, stop);
    assert(selector_end(r, colon + 1) == stop);
    assert(r.subrange(0, colon + 1) =~= parts.protocol);
    assert(r.subrange(colon + 1, stop) =~= parts.selector);
    match parts.source {
        Some(source) => {
            let cut = stop + 1 + source.len();
            assert forall|i: int| stop + 1 <= i < cut implies #[trigger] is_source_char_at(r, i) by {
                let k = i - (stop + 1);
                assert(r[i] == source[k]);
                if double_colon_at(r, i) {
                    if i + 1 < cut {
                        assert(r[i + 1] == source[k + 1]);
                        assert(double_colon_at(source, k));
                    } else {
                        assert(source.last() == ':');
                    }
                }
            }
            if cut < end {
                assert(r[cut] == ':' && r[cut + 1] == ':');
            }
            lemma_run_ends_at(r, stop + 1, cut);
            assert(source_end(r, stop + 1) == cut);
            assert(r.subrange(stop + 1, cut) =~= source);
            match parts.bindings {
                Some(bindings) => {
                    assert(r.subrange(cut + 2, end) =~= bindings);
                },
                None => {},
            }
        },
        None => {
            match parts.bindings {
                Some(bindings) => {
                    assert(r.subrange(stop + 2, end) =~= bindings);
                },
                None => {},
            }
        },
    }
}

/// Whether `c` is white space.
pub fn check_space(c: char) -> (space: bool)
    ensures
        space == is_space(c),
{
    let code: u32 = c as u32;
    (0x09 <= code && code <= 0x0d) || code == 0x20 || code == 0x85 || code == 0xa0 || code
        == 0x1680 || (0x2000 <= code && code <= 0x200a) || code == 0x2028 || code == 0x2029
        || code == 0x202f || code == 0x205f || code == 0x3000
}

/// Whether `::` stands in `chars` at index `at`.
pub fn check_double_colon(chars: &Vec<char>, at: usize) -> (found: bool)
    ensures
        found == double_colon_at(chars@, at as int),
{
    at < chars.len() && chars.len() - at > 1 && chars[at] == ':' && chars[at + 1] == ':'
}

/// Scans the run of protocol characters that begins at `from`.
pub fn scan_protocol(chars: &Vec<char>, from: usize) -> (end: usize)
    ensures
        end == protocol_end(chars@, from as int),
        from <= end,
        from <= chars.len() ==> end <= chars.len(),
{
    let mut i: usize = from;
    while i < chars.len() && chars[i] != '#' && chars[i] != ':' && !check_space(chars[i])
        invariant
            from <= i,
            from <= chars.len() ==> i <= chars.len(),
            protocol_end(chars@, from as int) == protocol_end(chars@, i as int),
        decreases chars.len() - i,
    {
        i += 1;
    }
    i
}

/// Scans the selector that begins at `from`.
pub fn scan_selector(chars: &Vec<char>, from: usize) -> (end: usize)
    ensures
        end == selector_end(chars@, from as int),
        from <= end,
        from <= chars.len() ==> end <= chars.len(),
{
    let mut i: usize = from;
    while i < chars.len() && chars[i] != '#' && !check_space(chars[i]) && !check_double_colon(
        chars,
        i,
    )
        invariant
            from <= i,
            from <= chars.len() ==> i <= chars.len(),
            selector_end(chars@, from as int) == selector_end(chars@, i as int),
        decreases chars.len() - i,
    {
        i += 1;
    }
    i
}

/// Scans the source that begins at `from`.
pub fn scan_source(chars: &Vec<char>, from: usize) -> (end: usize)
    ensures
        end == source_end(chars@, from as int),
        from <= end,
        from <= chars.len() ==> end <= chars.len(),
        end < chars.len() ==> double_colon_at(chars@, end as int),
{
    let mut i: usize = from;
    while i < chars.len() && !check_double_colon(chars, i)
        invariant
            from <= i,
            from <= chars.len() ==> i <= chars.len(),
            source_end(chars@, from as int) == source_end(chars@, i as int),
        decreases chars.len() - i,
    {
        i += 1;
    }
    i
}

/// The four parts of a range as they stand in its text.
#[derive(Debug, PartialEq, Eq)]
pub struct RangeText {
    /// The protocol with its colon.
    pub protocol: String,
    pub selector: String,
    pub source: Option<String>,
    /// The bindings as a query string.
    pub bindings: Option<String>,
}

impl View for RangeText {
    type V = RangeParts;

    open spec fn view(&self) -> RangeParts {
        RangeParts {
            protocol: self.protocol@,
            selector: self.selector@,
            source: text_view(self.source),
            bindings: text_view(self.bindings),
        }
    }
}

impl RangeText {
    /// Parts a range by the grammar, or finds that it does not follow it.
    pub fn parse(range: &str) -> (parts: Option<Self>)
        ensures
            match parts {
                Some(p) => range_parts(range@) == Some(p@),
                None => range_parts(range@) is None,
            },
    {
        let chars = chars_of(range);
        let end: usize = chars.len();
        let colon: usize = scan_protocol(&chars, 0);
        if colon == 0 || colon >= end || chars[colon] != ':' {
            return None;
        }
        let stop: usize = scan_selector(&chars, colon + 1);
        let protocol = slice(range, 0, colon + 1).to_owned();
        let selector = slice(range, colon + 1, stop).to_owned();
        if stop == end {
            Some(RangeText { protocol, selector, source: None, bindings: None })
        } else if chars[stop] == '#' {
            let cut: usize = scan_source(&chars, stop + 1);
            let source = Some(slice(range, stop + 1, cut).to_owned());
            let bindings = if cut == end {
                None
            } else {
                Some(slice(range, cut + 2, end).to_owned())
            };
            Some(RangeText { protocol, selector, source, bindings })
        } else if check_double_colon(&chars, stop) {
            let bindings = Some(slice(range, stop + 2, end).to_owned());
            Some(RangeText { protocol, selector, source: None, bindings })
        } else {
            None
        }
    }
}

/// A range: how a package is resolved, and to what.
#[derive(Debug, PartialEq, Eq)]
pub struct PackageRange {
    /// The protocol; it always ends with `:`, as in `npm:`.
    pub protocol: String,
    /// What the protocol resolves: for `npm:`, the exact version.
    pub selector: String,
    pub source: Option<String>,
    pub bindings: Option<Bindings>,
}

/// The mathematical value of a [`PackageRange`].
pub struct RangeView {
    pub protocol: Seq<char>,
    pub selector: Seq<char>,
    pub source: Option<Seq<char>>,
    pub bindings: Option<Seq<(Seq<char>, Seq<char>)>>,
}

impl View for PackageRange {
    type V = RangeView;

    open spec fn view(&self) -> RangeView {
        RangeView {
            protocol: self.protocol@,
            selector: self.selector@,
            source: text_view(self.source),
            bindings: match self.bindings {
                Some(b) => Some(b@),
                None => None,
            },
        }
    }
}

/// The range that the text `r` denotes: its parts, with the bindings
/// decoded. There is none where `r` does not follow the grammar.
pub open spec fn parsed_range(r: Seq<char>) -> Option<RangeView> {
    match range_parts(r) {
        Some(parts) => Some(
            RangeView {
                protocol: parts.protocol,
                selector: parts.selector,
                source: parts.source,
                bindings: match parts.bindings {
                    Some(text) => Some(decoded_bindings(text)),
                    None => None,
                },
            },
        ),
        None => None,
    }
}

} // verus!
