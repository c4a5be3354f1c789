//! Reading the lockfile that Yarn Berry writes.
//!
//! The lockfile is a YAML mapping. Its first entry is the header that Yarn
//! writes, `__metadata`; every other entry is a package, pinned by its
//! field `resolution`.

use vstd::prelude::*;
use crate::dependency::{text_view, DependencyView};
use crate::dependency_set::{with_identity, DependencySet};
use crate::error::{invalid_format, invalid_yaml, Error, ErrorView};
use crate::resolution::{normalize_single_resolution, resolve, MAX_PATCH_DEPTH};

verus! {

/// One entry of a lockfile.
#[derive(Debug, PartialEq, Eq)]
pub struct Entry {
    /// The text of the field `resolution`, where the entry is a mapping
    /// that holds this field as a string.
    pub resolution: Option<String>,
}

/// A YAML document, as far as a lockfile is read out of it.
#[derive(Debug, PartialEq, Eq)]
pub enum Document {
    /// A mapping, with its entries in the order of the text.
    Mapping { entries: Vec<Entry> },
    /// Any other document.
    Other,
}

/// The mathematical value of a [`Document`]: of each entry, the characters
/// of its resolution.
pub enum DocumentView {
    Mapping { entries: Seq<Option<Seq<char>>> },
    Other,
}

impl View for Entry {
    type V = Option<Seq<char>>;

    open spec fn view(&self) -> Option<Seq<char>> {
        text_view(self.resolution)
    }
}

impl View for Document {
    type V = DocumentView;

    open spec fn view(&self) -> DocumentView {
        match *self {
            Document::Mapping { entries } => DocumentView::Mapping {
                entries: entries@.map_values(|entry: Entry| entry@),
            },
            Document::Other => DocumentView::Other,
        }
    }
}

/// The document that `serde_yaml::from_str` reads out of `text`, where
/// `text` is YAML. Of each entry of a mapping it holds what
/// `Value::as_mapping`, `Mapping::get` with the key `field` and
/// `Value::as_str` find, one after the other.
pub uninterp spec fn yaml_document(text: Seq<char>, field: Seq<char>) -> Option<DocumentView>;

/// Calls `serde_yaml::from_str` on `text` for a `serde_yaml::Value`, and
/// reads the value with `Value::as_mapping`, `Mapping::iter`, `Mapping::get`
/// and `Value::as_str`. The contract claims only that the outcome is a
/// function of the two texts: the document that `yaml_document` names, or
/// `None` where it names none because `from_str` refused the text.
#[verifier::external_body]
fn read_yaml(text: &str, field: &str) -> (document: Option<Document>)
    ensures
        match document {
            Some(d) => yaml_document(text@, field@) == Some(d@),
            None => yaml_document(text@, field@) is None,
        },
{
    let value: serde_yaml::Value = serde_yaml::from_str(text).ok()?;
    Some(match value.as_mapping() {
        Some(mapping) => Document::Mapping {
            entries: mapping.iter().map(|(_, entry)| Entry {
                resolution: entry.as_mapping().and_then(|fields| fields.get(field)).and_then(
                    |found| found.as_str()).map(|text| text.to_owned()),
            }).collect(),
        },
        None => Document::Other,
    })
}

/// What reading one more entry makes of the outcome so far.
///
/// An error stays. An entry without a resolution, or with one that does not
/// follow the grammar, is an error. An entry whose resolution has no
/// identity is passed over. Any other entry adds its identity.
pub open spec fn read_entry(
    so_far: Result<Seq<DependencyView>, ErrorView>,
    entry: Option<Seq<char>>,
) -> Result<Seq<DependencyView>, ErrorView> {
    match so_far {
        Ok(list) => match entry {
            Some(resolution) => match resolve(resolution, MAX_PATCH_DEPTH as nat) {
                Ok(dependency) => Ok(with_identity(list, dependency)),
                Err(error) => if error is UnsupportedResolution {
                    Ok(list)
                } else {
                    Err(error)
                },
            },
            None => Err(invalid_format()),
        },
        Err(error) => Err(error),
    }
}

/// The outcome of reading `entries` from the first to the last.
pub open spec fn read_entries(entries: Seq<Option<Seq<char>>>) -> Result<
    Seq<DependencyView>,
    ErrorView,
>
    decreases entries.len(),
{
    if entries.len() == 0 {
        Ok(Seq::empty())
    } else {
        read_entry(read_entries(entries.drop_last()), entries.last())
    }
}

/// The identities that a document pins, in the order in which they first
/// come, or the error that ends the reading. The first entry of a mapping is
/// the header and is not read.
pub open spec fn collect(document: DocumentView) -> Result<Seq<DependencyView>, ErrorView> {
    match document {
        DocumentView::Mapping { entries } => {
            if entries.len() == 0 {
                Ok(Seq::empty())
            } else {
                read_entries(entries.subrange(1, entries.len() as int))
            }
        },
        DocumentView::Other => Err(invalid_format()),
    }
}

/// The mathematical value of the outcome of reading a lockfile.
pub open spec fn collected_view(outcome: Result<DependencySet, Error>) -> Result<
    Seq<DependencyView>,
    ErrorView,
> {
    match outcome {
        Ok(set) => Ok(set@),
        Err(error) => Err(error@),
    }
}

/// Once the reading has ended in an error, more entries do not change the
/// outcome.
pub proof fn lemma_error_ends_reading(entries: Seq<Option<Seq<char>>>, read: int)
    requires
        0 <= read <= entries.len(),
        read_entries(entries.take(read)) is Err,
    ensures
        read_entries(entries) == read_entries(entries.take(read)),
    decreases entries.len() - read,
{
    if read < entries.len() {
        assert(entries.take(read + 1).drop_last() =~= entries.take(read));
        lemma_error_ends_reading(entries, read + 1);
    } else {
        assert(entries.take(read) =~= entries);
    }
}

/// Reading keeps the list of identities free of duplicates.
pub proof fn lemma_read_entries_distinct(entries: Seq<Option<Seq<char>>>)
    ensures
        match read_entries(entries) {
            Ok(list) => list.no_duplicates(),
            Err(_) => true,
        },
    decreases entries.len(),
{
    if entries.len() > 0 {
        lemma_read_entries_distinct(entries.drop_last());
        match read_entries(entries.drop_last()) {
            Ok(list) => match entries.last() {
                Some(resolution) => match resolve(resolution, MAX_PATCH_DEPTH as nat) {
                    Ok(dependency) => {
                        crate::dependency_set::lemma_with_identity(list, dependency);
                    },
                    Err(_) => {},
                },
                None => {},
            },
            Err(_) => {},
        }
    }
}

/// A lockfile that holds its header and nothing else pins nothing.
pub proof fn lemma_header_alone_pins_nothing(header: Option<Seq<char>>)
    ensures
        collect(DocumentView::Mapping { entries: seq![header] }) == Ok::<
            Seq<DependencyView>,
            ErrorView,
        >(Seq::empty()),
{
    let entries = seq![header];
    assert(entries.subrange(1, 1) =~= Seq::empty());
}

/// An entry without a resolution makes the whole lockfile malformed, where
/// the entries before it were read without an error: no identity is given
/// then, whatever the other entries pin.
pub proof fn lemma_missing_resolution_is_fatal(entries: Seq<Option<Seq<char>>>, at: int)
    requires
        1 <= at < entries.len(),
        entries[at] is None,
        read_entries(entries.subrange(1, at)) is Ok,
    ensures
        collect(DocumentView::Mapping { entries }) == Err::<Seq<DependencyView>, ErrorView>(
            invalid_format(),
        ),
{
    let rest = entries.subrange(1, entries.len() as int);
    assert(rest.take(at).drop_last() =~= entries.subrange(1, at));
    assert(rest.take(at).last() == entries[at]);
    lemma_error_ends_reading(rest, at);
}

/// The entry behind the header is read first: where it has no resolution,
/// the lockfile is malformed.
pub proof fn lemma_second_entry_needs_resolution(entries: Seq<Option<Seq<char>>>)
    requires
        entries.len() >= 2,
        entries[1] is None,
    ensures
        collect(DocumentView::Mapping { entries }) == Err::<Seq<DependencyView>, ErrorView>(
            invalid_format(),
        ),
{
    assert(entries.subrange(1, 1) =~= Seq::empty());
    lemma_missing_resolution_is_fatal(entries, 1);
}

/// An entry whose resolution has no identity leaves the outcome as it was
/// before the entry.
pub proof fn lemma_unsupported_entry_is_passed_over(
    entries: Seq<Option<Seq<char>>>,
    resolution: Seq<char>,
)
    requires
        resolve(resolution, MAX_PATCH_DEPTH as nat) matches Err(error)
            && error is UnsupportedResolution,
    ensures
        read_entries(entries.push(Some(resolution))) == read_entries(entries),
{
    assert(entries.push(Some(resolution)).drop_last() =~= entries);
}

/// A lockfile whose only entry behind the header has no identity pins
/// nothing, and is read without an error.
pub proof fn lemma_unsupported_alone_pins_nothing(
    header: Option<Seq<char>>,
    resolution: Seq<char>,
)
    requires
        resolve(resolution, MAX_PATCH_DEPTH as nat) matches Err(error)
            && error is UnsupportedResolution,
    ensures
        collect(DocumentView::Mapping { entries: seq![header, Some(resolution)] }) == Ok::<
            Seq<DependencyView>,
            ErrorView,
        >(Seq::empty()),
{
    let entries = seq![header, Some(resolution)];
    let rest = entries.subrange(1, 2);
    assert(rest =~= Seq::<Option<Seq<char>>>::empty().push(Some(resolution)));
    lemma_unsupported_entry_is_passed_over(Seq::empty(), resolution);
}

/// Whether an entry pins `dependency`: it has a resolution that normalizes
/// to it.
pub open spec fn pins(entry: Option<Seq<char>>, dependency: DependencyView) -> bool {
    match entry {
        Some(resolution) => resolve(resolution, MAX_PATCH_DEPTH as nat) == Ok::<
            DependencyView,
            ErrorView,
        >(dependency),
        None => false,
    }
}

/// Entries that are read without an error give exactly the identities that
/// they pin.
pub proof fn lemma_read_entries_hold_what_is_pinned(
    entries: Seq<Option<Seq<char>>>,
    dependency: DependencyView,
)
    requires
        read_entries(entries) is Ok,
    ensures
        read_entries(entries)->Ok_0.contains(dependency) <==> exists|i: int|
            0 <= i < entries.len() && pins(#[trigger] entries[i], dependency),
    decreases entries.len(),
{
    if entries.len() == 0 {
        assert(!Seq::<DependencyView>::empty().contains(dependency));
    } else {
        let before = entries.drop_last();
        let last = entries.last();
        lemma_read_entries_hold_what_is_pinned(before, dependency);
        lemma_read_entries_distinct(before);
        let list = read_entries(before)->Ok_0;
        let after = read_entries(entries)->Ok_0;
        if exists|i: int| 0 <= i < before.len() && pins(#[trigger] before[i], dependency) {
            let i = choose|i: int| 0 <= i < before.len() && pins(#[trigger] before[i], dependency);
            assert(pins(entries[i], dependency));
        }
        match resolve(last->Some_0, MAX_PATCH_DEPTH as nat) {
            Ok(found) => {
                crate::dependency_set::lemma_with_identity(list, found);
                assert(after.to_set().contains(dependency) <==> list.to_set().insert(
                    found,
                ).contains(dependency));
                assert(pins(entries[entries.len() - 1], found));
            },
            Err(_) => {},
        }
        if exists|i: int| 0 <= i < entries.len() && pins(#[trigger] entries[i], dependency) {
            let i = choose|i: int|
                0 <= i < entries.len() && pins(#[trigger] entries[i], dependency);
            if i < before.len() {
                assert(pins(before[i], dependency));
            }
        }
    }
}

/// A lockfile that is read without an error pins exactly the identities of
/// the entries behind its header: an identity is in the outcome if and only
/// if the resolution of one of these entries normalizes to it.
pub proof fn lemma_collect_holds_what_is_pinned(
    entries: Seq<Option<Seq<char>>>,
    dependency: DependencyView,
)
    requires
        collect(DocumentView::Mapping { entries }) is Ok,
    ensures
        collect(DocumentView::Mapping { entries })->Ok_0.contains(dependency) <==> exists|i: int|
            1 <= i < entries.len() && pins(#[trigger] entries[i], dependency),
{
    if entries.len() > 0 {
        let rest = entries.subrange(1, entries.len() as int);
        lemma_read_entries_hold_what_is_pinned(rest, dependency);
        if exists|i: int| 0 <= i < rest.len() && pins(#[trigger] rest[i], dependency) {
            let i = choose|i: int| 0 <= i < rest.len() && pins(#[trigger] rest[i], dependency);
            assert(pins(entries[i + 1], dependency));
        }
        if exists|i: int| 1 <= i < entries.len() && pins(#[trigger] entries[i], dependency) {
            let i = choose|i: int|
                1 <= i < entries.len() && pins(#[trigger] entries[i], dependency);
            assert(pins(rest[i - 1], dependency));
        }
    } else {
        assert(!Seq::<DependencyView>::empty().contains(dependency));
    }
}

/// Collects the identities that a document pins.
pub fn normalize_yaml(document: &Document) -> (outcome: Result<DependencySet, Error>)
    ensures
        collected_view(outcome) == collect(document@),
        match outcome {
            Ok(set) => set.wf(),
            Err(error) => error@ is InvalidLockfileFormat,
        },
{
    let entries = match document {
        Document::Mapping { entries } => entries,
        Document::Other => return Err(Error::invalid_format()),
    };
    let mut deps = DependencySet::new();
    if entries.len() == 0 {
        return Ok(deps);
    }
    let ghost all = entries@.map_values(|entry: Entry| entry@);
    let ghost rest = all.subrange(1, all.len() as int);
    let mut i: usize = 1;
    while i < entries.len()
        invariant
            1 <= i <= entries.len(),
            all == entries@.map_values(|entry: Entry| entry@),
            rest == all.subrange(1, all.len() as int),
            collect(document@) == read_entries(rest),
            deps.wf(),
            read_entries(rest.take(i - 1)) == Ok::<Seq<DependencyView>, ErrorView>(deps@),
        decreases entries.len() - i,
    {
        proof {
            assert(rest.take(i as int).drop_last() =~= rest.take(i - 1));
            assert(rest.take(i as int).last() == entries@[i as int]@);
        }
        let resolution = match &entries[i].resolution {
            Some(resolution) => resolution,
            None => {
                proof {
                    lemma_error_ends_reading(rest, i as int);
                }
                return Err(Error::invalid_format());
            },
        };
        match normalize_single_resolution(resolution.as_str()) {
            Ok(dependency) => {
                deps.insert(dependency);
            },
            Err(error) => {
                if !error.is_unsupported() {
                    proof {
                        lemma_error_ends_reading(rest, i as int);
                    }
                    return Err(error);
                }
            },
        }
        i += 1;
    }
    proof {
        assert(rest.take(entries.len() - 1) =~= rest);
    }
    Ok(deps)
}

/// Reads the lockfile `value` and collects the identities that it pins.
pub fn normalize(value: &str) -> (outcome: Result<DependencySet, Error>)
    ensures
        collected_view(outcome) == match yaml_document(value@, "resolution"@) {
            Some(document) => collect(document),
            None => Err(invalid_yaml()),
        },
        match outcome {
            Ok(set) => set.wf(),
            Err(error) => error@ is InvalidLockfileFormat,
        },
{
    match read_yaml(value, "resolution") {
        Some(document) => normalize_yaml(&document),
        None => Err(Error::invalid_yaml()),
    }
}

} // verus!
