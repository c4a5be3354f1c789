//! From a resolution to the identity of the dependency that it pins.

use vstd::prelude::*;
use crate::bindings::has_key;
use crate::dependency::{Dependency, DependencyView};
use crate::descriptor::{
    lemma_git_spellings_agree, lemma_split_descriptor, parsed_descriptor, DescriptorView,
    PackageDescriptor,
};
use crate::error::{invalid_descriptor, invalid_format, unsupported, Error, ErrorView};
use crate::range::{
    double_colon_at, is_space, lemma_spelled_range_has_its_parts, spelled, RangeParts, RangeView,
};
use crate::text::{
    lemma_find_from, lemma_occurs_at_char, occurs_at, same_text, split_once, starts_with,
};

verus! {

/// How many `patch:` layers may wrap a resolution.
pub const MAX_PATCH_DEPTH: usize = 16;

/// The text that `percent_encoding::percent_decode_str` followed by
/// `PercentDecode::decode_utf8` makes of `text`, where the decoded bytes are
/// UTF-8.
pub uninterp spec fn percent_decoded(text: Seq<char>) -> Option<Seq<char>>;

/// The error with which `PercentDecode::decode_utf8` refuses bytes that are
/// not UTF-8.
#[verifier::external_type_specification]
#[verifier::external_body]
pub struct ExUtf8Error(core::str::Utf8Error);

/// Calls `percent_encoding::percent_decode_str` on `text` and
/// `PercentDecode::decode_utf8` on what it returns. The contract claims that
/// the outcome is a function of the text, `Ok` with the text that
/// `percent_decoded` names or `Err` where it names none, and that a text
/// without a `%` comes back as it is: the decoder then borrows the bytes of
/// the text, which are UTF-8.
#[verifier::external_body]
fn percent_decode(text: &str) -> (decoded: Result<String, core::str::Utf8Error>)
    ensures
        match decoded {
            Ok(plain) => percent_decoded(text@) == Some(plain@),
            Err(_) => percent_decoded(text@) is None,
        },
        !text@.contains('%') ==> decoded is Ok && decoded->Ok_0@ == text@,
{
    match percent_encoding::percent_decode_str(text).decode_utf8() {
        Ok(plain) => Ok(plain.into_owned()),
        Err(error) => Err(error),
    }
}

/// Takes the percent-encoding off the payload of a `patch:` resolution. A
/// payload that does not decode to UTF-8 makes the lockfile malformed.
pub fn decode_payload(payload: &str) -> (decoded: Result<String, Error>)
    ensures
        match decoded {
            Ok(inner) => percent_decoded(payload@) == Some(inner@),
            Err(error) => percent_decoded(payload@) is None && error@ == invalid_format(),
        },
        !payload@.contains('%') ==> decoded is Ok && decoded->Ok_0@ == payload@,
{
    match percent_decode(payload) {
        Ok(inner) => Ok(inner),
        Err(_) => Err(Error::invalid_format()),
    }
}

/// The mathematical value of the outcome of a normalization.
pub open spec fn outcome_view(outcome: Result<Dependency, Error>) -> Result<
    DependencyView,
    ErrorView,
> {
    match outcome {
        Ok(dependency) => Ok(dependency@),
        Err(error) => Err(error@),
    }
}

/// Whether bindings send a package to a registry of its own: they bind
/// `__archiveUrl`.
pub open spec fn names_archive(bindings: Option<Seq<(Seq<char>, Seq<char>)>>) -> bool {
    match bindings {
        Some(list) => has_key(list, "__archiveUrl"@),
        None => false,
    }
}

/// The identity that the resolution `resolution` pins, or the error that it
/// ends in, where at most `depth` layers of `patch:` may be taken off.
pub open spec fn resolve(resolution: Seq<char>, depth: nat) -> Result<DependencyView, ErrorView>
    decreases depth, 1nat,
{
    match parsed_descriptor(resolution) {
        Some(descriptor) => resolve_descriptor(descriptor, resolution, depth),
        None => Err(invalid_descriptor(resolution)),
    }
}

/// The identity that the descriptor `descriptor`, parsed from `resolution`,
/// pins.
///
/// A git descriptor pins its URL at its commit. Under `npm:` a package is
/// pinned at its selector, unless its bindings name an archive. Under
/// `patch:` the protocol field itself is taken for the resolution inside,
/// and the selector is not read; percent-decoding leaves the field as it
/// is, for it holds no `%`. No other protocol has an identity.
pub open spec fn resolve_descriptor(
    descriptor: DescriptorView,
    resolution: Seq<char>,
    depth: nat,
) -> Result<DependencyView, ErrorView>
    decreases depth, 0nat,
{
    match descriptor {
        DescriptorView::Git { url, commit_hash, .. } => Ok(
            DependencyView::Git { url, head: Some(commit_hash) },
        ),
        DescriptorView::Regular { ident, range } => {
            if range.protocol == "npm:"@ {
                if names_archive(range.bindings) {
                    Err(unsupported(resolution))
                } else {
                    Ok(DependencyView::Npm { name: ident, version: range.selector })
                }
            } else if range.protocol == "patch:"@ {
                if depth == 0 {
                    Err(invalid_descriptor(resolution))
                } else {
                    resolve(range.protocol, (depth - 1) as nat)
                }
            } else {
                Err(unsupported(resolution))
            }
        },
    }
}

/// The two spellings of a `git@` location, with a `/` and with a `:` behind
/// the host, normalize alike: to the git dependency whose URL is spelled
/// with the `:`, at the commit behind `#commit=`; or, where the location
/// names no commit, both are malformed.
pub proof fn lemma_git_spellings_normalize_alike(
    ident: Seq<char>,
    host: Seq<char>,
    path: Seq<char>,
    depth: nat,
)
    requires
        ident.len() > 0,
        forall|i: int| 1 <= i < ident.len() ==> ident[i] != '@',
        starts_with(host, "git@"@),
        forall|i: int| 0 <= i < host.len() ==> host[i] != '/' && host[i] != ':',
    ensures
        match split_once(host + ":"@ + path, "#commit="@) {
            Some((url, commit)) => {
                &&& resolve(ident + "@"@ + (host + "/"@ + path), depth) == Ok::<
                    DependencyView,
                    ErrorView,
                >(DependencyView::Git { url, head: Some(commit) })
                &&& resolve(ident + "@"@ + (host + ":"@ + path), depth) == Ok::<
                    DependencyView,
                    ErrorView,
                >(DependencyView::Git { url, head: Some(commit) })
            },
            None => {
                &&& resolve(ident + "@"@ + (host + "/"@ + path), depth) is Err
                &&& resolve(ident + "@"@ + (host + ":"@ + path), depth) is Err
            },
        },
{
    lemma_git_spellings_agree(ident, host, path);
}

/// An `npm:` package whose bindings name an archive has no identity,
/// whatever its name and version.
pub proof fn lemma_archive_is_unsupported(
    ident: Seq<char>,
    range: RangeView,
    resolution: Seq<char>,
    depth: nat,
)
    requires
        range.protocol == "npm:"@,
        names_archive(range.bindings),
    ensures
        resolve_descriptor(DescriptorView::Regular { ident, range }, resolution, depth) == Err::<
            DependencyView,
            ErrorView,
        >(unsupported(resolution)),
{
}

/// A package under a protocol other than `npm:` and `patch:` has no
/// identity.
pub proof fn lemma_other_protocol_is_unsupported(
    ident: Seq<char>,
    range: RangeView,
    resolution: Seq<char>,
    depth: nat,
)
    requires
        range.protocol != "npm:"@,
        range.protocol != "patch:"@,
    ensures
        resolve_descriptor(DescriptorView::Regular { ident, range }, resolution, depth) == Err::<
            DependencyView,
            ErrorView,
        >(unsupported(resolution)),
{
}

/// A package under `patch:` never has an identity: the protocol field,
/// taken for the resolution inside, follows no grammar. Where no layer may
/// be taken off, the error names the resolution itself.
pub proof fn lemma_patch_is_malformed(
    ident: Seq<char>,
    range: RangeView,
    resolution: Seq<char>,
    depth: nat,
)
    requires
        range.protocol == "patch:"@,
    ensures
        resolve_descriptor(DescriptorView::Regular { ident, range }, resolution, depth) == Err::<
            DependencyView,
            ErrorView,
        >(
            invalid_descriptor(
                if depth == 0 {
                    resolution
                } else {
                    "patch:"@
                },
            ),
        ),
{
    reveal_strlit("patch:");
    reveal_strlit("npm:");
    reveal_strlit("@");
    let inner = "patch:"@;
    assert(inner.len() != "npm:"@.len());
    assert forall|j: int| !occurs_at(inner, "@"@, j) by {
        lemma_occurs_at_char(inner, "@"@, j);
    }
    lemma_find_from(inner, "@"@, 0);
    lemma_find_from(inner, "@"@, 1);
    assert(parsed_descriptor(inner) is None);
}

/// A resolution that does not follow the grammar of descriptors is
/// malformed; it is never merely unsupported.
pub proof fn lemma_grammar_failure_is_malformed(resolution: Seq<char>, depth: nat)
    requires
        parsed_descriptor(resolution) is None,
    ensures
        resolve(resolution, depth) == Err::<DependencyView, ErrorView>(
            invalid_descriptor(resolution),
        ),
{
}

/// A package name, an `@`, `npm:` and a version normalize to the npm package
/// of that name at that version, where the name is not empty and holds no
/// `@` behind its first character, and the version holds neither white
/// space nor `#` nor `::`.
pub proof fn lemma_npm_resolution(name: Seq<char>, version: Seq<char>, depth: nat)
    requires
        name.len() > 0,
        forall|i: int| 1 <= i < name.len() ==> name[i] != '@',
        forall|i: int| 0 <= i < version.len() ==> version[i] != '#' && !is_space(version[i]),
        forall|i: int| !double_colon_at(version, i),
    ensures
        resolve(name + "@"@ + ("npm:"@ + version), depth) == Ok::<DependencyView, ErrorView>(
            DependencyView::Npm { name, version },
        ),
{
    reveal_strlit("npm:");
    reveal_strlit("git@");
    reveal_strlit("https://github.com/");
    let range = "npm:"@ + version;
    let parts = RangeParts {
        protocol: "npm:"@,
        selector: version,
        source: None,
        bindings: None,
    };
    lemma_split_descriptor(name, range);
    assert(!starts_with(range, "git@"@)) by {
        if starts_with(range, "git@"@) {
            assert(range.subrange(0, 4)[0] == 'n');
        }
    }
    assert(!starts_with(range, "https://github.com/"@)) by {
        if starts_with(range, "https://github.com/"@) {
            assert(range.subrange(0, 19)[0] == 'n');
        }
    }
    assert(spelled(parts) =~= range);
    lemma_spelled_range_has_its_parts(parts);
}

/// Normalizes the resolution `resolution`, taking off at most `depth` layers
/// of `patch:`.
pub fn normalize_nested(resolution: &str, depth: usize) -> (outcome: Result<Dependency, Error>)
    ensures
        outcome_view(outcome) == resolve(resolution@, depth as nat),
    decreases depth, 1nat,
{
    match PackageDescriptor::try_from(resolution) {
        Ok(descriptor) => normalize_descriptor(descriptor, resolution, depth),
        Err(error) => Err(error),
    }
}

/// Gives the identity that a parsed resolution pins.
pub fn normalize_descriptor(descriptor: PackageDescriptor, resolution: &str, depth: usize) -> (outcome:
    Result<Dependency, Error>)
    ensures
        outcome_view(outcome) == resolve_descriptor(descriptor@, resolution@, depth as nat),
    decreases depth, 0nat,
{
    match descriptor {
        PackageDescriptor::Git { url, commit_hash, .. } => Ok(
            Dependency::Git { url, head: Some(commit_hash) },
        ),
        PackageDescriptor::Regular { ident, range } => {
            if same_text(range.protocol.as_str(), "npm:") {
                let private = match &range.bindings {
                    Some(bindings) => bindings.contains_key("__archiveUrl"),
                    None => false,
                };
                if private {
                    Err(Error::unsupported(resolution))
                } else {
                    Ok(Dependency::Npm { name: ident, version: range.selector })
                }
            } else if same_text(range.protocol.as_str(), "patch:") {
                proof {
                    reveal_strlit("patch:");
                    assert(!range.protocol@.contains('%'));
                }
                match decode_payload(range.protocol.as_str()) {
                    Ok(inner) => {
                        if depth == 0 {
                            Err(Error::invalid_descriptor(resolution))
                        } else {
                            normalize_nested(inner.as_str(), depth - 1)
                        }
                    },
                    Err(error) => Err(error),
                }
            } else {
                Err(Error::unsupported(resolution))
            }
        },
    }
}

/// Normalizes one resolution of a lockfile.
pub fn normalize_single_resolution(resolution: &str) -> (outcome: Result<Dependency, Error>)
    ensures
        outcome_view(outcome) == resolve(resolution@, MAX_PATCH_DEPTH as nat),
{
    normalize_nested(resolution, MAX_PATCH_DEPTH)
}

} // verus!
