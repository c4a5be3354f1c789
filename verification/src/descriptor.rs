//! The grammar of a descriptor: a package name, an `@`, and a range or the
//! location of a git repository.

use vstd::prelude::*;
use vstd::std_specs::convert::TryFromSpecImpl;
use crate::bindings::Bindings;
use crate::error::{invalid_descriptor, Error};
use crate::range::{parsed_range, PackageRange, RangeText, RangeView};
use crate::text::{
    chars_of, find, find_from, find_in, has_prefix, lemma_find_from, lemma_find_from_is,
    lemma_occurs_at_char, lemma_starts_with_prefix, matches_at, occurs_at, slice, split_once,
    split_once_text, starts_with,
};

verus! {

/// A resolution, parsed.
#[derive(Debug, PartialEq, Eq)]
pub enum PackageDescriptor {
    /// A package that a protocol resolves.
    Regular { ident: String, range: PackageRange },
    /// A package taken from a git repository at a commit. The URL is that of
    /// a `git@` or an `https://github.com/` location; `ssh://` and `file://`
    /// locations have no descriptor.
    Git { ident: String, url: String, commit_hash: String },
}

/// The mathematical value of a [`PackageDescriptor`].
pub enum DescriptorView {
    Regular { ident: Seq<char>, range: RangeView },
    Git { ident: Seq<char>, url: Seq<char>, commit_hash: Seq<char> },
}

impl View for PackageDescriptor {
    type V = DescriptorView;

    open spec fn view(&self) -> DescriptorView {
        match *self {
            PackageDescriptor::Regular { ident, range } => DescriptorView::Regular {
                ident: ident@,
                range: range@,
            },
            PackageDescriptor::Git { ident, url, commit_hash } => DescriptorView::Git {
                ident: ident@,
                url: url@,
                commit_hash: commit_hash@,
            },
        }
    }
}

/// The index of the `@` that parts the package name from the range: the
/// first `@` of the descriptor, or the second where the descriptor begins
/// with one, as the name of a scoped package does.
pub open spec fn separator(d: Seq<char>) -> Option<int> {
    if starts_with(d, "@"@) {
        find_from(d, "@"@, 1)
    } else {
        find(d, "@"@)
    }
}

/// The package name and the range of the descriptor `d`.
pub open spec fn split_descriptor(d: Seq<char>) -> Option<(Seq<char>, Seq<char>)> {
    match separator(d) {
        Some(at) => Some((d.subrange(0, at), d.subrange(at + 1, d.len() as int))),
        None => None,
    }
}

/// The index at which the host of a git location ends: that of the first
/// `/` or `:` at or behind `from`, or the end of the text.
pub open spec fn host_end(r: Seq<char>, from: int) -> int
    decreases r.len() - from,
{
    if 0 <= from < r.len() && r[from] != '/' && r[from] != ':' {
        host_end(r, from + 1)
    } else {
        from
    }
}

/// A `git@` location in the syntax of `scp`: where a `/` parts the host from
/// the path, it becomes a `:`. A location whose host ends with a `:`, or
/// does not end, is left as it is.
pub open spec fn scp_form(r: Seq<char>) -> Seq<char> {
    let end = host_end(r, 0);
    if end < r.len() && r[end] == '/' {
        r.update(end, ':')
    } else {
        r
    }
}

/// The descriptor of the package `ident` taken from the git location
/// `location`: the URL stands before the first `#commit=`, the commit hash
/// behind it.
pub open spec fn git_descriptor(ident: Seq<char>, location: Seq<char>) -> Option<DescriptorView> {
    match split_once(location, "#commit="@) {
        Some((url, commit_hash)) => Some(DescriptorView::Git { ident, url, commit_hash }),
        None => None,
    }
}

/// The descriptor that the text `d` denotes, where it denotes one.
pub open spec fn parsed_descriptor(d: Seq<char>) -> Option<DescriptorView> {
    match split_descriptor(d) {
        Some((ident, range)) => {
            if starts_with(range, "git@"@) {
                git_descriptor(ident, scp_form(range))
            } else if starts_with(range, "https://github.com/"@) {
                git_descriptor(ident, range)
            } else {
                match parsed_range(range) {
                    Some(range) => Some(DescriptorView::Regular { ident, range }),
                    None => None,
                }
            }
        },
        None => None,
    }
}

/// Where the first `/` or `:` of a text stands at `end`, the host ends at
/// `end`.
pub proof fn lemma_host_end(r: Seq<char>, from: int, end: int)
    requires
        0 <= from <= end <= r.len(),
        forall|i: int| from <= i < end ==> r[i] != '/' && r[i] != ':',
        end < r.len() ==> r[end] == '/' || r[end] == ':',
    ensures
        host_end(r, from) == end,
    decreases end - from,
{
    if from < end {
        lemma_host_end(r, from + 1, end);
    }
}

/// A location is written in the syntax of `scp` with a `:` behind its host,
/// whether it had a `/` or a `:` there.
pub proof fn lemma_scp_form(host: Seq<char>, path: Seq<char>)
    requires
        forall|i: int| 0 <= i < host.len() ==> host[i] != '/' && host[i] != ':',
    ensures
        scp_form(host + "/"@ + path) == host + ":"@ + path,
        scp_form(host + ":"@ + path) == host + ":"@ + path,
{
    reveal_strlit("/");
    reveal_strlit(":");
    let slash = host + "/"@ + path;
    let colon = host + ":"@ + path;
    let end = host.len() as int;
    assert(slash[end] == '/');
    assert(colon[end] == ':');
    assert forall|i: int| 0 <= i < end implies slash[i] != '/' && slash[i] != ':' by {
        assert(slash[i] == host[i]);
    }
    assert forall|i: int| 0 <= i < end implies colon[i] != '/' && colon[i] != ':' by {
        assert(colon[i] == host[i]);
    }
    lemma_host_end(slash, 0, end);
    lemma_host_end(colon, 0, end);
    assert(slash.update(end, ':') =~= colon);
}

/// The `@` behind a package name parts the name from the range, where the
/// name is not empty and holds no `@` behind its first character.
pub proof fn lemma_split_descriptor(ident: Seq<char>, range: Seq<char>)
    requires
        ident.len() > 0,
        forall|i: int| 1 <= i < ident.len() ==> ident[i] != '@',
    ensures
        split_descriptor(ident + "@"@ + range) == Some((ident, range)),
{
    reveal_strlit("@");
    let d = ident + "@"@ + range;
    let at = ident.len() as int;
    assert(d[at] == '@');
    assert(d[0] == ident[0]);
    lemma_occurs_at_char(d, "@"@, 0);
    lemma_occurs_at_char(d, "@"@, at);
    let from: int = if starts_with(d, "@"@) {
        1
    } else {
        0
    };
    assert forall|j: int| from <= j < at implies !occurs_at(d, "@"@, j) by {
        lemma_occurs_at_char(d, "@"@, j);
        assert(d[j] == ident[j]);
    }
    lemma_find_from_is(d, "@"@, from, at);
    assert(d.subrange(0, at) =~= ident);
    assert(d.subrange(at + 1, d.len() as int) =~= range);
}

/// The two spellings of a `git@` location, with a `/` and with a `:` behind
/// the host, denote the same descriptor: that of the spelling with the `:`.
pub proof fn lemma_git_spellings_agree(ident: Seq<char>, host: Seq<char>, path: Seq<char>)
    requires
        ident.len() > 0,
        forall|i: int| 1 <= i < ident.len() ==> ident[i] != '@',
        starts_with(host, "git@"@),
        forall|i: int| 0 <= i < host.len() ==> host[i] != '/' && host[i] != ':',
    ensures
        parsed_descriptor(ident + "@"@ + (host + "/"@ + path)) == git_descriptor(
            ident,
            host + ":"@ + path,
        ),
        parsed_descriptor(ident + "@"@ + (host + ":"@ + path)) == git_descriptor(
            ident,
            host + ":"@ + path,
        ),
{
    let slash = host + "/"@ + path;
    let colon = host + ":"@ + path;
    lemma_split_descriptor(ident, slash);
    lemma_split_descriptor(ident, colon);
    lemma_scp_form(host, path);
    assert(slash =~= host + ("/"@ + path));
    assert(colon =~= host + (":"@ + path));
    lemma_starts_with_prefix(host, "/"@ + path, "git@"@);
    lemma_starts_with_prefix(host, ":"@ + path, "git@"@);
}

/// Writes a `git@` location in the syntax of `scp`.
pub fn to_scp_form(range: &str) -> (rewritten: String)
    ensures
        rewritten@ == scp_form(range@),
{
    let chars = chars_of(range);
    let mut end: usize = 0;
    while end < chars.len() && chars[end] != '/' && chars[end] != ':'
        invariant
            end <= chars.len(),
            host_end(chars@, 0) == host_end(chars@, end as int),
        decreases chars.len() - end,
    {
        end += 1;
    }
    if end < chars.len() && chars[end] == '/' {
        let host = slice(range, 0, end);
        let path = slice(range, end + 1, chars.len());
        let rewritten = String::from_str(host).concat(":").concat(path);
        proof {
            reveal_strlit(":");
            assert(":"@ =~= seq![':']);
            assert(rewritten@ =~= range@.update(end as int, ':'));
        }
        rewritten
    } else {
        String::from_str(range)
    }
}

/// Reads the URL and the commit hash out of a git location.
pub fn parse_git(ident: &str, location: &str) -> (descriptor: Option<PackageDescriptor>)
    ensures
        match descriptor {
            Some(d) => git_descriptor(ident@, location@) == Some(d@),
            None => git_descriptor(ident@, location@) is None,
        },
{
    match split_once_text(location, "#commit=") {
        Some((url, commit_hash)) => Some(
            PackageDescriptor::Git {
                ident: String::from_str(ident),
                url: String::from_str(url),
                commit_hash: String::from_str(commit_hash),
            },
        ),
        None => None,
    }
}

impl PackageDescriptor {
    /// Parts a descriptor into the package name and the range.
    pub fn split_range<'a>(descriptor: &'a str) -> (parts: Result<(&'a str, &'a str), Error>)
        ensures
            match parts {
                Ok((ident, range)) => split_descriptor(descriptor@) == Some((ident@, range@)),
                Err(error) => split_descriptor(descriptor@) is None && error@ == invalid_descriptor(
                    descriptor@,
                ),
            },
    {
        let chars = chars_of(descriptor);
        let at = chars_of("@");
        let from: usize = if matches_at(&chars, &at, 0) {
            1
        } else {
            0
        };
        match find_in(&chars, &at, from) {
            Some(index) => {
                proof {
                    reveal_strlit("@");
                    lemma_find_from(chars@, at@, from as int);
                    assert(occurs_at(chars@, at@, index as int));
                }
                let end: usize = chars.len();
                Ok((slice(descriptor, 0, index), slice(descriptor, index + 1, end)))
            },
            None => Err(Error::invalid_descriptor(descriptor)),
        }
    }

    /// Parses the range `range` of the descriptor `descriptor` by the
    /// grammar of ranges.
    pub fn parse_range(descriptor: &str, range: &str) -> (parsed: Result<PackageRange, Error>)
        ensures
            match parsed {
                Ok(r) => parsed_range(range@) == Some(r@),
                Err(error) => parsed_range(range@) is None && error@ == invalid_descriptor(
                    descriptor@,
                ),
            },
    {
        let parts = match RangeText::parse(range) {
            Some(parts) => parts,
            None => return Err(Error::invalid_descriptor(descriptor)),
        };
        let RangeText { protocol, selector, source, bindings } = parts;
        let bindings = match bindings {
            Some(text) => Some(Bindings::decode(text.as_str())),
            None => None,
        };
        Ok(PackageRange { protocol, selector, source, bindings })
    }
}

impl TryFrom<&str> for PackageDescriptor {
    type Error = Error;

    /// Parses a resolution.
    fn try_from(value: &str) -> (parsed: Result<Self, Error>)
        ensures
            match parsed {
                Ok(descriptor) => parsed_descriptor(value@) == Some(descriptor@),
                Err(error) => parsed_descriptor(value@) is None && error@ == invalid_descriptor(
                    value@,
                ),
            },
    {
        let (ident, range) = match Self::split_range(value) {
            Ok(parts) => parts,
            Err(error) => return Err(error),
        };
        if has_prefix(range, "git@") {
            let location = to_scp_form(range);
            match parse_git(ident, location.as_str()) {
                Some(descriptor) => Ok(descriptor),
                None => Err(Error::invalid_descriptor(value)),
            }
        } else if has_prefix(range, "https://github.com/") {
            match parse_git(ident, range) {
                Some(descriptor) => Ok(descriptor),
                None => Err(Error::invalid_descriptor(value)),
            }
        } else {
            match Self::parse_range(value, range) {
                Ok(range) => Ok(PackageDescriptor::Regular { ident: String::from_str(ident), range }),
                Err(error) => Err(error),
            }
        }
    }
}

/// What `try_from` returns is stated in its own contract, over the
/// characters of the text.
impl TryFromSpecImpl<&str> for PackageDescriptor {
    open spec fn obeys_try_from_spec() -> bool {
        false
    }

    open spec fn try_from_spec(value: &str) -> Result<Self, Error> {
        arbitrary()
    }
}

impl TryFrom<String> for PackageDescriptor {
    type Error = Error;

    /// Parses a resolution.
    fn try_from(value: String) -> (parsed: Result<Self, Error>)
        ensures
            match parsed {
                Ok(descriptor) => parsed_descriptor(value@) == Some(descriptor@),
                Err(error) => parsed_descriptor(value@) is None && error@ == invalid_descriptor(
                    value@,
                ),
            },
    {
        Self::try_from(value.as_str())
    }
}

/// What `try_from` returns is stated in its own contract, over the
/// characters of the text.
impl TryFromSpecImpl<String> for PackageDescriptor {
    open spec fn obeys_try_from_spec() -> bool {
        false
    }

    open spec fn try_from_spec(value: String) -> Result<Self, Error> {
        arbitrary()
    }
}

} // verus!
