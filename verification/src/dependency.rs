//! The identity of a pinned dependency, and its canonical form.

use vstd::prelude::*;
use vstd::std_specs::cmp::PartialEqSpecImpl;
use crate::text::{
    find, lemma_find_from, lemma_find_from_is, lemma_occurs_at_char, occurs_at, split_once,
    split_once_text, strip_prefix, strip_prefix_text, strip_suffix, strip_suffix_text,
};

verus! {

/// One pinned dependency, in the ecosystem that it comes from.
#[derive(Debug, Eq, Hash)]
pub enum Dependency {
    /// A git repository; `head` is a commit hash, a tag or a branch.
    Git { url: String, head: Option<String> },
    /// A repository hosted on GitHub.
    GitHub { owner: String, name: String, head: Option<String> },
    /// A package of the npm registry at an exact version.
    Npm { name: String, version: String },
    /// A pod at an exact version.
    CocoaPods { name: String, version: String },
    /// A Maven artifact at an exact version.
    Maven { group_id: String, artifact_id: String, version: String },
}

/// The mathematical value of a [`Dependency`]: its variant and the characters
/// of its fields.
pub enum DependencyView {
    Git { url: Seq<char>, head: Option<Seq<char>> },
    GitHub { owner: Seq<char>, name: Seq<char>, head: Option<Seq<char>> },
    Npm { name: Seq<char>, version: Seq<char> },
    CocoaPods { name: Seq<char>, version: Seq<char> },
    Maven { group_id: Seq<char>, artifact_id: Seq<char>, version: Seq<char> },
}

/// The characters of an optional text.
pub open spec fn text_view(text: Option<String>) -> Option<Seq<char>> {
    match text {
        Some(t) => Some(t@),
        None => None,
    }
}

impl View for Dependency {
    type V = DependencyView;

    open spec fn view(&self) -> DependencyView {
        match *self {
            Dependency::Git { url, head } => DependencyView::Git {
                url: url@,
                head: text_view(head),
            },
            Dependency::GitHub { owner, name, head } => DependencyView::GitHub {
                owner: owner@,
                name: name@,
                head: text_view(head),
            },
            Dependency::Npm { name, version } => DependencyView::Npm {
                name: name@,
                version: version@,
            },
            Dependency::CocoaPods { name, version } => DependencyView::CocoaPods {
                name: name@,
                version: version@,
            },
            Dependency::Maven { group_id, artifact_id, version } => DependencyView::Maven {
                group_id: group_id@,
                artifact_id: artifact_id@,
                version: version@,
            },
        }
    }
}

/// A copy of an optional text.
pub fn clone_text(text: &Option<String>) -> (copy: Option<String>)
    ensures
        text_view(copy) == text_view(*text),
{
    match text {
        Some(t) => Some(t.clone()),
        None => None,
    }
}

/// Whether two optional texts hold the same characters, or are both absent.
pub fn same_optional_text(a: &Option<String>, b: &Option<String>) -> (same: bool)
    ensures
        same == (text_view(*a) == text_view(*b)),
{
    match (a, b) {
        (Some(x), Some(y)) => *x == *y,
        (None, None) => true,
        _ => false,
    }
}

impl Clone for Dependency {
    fn clone(&self) -> (copy: Self)
        ensures
            copy@ == self@,
    {
        match self {
            Dependency::Git { url, head } => Dependency::Git {
                url: url.clone(),
                head: clone_text(head),
            },
            Dependency::GitHub { owner, name, head } => Dependency::GitHub {
                owner: owner.clone(),
                name: name.clone(),
                head: clone_text(head),
            },
            Dependency::Npm { name, version } => Dependency::Npm {
                name: name.clone(),
                version: version.clone(),
            },
            Dependency::CocoaPods { name, version } => Dependency::CocoaPods {
                name: name.clone(),
                version: version.clone(),
            },
            Dependency::Maven { group_id, artifact_id, version } => Dependency::Maven {
                group_id: group_id.clone(),
                artifact_id: artifact_id.clone(),
                version: version.clone(),
            },
        }
    }
}

impl PartialEq for Dependency {
    /// Two identities are equal when they are of the same variant and agree
    /// in every field.
    fn eq(&self, other: &Self) -> (same: bool) {
        match (self, other) {
            (Dependency::Git { url: a, head: h }, Dependency::Git { url: b, head: k }) => {
                *a == *b && same_optional_text(h, k)
            },
            (
                Dependency::GitHub { owner: a, name: n, head: h },
                Dependency::GitHub { owner: b, name: m, head: k },
            ) => *a == *b && *n == *m && same_optional_text(h, k),
            (Dependency::Npm { name: a, version: v }, Dependency::Npm { name: b, version: w }) => {
                *a == *b && *v == *w
            },
            (
                Dependency::CocoaPods { name: a, version: v },
                Dependency::CocoaPods { name: b, version: w },
            ) => *a == *b && *v == *w,
            (
                Dependency::Maven { group_id: a, artifact_id: n, version: v },
                Dependency::Maven { group_id: b, artifact_id: m, version: w },
            ) => *a == *b && *n == *m && *v == *w,
            _ => false,
        }
    }
}

impl PartialEqSpecImpl for Dependency {
    open spec fn obeys_eq_spec() -> bool {
        true
    }

    open spec fn eq_spec(&self, other: &Self) -> bool {
        self@ == other@
    }
}

/// The SSH shorthand of the GitHub repository `name` of `owner`:
/// `git@github.com:<owner>/<name>.git`.
pub open spec fn github_shorthand(owner: Seq<char>, name: Seq<char>) -> Seq<char> {
    "git@github.com:"@ + owner + "/"@ + name + ".git"@
}

/// The owner and the name of the repository that `url` names, where `url` is
/// the SSH shorthand of a GitHub repository: behind `git@github.com:` the
/// owner runs up to the first `/`, and the name is what stands between that
/// `/` and the `.git` that ends the URL.
pub open spec fn github_repository(url: Seq<char>) -> Option<(Seq<char>, Seq<char>)> {
    match strip_prefix(url, "git@github.com:"@) {
        Some(path) => match split_once(path, "/"@) {
            Some((owner, rest)) => match strip_suffix(rest, ".git"@) {
                Some(name) => Some((owner, name)),
                None => None,
            },
            None => None,
        },
        None => None,
    }
}

/// A URL names a GitHub repository only where it is the shorthand of that
/// repository, and the owner holds no `/`.
pub proof fn lemma_github_repository_is_shorthand(url: Seq<char>)
    requires
        github_repository(url) is Some,
    ensures
        url == github_shorthand(github_repository(url)->Some_0.0, github_repository(url)->Some_0.1),
        !github_repository(url)->Some_0.0.contains('/'),
{
    reveal_strlit("/");
    let prefix = "git@github.com:"@;
    let path = strip_prefix(url, prefix)->Some_0;
    let (owner, rest) = split_once(path, "/"@)->Some_0;
    let name = strip_suffix(rest, ".git"@)->Some_0;
    let at = find(path, "/"@)->Some_0;
    lemma_find_from(path, "/"@, 0);
    assert forall|j: int| 0 <= j < owner.len() implies owner[j] != '/' by {
        lemma_occurs_at_char(path, "/"@, j);
        assert(owner[j] == path[j]);
    }
    assert(path.subrange(at, at + 1) == "/"@);
    assert(path =~= owner + path.subrange(at, at + 1) + rest);
    assert(rest =~= name + rest.subrange(rest.len() - ".git"@.len(), rest.len() as int));
    assert(url =~= url.subrange(0, prefix.len() as int) + path);
    assert(url =~= prefix + owner + "/"@ + name + ".git"@);
}

/// The shorthand of a repository names that repository, where the owner
/// holds no `/`.
pub proof fn lemma_shorthand_names_repository(owner: Seq<char>, name: Seq<char>)
    requires
        !owner.contains('/'),
    ensures
        github_repository(github_shorthand(owner, name)) == Some((owner, name)),
{
    reveal_strlit("/");
    let prefix = "git@github.com:"@;
    let suffix = ".git"@;
    let url = github_shorthand(owner, name);
    let path = owner + "/"@ + name + suffix;
    let rest = name + suffix;
    let at = owner.len() as int;
    assert(url.subrange(0, prefix.len() as int) =~= prefix);
    assert(url.subrange(prefix.len() as int, url.len() as int) =~= path);
    assert(path[at] == '/');
    lemma_occurs_at_char(path, "/"@, at);
    assert forall|j: int| 0 <= j < at implies !occurs_at(path, "/"@, j) by {
        lemma_occurs_at_char(path, "/"@, j);
        assert(path[j] == owner[j]);
        assert(owner.contains(owner[j]));
    }
    lemma_find_from_is(path, "/"@, 0, at);
    assert(path.subrange(0, at) =~= owner);
    assert(path.subrange(at + 1, path.len() as int) =~= rest);
    assert(rest.subrange(rest.len() - suffix.len(), rest.len() as int) =~= suffix);
    assert(rest.subrange(0, rest.len() - suffix.len()) =~= name);
}

impl DependencyView {
    /// The canonical form of an identity: a git dependency whose URL is the
    /// SSH shorthand of a GitHub repository becomes the GitHub identity of
    /// that repository with the same head; every other identity is canonical
    /// already.
    pub open spec fn canonical(self) -> DependencyView {
        match self {
            DependencyView::Git { url, head } => match github_repository(url) {
                Some((owner, name)) => DependencyView::GitHub { owner, name, head },
                None => self,
            },
            _ => self,
        }
    }
}

/// Reads the owner and the name out of the SSH shorthand of a GitHub
/// repository.
pub fn parse_github_repository(url: &str) -> (parts: Option<(String, String)>)
    ensures
        match parts {
            Some((owner, name)) => github_repository(url@) == Some((owner@, name@)),
            None => github_repository(url@) is None,
        },
{
    let path = match strip_prefix_text(url, "git@github.com:") {
        Some(path) => path,
        None => return None,
    };
    let (owner, rest) = match split_once_text(path, "/") {
        Some(parts) => parts,
        None => return None,
    };
    match strip_suffix_text(rest, ".git") {
        Some(name) => Some((owner.to_owned(), name.to_owned())),
        None => None,
    }
}

impl Dependency {
    /// Reduces the identity to its canonical form.
    pub fn canonicalize(&self) -> (canonical: Self)
        ensures
            canonical@ == self@.canonical(),
            !(self@ is Git) ==> canonical@ == self@,
    {
        match self {
            Dependency::Git { url, head } => match parse_github_repository(url.as_str()) {
                Some((owner, name)) => Dependency::GitHub { owner, name, head: clone_text(head) },
                None => self.clone(),
            },
            _ => self.clone(),
        }
    }
}

/// Canonicalizing twice gives what canonicalizing once gives.
pub proof fn lemma_canonical_idempotent(d: DependencyView)
    ensures
        d.canonical().canonical() == d.canonical(),
{
}

/// The git dependency at the shorthand of a GitHub repository becomes the
/// GitHub identity of that repository, with the same head.
pub proof fn lemma_canonical_of_shorthand(
    owner: Seq<char>,
    name: Seq<char>,
    head: Option<Seq<char>>,
)
    requires
        !owner.contains('/'),
    ensures
        (DependencyView::Git { url: github_shorthand(owner, name), head }).canonical() == (
        DependencyView::GitHub { owner, name, head }),
{
    lemma_shorthand_names_repository(owner, name);
}

/// A git dependency whose URL is the shorthand of no GitHub repository is
/// its own canonical form.
pub proof fn lemma_canonical_keeps_other_urls(url: Seq<char>, head: Option<Seq<char>>)
    requires
        forall|owner: Seq<char>, name: Seq<char>|
            !owner.contains('/') ==> url != #[trigger] github_shorthand(owner, name),
    ensures
        (DependencyView::Git { url, head }).canonical() == (DependencyView::Git { url, head }),
{
    if github_repository(url) is Some {
        lemma_github_repository_is_shorthand(url);
    }
}

/// A git dependency whose URL does not begin with the SSH shorthand of
/// GitHub is its own canonical form.
pub proof fn lemma_canonical_keeps_other_hosts(url: Seq<char>, head: Option<Seq<char>>)
    requires
        !crate::text::starts_with(url, "git@github.com:"@),
    ensures
        (DependencyView::Git { url, head }).canonical() == (DependencyView::Git { url, head }),
{
}

/// The canonical form of a git dependency is a GitHub identity or the
/// dependency itself, and the head is the same in both cases.
pub proof fn lemma_canonical_keeps_head(url: Seq<char>, head: Option<Seq<char>>)
    ensures
        match (DependencyView::Git { url, head }).canonical() {
            DependencyView::GitHub { head: h, .. } => h == head,
            other => other == (DependencyView::Git { url, head }),
        },
{
}

} // verus!
