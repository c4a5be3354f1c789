//! Packages of the npm registry.

use vstd::prelude::*;
use crate::dependency::{Dependency, DependencyView};
use crate::text::{split_once, split_once_text};

verus! {

/// A package of the npm registry at an exact version.
#[derive(Debug, PartialEq, Eq)]
pub struct NpmPackage {
    /// The name, with its scope where it has one: `@scope/name`.
    pub name: String,
    pub version: String,
}

/// The URL under which the registry serves the archive of a package. The
/// file is named after the package without its scope.
pub open spec fn archive_url(name: Seq<char>, version: Seq<char>) -> Seq<char> {
    match split_once(name, "/"@) {
        Some((scope, base)) => "https://registry.npmjs.org/"@ + scope + "/"@ + base + "/-/"@ + base
            + "-"@ + version + ".tgz"@,
        None => "https://registry.npmjs.org/"@ + name + "/-/"@ + name + "-"@ + version + ".tgz"@,
    }
}

/// The package that an identity names, where it names one of the npm
/// registry.
pub open spec fn npm_package(dependency: DependencyView) -> Option<(Seq<char>, Seq<char>)> {
    match dependency {
        DependencyView::Npm { name, version } => Some((name, version)),
        _ => None,
    }
}

impl NpmPackage {
    /// The package that `dependency` names. Only an identity of the npm
    /// registry names one.
    pub fn for_dependency(dependency: &Dependency) -> (package: Option<Self>)
        ensures
            match package {
                Some(p) => npm_package(dependency@) == Some((p.name@, p.version@)),
                None => npm_package(dependency@) is None,
            },
    {
        match dependency {
            Dependency::Npm { name, version } => Some(
                NpmPackage { name: name.clone(), version: version.clone() },
            ),
            _ => None,
        }
    }

    /// The URL of the package's archive, as text.
    pub fn to_archive_url(&self) -> (url: String)
        ensures
            url@ == archive_url(self.name@, self.version@),
    {
        let version = self.version.as_str();
        match split_once_text(self.name.as_str(), "/") {
            Some((scope, base)) => String::from_str("https://registry.npmjs.org/").concat(
                scope,
            ).concat("/").concat(base).concat("/-/").concat(base).concat("-").concat(
                version,
            ).concat(".tgz"),
            None => {
                let name = self.name.as_str();
                String::from_str("https://registry.npmjs.org/").concat(name).concat("/-/").concat(
                    name,
                ).concat("-").concat(version).concat(".tgz")
            },
        }
    }
}

} // verus!
