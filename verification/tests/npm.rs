use fossgraph::dependency::Dependency;
use fossgraph::npm::NpmPackage;

fn package(name: &str, version: &str) -> NpmPackage {
    NpmPackage { name: name.to_owned(), version: version.to_owned() }
}

#[test]
fn archive_of_a_plain_package() {
    assert_eq!(
        package("lodash", "4.17.21").to_archive_url(),
        "https://registry.npmjs.org/lodash/-/lodash-4.17.21.tgz",
    );
}

#[test]
fn archive_of_a_scoped_package_is_named_without_the_scope() {
    assert_eq!(
        package("@urlpack/json", "1.1.0").to_archive_url(),
        "https://registry.npmjs.org/@urlpack/json/-/json-1.1.0.tgz",
    );
}

#[test]
fn archive_name_splits_at_the_first_slash() {
    assert_eq!(
        package("a/b/c", "1").to_archive_url(),
        "https://registry.npmjs.org/a/b/c/-/b/c-1.tgz",
    );
}

#[test]
fn only_npm_identities_name_a_package() {
    let dependency = Dependency::Npm { name: "semver".into(), version: "7.5.1".into() };
    assert_eq!(NpmPackage::for_dependency(&dependency), Some(package("semver", "7.5.1")));
    let dependency = Dependency::CocoaPods { name: "semver".into(), version: "7.5.1".into() };
    assert_eq!(NpmPackage::for_dependency(&dependency), None);
    let dependency = Dependency::Git { url: "semver".into(), head: None };
    assert_eq!(NpmPackage::for_dependency(&dependency), None);
}
