use fossgraph::dependency::{
    clone_text, parse_github_repository, same_optional_text, Dependency,
};
use fossgraph::dependency_set::DependencySet;

fn git(url: &str, head: Option<&str>) -> Dependency {
    Dependency::Git { url: url.to_owned(), head: head.map(|h| h.to_owned()) }
}

fn github(owner: &str, name: &str, head: Option<&str>) -> Dependency {
    Dependency::GitHub {
        owner: owner.to_owned(),
        name: name.to_owned(),
        head: head.map(|h| h.to_owned()),
    }
}

fn npm(name: &str, version: &str) -> Dependency {
    Dependency::Npm { name: name.to_owned(), version: version.to_owned() }
}

#[test]
fn ssh_shorthand_of_github_becomes_github() {
    assert_eq!(
        git("git@github.com:daangn/cjk-slug.git", Some("sha")).canonicalize(),
        github("daangn", "cjk-slug", Some("sha")),
    );
    assert_eq!(git("git@github.com:o/n.git", None).canonicalize(), github("o", "n", None));
}

#[test]
fn other_git_urls_are_canonical() {
    for url in [
        "https://github.com/daangn/cjk-slug.git",
        "git@gitlab.com:daangn/cjk-slug.git",
        "git@github.com/daangn/cjk-slug.git",
        "ssh://git@github.com:daangn/cjk-slug.git",
        "",
    ] {
        let dependency = git(url, Some("sha"));
        assert_eq!(dependency.canonicalize(), dependency, "{:?}", url);
    }
}

#[test]
fn shorthand_without_owner_or_suffix_is_left_alone() {
    for url in ["git@github.com:cjk-slug.git", "git@github.com:daangn/cjk-slug", "git@github.com:"] {
        let dependency = git(url, None);
        assert_eq!(dependency.canonicalize(), dependency, "{:?}", url);
    }
}

#[test]
fn name_runs_up_to_the_closing_git_suffix() {
    assert_eq!(
        git("git@github.com:o/n.github.io.git", Some("h")).canonicalize(),
        github("o", "n.github.io", Some("h")),
    );
    assert_eq!(git("git@github.com:o/n.git.git", None).canonicalize(), github("o", "n.git", None));
    assert_eq!(git("git@github.com:o/a/b.git", None).canonicalize(), github("o", "a/b", None));
    assert_eq!(git("git@github.com:o/.git", None).canonicalize(), github("o", "", None));
    assert_eq!(git("git@github.com:/.git", None).canonicalize(), github("", "", None));
}

#[test]
fn text_behind_the_git_suffix_is_no_shorthand() {
    for url in [
        "git@github.com:o/n.git/x",
        "git@github.com:o/n.git#x",
        "git@github.com:o/n.github",
        "git@github.com:o/n.git ",
        "git@github.com:o/git",
        "git@github.com:o.git",
        "git@github.com:o/n.GIT",
    ] {
        let dependency = git(url, Some("sha"));
        assert_eq!(dependency.canonicalize(), dependency, "{:?}", url);
        assert_eq!(parse_github_repository(url), None, "{:?}", url);
    }
}

#[test]
fn other_ecosystems_are_canonical() {
    let all = [
        github("o", "n", Some("h")),
        npm("git@github.com:o/n.git", "1"),
        Dependency::CocoaPods { name: "Alamofire".into(), version: "5.0.0".into() },
        Dependency::Maven {
            group_id: "org.example".into(),
            artifact_id: "lib".into(),
            version: "1.0".into(),
        },
    ];
    for dependency in all {
        assert_eq!(dependency.canonicalize(), dependency);
    }
}

#[test]
fn canonicalize_is_idempotent() {
    for dependency in [
        git("git@github.com:daangn/cjk-slug.git", Some("sha")),
        git("https://github.com/daangn/cjk-slug.git", None),
        git("git@github.com:a/git@github.com:b/c.git.git", None),
        git("git@github.com:o/n.github.io.git", None),
        git("git@github.com:o/n.git/x", None),
        github("o", "n", None),
        npm("lodash", "4.17.21"),
    ] {
        let once = dependency.canonicalize();
        assert_eq!(once.canonicalize(), once);
    }
}

#[test]
fn github_repository_has_owner_and_name() {
    assert_eq!(
        parse_github_repository("git@github.com:daangn/cjk-slug.git"),
        Some(("daangn".to_owned(), "cjk-slug".to_owned())),
    );
    assert_eq!(parse_github_repository("git@github.com:daangn"), None);
    assert_eq!(parse_github_repository("github.com:daangn/cjk-slug.git"), None);
}

#[test]
fn equality_is_by_variant_and_fields() {
    assert_eq!(npm("a", "1"), npm("a", "1"));
    assert_ne!(npm("a", "1"), npm("a", "2"));
    assert_ne!(npm("a", "1"), npm("b", "1"));
    assert_ne!(
        npm("a", "1"),
        Dependency::CocoaPods { name: "a".into(), version: "1".into() },
    );
    assert_ne!(git("u", None), git("u", Some("")));
    assert_ne!(git("u", Some("a")), git("u", Some("b")));
    assert_eq!(git("u", Some("a")), git("u", Some("a")));
    assert_ne!(github("o", "n", None), github("o", "m", None));
    assert_ne!(github("o", "n", None), github("p", "n", None));
    assert_ne!(github("o", "n", None), git("o", None));
    let maven = |g: &str, a: &str, v: &str| Dependency::Maven {
        group_id: g.to_owned(),
        artifact_id: a.to_owned(),
        version: v.to_owned(),
    };
    assert_eq!(maven("g", "a", "1"), maven("g", "a", "1"));
    assert_ne!(maven("g", "a", "1"), maven("g", "a", "2"));
    assert_ne!(maven("g", "a", "1"), maven("g", "b", "1"));
    assert_ne!(maven("g", "a", "1"), maven("h", "a", "1"));
}

#[test]
fn clone_is_equal() {
    for dependency in [git("u", Some("h")), github("o", "n", None), npm("a", "1")] {
        assert_eq!(dependency.clone(), dependency);
    }
    assert_eq!(clone_text(&Some("x".to_owned())), Some("x".to_owned()));
    assert_eq!(clone_text(&None), None);
    assert!(same_optional_text(&None, &None));
    assert!(!same_optional_text(&None, &Some(String::new())));
    assert!(same_optional_text(&Some("a".to_owned()), &Some("a".to_owned())));
}

#[test]
fn set_holds_each_identity_once() {
    let mut set = DependencySet::new();
    assert!(set.is_empty());
    assert!(set.insert(npm("a", "1")));
    assert!(set.insert(npm("b", "1")));
    assert!(!set.insert(npm("a", "1")));
    assert!(set.insert(git("a", None)));
    assert_eq!(set.len(), 3);
    assert!(!set.is_empty());
    assert!(set.contains(&npm("b", "1")));
    assert!(!set.contains(&npm("b", "2")));
    assert_eq!(set.to_vec(), vec![npm("a", "1"), npm("b", "1"), git("a", None)]);
    assert_eq!(set.get(1), Some(&npm("b", "1")));
    assert_eq!(set.get(3), None);
}
