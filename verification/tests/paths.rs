use fig::namespace::{
    determine_namespace, has_namespace_named, parse_descriptor, Namespace, NamespaceError,
    ResolveError,
};
use fig::path::{join, path_eq, strip_namespace, AbsPath, RelPath};

fn abs(parts: &[&str]) -> AbsPath {
    AbsPath { parts: parts.iter().map(|p| p.to_string()).collect() }
}

fn rel(parts: &[&str]) -> RelPath {
    RelPath { parts: parts.iter().map(|p| p.to_string()).collect() }
}

fn names(parts: &[&str]) -> Vec<String> {
    parts.iter().map(|p| p.to_string()).collect()
}

fn ns(location: &[&str], targets: &[&[&str]]) -> Namespace {
    Namespace {
        location: abs(location),
        targets: targets.iter().map(|t| abs(t)).collect(),
    }
}

#[test]
fn strip_then_join_roundtrip() {
    let target = abs(&["home", "user"]);
    let path = abs(&["home", "user", ".config", "app.conf"]);
    let stripped = strip_namespace(&target, &path).expect("path lies under the target");
    assert_eq!(stripped.parts, names(&[".config", "app.conf"]));
    let rejoined = join(&target, &stripped);
    assert!(path_eq(&rejoined, &path));
}

#[test]
fn join_then_strip_roundtrip() {
    let target = abs(&["srv", "data"]);
    let suffix = rel(&["nested", "file.txt"]);
    let joined = join(&target, &suffix);
    assert_eq!(joined.parts, names(&["srv", "data", "nested", "file.txt"]));
    let back = strip_namespace(&target, &joined).expect("joined path lies under the target");
    assert_eq!(back.parts, names(&["nested", "file.txt"]));
}

#[test]
fn strip_outside_root_is_none() {
    let target = abs(&["home", "user"]);
    let outside = abs(&["etc", "passwd"]);
    assert!(strip_namespace(&target, &outside).is_none());
    // A shorter path than the root is not under it either.
    assert!(strip_namespace(&target, &abs(&["home"])).is_none());
}

#[test]
fn strip_of_root_itself_is_empty() {
    let target = abs(&["home", "user"]);
    let same = abs(&["home", "user"]);
    let stripped = strip_namespace(&target, &same).expect("a root lies under itself");
    assert!(stripped.parts.is_empty());
}

#[test]
fn resolver_finds_owning_namespace() {
    let namespaces = vec![
        ns(&["repo", "shell"], &[&["home", "user"]]),
        ns(&["repo", "web"], &[&["srv", "www"]]),
    ];
    let path = abs(&["srv", "www", "site", "index.html"]);
    let res = determine_namespace(&namespaces, &path).expect("path lies under a target");
    assert_eq!(res.namespace_index, 1);
    assert_eq!(res.target_index, 0);
    assert_eq!(res.match_depth, 2);
}

#[test]
fn resolver_prefers_innermost_ancestor() {
    let namespaces = vec![
        ns(&["repo", "home"], &[&["home", "user"]]),
        ns(&["repo", "config"], &[&["home", "user", ".config"]]),
    ];
    let path = abs(&["home", "user", ".config", "app", "settings.toml"]);
    let res = determine_namespace(&namespaces, &path).expect("path lies under two targets");
    assert_eq!(res.namespace_index, 1, "the deeper target owns the path");
    assert_eq!(res.match_depth, 3);
}

#[test]
fn resolver_matches_any_target_of_a_namespace() {
    let namespaces = vec![ns(
        &["repo", "shell"],
        &[&["home", "alice"], &["home", "bob"]],
    )];
    let path = abs(&["home", "bob", ".bashrc"]);
    let res = determine_namespace(&namespaces, &path).expect("second target matches");
    assert_eq!(res.namespace_index, 0);
    assert_eq!(res.target_index, 1);
}

#[test]
fn resolver_reports_has_no_namespace() {
    let namespaces = vec![ns(&["repo", "shell"], &[&["home", "user"]])];
    let path = abs(&["var", "log", "syslog"]);
    let err = determine_namespace(&namespaces, &path).unwrap_err();
    assert_eq!(err, ResolveError::HasNoNamespace);
}

#[test]
fn resolver_with_shared_target_picks_first_deterministically() {
    // Pathological configuration: two namespaces share an identical target.
    let namespaces = vec![
        ns(&["repo", "first"], &[&["home", "user"]]),
        ns(&["repo", "second"], &[&["home", "user"]]),
    ];
    let path = abs(&["home", "user", ".bashrc"]);
    for _ in 0..3 {
        let res = determine_namespace(&namespaces, &path).expect("both match");
        assert_eq!(res.namespace_index, 0, "the earliest namespace wins, every time");
    }
}

#[test]
fn namespace_rejects_empty_target_list() {
    let err = Namespace::new(abs(&["repo", "empty"]), Vec::new()).unwrap_err();
    assert_eq!(err, NamespaceError::NoTargets);
    assert!(Namespace::new(abs(&["repo", "ok"]), vec![abs(&["home"])]).is_ok());
}

#[test]
fn descriptor_multi_target_format() {
    let text = "/home/user\n\n  /backup/user  \n";
    let targets = parse_descriptor(text).expect("two targets listed");
    assert_eq!(targets, names(&["/home/user", "/backup/user"]));
}

#[test]
fn descriptor_legacy_single_target_without_newline() {
    let targets = parse_descriptor("/home/user").expect("one target");
    assert_eq!(targets, names(&["/home/user"]));
}

#[test]
fn descriptor_with_windows_line_endings() {
    let targets = parse_descriptor("/home/user\r\n/backup/user\r\n").expect("two targets");
    assert_eq!(targets, names(&["/home/user", "/backup/user"]));
}

#[test]
fn descriptor_without_targets_is_an_error() {
    assert_eq!(parse_descriptor("").unwrap_err(), NamespaceError::NoTargets);
    assert_eq!(parse_descriptor("  \n\t\n").unwrap_err(), NamespaceError::NoTargets);
}

#[test]
fn resolver_can_match_the_filesystem_root_target() {
    // A namespace whose target is the filesystem root owns everything that
    // nothing deeper claims.
    let namespaces = vec![
        ns(&["repo", "all"], &[&[]]),
        ns(&["repo", "home"], &[&["home", "user"]]),
    ];
    let under_home = abs(&["home", "user", ".bashrc"]);
    let res = determine_namespace(&namespaces, &under_home).expect("both match");
    assert_eq!(res.namespace_index, 1, "the deeper target wins");
    let elsewhere = abs(&["etc", "hosts"]);
    let res = determine_namespace(&namespaces, &elsewhere).expect("the root target matches");
    assert_eq!(res.namespace_index, 0);
    assert_eq!(res.match_depth, 0);
}

#[test]
fn resolver_never_matches_the_path_itself() {
    // Only strict ancestors count: a path equal to a target is not under it.
    let namespaces = vec![ns(&["repo", "home"], &[&["home", "user"]])];
    let path = abs(&["home", "user"]);
    let err = determine_namespace(&namespaces, &path).unwrap_err();
    assert_eq!(err, ResolveError::HasNoNamespace);
}

#[test]
fn namespace_names() {
    let shell = ns(&["repo", "shell"], &[&["home", "user"]]);
    assert_eq!(shell.name().expect("has a name"), "shell");
    let namespaces = vec![shell, ns(&["repo", "web"], &[&["srv", "www"]])];
    assert!(has_namespace_named(&namespaces, &"web".to_string()));
    assert!(!has_namespace_named(&namespaces, &"vim".to_string()));
}
