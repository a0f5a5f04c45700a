use fig::add::{compute_add_destination, plan_add};
use fig::info::Info;
use fig::namespace::{floating_namespaces, Namespace, RepoEntry, ResolveError};
use fig::path::AbsPath;
use fig::target::Target;
use fig::text::trim;

fn abs(parts: &[&str]) -> AbsPath {
    AbsPath { parts: parts.iter().map(|p| p.to_string()).collect() }
}

fn names(parts: &[&str]) -> Vec<String> {
    parts.iter().map(|p| p.to_string()).collect()
}

fn ns(location: &[&str], targets: &[&[&str]]) -> Namespace {
    Namespace {
        location: abs(location),
        targets: targets.iter().map(|t| abs(t)).collect(),
    }
}

#[test]
fn add_destination_strips_target_and_joins_location() {
    let namespaces = vec![ns(&["repo", "home"], &[&["home", "user"]])];
    let source = abs(&["home", "user", ".config", "app", "a.conf"]);
    let dest = compute_add_destination(&namespaces, &source).expect("source is under the target");
    assert_eq!(dest.parts, names(&["repo", "home", ".config", "app", "a.conf"]));
}

#[test]
fn add_destination_fails_for_unmanaged_paths() {
    let namespaces = vec![ns(&["repo", "home"], &[&["home", "user"]])];
    let source = abs(&["opt", "tool", "tool.conf"]);
    let err = compute_add_destination(&namespaces, &source).unwrap_err();
    assert_eq!(err, ResolveError::HasNoNamespace);
}

#[test]
fn batch_add_records_failures_and_continues() {
    let namespaces = vec![ns(&["repo", "home"], &[&["home", "user"]])];
    let sources = vec![
        abs(&["home", "user", ".bashrc"]),
        abs(&["var", "lib", "stray"]),
        abs(&["home", "user", ".vimrc"]),
    ];
    let plan = plan_add(&namespaces, &sources);
    assert_eq!(plan.failures, vec![1], "only the unmanaged source fails");
    assert_eq!(plan.copies.len(), 2, "the rest of the batch proceeds");
    assert_eq!(plan.copies[0].0.parts, names(&["home", "user", ".bashrc"]));
    assert_eq!(plan.copies[0].1.parts, names(&["repo", "home", ".bashrc"]));
    assert_eq!(plan.copies[1].1.parts, names(&["repo", "home", ".vimrc"]));
}

#[test]
fn floating_namespaces_are_non_hidden_dirs_without_descriptor() {
    let entries = vec![
        RepoEntry { name: "shell".to_string(), is_dir: true, has_descriptor: true },
        RepoEntry { name: "stray".to_string(), is_dir: true, has_descriptor: false },
        RepoEntry { name: ".git".to_string(), is_dir: true, has_descriptor: false },
        RepoEntry { name: "README.md".to_string(), is_dir: false, has_descriptor: false },
    ];
    assert_eq!(floating_namespaces(&entries), names(&["stray"]));
}

#[test]
fn trim_strips_padding_only() {
    assert_eq!(trim("  /home/user \t\r"), "/home/user");
    assert_eq!(trim("plain"), "plain");
    assert_eq!(trim(" \t "), "");
    assert_eq!(trim("inner space kept"), "inner space kept");
}

#[test]
fn info_gathers_its_parts() {
    let namespaces = vec![ns(&["repo", "home"], &[&["home", "user"]])];
    let info = Info::gather(namespaces, abs(&["repo"]), abs(&["var", "log"]));
    assert_eq!(info.namespaces.len(), 1);
    assert_eq!(info.repository_dir.parts, names(&["repo"]));
    assert_eq!(info.log_dir.parts, names(&["var", "log"]));
}

#[test]
fn target_pairs_namespace_and_repo_path() {
    let t = Target::new(abs(&["home", "user"]), abs(&["repo", "home"]));
    assert_eq!(t.namespace.parts, names(&["home", "user"]));
    assert_eq!(t.repo_path.parts, names(&["repo", "home"]));
}
