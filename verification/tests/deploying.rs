use fig::deploy::{
    deploy_namespace_actions, plan_deploy, plugin_chain, split_extension, summarize_deploy,
    PluginFailure,
};
use fig::namespace::Namespace;
use fig::path::{AbsPath, RelPath};
use fig::plugin::{FileTrigger, PluginInfo, PluginTriggerLookup, Trigger};
use fig::tree::{walk_nodes, FsTree, WalkError};
use fig::MAX_WALK_DEPTH;

fn abs(parts: &[&str]) -> AbsPath {
    AbsPath { parts: parts.iter().map(|p| p.to_string()).collect() }
}

fn rel(parts: &[&str]) -> RelPath {
    RelPath { parts: parts.iter().map(|p| p.to_string()).collect() }
}

fn names(parts: &[&str]) -> Vec<String> {
    parts.iter().map(|p| p.to_string()).collect()
}

fn ns(location: &[&str], targets: &[&[&str]]) -> Namespace {
    Namespace {
        location: abs(location),
        targets: targets.iter().map(|t| abs(t)).collect(),
    }
}

fn file(name: &str) -> FsTree {
    FsTree::File { name: name.to_string() }
}

fn dir(name: &str, entries: Vec<FsTree>) -> FsTree {
    FsTree::Dir { name: name.to_string(), entries }
}

fn lookup_of(specs: &[(&str, &str)]) -> PluginTriggerLookup {
    let registry: Vec<PluginInfo> = specs
        .iter()
        .map(|(ext, cmd)| PluginInfo {
            cmd: cmd.to_string(),
            triggers: vec![Trigger::File(FileTrigger { ext: ext.to_string() })],
        })
        .collect();
    PluginTriggerLookup::from_map(&registry).expect("no conflicting extensions")
}

#[test]
fn extensions_split_at_the_last_dot() {
    let split = |s: &str| split_extension(&s.to_string());
    assert_eq!(split("a.tar.gz"), Some(("a.tar".to_string(), "gz".to_string())));
    assert_eq!(split("config.yaml"), Some(("config".to_string(), "yaml".to_string())));
    assert_eq!(split("README"), None);
    assert_eq!(split(".bashrc"), None, "a leading dot is not an extension");
    assert_eq!(split(".config.lock"), Some((".config".to_string(), "lock".to_string())));
}

#[test]
fn chain_fires_one_plugin_and_strips_one_extension() {
    // A plugin for `.enc`, none for `.json`: exactly one invocation, and the
    // destination name loses exactly the `.enc` level.
    let lookup = lookup_of(&[("enc", "decrypt-cmd")]);
    let (cmds, fin) = plugin_chain(&"a.json.enc".to_string(), &lookup);
    assert_eq!(cmds, names(&["decrypt-cmd"]));
    assert_eq!(fin, "a.json");
}

#[test]
fn chain_follows_successive_extensions() {
    let lookup = lookup_of(&[("enc", "decrypt-cmd"), ("json", "format-cmd")]);
    let (cmds, fin) = plugin_chain(&"a.json.enc".to_string(), &lookup);
    assert_eq!(cmds, names(&["decrypt-cmd", "format-cmd"]));
    assert_eq!(fin, "a");
}

#[test]
fn chain_stops_at_the_first_unregistered_extension() {
    let lookup = lookup_of(&[("enc", "decrypt-cmd")]);
    let (cmds, fin) = plugin_chain(&"a.enc.json".to_string(), &lookup);
    assert!(cmds.is_empty(), "the outer extension is unregistered, nothing fires");
    assert_eq!(fin, "a.enc.json");
}

#[test]
fn walk_lists_files_and_skips_the_descriptor() {
    let tree = vec![
        file("namespace.fig"),
        file(".bashrc"),
        dir(".config", vec![file("app.toml"), dir("deep", vec![file("x")])]),
    ];
    let files = walk_nodes(&tree, MAX_WALK_DEPTH).expect("within the depth bound");
    let listed: Vec<Vec<String>> = files.into_iter().map(|r| r.parts).collect();
    assert_eq!(
        listed,
        vec![
            names(&[".bashrc"]),
            names(&[".config", "app.toml"]),
            names(&[".config", "deep", "x"]),
        ]
    );
}

#[test]
fn walk_deeper_than_the_bound_fails() {
    let tree = vec![dir("a", vec![dir("b", vec![dir("c", vec![file("leaf")])])])];
    // Bound 3 admits the structure; bound 2 does not — an error, never a
    // silently truncated listing.
    assert!(walk_nodes(&tree, 3).is_ok());
    assert_eq!(walk_nodes(&tree, 2).unwrap_err(), WalkError::DepthExceeded);
}

#[test]
fn walk_of_empty_directories_lists_nothing() {
    let tree = vec![dir("empty", vec![]), dir("nested", vec![dir("inner", vec![])])];
    let files = walk_nodes(&tree, MAX_WALK_DEPTH).expect("shallow");
    assert!(files.is_empty());
}

#[test]
fn fan_out_reaches_every_target_with_one_source() {
    let namespace = ns(
        &["repo", "shell"],
        &[&["home", "alice"], &["home", "bob"]],
    );
    let lookup = lookup_of(&[]);
    let actions = plan_deploy(&namespace, &vec![rel(&[".bashrc"])], &lookup);
    assert_eq!(actions.len(), 1);
    let action = &actions[0];
    assert_eq!(action.source.parts, names(&["repo", "shell", ".bashrc"]));
    assert!(action.commands.is_empty());
    assert_eq!(action.destinations.len(), 2, "one stored file deploys to both targets");
    assert_eq!(action.destinations[0].parts, names(&["home", "alice", ".bashrc"]));
    assert_eq!(action.destinations[1].parts, names(&["home", "bob", ".bashrc"]));
}

#[test]
fn partial_failure_isolates_the_failing_file() {
    let namespace = ns(&["repo", "etc"], &[&["etc"]]);
    let lookup = lookup_of(&[("enc", "always-fails")]);
    let files = vec![rel(&["hosts"]), rel(&["secret.enc"]), rel(&["motd"])];
    let actions = plan_deploy(&namespace, &files, &lookup);
    assert_eq!(actions.len(), 3, "every file is attempted");

    let outcomes = vec![
        None,
        Some(PluginFailure { cmd: "always-fails".to_string(), code: 1 }),
        None,
    ];
    let report = summarize_deploy(&actions, &outcomes);
    let written: Vec<Vec<String>> = report.written.iter().map(|p| p.parts.clone()).collect();
    assert_eq!(written, vec![names(&["etc", "hosts"]), names(&["etc", "motd"])]);
    assert_eq!(report.failed.len(), 1, "exactly one failure is reported");
    assert_eq!(report.failed[0].0, 1);
    assert_eq!(report.failed[0].1.cmd, "always-fails");
    assert_eq!(report.failed[0].1.code, 1);
    assert!(!report.is_success());
}

#[test]
fn clean_deploy_reports_success() {
    let namespace = ns(&["repo", "etc"], &[&["etc"]]);
    let lookup = lookup_of(&[]);
    let actions = plan_deploy(&namespace, &vec![rel(&["hosts"])], &lookup);
    let report = summarize_deploy(&actions, &vec![None]);
    assert!(report.is_success());
    assert!(report.failed.is_empty());
    assert_eq!(report.written.len(), 1);
}

#[test]
fn shell_namespace_scenario() {
    // Namespace `shell`: location /repo/shell, targets ["/home/user"];
    // stored file /repo/shell/.bashrc deploys to /home/user/.bashrc.
    let namespace = ns(&["repo", "shell"], &[&["home", "user"]]);
    let tree = vec![file("namespace.fig"), file(".bashrc")];
    let files = walk_nodes(&tree, MAX_WALK_DEPTH).expect("flat tree");
    let actions = plan_deploy(&namespace, &files, &lookup_of(&[]));
    assert_eq!(actions.len(), 1);
    assert_eq!(actions[0].source.parts, names(&["repo", "shell", ".bashrc"]));
    assert!(actions[0].commands.is_empty(), "no plugin touches the bytes");
    assert_eq!(actions[0].destinations.len(), 1);
    assert_eq!(actions[0].destinations[0].parts, names(&["home", "user", ".bashrc"]));
}

#[test]
fn secrets_namespace_scenario() {
    // Namespace `secrets`, stored file creds.env.gpg, plugin `gpg-decrypt`
    // on extension gpg: deploys to <target>/creds.env through the plugin.
    let namespace = ns(&["repo", "secrets"], &[&["home", "user", ".secrets"]]);
    let tree = vec![file("namespace.fig"), file("creds.env.gpg")];
    let files = walk_nodes(&tree, MAX_WALK_DEPTH).expect("flat tree");
    let lookup = lookup_of(&[("gpg", "gpg-decrypt")]);
    let actions = plan_deploy(&namespace, &files, &lookup);
    assert_eq!(actions.len(), 1);
    assert_eq!(actions[0].commands, names(&["gpg-decrypt"]));
    assert_eq!(
        actions[0].destinations[0].parts,
        names(&["home", "user", ".secrets", "creds.env"])
    );
}

#[test]
fn namespace_deploy_walks_and_plans_in_one_step() {
    let namespace = ns(&["repo", "cfg"], &[&["home", "user", ".config"]]);
    let tree = vec![
        file("namespace.fig"),
        dir("app", vec![file("settings.toml.gpg")]),
    ];
    let lookup = lookup_of(&[("gpg", "gpg-decrypt")]);
    let actions =
        deploy_namespace_actions(&namespace, &tree, MAX_WALK_DEPTH, &lookup).expect("shallow tree");
    assert_eq!(actions.len(), 1);
    assert_eq!(actions[0].source.parts, names(&["repo", "cfg", "app", "settings.toml.gpg"]));
    assert_eq!(actions[0].commands, names(&["gpg-decrypt"]));
    assert_eq!(
        actions[0].destinations[0].parts,
        names(&["home", "user", ".config", "app", "settings.toml"])
    );

    let deep = vec![dir("a", vec![dir("b", vec![file("f")])])];
    assert!(deploy_namespace_actions(&namespace, &deep, 1, &lookup).is_err());
}

#[test]
fn namespace_listing_maps_files_to_all_targets() {
    let namespace = ns(&["repo", "sh"], &[&["home", "a"], &["home", "b"]]);
    let tree = vec![file("namespace.fig"), file(".profile"), dir("bin", vec![file("up")])];
    let listed = namespace.files(&tree, MAX_WALK_DEPTH).expect("within bounds");
    let listed: Vec<Vec<String>> = listed.into_iter().map(|p| p.parts).collect();
    assert_eq!(
        listed,
        vec![
            names(&["home", "a", ".profile"]),
            names(&["home", "b", ".profile"]),
            names(&["home", "a", "bin", "up"]),
            names(&["home", "b", "bin", "up"]),
        ]
    );
}
