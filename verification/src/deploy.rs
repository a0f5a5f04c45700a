//! The deploy engine's planning logic.
//!
//! Deploying a namespace means: enumerate its stored files, run each file's
//! bytes through the extension-chained plugin pipeline, and write the result
//! to every target (fan-out). This module plans that work from plain values
//! — the walked file list and the trigger lookup — and aggregates per-file
//! outcomes afterwards. Reading bytes, invoking plugins and writing files
//! happen outside, against the plan.
//!
//! Policy choices, fixed here deliberately:
//! - a repository-triggered plugin failure aborts the whole deploy (such
//!   plugins may be prerequisites, e.g. unlocking a store): they run first,
//!   strictly in registration order, and the caller stops on the first
//!   failure among them;
//! - a file plugin failure abandons only that file (nothing is written for
//!   it, to no target) while every other file is still attempted, and the
//!   failure is recorded for the aggregate report.

use vstd::prelude::*;
use vstd::string::StrSliceExecFns;
use vstd::string::StringExecFns;

use crate::namespace::Namespace;
use crate::path::AbsPath;
use crate::path::RelPath;
use crate::path::abs_views;
use crate::path::join;
use crate::plugin::PluginTriggerLookup;
use crate::plugin::assoc;
use crate::text::str_views;

verus! {

/// Index of the last `'.'` in `name[1..=i]`, scanning down from `i`; `-1`
/// when there is none. A dot at index 0 (a hidden file's leading dot) does
/// not count.
pub open spec fn last_dot_from(name: Seq<char>, i: int) -> int
    decreases i + 1,
{
    if i < 1 {
        -1
    } else if name[i] == '.' {
        i
    } else {
        last_dot_from(name, i - 1)
    }
}

/// Index of the last `'.'` of the file name, or `-1` when the name has no
/// extension.
pub open spec fn last_dot(name: Seq<char>) -> int {
    last_dot_from(name, name.len() - 1)
}

/// Splits a file name into stem and extension at the last dot, as the
/// surrounding filesystem conventions do: no dot, or only a leading dot,
/// means no extension.
pub open spec fn split_ext(name: Seq<char>) -> Option<(Seq<char>, Seq<char>)> {
    let i = last_dot(name);
    if 1 <= i < name.len() {
        Some((name.subrange(0, i), name.subrange(i + 1, name.len() as int)))
    } else {
        None
    }
}

/// Splits a file name into stem and extension, as `split_ext` describes.
pub fn split_extension(name: &String) -> (r: Option<(String, String)>)
    ensures
        match r {
            Some(se) => split_ext(name@) == Some((se.0@, se.1@)),
            None => split_ext(name@) is None,
        },
{
    let n = name.as_str().unicode_len();
    let mut i: usize = n;
    while i > 1
        invariant
            n == name@.len(),
            i <= n,
            last_dot(name@) == last_dot_from(name@, i as int - 1),
        ensures
            i <= n,
            last_dot(name@) == last_dot_from(name@, i as int - 1),
            i <= 1 || name@[i as int - 1] == '.',
        decreases i,
    {
        i = i - 1;
        if name.as_str().get_char(i) == '.' {
            i = i + 1;
            break;
        }
    }
    if i > 1 {
        let dot = i - 1;
        proof {
            assert(last_dot_from(name@, dot as int) == dot as int);
        }
        let stem = String::from_str(name.as_str().substring_char(0, dot));
        let ext = String::from_str(name.as_str().substring_char(dot + 1, n));
        Some((stem, ext))
    } else {
        proof {
            if n > 0 {
                assert(last_dot_from(name@, 0) == -1);
            }
        }
        None
    }
}

/// The extension-chain transform, as a function of the file name and the
/// trigger table: while the name's current extension has a registered
/// plugin, that plugin's command is appended to the chain and one extension
/// level is stripped. Yields the commands in firing order and the final
/// name. The chain always terminates: each step shortens the name.
pub open spec fn chain_spec(name: Seq<char>, table: Seq<(Seq<char>, Seq<char>)>) -> (
    Seq<Seq<char>>,
    Seq<char>,
)
    decreases name.len(),
{
    match split_ext(name) {
        None => (seq![], name),
        Some(se) => {
            match assoc(table, se.1) {
                None => (seq![], name),
                Some(cmd) => {
                    let rest = chain_spec(se.0, table);
                    (seq![cmd] + rest.0, rest.1)
                },
            }
        },
    }
}

/// Chain termination is sharp: the chain stops only when the final name has
/// no extension left, or an extension no plugin claims — so no further
/// plugin would fire on the final name.
pub proof fn lemma_chain_final(name: Seq<char>, table: Seq<(Seq<char>, Seq<char>)>)
    ensures
        ({
            let fin = chain_spec(name, table).1;
            match split_ext(fin) {
                Some(se) => assoc(table, se.1) is None,
                None => true,
            }
        }),
    decreases name.len(),
{
    match split_ext(name) {
        None => {},
        Some(se) => {
            match assoc(table, se.1) {
                None => {},
                Some(_) => {
                    lemma_chain_final(se.0, table);
                },
            }
        },
    }
}

/// Runs the extension chain for one file name against the lookup: the
/// commands to invoke, in order, and the final (extension-stripped) name.
pub fn plugin_chain(name: &String, lookup: &PluginTriggerLookup) -> (r: (Vec<String>, String))
    ensures
        str_views(r.0@) == chain_spec(name@, lookup.file_view()).0,
        r.1@ == chain_spec(name@, lookup.file_view()).1,
{
    let ghost table = lookup.file_view();
    let mut cmds: Vec<String> = Vec::new();
    let mut cur: String = name.clone();
    proof {
        assert(str_views(cmds@) + chain_spec(cur@, table).0 =~= chain_spec(cur@, table).0);
    }
    loop
        invariant
            table == lookup.file_view(),
            chain_spec(name@, table).0 == str_views(cmds@) + chain_spec(cur@, table).0,
            chain_spec(name@, table).1 == chain_spec(cur@, table).1,
        ensures
            chain_spec(name@, table).0 == str_views(cmds@),
            chain_spec(name@, table).1 == cur@,
        decreases cur@.len(),
    {
        let split = split_extension(&cur);
        match split {
            None => {
                proof {
                    assert(str_views(cmds@) + chain_spec(cur@, table).0 =~= str_views(cmds@));
                }
                break;
            },
            Some(se) => {
                match lookup.file_plugin(&se.1) {
                    None => {
                        proof {
                            assert(str_views(cmds@) + chain_spec(cur@, table).0 =~= str_views(
                                cmds@,
                            ));
                        }
                        break;
                    },
                    Some(cmd) => {
                        let cmd_owned = cmd.clone();
                        proof {
                            let rest = chain_spec(se.0@, table);
                            assert(chain_spec(cur@, table).0 == seq![cmd_owned@] + rest.0);
                            assert(str_views(cmds@.push(cmd_owned)) =~= str_views(cmds@) + seq![
                                cmd_owned@,
                            ]);
                            assert(str_views(cmds@) + (seq![cmd_owned@] + rest.0) =~= (str_views(
                                cmds@,
                            ) + seq![cmd_owned@]) + rest.0);
                        }
                        cmds.push(cmd_owned);
                        cur = se.0;
                    },
                }
            },
        }
    }
    (cmds, cur)
}

/// One planned file deploy: read `source` once, run its bytes through
/// `commands` in order, and write the single result to every destination.
pub struct DeployAction {
    /// The stored file, below the namespace's location.
    pub source: AbsPath,
    /// The plugin commands of the extension chain, in firing order.
    pub commands: Vec<String>,
    /// One destination per target of the namespace, in target order, each
    /// ending in the chain's final (extension-stripped) name.
    pub destinations: Vec<AbsPath>,
}

/// What a correct plan entry for the stored file `rel` of namespace `ns`
/// holds: the source under the namespace's location, the file's extension
/// chain, and for *every* target a destination ending in the final name —
/// one read, one transform, fanned out to all targets alike.
pub open spec fn action_matches(
    ns: Namespace,
    table: Seq<(Seq<char>, Seq<char>)>,
    rel: Seq<Seq<char>>,
    a: DeployAction,
) -> bool {
    &&& a.source@ == ns.location@ + rel
    &&& str_views(a.commands@) == chain_spec(rel.last(), table).0
    &&& a.destinations@.len() == ns.targets@.len()
    &&& forall|t: int|
        0 <= t < ns.targets@.len() ==> #[trigger] a.destinations@[t]@ == ns.targets@[t]@
            + rel.update(rel.len() - 1, chain_spec(rel.last(), table).1)
}

/// Plans the deploy of one namespace from its walked file list: one action
/// per stored file, in order, each fanning out to every target.
pub fn plan_deploy(ns: &Namespace, files: &Vec<RelPath>, lookup: &PluginTriggerLookup) -> (r:
    Vec<DeployAction>)
    requires
        ns.wf(),
        forall|k: int| 0 <= k < files@.len() ==> #[trigger] files@[k]@.len() >= 1,
    ensures
        r@.len() == files@.len(),
        forall|k: int|
            0 <= k < files@.len() ==> action_matches(
                *ns,
                lookup.file_view(),
                files@[k]@,
                #[trigger] r@[k],
            ),
{
    let mut out: Vec<DeployAction> = Vec::new();
    let n = files.len();
    for k in 0..n
        invariant
            n == files@.len(),
            ns.wf(),
            forall|k2: int| 0 <= k2 < n ==> #[trigger] files@[k2]@.len() >= 1,
            out@.len() == k,
            forall|k2: int|
                0 <= k2 < k ==> action_matches(
                    *ns,
                    lookup.file_view(),
                    files@[k2]@,
                    #[trigger] out@[k2],
                ),
        decreases n - k,
    {
        let rel = &files[k];
        let plen = rel.parts.len();
        proof {
            assert(files@[k as int]@.len() >= 1);
            assert(rel@.len() == plen);
        }
        assert(plen >= 1);
        let chain = plugin_chain(&rel.parts[plen - 1], lookup);
        proof {
            assert(rel@[plen - 1] == rel.parts@[plen - 1]@);
            assert(rel@.last() == rel@[plen - 1]);
        }
        let mut fin_parts: Vec<String> = Vec::new();
        for i in 0..plen - 1
            invariant
                plen == rel.parts@.len(),
                plen >= 1,
                fin_parts@.len() == i,
                forall|t: int| 0 <= t < i ==> fin_parts@[t]@ == rel@[t],
            decreases plen - 1 - i,
        {
            fin_parts.push(rel.parts[i].clone());
        }
        fin_parts.push(chain.1);
        let fin_rel = RelPath { parts: fin_parts };
        proof {
            assert(fin_rel@ =~= rel@.update(
                rel@.len() - 1,
                chain_spec(rel@.last(), lookup.file_view()).1,
            ));
        }
        let source = join(&ns.location, rel);
        let mut destinations: Vec<AbsPath> = Vec::new();
        let tn = ns.targets.len();
        for t in 0..tn
            invariant
                tn == ns.targets@.len(),
                destinations@.len() == t,
                forall|t2: int|
                    0 <= t2 < t ==> #[trigger] destinations@[t2]@ == ns.targets@[t2]@ + fin_rel@,
        decreases tn - t,
        {
            destinations.push(join(&ns.targets[t], &fin_rel));
        }
        let action = DeployAction { source, commands: chain.0, destinations };
        proof {
            assert(action_matches(*ns, lookup.file_view(), files@[k as int]@, action));
        }
        out.push(action);
    }
    out
}

/// Plans the whole deploy of one namespace from its mirrored stored tree:
/// walks the tree under the nesting guard, then plans one action per stored
/// file. Fails exactly when the tree nests deeper than `depth`.
pub fn deploy_namespace_actions(
    ns: &Namespace,
    tree: &Vec<crate::tree::FsTree>,
    depth: usize,
    lookup: &PluginTriggerLookup,
) -> (r: Result<Vec<DeployAction>, crate::tree::WalkError>)
    requires
        ns.wf(),
    ensures
        match r {
            Ok(actions) => crate::tree::walk_nodes_spec(tree@, depth as nat) matches Some(rels)
                && actions@.len() == rels.len() && (forall|k: int|
                0 <= k < rels.len() ==> action_matches(
                    *ns,
                    lookup.file_view(),
                    rels[k],
                    #[trigger] actions@[k],
                )),
            Err(e) => crate::tree::walk_nodes_spec(tree@, depth as nat) is None && e
                == crate::tree::WalkError::DepthExceeded,
        },
{
    let files = match crate::tree::walk_nodes(tree, depth) {
        Err(e) => {
            return Err(e);
        },
        Ok(files) => files,
    };
    proof {
        crate::tree::lemma_walk_files_nonempty(tree@, depth as nat);
        assert forall|k: int| 0 <= k < files@.len() implies #[trigger] files@[k]@.len()
            >= 1 by {
            assert(crate::path::rel_views(files@)[k] == files@[k]@);
        }
    }
    let actions = plan_deploy(ns, &files, lookup);
    proof {
        assert forall|k: int|
            0 <= k < crate::path::rel_views(files@).len() implies action_matches(
            *ns,
            lookup.file_view(),
            crate::path::rel_views(files@)[k],
            #[trigger] actions@[k],
        ) by {
            assert(crate::path::rel_views(files@)[k] == files@[k]@);
        }
    }
    Ok(actions)
}

/// A file plugin invocation that failed: the command and its exit code.
pub struct PluginFailure {
    pub cmd: String,
    pub code: i32,
}

/// The views of recorded failures: action index, command, exit code.
pub open spec fn fail_views(v: Seq<(usize, PluginFailure)>) -> Seq<(int, Seq<char>, int)> {
    Seq::new(v.len(), |i: int| (v[i].0 as int, v[i].1.cmd@, v[i].1.code as int))
}

/// The destinations owed a write, given per-action outcomes: all
/// destinations of every action whose chain succeeded, in order; a failed
/// action contributes none (no partial output is ever written for it).
pub open spec fn written_spec(
    actions: Seq<DeployAction>,
    outcomes: Seq<Option<PluginFailure>>,
) -> Seq<Seq<Seq<char>>>
    decreases actions.len(),
{
    if actions.len() == 0 {
        seq![]
    } else {
        let rest = written_spec(actions.drop_first(), outcomes.drop_first());
        if outcomes[0] is None {
            abs_views(actions[0].destinations@) + rest
        } else {
            rest
        }
    }
}

/// The failures to report, given per-action outcomes from position `base`:
/// one record per failed action, in order, with its index.
pub open spec fn failures_spec(outcomes: Seq<Option<PluginFailure>>, base: int) -> Seq<
    (int, Seq<char>, int),
>
    decreases outcomes.len(),
{
    if outcomes.len() == 0 {
        seq![]
    } else {
        let rest = failures_spec(outcomes.drop_first(), base + 1);
        match outcomes[0] {
            Some(f) => seq![(base, f.cmd@, f.code as int)] + rest,
            None => rest,
        }
    }
}

/// The aggregate result of executing a deploy plan.
pub struct DeployReport {
    /// Every destination written, in plan order.
    pub written: Vec<AbsPath>,
    /// Every failed action, with its index in the plan.
    pub failed: Vec<(usize, PluginFailure)>,
}

impl DeployReport {
    /// The deploy as a whole succeeds only when no file failed.
    pub fn is_success(&self) -> (r: bool)
        ensures
            r == (self.failed@.len() == 0),
    {
        self.failed.len() == 0
    }
}

/// Aggregates per-action outcomes into the deploy report. Every action is
/// accounted for: a successful one contributes all its destinations (and no
/// failure), a failed one contributes exactly one failure record (and no
/// write) while its siblings proceed — failures isolate per file, they
/// never abort the rest.
pub fn summarize_deploy(actions: &Vec<DeployAction>, outcomes: &Vec<Option<PluginFailure>>) -> (
    r: DeployReport)
    requires
        outcomes@.len() == actions@.len(),
    ensures
        abs_views(r.written@) == written_spec(actions@, outcomes@),
        fail_views(r.failed@) == failures_spec(outcomes@, 0),
{
    let mut written: Vec<AbsPath> = Vec::new();
    let mut failed: Vec<(usize, PluginFailure)> = Vec::new();
    let n = actions.len();
    proof {
        assert(actions@.skip(0) =~= actions@);
        assert(outcomes@.skip(0) =~= outcomes@);
        assert(abs_views(written@) + written_spec(actions@, outcomes@) =~= written_spec(
            actions@,
            outcomes@,
        ));
        assert(fail_views(failed@) + failures_spec(outcomes@, 0) =~= failures_spec(outcomes@, 0));
    }
    for k in 0..n
        invariant
            n == actions@.len() == outcomes@.len(),
            written_spec(actions@, outcomes@) == abs_views(written@) + written_spec(
                actions@.skip(k as int),
                outcomes@.skip(k as int),
            ),
            failures_spec(outcomes@, 0) == fail_views(failed@) + failures_spec(
                outcomes@.skip(k as int),
                k as int,
            ),
        decreases n - k,
    {
        proof {
            assert(actions@.skip(k as int)[0] == actions@[k as int]);
            assert(outcomes@.skip(k as int)[0] == outcomes@[k as int]);
            assert(actions@.skip(k as int).drop_first() =~= actions@.skip(k + 1));
            assert(outcomes@.skip(k as int).drop_first() =~= outcomes@.skip(k + 1));
        }
        match &outcomes[k] {
            None => {
                let ghost written_before = written@;
                let dests = &actions[k].destinations;
                let m = dests.len();
                for t in 0..m
                    invariant
                        m == dests@.len(),
                        dests@ == actions@[k as int].destinations@,
                        written@.len() == written_before.len() + t,
                        abs_views(written@) =~= abs_views(written_before) + abs_views(
                            dests@,
                        ).take(t as int),
                    decreases m - t,
                {
                    let d = dests[t].duplicate();
                    proof {
                        assert(abs_views(dests@)[t as int] == dests@[t as int]@);
                        assert(abs_views(written@.push(d)) =~= abs_views(written@) + seq![d@]);
                        assert(abs_views(written@) + seq![d@] =~= abs_views(written_before)
                            + abs_views(dests@).take(t + 1));
                    }
                    written.push(d);
                }
                proof {
                    assert(abs_views(dests@).take(m as int) =~= abs_views(dests@));
                    match written_spec(actions@.skip(k + 1), outcomes@.skip(k + 1)) {
                        rest => {
                            assert((abs_views(written_before) + abs_views(dests@)) + rest
                                =~= abs_views(written_before) + (abs_views(dests@) + rest));
                        },
                    }
                }
            },
            Some(f) => {
                let rec = (k, PluginFailure { cmd: f.cmd.clone(), code: f.code });
                proof {
                    assert(fail_views(failed@.push(rec)) =~= fail_views(failed@) + seq![
                        (k as int, f.cmd@, f.code as int),
                    ]);
                    let rest = failures_spec(outcomes@.skip(k + 1), k + 1);
                    assert(fail_views(failed@) + (seq![(k as int, f.cmd@, f.code as int)] + rest)
                        =~= (fail_views(failed@) + seq![(k as int, f.cmd@, f.code as int)])
                        + rest);
                }
                failed.push(rec);
            },
        }
    }
    proof {
        assert(actions@.skip(n as int) =~= Seq::<DeployAction>::empty());
        assert(outcomes@.skip(n as int) =~= Seq::<Option<PluginFailure>>::empty());
        assert(abs_views(written@) + written_spec(
            actions@.skip(n as int),
            outcomes@.skip(n as int),
        ) =~= abs_views(written@));
        assert(fail_views(failed@) + failures_spec(outcomes@.skip(n as int), n as int)
            =~= fail_views(failed@));
    }
    DeployReport { written, failed }
}

} // verus!
