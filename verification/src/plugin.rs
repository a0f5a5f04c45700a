//! Plugins and the trigger lookup.
//!
//! A plugin is an external executable registered under a name, with a
//! command and a set of triggers: `Repository` (runs once per deploy, given
//! the repository root) or `File(extension)` (runs on every deployed file
//! whose current extension matches, chained as extensions are stripped).
//!
//! The lookup is built fresh for every deploy from the flat registry. At
//! most one plugin may claim a given extension: a second claim is a fatal
//! configuration error detected here, at build time, before any deploy side
//! effect — never a silent "last one wins".

use vstd::prelude::*;
use vstd::string::StrSliceExecFns;
use vstd::string::StringExecFns;

use crate::text::dec_str;
use crate::text::format_count;
use crate::text::join_lines;
use crate::text::lemma_join_lines_take_succ;
use crate::text::lines_of;
use crate::text::split_lines;
use crate::text::str_views;

verus! {

/// A file-extension trigger: the extension (without its dot) on which the
/// plugin fires.
pub struct FileTrigger {
    pub ext: String,
}

/// The condition under which a plugin fires during a deploy.
pub enum Trigger {
    /// Fires once per deploy, on the repository root.
    Repository,
    /// Fires on each file whose current extension matches.
    File(FileTrigger),
}

/// A registered plugin: the command to invoke and its triggers.
pub struct PluginInfo {
    pub cmd: String,
    pub triggers: Vec<Trigger>,
}

/// The `(extension, command)` pairs of one plugin's file triggers, in order.
pub open spec fn file_pairs(ts: Seq<Trigger>, cmd: Seq<char>) -> Seq<(Seq<char>, Seq<char>)>
    decreases ts.len(),
{
    if ts.len() == 0 {
        seq![]
    } else {
        let rest = file_pairs(ts.drop_first(), cmd);
        match ts[0] {
            Trigger::File(ft) => seq![(ft.ext@, cmd)] + rest,
            Trigger::Repository => rest,
        }
    }
}

/// One occurrence of the command per `Repository` trigger of the plugin.
pub open spec fn repo_cmds(ts: Seq<Trigger>, cmd: Seq<char>) -> Seq<Seq<char>>
    decreases ts.len(),
{
    if ts.len() == 0 {
        seq![]
    } else {
        let rest = repo_cmds(ts.drop_first(), cmd);
        match ts[0] {
            Trigger::Repository => seq![cmd] + rest,
            Trigger::File(_) => rest,
        }
    }
}

/// Every `(extension, command)` file-trigger pair of the registry, in
/// registration order.
pub open spec fn all_file_pairs(ps: Seq<PluginInfo>) -> Seq<(Seq<char>, Seq<char>)>
    decreases ps.len(),
{
    if ps.len() == 0 {
        seq![]
    } else {
        file_pairs(ps[0].triggers@, ps[0].cmd@) + all_file_pairs(ps.drop_first())
    }
}

/// Every repository-trigger command of the registry, in registration order.
pub open spec fn all_repo_cmds(ps: Seq<PluginInfo>) -> Seq<Seq<char>>
    decreases ps.len(),
{
    if ps.len() == 0 {
        seq![]
    } else {
        repo_cmds(ps[0].triggers@, ps[0].cmd@) + all_repo_cmds(ps.drop_first())
    }
}

/// The views of a list of `(extension, command)` pairs.
pub open spec fn pair_views(v: Seq<(String, String)>) -> Seq<(Seq<char>, Seq<char>)> {
    Seq::new(v.len(), |i: int| (v[i].0@, v[i].1@))
}

/// No two pairs claim the same extension.
pub open spec fn distinct_exts(pairs: Seq<(Seq<char>, Seq<char>)>) -> bool {
    forall|i: int, k: int| 0 <= i < k < pairs.len() ==> pairs[i].0 != pairs[k].0
}

/// Pair `k` claims an extension already claimed before it.
pub open spec fn dup_before(pairs: Seq<(Seq<char>, Seq<char>)>, k: int) -> bool {
    exists|i: int| 0 <= i < k && pairs[i].0 == pairs[k].0
}

/// The command of the first pair claiming `key`, if any.
pub open spec fn assoc(pairs: Seq<(Seq<char>, Seq<char>)>, key: Seq<char>) -> Option<Seq<char>>
    decreases pairs.len(),
{
    if pairs.len() == 0 {
        None
    } else if pairs[0].0 == key {
        Some(pairs[0].1)
    } else {
        assoc(pairs.drop_first(), key)
    }
}

/// The trigger lookup a deploy runs against: repository-triggered commands
/// in registration order, and the file-trigger table keyed by extension.
#[derive(Debug)]
pub struct PluginTriggerLookup {
    /// Commands to run once per deploy, in registration order.
    pub repository: Vec<String>,
    /// The file-trigger table: `(extension, command)`, extensions unique.
    pub file: Vec<(String, String)>,
}

impl PluginTriggerLookup {
    pub open spec fn repo_view(&self) -> Seq<Seq<char>> {
        str_views(self.repository@)
    }

    pub open spec fn file_view(&self) -> Seq<(Seq<char>, Seq<char>)> {
        pair_views(self.file@)
    }

    pub open spec fn wf(&self) -> bool {
        distinct_exts(self.file_view())
    }

    /// An empty lookup: no plugins registered.
    pub fn empty() -> (r: PluginTriggerLookup)
        ensures
            r.repo_view() == Seq::<Seq<char>>::empty(),
            r.file_view() == Seq::<(Seq<char>, Seq<char>)>::empty(),
            r.wf(),
    {
        let r = PluginTriggerLookup { repository: Vec::new(), file: Vec::new() };
        proof {
            assert(r.repo_view() =~= Seq::<Seq<char>>::empty());
            assert(r.file_view() =~= Seq::<(Seq<char>, Seq<char>)>::empty());
        }
        r
    }

    /// Builds the lookup from the plugin registry, in registration order.
    /// Fails, before any deploy side effect, when two file triggers claim
    /// the same extension; the error carries both commands and the
    /// extension, taken from the first such collision.
    pub fn from_map(map: &Vec<PluginInfo>) -> (r: Result<PluginTriggerLookup, FromMapError>)
        ensures
            r is Ok <==> distinct_exts(all_file_pairs(map@)),
            r matches Ok(lk) ==> {
                &&& lk.file_view() == all_file_pairs(map@)
                &&& lk.repo_view() == all_repo_cmds(map@)
                &&& lk.wf()
            },
            r matches Err(e) ==> conflict_reported(all_file_pairs(map@), e),
    {
        let flat = flatten_file_pairs(map);
        let repository = collect_repo_cmds(map);
        match build_file_table(&flat) {
            Ok(file) => Ok(PluginTriggerLookup { repository, file }),
            Err(e) => Err(e),
        }
    }

    /// The command registered for `ext`, if one is.
    pub fn file_plugin(&self, ext: &String) -> (r: Option<&String>)
        ensures
            match r {
                Some(cmd) => assoc(self.file_view(), ext@) == Some(cmd@),
                None => assoc(self.file_view(), ext@) is None,
            },
    {
        let n = self.file.len();
        proof {
            assert(self.file_view().skip(0) =~= self.file_view());
        }
        for k in 0..n
            invariant
                n == self.file@.len(),
                assoc(self.file_view(), ext@) == assoc(self.file_view().skip(k as int), ext@),
            decreases n - k,
        {
            proof {
                assert(self.file_view().skip(k as int)[0] == self.file_view()[k as int]);
                assert(self.file_view().skip(k as int).drop_first() =~= self.file_view().skip(
                    k + 1,
                ));
            }
            if self.file[k].0.eq(ext) {
                return Some(&self.file[k].1);
            }
        }
        proof {
            assert(self.file_view().skip(n as int) =~= Seq::<(Seq<char>, Seq<char>)>::empty());
        }
        None
    }
}

/// A configuration error found while building the trigger lookup.
#[derive(Debug)]
pub enum FromMapError {
    /// Two plugins both claim the same file extension.
    ConflictingPluginTriggers { ext: String, plugin1: String, plugin2: String },
}

/// The error names the first collision: the first pair whose extension was
/// already claimed, the command that claimed it first, and the extension.
pub open spec fn conflict_reported(pairs: Seq<(Seq<char>, Seq<char>)>, e: FromMapError) -> bool {
    exists|k: int|
        {
            &&& 0 <= k < pairs.len()
            &&& #[trigger] dup_before(pairs, k)
            &&& forall|k2: int| 0 <= k2 < k ==> !dup_before(pairs, k2)
            &&& e matches FromMapError::ConflictingPluginTriggers { ext, plugin1, plugin2 } ==> {
                &&& ext@ == pairs[k].0
                &&& plugin2@ == pairs[k].1
                &&& exists|i: int|
                    0 <= i < k && pairs[i].0 == pairs[k].0 && plugin1@ == #[trigger] pairs[i].1
            }
        }
}

/// Parses one trigger value of the plugin registry file: `"repo"` denotes
/// the repository trigger, a value starting with `'.'` a file-extension
/// trigger on the text after the dot. Anything else is a configuration
/// error, surfaced as `None` for the caller to reject.
pub fn parse_trigger(s: &str) -> (r: Option<Trigger>)
    ensures
        s@ == "repo"@ ==> (r matches Some(t) && t is Repository),
        s@ != "repo"@ && s@.len() >= 1 && s@[0] == '.' ==> (r matches Some(Trigger::File(ft))
            && ft.ext@ == s@.subrange(1, s@.len() as int)),
        s@ != "repo"@ && !(s@.len() >= 1 && s@[0] == '.') ==> r is None,
{
    let owned = String::from_str(s);
    let repo = String::from_str("repo");
    if owned.eq(&repo) {
        Some(Trigger::Repository)
    } else {
        let n = s.unicode_len();
        if n >= 1 && s.get_char(0) == '.' {
            let ext = String::from_str(s.substring_char(1, n));
            Some(Trigger::File(FileTrigger { ext }))
        } else {
            None
        }
    }
}

/// The instructions of the plugin-runner protocol: each frame starts with an
/// instruction byte.
#[derive(PartialEq, Eq, Structural, Clone, Copy, Debug)]
pub enum Instruction {
    Exit,
    RunOnRepository,
    RunOnFile,
}

/// The wire code of an instruction.
pub open spec fn instruction_code(i: Instruction) -> u8 {
    match i {
        Instruction::Exit => 0,
        Instruction::RunOnRepository => 1,
        Instruction::RunOnFile => 2,
    }
}

impl Instruction {
    /// The byte this instruction is sent as.
    pub fn code(&self) -> (c: u8)
        ensures
            c == instruction_code(*self),
    {
        match self {
            Instruction::Exit => 0,
            Instruction::RunOnRepository => 1,
            Instruction::RunOnFile => 2,
        }
    }

    /// Decodes an instruction byte; any byte above the known codes is
    /// invalid and must end the runner with an error.
    pub fn decode(code: u8) -> (r: Option<Instruction>)
        ensures
            r matches Some(i) ==> instruction_code(i) == code,
            r is Some <==> code <= 2,
    {
        match code {
            0 => Some(Instruction::Exit),
            1 => Some(Instruction::RunOnRepository),
            2 => Some(Instruction::RunOnFile),
            _ => None,
        }
    }
}

/// What `truncate_string` produces: the text itself when it has at most
/// `line_count` lines, else the first `line_count` lines and a marker line
/// counting the rest.
pub open spec fn truncated(s: Seq<char>, line_count: int) -> Seq<char> {
    let ls = split_lines(s);
    if ls.len() <= line_count {
        s
    } else {
        join_lines(ls.take(line_count)) + "\n... ("@ + dec_str(ls.len() - line_count)
            + " more lines)"@
    }
}

/// Shortens plugin output for a report: keeps the first `line_count` lines
/// and replaces the rest with a count of what was elided.
pub fn truncate_string(string: &str, line_count: usize) -> (r: String)
    ensures
        r@ == truncated(string@, line_count as int),
{
    let lines = lines_of(string);
    let ghost ls = split_lines(string@);
    if lines.len() <= line_count {
        return String::from_str(string);
    }
    let mut out = String::new();
    proof {
        assert(join_lines(ls.take(0)) =~= Seq::<char>::empty());
    }
    for t in 0..line_count
        invariant
            line_count < lines@.len(),
            str_views(lines@) == ls,
            out@ == join_lines(ls.take(t as int)),
        decreases line_count - t,
    {
        proof {
            assert(lines@[t as int]@ == ls[t as int]);
        }
        if t > 0 {
            out.append("\n");
            proof {
                reveal_strlit("\n");
                assert("\n"@ =~= seq!['\n']);
                lemma_join_lines_take_succ(ls, t as int);
            }
        } else {
            proof {
                assert(ls.take(1) =~= seq![ls[0]]);
            }
        }
        out.append(lines[t].as_str());
    }
    out.append("\n... (");
    let count = format_count(lines.len() - line_count);
    out.append(count.as_str());
    out.append(" more lines)");
    out
}

/// Flattens the registry into its file-trigger pairs, in order.
fn flatten_file_pairs(map: &Vec<PluginInfo>) -> (r: Vec<(String, String)>)
    ensures
        pair_views(r@) == all_file_pairs(map@),
{
    let mut out: Vec<(String, String)> = Vec::new();
    let n = map.len();
    proof {
        assert(map@.skip(0) =~= map@);
        assert(pair_views(out@) + all_file_pairs(map@) =~= all_file_pairs(map@));
    }
    for i in 0..n
        invariant
            n == map@.len(),
            all_file_pairs(map@) == pair_views(out@) + all_file_pairs(map@.skip(i as int)),
        decreases n - i,
    {
        proof {
            assert(map@.skip(i as int)[0] == map@[i as int]);
            assert(map@.skip(i as int).drop_first() =~= map@.skip(i + 1));
        }
        let p = &map[i];
        let ghost ts = p.triggers@;
        let tn = p.triggers.len();
        proof {
            assert(ts.skip(0) =~= ts);
        }
        for j in 0..tn
            invariant
                n == map@.len(),
                i < n,
                p == map@[i as int],
                tn == ts.len(),
                ts == map@[i as int].triggers@,
                all_file_pairs(map@) == pair_views(out@) + file_pairs(
                    ts.skip(j as int),
                    map@[i as int].cmd@,
                ) + all_file_pairs(map@.skip(i + 1)),
            decreases tn - j,
        {
            proof {
                assert(ts.skip(j as int)[0] == ts[j as int]);
                assert(ts.skip(j as int).drop_first() =~= ts.skip(j + 1));
            }
            match &p.triggers[j] {
                Trigger::Repository => {
                },
                Trigger::File(ft) => {
                    let entry = (ft.ext.clone(), p.cmd.clone());
                    proof {
                        assert(pair_views(out@.push(entry)) =~= pair_views(out@) + seq![
                            (ft.ext@, map@[i as int].cmd@),
                        ]);
                    }
                    out.push(entry);
                },
            }
        }
        proof {
            assert(ts.skip(tn as int) =~= Seq::<Trigger>::empty());
        }
    }
    proof {
        assert(map@.skip(n as int) =~= Seq::<PluginInfo>::empty());
        assert(pair_views(out@) + all_file_pairs(map@.skip(n as int)) =~= pair_views(out@));
    }
    out
}

/// Collects the repository-trigger commands, in order.
fn collect_repo_cmds(map: &Vec<PluginInfo>) -> (r: Vec<String>)
    ensures
        str_views(r@) == all_repo_cmds(map@),
{
    let mut out: Vec<String> = Vec::new();
    let n = map.len();
    proof {
        assert(map@.skip(0) =~= map@);
        assert(str_views(out@) + all_repo_cmds(map@) =~= all_repo_cmds(map@));
    }
    for i in 0..n
        invariant
            n == map@.len(),
            all_repo_cmds(map@) == str_views(out@) + all_repo_cmds(map@.skip(i as int)),
        decreases n - i,
    {
        proof {
            assert(map@.skip(i as int)[0] == map@[i as int]);
            assert(map@.skip(i as int).drop_first() =~= map@.skip(i + 1));
        }
        let p = &map[i];
        let ghost ts = p.triggers@;
        let tn = p.triggers.len();
        proof {
            assert(ts.skip(0) =~= ts);
        }
        for j in 0..tn
            invariant
                n == map@.len(),
                i < n,
                p == map@[i as int],
                tn == ts.len(),
                ts == map@[i as int].triggers@,
                all_repo_cmds(map@) == str_views(out@) + repo_cmds(
                    ts.skip(j as int),
                    map@[i as int].cmd@,
                ) + all_repo_cmds(map@.skip(i + 1)),
            decreases tn - j,
        {
            proof {
                assert(ts.skip(j as int)[0] == ts[j as int]);
                assert(ts.skip(j as int).drop_first() =~= ts.skip(j + 1));
            }
            match &p.triggers[j] {
                Trigger::Repository => {
                    let entry = p.cmd.clone();
                    proof {
                        assert(str_views(out@.push(entry)) =~= str_views(out@) + seq![
                            map@[i as int].cmd@,
                        ]);
                    }
                    out.push(entry);
                },
                Trigger::File(_) => {
                },
            }
        }
        proof {
            assert(ts.skip(tn as int) =~= Seq::<Trigger>::empty());
        }
    }
    proof {
        assert(map@.skip(n as int) =~= Seq::<PluginInfo>::empty());
        assert(str_views(out@) + all_repo_cmds(map@.skip(n as int)) =~= str_views(out@));
    }
    out
}

/// Index of the first pair in `v` claiming `ext`, if any.
fn find_ext(v: &Vec<(String, String)>, ext: &String) -> (r: Option<usize>)
    ensures
        match r {
            Some(i) => 0 <= i < v@.len() && v@[i as int].0@ == ext@,
            None => forall|i: int| 0 <= i < v@.len() ==> v@[i].0@ != ext@,
        },
{
    let n = v.len();
    for i in 0..n
        invariant
            n == v@.len(),
            forall|t: int| 0 <= t < i ==> v@[t].0@ != ext@,
        decreases n - i,
    {
        if v[i].0.eq(ext) {
            return Some(i);
        }
    }
    None
}

/// Copies the flat pair list into the table, failing on the first pair
/// whose extension is already present.
fn build_file_table(flat: &Vec<(String, String)>) -> (r: Result<
    Vec<(String, String)>,
    FromMapError,
>)
    ensures
        r is Ok <==> distinct_exts(pair_views(flat@)),
        r matches Ok(f) ==> pair_views(f@) == pair_views(flat@),
        r matches Err(e) ==> conflict_reported(pair_views(flat@), e),
{
    let mut out: Vec<(String, String)> = Vec::new();
    let n = flat.len();
    let ghost pv = pair_views(flat@);
    for k in 0..n
        invariant
            n == flat@.len(),
            pv == pair_views(flat@),
            out@.len() == k,
            pair_views(out@) =~= pv.take(k as int),
            forall|k2: int| 0 <= k2 < k ==> !dup_before(pv, k2),
        decreases n - k,
    {
        match find_ext(&out, &flat[k].0) {
            Some(i) => {
                let e = FromMapError::ConflictingPluginTriggers {
                    ext: flat[k].0.clone(),
                    plugin1: out[i].1.clone(),
                    plugin2: flat[k].1.clone(),
                };
                proof {
                    assert(pair_views(out@)[i as int] == pv.take(k as int)[i as int]);
                    assert(pv.take(k as int)[i as int] == pv[i as int]);
                    assert(pair_views(out@)[i as int].0 == out@[i as int].0@);
                    assert(out@[i as int].0@ == flat@[k as int].0@);
                    assert(pv[k as int].0 == flat@[k as int].0@);
                    assert(pv[i as int].0 == pv[k as int].0);
                    assert(dup_before(pv, k as int));
                    assert(pair_views(out@)[i as int].1 == out@[i as int].1@);
                    assert(out@[i as int].1@ == pv[i as int].1);
                    assert(pv[k as int].1 == flat@[k as int].1@);
                    assert(exists|i2: int|
                        0 <= i2 < k && pv[i2].0 == pv[k as int].0 && out@[i as int].1@
                            == #[trigger] pv[i2].1);
                    assert(conflict_reported(pv, e));
                    assert(!distinct_exts(pv));
                }
                return Err(e);
            },
            None => {
                let entry = (flat[k].0.clone(), flat[k].1.clone());
                proof {
                    assert(pair_views(out@.push(entry)) =~= pv.take(k + 1));
                    assert forall|i2: int| 0 <= i2 < k implies pv[i2].0 != pv[k as int].0 by {
                        assert(pair_views(out@)[i2] == pv.take(k as int)[i2]);
                    }
                }
                out.push(entry);
            },
        }
    }
    proof {
        assert(pair_views(out@) =~= pv);
        assert forall|i: int, k: int| 0 <= i < k < pv.len() implies pv[i].0 != pv[k].0 by {
            assert(!dup_before(pv, k));
        }
    }
    Ok(out)
}

} // verus!
