//! Planning of the worktree lifecycle operations.
//!
//! Every operation is an ordered sequence of precondition checks, external
//! command invocations and prompts. The functions here compute, as plain
//! data with exact contracts, the command lines to run, the file contents
//! to write and the decisions to take; an unverified shell around the crate
//! performs the invocations and hands their outcomes back.

use crate::inventory::{RecordV, WorktreeRecord};
use crate::text::{has_suffix, is_suffixed, str_eq, suffix_from, trim, trim_spec};
use vstd::prelude::*;

verus! {

/// One external command: a program, its arguments, and an optional working
/// directory to run it in.
pub struct CmdSpec {
    pub program: String,
    pub args: Vec<String>,
    pub cwd: Option<String>,
}

/// The spec-level image of an optional working directory.
pub open spec fn opt_view(p: Option<String>) -> Option<Seq<char>> {
    match p {
        Some(s) => Some(s@),
        None => None,
    }
}

/// `c` invokes the version-control binary with exactly `args`, in `cwd`.
pub open spec fn is_git_cmd(c: CmdSpec, args: Seq<Seq<char>>, cwd: Option<Seq<char>>) -> bool {
    c.program@ == "git"@ && c.args.deep_view() == args && opt_view(c.cwd) == cwd
}

/// The probe that detects being inside a repository; a non-zero exit means
/// `NotInRepository`.
pub fn repo_check_command() -> (c: CmdSpec)
    ensures
        is_git_cmd(c, seq!["rev-parse"@, "--git-dir"@], None),
{
    let mut args: Vec<String> = Vec::new();
    args.push("rev-parse".to_owned());
    args.push("--git-dir".to_owned());
    let c = CmdSpec { program: "git".to_owned(), args, cwd: None };
    proof {
        assert(c.args.deep_view() =~= seq!["rev-parse"@, "--git-dir"@]);
    }
    c
}

/// The query for the shared metadata directory, whose parent is the
/// worktree root.
pub fn common_dir_command() -> (c: CmdSpec)
    ensures
        is_git_cmd(c, seq!["rev-parse"@, "--git-common-dir"@], None),
{
    let mut args: Vec<String> = Vec::new();
    args.push("rev-parse".to_owned());
    args.push("--git-common-dir".to_owned());
    let c = CmdSpec { program: "git".to_owned(), args, cwd: None };
    proof {
        assert(c.args.deep_view() =~= seq!["rev-parse"@, "--git-common-dir"@]);
    }
    c
}

/// The machine-readable worktree listing query.
pub fn worktree_list_command() -> (c: CmdSpec)
    ensures
        is_git_cmd(c, seq!["worktree"@, "list"@, "--porcelain"@], None),
{
    let mut args: Vec<String> = Vec::new();
    args.push("worktree".to_owned());
    args.push("list".to_owned());
    args.push("--porcelain".to_owned());
    let c = CmdSpec { program: "git".to_owned(), args, cwd: None };
    proof {
        assert(c.args.deep_view() =~= seq!["worktree"@, "list"@, "--porcelain"@]);
    }
    c
}

/// The fetch operation: fetch from the default remote with prune.
pub fn fetch_command() -> (c: CmdSpec)
    ensures
        is_git_cmd(c, seq!["fetch"@, "origin"@, "--prune"@], None),
{
    let mut args: Vec<String> = Vec::new();
    args.push("fetch".to_owned());
    args.push("origin".to_owned());
    args.push("--prune".to_owned());
    let c = CmdSpec { program: "git".to_owned(), args, cwd: None };
    proof {
        assert(c.args.deep_view() =~= seq!["fetch"@, "origin"@, "--prune"@]);
    }
    c
}

/// The pull operation, run with the resolved worktree as working directory.
pub fn pull_command(path: &str) -> (c: CmdSpec)
    ensures
        is_git_cmd(c, seq!["pull"@], Some(path@)),
{
    let mut args: Vec<String> = Vec::new();
    args.push("pull".to_owned());
    let c = CmdSpec { program: "git".to_owned(), args, cwd: Some(path.to_owned()) };
    proof {
        assert(c.args.deep_view() =~= seq!["pull"@]);
    }
    c
}

/// The shell-integration line for a resolved path: exactly `CD:<path>`
/// followed by one newline, and nothing else.
pub fn cd_output_line(path: &str) -> (r: String)
    ensures
        r@ == "CD:"@ + path@ + "\n"@,
{
    let mut s = "CD:".to_owned();
    s.append(path);
    s.append("\n");
    s
}

/// The token after the last `'/'` of `s` (all of `s` when it has none).
pub open spec fn after_last_slash(s: Seq<char>) -> Seq<char>
    decreases s.len(),
{
    if s.len() == 0 {
        Seq::empty()
    } else if s.last() == '/' {
        Seq::empty()
    } else {
        after_last_slash(s.drop_last()).push(s.last())
    }
}

proof fn lemma_after_last_slash_at(s: Seq<char>, j: int)
    requires
        0 <= j <= s.len(),
        forall|k: int| j <= k < s.len() ==> s[k] != '/',
        j == 0 || s[j - 1] == '/',
    ensures
        after_last_slash(s) == s.skip(j),
    decreases s.len(),
{
    if s.len() == 0 {
        assert(s.skip(0) =~= s);
    } else if s.last() == '/' {
        assert(j == s.len());
        assert(s.skip(j) =~= Seq::<char>::empty());
    } else {
        assert(j < s.len());
        let d = s.drop_last();
        assert forall|k: int| j <= k < d.len() implies d[k] != '/' by {
            assert(d[k] == s[k]);
        }
        lemma_after_last_slash_at(d, j);
        assert(d.skip(j).push(s.last()) =~= s.skip(j));
    }
}

/// The `.git` extension, as characters.
pub open spec fn git_suffix() -> Seq<char> {
    seq!['.', 'g', 'i', 't']
}

/// `s` with every trailing `.git` extension removed.
pub open spec fn chop_git(s: Seq<char>) -> Seq<char>
    decreases s.len(),
{
    if is_suffixed(s, git_suffix()) {
        chop_git(s.take(s.len() - 4))
    } else {
        s
    }
}

/// The basename of `url`: the characters after its last `'/'`.
fn basename_after_slash(url: &str) -> (r: String)
    ensures
        r@ == after_last_slash(url@),
{
    let n = url.unicode_len();
    let mut j: usize = n;
    while j > 0 && url.get_char(j - 1) != '/'
        invariant
            n == url@.len(),
            j <= n,
            forall|k: int| j <= k < n ==> url@[k] != '/',
        decreases j,
    {
        j -= 1;
    }
    proof {
        lemma_after_last_slash_at(url@, j as int);
    }
    suffix_from(url, j)
}

/// `name` with every trailing `.git` removed.
fn strip_git_suffix(name: String) -> (r: String)
    ensures
        r@ == chop_git(name@),
{
    let ghost orig = name@;
    let mut cur = name;
    while has_suffix(cur.as_str(), ".git")
        invariant
            chop_git(cur@) == chop_git(orig),
        decreases cur@.len(),
    {
        proof {
            reveal_strlit(".git");
            assert(".git"@ =~= git_suffix());
        }
        let ln = cur.unicode_len();
        let sub = cur.as_str().substring_char(0, ln - 4);
        proof {
            assert(cur@.subrange(0, cur@.len() - 4) =~= cur@.take(cur@.len() - 4));
        }
        cur = sub.to_owned();
    }
    proof {
        reveal_strlit(".git");
        assert(".git"@ =~= git_suffix());
    }
    cur
}

/// The directory a clone lands in: the explicit name when one is given,
/// else the repository basename of the URL without its `.git` extension.
pub open spec fn clone_dir_spec(url: Seq<char>, name: Option<Seq<char>>) -> Seq<char> {
    match name {
        Some(nm) => nm,
        None => chop_git(after_last_slash(url)),
    }
}

/// The plan for cloning as a bare store with worktree siblings: make the
/// directory, bare-clone into `.bare` inside it, write the metadata pointer
/// file, map all remote branches in the fetch refspec, then fetch.
pub struct ClonePlan {
    /// The directory to create; every command below runs inside it.
    pub dir_name: String,
    /// `git clone --bare <url> .bare`
    pub clone_cmd: CmdSpec,
    /// Contents of the `.git` pointer file written inside the directory.
    pub pointer_contents: String,
    /// `git config remote.origin.fetch +refs/heads/*:refs/remotes/origin/*`
    pub config_cmd: CmdSpec,
    /// `git fetch origin`
    pub fetch_cmd: CmdSpec,
    /// The one line owed on standard output when every step succeeded:
    /// `CD:<dir>` and a newline, for the shell wrapper to change into.
    pub success_output: String,
}

/// Plan the clone operation. Any step failing aborts the sequence at once;
/// a partly initialized directory is left behind by design.
pub fn plan_clone(url: &str, name: Option<&str>) -> (p: ClonePlan)
    ensures
        p.dir_name@ == clone_dir_spec(
            url@,
            match name {
                Some(nm) => Some(nm@),
                None => None,
            },
        ),
        is_git_cmd(p.clone_cmd, seq!["clone"@, "--bare"@, url@, ".bare"@], Some(p.dir_name@)),
        p.pointer_contents@ == "gitdir: ./.bare\n"@,
        is_git_cmd(
            p.config_cmd,
            seq!["config"@, "remote.origin.fetch"@, "+refs/heads/*:refs/remotes/origin/*"@],
            Some(p.dir_name@),
        ),
        is_git_cmd(p.fetch_cmd, seq!["fetch"@, "origin"@], Some(p.dir_name@)),
        p.success_output@ == "CD:"@ + p.dir_name@ + "\n"@,
{
    let dir_name = match name {
        Some(nm) => nm.to_owned(),
        None => strip_git_suffix(basename_after_slash(url)),
    };
    let mut clone_args: Vec<String> = Vec::new();
    clone_args.push("clone".to_owned());
    clone_args.push("--bare".to_owned());
    clone_args.push(url.to_owned());
    clone_args.push(".bare".to_owned());
    let clone_cmd = CmdSpec {
        program: "git".to_owned(),
        args: clone_args,
        cwd: Some(dir_name.clone()),
    };
    let mut config_args: Vec<String> = Vec::new();
    config_args.push("config".to_owned());
    config_args.push("remote.origin.fetch".to_owned());
    config_args.push("+refs/heads/*:refs/remotes/origin/*".to_owned());
    let config_cmd = CmdSpec {
        program: "git".to_owned(),
        args: config_args,
        cwd: Some(dir_name.clone()),
    };
    let mut fetch_args: Vec<String> = Vec::new();
    fetch_args.push("fetch".to_owned());
    fetch_args.push("origin".to_owned());
    let fetch_cmd = CmdSpec {
        program: "git".to_owned(),
        args: fetch_args,
        cwd: Some(dir_name.clone()),
    };
    let success_output = cd_output_line(dir_name.as_str());
    let p = ClonePlan {
        dir_name,
        clone_cmd,
        pointer_contents: "gitdir: ./.bare\n".to_owned(),
        config_cmd,
        fetch_cmd,
        success_output,
    };
    proof {
        assert(p.clone_cmd.args.deep_view() =~= seq!["clone"@, "--bare"@, url@, ".bare"@]);
        assert(p.config_cmd.args.deep_view() =~= seq![
            "config"@,
            "remote.origin.fetch"@,
            "+refs/heads/*:refs/remotes/origin/*"@,
        ]);
        assert(p.fetch_cmd.args.deep_view() =~= seq!["fetch"@, "origin"@]);
    }
    p
}

/// Position of the last `'/'` in `s`, or `-1` when there is none.
pub open spec fn last_slash_pos(s: Seq<char>) -> int
    decreases s.len(),
{
    if s.len() == 0 {
        -1
    } else if s.last() == '/' {
        s.len() - 1
    } else {
        last_slash_pos(s.drop_last())
    }
}

/// Parent directory of a (slash-separated, no trailing slash) path:
/// everything before the last `'/'`; the empty string for a bare name;
/// `/` for a first-level absolute path; nothing for `/` itself or for an
/// empty path.
pub open spec fn parent_dir(p: Seq<char>) -> Option<Seq<char>> {
    let k = last_slash_pos(p);
    if p.len() == 0 {
        None
    } else if k < 0 {
        Some(Seq::empty())
    } else if k == 0 {
        if p.len() == 1 {
            None
        } else {
            Some(p.take(1))
        }
    } else {
        Some(p.take(k))
    }
}

proof fn lemma_last_slash_at(s: Seq<char>, k: int)
    requires
        -1 <= k < s.len(),
        forall|t: int| k < t < s.len() ==> s[t] != '/',
        k == -1 || s[k] == '/',
    ensures
        last_slash_pos(s) == k,
    decreases s.len(),
{
    if s.len() == 0 {
    } else if s.last() == '/' {
        assert(k == s.len() - 1);
    } else {
        assert(k < s.len() - 1);
        let d = s.drop_last();
        assert forall|t: int| k < t < d.len() implies d[t] != '/' by {
            assert(d[t] == s[t]);
        }
        lemma_last_slash_at(d, k);
    }
}

/// The worktree root derived from the raw output of the metadata-directory
/// query: trim the output, then take its parent directory.
pub fn worktree_root_of(raw: &str) -> (r: Option<String>)
    ensures
        match r {
            Some(root) => parent_dir(trim_spec(raw@)) == Some(root@),
            None => parent_dir(trim_spec(raw@)) is None,
        },
{
    let p = trim(raw);
    let n = p.unicode_len();
    if n == 0 {
        return None;
    }
    let mut j: usize = n;
    while j > 0 && p.as_str().get_char(j - 1) != '/'
        invariant
            n == p@.len(),
            j <= n,
            forall|k: int| j <= k < n ==> p@[k] != '/',
        decreases j,
    {
        j -= 1;
    }
    proof {
        lemma_last_slash_at(p@, j as int - 1);
    }
    if j == 0 {
        Some(String::new())
    } else if j == 1 {
        if n == 1 {
            None
        } else {
            let sub = p.as_str().substring_char(0, 1);
            proof {
                assert(p@.subrange(0, 1) =~= p@.take(1));
            }
            Some(sub.to_owned())
        }
    } else {
        let sub = p.as_str().substring_char(0, j - 1);
        proof {
            assert(p@.subrange(0, j - 1) =~= p@.take(j - 1));
        }
        Some(sub.to_owned())
    }
}

/// `root` and `leaf` joined with a single path separator.
pub open spec fn joined_path(root: Seq<char>, leaf: Seq<char>) -> Seq<char> {
    if root.len() == 0 {
        leaf
    } else if root.last() == '/' {
        root + leaf
    } else {
        root + "/"@ + leaf
    }
}

/// The candidate directory of a new worktree: the root joined with the
/// branch name.
pub fn worktree_path_for(root: &str, branch: &str) -> (r: String)
    ensures
        r@ == joined_path(root@, branch@),
{
    let n = root.unicode_len();
    if n == 0 {
        return branch.to_owned();
    }
    let mut s = root.to_owned();
    if root.get_char(n - 1) != '/' {
        s.append("/");
    }
    s.append(branch);
    s
}

/// The base ref a new branch starts from: an explicit override when given,
/// else the same-named branch on the default remote.
pub fn base_ref_of(branch: &str, from: Option<&str>) -> (r: String)
    ensures
        r@ == match from {
            Some(f) => f@,
            None => "origin/"@ + branch@,
        },
{
    match from {
        Some(f) => f.to_owned(),
        None => {
            let mut s = "origin/".to_owned();
            s.append(branch);
            s
        },
    }
}

/// The cheap existence probe for a local branch ref; a non-zero exit means
/// "does not exist" and is never escalated as an error.
pub fn local_branch_probe(branch: &str) -> (c: CmdSpec)
    ensures
        is_git_cmd(c, seq!["rev-parse"@, "--verify"@, "refs/heads/"@ + branch@], None),
{
    let mut full = "refs/heads/".to_owned();
    full.append(branch);
    let mut args: Vec<String> = Vec::new();
    args.push("rev-parse".to_owned());
    args.push("--verify".to_owned());
    args.push(full);
    let c = CmdSpec { program: "git".to_owned(), args, cwd: None };
    proof {
        assert(c.args.deep_view() =~= seq!["rev-parse"@, "--verify"@, "refs/heads/"@ + branch@]);
    }
    c
}

/// The cheap existence probe for an arbitrary ref; a non-zero exit means
/// "does not exist" and is never escalated as an error.
pub fn ref_probe(base_ref: &str) -> (c: CmdSpec)
    ensures
        is_git_cmd(c, seq!["rev-parse"@, "--verify"@, base_ref@], None),
{
    let mut args: Vec<String> = Vec::new();
    args.push("rev-parse".to_owned());
    args.push("--verify".to_owned());
    args.push(base_ref.to_owned());
    let c = CmdSpec { program: "git".to_owned(), args, cwd: None };
    proof {
        assert(c.args.deep_view() =~= seq!["rev-parse"@, "--verify"@, base_ref@]);
    }
    c
}

/// The one command that creates a worktree, an informational note to emit
/// before running it, and the standard-output line owed on success.
pub struct AddPlan {
    pub command: CmdSpec,
    pub note: Option<String>,
    /// The one line owed on standard output when the creation succeeded:
    /// `CD:<path>` and a newline, for the shell wrapper to change into.
    pub success_output: String,
}

/// The fallback chain for creating a worktree at `path`: reuse the local
/// branch when it exists; else branch from the base ref when that exists;
/// else branch from `HEAD`, with a note saying the base ref was absent.
pub fn plan_add(path: &str, branch: &str, base_ref: &str, branch_exists: bool, base_ref_exists:
    bool) -> (p: AddPlan)
    ensures
        branch_exists ==> is_git_cmd(p.command, seq!["worktree"@, "add"@, path@, branch@], None)
            && p.note is None,
        !branch_exists && base_ref_exists ==> is_git_cmd(
            p.command,
            seq!["worktree"@, "add"@, path@, "-b"@, branch@, base_ref@],
            None,
        ) && p.note is None,
        !branch_exists && !base_ref_exists ==> is_git_cmd(
            p.command,
            seq!["worktree"@, "add"@, path@, "-b"@, branch@, "HEAD"@],
            None,
        ) && (p.note matches Some(m) && m@ == "Note: "@ + base_ref@
            + " doesn't exist, creating from HEAD"@),
        p.success_output@ == "CD:"@ + path@ + "\n"@,
{
    let mut args: Vec<String> = Vec::new();
    args.push("worktree".to_owned());
    args.push("add".to_owned());
    args.push(path.to_owned());
    let mut note: Option<String> = None;
    if branch_exists {
        args.push(branch.to_owned());
        proof {
            assert(args.deep_view() =~= seq!["worktree"@, "add"@, path@, branch@]);
        }
    } else {
        args.push("-b".to_owned());
        args.push(branch.to_owned());
        if base_ref_exists {
            args.push(base_ref.to_owned());
            proof {
                assert(args.deep_view() =~= seq![
                    "worktree"@,
                    "add"@,
                    path@,
                    "-b"@,
                    branch@,
                    base_ref@,
                ]);
            }
        } else {
            args.push("HEAD".to_owned());
            let mut m = "Note: ".to_owned();
            m.append(base_ref);
            m.append(" doesn't exist, creating from HEAD");
            note = Some(m);
            proof {
                assert(args.deep_view() =~= seq![
                    "worktree"@,
                    "add"@,
                    path@,
                    "-b"@,
                    branch@,
                    "HEAD"@,
                ]);
            }
        }
    }
    AddPlan {
        command: CmdSpec { program: "git".to_owned(), args, cwd: None },
        note,
        success_output: cd_output_line(path),
    }
}

/// The arguments of the removal command; `force` only forces the removal
/// of dirty state, it never bypasses the confirmation.
pub open spec fn removal_args(path: Seq<char>, force: bool) -> Seq<Seq<char>> {
    if force {
        seq!["worktree"@, "remove"@, "--force"@, path]
    } else {
        seq!["worktree"@, "remove"@, path]
    }
}

/// What the remove operation does after the confirmation prompt.
pub enum RmDecision {
    /// Declined or cancelled: terminate cleanly, run nothing.
    Cancelled,
    /// Confirmed: run this removal command.
    Remove { command: CmdSpec },
}

/// Cancellation is side-effect-free: only an explicit affirmative
/// confirmation (`Some(true)`) yields a removal command; a decline or a
/// cancelled prompt yields `Cancelled` and nothing is run.
pub fn decide_removal(confirmation: Option<bool>, path: &str, force: bool) -> (d: RmDecision)
    ensures
        confirmation == Some(true) ==> (d matches RmDecision::Remove { command } && is_git_cmd(
            command,
            removal_args(path@, force),
            None,
        )),
        confirmation != Some(true) ==> d is Cancelled,
{
    match confirmation {
        Some(true) => {
            let mut args: Vec<String> = Vec::new();
            args.push("worktree".to_owned());
            args.push("remove".to_owned());
            if force {
                args.push("--force".to_owned());
            }
            args.push(path.to_owned());
            proof {
                assert(args.deep_view() =~= removal_args(path@, force));
            }
            RmDecision::Remove {
                command: CmdSpec { program: "git".to_owned(), args, cwd: None },
            }
        },
        _ => RmDecision::Cancelled,
    }
}

/// The branch of the first record whose path equals `dir` exactly.
pub open spec fn branch_at(recs: Seq<RecordV>, dir: Seq<char>) -> Option<Seq<char>>
    decreases recs.len(),
{
    if recs.len() == 0 {
        None
    } else if recs[0].path == dir {
        Some(recs[0].branch)
    } else {
        branch_at(recs.skip(1), dir)
    }
}

/// Current-worktree detection: the branch of the first record whose
/// (canonical) path equals the (canonical) current directory exactly; no
/// ancestor matching. Callers canonicalize both sides before the call.
pub fn current_worktree_branch(records: &Vec<WorktreeRecord>, current_dir: &str) -> (r: Option<
    String,
>)
    ensures
        match r {
            Some(b) => branch_at(records.deep_view(), current_dir@) == Some(b@),
            None => branch_at(records.deep_view(), current_dir@) is None,
        },
{
    let n = records.len();
    let ghost recs = records.deep_view();
    proof {
        assert(recs.skip(0) =~= recs);
    }
    let mut i: usize = 0;
    while i < n
        invariant
            n == records@.len(),
            recs == records.deep_view(),
            i <= n,
            branch_at(recs.skip(i as int), current_dir@) == branch_at(recs, current_dir@),
        decreases n - i,
    {
        let rec = &records[i];
        proof {
            assert(recs.skip(i as int)[0] == recs[i as int]);
            assert(recs[i as int] == records@[i as int]@);
        }
        if str_eq(rec.path.as_str(), current_dir) {
            return Some(rec.branch.clone());
        }
        proof {
            assert(recs.skip(i as int).skip(1) =~= recs.skip(i as int + 1));
        }
        i += 1;
    }
    proof {
        assert(recs.skip(n as int) =~= Seq::<RecordV>::empty());
    }
    None
}

} // verus!
