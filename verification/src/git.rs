//! The decisions around the git commands that keep a repository cache and
//! commit synced paths: how a command's output becomes a result, which
//! commands bring a cache up to date, what a repository reports about itself,
//! and where a path lies inside a project.
use vstd::prelude::*;
use vstd::string::*;
use crate::text::{concat_str, signed_decimal, signed_decimal_string, str_eq, trim, trim_str};

verus! {

/// What a repository cache reports about itself.
#[derive(Debug)]
pub struct RepoInfo {
    pub ready: bool,
    pub commit: String,
    pub branch: String,
}

/// What an automatic commit did: "skipped", "committed" or
/// "committed-and-pushed", why it skipped, and the commit message.
#[derive(Debug)]
pub struct GitCommitResult {
    pub status: String,
    pub reason: String,
    pub message: String,
}

/// What an automatic commit did, as character sequences.
pub struct CommitResultView {
    pub status: Seq<char>,
    pub reason: Seq<char>,
    pub message: Seq<char>,
}

impl View for GitCommitResult {
    type V = CommitResultView;

    open spec fn view(&self) -> CommitResultView {
        CommitResultView { status: self.status@, reason: self.reason@, message: self.message@ }
    }
}

/// The views of a list of texts.
pub open spec fn texts_view(v: Seq<String>) -> Seq<Seq<char>> {
    v.map_values(|s: String| s@)
}

/// `words` with `sep` between each two of them.
pub open spec fn join(words: Seq<Seq<char>>, sep: Seq<char>) -> Seq<char>
    decreases words.len(),
{
    if words.len() == 0 {
        Seq::empty()
    } else if words.len() == 1 {
        words[0]
    } else {
        join(words.drop_last(), sep) + sep + words.last()
    }
}

/// `words` joined by `sep`.
pub fn join_texts(words: &Vec<String>, sep: &str) -> (s: String)
    ensures
        s@ == join(texts_view(words@), sep@),
{
    let ghost ws = texts_view(words@);
    let mut s = String::new();
    let mut i: usize = 0;
    assert(ws.take(0) =~= Seq::<Seq<char>>::empty());
    while i < words.len()
        invariant
            ws == texts_view(words@),
            i <= words@.len(),
            s@ == join(ws.take(i as int), sep@),
        decreases words@.len() - i,
    {
        assert(ws.take(i + 1).drop_last() =~= ws.take(i as int));
        assert(ws[i as int] == words@[i as int]@);
        if i != 0 {
            s.append(sep);
        }
        s.append(words[i].as_str());
        assert(s@ =~= join(ws.take(i + 1), sep@));
        i = i + 1;
    }
    assert(ws.take(i as int) =~= ws);
    s
}

/// The message of a failed git command that wrote nothing to stderr.
pub open spec fn exit_message(args: Seq<Seq<char>>, exit_code: Option<i32>) -> Seq<char> {
    let code = match exit_code {
        Some(c) => c as int,
        None => -1,
    };
    "git "@ + join(args, " "@) + " 失败，退出码: "@ + signed_decimal(code)
}

/// What a finished git command gives: on success its trimmed stdout; on
/// failure its trimmed stderr, or, where that is empty, a message naming the
/// arguments and the exit code (-1 where there is none).
pub fn git_outcome(
    args: &Vec<String>,
    success: bool,
    stdout: &str,
    stderr: &str,
    exit_code: Option<i32>,
) -> (r: Result<String, String>)
    ensures
        success ==> (r matches Ok(out) && out@ == trim(stdout@)),
        !success && trim(stderr@).len() != 0 ==> (r matches Err(e) && e@ == trim(stderr@)),
        !success && trim(stderr@).len() == 0 ==> (r matches Err(e) && e@ == exit_message(
            texts_view(args@),
            exit_code,
        )),
{
    let out = trim_str(stdout);
    let err = trim_str(stderr);
    if success {
        Ok(out)
    } else if err.as_str().is_empty() {
        let code = match exit_code {
            Some(c) => c,
            None => -1,
        };
        let mut msg = String::from_str("git ");
        let joined = join_texts(args, " ");
        msg.append(joined.as_str());
        msg.append(" 失败，退出码: ");
        let digits = signed_decimal_string(code);
        msg.append(digits.as_str());
        Err(msg)
    } else {
        Err(err)
    }
}

/// What a repository cache reports: not ready, with empty texts, where it
/// has no ".git"; else ready, with the output of the commit and branch
/// queries, or empty texts where a query failed.
pub fn get_repo_info(
    git_dir_exists: bool,
    commit: Result<String, String>,
    branch: Result<String, String>,
) -> (r: Result<RepoInfo, String>)
    ensures
        r matches Ok(info) && info.ready == git_dir_exists && (!git_dir_exists ==> info.commit@.len()
            == 0 && info.branch@.len() == 0) && (git_dir_exists ==> {
            &&& info.commit@ == match commit {
                Ok(c) => c@,
                Err(_) => Seq::<char>::empty(),
            }
            &&& info.branch@ == match branch {
                Ok(b) => b@,
                Err(_) => Seq::<char>::empty(),
            }
        }),
{
    if !git_dir_exists {
        return Ok(RepoInfo { ready: false, commit: String::new(), branch: String::new() });
    }
    let commit = match commit {
        Ok(c) => c,
        Err(_) => String::new(),
    };
    let branch = match branch {
        Ok(b) => b,
        Err(_) => String::new(),
    };
    Ok(RepoInfo { ready: true, commit, branch })
}

/// Whether a directory is inside a git work tree: it exists and
/// "git rev-parse --is-inside-work-tree" there answered "true".
pub fn is_git_repo(dir_exists: bool, inside_work_tree: &Result<String, String>) -> (b: bool)
    ensures
        b == (dir_exists && (*inside_work_tree matches Ok(out) && out@ == "true"@)),
{
    if !dir_exists {
        return false;
    }
    match inside_work_tree {
        Ok(out) => str_eq(out.as_str(), "true"),
        Err(_) => false,
    }
}


/// A git command: its arguments, and whether it runs inside the cache
/// directory (else in the current directory).
#[derive(Debug)]
pub struct GitCommand {
    pub args: Vec<String>,
    pub in_cache_dir: bool,
}

/// A git command's texts as character sequences.
pub struct CommandView {
    pub args: Seq<Seq<char>>,
    pub in_cache_dir: bool,
}

/// The views of a list of commands.
pub open spec fn commands_view(cs: Seq<GitCommand>) -> Seq<CommandView> {
    cs.map_values(|c: GitCommand| CommandView { args: texts_view(c.args@), in_cache_dir: c.in_cache_dir })
}

/// The commands that bring the cache of `repo_url` at `ref_name` up to date:
/// a shallow clone of the branch into the cache where there is none yet;
/// else, inside the cache, pointing "origin" at the URL, a shallow fetch of
/// the ref, a checkout of it and a hard reset to "origin/REF".
pub open spec fn repo_update_commands(
    repo_url: Seq<char>,
    ref_name: Seq<char>,
    cache_dir: Seq<char>,
    cached: bool,
) -> Seq<CommandView> {
    if !cached {
        seq![
            CommandView {
                args: seq!["clone"@, "--depth"@, "1"@, "--branch"@, ref_name, repo_url, cache_dir],
                in_cache_dir: false,
            },
        ]
    } else {
        seq![
            CommandView { args: seq!["remote"@, "set-url"@, "origin"@, repo_url], in_cache_dir: true },
            CommandView {
                args: seq!["fetch"@, "--depth"@, "1"@, "origin"@, ref_name],
                in_cache_dir: true,
            },
            CommandView { args: seq!["checkout"@, ref_name], in_cache_dir: true },
            CommandView {
                args: seq!["reset"@, "--hard"@, "origin/"@ + ref_name],
                in_cache_dir: true,
            },
        ]
    }
}

/// An owned copy of `s`.
pub(crate) fn text(s: &str) -> (t: String)
    ensures
        t@ == s@,
{
    String::from_str(s)
}

/// The commands that clone or update the cache of a repository, in order
/// (see `repo_update_commands`); `cached` tells whether the cache already
/// holds a ".git".
pub fn ensure_repo_commands(repo_url: &str, ref_name: &str, cache_dir: &str, cached: bool) -> (cs: Vec<GitCommand>)
    ensures
        commands_view(cs@) == repo_update_commands(repo_url@, ref_name@, cache_dir@, cached),
{
    let mut cs: Vec<GitCommand> = Vec::new();
    if !cached {
        let args = vec![
            text("clone"),
            text("--depth"),
            text("1"),
            text("--branch"),
            text(ref_name),
            text(repo_url),
            text(cache_dir),
        ];
        assert(texts_view(args@) =~= seq!["clone"@, "--depth"@, "1"@, "--branch"@, ref_name@, repo_url@, cache_dir@]);
        cs.push(GitCommand { args, in_cache_dir: false });
    } else {
        let a1 = vec![text("remote"), text("set-url"), text("origin"), text(repo_url)];
        let a2 = vec![text("fetch"), text("--depth"), text("1"), text("origin"), text(ref_name)];
        let a3 = vec![text("checkout"), text(ref_name)];
        let a4 = vec![text("reset"), text("--hard"), concat_str("origin/", ref_name)];
        assert(texts_view(a1@) =~= seq!["remote"@, "set-url"@, "origin"@, repo_url@]);
        assert(texts_view(a2@) =~= seq!["fetch"@, "--depth"@, "1"@, "origin"@, ref_name@]);
        assert(texts_view(a3@) =~= seq!["checkout"@, ref_name@]);
        assert(texts_view(a4@) =~= seq!["reset"@, "--hard"@, "origin/"@ + ref_name@]);
        cs.push(GitCommand { args: a1, in_cache_dir: true });
        cs.push(GitCommand { args: a2, in_cache_dir: true });
        cs.push(GitCommand { args: a3, in_cache_dir: true });
        cs.push(GitCommand { args: a4, in_cache_dir: true });
    }
    assert(commands_view(cs@) =~= repo_update_commands(repo_url@, ref_name@, cache_dir@, cached));
    cs
}

} // verus!
