//! The automatic commit of synced paths, as a session that decides the next
//! git command from the outcomes of the ones before: every path that git
//! does not ignore is added, the change is checked, committed and pushed
//! (unless pushing is skipped). The caller runs each command in the project
//! and hands the outcome back.
use vstd::prelude::*;
use vstd::string::*;
use crate::git::{text, texts_view, CommitResultView, GitCommitResult};
use crate::text::{trim, trim_str};

verus! {

/// The outcome of one git command: its output, or its error message.
pub type Outcome = Result<String, String>;

/// The view of an outcome.
pub open spec fn outcome_view(o: Outcome) -> Result<Seq<char>, Seq<char>> {
    match o {
        Ok(s) => Ok(s@),
        Err(e) => Err(e@),
    }
}

/// The next step of an automatic commit.
#[derive(Debug)]
pub enum CommitStep {
    /// Run git in the project with these arguments, then hand the outcome
    /// to `CommitSession::advance`.
    Run(Vec<String>),
    /// The commit is over, with this result.
    Finish(Result<GitCommitResult, String>),
}

/// A step, as character sequences.
pub enum StepView {
    Run(Seq<Seq<char>>),
    Finish(Result<CommitResultView, Seq<char>>),
}

/// The view of a step.
pub open spec fn step_view(s: CommitStep) -> StepView {
    match s {
        CommitStep::Run(args) => StepView::Run(texts_view(args@)),
        CommitStep::Finish(Ok(r)) => StepView::Finish(Ok(r@)),
        CommitStep::Finish(Err(e)) => StepView::Finish(Err(e@)),
    }
}

/// What an automatic commit is asked to do.
pub struct CommitConfig {
    /// Whether the project is a git work tree.
    pub is_repo: bool,
    pub paths: Seq<Seq<char>>,
    pub message: Seq<char>,
    pub skip_push: bool,
}

/// A skipped commit, for `reason`.
pub open spec fn skipped(reason: Seq<char>) -> CommitResultView {
    CommitResultView { status: "skipped"@, reason, message: Seq::empty() }
}

/// The reason given where the project is no git repository.
pub open spec fn not_a_repo_reason() -> Seq<char> {
    "目标目录不是 Git 仓库"@
}

/// The reason given where git ignores every path.
pub open spec fn no_paths_reason() -> Seq<char> {
    "没有可提交的同步路径"@
}

/// The reason given where the paths hold no change.
pub open spec fn no_changes_reason() -> Seq<char> {
    "同步路径没有 Git 改动"@
}

/// A commit that went through, pushed or not.
pub open spec fn committed(message: Seq<char>, pushed: bool) -> CommitResultView {
    CommitResultView {
        status: if pushed { "committed-and-pushed"@ } else { "committed"@ },
        reason: Seq::empty(),
        message,
    }
}

/// The first `n` paths that git does not ignore: those whose "check-ignore"
/// outcome (in `h`, one per path, in order) is an error.
pub open spec fn kept_paths(paths: Seq<Seq<char>>, h: Seq<Result<Seq<char>, Seq<char>>>, n: int) -> Seq<Seq<char>>
    decreases n,
{
    if n <= 0 {
        Seq::empty()
    } else if h[n - 1] is Err {
        kept_paths(paths, h, n - 1).push(paths[n - 1])
    } else {
        kept_paths(paths, h, n - 1)
    }
}

/// The next step of an automatic commit after the outcomes `h` of the
/// commands run so far, in order: one "check-ignore" per path, then "add",
/// "status", "commit" and "push" on the paths that git does not ignore. A
/// failed add, status, commit or push ends the commit with its error.
pub open spec fn commit_plan(cfg: CommitConfig, h: Seq<Result<Seq<char>, Seq<char>>>) -> StepView {
    let n = cfg.paths.len() as int;
    if !cfg.is_repo {
        StepView::Finish(Ok(skipped(not_a_repo_reason())))
    } else if h.len() < n {
        StepView::Run(seq!["check-ignore"@, "-q"@, "--"@, cfg.paths[h.len() as int]])
    } else {
        let kept = kept_paths(cfg.paths, h, n);
        if kept.len() == 0 {
            StepView::Finish(Ok(skipped(no_paths_reason())))
        } else if h.len() == n {
            StepView::Run(seq!["add"@, "-A"@, "--"@] + kept)
        } else if h[n] is Err {
            StepView::Finish(Err(h[n]->Err_0))
        } else if h.len() == n + 1 {
            StepView::Run(seq!["status"@, "--porcelain"@, "--"@] + kept)
        } else if h[n + 1] is Err {
            StepView::Finish(Err(h[n + 1]->Err_0))
        } else if trim(h[n + 1]->Ok_0).len() == 0 {
            StepView::Finish(Ok(skipped(no_changes_reason())))
        } else if h.len() == n + 2 {
            StepView::Run(seq!["commit"@, "-m"@, cfg.message, "--"@] + kept)
        } else if h[n + 2] is Err {
            StepView::Finish(Err(h[n + 2]->Err_0))
        } else if cfg.skip_push {
            StepView::Finish(Ok(committed(cfg.message, false)))
        } else if h.len() == n + 3 {
            StepView::Run(seq!["push"@])
        } else if h[n + 3] is Err {
            StepView::Finish(Err(h[n + 3]->Err_0))
        } else {
            StepView::Finish(Ok(committed(cfg.message, true)))
        }
    }
}

/// An automatic commit in progress.
pub struct CommitSession {
    is_repo: bool,
    paths: Vec<String>,
    message: String,
    skip_push: bool,
    kept: Vec<String>,
    received: usize,
    stage: u8,
    history: Ghost<Seq<Result<Seq<char>, Seq<char>>>>,
}

impl CommitSession {
    /// What this commit was asked to do.
    pub closed spec fn config(&self) -> CommitConfig {
        CommitConfig {
            is_repo: self.is_repo,
            paths: texts_view(self.paths@),
            message: self.message@,
            skip_push: self.skip_push,
        }
    }

    /// The outcomes handed in so far, in order.
    pub closed spec fn history(&self) -> Seq<Result<Seq<char>, Seq<char>>> {
        self.history@
    }

    /// Whether the state agrees with the outcomes handed in.
    pub closed spec fn wf(&self) -> bool {
        &&& self.received <= self.paths@.len()
        &&& self.stage <= 4
        &&& self.stage > 0 ==> self.received == self.paths@.len()
        &&& self.history@.len() == self.received + self.stage
        &&& texts_view(self.kept@) == kept_paths(texts_view(self.paths@), self.history@, self.received as int)
    }

    /// Whether the session waits for the outcome of a command.
    pub open spec fn is_running(&self) -> bool {
        commit_plan(self.config(), self.history()) is Run
    }

    /// The step before the add: a "check-ignore" while paths are left to
    /// check, then the add on the kept paths, or a skip where none is kept.
    fn step_before_add(&self) -> (step: CommitStep)
        requires
            self.wf(),
            self.is_repo,
            self.stage == 0,
        ensures
            step_view(step) == commit_plan(self.config(), self.history()),
    {
        let n = self.paths.len();
        if self.received < n {
            let args = vec![
                text("check-ignore"),
                text("-q"),
                text("--"),
                self.paths[self.received].clone(),
            ];
            assert(texts_view(args@) =~= seq!["check-ignore"@, "-q"@, "--"@, texts_view(self.paths@)[self.received as int]]);
            CommitStep::Run(args)
        } else if self.kept.len() == 0 {
            CommitStep::Finish(Ok(skipped_result("没有可提交的同步路径")))
        } else {
            let head = vec![text("add"), text("-A"), text("--")];
            assert(texts_view(head@) =~= seq!["add"@, "-A"@, "--"@]);
            CommitStep::Run(with_paths(head, &self.kept))
        }
    }

    /// Takes the outcome of the command that the last step asked for, and
    /// gives the next step: the one that `commit_plan` names for the
    /// outcomes so far.
    pub fn advance(&mut self, outcome: Outcome) -> (step: CommitStep)
        requires
            old(self).wf(),
            old(self).is_running(),
        ensures
            final(self).wf(),
            final(self).config() == old(self).config(),
            final(self).history() == old(self).history().push(outcome_view(outcome)),
            step_view(step) == commit_plan(final(self).config(), final(self).history()),
    {
        let ghost h0 = self.history@;
        let ghost paths = texts_view(self.paths@);
        let ghost o = outcome_view(outcome);
        let n = self.paths.len();
        let i = self.received;
        proof {
            lemma_kept_paths_extend(paths, h0, o, i as int);
        }
        self.history = Ghost(h0.push(o));
        if i < n && self.stage == 0 {
            self.received = i + 1;
            if outcome.is_err() {
                let p = self.paths[i].clone();
                self.kept.push(p);
            }
            proof {
                assert(self.history@[i as int] == o);
                assert(texts_view(self.kept@) =~= kept_paths(paths, self.history@, (i + 1) as int));
            }
            return self.step_before_add();
        }
        let stage = self.stage;
        self.stage = stage + 1;
        let ghost h = self.history@;
        assert(h[n as int + stage as int] == o);
        if stage == 0 {
            match outcome {
                Err(e) => CommitStep::Finish(Err(e)),
                Ok(_) => {
                    let head = vec![text("status"), text("--porcelain"), text("--")];
                    assert(texts_view(head@) =~= seq!["status"@, "--porcelain"@, "--"@]);
                    CommitStep::Run(with_paths(head, &self.kept))
                },
            }
        } else if stage == 1 {
            match outcome {
                Err(e) => CommitStep::Finish(Err(e)),
                Ok(out) => {
                    let trimmed = trim_str(out.as_str());
                    if trimmed.as_str().is_empty() {
                        CommitStep::Finish(Ok(skipped_result("同步路径没有 Git 改动")))
                    } else {
                        let head = vec![text("commit"), text("-m"), self.message.clone(), text("--")];
                        assert(texts_view(head@) =~= seq!["commit"@, "-m"@, self.message@, "--"@]);
                        CommitStep::Run(with_paths(head, &self.kept))
                    }
                },
            }
        } else if stage == 2 {
            match outcome {
                Err(e) => CommitStep::Finish(Err(e)),
                Ok(_) => {
                    if self.skip_push {
                        CommitStep::Finish(Ok(committed_result(&self.message, false)))
                    } else {
                        let args = vec![text("push")];
                        assert(texts_view(args@) =~= seq!["push"@]);
                        CommitStep::Run(args)
                    }
                },
            }
        } else {
            match outcome {
                Err(e) => CommitStep::Finish(Err(e)),
                Ok(_) => CommitStep::Finish(Ok(committed_result(&self.message, true))),
            }
        }
    }
}

/// The outcomes after the first `k` do not change which of the first `k`
/// paths are kept.
proof fn lemma_kept_paths_extend(
    paths: Seq<Seq<char>>,
    h: Seq<Result<Seq<char>, Seq<char>>>,
    o: Result<Seq<char>, Seq<char>>,
    k: int,
)
    requires
        k <= h.len(),
    ensures
        kept_paths(paths, h.push(o), k) == kept_paths(paths, h, k),
    decreases k,
{
    if k > 0 {
        lemma_kept_paths_extend(paths, h, o, k - 1);
        assert(h.push(o)[k - 1] == h[k - 1]);
    }
}

/// `head` followed by copies of `paths`.
fn with_paths(head: Vec<String>, paths: &Vec<String>) -> (args: Vec<String>)
    ensures
        texts_view(args@) == texts_view(head@) + texts_view(paths@),
{
    let mut args = head;
    let ghost h = texts_view(args@);
    let mut i: usize = 0;
    assert(texts_view(paths@).take(0) =~= Seq::<Seq<char>>::empty());
    assert(h + texts_view(paths@).take(0) =~= h);
    while i < paths.len()
        invariant
            i <= paths@.len(),
            texts_view(args@) == h + texts_view(paths@).take(i as int),
        decreases paths@.len() - i,
    {
        let ghost before = texts_view(args@);
        args.push(paths[i].clone());
        assert(texts_view(args@) =~= before.push(paths@[i as int]@));
        assert(texts_view(args@) =~= h + texts_view(paths@).take(i + 1));
        i = i + 1;
    }
    assert(texts_view(paths@).take(i as int) =~= texts_view(paths@));
    args
}

fn skipped_result(reason: &str) -> (r: GitCommitResult)
    ensures
        r@ == skipped(reason@),
{
    GitCommitResult { status: text("skipped"), reason: text(reason), message: String::new() }
}

fn committed_result(message: &String, pushed: bool) -> (r: GitCommitResult)
    ensures
        r@ == committed(message@, pushed),
{
    let status = if pushed { text("committed-and-pushed") } else { text("committed") };
    GitCommitResult { status, reason: String::new(), message: message.clone() }
}

/// Starts the automatic commit of `paths` in a project, with `message`;
/// `is_repo` tells whether the project is a git work tree (see
/// `is_git_repo`). Gives the session and its first step.
pub fn auto_commit_and_push(is_repo: bool, paths: Vec<String>, message: &str, skip_push: bool) -> (r: (
    CommitSession,
    CommitStep,
))
    ensures
        r.0.wf(),
        r.0.config() == (CommitConfig {
            is_repo,
            paths: texts_view(paths@),
            message: message@,
            skip_push,
        }),
        r.0.history() == Seq::<Result<Seq<char>, Seq<char>>>::empty(),
        step_view(r.1) == commit_plan(r.0.config(), r.0.history()),
{
    let session = CommitSession {
        is_repo,
        paths,
        message: text(message),
        skip_push,
        kept: Vec::new(),
        received: 0,
        stage: 0,
        history: Ghost(Seq::empty()),
    };
    assert(texts_view(session.kept@) =~= Seq::<Seq<char>>::empty());
    if !is_repo {
        let step = CommitStep::Finish(Ok(skipped_result("目标目录不是 Git 仓库")));
        return (session, step);
    }
    let step = session.step_before_add();
    (session, step)
}


/// With pushing skipped, an automatic commit never runs "git push" and never
/// reports a push.
pub proof fn lemma_skip_push_never_pushes(cfg: CommitConfig, h: Seq<Result<Seq<char>, Seq<char>>>)
    requires
        cfg.skip_push,
    ensures
        commit_plan(cfg, h) != StepView::Run(seq!["push"@]),
        commit_plan(cfg, h) != StepView::Finish(Ok(committed(cfg.message, true))),
{
    reveal_strlit("committed");
    reveal_strlit("committed-and-pushed");
    reveal_strlit("skipped");
    assert("committed"@.len() != "committed-and-pushed"@.len());
    assert("skipped"@.len() != "committed-and-pushed"@.len());
    let n = cfg.paths.len() as int;
    if cfg.is_repo && h.len() >= n {
        let kept = kept_paths(cfg.paths, h, n);
        if kept.len() > 0 {
            assert((seq!["add"@, "-A"@, "--"@] + kept).len() > 1);
            assert((seq!["status"@, "--porcelain"@, "--"@] + kept).len() > 1);
            assert((seq!["commit"@, "-m"@, cfg.message, "--"@] + kept).len() > 1);
        }
    }
    if cfg.is_repo && h.len() < n {
        assert(seq!["check-ignore"@, "-q"@, "--"@, cfg.paths[h.len() as int]].len() > 1);
    }
    assert(seq!["push"@].len() == 1);
}

/// An automatic commit asks for at most one command per path and four more:
/// after that many outcomes it is over.
pub proof fn lemma_commit_ends(cfg: CommitConfig, h: Seq<Result<Seq<char>, Seq<char>>>)
    requires
        h.len() >= cfg.paths.len() + 4,
    ensures
        commit_plan(cfg, h) is Finish,
{
}

/// A commit that went through reports the message it was given, and comes
/// only after git accepted the add, found changes and made the commit.
pub proof fn lemma_committed_after_commit(cfg: CommitConfig, h: Seq<Result<Seq<char>, Seq<char>>>)
    requires
        commit_plan(cfg, h) matches StepView::Finish(Ok(r)) && r.reason.len() == 0,
    ensures
        commit_plan(cfg, h) matches StepView::Finish(Ok(r)) && r.message == cfg.message,
        ({
            let n = cfg.paths.len() as int;
            &&& h.len() >= n + 3
            &&& h[n] is Ok
            &&& h[n + 1] is Ok && trim(h[n + 1]->Ok_0).len() != 0
            &&& h[n + 2] is Ok
        }),
{
    reveal_strlit("目标目录不是 Git 仓库");
    reveal_strlit("没有可提交的同步路径");
    reveal_strlit("同步路径没有 Git 改动");
}

/// A failed add, status, commit or push ends the automatic commit with that
/// command's own error: whatever the session asked for last, if git refused
/// it, the commit reports git's message and runs nothing more.
pub proof fn lemma_failed_command_ends_with_its_error(cfg: CommitConfig, h: Seq<Result<Seq<char>, Seq<char>>>)
    requires
        h.len() > cfg.paths.len(),
        commit_plan(cfg, h.drop_last()) is Run,
        h.last() is Err,
    ensures
        commit_plan(cfg, h) == StepView::Finish(Err(h.last()->Err_0)),
{
    let n = cfg.paths.len() as int;
    let h0 = h.drop_last();
    assert(h0.push(h.last()) =~= h);
    lemma_kept_paths_extend(cfg.paths, h0, h.last(), n);
    assert forall|k: int| 0 <= k < h0.len() implies h[k] == #[trigger] h0[k] by {}
}

/// A commit is skipped for "no changes" only when git's status of the kept
/// paths succeeded and printed nothing but white space; a commit is skipped
/// for "no paths" only when git ignores every path; and it is skipped for
/// "not a repository" exactly when the project is none.
pub proof fn lemma_skip_reasons(cfg: CommitConfig, h: Seq<Result<Seq<char>, Seq<char>>>)
    ensures
        commit_plan(cfg, h) == StepView::Finish(Ok(skipped(no_changes_reason()))) ==> {
            let n = cfg.paths.len() as int;
            &&& cfg.is_repo
            &&& h.len() >= n + 2
            &&& h[n] is Ok
            &&& h[n + 1] is Ok
            &&& trim(h[n + 1]->Ok_0).len() == 0
        },
        commit_plan(cfg, h) == StepView::Finish(Ok(skipped(no_paths_reason()))) ==> {
            &&& cfg.is_repo
            &&& h.len() >= cfg.paths.len()
            &&& forall|i: int| 0 <= i < cfg.paths.len() ==> #[trigger] h[i] is Ok
        },
        commit_plan(cfg, h) == StepView::Finish(Ok(skipped(not_a_repo_reason()))) <==> !cfg.is_repo,
{
    reveal_strlit("目标目录不是 Git 仓库");
    reveal_strlit("没有可提交的同步路径");
    reveal_strlit("同步路径没有 Git 改动");
    reveal_strlit("skipped");
    reveal_strlit("committed");
    reveal_strlit("committed-and-pushed");
    assert(no_changes_reason().len() != no_paths_reason().len());
    assert(no_paths_reason().len() != not_a_repo_reason().len());
    assert(no_changes_reason()[0] != not_a_repo_reason()[0]);
    assert("skipped"@.len() != "committed"@.len());
    assert("skipped"@.len() != "committed-and-pushed"@.len());
    let n = cfg.paths.len() as int;
    if cfg.is_repo && h.len() >= n && kept_paths(cfg.paths, h, n).len() == 0 {
        lemma_kept_empty_means_all_ignored(cfg.paths, h, n);
    }
}

/// Where no path is kept, git ignored every one of them.
proof fn lemma_kept_empty_means_all_ignored(
    paths: Seq<Seq<char>>,
    h: Seq<Result<Seq<char>, Seq<char>>>,
    k: int,
)
    requires
        0 <= k <= h.len(),
        kept_paths(paths, h, k).len() == 0,
    ensures
        forall|i: int| 0 <= i < k ==> #[trigger] h[i] is Ok,
    decreases k,
{
    if k > 0 {
        lemma_kept_empty_means_all_ignored(paths, h, k - 1);
    }
}

/// The paths that git does not ignore, in their order: those whose
/// "check-ignore" outcome (one per path, in `h`) is an error.
pub open spec fn not_ignored(paths: Seq<Seq<char>>, h: Seq<Result<Seq<char>, Seq<char>>>) -> Seq<Seq<char>> {
    Seq::new(paths.len(), |i: int| i).filter(|i: int| h[i] is Err).map_values(|i: int| paths[i])
}

proof fn lemma_kept_is_not_ignored(paths: Seq<Seq<char>>, h: Seq<Result<Seq<char>, Seq<char>>>, k: int)
    requires
        0 <= k <= paths.len(),
    ensures
        kept_paths(paths, h, k) == Seq::new(k as nat, |i: int| i).filter(|i: int| h[i] is Err).map_values(
            |i: int| paths[i],
        ),
    decreases k,
{
    reveal_with_fuel(Seq::filter, 1);
    let pred = |i: int| h[i] is Err;
    if k > 0 {
        lemma_kept_is_not_ignored(paths, h, k - 1);
        assert(Seq::new(k as nat, |i: int| i).drop_last() =~= Seq::new((k - 1) as nat, |i: int| i));
        let g = Seq::new((k - 1) as nat, |i: int| i).filter(pred);
        if h[k - 1] is Err {
            assert(g.push(k - 1).map_values(|i: int| paths[i]) =~= g.map_values(|i: int| paths[i]).push(
                paths[k - 1],
            ));
        }
    } else {
        assert(Seq::new(0, |i: int| i).filter(pred) =~= Seq::<int>::empty());
        assert(Seq::<int>::empty().map_values(|i: int| paths[i]) =~= Seq::<Seq<char>>::empty());
    }
}

/// The commands that an automatic commit runs, in order: one
/// "check-ignore -q -- PATH" per path; then "add -A --", "status
/// --porcelain --" and "commit -m MESSAGE --", each on exactly the paths
/// that git does not ignore, in their order; then "push". Each command after
/// the check-ignores comes only after the one before it succeeded, and the
/// commit only after a status that printed more than white space.
pub proof fn lemma_commands_in_order(cfg: CommitConfig, h: Seq<Result<Seq<char>, Seq<char>>>)
    ensures
        ({
            let n = cfg.paths.len() as int;
            let kept = not_ignored(cfg.paths, h);
            commit_plan(cfg, h) matches StepView::Run(args) ==> {
                &&& cfg.is_repo
                &&& h.len() <= n + 3
                &&& h.len() < n ==> args == seq!["check-ignore"@, "-q"@, "--"@, cfg.paths[h.len() as int]]
                &&& h.len() == n ==> args == seq!["add"@, "-A"@, "--"@] + kept
                &&& h.len() == n + 1 ==> args == seq!["status"@, "--porcelain"@, "--"@] + kept
                &&& h.len() == n + 2 ==> args == seq!["commit"@, "-m"@, cfg.message, "--"@] + kept
                &&& h.len() == n + 3 ==> args == seq!["push"@] && !cfg.skip_push
                &&& h.len() >= n ==> kept.len() > 0
                &&& h.len() >= n + 1 ==> h[n] is Ok
                &&& h.len() >= n + 2 ==> h[n + 1] is Ok && trim(h[n + 1]->Ok_0).len() != 0
                &&& h.len() >= n + 3 ==> h[n + 2] is Ok
            }
        }),
{
    let n = cfg.paths.len() as int;
    if h.len() >= n {
        lemma_kept_is_not_ignored(cfg.paths, h, n);
    }
}

/// A commit is reported pushed only when pushing was not skipped and git
/// accepted the push, after the commit went through.
pub proof fn lemma_pushed_after_push(cfg: CommitConfig, h: Seq<Result<Seq<char>, Seq<char>>>)
    requires
        commit_plan(cfg, h) == StepView::Finish(Ok(committed(cfg.message, true))),
    ensures
        ({
            let n = cfg.paths.len() as int;
            &&& !cfg.skip_push
            &&& h.len() >= n + 4
            &&& h[n + 2] is Ok
            &&& h[n + 3] is Ok
        }),
{
    reveal_strlit("目标目录不是 Git 仓库");
    reveal_strlit("没有可提交的同步路径");
    reveal_strlit("同步路径没有 Git 改动");
    reveal_strlit("skipped");
    reveal_strlit("committed");
    reveal_strlit("committed-and-pushed");
    assert("skipped"@.len() != "committed-and-pushed"@.len());
    assert("committed"@.len() != "committed-and-pushed"@.len());
}

} // verus!
