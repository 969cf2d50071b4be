use pai::commit::{auto_commit_and_push, CommitStep};

fn strings(xs: &[&str]) -> Vec<String> {
    xs.iter().map(|x| x.to_string()).collect()
}

fn run_args(step: &CommitStep) -> Vec<String> {
    match step {
        CommitStep::Run(args) => args.clone(),
        CommitStep::Finish(r) => panic!("expected a command, got {:?}", r),
    }
}

fn ok(s: &str) -> Result<String, String> {
    Ok(s.to_string())
}

fn err(s: &str) -> Result<String, String> {
    Err(s.to_string())
}

#[test]
fn not_a_repository_is_skipped() {
    let (_, step) = auto_commit_and_push(false, strings(&["a"]), "msg", false);
    match step {
        CommitStep::Finish(Ok(r)) => {
            assert_eq!(r.status, "skipped");
            assert_eq!(r.reason, "目标目录不是 Git 仓库");
            assert_eq!(r.message, "");
        }
        other => panic!("unexpected {:?}", other),
    }
}

#[test]
fn full_run_commits_and_pushes_the_paths_git_keeps() {
    let (mut s, step) = auto_commit_and_push(true, strings(&["a", "b", "c"]), "sync", false);
    assert_eq!(run_args(&step), strings(&["check-ignore", "-q", "--", "a"]));
    let step = s.advance(err("not ignored"));
    assert_eq!(run_args(&step), strings(&["check-ignore", "-q", "--", "b"]));
    let step = s.advance(ok(""));
    assert_eq!(run_args(&step), strings(&["check-ignore", "-q", "--", "c"]));
    let step = s.advance(err(""));
    assert_eq!(run_args(&step), strings(&["add", "-A", "--", "a", "c"]));
    let step = s.advance(ok(""));
    assert_eq!(run_args(&step), strings(&["status", "--porcelain", "--", "a", "c"]));
    let step = s.advance(ok(" M a\n"));
    assert_eq!(run_args(&step), strings(&["commit", "-m", "sync", "--", "a", "c"]));
    let step = s.advance(ok("[main 1234] sync"));
    assert_eq!(run_args(&step), strings(&["push"]));
    match s.advance(ok("")) {
        CommitStep::Finish(Ok(r)) => {
            assert_eq!(r.status, "committed-and-pushed");
            assert_eq!(r.reason, "");
            assert_eq!(r.message, "sync");
        }
        other => panic!("unexpected {:?}", other),
    }
}

#[test]
fn skip_push_stops_after_commit() {
    let (mut s, _) = auto_commit_and_push(true, strings(&["a"]), "m", true);
    s.advance(err(""));
    s.advance(ok(""));
    s.advance(ok("?? a"));
    match s.advance(ok("")) {
        CommitStep::Finish(Ok(r)) => {
            assert_eq!(r.status, "committed");
            assert_eq!(r.message, "m");
        }
        other => panic!("unexpected {:?}", other),
    }
}

#[test]
fn all_paths_ignored_is_skipped() {
    let (mut s, _) = auto_commit_and_push(true, strings(&["a", "b"]), "m", false);
    s.advance(ok(""));
    match s.advance(ok("")) {
        CommitStep::Finish(Ok(r)) => {
            assert_eq!(r.status, "skipped");
            assert_eq!(r.reason, "没有可提交的同步路径");
        }
        other => panic!("unexpected {:?}", other),
    }
}

#[test]
fn no_paths_at_all_is_skipped() {
    let (_, step) = auto_commit_and_push(true, Vec::new(), "m", false);
    match step {
        CommitStep::Finish(Ok(r)) => assert_eq!(r.reason, "没有可提交的同步路径"),
        other => panic!("unexpected {:?}", other),
    }
}

#[test]
fn no_changes_is_skipped() {
    let (mut s, _) = auto_commit_and_push(true, strings(&["a"]), "m", false);
    s.advance(err(""));
    s.advance(ok(""));
    match s.advance(ok("  \n ")) {
        CommitStep::Finish(Ok(r)) => {
            assert_eq!(r.status, "skipped");
            assert_eq!(r.reason, "同步路径没有 Git 改动");
        }
        other => panic!("unexpected {:?}", other),
    }
}

#[test]
fn failed_add_ends_with_its_error() {
    let (mut s, _) = auto_commit_and_push(true, strings(&["a"]), "m", false);
    s.advance(err(""));
    match s.advance(err("fatal: bad path")) {
        CommitStep::Finish(Err(e)) => assert_eq!(e, "fatal: bad path"),
        other => panic!("unexpected {:?}", other),
    }
}

#[test]
fn failed_push_ends_with_its_error() {
    let (mut s, _) = auto_commit_and_push(true, strings(&["a"]), "m", false);
    s.advance(err(""));
    s.advance(ok(""));
    s.advance(ok("M a"));
    s.advance(ok(""));
    match s.advance(err("rejected")) {
        CommitStep::Finish(Err(e)) => assert_eq!(e, "rejected"),
        other => panic!("unexpected {:?}", other),
    }
}
