use pai::git::{ensure_repo_commands, get_repo_info, git_outcome, is_git_repo, join_texts};

fn strings(xs: &[&str]) -> Vec<String> {
    xs.iter().map(|x| x.to_string()).collect()
}

#[test]
fn success_gives_trimmed_stdout() {
    let args = strings(&["rev-parse", "HEAD"]);
    assert_eq!(git_outcome(&args, true, "  abc123\n", "warn", Some(0)).unwrap(), "abc123");
}

#[test]
fn failure_gives_trimmed_stderr() {
    let args = strings(&["push"]);
    assert_eq!(
        git_outcome(&args, false, "", "fatal: no remote\n", Some(128)).unwrap_err(),
        "fatal: no remote"
    );
}

#[test]
fn silent_failure_names_arguments_and_code() {
    let args = strings(&["check-ignore", "-q", "--", "a.txt"]);
    assert_eq!(
        git_outcome(&args, false, "", " \n", Some(1)).unwrap_err(),
        "git check-ignore -q -- a.txt 失败，退出码: 1"
    );
    assert_eq!(
        git_outcome(&strings(&["status"]), false, "out", "", None).unwrap_err(),
        "git status 失败，退出码: -1"
    );
}

#[test]
fn join_with_separator() {
    assert_eq!(join_texts(&strings(&[]), " "), "");
    assert_eq!(join_texts(&strings(&["a"]), " "), "a");
    assert_eq!(join_texts(&strings(&["a", "b", "c"]), ", "), "a, b, c");
}

#[test]
fn clone_when_not_cached() {
    let cs = ensure_repo_commands("https://h/r.git", "main", "/c/x", false);
    assert_eq!(cs.len(), 1);
    assert_eq!(
        cs[0].args,
        strings(&["clone", "--depth", "1", "--branch", "main", "https://h/r.git", "/c/x"])
    );
    assert!(!cs[0].in_cache_dir);
}

#[test]
fn update_when_cached() {
    let cs = ensure_repo_commands("https://h/r.git", "dev", "/c/x", true);
    assert_eq!(cs.len(), 4);
    assert_eq!(cs[0].args, strings(&["remote", "set-url", "origin", "https://h/r.git"]));
    assert_eq!(cs[1].args, strings(&["fetch", "--depth", "1", "origin", "dev"]));
    assert_eq!(cs[2].args, strings(&["checkout", "dev"]));
    assert_eq!(cs[3].args, strings(&["reset", "--hard", "origin/dev"]));
    assert!(cs.iter().all(|c| c.in_cache_dir));
}

#[test]
fn repo_info_without_git_dir() {
    let info = get_repo_info(false, Ok("abc".to_string()), Ok("main".to_string())).unwrap();
    assert!(!info.ready);
    assert_eq!(info.commit, "");
    assert_eq!(info.branch, "");
}

#[test]
fn repo_info_with_git_dir() {
    let info = get_repo_info(true, Ok("abc".to_string()), Err("x".to_string())).unwrap();
    assert!(info.ready);
    assert_eq!(info.commit, "abc");
    assert_eq!(info.branch, "");
}

#[test]
fn git_repo_probe() {
    assert!(is_git_repo(true, &Ok("true".to_string())));
    assert!(!is_git_repo(false, &Ok("true".to_string())));
    assert!(!is_git_repo(true, &Ok("false".to_string())));
    assert!(!is_git_repo(true, &Err("fatal".to_string())));
}
