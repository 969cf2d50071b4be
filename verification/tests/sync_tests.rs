use pai::sync::{
    check_local_source, check_repo_source,
    check_copy_target, is_remote_url, parse_remote_source, plan_sync, repo_cache_key,
    simple_hash, sync_outcome, SyncMode, SyncSource,
};

#[test]
fn mode_names() {
    assert_eq!(SyncMode::from_option(None).unwrap(), SyncMode::Full);
    assert_eq!(SyncMode::from_option(Some("clean".to_string())).unwrap(), SyncMode::Full);
    assert_eq!(SyncMode::from_option(Some("full".to_string())).unwrap(), SyncMode::Full);
    for name in ["incremental", "replace", "merge"] {
        assert_eq!(SyncMode::from_option(Some(name.to_string())).unwrap(), SyncMode::Incremental);
    }
}

#[test]
fn unknown_mode_is_refused_with_its_name() {
    assert_eq!(
        SyncMode::from_option(Some("mirror".to_string())).unwrap_err(),
        "未知同步模式: mirror"
    );
    assert_eq!(SyncMode::from_option(Some(String::new())).unwrap_err(), "未知同步模式: ");
    assert!(SyncMode::from_option(Some("Full".to_string())).is_err());
}

#[test]
fn remote_urls() {
    assert!(is_remote_url("http://example.com/r.git"));
    assert!(is_remote_url("https://github.com/a/b"));
    assert!(is_remote_url("git://host/repo"));
    assert!(is_remote_url("ssh://git@host/repo"));
    assert!(!is_remote_url("git@github.com:a/b.git"));
    assert!(!is_remote_url("C:\\work\\repo"));
    assert!(!is_remote_url("/home/u/repo"));
    assert!(!is_remote_url("HTTPS://x"));
}

#[test]
fn remote_source_with_sub_path() {
    assert_eq!(
        parse_remote_source("https://github.com/a/b.git::skills/x"),
        Some(("https://github.com/a/b.git".to_string(), Some("skills/x".to_string())))
    );
}

#[test]
fn remote_source_splits_at_first_separator() {
    assert_eq!(
        parse_remote_source("ssh://h/r::a::b"),
        Some(("ssh://h/r".to_string(), Some("a::b".to_string())))
    );
}

#[test]
fn remote_source_without_sub_path() {
    assert_eq!(
        parse_remote_source("https://github.com/a/b.git"),
        Some(("https://github.com/a/b.git".to_string(), None))
    );
    assert_eq!(
        parse_remote_source("https://github.com/a/b.git::"),
        Some(("https://github.com/a/b.git".to_string(), None))
    );
    assert_eq!(parse_remote_source("git://h:r"), Some(("git://h:r".to_string(), None)));
}

#[test]
fn local_source_is_not_split() {
    assert_eq!(parse_remote_source("C:\\a::b"), None);
    assert_eq!(parse_remote_source(""), None);
}

#[test]
fn rejoined_remote_source_gives_the_path_back() {
    let from = "https://h/r.git::docs/a";
    let (url, sub) = parse_remote_source(from).unwrap();
    assert_eq!(format!("{}::{}", url, sub.unwrap()), from);
}

#[test]
fn hash_of_known_strings() {
    assert_eq!(simple_hash(""), 5381);
    assert_eq!(simple_hash("abc"), 193485963);
    assert_eq!(simple_hash("é"), 5866513);
    assert_eq!(simple_hash(&"x".repeat(20)), 0x41b36467d5be24e5);
}

#[test]
fn cache_key_is_hex_of_hash() {
    assert_eq!(repo_cache_key("abc"), "b885c8b");
    assert_eq!(repo_cache_key("https://github.com/a/b.git"), "6216b0abb0171013");
}

#[test]
fn plan_for_remote_source_defaults_branch_to_main() {
    let plan = plan_sync("https://github.com/a/b.git::sub", None, None).unwrap();
    assert_eq!(plan.mode, SyncMode::Full);
    match plan.source {
        SyncSource::Remote { repo_url, branch, sub_path, cache_key } => {
            assert_eq!(repo_url, "https://github.com/a/b.git");
            assert_eq!(branch, "main");
            assert_eq!(sub_path, Some("sub".to_string()));
            assert_eq!(cache_key, "6216b0abb0171013");
        }
        SyncSource::Local => panic!("expected a remote source"),
    }
}

#[test]
fn plan_for_local_source_keeps_mode() {
    let plan = plan_sync("D:\\data", Some("dev".to_string()), Some("merge".to_string())).unwrap();
    assert_eq!(plan.mode, SyncMode::Incremental);
    assert!(matches!(plan.source, SyncSource::Local));
}

#[test]
fn plan_checks_mode_first() {
    let err = plan_sync("https://h/r", Some("dev".to_string()), Some("x".to_string())).unwrap_err();
    assert_eq!(err, "未知同步模式: x");
}

#[test]
fn plan_keeps_given_branch() {
    let plan = plan_sync("git://h/r", Some("release".to_string()), None).unwrap();
    match plan.source {
        SyncSource::Remote { branch, sub_path, .. } => {
            assert_eq!(branch, "release");
            assert_eq!(sub_path, None);
        }
        SyncSource::Local => panic!("expected a remote source"),
    }
}

#[test]
fn outcome_of_same_location_is_skipped() {
    let r = sync_outcome("a", "b", true, 7);
    assert!(r.skipped);
    assert_eq!(r.files_copied, 0);
    assert_eq!(r.error, None);
    assert_eq!(r.from, "a");
    assert_eq!(r.to, "b");
}

#[test]
fn outcome_of_empty_copy_is_an_error() {
    let r = sync_outcome("src", "dst", false, 0);
    assert!(!r.skipped);
    assert_eq!(r.files_copied, 0);
    assert_eq!(
        r.error.as_deref(),
        Some("源目录为空，未复制任何文件。请检查仓库地址和分支名是否正确")
    );
}

#[test]
fn outcome_of_copy_counts_files() {
    let r = sync_outcome("src", "dst", false, 12);
    assert!(!r.skipped);
    assert_eq!(r.files_copied, 12);
    assert_eq!(r.error, None);
}

#[test]
fn copy_target_checks() {
    assert_eq!(
        check_copy_target(true, true, false).unwrap_err(),
        "目标路径已存在且不是目录，无法同步目录"
    );
    assert_eq!(
        check_copy_target(false, true, true).unwrap_err(),
        "目标路径已存在且是目录，无法用源文件覆盖目录"
    );
    assert!(check_copy_target(true, false, false).is_ok());
    assert!(check_copy_target(true, true, true).is_ok());
    assert!(check_copy_target(false, true, false).is_ok());
    assert!(check_copy_target(false, false, false).is_ok());
}

#[test]
fn only_full_sync_clears_the_target() {
    assert!(SyncMode::Full.clears_target());
    assert!(!SyncMode::Incremental.clears_target());
}

#[test]
fn missing_sources_are_refused() {
    assert!(check_local_source("D:\\src", true).is_ok());
    assert_eq!(check_local_source("D:\\src", false).unwrap_err(), "源路径不存在: D:\\src");
    assert!(check_repo_source(&None, "C:\\cache", true).is_ok());
    assert_eq!(
        check_repo_source(&Some("docs".to_string()), "C:\\cache\\docs", false).unwrap_err(),
        "仓库内路径不存在: docs (缓存位置: C:\\cache\\docs)"
    );
    assert_eq!(
        check_repo_source(&None, "C:\\cache", false).unwrap_err(),
        "仓库内路径不存在:  (缓存位置: C:\\cache)"
    );
}
