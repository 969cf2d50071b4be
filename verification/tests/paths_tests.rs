use pai::paths::relative_path_inside_project;

fn rel(base: &str, target: &str) -> Option<String> {
    relative_path_inside_project(base, target)
}

#[test]
fn windows_path_inside_project() {
    assert_eq!(rel("C:\\proj", "C:\\proj\\src\\main.rs"), Some("src/main.rs".to_string()));
    assert_eq!(rel("C:/proj", "C:\\proj\\a\\b"), Some("a/b".to_string()));
}

#[test]
fn path_inside_itself_is_empty() {
    assert_eq!(rel("/home/u/p", "/home/u/p"), Some(String::new()));
    assert_eq!(rel("/home/u/p/", "/home/u/p/./"), Some(String::new()));
    assert_eq!(rel("", ""), Some(String::new()));
}

#[test]
fn paths_outside_the_project() {
    assert_eq!(rel("/home/u/p", "/home/u/q/x"), None);
    assert_eq!(rel("/home/u/p", "/home/u/pp/x"), None);
    assert_eq!(rel("a", "/a/b"), None);
    assert_eq!(rel("/a/b/c", "/a/b"), None);
    assert_eq!(rel("p", "./p/x"), None);
}

#[test]
fn blank_segments_and_separators() {
    assert_eq!(rel("/home/u/p/", "/home/u/p//a/./b/"), Some("a/./b".to_string()));
    assert_eq!(rel("/x//y", "/x/y/z"), Some("z".to_string()));
    assert_eq!(rel("./p", "./p/x"), Some("x".to_string()));
    assert_eq!(rel("", "x/y/"), Some("x/y".to_string()));
}

#[test]
fn joined_relative_path_comes_back() {
    for base in ["C:\\work\\proj", "/srv/data/", "proj", "\\\\srv\\share"] {
        for rel in ["a", "a/b", "skills/x/SKILL.md"] {
            let target = format!("{}/{}", base, rel);
            assert_eq!(rel_path(base, &target), Some(rel.to_string()));
        }
    }
}

fn rel_path(base: &str, target: &str) -> Option<String> {
    relative_path_inside_project(base, target)
}

#[test]
fn agrees_with_std_on_slash_paths() {
    let samples = [
        "", "/", "//", "a", "a/", "./a", ".", "./", "/a", "/a/b", "/a/./b", "/a//b/", "a/b/.",
        "a/b/./", "/a/b/c", "a/./b", "./a/b", "/a/b/../c", "a/b//", "/./a", ".//a", "//a",
        "./.", "/.", "a/.b", "..", "../a", "a/..", "/a/b/./", "x/y/z", "./x/./y",
    ];
    let mut bad = Vec::new();
    for base in samples {
        for target in samples {
            let expected = std::path::Path::new(target)
                .strip_prefix(base)
                .ok()
                .map(|p| p.to_string_lossy().to_string());
            let got = rel(base, target);
            if got != expected {
                bad.push(format!("{:?} {:?} got {:?} std {:?}", base, target, got, expected));
            }
        }
    }
    assert!(bad.is_empty(), "{}", bad.join("\n"));
}

#[test]
fn drive_letters_compare_without_case() {
    assert_eq!(rel("c:/p", "C:/p/a"), Some("a".to_string()));
    assert_eq!(rel("C:\\P", "c:\\P\\a"), Some("a".to_string()));
    assert_eq!(rel("C:\\p", "C:\\P\\a"), None);
    assert_eq!(rel("C:\\a", "D:\\a\\b"), None);
}

#[test]
fn drive_without_root_keeps_the_separator() {
    assert_eq!(rel("C:", "C:\\x"), Some("/x".to_string()));
    assert_eq!(rel("C:\\", "C:\\x"), Some("x".to_string()));
    assert_eq!(rel("c:", "C:x\\y"), Some("x/y".to_string()));
    assert_eq!(rel("C:\\", "C:x"), None);
}

#[test]
fn unc_share_is_one_component() {
    assert_eq!(
        rel("\\\\server\\share", "\\\\server\\share\\dir\\f"),
        Some("dir/f".to_string())
    );
    assert_eq!(rel("//server/share", "\\\\server\\share\\x"), Some("x".to_string()));
    assert_eq!(rel("\\\\server\\share", "\\\\server\\other\\f"), None);
    assert_eq!(rel("\\\\SERVER\\share", "\\\\server\\share\\f"), None);
    assert_eq!(rel("\\\\server", "\\\\server\\share\\f"), None);
}

#[test]
fn device_prefix() {
    assert_eq!(rel("\\\\.\\COM1", "\\\\.\\COM1\\x"), Some("x".to_string()));
}

#[test]
fn verbatim_paths_split_only_at_backslash() {
    assert_eq!(rel("\\\\?\\C:\\a", "\\\\?\\C:\\a/b"), None);
    assert_eq!(rel("\\\\?\\C:\\a", "\\\\?\\C:\\a\\b/c"), Some("b/c".to_string()));
    assert_eq!(rel("\\\\?\\c:\\a", "\\\\?\\C:\\a\\b"), Some("b".to_string()));
    assert_eq!(rel("C:\\a", "\\\\?\\C:\\a\\b"), None);
    assert_eq!(
        rel("\\\\?\\UNC\\srv\\sh", "\\\\?\\UNC\\srv\\sh\\d"),
        Some("/d".to_string())
    );
    assert_eq!(
        rel("\\\\?\\UNC\\srv\\sh\\", "\\\\?\\UNC\\srv\\sh\\d"),
        Some("d".to_string())
    );
}

#[test]
fn trailing_blank_segments_are_dropped() {
    assert_eq!(rel("C:\\a\\", "C:\\a\\.\\b\\."), Some("b".to_string()));
}

#[test]
fn relative_path_joined_by_backslash_comes_back() {
    for base in ["C:\\work", "\\\\?\\C:\\w", "\\\\srv\\share", "/root", "\\\\.\\COM1"] {
        let target = format!("{}\\{}", base, "a\\b.txt");
        assert_eq!(rel(base, &target), Some("a/b.txt".to_string()), "base {:?}", base);
    }
}
