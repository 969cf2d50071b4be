//! The decisions of a sync run: which mode a name selects, whether a source
//! is a remote repository (and which part of it), where its cache lives, and
//! what a finished run reports.
use vstd::prelude::*;
use vstd::string::*;
use crate::text::{chars_of, concat_str, hex, hex_string, starts_with, str_eq, str_starts_with, string_of};

verus! {

/// What one sync run reports.
#[derive(Debug)]
pub struct SyncResult {
    pub from: String,
    pub to: String,
    pub skipped: bool,
    pub error: Option<String>,
    pub files_copied: u64,
}

/// How a sync treats what the target already holds.
#[derive(Clone, Copy, Debug, PartialEq, Eq, Structural)]
pub enum SyncMode {
    /// The target is removed first, then the source is copied.
    Full,
    /// The source is copied over the target; extra target files stay.
    Incremental,
}

/// The message for a mode name that no mode answers to.
pub open spec fn unknown_mode_message(name: Seq<char>) -> Seq<char> {
    "未知同步模式: "@ + name
}

impl SyncMode {
    /// The mode that `name` selects: "full" and "clean" select a full sync,
    /// "incremental", "replace" and "merge" an incremental one.
    pub open spec fn named(name: Seq<char>) -> Option<SyncMode> {
        if name == "full"@ || name == "clean"@ {
            Some(SyncMode::Full)
        } else if name == "incremental"@ || name == "replace"@ || name == "merge"@ {
            Some(SyncMode::Incremental)
        } else {
            None
        }
    }

    /// Whether a sync in this mode removes the target before copying: a
    /// full sync does; an incremental one keeps what the target holds and
    /// copies over it.
    pub fn clears_target(&self) -> (b: bool)
        ensures
            b == (*self == SyncMode::Full),
    {
        match self {
            SyncMode::Full => true,
            SyncMode::Incremental => false,
        }
    }

    /// The mode named by `value`, or by "full" where there is none.
    pub fn from_option(value: Option<String>) -> (r: Result<SyncMode, String>)
        ensures
            ({
                let name = match value {
                    Some(v) => v@,
                    None => "full"@,
                };
                match SyncMode::named(name) {
                    Some(m) => r == Ok::<SyncMode, String>(m),
                    None => r matches Err(e) && e@ == unknown_mode_message(name),
                }
            }),
    {
        let name = match value {
            Some(v) => v,
            None => String::from_str("full"),
        };
        let n = name.as_str();
        if str_eq(n, "full") || str_eq(n, "clean") {
            Ok(SyncMode::Full)
        } else if str_eq(n, "incremental") || str_eq(n, "replace") || str_eq(n, "merge") {
            Ok(SyncMode::Incremental)
        } else {
            Err(concat_str("未知同步模式: ", n))
        }
    }
}

/// Whether `path` names a remote repository by its scheme.
pub open spec fn is_remote(path: Seq<char>) -> bool {
    ||| starts_with(path, "http://"@)
    ||| starts_with(path, "https://"@)
    ||| starts_with(path, "git://"@)
    ||| starts_with(path, "ssh://"@)
}

/// Whether `path` starts with "http://", "https://", "git://" or "ssh://".
pub fn is_remote_url(path: &str) -> (b: bool)
    ensures
        b == is_remote(path@),
{
    str_starts_with(path, "http://") || str_starts_with(path, "https://")
        || str_starts_with(path, "git://") || str_starts_with(path, "ssh://")
}


/// Whether "::" starts at index `i` of `s`.
pub open spec fn separator_at(s: Seq<char>, i: int) -> bool {
    0 <= i && i + 1 < s.len() && s[i] == ':' && s[i + 1] == ':'
}

/// Whether index `i` is where the first "::" of `s` starts.
pub open spec fn first_separator_at(s: Seq<char>, i: int) -> bool {
    separator_at(s, i) && forall|j: int| 0 <= j < i ==> !separator_at(s, j)
}

/// The parts of a remote source "URL::SUB_PATH": the repository URL and the
/// path inside it, split at the first "::". Without "::", the whole text is
/// the URL; an empty path after the first "::" counts as no path. A path
/// that is not remote has no parts.
pub open spec fn remote_parts(s: Seq<char>) -> Option<(Seq<char>, Option<Seq<char>>)> {
    if !is_remote(s) {
        None
    } else if exists|i: int| first_separator_at(s, i) {
        let i = choose|i: int| first_separator_at(s, i);
        Some((s.take(i), if i + 2 == s.len() { None } else { Some(s.skip(i + 2)) }))
    } else {
        Some((s, None))
    }
}

/// The view of a split source: its texts as character sequences.
pub open spec fn parts_view(r: Option<(String, Option<String>)>) -> Option<(Seq<char>, Option<Seq<char>>)> {
    match r {
        Some((url, sub)) => Some((url@, match sub {
            Some(p) => Some(p@),
            None => None,
        })),
        None => None,
    }
}

/// Splits a remote source into its repository URL and the path inside it
/// (see `remote_parts`); a local path gives `None`.
pub fn parse_remote_source(from_path: &str) -> (r: Option<(String, Option<String>)>)
    ensures
        parts_view(r) == remote_parts(from_path@),
{
    if !is_remote_url(from_path) {
        return None;
    }
    let cs = chars_of(from_path);
    let n = cs.len();
    let mut i: usize = 0;
    while n >= 2 && i < n - 1
        invariant
            is_remote(from_path@),
            cs@ == from_path@,
            n == cs@.len(),
            i <= n,
            forall|j: int| 0 <= j < i ==> !separator_at(from_path@, j),
        decreases n - i,
    {
        if cs[i] == ':' && cs[i + 1] == ':' {
            let url = string_of(&cs.as_slice()[0..i]);
            let rest = string_of(&cs.as_slice()[i + 2..n]);
            assert(url@ =~= from_path@.take(i as int));
            assert(rest@ =~= from_path@.skip(i + 2));
            assert(separator_at(from_path@, i as int));
            assert(first_separator_at(from_path@, i as int));
            assert forall|k: int| first_separator_at(from_path@, k) implies k == i by {
                if k < i {
                } else if k > i {
                    assert(separator_at(from_path@, i as int));
                }
            }
            let ghost k = choose|k: int| first_separator_at(from_path@, k);
            assert(k == i);
            if i + 2 == n {
                return Some((url, None));
            } else {
                return Some((url, Some(rest)));
            }
        }
        i = i + 1;
    }
    assert forall|j: int| !first_separator_at(from_path@, j) by {
        if 0 <= j < i {
        }
    }
    Some((String::from_str(from_path), None))
}

/// The djb2 hash of `bytes` ("times 33 plus the byte", from 5381),
/// wrapping at 2^64.
pub open spec fn djb2(bytes: Seq<u8>) -> u64
    decreases bytes.len(),
{
    if bytes.len() == 0 {
        5381
    } else {
        ((djb2(bytes.drop_last()) * 33 + bytes.last()) % 0x1_0000_0000_0000_0000) as u64
    }
}

/// The djb2 hash of the UTF-8 bytes of `s`.
pub fn simple_hash(s: &str) -> (h: u64)
    ensures
        h == djb2(s.spec_bytes()),
{
    let bytes = s.as_bytes();
    let mut hash: u64 = 5381;
    let mut i: usize = 0;
    assert(bytes@.take(0) =~= Seq::<u8>::empty());
    while i < bytes.len()
        invariant
            bytes@ == s.spec_bytes(),
            i <= bytes@.len(),
            hash == djb2(bytes@.take(i as int)),
        decreases bytes@.len() - i,
    {
        let b = bytes[i];
        let ghost prev = hash;
        hash = hash.wrapping_mul(33).wrapping_add(b as u64);
        assert(bytes@.take(i + 1).drop_last() =~= bytes@.take(i as int));
        assert(hash == ((prev * 33 + b) % 0x1_0000_0000_0000_0000) as u64) by {
            assert(((prev * 33) % 0x1_0000_0000_0000_0000 + b) % 0x1_0000_0000_0000_0000
                == (prev * 33 + b) % 0x1_0000_0000_0000_0000) by (nonlinear_arith);
        }
        i = i + 1;
    }
    assert(bytes@.take(i as int) =~= bytes@);
    hash
}

/// The name of the cache directory of a repository: its URL's hash in
/// lower-case hexadecimal.
pub fn repo_cache_key(repo_url: &str) -> (key: String)
    ensures
        key@ == hex(djb2(repo_url.spec_bytes()) as nat),
{
    hex_string(simple_hash(repo_url))
}


/// Where a sync reads from.
#[derive(Debug)]
pub enum SyncSource {
    /// The source path itself, on this machine.
    Local,
    /// A repository, cloned or updated into the cache directory named
    /// `cache_key`, read at `sub_path` inside it (or at its root).
    Remote { repo_url: String, branch: String, sub_path: Option<String>, cache_key: String },
}

/// What a sync run is to do, decided before any file is touched.
#[derive(Debug)]
pub struct SyncPlan {
    pub mode: SyncMode,
    pub source: SyncSource,
}

/// The mode name that `sync_mode` gives, "full" where it gives none.
pub open spec fn mode_name(sync_mode: Option<String>) -> Seq<char> {
    match sync_mode {
        Some(v) => v@,
        None => "full"@,
    }
}

/// The branch that `ref_name` gives, "main" where it gives none.
pub open spec fn branch_name(ref_name: Option<String>) -> Seq<char> {
    match ref_name {
        Some(v) => v@,
        None => "main"@,
    }
}

/// Decides a sync from `from_path`: the mode is checked first, then a
/// remote source is split into its repository, branch, path inside the
/// repository and cache directory name.
pub fn plan_sync(from_path: &str, ref_name: Option<String>, sync_mode: Option<String>) -> (r: Result<SyncPlan, String>)
    ensures
        match SyncMode::named(mode_name(sync_mode)) {
            None => r matches Err(e) && e@ == unknown_mode_message(mode_name(sync_mode)),
            Some(m) => r matches Ok(plan) && plan.mode == m && match remote_parts(from_path@) {
                None => plan.source is Local,
                Some((url, sub)) => plan.source matches SyncSource::Remote {
                    repo_url,
                    branch,
                    sub_path,
                    cache_key,
                } && repo_url@ == url && branch@ == branch_name(ref_name)
                    && parts_view(Some((repo_url, sub_path))) == Some((url, sub))
                    && cache_key@ == hex(djb2(vstd::utf8::encode_utf8(url)) as nat),
            },
        },
{
    let mode = SyncMode::from_option(sync_mode)?;
    match parse_remote_source(from_path) {
        Some((repo_url, sub_path)) => {
            let branch = match ref_name {
                Some(b) => b,
                None => String::from_str("main"),
            };
            let cache_key = repo_cache_key(repo_url.as_str());
            Ok(SyncPlan { mode, source: SyncSource::Remote { repo_url, branch, sub_path, cache_key } })
        },
        None => Ok(SyncPlan { mode, source: SyncSource::Local }),
    }
}

/// The message when a local source does not exist.
pub open spec fn missing_source_message(from_path: Seq<char>) -> Seq<char> {
    "源路径不存在: "@ + from_path
}

/// Refuses a local source that does not exist.
pub fn check_local_source(from_path: &str, exists: bool) -> (r: Result<(), String>)
    ensures
        exists ==> r is Ok,
        !exists ==> (r matches Err(e) && e@ == missing_source_message(from_path@)),
{
    if exists {
        Ok(())
    } else {
        Err(concat_str("源路径不存在: ", from_path))
    }
}

/// The message when the path inside a repository does not exist; `location`
/// is where it was looked for.
pub open spec fn missing_repo_path_message(sub_path: Seq<char>, location: Seq<char>) -> Seq<char> {
    "仓库内路径不存在: "@ + sub_path + " (缓存位置: "@ + location + ")"@
}

/// Refuses a source inside a repository that does not exist; `location` is
/// where it was looked for.
pub fn check_repo_source(sub_path: &Option<String>, location: &str, exists: bool) -> (r: Result<(), String>)
    ensures
        exists ==> r is Ok,
        !exists ==> (r matches Err(e) && e@ == missing_repo_path_message(
            match sub_path {
                Some(p) => p@,
                None => Seq::<char>::empty(),
            },
            location@,
        )),
{
    if exists {
        return Ok(());
    }
    let mut msg = String::from_str("仓库内路径不存在: ");
    match sub_path {
        Some(p) => msg.append(p.as_str()),
        None => {},
    }
    msg.append(" (缓存位置: ");
    msg.append(location);
    msg.append(")");
    Err(msg)
}

/// The message of a run that copied nothing.
pub open spec fn empty_source_message() -> Seq<char> {
    "源目录为空，未复制任何文件。请检查仓库地址和分支名是否正确"@
}

/// What a sync run reports: skipped where source and target are one place,
/// else the count of files copied, with an error where that count is zero.
pub fn sync_outcome(display_from: &str, display_to: &str, same_location: bool, files_copied: u64) -> (r: SyncResult)
    ensures
        r.from@ == display_from@,
        r.to@ == display_to@,
        r.skipped == same_location,
        r.files_copied == if same_location { 0 } else { files_copied },
        same_location ==> r.error is None,
        !same_location && files_copied == 0 ==> (r.error matches Some(e) && e@ == empty_source_message()),
        !same_location && files_copied != 0 ==> r.error is None,
{
    let from = String::from_str(display_from);
    let to = String::from_str(display_to);
    if same_location {
        SyncResult { from, to, skipped: true, error: None, files_copied: 0 }
    } else if files_copied == 0 {
        let msg = String::from_str("源目录为空，未复制任何文件。请检查仓库地址和分支名是否正确");
        SyncResult { from, to, skipped: false, error: Some(msg), files_copied: 0 }
    } else {
        SyncResult { from, to, skipped: false, error: None, files_copied }
    }
}

/// The message when a directory would be copied onto a file.
pub open spec fn dir_onto_file_message() -> Seq<char> {
    "目标路径已存在且不是目录，无法同步目录"@
}

/// The message when a file would be copied onto a directory.
pub open spec fn file_onto_dir_message() -> Seq<char> {
    "目标路径已存在且是目录，无法用源文件覆盖目录"@
}

/// Whether a source may be copied onto the target: a directory only onto a
/// directory or nothing, a file only onto a file or nothing.
pub fn check_copy_target(source_is_dir: bool, target_exists: bool, target_is_dir: bool) -> (r: Result<(), String>)
    ensures
        source_is_dir && target_exists && !target_is_dir ==> (r matches Err(e) && e@ == dir_onto_file_message()),
        !source_is_dir && target_exists && target_is_dir ==> (r matches Err(e) && e@ == file_onto_dir_message()),
        !target_exists || source_is_dir == target_is_dir ==> r is Ok,
{
    if source_is_dir {
        if target_exists && !target_is_dir {
            return Err(String::from_str("目标路径已存在且不是目录，无法同步目录"));
        }
    } else {
        if target_exists && target_is_dir {
            return Err(String::from_str("目标路径已存在且是目录，无法用源文件覆盖目录"));
        }
    }
    Ok(())
}


/// A remote source is its repository URL, then "::" and the path inside
/// the repository where there is one.
pub proof fn lemma_remote_parts_rejoin(s: Seq<char>)
    ensures
        match remote_parts(s) {
            Some((url, Some(sub))) => s == url + "::"@ + sub,
            Some((url, None)) => s == url || s == url + "::"@,
            None => !is_remote(s),
        },
{
    reveal_strlit("::");
    if is_remote(s) && exists|i: int| first_separator_at(s, i) {
        let i = choose|i: int| first_separator_at(s, i);
        if i + 2 == s.len() {
            assert(s =~= s.take(i) + "::"@);
        } else {
            assert(s =~= s.take(i) + "::"@ + s.skip(i + 2));
        }
    }
}

} // verus!
