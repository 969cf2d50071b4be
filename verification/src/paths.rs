//! Where a path lies inside a project directory, with paths read as Windows
//! reads them. A path may start with a prefix: a drive ("C:"), a UNC share
//! ("\\server\share"), a device ("\\.\COM1") or a verbatim path ("\\?\...",
//! "\\?\C:", "\\?\UNC\server\share"). Drive letters compare without regard
//! to case. Both '/' and '\' separate the rest of the path, except in a
//! verbatim path, where only '\' does. The components of a path are read
//! one after the other from a cursor (a state and a position), as
//! `std::path::Components` reads them on Windows; what is left after the
//! matched components is trimmed as `Components::as_path` trims it.
use vstd::prelude::*;
use vstd::string::*;
use crate::text::{chars_of, string_of};
use crate::git::join;

verus! {

/// Whether `c` separates path segments outside a verbatim path.
pub open spec fn is_separator(c: char) -> bool {
    c == '/' || c == '\\'
}

/// Whether `c` separates the components of a path (verbatim or not).
pub open spec fn separates(verbatim: bool, c: char) -> bool {
    c == '\\' || (!verbatim && c == '/')
}

/// The index of the first separator of `s` at or after `from`, or the
/// length of `s` where there is none.
pub open spec fn find_separator(s: Seq<char>, from: int, verbatim: bool) -> int
    decreases s.len() - from,
{
    if 0 <= from < s.len() {
        if separates(verbatim, s[from]) {
            from
        } else {
            find_separator(s, from + 1, verbatim)
        }
    } else {
        s.len() as int
    }
}

/// The index after a separator at `i`, or the end of `s`.
pub open spec fn after(s: Seq<char>, i: int) -> int {
    if i < s.len() {
        i + 1
    } else {
        s.len() as int
    }
}

/// `c` with '/' read as '\', as prefixes are matched.
pub open spec fn normalized(c: char) -> char {
    if c == '/' {
        '\\'
    } else {
        c
    }
}

/// Whether the text `lit` stands at index `at` of `s`, within its first
/// eight characters, with '/' read as '\'.
pub open spec fn prefix_has(s: Seq<char>, at: int, lit: Seq<char>) -> bool {
    &&& 0 <= at
    &&& at + lit.len() <= s.len()
    &&& at + lit.len() <= 8
    &&& forall|k: int| 0 <= k < lit.len() ==> normalized(s[at + k]) == lit[k]
}

/// Whether `c` is an ASCII letter.
pub open spec fn is_ascii_letter(c: char) -> bool {
    ('a' <= c && c <= 'z') || ('A' <= c && c <= 'Z')
}

/// `c` in upper case where it is an ASCII letter.
pub open spec fn ascii_upper(c: char) -> char {
    if 'a' <= c && c <= 'z' {
        ((c as u32) - 32) as char
    } else {
        c
    }
}

/// Whether a drive ("C:") stands at index `at` of `s`.
pub open spec fn drive_at(s: Seq<char>, at: int) -> bool {
    0 <= at && at + 2 <= s.len() && is_ascii_letter(s[at]) && s[at + 1] == ':'
}

/// The kinds of path prefixes.
#[derive(Clone, Copy, Debug, PartialEq, Eq, Structural)]
pub enum PrefixKind {
    /// "C:"
    Disk,
    /// "\\?\C:"
    VerbatimDisk,
    /// "\\?\NAME"
    Verbatim,
    /// "\\?\UNC\SERVER\SHARE"
    VerbatimUnc,
    /// "\\.\NAME"
    DeviceNs,
    /// "\\SERVER\SHARE"
    Unc,
}

/// A parsed prefix: its kind, its one or two names (the upper-case drive
/// letter of a drive), and how many characters of the path it takes.
pub struct PathPrefix {
    pub kind: PrefixKind,
    pub first: Seq<char>,
    pub second: Seq<char>,
    pub len: int,
}

/// The prefix that `s` starts with, if any.
pub open spec fn path_prefix(s: Seq<char>) -> Option<PathPrefix> {
    if prefix_has(s, 0, seq!['\\', '\\']) {
        if prefix_has(s, 2, seq!['?', '\\']) && s[0] != '/' && s[1] != '/' && s[2] != '/' && s[3] != '/' {
            if prefix_has(s, 4, seq!['U', 'N', 'C', '\\']) {
                let i = find_separator(s, 8, true);
                let r = after(s, i);
                let j = find_separator(s, r, true);
                let server = s.subrange(8, i);
                let share = s.subrange(r, j);
                Some(PathPrefix {
                    kind: PrefixKind::VerbatimUnc,
                    first: server,
                    second: share,
                    len: 8 + server.len() + if share.len() > 0 { 1 + share.len() as int } else { 0int },
                })
            } else if drive_at(s, 4) && (s.len() <= 6 || is_separator(s[6])) {
                Some(PathPrefix {
                    kind: PrefixKind::VerbatimDisk,
                    first: seq![ascii_upper(s[4])],
                    second: Seq::empty(),
                    len: 6,
                })
            } else {
                let i = find_separator(s, 4, true);
                Some(PathPrefix { kind: PrefixKind::Verbatim, first: s.subrange(4, i), second: Seq::empty(), len: i })
            }
        } else if prefix_has(s, 2, seq!['.', '\\']) {
            let i = find_separator(s, 4, false);
            Some(PathPrefix { kind: PrefixKind::DeviceNs, first: s.subrange(4, i), second: Seq::empty(), len: i })
        } else {
            let i = find_separator(s, 2, false);
            let r = after(s, i);
            let j = find_separator(s, r, false);
            let server = s.subrange(2, i);
            let share = s.subrange(r, j);
            if server.len() > 0 && share.len() > 0 {
                Some(PathPrefix {
                    kind: PrefixKind::Unc,
                    first: server,
                    second: share,
                    len: (2 + server.len() + 1 + share.len()) as int,
                })
            } else {
                None
            }
        }
    } else if drive_at(s, 0) {
        Some(PathPrefix { kind: PrefixKind::Disk, first: seq![ascii_upper(s[0])], second: Seq::empty(), len: 2 })
    } else {
        None
    }
}

/// How many characters the prefix of `s` takes (none without a prefix).
pub open spec fn prefix_len(s: Seq<char>) -> int {
    match path_prefix(s) {
        Some(p) => p.len,
        None => 0,
    }
}

/// Whether `s` is a verbatim path.
pub open spec fn is_verbatim(s: Seq<char>) -> bool {
    path_prefix(s) matches Some(p) && (p.kind == PrefixKind::Verbatim || p.kind
        == PrefixKind::VerbatimUnc || p.kind == PrefixKind::VerbatimDisk)
}

/// Whether a separator follows the prefix of `s` (or starts `s`).
pub open spec fn has_physical_root(s: Seq<char>) -> bool {
    prefix_len(s) < s.len() && is_separator(s[prefix_len(s)])
}

/// The component that a segment stands for: none for an empty segment or
/// (outside a verbatim path) for "."; else the segment.
pub open spec fn named(verbatim: bool, seg: Seq<char>) -> Option<Seq<char>> {
    if seg == seq!['.'] {
        if verbatim {
            Some(seg)
        } else {
            None
        }
    } else if seg.len() == 0 {
        None
    } else {
        Some(seg)
    }
}

/// Whether the part of `s` from `i` to `end` starts with "." alone, which
/// stands for the current directory where the path has no root.
pub open spec fn include_cur_dir(s: Seq<char>, i: int, end: int) -> bool {
    &&& !has_physical_root(s)
    &&& 0 <= i < end <= s.len()
    &&& s[i] == '.'
    &&& (i + 1 == end || separates(is_verbatim(s), s[i + 1]))
}

/// A component of a path.
pub enum PathComponent {
    /// A prefix, compared by its kind and names.
    Prefix(PrefixKind, Seq<char>, Seq<char>),
    /// The root.
    Root,
    /// A named component: a normal name, "..", or "." for the current
    /// directory.
    Named(Seq<char>),
}

/// The next component of `s` from the cursor (`front`, `pos`), and the
/// cursor after it; `None` at the end. The cursor's state is 0 before the
/// prefix, 1 before the root (or the current directory), 2 in the body.
pub open spec fn next_component(s: Seq<char>, front: int, pos: int) -> Option<(PathComponent, int, int)>
    decreases s.len() - pos, 3 - front,
{
    if front == 0 {
        if pos != 0 {
            None
        } else {
            match path_prefix(s) {
                Some(p) => Some((PathComponent::Prefix(p.kind, p.first, p.second), 1, p.len)),
                None => next_component(s, 1, pos),
            }
        }
    } else if front == 1 {
        if pos != prefix_len(s) || pos > s.len() {
            None
        } else if has_physical_root(s) {
            Some((PathComponent::Root, 2, pos + 1))
        } else if path_prefix(s) is Some {
            if path_prefix(s)->0.kind != PrefixKind::Disk && !is_verbatim(s) {
                Some((PathComponent::Root, 2, pos))
            } else {
                next_component(s, 2, pos)
            }
        } else if include_cur_dir(s, pos, s.len() as int) {
            Some((PathComponent::Named(seq!['.']), 2, pos + 1))
        } else {
            next_component(s, 2, pos)
        }
    } else if front == 2 && 0 <= pos < s.len() {
        let i = find_separator(s, pos, is_verbatim(s));
        proof {
            lemma_find_separator_bounds(s, pos, is_verbatim(s));
        }
        match named(is_verbatim(s), s.subrange(pos, i)) {
            Some(c) => Some((PathComponent::Named(c), 2, after(s, i))),
            None => next_component(s, 2, after(s, i)),
        }
    } else {
        None
    }
}

/// The first separator at or after `from` lies between `from` and the end.
pub proof fn lemma_find_separator_bounds(s: Seq<char>, from: int, verbatim: bool)
    requires
        0 <= from <= s.len(),
    ensures
        from <= find_separator(s, from, verbatim) <= s.len(),
        forall|k: int| from <= k < find_separator(s, from, verbatim) ==> !separates(verbatim, #[trigger] s[k]),
        find_separator(s, from, verbatim) < s.len() ==> separates(verbatim, s[find_separator(s, from, verbatim)]),
    decreases s.len() - from,
{
    if from < s.len() && !separates(verbatim, s[from]) {
        lemma_find_separator_bounds(s, from + 1, verbatim);
    }
}


/// The prefix of a path lies within it, and takes at least two characters.
pub proof fn lemma_prefix_within(s: Seq<char>)
    ensures
        0 <= prefix_len(s) <= s.len(),
        path_prefix(s) is Some ==> prefix_len(s) >= 2,
{
    if prefix_has(s, 0, seq!['\\', '\\']) {
        if prefix_has(s, 2, seq!['?', '\\']) && s[0] != '/' && s[1] != '/' && s[2] != '/' && s[3] != '/' {
            if prefix_has(s, 4, seq!['U', 'N', 'C', '\\']) {
                lemma_find_separator_bounds(s, 8, true);
                let i = find_separator(s, 8, true);
                lemma_find_separator_bounds(s, after(s, i), true);
            } else {
                lemma_find_separator_bounds(s, 4, true);
            }
        } else if prefix_has(s, 2, seq!['.', '\\']) {
            lemma_find_separator_bounds(s, 4, false);
        } else {
            lemma_find_separator_bounds(s, 2, false);
            let i = find_separator(s, 2, false);
            lemma_find_separator_bounds(s, after(s, i), false);
        }
    }
}

/// Reading a component moves the cursor forward within the path.
pub proof fn lemma_next_advances(s: Seq<char>, front: int, pos: int)
    requires
        0 <= front <= 2,
        0 <= pos <= s.len(),
        next_component(s, front, pos) is Some,
    ensures
        ({
            let (c, f, p) = next_component(s, front, pos)->0;
            &&& 1 <= f <= 2
            &&& front >= 1 ==> f == 2
            &&& 0 <= p <= s.len()
            &&& (p > pos || (p == pos && f > front))
        }),
    decreases s.len() - pos, 3 - front,
{
    lemma_prefix_within(s);
    if front == 0 {
        if path_prefix(s) is None {
            lemma_next_advances(s, 1, pos);
        }
    } else if front == 1 {
        if has_physical_root(s) {
        } else if path_prefix(s) is Some {
            if !(path_prefix(s)->0.kind != PrefixKind::Disk && !is_verbatim(s)) {
                lemma_next_advances(s, 2, pos);
            }
        } else if include_cur_dir(s, pos, s.len() as int) {
        } else {
            lemma_next_advances(s, 2, pos);
        }
    } else {
        lemma_find_separator_bounds(s, pos, is_verbatim(s));
        let i = find_separator(s, pos, is_verbatim(s));
        if named(is_verbatim(s), s.subrange(pos, i)) is None {
            lemma_next_advances(s, 2, after(s, i));
        }
    }
}

/// Walks the components of `target` and `base` side by side, as
/// `Path::strip_prefix` does: where every component of `base` matches the
/// component of `target` at the same place, the cursor of `target` after
/// the last one matched; else `None`.
pub open spec fn strip_walk(target: Seq<char>, tf: int, tp: int, base: Seq<char>, bf: int, bp: int) -> Option<(int, int)>
    decreases base.len() - bp, 3 - bf,
{
    if !(0 <= bf <= 2 && 0 <= bp <= base.len()) {
        None
    } else {
        match (next_component(target, tf, tp), next_component(base, bf, bp)) {
            (Some((x, tf2, tp2)), Some((y, bf2, bp2))) => {
                proof {
                    lemma_next_advances(base, bf, bp);
                }
                if x == y {
                    strip_walk(target, tf2, tp2, base, bf2, bp2)
                } else {
                    None
                }
            },
            (Some(_), None) => Some((tf, tp)),
            (None, None) => Some((tf, tp)),
            (None, Some(_)) => None,
        }
    }
}

/// The cursor at `pos` in the body, moved past empty segments and (outside
/// a verbatim path) "." segments.
pub open spec fn trim_left(s: Seq<char>, pos: int) -> int
    decreases s.len() - pos,
{
    if 0 <= pos < s.len() {
        let i = find_separator(s, pos, is_verbatim(s));
        proof {
            lemma_find_separator_bounds(s, pos, is_verbatim(s));
        }
        if named(is_verbatim(s), s.subrange(pos, i)) is Some {
            pos
        } else {
            trim_left(s, after(s, i))
        }
    } else {
        pos
    }
}

/// The index of the last separator of `s` in `[start, end)`, or `start - 1`
/// where there is none.
pub open spec fn last_separator(s: Seq<char>, start: int, end: int, verbatim: bool) -> int
    decreases end - start,
{
    if start < end {
        if separates(verbatim, s[end - 1]) {
            end - 1
        } else {
            last_separator(s, start, end - 1, verbatim)
        }
    } else {
        start - 1
    }
}

/// How much of the rest `s[lo..end]` comes before its body: the prefix
/// where the cursor is before it, then the root or a leading "." where the
/// cursor has not passed them.
pub open spec fn len_before_body(s: Seq<char>, front: int, lo: int, end: int) -> int {
    let pr = if front == 0 { prefix_len(s) } else { 0 };
    let root = if front <= 1 && has_physical_root(s) { 1int } else { 0 };
    let cd = if front <= 1 && include_cur_dir(s, lo + pr, end) { 1int } else { 0 };
    pr + root + cd
}

/// The end of the rest `s[lo..end]` once empty and (outside a verbatim
/// path) "." segments are dropped from its back, never into the part before
/// the body.
pub open spec fn trim_right(s: Seq<char>, front: int, lo: int, end: int) -> int
    decreases end,
{
    let lbb = len_before_body(s, front, lo, end);
    if 0 <= lo && 0 <= lbb && end - lo > lbb && end <= s.len() {
        let start = lo + lbb;
        let r = last_separator(s, start, end, is_verbatim(s));
        proof {
            lemma_last_separator_bounds(s, start, end, is_verbatim(s));
        }
        let comp = if r < start { s.subrange(start, end) } else { s.subrange(r + 1, end) };
        let next_end = if r < start { start } else { r };
        if named(is_verbatim(s), comp) is Some {
            end
        } else {
            trim_right(s, front, lo, next_end)
        }
    } else {
        end
    }
}

/// The last separator in `[start, end)` lies there.
pub proof fn lemma_last_separator_bounds(s: Seq<char>, start: int, end: int, verbatim: bool)
    requires
        0 <= start <= end <= s.len(),
    ensures
        start - 1 <= last_separator(s, start, end, verbatim) < end,
        last_separator(s, start, end, verbatim) >= start ==> separates(verbatim, s[last_separator(s, start, end, verbatim)]),
        forall|k: int| last_separator(s, start, end, verbatim) < k < end && start <= k ==> !separates(verbatim, #[trigger] s[k]),
    decreases end - start,
{
    if start < end && !separates(verbatim, s[end - 1]) {
        lemma_last_separator_bounds(s, start, end - 1, verbatim);
    }
}

/// What is left of `s` from the cursor (`front`, `pos`), trimmed as
/// `Components::as_path` trims it.
pub open spec fn rest_of(s: Seq<char>, front: int, pos: int) -> Seq<char> {
    let lo = if front == 2 { trim_left(s, pos) } else { pos };
    s.subrange(lo, trim_right(s, front, lo, s.len() as int))
}

/// `s` with every '\' turned into '/'.
pub open spec fn forward_slashes(s: Seq<char>) -> Seq<char> {
    s.map_values(|c: char| if c == '\\' { '/' } else { c })
}

/// Where `target` lies inside `base`: `None` unless the components of
/// `base` begin the components of `target`; else what is left of `target`
/// after them, with '/' for '\'.
pub open spec fn relative_path(base: Seq<char>, target: Seq<char>) -> Option<Seq<char>> {
    match strip_walk(target, 0, 0, base, 0, 0) {
        Some((f, p)) => Some(forward_slashes(rest_of(target, f, p))),
        None => None,
    }
}


/// The characters `s[a..b]`.
fn copy_range(s: &Vec<char>, a: usize, b: usize) -> (r: Vec<char>)
    requires
        a <= b <= s@.len(),
    ensures
        r@ == s@.subrange(a as int, b as int),
{
    vstd::slice::slice_to_vec(&s.as_slice()[a..b])
}

/// The index of the first separator at or after `from` (see
/// `find_separator`).
fn find_sep(s: &Vec<char>, from: usize, verbatim: bool) -> (i: usize)
    requires
        from <= s@.len(),
    ensures
        i == find_separator(s@, from as int, verbatim),
{
    let mut i = from;
    while i < s.len() && !(s[i] == '\\' || (!verbatim && s[i] == '/'))
        invariant
            from <= i <= s@.len(),
            find_separator(s@, from as int, verbatim) == find_separator(s@, i as int, verbatim),
        decreases s@.len() - i,
    {
        i = i + 1;
    }
    i
}

/// The index after a separator at `i`, or the end.
fn after_sep(s: &Vec<char>, i: usize) -> (r: usize)
    requires
        i <= s@.len(),
    ensures
        r == after(s@, i as int),
{
    if i < s.len() { i + 1 } else { s.len() }
}

/// Whether `lit` stands at `at` within the first eight characters of `s`,
/// with '/' read as '\'.
fn has_at(s: &Vec<char>, at: usize, lit: &[char]) -> (b: bool)
    requires
        at <= 8,
        lit@.len() <= 8,
    ensures
        b == prefix_has(s@, at as int, lit@),
{
    if at + lit.len() > s.len() || at + lit.len() > 8 {
        return false;
    }
    let mut k: usize = 0;
    while k < lit.len()
        invariant
            at <= 8,
            lit@.len() <= 8,
            at + lit@.len() <= s@.len(),
            k <= lit@.len(),
            forall|q: int| 0 <= q < k ==> normalized(s@[at + q]) == lit@[q],
        decreases lit@.len() - k,
    {
        let c = if s[at + k] == '/' { '\\' } else { s[at + k] };
        if c != lit[k] {
            return false;
        }
        k = k + 1;
    }
    true
}

fn is_letter(c: char) -> (b: bool)
    ensures
        b == is_ascii_letter(c),
{
    ('a' <= c && c <= 'z') || ('A' <= c && c <= 'Z')
}

fn upper(c: char) -> (u: char)
    ensures
        u == ascii_upper(c),
{
    if 'a' <= c && c <= 'z' {
        ((c as u32) - 32) as u8 as char
    } else {
        c
    }
}

fn has_drive(s: &Vec<char>, at: usize) -> (b: bool)
    requires
        at <= 8,
    ensures
        b == drive_at(s@, at as int),
{
    at + 2 <= s.len() && is_letter(s[at]) && s[at + 1] == ':'
}

/// A parsed prefix (see `PathPrefix`).
pub struct ExecPrefix {
    pub kind: PrefixKind,
    pub first: Vec<char>,
    pub second: Vec<char>,
    pub len: usize,
}

/// The view of an optional parsed prefix.
pub open spec fn prefix_view(p: Option<ExecPrefix>) -> Option<PathPrefix> {
    match p {
        Some(e) => Some(PathPrefix { kind: e.kind, first: e.first@, second: e.second@, len: e.len as int }),
        None => None,
    }
}

/// The prefix that `s` starts with (see `path_prefix`).
fn parse_prefix(s: &Vec<char>) -> (p: Option<ExecPrefix>)
    ensures
        prefix_view(p) == path_prefix(s@),
{
    proof {
        lemma_prefix_within(s@);
    }
    if has_at(s, 0, &['\\', '\\']) {
        assert(seq!['\\', '\\'] =~= (['\\', '\\'])@);
        assert(seq!['?', '\\'] =~= (['?', '\\'])@);
        assert(seq!['.', '\\'] =~= (['.', '\\'])@);
        assert(seq!['U', 'N', 'C', '\\'] =~= (['U', 'N', 'C', '\\'])@);
        if has_at(s, 2, &['?', '\\']) && s[0] != '/' && s[1] != '/' && s[2] != '/' && s[3] != '/' {
            if has_at(s, 4, &['U', 'N', 'C', '\\']) {
                let i = find_sep(s, 8, true);
                proof {
                    lemma_find_separator_bounds(s@, 8, true);
                }
                let r = after_sep(s, i);
                let j = find_sep(s, r, true);
                proof {
                    lemma_find_separator_bounds(s@, r as int, true);
                }
                let server = copy_range(s, 8, i);
                let share = copy_range(s, r, j);
                let len = if share.len() > 0 { 8 + server.len() + 1 + share.len() } else { 8 + server.len() };
                Some(ExecPrefix { kind: PrefixKind::VerbatimUnc, first: server, second: share, len })
            } else if has_drive(s, 4) && (s.len() <= 6 || s[6] == '/' || s[6] == '\\') {
                let d = vec![upper(s[4])];
                assert(d@ =~= seq![ascii_upper(s@[4])]);
                Some(ExecPrefix { kind: PrefixKind::VerbatimDisk, first: d, second: Vec::new(), len: 6 })
            } else {
                let i = find_sep(s, 4, true);
                proof {
                    lemma_find_separator_bounds(s@, 4, true);
                }
                Some(ExecPrefix { kind: PrefixKind::Verbatim, first: copy_range(s, 4, i), second: Vec::new(), len: i })
            }
        } else if has_at(s, 2, &['.', '\\']) {
            let i = find_sep(s, 4, false);
            proof {
                lemma_find_separator_bounds(s@, 4, false);
            }
            Some(ExecPrefix { kind: PrefixKind::DeviceNs, first: copy_range(s, 4, i), second: Vec::new(), len: i })
        } else {
            let i = find_sep(s, 2, false);
            proof {
                lemma_find_separator_bounds(s@, 2, false);
            }
            let r = after_sep(s, i);
            let j = find_sep(s, r, false);
            proof {
                lemma_find_separator_bounds(s@, r as int, false);
            }
            if i > 2 && j > r {
                let server = copy_range(s, 2, i);
                let share = copy_range(s, r, j);
                let len = 2 + server.len() + 1 + share.len();
                Some(ExecPrefix { kind: PrefixKind::Unc, first: server, second: share, len })
            } else {
                None
            }
        }
    } else if has_drive(s, 0) {
        let d = vec![upper(s[0])];
        assert(d@ =~= seq![ascii_upper(s@[0])]);
        Some(ExecPrefix { kind: PrefixKind::Disk, first: d, second: Vec::new(), len: 2 })
    } else {
        None
    }
}


/// What the parser keeps of a path: its prefix and how the rest is read.
struct Shape {
    prefix: Option<ExecPrefix>,
    plen: usize,
    verbatim: bool,
    root: bool,
}

/// Whether `sh` describes the path `s`.
spec fn shape_of(s: Seq<char>, sh: Shape) -> bool {
    &&& prefix_view(sh.prefix) == path_prefix(s)
    &&& sh.plen == prefix_len(s)
    &&& sh.verbatim == is_verbatim(s)
    &&& sh.root == has_physical_root(s)
}

fn shape(s: &Vec<char>) -> (sh: Shape)
    ensures
        shape_of(s@, sh),
{
    let prefix = parse_prefix(s);
    proof {
        lemma_prefix_within(s@);
    }
    let (plen, verbatim) = match &prefix {
        Some(p) => (
            p.len,
            p.kind == PrefixKind::Verbatim || p.kind == PrefixKind::VerbatimUnc || p.kind
                == PrefixKind::VerbatimDisk,
        ),
        None => (0, false),
    };
    let root = plen < s.len() && (s[plen] == '/' || s[plen] == '\\');
    Shape { prefix, plen, verbatim, root }
}

/// Whether a segment names a component (see `named`).
fn names_component(verbatim: bool, seg: &Vec<char>) -> (b: bool)
    ensures
        b == named(verbatim, seg@) is Some,
{
    let dot = seg.len() == 1 && seg[0] == '.';
    assert(dot <==> seg@ == seq!['.']) by {
        if seg@ == seq!['.'] {
            assert(seg@[0] == '.');
        }
        if dot {
            assert(seg@ =~= seq!['.']);
        }
    }
    if dot {
        verbatim
    } else {
        seg.len() > 0
    }
}

/// Whether `s[i..end]` starts with "." alone (see `include_cur_dir`).
fn cur_dir_at(s: &Vec<char>, sh: &Shape, i: usize, end: usize) -> (b: bool)
    requires
        shape_of(s@, *sh),
    ensures
        b == include_cur_dir(s@, i as int, end as int),
{
    !sh.root && i < end && end <= s.len() && s[i] == '.' && (i + 1 == end || s[i + 1] == '\\' || (!sh.verbatim
        && s[i + 1] == '/'))
}

/// A component of a path (see `PathComponent`).
pub enum ExecComponent {
    Prefix(PrefixKind, Vec<char>, Vec<char>),
    Root,
    Named(Vec<char>),
}

/// The view of a component.
pub open spec fn component_view(c: ExecComponent) -> PathComponent {
    match c {
        ExecComponent::Prefix(k, a, b) => PathComponent::Prefix(k, a@, b@),
        ExecComponent::Root => PathComponent::Root,
        ExecComponent::Named(n) => PathComponent::Named(n@),
    }
}

/// The view of a step of the component reader.
pub open spec fn step_of(r: Option<(ExecComponent, u8, usize)>) -> Option<(PathComponent, int, int)> {
    match r {
        Some((c, f, p)) => Some((component_view(c), f as int, p as int)),
        None => None,
    }
}

/// The next component of `s` from the cursor (see `next_component`).
fn next_comp(s: &Vec<char>, sh: &Shape, front: u8, pos: usize) -> (r: Option<(ExecComponent, u8, usize)>)
    requires
        shape_of(s@, *sh),
        front <= 2,
        pos <= s@.len(),
    ensures
        step_of(r) == next_component(s@, front as int, pos as int),
{
    proof {
        lemma_prefix_within(s@);
    }
    let mut f = front;
    let mut p = pos;
    loop
        invariant
            shape_of(s@, *sh),
            f <= 2,
            p <= s@.len(),
            next_component(s@, front as int, pos as int) == next_component(s@, f as int, p as int),
            0 <= prefix_len(s@) <= s@.len(),
        decreases s@.len() - p, 3 - f,
    {
        if f == 0 {
            if p != 0 {
                return None;
            }
            match &sh.prefix {
                Some(pr) => {
                    let a = pr.first.clone();
                    let b = pr.second.clone();
                    return Some((ExecComponent::Prefix(pr.kind, a, b), 1, pr.len));
                },
                None => {
                    f = 1;
                },
            }
        } else if f == 1 {
            if p != sh.plen {
                return None;
            }
            if sh.root {
                assert(p < s@.len());
                assert(s@.len() == s.len());
                return Some((ExecComponent::Root, 2, p + 1));
            }
            match &sh.prefix {
                Some(pr) => {
                    if pr.kind != PrefixKind::Disk && !sh.verbatim {
                        return Some((ExecComponent::Root, 2, p));
                    }
                    f = 2;
                },
                None => {
                    if cur_dir_at(s, sh, p, s.len()) {
                        let dot = vec!['.'];
                        assert(dot@ =~= seq!['.']);
                        return Some((ExecComponent::Named(dot), 2, p + 1));
                    }
                    f = 2;
                },
            }
        } else {
            if p >= s.len() {
                return None;
            }
            let i = find_sep(s, p, sh.verbatim);
            proof {
                lemma_find_separator_bounds(s@, p as int, sh.verbatim);
            }
            let seg = copy_range(s, p, i);
            let np = after_sep(s, i);
            if names_component(sh.verbatim, &seg) {
                return Some((ExecComponent::Named(seg), 2, np));
            }
            p = np;
        }
    }
}


/// Whether two character vectors are equal.
fn chars_eq(a: &Vec<char>, b: &Vec<char>) -> (r: bool)
    ensures
        r == (a@ == b@),
{
    if a.len() != b.len() {
        return false;
    }
    let mut i: usize = 0;
    while i < a.len()
        invariant
            a@.len() == b@.len(),
            i <= a@.len(),
            forall|k: int| 0 <= k < i ==> a@[k] == b@[k],
        decreases a@.len() - i,
    {
        if a[i] != b[i] {
            return false;
        }
        i = i + 1;
    }
    assert(a@ =~= b@);
    true
}

/// Whether two components are equal.
fn component_eq(a: &ExecComponent, b: &ExecComponent) -> (r: bool)
    ensures
        r == (component_view(*a) == component_view(*b)),
{
    match (a, b) {
        (ExecComponent::Prefix(k1, x1, y1), ExecComponent::Prefix(k2, x2, y2)) => *k1 == *k2 && chars_eq(x1, x2)
            && chars_eq(y1, y2),
        (ExecComponent::Root, ExecComponent::Root) => true,
        (ExecComponent::Named(x), ExecComponent::Named(y)) => chars_eq(x, y),
        _ => false,
    }
}

/// The cursor past blank segments (see `trim_left`).
fn skip_blank(s: &Vec<char>, sh: &Shape, pos: usize) -> (r: usize)
    requires
        shape_of(s@, *sh),
        pos <= s@.len(),
    ensures
        r == trim_left(s@, pos as int),
        pos <= r <= s@.len(),
{
    let mut p = pos;
    while p < s.len()
        invariant
            shape_of(s@, *sh),
            pos <= p <= s@.len(),
            trim_left(s@, pos as int) == trim_left(s@, p as int),
        decreases s@.len() - p,
    {
        let i = find_sep(s, p, sh.verbatim);
        proof {
            lemma_find_separator_bounds(s@, p as int, sh.verbatim);
        }
        let seg = copy_range(s, p, i);
        if names_component(sh.verbatim, &seg) {
            return p;
        }
        p = after_sep(s, i);
    }
    p
}

/// The last separator of `s` in `[start, end)` (see `last_separator`).
fn last_sep(s: &Vec<char>, start: usize, end: usize, verbatim: bool) -> (r: Option<usize>)
    requires
        start <= end <= s@.len(),
    ensures
        match r {
            Some(i) => i == last_separator(s@, start as int, end as int, verbatim) && start <= i < end,
            None => last_separator(s@, start as int, end as int, verbatim) == start - 1,
        },
{
    let mut e = end;
    while e > start
        invariant
            start <= e <= end <= s@.len(),
            last_separator(s@, start as int, end as int, verbatim) == last_separator(s@, start as int, e as int, verbatim),
        decreases e,
    {
        if s[e - 1] == '\\' || (!verbatim && s[e - 1] == '/') {
            return Some(e - 1);
        }
        e = e - 1;
    }
    None
}

/// How much of `s[lo..end]` comes before its body (see `len_before_body`).
fn before_body(s: &Vec<char>, sh: &Shape, front: u8, lo: usize, end: usize) -> (n: usize)
    requires
        shape_of(s@, *sh),
        front <= 2,
        front == 0 ==> lo == 0,
        lo <= end <= s@.len(),
    ensures
        n == len_before_body(s@, front as int, lo as int, end as int),
        n <= s@.len(),
{
    proof {
        lemma_prefix_within(s@);
    }
    let pr = if front == 0 { sh.plen } else { 0 };
    let root: usize = if front <= 1 && sh.root { 1 } else { 0 };
    let cd: usize = if front <= 1 && cur_dir_at(s, sh, lo + pr, end) { 1 } else { 0 };
    assert(root == 1 ==> pr < s@.len());
    assert(cd == 1 ==> lo + pr < s@.len() && root == 0);
    assert(s@.len() == s.len());
    pr + root + cd
}

/// The end of `s[lo..end]` once blank segments are dropped from its back
/// (see `trim_right`).
fn trim_back(s: &Vec<char>, sh: &Shape, front: u8, lo: usize, end: usize) -> (r: usize)
    requires
        shape_of(s@, *sh),
        front <= 2,
        front == 0 ==> lo == 0,
        lo <= end <= s@.len(),
    ensures
        r == trim_right(s@, front as int, lo as int, end as int),
        lo <= r <= end,
{
    let mut e = end;
    loop
        invariant
            shape_of(s@, *sh),
            front <= 2,
            front == 0 ==> lo == 0,
            lo <= e <= end <= s@.len(),
            trim_right(s@, front as int, lo as int, end as int) == trim_right(s@, front as int, lo as int, e as int),
        decreases e,
    {
        let lbb = before_body(s, sh, front, lo, e);
        if e - lo <= lbb {
            return e;
        }
        let start = lo + lbb;
        proof {
            lemma_last_separator_bounds(s@, start as int, e as int, sh.verbatim);
        }
        let (seg, next_end) = match last_sep(s, start, e, sh.verbatim) {
            Some(r) => (copy_range(s, r + 1, e), r),
            None => (copy_range(s, start, e), start),
        };
        if names_component(sh.verbatim, &seg) {
            return e;
        }
        e = next_end;
    }
}

/// `s[lo..hi]` with '/' for '\'.
fn slashed(s: &Vec<char>, lo: usize, hi: usize) -> (r: String)
    requires
        lo <= hi <= s@.len(),
    ensures
        r@ == forward_slashes(s@.subrange(lo as int, hi as int)),
{
    let ghost want = forward_slashes(s@.subrange(lo as int, hi as int));
    let mut out: Vec<char> = Vec::new();
    let mut k = lo;
    while k < hi
        invariant
            lo <= k <= hi <= s@.len(),
            want == forward_slashes(s@.subrange(lo as int, hi as int)),
            out@ =~= want.take(k - lo),
        decreases hi - k,
    {
        let c = if s[k] == '\\' { '/' } else { s[k] };
        out.push(c);
        assert(out@ =~= want.take(k + 1 - lo));
        k = k + 1;
    }
    assert(want.take(hi - lo) =~= want);
    string_of(out.as_slice())
}

/// Where `target_path` lies inside `project_dir` (see `relative_path`):
/// what is left of `target_path` after the components of `project_dir`,
/// with '/' for '\'; `None` where `target_path` is not inside it.
pub fn relative_path_inside_project(project_dir: &str, target_path: &str) -> (r: Option<String>)
    ensures
        match r {
            Some(p) => relative_path(project_dir@, target_path@) == Some(p@),
            None => relative_path(project_dir@, target_path@) is None,
        },
{
    let b = chars_of(project_dir);
    let t = chars_of(target_path);
    let bsh = shape(&b);
    let tsh = shape(&t);
    let mut tf: u8 = 0;
    let mut tp: usize = 0;
    let mut bf: u8 = 0;
    let mut bp: usize = 0;
    loop
        invariant
            shape_of(b@, bsh),
            shape_of(t@, tsh),
            b@ == project_dir@,
            t@ == target_path@,
            tf <= 2,
            bf <= 2,
            tp <= t@.len(),
            bp <= b@.len(),
            tf == 0 ==> tp == 0,
            strip_walk(t@, 0, 0, b@, 0, 0) == strip_walk(t@, tf as int, tp as int, b@, bf as int, bp as int),
        ensures
            strip_walk(t@, 0, 0, b@, 0, 0) == Some((tf as int, tp as int)),
        decreases b@.len() - bp, 3 - bf,
    {
        let tn = next_comp(&t, &tsh, tf, tp);
        let bn = next_comp(&b, &bsh, bf, bp);
        match (tn, bn) {
            (Some((x, tf2, tp2)), Some((y, bf2, bp2))) => {
                proof {
                    lemma_next_advances(b@, bf as int, bp as int);
                    lemma_next_advances(t@, tf as int, tp as int);
                }
                if !component_eq(&x, &y) {
                    return None;
                }
                tf = tf2;
                tp = tp2;
                bf = bf2;
                bp = bp2;
            },
            (None, Some(_)) => {
                return None;
            },
            _ => {
                break;
            },
        }
    }
    let lo = if tf == 2 { skip_blank(&t, &tsh, tp) } else { tp };
    let hi = trim_back(&t, &tsh, tf, lo, t.len());
    Some(slashed(&t, lo, hi))
}


/// Whether a path has a root: a separator after its prefix, or a prefix
/// that stands for one (a share or device, not a drive or verbatim path).
pub open spec fn has_root(s: Seq<char>) -> bool {
    ||| has_physical_root(s)
    ||| (path_prefix(s) matches Some(p) && p.kind != PrefixKind::Disk && !is_verbatim(s))
}

/// Where the body has no component left, trimming its front reaches the
/// end.
proof fn lemma_no_component_left(s: Seq<char>, pos: int)
    requires
        0 <= pos <= s.len(),
        next_component(s, 2, pos) is None,
    ensures
        trim_left(s, pos) == s.len(),
    decreases s.len() - pos,
{
    if pos < s.len() {
        lemma_find_separator_bounds(s, pos, is_verbatim(s));
        let i = find_separator(s, pos, is_verbatim(s));
        lemma_no_component_left(s, after(s, i));
    }
}

/// Walking a path's body against itself ends where its components end.
proof fn lemma_walk_body_itself(s: Seq<char>, pos: int)
    requires
        0 <= pos <= s.len(),
    ensures
        strip_walk(s, 2, pos, s, 2, pos) matches Some((f, q)) && f == 2 && 0 <= q <= s.len()
            && next_component(s, 2, q) is None,
    decreases s.len() - pos,
{
    match next_component(s, 2, pos) {
        Some((c, f2, p2)) => {
            lemma_next_advances(s, 2, pos);
            lemma_walk_body_itself(s, p2);
        },
        None => {},
    }
}

/// A path that has a root, or has no prefix, lies inside itself at the
/// empty relative path.
pub proof fn lemma_relative_to_itself(p: Seq<char>)
    requires
        path_prefix(p) is None || has_root(p),
    ensures
        relative_path(p, p) == Some(Seq::<char>::empty()),
{
    lemma_prefix_within(p);
    let walk = strip_walk(p, 0, 0, p, 0, 0);
    let mut f: int = 0;
    let mut q: int = 0;
    if next_component(p, 0, 0) is Some {
        let (c1, f1, q1) = next_component(p, 0, 0)->0;
        lemma_next_advances(p, 0, 0);
        assert(walk == strip_walk(p, f1, q1, p, f1, q1));
        if f1 == 2 {
            lemma_walk_body_itself(p, q1);
            let (ff, qq) = strip_walk(p, 2, q1, p, 2, q1)->0;
            f = ff;
            q = qq;
        } else {
            // the prefix came first; the root follows it
            if path_prefix(p) is None {
                assert(next_component(p, 0, 0) == next_component(p, 1, 0));
                lemma_next_advances(p, 1, 0);
            }
            assert(path_prefix(p) is Some);
            assert(q1 == prefix_len(p));
            assert(next_component(p, 1, q1) is Some);
            let (c2, f2, q2) = next_component(p, 1, q1)->0;
            lemma_next_advances(p, 1, q1);
            assert(strip_walk(p, 1, q1, p, 1, q1) == strip_walk(p, 2, q2, p, 2, q2));
            lemma_walk_body_itself(p, q2);
            let (ff, qq) = strip_walk(p, 2, q2, p, 2, q2)->0;
            f = ff;
            q = qq;
        }
    }
    assert(walk == Some((f, q)));
    if f == 2 {
        lemma_no_component_left(p, q);
        assert(trim_right(p, 2, p.len() as int, p.len() as int) == p.len());
        assert(rest_of(p, f, q) =~= Seq::<char>::empty());
    } else {
        // no component at all: the path is empty
        if p.len() > 0 {
            assert(path_prefix(p) is None);
            assert(next_component(p, 1, 0) is None);
            assert(next_component(p, 2, 0) is None);
            lemma_find_separator_bounds(p, 0, false);
            let i = find_separator(p, 0, false);
            if i == 0 {
                assert(has_physical_root(p));
            } else {
                assert(p.subrange(0, i) == seq!['.']);
                assert(p[0] == p.subrange(0, i)[0]);
                assert(include_cur_dir(p, 0, p.len() as int));
            }
        }
        assert(rest_of(p, f, q) =~= Seq::<char>::empty());
    }
    assert(forward_slashes(Seq::<char>::empty()) =~= Seq::<char>::empty());
}


/// A segment that names something: not empty, not ".", without separators.
pub open spec fn is_plain_segment(w: Seq<char>) -> bool {
    &&& w.len() > 0
    &&& w != seq!['.']
    &&& forall|k: int| 0 <= k < w.len() ==> !is_separator(#[trigger] w[k])
}

/// Plain segments joined by '\' start with the first of them, followed by
/// the end or a '\'.
proof fn lemma_join_first(words: Seq<Seq<char>>)
    requires
        words.len() > 0,
        forall|i: int| 0 <= i < words.len() ==> is_plain_segment(#[trigger] words[i]),
    ensures
        join(words, seq!['\\']).len() >= words[0].len(),
        join(words, seq!['\\']).take(words[0].len() as int) == words[0],
        join(words, seq!['\\']).len() == words[0].len() || join(words, seq!['\\'])[words[0].len() as int] == '\\',
        words.len() == 1 ==> join(words, seq!['\\']) == words[0],
    decreases words.len(),
{
    if words.len() > 1 {
        let w0 = words.drop_last();
        assert forall|i: int| 0 <= i < w0.len() implies is_plain_segment(#[trigger] w0[i]) by {
            assert(w0[i] == words[i]);
        }
        lemma_join_first(w0);
        let j = join(w0, seq!['\\']);
        let whole = j + seq!['\\'] + words.last();
        assert(whole.take(words[0].len() as int) =~= j.take(words[0].len() as int));
        if j.len() == words[0].len() {
            assert(whole[words[0].len() as int] == '\\');
        } else {
            assert(whole[words[0].len() as int] == j[words[0].len() as int]);
        }
    }
}

/// Turning '\' into '/' in plain segments joined by '\' joins them by '/'.
proof fn lemma_join_slashes(words: Seq<Seq<char>>)
    requires
        words.len() > 0,
        forall|i: int| 0 <= i < words.len() ==> is_plain_segment(#[trigger] words[i]),
    ensures
        forward_slashes(join(words, seq!['\\'])) == join(words, seq!['/']),
    decreases words.len(),
{
    let last = words.last();
    assert(is_plain_segment(words[words.len() - 1]));
    assert(forward_slashes(last) =~= last);
    if words.len() > 1 {
        let w0 = words.drop_last();
        assert forall|i: int| 0 <= i < w0.len() implies is_plain_segment(#[trigger] w0[i]) by {
            assert(w0[i] == words[i]);
        }
        lemma_join_slashes(w0);
        let j = join(w0, seq!['\\']);
        assert(forward_slashes(j + seq!['\\'] + last) =~= forward_slashes(j) + seq!['/'] + forward_slashes(last));
    }
}

/// Whether the cursor position `pt` in the longer path stands where `pb`
/// stands in the path of length `lb` that it extends by a '\'.
pub open spec fn corresponds(lb: int, pb: int, pt: int) -> bool {
    ||| 0 <= pb < lb && pt == pb
    ||| pb == lb && (pt == lb || pt == lb + 1)
}

/// Separators are found alike in a path and in that path extended by '\'.
proof fn lemma_find_separator_extended(b: Seq<char>, t: Seq<char>, p: int, v: bool)
    requires
        t.len() > b.len(),
        t.take(b.len() as int) == b,
        t[b.len() as int] == '\\',
        0 <= p <= b.len(),
    ensures
        find_separator(t, p, v) == find_separator(b, p, v),
    decreases b.len() - p,
{
    if p < b.len() {
        assert(t[p] == t.take(b.len() as int)[p]);
        lemma_find_separator_extended(b, t, p + 1, v);
    }
}

/// Reading the body of a path and of its extension by '\' and more goes
/// step by step alike; where the path has no component left, the extension
/// goes on as from just past the added '\'.
proof fn lemma_body_extended(b: Seq<char>, t: Seq<char>, pb: int, pt: int)
    requires
        t.len() > b.len(),
        t.take(b.len() as int) == b,
        t[b.len() as int] == '\\',
        is_verbatim(t) == is_verbatim(b),
        corresponds(b.len() as int, pb, pt),
    ensures
        next_component(b, 2, pb) matches Some((c, f, q)) ==> (next_component(t, 2, pt) matches Some((c2, f2, q2))
            && c2 == c && f2 == f && corresponds(b.len() as int, q, q2)),
        next_component(b, 2, pb) is None ==> next_component(t, 2, pt) == next_component(t, 2, b.len() as int + 1)
            && trim_left(t, pt) == trim_left(t, b.len() as int + 1),
    decreases b.len() - pb, pb + 1 - pt,
{
    let lb = b.len() as int;
    let v = is_verbatim(b);
    if pb < lb {
        lemma_find_separator_extended(b, t, pb, v);
        lemma_find_separator_bounds(b, pb, v);
        let i = find_separator(b, pb, v);
        assert(t.subrange(pb, i) =~= b.subrange(pb, i)) by {
            assert forall|k: int| pb <= k < i implies t[k] == b[k] by {
                assert(t[k] == t.take(lb)[k]);
            }
        }
        if named(v, b.subrange(pb, i)) is None {
            lemma_body_extended(b, t, after(b, i), after(t, i));
        }
    } else if pt == lb {
        assert(find_separator(t, lb, v) == lb);
        assert(t.subrange(lb, lb) =~= Seq::<char>::empty());
    }
}

/// The law's path, after the base: its words start right past the '\'.
proof fn lemma_words_after(b: Seq<char>, words: Seq<Seq<char>>)
    requires
        words.len() > 0,
        forall|i: int| 0 <= i < words.len() ==> is_plain_segment(#[trigger] words[i]),
    ensures
        ({
            let t = b + seq!['\\'] + join(words, seq!['\\']);
            let lb = b.len() as int;
            &&& next_component(t, 2, lb + 1) is Some
            &&& trim_left(t, lb + 1) == lb + 1
            &&& trim_right(t, 2, lb + 1, t.len() as int) == t.len()
        }),
{
    let r = join(words, seq!['\\']);
    let t = b + seq!['\\'] + r;
    let lb = b.len() as int;
    let v = is_verbatim(t);
    let w0 = words[0];
    assert(is_plain_segment(w0));
    lemma_join_first(words);
    assert forall|k: int| 0 <= k < r.len() implies t[lb + 1 + k] == #[trigger] r[k] by {}
    lemma_find_separator_bounds(t, lb + 1, v);
    let i = find_separator(t, lb + 1, v);
    assert forall|k: int| 0 <= k < w0.len() implies t[lb + 1 + k] == #[trigger] w0[k] by {
        assert(r.take(w0.len() as int)[k] == w0[k]);
    }
    if i < lb + 1 + w0.len() {
        assert(t[i] == w0[i - lb - 1]);
        assert(!is_separator(w0[i - lb - 1]));
    }
    if lb + 1 + w0.len() < t.len() {
        assert(t[lb + 1 + w0.len()] == '\\');
    }
    assert(i == lb + 1 + w0.len());
    assert(t.subrange(lb + 1, i) =~= w0);
    // the back: the last word, after a '\'
    let last = words.last();
    assert(is_plain_segment(words[words.len() - 1]));
    let lt = t.len() as int;
    let start = lb + 1;
    assert(len_before_body(t, 2, start, lt) == 0);
    lemma_last_separator_bounds(t, start, lt, v);
    let ls = last_separator(t, start, lt, v);
    let q = lt - last.len() - 1;
    assert forall|k: int| q < k < lt implies t[k] == #[trigger] last[k - q - 1] by {
        if words.len() > 1 {
            let j = join(words.drop_last(), seq!['\\']);
            assert(r == j + seq!['\\'] + last);
            assert(t[k] == r[k - lb - 1]);
        } else {
            assert(r == last);
            assert(t[k] == r[k - lb - 1]);
        }
    }
    if words.len() > 1 {
        let j = join(words.drop_last(), seq!['\\']);
        assert(r == j + seq!['\\'] + last);
        assert(t[q] == r[q - lb - 1]);
        assert(t[q] == '\\');
        assert(q >= start);
    } else {
        assert(q == lb);
    }
    if ls > q {
        assert(!is_separator(last[ls - q - 1]));
    }
    if q >= start && ls < q {
        assert(separates(v, t[q]));
    }
    let comp = if ls < start { t.subrange(start, lt) } else { t.subrange(ls + 1, lt) };
    assert(comp =~= last);
}

/// A relative path of plain segments, joined by '\' onto a project
/// directory, lies inside that directory at exactly that relative path
/// (with '/' between its segments). The directory must have a root, and
/// the join must leave its prefix as it was.
pub proof fn lemma_relative_path_of_joined(base: Seq<char>, words: Seq<Seq<char>>)
    requires
        words.len() > 0,
        forall|i: int| 0 <= i < words.len() ==> is_plain_segment(#[trigger] words[i]),
        has_root(base),
        path_prefix(base + seq!['\\'] + join(words, seq!['\\'])) == path_prefix(base),
    ensures
        relative_path(base, base + seq!['\\'] + join(words, seq!['\\'])) == Some(join(words, seq!['/'])),
{
    let b = base;
    let r = join(words, seq!['\\']);
    let t = b + seq!['\\'] + r;
    let lb = b.len() as int;
    lemma_prefix_within(b);
    lemma_words_after(b, words);
    lemma_join_slashes(words);
    assert(t.take(lb) =~= b);
    assert(t[lb] == '\\');
    assert(is_verbatim(t) == is_verbatim(b));
    assert(prefix_len(t) == prefix_len(b));
    let pl = prefix_len(b);
    assert(pl < lb ==> t[pl] == b[pl]);
    // the components before the body
    if path_prefix(b) is None {
        assert(next_component(t, 0, 0) == next_component(t, 1, 0));
        assert(next_component(b, 0, 0) == next_component(b, 1, 0));
    }
    assert(strip_walk(t, 0, 0, b, 0, 0) == strip_walk(t, 1, pl, b, 1, pl));
    // from the root on
    let (pb, pt) = if has_physical_root(b) {
        (pl + 1, pl + 1)
    } else if pl == lb {
        (lb, lb + 1)
    } else {
        (pl, pl)
    };
    assert(corresponds(lb, pb, pt));
    if has_physical_root(b) {
        assert(has_physical_root(t));
        assert(strip_walk(t, 1, pl, b, 1, pl) == strip_walk(t, 2, pt, b, 2, pb));
    } else if pl == lb {
        assert(has_physical_root(t));
        assert(strip_walk(t, 1, pl, b, 1, pl) == strip_walk(t, 2, pt, b, 2, pb));
    } else {
        assert(!has_physical_root(t));
        assert(strip_walk(t, 1, pl, b, 1, pl) == strip_walk(t, 2, pt, b, 2, pb));
    }
    lemma_walk_extended(b, t, pb, pt);
    assert(rest_of(t, 2, lb + 1) =~= r);
}

/// Walking the extension by '\' and more against the path, from
/// corresponding places in the body, ends just past the added '\' (up to
/// blank segments).
proof fn lemma_walk_extended(b: Seq<char>, t: Seq<char>, pb: int, pt: int)
    requires
        t.len() > b.len(),
        t.take(b.len() as int) == b,
        t[b.len() as int] == '\\',
        is_verbatim(t) == is_verbatim(b),
        corresponds(b.len() as int, pb, pt),
        next_component(t, 2, b.len() as int + 1) is Some,
        trim_left(t, b.len() as int + 1) == b.len() as int + 1,
    ensures
        strip_walk(t, 2, pt, b, 2, pb) matches Some((f, q)) && f == 2 && trim_left(t, q) == b.len() as int + 1,
    decreases b.len() - pb,
{
    lemma_body_extended(b, t, pb, pt);
    match next_component(b, 2, pb) {
        Some((c, f, q)) => {
            lemma_next_advances(b, 2, pb);
            let (c2, f2, q2) = next_component(t, 2, pt)->0;
            lemma_walk_extended(b, t, q, q2);
        },
        None => {},
    }
}

} // verus!
