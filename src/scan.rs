//! The scanner: walks directory trees under a resolved profile and records
//! the paths it reports.
//!
//! A tree is handed in as values: each [`FsEntry`] carries its name, its full
//! path, its kind (symbolic links already followed) and, for a directory the
//! scan visits, its listing. [`children_to_visit`] tells a loader which
//! listings the scan will read.

use vstd::prelude::*;


use crate::config::{selection_view, Config, IncludeEntry, Mode, ResolvedProfile, ResolvedView};
use crate::pattern::{glob_accepts, glob_is_valid, is_glob, is_path_pattern, lemma_path_pattern_exact, matches_any, matches_patterns, matches_patterns_with_path};
use crate::text::{begins_with, has_char, is_hidden, str_eq, strip_prefix_of, trim_leading_slashes, trim_leading_slashes_of};

verus! {

/// What an entry is, after following symbolic links.
#[derive(Debug, Clone, Copy, PartialEq, Eq, Structural)]
pub enum EntryKind {
    Dir,
    File,
    /// Neither: a broken link, a socket, an unreadable entry.
    Other,
}

/// One entry of a directory tree.
#[derive(Debug)]
pub struct FsEntry {
    /// The last path component.
    pub name: String,
    /// The full path.
    pub path: String,
    pub kind: EntryKind,
    /// The listing of a directory that was read; empty otherwise.
    pub children: Vec<FsEntry>,
}

/// A scan call that could not start.
#[derive(Debug, Clone)]
pub enum ScanError {
    /// A marker or ignore pattern that is a glob and does not compile.
    InvalidPattern(String),
}

/// The path of `e` relative to `root`: the part after `root` without leading
/// slashes, or the bare name when `root` does not begin the path.
pub open spec fn rel_path(e: FsEntry, root: Seq<char>) -> Seq<char> {
    if root.is_prefix_of(e.path@) {
        trim_leading_slashes(e.path@.subrange(root.len() as int, e.path@.len() as int))
    } else {
        e.name@
    }
}

/// Whether an ignore pattern matches `e`, by name or by relative path.
pub open spec fn is_ignored(p: ResolvedView, root: Seq<char>, e: FsEntry) -> bool {
    matches_any(p.ignore, e.name@, Some(rel_path(e, root)))
}

/// Whether `e` is a dot-directory that the profile does not enter.
pub open spec fn hidden_dir_excluded(p: ResolvedView, e: FsEntry) -> bool {
    is_hidden(e.name@) && !p.traverse_hidden_dirs
}

/// Whether `e` is a dot-file that the profile does not report.
pub open spec fn hidden_file_excluded(p: ResolvedView, e: FsEntry) -> bool {
    is_hidden(e.name@) && !p.show_hidden
}

/// Whether an entry of `d` has a name that a marker matches.
pub open spec fn has_marker(p: ResolvedView, d: FsEntry) -> bool {
    exists|i: int| 0 <= i < d.children.len() && matches_any(p.markers, (#[trigger] d.children@[i]).name@, None)
}

/// Whether a marker matches the name of `e`.
pub open spec fn is_marked(p: ResolvedView, e: FsEntry) -> bool {
    matches_any(p.markers, e.name@, None)
}

/// Whether the scan of a directory at `depth` descends into the child `c`.
pub open spec fn enters(p: ResolvedView, root: Seq<char>, c: FsEntry, depth: int) -> bool {
    match p.mode {
        Mode::Dir => c.kind == EntryKind::Dir && !hidden_dir_excluded(p, c) && !is_ignored(p, root, c),
        Mode::File => !is_ignored(p, root, c) && !(c.kind == EntryKind::File && is_marked(p, c))
            && c.kind == EntryKind::Dir && !hidden_dir_excluded(p, c) && depth < p.depth,
    }
}

/// Whether the scan of directory `d` at `depth` reads the listing of its `i`-th entry.
pub open spec fn visits(p: ResolvedView, root: Seq<char>, d: FsEntry, depth: int, i: int) -> bool {
    &&& p.mode == Mode::Dir ==> !(has_marker(p, d) && p.stop_on_marker) && depth < p.depth
    &&& enters(p, root, d.children@[i], depth)
}

pub open spec fn nothing() -> (bool, Set<Seq<char>>) {
    (false, Set::empty())
}

/// `s` when `b` holds, else the empty set.
pub open spec fn only_if(b: bool, s: Set<Seq<char>>) -> Set<Seq<char>> {
    if b {
        s
    } else {
        Set::empty()
    }
}

/// Whether the scan of directory `d` at `depth` yields a match, and the paths it records.
pub open spec fn scan_node(p: ResolvedView, root: Seq<char>, d: FsEntry, depth: int) -> (bool, Set<Seq<char>>)
    decreases d, d.children.len() + 2,
{
    let here = set![d.path@];
    match p.mode {
        Mode::Dir => {
            let m = has_marker(p, d);
            if m && p.stop_on_marker {
                (true, here)
            } else if depth >= p.depth {
                (m, only_if(m, here))
            } else {
                let below = scan_children(p, root, d, depth, 0);
                let y = m || below.0;
                (y, only_if(m, here).union(below.1).union(only_if(y && p.intermediate_paths, here)))
            }
        },
        Mode::File => {
            let below = scan_children(p, root, d, depth, 0);
            (below.0, below.1.union(only_if(below.0 && p.intermediate_paths, here)))
        },
    }
}

/// The outcome of the entries of `d` from the `i`-th on.
pub open spec fn scan_children(p: ResolvedView, root: Seq<char>, d: FsEntry, depth: int, i: int) -> (bool, Set<Seq<char>>)
    decreases d, d.children.len() - i + 1,
{
    if i < 0 || i >= d.children.len() {
        nothing()
    } else {
        let a = child_part(p, root, d, depth, i);
        let b = scan_children(p, root, d, depth, i + 1);
        (a.0 || b.0, a.1.union(b.1))
    }
}

/// The outcome of the `i`-th entry of `d`, scanned from `d` at `depth`.
pub open spec fn child_part(p: ResolvedView, root: Seq<char>, d: FsEntry, depth: int, i: int) -> (bool, Set<Seq<char>>)
    decreases d, 0int,
{
    if 0 <= i < d.children.len() {
        let c = d.children@[i];
        if enters(p, root, c, depth) {
            scan_node(p, root, c, depth + 1)
        } else if p.mode == Mode::File && !is_ignored(p, root, c) && c.kind == EntryKind::File
            && is_marked(p, c) && !hidden_file_excluded(p, c) {
            (true, set![c.path@])
        } else {
            nothing()
        }
    } else {
        nothing()
    }
}

/// The paths that scanning `root` records: the root itself when intermediate
/// paths are on, and what its scan records.
pub open spec fn scan_root(p: ResolvedView, root: FsEntry) -> Set<Seq<char>> {
    only_if(p.intermediate_paths, set![root.path@]).union(scan_node(p, root.path@, root, 0).1)
}

/// The paths that scanning every root of `roots` records.
pub open spec fn scan_roots(p: ResolvedView, roots: Seq<FsEntry>) -> Set<Seq<char>>
    decreases roots.len(),
{
    if roots.len() == 0 {
        Set::empty()
    } else {
        scan_roots(p, roots.drop_last()).union(scan_root(p, roots.last()))
    }
}

/// Whether `pattern` is a glob that does not compile.
pub open spec fn is_bad_glob(pattern: Seq<char>) -> bool {
    is_glob(pattern) && !glob_accepts(pattern)
}

/// Whether a marker or ignore pattern of the profile is a glob that does not compile.
pub open spec fn has_bad_glob(p: ResolvedView) -> bool {
    (exists|i: int| 0 <= i < p.markers.len() && is_bad_glob(#[trigger] p.markers[i]@))
    || (exists|i: int| 0 <= i < p.ignore.len() && is_bad_glob(#[trigger] p.ignore[i]@))
}

/// The set of strings in `v`.
pub open spec fn paths_of(v: Seq<String>) -> Set<Seq<char>> {
    Set::new(|s: Seq<char>| exists|i: int| 0 <= i < v.len() && (#[trigger] v[i])@ == s)
}

/// Whether no string occurs twice in `v`.
pub open spec fn distinct(v: Seq<String>) -> bool {
    forall|i: int, j: int| 0 <= i < j < v.len() ==> (#[trigger] v[i])@ != (#[trigger] v[j])@
}

/// Adds `s` to `out` unless it is there already.
pub fn record(out: &mut Vec<String>, s: &str)
    ensures
        distinct(old(out)@) ==> distinct(final(out)@),
        paths_of(final(out)@) == paths_of(old(out)@).insert(s@),
{
    let mut i: usize = 0;
    while i < out.len()
        invariant
            i <= out@.len(),
            forall|j: int| 0 <= j < i ==> (#[trigger] out@[j])@ != s@,
        decreases out.len() - i,
    {
        if str_eq(out[i].as_str(), s) {
            assert(paths_of(out@) =~= paths_of(out@).insert(s@));
            return;
        }
        i = i + 1;
    }
    let ghost before = out@;
    out.push(s.to_string());
    assert(out@[before.len() as int]@ == s@);
    assert(paths_of(out@) =~= paths_of(before).insert(s@)) by {
        assert forall|t: Seq<char>| paths_of(before).insert(s@).contains(t) implies paths_of(out@).contains(t) by {
            if t != s@ {
                let k = choose|k: int| 0 <= k < before.len() && before[k]@ == t;
                assert(out@[k] == before[k]);
            }
        }
    }
}

/// The path of `e` relative to `root`.
fn relative_path<'a>(e: &'a FsEntry, root: &str) -> (r: &'a str)
    ensures
        r@ == rel_path(*e, root@),
{
    match strip_prefix_of(e.path.as_str(), root) {
        Some(rest) => trim_leading_slashes_of(rest),
        None => e.name.as_str(),
    }
}

fn ignored(p: &ResolvedProfile, root: &str, e: &FsEntry) -> (r: bool)
    ensures
        r == is_ignored(p@, root@, *e),
{
    let rel = relative_path(e, root);
    matches_patterns_with_path(e.name.as_str(), Some(rel), p.ignore.as_slice())
}

fn marked(p: &ResolvedProfile, e: &FsEntry) -> (r: bool)
    ensures
        r == is_marked(p@, *e),
{
    matches_patterns(e.name.as_str(), p.markers.as_slice())
}

fn holds_marker(p: &ResolvedProfile, d: &FsEntry) -> (r: bool)
    ensures
        r == has_marker(p@, *d),
{
    let mut i: usize = 0;
    while i < d.children.len()
        invariant
            i <= d.children@.len(),
            forall|j: int| 0 <= j < i ==> !matches_any(p@.markers, (#[trigger] d.children@[j]).name@, None),
        decreases d.children.len() - i,
    {
        if marked(p, &d.children[i]) {
            return true;
        }
        i = i + 1;
    }
    false
}

fn enters_child(p: &ResolvedProfile, root: &str, c: &FsEntry, depth: u8) -> (r: bool)
    ensures
        r == enters(p@, root@, *c, depth as int),
{
    let hidden_dir = begins_with(c.name.as_str(), '.') && !p.traverse_hidden_dirs;
    match p.mode {
        Mode::Dir => c.kind == EntryKind::Dir && !hidden_dir && !ignored(p, root, c),
        Mode::File => {
            if ignored(p, root, c) {
                false
            } else if c.kind == EntryKind::File && marked(p, c) {
                false
            } else {
                c.kind == EntryKind::Dir && !hidden_dir && depth < p.depth
            }
        },
    }
}

/// For each entry of `d`, whether the scan of `d` at `depth` reads its listing.
pub fn children_to_visit(p: &ResolvedProfile, root: &str, d: &FsEntry, depth: u8) -> (r: Vec<bool>)
    ensures
        r@.len() == d.children@.len(),
        forall|i: int| 0 <= i < r@.len() ==> r@[i] == visits(p@, root@, *d, depth as int, i),
{
    let stops = p.mode == Mode::Dir && ((holds_marker(p, d) && p.stop_on_marker) || depth >= p.depth);
    let mut r: Vec<bool> = Vec::new();
    let mut i: usize = 0;
    while i < d.children.len()
        invariant
            i <= d.children@.len(),
            stops == (p@.mode == Mode::Dir && ((has_marker(p@, *d) && p@.stop_on_marker) || depth >= p@.depth)),
            r@.len() == i,
            forall|j: int| 0 <= j < i ==> r@[j] == visits(p@, root@, *d, depth as int, j),
        decreases d.children.len() - i,
    {
        let v = !stops && enters_child(p, root, &d.children[i], depth);
        r.push(v);
        i = i + 1;
    }
    r
}

/// Scans the `i`-th entry of `d`, a directory at `depth`; returns whether it yields.
fn scan_child(d: &FsEntry, i: usize, root: &str, depth: u8, p: &ResolvedProfile, output: &mut Vec<String>) -> (r: bool)
    requires
        i < d.children@.len(),
        depth <= p.depth,
        p.mode == Mode::Dir ==> depth < p.depth,
    ensures
        distinct(old(output)@) ==> distinct(final(output)@),
        r == child_part(p@, root@, *d, depth as int, i as int).0,
        paths_of(final(output)@) == paths_of(old(output)@).union(child_part(p@, root@, *d, depth as int, i as int).1),
    decreases d, 0int,
{
    let c = &d.children[i];
    if enters_child(p, root, c, depth) {
        scan_directory(c, root, depth + 1, p, output)
    } else if p.mode == Mode::File && !ignored(p, root, c) && c.kind == EntryKind::File && marked(p, c)
        && !(begins_with(c.name.as_str(), '.') && !p.show_hidden) {
        record(output, c.path.as_str());
        true
    } else {
        assert(paths_of(output@) =~= paths_of(output@).union(Set::empty()));
        false
    }
}

/// Scans directory `d` at `depth`, adding what it records to `output`; returns
/// whether it yields a match.
fn scan_directory(d: &FsEntry, root: &str, depth: u8, p: &ResolvedProfile, output: &mut Vec<String>) -> (r: bool)
    requires
        depth <= p.depth,
    ensures
        distinct(old(output)@) ==> distinct(final(output)@),
        r == scan_node(p@, root@, *d, depth as int).0,
        paths_of(final(output)@) == paths_of(old(output)@).union(scan_node(p@, root@, *d, depth as int).1),
    decreases d, d.children.len() + 2,
{
    let ghost start = paths_of(output@);
    let ghost was_distinct = distinct(output@);
    let ghost here = set![d.path@];
    let mut yields = false;
    if p.mode == Mode::Dir {
        let m = holds_marker(p, d);
        if m {
            record(output, d.path.as_str());
            if p.stop_on_marker {
                return true;
            }
        }
        if depth >= p.depth {
            assert(paths_of(output@) =~= start.union(only_if(m, here)));
            return m;
        }
        yields = m;
    }
    let ghost first = paths_of(output@);
    let ghost y0 = yields;
    let mut i: usize = 0;
    while i < d.children.len()
        invariant
            i <= d.children@.len(),
            depth <= p.depth,
            p.mode == Mode::Dir ==> depth < p.depth,
            was_distinct ==> distinct(output@),
            paths_of(output@).union(scan_children(p@, root@, *d, depth as int, i as int).1)
                == first.union(scan_children(p@, root@, *d, depth as int, 0).1),
            (yields || scan_children(p@, root@, *d, depth as int, i as int).0)
                == (y0 || scan_children(p@, root@, *d, depth as int, 0).0),
        decreases d.children.len() - i,
    {
        let ghost before = paths_of(output@);
        let y = scan_child(d, i, root, depth, p, output);
        yields = yields || y;
        proof {
            let a = child_part(p@, root@, *d, depth as int, i as int);
            let b = scan_children(p@, root@, *d, depth as int, i + 1);
            assert(scan_children(p@, root@, *d, depth as int, i as int) == (a.0 || b.0, a.1.union(b.1)));
            assert(paths_of(output@).union(b.1) =~= before.union(a.1.union(b.1)));
        }
        i = i + 1;
    }
    let ghost below = scan_children(p@, root@, *d, depth as int, 0);
    assert(scan_children(p@, root@, *d, depth as int, d.children@.len() as int) == nothing());
    assert(paths_of(output@) =~= first.union(below.1));
    if yields && p.intermediate_paths {
        record(output, d.path.as_str());
    }
    proof {
        if p.mode == Mode::Dir {
            let m = has_marker(p@, *d);
            assert(first == start.union(only_if(m, here)));
        }
        assert(paths_of(output@) =~= start.union(scan_node(p@, root@, *d, depth as int).1));
    }
    yields
}

/// The first pattern of `patterns` that is a glob and does not compile.
fn first_bad_glob(patterns: &Vec<String>) -> (r: Option<usize>)
    ensures
        r is Some ==> r.unwrap() < patterns@.len() && is_bad_glob(patterns@[r.unwrap() as int]@),
        r is None ==> forall|i: int| 0 <= i < patterns@.len() ==> !is_bad_glob(#[trigger] patterns@[i]@),
{
    let mut i: usize = 0;
    while i < patterns.len()
        invariant
            i <= patterns@.len(),
            forall|j: int| 0 <= j < i ==> !is_bad_glob(#[trigger] patterns@[j]@),
        decreases patterns.len() - i,
    {
        let pat = patterns[i].as_str();
        if (has_char(pat, '*') || has_char(pat, '?')) && !glob_is_valid(pat) {
            return Some(i);
        }
        i = i + 1;
    }
    None
}

/// Scans each root under `profile`, adding every path the scans record to
/// `output` (adding none that is there already). Fails, leaving `output` as it
/// was, when a marker or ignore pattern is a glob that does not compile.
pub fn scan_paths(roots: &Vec<FsEntry>, profile: &ResolvedProfile, output: &mut Vec<String>) -> (r: Result<(), ScanError>)
    ensures
        distinct(old(output)@) ==> distinct(final(output)@),
        r is Err <==> has_bad_glob(profile@),
        r is Err ==> final(output)@ == old(output)@,
        r matches Err(ScanError::InvalidPattern(s)) ==> is_bad_glob(s@),
        r is Ok ==> paths_of(final(output)@) == paths_of(old(output)@).union(scan_roots(profile@, roots@)),
{
    match first_bad_glob(&profile.markers) {
        Some(k) => {
            assert(is_bad_glob(profile@.markers[k as int]@));
            return Err(ScanError::InvalidPattern(profile.markers[k].clone()));
        },
        None => {},
    }
    match first_bad_glob(&profile.ignore) {
        Some(k) => {
            assert(is_bad_glob(profile@.ignore[k as int]@));
            return Err(ScanError::InvalidPattern(profile.ignore[k].clone()));
        },
        None => {},
    }
    let ghost start = paths_of(output@);
    let ghost was_distinct = distinct(output@);
    let mut i: usize = 0;
    while i < roots.len()
        invariant
            i <= roots@.len(),
            was_distinct ==> distinct(output@),
            paths_of(output@) == start.union(scan_roots(profile@, roots@.subrange(0, i as int))),
        decreases roots.len() - i,
    {
        let root = &roots[i];
        let ghost before = paths_of(output@);
        if profile.intermediate_paths {
            record(output, root.path.as_str());
        }
        let ghost mid = paths_of(output@);
        scan_directory(root, root.path.as_str(), 0, profile, output);
        proof {
            let pre = roots@.subrange(0, i as int);
            let post = roots@.subrange(0, i + 1);
            assert(post.drop_last() =~= pre);
            assert(post.last() == roots@[i as int]);
            assert(mid =~= before.union(only_if(profile@.intermediate_paths, set![root.path@])));
            assert(paths_of(output@) =~= start.union(scan_roots(profile@, post)));
        }
        i = i + 1;
    }
    assert(roots@.subrange(0, roots@.len() as int) =~= roots@);
    Ok(())
}

/// In directory mode with `stop_on_marker`, a directory holding a marker is
/// recorded and nothing below it is visited or recorded.
pub proof fn lemma_stop_on_marker(p: ResolvedView, root: Seq<char>, d: FsEntry, depth: int)
    requires
        p.mode == Mode::Dir,
        p.stop_on_marker,
        has_marker(p, d),
    ensures
        scan_node(p, root, d, depth) == (true, set![d.path@]),
        forall|i: int| 0 <= i < d.children.len() ==> !visits(p, root, d, depth, i),
{
}

/// With `intermediate_paths`, a directory whose scan yields a match is
/// itself recorded, so every ancestor of a match up to the root is reported.
pub proof fn lemma_intermediate_recorded(p: ResolvedView, root: Seq<char>, d: FsEntry, depth: int)
    requires
        p.intermediate_paths,
        scan_node(p, root, d, depth).0,
    ensures
        scan_node(p, root, d, depth).1.contains(d.path@),
{
}

/// With depth bound 0, the scan of a root visits no entry below it; in
/// directory mode it only checks the root's own entries for a marker.
pub proof fn lemma_depth_zero(p: ResolvedView, d: FsEntry)
    requires
        p.depth == 0,
    ensures
        forall|i: int| 0 <= i < d.children.len() ==> !visits(p, d.path@, d, 0, i),
        p.mode == Mode::Dir ==> scan_node(p, d.path@, d, 0) == (has_marker(p, d), only_if(has_marker(p, d), set![d.path@])),
{
}

/// A dot-directory is not entered unless `traverse_hidden_dirs` is set, so
/// nothing inside it is recorded, markers or not.
pub proof fn lemma_hidden_dir_skipped(p: ResolvedView, root: Seq<char>, d: FsEntry, depth: int, i: int)
    requires
        0 <= i < d.children.len(),
        d.children@[i].kind == EntryKind::Dir,
        is_hidden(d.children@[i].name@),
        !p.traverse_hidden_dirs,
    ensures
        !visits(p, root, d, depth, i),
        child_part(p, root, d, depth, i) == nothing(),
{
}

/// Whether `s` is the path of a directory at or below `d` that holds a marker.
pub open spec fn marked_within(p: ResolvedView, d: FsEntry, s: Seq<char>) -> bool
    decreases d, d.children.len() + 2,
{
    (d.path@ == s && has_marker(p, d)) || marked_within_children(p, d, s, 0)
}

/// Whether `s` is the path of a marked directory below one of the entries of
/// `d` from the `i`-th on.
pub open spec fn marked_within_children(p: ResolvedView, d: FsEntry, s: Seq<char>, i: int) -> bool
    decreases d, d.children.len() - i + 1,
{
    if i < 0 || i >= d.children.len() {
        false
    } else {
        marked_within_child(p, d, s, i) || marked_within_children(p, d, s, i + 1)
    }
}

/// Whether `s` is the path of a marked directory at or below the `i`-th entry of `d`.
pub open spec fn marked_within_child(p: ResolvedView, d: FsEntry, s: Seq<char>, i: int) -> bool
    decreases d, 0int,
{
    if 0 <= i < d.children.len() {
        marked_within(p, d.children@[i], s)
    } else {
        false
    }
}

/// In directory mode with `intermediate_paths` off, the scan records only
/// directories that hold a marker themselves: no ancestor of a match and no
/// root is reported for the match's sake.
pub proof fn lemma_only_matches_without_intermediate(p: ResolvedView, root: Seq<char>, d: FsEntry, depth: int)
    requires
        p.mode == Mode::Dir,
        !p.intermediate_paths,
    ensures
        forall|s: Seq<char>| #[trigger] scan_node(p, root, d, depth).1.contains(s) ==> marked_within(p, d, s),
    decreases d, d.children.len() + 2,
{
    let m = has_marker(p, d);
    if !(m && p.stop_on_marker) && depth < p.depth {
        lemma_only_matches_children(p, root, d, depth, 0);
    }
    assert forall|s: Seq<char>| #[trigger] scan_node(p, root, d, depth).1.contains(s) implies marked_within(p, d, s) by {
        if m && p.stop_on_marker {
            assert(s == d.path@);
        } else if depth >= p.depth {
            assert(s == d.path@);
        } else if !(m && s == d.path@) {
            assert(scan_children(p, root, d, depth, 0).1.contains(s));
        }
    }
}

proof fn lemma_only_matches_children(p: ResolvedView, root: Seq<char>, d: FsEntry, depth: int, i: int)
    requires
        p.mode == Mode::Dir,
        !p.intermediate_paths,
    ensures
        forall|s: Seq<char>| #[trigger] scan_children(p, root, d, depth, i).1.contains(s) ==> marked_within_children(p, d, s, i),
    decreases d, d.children.len() - i + 1,
{
    if 0 <= i < d.children.len() {
        lemma_only_matches_child(p, root, d, depth, i);
        lemma_only_matches_children(p, root, d, depth, i + 1);
        assert forall|s: Seq<char>| #[trigger] scan_children(p, root, d, depth, i).1.contains(s) implies marked_within_children(p, d, s, i) by {
            if child_part(p, root, d, depth, i).1.contains(s) {
                assert(marked_within_child(p, d, s, i));
            } else {
                assert(scan_children(p, root, d, depth, i + 1).1.contains(s));
            }
        }
    }
}

proof fn lemma_only_matches_child(p: ResolvedView, root: Seq<char>, d: FsEntry, depth: int, i: int)
    requires
        p.mode == Mode::Dir,
        !p.intermediate_paths,
    ensures
        forall|s: Seq<char>| #[trigger] child_part(p, root, d, depth, i).1.contains(s) ==> marked_within_child(p, d, s, i),
    decreases d, 0int,
{
    if 0 <= i < d.children.len() && enters(p, root, d.children@[i], depth) {
        lemma_only_matches_without_intermediate(p, root, d.children@[i], depth + 1);
        assert forall|s: Seq<char>| #[trigger] child_part(p, root, d, depth, i).1.contains(s) implies marked_within_child(p, d, s, i) by {
            assert(scan_node(p, root, d.children@[i], depth + 1).1.contains(s));
        }
    } else {
        assert(child_part(p, root, d, depth, i).1 =~= Set::empty());
    }
}

proof fn lemma_part_in_children(p: ResolvedView, root: Seq<char>, d: FsEntry, depth: int, i: int, j: int)
    requires
        0 <= j <= i < d.children.len(),
    ensures
        child_part(p, root, d, depth, i).1.subset_of(scan_children(p, root, d, depth, j).1),
        child_part(p, root, d, depth, i).0 ==> scan_children(p, root, d, depth, j).0,
    decreases i - j,
{
    if j < i {
        lemma_part_in_children(p, root, d, depth, i, j + 1);
    }
}

proof fn lemma_single_root(p: ResolvedView, r: FsEntry)
    ensures
        scan_roots(p, seq![r]) == scan_root(p, r),
{
    let one = seq![r];
    assert(one.drop_last() =~= Seq::<FsEntry>::empty());
    assert(one.last() == r);
    assert(scan_roots(p, one.drop_last()) == Set::<Seq<char>>::empty());
    assert(Set::<Seq<char>>::empty().union(scan_root(p, r)) =~= scan_root(p, r));
}

/// Whether the scan from a directory at `depth` enters its `i`-th entry in
/// directory mode: a directory, not a dot-directory left out, not ignored.
pub open spec fn dir_child_entered(p: ResolvedView, root: Seq<char>, d: FsEntry, i: int) -> bool {
    &&& 0 <= i < d.children.len()
    &&& d.children@[i].kind == EntryKind::Dir
    &&& !hidden_dir_excluded(p, d.children@[i])
    &&& !is_ignored(p, root, d.children@[i])
}

proof fn lemma_yields_and_records(p: ResolvedView, root: Seq<char>, d: FsEntry, depth: int)
    requires
        p.mode == Mode::Dir,
        has_marker(p, d),
    ensures
        scan_node(p, root, d, depth).0,
        scan_node(p, root, d, depth).1.contains(d.path@),
{
}

proof fn lemma_child_lifts(p: ResolvedView, root: Seq<char>, d: FsEntry, depth: int, i: int, s: Seq<char>)
    requires
        p.mode == Mode::Dir,
        dir_child_entered(p, root, d, i),
        !(has_marker(p, d) && p.stop_on_marker),
        depth < p.depth,
        scan_node(p, root, d.children@[i], depth + 1).0,
        scan_node(p, root, d.children@[i], depth + 1).1.contains(s),
    ensures
        scan_node(p, root, d, depth).0,
        scan_node(p, root, d, depth).1.contains(s),
        p.intermediate_paths ==> scan_node(p, root, d, depth).1.contains(d.path@),
{
    lemma_part_in_children(p, root, d, depth, i, 0);
}

/// A root holding no marker, with a subdirectory `p` that the scan enters and
/// that holds a marker: under `stop_on_marker` the scan records `p`, `p`'s
/// share of the result is `p` alone, and no listing below `p` is visited.
pub proof fn lemma_stop_on_marker_below_root(p: ResolvedView, r: FsEntry, i: int)
    requires
        p.mode == Mode::Dir,
        p.stop_on_marker,
        p.depth >= 1,
        !has_marker(p, r),
        dir_child_entered(p, r.path@, r, i),
        has_marker(p, r.children@[i]),
    ensures
        scan_roots(p, seq![r]).contains(r.children@[i].path@),
        child_part(p, r.path@, r, 0, i) == (true, set![r.children@[i].path@]),
        forall|k: int| 0 <= k < r.children@[i].children.len() ==> !visits(p, r.path@, r.children@[i], 1, k),
{
    let c = r.children@[i];
    lemma_stop_on_marker(p, r.path@, c, 1);
    lemma_child_lifts(p, r.path@, r, 0, i, c.path@);
    lemma_single_root(p, r);
}

/// A match two levels below the root (`r`, its entry `a`, `a`'s entry `b`,
/// with only `b` needed to hold a marker): with `intermediate_paths` the scan
/// records the match, its parent and the root.
pub proof fn lemma_nested_match_with_intermediate(p: ResolvedView, r: FsEntry, i: int, j: int)
    requires
        p.mode == Mode::Dir,
        p.intermediate_paths,
        p.depth >= 2,
        !(has_marker(p, r) && p.stop_on_marker),
        dir_child_entered(p, r.path@, r, i),
        !(has_marker(p, r.children@[i]) && p.stop_on_marker),
        dir_child_entered(p, r.path@, r.children@[i], j),
        has_marker(p, r.children@[i].children@[j]),
    ensures
        scan_roots(p, seq![r]).contains(r.children@[i].children@[j].path@),
        scan_roots(p, seq![r]).contains(r.children@[i].path@),
        scan_roots(p, seq![r]).contains(r.path@),
{
    let a = r.children@[i];
    let b = a.children@[j];
    lemma_yields_and_records(p, r.path@, b, 2);
    lemma_child_lifts(p, r.path@, a, 1, j, b.path@);
    lemma_child_lifts(p, r.path@, r, 0, i, b.path@);
    lemma_child_lifts(p, r.path@, r, 0, i, a.path@);
    lemma_single_root(p, r);
}

/// The same shape with `intermediate_paths` off, in a tree where `b` is the
/// only directory holding a marker: the scan records the match alone.
pub proof fn lemma_nested_match_alone(p: ResolvedView, r: FsEntry, i: int, j: int)
    requires
        p.mode == Mode::Dir,
        !p.intermediate_paths,
        p.depth >= 2,
        !has_marker(p, r),
        dir_child_entered(p, r.path@, r, i),
        !has_marker(p, r.children@[i]),
        dir_child_entered(p, r.path@, r.children@[i], j),
        has_marker(p, r.children@[i].children@[j]),
        forall|s: Seq<char>| #[trigger] marked_within(p, r, s) ==> s == r.children@[i].children@[j].path@,
    ensures
        scan_roots(p, seq![r]) == set![r.children@[i].children@[j].path@],
{
    let a = r.children@[i];
    let b = a.children@[j];
    lemma_yields_and_records(p, r.path@, b, 2);
    lemma_child_lifts(p, r.path@, a, 1, j, b.path@);
    lemma_child_lifts(p, r.path@, r, 0, i, b.path@);
    lemma_only_matches_without_intermediate(p, r.path@, r, 0);
    lemma_single_root(p, r);
    assert(scan_roots(p, seq![r]) =~= set![b.path@]);
}

/// With depth bound 0 in directory mode, scanning a root records the root
/// exactly when intermediate paths are on or one of its entries is a marker,
/// and nothing else.
pub proof fn lemma_depth_zero_root(p: ResolvedView, r: FsEntry)
    requires
        p.mode == Mode::Dir,
        p.depth == 0,
    ensures
        scan_roots(p, seq![r]) == only_if(p.intermediate_paths || has_marker(p, r), set![r.path@]),
{
    lemma_single_root(p, r);
    assert(scan_roots(p, seq![r]) =~= only_if(p.intermediate_paths || has_marker(p, r), set![r.path@]));
}

/// With a single ignore pattern that is a path pattern without wildcards, an
/// entry is ignored exactly when its path relative to the scan root is the
/// pattern: `mason/packages` ignores `<root>/mason/packages` and not
/// `<root>/other/packages`.
pub proof fn lemma_path_ignore_exact(p: ResolvedView, root: Seq<char>, e: FsEntry)
    requires
        p.ignore.len() == 1,
        is_path_pattern(p.ignore[0]@),
        !is_glob(p.ignore[0]@),
    ensures
        is_ignored(p, root, e) <==> rel_path(e, root) == p.ignore[0]@,
{
    lemma_path_pattern_exact(p.ignore[0]@, e.name@, rel_path(e, root));
}

/// The paths that scanning every include entry records: entry `i` scans the
/// roots `roots[i]` under the policy selected for it.
pub open spec fn includes_scan(t: Map<Seq<char>, crate::config::ProfileView>, entries: Seq<IncludeEntry>, roots: Seq<Vec<FsEntry>>) -> Set<Seq<char>>
    decreases entries.len(),
{
    if entries.len() == 0 || roots.len() < entries.len() {
        Set::empty()
    } else {
        let k = entries.len() - 1;
        includes_scan(t, entries.drop_last(), roots.subrange(0, k)).union(scan_roots(selection_view(t, entries[k]), roots[k]@))
    }
}

/// Whether the policy selected for some include entry has a glob that does not compile.
pub open spec fn some_bad_glob(t: Map<Seq<char>, crate::config::ProfileView>, entries: Seq<IncludeEntry>) -> bool {
    exists|i: int| 0 <= i < entries.len() && has_bad_glob(selection_view(t, #[trigger] entries[i]))
}

/// Scans every include entry of `config`, entry `i` over the trees
/// `roots[i]` under its selected policy, and returns every path recorded,
/// each once. Fails when the policy of some entry has a glob that does not compile.
pub fn scan_includes(config: &Config, roots: &Vec<Vec<FsEntry>>) -> (r: Result<Vec<String>, ScanError>)
    requires
        config.profiles.wf(),
        roots@.len() == config.includes@.len(),
    ensures
        r is Err <==> some_bad_glob(config.profiles@, config.includes@),
        r matches Ok(out) ==> distinct(out@) && paths_of(out@) == includes_scan(config.profiles@, config.includes@, roots@),
{
    let ghost t = config.profiles@;
    let ghost es = config.includes@;
    let mut out: Vec<String> = Vec::new();
    let mut i: usize = 0;
    assert(paths_of(out@) =~= Set::empty());
    while i < config.includes.len()
        invariant
            config.profiles.wf(),
            t == config.profiles@,
            es == config.includes@,
            roots@.len() == es.len(),
            i <= es.len(),
            distinct(out@),
            forall|j: int| 0 <= j < i ==> !has_bad_glob(selection_view(t, #[trigger] es[j])),
            paths_of(out@) == includes_scan(t, es.subrange(0, i as int), roots@.subrange(0, i as int)),
        decreases config.includes.len() - i,
    {
        let profile = config.resolve_profile(&config.includes[i]);
        let ghost before = paths_of(out@);
        match scan_paths(&roots[i], &profile, &mut out) {
            Ok(()) => {},
            Err(e) => {
                assert(has_bad_glob(selection_view(t, es[i as int])));
                return Err(e);
            },
        }
        proof {
            let pe = es.subrange(0, i + 1);
            let pr = roots@.subrange(0, i + 1);
            assert(pe.drop_last() =~= es.subrange(0, i as int));
            assert(pr.subrange(0, i as int) =~= roots@.subrange(0, i as int));
            assert(pe[i as int] == es[i as int]);
            assert(pr[i as int] == roots@[i as int]);
        }
        i = i + 1;
    }
    assert(es.subrange(0, es.len() as int) =~= es);
    assert(roots@.subrange(0, es.len() as int) =~= roots@);
    Ok(out)
}

} // verus!
