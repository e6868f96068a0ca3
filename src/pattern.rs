//! Matching entry names and relative paths against marker and ignore patterns.

use vstd::prelude::*;

use crate::text::{has_char, str_eq};

verus! {

/// Whether `glob::Pattern::new` accepts `pattern`.
pub uninterp spec fn glob_accepts(pattern: Seq<char>) -> bool;

/// Whether the compiled glob `pattern` matches `text` under the default match options.
pub uninterp spec fn glob_matches(pattern: Seq<char>, text: Seq<char>) -> bool;

/// Relies on `glob::Pattern::new`: whether the pattern compiles.
#[verifier::external_body]
pub(crate) fn glob_is_valid(pattern: &str) -> (r: bool)
    ensures
        r == glob_accepts(pattern@),
{
    glob::Pattern::new(pattern).is_ok()
}

/// Relies on `glob::Pattern::new` and `glob::Pattern::matches`: compiles the pattern
/// and matches `text` against it; a pattern that does not compile matches nothing.
#[verifier::external_body]
fn glob_match(pattern: &str, text: &str) -> (r: bool)
    ensures
        r == (glob_accepts(pattern@) && glob_matches(pattern@, text@)),
{
    match glob::Pattern::new(pattern) {
        Ok(p) => p.matches(text),
        Err(_) => false,
    }
}

/// Whether a pattern is matched by shell-glob rules rather than by equality.
pub open spec fn is_glob(pattern: Seq<char>) -> bool {
    pattern.contains('*') || pattern.contains('?')
}

/// Whether a pattern is a path pattern, matched against the path relative to the scan root.
pub open spec fn is_path_pattern(pattern: Seq<char>) -> bool {
    pattern.contains('/')
}

/// What `pattern` is matched against: the path relative to the scan root
/// (when known) for a path pattern, the entry's name otherwise.
pub open spec fn match_target(pattern: Seq<char>, name: Seq<char>, rel: Option<Seq<char>>) -> Option<Seq<char>> {
    if is_path_pattern(pattern) {
        rel
    } else {
        Some(name)
    }
}

/// Whether `pattern` matches, given `glob_verdict`, whether the pattern taken
/// as a glob compiles and matches the target: `*` matches everything; a
/// pattern without a target matches nothing; a glob matches as the verdict
/// says; any other pattern matches a target equal to it.
pub open spec fn decides_match(pattern: Seq<char>, name: Seq<char>, rel: Option<Seq<char>>, glob_verdict: bool) -> bool {
    if pattern == seq!['*'] {
        true
    } else {
        match match_target(pattern, name, rel) {
            None => false,
            Some(t) => if is_glob(pattern) {
                glob_verdict
            } else {
                t == pattern
            },
        }
    }
}

/// Whether `pattern` matches an entry called `name` whose path relative to the
/// scan root is `rel` (when known).
pub open spec fn pattern_matches(pattern: Seq<char>, name: Seq<char>, rel: Option<Seq<char>>) -> bool {
    let verdict = match match_target(pattern, name, rel) {
        Some(t) => glob_accepts(pattern) && glob_matches(pattern, t),
        None => false,
    };
    decides_match(pattern, name, rel, verdict)
}

/// Whether some pattern of `patterns` matches.
pub open spec fn matches_any(patterns: Seq<String>, name: Seq<char>, rel: Option<Seq<char>>) -> bool {
    exists|i: int| 0 <= i < patterns.len() && pattern_matches(#[trigger] patterns[i]@, name, rel)
}

fn is_star(pattern: &str) -> (r: bool)
    ensures
        r == (pattern@ == seq!['*']),
{
    if pattern.unicode_len() != 1 {
        return false;
    }
    let c = pattern.get_char(0);
    assert(c == '*' ==> pattern@ =~= seq!['*']);
    c == '*'
}

/// The characters of a string slice, when there is one.
pub open spec fn opt_str_view(o: Option<&str>) -> Option<Seq<char>> {
    match o {
        Some(s) => Some(s@),
        None => None,
    }
}

/// What `pattern` is matched against (see [`match_target`]).
pub fn match_target_of<'a>(pattern: &str, name: &'a str, rel: Option<&'a str>) -> (r: Option<&'a str>)
    ensures
        opt_str_view(r) == match_target(pattern@, name@, opt_str_view(rel)),
{
    if has_char(pattern, '/') {
        rel
    } else {
        Some(name)
    }
}

/// Whether `pattern` matches the entry, given the glob verdict for its target
/// (see [`decides_match`]).
pub fn decide_match(pattern: &str, name: &str, rel: Option<&str>, glob_verdict: bool) -> (r: bool)
    ensures
        r == decides_match(pattern@, name@, opt_str_view(rel), glob_verdict),
{
    if is_star(pattern) {
        return true;
    }
    match match_target_of(pattern, name, rel) {
        None => false,
        Some(t) => {
            if has_char(pattern, '*') || has_char(pattern, '?') {
                glob_verdict
            } else {
                str_eq(t, pattern)
            }
        },
    }
}

/// Whether one pattern matches the entry.
pub fn pattern_matches_entry(pattern: &str, name: &str, rel: Option<&str>) -> (r: bool)
    ensures
        r == pattern_matches(pattern@, name@, opt_str_view(rel)),
{
    let verdict = match match_target_of(pattern, name, rel) {
        Some(t) => (has_char(pattern, '*') || has_char(pattern, '?')) && glob_match(pattern, t),
        None => false,
    };
    decide_match(pattern, name, rel, verdict)
}

/// Whether `name` matches any of `patterns`; path patterns never match here,
/// since no relative path is given.
pub fn matches_patterns(name: &str, patterns: &[String]) -> (r: bool)
    ensures
        r == matches_any(patterns@, name@, None),
{
    matches_patterns_with_path(name, None, patterns)
}

/// Whether any of `patterns` matches: a path pattern against `relative_path`,
/// any other pattern against `name`. Patterns are tried in order.
pub fn matches_patterns_with_path(name: &str, relative_path: Option<&str>, patterns: &[String]) -> (r: bool)
    ensures
        r == matches_any(patterns@, name@, opt_str_view(relative_path)),
{
    let ghost rel = opt_str_view(relative_path);
    let mut i: usize = 0;
    while i < patterns.len()
        invariant
            i <= patterns@.len(),
            rel == opt_str_view(relative_path),
            forall|j: int| 0 <= j < i ==> !pattern_matches(#[trigger] patterns@[j]@, name@, rel),
        decreases patterns.len() - i,
    {
        if pattern_matches_entry(patterns[i].as_str(), name, relative_path) {
            return true;
        }
        i = i + 1;
    }
    false
}

/// The pattern `*` matches every name, dot-names included, with or without
/// a relative path.
pub proof fn lemma_star_matches_everything(name: Seq<char>, rel: Option<Seq<char>>)
    ensures
        pattern_matches(seq!['*'], name, rel),
{
}

/// A path pattern without wildcards matches exactly the entry whose relative
/// path it spells, whatever the entry's name: `mason/packages` matches
/// `mason/packages` and not `other/packages`.
pub proof fn lemma_path_pattern_exact(pattern: Seq<char>, name: Seq<char>, rel: Seq<char>)
    requires
        is_path_pattern(pattern),
        !is_glob(pattern),
    ensures
        pattern_matches(pattern, name, Some(rel)) <==> rel == pattern,
        !pattern_matches(pattern, name, None),
{
    if pattern == seq!['*'] {
        assert(pattern[0] == '*');
        assert(pattern.contains('*'));
    }
}

} // verus!
