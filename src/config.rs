//! Scan profiles: the sparse profile record, its right-biased merge, and the
//! fully defaulted policy that the scanner reads.

use vstd::prelude::*;

use crate::inherit::{all_resolvable, has_missing_base, overlay_view, resolvable, resolves_to};
use crate::text::copy_strings;

pub use crate::inherit::{resolve_inheritance, ConfigError, ProfileTable};

verus! {

/// What a scan reports: directories holding a marker, or files matching one.
#[derive(Debug, Clone, Copy, PartialEq, Eq, Structural)]
pub enum Mode {
    /// Report directories that contain a marker.
    Dir,
    /// Report the matching files themselves.
    File,
}

impl Default for Mode {
    fn default() -> (r: Mode)
        ensures
            r == Mode::Dir,
    {
        Mode::Dir
    }
}

/// A profile in which every field may be unset; unset fields are filled by
/// whatever is merged underneath.
#[derive(Debug, Clone)]
pub struct Profile {
    /// Name of the profile this one inherits from.
    pub base: Option<String>,
    /// Scanning mode.
    pub mode: Option<Mode>,
    /// Patterns that identify a target.
    pub markers: Option<Vec<String>>,
    /// Patterns of entries to skip.
    pub ignore: Option<Vec<String>>,
    /// Maximum recursion depth; 0 inspects the root only.
    pub depth: Option<u8>,
    /// Stop descending below a directory that holds a marker.
    pub stop_on_marker: Option<bool>,
    /// Also report the ancestors of a match.
    pub intermediate_paths: Option<bool>,
    /// Report dot-files (file mode).
    pub show_hidden: Option<bool>,
    /// Descend into dot-directories.
    pub traverse_hidden_dirs: Option<bool>,
}

/// The mathematical content of a [`Profile`].
pub struct ProfileView {
    pub base: Option<Seq<char>>,
    pub mode: Option<Mode>,
    pub markers: Option<Seq<String>>,
    pub ignore: Option<Seq<String>>,
    pub depth: Option<u8>,
    pub stop_on_marker: Option<bool>,
    pub intermediate_paths: Option<bool>,
    pub show_hidden: Option<bool>,
    pub traverse_hidden_dirs: Option<bool>,
}

/// `o` when it is set, else `d`.
pub open spec fn or_else<T>(o: Option<T>, d: Option<T>) -> Option<T> {
    if o is Some {
        o
    } else {
        d
    }
}

pub open spec fn opt_view(o: Option<String>) -> Option<Seq<char>> {
    match o {
        Some(s) => Some(s@),
        None => None,
    }
}

pub open spec fn opt_seq(o: Option<Vec<String>>) -> Option<Seq<String>> {
    match o {
        Some(v) => Some(v@),
        None => None,
    }
}

impl View for Profile {
    type V = ProfileView;

    open spec fn view(&self) -> ProfileView {
        ProfileView {
            base: opt_view(self.base),
            mode: self.mode,
            markers: opt_seq(self.markers),
            ignore: opt_seq(self.ignore),
            depth: self.depth,
            stop_on_marker: self.stop_on_marker,
            intermediate_paths: self.intermediate_paths,
            show_hidden: self.show_hidden,
            traverse_hidden_dirs: self.traverse_hidden_dirs,
        }
    }
}

/// The profile with no field set.
pub open spec fn empty_view() -> ProfileView {
    ProfileView {
        base: None,
        mode: None,
        markers: None,
        ignore: None,
        depth: None,
        stop_on_marker: None,
        intermediate_paths: None,
        show_hidden: None,
        traverse_hidden_dirs: None,
    }
}

/// `b` laid over `a`: each field of `b` that is set wins, the others come
/// from `a`; `a`'s own inheritance pointer is never carried over, so the
/// result's `base` is `b`'s.
pub open spec fn merge_view(a: ProfileView, b: ProfileView) -> ProfileView {
    ProfileView {
        base: b.base,
        mode: or_else(b.mode, a.mode),
        markers: or_else(b.markers, a.markers),
        ignore: or_else(b.ignore, a.ignore),
        depth: or_else(b.depth, a.depth),
        stop_on_marker: or_else(b.stop_on_marker, a.stop_on_marker),
        intermediate_paths: or_else(b.intermediate_paths, a.intermediate_paths),
        show_hidden: or_else(b.show_hidden, a.show_hidden),
        traverse_hidden_dirs: or_else(b.traverse_hidden_dirs, a.traverse_hidden_dirs),
    }
}

/// `p` with its inheritance pointer dropped.
pub open spec fn without_base(p: ProfileView) -> ProfileView {
    ProfileView { base: None, ..p }
}

fn copy_opt_string(o: &Option<String>) -> (r: Option<String>)
    ensures
        opt_view(r) == opt_view(*o),
{
    match o {
        Some(s) => Some(s.clone()),
        None => None,
    }
}

fn copy_opt_strings(o: &Option<Vec<String>>) -> (r: Option<Vec<String>>)
    ensures
        opt_seq(r) == opt_seq(*o),
{
    match o {
        Some(v) => Some(copy_strings(v)),
        None => None,
    }
}

fn pick_strings(o: &Option<Vec<String>>, d: &Option<Vec<String>>) -> (r: Option<Vec<String>>)
    ensures
        opt_seq(r) == or_else(opt_seq(*o), opt_seq(*d)),
{
    if o.is_some() {
        copy_opt_strings(o)
    } else {
        copy_opt_strings(d)
    }
}

fn pick<T: Copy>(o: Option<T>, d: Option<T>) -> (r: Option<T>)
    ensures
        r == or_else(o, d),
{
    if o.is_some() {
        o
    } else {
        d
    }
}

impl Default for Profile {
    fn default() -> (r: Profile)
        ensures
            r@ == empty_view(),
    {
        Profile::empty()
    }
}

impl Profile {
    /// The profile with no field set.
    pub fn empty() -> (r: Profile)
        ensures
            r@ == empty_view(),
    {
        Profile {
            base: None,
            mode: None,
            markers: None,
            ignore: None,
            depth: None,
            stop_on_marker: None,
            intermediate_paths: None,
            show_hidden: None,
            traverse_hidden_dirs: None,
        }
    }

    /// A copy of this profile.
    pub fn duplicate(&self) -> (r: Profile)
        ensures
            r@ == self@,
    {
        Profile {
            base: copy_opt_string(&self.base),
            mode: self.mode,
            markers: copy_opt_strings(&self.markers),
            ignore: copy_opt_strings(&self.ignore),
            depth: self.depth,
            stop_on_marker: self.stop_on_marker,
            intermediate_paths: self.intermediate_paths,
            show_hidden: self.show_hidden,
            traverse_hidden_dirs: self.traverse_hidden_dirs,
        }
    }

    /// This profile with `other` laid over it: for every scan field,
    /// `other`'s value when it is set, else this profile's. This profile's own
    /// `base` is never carried over: the result inherits from what `other`
    /// names, if anything.
    pub fn merge(&self, other: &Profile) -> (r: Profile)
        ensures
            r@ == merge_view(self@, other@),
            r@.base == other@.base,
            r@.mode == (if other@.mode is Some { other@.mode } else { self@.mode }),
            r@.markers == (if other@.markers is Some { other@.markers } else { self@.markers }),
            r@.ignore == (if other@.ignore is Some { other@.ignore } else { self@.ignore }),
            r@.depth == (if other@.depth is Some { other@.depth } else { self@.depth }),
            r@.stop_on_marker == (if other@.stop_on_marker is Some { other@.stop_on_marker } else { self@.stop_on_marker }),
            r@.intermediate_paths == (if other@.intermediate_paths is Some { other@.intermediate_paths } else { self@.intermediate_paths }),
            r@.show_hidden == (if other@.show_hidden is Some { other@.show_hidden } else { self@.show_hidden }),
            r@.traverse_hidden_dirs == (if other@.traverse_hidden_dirs is Some { other@.traverse_hidden_dirs } else { self@.traverse_hidden_dirs }),
    {
        Profile {
            base: copy_opt_string(&other.base),
            mode: pick(other.mode, self.mode),
            markers: pick_strings(&other.markers, &self.markers),
            ignore: pick_strings(&other.ignore, &self.ignore),
            depth: pick(other.depth, self.depth),
            stop_on_marker: pick(other.stop_on_marker, self.stop_on_marker),
            intermediate_paths: pick(other.intermediate_paths, self.intermediate_paths),
            show_hidden: pick(other.show_hidden, self.show_hidden),
            traverse_hidden_dirs: pick(other.traverse_hidden_dirs, self.traverse_hidden_dirs),
        }
    }

    /// This profile without its inheritance pointer.
    pub fn without_base(&self) -> (r: Profile)
        ensures
            r@ == without_base(self@),
    {
        let mut r = self.duplicate();
        r.base = None;
        r
    }

    /// The fully defaulted policy: every unset field takes its default
    /// (directory mode, no markers, no ignores, depth 255, stop on marker,
    /// intermediate paths on, hidden files and directories off).
    pub fn resolve(&self) -> (r: ResolvedProfile)
        ensures
            r@ == resolve_view(self@),
    {
        let mode = match self.mode {
            Some(m) => m,
            None => Mode::Dir,
        };
        let markers = match &self.markers {
            Some(v) => copy_strings(v),
            None => Vec::new(),
        };
        let ignore = match &self.ignore {
            Some(v) => copy_strings(v),
            None => Vec::new(),
        };
        ResolvedProfile {
            mode,
            markers,
            ignore,
            depth: match self.depth { Some(d) => d, None => 255 },
            stop_on_marker: match self.stop_on_marker { Some(b) => b, None => true },
            intermediate_paths: match self.intermediate_paths { Some(b) => b, None => true },
            show_hidden: match self.show_hidden { Some(b) => b, None => false },
            traverse_hidden_dirs: match self.traverse_hidden_dirs { Some(b) => b, None => false },
        }
    }
}

/// A profile with every field set, ready for the scanner.
#[derive(Debug, Clone)]
pub struct ResolvedProfile {
    pub mode: Mode,
    pub markers: Vec<String>,
    pub ignore: Vec<String>,
    pub depth: u8,
    pub stop_on_marker: bool,
    pub intermediate_paths: bool,
    /// Report dot-files (file mode).
    pub show_hidden: bool,
    /// Descend into dot-directories.
    pub traverse_hidden_dirs: bool,
}

/// The mathematical content of a [`ResolvedProfile`].
pub struct ResolvedView {
    pub mode: Mode,
    pub markers: Seq<String>,
    pub ignore: Seq<String>,
    pub depth: u8,
    pub stop_on_marker: bool,
    pub intermediate_paths: bool,
    pub show_hidden: bool,
    pub traverse_hidden_dirs: bool,
}

impl View for ResolvedProfile {
    type V = ResolvedView;

    open spec fn view(&self) -> ResolvedView {
        ResolvedView {
            mode: self.mode,
            markers: self.markers@,
            ignore: self.ignore@,
            depth: self.depth,
            stop_on_marker: self.stop_on_marker,
            intermediate_paths: self.intermediate_paths,
            show_hidden: self.show_hidden,
            traverse_hidden_dirs: self.traverse_hidden_dirs,
        }
    }
}

/// `o`'s value when it is set, else `d`.
pub open spec fn value_or<T>(o: Option<T>, d: T) -> T {
    match o {
        Some(v) => v,
        None => d,
    }
}

/// The policy that a sparse profile stands for: every unset field defaulted.
pub open spec fn resolve_view(p: ProfileView) -> ResolvedView {
    ResolvedView {
        mode: value_or(p.mode, Mode::Dir),
        markers: value_or(p.markers, Seq::empty()),
        ignore: value_or(p.ignore, Seq::empty()),
        depth: value_or(p.depth, 255u8),
        stop_on_marker: value_or(p.stop_on_marker, true),
        intermediate_paths: value_or(p.intermediate_paths, true),
        show_hidden: value_or(p.show_hidden, false),
        traverse_hidden_dirs: value_or(p.traverse_hidden_dirs, false),
    }
}

/// One configured scan: a bare root path (scanned with the `projects`
/// profile), or roots with a profile name and inline overrides.
#[derive(Debug)]
pub enum IncludeEntry {
    Simple(String),
    Detailed(IncludeEntryDetailed),
}

/// An include entry with its options spelled out.
#[derive(Debug)]
pub struct IncludeEntryDetailed {
    /// Roots to scan.
    pub paths: Vec<String>,
    /// Profile to start from; `projects` when unset.
    pub profile: Option<String>,
    pub mode: Option<Mode>,
    pub markers: Option<Vec<String>>,
    pub ignore: Option<Vec<String>>,
    pub depth: Option<u8>,
    pub stop_on_marker: Option<bool>,
    pub intermediate_paths: Option<bool>,
    pub show_hidden: Option<bool>,
    pub traverse_hidden_dirs: Option<bool>,
}

/// A predefined terminal session: a name and the paths of its windows.
#[derive(Debug)]
pub struct Session {
    pub name: String,
    pub windows: Vec<String>,
}

/// The profile an include entry uses when it names none.
pub open spec fn default_profile_name() -> Seq<char> {
    "projects"@
}

/// The roots of an include entry.
pub open spec fn entry_paths(e: IncludeEntry) -> Seq<String> {
    match e {
        IncludeEntry::Simple(p) => seq![p],
        IncludeEntry::Detailed(d) => d.paths@,
    }
}

/// The profile name of an include entry.
pub open spec fn entry_profile_name(e: IncludeEntry) -> Seq<char> {
    match e {
        IncludeEntry::Simple(_) => default_profile_name(),
        IncludeEntry::Detailed(d) => match d.profile {
            Some(p) => p@,
            None => default_profile_name(),
        },
    }
}

/// The inline overrides of an include entry, as a profile without `base`.
pub open spec fn overrides_view(e: IncludeEntry) -> ProfileView {
    match e {
        IncludeEntry::Simple(_) => empty_view(),
        IncludeEntry::Detailed(d) => ProfileView {
            base: None,
            mode: d.mode,
            markers: opt_seq(d.markers),
            ignore: opt_seq(d.ignore),
            depth: d.depth,
            stop_on_marker: d.stop_on_marker,
            intermediate_paths: d.intermediate_paths,
            show_hidden: d.show_hidden,
            traverse_hidden_dirs: d.traverse_hidden_dirs,
        },
    }
}

/// The profile called `name`, or the empty profile when there is none.
pub open spec fn lookup_or_empty(t: Map<Seq<char>, ProfileView>, name: Seq<char>) -> ProfileView {
    if t.contains_key(name) {
        t[name]
    } else {
        empty_view()
    }
}

/// The policy for an include entry: the named profile (empty when unknown)
/// with the entry's overrides laid over it, then defaulted.
pub open spec fn selection_view(t: Map<Seq<char>, ProfileView>, e: IncludeEntry) -> ResolvedView {
    resolve_view(merge_view(lookup_or_empty(t, entry_profile_name(e)), overrides_view(e)))
}

impl IncludeEntry {
    /// The roots to scan.
    pub fn paths(&self) -> (r: Vec<String>)
        ensures
            r@ == entry_paths(*self),
    {
        match self {
            IncludeEntry::Simple(p) => vec![p.clone()],
            IncludeEntry::Detailed(d) => copy_strings(&d.paths),
        }
    }

    /// The name of the profile to start from.
    pub fn profile_name(&self) -> (r: &str)
        ensures
            r@ == entry_profile_name(*self),
    {
        match self {
            IncludeEntry::Simple(_) => "projects",
            IncludeEntry::Detailed(d) => match &d.profile {
                Some(p) => p.as_str(),
                None => "projects",
            },
        }
    }

    /// The inline overrides, as a profile without `base`.
    pub fn overrides(&self) -> (r: Profile)
        ensures
            r@ == overrides_view(*self),
    {
        match self {
            IncludeEntry::Simple(_) => Profile::empty(),
            IncludeEntry::Detailed(d) => Profile {
                base: None,
                mode: d.mode,
                markers: copy_opt_strings(&d.markers),
                ignore: copy_opt_strings(&d.ignore),
                depth: d.depth,
                stop_on_marker: d.stop_on_marker,
                intermediate_paths: d.intermediate_paths,
                show_hidden: d.show_hidden,
                traverse_hidden_dirs: d.traverse_hidden_dirs,
            },
        }
    }
}

/// The strings of `v`, as character sequences.
pub open spec fn names_of(v: Seq<String>) -> Seq<Seq<char>> {
    v.map_values(|s: String| s@)
}

/// Whether `p` has no `base` and sets every scan field, to these values.
pub open spec fn sets_all(
    p: ProfileView,
    mode: Mode,
    markers: Seq<Seq<char>>,
    ignore: Seq<Seq<char>>,
    depth: u8,
    stop_on_marker: bool,
    intermediate_paths: bool,
    show_hidden: bool,
    traverse_hidden_dirs: bool,
) -> bool {
    &&& p.base is None
    &&& p.mode == Some(mode)
    &&& p.markers is Some && names_of(p.markers.unwrap()) == markers
    &&& p.ignore is Some && names_of(p.ignore.unwrap()) == ignore
    &&& p.depth == Some(depth)
    &&& p.stop_on_marker == Some(stop_on_marker)
    &&& p.intermediate_paths == Some(intermediate_paths)
    &&& p.show_hidden == Some(show_hidden)
    &&& p.traverse_hidden_dirs == Some(traverse_hidden_dirs)
}

/// Whether `t` is the table of built-in profiles:
/// - `projects`: directories holding a version-control or build marker, up to
///   five levels down, skipping dependency and build output directories;
/// - `browse`: the root and its non-empty subdirectories;
/// - `files`: every visible file, up to three levels down.
pub open spec fn is_builtin_table(t: Map<Seq<char>, ProfileView>) -> bool {
    &&& t.dom() == set!["projects"@, "browse"@, "files"@]
    &&& sets_all(
        t["projects"@],
        Mode::Dir,
        seq![".git"@, "Cargo.toml"@, "go.mod"@, "package.json"@, "pom.xml"@, "pyproject.toml"@, "Makefile"@],
        seq!["node_modules"@, "target"@, "venv"@, ".venv"@, "build"@, "dist"@, "vendor"@],
        5,
        true,
        false,
        false,
        false,
    )
    &&& sets_all(t["browse"@], Mode::Dir, seq!["*"@], Seq::empty(), 1, false, true, false, false)
    &&& sets_all(
        t["files"@],
        Mode::File,
        seq!["*"@],
        seq![".git"@, "node_modules"@, "target"@],
        3,
        false,
        false,
        false,
        false,
    )
}

/// A vector holding `s`.
fn one(s: &str) -> (r: Vec<String>)
    ensures
        names_of(r@) == seq![s@],
{
    let mut r: Vec<String> = Vec::new();
    r.push(s.to_string());
    assert(names_of(r@) =~= seq![s@]);
    r
}

/// `v` with `s` added at the end.
fn and(v: Vec<String>, s: &str) -> (r: Vec<String>)
    ensures
        names_of(r@) == names_of(v@).push(s@),
{
    let mut r = v;
    let ghost before = r@;
    r.push(s.to_string());
    assert(names_of(r@) =~= names_of(before).push(s@));
    r
}

/// The built-in profiles (see [`is_builtin_table`]).
pub fn load_defaults() -> (r: ProfileTable)
    ensures
        r.wf(),
        is_builtin_table(r@),
{
    let mut t = ProfileTable::new();
    let markers = and(and(and(and(and(and(one(".git"), "Cargo.toml"), "go.mod"), "package.json"), "pom.xml"), "pyproject.toml"), "Makefile");
    let ignore = and(and(and(and(and(and(one("node_modules"), "target"), "venv"), ".venv"), "build"), "dist"), "vendor");
    let projects = Profile {
        base: None,
        mode: Some(Mode::Dir),
        markers: Some(markers),
        ignore: Some(ignore),
        depth: Some(5),
        stop_on_marker: Some(true),
        intermediate_paths: Some(false),
        show_hidden: Some(false),
        traverse_hidden_dirs: Some(false),
    };
    let browse = Profile {
        base: None,
        mode: Some(Mode::Dir),
        markers: Some(one("*")),
        ignore: Some(Vec::new()),
        depth: Some(1),
        stop_on_marker: Some(false),
        intermediate_paths: Some(true),
        show_hidden: Some(false),
        traverse_hidden_dirs: Some(false),
    };
    let files = Profile {
        base: None,
        mode: Some(Mode::File),
        markers: Some(one("*")),
        ignore: Some(and(and(one(".git"), "node_modules"), "target")),
        depth: Some(3),
        stop_on_marker: Some(false),
        intermediate_paths: Some(false),
        show_hidden: Some(false),
        traverse_hidden_dirs: Some(false),
    };
    let ghost pv = projects@;
    let ghost bv = browse@;
    let ghost fv = files@;
    t.insert("projects".to_string(), projects);
    t.insert("browse".to_string(), browse);
    t.insert("files".to_string(), files);
    proof {
        reveal_strlit("projects");
        reveal_strlit("browse");
        reveal_strlit("files");
        assert("projects"@[0] == 'p' && "browse"@[0] == 'b' && "files"@[0] == 'f');
        assert("projects"@ != "browse"@);
        assert("projects"@ != "files"@);
        assert("browse"@ != "files"@);
        assert(t@ == Map::<Seq<char>, ProfileView>::empty().insert("projects"@, pv).insert("browse"@, bv).insert("files"@, fv));
        assert(t@.dom() =~= set!["projects"@, "browse"@, "files"@]);
        assert(names_of(bv.ignore.unwrap()) =~= Seq::<Seq<char>>::empty());
        assert(names_of(pv.markers.unwrap()) =~= seq![".git"@, "Cargo.toml"@, "go.mod"@, "package.json"@, "pom.xml"@, "pyproject.toml"@, "Makefile"@]);
        assert(names_of(pv.ignore.unwrap()) =~= seq!["node_modules"@, "target"@, "venv"@, ".venv"@, "build"@, "dist"@, "vendor"@]);
        assert(names_of(fv.ignore.unwrap()) =~= seq![".git"@, "node_modules"@, "target"@]);
    }
    t
}

/// The whole configuration: profiles by name (inheritance resolved), what
/// to scan, and the predefined sessions.
#[derive(Debug)]
pub struct Config {
    pub profiles: ProfileTable,
    /// What to scan.
    pub includes: Vec<IncludeEntry>,
    pub sessions: Vec<Session>,
}

/// The include list used when none is configured: the home directory.
pub open spec fn is_home_only(entries: Seq<IncludeEntry>) -> bool {
    &&& entries.len() == 1
    &&& (entries[0] matches IncludeEntry::Simple(p) && p@ == "$HOME"@)
}

fn home_only() -> (r: Vec<IncludeEntry>)
    ensures
        is_home_only(r@),
{
    vec![IncludeEntry::Simple("$HOME".to_string())]
}

impl Default for Config {
    /// The built-in profiles, scanning the home directory, with no sessions.
    fn default() -> (r: Config)
        ensures
            r.profiles.wf(),
            is_builtin_table(r.profiles@),
            is_home_only(r.includes@),
            r.sessions@.len() == 0,
    {
        Config { profiles: load_defaults(), includes: home_only(), sessions: Vec::new() }
    }
}

impl Config {
    /// The policy for `entry`: its profile (the empty profile when the name is
    /// unknown) with the entry's inline overrides laid over it, defaulted.
    pub fn resolve_profile(&self, entry: &IncludeEntry) -> (r: ResolvedProfile)
        requires
            self.profiles.wf(),
        ensures
            r@ == selection_view(self.profiles@, *entry),
    {
        let name = entry.profile_name();
        let base = match self.profiles.get(name) {
            Some(p) => p.duplicate(),
            None => Profile::empty(),
        };
        let overrides = entry.overrides();
        base.merge(&overrides).resolve()
    }

    /// Builds the configuration from the built-in profiles, the user's
    /// profiles (each merged field by field onto the built-in profile of the
    /// same name, if any), the include list (the home directory when empty)
    /// and the sessions. Fails when inheritance cannot be resolved.
    pub fn assemble(
        defaults: ProfileTable,
        user: ProfileTable,
        entries: Vec<IncludeEntry>,
        sessions: Vec<Session>,
    ) -> (r: Result<Config, ConfigError>)
        requires
            defaults.wf(),
            user.wf(),
        ensures
            r is Ok <==> all_resolvable(overlay_view(defaults@, user@)),
            r matches Ok(c) ==> {
                let t = overlay_view(defaults@, user@);
                &&& c.profiles.wf()
                &&& c.profiles@.dom() == t.dom()
                &&& forall|k: Seq<char>| #[trigger] c.profiles@.contains_key(k) ==> resolves_to(t, k, c.profiles@[k])
                &&& entries@.len() == 0 ==> is_home_only(c.includes@)
                &&& entries@.len() > 0 ==> c.includes@ == entries@
                &&& c.sessions@ == sessions@
            },
            r is Err && has_missing_base(overlay_view(defaults@, user@)) ==> r matches Err(ConfigError::MissingBase { .. }),
            r matches Err(ConfigError::MissingBase { profile, base }) ==> {
                let t = overlay_view(defaults@, user@);
                &&& t.contains_key(profile@)
                &&& t[profile@].base == Some(base@)
                &&& !t.contains_key(base@)
            },
            r matches Err(ConfigError::CircularInheritance { profile }) ==> {
                let t = overlay_view(defaults@, user@);
                &&& t.contains_key(profile@)
                &&& !resolvable(t, profile@)
                &&& !has_missing_base(t)
            },
    {
        let mut profiles = defaults;
        profiles.overlay(&user);
        match resolve_inheritance(profiles) {
            Ok(t) => {
                let includes = if entries.len() == 0 { home_only() } else { entries };
                Ok(Config { profiles: t, includes, sessions })
            },
            Err(e) => Err(e),
        }
    }
}

} // verus!
