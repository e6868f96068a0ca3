//! Named profile tables and the resolution of `base` inheritance.

use vstd::prelude::*;

use crate::config::{merge_view, without_base, Profile, ProfileView};
use crate::text::str_eq;
use vstd::set_lib::{lemma_int_range, set_int_range};

verus! {

/// Profiles by name; a name occurs at most once.
#[derive(Debug)]
pub struct ProfileTable {
    entries: Vec<(String, Profile)>,
}

/// A configuration that cannot be used.
#[derive(Debug)]
pub enum ConfigError {
    /// Following `base` links from `profile` comes back to a profile already on the chain.
    CircularInheritance { profile: String },
    /// `profile` inherits from `base`, which no profile is called.
    MissingBase { profile: String, base: String },
}

/// Whether no name occurs twice among `e`.
pub open spec fn names_unique(e: Seq<(String, Profile)>) -> bool {
    forall|i: int, j: int| 0 <= i < j < e.len() ==> (#[trigger] e[i]).0@ != (#[trigger] e[j]).0@
}

/// Whether the `i`-th of `e` is called `k`.
pub open spec fn named_at(e: Seq<(String, Profile)>, k: Seq<char>, i: int) -> bool {
    0 <= i < e.len() && e[i].0@ == k
}

/// The profiles of `e` by name.
pub open spec fn table_view(e: Seq<(String, Profile)>) -> Map<Seq<char>, ProfileView> {
    Map::new(
        |k: Seq<char>| exists|i: int| named_at(e, k, i),
        |k: Seq<char>| e[choose|i: int| named_at(e, k, i)].1@,
    )
}

proof fn lemma_entry(e: Seq<(String, Profile)>, i: int)
    requires
        names_unique(e),
        0 <= i < e.len(),
    ensures
        table_view(e).contains_key(e[i].0@),
        table_view(e)[e[i].0@] == e[i].1@,
{
    let k = e[i].0@;
    assert(named_at(e, k, i));
    let j = choose|j: int| named_at(e, k, j);
    assert(j == i);
}

proof fn lemma_key(e: Seq<(String, Profile)>, k: Seq<char>) -> (i: int)
    requires
        names_unique(e),
        table_view(e).contains_key(k),
    ensures
        0 <= i < e.len(),
        e[i].0@ == k,
        table_view(e)[k] == e[i].1@,
{
    let i = choose|i: int| named_at(e, k, i);
    lemma_entry(e, i);
    i
}

impl ProfileTable {
    /// Whether the table is well formed: no name occurs twice.
    pub closed spec fn wf(&self) -> bool {
        names_unique(self.entries@)
    }

    /// The profiles by name.
    pub closed spec fn view(&self) -> Map<Seq<char>, ProfileView> {
        table_view(self.entries@)
    }

    /// The table with no profile.
    pub fn new() -> (r: ProfileTable)
        ensures
            r.wf(),
            r@ == Map::<Seq<char>, ProfileView>::empty(),
    {
        let r = ProfileTable { entries: Vec::new() };
        assert(r@ =~= Map::<Seq<char>, ProfileView>::empty());
        r
    }

    /// Where `name` stands among the entries.
    fn index_of(&self, name: &str) -> (r: Option<usize>)
        requires
            self.wf(),
        ensures
            r is Some <==> self@.contains_key(name@),
            r matches Some(i) ==> i < self.entries@.len() && self.entries@[i as int].0@ == name@,
    {
        let mut i: usize = 0;
        while i < self.entries.len()
            invariant
                self.wf(),
                i <= self.entries@.len(),
                forall|j: int| 0 <= j < i ==> (#[trigger] self.entries@[j]).0@ != name@,
            decreases self.entries.len() - i,
        {
            if str_eq(self.entries[i].0.as_str(), name) {
                proof { lemma_entry(self.entries@, i as int); }
                return Some(i);
            }
            i = i + 1;
        }
        proof {
            if self@.contains_key(name@) {
                let k = lemma_key(self.entries@, name@);
            }
        }
        None
    }

    /// Whether a profile is called `name`.
    pub fn contains_key(&self, name: &str) -> (r: bool)
        requires
            self.wf(),
        ensures
            r == self@.contains_key(name@),
    {
        self.index_of(name).is_some()
    }

    /// The profile called `name`, if any.
    pub fn get(&self, name: &str) -> (r: Option<&Profile>)
        requires
            self.wf(),
        ensures
            r is Some <==> self@.contains_key(name@),
            r matches Some(p) ==> p@ == self@[name@],
    {
        match self.index_of(name) {
            Some(i) => {
                proof { lemma_entry(self.entries@, i as int); }
                Some(&self.entries[i].1)
            },
            None => None,
        }
    }

    /// Sets the profile called `name` to `profile`, replacing any profile of that name.
    pub fn insert(&mut self, name: String, profile: Profile)
        requires
            old(self).wf(),
        ensures
            final(self).wf(),
            final(self)@ == old(self)@.insert(name@, profile@),
    {
        let ghost old_e = self.entries@;
        let ghost k = name@;
        let ghost v = profile@;
        match self.index_of(name.as_str()) {
            Some(i) => {
                self.entries.set(i, (name, profile));
                proof {
                    let e = self.entries@;
                    assert forall|a: int, b: int| 0 <= a < b < e.len() implies
                        (#[trigger] e[a]).0@ != (#[trigger] e[b]).0@ by {
                        assert(old_e[a].0@ != old_e[b].0@);
                    }
                    lemma_table_update(old_e, e, i as int);
                }
            },
            None => {
                self.entries.push((name, profile));
                proof {
                    let e = self.entries@;
                    assert forall|a: int, b: int| 0 <= a < b < e.len() implies
                        (#[trigger] e[a]).0@ != (#[trigger] e[b]).0@ by {
                        if b < old_e.len() {
                            assert(old_e[a].0@ != old_e[b].0@);
                        } else {
                            lemma_entry(old_e, a);
                        }
                    }
                    lemma_table_push(old_e, e);
                }
            },
        }
    }
}

/// `b` laid over `a`: a name of both gets `a`'s profile merged with `b`'s on
/// top; a name of one keeps that profile.
pub open spec fn overlay_view(a: Map<Seq<char>, ProfileView>, b: Map<Seq<char>, ProfileView>) -> Map<Seq<char>, ProfileView> {
    Map::new(
        |k: Seq<char>| a.contains_key(k) || b.contains_key(k),
        |k: Seq<char>| if b.contains_key(k) {
            if a.contains_key(k) { merge_view(a[k], b[k]) } else { b[k] }
        } else {
            a[k]
        },
    )
}

impl ProfileTable {
    /// Lays the profiles of `other` over this table: a profile of a name this
    /// table has is merged onto it field by field; a new name is added.
    pub fn overlay(&mut self, other: &ProfileTable)
        requires
            old(self).wf(),
            other.wf(),
        ensures
            final(self).wf(),
            final(self)@ == overlay_view(old(self)@, other@),
    {
        let ghost a = self@;
        let ghost oe = other.entries@;
        let mut i: usize = 0;
        assert(table_view(oe.take(0)) =~= Map::<Seq<char>, ProfileView>::empty());
        assert(overlay_view(a, table_view(oe.take(0))) =~= a);
        while i < other.entries.len()
            invariant
                self.wf(),
                other.wf(),
                oe == other.entries@,
                i <= oe.len(),
                self@ == overlay_view(a, table_view(oe.take(i as int))),
            decreases other.entries.len() - i,
        {
            let name = &other.entries[i].0;
            let p = &other.entries[i].1;
            let ghost pre = oe.take(i as int);
            let ghost post = oe.take(i + 1);
            proof {
                assert forall|x: int, y: int| 0 <= x < y < pre.len() implies (#[trigger] pre[x]).0@ != (#[trigger] pre[y]).0@ by {
                    assert(oe[x].0@ != oe[y].0@);
                }
                assert forall|x: int, y: int| 0 <= x < y < post.len() implies (#[trigger] post[x]).0@ != (#[trigger] post[y]).0@ by {
                    assert(oe[x].0@ != oe[y].0@);
                }
                lemma_table_push(pre, post);
                assert(post.last() == oe[i as int]);
                if table_view(pre).contains_key(name@) {
                    let j = lemma_key(pre, name@);
                    assert(oe[j].0@ != oe[i as int].0@);
                }
            }
            let merged = match self.get(name.as_str()) {
                Some(b) => b.merge(p),
                None => p.duplicate(),
            };
            self.insert(name.clone(), merged);
            proof {
                assert(self@ =~= overlay_view(a, table_view(post)));
            }
            i = i + 1;
        }
        assert(oe.take(oe.len() as int) =~= oe);
    }
}

proof fn lemma_table_update(old_e: Seq<(String, Profile)>, e: Seq<(String, Profile)>, i: int)
    requires
        names_unique(old_e),
        names_unique(e),
        0 <= i < old_e.len(),
        e.len() == old_e.len(),
        e[i].0@ == old_e[i].0@,
        forall|j: int| 0 <= j < e.len() && j != i ==> e[j] == old_e[j],
    ensures
        table_view(e) == table_view(old_e).insert(e[i].0@, e[i].1@),
{
    let t = table_view(old_e).insert(e[i].0@, e[i].1@);
    lemma_entry(e, i);
    lemma_entry(old_e, i);
    assert forall|key: Seq<char>| #[trigger] table_view(e).contains_key(key) <==> t.contains_key(key) by {
        if table_view(e).contains_key(key) {
            let j = lemma_key(e, key);
            if j != i {
                lemma_entry(old_e, j);
            }
        }
        if table_view(old_e).contains_key(key) {
            let j = lemma_key(old_e, key);
            if j != i {
                lemma_entry(e, j);
            }
        }
    }
    assert forall|key: Seq<char>| #[trigger] table_view(e).contains_key(key) implies table_view(e)[key] == t[key] by {
        let j = lemma_key(e, key);
        if j != i {
            lemma_entry(old_e, j);
        }
    }
    assert(table_view(e) =~= t);
}

proof fn lemma_table_push(old_e: Seq<(String, Profile)>, e: Seq<(String, Profile)>)
    requires
        names_unique(old_e),
        names_unique(e),
        e.len() == old_e.len() + 1,
        forall|j: int| 0 <= j < old_e.len() ==> e[j] == old_e[j],
    ensures
        table_view(e) == table_view(old_e).insert(e.last().0@, e.last().1@),
{
    let n = old_e.len() as int;
    let t = table_view(old_e).insert(e[n].0@, e[n].1@);
    lemma_entry(e, n);
    assert forall|key: Seq<char>| #[trigger] table_view(e).contains_key(key) <==> t.contains_key(key) by {
        if table_view(e).contains_key(key) {
            let j = lemma_key(e, key);
            if j != n {
                lemma_entry(old_e, j);
            }
        }
        if table_view(old_e).contains_key(key) {
            let j = lemma_key(old_e, key);
            lemma_entry(e, j);
        }
    }
    assert forall|key: Seq<char>| #[trigger] table_view(e).contains_key(key) implies table_view(e)[key] == t[key] by {
        let j = lemma_key(e, key);
        if j != n {
            lemma_entry(old_e, j);
        }
    }
    assert(table_view(e) =~= t);
}

/// The profile called `name` in `t` after following its `base` links, when
/// the chain ends at a profile without `base` within `fuel` links: the
/// inherited profile's fields, overridden by the profile's own.
pub open spec fn inherit(t: Map<Seq<char>, ProfileView>, name: Seq<char>, fuel: nat) -> Option<ProfileView>
    decreases fuel,
{
    if !t.contains_key(name) {
        None
    } else {
        match t[name].base {
            None => Some(t[name]),
            Some(b) => if fuel == 0 {
                None
            } else {
                match inherit(t, b, (fuel - 1) as nat) {
                    Some(q) => Some(merge_view(q, without_base(t[name]))),
                    None => None,
                }
            },
        }
    }
}

/// Whether `name`'s chain of `base` links ends, giving `r`.
pub open spec fn resolves_to(t: Map<Seq<char>, ProfileView>, name: Seq<char>, r: ProfileView) -> bool {
    exists|n: nat| #[trigger] inherit(t, name, n) == Some(r)
}

/// Whether `name`'s chain of `base` links ends at a profile without `base`.
pub open spec fn resolvable(t: Map<Seq<char>, ProfileView>, name: Seq<char>) -> bool {
    exists|n: nat| (#[trigger] inherit(t, name, n)) is Some
}

/// Whether every profile of `t` is resolvable.
pub open spec fn all_resolvable(t: Map<Seq<char>, ProfileView>) -> bool {
    forall|k: Seq<char>| t.contains_key(k) ==> resolvable(t, k)
}

/// Whether some profile of `t` names a `base` that `t` lacks.
pub open spec fn has_missing_base(t: Map<Seq<char>, ProfileView>) -> bool {
    exists|k: Seq<char>| #[trigger] t.contains_key(k) && t[k].base is Some && !t.contains_key(t[k].base.unwrap())
}

/// Following more links never changes a result that fewer links reached.
proof fn lemma_inherit_more_fuel(t: Map<Seq<char>, ProfileView>, name: Seq<char>, n: nat, m: nat)
    requires
        n <= m,
        inherit(t, name, n) is Some,
    ensures
        inherit(t, name, m) == inherit(t, name, n),
    decreases n,
{
    if t[name].base is Some {
        lemma_inherit_more_fuel(t, t[name].base.unwrap(), (n - 1) as nat, (m - 1) as nat);
    }
}

/// A profile resolves to one profile at most: however many links are
/// followed, a chain that ends gives the same result.
pub proof fn lemma_resolution_unique(t: Map<Seq<char>, ProfileView>, name: Seq<char>, r1: ProfileView, r2: ProfileView)
    requires
        resolves_to(t, name, r1),
        resolves_to(t, name, r2),
    ensures
        r1 == r2,
{
    let n1 = choose|n: nat| #[trigger] inherit(t, name, n) == Some(r1);
    let n2 = choose|n: nat| #[trigger] inherit(t, name, n) == Some(r2);
    if n1 <= n2 {
        lemma_inherit_more_fuel(t, name, n1, n2);
    } else {
        lemma_inherit_more_fuel(t, name, n2, n1);
    }
}

/// Whether the `k`-th entry waits on an inheritance that cannot be settled:
/// it has a `base`, and no settled entry is called so.
spec fn stuck(e: Seq<(String, Profile)>, done: Seq<Option<Profile>>, k: int) -> bool {
    &&& e[k].1@.base is Some
    &&& forall|j: int| 0 <= j < e.len() && (#[trigger] e[j]).0@ == e[k].1@.base.unwrap() ==> done[j] is None
}

proof fn lemma_stuck_unresolvable(e: Seq<(String, Profile)>, done: Seq<Option<Profile>>, fuel: nat)
    requires
        names_unique(e),
        done.len() == e.len(),
        forall|k: int| 0 <= k < e.len() && (#[trigger] done[k]) is None ==> stuck(e, done, k),
    ensures
        forall|k: int| 0 <= k < e.len() && (#[trigger] done[k]) is None ==> inherit(table_view(e), e[k].0@, fuel) is None,
    decreases fuel,
{
    let t = table_view(e);
    assert forall|k: int| 0 <= k < e.len() && (#[trigger] done[k]) is None implies inherit(t, e[k].0@, fuel) is None by {
        lemma_entry(e, k);
        let b = e[k].1@.base.unwrap();
        if fuel > 0 && t.contains_key(b) {
            let j = lemma_key(e, b);
            lemma_stuck_unresolvable(e, done, (fuel - 1) as nat);
            assert(done[j] is None);
        }
    }
}

/// Whether each settled entry of `done` holds what its profile resolves to.
spec fn settled(e: Seq<(String, Profile)>, done: Seq<Option<Profile>>) -> bool {
    &&& done.len() == e.len()
    &&& forall|j: int| 0 <= j < done.len() && (#[trigger] done[j]) is Some ==> {
        &&& resolves_to(table_view(e), e[j].0@, done[j].unwrap()@)
        &&& done[j].unwrap()@.base is None
    }
}

/// Resolves the `base` links of every profile: a profile with `base` becomes
/// the profile it inherits from (itself resolved first) with its own fields
/// laid over it, and without `base`. Each profile is resolved once, and a
/// resolved ancestor is reused by all its descendants.
///
/// Fails when a profile names a `base` that the table lacks, or when a chain
/// of `base` links comes back on itself.
pub fn resolve_inheritance(profiles: ProfileTable) -> (r: Result<ProfileTable, ConfigError>)
    requires
        profiles.wf(),
    ensures
        r is Ok <==> all_resolvable(profiles@),
        r matches Ok(t) ==> {
            &&& t.wf()
            &&& t@.dom() == profiles@.dom()
            &&& forall|k: Seq<char>| #[trigger] t@.contains_key(k) ==> resolves_to(profiles@, k, t@[k]) && t@[k].base is None
        },
        r is Err && has_missing_base(profiles@) ==> r matches Err(ConfigError::MissingBase { .. }),
        r matches Err(ConfigError::MissingBase { profile, base }) ==> {
            &&& profiles@.contains_key(profile@)
            &&& profiles@[profile@].base == Some(base@)
            &&& !profiles@.contains_key(base@)
        },
        r matches Err(ConfigError::CircularInheritance { profile }) ==> {
            &&& profiles@.contains_key(profile@)
            &&& !resolvable(profiles@, profile@)
            &&& !has_missing_base(profiles@)
        },
{
    let e = &profiles.entries;
    let n = e.len();
    let ghost t = profiles@;
    let mut done: Vec<Option<Profile>> = Vec::new();
    while done.len() < n
        invariant
            done@.len() <= n,
            forall|j: int| 0 <= j < done@.len() ==> (#[trigger] done@[j]) is None,
        decreases n - done.len(),
    {
        done.push(None);
    }
    let ghost mut pending: Set<int> = set_int_range(0, n as int);
    proof {
        lemma_int_range(0, n as int);
    }
    loop
        invariant
            profiles.wf(),
            e == &profiles.entries,
            n == e@.len(),
            t == table_view(e@),
            settled(e@, done@),
            pending.finite(),
            forall|j: int| #[trigger] pending.contains(j) <==> (0 <= j < n && done@[j] is None),
        ensures
            settled(e@, done@),
            forall|k: int| 0 <= k < n && (#[trigger] done@[k]) is None ==> stuck(e@, done@, k),
        decreases pending.len(),
    {
        let ghost pending0 = pending;
        let ghost done0 = done@;
        let mut progress = false;
        let mut i: usize = 0;
        while i < n
            invariant
                profiles.wf(),
                e == &profiles.entries,
                n == e@.len(),
                t == table_view(e@),
                i <= n,
                settled(e@, done@),
                pending.finite(),
                forall|j: int| #[trigger] pending.contains(j) <==> (0 <= j < n && done@[j] is None),
                progress ==> pending.len() < pending0.len(),
                !progress ==> done@ == done0 && pending == pending0,
                !progress ==> forall|k: int| 0 <= k < i && (#[trigger] done@[k]) is None ==> stuck(e@, done@, k),
            decreases n - i,
        {
            if done[i].is_none() {
                let own = &e[i].1;
                proof { lemma_entry(e@, i as int); }
                let mut resolved: Option<Profile> = None;
                match &own.base {
                    None => {
                        proof { assert(inherit(t, e@[i as int].0@, 0) == Some(own@)); }
                        resolved = Some(own.duplicate());
                    },
                    Some(b) => {
                        match profiles.index_of(b.as_str()) {
                            Some(j) => {
                                match &done[j] {
                                    Some(q) => {
                                        let r = q.merge(&own.without_base());
                                        proof {
                                            lemma_entry(e@, j as int);
                                            let m = choose|m: nat| #[trigger] inherit(t, e@[j as int].0@, m) == Some(q@);
                                            assert(inherit(t, e@[i as int].0@, m + 1) == Some(r@));
                                        }
                                        resolved = Some(r);
                                    },
                                    None => {
                                        proof {
                                            assert forall|x: int| 0 <= x < e@.len() && (#[trigger] e@[x]).0@ == b@ implies done@[x] is None by {
                                                if x != j {
                                                    assert(e@[x].0@ != e@[j as int].0@);
                                                }
                                            }
                                        }
                                    },
                                }
                            },
                            None => {
                                proof {
                                    assert forall|x: int| 0 <= x < e@.len() && (#[trigger] e@[x]).0@ == b@ implies done@[x] is None by {
                                        lemma_entry(e@, x);
                                    }
                                }
                            },
                        }
                    },
                }
                match resolved {
                    Some(r) => {
                        done.set(i, Some(r));
                        proof {
                            assert(pending.contains(i as int));
                            pending = pending.remove(i as int);
                        }
                        progress = true;
                    },
                    None => {},
                }
            }
            i = i + 1;
        }
        if !progress {
            break;
        }
    }
    let mut first_open: Option<usize> = None;
    let mut k: usize = 0;
    while k < n
        invariant
            k <= n,
            n == done@.len(),
            first_open matches Some(x) ==> x < n && done@[x as int] is None,
            first_open is None ==> forall|j: int| 0 <= j < k ==> (#[trigger] done@[j]) is Some,
        decreases n - k,
    {
        if first_open.is_none() && done[k].is_none() {
            first_open = Some(k);
        }
        k = k + 1;
    }
    match first_open {
        None => {
            let mut out: Vec<(String, Profile)> = Vec::new();
            let mut i: usize = 0;
            while i < n
                invariant
                    i <= n,
                    n == e@.len(),
                    settled(e@, done@),
                    forall|j: int| 0 <= j < n ==> (#[trigger] done@[j]) is Some,
                    out@.len() == i,
                    forall|j: int| 0 <= j < i ==> (#[trigger] out@[j]).0@ == e@[j].0@ && out@[j].1@ == done@[j].unwrap()@,
                decreases n - i,
            {
                let p = match &done[i] {
                    Some(p) => p.duplicate(),
                    None => Profile::empty(),
                };
                out.push((e[i].0.clone(), p));
                i = i + 1;
            }
            let r = ProfileTable { entries: out };
            proof {
                let o = out@;
                assert(names_unique(o)) by {
                    assert forall|a: int, b: int| 0 <= a < b < o.len() implies (#[trigger] o[a]).0@ != (#[trigger] o[b]).0@ by {
                        assert(e@[a].0@ != e@[b].0@);
                    }
                }
                assert forall|key: Seq<char>| #[trigger] r@.contains_key(key) <==> t.contains_key(key) by {
                    if r@.contains_key(key) {
                        let j = lemma_key(o, key);
                        lemma_entry(e@, j);
                    }
                    if t.contains_key(key) {
                        let j = lemma_key(e@, key);
                        lemma_entry(o, j);
                    }
                }
                assert(r@.dom() =~= t.dom());
                assert forall|key: Seq<char>| #[trigger] r@.contains_key(key) implies resolves_to(t, key, r@[key]) && r@[key].base is None by {
                    let j = lemma_key(o, key);
                }
                assert forall|key: Seq<char>| t.contains_key(key) implies resolvable(t, key) by {
                    let j = lemma_key(e@, key);
                    assert(done@[j] is Some);
                    let m = choose|m: nat| #[trigger] inherit(t, e@[j].0@, m) == Some(done@[j].unwrap()@);
                    assert(inherit(t, key, m) is Some);
                }
            }
            Ok(r)
        },
        Some(open) => {
            proof {
                assert forall|f: nat| #[trigger] inherit(t, e@[open as int].0@, f) is None by {
                    lemma_stuck_unresolvable(e@, done@, f);
                }
                lemma_entry(e@, open as int);
                assert(t.contains_key(e@[open as int].0@));
                assert(!resolvable(t, e@[open as int].0@));
                assert(!all_resolvable(t));
            }
            let mut i: usize = 0;
            while i < n
                invariant
                    profiles.wf(),
                    e == &profiles.entries,
                    n == e@.len(),
                    t == table_view(e@),
                    i <= n,
                    open < n,
                    t.contains_key(e@[open as int].0@),
                    !resolvable(t, e@[open as int].0@),
                    !all_resolvable(t),
                    forall|j: int| 0 <= j < i ==> !((#[trigger] e@[j]).1@.base is Some && !t.contains_key(e@[j].1@.base.unwrap())),
                decreases n - i,
            {
                match &e[i].1.base {
                    Some(b) => {
                        if !profiles.contains_key(b.as_str()) {
                            proof { lemma_entry(e@, i as int); }
                            return Err(ConfigError::MissingBase { profile: e[i].0.clone(), base: b.clone() });
                        }
                    },
                    None => {},
                }
                i = i + 1;
            }
            proof {
                assert forall|key: Seq<char>| #[trigger] t.contains_key(key) implies !(t[key].base is Some && !t.contains_key(t[key].base.unwrap())) by {
                    let j = lemma_key(e@, key);
                }
            }
            Err(ConfigError::CircularInheritance { profile: e[open].0.clone() })
        },
    }
}

/// Resolving a profile without `base` gives the profile itself, unchanged,
/// and nothing else.
pub proof fn lemma_base_free_unchanged(t: Map<Seq<char>, ProfileView>, name: Seq<char>, r: ProfileView)
    requires
        t.contains_key(name),
        t[name].base is None,
    ensures
        resolves_to(t, name, t[name]),
        resolves_to(t, name, r) ==> r == t[name],
{
    assert(inherit(t, name, 0) == Some(t[name]));
}

/// A table whose profiles have no `base` resolves in full, and every result
/// that resolution may give (same names, each a resolution of its profile) is
/// the table itself.
pub proof fn lemma_base_free_table_unchanged(t: Map<Seq<char>, ProfileView>, r: Map<Seq<char>, ProfileView>)
    requires
        forall|k: Seq<char>| #[trigger] t.contains_key(k) ==> t[k].base is None,
        r.dom() == t.dom(),
        forall|k: Seq<char>| #[trigger] r.contains_key(k) ==> resolves_to(t, k, r[k]),
    ensures
        all_resolvable(t),
        r == t,
{
    assert forall|k: Seq<char>| t.contains_key(k) implies resolvable(t, k) by {
        assert(inherit(t, k, 0) is Some);
    }
    assert forall|k: Seq<char>| #[trigger] r.contains_key(k) implies r[k] == t[k] by {
        assert(t.contains_key(k));
        lemma_base_free_unchanged(t, k, r[k]);
    }
    assert(r =~= t);
}

proof fn lemma_cycle_never_ends(t: Map<Seq<char>, ProfileView>, cycle: Seq<Seq<char>>, n: nat)
    requires
        cycle.len() > 0,
        forall|i: int| 0 <= i < cycle.len() ==> #[trigger] t.contains_key(cycle[i]),
        forall|i: int| 0 <= i < cycle.len() ==> t[#[trigger] cycle[i]].base == Some(cycle[(i + 1) % (cycle.len() as int)]),
    ensures
        forall|i: int| 0 <= i < cycle.len() ==> (#[trigger] inherit(t, cycle[i], n)) is None,
    decreases n,
{
    if n > 0 {
        lemma_cycle_never_ends(t, cycle, (n - 1) as nat);
        assert forall|i: int| 0 <= i < cycle.len() implies (#[trigger] inherit(t, cycle[i], n)) is None by {
            let j = (i + 1) % (cycle.len() as int);
            assert(0 <= j < cycle.len());
            assert(inherit(t, cycle[j], (n - 1) as nat) is None);
        }
    }
}

/// Profiles whose `base` links form a cycle (`a` inherits from `b`, `b` from
/// `a`; or `a` from `b`, `b` from `c`, `c` from `a`; or any longer ring) never
/// resolve, so a table holding them is rejected.
pub proof fn lemma_cycle_rejected(t: Map<Seq<char>, ProfileView>, cycle: Seq<Seq<char>>)
    requires
        cycle.len() > 0,
        forall|i: int| 0 <= i < cycle.len() ==> #[trigger] t.contains_key(cycle[i]),
        forall|i: int| 0 <= i < cycle.len() ==> t[#[trigger] cycle[i]].base == Some(cycle[(i + 1) % (cycle.len() as int)]),
    ensures
        forall|i: int| 0 <= i < cycle.len() ==> !resolvable(t, #[trigger] cycle[i]),
        !all_resolvable(t),
{
    assert forall|i: int| 0 <= i < cycle.len() implies !resolvable(t, #[trigger] cycle[i]) by {
        assert forall|n: nat| !(#[trigger] inherit(t, cycle[i], n) is Some) by {
            lemma_cycle_never_ends(t, cycle, n);
        }
    }
    assert(t.contains_key(cycle[0]));
    assert(!resolvable(t, cycle[0]));
}

} // verus!
