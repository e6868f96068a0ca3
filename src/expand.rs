//! Expanding `$VAR` and `${VAR}` references in a path, against a given list
//! of environment variables.

use vstd::prelude::*;

use crate::text::{chars_of, slice_chars, str_eq, string_of};

verus! {

/// Whether `char::is_alphanumeric` holds of `c`.
pub uninterp spec fn alphanumeric(c: char) -> bool;

/// Relies on `char::is_alphanumeric`: whether `c` is alphabetic or numeric.
#[verifier::external_body]
fn is_alphanumeric(c: char) -> (r: bool)
    ensures
        r == alphanumeric(c),
{
    c.is_alphanumeric()
}

/// A variable reference could not be expanded.
#[derive(Debug)]
pub enum ExpandError {
    /// The variable of this name is not set.
    MissingVar(String),
}

/// Whether `c` may stand in the name of a `$VAR` reference.
pub open spec fn is_name_char(c: char) -> bool {
    alphanumeric(c) || c == '_'
}

/// How many name characters `s` starts with.
pub open spec fn name_run(s: Seq<char>) -> nat
    decreases s.len(),
{
    if s.len() > 0 && is_name_char(s[0]) {
        1 + name_run(s.drop_first())
    } else {
        0
    }
}

/// The position of the first `}` of `s`.
pub open spec fn first_close(s: Seq<char>) -> Option<nat>
    decreases s.len(),
{
    if s.len() == 0 {
        None
    } else if s[0] == '}' {
        Some(0)
    } else {
        match first_close(s.drop_first()) {
            Some(k) => Some(k + 1),
            None => None,
        }
    }
}

/// The variable that `r`, the text right after a `$`, refers to, and how many
/// characters of `r` the reference takes: `{NAME}` up to the first `}` with a
/// non-empty name, or a non-empty run of name characters.
pub open spec fn var_ref(r: Seq<char>) -> Option<(Seq<char>, nat)> {
    if r.len() > 0 && r[0] == '{' {
        match first_close(r) {
            Some(c) => if c <= 1 {
                None
            } else {
                Some((r.subrange(1, c as int), c + 1))
            },
            None => None,
        }
    } else {
        let e = name_run(r);
        if e == 0 {
            None
        } else {
            Some((r.subrange(0, e as int), e))
        }
    }
}

pub proof fn lemma_name_run_bound(s: Seq<char>)
    ensures
        name_run(s) <= s.len(),
    decreases s.len(),
{
    if s.len() > 0 && is_name_char(s[0]) {
        lemma_name_run_bound(s.drop_first());
    }
}

pub proof fn lemma_first_close_bound(s: Seq<char>)
    ensures
        first_close(s) matches Some(c) ==> c < s.len() && s[c as int] == '}',
    decreases s.len(),
{
    if s.len() > 0 && s[0] != '}' {
        lemma_first_close_bound(s.drop_first());
    }
}

/// A reference never takes more characters than follow the `$`.
pub proof fn lemma_var_ref_bound(r: Seq<char>)
    ensures
        var_ref(r) matches Some((_, used)) ==> used <= r.len(),
{
    lemma_name_run_bound(r);
    lemma_first_close_bound(r);
}

/// The value of the first variable of `vars` called `name`.
pub open spec fn env_lookup(vars: Seq<(String, String)>, name: Seq<char>) -> Option<Seq<char>>
    decreases vars.len(),
{
    if vars.len() == 0 {
        None
    } else if vars[0].0@ == name {
        Some(vars[0].1@)
    } else {
        env_lookup(vars.drop_first(), name)
    }
}

/// `prefix` put before a successful expansion.
pub open spec fn after(prefix: Seq<char>, e: Result<Seq<char>, Seq<char>>) -> Result<Seq<char>, Seq<char>> {
    match e {
        Ok(t) => Ok(prefix + t),
        Err(n) => Err(n),
    }
}

/// `s` with each variable reference replaced by the variable's value, read
/// left to right (a value is not scanned again); a `$` that starts no
/// reference stays. `Err` names the first referenced variable that is not set.
pub open spec fn expansion(s: Seq<char>, vars: Seq<(String, String)>) -> Result<Seq<char>, Seq<char>>
    decreases s.len(),
{
    if s.len() == 0 {
        Ok(Seq::empty())
    } else if s[0] != '$' {
        after(seq![s[0]], expansion(s.drop_first(), vars))
    } else {
        let r = s.drop_first();
        match var_ref(r) {
            None => after(seq!['$'], expansion(r, vars)),
            Some((name, used)) => match env_lookup(vars, name) {
                None => Err(name),
                Some(v) => {
                    proof {
                        lemma_var_ref_bound(r);
                    }
                    after(v, expansion(r.subrange(used as int, r.len() as int), vars))
                },
            },
        }
    }
}

/// How many name characters `cs[from..]` starts with.
fn name_run_at(cs: &Vec<char>, from: usize) -> (r: usize)
    requires
        from <= cs@.len(),
    ensures
        r == name_run(cs@.subrange(from as int, cs@.len() as int)),
        from + r <= cs@.len(),
{
    let mut j = from;
    while j < cs.len() && (is_alphanumeric(cs[j]) || cs[j] == '_')
        invariant
            from <= j <= cs@.len(),
            name_run(cs@.subrange(from as int, cs@.len() as int))
                == (j - from) + name_run(cs@.subrange(j as int, cs@.len() as int)),
        decreases cs.len() - j,
    {
        assert(cs@.subrange(j as int, cs@.len() as int).drop_first() =~= cs@.subrange(j + 1, cs@.len() as int));
        j = j + 1;
    }
    j - from
}

/// The position, counted from `from`, of the first `}` of `cs[from..]`.
fn first_close_at(cs: &Vec<char>, from: usize) -> (r: Option<usize>)
    requires
        from <= cs@.len(),
    ensures
        match r {
            Some(c) => first_close(cs@.subrange(from as int, cs@.len() as int)) == Some(c as nat) && from + c < cs@.len(),
            None => first_close(cs@.subrange(from as int, cs@.len() as int)) is None,
        },
{
    let mut j = from;
    while j < cs.len()
        invariant
            from <= j <= cs@.len(),
            first_close(cs@.subrange(from as int, cs@.len() as int)) == match first_close(cs@.subrange(j as int, cs@.len() as int)) {
                Some(k) => Some((k + (j - from)) as nat),
                None => None,
            },
        decreases cs.len() - j,
    {
        if cs[j] == '}' {
            return Some(j - from);
        }
        assert(cs@.subrange(j as int, cs@.len() as int).drop_first() =~= cs@.subrange(j + 1, cs@.len() as int));
        j = j + 1;
    }
    None
}

/// The reference after a `$` that stands at `from - 1`: where its name starts
/// and ends, and how many characters it takes.
fn var_ref_at(cs: &Vec<char>, from: usize) -> (r: Option<(usize, usize, usize)>)
    requires
        from <= cs@.len(),
    ensures
        match r {
            Some((start, end, used)) => {
                &&& from <= start <= end <= cs@.len()
                &&& from + used <= cs@.len()
                &&& var_ref(cs@.subrange(from as int, cs@.len() as int))
                    == Some((cs@.subrange(start as int, end as int), used as nat))
            },
            None => var_ref(cs@.subrange(from as int, cs@.len() as int)) is None,
        },
{
    let ghost rest = cs@.subrange(from as int, cs@.len() as int);
    if from < cs.len() && cs[from] == '{' {
        match first_close_at(cs, from) {
            Some(c) => {
                if c <= 1 {
                    None
                } else {
                    assert(rest.subrange(1, c as int) =~= cs@.subrange(from + 1, (from + c) as int));
                    Some((from + 1, from + c, c + 1))
                }
            },
            None => None,
        }
    } else {
        let e = name_run_at(cs, from);
        if e == 0 {
            None
        } else {
            assert(rest.subrange(0, e as int) =~= cs@.subrange(from as int, (from + e) as int));
            Some((from, from + e, e))
        }
    }
}

/// The value of the first variable of `vars` called `name`.
fn lookup<'a>(vars: &'a Vec<(String, String)>, name: &str) -> (r: Option<&'a String>)
    ensures
        match r {
            Some(v) => env_lookup(vars@, name@) == Some(v@),
            None => env_lookup(vars@, name@) is None,
        },
{
    let mut i: usize = 0;
    assert(vars@.subrange(0, vars@.len() as int) =~= vars@);
    while i < vars.len()
        invariant
            i <= vars@.len(),
            env_lookup(vars@, name@) == env_lookup(vars@.subrange(i as int, vars@.len() as int), name@),
        decreases vars.len() - i,
    {
        assert(vars@.subrange(i as int, vars@.len() as int).drop_first() =~= vars@.subrange(i + 1, vars@.len() as int));
        if str_eq(vars[i].0.as_str(), name) {
            return Some(&vars[i].1);
        }
        i = i + 1;
    }
    None
}

/// Expands the `$VAR` and `${VAR}` references of `path` with the values in
/// `vars`; fails with the name of the first referenced variable that is not set.
pub fn expand_with(path: &str, vars: &Vec<(String, String)>) -> (r: Result<String, ExpandError>)
    ensures
        match expansion(path@, vars@) {
            Ok(t) => r matches Ok(s) && s@ == t,
            Err(name) => r matches Err(ExpandError::MissingVar(n)) && n@ == name,
        },
{
    let cs = chars_of(path);
    let n = cs.len();
    let mut out: Vec<char> = Vec::new();
    let mut i: usize = 0;
    assert(cs@.subrange(0, n as int) =~= cs@);
    while i < n
        invariant
            n == cs@.len(),
            cs@ == path@,
            i <= n,
            expansion(path@, vars@) == after(out@, expansion(cs@.subrange(i as int, n as int), vars@)),
        decreases n - i,
    {
        let ghost s = cs@.subrange(i as int, n as int);
        let ghost out0 = out@;
        assert(s[0] == cs@[i as int]);
        assert(s.drop_first() =~= cs@.subrange(i + 1, n as int));
        if cs[i] != '$' {
            out.push(cs[i]);
            assert(out0 + seq![cs@[i as int]] =~= out@);
            proof {
                match expansion(s.drop_first(), vars@) {
                    Ok(t) => assert(out0 + (seq![cs@[i as int]] + t) =~= out@ + t),
                    Err(_) => {},
                }
            }
            i = i + 1;
        } else {
            match var_ref_at(&cs, i + 1) {
                None => {
                    out.push('$');
                    proof {
                        match expansion(s.drop_first(), vars@) {
                            Ok(t) => assert(out0 + (seq!['$'] + t) =~= out@ + t),
                            Err(_) => {},
                        }
                    }
                    i = i + 1;
                },
                Some((start, end, used)) => {
                    let name = string_of(&slice_chars(&cs, start, end));
                    match lookup(vars, name.as_str()) {
                        None => {
                            return Err(ExpandError::MissingVar(name));
                        },
                        Some(v) => {
                            let vc = chars_of(v.as_str());
                            let mut k: usize = 0;
                            while k < vc.len()
                                invariant
                                    k <= vc@.len(),
                                    out@ == out0 + vc@.subrange(0, k as int),
                                decreases vc.len() - k,
                            {
                                out.push(vc[k]);
                                k = k + 1;
                            }
                            proof {
                                assert(vc@.subrange(0, vc@.len() as int) =~= vc@);
                                let r = s.drop_first();
                                assert(r.subrange(used as int, r.len() as int) =~= cs@.subrange(i + 1 + used, n as int));
                                match expansion(cs@.subrange(i + 1 + used, n as int), vars@) {
                                    Ok(t) => assert(out0 + (vc@ + t) =~= out@ + t),
                                    Err(_) => {},
                                }
                            }
                            i = i + 1 + used;
                        },
                    }
                },
            }
        }
    }
    assert(out@ + Seq::<char>::empty() =~= out@);
    Ok(string_of(&out))
}

} // verus!
